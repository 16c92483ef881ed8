use xuan_agent::storage::models::ChunkType;
use xuan_agent::storage::surrealdb::{
    chunk_type_label, listed_papers, qualify_paper_id, record_key, server_address, SurrealDBStorage,
};

#[test]
fn address_without_scheme_and_rpc_suffix() {
    assert_eq!(server_address("ws://127.0.0.1:8000/rpc"), "127.0.0.1:8000");
    assert_eq!(server_address(" https://db.example.com "), "db.example.com");
    assert_eq!(server_address("localhost:8000"), "localhost:8000");
}

#[test]
fn record_keys_and_ids() {
    assert_eq!(record_key("paper:1234"), "1234");
    assert_eq!(record_key("1234"), "1234");
    assert_eq!(qualify_paper_id("1234"), "paper:1234");
    assert_eq!(qualify_paper_id("paper:1234"), "paper:1234");
}

#[test]
fn chunk_types_are_stored_in_lowercase() {
    assert_eq!(chunk_type_label(&ChunkType::Introduction), "introduction");
    assert_eq!(chunk_type_label(&ChunkType::References), "references");
}

#[test]
fn listing_numbers_the_papers() {
    let papers = listed_papers(vec!["First".to_string(), "Second".to_string()]);
    assert_eq!(papers.len(), 2);
    assert_eq!(papers[0].id, "paper:0");
    assert_eq!(papers[1].id, "paper:1");
    assert_eq!(papers[1].title, "Second");
    assert_eq!(papers[0].authors, vec!["Unknown".to_string()]);
    assert!(papers[0].year.is_none() && papers[0].journal.is_none());
}

#[test]
fn store_keeps_namespace_and_database() {
    let s = SurrealDBStorage::from_client((), "ns".to_string(), "db".to_string());
    assert_eq!(s.namespace(), "ns");
    assert_eq!(s.database(), "db");
}
