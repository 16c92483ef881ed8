//! The SurrealDB store: the connection it holds and the identifiers and
//! addresses it reads and writes. The queries themselves are sent by the
//! application around this library.
use vstd::prelude::*;
use crate::storage::models::{ChunkType, PaperInfo};
use crate::text::{
    after_last, after_last_exec, chars_of, contains, contains_exec, decimal, decimal_string,
    literal, replace_all, replace_str, trim, trim_bounds, copy_range, string_of,
};

verus! {

/// A connected store, with the namespace and database it uses; the
/// application chooses the client type `D` (a SurrealDB WebSocket client).
pub struct SurrealDBStorage<D> {
    client: D,
    namespace: String,
    database: String,
}

impl<D> SurrealDBStorage<D> {
    /// The namespace in use.
    pub closed spec fn namespace_view(&self) -> Seq<char> {
        self.namespace@
    }

    /// The database in use.
    pub closed spec fn database_view(&self) -> Seq<char> {
        self.database@
    }

    /// A store over a client that is signed in and uses the namespace and
    /// database given.
    pub fn from_client(
        client: D,
        namespace: String,
        database: String,
    ) -> (r: Self)
        ensures
            r.client_view() == client,
            r.namespace_view() == namespace@,
            r.database_view() == database@,
    {
        SurrealDBStorage { client, namespace, database }
    }

    /// The client.
    pub closed spec fn client_view(&self) -> D {
        self.client
    }

    /// The client.
    pub fn client(&self) -> (r: &D)
        ensures
            *r == self.client_view(),
    {
        &self.client
    }

    /// The namespace in use.
    pub fn namespace(&self) -> (r: &str)
        ensures
            r@ == self.namespace_view(),
    {
        self.namespace.as_str()
    }

    /// The database in use.
    pub fn database(&self) -> (r: &str)
        ensures
            r@ == self.database_view(),
    {
        self.database.as_str()
    }
}

/// The address to open a WebSocket to: the configured one without the
/// schemes `ws://`, `wss://`, `http://`, `https://` and without `/rpc`, each
/// removed everywhere in that order, then trimmed.
pub open spec fn address_of(connect: Seq<char>) -> Seq<char> {
    trim(
        replace_all(
            replace_all(
                replace_all(
                    replace_all(replace_all(connect, "ws://"@, seq![]), "wss://"@, seq![]),
                    "http://"@,
                    seq![],
                ),
                "https://"@,
                seq![],
            ),
            "/rpc"@,
            seq![],
        ),
    )
}

/// The address to open a WebSocket to (see `address_of`).
pub fn server_address(connect: &str) -> (r: String)
    ensures
        r@ == address_of(connect@),
{
    proof {
        reveal_strlit("ws://");
        reveal_strlit("wss://");
        reveal_strlit("http://");
        reveal_strlit("https://");
        reveal_strlit("/rpc");
        reveal_strlit("");
    }
    let a = replace_str(connect, "ws://", "");
    let b = replace_str(a.as_str(), "wss://", "");
    let c = replace_str(b.as_str(), "http://", "");
    let d = replace_str(c.as_str(), "https://", "");
    let e = replace_str(d.as_str(), "/rpc", "");
    assert(""@ =~= Seq::<char>::empty());
    let v = chars_of(e.as_str());
    let (lo, hi) = trim_bounds(&v, 0, v.len());
    assert(v@.subrange(0, v.len() as int) =~= v@);
    string_of(&copy_range(&v, lo, hi))
}

/// The key of a record identifier: what follows its last ':' (all of it
/// when it has none).
pub fn record_key(id: &str) -> (r: String)
    ensures
        r@ == after_last(id@, ':'),
{
    after_last_exec(id, ':')
}

/// A paper identifier with its table: `paper:{id}` unless it already holds
/// a ':'.
pub open spec fn paper_record_id(id: Seq<char>) -> Seq<char> {
    if contains(id, ":"@) {
        id
    } else {
        "paper:"@ + id
    }
}

/// A paper identifier with its table (see `paper_record_id`).
pub fn qualify_paper_id(id: &str) -> (r: String)
    ensures
        r@ == paper_record_id(id@),
{
    let v = chars_of(id);
    if contains_exec(&v, &literal(":")) {
        String::from_str(id)
    } else {
        let mut r = String::from_str("paper:");
        r.append(id);
        r
    }
}

/// How a chunk kind is stored: its name in lowercase.
pub open spec fn chunk_type_name(t: ChunkType) -> Seq<char> {
    match t {
        ChunkType::Title => "title"@,
        ChunkType::Abstract => "abstract"@,
        ChunkType::Introduction => "introduction"@,
        ChunkType::Methods => "methods"@,
        ChunkType::Results => "results"@,
        ChunkType::Discussion => "discussion"@,
        ChunkType::Conclusion => "conclusion"@,
        ChunkType::References => "references"@,
        ChunkType::Other => "other"@,
    }
}

/// How a chunk kind is stored (see `chunk_type_name`).
pub fn chunk_type_label(t: &ChunkType) -> (r: String)
    ensures
        r@ == chunk_type_name(*t),
{
    match t {
        ChunkType::Title => String::from_str("title"),
        ChunkType::Abstract => String::from_str("abstract"),
        ChunkType::Introduction => String::from_str("introduction"),
        ChunkType::Methods => String::from_str("methods"),
        ChunkType::Results => String::from_str("results"),
        ChunkType::Discussion => String::from_str("discussion"),
        ChunkType::Conclusion => String::from_str("conclusion"),
        ChunkType::References => String::from_str("references"),
        ChunkType::Other => String::from_str("other"),
    }
}

/// The `i`-th listed paper has id `paper:{i}`, the `i`-th title, the single
/// author "Unknown", and no year or journal.
pub open spec fn listed_as(r: Seq<PaperInfo>, titles: Seq<Seq<char>>) -> bool {
    &&& r.len() == titles.len()
    &&& forall|i: int| 0 <= i < r.len() ==> {
        &&& (#[trigger] r[i]).id@ == "paper:"@ + decimal(i as nat)
        &&& r[i].title@ == titles[i]
        &&& r[i].authors@.len() == 1
        &&& r[i].authors@[0]@ == "Unknown"@
        &&& r[i].year is None
        &&& r[i].journal is None
    }
}

/// The papers a listing shows for the titles the database returned, in
/// order.
pub fn listed_papers(titles: Vec<String>) -> (r: Vec<PaperInfo>)
    requires
        titles@.len() <= u64::MAX,
    ensures
        listed_as(r@, titles.deep_view()),
{
    let mut r: Vec<PaperInfo> = Vec::new();
    let mut i: usize = 0;
    while i < titles.len()
        invariant
            i <= titles.len(),
            titles@.len() <= u64::MAX,
            listed_as(r@, titles.deep_view().take(i as int)),
        decreases titles.len() - i,
    {
        let mut id = String::from_str("paper:");
        let n = decimal_string(i as u64);
        id.append(n.as_str());
        let info = PaperInfo {
            id,
            title: titles[i].clone(),
            authors: vec![String::from_str("Unknown")],
            year: None,
            journal: None,
        };
        let ghost before = r@;
        r.push(info);
        assert forall|j: int| 0 <= j < r@.len() implies {
            &&& (#[trigger] r@[j]).id@ == "paper:"@ + decimal(j as nat)
            &&& r@[j].title@ == titles.deep_view().take(i + 1)[j]
            &&& r@[j].authors@.len() == 1
            &&& r@[j].authors@[0]@ == "Unknown"@
            &&& r@[j].year is None
            &&& r@[j].journal is None
        } by {
            if j < i {
                assert(r@[j] == before[j]);
            }
        }
        i = i + 1;
    }
    assert(titles.deep_view().take(i as int) =~= titles.deep_view());
    r
}

} // verus!
