//! Embedding service settings and the text chunking done before embedding.
use vstd::prelude::*;
use crate::config::AiProviderConfig;
use crate::segment::{char_views, line_chunks, line_chunks_exec};
use crate::text::string_of;

verus! {

/// The embedding dimension a provider's default model has.
pub open spec fn default_dim(provider: Seq<char>) -> usize {
    if provider == "openai"@ {
        1536
    } else {
        768
    }
}

/// Settings of the embedding service; the HTTP calls are made by the
/// application around this library.
#[derive(Debug)]
pub struct EmbeddingService {
    config: AiProviderConfig,
    /// Embedding dimension.
    pub embedding_dim: usize,
}

impl EmbeddingService {
    /// The provider settings.
    pub closed spec fn settings(&self) -> AiProviderConfig {
        self.config
    }

    /// The embedding dimension.
    pub closed spec fn dim(&self) -> usize {
        self.embedding_dim
    }

    /// A service for the provider: dimension 1536 for "openai", else 768.
    pub fn new(config: AiProviderConfig) -> (r: Self)
        ensures
            r.settings() == config,
            r.dim() == default_dim(config.provider@),
    {
        let openai = String::from_str("openai");
        let embedding_dim = if config.provider == openai {
            1536
        } else {
            768
        };
        Self { config, embedding_dim }
    }

    /// The same service with another dimension.
    pub fn with_embedding_dim(self, dim: usize) -> (r: Self)
        ensures
            r.settings() == self.settings(),
            r.dim() == dim,
    {
        let mut s = self;
        s.embedding_dim = dim;
        s
    }

    /// The embedding dimension.
    pub fn embedding_dim(&self) -> (r: usize)
        ensures
            r == self.dim(),
    {
        self.embedding_dim
    }

    /// The embeddings endpoint: `{base_url}/embeddings`.
    pub fn endpoint(&self) -> (r: String)
        ensures
            r@ == self.settings().base_url@ + "/embeddings"@,
    {
        let mut r = self.config.base_url.clone();
        r.append("/embeddings");
        r
    }

    /// The authorization header value: `Bearer {api_key}`.
    pub fn authorization(&self) -> (r: String)
        ensures
            r@ == "Bearer "@ + self.settings().api_key@,
    {
        let mut r = String::from_str("Bearer ");
        r.append(self.config.api_key.as_str());
        r
    }

    /// The model to ask for.
    pub fn model(&self) -> (r: &str)
        ensures
            r@ == self.settings().model@,
    {
        self.config.model.as_str()
    }

    /// Cuts a text into chunks for embedding (see `line_chunks`): its
    /// non-blank lines, trimmed, packed within `max_chunk_size` characters
    /// and joined by line feeds.
    pub fn chunk_text(&self, text: &str, max_chunk_size: usize) -> (r: Vec<String>)
        ensures
            r.deep_view() == line_chunks(text@, max_chunk_size as nat),
    {
        let parts = line_chunks_exec(text, max_chunk_size);
        let mut r: Vec<String> = Vec::new();
        let mut i: usize = 0;
        while i < parts.len()
            invariant
                i <= parts.len(),
                r.deep_view() == char_views(parts@).take(i as int),
            decreases parts.len() - i,
        {
            let ghost before = r.deep_view();
            r.push(string_of(&parts[i]));
            assert(r.deep_view() =~= before.push(parts@[i as int]@));
            i = i + 1;
        }
        assert(char_views(parts@).take(i as int) =~= char_views(parts@));
        r
    }
}

} // verus!
