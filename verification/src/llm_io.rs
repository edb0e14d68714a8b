//! Around the language model: which errors are worth another try, and cheap
//! embeddings of text.

pub mod embeddings;
pub mod llm_query;
