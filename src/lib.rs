//! Retrieval-augmented documentation assistant: document segmentation, the
//! corpus that answers are drawn from, the reindex coordinator and the
//! decisions of the answer and webhook paths.
pub mod files;
pub mod github;
pub mod llm;
pub mod qdrant;
pub mod routes;
pub mod state;
