pub mod completion;
pub mod concurrent;
pub mod config;
pub mod document;
pub mod documents;
pub mod errors;
pub mod live_keywords_docs;
pub mod lru_session_cache;
pub mod manifest;
pub mod parser;
pub mod paths;
pub mod plugin;
pub mod session;
pub mod session_manager;
pub mod sync;
pub mod uri;
