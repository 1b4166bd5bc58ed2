pub mod tsdropcheck;
pub mod text;
pub mod recorded;
pub mod mirakc;
pub mod thumbnail;
pub mod order;
pub mod trash;
pub mod config;

pub use config::{AppState, SearchQuery};
pub use trash::TrashInfo;
