pub mod api;
pub mod config;
pub mod directory;
pub mod file;
pub mod http;
pub mod path;
pub mod resolver;
pub mod text;

pub use api::API;
pub use config::Config;
pub use directory::Directory;
pub use file::File;
pub use path::FSPath;
pub use resolver::Resolver;
