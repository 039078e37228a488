//! A REST API simulator's dispatch engine: a request path is resolved to a
//! directory of canned responses, and one response file is selected for the
//! request's method, rotating through the files that match.

pub mod config;
pub mod default;
pub mod error;
pub mod path;
pub mod rest;
pub mod rotation;
pub mod services;
pub mod text;

pub use crate::config::CounterfeitConfig;
pub use crate::config::CounterfeitRunOptions;
pub use crate::default::file_dispatcher::DefaultFileDispatcher;
pub use crate::default::DefaultRequest;
pub use crate::error::Error;
pub use crate::rest::rest_dir_dispatcher::RestDirDispatcher;
pub use crate::rotation::MultiFileIndexMap;
pub use crate::services::FileMapperService;
pub use crate::services::MapperOutput;
