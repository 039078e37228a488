//! Resolution of request paths against a tree of directories.

pub mod rest_dir_dispatcher;
