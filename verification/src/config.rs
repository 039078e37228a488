//! The configuration that governs every dispatch.

use vstd::prelude::*;
use vstd::std_specs::convert::FromSpecImpl;

verus! {

/// Read-only settings of the dispatch engine.
#[derive(Debug, Clone)]
pub struct CounterfeitConfig {
    /// The directory that stands for the URL root `/`.
    pub base_path: String,
    pub write: bool,
    /// Whether an empty response file is to be made where none exists.
    /// Declared for the surrounding program; no dispatch reads it.
    pub create_missing: bool,
    /// Whether the one-line log of each request and response is left out.
    pub silent: bool,
    /// What a directory name starts with when it stands for a path parameter.
    pub prefix: String,
    /// What a directory name ends with when it stands for a path parameter.
    pub postfix: String,
}

/// The settings as a user gives them when starting the server.
#[derive(Debug, Clone)]
pub struct CounterfeitRunOptions {
    pub base_path: String,
    pub write: bool,
    pub create_missing: bool,
    pub silent: bool,
    pub host: String,
    pub port: u16,
    pub param_prefix: String,
    pub param_postfix: String,
    /// One marker for both ends of a parameter segment; it overrides
    /// `param_prefix` and `param_postfix`.
    pub param_surround: Option<String>,
    pub ignore_file_prefix: Option<String>,
}

impl CounterfeitRunOptions {
    /// The marker that opens a parameter segment under these options.
    pub open spec fn prefix(self) -> String {
        match self.param_surround {
            Some(surround) => surround,
            None => self.param_prefix,
        }
    }

    /// The marker that closes a parameter segment under these options.
    pub open spec fn postfix(self) -> String {
        match self.param_surround {
            Some(surround) => surround,
            None => self.param_postfix,
        }
    }
}

impl FromSpecImpl<CounterfeitRunOptions> for CounterfeitConfig {
    open spec fn obeys_from_spec() -> bool {
        true
    }

    open spec fn from_spec(options: CounterfeitRunOptions) -> CounterfeitConfig {
        CounterfeitConfig {
            base_path: options.base_path,
            write: options.write,
            create_missing: options.create_missing,
            silent: options.silent,
            prefix: options.prefix(),
            postfix: options.postfix(),
        }
    }
}

impl From<CounterfeitRunOptions> for CounterfeitConfig {
    /// The configuration that `options` ask for: a surround marker, where
    /// given, is both prefix and postfix.
    fn from(options: CounterfeitRunOptions) -> (config: CounterfeitConfig) {
        let CounterfeitRunOptions {
            base_path,
            write,
            create_missing,
            silent,
            host: _,
            port: _,
            param_prefix,
            param_postfix,
            param_surround,
            ignore_file_prefix: _,
        } = options;
        let (prefix, postfix) = match param_surround {
            Some(surround) => (surround.clone(), surround),
            None => (param_prefix, param_postfix),
        };
        CounterfeitConfig { base_path, write, create_missing, silent, prefix, postfix }
    }
}

} // verus!
