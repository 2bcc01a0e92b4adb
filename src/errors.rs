//! The library's error types.

use vstd::prelude::*;

verus! {

/// Errors of the configuration.
#[derive(Debug)]
pub enum ConfigError {
    /// The configuration file could not be read or written.
    IoError(String),
    /// The directory is already in the configuration.
    PathExists,
}

/// Errors of the application: configuration, I/O, and parsing of persisted data.
#[derive(Debug)]
pub enum LpError {
    ConfigError(ConfigError),
    /// Any other failure, for instance a missing index file.
    Error(String),
    IoError(String),
    /// Malformed JSON.
    SerdeError(String),
    /// Malformed YAML.
    YamlError(String),
}

/// A directory that could not be walked.
#[derive(Debug)]
pub enum DirError {
    Error(String),
}

impl DirError {
    /// The message the error carries.
    pub fn message(&self) -> (r: &String)
        ensures
            match self {
                DirError::Error(m) => r@ == m@,
            },
    {
        match self {
            DirError::Error(m) => m,
        }
    }
}

} // verus!
