//! Backend logic for a multi-tab browser shell: a registry of embedded
//! web-surface tabs with their on-screen geometry, two small JSON-backed
//! stores (bookmarks and history), and validation of the URLs the frontend
//! hands in. The host framework performs the actual window and file work;
//! this crate holds the decisions and the data, with their proofs.

use vstd::prelude::*;

pub mod chars;
pub mod clock;
pub mod codec;
pub mod digits;
pub mod model;
pub mod store;
pub mod tabs;
pub mod urls;
pub mod window;

verus! {

/// A fallible operation of the shell backend fails in one of these ways.
#[derive(Clone, Copy, PartialEq, Eq, Structural, Debug)]
pub enum ShellError {
    /// The URL handed in could not be parsed.
    InvalidUrl,
}

impl ShellError {
    /// A human-readable message, as the frontend displays errors verbatim.
    pub fn message(&self) -> (r: &'static str)
        ensures
            self is InvalidUrl ==> r@ == "Invalid URL"@,
    {
        match self {
            ShellError::InvalidUrl => "Invalid URL",
        }
    }
}

} // verus!
