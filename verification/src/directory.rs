//! The application-shell provider: any directory resolved under a
//! non-listing route is answered with one fixed HTML shell, whatever
//! directory was asked for; the client fetches the actual listing itself.
use crate::config::Config;
use crate::text::utf8_to_string;
use std::sync::Arc;
use vstd::prelude::*;
use vstd::utf8::{decode_utf8, valid_utf8};

verus! {

pub struct Directory {
    pub config: Arc<Config>,
    pub endpoint: String,
    pub path: String,
    pub root_dir: String,
}

/// The body served for a directory: the shell resource decoded as UTF-8, or
/// a fixed placeholder when the resource is unreadable or not text.
pub open spec fn shell_text(shell: Option<Seq<u8>>) -> Seq<char> {
    match shell {
        Some(b) => if valid_utf8(b) {
            decode_utf8(b)
        } else {
            "[File not found or invalid UTF-8]"@
        },
        None => "[File not found or invalid UTF-8]"@,
    }
}

/// What a directory provider answers: a function of the shell bytes alone.
/// That the directory itself does not appear on the right-hand side is the
/// point: every directory is served the same shell.
pub open spec fn directory_response(d: Directory, shell: Option<Seq<u8>>) -> Seq<char> {
    shell_text(shell)
}

/// Two directory providers handed the same shell resource answer
/// identically, whichever directories they were resolved for.
pub proof fn lemma_shell_path_independent(d1: Directory, d2: Directory, shell: Option<Seq<u8>>)
    ensures
        directory_response(d1, shell) == directory_response(d2, shell),
{
}

impl Directory {
    pub fn new(config: Arc<Config>, endpoint: String, path: String, root_dir: String) -> (r: Self)
        ensures
            r.config == config,
            r.endpoint == endpoint,
            r.path == path,
            r.root_dir == root_dir,
    {
        Directory { config, endpoint, path, root_dir }
    }

    /// The shell body. `shell` is what the collaborator read from the fixed
    /// shell resource, or nothing when the read failed.
    pub fn listing(&self, shell: Option<Vec<u8>>) -> (r: String)
        ensures
            r@ == directory_response(*self, match shell {
                Some(b) => Some(b@),
                None => None,
            }),
    {
        match shell {
            Some(b) => match utf8_to_string(&b) {
                Some(s) => s,
                None => String::from_str("[File not found or invalid UTF-8]"),
            },
            None => String::from_str("[File not found or invalid UTF-8]"),
        }
    }

    pub fn content_type(&self) -> (r: String)
        ensures
            r@ == "text/html"@,
    {
        String::from_str("text/html")
    }
}

} // verus!
