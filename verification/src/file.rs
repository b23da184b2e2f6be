//! The file provider: given the bytes read from a resolved file, it gates
//! known text extensions on UTF-8 validity and otherwise passes the bytes
//! through unchanged; its mimetype comes from a case-insensitive lookup in
//! the configured table.
use crate::config::{
    cfg_mimetypes, lemma_mt_last_match_at, mt_contains, mt_last_match, Config,
};
use crate::text::{extension, extension_of, lower_of, lowercase, str_eq};
use crate::text::utf8_to_string;
use std::sync::Arc;
use vstd::prelude::*;
use vstd::utf8::valid_utf8;

verus! {

pub struct File {
    pub config: Arc<Config>,
    pub endpoint: String,
    pub path: String,
    pub root_dir: String,
}

#[derive(Debug, Clone, Copy, PartialEq, Eq, Structural)]
pub enum FileError {
    NotFound,
    InvalidText,
}

impl FileError {
    /// The text the transport serves for this error.
    pub fn message(&self) -> (r: String)
        ensures
            *self is NotFound ==> r@ == "[File not found]"@,
            *self is InvalidText ==> r@ == "[Invalid UTF-8]"@,
    {
        match self {
            FileError::NotFound => String::from_str("[File not found]"),
            FileError::InvalidText => String::from_str("[Invalid UTF-8]"),
        }
    }
}

/// The extensions whose content is validated as UTF-8 text before serving.
pub open spec fn is_text_extension(e: Seq<char>) -> bool {
    e == "txt"@ || e == "html"@ || e == "json"@ || e == "css"@ || e == "js"@
}

/// Whether a path's content passes through the text gate: its extension,
/// lowercased, names a text format.
pub open spec fn text_gated(p: Seq<char>) -> bool {
    match extension_of(p) {
        Some(e) => is_text_extension(lower_of(e)),
        None => false,
    }
}

/// The mimetype served for a file path: the extension is lowercased and
/// looked up in the table as a mapping, so the last entry wins on a
/// duplicate extension; an unregistered or missing extension falls back to
/// application/octet-stream.
pub open spec fn file_mimetype(c: Config, p: Seq<char>) -> Seq<char> {
    let key = match extension_of(p) {
        Some(e) => lower_of(e),
        None => Seq::<char>::empty(),
    };
    match cfg_mimetypes(c) {
        Some(t) => if mt_contains(t, key) {
            mt_last_match(t, key).mimetype
        } else {
            "application/octet-stream"@
        },
        None => "application/octet-stream"@,
    }
}

impl File {
    pub fn new(config: Arc<Config>, endpoint: String, path: String, root_dir: String) -> (r: Self)
        ensures
            r.config == config,
            r.endpoint == endpoint,
            r.path == path,
            r.root_dir == root_dir,
    {
        File { config, endpoint, path, root_dir }
    }

    /// The content gate. `bytes` is what the collaborator read from the
    /// resolved file, or nothing when the read failed. Content under a text
    /// extension must be valid UTF-8; everything else passes through
    /// unchanged. Valid content always comes back exactly as it went in.
    pub fn read(&self, bytes: Option<Vec<u8>>) -> (r: Result<Vec<u8>, FileError>)
        ensures
            bytes is None ==> r == Err::<Vec<u8>, FileError>(FileError::NotFound),
            bytes matches Some(b) ==> if text_gated(self.endpoint@) && !valid_utf8(b@) {
                r == Err::<Vec<u8>, FileError>(FileError::InvalidText)
            } else {
                r matches Ok(out) && out@ == b@
            },
    {
        match bytes {
            None => Err(FileError::NotFound),
            Some(b) => {
                let ext = extension(self.endpoint.as_str());
                let gated: bool = match &ext {
                    Some(e) => {
                        let low = lowercase(e.as_str());
                        let l = low.as_str();
                        str_eq(l, "txt") || str_eq(l, "html") || str_eq(l, "json") || str_eq(
                            l,
                            "css",
                        ) || str_eq(l, "js")
                    },
                    None => false,
                };
                if gated {
                    match utf8_to_string(&b) {
                        Some(_) => Ok(b),
                        None => Err(FileError::InvalidText),
                    }
                } else {
                    Ok(b)
                }
            },
        }
    }

    /// The mimetype of the resolved file, as `file_mimetype` describes it.
    pub fn mimetype(&self) -> (r: String)
        ensures
            r@ == file_mimetype(*self.config, self.endpoint@),
    {
        let ext = extension(self.endpoint.as_str());
        let key: String = match &ext {
            Some(e) => lowercase(e.as_str()),
            None => String::new(),
        };
        let cfg: &Config = &*self.config;
        match &cfg.mimetypes {
            Some(m) => {
                let n = m.0.len();
                let mut i: usize = n;
                while i > 0
                    invariant
                        n == m.0.len(),
                        m@.len() == n,
                        i <= n,
                        key@ == (match extension_of(self.endpoint@) {
                            Some(e) => lower_of(e),
                            None => Seq::<char>::empty(),
                        }),
                        cfg_mimetypes(*self.config) == Some(m@),
                        forall|j: int| i <= j < n ==> m@[j].extension != key@,
                        forall|j: int| 0 <= j < n ==> m@[j] == m.0@[j]@,
                    decreases i,
                {
                    i -= 1;
                    if str_eq(m.0[i].extension.as_str(), key.as_str()) {
                        proof {
                            assert(m@[i as int] == m.0@[i as int]@);
                            lemma_mt_last_match_at(m@, key@, i as int);
                        }
                        return m.0[i].mimetype.clone();
                    }
                }
                String::from_str("application/octet-stream")
            },
            None => String::from_str("application/octet-stream"),
        }
    }
}

} // verus!
