//! The dispatcher's answers: one transport-level response per resolved
//! target, and a single not-found answer that every resolution failure
//! collapses to. The transport collaborator frames these as HTTP; nothing
//! here touches a socket.
use crate::api::{json_listing, listing_entry, ChildInfo, DirectoryEntryV, API};
use crate::config::cfg_mimetypes;
use crate::directory::{directory_response, Directory};
use crate::file::{file_mimetype, text_gated, File, FileError};
use vstd::prelude::*;
use vstd::utf8::{encode_utf8, valid_utf8};

verus! {

/// One answer for the transport: a status code, a content type (empty when
/// no content-type header is owed), and the body bytes.
pub struct Response {
    pub status: u16,
    pub content_type: String,
    pub body: Vec<u8>,
}

pub struct HTTP;

impl HTTP {
    /// The one not-found answer: a request no route matches, a pattern that
    /// does not compile, and a target the filesystem does not confirm all
    /// end here.
    pub fn not_found() -> (r: Response)
        ensures
            r.status == 404,
            r.content_type@.len() == 0,
            r.body@ == encode_utf8("Not Found"@),
    {
        Response { status: 404, content_type: String::new(), body: "Not Found".as_bytes_vec() }
    }

    /// The listing answer: the enumerated children shaped into entries and
    /// serialized, served as application/json; an unreadable directory —
    /// no enumeration at all — degrades to an empty listing.
    pub fn respond_api(api: &API, children: Option<&Vec<ChildInfo>>) -> (r: Response)
        ensures
            r.status == 200,
            r.content_type@ == "application/json"@,
            match children {
                Some(c) => r.body@ == encode_utf8(
                    json_listing(
                        Seq::new(
                            c@.len(),
                            |i: int| listing_entry(cfg_mimetypes(*api.config), c@[i]@, api.path@),
                        ),
                    ),
                ),
                None => r.body@ == encode_utf8(json_listing(Seq::<DirectoryEntryV>::empty())),
            },
    {
        let body = api.json(children);
        Response { status: 200, content_type: api.content_type(), body: body.as_str().as_bytes_vec() }
    }

    /// The file answer. Served content carries the file's mimetype; a
    /// failed read answers not found, and text content that is not UTF-8 a
    /// distinct server-side failure — the stricter surfacing of read
    /// failures, in place of a silent empty body.
    pub fn respond_file(file: &File, bytes: Option<Vec<u8>>) -> (r: Response)
        ensures
            bytes is None ==> r.status == 404 && r.content_type@.len() == 0 && r.body@
                == encode_utf8("Not Found"@),
            bytes matches Some(b) ==> if text_gated(file.endpoint@) && !valid_utf8(b@) {
                r.status == 500 && r.content_type@.len() == 0 && r.body@ == encode_utf8(
                    "[Invalid UTF-8]"@,
                )
            } else {
                r.status == 200 && r.content_type@ == file_mimetype(*file.config, file.endpoint@)
                    && r.body@ == b@
            },
    {
        match file.read(bytes) {
            Ok(content) => Response {
                status: 200,
                content_type: file.mimetype(),
                body: content,
            },
            Err(e) => match e {
                FileError::NotFound => Response {
                    status: 404,
                    content_type: String::new(),
                    body: "Not Found".as_bytes_vec(),
                },
                FileError::InvalidText => Response {
                    status: 500,
                    content_type: String::new(),
                    body: "[Invalid UTF-8]".as_bytes_vec(),
                },
            },
        }
    }

    /// The shell answer for a directory target: always the fixed shell,
    /// served as text/html.
    pub fn respond_directory(dir: &Directory, shell: Option<Vec<u8>>) -> (r: Response)
        ensures
            r.status == 200,
            r.content_type@ == "text/html"@,
            r.body@ == encode_utf8(
                directory_response(
                    *dir,
                    match shell {
                        Some(b) => Some(b@),
                        None => None,
                    },
                ),
            ),
    {
        let body = dir.listing(shell);
        Response { status: 200, content_type: dir.content_type(), body: body.as_str().as_bytes_vec() }
    }
}

} // verus!
