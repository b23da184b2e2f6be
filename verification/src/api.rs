//! The directory-listing provider: it turns the enumerated children of a
//! resolved directory into listing entries and serializes them to the fixed
//! JSON wire shape, one object per child with the keys name, mimetype,
//! mimetype_icon, is_dir and request.
use crate::config::{
    cfg_mimetypes, Config, MimetypeV,
    mt_contains, mt_last_match,
};
use crate::text::{extension, extension_of};
use std::sync::Arc;
use vstd::prelude::*;

verus! {

pub struct API {
    pub config: Arc<Config>,
    pub endpoint: String,
    pub path: String,
    pub root_dir: String,
}

/// One enumerated child of the listed directory: its bare name and whether
/// it is itself a directory. The enumeration is the collaborator's work; the
/// provider only shapes it.
pub struct ChildInfo {
    pub name: String,
    pub is_dir: bool,
}

pub struct ChildInfoV {
    pub name: Seq<char>,
    pub is_dir: bool,
}

impl View for ChildInfo {
    type V = ChildInfoV;

    open spec fn view(&self) -> ChildInfoV {
        ChildInfoV { name: self.name@, is_dir: self.is_dir }
    }
}

/// One listing entry of the JSON output. `request` is the listed directory's
/// own request path, not the child's: the client joins the two itself.
pub struct DirectoryEntry {
    pub name: String,
    pub mimetype: String,
    pub mimetype_icon: String,
    pub is_dir: bool,
    pub request: String,
}

pub struct DirectoryEntryV {
    pub name: Seq<char>,
    pub mimetype: Seq<char>,
    pub mimetype_icon: Seq<char>,
    pub is_dir: bool,
    pub request: Seq<char>,
}

impl View for DirectoryEntry {
    type V = DirectoryEntryV;

    open spec fn view(&self) -> DirectoryEntryV {
        DirectoryEntryV {
            name: self.name@,
            mimetype: self.mimetype@,
            mimetype_icon: self.mimetype_icon@,
            is_dir: self.is_dir,
            request: self.request@,
        }
    }
}

/// The entry shown when no mimetype entry applies; the directory type and
/// icon stand in even for plain files without a registered extension.
pub open spec fn default_entry(child: ChildInfoV, req: Seq<char>) -> DirectoryEntryV {
    DirectoryEntryV {
        name: child.name,
        mimetype: "application/directory"@,
        mimetype_icon: "📂"@,
        is_dir: child.is_dir,
        request: req,
    }
}

/// The listing entry for one child: a non-empty extension that the table
/// registers drives the type and icon, even when the child is a directory;
/// the lookup is case-sensitive, and the last table entry wins.
pub open spec fn listing_entry(
    mts: Option<Seq<MimetypeV>>,
    child: ChildInfoV,
    req: Seq<char>,
) -> DirectoryEntryV {
    match (extension_of(child.name), mts) {
        (Some(e), Some(t)) => if e.len() > 0 && mt_contains(t, e) {
            DirectoryEntryV {
                name: child.name,
                mimetype: mt_last_match(t, e).mimetype,
                mimetype_icon: mt_last_match(t, e).icon,
                is_dir: child.is_dir,
                request: req,
            }
        } else {
            default_entry(child, req)
        },
        _ => default_entry(child, req),
    }
}

/// The hexadecimal digit for a value below sixteen.
pub open spec fn hex_char(n: u32) -> char {
    if n == 0 {
        '0'
    } else if n == 1 {
        '1'
    } else if n == 2 {
        '2'
    } else if n == 3 {
        '3'
    } else if n == 4 {
        '4'
    } else if n == 5 {
        '5'
    } else if n == 6 {
        '6'
    } else if n == 7 {
        '7'
    } else if n == 8 {
        '8'
    } else if n == 9 {
        '9'
    } else if n == 10 {
        'a'
    } else if n == 11 {
        'b'
    } else if n == 12 {
        'c'
    } else if n == 13 {
        'd'
    } else if n == 14 {
        'e'
    } else {
        'f'
    }
}

/// How one character appears inside a JSON string: quote and backslash are
/// escaped, the named control characters use their short escapes, the other
/// control characters a six-character unicode escape, everything else stands
/// as itself.
pub open spec fn esc_char(c: char) -> Seq<char> {
    if c == '"' {
        seq!['\\', '"']
    } else if c == '\\' {
        seq!['\\', '\\']
    } else if c == '\u{8}' {
        seq!['\\', 'b']
    } else if c == '\t' {
        seq!['\\', 't']
    } else if c == '\n' {
        seq!['\\', 'n']
    } else if c == '\u{c}' {
        seq!['\\', 'f']
    } else if c == '\r' {
        seq!['\\', 'r']
    } else if (c as u32) < 0x20 {
        seq!['\\', 'u', '0', '0', hex_char((c as u32) / 16), hex_char((c as u32) % 16)]
    } else {
        seq![c]
    }
}

pub open spec fn json_escape(s: Seq<char>) -> Seq<char>
    decreases s.len(),
{
    if s.len() == 0 {
        Seq::empty()
    } else {
        esc_char(s[0]) + json_escape(s.skip(1))
    }
}

pub proof fn lemma_json_escape_push(s: Seq<char>, c: char)
    ensures
        json_escape(s.push(c)) == json_escape(s) + esc_char(c),
    decreases s.len(),
{
    if s.len() == 0 {
        assert(s.push(c)[0] == c);
        assert(s.push(c).skip(1) =~= Seq::<char>::empty());
        assert(json_escape(s.push(c)) =~= esc_char(c) + json_escape(Seq::<char>::empty()));
        assert(esc_char(c) + Seq::<char>::empty() =~= esc_char(c));
        assert(json_escape(s) + esc_char(c) =~= esc_char(c));
    } else {
        lemma_json_escape_push(s.skip(1), c);
        assert(s.push(c).skip(1) =~= s.skip(1).push(c));
        assert(s.push(c)[0] == s[0]);
        assert(json_escape(s.push(c)) =~= json_escape(s) + esc_char(c));
    }
}

/// A JSON string: the escaped text between quotes.
pub open spec fn json_string(s: Seq<char>) -> Seq<char> {
    seq!['"'] + json_escape(s) + seq!['"']
}

/// One listing entry as a JSON object, fields in declaration order.
pub open spec fn json_entry(e: DirectoryEntryV) -> Seq<char> {
    "{\"name\":"@ + json_string(e.name) + ",\"mimetype\":"@ + json_string(e.mimetype)
        + ",\"mimetype_icon\":"@ + json_string(e.mimetype_icon) + ",\"is_dir\":"@ + (if e.is_dir {
        "true"@
    } else {
        "false"@
    }) + ",\"request\":"@ + json_string(e.request) + "}"@
}

/// The comma-separated entry objects.
pub open spec fn json_entries(s: Seq<DirectoryEntryV>) -> Seq<char>
    decreases s.len(),
{
    if s.len() == 0 {
        Seq::empty()
    } else if s.len() == 1 {
        json_entry(s[0])
    } else {
        json_entry(s[0]) + ","@ + json_entries(s.skip(1))
    }
}

pub proof fn lemma_json_entries_push(s: Seq<DirectoryEntryV>, e: DirectoryEntryV)
    ensures
        s.len() == 0 ==> json_entries(s.push(e)) == json_entry(e),
        s.len() > 0 ==> json_entries(s.push(e)) == json_entries(s) + ","@ + json_entry(e),
    decreases s.len(),
{
    if s.len() == 0 {
        assert(json_entries(s.push(e)) =~= json_entry(e));
    } else {
        lemma_json_entries_push(s.skip(1), e);
        assert(s.push(e).skip(1) =~= s.skip(1).push(e));
        assert(s.push(e)[0] == s[0]);
        if s.len() == 1 {
            assert(json_entries(s.push(e)) =~= json_entries(s) + ","@ + json_entry(e));
        } else {
            assert(json_entries(s.push(e)) =~= json_entries(s) + ","@ + json_entry(e));
        }
    }
}

/// The whole listing: a JSON array of entry objects.
pub open spec fn json_listing(s: Seq<DirectoryEntryV>) -> Seq<char> {
    "["@ + json_entries(s) + "]"@
}

/// Appends one hexadecimal digit.
fn append_hex_digit(out: &mut String, d: u32)
    requires
        d < 16,
    ensures
        final(out)@ == old(out)@ + seq![hex_char(d)],
{
    if d == 0 {
        out.append("0");
        proof {
            reveal_strlit("0");
            assert("0"@ =~= seq![hex_char(d)]);
        }
    } else if d == 1 {
        out.append("1");
        proof {
            reveal_strlit("1");
            assert("1"@ =~= seq![hex_char(d)]);
        }
    } else if d == 2 {
        out.append("2");
        proof {
            reveal_strlit("2");
            assert("2"@ =~= seq![hex_char(d)]);
        }
    } else if d == 3 {
        out.append("3");
        proof {
            reveal_strlit("3");
            assert("3"@ =~= seq![hex_char(d)]);
        }
    } else if d == 4 {
        out.append("4");
        proof {
            reveal_strlit("4");
            assert("4"@ =~= seq![hex_char(d)]);
        }
    } else if d == 5 {
        out.append("5");
        proof {
            reveal_strlit("5");
            assert("5"@ =~= seq![hex_char(d)]);
        }
    } else if d == 6 {
        out.append("6");
        proof {
            reveal_strlit("6");
            assert("6"@ =~= seq![hex_char(d)]);
        }
    } else if d == 7 {
        out.append("7");
        proof {
            reveal_strlit("7");
            assert("7"@ =~= seq![hex_char(d)]);
        }
    } else if d == 8 {
        out.append("8");
        proof {
            reveal_strlit("8");
            assert("8"@ =~= seq![hex_char(d)]);
        }
    } else if d == 9 {
        out.append("9");
        proof {
            reveal_strlit("9");
            assert("9"@ =~= seq![hex_char(d)]);
        }
    } else if d == 10 {
        out.append("a");
        proof {
            reveal_strlit("a");
            assert("a"@ =~= seq![hex_char(d)]);
        }
    } else if d == 11 {
        out.append("b");
        proof {
            reveal_strlit("b");
            assert("b"@ =~= seq![hex_char(d)]);
        }
    } else if d == 12 {
        out.append("c");
        proof {
            reveal_strlit("c");
            assert("c"@ =~= seq![hex_char(d)]);
        }
    } else if d == 13 {
        out.append("d");
        proof {
            reveal_strlit("d");
            assert("d"@ =~= seq![hex_char(d)]);
        }
    } else if d == 14 {
        out.append("e");
        proof {
            reveal_strlit("e");
            assert("e"@ =~= seq![hex_char(d)]);
        }
    } else {
        out.append("f");
        proof {
            reveal_strlit("f");
            assert("f"@ =~= seq![hex_char(d)]);
        }
    }
}

/// Appends one character in its escaped form.
fn append_escaped(out: &mut String, s: &str, i: usize)
    requires
        i < s@.len(),
        i + 1 <= usize::MAX,
    ensures
        final(out)@ == old(out)@ + esc_char(s@[i as int]),
{
    let c = s.get_char(i);
    if c == '"' {
        out.append("\\\"");
        proof {
            reveal_strlit("\\\"");
            assert("\\\""@ =~= esc_char(c));
        }
    } else if c == '\\' {
        out.append("\\\\");
        proof {
            reveal_strlit("\\\\");
            assert("\\\\"@ =~= esc_char(c));
        }
    } else if c == '\u{8}' {
        out.append("\\b");
        proof {
            reveal_strlit("\\b");
            assert("\\b"@ =~= esc_char(c));
        }
    } else if c == '\t' {
        out.append("\\t");
        proof {
            reveal_strlit("\\t");
            assert("\\t"@ =~= esc_char(c));
        }
    } else if c == '\n' {
        out.append("\\n");
        proof {
            reveal_strlit("\\n");
            assert("\\n"@ =~= esc_char(c));
        }
    } else if c == '\u{c}' {
        out.append("\\f");
        proof {
            reveal_strlit("\\f");
            assert("\\f"@ =~= esc_char(c));
        }
    } else if c == '\r' {
        out.append("\\r");
        proof {
            reveal_strlit("\\r");
            assert("\\r"@ =~= esc_char(c));
        }
    } else if (c as u32) < 0x20 {
        let code = c as u32;
        out.append("\\u00");
        append_hex_digit(out, code / 16);
        append_hex_digit(out, code % 16);
        proof {
            reveal_strlit("\\u00");
            assert("\\u00"@ + seq![hex_char(code / 16)] + seq![hex_char(code % 16)] =~= esc_char(
                c,
            ));
        }
    } else {
        let piece = s.substring_char(i, i + 1);
        out.append(piece);
        proof {
            assert(piece@ =~= esc_char(c));
        }
    }
}

/// Appends a JSON string: `s` escaped, between quotes.
fn append_json_string(out: &mut String, s: &str)
    ensures
        final(out)@ == old(out)@ + json_string(s@),
{
    out.append("\"");
    proof {
        reveal_strlit("\"");
        assert("\""@ =~= seq!['"']);
        assert(s@.take(0) =~= Seq::<char>::empty());
    }
    let n = s.unicode_len();
    let mut i: usize = 0;
    while i < n
        invariant
            n == s@.len(),
            i <= n,
            out@ == old(out)@ + seq!['"'] + json_escape(s@.take(i as int)),
        decreases n - i,
    {
        append_escaped(out, s, i);
        proof {
            lemma_json_escape_push(s@.take(i as int), s@[i as int]);
            assert(s@.take(i + 1) =~= s@.take(i as int).push(s@[i as int]));
            assert(out@ =~= old(out)@ + seq!['"'] + json_escape(s@.take(i + 1)));
        }
        i += 1;
    }
    out.append("\"");
    proof {
        assert(s@.take(n as int) =~= s@);
        assert(out@ =~= old(out)@ + json_string(s@));
    }
}

/// Appends one entry object.
fn append_entry(out: &mut String, e: &DirectoryEntry)
    ensures
        final(out)@ == old(out)@ + json_entry(e@),
{
    out.append("{\"name\":");
    append_json_string(out, e.name.as_str());
    out.append(",\"mimetype\":");
    append_json_string(out, e.mimetype.as_str());
    out.append(",\"mimetype_icon\":");
    append_json_string(out, e.mimetype_icon.as_str());
    out.append(",\"is_dir\":");
    if e.is_dir {
        out.append("true");
    } else {
        out.append("false");
    }
    out.append(",\"request\":");
    append_json_string(out, e.request.as_str());
    out.append("}");
    proof {
        assert(out@ =~= old(out)@ + json_entry(e@));
    }
}

impl API {
    pub fn new(config: Arc<Config>, endpoint: String, path: String, root_dir: String) -> (r: Self)
        ensures
            r.config == config,
            r.endpoint == endpoint,
            r.path == path,
            r.root_dir == root_dir,
    {
        API { config, endpoint, path, root_dir }
    }

    /// The listing entries for the enumerated children, in enumeration
    /// order; every entry's request field is this provider's own request
    /// path.
    pub fn listing(&self, children: &Vec<ChildInfo>) -> (r: Vec<DirectoryEntry>)
        ensures
            r@.len() == children@.len(),
            forall|i: int|
                0 <= i < r@.len() ==> r@[i]@ == listing_entry(
                    cfg_mimetypes(*self.config),
                    children@[i]@,
                    self.path@,
                ),
    {
        let mut out: Vec<DirectoryEntry> = Vec::new();
        let n = children.len();
        let mut i: usize = 0;
        while i < n
            invariant
                n == children@.len(),
                i <= n,
                out@.len() == i,
                forall|j: int|
                    0 <= j < i ==> out@[j]@ == listing_entry(
                        cfg_mimetypes(*self.config),
                        children@[j]@,
                        self.path@,
                    ),
            decreases n - i,
        {
            let child = &children[i];
            let ext = extension(child.name.as_str());
            let mut mimetype_str = String::from_str("application/directory");
            let mut mimetype_icon = String::from_str("📂");
            let cfg: &Config = &*self.config;
            if let Some(e) = &ext {
                if e.unicode_len() > 0 {
                    if let Some(m) = &cfg.mimetypes {
                        if m.contains(e.as_str()) {
                            let entry = m.get(e.as_str());
                            mimetype_str = entry.mimetype.clone();
                            mimetype_icon = entry.icon.clone();
                        }
                    }
                }
            }
            let dentry = DirectoryEntry {
                name: child.name.clone(),
                mimetype: mimetype_str,
                mimetype_icon,
                is_dir: child.is_dir,
                request: self.path.clone(),
            };
            out.push(dentry);
            i += 1;
        }
        out
    }

    /// The listing serialized to the JSON wire shape.
    pub fn to_json(&self, children: &Vec<DirectoryEntry>) -> (r: String)
        ensures
            r@ == json_listing(children@.map_values(|e: DirectoryEntry| e@)),
    {
        let ghost entries = children@.map_values(|e: DirectoryEntry| e@);
        let mut out = String::from_str("[");
        let n = children.len();
        let mut i: usize = 0;
        while i < n
            invariant
                n == children@.len(),
                entries == children@.map_values(|e: DirectoryEntry| e@),
                entries.len() == n,
                i <= n,
                out@ == "["@ + json_entries(entries.take(i as int)),
            decreases n - i,
        {
            if i > 0 {
                out.append(",");
            }
            append_entry(&mut out, &children[i]);
            proof {
                lemma_json_entries_push(entries.take(i as int), entries[i as int]);
                assert(entries.take(i + 1) =~= entries.take(i as int).push(entries[i as int]));
                assert(out@ =~= "["@ + json_entries(entries.take(i + 1)));
            }
            i += 1;
        }
        out.append("]");
        proof {
            assert(entries.take(n as int) =~= entries);
            assert(out@ =~= json_listing(entries));
        }
        out
    }

    /// The full JSON answer. `children` is the collaborator's enumeration
    /// of the listed directory, or nothing when the directory could not be
    /// read: the listing is best-effort, and an unreadable directory
    /// degrades to an empty one rather than an error.
    pub fn json(&self, children: Option<&Vec<ChildInfo>>) -> (r: String)
        ensures
            match children {
                Some(c) => r@ == json_listing(
                    Seq::new(
                        c@.len(),
                        |i: int| listing_entry(cfg_mimetypes(*self.config), c@[i]@, self.path@),
                    ),
                ),
                None => r@ == json_listing(Seq::<DirectoryEntryV>::empty()),
            },
    {
        match children {
            Some(c) => {
                let entries = self.listing(c);
                let r = self.to_json(&entries);
                proof {
                    assert(entries@.map_values(|e: DirectoryEntry| e@) =~= Seq::new(
                        c@.len(),
                        |i: int| listing_entry(cfg_mimetypes(*self.config), c@[i]@, self.path@),
                    ));
                }
                r
            },
            None => {
                let empty: Vec<DirectoryEntry> = Vec::new();
                let r = self.to_json(&empty);
                proof {
                    assert(empty@.map_values(|e: DirectoryEntry| e@) =~= Seq::<
                        DirectoryEntryV,
                    >::empty());
                }
                r
            },
        }
    }

    pub fn content_type(&self) -> (r: String)
        ensures
            r@ == "application/json"@,
    {
        String::from_str("application/json")
    }
}

} // verus!
