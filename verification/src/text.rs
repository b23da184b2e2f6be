//! String utilities shared by the resolver and the providers: character-exact
//! equality, root-relative path joining, extension extraction, and the two
//! outside conversions (lowercasing, UTF-8 decoding) the providers rely on.
use vstd::prelude::*;
use vstd::utf8::{decode_utf8, valid_utf8};

verus! {

/// Character-exact comparison of two string slices.
pub fn str_eq(a: &str, b: &str) -> (r: bool)
    ensures
        r == (a@ == b@),
{
    let n = a.unicode_len();
    if n != b.unicode_len() {
        return false;
    }
    let mut i: usize = 0;
    while i < n
        invariant
            n == a@.len(),
            n == b@.len(),
            i <= n,
            forall|j: int| 0 <= j < i ==> a@[j] == b@[j],
        decreases n - i,
    {
        if a.get_char(i) != b.get_char(i) {
            return false;
        }
        i += 1;
    }
    proof {
        assert(a@ =~= b@);
    }
    true
}

/// A subpath with at most one leading separator removed, so that joining it
/// under a root stays root-relative.
pub open spec fn strip_one_slash(s: Seq<char>) -> Seq<char> {
    if s.len() > 0 && s[0] == '/' {
        s.skip(1)
    } else {
        s
    }
}

pub fn strip_leading_slash(s: &str) -> (r: &str)
    ensures
        r@ == strip_one_slash(s@),
{
    let n = s.unicode_len();
    if n > 0 && s.get_char(0) == '/' {
        let t = s.substring_char(1, n);
        proof {
            assert(t@ =~= s@.skip(1));
        }
        t
    } else {
        s
    }
}

/// A target path: the root, a separator, and the subpath with a single
/// leading separator stripped.
pub open spec fn join_path(root: Seq<char>, sub: Seq<char>) -> Seq<char> {
    root + "/"@ + strip_one_slash(sub)
}

pub fn path_join(root: &str, sub: &str) -> (r: String)
    ensures
        r@ == join_path(root@, sub@),
{
    let mut out = String::from_str(root);
    out.append("/");
    out.append(strip_leading_slash(sub));
    out
}

/// Joining a path under a base directory: an absolute path stands on its own,
/// a relative one goes under the base.
pub open spec fn join_under(base: Seq<char>, p: Seq<char>) -> Seq<char> {
    if p.len() > 0 && p[0] == '/' {
        p
    } else {
        base + "/"@ + p
    }
}

pub fn path_join_under(base: &str, p: &str) -> (r: String)
    ensures
        r@ == join_under(base@, p@),
{
    let n = p.unicode_len();
    if n > 0 && p.get_char(0) == '/' {
        String::from_str(p)
    } else {
        let mut out = String::from_str(base);
        out.append("/");
        out.append(p);
        out
    }
}

/// The suffix of `p` that follows the last occurrence of `c`, or all of `p`
/// when `c` does not occur.
pub open spec fn suffix_after_last(p: Seq<char>, c: char) -> Seq<char>
    decreases p.len(),
{
    if p.len() == 0 {
        Seq::empty()
    } else if p[p.len() - 1] == c {
        Seq::empty()
    } else {
        suffix_after_last(p.drop_last(), c).push(p[p.len() - 1])
    }
}

pub proof fn lemma_suffix_none(p: Seq<char>, c: char)
    requires
        forall|j: int| 0 <= j < p.len() ==> p[j] != c,
    ensures
        suffix_after_last(p, c) == p,
    decreases p.len(),
{
    if p.len() == 0 {
        assert(suffix_after_last(p, c) =~= p);
    } else {
        lemma_suffix_none(p.drop_last(), c);
        assert(suffix_after_last(p, c) =~= p);
    }
}

pub proof fn lemma_suffix_at(p: Seq<char>, c: char, d: int)
    requires
        0 <= d < p.len(),
        p[d] == c,
        forall|j: int| d < j < p.len() ==> p[j] != c,
    ensures
        suffix_after_last(p, c) == p.skip(d + 1),
    decreases p.len(),
{
    if d == p.len() - 1 {
        assert(suffix_after_last(p, c) =~= p.skip(d + 1));
    } else {
        lemma_suffix_at(p.drop_last(), c, d);
        assert(suffix_after_last(p, c) =~= p.skip(d + 1));
    }
}

/// The path with its trailing separators removed; the platform's path
/// inspection ignores them, and so does extension extraction here.
pub open spec fn drop_trailing_slashes(p: Seq<char>) -> Seq<char>
    decreases p.len(),
{
    if p.len() > 0 && p[p.len() - 1] == '/' {
        drop_trailing_slashes(p.drop_last())
    } else {
        p
    }
}

pub proof fn lemma_drop_trailing_at(p: Seq<char>, m: int)
    requires
        0 <= m <= p.len(),
        forall|j: int| m <= j < p.len() ==> p[j] == '/',
        m > 0 ==> p[m - 1] != '/',
    ensures
        drop_trailing_slashes(p) == p.take(m),
    decreases p.len(),
{
    if m == p.len() {
        assert(p.take(m) =~= p);
    } else {
        assert(forall|j: int| 0 <= j < p.len() - 1 ==> p.drop_last()[j] == p[j]);
        lemma_drop_trailing_at(p.drop_last(), m);
        assert(p.drop_last().take(m) =~= p.take(m));
    }
}

/// The extension of a path: what follows the last dot of the final path
/// component, provided that dot is not the component's first character.
/// Trailing separators are ignored, as the platform's path inspection
/// ignores them.
pub open spec fn extension_of(p: Seq<char>) -> Option<Seq<char>> {
    let name = suffix_after_last(drop_trailing_slashes(p), '/');
    if exists|i: int| 1 <= i < name.len() && name[i] == '.' {
        Some(suffix_after_last(name, '.'))
    } else {
        None
    }
}

/// Extracts the extension of a path, as `extension_of` describes it.
pub fn extension(p: &str) -> (r: Option<String>)
    ensures
        match r {
            Some(e) => extension_of(p@) == Some(e@),
            None => extension_of(p@) is None,
        },
{
    let n = p.unicode_len();
    let mut m: usize = n;
    while m > 0 && p.get_char(m - 1) == '/'
        invariant
            n == p@.len(),
            m <= n,
            forall|j: int| m <= j < n ==> p@[j] == '/',
        decreases m,
    {
        m -= 1;
    }
    proof {
        lemma_drop_trailing_at(p@, m as int);
    }
    let ghost q = p@.take(m as int);
    let mut slash: Option<usize> = None;
    let mut dot: Option<usize> = None;
    let mut i: usize = 0;
    while i < m
        invariant
            n == p@.len(),
            m <= n,
            q == p@.take(m as int),
            i <= m,
            match slash {
                Some(s) => 0 <= s < i && q[s as int] == '/' && forall|j: int|
                    s < j < i ==> q[j] != '/',
                None => forall|j: int| 0 <= j < i ==> q[j] != '/',
            },
            match dot {
                Some(d) => 0 <= d < i && q[d as int] == '.' && forall|j: int|
                    d < j < i ==> q[j] != '.',
                None => forall|j: int| 0 <= j < i ==> q[j] != '.',
            },
        decreases m - i,
    {
        let c = p.get_char(i);
        if c == '/' {
            slash = Some(i);
        }
        if c == '.' {
            dot = Some(i);
        }
        i += 1;
    }
    let start: usize = match slash {
        Some(s) => s + 1,
        None => 0,
    };
    proof {
        let name = suffix_after_last(q, '/');
        match slash {
            Some(s) => lemma_suffix_at(q, '/', s as int),
            None => lemma_suffix_none(q, '/'),
        }
        assert(name =~= q.skip(start as int));
    }
    match dot {
        Some(d) => {
            if d > start {
                let e = p.substring_char(d + 1, m);
                proof {
                    let name = q.skip(start as int);
                    let dn = d - start;
                    assert(name[dn as int] == '.');
                    assert(forall|j: int| dn < j < name.len() ==> name[j] != '.');
                    lemma_suffix_at(name, '.', dn as int);
                    assert(suffix_after_last(name, '.') =~= q.skip(d + 1));
                    assert(e@ =~= q.skip(d + 1));
                    assert(1 <= dn < name.len() && name[dn as int] == '.');
                }
                Some(String::from_str(e))
            } else {
                proof {
                    let name = q.skip(start as int);
                    assert forall|i2: int| 1 <= i2 < name.len() implies name[i2] != '.' by {
                        let orig = i2 + start;
                        if name[i2] == '.' {
                            assert(q[orig] == '.');
                            assert(orig <= d);
                        }
                    }
                }
                None
            }
        },
        None => {
            proof {
                let name = q.skip(start as int);
                assert forall|i2: int| 1 <= i2 < name.len() implies name[i2] != '.' by {
                    assert(q[i2 + start] != '.');
                }
            }
            None
        },
    }
}

/// The lowercased form of a string, named after the outside routine that
/// computes it.
pub uninterp spec fn lower_of(s: Seq<char>) -> Seq<char>;

/// Relies on str::to_lowercase: the result is a function of the input
/// characters alone, and an empty input stays empty.
#[verifier::external_body]
pub fn lowercase(s: &str) -> (r: String)
    ensures
        r@ == lower_of(s@),
        s@.len() == 0 ==> r@.len() == 0,
{
    s.to_lowercase()
}

/// Relies on String::from_utf8: it returns Ok exactly when the bytes are
/// valid UTF-8, and the returned string is their decoding.
#[verifier::external_body]
pub fn utf8_to_string(bytes: &Vec<u8>) -> (r: Option<String>)
    ensures
        r is Some <==> valid_utf8(bytes@),
        r matches Some(s) ==> s@ == decode_utf8(bytes@),
{
    String::from_utf8(bytes.clone()).ok()
}

} // verus!
