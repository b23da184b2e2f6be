//! The configuration model: the listen address and log level of the server,
//! the mimetype table, and the ordered route table. All of it is loaded once
//! at startup and read-only afterwards; the route table's order is
//! significant, the first matching route wins.
use crate::text::str_eq;
use std::sync::Arc;
use vstd::prelude::*;

verus! {

pub struct APIConfig {
    pub listen: Option<APIListen>,
    pub log: Option<ApiLogConfig>,
}

pub struct APIListen {
    pub host: Option<String>,
    pub port: Option<u16>,
}

pub struct ApiLogConfig {
    pub level: Option<String>,
}

pub struct Config {
    pub api: Option<APIConfig>,
    pub mimetypes: Option<Mimetypes>,
    pub paths: Option<Paths>,
    pub root_directory: Option<String>,
}

/// Relies on Arc::clone: the clone refers to the same shared value.
#[verifier::external_body]
pub fn arc_clone<T>(c: &Arc<T>) -> (r: Arc<T>)
    ensures
        *r == **c,
{
    Arc::clone(c)
}

#[derive(Debug)]
pub struct Mimetype {
    pub extension: String,
    pub icon: String,
    pub mimetype: String,
}

/// The mathematical value of a mimetype entry: its three texts.
pub struct MimetypeV {
    pub extension: Seq<char>,
    pub icon: Seq<char>,
    pub mimetype: Seq<char>,
}

impl View for Mimetype {
    type V = MimetypeV;

    open spec fn view(&self) -> MimetypeV {
        MimetypeV { extension: self.extension@, icon: self.icon@, mimetype: self.mimetype@ }
    }
}

impl Clone for Mimetype {
    fn clone(&self) -> (r: Self)
        ensures
            r@ == self@,
    {
        Mimetype {
            extension: self.extension.clone(),
            icon: self.icon.clone(),
            mimetype: self.mimetype.clone(),
        }
    }
}

#[derive(Debug)]
pub struct Mimetypes(pub Vec<Mimetype>);

impl View for Mimetypes {
    type V = Seq<MimetypeV>;

    open spec fn view(&self) -> Seq<MimetypeV> {
        self.0@.map_values(|m: Mimetype| m@)
    }
}

/// The mimetype table of a configuration, as a sequence of entry values.
pub open spec fn cfg_mimetypes(c: Config) -> Option<Seq<MimetypeV>> {
    match c.mimetypes {
        Some(m) => Some(m@),
        None => None,
    }
}

/// The route table of a configuration; a missing table is empty.
pub open spec fn cfg_routes(c: Config) -> Seq<PathMappingV> {
    match c.paths {
        Some(p) => p@,
        None => Seq::empty(),
    }
}

/// The configured root directory, or the documented default placeholder.
pub open spec fn base_root(c: Config) -> Seq<char> {
    match c.root_directory {
        Some(r) => r@,
        None => "default/path"@,
    }
}

/// Whether the table holds an entry for the given extension.
pub open spec fn mt_contains(s: Seq<MimetypeV>, key: Seq<char>) -> bool {
    exists|i: int| 0 <= i < s.len() && s[i].extension == key
}

/// The entry a lookup keyed by extension yields: the last one wins when an
/// extension repeats.
pub open spec fn mt_last_match(s: Seq<MimetypeV>, key: Seq<char>) -> MimetypeV
    decreases s.len(),
{
    if s.len() == 0 {
        arbitrary()
    } else if s.last().extension == key {
        s.last()
    } else {
        mt_last_match(s.drop_last(), key)
    }
}

pub proof fn lemma_mt_last_match_at(s: Seq<MimetypeV>, key: Seq<char>, i: int)
    requires
        0 <= i < s.len(),
        s[i].extension == key,
        forall|j: int| i < j < s.len() ==> s[j].extension != key,
    ensures
        mt_contains(s, key),
        mt_last_match(s, key) == s[i],
    decreases s.len(),
{
    if i == s.len() - 1 {
    } else {
        lemma_mt_last_match_at(s.drop_last(), key, i);
    }
}

/// The index of the last entry with the given extension, or -1.
pub open spec fn mt_last_occ(s: Seq<MimetypeV>, key: Seq<char>) -> int
    decreases s.len(),
{
    if s.len() == 0 {
        -1
    } else if s.last().extension == key {
        s.len() - 1
    } else {
        mt_last_occ(s.drop_last(), key)
    }
}

pub proof fn lemma_mt_last_occ_at(s: Seq<MimetypeV>, key: Seq<char>, i: int)
    requires
        0 <= i < s.len(),
        s[i].extension == key,
        forall|j: int| i < j < s.len() ==> s[j].extension != key,
    ensures
        mt_last_occ(s, key) == i,
    decreases s.len(),
{
    if i == s.len() - 1 {
    } else {
        lemma_mt_last_occ_at(s.drop_last(), key, i);
    }
}

pub proof fn lemma_mt_last_occ(s: Seq<MimetypeV>, key: Seq<char>)
    requires
        mt_contains(s, key),
    ensures
        0 <= mt_last_occ(s, key) < s.len(),
        s[mt_last_occ(s, key)].extension == key,
        forall|j: int| mt_last_occ(s, key) < j < s.len() ==> s[j].extension != key,
    decreases s.len(),
{
    if s.last().extension == key {
    } else {
        let i = choose|i: int| 0 <= i < s.len() && s[i].extension == key;
        assert(s.drop_last()[i] == s[i]);
        assert(mt_contains(s.drop_last(), key));
        lemma_mt_last_occ(s.drop_last(), key);
        assert(forall|j: int| 0 <= j < s.len() - 1 ==> s.drop_last()[j] == s[j]);
        assert(forall|j: int|
            mt_last_occ(s, key) < j < s.len() - 1 ==> s[j].extension != key);
        assert(s[s.len() - 1].extension != key);
    }
}

impl Mimetypes {
    pub fn new() -> (r: Self)
        ensures
            r@ == Seq::<MimetypeV>::empty(),
    {
        let r = Mimetypes(Vec::new());
        proof {
            assert(r@ =~= Seq::<MimetypeV>::empty());
        }
        r
    }

    /// Whether the table holds an entry for `key`.
    pub fn contains(&self, key: &str) -> (r: bool)
        ensures
            r == mt_contains(self@, key@),
    {
        let n = self.0.len();
        let mut i: usize = 0;
        while i < n
            invariant
                n == self.0.len(),
                self@.len() == n,
                i <= n,
                forall|j: int| 0 <= j < i ==> self@[j].extension != key@,
                forall|j: int| 0 <= j < n ==> self@[j] == self.0@[j]@,
            decreases n - i,
        {
            if str_eq(self.0[i].extension.as_str(), key) {
                proof {
                    assert(self@[i as int].extension == key@);
                }
                return true;
            }
            i += 1;
        }
        false
    }

    /// The entry for `key`; when an extension repeats, the last entry wins.
    pub fn get(&self, key: &str) -> (r: &Mimetype)
        requires
            mt_contains(self@, key@),
        ensures
            r@ == mt_last_match(self@, key@),
            r@.extension == key@,
    {
        let mut i: usize = self.0.len();
        while i > 0
            invariant
                i <= self.0.len(),
                self@.len() == self.0.len(),
                mt_contains(self@, key@),
                forall|j: int| i <= j < self@.len() ==> self@[j].extension != key@,
                forall|j: int| 0 <= j < self@.len() ==> self@[j] == self.0@[j]@,
            decreases i,
        {
            i -= 1;
            if str_eq(self.0[i].extension.as_str(), key) {
                proof {
                    lemma_mt_last_match_at(self@, key@, i as int);
                }
                return &self.0[i];
            }
        }
        proof {
            assert(false);
        }
        vstd::pervasive::unreached()
    }

    /// The table as a mapping keyed by extension: one entry per registered
    /// extension, the last entry winning on duplicates.
    pub fn mapping(&self) -> (r: Vec<Mimetype>)
        ensures
            forall|t: int|
                0 <= t < r@.len() ==> mt_contains(self@, #[trigger] r@[t]@.extension) && r@[t]@
                    == mt_last_match(self@, r@[t]@.extension),
            forall|k: Seq<char>|
                #[trigger] mt_contains(self@, k) ==> exists|t: int|
                    0 <= t < r@.len() && #[trigger] r@[t]@.extension == k,
            forall|t1: int, t2: int|
                0 <= t1 < t2 < r@.len() ==> r@[t1]@.extension != r@[t2]@.extension,
    {
        let n = self.0.len();
        let mut out: Vec<Mimetype> = Vec::new();
        proof {
            assert forall|k: Seq<char>|
                #[trigger] mt_contains(self@, k) && mt_last_occ(self@, k) < 0 implies exists|
                t: int,
            |
                0 <= t < out@.len() && #[trigger] out@[t]@.extension == k by {
                lemma_mt_last_occ(self@, k);
            }
        }
        let mut i: usize = 0;
        while i < n
            invariant
                n == self.0.len(),
                self@.len() == n,
                i <= n,
                forall|j: int| 0 <= j < n ==> self@[j] == self.0@[j]@,
                forall|t: int|
                    0 <= t < out@.len() ==> mt_contains(self@, #[trigger] out@[t]@.extension)
                        && out@[t]@ == mt_last_match(self@, out@[t]@.extension) && mt_last_occ(
                        self@,
                        out@[t]@.extension,
                    ) < i,
                forall|k: Seq<char>|
                    #[trigger] mt_contains(self@, k) && mt_last_occ(self@, k) < i ==> exists|t: int|
                        0 <= t < out@.len() && #[trigger] out@[t]@.extension == k,
                forall|t1: int, t2: int|
                    0 <= t1 < t2 < out@.len() ==> out@[t1]@.extension != out@[t2]@.extension,
            decreases n - i,
        {
            let mut later = false;
            let mut j: usize = i + 1;
            while j < n
                invariant
                    i < n,
                    i < j <= n,
                    n == self.0.len(),
                    self@.len() == n,
                    forall|t: int| 0 <= t < n ==> self@[t] == self.0@[t]@,
                    !later ==> forall|t: int|
                        i < t < j ==> self@[t].extension != self@[i as int].extension,
                    later ==> exists|t: int|
                        i < t < n && self@[t].extension == self@[i as int].extension,
                decreases n - j,
            {
                if str_eq(self.0[j].extension.as_str(), self.0[i].extension.as_str()) {
                    later = true;
                    proof {
                        assert(self@[j as int].extension == self@[i as int].extension);
                    }
                }
                j += 1;
            }
            if !later {
                proof {
                    let key = self@[i as int].extension;
                    lemma_mt_last_match_at(self@, key, i as int);
                    lemma_mt_last_occ_at(self@, key, i as int);
                }
                let ghost prev = out@;
                out.push(self.0[i].clone());
                proof {
                    let key = self@[i as int].extension;
                    assert(forall|t: int| 0 <= t < prev.len() ==> out@[t] == prev[t]);
                    assert(out@[out@.len() - 1]@ == self@[i as int]);
                    assert forall|t: int| 0 <= t < prev.len() implies out@[t]@.extension
                        != key by {
                        assert(mt_last_occ(self@, prev[t]@.extension) < i);
                    }
                    assert forall|k: Seq<char>|
                        #[trigger] mt_contains(self@, k) && mt_last_occ(self@, k)
                            < i + 1 implies exists|t: int|
                        0 <= t < out@.len() && #[trigger] out@[t]@.extension == k by {
                        lemma_mt_last_occ(self@, k);
                        if mt_last_occ(self@, k) == i {
                            assert(k == key);
                            assert(out@[out@.len() - 1]@.extension == k);
                        } else {
                            let t0 = choose|t: int|
                                0 <= t < prev.len() && #[trigger] prev[t]@.extension == k;
                            assert(out@[t0]@.extension == k);
                        }
                    }
                }
            } else {
                proof {
                    assert forall|k: Seq<char>|
                        #[trigger] mt_contains(self@, k) && mt_last_occ(self@, k)
                            < i + 1 implies exists|t: int|
                        0 <= t < out@.len() && #[trigger] out@[t]@.extension == k by {
                        lemma_mt_last_occ(self@, k);
                    }
                }
            }
            i += 1;
        }
        proof {
            assert forall|k: Seq<char>| #[trigger] mt_contains(self@, k) implies exists|t: int|
                0 <= t < out@.len() && #[trigger] out@[t]@.extension == k by {
                lemma_mt_last_occ(self@, k);
            }
        }
        out
    }
}

#[derive(Debug, Clone, Copy, PartialEq, Eq, Structural)]
pub enum Provider {
    Api,
    Fs,
}

#[derive(Debug)]
pub struct PathMapping {
    pub pattern: String,
    pub path: Option<String>,
    pub provider: Option<Provider>,
}

/// The mathematical value of a route: its pattern, its optional mapped path,
/// and its optional provider.
pub struct PathMappingV {
    pub pattern: Seq<char>,
    pub path: Option<Seq<char>>,
    pub provider: Option<Provider>,
}

impl View for PathMapping {
    type V = PathMappingV;

    open spec fn view(&self) -> PathMappingV {
        PathMappingV {
            pattern: self.pattern@,
            path: match self.path {
                Some(p) => Some(p@),
                None => None,
            },
            provider: self.provider,
        }
    }
}

impl Clone for PathMapping {
    fn clone(&self) -> (r: Self)
        ensures
            r@ == self@,
    {
        PathMapping {
            pattern: self.pattern.clone(),
            path: match &self.path {
                Some(p) => Some(p.clone()),
                None => None,
            },
            provider: self.provider,
        }
    }
}

#[derive(Debug)]
pub struct Paths(pub Vec<PathMapping>);

impl View for Paths {
    type V = Seq<PathMappingV>;

    open spec fn view(&self) -> Seq<PathMappingV> {
        self.0@.map_values(|m: PathMapping| m@)
    }
}

/// Whether the route table holds a route with the given pattern.
pub open spec fn pm_contains(s: Seq<PathMappingV>, key: Seq<char>) -> bool {
    exists|i: int| 0 <= i < s.len() && s[i].pattern == key
}

/// The mapped path a lookup keyed by pattern yields: the last route wins when
/// a pattern repeats.
pub open spec fn pm_last_match(s: Seq<PathMappingV>, key: Seq<char>) -> Option<Seq<char>>
    decreases s.len(),
{
    if s.len() == 0 {
        arbitrary()
    } else if s.last().pattern == key {
        s.last().path
    } else {
        pm_last_match(s.drop_last(), key)
    }
}

pub proof fn lemma_pm_last_match_at(s: Seq<PathMappingV>, key: Seq<char>, i: int)
    requires
        0 <= i < s.len(),
        s[i].pattern == key,
        forall|j: int| i < j < s.len() ==> s[j].pattern != key,
    ensures
        pm_contains(s, key),
        pm_last_match(s, key) == s[i].path,
    decreases s.len(),
{
    if i == s.len() - 1 {
    } else {
        lemma_pm_last_match_at(s.drop_last(), key, i);
    }
}

/// The index of the last route with the given pattern, or -1.
pub open spec fn pm_last_occ(s: Seq<PathMappingV>, key: Seq<char>) -> int
    decreases s.len(),
{
    if s.len() == 0 {
        -1
    } else if s.last().pattern == key {
        s.len() - 1
    } else {
        pm_last_occ(s.drop_last(), key)
    }
}

pub proof fn lemma_pm_last_occ_at(s: Seq<PathMappingV>, key: Seq<char>, i: int)
    requires
        0 <= i < s.len(),
        s[i].pattern == key,
        forall|j: int| i < j < s.len() ==> s[j].pattern != key,
    ensures
        pm_last_occ(s, key) == i,
    decreases s.len(),
{
    if i == s.len() - 1 {
    } else {
        lemma_pm_last_occ_at(s.drop_last(), key, i);
    }
}

pub proof fn lemma_pm_last_occ(s: Seq<PathMappingV>, key: Seq<char>)
    requires
        pm_contains(s, key),
    ensures
        0 <= pm_last_occ(s, key) < s.len(),
        s[pm_last_occ(s, key)].pattern == key,
        forall|j: int| pm_last_occ(s, key) < j < s.len() ==> s[j].pattern != key,
    decreases s.len(),
{
    if s.last().pattern == key {
    } else {
        let i = choose|i: int| 0 <= i < s.len() && s[i].pattern == key;
        assert(s.drop_last()[i] == s[i]);
        assert(pm_contains(s.drop_last(), key));
        lemma_pm_last_occ(s.drop_last(), key);
        assert(forall|j: int| 0 <= j < s.len() - 1 ==> s.drop_last()[j] == s[j]);
        assert(forall|j: int| pm_last_occ(s, key) < j < s.len() - 1 ==> s[j].pattern != key);
        assert(s[s.len() - 1].pattern != key);
    }
}

impl Paths {
    pub fn new() -> (r: Self)
        ensures
            r@ == Seq::<PathMappingV>::empty(),
    {
        let r = Paths(Vec::new());
        proof {
            assert(r@ =~= Seq::<PathMappingV>::empty());
        }
        r
    }

    /// The mapped path of the route with pattern `key`; when a pattern
    /// repeats, the last route wins.
    pub fn get(&self, key: &str) -> (r: Option<String>)
        requires
            pm_contains(self@, key@),
        ensures
            match r {
                Some(p) => pm_last_match(self@, key@) == Some(p@),
                None => pm_last_match(self@, key@) is None,
            },
    {
        let mut i: usize = self.0.len();
        while i > 0
            invariant
                i <= self.0.len(),
                self@.len() == self.0.len(),
                pm_contains(self@, key@),
                forall|j: int| i <= j < self@.len() ==> self@[j].pattern != key@,
                forall|j: int| 0 <= j < self@.len() ==> self@[j] == self.0@[j]@,
            decreases i,
        {
            i -= 1;
            if str_eq(self.0[i].pattern.as_str(), key) {
                proof {
                    lemma_pm_last_match_at(self@, key@, i as int);
                }
                return match &self.0[i].path {
                    Some(p) => Some(p.clone()),
                    None => None,
                };
            }
        }
        proof {
            assert(false);
        }
        vstd::pervasive::unreached()
    }

    /// The route table as a mapping keyed by pattern: one route per
    /// registered pattern, the last route winning on duplicates.
    pub fn mapping(&self) -> (r: Vec<PathMapping>)
        ensures
            forall|t: int|
                0 <= t < r@.len() ==> pm_contains(self@, #[trigger] r@[t]@.pattern)
                    && pm_last_match(self@, r@[t]@.pattern) == r@[t]@.path,
            forall|k: Seq<char>|
                #[trigger] pm_contains(self@, k) ==> exists|t: int|
                    0 <= t < r@.len() && #[trigger] r@[t]@.pattern == k,
            forall|t1: int, t2: int|
                0 <= t1 < t2 < r@.len() ==> r@[t1]@.pattern != r@[t2]@.pattern,
    {
        let n = self.0.len();
        let mut out: Vec<PathMapping> = Vec::new();
        proof {
            assert forall|k: Seq<char>|
                #[trigger] pm_contains(self@, k) && pm_last_occ(self@, k) < 0 implies exists|
                t: int,
            |
                0 <= t < out@.len() && #[trigger] out@[t]@.pattern == k by {
                lemma_pm_last_occ(self@, k);
            }
        }
        let mut i: usize = 0;
        while i < n
            invariant
                n == self.0.len(),
                self@.len() == n,
                i <= n,
                forall|j: int| 0 <= j < n ==> self@[j] == self.0@[j]@,
                forall|t: int|
                    0 <= t < out@.len() ==> pm_contains(self@, #[trigger] out@[t]@.pattern)
                        && pm_last_match(self@, out@[t]@.pattern) == out@[t]@.path && pm_last_occ(
                        self@,
                        out@[t]@.pattern,
                    ) < i,
                forall|k: Seq<char>|
                    #[trigger] pm_contains(self@, k) && pm_last_occ(self@, k) < i ==> exists|t: int|
                        0 <= t < out@.len() && #[trigger] out@[t]@.pattern == k,
                forall|t1: int, t2: int|
                    0 <= t1 < t2 < out@.len() ==> out@[t1]@.pattern != out@[t2]@.pattern,
            decreases n - i,
        {
            let mut later = false;
            let mut j: usize = i + 1;
            while j < n
                invariant
                    i < n,
                    i < j <= n,
                    n == self.0.len(),
                    self@.len() == n,
                    forall|t: int| 0 <= t < n ==> self@[t] == self.0@[t]@,
                    !later ==> forall|t: int|
                        i < t < j ==> self@[t].pattern != self@[i as int].pattern,
                    later ==> exists|t: int|
                        i < t < n && self@[t].pattern == self@[i as int].pattern,
                decreases n - j,
            {
                if str_eq(self.0[j].pattern.as_str(), self.0[i].pattern.as_str()) {
                    later = true;
                    proof {
                        assert(self@[j as int].pattern == self@[i as int].pattern);
                    }
                }
                j += 1;
            }
            if !later {
                proof {
                    let key = self@[i as int].pattern;
                    lemma_pm_last_match_at(self@, key, i as int);
                    lemma_pm_last_occ_at(self@, key, i as int);
                }
                let ghost prev = out@;
                out.push(self.0[i].clone());
                proof {
                    let key = self@[i as int].pattern;
                    assert(forall|t: int| 0 <= t < prev.len() ==> out@[t] == prev[t]);
                    assert(out@[out@.len() - 1]@ == self@[i as int]);
                    assert forall|t: int| 0 <= t < prev.len() implies out@[t]@.pattern != key by {
                        assert(pm_last_occ(self@, prev[t]@.pattern) < i);
                    }
                    assert forall|k: Seq<char>|
                        #[trigger] pm_contains(self@, k) && pm_last_occ(self@, k)
                            < i + 1 implies exists|t: int|
                        0 <= t < out@.len() && #[trigger] out@[t]@.pattern == k by {
                        lemma_pm_last_occ(self@, k);
                        if pm_last_occ(self@, k) == i {
                            assert(k == key);
                            assert(out@[out@.len() - 1]@.pattern == k);
                        } else {
                            let t0 = choose|t: int|
                                0 <= t < prev.len() && #[trigger] prev[t]@.pattern == k;
                            assert(out@[t0]@.pattern == k);
                        }
                    }
                }
            } else {
                proof {
                    assert forall|k: Seq<char>|
                        #[trigger] pm_contains(self@, k) && pm_last_occ(self@, k)
                            < i + 1 implies exists|t: int|
                        0 <= t < out@.len() && #[trigger] out@[t]@.pattern == k by {
                        lemma_pm_last_occ(self@, k);
                    }
                }
            }
            i += 1;
        }
        proof {
            assert forall|k: Seq<char>| #[trigger] pm_contains(self@, k) implies exists|t: int|
                0 <= t < out@.len() && #[trigger] out@[t]@.pattern == k by {
                lemma_pm_last_occ(self@, k);
            }
        }
        out
    }
}

} // verus!
