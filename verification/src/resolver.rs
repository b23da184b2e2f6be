//! The resolution engine: the ordered route table is evaluated against the
//! request path, the first route that decides wins, and the winning route's
//! provider and mapped path give the filesystem target. A pattern that does
//! not compile fails the whole resolution closed; a target that the
//! filesystem does not confirm yields nothing rather than a retry against
//! later routes.
use crate::api::API;
use crate::config::{arc_clone, base_root, cfg_routes, Config, PathMappingV, Provider};
use crate::directory::Directory;
use crate::file::File;
use crate::path::FSPath;
use crate::text::{join_path, join_under, path_join, path_join_under};
use std::sync::Arc;
use vstd::prelude::*;

verus! {

pub struct Resolver {
    pub config: Arc<Config>,
}

/// Whether the outside engine compiles this pattern.
pub uninterp spec fn rx_valid(pattern: Seq<char>) -> bool;

/// The pattern's number of capture groups, the implicit whole-match group
/// included; a property of the pattern alone.
pub uninterp spec fn rx_captures_len(pattern: Seq<char>) -> nat;

/// Whether the pattern matches somewhere in the text.
pub uninterp spec fn rx_matches(pattern: Seq<char>, text: Seq<char>) -> bool;

/// What the group named "path" captures when the pattern matches the text.
pub uninterp spec fn rx_path_capture(pattern: Seq<char>, text: Seq<char>) -> Option<Seq<char>>;

/// One pattern evaluation: the pattern did not compile, did not match, or
/// matched with its group count and the "path" group's capture.
pub enum RxOutcome {
    Invalid,
    NoMatch,
    Matched(usize, Option<String>),
}

/// Relies on regex::Regex::new, which compiles exactly the syntactically
/// valid patterns; on regex::Regex::captures, which answers Some exactly
/// when the pattern matches the text; on regex::Regex::captures_len, the
/// number of capture groups including the implicit whole-match group, a
/// property of the pattern alone; and on regex::Captures::name, the text
/// captured by the group named "path". Each is a function of the pattern
/// and text alone.
#[verifier::external_body]
fn rx_eval(pattern: &str, text: &str) -> (r: RxOutcome)
    ensures
        !(r is Invalid) <==> rx_valid(pattern@),
        rx_valid(pattern@) ==> ((r is NoMatch) <==> !rx_matches(pattern@, text@)),
        r matches RxOutcome::Matched(len, cap) ==> rx_matches(pattern@, text@) && len
            == rx_captures_len(pattern@) && len >= 1 && (cap is Some <==> rx_path_capture(
            pattern@,
            text@,
        ) is Some) && (cap matches Some(s) ==> rx_path_capture(pattern@, text@) == Some(s@)),
{
    match regex::Regex::new(pattern) {
        Err(_) => RxOutcome::Invalid,
        Ok(re) => match re.captures(text) {
            None => RxOutcome::NoMatch,
            Some(caps) => RxOutcome::Matched(
                re.captures_len(),
                caps.name("path").map(|m| m.as_str().to_string()),
            ),
        },
    }
}

/// Relies on std::path::Path::is_dir; the answer reflects the filesystem at
/// the moment of the call, so nothing further is assumed of it.
#[verifier::external_body]
fn path_is_dir(p: &str) -> bool {
    std::path::Path::new(p).is_dir()
}

/// Relies on std::path::Path::exists; as with path_is_dir, the answer is a
/// fact of the moment of the call alone.
#[verifier::external_body]
fn path_exists(p: &str) -> bool {
    std::path::Path::new(p).exists()
}

/// The mapped path of a route, or the documented default placeholder.
pub open spec fn mapped_or_default(m: PathMappingV) -> Seq<char> {
    match m.path {
        Some(p) => p,
        None => "default/path"@,
    }
}

/// The provider of a route; an unset provider serves the filesystem.
pub open spec fn provider_or_default(m: PathMappingV) -> Provider {
    match m.provider {
        Some(p) => p,
        None => Provider::Fs,
    }
}

/// What one route contributes to resolution.
pub enum RouteStep {
    /// The pattern does not compile: the whole resolution fails closed.
    Abort,
    /// The pattern does not match, or matched with capture groups but
    /// without a "path" capture: the next route is tried.
    Skip,
    /// The pattern matched and has no capture groups: the mapped path is
    /// served verbatim under the base root, by the route's provider.
    Fixed(Provider, Seq<char>),
    /// The pattern matched and the "path" group captured a subpath, served
    /// by the route's provider under the base root joined with the mapped
    /// path.
    Captured(Provider, Seq<char>, Seq<char>),
}

pub open spec fn route_step(m: PathMappingV, req: Seq<char>) -> RouteStep {
    if !rx_valid(m.pattern) {
        RouteStep::Abort
    } else if !rx_matches(m.pattern, req) {
        RouteStep::Skip
    } else if rx_captures_len(m.pattern) == 1 {
        RouteStep::Fixed(provider_or_default(m), mapped_or_default(m))
    } else {
        match rx_path_capture(m.pattern, req) {
            Some(sub) => RouteStep::Captured(provider_or_default(m), mapped_or_default(m), sub),
            None => RouteStep::Skip,
        }
    }
}

/// The decision of the whole ordered table: the first route that decides
/// wins; Skip here means no route decided.
pub open spec fn choose_route(routes: Seq<PathMappingV>, req: Seq<char>) -> RouteStep
    decreases routes.len(),
{
    if routes.len() == 0 {
        RouteStep::Skip
    } else if route_step(routes[0], req) is Skip {
        choose_route(routes.skip(1), req)
    } else {
        route_step(routes[0], req)
    }
}

/// Route order is precedence: when the first route decides — it aborts, or
/// matches with a fixed path or a captured subpath — the table's decision
/// is that route's, whatever routes stand after it.
pub proof fn lemma_route_precedence(first: PathMappingV, rest: Seq<PathMappingV>, req: Seq<char>)
    requires
        !(route_step(first, req) is Skip),
    ensures
        choose_route(seq![first] + rest, req) == route_step(first, req),
{
    let routes = seq![first] + rest;
    assert(routes[0] == first);
}

/// Skipped routes do not change the table's decision.
pub proof fn lemma_choose_route_skip_prefix(routes: Seq<PathMappingV>, req: Seq<char>, i: int)
    requires
        0 <= i <= routes.len(),
        forall|j: int| 0 <= j < i ==> route_step(routes[j], req) is Skip,
    ensures
        choose_route(routes, req) == choose_route(routes.skip(i), req),
    decreases i,
{
    if i > 0 {
        lemma_choose_route_skip_prefix(routes, req, i - 1);
        assert(routes.skip(i - 1)[0] == routes[i - 1]);
        assert(route_step(routes.skip(i - 1)[0], req) is Skip);
        assert(choose_route(routes.skip(i - 1), req) == choose_route(
            routes.skip(i - 1).skip(1),
            req,
        ));
        assert(routes.skip(i - 1).skip(1) =~= routes.skip(i));
    } else {
        assert(routes.skip(0) =~= routes);
    }
}

impl Resolver {
    pub fn new(config: Arc<Config>) -> (r: Self)
        ensures
            r.config == config,
    {
        Resolver { config }
    }

    /// The configured root directory, or the default placeholder.
    fn base_root_exec(&self) -> (r: String)
        ensures
            r@ == base_root(*self.config),
    {
        let cfg: &Config = &*self.config;
        match &cfg.root_directory {
            Some(rr) => rr.clone(),
            None => String::from_str("default/path"),
        }
    }

    /// The effective root for a collaborator whose working directory is
    /// `cwd`: an absolute configured root stands on its own, a relative one
    /// goes under `cwd`.
    pub fn root_directory(&self, cwd: &str) -> (r: String)
        ensures
            r@ == join_under(cwd@, base_root(*self.config)),
    {
        let base = self.base_root_exec();
        path_join_under(cwd, base.as_str())
    }

    /// The decision of a listing route once the filesystem has answered:
    /// an existing directory yields the listing target with its fields
    /// pinned, anything else yields nothing.
    pub fn api_checked(
        &self,
        path: &str,
        endpoint: &str,
        root_directory: String,
        is_dir: bool,
    ) -> (r: Option<FSPath>)
        ensures
            r is Some <==> is_dir,
            r matches Some(t) ==> t matches FSPath::API(a) && a.endpoint@ == join_path(
                root_directory@,
                endpoint@,
            ) && a.path@ == path@ && a.root_dir@ == root_directory@ && *a.config == *self.config,
    {
        if !is_dir {
            return None;
        }
        let resolved = path_join(root_directory.as_str(), endpoint);
        Some(
            FSPath::API(
                API::new(arc_clone(&self.config), resolved, String::from_str(path), root_directory),
            ),
        )
    }

    /// Resolution of a listing route: the subpath joined under the root
    /// must be an existing directory; the filesystem's answer of the moment
    /// decides between Some and None, and `api_checked` pins what each
    /// answer yields.
    pub fn api(&self, path: &str, endpoint: &str, root_directory: String) -> (r: Option<FSPath>)
        ensures
            r matches Some(t) ==> t matches FSPath::API(a) && a.endpoint@ == join_path(
                root_directory@,
                endpoint@,
            ) && a.path@ == path@ && a.root_dir@ == root_directory@ && *a.config == *self.config,
    {
        let resolved = path_join(root_directory.as_str(), endpoint);
        let d = path_is_dir(resolved.as_str());
        self.api_checked(path, endpoint, root_directory, d)
    }

    /// The decision of a filesystem route once the filesystem has answered:
    /// a directory resolves to the application shell, any other existing
    /// entry to a file, a missing one to nothing.
    pub fn fs_checked(
        &self,
        path: &str,
        endpoint: &str,
        root_directory: String,
        kind: FsKind,
    ) -> (r: Option<FSPath>)
        ensures
            r is Some <==> !(kind is Missing),
            r matches Some(t) ==> match t {
                FSPath::Directory(d) => kind is Dir && d.endpoint@ == join_path(
                    root_directory@,
                    endpoint@,
                ) && d.path@ == path@ && d.root_dir@ == root_directory@ && *d.config
                    == *self.config,
                FSPath::File(f) => kind is Other && f.endpoint@ == join_path(
                    root_directory@,
                    endpoint@,
                ) && f.path@ == path@ && f.root_dir@ == root_directory@ && *f.config
                    == *self.config,
                FSPath::API(_) => false,
            },
    {
        match kind {
            FsKind::Missing => None,
            FsKind::Dir => {
                let resolved = path_join(root_directory.as_str(), endpoint);
                Some(
                    FSPath::Directory(
                        Directory::new(
                            arc_clone(&self.config),
                            resolved,
                            String::from_str(path),
                            root_directory,
                        ),
                    ),
                )
            },
            FsKind::Other => {
                let resolved = path_join(root_directory.as_str(), endpoint);
                Some(
                    FSPath::File(
                        File::new(
                            arc_clone(&self.config),
                            resolved,
                            String::from_str(path),
                            root_directory,
                        ),
                    ),
                )
            },
        }
    }

    /// Resolution of a filesystem route: the subpath joined under the root
    /// must exist; a directory becomes the application shell target, any
    /// other entry a file target, as `fs_checked` pins.
    pub fn fs(&self, path: &str, endpoint: &str, root_directory: String) -> (r: Option<FSPath>)
        ensures
            r matches Some(t) ==> match t {
                FSPath::Directory(d) => d.endpoint@ == join_path(root_directory@, endpoint@)
                    && d.path@ == path@ && d.root_dir@ == root_directory@ && *d.config
                    == *self.config,
                FSPath::File(f) => f.endpoint@ == join_path(root_directory@, endpoint@) && f.path@
                    == path@ && f.root_dir@ == root_directory@ && *f.config == *self.config,
                FSPath::API(_) => false,
            },
    {
        let resolved = path_join(root_directory.as_str(), endpoint);
        let kind = if path_exists(resolved.as_str()) {
            if path_is_dir(resolved.as_str()) {
                FsKind::Dir
            } else {
                FsKind::Other
            }
        } else {
            FsKind::Missing
        };
        self.fs_checked(path, endpoint, root_directory, kind)
    }

    /// Evaluates the ordered route table against the request path. What
    /// `choose_route` decides is what this returns: no decision or an
    /// uncompilable pattern yield nothing — in particular, a request path
    /// no route matches resolves to nothing — and a deciding route's
    /// target comes back with its provider, paths and configuration
    /// pinned, None standing only for a target the filesystem did not
    /// confirm.
    pub fn resolve(&self, req_path: &str) -> (r: Option<FSPath>)
        ensures
            ({
                let routes = cfg_routes(*self.config);
                let base = base_root(*self.config);
                match choose_route(routes, req_path@) {
                    RouteStep::Abort => r is None,
                    RouteStep::Skip => r is None,
                    RouteStep::Fixed(prov, ep) => r matches Some(t) ==> match t {
                        FSPath::API(a) => prov is Api && a.endpoint@ == join_path(base, ep)
                            && a.path@ == req_path@ && a.root_dir@ == base && *a.config
                            == *self.config,
                        FSPath::Directory(d) => prov is Fs && d.endpoint@ == join_path(base, ep)
                            && d.path@ == req_path@ && d.root_dir@ == base && *d.config
                            == *self.config,
                        FSPath::File(f) => prov is Fs && f.endpoint@ == join_path(base, ep)
                            && f.path@ == req_path@ && f.root_dir@ == base && *f.config
                            == *self.config,
                    },
                    RouteStep::Captured(prov, mp, sub) => {
                        let eroot = join_under(base, mp);
                        r matches Some(t) ==> match t {
                            FSPath::API(a) => prov is Api && a.endpoint@ == join_path(eroot, sub)
                                && a.path@ == req_path@ && a.root_dir@ == eroot && *a.config
                                == *self.config,
                            FSPath::Directory(d) => prov is Fs && d.endpoint@ == join_path(
                                eroot,
                                sub,
                            ) && d.path@ == req_path@ && d.root_dir@ == eroot && *d.config
                                == *self.config,
                            FSPath::File(f) => prov is Fs && f.endpoint@ == join_path(eroot, sub)
                                && f.path@ == req_path@ && f.root_dir@ == eroot && *f.config
                                == *self.config,
                        }
                    },
                }
            }),
    {
        let cfg: &Config = &*self.config;
        let paths = match &cfg.paths {
            Some(p) => p,
            None => {
                return None;
            },
        };
        let n = paths.0.len();
        let routes: Ghost<Seq<PathMappingV>> = Ghost(paths@);
        proof {
            assert(routes@ =~= cfg_routes(*self.config));
        }
        let mut i: usize = 0;
        while i < n
            invariant
                n == paths.0.len(),
                routes@ == cfg_routes(*self.config),
                routes@ == paths@,
                routes@.len() == n,
                i <= n,
                forall|j: int| 0 <= j < i ==> route_step(routes@[j], req_path@) is Skip,
                forall|j: int| 0 <= j < n ==> routes@[j] == paths.0@[j]@,
            decreases n - i,
        {
            let mapping = &paths.0[i];
            let outcome = rx_eval(mapping.pattern.as_str(), req_path);
            match outcome {
                RxOutcome::Invalid => {
                    proof {
                        lemma_choose_route_skip_prefix(routes@, req_path@, i as int);
                        assert(routes@.skip(i as int)[0] == routes@[i as int]);
                        assert(route_step(routes@[i as int], req_path@) is Abort);
                    }
                    return None;
                },
                RxOutcome::NoMatch => {
                    proof {
                        assert(route_step(routes@[i as int], req_path@) is Skip);
                    }
                },
                RxOutcome::Matched(len, cap) => {
                    let root = self.base_root_exec();
                    if len == 1 {
                        let ep: String = match &mapping.path {
                            Some(p) => p.clone(),
                            None => String::from_str("default/path"),
                        };
                        let is_api = match mapping.provider {
                            Some(Provider::Api) => true,
                            _ => false,
                        };
                        proof {
                            assert(ep@ == mapped_or_default(routes@[i as int]));
                            lemma_choose_route_skip_prefix(routes@, req_path@, i as int);
                            assert(routes@.skip(i as int)[0] == routes@[i as int]);
                            assert(choose_route(routes@, req_path@) == RouteStep::Fixed(
                                provider_or_default(routes@[i as int]),
                                ep@,
                            ));
                        }
                        if is_api {
                            return self.api(req_path, ep.as_str(), root);
                        } else {
                            return self.fs(req_path, ep.as_str(), root);
                        }
                    }
                    match cap {
                        Some(sub) => {
                            let mp: String = match &mapping.path {
                                Some(p) => p.clone(),
                                None => String::from_str("default/path"),
                            };
                            let eroot = path_join_under(root.as_str(), mp.as_str());
                            let is_api = match mapping.provider {
                                Some(Provider::Api) => true,
                                _ => false,
                            };
                            proof {
                                assert(mp@ == mapped_or_default(routes@[i as int]));
                                lemma_choose_route_skip_prefix(routes@, req_path@, i as int);
                                assert(routes@.skip(i as int)[0] == routes@[i as int]);
                                assert(choose_route(routes@, req_path@) == RouteStep::Captured(
                                    provider_or_default(routes@[i as int]),
                                    mp@,
                                    sub@,
                                ));
                            }
                            if is_api {
                                return self.api(req_path, sub.as_str(), eroot);
                            } else {
                                return self.fs(req_path, sub.as_str(), eroot);
                            }
                        },
                        None => {
                            proof {
                                assert(route_step(routes@[i as int], req_path@) is Skip);
                            }
                        },
                    }
                },
            }
            i += 1;
        }
        proof {
            lemma_choose_route_skip_prefix(routes@, req_path@, n as int);
            assert(routes@.skip(n as int) =~= Seq::<PathMappingV>::empty());
        }
        None
    }
}

/// What the filesystem said of a resolved target.
#[derive(Debug, Clone, Copy, PartialEq, Eq, Structural)]
pub enum FsKind {
    Missing,
    Dir,
    Other,
}

} // verus!
