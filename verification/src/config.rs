//! Configuration: the routes, the plugins and the limits.
use vstd::prelude::*;

use crate::text::starts_with;

verus! {

/// A routing rule: every path that begins with `path_prefix` goes to `backend`.
#[derive(Debug)]
pub struct Route {
    pub path_prefix: String,
    pub backend: String,
}

impl Clone for Route {
    fn clone(&self) -> (r: Self)
        ensures
            r == *self,
    {
        Route { path_prefix: self.path_prefix.clone(), backend: self.backend.clone() }
    }
}

/// How long a backend may take to answer, where the configuration does not say.
pub fn default_request_timeout_ms() -> (r: u64)
    ensures
        r == 5_000,
{
    5_000
}

/// How large a body may be, where the configuration does not say: 10 MiB.
pub fn default_max_body_bytes() -> (r: u64)
    ensures
        r == 10 * 1024 * 1024,
{
    10 * 1024 * 1024
}

/// A configuration file as it was read: what the file may leave out is optional.
pub struct ConfigFile {
    pub listen_addr: String,
    pub routes: Vec<Route>,
    pub plugins: Option<Vec<String>>,
    pub request_timeout_ms: Option<u64>,
    pub max_body_bytes: Option<u64>,
}

/// The configuration of the proxy.
pub struct Config {
    /// The socket address to listen on.
    pub listen_addr: String,
    /// The routing rules; the first that matches a path decides.
    pub routes: Vec<Route>,
    /// Paths of the plugin modules, `.wasm` or `.wat`, applied to every request in
    /// this order.
    pub plugins: Vec<String>,
    /// How long a backend may take to answer, in milliseconds.
    pub request_timeout_ms: u64,
    /// How large the body of a request or of a response may be.
    pub max_body_bytes: u64,
}

/// Why a configuration is refused.
#[derive(Clone, Copy, Debug, PartialEq, Eq, Structural)]
pub enum ConfigError {
    /// There is no route.
    NoRoutes,
}

/// The first of the routes whose prefix a path begins with.
pub open spec fn first_match(routes: Seq<Route>, path: Seq<char>) -> Option<int>
    decreases routes.len(),
{
    if routes.len() == 0 {
        None
    } else {
        match first_match(routes.drop_last(), path) {
            Some(i) => Some(i),
            None => if routes.last().path_prefix@.is_prefix_of(path) {
                Some(routes.len() - 1)
            } else {
                None
            },
        }
    }
}

/// The first match is a match, and no route before it matches; where there is
/// none, no route matches.
pub proof fn law_first_match_wins(routes: Seq<Route>, path: Seq<char>)
    ensures
        match first_match(routes, path) {
            Some(i) => {
                &&& 0 <= i < routes.len()
                &&& routes[i].path_prefix@.is_prefix_of(path)
                &&& forall|j: int|
                    0 <= j < i ==> !(#[trigger] routes[j]).path_prefix@.is_prefix_of(path)
            },
            None => forall|j: int|
                0 <= j < routes.len() ==> !(#[trigger] routes[j]).path_prefix@.is_prefix_of(path),
        },
    decreases routes.len(),
{
    if routes.len() > 0 {
        let front = routes.drop_last();
        law_first_match_wins(front, path);
        assert forall|j: int|
            0 <= j < front.len() && first_match(front, path) is None implies !(
        #[trigger] routes[j]).path_prefix@.is_prefix_of(path) by {
            assert(front[j] == routes[j]);
        }
        if let Some(i) = first_match(front, path) {
            assert forall|j: int| 0 <= j < i implies !(
            #[trigger] routes[j]).path_prefix@.is_prefix_of(path) by {
                assert(front[j] == routes[j]);
            }
        }
    }
}

impl Config {
    /// Whether a configuration can be put to work: it has a route.
    pub open spec fn valid(self) -> bool {
        self.routes@.len() > 0
    }

    /// The configuration that a file stands for. Refused when it has no route;
    /// what the file leaves out takes its default.
    pub fn load(file: ConfigFile) -> (r: Result<Config, ConfigError>)
        ensures
            r is Ok <==> file.routes@.len() > 0,
            r matches Err(e) ==> e == ConfigError::NoRoutes,
            r matches Ok(config) ==> {
                &&& config.valid()
                &&& config.listen_addr == file.listen_addr
                &&& config.routes == file.routes
                &&& config.plugins@ == match file.plugins {
                    Some(plugins) => plugins@,
                    None => Seq::empty(),
                }
                &&& config.request_timeout_ms == match file.request_timeout_ms {
                    Some(ms) => ms,
                    None => 5_000,
                }
                &&& config.max_body_bytes == match file.max_body_bytes {
                    Some(n) => n,
                    None => 10_485_760,
                }
            },
    {
        if file.routes.len() == 0 {
            return Err(ConfigError::NoRoutes);
        }
        Ok(
            Config {
                listen_addr: file.listen_addr,
                routes: file.routes,
                plugins: match file.plugins {
                    Some(plugins) => plugins,
                    None => Vec::new(),
                },
                request_timeout_ms: match file.request_timeout_ms {
                    Some(ms) => ms,
                    None => default_request_timeout_ms(),
                },
                max_body_bytes: match file.max_body_bytes {
                    Some(n) => n,
                    None => default_max_body_bytes(),
                },
            },
        )
    }

    /// The first route, in the order of the file, whose prefix the path begins
    /// with.
    pub fn match_route(&self, path: &str) -> (r: Option<&Route>)
        ensures
            match (r, first_match(self.routes@, path@)) {
                (Some(route), Some(i)) => *route == self.routes@[i],
                (None, None) => true,
                _ => false,
            },
    {
        let mut i: usize = 0;
        assert(self.routes@.subrange(0, 0) =~= Seq::<Route>::empty());
        while i < self.routes.len()
            invariant
                i <= self.routes.len(),
                first_match(self.routes@.subrange(0, i as int), path@) is None,
            decreases self.routes.len() - i,
        {
            proof {
                let next = self.routes@.subrange(0, i + 1);
                assert(next.drop_last() =~= self.routes@.subrange(0, i as int));
                assert(next.last() == self.routes@[i as int]);
            }
            if starts_with(path, self.routes[i].path_prefix.as_str()) {
                proof {
                    lemma_first_match_stays(self.routes@, path@, i + 1);
                }
                return Some(&self.routes[i]);
            }
            i += 1;
        }
        assert(self.routes@.subrange(0, i as int) =~= self.routes@);
        None
    }
}

/// A match among the first routes is the match among all.
proof fn lemma_first_match_stays(routes: Seq<Route>, path: Seq<char>, k: int)
    requires
        0 <= k <= routes.len(),
        first_match(routes.subrange(0, k), path) is Some,
    ensures
        first_match(routes, path) == first_match(routes.subrange(0, k), path),
    decreases routes.len(),
{
    if k == routes.len() {
        assert(routes.subrange(0, k) =~= routes);
    } else {
        assert(routes.drop_last().subrange(0, k) =~= routes.subrange(0, k));
        lemma_first_match_stays(routes.drop_last(), path, k);
    }
}

} // verus!
