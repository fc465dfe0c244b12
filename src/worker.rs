use vstd::prelude::*;
use crate::addr::{IpAddress, ClientBuildError};
use crate::client::{ClientIpSelectMode, ClientPool, Target, target_of};
use crate::header::{HeadersConfig, HeadersPair, pairs_view, empty_headers};
use crate::template::{UrlTemplate, matches_parts};

verus! {

/// The cancellation signal of a run: set once, then stays set.
#[derive(Debug, Clone, Copy, PartialEq, Eq, Structural)]
pub struct ShutdownFlag {
    requested: bool,
}

impl ShutdownFlag {
    pub closed spec fn is_set(&self) -> bool {
        self.requested
    }

    /// A flag not yet set.
    pub fn new() -> (r: ShutdownFlag)
        ensures
            !r.is_set(),
    {
        ShutdownFlag { requested: false }
    }

    /// Requests shutdown; doing so again changes nothing.
    pub fn request(&mut self)
        ensures
            final(self).is_set(),
    {
        self.requested = true;
    }

    /// Whether shutdown was requested.
    pub fn requested(&self) -> (r: bool)
        ensures
            r == self.is_set(),
    {
        self.requested
    }
}

/// What a worker does at the top of an iteration.
#[derive(Debug, Clone, Copy, PartialEq, Eq, Structural)]
pub enum WorkerStep {
    /// Send the next request.
    Send,
    /// Leave the loop.
    Exit,
}

/// The worker's decision given whether it has seen shutdown: a pending
/// shutdown always wins over starting a send.
pub fn next_step(shutdown_seen: bool) -> (r: WorkerStep)
    ensures
        shutdown_seen <==> r is Exit,
{
    if shutdown_seen {
        WorkerStep::Exit
    } else {
        WorkerStep::Send
    }
}

/// The sends a worker starts when its iterations see the flag values `seen`,
/// in order: it sends while the flag is clear and leaves at the first set one.
pub open spec fn sends_started(seen: Seq<bool>) -> nat
    decreases seen.len(),
{
    if seen.len() == 0 || seen[0] {
        0
    } else {
        1 + sends_started(seen.drop_first())
    }
}

/// Once a worker sees shutdown it starts no further send: the sends it
/// starts are at most the iterations before the first one that saw it.
pub proof fn lemma_cancellation_convergence(seen: Seq<bool>, k: int)
    requires
        0 <= k < seen.len(),
        seen[k],
    ensures
        sends_started(seen) <= k,
        sends_started(seen) == k <==> forall|j: int| 0 <= j < k ==> !seen[j],
    decreases k,
{
    if k > 0 && !seen[0] {
        lemma_cancellation_convergence(seen.drop_first(), k - 1);
        assert forall|j: int| 0 <= j < k - 1 implies seen.drop_first()[j] == seen[j + 1] by {}
        if forall|j: int| 0 <= j < k - 1 ==> !seen.drop_first()[j] {
            assert forall|j: int| 0 <= j < k implies !seen[j] by {
                if j > 0 {
                    assert(!seen.drop_first()[j - 1]);
                }
            }
        }
        if forall|j: int| 0 <= j < k ==> !seen[j] {
            assert forall|j: int| 0 <= j < k - 1 implies !seen.drop_first()[j] by {
                assert(!seen[j + 1]);
            }
        }
    }
}

/// One worker's request: the URL (or template), the client it is bound to,
/// headers, method, timeout and body.
#[derive(Debug, Clone)]
pub struct FullRequest {
    pub url: String,
    /// Index of the client in the pool.
    pub client: usize,
    pub headers: Vec<HeadersPair>,
    pub method: String,
    pub timeout_secs: u64,
    pub body: Option<String>,
    /// Whether `url` is a template to draw a fresh URL from each time.
    pub random: bool,
}

/// Why a request could not be prepared.
#[derive(Debug, Clone, Copy, PartialEq, Eq, Structural)]
pub enum RequestError {
    /// Random mode is on but no compiled template was supplied.
    GeneratorMissing,
}

impl FullRequest {
    /// The URL for this attempt: the literal one, or a fresh one from the
    /// template in random mode.
    pub fn get_url(&self, generator: &Option<UrlTemplate>) -> (r: Result<String, RequestError>)
        requires
            generator matches Some(g) ==> g.wf(),
        ensures
            !self.random ==> (r matches Ok(u) && u@ == self.url@),
            self.random && generator is None ==> r == Err::<String, RequestError>(RequestError::GeneratorMissing),
            self.random ==> (generator matches Some(g) ==> (r matches Ok(u) && matches_parts(g@, u@))),
    {
        if self.random {
            match generator {
                Some(g) => Ok(g.generate()),
                None => Err(RequestError::GeneratorMissing),
            }
        } else {
            Ok(self.url.clone())
        }
    }
}

/// A copy of the pairs `v`.
fn copy_pairs(v: &Vec<HeadersPair>) -> (r: Vec<HeadersPair>)
    ensures
        pairs_view(r@) == pairs_view(v@),
{
    let mut r: Vec<HeadersPair> = Vec::new();
    let mut i: usize = 0;
    while i < v.len()
        invariant
            i <= v@.len(),
            pairs_view(r@) == pairs_view(v@.take(i as int)),
        decreases v@.len() - i,
    {
        let ghost before = r@;
        r.push(HeadersPair { key: v[i].key.clone(), value: v[i].value.clone() });
        assert(pairs_view(r@) =~= pairs_view(before).push((v@[i as int].key@, v@[i as int].value@)));
        assert(v@.take(i + 1) =~= v@.take(i as int).push(v@[i as int]));
        assert(pairs_view(v@.take(i + 1)) =~= pairs_view(v@.take(i as int)).push((v@[i as int].key@, v@[i as int].value@)));
        i = i + 1;
    }
    assert(v@.take(v@.len() as int) =~= v@);
    r
}

/// A copy of `o`.
fn copy_opt(o: &Option<String>) -> (r: Option<String>)
    ensures
        r == *o,
{
    match o {
        Some(s) => Some(s.clone()),
        None => None,
    }
}

/// One request per worker: `count` of them, each bound to a client drawn at
/// random from the pool, all sharing the other settings.
pub fn build_full_requests<C>(
    pool: &ClientPool<C>,
    count: u32,
    url: &String,
    headers: &Vec<HeadersPair>,
    method: &String,
    timeout_secs: u64,
    body: &Option<String>,
    random: bool,
) -> (r: Vec<FullRequest>)
    requires
        pool.view().len() > 0,
    ensures
        r@.len() == count,
        forall|i: int| 0 <= i < r@.len() ==> {
            let q = #[trigger] r@[i];
            &&& q.client < pool.view().len()
            &&& q.url == *url
            &&& q.method == *method
            &&& q.timeout_secs == timeout_secs
            &&& q.random == random
            &&& pairs_view(q.headers@) == pairs_view(headers@)
            &&& q.body == *body
        },
{
    let picks = pool.pick_indices(count);
    let mut r: Vec<FullRequest> = Vec::new();
    let mut i: usize = 0;
    while i < picks.len()
        invariant
            i <= picks@.len(),
            picks@.len() == count,
            r@.len() == i,
            forall|k: int| 0 <= k < picks@.len() ==> #[trigger] picks@[k] < pool.view().len(),
            forall|k: int| 0 <= k < r@.len() ==> {
                let q = #[trigger] r@[k];
                &&& q.client < pool.view().len()
                &&& q.url == *url
                &&& q.method == *method
                &&& q.timeout_secs == timeout_secs
                &&& q.random == random
                &&& pairs_view(q.headers@) == pairs_view(headers@)
                &&& q.body == *body
            },
        decreases picks@.len() - i,
    {
        r.push(
            FullRequest {
                url: url.clone(),
                client: picks[i],
                headers: copy_pairs(headers),
                method: method.clone(),
                timeout_secs,
                body: copy_opt(body),
                random,
            },
        );
        i = i + 1;
    }
    r
}

/// The settings of a stand-alone run, filled in field by field.
#[derive(Debug, Clone, Default)]
pub struct BenchmarkBuilder {
    pub url: Option<String>,
    pub ip_mode: ClientIpSelectMode,
    pub headers_config: HeadersConfig,
    pub method: String,
}

/// Validated settings: the target, how to choose its addresses, the headers and the method.
#[derive(Debug, Clone)]
pub struct BenchmarkConfig {
    pub target: Target,
    pub ip_mode: ClientIpSelectMode,
    pub headers_config: HeadersConfig,
    pub method: String,
}

impl BenchmarkBuilder {
    /// No URL, addresses from DNS, no headers, `GET`.
    pub fn new() -> (r: BenchmarkBuilder)
        ensures
            r.url is None,
            r.ip_mode is Resolve,
            r.method@ == "GET"@,
            r.headers_config@ == empty_headers(),
    {
        let headers_config = HeadersConfig::from(Vec::new());
        proof {
            assert(pairs_view(Seq::<HeadersPair>::empty()).len() == 0);
        }
        BenchmarkBuilder {
            url: None,
            ip_mode: ClientIpSelectMode::Resolve,
            headers_config,
            method: "GET".to_owned(),
        }
    }

    /// Sets the target URL.
    pub fn url(self, url: String) -> (r: BenchmarkBuilder)
        ensures
            r == (BenchmarkBuilder { url: Some(url), ..self }),
    {
        BenchmarkBuilder { url: Some(url), ..self }
    }

    /// Takes the addresses from DNS.
    pub fn resolve_dns(self) -> (r: BenchmarkBuilder)
        ensures
            r == (BenchmarkBuilder { ip_mode: ClientIpSelectMode::Resolve, ..self }),
    {
        BenchmarkBuilder { ip_mode: ClientIpSelectMode::Resolve, ..self }
    }

    /// Pins every client to `ip`.
    pub fn fixed_ip(self, ip: IpAddress) -> (r: BenchmarkBuilder)
        ensures
            r == (BenchmarkBuilder { ip_mode: ClientIpSelectMode::Locked(ip), ..self }),
    {
        BenchmarkBuilder { ip_mode: ClientIpSelectMode::Locked(ip), ..self }
    }

    /// Uses every address of the pool file whose text is `text`.
    pub fn random_ip_from_file(self, text: &str) -> (r: Result<BenchmarkBuilder, ClientBuildError>)
        ensures
            r matches Ok(b) ==> b.ip_mode matches ClientIpSelectMode::Random(p) && p@ == crate::addr::pool_of(
                text@,
            )->Ok_0 && p@.len() > 0 && b == (BenchmarkBuilder { ip_mode: b.ip_mode, ..self }),
            crate::addr::pool_of(text@) is Ok <==> r is Ok,
    {
        let ips = crate::addr::read_ip_files(text)?;
        Ok(BenchmarkBuilder { ip_mode: ClientIpSelectMode::Random(ips), ..self })
    }

    /// Sets the header settings.
    pub fn headers_config(self, config: HeadersConfig) -> (r: BenchmarkBuilder)
        ensures
            r == (BenchmarkBuilder { headers_config: config, ..self }),
    {
        BenchmarkBuilder { headers_config: config, ..self }
    }

    /// Sets the HTTP method.
    pub fn method(self, method: String) -> (r: BenchmarkBuilder)
        ensures
            r == (BenchmarkBuilder { method, ..self }),
    {
        BenchmarkBuilder { method, ..self }
    }

    /// Checks the settings: a URL is required and must have a host.
    pub fn build(self) -> (r: Result<BenchmarkConfig, ClientBuildError>)
        ensures
            self.url is None ==> r matches Err(ClientBuildError::UrlIsRequired),
            self.url matches Some(u) ==> (r is Ok <==> crate::client::url_parses(u@)
                && crate::client::url_host_of(u@) is Some),
            r matches Ok(c) ==> c.ip_mode == self.ip_mode && c.method == self.method && c.headers_config
                == self.headers_config && c.target.url@ == self.url->Some_0@ && Some(c.target.host@)
                == crate::client::url_host_of(self.url->Some_0@) && c.target.port == match crate::client::url_port_of(
                self.url->Some_0@,
            ) {
                Some(p) => p,
                None => crate::client::FALLBACK_PORT,
            },
    {
        match self.url {
            None => Err(ClientBuildError::UrlIsRequired),
            Some(u) => {
                let target = target_of(u.as_str())?;
                Ok(BenchmarkConfig {
                    target,
                    ip_mode: self.ip_mode,
                    headers_config: self.headers_config,
                    method: self.method,
                })
            },
        }
    }
}


impl crate::command::RequestCommand {
    /// The stand-alone settings for this command: its URL and method, pinned
    /// to its address when it names one, else resolved by DNS.
    pub fn ready(&self) -> (r: BenchmarkBuilder)
        ensures
            r.url == Some(self.url),
            self.ip matches Some(a) ==> r.ip_mode == ClientIpSelectMode::Locked(a),
            self.ip is None ==> r.ip_mode is Resolve,
            self.method is Get ==> r.method@ == "GET"@,
            self.method is Post ==> r.method@ == "POST"@,
    {
        let method = match self.method {
            crate::command::RequestMethod::Get => "GET".to_owned(),
            crate::command::RequestMethod::Post => "POST".to_owned(),
        };
        let b = BenchmarkBuilder::new().url(self.url.clone()).method(method);
        match self.ip {
            Some(a) => b.fixed_ip(a),
            None => b,
        }
    }
}


/// A run ready to start: its pool of clients and what every request shares.
pub struct BenchmarkExecutor<C> {
    pool: ClientPool<C>,
    method: String,
    headers: Vec<HeadersPair>,
    url: String,
}

impl<C> BenchmarkExecutor<C> {
    pub closed spec fn pool_view(&self) -> Seq<C> {
        self.pool.view()
    }

    pub closed spec fn url_spec(&self) -> String {
        self.url
    }

    pub closed spec fn method_spec(&self) -> String {
        self.method
    }

    pub closed spec fn headers_spec(&self) -> Seq<HeadersPair> {
        self.headers@
    }

    /// Gathers the clients built for the settings' addresses, one attempt
    /// each; fails when none was built.
    pub fn from_builder(config: BenchmarkConfig, built: Vec<Option<C>>) -> (r: Result<BenchmarkExecutor<C>, ClientBuildError>)
        ensures
            (exists|i: int| 0 <= i < built@.len() && (#[trigger] built@[i]) is Some) <==> r is Ok,
            r matches Ok(e) ==> e.pool_view() == crate::client::built_clients(built@) && e.pool_view().len()
                >= 1 && e.url_spec() == config.target.url && e.method_spec() == config.method
                && e.headers_spec() == config.headers_config.other_headers@,
            r is Err ==> r matches Err(ClientBuildError::NoClientsBuilt),
    {
        let pool = ClientPool::from_built(built)?;
        Ok(BenchmarkExecutor {
            pool,
            method: config.method,
            headers: config.headers_config.other_headers,
            url: config.target.url,
        })
    }

    /// The pool of clients.
    pub fn pool(&self) -> (r: &ClientPool<C>)
        ensures
            r.view() == self.pool_view(),
    {
        &self.pool
    }

    /// The headers sent with each request.
    pub fn headers(&self) -> (r: &Vec<HeadersPair>)
        ensures
            r@ == self.headers_spec(),
    {
        &self.headers
    }

    /// One request per worker, each on a client drawn at random from the pool.
    pub fn request_ready(&self, concurrent_count: u32, timeout_secs: u64, body: Option<String>, random: bool) -> (r: Vec<FullRequest>)
        requires
            self.pool_view().len() > 0,
        ensures
            r@.len() == concurrent_count,
            forall|i: int| 0 <= i < r@.len() ==> {
                let q = #[trigger] r@[i];
                &&& q.client < self.pool_view().len()
                &&& q.url == self.url_spec()
                &&& q.method == self.method_spec()
                &&& q.timeout_secs == timeout_secs
                &&& q.random == random
                &&& pairs_view(q.headers@) == pairs_view(self.headers_spec())
                &&& q.body == body
            },
    {
        build_full_requests(&self.pool, concurrent_count, &self.url, &self.headers, &self.method, timeout_secs, &body, random)
    }
}

} // verus!
