use vstd::prelude::*;
use crate::addr::{IpAddress, ClientBuildError, dedup, no_dups, dedup_addresses, lemma_dedup_props};
use crate::header::{HeadersConfig, opt_view};
use crate::template::random_below;

verus! {

/// Whether `Url::parse` accepts `s`.
pub uninterp spec fn url_parses(s: Seq<char>) -> bool;

/// The host that `Url::parse(s)` finds, if any.
pub uninterp spec fn url_host_of(s: Seq<char>) -> Option<Seq<char>>;

/// The port of `Url::parse(s)`: the explicit one, else the scheme's default.
pub uninterp spec fn url_port_of(s: Seq<char>) -> Option<u16>;

/// Relies on `url::Url::parse`, `Url::host_str` and `Url::port_or_known_default`:
/// whether `s` parses as a URL and, if so, its host and its port; each is a
/// function of `s` alone.
#[verifier::external_body]
fn url_endpoint(s: &str) -> (r: Option<(Option<String>, Option<u16>)>)
    ensures
        r is Some <==> url_parses(s@),
        r matches Some((h, p)) ==> opt_view(h) == url_host_of(s@) && p == url_port_of(s@),
{
    match url::Url::parse(s) {
        Ok(u) => Some((u.host_str().map(str::to_owned), u.port_or_known_default())),
        Err(_) => None,
    }
}

/// Port used when a URL has none and its scheme has no default.
pub const FALLBACK_PORT: u16 = 443;

/// Where the requests of a run go: the URL as given, its host and its port.
#[derive(Debug, Clone)]
pub struct Target {
    pub url: String,
    pub host: String,
    pub port: u16,
}

/// Reads the host and port of `url`: fails when it is no URL or has no host;
/// the port is the URL's own, else its scheme's default, else 443.
pub fn target_of(url: &str) -> (r: Result<Target, ClientBuildError>)
    ensures
        !url_parses(url@) ==> (r matches Err(ClientBuildError::InvalidUrl(m)) && m@ == url@),
        url_parses(url@) && url_host_of(url@) is None ==> r matches Err(ClientBuildError::URLMissingHost),
        url_parses(url@) && url_host_of(url@) is Some ==> (r matches Ok(t) && {
            &&& t.url@ == url@
            &&& t.host@ == url_host_of(url@)->Some_0
            &&& t.port == match url_port_of(url@) {
                Some(p) => p,
                None => FALLBACK_PORT,
            }
        }),
{
    match url_endpoint(url) {
        None => Err(ClientBuildError::InvalidUrl(url.to_owned())),
        Some((host, port)) => match host {
            None => Err(ClientBuildError::URLMissingHost),
            Some(h) => {
                let p = match port {
                    Some(p) => p,
                    None => FALLBACK_PORT,
                };
                Ok(Target { url: url.to_owned(), host: h, port: p })
            },
        },
    }
}

/// How the addresses of a target's host are chosen.
#[derive(Debug, Clone, PartialEq, Eq)]
pub enum ClientIpSelectMode {
    /// Ask DNS when the pool is built.
    Resolve,
    /// Use this one address.
    Locked(IpAddress),
    /// Use every address of this pool.
    Random(Vec<IpAddress>),
}

impl Default for ClientIpSelectMode {
    fn default() -> (r: Self)
        ensures
            r is Resolve,
    {
        ClientIpSelectMode::Resolve
    }
}

/// What a DNS lookup of a host gave: its addresses, or the error's message.
pub type Lookup = Result<Vec<IpAddress>, String>;

impl ClientIpSelectMode {
    /// Whether the mode needs a DNS lookup of the host.
    pub fn needs_lookup(&self) -> (r: bool)
        ensures
            r == self is Resolve,
    {
        match self {
            ClientIpSelectMode::Resolve => true,
            _ => false,
        }
    }

    /// The addresses to build clients for, each once. `lookup` is what a DNS
    /// lookup of `host` gave; it is read only in `Resolve` mode.
    pub fn resolve(self, host: &str, lookup: Lookup) -> (r: Result<Vec<IpAddress>, ClientBuildError>)
        ensures
            self is Resolve ==> match lookup {
                Err(m) => r matches Err(ClientBuildError::DNSLookupFailed(e)) && e@ == m@,
                Ok(v) => if v@.len() == 0 {
                    r matches Err(ClientBuildError::NoIpAddressesFound(h)) && h@ == host@
                } else {
                    r matches Ok(a) && a@ == dedup(v@)
                },
            },
            self matches ClientIpSelectMode::Locked(ip) ==> (r matches Ok(a) && a@ == seq![ip]),
            self matches ClientIpSelectMode::Random(pool) ==> if pool@.len() == 0 {
                r matches Err(ClientBuildError::NoValidIpInFile)
            } else {
                r matches Ok(a) && a@ == dedup(pool@)
            },
            r matches Ok(a) ==> a@.len() > 0 && no_dups(a@),
    {
        match self {
            ClientIpSelectMode::Resolve => match lookup {
                Err(m) => Err(ClientBuildError::DNSLookupFailed(m)),
                Ok(v) => {
                    if v.len() == 0 {
                        Err(ClientBuildError::NoIpAddressesFound(host.to_owned()))
                    } else {
                        proof {
                            lemma_dedup_props(v@);
                        }
                        Ok(dedup_addresses(&v))
                    }
                },
            },
            ClientIpSelectMode::Locked(ip) => {
                let mut v: Vec<IpAddress> = Vec::new();
                v.push(ip);
                assert(v@ =~= seq![ip]);
                Ok(v)
            },
            ClientIpSelectMode::Random(pool) => {
                if pool.len() == 0 {
                    Err(ClientBuildError::NoValidIpInFile)
                } else {
                    proof {
                        lemma_dedup_props(pool@);
                    }
                    Ok(dedup_addresses(&pool))
                }
            },
        }
    }
}

/// Everything needed to build one client pinned to one address.
#[derive(Debug, Clone)]
pub struct ClientPlan {
    /// The host whose DNS answer is overridden.
    pub host: String,
    /// The address the host is pinned to.
    pub addr: IpAddress,
    pub port: u16,
    pub gzip: bool,
    pub deflate: bool,
    pub user_agent: Option<String>,
    /// Cookies to seed the jar with; cookie storage is on exactly when present.
    pub cookie: Option<String>,
}

/// One plan per address, in order, each pinned to that address on the
/// target's port, with the shared compression, user-agent and cookie settings.
pub fn plan_clients(target: &Target, addrs: &Vec<IpAddress>, headers: &HeadersConfig) -> (r: Vec<ClientPlan>)
    ensures
        r@.len() == addrs@.len(),
        forall|i: int| 0 <= i < r@.len() ==> {
            let p = #[trigger] r@[i];
            &&& p.addr == addrs@[i]
            &&& p.host@ == target.host@
            &&& p.port == target.port
            &&& p.gzip == headers.gzip
            &&& p.deflate == headers.deflate
            &&& opt_view(p.user_agent) == headers@.user_agent
            &&& opt_view(p.cookie) == headers@.cookie
        },
{
    let mut r: Vec<ClientPlan> = Vec::new();
    let mut i: usize = 0;
    while i < addrs.len()
        invariant
            i <= addrs@.len(),
            r@.len() == i,
            forall|k: int| 0 <= k < i ==> {
                let p = #[trigger] r@[k];
                &&& p.addr == addrs@[k]
                &&& p.host@ == target.host@
                &&& p.port == target.port
                &&& p.gzip == headers.gzip
                &&& p.deflate == headers.deflate
                &&& opt_view(p.user_agent) == headers@.user_agent
                &&& opt_view(p.cookie) == headers@.cookie
            },
        decreases addrs@.len() - i,
    {
        let user_agent = match &headers.user_agent {
            Some(u) => Some(u.clone()),
            None => None,
        };
        let cookie = match &headers.cookie {
            Some(c) => Some(c.clone()),
            None => None,
        };
        r.push(
            ClientPlan {
                host: target.host.clone(),
                addr: addrs[i],
                port: target.port,
                gzip: headers.gzip,
                deflate: headers.deflate,
                user_agent,
                cookie,
            },
        );
        i = i + 1;
    }
    r
}

/// The built clients among `built`, in order.
pub open spec fn built_clients<C>(built: Seq<Option<C>>) -> Seq<C>
    decreases built.len(),
{
    if built.len() == 0 {
        Seq::empty()
    } else {
        match built[0] {
            Some(c) => seq![c] + built_clients(built.drop_first()),
            None => built_clients(built.drop_first()),
        }
    }
}

/// The clients kept from a set of build attempts are non-empty exactly when
/// at least one attempt built a client; none are kept from no attempt.
pub proof fn lemma_built_nonempty<C>(built: Seq<Option<C>>)
    ensures
        built_clients(built).len() > 0 <==> exists|i: int| 0 <= i < built.len() && (#[trigger] built[i]) is Some,
    decreases built.len(),
{
    if built.len() > 0 {
        let t = built.drop_first();
        lemma_built_nonempty(t);
        if exists|i: int| 0 <= i < built.len() && (#[trigger] built[i]) is Some {
            let i = choose|i: int| 0 <= i < built.len() && (#[trigger] built[i]) is Some;
            if i > 0 {
                assert(t[i - 1] is Some);
            }
        }
        if exists|i: int| 0 <= i < t.len() && (#[trigger] t[i]) is Some {
            let i = choose|i: int| 0 <= i < t.len() && (#[trigger] t[i]) is Some;
            assert(built[i + 1] is Some);
        }
    }
}

/// The clients of a run, each pinned to one address; never empty.
pub struct ClientPool<C> {
    clients: Vec<C>,
}

impl<C> ClientPool<C> {
    /// The clients, in order.
    pub closed spec fn view(&self) -> Seq<C> {
        self.clients@
    }

    /// Collects the clients that could be built, one attempt per address;
    /// an attempt that failed is dropped. Fails when none was built, in
    /// particular when there was no address.
    pub fn from_built(built: Vec<Option<C>>) -> (r: Result<ClientPool<C>, ClientBuildError>)
        ensures
            (exists|i: int| 0 <= i < built@.len() && (#[trigger] built@[i]) is Some) <==> r is Ok,
            r matches Ok(p) ==> p.view() == built_clients(built@) && p.view().len() >= 1,
            r is Err ==> r matches Err(ClientBuildError::NoClientsBuilt),
    {
        let ghost b = built@;
        let mut rest = built;
        let mut clients: Vec<C> = Vec::new();
        while rest.len() > 0
            invariant
                clients@ + built_clients(rest@) == built_clients(b),
            decreases rest@.len(),
        {
            let ghost before = rest@;
            let item = rest.remove(0);
            assert(rest@ =~= before.drop_first());
            match item {
                Some(c) => {
                    let ghost cs = clients@;
                    clients.push(c);
                    assert(cs + (seq![c] + built_clients(rest@)) =~= clients@ + built_clients(rest@));
                },
                None => {},
            }
        }
        assert(clients@ + Seq::<C>::empty() =~= clients@);
        proof {
            lemma_built_nonempty(b);
        }
        if clients.len() == 0 {
            Err(ClientBuildError::NoClientsBuilt)
        } else {
            Ok(ClientPool { clients })
        }
    }

    /// The number of clients.
    pub fn len(&self) -> (r: usize)
        ensures
            r == self.view().len(),
    {
        self.clients.len()
    }

    /// The client at index `i`.
    pub fn get(&self, i: usize) -> (r: &C)
        requires
            i < self.view().len(),
        ensures
            *r == self.view()[i as int],
    {
        &self.clients[i]
    }

    /// Picks a client for each of `count` workers, uniformly at random with
    /// replacement; the result holds client indices.
    pub fn pick_indices(&self, count: u32) -> (r: Vec<usize>)
        requires
            self.view().len() > 0,
        ensures
            r@.len() == count,
            forall|i: int| 0 <= i < r@.len() ==> #[trigger] r@[i] < self.view().len(),
    {
        let mut r: Vec<usize> = Vec::new();
        let mut k: u32 = 0;
        while k < count
            invariant
                k <= count,
                r@.len() == k,
                self.view().len() > 0,
                forall|i: int| 0 <= i < r@.len() ==> #[trigger] r@[i] < self.view().len(),
            decreases count - k,
        {
            r.push(random_below(self.clients.len()));
            k = k + 1;
        }
        r
    }
}

} // verus!
