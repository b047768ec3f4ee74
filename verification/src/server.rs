//! The server configuration: the routing table (`hostname -> fronts`,
//! `app_id -> backend addresses`), the crypto context store, the canned
//! answers, and the operations the event loop and the control channel
//! invoke on them.
use vstd::prelude::*;
use vstd::string::StrSliceExecFns;
use vstd::string::StringExecFns;
use vstd::string::StringSliceAdditionalSpecFns;
use crate::addr::SocketAddress;
use crate::contexts::{ContextStore, ContextView, TlsContext};
use crate::front::TlsFront;
use crate::outside::{acceptable_context_pems, certificate_pem_parses, private_key_pem_parses,
    PEM_LEN_LIMIT};
use crate::pem::contains_encryption_header;
use crate::addr::{spec_parse_ipv4, parse_ipv4};
use crate::client::{Client, ClientEvent, ConnectionError, spec_next_status};
use crate::commands::{Command, NotifyOutcome, ProxyOrder, ServerMessage};
use crate::strutil::{spec_strip_port, str_eq, str_is_prefix, strip_port};

verus! {

/// The canned 404 response, byte-exact.
pub open spec fn not_found_answer() -> Seq<u8> {
    "HTTP/1.1 404 Not Found\r\nCache-Control: no-cache\r\nConnection: close\r\n\r\n".spec_bytes()
}

/// The canned 503 response, byte-exact.
pub open spec fn service_unavailable_answer() -> Seq<u8> {
    "HTTP/1.1 503 your application is in deployment\r\nCache-Control: no-cache\r\nConnection: close\r\n\r\n".spec_bytes()
}

/// The two pre-formatted responses staged on a client when routing fails.
pub struct DefaultAnswers {
    pub not_found: Vec<u8>,
    pub service_unavailable: Vec<u8>,
}

/// Whether front `f` applies to a request: its hostname is the request's
/// host and its `path_begin` is a lexical prefix of the URI.
pub open spec fn spec_front_match(f: TlsFront, host: Seq<char>, uri: Seq<char>) -> bool {
    f.hostname@ == host && f.path_begin@.is_prefix_of(uri)
}

/// The front a request routes to: among the fronts for `host` whose
/// `path_begin` is a prefix of `uri`, the one with the longest
/// `path_begin`; ties go to the front added last.
pub open spec fn best_front(s: Seq<TlsFront>, host: Seq<char>, uri: Seq<char>) -> Option<TlsFront>
    decreases s.len(),
{
    if s.len() == 0 {
        None
    } else {
        let rest = best_front(s.drop_last(), host, uri);
        if spec_front_match(s.last(), host, uri) {
            match rest {
                Option::None => Some(s.last()),
                Option::Some(g) => if s.last().path_begin@.len() >= g.path_begin@.len() {
                    Some(s.last())
                } else {
                    Some(g)
                },
            }
        } else {
            rest
        }
    }
}

/// The front list with every descriptor equal to `f` stripped.
pub open spec fn spec_remove_front(s: Seq<TlsFront>, f: crate::front::FrontView) -> Seq<TlsFront>
    decreases s.len(),
{
    if s.len() == 0 {
        Seq::empty()
    } else if s.last()@ == f {
        spec_remove_front(s.drop_last(), f)
    } else {
        spec_remove_front(s.drop_last(), f).push(s.last())
    }
}

/// The backend addresses registered for application `app`, in insertion
/// order, duplicates kept.
pub open spec fn spec_addrs_for(s: Seq<(String, SocketAddress)>, app: Seq<char>) -> Seq<
    SocketAddress,
>
    decreases s.len(),
{
    if s.len() == 0 {
        Seq::empty()
    } else if s.last().0@ == app {
        spec_addrs_for(s.drop_last(), app).push(s.last().1)
    } else {
        spec_addrs_for(s.drop_last(), app)
    }
}

/// The instance list with every registration of `addr` under `app`
/// stripped.
pub open spec fn spec_remove_instance(
    s: Seq<(String, SocketAddress)>,
    app: Seq<char>,
    addr: SocketAddress,
) -> Seq<(String, SocketAddress)>
    decreases s.len(),
{
    if s.len() == 0 {
        Seq::empty()
    } else if s.last().0@ == app && s.last().1 == addr {
        spec_remove_instance(s.drop_last(), app, addr)
    } else {
        spec_remove_instance(s.drop_last(), app, addr).push(s.last())
    }
}

/// The TLS front end's whole mutable state: routing table, context store,
/// default certificate and context, and the canned answers.
pub struct ServerConfiguration {
    pub address: SocketAddress,
    pub instances: Vec<(String, SocketAddress)>,
    pub fronts: Vec<TlsFront>,
    pub default_cert: String,
    pub default_context: TlsContext,
    pub contexts: ContextStore,
    pub answers: DefaultAnswers,
}

impl ServerConfiguration {
    /// Every hostname with a front has a context installed: a handshake
    /// for any routable host can find its certificate. Installing a front
    /// establishes it atomically, and removing a front keeps it (the
    /// context stays behind for in-flight handshakes).
    pub open spec fn fronts_have_contexts(self) -> bool {
        forall|i: int|
            0 <= i < self.fronts@.len() ==> self.contexts.spec_get(
                (#[trigger] self.fronts@[i]).hostname@,
            ) is Some
    }

    /// A configuration with empty tables, the given default context, and
    /// the two canned answers staged for 404 and 503.
    pub fn new(address: SocketAddress, default_context: TlsContext) -> (r: ServerConfiguration)
        ensures
            r.fronts@.len() == 0,
            r.instances@.len() == 0,
            forall|name: Seq<char>| r.contexts.spec_get(name) is None,
            r.address == address,
            r.default_cert@ == "lolcatho.st"@,
            r.default_context == default_context,
            r.answers.not_found@ == not_found_answer(),
            r.answers.service_unavailable@ == service_unavailable_answer(),
            r.fronts_have_contexts(),
    {
        ServerConfiguration {
            address,
            instances: Vec::new(),
            fronts: Vec::new(),
            default_cert: String::from_str("lolcatho.st"),
            default_context,
            contexts: ContextStore::new(),
            answers: DefaultAnswers {
                not_found:
                    "HTTP/1.1 404 Not Found\r\nCache-Control: no-cache\r\nConnection: close\r\n\r\n".as_bytes_vec(),
                service_unavailable:
                    "HTTP/1.1 503 your application is in deployment\r\nCache-Control: no-cache\r\nConnection: close\r\n\r\n".as_bytes_vec(),
            },
        }
    }

    /// Install a front: when its certificate and key are acceptable —
    /// within the parser's size limit, the certificate unencrypted, both
    /// accepted by the TLS library — the context is bound to the front's
    /// hostname and the front is appended to the hostname's list,
    /// atomically; otherwise the front is rejected and nothing is
    /// installed.
    pub fn add_http_front(&mut self, http_front: TlsFront, cert_pem: &[u8], key_pem: &[u8]) -> (r:
        bool)
        ensures
            r == acceptable_context_pems(cert_pem@, key_pem@),
            r ==> final(self).fronts@ == old(self).fronts@.push(http_front),
            r ==> final(self).contexts.spec_get(http_front.hostname@) == Some(
                (ContextView { cert_pem: cert_pem@, key_pem: key_pem@ }),
            ),
            r ==> forall|name: Seq<char>|
                name != http_front.hostname@ ==> final(self).contexts.spec_get(name) == old(
                    self,
                ).contexts.spec_get(name),
            final(self).instances == old(self).instances,
            final(self).answers == old(self).answers,
            final(self).address == old(self).address,
            final(self).default_cert == old(self).default_cert,
            final(self).default_context == old(self).default_context,
            !r ==> final(self).fronts == old(self).fronts,
            !r ==> final(self).contexts == old(self).contexts,
            old(self).fronts_have_contexts() ==> final(self).fronts_have_contexts(),
    {
        if cert_pem.len() > PEM_LEN_LIMIT || key_pem.len() > PEM_LEN_LIMIT {
            return false;
        }
        if contains_encryption_header(cert_pem) {
            return false;
        }
        let cert_ok = certificate_pem_parses(cert_pem);
        let key_ok = private_key_pem_parses(key_pem);
        if !(cert_ok && key_ok) {
            return false;
        }
        let ghost hn = http_front.hostname@;
        let hostname = http_front.hostname.clone();
        let ctx = TlsContext {
            cert_pem: vstd::slice::slice_to_vec(cert_pem),
            key_pem: vstd::slice::slice_to_vec(key_pem),
        };
        self.fronts.push(http_front);
        self.contexts.install(hostname, ctx);
        proof {
            if old(self).fronts_have_contexts() {
                assert forall|i: int| 0 <= i < self.fronts@.len() implies self.contexts.spec_get(
                    (#[trigger] self.fronts@[i]).hostname@,
                ) is Some by {
                    if i < self.fronts@.len() - 1 {
                        assert(self.fronts@[i] == old(self).fronts@[i]);
                        assert(old(self).contexts.spec_get(self.fronts@[i].hostname@) is Some);
                    } else {
                        assert(self.fronts@[i].hostname@ == hn);
                    }
                }
            }
        }
        true
    }

    /// Strip every front equal to `front` from the table. The context
    /// store is untouched: in-flight handshakes keyed on that SNI must
    /// still complete.
    pub fn remove_http_front(&mut self, front: TlsFront)
        ensures
            final(self).fronts@ == spec_remove_front(old(self).fronts@, front@),
            final(self).instances == old(self).instances,
            final(self).contexts == old(self).contexts,
            final(self).answers == old(self).answers,
            final(self).address == old(self).address,
            final(self).default_cert == old(self).default_cert,
            final(self).default_context == old(self).default_context,
            old(self).fronts_have_contexts() ==> final(self).fronts_have_contexts(),
    {
        let ghost oldv = self.fronts@;
        let ghost prev = *self;
        let mut i: usize = self.fronts.len();
        proof {
            assert(self.fronts@.skip(i as int) =~= Seq::<TlsFront>::empty());
            assert(self.fronts@.take(i as int) =~= self.fronts@);
        }
        while i > 0
            invariant
                i <= self.fronts@.len(),
                self.instances == prev.instances,
                self.contexts == prev.contexts,
                self.answers == prev.answers,
                self.address == prev.address,
                self.default_cert == prev.default_cert,
                self.default_context == prev.default_context,
                spec_remove_front(oldv, front@) == spec_remove_front(
                    self.fronts@.take(i as int),
                    front@,
                ) + self.fronts@.skip(i as int),
                forall|j: int|
                    i <= j < self.fronts@.len() ==> #[trigger] self.fronts@[j]@ != front@,
            decreases i,
        {
            i = i - 1;
            let ghost cur = self.fronts@;
            if self.fronts[i] == front {
                self.fronts.remove(i);
                proof {
                    assert(self.fronts@.take(i as int) =~= cur.take(i as int));
                    assert(self.fronts@.skip(i as int) =~= cur.skip(i as int + 1));
                    assert(cur.take(i as int + 1).drop_last() =~= cur.take(i as int));
                    assert(cur.take(i as int + 1).last() == cur[i as int]);
                    assert(spec_remove_front(cur.take(i as int + 1), front@) == spec_remove_front(
                        cur.take(i as int),
                        front@,
                    ));
                }
            } else {
                proof {
                    assert(cur.take(i as int + 1).drop_last() =~= cur.take(i as int));
                    assert(cur.take(i as int + 1).last() == cur[i as int]);
                    assert(spec_remove_front(cur.take(i as int + 1), front@) == spec_remove_front(
                        cur.take(i as int),
                        front@,
                    ).push(cur[i as int]));
                    assert(spec_remove_front(cur.take(i as int), front@).push(cur[i as int])
                        + cur.skip(i as int + 1) =~= spec_remove_front(cur.take(i as int), front@)
                        + cur.skip(i as int));
                }
            }
        }
        proof {
            assert(self.fronts@.take(0) =~= Seq::<TlsFront>::empty());
            assert(spec_remove_front(oldv, front@) =~= spec_remove_front(
                Seq::<TlsFront>::empty(),
                front@,
            ) + self.fronts@.skip(0));
            assert(self.fronts@.skip(0) =~= self.fronts@);
            if old(self).fronts_have_contexts() {
                lemma_remove_front_keeps_elements(oldv, front@);
                assert forall|k: int| 0 <= k < self.fronts@.len() implies self.contexts.spec_get(
                    (#[trigger] self.fronts@[k]).hostname@,
                ) is Some by {
                    assert(oldv.contains(self.fronts@[k]));
                    let j = choose|j: int| 0 <= j < oldv.len() && oldv[j] == self.fronts@[k];
                    assert(old(self).contexts.spec_get(oldv[j].hostname@) is Some);
                }
            }
        }
    }

    /// Register one more backend address for an application; duplicates
    /// are permitted and kept in insertion order.
    pub fn add_instance(&mut self, app_id: &str, instance_address: &SocketAddress)
        ensures
            spec_addrs_for(final(self).instances@, app_id@) == spec_addrs_for(
                old(self).instances@,
                app_id@,
            ).push(*instance_address),
            forall|app: Seq<char>|
                app != app_id@ ==> spec_addrs_for(final(self).instances@, app) == spec_addrs_for(
                    old(self).instances@,
                    app,
                ),
            final(self).instances@.len() == old(self).instances@.len() + 1,
            final(self).fronts == old(self).fronts,
            final(self).contexts == old(self).contexts,
            final(self).answers == old(self).answers,
            final(self).address == old(self).address,
            final(self).default_cert == old(self).default_cert,
            final(self).default_context == old(self).default_context,
    {
        let ghost oldv = self.instances@;
        self.instances.push((String::from_str(app_id), *instance_address));
        proof {
            assert(self.instances@.drop_last() =~= oldv);
            assert(self.instances@.last().0@ == app_id@);
            assert(self.instances@.last().1 == *instance_address);
        }
    }

    /// Strip every registration of this address under this application;
    /// an application that was never registered is left as it is.
    pub fn remove_instance(&mut self, app_id: &str, instance_address: &SocketAddress)
        ensures
            final(self).instances@ == spec_remove_instance(
                old(self).instances@,
                app_id@,
                *instance_address,
            ),
            final(self).fronts == old(self).fronts,
            final(self).contexts == old(self).contexts,
            final(self).answers == old(self).answers,
            final(self).address == old(self).address,
            final(self).default_cert == old(self).default_cert,
            final(self).default_context == old(self).default_context,
    {
        let ghost oldv = self.instances@;
        let ghost addr = *instance_address;
        let ghost prev = *self;
        let mut i: usize = self.instances.len();
        proof {
            assert(self.instances@.skip(i as int) =~= Seq::<(String, SocketAddress)>::empty());
            assert(self.instances@.take(i as int) =~= self.instances@);
        }
        while i > 0
            invariant
                i <= self.instances@.len(),
                addr == *instance_address,
                self.fronts == prev.fronts,
                self.contexts == prev.contexts,
                self.answers == prev.answers,
                self.address == prev.address,
                self.default_cert == prev.default_cert,
                self.default_context == prev.default_context,
                spec_remove_instance(oldv, app_id@, addr) == spec_remove_instance(
                    self.instances@.take(i as int),
                    app_id@,
                    addr,
                ) + self.instances@.skip(i as int),
                forall|j: int|
                    i <= j < self.instances@.len() ==> !((#[trigger] self.instances@[j]).0@
                        == app_id@ && self.instances@[j].1 == addr),
            decreases i,
        {
            i = i - 1;
            let ghost cur = self.instances@;
            let matched = str_eq(self.instances[i].0.as_str(), app_id) && self.instances[i].1
                == *instance_address;
            proof {
                assert(cur.take(i as int + 1).drop_last() =~= cur.take(i as int));
                assert(cur.take(i as int + 1).last() == cur[i as int]);
            }
            if matched {
                self.instances.remove(i);
                proof {
                    assert(self.instances@.take(i as int) =~= cur.take(i as int));
                    assert(self.instances@.skip(i as int) =~= cur.skip(i as int + 1));
                }
            } else {
                proof {
                    assert(spec_remove_instance(cur.take(i as int), app_id@, addr).push(
                        cur[i as int],
                    ) + cur.skip(i as int + 1) =~= spec_remove_instance(
                        cur.take(i as int),
                        app_id@,
                        addr,
                    ) + cur.skip(i as int));
                }
            }
        }
        proof {
            assert(self.instances@.take(0) =~= Seq::<(String, SocketAddress)>::empty());
            assert(self.instances@.skip(0) =~= self.instances@);
            assert(spec_remove_instance(oldv, app_id@, addr) =~= self.instances@);
        }
    }

    /// The backend addresses currently registered for an application.
    pub fn addresses_of(&self, app_id: &str) -> (r: Vec<SocketAddress>)
        ensures
            r@ == spec_addrs_for(self.instances@, app_id@),
    {
        let mut out: Vec<SocketAddress> = Vec::new();
        let n = self.instances.len();
        let mut i: usize = 0;
        proof {
            assert(self.instances@.take(0) =~= Seq::<(String, SocketAddress)>::empty());
        }
        while i < n
            invariant
                n == self.instances@.len(),
                i <= n,
                out@ == spec_addrs_for(self.instances@.take(i as int), app_id@),
            decreases n - i,
        {
            proof {
                assert(self.instances@.take(i as int + 1).drop_last() =~= self.instances@.take(
                    i as int,
                ));
                assert(self.instances@.take(i as int + 1).last() == self.instances@[i as int]);
            }
            if str_eq(self.instances[i].0.as_str(), app_id) {
                let a = self.instances[i].1;
                out.push(a);
            }
            i = i + 1;
        }
        proof {
            assert(self.instances@.take(n as int) =~= self.instances@);
        }
        out
    }

    /// The front a request for `(host, uri)` routes to: the registered
    /// front with the longest `path_begin` that prefixes `uri`, the
    /// last-added one among ties; none when no front matches.
    pub fn frontend_from_request(&self, host: &str, uri: &str) -> (r: Option<&TlsFront>)
        ensures
            match r {
                Some(f) => best_front(self.fronts@, host@, uri@) matches Some(g) && g@ == f@,
                None => best_front(self.fronts@, host@, uri@) is None,
            },
    {
        let n = self.fronts.len();
        let mut best: Option<usize> = None;
        let mut i: usize = 0;
        proof {
            assert(self.fronts@.take(0) =~= Seq::<TlsFront>::empty());
        }
        while i < n
            invariant
                n == self.fronts@.len(),
                i <= n,
                match best {
                    Some(b) => b < i && (best_front(self.fronts@.take(i as int), host@, uri@)
                        matches Some(g) && g == self.fronts@[b as int]),
                    None => best_front(self.fronts@.take(i as int), host@, uri@) is None,
                },
            decreases n - i,
        {
            proof {
                assert(self.fronts@.take(i as int + 1).drop_last() =~= self.fronts@.take(i as int));
                assert(self.fronts@.take(i as int + 1).last() == self.fronts@[i as int]);
            }
            let f = &self.fronts[i];
            let matched = str_eq(f.hostname.as_str(), host) && str_is_prefix(
                f.path_begin.as_str(),
                uri,
            );
            if matched {
                let replace = match best {
                    None => true,
                    Some(b) => self.fronts[i].path_begin.as_str().unicode_len()
                        >= self.fronts[b].path_begin.as_str().unicode_len(),
                };
                if replace {
                    best = Some(i);
                }
            }
            i = i + 1;
        }
        proof {
            assert(self.fronts@.take(n as int) =~= self.fronts@);
        }
        match best {
            Some(b) => Some(&self.fronts[b]),
            None => None,
        }
    }

    /// Pick a backend for a request: strip the port from the Host header,
    /// find the front the URI routes to, and draw one of its
    /// application's addresses uniformly at random. An unknown host
    /// stages the 404 answer; a known front without instances stages the
    /// 503 answer; otherwise an address is owed.
    pub fn backend_from_request(&self, client: &mut Client, host: &str, uri: &str) -> (r: Result<
        SocketAddress,
        ConnectionError,
    >)
        ensures
            ({
                let fopt = best_front(self.fronts@, spec_strip_port(host@), uri@);
                &&& (fopt is None ==> {
                    &&& r == Err::<SocketAddress, ConnectionError>(ConnectionError::HostNotFound)
                    &&& final(client).answer matches Some(a) && a@ == self.answers.not_found@
                    &&& final(client).status == spec_next_status(
                        old(client).status,
                        ClientEvent::AnswerStaged,
                    )
                    &&& final(client).http == old(client).http
                })
                &&& (fopt matches Some(f) ==> (spec_addrs_for(self.instances@, f.app_id@).len()
                    == 0 ==> {
                    &&& r == Err::<SocketAddress, ConnectionError>(
                        ConnectionError::NoBackendAvailable,
                    )
                    &&& final(client).answer matches Some(a) && a@
                        == self.answers.service_unavailable@
                    &&& final(client).status == spec_next_status(
                        old(client).status,
                        ClientEvent::AnswerStaged,
                    )
                    &&& final(client).http == old(client).http
                }))
                &&& (fopt matches Some(f) ==> (spec_addrs_for(self.instances@, f.app_id@).len()
                    > 0 ==> {
                    &&& r matches Ok(addr) && spec_addrs_for(self.instances@, f.app_id@).contains(
                        addr,
                    )
                    &&& *final(client) == *old(client)
                }))
            }),
    {
        let real_host = strip_port(host);
        match self.frontend_from_request(real_host, uri) {
            None => {
                client.set_answer(self.answers.not_found.as_slice());
                Err(ConnectionError::HostNotFound)
            },
            Some(front) => {
                let addrs = self.addresses_of(front.app_id.as_str());
                if addrs.len() == 0 {
                    client.set_answer(self.answers.service_unavailable.as_slice());
                    Err(ConnectionError::NoBackendAvailable)
                } else {
                    let rnd = crate::outside::random_number();
                    let addr = pick_backend(&addrs, rnd);
                    proof {
                        let idx = rnd as int % addrs@.len() as int;
                        assert(spec_addrs_for(self.instances@, front.app_id@)[idx] == addr);
                    }
                    Ok(addr)
                }
            },
        }
    }

    /// The routing decision for a parsed client: the address its request
    /// should be bridged to. A request without a Host header or without a
    /// request line cannot be routed and the client is left untouched;
    /// the caller opens the plaintext socket to the returned address. The
    /// parser's keep-alive disposition is advisory and gates nothing.
    pub fn connect_to_backend(&self, client: &mut Client) -> (r: Result<
        SocketAddress,
        ConnectionError,
    >)
        ensures
            old(client).http.request.host is None ==> r == Err::<SocketAddress, ConnectionError>(
                ConnectionError::NoHostGiven,
            ) && *final(client) == *old(client),
            old(client).http.request.host is Some && old(client).http.request.request_line is None
                ==> r == Err::<SocketAddress, ConnectionError>(ConnectionError::NoRequestLineGiven)
                && *final(client) == *old(client),
            (old(client).http.request.host matches Some(h) ==> (old(
                client,
            ).http.request.request_line matches Some(rl) ==> {
                let fopt = best_front(self.fronts@, spec_strip_port(h@), rl.uri@);
                &&& (fopt is None ==> {
                    &&& r == Err::<SocketAddress, ConnectionError>(ConnectionError::HostNotFound)
                    &&& final(client).answer matches Some(a) && a@ == self.answers.not_found@
                    &&& final(client).status == spec_next_status(
                        old(client).status,
                        ClientEvent::AnswerStaged,
                    )
                    &&& final(client).http == old(client).http
                })
                &&& (fopt matches Some(f) ==> (spec_addrs_for(self.instances@, f.app_id@).len()
                    == 0 ==> {
                    &&& r == Err::<SocketAddress, ConnectionError>(
                        ConnectionError::NoBackendAvailable,
                    )
                    &&& final(client).answer matches Some(a) && a@
                        == self.answers.service_unavailable@
                    &&& final(client).status == spec_next_status(
                        old(client).status,
                        ClientEvent::AnswerStaged,
                    )
                    &&& final(client).http == old(client).http
                }))
                &&& (fopt matches Some(f) ==> (spec_addrs_for(self.instances@, f.app_id@).len()
                    > 0 ==> {
                    &&& r matches Ok(addr) && spec_addrs_for(self.instances@, f.app_id@).contains(
                        addr,
                    )
                    &&& *final(client) == *old(client)
                }))
            })),
    {
        let host = match &client.http.request.host {
            Some(h) => h.clone(),
            None => {
                return Err(ConnectionError::NoHostGiven);
            },
        };
        let uri = match &client.http.request.request_line {
            Some(rl) => rl.uri.clone(),
            None => {
                return Err(ConnectionError::NoRequestLineGiven);
            },
        };
        self.backend_from_request(client, host.as_str(), uri.as_str())
    }

    /// When the plaintext connect to the chosen backend fails, the 503
    /// answer is staged and the error surfaced; nothing is retried.
    pub fn backend_connect_failed(&self, client: &mut Client) -> (r: ConnectionError)
        ensures
            r == ConnectionError::NoBackendAvailable,
            final(client).answer matches Some(a) && a@ == self.answers.service_unavailable@,
            final(client).status == spec_next_status(old(client).status, ClientEvent::AnswerStaged),
            final(client).http == old(client).http,
    {
        client.set_answer(self.answers.service_unavailable.as_slice());
        ConnectionError::NoBackendAvailable
    }

    /// Apply one control-channel order. Front commands install or strip
    /// routing rules (an AddTlsFront needs its certificate and key bytes,
    /// read from the front's two paths); instance commands canonicalize
    /// `ip:port` and mutate the instance table; a command whose input
    /// cannot be used — a missing or corrupt certificate, an address that
    /// is no dotted quad — is ignored without an ack; the plaintext
    /// proxy's commands are not ours and are ignored; Stop asks the event
    /// loop to shut down.
    pub fn notify(&mut self, message: ProxyOrder, certificate: Option<TlsContext>) -> (r:
        NotifyOutcome)
        ensures
            old(self).fronts_have_contexts() ==> final(self).fronts_have_contexts(),
            final(self).answers == old(self).answers,
            final(self).address == old(self).address,
            final(self).default_cert == old(self).default_cert,
            final(self).default_context == old(self).default_context,
            r.stop == (message matches ProxyOrder::Stop),
            message matches ProxyOrder::Stop ==> *final(self) == *old(self) && r.ack is None,
            message matches ProxyOrder::Command(Command::AddTlsFront(f)) ==> {
                &&& (certificate matches Some(c) ==> (acceptable_context_pems(
                    c.cert_pem@,
                    c.key_pem@,
                ) ==> {
                    &&& final(self).fronts@ == old(self).fronts@.push(f)
                    &&& final(self).contexts.spec_get(f.hostname@) == Some(c@)
                    &&& (forall|name: Seq<char>|
                        name != f.hostname@ ==> final(self).contexts.spec_get(name) == old(
                            self,
                        ).contexts.spec_get(name))
                    &&& final(self).instances == old(self).instances
                    &&& r.ack == Some(ServerMessage::AddedFront)
                }))
                &&& (certificate matches Some(c) ==> (!acceptable_context_pems(
                    c.cert_pem@,
                    c.key_pem@,
                ) ==> *final(self) == *old(self) && r.ack is None))
                &&& (certificate is None ==> *final(self) == *old(self) && r.ack is None)
            },
            message matches ProxyOrder::Command(Command::RemoveTlsFront(f)) ==> {
                &&& final(self).fronts@ == spec_remove_front(old(self).fronts@, f@)
                &&& final(self).contexts == old(self).contexts
                &&& final(self).instances == old(self).instances
                &&& r.ack == Some(ServerMessage::RemovedFront)
            },
            message matches ProxyOrder::Command(Command::AddInstance(inst)) ==> {
                &&& (spec_parse_ipv4(inst.ip_address@) matches Some(o) ==> {
                    &&& spec_addrs_for(final(self).instances@, inst.app_id@) == spec_addrs_for(
                        old(self).instances@,
                        inst.app_id@,
                    ).push(
                        (SocketAddress {
                            o1: o.0,
                            o2: o.1,
                            o3: o.2,
                            o4: o.3,
                            port: inst.port,
                        }),
                    )
                    &&& (forall|app: Seq<char>|
                        app != inst.app_id@ ==> spec_addrs_for(final(self).instances@, app)
                            == spec_addrs_for(old(self).instances@, app))
                    &&& final(self).fronts == old(self).fronts
                    &&& final(self).contexts == old(self).contexts
                    &&& r.ack == Some(ServerMessage::AddedInstance)
                })
                &&& (spec_parse_ipv4(inst.ip_address@) is None ==> *final(self) == *old(self)
                    && r.ack is None)
            },
            message matches ProxyOrder::Command(Command::RemoveInstance(inst)) ==> {
                &&& (spec_parse_ipv4(inst.ip_address@) matches Some(o) ==> {
                    &&& final(self).instances@ == spec_remove_instance(
                        old(self).instances@,
                        inst.app_id@,
                        (SocketAddress { o1: o.0, o2: o.1, o3: o.2, o4: o.3, port: inst.port }),
                    )
                    &&& final(self).fronts == old(self).fronts
                    &&& final(self).contexts == old(self).contexts
                    &&& r.ack == Some(ServerMessage::RemovedInstance)
                })
                &&& (spec_parse_ipv4(inst.ip_address@) is None ==> *final(self) == *old(self)
                    && r.ack is None)
            },
            message matches ProxyOrder::Command(Command::AddHttpFront(f)) ==> *final(self) == *old(
                self,
            ) && r.ack is None,
            message matches ProxyOrder::Command(Command::RemoveHttpFront(f)) ==> *final(self)
                == *old(self) && r.ack is None,
    {
        match message {
            ProxyOrder::Command(Command::AddTlsFront(front)) => {
                match certificate {
                    Some(c) => {
                        let ok = self.add_http_front(front, c.cert_pem.as_slice(),
                            c.key_pem.as_slice());
                        NotifyOutcome {
                            ack: if ok {
                                Some(ServerMessage::AddedFront)
                            } else {
                                None
                            },
                            stop: false,
                        }
                    },
                    None => NotifyOutcome { ack: None, stop: false },
                }
            },
            ProxyOrder::Command(Command::RemoveTlsFront(front)) => {
                self.remove_http_front(front);
                NotifyOutcome { ack: Some(ServerMessage::RemovedFront), stop: false }
            },
            ProxyOrder::Command(Command::AddInstance(instance)) => {
                match parse_ipv4(instance.ip_address.as_str()) {
                    Some((o1, o2, o3, o4)) => {
                        let addr = SocketAddress { o1, o2, o3, o4, port: instance.port };
                        self.add_instance(instance.app_id.as_str(), &addr);
                        NotifyOutcome { ack: Some(ServerMessage::AddedInstance), stop: false }
                    },
                    None => NotifyOutcome { ack: None, stop: false },
                }
            },
            ProxyOrder::Command(Command::RemoveInstance(instance)) => {
                match parse_ipv4(instance.ip_address.as_str()) {
                    Some((o1, o2, o3, o4)) => {
                        let addr = SocketAddress { o1, o2, o3, o4, port: instance.port };
                        self.remove_instance(instance.app_id.as_str(), &addr);
                        NotifyOutcome { ack: Some(ServerMessage::RemovedInstance), stop: false }
                    },
                    None => NotifyOutcome { ack: None, stop: false },
                }
            },
            ProxyOrder::Command(Command::AddHttpFront(_)) => NotifyOutcome {
                ack: None,
                stop: false,
            },
            ProxyOrder::Command(Command::RemoveHttpFront(_)) => NotifyOutcome {
                ack: None,
                stop: false,
            },
            ProxyOrder::Stop => NotifyOutcome { ack: None, stop: true },
        }
    }
}

/// The backend a drawn number selects: the instance list indexed by the
/// draw modulo its length, so every registered address can be returned
/// and the choice is uniform when the draw is. Verified for every value
/// of the draw.
pub fn pick_backend(addrs: &Vec<SocketAddress>, rnd: usize) -> (r: SocketAddress)
    requires
        addrs@.len() > 0,
    ensures
        r == addrs@[rnd as int % addrs@.len() as int],
{
    addrs[rnd % addrs.len()]
}

/// Removal strips every descriptor equal to the removed one: nothing
/// equal to `f` survives in the table.
pub proof fn lemma_remove_front_removes(s: Seq<TlsFront>, f: crate::front::FrontView)
    ensures
        forall|i: int|
            0 <= i < spec_remove_front(s, f).len() ==> (#[trigger] spec_remove_front(s, f)[i])@
                != f,
    decreases s.len(),
{
    if s.len() > 0 {
        lemma_remove_front_removes(s.drop_last(), f);
        let rest = spec_remove_front(s.drop_last(), f);
        if s.last()@ != f {
            assert forall|i: int| 0 <= i < spec_remove_front(s, f).len() implies (
            #[trigger] spec_remove_front(s, f)[i])@ != f by {
                assert(spec_remove_front(s, f) == rest.push(s.last()));
                if i < rest.len() {
                    assert(spec_remove_front(s, f)[i] == rest[i]);
                } else {
                    assert(spec_remove_front(s, f)[i] == s.last());
                }
            }
        }
    }
}

/// Removal keeps only descriptors the table already had: every survivor
/// stood in the list before.
pub proof fn lemma_remove_front_keeps_elements(s: Seq<TlsFront>, f: crate::front::FrontView)
    ensures
        forall|i: int|
            0 <= i < spec_remove_front(s, f).len() ==> s.contains(
                #[trigger] spec_remove_front(s, f)[i],
            ),
    decreases s.len(),
{
    if s.len() > 0 {
        let rest = s.drop_last();
        lemma_remove_front_keeps_elements(rest, f);
        assert forall|i: int| 0 <= i < spec_remove_front(s, f).len() implies s.contains(
            #[trigger] spec_remove_front(s, f)[i],
        ) by {
            let out = spec_remove_front(s, f);
            if s.last()@ == f || i < spec_remove_front(rest, f).len() {
                assert(out[i] == spec_remove_front(rest, f)[i]);
                assert(rest.contains(out[i]));
                let j = choose|j: int| 0 <= j < rest.len() && rest[j] == out[i];
                assert(s[j] == out[i]);
            } else {
                assert(out[i] == s.last());
                assert(s[s.len() - 1] == out[i]);
            }
        }
    }
}

/// Adding a front and then removing the exact same descriptor leaves the
/// table without any copy of it.
pub proof fn lemma_add_then_remove_front(s: Seq<TlsFront>, f: TlsFront)
    ensures
        forall|i: int|
            0 <= i < spec_remove_front(s.push(f), f@).len() ==> (#[trigger] spec_remove_front(
                s.push(f),
                f@,
            )[i])@ != f@,
{
    lemma_remove_front_removes(s.push(f), f@);
}

/// Removing an address that an application never had registered changes
/// nothing.
pub proof fn lemma_remove_absent_instance(
    s: Seq<(String, SocketAddress)>,
    app: Seq<char>,
    addr: SocketAddress,
)
    requires
        !spec_addrs_for(s, app).contains(addr),
    ensures
        spec_remove_instance(s, app, addr) == s,
    decreases s.len(),
{
    if s.len() == 0 {
        assert(spec_remove_instance(s, app, addr) =~= s);
    } else {
        let rest = s.drop_last();
        if s.last().0@ == app {
            assert(spec_addrs_for(s, app) == spec_addrs_for(rest, app).push(s.last().1));
            assert(s.last().1 != addr) by {
                if s.last().1 == addr {
                    assert(spec_addrs_for(s, app)[spec_addrs_for(s, app).len() - 1] == addr);
                    assert(spec_addrs_for(s, app).contains(addr));
                }
            }
            assert(!spec_addrs_for(rest, app).contains(addr)) by {
                if spec_addrs_for(rest, app).contains(addr) {
                    let k = choose|k: int|
                        0 <= k < spec_addrs_for(rest, app).len() && spec_addrs_for(rest, app)[k]
                            == addr;
                    assert(spec_addrs_for(s, app)[k] == addr);
                    assert(spec_addrs_for(s, app).contains(addr));
                }
            }
        } else {
            assert(!spec_addrs_for(rest, app).contains(addr)) by {
                if spec_addrs_for(rest, app).contains(addr) {
                    let k = choose|k: int|
                        0 <= k < spec_addrs_for(rest, app).len() && spec_addrs_for(rest, app)[k]
                            == addr;
                    assert(spec_addrs_for(s, app)[k] == addr);
                    assert(spec_addrs_for(s, app).contains(addr));
                }
            }
        }
        lemma_remove_absent_instance(rest, app, addr);
        assert(spec_remove_instance(s, app, addr) =~= s);
    }
}

/// Removal strips every registration of the address: the application's
/// list afterwards holds no copy of it.
pub proof fn lemma_remove_instance_strips(
    s: Seq<(String, SocketAddress)>,
    app: Seq<char>,
    addr: SocketAddress,
)
    ensures
        !spec_addrs_for(spec_remove_instance(s, app, addr), app).contains(addr),
    decreases s.len(),
{
    if s.len() > 0 {
        let rest = s.drop_last();
        lemma_remove_instance_strips(rest, app, addr);
        let cleaned = spec_remove_instance(rest, app, addr);
        if !(s.last().0@ == app && s.last().1 == addr) {
            assert(spec_remove_instance(s, app, addr) == cleaned.push(s.last()));
            if s.last().0@ == app {
                assert(spec_addrs_for(cleaned.push(s.last()), app) == spec_addrs_for(
                    cleaned.push(s.last()).drop_last(),
                    app,
                ).push(s.last().1));
                assert(cleaned.push(s.last()).drop_last() =~= cleaned);
                let out = spec_addrs_for(cleaned, app).push(s.last().1);
                assert(!out.contains(addr)) by {
                    if out.contains(addr) {
                        let k = choose|k: int| 0 <= k < out.len() && out[k] == addr;
                        if k < out.len() - 1 {
                            assert(spec_addrs_for(cleaned, app)[k] == addr);
                            assert(spec_addrs_for(cleaned, app).contains(addr));
                        } else {
                            assert(out[k] == s.last().1);
                        }
                    }
                }
            } else {
                assert(cleaned.push(s.last()).drop_last() =~= cleaned);
                assert(spec_addrs_for(cleaned.push(s.last()), app) == spec_addrs_for(
                    cleaned,
                    app,
                ));
            }
        }
    }
}

/// Registering an instance and then removing it with identical arguments
/// removes exactly the one registration: the table is as before the pair.
/// (When the same address was already registered for the application, the
/// removal strips those copies too; this speaks of an address not yet
/// registered.)
pub proof fn lemma_add_then_remove_instance(
    s: Seq<(String, SocketAddress)>,
    entry: (String, SocketAddress),
)
    requires
        !spec_addrs_for(s, entry.0@).contains(entry.1),
    ensures
        spec_remove_instance(s.push(entry), entry.0@, entry.1) == s,
{
    assert(s.push(entry).drop_last() =~= s);
    lemma_remove_absent_instance(s, entry.0@, entry.1);
}

/// The routing scan is sound and complete: it returns a front exactly
/// when one matches, and then a matching one whose `path_begin` has
/// maximal length among the matches.
pub proof fn lemma_best_front_correct(s: Seq<TlsFront>, host: Seq<char>, uri: Seq<char>)
    ensures
        (best_front(s, host, uri) is Some) <==> (exists|i: int|
            0 <= i < s.len() && spec_front_match(#[trigger] s[i], host, uri)),
        best_front(s, host, uri) matches Some(f) ==> {
            &&& s.contains(f)
            &&& spec_front_match(f, host, uri)
            &&& forall|i: int|
                0 <= i < s.len() && spec_front_match(#[trigger] s[i], host, uri)
                    ==> s[i].path_begin@.len() <= f.path_begin@.len()
        },
    decreases s.len(),
{
    if s.len() > 0 {
        let rest = s.drop_last();
        lemma_best_front_correct(rest, host, uri);
        assert(forall|i: int| 0 <= i < rest.len() ==> rest[i] == s[i]);
        match best_front(s, host, uri) {
            Some(f) => {
                if f == s.last() {
                    assert(s[s.len() - 1] == f);
                    assert(s.contains(f));
                } else {
                    assert(rest.contains(f));
                    let k = choose|k: int| 0 <= k < rest.len() && rest[k] == f;
                    assert(s[k] == f);
                    assert(s.contains(f));
                }
            },
            None => {},
        }
        if exists|i: int| 0 <= i < s.len() && spec_front_match(#[trigger] s[i], host, uri) {
            let i = choose|i: int| 0 <= i < s.len() && spec_front_match(#[trigger] s[i], host, uri);
            if i < s.len() - 1 {
                assert(spec_front_match(rest[i], host, uri));
            }
            assert(best_front(s, host, uri) is Some);
        }
    }
}

/// A host that no front names routes nowhere, whatever the URI.
pub proof fn lemma_unknown_host_routes_nowhere(s: Seq<TlsFront>, host: Seq<char>, uri: Seq<char>)
    requires
        forall|i: int| 0 <= i < s.len() ==> (#[trigger] s[i]).hostname@ != host,
    ensures
        best_front(s, host, uri) is None,
{
    lemma_best_front_correct(s, host, uri);
    if best_front(s, host, uri) is Some {
        let i = choose|i: int| 0 <= i < s.len() && spec_front_match(#[trigger] s[i], host, uri);
        assert(s[i].hostname@ == host);
        assert(false);
    }
}

} // verus!
