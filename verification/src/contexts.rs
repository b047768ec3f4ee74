//! The crypto context store: one TLS context per hostname, consulted from
//! the SNI callback. The default context used before SNI is known is kept
//! beside the store by its owner and never mutated. A context is held as
//! the plain values it binds: the PEM bytes of its certificate and
//! private key.
use vstd::prelude::*;

verus! {

/// What a per-hostname TLS context binds: a certificate and a private key,
/// both as PEM bytes.
pub struct TlsContext {
    pub cert_pem: Vec<u8>,
    pub key_pem: Vec<u8>,
}

/// The mathematical value of a context: the two byte strings.
#[verifier::ext_equal]
pub struct ContextView {
    pub cert_pem: Seq<u8>,
    pub key_pem: Seq<u8>,
}

impl View for TlsContext {
    type V = ContextView;

    open spec fn view(&self) -> ContextView {
        ContextView { cert_pem: self.cert_pem@, key_pem: self.key_pem@ }
    }
}

/// The context bound to `name` by `entries`: the most recently installed
/// one wins, and installation prepends.
pub open spec fn spec_context_for(entries: Seq<(String, TlsContext)>, name: Seq<char>) -> Option<
    ContextView,
>
    decreases entries.len(),
{
    if entries.len() == 0 {
        None
    } else if entries[0].0@ == name {
        Some(entries[0].1@)
    } else {
        spec_context_for(entries.drop_first(), name)
    }
}

/// Per-hostname TLS contexts. Later installs for the same hostname shadow
/// earlier ones, as a map insert would; contexts are never removed, so
/// that handshakes keyed on a removed front's SNI still complete.
pub struct ContextStore {
    pub entries: Vec<(String, TlsContext)>,
}

impl ContextStore {
    /// The context the store binds to `name`.
    pub open spec fn spec_get(&self, name: Seq<char>) -> Option<ContextView> {
        spec_context_for(self.entries@, name)
    }

    pub fn new() -> (r: ContextStore)
        ensures
            r.entries@.len() == 0,
            forall|name: Seq<char>| r.spec_get(name) is None,
    {
        let r = ContextStore { entries: Vec::new() };
        proof {
            assert forall|name: Seq<char>| r.spec_get(name) is None by {
                assert(r.entries@.len() == 0);
            }
        }
        r
    }

    /// Bind `ctx` to `hostname`, shadowing any earlier binding; every other
    /// hostname keeps its context.
    pub fn install(&mut self, hostname: String, ctx: TlsContext)
        ensures
            final(self).spec_get(hostname@) == Some(ctx@),
            forall|name: Seq<char>|
                name != hostname@ ==> final(self).spec_get(name) == old(self).spec_get(name),
    {
        let ghost old_entries = self.entries@;
        let ghost hostv = hostname@;
        let ghost ctxv = ctx@;
        self.entries.insert(0, (hostname, ctx));
        proof {
            assert(self.entries@.drop_first() =~= old_entries);
            assert(self.entries@[0].0@ == hostv);
            assert(self.entries@[0].1@ =~= ctxv);
            assert(spec_context_for(self.entries@, hostv) == Some(ctxv));
        }
    }

    /// The context for `name`, if one was installed: the lookup the SNI
    /// callback performs. A missing hostname yields `None`, and the caller
    /// keeps the default context in place.
    pub fn lookup(&self, name: &str) -> (r: Option<&TlsContext>)
        ensures
            match r {
                Some(ctx) => self.spec_get(name@) == Some(ctx@),
                None => self.spec_get(name@) is None,
            },
    {
        let n = self.entries.len();
        let mut i: usize = 0;
        proof {
            assert(self.entries@.skip(0) =~= self.entries@);
        }
        while i < n
            invariant
                n == self.entries@.len(),
                i <= n,
                spec_context_for(self.entries@, name@) == spec_context_for(
                    self.entries@.skip(i as int),
                    name@,
                ),
            decreases n - i,
        {
            if crate::strutil::str_eq(self.entries[i].0.as_str(), name) {
                proof {
                    assert(self.entries@.skip(i as int)[0] == self.entries@[i as int]);
                }
                return Some(&self.entries[i].1);
            }
            proof {
                assert(self.entries@.skip(i as int).drop_first() =~= self.entries@.skip(
                    i as int + 1,
                ));
                assert(self.entries@.skip(i as int)[0] == self.entries@[i as int]);
            }
            i = i + 1;
        }
        proof {
            assert(self.entries@.skip(n as int).len() == 0);
        }
        None
    }
}

} // verus!
