//! Front descriptors: the routing rule `(hostname, path_begin) -> app_id`
//! together with the certificate/key paths its TLS context is loaded from.
use vstd::prelude::*;

verus! {

/// The mathematical value of a front descriptor: every string field as a
/// sequence of characters. Two fronts are equal iff every field is equal.
#[verifier::ext_equal]
pub struct FrontView {
    pub app_id: Seq<char>,
    pub hostname: Seq<char>,
    pub path_begin: Seq<char>,
    pub port: u16,
    pub cert_path: Seq<char>,
    pub key_path: Seq<char>,
}

/// A routing rule: requests for `hostname` whose URI starts with
/// `path_begin` belong to the application `app_id`, whose TLS context is
/// built from the certificate and key at the two paths.
#[derive(Clone, Debug)]
pub struct TlsFront {
    pub app_id: String,
    pub hostname: String,
    pub path_begin: String,
    pub port: u16,
    pub cert_path: String,
    pub key_path: String,
}

impl View for TlsFront {
    type V = FrontView;

    open spec fn view(&self) -> FrontView {
        FrontView {
            app_id: self.app_id@,
            hostname: self.hostname@,
            path_begin: self.path_begin@,
            port: self.port,
            cert_path: self.cert_path@,
            key_path: self.key_path@,
        }
    }
}

impl PartialEq for TlsFront {
    fn eq(&self, other: &TlsFront) -> (r: bool) {
        let r = self.app_id == other.app_id && self.hostname == other.hostname
            && self.path_begin == other.path_begin && self.port == other.port
            && self.cert_path == other.cert_path && self.key_path == other.key_path;
        proof {
            if r {
                assert(self@ =~= other@);
            }
        }
        r
    }
}

impl vstd::std_specs::cmp::PartialEqSpecImpl for TlsFront {
    open spec fn obeys_eq_spec() -> bool {
        true
    }

    open spec fn eq_spec(&self, other: &TlsFront) -> bool {
        self@ == other@
    }
}

/// A routing rule of the plaintext HTTP proxy. The TLS front end shares a
/// command channel with it and ignores commands that carry one of these.
#[derive(Clone, Debug)]
pub struct HttpFront {
    pub app_id: String,
    pub hostname: String,
    pub path_begin: String,
    pub port: u16,
}

} // verus!
