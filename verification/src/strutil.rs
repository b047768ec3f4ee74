//! Character-level string operations the router needs: equality, prefix
//! tests for URI matching, and stripping the `:port` suffix of a Host
//! header.
use vstd::prelude::*;

verus! {

/// The prefix of `h` up to (not including) its first `':'`; `h` itself
/// when it holds none. A Host header `h:p` names the host `h`.
pub open spec fn spec_strip_port(h: Seq<char>) -> Seq<char>
    decreases h.len(),
{
    if h.len() == 0 {
        h
    } else if h[0] == ':' {
        Seq::empty()
    } else {
        seq![h[0]] + spec_strip_port(h.drop_first())
    }
}

/// Character-wise equality of two string slices.
pub fn str_eq(a: &str, b: &str) -> (r: bool)
    ensures
        r == (a@ == b@),
{
    let alen = a.unicode_len();
    let blen = b.unicode_len();
    if alen != blen {
        assert(a@ != b@);
        return false;
    }
    let mut i: usize = 0;
    while i < alen
        invariant
            alen == a@.len(),
            blen == b@.len(),
            alen == blen,
            i <= alen,
            forall|j: int| 0 <= j < i ==> a@[j] == b@[j],
        decreases alen - i,
    {
        if a.get_char(i) != b.get_char(i) {
            assert(a@ != b@);
            return false;
        }
        i = i + 1;
    }
    assert(a@ =~= b@);
    true
}

/// Whether `p` is a (lexical) prefix of `s`.
pub fn str_is_prefix(p: &str, s: &str) -> (r: bool)
    ensures
        r == p@.is_prefix_of(s@),
{
    let plen = p.unicode_len();
    let slen = s.unicode_len();
    if plen > slen {
        assert(!p@.is_prefix_of(s@));
        return false;
    }
    let mut i: usize = 0;
    while i < plen
        invariant
            plen == p@.len(),
            slen == s@.len(),
            plen <= slen,
            i <= plen,
            forall|j: int| 0 <= j < i ==> p@[j] == s@[j],
        decreases plen - i,
    {
        if p.get_char(i) != s.get_char(i) {
            assert(p@[i as int] != s@.subrange(0, plen as int)[i as int]);
            assert(!p@.is_prefix_of(s@));
            return false;
        }
        i = i + 1;
    }
    assert(p@ =~= s@.subrange(0, plen as int));
    true
}

/// The host named by a Host header: everything before the first `':'`.
pub fn strip_port(h: &str) -> (r: &str)
    ensures
        r@ == spec_strip_port(h@),
{
    let len = h.unicode_len();
    let mut i: usize = 0;
    while i < len
        invariant
            len == h@.len(),
            i <= len,
            forall|j: int| 0 <= j < i ==> h@[j] != ':',
        decreases len - i,
    {
        if h.get_char(i) == ':' {
            let r = h.substring_char(0, i);
            proof {
                lemma_strip_port_at(h@, i as int);
            }
            return r;
        }
        i = i + 1;
    }
    proof {
        lemma_strip_port_whole(h@);
    }
    h
}

/// When `h[k]` is the first `':'`, the stripped host is `h[..k]`.
proof fn lemma_strip_port_at(h: Seq<char>, k: int)
    requires
        0 <= k < h.len(),
        h[k] == ':',
        forall|j: int| 0 <= j < k ==> h[j] != ':',
    ensures
        spec_strip_port(h) == h.subrange(0, k),
    decreases k,
{
    if k == 0 {
        assert(spec_strip_port(h) =~= h.subrange(0, 0));
    } else {
        lemma_strip_port_at(h.drop_first(), k - 1);
        assert(h.drop_first().subrange(0, k - 1) =~= h.subrange(1, k));
        assert(spec_strip_port(h) =~= h.subrange(0, k));
    }
}

/// When `h` holds no `':'`, the stripped host is `h` itself.
proof fn lemma_strip_port_whole(h: Seq<char>)
    requires
        forall|j: int| 0 <= j < h.len() ==> h[j] != ':',
    ensures
        spec_strip_port(h) == h,
    decreases h.len(),
{
    if h.len() > 0 {
        lemma_strip_port_whole(h.drop_first());
        assert(spec_strip_port(h) =~= h);
    } else {
        assert(spec_strip_port(h) =~= h);
    }
}

} // verus!
