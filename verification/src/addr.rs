//! Socket addresses as plain values: an IPv4 address held as four octets
//! plus a port, and the parser that canonicalizes a dotted-quad string.
use vstd::prelude::*;

verus! {

/// A backend socket address, canonicalized: four IPv4 octets and a port.
#[derive(Clone, Copy, Debug, PartialEq, Eq, Structural)]
pub struct SocketAddress {
    pub o1: u8,
    pub o2: u8,
    pub o3: u8,
    pub o4: u8,
    pub port: u16,
}

impl SocketAddress {
    pub fn new(o1: u8, o2: u8, o3: u8, o4: u8, port: u16) -> (r: SocketAddress)
        ensures
            r == (SocketAddress { o1, o2, o3, o4, port }),
    {
        SocketAddress { o1, o2, o3, o4, port }
    }
}

/// Whether `c` is a decimal digit.
pub open spec fn is_digit(c: char) -> bool {
    48 <= c as int <= 57
}

/// The value of a decimal digit.
pub open spec fn digit_val(c: char) -> int {
    c as int - 48
}

/// The value of a string of decimal digits, most significant first.
pub open spec fn dec_value(s: Seq<char>) -> int
    decreases s.len(),
{
    if s.len() == 0 {
        0
    } else {
        dec_value(s.drop_last()) * 10 + digit_val(s.last())
    }
}

pub open spec fn all_digits(s: Seq<char>) -> bool {
    forall|i: int| 0 <= i < s.len() ==> is_digit(#[trigger] s[i])
}

/// A canonical decimal octet: one to three digits, no leading zero, value
/// at most 255.
pub open spec fn is_octet_text(s: Seq<char>) -> bool {
    &&& 1 <= s.len() <= 3
    &&& all_digits(s)
    &&& (s.len() > 1 ==> s[0] != '0')
    &&& dec_value(s) <= 255
}

/// Whether the dots at `p1 < p2 < p3` split `s` into four octet texts.
pub open spec fn ipv4_split(s: Seq<char>, p1: int, p2: int, p3: int) -> bool {
    &&& 0 <= p1 < p2 < p3 < s.len()
    &&& s[p1] == '.'
    &&& s[p2] == '.'
    &&& s[p3] == '.'
    &&& is_octet_text(s.subrange(0, p1))
    &&& is_octet_text(s.subrange(p1 + 1, p2))
    &&& is_octet_text(s.subrange(p2 + 1, p3))
    &&& is_octet_text(s.subrange(p3 + 1, s.len() as int))
}

/// The IPv4 address a string denotes: four canonical decimal octets
/// separated by dots, and nothing else.
pub open spec fn spec_parse_ipv4(s: Seq<char>) -> Option<(u8, u8, u8, u8)> {
    if exists|p1: int, p2: int, p3: int| ipv4_split(s, p1, p2, p3) {
        let (p1, p2, p3) = choose|p1: int, p2: int, p3: int| ipv4_split(s, p1, p2, p3);
        Some(
            (
                dec_value(s.subrange(0, p1)) as u8,
                dec_value(s.subrange(p1 + 1, p2)) as u8,
                dec_value(s.subrange(p2 + 1, p3)) as u8,
                dec_value(s.subrange(p3 + 1, s.len() as int)) as u8,
            ),
        )
    } else {
        None
    }
}

/// In a well-split string the dots stand nowhere but at the three split
/// positions: every octet text is all digits.
proof fn lemma_split_dots(s: Seq<char>, p1: int, p2: int, p3: int)
    requires
        ipv4_split(s, p1, p2, p3),
    ensures
        forall|q: int| 0 <= q < s.len() && s[q] == '.' ==> (q == p1 || q == p2 || q == p3),
{
    assert forall|q: int| 0 <= q < s.len() && s[q] == '.' implies (q == p1 || q == p2 || q == p3)
        by {
        if q < p1 {
            assert(s.subrange(0, p1)[q] == s[q]);
        } else if p1 < q < p2 {
            assert(s.subrange(p1 + 1, p2)[q - p1 - 1] == s[q]);
        } else if p2 < q < p3 {
            assert(s.subrange(p2 + 1, p3)[q - p2 - 1] == s[q]);
        } else if p3 < q {
            assert(s.subrange(p3 + 1, s.len() as int)[q - p3 - 1] == s[q]);
        }
    }
}

/// A string splits in at most one way: the split positions are exactly its
/// dots, in order.
proof fn lemma_split_unique(s: Seq<char>, p1: int, p2: int, p3: int, q1: int, q2: int, q3: int)
    requires
        ipv4_split(s, p1, p2, p3),
        ipv4_split(s, q1, q2, q3),
    ensures
        p1 == q1 && p2 == q2 && p3 == q3,
{
    lemma_split_dots(s, p1, p2, p3);
    lemma_split_dots(s, q1, q2, q3);
}

/// Parse a canonical dotted-quad IPv4 address, as a command's
/// `ip_address` field carries one; anything else is rejected.
pub fn parse_ipv4(s: &str) -> (r: Option<(u8, u8, u8, u8)>)
    ensures
        r == spec_parse_ipv4(s@),
{
    let n = s.unicode_len();
    let mut d1: Option<usize> = None;
    let mut d2: Option<usize> = None;
    let mut d3: Option<usize> = None;
    let mut i: usize = 0;
    while i < n
        invariant
            n == s@.len(),
            i <= n,
            d2 is Some ==> d1 is Some,
            d3 is Some ==> d2 is Some,
            d1 matches Some(p) ==> p < i && s@[p as int] == '.' && (forall|j: int|
                0 <= j < p ==> s@[j] != '.'),
            d1 is None ==> forall|j: int| 0 <= j < i ==> s@[j] != '.',
            d1 matches Some(p) ==> (d2 matches Some(q) ==> p < q < i && s@[q as int] == '.' && (
            forall|j: int| p < j < q ==> s@[j] != '.')),
            d1 matches Some(p) ==> (d2 is None ==> forall|j: int| p < j < i ==> s@[j] != '.'),
            d2 matches Some(q) ==> (d3 matches Some(t) ==> q < t < i && s@[t as int] == '.' && (
            forall|j: int| q < j < t ==> s@[j] != '.')),
            d2 matches Some(q) ==> (d3 is None ==> forall|j: int| q < j < i ==> s@[j] != '.'),
            d3 matches Some(t) ==> forall|j: int| t < j < i ==> s@[j] != '.',
        decreases n - i,
    {
        let c = s.get_char(i);
        if c == '.' {
            if d1.is_none() {
                d1 = Some(i);
            } else if d2.is_none() {
                d2 = Some(i);
            } else if d3.is_none() {
                d3 = Some(i);
            } else {
                proof {
                    lemma_no_split_when_four_dots(s@, d1->0 as int, d2->0 as int, d3->0 as int,
                        i as int);
                }
                return None;
            }
        }
        i = i + 1;
    }
    if d3.is_none() {
        proof {
            lemma_no_split_when_few_dots(s@, d1, d2);
        }
        return None;
    }
    let p1 = match d1 {
        Some(p) => p,
        None => { return None; },
    };
    let p2 = match d2 {
        Some(p) => p,
        None => { return None; },
    };
    let p3 = match d3 {
        Some(p) => p,
        None => { return None; },
    };
    let v1 = parse_octet(s, 0, p1);
    let v2 = parse_octet(s, p1 + 1, p2);
    let v3 = parse_octet(s, p2 + 1, p3);
    let v4 = parse_octet(s, p3 + 1, n);
    proof {
        lemma_dots_give_unique_candidate(s@, p1 as int, p2 as int, p3 as int);
    }
    match (v1, v2, v3, v4) {
        (Some(a), Some(b), Some(c), Some(d)) => {
            proof {
                assert(ipv4_split(s@, p1 as int, p2 as int, p3 as int));
            }
            Some((a, b, c, d))
        },
        _ => None,
    }
}

/// With four distinct dots in the string no split exists: a split has
/// exactly three.
proof fn lemma_no_split_when_four_dots(s: Seq<char>, a: int, b: int, c: int, d: int)
    requires
        0 <= a < b < c < d < s.len(),
        s[a] == '.' && s[b] == '.' && s[c] == '.' && s[d] == '.',
    ensures
        !(exists|p1: int, p2: int, p3: int| ipv4_split(s, p1, p2, p3)),
{
    assert forall|p1: int, p2: int, p3: int| !ipv4_split(s, p1, p2, p3) by {
        if ipv4_split(s, p1, p2, p3) {
            lemma_split_dots(s, p1, p2, p3);
        }
    }
}

/// With fewer than three dots in the string no split exists.
proof fn lemma_no_split_when_few_dots(s: Seq<char>, d1: Option<usize>, d2: Option<usize>)
    requires
        d2 is Some ==> d1 is Some,
        d1 matches Some(p) ==> p < s.len() && (forall|j: int| 0 <= j < p ==> s[j] != '.'),
        d1 is None ==> forall|j: int| 0 <= j < s.len() ==> s[j] != '.',
        d1 matches Some(p) ==> (d2 matches Some(q) ==> p < q && (forall|j: int|
            p < j < q ==> s[j] != '.')),
        d1 matches Some(p) ==> (d2 is None ==> forall|j: int| p < j < s.len() ==> s[j] != '.'),
        d2 matches Some(q) ==> q < s.len() && (forall|j: int| q < j < s.len() ==> s[j] != '.'),
    ensures
        !(exists|p1: int, p2: int, p3: int| ipv4_split(s, p1, p2, p3)),
{
    assert forall|p1: int, p2: int, p3: int| !ipv4_split(s, p1, p2, p3) by {
        if ipv4_split(s, p1, p2, p3) {
            lemma_split_dots(s, p1, p2, p3);
        }
    }
}

/// With the three dots known, any split of the string is exactly those
/// three positions.
proof fn lemma_dots_give_unique_candidate(s: Seq<char>, p1: int, p2: int, p3: int)
    requires
        0 <= p1 < p2 < p3 < s.len(),
        s[p1] == '.' && s[p2] == '.' && s[p3] == '.',
        forall|j: int| 0 <= j < p1 ==> s[j] != '.',
        forall|j: int| p1 < j < p2 ==> s[j] != '.',
        forall|j: int| p2 < j < p3 ==> s[j] != '.',
        forall|j: int| p3 < j < s.len() ==> s[j] != '.',
    ensures
        forall|q1: int, q2: int, q3: int|
            ipv4_split(s, q1, q2, q3) ==> (q1 == p1 && q2 == p2 && q3 == p3),
        (exists|q1: int, q2: int, q3: int| ipv4_split(s, q1, q2, q3)) <==> ipv4_split(
            s,
            p1,
            p2,
            p3,
        ),
{
    assert forall|q1: int, q2: int, q3: int| ipv4_split(s, q1, q2, q3) implies (q1 == p1 && q2
        == p2 && q3 == p3) by {
        lemma_split_dots(s, q1, q2, q3);
    }
}

/// Parse the characters `from .. to` of `s` as a canonical decimal octet.
fn parse_octet(s: &str, from: usize, to: usize) -> (r: Option<u8>)
    requires
        from <= to <= s@.len(),
    ensures
        match r {
            Some(v) => is_octet_text(s@.subrange(from as int, to as int)) && v as int == dec_value(
                s@.subrange(from as int, to as int),
            ),
            None => !is_octet_text(s@.subrange(from as int, to as int)),
        },
{
    let ghost sub = s@.subrange(from as int, to as int);
    let len = to - from;
    if len == 0 || len > 3 {
        return None;
    }
    let mut v: u32 = 0;
    let mut j = from;
    while j < to
        invariant
            from <= j <= to <= s@.len(),
            to - from <= 3,
            sub == s@.subrange(from as int, to as int),
            all_digits(s@.subrange(from as int, j as int)),
            v as int == dec_value(s@.subrange(from as int, j as int)),
            j - from == 0 ==> v == 0,
            j - from == 1 ==> v <= 9,
            j - from == 2 ==> v <= 99,
            j - from == 3 ==> v <= 999,
        decreases to - j,
    {
        let c = s.get_char(j);
        let code = c as u32;
        proof {
            assert(s@.subrange(from as int, j as int + 1).drop_last() =~= s@.subrange(
                from as int,
                j as int,
            ));
            assert(s@.subrange(from as int, j as int + 1).last() == s@[j as int]);
        }
        if code < 48 || code > 57 {
            proof {
                assert(sub[j - from] == s@[j as int]);
                assert(!is_digit(s@[j as int]));
            }
            return None;
        }
        v = v * 10 + (code - 48);
        j = j + 1;
        proof {
            assert(all_digits(s@.subrange(from as int, j as int))) by {
                assert forall|k: int| 0 <= k < j - from implies is_digit(
                    #[trigger] s@.subrange(from as int, j as int)[k],
                ) by {
                    if k < j - from - 1 {
                        assert(s@.subrange(from as int, j as int)[k] == s@.subrange(
                            from as int,
                            j as int - 1,
                        )[k]);
                    }
                }
            }
        }
    }
    proof {
        assert(s@.subrange(from as int, j as int) =~= sub);
    }
    if len > 1 && s.get_char(from) == '0' {
        proof {
            assert(sub[0] == s@[from as int]);
        }
        return None;
    }
    if v > 255 {
        return None;
    }
    Some(v as u8)
}

} // verus!
