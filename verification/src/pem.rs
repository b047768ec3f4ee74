//! PEM byte-level helpers: recognizing the encryption header
//! (`Proc-Type: 4,ENCRYPTED`) that marks a passphrase-protected PEM
//! block. A certificate carrying it cannot be loaded without consulting
//! the process's environment, so the library refuses such input before
//! any outside call.
use vstd::prelude::*;

verus! {

/// The bytes of `Proc-Type: 4,ENCRYPTED`, the header line of an
/// encrypted PEM block.
pub open spec fn pem_encryption_header() -> Seq<u8> {
    seq![
        80u8,
        114u8,
        111u8,
        99u8,
        45u8,
        84u8,
        121u8,
        112u8,
        101u8,
        58u8,
        32u8,
        52u8,
        44u8,
        69u8,
        78u8,
        67u8,
        82u8,
        89u8,
        80u8,
        84u8,
        69u8,
        68u8,
    ]
}

/// Whether the header line occurs anywhere in the bytes.
pub open spec fn has_pem_encryption_header(b: Seq<u8>) -> bool {
    exists|i: int|
        0 <= i && i + pem_encryption_header().len() <= b.len() && #[trigger] b.subrange(
            i,
            i + pem_encryption_header().len(),
        ) == pem_encryption_header()
}

/// The header pattern as a byte vector.
fn encryption_header_bytes() -> (r: Vec<u8>)
    ensures
        r@ == pem_encryption_header(),
{
    let mut v: Vec<u8> = Vec::new();
    v.push(80u8);
    v.push(114u8);
    v.push(111u8);
    v.push(99u8);
    v.push(45u8);
    v.push(84u8);
    v.push(121u8);
    v.push(112u8);
    v.push(101u8);
    v.push(58u8);
    v.push(32u8);
    v.push(52u8);
    v.push(44u8);
    v.push(69u8);
    v.push(78u8);
    v.push(67u8);
    v.push(82u8);
    v.push(89u8);
    v.push(80u8);
    v.push(84u8);
    v.push(69u8);
    v.push(68u8);
    proof {
        assert(v@ =~= pem_encryption_header());
    }
    v
}

/// Scan the bytes for the encryption header line.
pub fn contains_encryption_header(b: &[u8]) -> (r: bool)
    ensures
        r == has_pem_encryption_header(b@),
{
    let pat = encryption_header_bytes();
    let m = pat.len();
    let n = b.len();
    if n < m {
        proof {
            assert(!has_pem_encryption_header(b@));
        }
        return false;
    }
    let mut i: usize = 0;
    while i <= n - m
        invariant
            m == pem_encryption_header().len(),
            pat@ == pem_encryption_header(),
            n == b@.len(),
            m <= n,
            i <= n - m + 1,
            forall|k: int|
                0 <= k < i ==> #[trigger] b@.subrange(k, k + m as int) != pem_encryption_header(),
        decreases n - i,
    {
        let mut j: usize = 0;
        while j < m && b[i + j] == pat[j]
            invariant
                m == pem_encryption_header().len(),
                pat@ == pem_encryption_header(),
                n == b@.len(),
                i + m <= n,
                j <= m,
                forall|t: int| 0 <= t < j ==> b@[i + t] == pem_encryption_header()[t],
            decreases m - j,
        {
            j = j + 1;
        }
        if j == m {
            proof {
                assert(b@.subrange(i as int, i as int + m as int) =~= pem_encryption_header());
            }
            return true;
        }
        proof {
            assert(b@.subrange(i as int, i as int + m as int)[j as int] == b@[i + j]);
            assert(b@.subrange(i as int, i as int + m as int) != pem_encryption_header());
        }
        i = i + 1;
    }
    proof {
        assert forall|k: int|
            0 <= k && k + pem_encryption_header().len() <= b@.len() implies #[trigger] b@.subrange(
            k,
            k + pem_encryption_header().len(),
        ) != pem_encryption_header() by {
            assert(k < i);
        }
    }
    false
}

} // verus!
