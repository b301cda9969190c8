//! Content hashing for cache keys.
//!
//! The digest comes from an outside implementation; its hex rendering is
//! computed and verified here.

use vstd::prelude::*;

use sha2::Digest;

verus! {

/// What the SHA-256 digest of `data` is; fixed by the bytes alone.
pub uninterp spec fn sha256_of(data: Seq<u8>) -> Seq<u8>;

/// Relies on sha2's SHA-256: the digest depends on the input bytes
/// alone, and is 32 bytes long.
#[verifier::external_body]
pub(crate) fn sha256_digest(data: &[u8]) -> (r: Vec<u8>)
    ensures
        r@ == sha256_of(data@),
        r@.len() == 32,
{
    sha2::Sha256::digest(data).to_vec()
}

/// The character for one hexadecimal digit, lower case.
pub open spec fn hex_char(d: nat) -> char {
    seq!['0', '1', '2', '3', '4', '5', '6', '7', '8', '9', 'a', 'b', 'c', 'd', 'e', 'f'][d as int]
}

/// `data` rendered as lower-case hexadecimal, two digits per byte.
pub open spec fn spec_to_hex(data: Seq<u8>) -> Seq<char>
    decreases data.len(),
{
    if data.len() == 0 {
        Seq::empty()
    } else {
        seq![
            hex_char((data[0] / 16) as nat),
            hex_char((data[0] % 16) as nat),
        ] + spec_to_hex(data.drop_first())
    }
}

pub proof fn lemma_to_hex_len(data: Seq<u8>)
    ensures
        spec_to_hex(data).len() == 2 * data.len(),
    decreases data.len(),
{
    if data.len() > 0 {
        lemma_to_hex_len(data.drop_first());
    }
}

proof fn lemma_to_hex_snoc(data: Seq<u8>, b: u8)
    ensures
        spec_to_hex(data.push(b)) == spec_to_hex(data) + seq![
            hex_char((b / 16) as nat),
            hex_char((b % 16) as nat),
        ],
    decreases data.len(),
{
    if data.len() == 0 {
        assert(data.push(b).drop_first() =~= Seq::<u8>::empty());
        assert(spec_to_hex(Seq::<u8>::empty()) =~= Seq::<char>::empty());
        assert(spec_to_hex(data.push(b)) =~= seq![
            hex_char((b / 16) as nat),
            hex_char((b % 16) as nat),
        ]);
    } else {
        assert(data.push(b).drop_first() =~= data.drop_first().push(b));
        lemma_to_hex_snoc(data.drop_first(), b);
        assert(spec_to_hex(data.push(b)) =~= spec_to_hex(data) + seq![
            hex_char((b / 16) as nat),
            hex_char((b % 16) as nat),
        ]);
    }
}

/// Render bytes as lower-case hexadecimal.
pub fn to_hex(data: &[u8]) -> (r: String)
    ensures
        r@ == spec_to_hex(data@),
        r@.len() == 2 * data@.len(),
{
    let table = "0123456789abcdef";
    proof {
        reveal_strlit("0123456789abcdef");
        lemma_to_hex_len(data@);
    }
    assert(table.is_ascii());
    let n = data.len();
    let mut r = String::new();
    let mut i: usize = 0;
    proof {
        assert(r@ =~= spec_to_hex(data@.take(0)));
    }
    while i < n
        invariant
            n == data@.len(),
            i <= n,
            table@ == "0123456789abcdef"@,
            table.is_ascii(),
            table@.len() == 16,
            r@ == spec_to_hex(data@.take(i as int)),
        decreases n - i,
    {
        let b = data[i];
        let hi = (b / 16) as usize;
        let lo = (b % 16) as usize;
        let hs = table.substring_ascii(hi, hi + 1);
        let ls = table.substring_ascii(lo, lo + 1);
        r.append(hs);
        r.append(ls);
        proof {
            reveal_strlit("0123456789abcdef");
            assert(data@.take(i + 1).drop_last() =~= data@.take(i as int));
            assert(data@.take(i as int).push(data@[i as int]) =~= data@.take(i + 1));
            lemma_to_hex_snoc(data@.take(i as int), data@[i as int]);
            assert(hs@ + ls@ =~= seq![
                hex_char((b / 16) as nat),
                hex_char((b % 16) as nat),
            ]);
        }
        i = i + 1;
    }
    proof {
        assert(data@.take(n as int) =~= data@);
    }
    r
}

} // verus!
