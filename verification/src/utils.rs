//! Byte-budget string truncation that respects UTF-8 boundaries.

use vstd::prelude::*;
use vstd::string::StringSliceAdditionalSpecFns;

verus! {

/// Truncate a string to at most `max_bytes` bytes without splitting a
/// multi-byte character: the result is the longest character-boundary
/// prefix within the budget. Returns the original string if it already
/// fits.
pub fn safe_truncate(s: &str, max_bytes: usize) -> (r: &str)
    requires
        s.spec_bytes().len() <= usize::MAX,
    ensures
        s.spec_bytes().len() <= max_bytes ==> r@ == s@,
        r.spec_bytes().len() <= max_bytes,
        r.spec_bytes() == s.spec_bytes().take(r.spec_bytes().len() as int),
        forall|j: int|
            r.spec_bytes().len() < j <= max_bytes && j <= s.spec_bytes().len()
                ==> !vstd::utf8::is_char_boundary(s.spec_bytes(), j),
{
    broadcast use vstd::utf8::encode_utf8_valid_utf8;

    if s.len() <= max_bytes {
        return s;
    }
    let mut end: usize = max_bytes;
    while end > 0 && !s.is_char_boundary(end)
        invariant
            end <= max_bytes,
            max_bytes < s.spec_bytes().len(),
            forall|j: int|
                end < j <= max_bytes ==> !vstd::utf8::is_char_boundary(s.spec_bytes(), j),
        decreases end,
    {
        end = end - 1;
    }
    assert(vstd::utf8::is_char_boundary(s.spec_bytes(), end as int));
    let (head, _) = s.split_at(end);
    proof {
        assert(head.spec_bytes() =~= s.spec_bytes().take(end as int));
    }
    head
}

} // verus!
