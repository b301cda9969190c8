//! Character-level text helpers shared across the pipeline.
//!
//! The sentence splitter, the gateway's endpoint handling and the
//! transcript formatting all work on `Seq<char>` views; the helpers here
//! give them a common notion of whitespace, trimming and decimal
//! rendering.

use vstd::prelude::*;
use vstd::seq_lib::*;

verus! {

/// The Unicode whitespace characters, as `str::trim` sees them.
pub open spec fn is_ws_char(c: char) -> bool {
    c == ' ' || c == '\t' || c == '\n' || c == '\r' || c == '\u{0b}' || c == '\u{0c}' || c
        == '\u{85}' || c == '\u{a0}' || c == '\u{1680}' || ('\u{2000}' <= c && c <= '\u{200a}')
        || c == '\u{2028}' || c == '\u{2029}' || c == '\u{202f}' || c == '\u{205f}' || c
        == '\u{3000}'
}

/// Runtime test for [`is_ws_char`].
pub fn is_ws(c: char) -> (r: bool)
    ensures
        r == is_ws_char(c),
{
    c == ' ' || c == '\t' || c == '\n' || c == '\r' || c == '\u{0b}' || c == '\u{0c}' || c
        == '\u{85}' || c == '\u{a0}' || c == '\u{1680}' || ('\u{2000}' <= c && c <= '\u{200a}')
        || c == '\u{2028}' || c == '\u{2029}' || c == '\u{202f}' || c == '\u{205f}' || c
        == '\u{3000}'
}

/// `s` with every whitespace character removed; what the sentence
/// splitter preserves of its input.
pub open spec fn non_ws(s: Seq<char>) -> Seq<char> {
    s.filter(|c: char| !is_ws_char(c))
}

pub open spec fn spec_trim_start(s: Seq<char>) -> Seq<char>
    decreases s.len(),
{
    if s.len() > 0 && is_ws_char(s[0]) {
        spec_trim_start(s.drop_first())
    } else {
        s
    }
}

pub open spec fn spec_trim_end(s: Seq<char>) -> Seq<char>
    decreases s.len(),
{
    if s.len() > 0 && is_ws_char(s.last()) {
        spec_trim_end(s.drop_last())
    } else {
        s
    }
}

/// `s` without leading and trailing whitespace.
pub open spec fn spec_trim(s: Seq<char>) -> Seq<char> {
    spec_trim_end(spec_trim_start(s))
}

proof fn lemma_trim_start_skip(s: Seq<char>, i: int)
    requires
        0 <= i <= s.len(),
        forall|j: int| 0 <= j < i ==> is_ws_char(#[trigger] s[j]),
        i < s.len() ==> !is_ws_char(s[i]),
    ensures
        spec_trim_start(s) =~= s.skip(i),
    decreases i,
{
    if i > 0 {
        assert(is_ws_char(s[0]));
        lemma_trim_start_skip(s.drop_first(), i - 1);
        assert(s.drop_first().skip(i - 1) =~= s.skip(i));
    } else {
        if s.len() > 0 && is_ws_char(s[0]) {
            assert(i < s.len());
        }
        assert(s.skip(0) =~= s);
    }
}

proof fn lemma_trim_end_take(s: Seq<char>, i: int)
    requires
        0 <= i <= s.len(),
        forall|j: int| i <= j < s.len() ==> is_ws_char(#[trigger] s[j]),
        i > 0 ==> !is_ws_char(s[i - 1]),
    ensures
        spec_trim_end(s) =~= s.take(i),
    decreases s.len() - i,
{
    if i < s.len() {
        assert(is_ws_char(s.last()));
        lemma_trim_end_take(s.drop_last(), i);
        assert(s.drop_last().take(i) =~= s.take(i));
    } else {
        if s.len() > 0 && is_ws_char(s.last()) {
            assert(!is_ws_char(s[i - 1]));
        }
        assert(s.take(s.len() as int) =~= s);
    }
}

pub proof fn lemma_trim_end_is_prefix(s: Seq<char>)
    ensures
        spec_trim_end(s).len() <= s.len(),
        spec_trim_end(s) == s.take(spec_trim_end(s).len() as int),
    decreases s.len(),
{
    if s.len() > 0 && is_ws_char(s.last()) {
        lemma_trim_end_is_prefix(s.drop_last());
        let l = spec_trim_end(s).len() as int;
        assert(s.drop_last().take(l) =~= s.take(l));
    } else {
        assert(s.take(s.len() as int) =~= s);
    }
}

pub proof fn lemma_trim_start_is_suffix(s: Seq<char>)
    ensures
        spec_trim_start(s).len() <= s.len(),
        spec_trim_start(s) == s.skip(s.len() - spec_trim_start(s).len()),
    decreases s.len(),
{
    if s.len() > 0 && is_ws_char(s[0]) {
        lemma_trim_start_is_suffix(s.drop_first());
        let t = spec_trim_start(s);
        assert(s.drop_first().skip(s.drop_first().len() - t.len()) =~= s.skip(s.len() - t.len()));
    } else {
        assert(s.skip(0) =~= s);
    }
}

pub proof fn lemma_trim_start_first(s: Seq<char>)
    ensures
        spec_trim_start(s).len() <= s.len(),
        spec_trim_start(s).len() > 0 ==> !is_ws_char(spec_trim_start(s)[0]),
    decreases s.len(),
{
    if s.len() > 0 && is_ws_char(s[0]) {
        lemma_trim_start_first(s.drop_first());
    }
}

pub proof fn lemma_trim_end_last(s: Seq<char>)
    ensures
        spec_trim_end(s).len() > 0 ==> !is_ws_char(spec_trim_end(s).last()),
    decreases s.len(),
{
    if s.len() > 0 && is_ws_char(s.last()) {
        lemma_trim_end_last(s.drop_last());
    }
}

/// Trimming shortens, leaves non-whitespace at both ends, and is
/// idempotent.
pub proof fn lemma_trim_props(s: Seq<char>)
    ensures
        spec_trim(s).len() <= s.len(),
        spec_trim(s).len() > 0 ==> !is_ws_char(spec_trim(s)[0]) && !is_ws_char(
            spec_trim(s).last(),
        ),
        spec_trim(spec_trim(s)) == spec_trim(s),
{
    let t0 = spec_trim_start(s);
    let t = spec_trim(s);
    lemma_trim_start_first(s);
    lemma_trim_end_is_prefix(t0);
    lemma_trim_end_last(t0);
    if t.len() > 0 {
        assert(t[0] == t0[0]);
    }
    assert(spec_trim_start(t) == t);
    assert(spec_trim_end(t) == t);
}

/// `s` without leading and trailing whitespace, as a fresh string.
pub fn str_trim(s: &str) -> (r: String)
    ensures
        r@ == spec_trim(s@),
{
    let n = s.unicode_len();
    let mut start: usize = 0;
    while start < n && is_ws(s.get_char(start))
        invariant
            n == s@.len(),
            start <= n,
            forall|j: int| 0 <= j < start ==> is_ws_char(#[trigger] s@[j]),
        decreases n - start,
    {
        start = start + 1;
    }
    proof {
        lemma_trim_start_skip(s@, start as int);
    }
    if start == n {
        proof {
            assert(spec_trim(s@) =~= Seq::<char>::empty());
        }
        return String::new();
    }
    let mut end: usize = n;
    while end > start && is_ws(s.get_char(end - 1))
        invariant
            n == s@.len(),
            start <= end <= n,
            start < n,
            !is_ws_char(s@[start as int]),
            forall|j: int| end <= j < n ==> is_ws_char(#[trigger] s@[j]),
        decreases end,
    {
        end = end - 1;
    }
    proof {
        let t = s@.skip(start as int);
        lemma_trim_end_take(t, end - start);
        assert(t.take(end - start) =~= s@.subrange(start as int, end as int));
    }
    let r = s.substring_char(start, end);
    r.to_owned()
}

/// Filtering one character keeps it exactly when the predicate holds.
pub proof fn lemma_non_ws_single(c: char)
    ensures
        non_ws(seq![c]) == if is_ws_char(c) {
            Seq::<char>::empty()
        } else {
            seq![c]
        },
{
    reveal_with_fuel(Seq::filter, 2);
    assert(seq![c].drop_last() =~= Seq::<char>::empty());
}

pub proof fn lemma_non_ws_add(a: Seq<char>, b: Seq<char>)
    ensures
        non_ws(a + b) == non_ws(a) + non_ws(b),
{
    Seq::filter_distributes_over_add(a, b, |c: char| !is_ws_char(c));
}

pub proof fn lemma_non_ws_trim_start(s: Seq<char>)
    ensures
        non_ws(spec_trim_start(s)) == non_ws(s),
    decreases s.len(),
{
    if s.len() > 0 && is_ws_char(s[0]) {
        lemma_non_ws_trim_start(s.drop_first());
        assert(s =~= seq![s[0]] + s.drop_first());
        lemma_non_ws_add(seq![s[0]], s.drop_first());
        lemma_non_ws_single(s[0]);
        assert(non_ws(s) =~= non_ws(s.drop_first()));
    }
}

pub proof fn lemma_non_ws_trim_end(s: Seq<char>)
    ensures
        non_ws(spec_trim_end(s)) == non_ws(s),
    decreases s.len(),
{
    if s.len() > 0 && is_ws_char(s.last()) {
        lemma_non_ws_trim_end(s.drop_last());
        assert(s =~= s.drop_last() + seq![s.last()]);
        lemma_non_ws_add(s.drop_last(), seq![s.last()]);
        lemma_non_ws_single(s.last());
        assert(non_ws(s) =~= non_ws(s.drop_last()));
    }
}

/// Trimming loses only whitespace.
pub proof fn lemma_non_ws_trim(s: Seq<char>)
    ensures
        non_ws(spec_trim(s)) == non_ws(s),
{
    lemma_non_ws_trim_start(s);
    lemma_non_ws_trim_end(spec_trim_start(s));
}

/// A trimmed-empty sequence holds no non-whitespace at all.
pub proof fn lemma_trim_empty_non_ws(s: Seq<char>)
    requires
        spec_trim(s).len() == 0,
    ensures
        non_ws(s) == Seq::<char>::empty(),
{
    lemma_non_ws_trim(s);
    reveal_with_fuel(Seq::filter, 1);
    assert(non_ws(spec_trim(s)) =~= Seq::<char>::empty());
}

/// A sequence that starts with non-whitespace filters to something.
pub proof fn lemma_non_ws_nonempty(t: Seq<char>)
    requires
        t.len() > 0,
        !is_ws_char(t[0]),
    ensures
        non_ws(t).len() > 0,
{
    assert(t =~= seq![t[0]] + t.drop_first());
    lemma_non_ws_add(seq![t[0]], t.drop_first());
    lemma_non_ws_single(t[0]);
}

/// UTF-8 encoding goes piecewise over concatenation.
pub proof fn lemma_encode_utf8_add(a: Seq<char>, b: Seq<char>)
    ensures
        vstd::utf8::encode_utf8(a + b) == vstd::utf8::encode_utf8(a) + vstd::utf8::encode_utf8(b),
    decreases a.len(),
{
    if a.len() == 0 {
        assert(a + b =~= b);
        assert(vstd::utf8::encode_utf8(a) =~= Seq::<u8>::empty());
        assert(vstd::utf8::encode_utf8(a) + vstd::utf8::encode_utf8(b) =~= vstd::utf8::encode_utf8(
            b,
        ));
    } else {
        assert((a + b).drop_first() =~= a.drop_first() + b);
        lemma_encode_utf8_add(a.drop_first(), b);
        assert(vstd::utf8::encode_utf8(a + b) =~= vstd::utf8::encode_utf8(a)
            + vstd::utf8::encode_utf8(b));
    }
}

/// The decimal digits of `n`, most significant first.
pub open spec fn spec_dec(n: nat) -> Seq<char>
    decreases n,
{
    let last = seq![dec_char(n % 10)];
    if n < 10 {
        last
    } else {
        spec_dec(n / 10) + last
    }
}

/// The character for one decimal digit.
pub open spec fn dec_char(d: nat) -> char {
    seq!['0', '1', '2', '3', '4', '5', '6', '7', '8', '9'][d as int]
}

/// `n` written in decimal.
pub fn u64_to_dec(n: u64) -> (r: String)
    ensures
        r@ == spec_dec(n as nat),
    decreases n,
{
    let table = "0123456789";
    proof {
        reveal_strlit("0123456789");
    }
    assert(table.is_ascii());
    let d = (n % 10) as usize;
    let ds = table.substring_ascii(d, d + 1);
    proof {
        assert(ds@ =~= seq![dec_char((n % 10) as nat)]);
    }
    if n < 10 {
        ds.to_owned()
    } else {
        let mut r = u64_to_dec(n / 10);
        r.append(ds);
        r
    }
}

/// `n` written in decimal, with a leading minus sign when negative.
pub open spec fn spec_dec_i64(n: int) -> Seq<char> {
    if n < 0 {
        seq!['-'] + spec_dec((-n) as nat)
    } else {
        spec_dec(n as nat)
    }
}

/// A signed value written in decimal.
pub fn i64_to_dec(n: i64) -> (r: String)
    ensures
        r@ == spec_dec_i64(n as int),
{
    if n >= 0 {
        u64_to_dec(n as u64)
    } else {
        let mag: u64 = if n == i64::MIN {
            9223372036854775808u64
        } else {
            (-n) as u64
        };
        let mut r = "-".to_owned();
        proof {
            reveal_strlit("-");
        }
        let d = u64_to_dec(mag);
        r.append(d.as_str());
        proof {
            assert(r@ =~= seq!['-'] + spec_dec(mag as nat));
        }
        r
    }
}

} // verus!
