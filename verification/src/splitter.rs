//! Incremental sentence segmentation of streaming agent output.
//!
//! Tokens accumulate in a buffer; whenever a sentence-ending punctuation
//! mark or a paragraph break appears, the finished sentence is cut off,
//! trimmed and emitted with the next sequence index. Sentences shorter
//! than the configured minimum merge with what follows. Nothing but
//! whitespace is ever lost: the emitted segments plus the remaining
//! buffer always carry exactly the non-whitespace of the input.

use vstd::prelude::*;
use vstd::seq_lib::*;

use crate::text::{is_ws_char, lemma_non_ws_add, lemma_non_ws_nonempty, lemma_non_ws_single, lemma_non_ws_trim, lemma_trim_empty_non_ws, non_ws, spec_trim, str_trim};

verus! {

/// Default minimum character length before a split is emitted.
pub const DEFAULT_MIN_LENGTH: usize = 2;

/// Punctuation that ends a sentence.
pub open spec fn is_delimiter_char(c: char) -> bool {
    c == '\u{3002}' || c == '\u{ff01}' || c == '\u{ff1f}' || c == '!' || c == '?'
}

/// Runtime test for [`is_delimiter_char`].
pub fn is_delimiter(c: char) -> (r: bool)
    ensures
        r == is_delimiter_char(c),
{
    c == '\u{3002}' || c == '\u{ff01}' || c == '\u{ff1f}' || c == '!' || c == '?'
}

/// A finished sentence with its sequence index.
#[derive(Debug, Clone, PartialEq, Eq)]
pub struct SentenceSegment {
    /// Zero-based sequence number.
    pub index: usize,
    /// The sentence text.
    pub text: String,
}

/// The texts of emitted segments, in emission order, as one sequence.
pub open spec fn concat_texts(ss: Seq<Seq<char>>) -> Seq<char>
    decreases ss.len(),
{
    if ss.len() == 0 {
        Seq::empty()
    } else {
        concat_texts(ss.drop_last()) + ss.last()
    }
}

/// Index of the first sentence delimiter in `s`.
pub open spec fn spec_find_delim(s: Seq<char>) -> Option<int>
    decreases s.len(),
{
    if s.len() == 0 {
        None
    } else if is_delimiter_char(s[0]) {
        Some(0int)
    } else {
        match spec_find_delim(s.drop_first()) {
            Some(i) => Some(i + 1),
            None => None,
        }
    }
}

/// Index of the first paragraph break (two newlines) in `s`.
pub open spec fn spec_find_para(s: Seq<char>) -> Option<int>
    decreases s.len(),
{
    if s.len() < 2 {
        None
    } else if s[0] == '\n' && s[1] == '\n' {
        Some(0int)
    } else {
        match spec_find_para(s.drop_first()) {
            Some(i) => Some(i + 1),
            None => None,
        }
    }
}

pub proof fn lemma_find_delim_bounds(s: Seq<char>)
    ensures
        match spec_find_delim(s) {
            Some(p) => 0 <= p < s.len() && is_delimiter_char(s[p]) && forall|j: int|
                0 <= j < p ==> !is_delimiter_char(#[trigger] s[j]),
            None => forall|j: int| 0 <= j < s.len() ==> !is_delimiter_char(#[trigger] s[j]),
        },
    decreases s.len(),
{
    if s.len() > 0 && !is_delimiter_char(s[0]) {
        lemma_find_delim_bounds(s.drop_first());
        assert(forall|j: int| 0 < j < s.len() ==> #[trigger] s[j] == s.drop_first()[j - 1]);
    }
}

/// The first delimiter the scan finds is the spec's first delimiter.
pub proof fn lemma_find_delim_agrees(s: Seq<char>, pos: int)
    requires
        0 <= pos < s.len(),
        is_delimiter_char(s[pos]),
        forall|j: int| 0 <= j < pos ==> !is_delimiter_char(#[trigger] s[j]),
    ensures
        spec_find_delim(s) == Some(pos),
{
    lemma_find_delim_bounds(s);
    match spec_find_delim(s) {
        Some(p) => {
            if p < pos {
                assert(!is_delimiter_char(s[p]));
            } else if pos < p {
                assert(!is_delimiter_char(s[pos]));
            }
        },
        None => {
            assert(!is_delimiter_char(s[pos]));
        },
    }
}

pub proof fn lemma_find_para_bounds(s: Seq<char>)
    ensures
        match spec_find_para(s) {
            Some(p) => 0 <= p && p + 1 < s.len() && s[p] == '\n' && s[p + 1] == '\n'
                && forall|j: int| 0 <= j < p ==> !(#[trigger] s[j] == '\n' && s[j + 1] == '\n'),
            None => forall|j: int|
                0 <= j < s.len() - 1 ==> !(#[trigger] s[j] == '\n' && s[j + 1] == '\n'),
        },
    decreases s.len(),
{
    if s.len() >= 2 && !(s[0] == '\n' && s[1] == '\n') {
        lemma_find_para_bounds(s.drop_first());
        assert(forall|j: int| 0 < j < s.len() ==> #[trigger] s[j] == s.drop_first()[j - 1]);
    }
}

/// The first paragraph break the scan finds is the spec's first.
pub proof fn lemma_find_para_agrees(s: Seq<char>, pos: int)
    requires
        0 <= pos,
        pos + 1 < s.len(),
        s[pos] == '\n' && s[pos + 1] == '\n',
        forall|j: int| 0 <= j < pos ==> !(#[trigger] s[j] == '\n' && s[j + 1] == '\n'),
    ensures
        spec_find_para(s) == Some(pos),
{
    lemma_find_para_bounds(s);
    match spec_find_para(s) {
        Some(p) => {
            if p < pos {
                assert(!(s[p] == '\n' && s[p + 1] == '\n'));
            } else if pos < p {
                assert(!(s[pos] == '\n' && s[pos + 1] == '\n'));
            }
        },
        None => {
            if pos < s.len() - 1 {
                assert(!(s[pos] == '\n' && s[pos + 1] == '\n'));
            }
        },
    }
}

/// The sentence pass: each leading delimiter whose trimmed sentence
/// reaches `min_length` is cut and kept; a shorter one goes back in
/// front of the rest and the pass stops; an all-whitespace cut is
/// dropped. Yields the cut sentences and what remains buffered.
pub open spec fn spec_punct_pass(s: Seq<char>, min_length: usize) -> (Seq<Seq<char>>, Seq<char>)
    decreases s.len(),
    via punct_pass_decreases
{
    match spec_find_delim(s) {
        None => (Seq::empty(), s),
        Some(p) => {
            let t = spec_trim(s.take(p + 1));
            let rest = s.skip(p + 1);
            if t.len() >= min_length {
                let r = spec_punct_pass(rest, min_length);
                (seq![t] + r.0, r.1)
            } else if t.len() > 0 {
                (Seq::empty(), t + rest)
            } else {
                spec_punct_pass(rest, min_length)
            }
        },
    }
}

#[via_fn]
proof fn punct_pass_decreases(s: Seq<char>, min_length: usize) {
    lemma_find_delim_bounds(s);
}

/// The paragraph pass: each leading double newline cuts a piece; one
/// that reaches `min_length` is kept, a shorter one is spliced back
/// with a separating space, an all-whitespace one is dropped.
pub open spec fn spec_para_pass(s: Seq<char>, min_length: usize) -> (Seq<Seq<char>>, Seq<char>)
    decreases s.len(),
    via para_pass_decreases
{
    match spec_find_para(s) {
        None => (Seq::empty(), s),
        Some(p) => {
            let t = spec_trim(s.take(p));
            let rest = s.skip(p + 2);
            if t.len() >= min_length {
                let r = spec_para_pass(rest, min_length);
                (seq![t] + r.0, r.1)
            } else if t.len() > 0 {
                spec_para_pass(t + seq![' '] + rest, min_length)
            } else {
                spec_para_pass(rest, min_length)
            }
        },
    }
}

#[via_fn]
proof fn para_pass_decreases(s: Seq<char>, min_length: usize) {
    lemma_find_para_bounds(s);
    match spec_find_para(s) {
        Some(p) => {
            crate::text::lemma_trim_props(s.take(p));
        },
        None => {},
    }
}

/// A too-short sentence put back in front of the rest stays put: the
/// pass leaves the merged buffer unchanged.
proof fn lemma_short_sentence_stays(s: Seq<char>, pos: int, min_length: usize)
    requires
        0 <= pos < s.len(),
        is_delimiter_char(s[pos]),
        forall|j: int| 0 <= j < pos ==> !is_delimiter_char(#[trigger] s[j]),
        0 < spec_trim(s.take(pos + 1)).len() < min_length,
    ensures
        spec_punct_pass(spec_trim(s.take(pos + 1)) + s.skip(pos + 1), min_length) == (
            Seq::<Seq<char>>::empty(),
            spec_trim(s.take(pos + 1)) + s.skip(pos + 1),
        ),
{
    let cut = s.take(pos + 1);
    let rest = s.skip(pos + 1);
    let t = spec_trim(cut);
    // The cut ends at its delimiter, which is not whitespace, so the
    // trim strips leading whitespace only.
    assert(cut.last() == s[pos]);
    assert(!is_ws_char(cut.last()));
    crate::text::lemma_trim_start_is_suffix(cut);
    let t0 = crate::text::spec_trim_start(cut);
    crate::text::lemma_trim_end_is_prefix(t0);
    assert(t0.len() > 0);
    assert(t0.last() == cut.last());
    assert(crate::text::spec_trim_end(t0) == t0);
    assert(t == t0);
    // The merged buffer's first delimiter sits at the end of `t`.
    let merged = t + rest;
    let k = cut.len() - t.len();
    assert forall|j: int| 0 <= j < t.len() - 1 implies !is_delimiter_char(
        #[trigger] merged[j],
    ) by {
        assert(merged[j] == t[j]);
        assert(t[j] == cut[k + j]);
        assert(cut[k + j] == s[k + j]);
    }
    assert(merged[t.len() - 1] == t.last());
    assert(is_delimiter_char(merged[t.len() - 1]));
    lemma_find_delim_agrees(merged, t.len() - 1);
    // Unfolding the pass at the merged buffer reproduces it unchanged.
    assert(merged.take(t.len() as int) =~= t);
    assert(merged.skip(t.len() as int) =~= rest);
    crate::text::lemma_trim_props(cut);
    assert(spec_trim(merged.take(t.len() as int)) == t);
    assert(spec_punct_pass(merged, min_length) == (Seq::<Seq<char>>::empty(), t + rest));
}

/// What one push cuts from the combined buffer and what remains: the
/// sentence pass, then the paragraph pass over its rest.
pub open spec fn spec_push(s: Seq<char>, min_length: usize) -> (Seq<Seq<char>>, Seq<char>) {
    let punct = spec_punct_pass(s, min_length);
    let para = spec_para_pass(punct.1, min_length);
    (punct.0 + para.0, para.1)
}

/// Splits streamed text into sentences at punctuation and paragraph
/// breaks, merging fragments shorter than `min_length`.
pub struct SentenceSplitter {
    min_length: usize,
    next_index: usize,
    buffer: String,
    /// All emitted texts, in order.
    emitted: Ghost<Seq<Seq<char>>>,
    /// Everything ever pushed, in order.
    pushed: Ghost<Seq<char>>,
}

impl SentenceSplitter {
    /// The configured minimum sentence length, in characters.
    pub closed spec fn min_length_spec(self) -> usize {
        self.min_length
    }

    /// The texts emitted so far, in order.
    pub closed spec fn emitted_texts(self) -> Seq<Seq<char>> {
        self.emitted@
    }

    /// Everything pushed so far.
    pub closed spec fn pushed_input(self) -> Seq<char> {
        self.pushed@
    }

    /// What is buffered and not yet emitted.
    pub closed spec fn buffer_view(self) -> Seq<char> {
        self.buffer@
    }

    /// The index the next emitted segment will carry.
    pub closed spec fn next_index_spec(self) -> usize {
        self.next_index
    }

    /// Indices count the emitted segments, and the segments plus the
    /// buffer carry exactly the non-whitespace of the input, in order.
    pub closed spec fn wf(self) -> bool {
        &&& self.next_index == self.emitted@.len()
        &&& non_ws(concat_texts(self.emitted@) + self.buffer@) == non_ws(self.pushed@)
        &&& self.emitted@.len() + self.buffer@.len() <= self.pushed@.len()
    }

    /// Room for `n` more input characters without index overflow.
    pub open spec fn can_accept(self, n: nat) -> bool {
        self.next_index_spec() + self.buffer_view().len() + n < usize::MAX
    }

    pub fn new(min_length: usize) -> (r: Self)
        ensures
            r.wf(),
            r.min_length_spec() == min_length,
            r.emitted_texts() == Seq::<Seq<char>>::empty(),
            r.pushed_input() == Seq::<char>::empty(),
            r.buffer_view() == Seq::<char>::empty(),
            r.next_index_spec() == 0,
            forall|n: nat| n < usize::MAX ==> #[trigger] r.can_accept(n),
    {
        let r = SentenceSplitter {
            min_length,
            next_index: 0,
            buffer: String::new(),
            emitted: Ghost(Seq::empty()),
            pushed: Ghost(Seq::empty()),
        };
        proof {
            assert(concat_texts(r.emitted@) + r.buffer@ =~= Seq::<char>::empty());
        }
        r
    }

    /// Everything the splitter emits, together with what it still
    /// buffers, is the input with nothing but whitespace removed.
    pub proof fn lemma_content_preserved(self)
        requires
            self.wf(),
        ensures
            non_ws(concat_texts(self.emitted_texts()) + self.buffer_view()) == non_ws(
                self.pushed_input(),
            ),
    {
    }

    /// Holds between the passes of one push: segments so far extend the
    /// base state, each trimmed, long enough, and indexed in order.
    spec fn pass_inv(self, base: Self, segs: Seq<SentenceSegment>, bound: nat) -> bool {
        &&& self.wf()
        &&& self.min_length == base.min_length
        &&& self.pushed@ == base.pushed@
        &&& self.next_index == base.next_index + segs.len()
        &&& self.next_index + self.buffer@.len() <= bound
        &&& self.emitted@ == base.emitted@ + segs.map_values(|s: SentenceSegment| s.text@)
        &&& forall|i: int|
            0 <= i < segs.len() ==> {
                &&& (#[trigger] segs[i]).index == base.next_index + i
                &&& segs[i].text@ == spec_trim(segs[i].text@)
                &&& segs[i].text@.len() >= self.min_length
            }
    }

    /// Feed one token in; every sentence it completes comes back, in
    /// order, carrying consecutive indices.
    pub fn push_token(&mut self, token: &str) -> (segs: Vec<SentenceSegment>)
        requires
            old(self).wf(),
            old(self).can_accept(token@.len()),
        ensures
            final(self).wf(),
            final(self).min_length_spec() == old(self).min_length_spec(),
            final(self).pushed_input() == old(self).pushed_input() + token@,
            final(self).next_index_spec() == old(self).next_index_spec() + segs@.len(),
            final(self).emitted_texts() == old(self).emitted_texts() + segs@.map_values(
                |s: SentenceSegment| s.text@,
            ),
            forall|i: int|
                0 <= i < segs@.len() ==> {
                    &&& (#[trigger] segs@[i]).index == old(self).next_index_spec() + i
                    &&& segs@[i].text@ == spec_trim(segs@[i].text@)
                    &&& segs@[i].text@.len() >= old(self).min_length_spec()
                },
            ({
                let r = spec_push(old(self).buffer_view() + token@, old(self).min_length_spec());
                &&& segs@.map_values(|s: SentenceSegment| s.text@) == r.0
                &&& final(self).buffer_view() == r.1
            }),
            final(self).next_index_spec() + final(self).buffer_view().len() <= old(
                self,
            ).next_index_spec() + old(self).buffer_view().len() + token@.len(),
    {
        let ghost bound: nat = (old(self).next_index + old(self).buffer@.len() + token@.len()) as nat;
        self.buffer.append(token);
        proof {
            self.pushed@ = self.pushed@ + token@;
            lemma_non_ws_add(concat_texts(self.emitted@) + old(self).buffer@, token@);
            lemma_non_ws_add(old(self).pushed@, token@);
            assert(concat_texts(self.emitted@) + self.buffer@ =~= (concat_texts(self.emitted@)
                + old(self).buffer@) + token@);
        }
        let ghost base = *self;
        let mut segs: Vec<SentenceSegment> = Vec::new();
        proof {
            assert(segs@.map_values(|s: SentenceSegment| s.text@) =~= Seq::<Seq<char>>::empty());
            assert(self.emitted@ =~= base.emitted@ + segs@.map_values(
                |s: SentenceSegment| s.text@,
            ));
        }

        // Cut finished sentences at punctuation; a too-short sentence
        // merges with what follows and ends the pass.
        let mut scanning = true;
        proof {
            assert(segs@.map_values(|s: SentenceSegment| s.text@) + spec_punct_pass(
                base.buffer@,
                base.min_length,
            ).0 =~= spec_punct_pass(base.buffer@, base.min_length).0);
        }
        while scanning
            invariant
                self.pass_inv(base, segs@, bound),
                bound < usize::MAX,
                spec_punct_pass(base.buffer@, base.min_length).0 == segs@.map_values(
                    |s: SentenceSegment| s.text@,
                ) + spec_punct_pass(self.buffer@, base.min_length).0,
                spec_punct_pass(base.buffer@, base.min_length).1 == spec_punct_pass(
                    self.buffer@,
                    base.min_length,
                ).1,
                !scanning ==> spec_punct_pass(self.buffer@, base.min_length) == (
                    Seq::<Seq<char>>::empty(),
                    self.buffer@,
                ),
            decreases self.buffer@.len() + if scanning { 1int } else { 0int },
        {
            match find_first_delimiter(self.buffer.as_str()) {
                None => {
                    proof {
                        lemma_find_delim_bounds(self.buffer@);
                        match spec_find_delim(self.buffer@) {
                            Some(p) => {
                                assert(!is_delimiter_char(self.buffer@[p]));
                            },
                            None => {},
                        }
                        assert(spec_punct_pass(self.buffer@, base.min_length) == (
                            Seq::<Seq<char>>::empty(),
                            self.buffer@,
                        ));
                    }
                    scanning = false;
                },
                Some(pos) => {
                    proof {
                        lemma_find_delim_agrees(self.buffer@, pos as int);
                    }
                    let ghost pre = *self;
                    let n = self.buffer.as_str().unicode_len();
                    let cut = self.buffer.as_str().substring_char(0, pos + 1).to_owned();
                    let rest = self.buffer.as_str().substring_char(pos + 1, n).to_owned();
                    let trimmed = str_trim(cut.as_str());
                    let ghost tview = trimmed@;
                    proof {
                        assert(pre.buffer@ =~= cut@ + rest@);
                        assert(cut@ =~= pre.buffer@.take(pos + 1));
                        assert(rest@ =~= pre.buffer@.skip(pos + 1));
                        crate::text::lemma_trim_props(cut@);
                        lemma_non_ws_trim(cut@);
                    }
                    let tlen = trimmed.as_str().unicode_len();
                    if tlen >= self.min_length {
                        self.buffer = rest;
                        let ghost segs0 = segs@;
                        proof {
                            lemma_emit_step(pre.emitted@, tview, cut@, self.buffer@, pre.pushed@);
                        }
                        self.emit(trimmed, &mut segs);
                        proof {
                            let f = |s: SentenceSegment| s.text@;
                            assert(segs@.map_values(f) =~= segs0.map_values(f).push(tview));
                            assert(self.emitted@ =~= base.emitted@ + segs@.map_values(f));
                            assert forall|k: int| 0 <= k < segs@.len() implies {
                                &&& (#[trigger] segs@[k]).index == base.next_index + k
                                &&& segs@[k].text@ == spec_trim(segs@[k].text@)
                                &&& segs@[k].text@.len() >= self.min_length
                            } by {
                                if k < segs0.len() {
                                    assert(segs@[k] == segs0[k]);
                                }
                            }
                            let m = base.min_length;
                            assert(spec_punct_pass(pre.buffer@, m).0 =~= seq![tview]
                                + spec_punct_pass(self.buffer@, m).0);
                            assert(spec_punct_pass(pre.buffer@, m).1 == spec_punct_pass(
                                self.buffer@,
                                m,
                            ).1);
                            assert(segs0.map_values(f) + spec_punct_pass(pre.buffer@, m).0
                                =~= segs@.map_values(f) + spec_punct_pass(self.buffer@, m).0);
                        }
                    } else if tlen > 0 {
                        let merged = trimmed.concat(rest.as_str());
                        self.buffer = merged;
                        proof {
                            lemma_rewrite_buffer(pre.emitted@, tview, cut@, rest@, pre.pushed@);
                            let m = base.min_length;
                            assert(self.buffer@ == tview + rest@);
                            assert(spec_punct_pass(pre.buffer@, m) == (
                                Seq::<Seq<char>>::empty(),
                                tview + rest@,
                            ));
                            lemma_short_sentence_stays(pre.buffer@, pos as int, m);
                        }
                        scanning = false;
                    } else {
                        self.buffer = rest;
                        proof {
                            lemma_trim_empty_non_ws(cut@);
                            lemma_drop_cut(pre.emitted@, cut@, rest@, pre.pushed@);
                            assert(spec_punct_pass(pre.buffer@, base.min_length)
                                == spec_punct_pass(self.buffer@, base.min_length));
                        }
                    }
                },
            }
        }

        let ghost mid_count = segs@.len() as int;
        let ghost mid_map = segs@.map_values(|s: SentenceSegment| s.text@);
        let ghost mid_buffer = self.buffer@;
        proof {
            assert(spec_punct_pass(base.buffer@, base.min_length).0 =~= mid_map);
            assert(spec_punct_pass(base.buffer@, base.min_length).1 == mid_buffer);
            assert(segs@.map_values(|s: SentenceSegment| s.text@).skip(mid_count)
                + spec_para_pass(mid_buffer, base.min_length).0 =~= spec_para_pass(
                mid_buffer,
                base.min_length,
            ).0);
            assert(segs@.map_values(|s: SentenceSegment| s.text@).take(mid_count) =~= mid_map);
        }

        // Cut at paragraph breaks; a too-short piece is put back with a
        // separating space and scanning goes on.
        let mut para = true;
        while para
            invariant
                self.pass_inv(base, segs@, bound),
                bound < usize::MAX,
                segs@.len() >= mid_count >= 0,
                segs@.map_values(|s: SentenceSegment| s.text@).take(mid_count) == mid_map,
                spec_para_pass(mid_buffer, base.min_length).0 == segs@.map_values(
                    |s: SentenceSegment| s.text@,
                ).skip(mid_count) + spec_para_pass(self.buffer@, base.min_length).0,
                spec_para_pass(mid_buffer, base.min_length).1 == spec_para_pass(
                    self.buffer@,
                    base.min_length,
                ).1,
                !para ==> spec_para_pass(self.buffer@, base.min_length) == (
                    Seq::<Seq<char>>::empty(),
                    self.buffer@,
                ),
            decreases self.buffer@.len() + if para { 1int } else { 0int },
        {
            match find_paragraph_break(self.buffer.as_str()) {
                None => {
                    proof {
                        lemma_find_para_bounds(self.buffer@);
                        match spec_find_para(self.buffer@) {
                            Some(p) => {
                                assert(!(self.buffer@[p] == '\n' && self.buffer@[p + 1] == '\n'));
                            },
                            None => {},
                        }
                        assert(spec_para_pass(self.buffer@, base.min_length) == (
                            Seq::<Seq<char>>::empty(),
                            self.buffer@,
                        ));
                    }
                    para = false;
                },
                Some(i) => {
                    proof {
                        lemma_find_para_agrees(self.buffer@, i as int);
                    }
                    let ghost pre = *self;
                    let n = self.buffer.as_str().unicode_len();
                    let head = self.buffer.as_str().substring_char(0, i).to_owned();
                    let rest = self.buffer.as_str().substring_char(i + 2, n).to_owned();
                    let sentence = str_trim(head.as_str());
                    let ghost sview = sentence@;
                    let ghost cutv = head@ + seq!['\n', '\n'];
                    proof {
                        assert(pre.buffer@ =~= cutv + rest@);
                        assert(head@ =~= pre.buffer@.take(i as int));
                        assert(rest@ =~= pre.buffer@.skip(i + 2));
                        crate::text::lemma_trim_props(head@);
                        lemma_non_ws_trim(head@);
                        lemma_para_cut_trim(head@);
                    }
                    let slen = sentence.as_str().unicode_len();
                    if slen >= self.min_length {
                        self.buffer = rest;
                        let ghost segs0 = segs@;
                        proof {
                            lemma_emit_step(pre.emitted@, sview, cutv, self.buffer@, pre.pushed@);
                        }
                        self.emit(sentence, &mut segs);
                        proof {
                            let f = |s: SentenceSegment| s.text@;
                            assert(segs@.map_values(f) =~= segs0.map_values(f).push(sview));
                            assert(self.emitted@ =~= base.emitted@ + segs@.map_values(f));
                            assert forall|k: int| 0 <= k < segs@.len() implies {
                                &&& (#[trigger] segs@[k]).index == base.next_index + k
                                &&& segs@[k].text@ == spec_trim(segs@[k].text@)
                                &&& segs@[k].text@.len() >= self.min_length
                            } by {
                                if k < segs0.len() {
                                    assert(segs@[k] == segs0[k]);
                                }
                            }
                            let m = base.min_length;
                            assert(spec_para_pass(pre.buffer@, m).0 =~= seq![sview]
                                + spec_para_pass(self.buffer@, m).0);
                            assert(spec_para_pass(pre.buffer@, m).1 == spec_para_pass(
                                self.buffer@,
                                m,
                            ).1);
                            assert(segs@.map_values(f).take(mid_count) =~= segs0.map_values(
                                f,
                            ).take(mid_count));
                            assert(segs0.map_values(f).skip(mid_count) + spec_para_pass(
                                pre.buffer@,
                                m,
                            ).0 =~= segs@.map_values(f).skip(mid_count) + spec_para_pass(
                                self.buffer@,
                                m,
                            ).0);
                        }
                    } else if slen > 0 {
                        let merged = sentence.concat(" ").concat(rest.as_str());
                        self.buffer = merged;
                        proof {
                            reveal_strlit(" ");
                            assert(self.buffer@ =~= (sview + " "@) + rest@);
                            lemma_rewrite_buffer_spaced(pre.emitted@, sview, cutv, rest@, pre.pushed@);
                            assert(" "@ =~= seq![' ']);
                            assert(self.buffer@ == sview + seq![' '] + rest@);
                            assert(spec_para_pass(pre.buffer@, base.min_length) == spec_para_pass(
                                self.buffer@,
                                base.min_length,
                            ));
                        }
                    } else {
                        self.buffer = rest;
                        proof {
                            lemma_trim_empty_non_ws(head@);
                            lemma_drop_cut(pre.emitted@, cutv, rest@, pre.pushed@);
                            assert(spec_para_pass(pre.buffer@, base.min_length) == spec_para_pass(
                                self.buffer@,
                                base.min_length,
                            ));
                        }
                    }
                },
            }
        }
        proof {
            let f = |s: SentenceSegment| s.text@;
            assert(segs@.map_values(f) =~= segs@.map_values(f).take(mid_count)
                + segs@.map_values(f).skip(mid_count));
            assert(spec_push(base.buffer@, base.min_length).0 =~= segs@.map_values(f));
            assert(spec_push(base.buffer@, base.min_length).1 == self.buffer@);
            assert(base.buffer@ == old(self).buffer@ + token@);
        }
        segs
    }

    /// Flush whatever is buffered as one final segment, if anything
    /// non-whitespace remains.
    pub fn finish(&mut self) -> (r: Option<SentenceSegment>)
        requires
            old(self).wf(),
            old(self).can_accept(0),
        ensures
            final(self).wf(),
            final(self).min_length_spec() == old(self).min_length_spec(),
            final(self).buffer_view() == Seq::<char>::empty(),
            final(self).pushed_input() == old(self).pushed_input(),
            r is None <==> non_ws(old(self).buffer_view()) == Seq::<char>::empty(),
            r matches Some(seg) ==> {
                &&& seg.index == old(self).next_index_spec()
                &&& seg.text@ == spec_trim(old(self).buffer_view())
                &&& final(self).emitted_texts() == old(self).emitted_texts().push(seg.text@)
                &&& final(self).next_index_spec() == old(self).next_index_spec() + 1
            },
            r is None ==> {
                &&& final(self).emitted_texts() == old(self).emitted_texts()
                &&& final(self).next_index_spec() == old(self).next_index_spec()
            },
    {
        let trimmed = str_trim(self.buffer.as_str());
        let ghost bview = self.buffer@;
        proof {
            crate::text::lemma_trim_props(bview);
            lemma_non_ws_trim(bview);
        }
        if trimmed.as_str().is_empty() {
            self.buffer = String::new();
            proof {
                lemma_trim_empty_non_ws(bview);
                lemma_non_ws_add(concat_texts(self.emitted@), bview);
                lemma_non_ws_add(concat_texts(self.emitted@), self.buffer@);
                assert(non_ws(self.buffer@) =~= Seq::<char>::empty());
            }
            None
        } else {
            self.buffer = String::new();
            let seg = SentenceSegment { index: self.next_index, text: trimmed };
            proof {
                self.emitted@ = self.emitted@.push(seg.text@);
                lemma_emit_step(old(self).emitted@, seg.text@, bview, self.buffer@, self.pushed@);
                lemma_non_ws_nonempty(spec_trim(bview));
            }
            self.next_index = self.next_index + 1;
            Some(seg)
        }
    }

    /// Append one segment to the output, taking the next index.
    fn emit(&mut self, text: String, segs: &mut Vec<SentenceSegment>)
        requires
            old(self).next_index < usize::MAX,
        ensures
            final(self).emitted@ == old(self).emitted@.push(text@),
            final(self).next_index == old(self).next_index + 1,
            final(self).buffer == old(self).buffer,
            final(self).pushed == old(self).pushed,
            final(self).min_length == old(self).min_length,
            final(segs)@ == old(segs)@.push(
                SentenceSegment { index: old(self).next_index, text },
            ),
    {
        let seg = SentenceSegment { index: self.next_index, text };
        proof {
            self.emitted@ = self.emitted@.push(seg.text@);
        }
        self.next_index = self.next_index + 1;
        segs.push(seg);
    }
}

/// Emitting the trimmed cut keeps the preserved content unchanged.
proof fn lemma_emit_step(
    emitted: Seq<Seq<char>>,
    t: Seq<char>,
    cut: Seq<char>,
    rest: Seq<char>,
    pushed: Seq<char>,
)
    requires
        non_ws(concat_texts(emitted) + (cut + rest)) == non_ws(pushed),
        non_ws(t) == non_ws(cut),
    ensures
        non_ws(concat_texts(emitted.push(t)) + rest) == non_ws(pushed),
{
    assert(emitted.push(t).drop_last() =~= emitted);
    assert(concat_texts(emitted.push(t)) == concat_texts(emitted) + t);
    let e = concat_texts(emitted);
    lemma_non_ws_add(e + t, rest);
    lemma_non_ws_add(e, t);
    lemma_non_ws_add(e, cut + rest);
    lemma_non_ws_add(cut, rest);
    assert(non_ws((e + t) + rest) =~= non_ws(e + (cut + rest)));
}

/// Replacing the cut by its trim inside the buffer keeps the content.
proof fn lemma_rewrite_buffer(
    emitted: Seq<Seq<char>>,
    t: Seq<char>,
    cut: Seq<char>,
    rest: Seq<char>,
    pushed: Seq<char>,
)
    requires
        non_ws(concat_texts(emitted) + (cut + rest)) == non_ws(pushed),
        non_ws(t) == non_ws(cut),
    ensures
        non_ws(concat_texts(emitted) + (t + rest)) == non_ws(pushed),
{
    let e = concat_texts(emitted);
    lemma_non_ws_add(e, t + rest);
    lemma_non_ws_add(t, rest);
    lemma_non_ws_add(e, cut + rest);
    lemma_non_ws_add(cut, rest);
    assert(non_ws(e + (t + rest)) =~= non_ws(e + (cut + rest)));
}

/// As above, with a separating space after the trimmed piece.
proof fn lemma_rewrite_buffer_spaced(
    emitted: Seq<Seq<char>>,
    t: Seq<char>,
    cut: Seq<char>,
    rest: Seq<char>,
    pushed: Seq<char>,
)
    requires
        non_ws(concat_texts(emitted) + (cut + rest)) == non_ws(pushed),
        non_ws(t) == non_ws(cut),
    ensures
        non_ws(concat_texts(emitted) + ((t + " "@) + rest)) == non_ws(pushed),
{
    reveal_strlit(" ");
    let e = concat_texts(emitted);
    lemma_non_ws_add(e, (t + " "@) + rest);
    lemma_non_ws_add(t + " "@, rest);
    lemma_non_ws_add(t, " "@);
    assert(" "@ =~= seq![' ']);
    lemma_non_ws_single(' ');
    lemma_non_ws_add(e, cut + rest);
    lemma_non_ws_add(cut, rest);
    assert(non_ws(e + ((t + " "@) + rest)) =~= non_ws(e + (cut + rest)));
}

/// Dropping an all-whitespace cut keeps the content.
proof fn lemma_drop_cut(
    emitted: Seq<Seq<char>>,
    cut: Seq<char>,
    rest: Seq<char>,
    pushed: Seq<char>,
)
    requires
        non_ws(concat_texts(emitted) + (cut + rest)) == non_ws(pushed),
        non_ws(cut) == Seq::<char>::empty(),
    ensures
        non_ws(concat_texts(emitted) + rest) == non_ws(pushed),
{
    let e = concat_texts(emitted);
    lemma_non_ws_add(e, rest);
    lemma_non_ws_add(e, cut + rest);
    lemma_non_ws_add(cut, rest);
    assert(non_ws(e + rest) =~= non_ws(e + (cut + rest)));
}

/// A paragraph break contributes no content of its own.
proof fn lemma_para_cut_trim(head: Seq<char>)
    ensures
        non_ws(head + seq!['\n', '\n']) == non_ws(head),
{
    lemma_non_ws_add(head, seq!['\n', '\n']);
    assert(seq!['\n', '\n'] =~= seq!['\n'] + seq!['\n']);
    lemma_non_ws_add(seq!['\n'], seq!['\n']);
    lemma_non_ws_single('\n');
    assert(non_ws(head + seq!['\n', '\n']) =~= non_ws(head));
}

/// Find the first sentence delimiter in `s`.
fn find_first_delimiter(s: &str) -> (r: Option<usize>)
    ensures
        match r {
            Some(i) => i < s@.len() && is_delimiter_char(s@[i as int]) && forall|j: int|
                0 <= j < i ==> !is_delimiter_char(#[trigger] s@[j]),
            None => forall|j: int| 0 <= j < s@.len() ==> !is_delimiter_char(#[trigger] s@[j]),
        },
{
    let n = s.unicode_len();
    let mut i: usize = 0;
    while i < n
        invariant
            n == s@.len(),
            i <= n,
            forall|j: int| 0 <= j < i ==> !is_delimiter_char(#[trigger] s@[j]),
        decreases n - i,
    {
        if is_delimiter(s.get_char(i)) {
            return Some(i);
        }
        i = i + 1;
    }
    None
}

/// Find the first paragraph break (two consecutive newlines) in `s`.
fn find_paragraph_break(s: &str) -> (r: Option<usize>)
    ensures
        match r {
            Some(i) => i + 1 < s@.len() && s@[i as int] == '\n' && s@[i as int + 1] == '\n'
                && forall|j: int|
                0 <= j < i ==> !(#[trigger] s@[j] == '\n' && s@[j + 1] == '\n'),
            None => forall|j: int|
                0 <= j < s@.len() - 1 ==> !(#[trigger] s@[j] == '\n' && s@[j + 1] == '\n'),
        },
{
    let n = s.unicode_len();
    if n < 2 {
        return None;
    }
    let mut i: usize = 0;
    while i < n - 1
        invariant
            n == s@.len(),
            2 <= n,
            i <= n - 1,
            forall|j: int| 0 <= j < i ==> !(#[trigger] s@[j] == '\n' && s@[j + 1] == '\n'),
        decreases n - i,
    {
        if s.get_char(i) == '\n' && s.get_char(i + 1) == '\n' {
            return Some(i);
        }
        i = i + 1;
    }
    None
}

} // verus!
