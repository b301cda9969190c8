//! Content-addressed cache of synthesised audio with LRU eviction.
//!
//! Entries are keyed by the SHA-256 of the canonical JSON rendering of
//! the synthesis parameters. The table is kept in access order, oldest
//! first; whenever the stored audio outgrows the configured limit, the
//! least recently used entries leave from the front until it fits.

use vstd::prelude::*;
use vstd::slice::slice_to_vec;

use crate::hash::{hex_char, sha256_digest, sha256_of, spec_to_hex};
use crate::text::{i64_to_dec, spec_dec_i64};

verus! {

/// The synthesis parameters that address a cache entry.
#[derive(Debug, Clone)]
pub struct TtsCacheParams {
    pub text: String,
    pub model: String,
    /// Speaking speed, in thousandths.
    pub speed_milli: i64,
    pub style_id: Option<i64>,
    pub speaker_id: Option<i64>,
    /// Pitch shift, in thousandths.
    pub pitch_milli: Option<i64>,
}

/// A cached synthesis result returned on a hit.
#[derive(Debug, Clone)]
pub struct CachedAudio {
    pub audio_data: Vec<u8>,
    pub audio_format: String,
    pub duration_ms: i64,
}

/// One stored row of the cache table.
#[derive(Debug, Clone)]
pub struct CacheEntry {
    pub key: String,
    pub audio_format: String,
    pub audio_data: Vec<u8>,
    pub duration_ms: i64,
    pub use_count: u64,
    pub access_seq: u64,
}

// ─── Canonical JSON of the parameter tuple ───────────────────────────

/// How one character is written inside a JSON string.
pub open spec fn esc_char(c: char) -> Seq<char> {
    if c == '"' {
        seq!['\\', '"']
    } else if c == '\\' {
        seq!['\\', '\\']
    } else if c == '\n' {
        seq!['\\', 'n']
    } else if c == '\r' {
        seq!['\\', 'r']
    } else if c == '\t' {
        seq!['\\', 't']
    } else if (c as u32) < 0x20 {
        seq!['\\', 'u', '0', '0', hex_char(((c as u32) / 16) as nat), hex_char(
            ((c as u32) % 16) as nat,
        )]
    } else {
        seq![c]
    }
}

/// `s` written as the body of a JSON string.
pub open spec fn spec_json_escape(s: Seq<char>) -> Seq<char>
    decreases s.len(),
{
    if s.len() == 0 {
        Seq::empty()
    } else {
        spec_json_escape(s.drop_last()) + esc_char(s.last())
    }
}

/// An optional number in JSON: the number, or `null`.
pub open spec fn spec_json_opt(n: Option<i64>) -> Seq<char> {
    match n {
        Some(v) => spec_dec_i64(v as int),
        None => "null"@,
    }
}

/// The canonical JSON rendering of the parameter tuple.
pub open spec fn spec_params_json(p: TtsCacheParams) -> Seq<char> {
    "{\"text\":\""@ + spec_json_escape(p.text@) + "\",\"model\":\""@ + spec_json_escape(p.model@)
        + "\",\"speed\":"@ + spec_dec_i64(p.speed_milli as int) + ",\"style_id\":"@
        + spec_json_opt(p.style_id) + ",\"speaker_id\":"@ + spec_json_opt(p.speaker_id)
        + ",\"pitch\":"@ + spec_json_opt(p.pitch_milli) + "}"@
}

/// The cache key: hex of the SHA-256 of the canonical JSON bytes.
pub open spec fn spec_cache_key(p: TtsCacheParams) -> Seq<char> {
    spec_to_hex(sha256_of(vstd::utf8::encode_utf8(spec_params_json(p))))
}

proof fn lemma_json_escape_snoc(s: Seq<char>, c: char)
    ensures
        spec_json_escape(s.push(c)) == spec_json_escape(s) + esc_char(c),
{
    assert(s.push(c).drop_last() =~= s);
    assert(s.push(c).last() == c);
}

/// Write `s` as the body of a JSON string.
fn json_escape(s: &str) -> (r: String)
    ensures
        r@ == spec_json_escape(s@),
{
    let table = "0123456789abcdef";
    proof {
        reveal_strlit("0123456789abcdef");
    }
    assert(table.is_ascii());
    let n = s.unicode_len();
    let mut r = String::new();
    let mut i: usize = 0;
    proof {
        assert(s@.take(0) =~= Seq::<char>::empty());
        assert(r@ =~= spec_json_escape(s@.take(0)));
    }
    while i < n
        invariant
            n == s@.len(),
            i <= n,
            table@ == "0123456789abcdef"@,
            table.is_ascii(),
            table@.len() == 16,
            r@ == spec_json_escape(s@.take(i as int)),
        decreases n - i,
    {
        let c = s.get_char(i);
        if c == '"' {
            r.append("\\\"");
            proof {
                reveal_strlit("\\\"");
                assert("\\\""@ =~= esc_char(c));
            }
        } else if c == '\\' {
            r.append("\\\\");
            proof {
                reveal_strlit("\\\\");
                assert("\\\\"@ =~= esc_char(c));
            }
        } else if c == '\n' {
            r.append("\\n");
            proof {
                reveal_strlit("\\n");
                assert("\\n"@ =~= esc_char(c));
            }
        } else if c == '\r' {
            r.append("\\r");
            proof {
                reveal_strlit("\\r");
                assert("\\r"@ =~= esc_char(c));
            }
        } else if c == '\t' {
            r.append("\\t");
            proof {
                reveal_strlit("\\t");
                assert("\\t"@ =~= esc_char(c));
            }
        } else if (c as u32) < 0x20 {
            r.append("\\u00");
            let code = c as u32;
            let hi = (code / 16) as usize;
            let lo = (code % 16) as usize;
            let hs = table.substring_ascii(hi, hi + 1);
            let ls = table.substring_ascii(lo, lo + 1);
            r.append(hs);
            r.append(ls);
            proof {
                reveal_strlit("\\u00");
                reveal_strlit("0123456789abcdef");
                assert(hs@ =~= seq![hex_char(((c as u32) / 16) as nat)]);
                assert(ls@ =~= seq![hex_char(((c as u32) % 16) as nat)]);
                assert(("\\u00"@ + hs@) + ls@ =~= esc_char(c));
            }
        } else {
            let piece = s.substring_char(i, i + 1);
            r.append(piece);
            proof {
                assert(piece@ =~= esc_char(c));
            }
        }
        proof {
            assert(s@.take(i + 1).drop_last() =~= s@.take(i as int));
            assert(s@.take(i as int).push(s@[i as int]) =~= s@.take(i + 1));
            lemma_json_escape_snoc(s@.take(i as int), s@[i as int]);
        }
        i = i + 1;
    }
    proof {
        assert(s@.take(n as int) =~= s@);
    }
    r
}

/// An optional number written as JSON.
fn json_opt(n: &Option<i64>) -> (r: String)
    ensures
        r@ == spec_json_opt(*n),
{
    match n {
        Some(v) => i64_to_dec(*v),
        None => {
            proof {
                reveal_strlit("null");
            }
            "null".to_owned()
        },
    }
}

/// Derive the cache key from the synthesis parameters.
pub fn generate_cache_key(params: &TtsCacheParams) -> (r: String)
    ensures
        r@ == spec_cache_key(*params),
        r@.len() == 64,
{
    let mut j = String::new();
    j.append("{\"text\":\"");
    let et = json_escape(params.text.as_str());
    j.append(et.as_str());
    j.append("\",\"model\":\"");
    let em = json_escape(params.model.as_str());
    j.append(em.as_str());
    j.append("\",\"speed\":");
    let sp = i64_to_dec(params.speed_milli);
    j.append(sp.as_str());
    j.append(",\"style_id\":");
    let st = json_opt(&params.style_id);
    j.append(st.as_str());
    j.append(",\"speaker_id\":");
    let sk = json_opt(&params.speaker_id);
    j.append(sk.as_str());
    j.append(",\"pitch\":");
    let pi = json_opt(&params.pitch_milli);
    j.append(pi.as_str());
    j.append("}");
    proof {
        assert(j@ =~= spec_params_json(*params));
    }
    let digest = sha256_digest(j.as_str().as_bytes());
    crate::hash::to_hex(digest.as_slice())
}

// ─── The cache table ─────────────────────────────────────────────────

/// All keys in the table are pairwise distinct.
pub open spec fn unique_cache_keys(s: Seq<CacheEntry>) -> bool {
    forall|i: int, j: int|
        0 <= i < j < s.len() ==> (#[trigger] s[i]).key@ != (#[trigger] s[j]).key@
}

/// Entries stand in access order, oldest first.
pub open spec fn access_ordered(s: Seq<CacheEntry>) -> bool {
    forall|i: int, j: int|
        0 <= i < j < s.len() ==> (#[trigger] s[i]).access_seq < (#[trigger] s[j]).access_seq
}

/// Total audio bytes stored in the table.
pub open spec fn spec_total_bytes(s: Seq<CacheEntry>) -> nat
    decreases s.len(),
{
    if s.len() == 0 {
        0
    } else {
        s[0].audio_data@.len() + spec_total_bytes(s.drop_first())
    }
}

/// First entry carrying `key`, scanning oldest first.
pub open spec fn spec_find_entry(s: Seq<CacheEntry>, key: Seq<char>) -> Option<CacheEntry>
    decreases s.len(),
{
    if s.len() == 0 {
        None
    } else if s[0].key@ == key {
        Some(s[0])
    } else {
        spec_find_entry(s.drop_first(), key)
    }
}

/// `s` with the entry for `key` removed, if one is there.
pub open spec fn spec_remove_entry(s: Seq<CacheEntry>, key: Seq<char>) -> Seq<CacheEntry>
    decreases s.len(),
{
    if s.len() == 0 {
        s
    } else if s[0].key@ == key {
        s.drop_first()
    } else {
        seq![s[0]] + spec_remove_entry(s.drop_first(), key)
    }
}

/// A freshly inserted row for `key` with this audio.
pub open spec fn entry_matches(
    e: CacheEntry,
    key: Seq<char>,
    audio_format: Seq<char>,
    audio_data: Seq<u8>,
    duration_ms: i64,
) -> bool {
    &&& e.key@ == key
    &&& e.audio_format@ == audio_format
    &&& e.audio_data@ == audio_data
    &&& e.duration_ms == duration_ms
    &&& e.use_count == 1
}

pub proof fn lemma_find_present(s: Seq<CacheEntry>, key: Seq<char>, i: int)
    requires
        0 <= i < s.len(),
        s[i].key@ == key,
        forall|j: int| 0 <= j < i ==> (#[trigger] s[j]).key@ != key,
    ensures
        spec_find_entry(s, key) == Some(s[i]),
    decreases s.len(),
{
    if i > 0 {
        lemma_find_present(s.drop_first(), key, i - 1);
    }
}

pub proof fn lemma_find_absent(s: Seq<CacheEntry>, key: Seq<char>)
    requires
        forall|j: int| 0 <= j < s.len() ==> (#[trigger] s[j]).key@ != key,
    ensures
        spec_find_entry(s, key) == None::<CacheEntry>,
    decreases s.len(),
{
    if s.len() > 0 {
        lemma_find_absent(s.drop_first(), key);
    }
}

/// Removing at the first match realises `spec_remove_entry`.
proof fn lemma_remove_entry_at(s: Seq<CacheEntry>, key: Seq<char>, i: int)
    requires
        0 <= i < s.len(),
        s[i].key@ == key,
        forall|j: int| 0 <= j < i ==> (#[trigger] s[j]).key@ != key,
    ensures
        spec_remove_entry(s, key) =~= s.remove(i),
    decreases s.len(),
{
    if i > 0 {
        lemma_remove_entry_at(s.drop_first(), key, i - 1);
        assert(s.drop_first().remove(i - 1) =~= s.remove(i).drop_first());
        assert(seq![s[0]] + s.remove(i).drop_first() =~= s.remove(i));
    } else {
        assert(s.remove(0) =~= s.drop_first());
    }
}

/// Removing an absent key changes nothing.
proof fn lemma_remove_entry_absent(s: Seq<CacheEntry>, key: Seq<char>)
    requires
        forall|j: int| 0 <= j < s.len() ==> (#[trigger] s[j]).key@ != key,
    ensures
        spec_remove_entry(s, key) =~= s,
    decreases s.len(),
{
    if s.len() > 0 {
        lemma_remove_entry_absent(s.drop_first(), key);
        assert(seq![s[0]] + s.drop_first() =~= s);
    }
}

proof fn lemma_total_push(s: Seq<CacheEntry>, e: CacheEntry)
    ensures
        spec_total_bytes(s.push(e)) == spec_total_bytes(s) + e.audio_data@.len(),
    decreases s.len(),
{
    if s.len() == 0 {
        assert(s.push(e).drop_first() =~= Seq::<CacheEntry>::empty());
        assert(spec_total_bytes(Seq::<CacheEntry>::empty()) == 0);
    } else {
        assert(s.push(e).drop_first() =~= s.drop_first().push(e));
        lemma_total_push(s.drop_first(), e);
    }
}

proof fn lemma_total_remove(s: Seq<CacheEntry>, i: int)
    requires
        0 <= i < s.len(),
    ensures
        spec_total_bytes(s.remove(i)) + s[i].audio_data@.len() == spec_total_bytes(s),
    decreases s.len(),
{
    if i == 0 {
        assert(s.remove(0) =~= s.drop_first());
    } else {
        assert(s.remove(i).drop_first() =~= s.drop_first().remove(i - 1));
        lemma_total_remove(s.drop_first(), i - 1);
    }
}

/// Inserting under a key the table already holds is an upsert: the
/// replaced table is exactly one longer than the table with the key
/// removed, so the entry count does not change.
pub proof fn lemma_upsert_keeps_count(s: Seq<CacheEntry>, key: Seq<char>)
    requires
        unique_cache_keys(s),
        spec_find_entry(s, key) is Some,
    ensures
        spec_remove_entry(s, key).len() + 1 == s.len(),
    decreases s.len(),
{
    if s.len() > 0 {
        if s[0].key@ != key {
            lemma_upsert_keeps_count(s.drop_first(), key);
        }
    }
}

/// Looking a key up is deciding whether some entry carries it.
proof fn lemma_find_index(s: Seq<CacheEntry>, key: Seq<char>)
    requires
        unique_cache_keys(s),
    ensures
        spec_find_entry(s, key) is Some <==> exists|i: int|
            0 <= i < s.len() && (#[trigger] s[i]).key@ == key,
        forall|i: int|
            0 <= i < s.len() && (#[trigger] s[i]).key@ == key ==> spec_find_entry(s, key) == Some(
                s[i],
            ),
    decreases s.len(),
{
    if s.len() > 0 {
        lemma_find_index(s.drop_first(), key);
        if s[0].key@ != key {
            assert(forall|i: int| 0 < i < s.len() ==> (#[trigger] s[i]) == s.drop_first()[i - 1]);
        }
    }
}

/// Content-addressed audio cache bounded in total bytes.
pub struct TtsCache {
    entries: Vec<CacheEntry>,
    max_total_bytes: u64,
    total_bytes: u64,
    next_access_seq: u64,
}

impl TtsCache {
    /// The stored rows, oldest access first.
    pub closed spec fn entries_view(self) -> Seq<CacheEntry> {
        self.entries@
    }

    /// The configured limit on stored audio bytes.
    pub closed spec fn max_bytes_spec(self) -> u64 {
        self.max_total_bytes
    }

    /// Unique keys, access order kept, and the stored audio never over
    /// the limit.
    pub closed spec fn wf(self) -> bool {
        &&& unique_cache_keys(self.entries@)
        &&& access_ordered(self.entries@)
        &&& self.total_bytes == spec_total_bytes(self.entries@)
        &&& self.total_bytes <= self.max_total_bytes
        &&& forall|i: int|
            0 <= i < self.entries@.len() ==> (#[trigger] self.entries@[i]).access_seq
                < self.next_access_seq
    }

    /// Room for one more access without exhausting the sequence space.
    pub open spec fn can_touch(self) -> bool {
        self.next_seq_spec() < u64::MAX
    }

    /// The access stamp the next touch will take.
    pub closed spec fn next_seq_spec(self) -> u64 {
        self.next_access_seq
    }

    /// The tracked total of stored audio bytes.
    pub closed spec fn total_spec(self) -> u64 {
        self.total_bytes
    }

    /// However entries came and went, the stored audio never exceeds
    /// the configured limit.
    pub proof fn lemma_within_limit(self)
        requires
            self.wf(),
        ensures
            spec_total_bytes(self.entries_view()) <= self.max_bytes_spec(),
    {
    }

    /// An empty cache bounded to `max_bytes` of stored audio.
    pub fn with_limit_bytes(max_bytes: u64) -> (r: Self)
        ensures
            r.wf(),
            r.can_touch(),
            r.next_seq_spec() == 0,
            r.max_bytes_spec() == max_bytes,
            r.entries_view() == Seq::<CacheEntry>::empty(),
    {
        TtsCache {
            entries: Vec::new(),
            max_total_bytes: max_bytes,
            total_bytes: 0,
            next_access_seq: 0,
        }
    }

    /// An empty cache bounded in megabytes.
    pub fn in_memory(max_total_size_mb: u64) -> (r: Self)
        requires
            max_total_size_mb <= u64::MAX / 1048576u64,
        ensures
            r.wf(),
            r.can_touch(),
            r.next_seq_spec() == 0,
            r.max_bytes_spec() == max_total_size_mb * 1024 * 1024,
            r.entries_view() == Seq::<CacheEntry>::empty(),
    {
        Self::with_limit_bytes(max_total_size_mb * 1024 * 1024)
    }

    /// How many entries the table holds.
    pub fn entry_count(&self) -> (r: u64)
        requires
            self.entries_view().len() <= u64::MAX,
        ensures
            r == self.entries_view().len(),
    {
        self.entries.len() as u64
    }

    /// Total bytes of stored audio; never above the limit.
    pub fn total_size_bytes(&self) -> (r: u64)
        requires
            self.wf(),
        ensures
            r == spec_total_bytes(self.entries_view()),
            r <= self.max_bytes_spec(),
    {
        self.total_bytes
    }

    /// The recorded use count of the entry for these parameters.
    pub fn use_count(&self, params: &TtsCacheParams) -> (r: Option<u64>)
        requires
            self.wf(),
        ensures
            r == match spec_find_entry(self.entries_view(), spec_cache_key(*params)) {
                Some(e) => Some(e.use_count),
                None => None::<u64>,
            },
    {
        let key = generate_cache_key(params);
        match self.find_index(&key) {
            Some(i) => Some(self.entries[i].use_count),
            None => None,
        }
    }

    /// Drop every entry.
    pub fn clear(&mut self)
        ensures
            final(self).wf(),
            final(self).entries_view() == Seq::<CacheEntry>::empty(),
            final(self).max_bytes_spec() == old(self).max_bytes_spec(),
    {
        self.entries.clear();
        self.total_bytes = 0;
    }

    /// Find the index of the entry for `key`, if present.
    fn find_index(&self, key: &String) -> (r: Option<usize>)
        ensures
            match r {
                Some(i) => i < self.entries_view().len() && self.entries_view()[i as int].key@
                    == key@ && forall|j: int|
                    0 <= j < i ==> (#[trigger] self.entries_view()[j]).key@ != key@,
                None => forall|j: int|
                    0 <= j < self.entries_view().len() ==> (#[trigger] self.entries_view()[j]).key@
                        != key@,
            },
            r is Some <==> spec_find_entry(self.entries_view(), key@) is Some,
            r matches Some(i) ==> spec_find_entry(self.entries_view(), key@) == Some(
                self.entries_view()[i as int],
            ),
    {
        let n = self.entries.len();
        let mut i: usize = 0;
        while i < n
            invariant
                n == self.entries@.len(),
                i <= n,
                forall|j: int| 0 <= j < i ==> (#[trigger] self.entries@[j]).key@ != key@,
            decreases n - i,
        {
            if self.entries[i].key == *key {
                proof {
                    lemma_find_present(self.entries@, key@, i as int);
                }
                return Some(i);
            }
            i = i + 1;
        }
        proof {
            lemma_find_absent(self.entries@, key@);
        }
        None
    }

    /// Look a parameter tuple up. On a hit the entry's audio comes back
    /// and the entry becomes the most recently used: its use count grows
    /// and it moves to the young end of the access order.
    pub fn lookup(&mut self, params: &TtsCacheParams) -> (r: Option<CachedAudio>)
        requires
            old(self).wf(),
            old(self).can_touch(),
        ensures
            final(self).wf(),
            final(self).max_bytes_spec() == old(self).max_bytes_spec(),
            r is Some <==> spec_find_entry(old(self).entries_view(), spec_cache_key(*params))
                is Some,
            r matches Some(c) ==> ({
                let e = spec_find_entry(
                    old(self).entries_view(),
                    spec_cache_key(*params),
                ).unwrap();
                &&& c.audio_data@ == e.audio_data@
                &&& c.audio_format@ == e.audio_format@
                &&& c.duration_ms == e.duration_ms
                &&& spec_find_entry(final(self).entries_view(), spec_cache_key(*params))
                    matches Some(e2) && e2.audio_data@ == e.audio_data@ && e2.use_count == (
                if e.use_count < u64::MAX {
                    (e.use_count + 1) as u64
                } else {
                    u64::MAX
                })
            }),
            r is None ==> final(self).entries_view() == old(self).entries_view(),
            forall|k2: Seq<char>|
                k2 != spec_cache_key(*params) ==> #[trigger] spec_find_entry(
                    final(self).entries_view(),
                    k2,
                ) == spec_find_entry(old(self).entries_view(), k2),
            spec_total_bytes(final(self).entries_view()) == spec_total_bytes(
                old(self).entries_view(),
            ),
            final(self).entries_view().len() == old(self).entries_view().len(),
            final(self).next_seq_spec() == old(self).next_seq_spec() + (
            if spec_find_entry(old(self).entries_view(), spec_cache_key(*params)) is Some {
                1int
            } else {
                0int
            }),
    {
        let key = generate_cache_key(params);
        match self.find_index(&key) {
            Some(i) => {
                let ghost s0 = self.entries@;
                let entry = self.entries.remove(i);
                let result = CachedAudio {
                    audio_data: slice_to_vec(entry.audio_data.as_slice()),
                    audio_format: entry.audio_format.clone(),
                    duration_ms: entry.duration_ms,
                };
                let bumped = CacheEntry {
                    key: entry.key,
                    audio_format: entry.audio_format,
                    audio_data: entry.audio_data,
                    duration_ms: entry.duration_ms,
                    use_count: if entry.use_count < u64::MAX {
                        entry.use_count + 1
                    } else {
                        entry.use_count
                    },
                    access_seq: self.next_access_seq,
                };
                self.entries.push(bumped);
                self.next_access_seq = self.next_access_seq + 1;
                proof {
                    let s1 = self.entries@;
                    lemma_total_remove(s0, i as int);
                    lemma_total_push(s0.remove(i as int), s1.last());
                    lemma_find_present(s1, key@, s1.len() - 1);
                    assert forall|k2: Seq<char>|
                        k2 != spec_cache_key(*params) implies #[trigger] spec_find_entry(
                        s1,
                        k2,
                    ) == spec_find_entry(s0, k2) by {
                        lemma_find_frame_remove_push(s0, i as int, s1.last(), k2);
                    }
                }
                Some(result)
            },
            None => None,
        }
    }

    /// Store a synthesis result under its parameters: any entry with the
    /// same key is replaced, the new entry becomes the youngest, and the
    /// oldest entries are then evicted until the stored audio fits the
    /// limit. Audio larger than the whole limit empties the table.
    #[verifier::rlimit(60)]
    pub fn insert(
        &mut self,
        params: &TtsCacheParams,
        audio_format: &str,
        audio_data: &[u8],
        duration_ms: i64,
    )
        requires
            old(self).wf(),
            old(self).can_touch(),
        ensures
            final(self).wf(),
            final(self).max_bytes_spec() == old(self).max_bytes_spec(),
            final(self).next_seq_spec() == old(self).next_seq_spec() + 1,
            spec_total_bytes(final(self).entries_view()) <= final(self).max_bytes_spec(),
            ({
                let key = spec_cache_key(*params);
                let kept = spec_remove_entry(old(self).entries_view(), key);
                if audio_data@.len() > old(self).max_bytes_spec() {
                    final(self).entries_view().len() == 0
                } else {
                    exists|k: int|
                        #![trigger kept.skip(k)]
                        {
                            &&& 0 <= k <= kept.len()
                            &&& final(self).entries_view().len() == kept.len() - k + 1
                            &&& final(self).entries_view().drop_last() == kept.skip(k)
                            &&& entry_matches(
                                final(self).entries_view().last(),
                                key,
                                audio_format@,
                                audio_data@,
                                duration_ms,
                            )
                            &&& (k > 0 ==> spec_total_bytes(kept.skip(k - 1)) + audio_data@.len()
                                > old(self).max_bytes_spec())
                        }
                }
            }),
            ({
                let key = spec_cache_key(*params);
                let kept = spec_remove_entry(old(self).entries_view(), key);
                spec_total_bytes(kept) + audio_data@.len() <= old(self).max_bytes_spec() ==> {
                    &&& final(self).entries_view().len() == kept.len() + 1
                    &&& final(self).entries_view().drop_last() == kept
                    &&& entry_matches(
                        final(self).entries_view().last(),
                        key,
                        audio_format@,
                        audio_data@,
                        duration_ms,
                    )
                }
            }),
    {
        let key = generate_cache_key(params);
        let ghost key_v = key@;
        let ghost s0 = self.entries@;
        match self.find_index(&key) {
            Some(i) => {
                let removed = self.entries.remove(i);
                proof {
                    lemma_remove_entry_at(s0, key_v, i as int);
                    lemma_total_remove(s0, i as int);
                }
                self.total_bytes = self.total_bytes - removed.audio_data.len() as u64;
            },
            None => {
                proof {
                    lemma_remove_entry_absent(s0, key_v);
                }
            },
        }
        let ghost kept = self.entries@;
        let new_entry = CacheEntry {
            key,
            audio_format: audio_format.to_owned(),
            audio_data: slice_to_vec(audio_data),
            duration_ms,
            use_count: 1,
            access_seq: self.next_access_seq,
        };
        let new_len = new_entry.audio_data.len();
        self.entries.push(new_entry);
        self.next_access_seq = self.next_access_seq + 1;
        proof {
            lemma_total_push(kept, self.entries@.last());
        }
        let ghost upserted = self.entries@;
        let mut total: u128 = self.total_bytes as u128 + new_len as u128;
        let ghost mut k: int = 0;
        let mut evicting = true;
        proof {
            assert(upserted.skip(0) =~= upserted);
        }
        while evicting
            invariant
                0 <= k <= upserted.len(),
                self.entries@ == upserted.skip(k),
                total == spec_total_bytes(self.entries@),
                k > 0 ==> spec_total_bytes(upserted.skip(k - 1)) > self.max_total_bytes,
                !evicting ==> total <= self.max_total_bytes as u128,
                self.max_total_bytes == old(self).max_bytes_spec(),
                self.next_access_seq == old(self).next_seq_spec() + 1,
            decreases self.entries@.len() + if evicting { 1int } else { 0int },
        {
            if total <= self.max_total_bytes as u128 {
                evicting = false;
            } else {
                proof {
                    assert(self.entries@.len() > 0) by {
                        assert(spec_total_bytes(Seq::<CacheEntry>::empty()) == 0);
                        if self.entries@.len() == 0 {
                            assert(self.entries@ =~= Seq::<CacheEntry>::empty());
                        }
                    }
                }
                let victim = self.entries.remove(0);
                proof {
                    assert(upserted.skip(k).remove(0) =~= upserted.skip(k + 1));
                    assert(upserted.skip(k).remove(0) =~= upserted.skip(k).drop_first());
                    k = k + 1;
                }
                total = total - victim.audio_data.len() as u128;
            }
        }
        self.total_bytes = total as u64;
        proof {
            assert(0 <= k <= upserted.len());
            assert(upserted.drop_last() == kept);
            assert(upserted.len() == kept.len() + 1);
            assert(upserted.last().key@ == key_v);
            assert(upserted.last().access_seq == old(self).next_seq_spec());
            assert(self.entries@ == upserted.skip(k));
            assert(self.total_bytes == spec_total_bytes(self.entries@));
            assert(self.total_bytes <= self.max_total_bytes);
            lemma_upsert_shape(s0, kept, upserted, key_v, k, *old(self), *self);
            if k > 0 {
                assert(upserted.skip(k - 1) =~= kept.skip(k - 1).push(upserted.last()));
                lemma_total_push(kept.skip(k - 1), upserted.last());
            }
            if audio_data@.len() > old(self).max_bytes_spec() {
                if k < upserted.len() {
                    lemma_total_last_le(self.entries@);
                    assert(false);
                }
                assert(self.entries@ =~= upserted.skip(upserted.len() as int));
            } else {
                if k == upserted.len() {
                    assert(upserted.skip(k - 1) =~= seq![upserted.last()]);
                    assert(spec_total_bytes(seq![upserted.last()]) == upserted.last().audio_data@.len()) by {
                        assert(seq![upserted.last()].drop_first() =~= Seq::<CacheEntry>::empty());
                        assert(spec_total_bytes(Seq::<CacheEntry>::empty()) == 0);
                    }
                    assert(false);
                }
                assert(0 <= k <= kept.len());
                assert(self.entries@.drop_last() == kept.skip(k));
                assert(entry_matches(
                    self.entries@.last(),
                    key_v,
                    audio_format@,
                    audio_data@,
                    duration_ms,
                ));
            }
            if spec_total_bytes(kept) + audio_data@.len() <= old(self).max_bytes_spec() {
                if k > 0 {
                    lemma_total_skip_le(kept, k - 1);
                    assert(false);
                }
                assert(upserted.skip(0) =~= upserted);
                assert(kept.skip(0) =~= kept);
            }
        }
    }
}

/// The last entry's audio is part of the total.
proof fn lemma_total_last_le(s: Seq<CacheEntry>)
    requires
        s.len() > 0,
    ensures
        s.last().audio_data@.len() <= spec_total_bytes(s),
    decreases s.len(),
{
    if s.len() > 1 {
        lemma_total_last_le(s.drop_first());
        assert(s.drop_first().last() == s.last());
    }
}

/// Dropping old entries never grows the total.
proof fn lemma_total_skip_le(s: Seq<CacheEntry>, j: int)
    requires
        0 <= j <= s.len(),
    ensures
        spec_total_bytes(s.skip(j)) <= spec_total_bytes(s),
    decreases j,
{
    if j > 0 {
        lemma_total_skip_le(s.drop_first(), j - 1);
        assert(s.skip(j) =~= s.drop_first().skip(j - 1));
    } else {
        assert(s.skip(0) =~= s);
    }
}

/// Keys untouched by a move-to-back keep their binding.
proof fn lemma_find_frame_remove_push(s: Seq<CacheEntry>, i: int, e2: CacheEntry, k2: Seq<char>)
    requires
        unique_cache_keys(s),
        0 <= i < s.len(),
        e2.key@ == s[i].key@,
        k2 != s[i].key@,
    ensures
        spec_find_entry(s.remove(i).push(e2), k2) == spec_find_entry(s, k2),
{
    let t = s.remove(i).push(e2);
    lemma_find_index(s, k2);
    assert(unique_cache_keys(s.remove(i))) by {
        assert(forall|j: int|
            0 <= j < s.remove(i).len() ==> #[trigger] s.remove(i)[j] == if j < i {
                s[j]
            } else {
                s[j + 1]
            });
    }
    assert(unique_cache_keys(t)) by {
        assert(forall|j: int|
            0 <= j < t.len() - 1 ==> #[trigger] t[j] == s.remove(i)[j]);
        assert(t.last() == e2);
        assert forall|a: int, b: int| 0 <= a < b < t.len() implies (#[trigger] t[a]).key@ != (
        #[trigger] t[b]).key@ by {
            if b == t.len() - 1 {
                let a0 = if a < i {
                    a
                } else {
                    a + 1
                };
                assert(t[a] == s[a0]);
                if a0 < i {
                    assert(s[a0].key@ != s[i].key@);
                } else {
                    assert(s[a0].key@ != s[i].key@);
                }
            }
        }
    }
    lemma_find_index(t, k2);
    if spec_find_entry(s, k2) is Some {
        let j = choose|j: int| 0 <= j < s.len() && (#[trigger] s[j]).key@ == k2;
        let j2 = if j < i {
            j
        } else {
            j - 1
        };
        assert(t[j2] == s[j]);
    } else {
        assert forall|j: int| 0 <= j < t.len() implies (#[trigger] t[j]).key@ != k2 by {
            if j < t.len() - 1 {
                let j0 = if j < i {
                    j
                } else {
                    j + 1
                };
                assert(t[j] == s[j0]);
            } else {
                assert(t[j] == e2);
            }
        }
        lemma_find_absent(t, k2);
    }
}

/// After the eviction loop the table is well formed and has the shape
/// the insert contract states.
proof fn lemma_upsert_shape(
    s0: Seq<CacheEntry>,
    kept: Seq<CacheEntry>,
    upserted: Seq<CacheEntry>,
    key: Seq<char>,
    k: int,
    pre: TtsCache,
    post: TtsCache,
)
    requires
        pre.wf(),
        pre.can_touch(),
        s0 == pre.entries_view(),
        kept == spec_remove_entry(s0, key),
        upserted.drop_last() == kept,
        upserted.len() == kept.len() + 1,
        upserted.last().key@ == key,
        upserted.last().access_seq == pre.next_seq_spec(),
        0 <= k <= upserted.len(),
        post.entries_view() == upserted.skip(k),
        post.max_bytes_spec() == pre.max_bytes_spec(),
        post.next_seq_spec() == pre.next_seq_spec() + 1,
        post.total_spec() == spec_total_bytes(post.entries_view()),
        post.total_spec() <= post.max_bytes_spec(),
    ensures
        post.wf(),
        k < upserted.len() ==> post.entries_view().drop_last() == kept.skip(k)
            && post.entries_view().last() == upserted.last(),
        k == upserted.len() ==> post.entries_view().len() == 0,
{
    lemma_remove_entry_props(s0, key, pre.next_seq_spec());
    assert(unique_cache_keys(upserted)) by {
        assert(forall|j: int| 0 <= j < kept.len() ==> #[trigger] upserted[j] == kept[j]);
        assert forall|a: int, b: int|
            0 <= a < b < upserted.len() implies (#[trigger] upserted[a]).key@ != (
        #[trigger] upserted[b]).key@ by {
            if b == upserted.len() - 1 {
                assert(upserted[a] == kept[a]);
                assert(kept[a].key@ != key);
            }
        }
    }
    assert(access_ordered(upserted)) by {
        assert(forall|j: int| 0 <= j < kept.len() ==> #[trigger] upserted[j] == kept[j]);
        assert forall|a: int, b: int|
            0 <= a < b < upserted.len() implies (#[trigger] upserted[a]).access_seq < (
        #[trigger] upserted[b]).access_seq by {
            if b == upserted.len() - 1 {
                assert(upserted[a] == kept[a]);
                assert(kept[a].access_seq < pre.next_seq_spec());
            }
        }
    }
    let fin = post.entries_view();
    assert(forall|j: int| 0 <= j < fin.len() ==> #[trigger] fin[j] == upserted[k + j]);
    assert(unique_cache_keys(fin));
    assert(access_ordered(fin));
    assert(forall|j: int|
        0 <= j < fin.len() ==> (#[trigger] fin[j]).access_seq < post.next_seq_spec());
    if k < upserted.len() {
        assert(fin.len() == upserted.len() - k);
        assert(fin.drop_last() =~= kept.skip(k)) by {
            assert(forall|j: int|
                0 <= j < fin.len() - 1 ==> #[trigger] fin.drop_last()[j] == upserted[k + j]);
            assert(forall|j: int|
                0 <= j < kept.len() - k ==> #[trigger] kept.skip(k)[j] == kept[k + j]);
            assert(forall|j: int|
                0 <= j < kept.len() ==> #[trigger] upserted[j] == kept[j]);
        }
        assert(fin.last() == upserted[upserted.len() - 1]);
    }
}

/// What removing a key keeps: uniqueness, order, age bounds, and the
/// absence of the key.
proof fn lemma_remove_entry_props(s: Seq<CacheEntry>, key: Seq<char>, bound: u64)
    requires
        unique_cache_keys(s),
        access_ordered(s),
        forall|i: int| 0 <= i < s.len() ==> (#[trigger] s[i]).access_seq < bound,
    ensures
        unique_cache_keys(spec_remove_entry(s, key)),
        access_ordered(spec_remove_entry(s, key)),
        forall|i: int|
            0 <= i < spec_remove_entry(s, key).len() ==> (#[trigger] spec_remove_entry(
                s,
                key,
            )[i]).access_seq < bound,
        forall|i: int|
            0 <= i < spec_remove_entry(s, key).len() ==> (#[trigger] spec_remove_entry(
                s,
                key,
            )[i]).key@ != key,
        spec_remove_entry(s, key).len() == if spec_find_entry(s, key) is Some {
            s.len() - 1
        } else {
            s.len() as int
        },
    decreases s.len(),
{
    lemma_find_index(s, key);
    let r = spec_remove_entry(s, key);
    if spec_find_entry(s, key) is Some {
        let i = choose|i: int| 0 <= i < s.len() && (#[trigger] s[i]).key@ == key;
        assert forall|j: int| 0 <= j < i implies (#[trigger] s[j]).key@ != key by {
            assert(s[j].key@ != s[i].key@);
        }
        lemma_remove_entry_at(s, key, i);
        assert(forall|j: int|
            0 <= j < r.len() ==> #[trigger] r[j] == if j < i {
                s[j]
            } else {
                s[j + 1]
            });
        assert forall|j: int| 0 <= j < r.len() implies (#[trigger] r[j]).key@ != key by {
            if j < i {
                assert(s[j].key@ != s[i].key@);
            } else {
                assert(s[i].key@ != s[j + 1].key@);
            }
        }
        assert(unique_cache_keys(r));
        assert(access_ordered(r));
    } else {
        assert forall|j: int| 0 <= j < s.len() implies (#[trigger] s[j]).key@ != key by {
            if s[j].key@ == key {
                assert(spec_find_entry(s, key) is Some);
            }
        }
        lemma_remove_entry_absent(s, key);
    }
}


} // verus!
