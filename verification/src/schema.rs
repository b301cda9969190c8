//! Configuration value parsers: durations like `1h30m`, times like
//! `09:30`.

use vstd::prelude::*;

use crate::text::{spec_dec, u64_to_dec};

verus! {

/// The largest value a parsed number may take.
pub const VALUE_LIMIT: u64 = 18446744073709551615;

/// One tenth of [`VALUE_LIMIT`], rounded down: a value above it cannot
/// take another digit without leaving the representable range.
pub const VALUE_LIMIT_TENTH: u128 = 1844674407370955161;

/// Whether `c` is a decimal digit.
pub open spec fn is_digit(c: char) -> bool {
    '0' <= c && c <= '9'
}

/// The numeric value of a digit.
pub open spec fn digit_val(c: char) -> int {
    c as int - '0' as int
}

/// The number a digit run denotes.
pub open spec fn num_val(ds: Seq<char>) -> int
    decreases ds.len(),
{
    if ds.len() == 0 {
        0
    } else {
        num_val(ds.drop_last()) * 10 + digit_val(ds.last())
    }
}

/// Seconds in one unit of a duration string.
pub open spec fn unit_secs(c: char) -> Option<int> {
    if c == 's' {
        Some(1int)
    } else if c == 'm' {
        Some(60int)
    } else if c == 'h' {
        Some(3600int)
    } else if c == 'd' {
        Some(86400int)
    } else {
        None
    }
}

/// How parsing a duration string can come out.
pub enum DurationOutcome {
    /// Total seconds of all groups; trailing digits without a unit do
    /// not count.
    Total(int),
    /// A unit had no parseable number before it.
    BadNumber,
    /// An unknown unit character.
    BadUnit(char),
}

/// Scan the duration groups: digits accumulate, a unit letter closes a
/// group and adds its seconds.
pub open spec fn spec_scan_duration(rest: Seq<char>, cur: Seq<char>, total: int) -> DurationOutcome
    decreases rest.len(),
{
    if rest.len() == 0 {
        DurationOutcome::Total(total)
    } else if is_digit(rest[0]) {
        spec_scan_duration(rest.drop_first(), cur.push(rest[0]), total)
    } else if cur.len() == 0 || num_val(cur) > VALUE_LIMIT {
        DurationOutcome::BadNumber
    } else {
        match unit_secs(rest[0]) {
            Some(u) => spec_scan_duration(rest.drop_first(), Seq::empty(), total + num_val(cur) * u),
            None => DurationOutcome::BadUnit(rest[0]),
        }
    }
}

/// What a duration string denotes.
pub open spec fn spec_parse_duration(s: Seq<char>) -> DurationOutcome {
    spec_scan_duration(s, Seq::empty(), 0)
}

/// Parse a duration such as `30m`, `1h` or `2h30m` into seconds.
///
/// A zero total is rejected, as is a total beyond the representable
/// range; the error text names the offending string or unit.
pub fn parse_duration(s: &str) -> (r: Result<u64, String>)
    ensures
        match spec_parse_duration(s@) {
            DurationOutcome::Total(v) => {
                if 0 < v <= VALUE_LIMIT {
                    r == Ok::<u64, String>(v as u64)
                } else {
                    r matches Err(m) && m@ == "Invalid duration: "@ + s@
                }
            },
            DurationOutcome::BadNumber => r matches Err(m) && m@ == "Invalid number in duration: "@
                + s@,
            DurationOutcome::BadUnit(c) => r matches Err(m) && m@ == "Unknown duration unit: "@
                + seq![c],
        },
{
    let n = s.unicode_len();
    let mut i: usize = 0;
    // current group's value, clamped just above the representable range
    let mut cur: u128 = 0;
    let mut cur_len: usize = 0;
    // total seconds, clamped just above the representable range
    let mut total: u128 = 0;
    let ghost cap: int = VALUE_LIMIT + 1;
    let ghost mut cur_v: Seq<char> = Seq::empty();
    let ghost mut total_v: int = 0;
    proof {
        assert(s@.skip(0) =~= s@);
    }
    while i < n
        invariant
            n == s@.len(),
            i <= n,
            cap == VALUE_LIMIT + 1,
            cur_len == cur_v.len(),
            cur_len <= i,
            cur == if num_val(cur_v) > VALUE_LIMIT {
                cap
            } else {
                num_val(cur_v)
            },
            total == if total_v > VALUE_LIMIT {
                cap
            } else {
                total_v
            },
            total_v >= 0,
            forall|j: int| 0 <= j < cur_v.len() ==> is_digit(#[trigger] cur_v[j]),
            num_val(cur_v) >= 0,
            spec_parse_duration(s@) == spec_scan_duration(s@.skip(i as int), cur_v, total_v),
        decreases n - i,
    {
        let c = s.get_char(i);
        proof {
            assert(s@.skip(i as int)[0] == s@[i as int]);
            assert(s@.skip(i as int).drop_first() =~= s@.skip(i + 1));
        }
        if '0' <= c && c <= '9' {
            let d = (c as u32 - '0' as u32) as u128;
            let ghost old_num = num_val(cur_v);
            let ghost old_cur = cur;
            proof {
                lemma_num_val_push(cur_v, c);
                assert(d == digit_val(c) && d <= 9);
            }
            cur = if cur > VALUE_LIMIT_TENTH {
                VALUE_LIMIT as u128 + 1
            } else if cur * 10 + d > VALUE_LIMIT as u128 {
                VALUE_LIMIT as u128 + 1
            } else {
                cur * 10 + d
            };
            proof {
                let ghost prev = cur_v;
                cur_v = cur_v.push(c);
                assert(num_val(cur_v) == old_num * 10 + digit_val(c));
                assert(is_digit(c));
                if old_num > VALUE_LIMIT {
                    assert(old_cur == cap);
                    assert(old_num * 10 + digit_val(c) > VALUE_LIMIT) by (nonlinear_arith)
                        requires
                            old_num > VALUE_LIMIT,
                            digit_val(c) >= 0,
                    ;
                    assert(cur == cap);
                } else if old_num > VALUE_LIMIT_TENTH {
                    assert(old_cur == old_num);
                    assert(old_num * 10 > VALUE_LIMIT);
                    assert(cur == cap);
                } else {
                    assert(old_cur == old_num);
                    assert(old_cur * 10 + d == old_num * 10 + digit_val(c));
                    if old_cur * 10 + d > VALUE_LIMIT as u128 {
                        assert(cur == cap);
                        assert(num_val(cur_v) > VALUE_LIMIT);
                    } else {
                        assert(cur == num_val(cur_v));
                    }
                }
                assert(spec_scan_duration(s@.skip(i as int), prev, total_v)
                    == spec_scan_duration(s@.skip(i + 1), cur_v, total_v));
            }
            cur_len = cur_len + 1;
        } else {
            if cur_len == 0 || cur > VALUE_LIMIT as u128 {
                let mut m = "Invalid number in duration: ".to_owned();
                m.append(s);
                return Err(m);
            }
            let unit: u128 = if c == 's' {
                1
            } else if c == 'm' {
                60
            } else if c == 'h' {
                3600
            } else if c == 'd' {
                86400
            } else {
                let mut m = "Unknown duration unit: ".to_owned();
                let piece = s.substring_char(i, i + 1);
                m.append(piece);
                proof {
                    assert(piece@ =~= seq![s@[i as int]]);
                }
                return Err(m);
            };
            proof {
                assert(cur * unit <= (VALUE_LIMIT as u128) * 86400) by (nonlinear_arith)
                    requires
                        cur <= VALUE_LIMIT as u128,
                        unit <= 86400,
                ;
                assert(unit_secs(s@[i as int]) == Some(unit as int));
            }
            let add = cur * unit;
            total = if total > VALUE_LIMIT as u128 {
                VALUE_LIMIT as u128 + 1
            } else if total + add > VALUE_LIMIT as u128 {
                VALUE_LIMIT as u128 + 1
            } else {
                total + add
            };
            proof {
                assert(add == cur * unit);
                assert(cur == num_val(cur_v));
                assert(add == num_val(cur_v) * (unit as int));
                total_v = total_v + num_val(cur_v) * (unit as int);
                assert(num_val(cur_v) * (unit as int) >= 0) by (nonlinear_arith)
                    requires
                        num_val(cur_v) >= 0,
                        unit >= 1,
                ;
                cur_v = Seq::empty();
            }
            cur = 0;
            cur_len = 0;
        }
        i = i + 1;
    }
    proof {
        assert(s@.skip(n as int) =~= Seq::<char>::empty());
        assert(spec_parse_duration(s@) == DurationOutcome::Total(total_v));
    }
    if total == 0 || total > VALUE_LIMIT as u128 {
        let mut m = "Invalid duration: ".to_owned();
        m.append(s);
        return Err(m);
    }
    Ok(total as u64)
}

proof fn lemma_num_val_nonneg(ds: Seq<char>)
    requires
        forall|j: int| 0 <= j < ds.len() ==> is_digit(#[trigger] ds[j]),
    ensures
        num_val(ds) >= 0,
    decreases ds.len(),
{
    if ds.len() > 0 {
        lemma_num_val_nonneg(ds.drop_last());
    }
}

proof fn lemma_num_val_push(ds: Seq<char>, c: char)
    ensures
        num_val(ds.push(c)) == num_val(ds) * 10 + digit_val(c),
{
    assert(ds.push(c).drop_last() =~= ds);
}

/// The number denoted by a digit run, or nothing if any character is
/// not a digit or the run is empty.
pub open spec fn spec_parse_num(s: Seq<char>) -> Option<int> {
    if s.len() > 0 && (forall|j: int| 0 <= j < s.len() ==> is_digit(#[trigger] s[j])) {
        Some(num_val(s))
    } else {
        None
    }
}

/// Parse an unsigned decimal with a bounded value.
fn parse_num(s: &str, max: u64) -> (r: Option<u64>)
    ensures
        r == match spec_parse_num(s@) {
            Some(v) => {
                if v <= max {
                    Some(v as u64)
                } else {
                    None::<u64>
                }
            },
            None => None::<u64>,
        },
{
    let n = s.unicode_len();
    if n == 0 {
        return None;
    }
    let mut i: usize = 0;
    let mut value: u128 = 0;
    let ghost mut seen: Seq<char> = Seq::empty();
    let ghost cap: int = VALUE_LIMIT + 1;
    proof {
        assert(s@.take(0) =~= Seq::<char>::empty());
    }
    while i < n
        invariant
            n == s@.len(),
            0 < n,
            i <= n,
            cap == VALUE_LIMIT + 1,
            seen == s@.take(i as int),
            forall|j: int| 0 <= j < seen.len() ==> is_digit(#[trigger] seen[j]),
            num_val(seen) >= 0,
            value == if num_val(seen) > VALUE_LIMIT {
                cap
            } else {
                num_val(seen)
            },
        decreases n - i,
    {
        let c = s.get_char(i);
        if c < '0' || c > '9' {
            proof {
                assert(s@[i as int] == c);
                assert(!is_digit(s@[i as int]));
            }
            return None;
        }
        let d = (c as u32 - '0' as u32) as u128;
        proof {
            lemma_num_val_push(seen, c);
        }
        value = if value > VALUE_LIMIT_TENTH {
            VALUE_LIMIT as u128 + 1
        } else if value * 10 + d > VALUE_LIMIT as u128 {
            VALUE_LIMIT as u128 + 1
        } else {
            value * 10 + d
        };
        proof {
            assert(d == digit_val(c) && d <= 9);
            if num_val(seen) > VALUE_LIMIT {
                assert(num_val(seen.push(c)) > VALUE_LIMIT);
            } else {
                if num_val(seen) > VALUE_LIMIT_TENTH {
                    assert(num_val(seen) * 10 > VALUE_LIMIT);
                }
            }
            assert(s@.take(i + 1) =~= seen.push(c));
            seen = seen.push(c);
        }
        i = i + 1;
    }
    proof {
        assert(s@.take(n as int) =~= s@);
    }
    if value > max as u128 {
        return None;
    }
    Some(value as u64)
}

/// What a `HH:MM` string denotes.
pub open spec fn spec_parse_time(s: Seq<char>) -> Option<(u8, u8)> {
    if !(exists|i: int| 0 <= i < s.len() && s[i] == ':') {
        None
    } else {
        let i = colon_index(s);
        if exists|j: int| i < j < s.len() && s[j] == ':' {
            None
        } else {
            let hp = spec_parse_num(s.take(i));
            let mp = spec_parse_num(s.skip(i + 1));
            if hp matches Some(h) && 0 <= h <= 23 && (mp matches Some(m) && 0 <= m <= 59) {
                Some((hp.unwrap() as u8, mp.unwrap() as u8))
            } else {
                None
            }
        }
    }
}

/// The first index of `:` in `s`.
pub open spec fn colon_index(s: Seq<char>) -> int {
    choose|i: int| 0 <= i < s.len() && s[i] == ':' && forall|j: int|
        0 <= j < i ==> #[trigger] s[j] != ':'
}

/// Parse a time such as `09:00` into hour and minute.
///
/// The string must be two `:`-separated decimal fields with the hour at
/// most 23 and the minute at most 59; the error text names what failed.
pub fn parse_time(s: &str) -> (r: Result<(u8, u8), String>)
    ensures
        r matches Ok(t) ==> spec_parse_time(s@) == Some(t),
        spec_parse_time(s@) matches Some(t) ==> r == Ok::<(u8, u8), String>(t),
{
    let n = s.unicode_len();
    let mut colon: Option<usize> = None;
    let mut second_colon = false;
    let mut i: usize = 0;
    while i < n
        invariant
            n == s@.len(),
            i <= n,
            match colon {
                Some(ci) => ci < i <= n && s@[ci as int] == ':' && (forall|j: int|
                    0 <= j < ci ==> #[trigger] s@[j] != ':') && (second_colon <==> exists|j: int|
                    ci < j < i && s@[j] == ':'),
                None => !second_colon && forall|j: int| 0 <= j < i ==> #[trigger] s@[j] != ':',
            },
        decreases n - i,
    {
        if s.get_char(i) == ':' {
            match colon {
                Some(_) => {
                    second_colon = true;
                },
                None => {
                    colon = Some(i);
                },
            }
        }
        i = i + 1;
    }
    let ci = match colon {
        Some(ci) => ci,
        None => {
            let mut m = "Invalid time format: ".to_owned();
            m.append(s);
            m.append(". Expected HH:MM");
            proof {
                assert(spec_parse_time(s@) is None);
            }
            return Err(m);
        },
    };
    if second_colon {
        let mut m = "Invalid time format: ".to_owned();
        m.append(s);
        m.append(". Expected HH:MM");
        proof {
            assert(colon_index(s@) == ci as int);
            assert(spec_parse_time(s@) is None);
        }
        return Err(m);
    }
    proof {
        assert(colon_index(s@) == ci as int);
    }
    let hour_part = s.substring_char(0, ci);
    let minute_part = s.substring_char(ci + 1, n);
    proof {
        assert(hour_part@ =~= s@.take(ci as int));
        assert(minute_part@ =~= s@.skip(ci as int + 1));
    }
    let hour = match parse_num(hour_part, 23) {
        Some(h) => h,
        None => {
            let mut m = "Invalid hour: ".to_owned();
            m.append(hour_part);
            return Err(m);
        },
    };
    let minute = match parse_num(minute_part, 59) {
        Some(v) => v,
        None => {
            let mut m = "Invalid minute: ".to_owned();
            m.append(minute_part);
            return Err(m);
        },
    };
    proof {
        if spec_parse_num(hour_part@) is Some {
            lemma_num_val_nonneg(hour_part@);
        }
        if spec_parse_num(minute_part@) is Some {
            lemma_num_val_nonneg(minute_part@);
        }
    }
    Ok((hour as u8, minute as u8))
}

} // verus!
