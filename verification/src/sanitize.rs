//! Content hygiene for prompt-injection defence.
//!
//! Tool output and external content pass through here before reaching
//! the agent: known injection markers are blanked out, suspicious
//! phrasings are flagged, long content is cut with a notice, and the
//! result is wrapped in delimiters that mark it as data.

use vstd::prelude::*;
use vstd::string::StringSliceAdditionalSpecFns;

use crate::text::{spec_dec, u64_to_dec};

verus! {

/// Opens a block of tool output.
pub const TOOL_OUTPUT_START: &'static str = "<tool_output>";

/// Closes a block of tool output.
pub const TOOL_OUTPUT_END: &'static str = "</tool_output>";

/// Opens a block of memory content.
pub const MEMORY_CONTENT_START: &'static str = "<memory_context>";

/// Closes a block of memory content.
pub const MEMORY_CONTENT_END: &'static str = "</memory_context>";

/// Opens a block of external content.
pub const EXTERNAL_CONTENT_START: &'static str = "<external_content>";

/// Closes a block of external content.
pub const EXTERNAL_CONTENT_END: &'static str = "</external_content>";

// ─── Case-insensitive literal replacement ────────────────────────────

/// ASCII lower case of one character.
pub open spec fn ascii_lower(c: char) -> char {
    if 'A' <= c && c <= 'Z' {
        ((c as u8) + 32) as char
    } else {
        c
    }
}

/// Whether `pat` matches at the start of `s`, ignoring ASCII case.
pub open spec fn matches_at(s: Seq<char>, pat: Seq<char>) -> bool {
    s.len() >= pat.len() && forall|i: int|
        0 <= i < pat.len() ==> ascii_lower(#[trigger] s[i]) == ascii_lower(pat[i])
}

/// `s` with every occurrence of `pat` replaced by `rep`, scanning left
/// to right without overlap, ignoring ASCII case.
pub open spec fn spec_replace_ci(s: Seq<char>, pat: Seq<char>, rep: Seq<char>) -> Seq<char>
    decreases s.len(),
    when pat.len() > 0
{
    if s.len() == 0 {
        s
    } else if matches_at(s, pat) {
        rep + spec_replace_ci(s.skip(pat.len() as int), pat, rep)
    } else {
        seq![s[0]] + spec_replace_ci(s.drop_first(), pat, rep)
    }
}

fn ascii_lower_exec(c: char) -> (r: char)
    ensures
        r == ascii_lower(c),
{
    if 'A' <= c && c <= 'Z' {
        ((c as u8) + 32) as char
    } else {
        c
    }
}

/// Replace every occurrence of `pat` in `s` by `rep`, scanning left to
/// right without overlap, ignoring ASCII case.
fn replace_ci(s: &str, pat: &str, rep: &str) -> (r: String)
    requires
        pat@.len() > 0,
    ensures
        r@ == spec_replace_ci(s@, pat@, rep@),
{
    let n = s.unicode_len();
    let m = pat.unicode_len();
    let mut out = String::new();
    let mut i: usize = 0;
    proof {
        assert(s@.skip(0) =~= s@);
        assert(out@ + spec_replace_ci(s@.skip(0), pat@, rep@) =~= spec_replace_ci(
            s@,
            pat@,
            rep@,
        ));
    }
    while i < n
        invariant
            n == s@.len(),
            m == pat@.len(),
            0 < m,
            i <= n,
            out@ + spec_replace_ci(s@.skip(i as int), pat@, rep@) == spec_replace_ci(
                s@,
                pat@,
                rep@,
            ),
        decreases n - i,
    {
        let mut is_match = m <= n - i;
        let mut j: usize = 0;
        while is_match && j < m
            invariant
                n == s@.len(),
                m == pat@.len(),
                i < n,
                j <= m,
                is_match ==> i + m <= n && forall|k: int|
                    0 <= k < j ==> ascii_lower(#[trigger] s@[i + k]) == ascii_lower(pat@[k]),
                !is_match ==> i + m > n || exists|k: int|
                    0 <= k < m && ascii_lower(#[trigger] s@[i + k]) != ascii_lower(pat@[k]),
            decreases m - j + if is_match {
                1int
            } else {
                0int
            },
        {
            if ascii_lower_exec(s.get_char(i + j)) != ascii_lower_exec(pat.get_char(j)) {
                proof {
                    assert(ascii_lower(s@[i + j]) != ascii_lower(pat@[j as int]));
                }
                is_match = false;
            } else {
                j = j + 1;
            }
        }
        let ghost rest = s@.skip(i as int);
        if is_match {
            proof {
                assert(matches_at(rest, pat@)) by {
                    assert(forall|k: int| 0 <= k < m ==> rest[k] == s@[i + k]);
                }
            }
            out.append(rep);
            proof {
                assert(rest.skip(m as int) =~= s@.skip(i + m));
            }
            i = i + m;
        } else {
            proof {
                assert(!matches_at(rest, pat@)) by {
                    if i + m <= n {
                        let k = choose|k: int|
                            0 <= k < m && ascii_lower(#[trigger] s@[i + k]) != ascii_lower(
                                pat@[k],
                            );
                        assert(rest[k] == s@[i + k]);
                    } else {
                        assert(rest.len() < m);
                    }
                }
            }
            let piece = s.substring_char(i, i + 1);
            out.append(piece);
            proof {
                assert(rest.drop_first() =~= s@.skip(i + 1));
                assert(piece@ =~= seq![rest[0]]);
            }
            i = i + 1;
        }
    }
    proof {
        assert(s@.skip(n as int) =~= Seq::<char>::empty());
        assert(out@ + Seq::<char>::empty() =~= out@);
    }
    out
}

/// The marker written over a stripped injection pattern.
pub open spec fn filtered_marker() -> Seq<char> {
    "[FILTERED]"@
}

/// `s` with each known injection marker blanked out, one pattern after
/// the other.
pub open spec fn spec_sanitized(s: Seq<char>) -> Seq<char> {
    let f = filtered_marker();
    spec_replace_ci(
        spec_replace_ci(
            spec_replace_ci(
                spec_replace_ci(
                    spec_replace_ci(
                        spec_replace_ci(
                            spec_replace_ci(
                                spec_replace_ci(
                                    spec_replace_ci(
                                        spec_replace_ci(
                                            spec_replace_ci(s, "<system>"@, f),
                                            "</system>"@,
                                            f,
                                        ),
                                        "<|system|>"@,
                                        f,
                                    ),
                                    "<|im_start|>system"@,
                                    f,
                                ),
                                "<|im_end|>"@,
                                f,
                            ),
                            "<<SYS>>"@,
                            f,
                        ),
                        "<</SYS>>"@,
                        f,
                    ),
                    "[INST]"@,
                    f,
                ),
                "[/INST]"@,
                f,
            ),
            "<s>"@,
            f,
        ),
        "</s>"@,
        f,
    )
}

/// Blank out the known injection markers, ignoring ASCII case.
pub fn sanitize_tool_output(output: &str) -> (r: String)
    ensures
        r@ == spec_sanitized(output@),
{
    proof {
        reveal_strlit("<system>");
        reveal_strlit("</system>");
        reveal_strlit("<|system|>");
        reveal_strlit("<|im_start|>system");
        reveal_strlit("<|im_end|>");
        reveal_strlit("<<SYS>>");
        reveal_strlit("<</SYS>>");
        reveal_strlit("[INST]");
        reveal_strlit("[/INST]");
        reveal_strlit("<s>");
        reveal_strlit("</s>");
    }
    let r0 = replace_ci(output, "<system>", "[FILTERED]");
    let r1 = replace_ci(r0.as_str(), "</system>", "[FILTERED]");
    let r2 = replace_ci(r1.as_str(), "<|system|>", "[FILTERED]");
    let r3 = replace_ci(r2.as_str(), "<|im_start|>system", "[FILTERED]");
    let r4 = replace_ci(r3.as_str(), "<|im_end|>", "[FILTERED]");
    let r5 = replace_ci(r4.as_str(), "<<SYS>>", "[FILTERED]");
    let r6 = replace_ci(r5.as_str(), "<</SYS>>", "[FILTERED]");
    let r7 = replace_ci(r6.as_str(), "[INST]", "[FILTERED]");
    let r8 = replace_ci(r7.as_str(), "[/INST]", "[FILTERED]");
    let r9 = replace_ci(r8.as_str(), "<s>", "[FILTERED]");
    let r10 = replace_ci(r9.as_str(), "</s>", "[FILTERED]");
    r10
}

// ─── Suspicious-pattern detection ────────────────────────────────────

/// Whether this regular expression matches this text; fixed by the two
/// strings alone.
pub uninterp spec fn regex_match_of(pattern: Seq<char>, text: Seq<char>) -> bool;

/// Relies on regex's `Regex::is_match`: whether a pattern matches a text
/// depends on the two strings alone. A pattern that does not parse
/// matches nothing.
#[verifier::external_body]
fn regex_is_match(pattern: &str, text: &str) -> (r: bool)
    ensures
        r == regex_match_of(pattern@, text@),
{
    match regex::Regex::new(pattern) {
        Ok(re) => re.is_match(text),
        Err(_) => false,
    }
}

/// The warning labels raised for `content`, in a fixed order.
pub open spec fn spec_detected(content: Seq<char>) -> Seq<Seq<char>> {
    flag(content, "(?i)ignore\\s+(all\\s+)?(previous|prior|above)\\s+(instructions?|prompts?)"@, "ignore previous instructions"@)
        + flag(content, "(?i)disregard\\s+(all\\s+)?(previous|prior|above)"@, "disregard previous"@)
        + flag(content, "(?i)forget\\s+(everything|all|your)\\s+(instructions?|rules?)"@, "forget instructions"@)
        + flag(content, "(?i)you\\s+are\\s+now\\s+(a|an)\\s+"@, "role reassignment"@)
        + flag(content, "(?i)new\\s+instructions?:"@, "new instructions"@)
        + flag(content, "(?i)system\\s*:?\\s*(prompt|override|command)"@, "system override"@)
        + flag(content, "(?i)act\\s+as\\s+(if\\s+)?(you|a|an)\\s+"@, "act as"@)
        + flag(content, "(?i)pretend\\s+(to\\s+be|you\\s+are)"@, "pretend to be"@)
        + flag(content, "(?i)from\\s+now\\s+on\\s+(you|ignore|forget)"@, "from now on"@)
        + flag(content, "(?i)bypass\\s+(your\\s+)?(safety|rules?|restrictions?)"@, "bypass safety"@)
}

/// The label, when its pattern matches.
pub open spec fn flag(content: Seq<char>, pattern: Seq<char>, label: Seq<char>) -> Seq<Seq<char>> {
    if regex_match_of(pattern, content) {
        seq![label]
    } else {
        Seq::empty()
    }
}

/// Run one detection pattern and collect its label on a match.
fn detect_one(out: &mut Vec<String>, content: &str, pattern: &str, label: &str)
    ensures
        final(out)@.map_values(|s: String| s@) == old(out)@.map_values(|s: String| s@) + flag(
            content@,
            pattern@,
            label@,
        ),
{
    let ghost f = |s: String| s@;
    if regex_is_match(pattern, content) {
        out.push(label.to_owned());
        proof {
            assert(out@.map_values(f) =~= old(out)@.map_values(f).push(label@));
            assert(out@.map_values(f) =~= old(out)@.map_values(f) + flag(
                content@,
                pattern@,
                label@,
            ));
        }
    } else {
        proof {
            assert(out@.map_values(f) =~= old(out)@.map_values(f) + flag(
                content@,
                pattern@,
                label@,
            ));
        }
    }
}

/// Flag suspicious phrasings for review; nothing is blocked.
pub fn detect_suspicious_patterns(content: &str) -> (r: Vec<String>)
    ensures
        r@.map_values(|s: String| s@) == spec_detected(content@),
{
    let mut out: Vec<String> = Vec::new();
    proof {
        assert(out@.map_values(|s: String| s@) =~= Seq::<Seq<char>>::empty());
    }
    detect_one(
        &mut out,
        content,
        "(?i)ignore\\s+(all\\s+)?(previous|prior|above)\\s+(instructions?|prompts?)",
        "ignore previous instructions",
    );
    detect_one(&mut out, content, "(?i)disregard\\s+(all\\s+)?(previous|prior|above)", "disregard previous");
    detect_one(
        &mut out,
        content,
        "(?i)forget\\s+(everything|all|your)\\s+(instructions?|rules?)",
        "forget instructions",
    );
    detect_one(&mut out, content, "(?i)you\\s+are\\s+now\\s+(a|an)\\s+", "role reassignment");
    detect_one(&mut out, content, "(?i)new\\s+instructions?:", "new instructions");
    detect_one(&mut out, content, "(?i)system\\s*:?\\s*(prompt|override|command)", "system override");
    detect_one(&mut out, content, "(?i)act\\s+as\\s+(if\\s+)?(you|a|an)\\s+", "act as");
    detect_one(&mut out, content, "(?i)pretend\\s+(to\\s+be|you\\s+are)", "pretend to be");
    detect_one(&mut out, content, "(?i)from\\s+now\\s+on\\s+(you|ignore|forget)", "from now on");
    detect_one(&mut out, content, "(?i)bypass\\s+(your\\s+)?(safety|rules?|restrictions?)", "bypass safety");
    proof {
        assert(out@.map_values(|s: String| s@) =~= spec_detected(content@));
    }
    out
}

// ─── Truncation ──────────────────────────────────────────────────────

/// The byte length of text, as the machine measures it.
pub open spec fn byte_len(s: Seq<char>) -> usize {
    vstd::utf8::encode_utf8(s).len() as usize
}

/// The notice appended after `truncated`, naming the bytes left out.
pub open spec fn spec_notice(remaining: nat) -> Seq<char> {
    "\n\n[...truncated "@ + spec_dec(remaining)
        + " characters. Use read_file with offset to see more.]"@
}

/// Cut `content` to at most `max_chars` characters, appending a notice
/// with how many bytes were dropped; a zero budget means no limit. The
/// budget is compared against the byte length.
pub fn truncate_with_notice(content: &str, max_chars: usize) -> (r: (String, bool))
    ensures
        max_chars == 0 || byte_len(content@) <= max_chars ==> r.0@ == content@ && r.1 == false,
        !(max_chars == 0 || byte_len(content@) <= max_chars) ==> {
            let cut = if max_chars <= content@.len() {
                max_chars as int
            } else {
                content@.len() as int
            };
            &&& r.1 == true
            &&& r.0@ == content@.take(cut) + spec_notice(byte_len(content@.skip(cut)) as nat)
        },
{
    if max_chars == 0 || content.len() <= max_chars {
        return (content.to_owned(), false);
    }
    let n = content.unicode_len();
    let cut = if max_chars <= n {
        max_chars
    } else {
        n
    };
    let truncated = content.substring_char(0, cut);
    let tail = content.substring_char(cut, n);
    proof {
        assert(truncated@ =~= content@.take(cut as int));
        assert(tail@ =~= content@.skip(cut as int));
    }
    let remaining = tail.len();
    let mut out = truncated.to_owned();
    out.append("\n\n[...truncated ");
    let d = u64_to_dec(remaining as u64);
    out.append(d.as_str());
    out.append(" characters. Use read_file with offset to see more.]");
    proof {
        assert(out@ =~= truncated@ + spec_notice(remaining as nat));
    }
    (out, true)
}

// ─── Wrapping ────────────────────────────────────────────────────────

/// Where a piece of memory content came from.
#[derive(Debug, Clone, Copy, PartialEq, Eq, Structural)]
pub enum MemorySource {
    Identity,
    User,
    Soul,
    Agents,
    Tools,
    Memory,
    DailyLog,
    Heartbeat,
    Other,
}

impl MemorySource {
    /// The heading written for this source.
    pub fn label(&self) -> (r: &'static str)
        ensures
            r@ == spec_source_label(*self),
    {
        match self {
            MemorySource::Identity => "Identity",
            MemorySource::User => "User Info",
            MemorySource::Soul => "Soul/Persona",
            MemorySource::Agents => "Available Agents",
            MemorySource::Tools => "Tool Notes",
            MemorySource::Memory => "Long-term Memory",
            MemorySource::DailyLog => "Daily Log",
            MemorySource::Heartbeat => "Pending Tasks",
            MemorySource::Other => "Context",
        }
    }
}

/// The heading for each memory source.
pub open spec fn spec_source_label(s: MemorySource) -> Seq<char> {
    match s {
        MemorySource::Identity => "Identity"@,
        MemorySource::User => "User Info"@,
        MemorySource::Soul => "Soul/Persona"@,
        MemorySource::Agents => "Available Agents"@,
        MemorySource::Tools => "Tool Notes"@,
        MemorySource::Memory => "Long-term Memory"@,
        MemorySource::DailyLog => "Daily Log"@,
        MemorySource::Heartbeat => "Pending Tasks"@,
        MemorySource::Other => "Context"@,
    }
}

/// Sanitised, flagged, possibly truncated content with its wrapping.
#[derive(Debug, Clone)]
pub struct SanitizeResult {
    pub content: String,
    pub warnings: Vec<String>,
    pub was_truncated: bool,
}

/// The body a wrap produces: the sanitised content, truncated to the
/// budget when one is given.
pub open spec fn spec_wrapped_body(s: Seq<char>, max_length: Option<usize>) -> Seq<char> {
    match max_length {
        Some(max) => {
            if max == 0 || byte_len(s) <= max {
                s
            } else {
                let cut = if max <= s.len() {
                    max as int
                } else {
                    s.len() as int
                };
                s.take(cut) + spec_notice(byte_len(s.skip(cut)) as nat)
            }
        },
        None => s,
    }
}

/// Whether a wrap with this budget cuts content of this size.
pub open spec fn spec_was_truncated(s: Seq<char>, max_length: Option<usize>) -> bool {
    match max_length {
        Some(max) => !(max == 0 || byte_len(s) <= max),
        None => false,
    }
}

/// Sanitise tool output, flag it, cut it to the budget, and wrap it in
/// tool-output delimiters naming the tool.
pub fn wrap_tool_output(tool_name: &str, output: &str, max_length: Option<usize>) -> (r:
    SanitizeResult)
    ensures
        r.warnings@.map_values(|s: String| s@) == spec_detected(spec_sanitized(output@)),
        r.content@ == "<tool_output>"@ + "\n<!-- tool: "@ + tool_name@ + " -->\n"@
            + spec_wrapped_body(spec_sanitized(output@), max_length) + "\n"@ + "</tool_output>"@,
        r.was_truncated == spec_was_truncated(spec_sanitized(output@), max_length),
{
    let sanitized = sanitize_tool_output(output);
    let warnings = detect_suspicious_patterns(sanitized.as_str());
    let (content, was_truncated) = match max_length {
        Some(max) => truncate_with_notice(sanitized.as_str(), max),
        None => (sanitized.clone(), false),
    };
    let mut wrapped = String::new();
    wrapped.append(TOOL_OUTPUT_START);
    wrapped.append("\n<!-- tool: ");
    wrapped.append(tool_name);
    wrapped.append(" -->\n");
    wrapped.append(content.as_str());
    wrapped.append("\n");
    wrapped.append(TOOL_OUTPUT_END);
    proof {
        reveal_strlit("<tool_output>");
        reveal_strlit("</tool_output>");
        assert(wrapped@ =~= "<tool_output>"@ + "\n<!-- tool: "@ + tool_name@ + " -->\n"@
            + spec_wrapped_body(spec_sanitized(output@), max_length) + "\n"@
            + "</tool_output>"@);
    }
    SanitizeResult { content: wrapped, warnings, was_truncated }
}

/// Wrap trusted memory content in memory delimiters with its source
/// heading; no sanitisation is applied.
pub fn wrap_memory_content(file_name: &str, content: &str, source: MemorySource) -> (r: String)
    ensures
        r@ == "<memory_context>"@ + "\n<!-- "@ + spec_source_label(source) + " ("@ + file_name@
            + ") -->\n"@ + content@ + "\n"@ + "</memory_context>"@,
{
    let mut wrapped = String::new();
    wrapped.append(MEMORY_CONTENT_START);
    wrapped.append("\n<!-- ");
    wrapped.append(source.label());
    wrapped.append(" (");
    wrapped.append(file_name);
    wrapped.append(") -->\n");
    wrapped.append(content);
    wrapped.append("\n");
    wrapped.append(MEMORY_CONTENT_END);
    proof {
        reveal_strlit("<memory_context>");
        reveal_strlit("</memory_context>");
        assert(wrapped@ =~= "<memory_context>"@ + "\n<!-- "@ + spec_source_label(source) + " ("@
            + file_name@ + ") -->\n"@ + content@ + "\n"@ + "</memory_context>"@);
    }
    wrapped
}

/// Sanitise external content, flag it, cut it to the budget, and wrap it
/// in external-content delimiters naming the source.
pub fn wrap_external_content(url: &str, content: &str, max_length: Option<usize>) -> (r:
    SanitizeResult)
    ensures
        r.warnings@.map_values(|s: String| s@) == spec_detected(spec_sanitized(content@)),
        r.content@ == "<external_content>"@ + "\n<!-- source: "@ + url@ + " -->\n"@
            + spec_wrapped_body(spec_sanitized(content@), max_length) + "\n"@
            + "</external_content>"@,
        r.was_truncated == spec_was_truncated(spec_sanitized(content@), max_length),
{
    let sanitized = sanitize_tool_output(content);
    let warnings = detect_suspicious_patterns(sanitized.as_str());
    let (body, was_truncated) = match max_length {
        Some(max) => truncate_with_notice(sanitized.as_str(), max),
        None => (sanitized.clone(), false),
    };
    let mut wrapped = String::new();
    wrapped.append(EXTERNAL_CONTENT_START);
    wrapped.append("\n<!-- source: ");
    wrapped.append(url);
    wrapped.append(" -->\n");
    wrapped.append(body.as_str());
    wrapped.append("\n");
    wrapped.append(EXTERNAL_CONTENT_END);
    proof {
        reveal_strlit("<external_content>");
        reveal_strlit("</external_content>");
        assert(wrapped@ =~= "<external_content>"@ + "\n<!-- source: "@ + url@ + " -->\n"@
            + spec_wrapped_body(spec_sanitized(content@), max_length) + "\n"@
            + "</external_content>"@);
    }
    SanitizeResult { content: wrapped, warnings, was_truncated }
}

} // verus!
