//! CTC-style decoding helpers and vocabulary parsing for ONNX speech
//! models.
//!
//! A model emits one token id per frame; decoding collapses repeats,
//! drops the blank (id zero), maps the rest through the alphabet — with
//! `|` standing for a space in some alphabets — and normalizes blank
//! space. The vocabulary may be a JSON array of strings, a JSON object
//! carrying a `labels` or `tokens` array, or plain newline-delimited
//! tokens; JSON is read through `serde_json`.

use vstd::prelude::*;

use crate::error::Error;
use crate::opts::{
    is_space_char, lemma_trim_front_at, spec_is_space, spec_trim, spec_trim_front,
};

verus! {

/// Decoder strategy used to turn frame-level model output into tokens.
#[derive(Debug, Clone, Copy, PartialEq, Eq, Structural)]
pub enum SileroDecoder {
    /// Per-frame argmax with CTC collapse.
    Greedy,
    /// Prefix beam search over per-frame shortlists.
    BeamSearch,
}

#[verifier::external_type_specification]
#[verifier::external_body]
pub struct ExValue(serde_json::Value);

/// Relies on `serde_json::from_str::<Value>`: parses a JSON document,
/// `None` when the text is not valid JSON.
#[verifier::external_body]
fn json_parse(s: &str) -> (r: Option<serde_json::Value>)
{
    serde_json::from_str(s).ok()
}

/// Relies on `serde_json::Value::as_array`: the element vector when the
/// value is an array, `None` otherwise.
#[verifier::external_body]
fn json_as_array(v: &serde_json::Value) -> (r: Option<&Vec<serde_json::Value>>)
{
    v.as_array()
}

/// Relies on `serde_json::Value::get`: the member of an object under a
/// key, `None` when absent or not an object.
#[verifier::external_body]
fn json_get<'a>(v: &'a serde_json::Value, key: &str) -> (r: Option<&'a serde_json::Value>)
{
    v.get(key)
}

/// Relies on `serde_json::Value::as_str`: the string slice when the
/// value is a string, `None` otherwise.
#[verifier::external_body]
fn json_as_str(v: &serde_json::Value) -> (r: Option<&str>)
{
    v.as_str()
}

/// Finish one vocabulary line: trim it and keep it only when something
/// remains.
pub open spec fn spec_finish_line(out: Seq<Seq<char>>, cur: Seq<char>) -> Seq<Seq<char>> {
    let t = spec_trim(cur);
    if t.len() > 0 {
        out.push(t)
    } else {
        out
    }
}

/// Scan a vocabulary text: the finished lines so far and the line being
/// read.
pub open spec fn spec_vocab_scan(s: Seq<char>) -> (Seq<Seq<char>>, Seq<char>)
    decreases s.len(),
{
    if s.len() == 0 {
        (Seq::empty(), Seq::empty())
    } else {
        let (out, cur) = spec_vocab_scan(s.drop_last());
        if s.last() == '\n' {
            (spec_finish_line(out, cur), Seq::empty())
        } else {
            (out, cur.push(s.last()))
        }
    }
}

/// The tokens of a newline-delimited vocabulary text: every line,
/// trimmed, blank lines dropped.
pub open spec fn spec_vocab_lines(s: Seq<char>) -> Seq<Seq<char>> {
    let (out, cur) = spec_vocab_scan(s);
    spec_finish_line(out, cur)
}

/// Whether a vocabulary text looks like a JSON document: its first
/// non-blank character is `[` or `{`.
pub open spec fn spec_looks_like_json(s: Seq<char>) -> bool {
    let t = spec_trim_front(s);
    t.len() > 0 && (t[0] == '[' || t[0] == '{')
}

/// Trim blank space from both ends of a character buffer.
pub(crate) fn trim_chars(v: &Vec<char>) -> (r: Vec<char>)
    ensures
        r@ == spec_trim(v@),
{
    let n: usize = v.len();
    let mut start: usize = 0;
    while start < n && is_space_char(v[start])
        invariant
            n == v@.len(),
            0 <= start <= n,
            forall|j: int| 0 <= j < start ==> spec_is_space(#[trigger] v@[j]),
        decreases n - start,
    {
        start = start + 1;
    }
    let mut end: usize = n;
    while end > start && is_space_char(v[end - 1])
        invariant
            n == v@.len(),
            0 <= start <= end <= n,
            forall|j: int| 0 <= j < start ==> spec_is_space(#[trigger] v@[j]),
            forall|j: int| end <= j < n ==> spec_is_space(#[trigger] v@[j]),
        decreases end,
    {
        end = end - 1;
    }
    proof {
        lemma_trim_front_at(v@, start as int);
        let t = v@.subrange(start as int, n as int);
        crate::opts::lemma_trim_back_at(t, end - start);
        assert(t.subrange(0, end - start) =~= v@.subrange(start as int, end as int));
    }
    let mut out: Vec<char> = Vec::new();
    let mut i: usize = start;
    while i < end
        invariant
            n == v@.len(),
            0 <= start <= i <= end <= n,
            out@ =~= v@.subrange(start as int, i as int),
        decreases end - i,
    {
        out.push(v[i]);
        proof {
            assert(v@.subrange(start as int, i + 1) =~= v@.subrange(start as int, i as int).push(
                v@[i as int],
            ));
        }
        i = i + 1;
    }
    proof {
        assert(out@ =~= spec_trim(v@));
    }
    out
}

/// The tokens of a newline-delimited vocabulary text.
fn vocab_lines(s: &str) -> (r: Vec<String>)
    ensures
        r@.map_values(|t: String| t@) == spec_vocab_lines(s@),
{
    let n: usize = s.unicode_len();
    let mut out: Vec<String> = Vec::new();
    let mut cur: Vec<char> = Vec::new();
    let mut i: usize = 0;
    while i < n
        invariant
            n == s@.len(),
            0 <= i <= n,
            out@.map_values(|t: String| t@) == spec_vocab_scan(s@.subrange(0, i as int)).0,
            cur@ == spec_vocab_scan(s@.subrange(0, i as int)).1,
        decreases n - i,
    {
        let c = s.get_char(i);
        proof {
            assert(s@.subrange(0, i + 1).drop_last() =~= s@.subrange(0, i as int));
            assert(s@.subrange(0, i + 1).last() == s@[i as int]);
        }
        if c == '\n' {
            let t = trim_chars(&cur);
            if t.len() > 0 {
                out.push(crate::textfmt::chars_to_string(&t));
                proof {
                    assert(out@.map_values(|t: String| t@) =~= spec_vocab_scan(
                        s@.subrange(0, i + 1),
                    ).0);
                }
            }
            cur.clear();
        } else {
            cur.push(c);
        }
        i = i + 1;
    }
    proof {
        assert(s@.subrange(0, n as int) =~= s@);
    }
    let t = trim_chars(&cur);
    if t.len() > 0 {
        out.push(crate::textfmt::chars_to_string(&t));
        proof {
            assert(out@.map_values(|t: String| t@) =~= spec_vocab_lines(s@));
        }
    }
    out
}

/// The strings among a parsed JSON array's elements, in order.
fn collect_strings(arr: &Vec<serde_json::Value>) -> (r: Vec<String>)
{
    let mut out: Vec<String> = Vec::new();
    let mut i: usize = 0;
    while i < arr.len()
        decreases arr@.len() - i,
    {
        match json_as_str(&arr[i]) {
            Some(t) => {
                out.push(String::from_str(t));
            },
            None => {},
        }
        i = i + 1;
    }
    out
}

/// Parse a vocabulary text into its token strings.
///
/// A text whose first non-blank character opens a JSON array or object is
/// parsed as JSON: an array keeps its string elements; an object
/// contributes its `labels` or `tokens` array. Anything else — including
/// text that fails to parse as JSON — is read as newline-delimited
/// tokens, one per line, trimmed, blank lines dropped.
pub fn parse_vocab_text(s: &str) -> (r: Result<Vec<String>, Error>)
    ensures
        r is Ok,
        !spec_looks_like_json(s@) ==> (r matches Ok(v) && v@.map_values(|t: String| t@)
            == spec_vocab_lines(s@)),
{
    let n: usize = s.unicode_len();
    let mut i: usize = 0;
    while i < n && is_space_char(s.get_char(i))
        invariant
            n == s@.len(),
            0 <= i <= n,
            forall|j: int| 0 <= j < i ==> spec_is_space(#[trigger] s@[j]),
        decreases n - i,
    {
        i = i + 1;
    }
    proof {
        lemma_trim_front_at(s@, i as int);
    }
    let looks_json: bool = i < n && (s.get_char(i) == '[' || s.get_char(i) == '{');
    if looks_json {
        let tail = s.substring_char(i, n);
        match json_parse(tail) {
            Some(v) => {
                match json_as_array(&v) {
                    Some(arr) => {
                        return Ok(collect_strings(arr));
                    },
                    None => {},
                }
                match json_get(&v, "labels") {
                    Some(m) => match json_as_array(m) {
                        Some(arr) => {
                            return Ok(collect_strings(arr));
                        },
                        None => {},
                    },
                    None => {},
                }
                match json_get(&v, "tokens") {
                    Some(m) => match json_as_array(m) {
                        Some(arr) => {
                            return Ok(collect_strings(arr));
                        },
                        None => {},
                    },
                    None => {},
                }
            },
            None => {},
        }
    }
    Ok(vocab_lines(s))
}

/// What one alphabet token contributes to decoded text: `|` stands for a
/// space in some alphabets.
pub open spec fn spec_token_chars(t: Seq<char>) -> Seq<char> {
    if t == seq!['|'] {
        " "@
    } else {
        t
    }
}

/// Append one alphabet token to decoded text.
pub fn push_token(out: &mut String, token: &str)
    ensures
        final(out)@ == old(out)@ + spec_token_chars(token@),
{
    let is_bar: bool = token.unicode_len() == 1 && token.get_char(0) == '|';
    if is_bar {
        proof {
            assert(token@ =~= seq!['|']);
        }
        out.append(" ");
    } else {
        proof {
            if token@ == seq!['|'] {
                assert(token@.len() == 1 && token@[0] == '|');
            }
        }
        out.append(token);
    }
}

/// Scan of text normalization: the kept characters so far and whether
/// blank space is pending between them and whatever follows.
pub open spec fn spec_norm_scan(s: Seq<char>) -> (Seq<char>, bool)
    decreases s.len(),
{
    if s.len() == 0 {
        (Seq::empty(), false)
    } else {
        let (out, pending) = spec_norm_scan(s.drop_last());
        let c = s.last();
        if spec_is_space(c) {
            (out, true)
        } else {
            if pending && out.len() > 0 {
                (out.push(' ').push(c), false)
            } else {
                (out.push(c), false)
            }
        }
    }
}

/// Text with every run of blank space collapsed to one space and the
/// ends trimmed.
pub open spec fn spec_normalize_text(s: Seq<char>) -> Seq<char> {
    spec_norm_scan(s).0
}

/// Collapse runs of blank space to single spaces and trim the ends.
pub fn normalize_text(s: String) -> (r: String)
    ensures
        r@ == spec_normalize_text(s@),
{
    let st = s.as_str();
    let n: usize = st.unicode_len();
    let mut out: Vec<char> = Vec::new();
    let mut pending: bool = false;
    let mut i: usize = 0;
    while i < n
        invariant
            n == st@.len(),
            st@ == s@,
            0 <= i <= n,
            out@ == spec_norm_scan(s@.subrange(0, i as int)).0,
            pending == spec_norm_scan(s@.subrange(0, i as int)).1,
        decreases n - i,
    {
        let c = st.get_char(i);
        proof {
            assert(s@.subrange(0, i + 1).drop_last() =~= s@.subrange(0, i as int));
            assert(s@.subrange(0, i + 1).last() == s@[i as int]);
        }
        if is_space_char(c) {
            pending = true;
        } else {
            if pending && out.len() > 0 {
                out.push(' ');
            }
            out.push(c);
            pending = false;
        }
        i = i + 1;
    }
    proof {
        assert(s@.subrange(0, n as int) =~= s@);
    }
    crate::textfmt::chars_to_string(&out)
}

/// Scan of CTC decoding: the previous frame id and the decoded text, or
/// `None` once an id is negative or an id that must be looked up lies
/// outside the alphabet.
pub open spec fn spec_ctc_scan(ids: Seq<i64>, alphabet: Seq<Seq<char>>) -> Option<
    (Option<i64>, Seq<char>),
>
    decreases ids.len(),
{
    if ids.len() == 0 {
        Some((None, Seq::empty()))
    } else {
        match spec_ctc_scan(ids.drop_last(), alphabet) {
            None => None,
            Some((prev, text)) => {
                let id = ids.last();
                if id < 0 {
                    None
                } else if prev == Some(id) {
                    Some((prev, text))
                } else if id == 0 {
                    Some((Some(id), text))
                } else if id >= alphabet.len() {
                    None
                } else {
                    Some((Some(id), text + spec_token_chars(alphabet[id as int])))
                }
            },
        }
    }
}

/// Decode frame-level token ids: collapse repeats, drop blanks (id
/// zero), map the rest through the alphabet, and normalize blank space.
///
/// Fails exactly when an id is negative, or an id that survives the
/// collapse lies outside the alphabet.
pub fn decode_token_ids(ids: &Vec<i64>, alphabet: &Vec<String>) -> (r: Result<String, Error>)
    ensures
        match spec_ctc_scan(ids@, alphabet@.map_values(|t: String| t@)) {
            Some((prev, text)) => r matches Ok(v) && v@ == spec_normalize_text(text),
            None => r is Err,
        },
{
    let ghost alpha = alphabet@.map_values(|t: String| t@);
    let mut out = String::from_str("");
    proof {
        reveal_strlit("");
        assert(out@ =~= Seq::<char>::empty());
        assert(ids@.subrange(0, 0) =~= Seq::<i64>::empty());
    }
    let mut prev: i64 = -1;
    let mut have_prev: bool = false;
    let mut i: usize = 0;
    while i < ids.len()
        invariant
            0 <= i <= ids@.len(),
            alpha == alphabet@.map_values(|t: String| t@),
            spec_ctc_scan(ids@.subrange(0, i as int), alpha) == Some(
                (
                    if have_prev {
                        Some(prev)
                    } else {
                        None
                    },
                    out@,
                ),
            ),
            have_prev ==> prev >= 0,
        decreases ids@.len() - i,
    {
        let id = ids[i];
        proof {
            assert(ids@.subrange(0, i + 1).drop_last() =~= ids@.subrange(0, i as int));
            assert(ids@.subrange(0, i + 1).last() == ids@[i as int]);
        }
        if id < 0 {
            proof {
                assert(spec_ctc_scan(ids@.subrange(0, i + 1), alpha) is None);
                lemma_ctc_scan_none_extends(ids@, alpha, i + 1);
            }
            return Err(Error::invalid_input(String::from_str(
                "token id did not fit into an index",
            )));
        }
        if have_prev && prev == id {
            i = i + 1;
            continue ;
        }
        prev = id;
        have_prev = true;
        if id == 0 {
            i = i + 1;
            continue ;
        }
        if id as u64 >= alphabet.len() as u64 {
            proof {
                assert(spec_ctc_scan(ids@.subrange(0, i + 1), alpha) is None);
                lemma_ctc_scan_none_extends(ids@, alpha, i + 1);
            }
            return Err(Error::invalid_input(String::from_str("token id out of alphabet range")));
        }
        push_token(&mut out, alphabet[id as usize].as_str());
        i = i + 1;
    }
    proof {
        assert(ids@.subrange(0, ids@.len() as int) =~= ids@);
    }
    Ok(normalize_text(out))
}

/// Once the scan fails on a prefix, it fails on the whole sequence.
proof fn lemma_ctc_scan_none_extends(ids: Seq<i64>, alphabet: Seq<Seq<char>>, i: int)
    requires
        0 <= i <= ids.len(),
        spec_ctc_scan(ids.subrange(0, i), alphabet) is None,
    ensures
        spec_ctc_scan(ids, alphabet) is None,
    decreases ids.len() - i,
{
    if i == ids.len() {
        assert(ids.subrange(0, i) =~= ids);
    } else {
        assert(ids.subrange(0, i + 1).drop_last() =~= ids.subrange(0, i));
        lemma_ctc_scan_none_extends(ids, alphabet, i + 1);
    }
}

/// The number of entries after the last occurrence of `boundary_id`, or
/// `None` when it never occurs.
pub open spec fn spec_last_boundary_age(p: Seq<usize>, boundary_id: usize) -> Option<int>
    decreases p.len(),
{
    if p.len() == 0 {
        None
    } else if p.last() == boundary_id {
        Some(0)
    } else {
        match spec_last_boundary_age(p.drop_last(), boundary_id) {
            None => None,
            Some(a) => Some(a + 1),
        }
    }
}

/// How many tokens ago the word boundary last appeared in a prefix.
pub fn last_boundary_age(prefix: &[usize], boundary_id: usize) -> (r: Option<usize>)
    ensures
        match r {
            Some(age) => Some(age as int) == spec_last_boundary_age(prefix@, boundary_id),
            None => spec_last_boundary_age(prefix@, boundary_id) is None,
        },
{
    let n: usize = prefix.len();
    let mut i: usize = n;
    while i > 0
        invariant
            n == prefix@.len(),
            0 <= i <= n,
            forall|j: int| i <= j < n ==> prefix@[j] != boundary_id,
        decreases i,
    {
        i = i - 1;
        if prefix[i] == boundary_id {
            proof {
                lemma_last_boundary_at(prefix@, boundary_id, i as int);
            }
            return Some(n - 1 - i);
        }
    }
    proof {
        lemma_no_boundary(prefix@, boundary_id);
    }
    None
}

/// When `p[i]` is the last occurrence of the boundary, the age is the
/// number of entries after `i`.
proof fn lemma_last_boundary_at(p: Seq<usize>, boundary_id: usize, i: int)
    requires
        0 <= i < p.len(),
        p[i] == boundary_id,
        forall|j: int| i < j < p.len() ==> p[j] != boundary_id,
    ensures
        spec_last_boundary_age(p, boundary_id) == Some(p.len() - 1 - i),
    decreases p.len(),
{
    if i == p.len() - 1 {
    } else {
        lemma_last_boundary_at(p.drop_last(), boundary_id, i);
    }
}

/// When the boundary never occurs, there is no age.
proof fn lemma_no_boundary(p: Seq<usize>, boundary_id: usize)
    requires
        forall|j: int| 0 <= j < p.len() ==> p[j] != boundary_id,
    ensures
        spec_last_boundary_age(p, boundary_id) is None,
    decreases p.len(),
{
    if p.len() > 0 {
        lemma_no_boundary(p.drop_last(), boundary_id);
    }
}

} // verus!
