//! Streaming JSON array encoder for transcription segments.
//!
//! The output is one JSON array of segment objects. The opening bracket is
//! deferred until the first write (or close), so a run with no segments
//! still closes to the valid document `[]`. Closing is idempotent, and a
//! write after close fails without touching the output.
//!
//! Timestamps are printed as seconds with two decimals (their exact
//! centisecond value); probabilities as fractions with six decimals (their
//! exact parts-per-million value).

use vstd::prelude::*;

use crate::error::Error;
use crate::segments::{Segment, Token};
use crate::textfmt::{push_decimal, push_digit, chars_to_string, spec_decimal, spec_digit};

verus! {

/// The hexadecimal digit character for `d` (which must be below sixteen).
pub open spec fn spec_hex_digit(d: int) -> char {
    if d < 10 {
        spec_digit(d)
    } else if d == 10 {
        'a'
    } else if d == 11 {
        'b'
    } else if d == 12 {
        'c'
    } else if d == 13 {
        'd'
    } else if d == 14 {
        'e'
    } else {
        'f'
    }
}

/// How one character is written inside a JSON string literal.
pub open spec fn spec_escape_char(c: char) -> Seq<char> {
    if c == '"' {
        seq!['\\', '"']
    } else if c == '\\' {
        seq!['\\', '\\']
    } else if c == '\n' {
        seq!['\\', 'n']
    } else if c == '\r' {
        seq!['\\', 'r']
    } else if c == '\t' {
        seq!['\\', 't']
    } else if (c as u32) < 32 {
        seq!['\\', 'u', '0', '0', spec_hex_digit((c as u32) as int / 16), spec_hex_digit(
            (c as u32) as int % 16,
        )]
    } else {
        seq![c]
    }
}

/// A string escaped for use inside a JSON string literal.
pub open spec fn spec_escape(s: Seq<char>) -> Seq<char>
    decreases s.len(),
{
    if s.len() == 0 {
        Seq::empty()
    } else {
        spec_escape(s.drop_last()) + spec_escape_char(s.last())
    }
}

/// A centisecond timestamp as a JSON number of seconds with two decimals.
pub open spec fn spec_seconds(cs: int) -> Seq<char> {
    spec_decimal(cs / 100) + seq!['.', spec_digit((cs / 10) % 10), spec_digit(cs % 10)]
}

/// A parts-per-million fraction as a JSON number with six decimals.
pub open spec fn spec_ppm_fraction(p: int) -> Seq<char> {
    spec_decimal(p / 1000000) + seq!['.', spec_digit((p / 100000) % 10), spec_digit(
        (p / 10000) % 10,
    ), spec_digit((p / 1000) % 10), spec_digit((p / 100) % 10), spec_digit((p / 10) % 10),
        spec_digit(p % 10)]
}

/// A boolean as a JSON literal.
pub open spec fn spec_json_bool(b: bool) -> Seq<char> {
    if b {
        "true"@
    } else {
        "false"@
    }
}

/// One token as a JSON object.
pub open spec fn spec_json_token(t: Token) -> Seq<char> {
    "{\"startSeconds\":"@ + spec_seconds(t.start_cs as int) + ",\"endSeconds\":"@ + spec_seconds(
        t.end_cs as int,
    ) + ",\"text\":\""@ + spec_escape(t.text@) + "\",\"probability\":"@ + spec_ppm_fraction(
        t.probability_ppm as int,
    ) + "}"@
}

/// The comma-separated token objects of a segment.
pub open spec fn spec_json_tokens(tokens: Seq<Token>) -> Seq<char>
    decreases tokens.len(),
{
    if tokens.len() == 0 {
        Seq::empty()
    } else if tokens.len() == 1 {
        spec_json_token(tokens[0])
    } else {
        spec_json_tokens(tokens.drop_last()) + ","@ + spec_json_token(tokens.last())
    }
}

/// One segment as a JSON object.
pub open spec fn spec_json_segment(s: Segment) -> Seq<char> {
    "{\"startSeconds\":"@ + spec_seconds(s.start_cs as int) + ",\"endSeconds\":"@ + spec_seconds(
        s.end_cs as int,
    ) + ",\"text\":\""@ + spec_escape(s.text@) + "\",\"tokens\":["@ + spec_json_tokens(s.tokens@)
        + "],\"languageCode\":\""@ + spec_escape(s.language_code@) + "\",\"nextSpeakerTurn\":"@
        + spec_json_bool(s.next_speaker_turn) + "}"@
}

/// The comma-separated segment objects of the array body.
pub open spec fn spec_json_items(segs: Seq<Segment>) -> Seq<char>
    decreases segs.len(),
{
    if segs.len() == 0 {
        Seq::empty()
    } else if segs.len() == 1 {
        spec_json_segment(segs[0])
    } else {
        spec_json_items(segs.drop_last()) + ","@ + spec_json_segment(segs.last())
    }
}

/// The closed JSON document for a sequence of segments.
pub open spec fn spec_json_doc(segs: Seq<Segment>) -> Seq<char> {
    "["@ + spec_json_items(segs) + "]"@
}

/// Append one character escaped for a JSON string literal.
fn push_escaped_char(out: &mut Vec<char>, c: char)
    ensures
        final(out)@ == old(out)@ + spec_escape_char(c),
{
    if c == '"' {
        out.push('\\');
        out.push('"');
    } else if c == '\\' {
        out.push('\\');
        out.push('\\');
    } else if c == '\n' {
        out.push('\\');
        out.push('n');
    } else if c == '\r' {
        out.push('\\');
        out.push('r');
    } else if c == '\t' {
        out.push('\\');
        out.push('t');
    } else if (c as u32) < 32 {
        out.push('\\');
        out.push('u');
        out.push('0');
        out.push('0');
        push_hex_digit(out, ((c as u32) / 16) as u64);
        push_hex_digit(out, ((c as u32) % 16) as u64);
    } else {
        out.push(c);
    }
    proof {
        assert(final(out)@ =~= old(out)@ + spec_escape_char(c));
    }
}

/// Append the hexadecimal digit character for `d`.
fn push_hex_digit(out: &mut Vec<char>, d: u64)
    requires
        d < 16,
    ensures
        final(out)@ == old(out)@ + seq![spec_hex_digit(d as int)],
{
    if d < 10 {
        push_digit(out, d);
    } else {
        let c: char = if d == 10 {
            'a'
        } else if d == 11 {
            'b'
        } else if d == 12 {
            'c'
        } else if d == 13 {
            'd'
        } else if d == 14 {
            'e'
        } else {
            'f'
        };
        out.push(c);
        proof {
            assert(final(out)@ =~= old(out)@ + seq![spec_hex_digit(d as int)]);
        }
    }
}

/// Append a string escaped for a JSON string literal.
fn push_escaped(out: &mut Vec<char>, s: &str)
    ensures
        final(out)@ == old(out)@ + spec_escape(s@),
{
    let n: usize = s.unicode_len();
    let mut i: usize = 0;
    while i < n
        invariant
            n == s@.len(),
            0 <= i <= n,
            out@ == old(out)@ + spec_escape(s@.subrange(0, i as int)),
        decreases n - i,
    {
        push_escaped_char(out, s.get_char(i));
        proof {
            assert(s@.subrange(0, i + 1).drop_last() =~= s@.subrange(0, i as int));
            assert(s@.subrange(0, i + 1).last() == s@[i as int]);
        }
        i = i + 1;
    }
    proof {
        assert(s@.subrange(0, n as int) =~= s@);
    }
}

/// Append the characters of `s` (used only with string literals shared with
/// the specification functions above).
fn push_literal(out: &mut Vec<char>, s: &str)
    ensures
        final(out)@ == old(out)@ + s@,
{
    crate::textfmt::push_str_chars(out, s)
}

/// Append a centisecond timestamp as seconds with two decimals.
fn push_seconds(out: &mut Vec<char>, cs: u64)
    ensures
        final(out)@ == old(out)@ + spec_seconds(cs as int),
{
    push_decimal(out, cs / 100);
    out.push('.');
    push_digit(out, (cs / 10) % 10);
    push_digit(out, cs % 10);
    proof {
        assert(final(out)@ =~= old(out)@ + spec_seconds(cs as int));
    }
}

/// Append a parts-per-million fraction with six decimals.
fn push_ppm_fraction(out: &mut Vec<char>, p: u32)
    ensures
        final(out)@ == old(out)@ + spec_ppm_fraction(p as int),
{
    let p64: u64 = p as u64;
    push_decimal(out, p64 / 1000000);
    out.push('.');
    push_digit(out, (p64 / 100000) % 10);
    push_digit(out, (p64 / 10000) % 10);
    push_digit(out, (p64 / 1000) % 10);
    push_digit(out, (p64 / 100) % 10);
    push_digit(out, (p64 / 10) % 10);
    push_digit(out, p64 % 10);
    proof {
        assert(final(out)@ =~= old(out)@ + spec_ppm_fraction(p as int));
    }
}

/// Append a boolean JSON literal.
fn push_json_bool(out: &mut Vec<char>, b: bool)
    ensures
        final(out)@ == old(out)@ + spec_json_bool(b),
{
    if b {
        push_literal(out, "true");
    } else {
        push_literal(out, "false");
    }
}

/// Append one token as a JSON object.
fn push_json_token(out: &mut Vec<char>, t: &Token)
    ensures
        final(out)@ == old(out)@ + spec_json_token(*t),
{
    push_literal(out, "{\"startSeconds\":");
    push_seconds(out, t.start_cs);
    push_literal(out, ",\"endSeconds\":");
    push_seconds(out, t.end_cs);
    push_literal(out, ",\"text\":\"");
    push_escaped(out, t.text.as_str());
    push_literal(out, "\",\"probability\":");
    push_ppm_fraction(out, t.probability_ppm);
    push_literal(out, "}");
    proof {
        assert(final(out)@ =~= old(out)@ + spec_json_token(*t));
    }
}

/// Append the comma-separated token objects of a segment.
fn push_json_tokens(out: &mut Vec<char>, tokens: &Vec<Token>)
    ensures
        final(out)@ == old(out)@ + spec_json_tokens(tokens@),
{
    let mut i: usize = 0;
    while i < tokens.len()
        invariant
            0 <= i <= tokens@.len(),
            out@ == old(out)@ + spec_json_tokens(tokens@.subrange(0, i as int)),
        decreases tokens@.len() - i,
    {
        if i > 0 {
            push_literal(out, ",");
        }
        push_json_token(out, &tokens[i]);
        proof {
            assert(tokens@.subrange(0, i + 1).drop_last() =~= tokens@.subrange(0, i as int));
            assert(tokens@.subrange(0, i + 1).last() == tokens@[i as int]);
            if i == 0 {
                assert(tokens@.subrange(0, 1).len() == 1);
            }
        }
        i = i + 1;
    }
    proof {
        assert(tokens@.subrange(0, tokens@.len() as int) =~= tokens@);
    }
}

/// Append one segment as a JSON object.
fn push_json_segment(out: &mut Vec<char>, seg: &Segment)
    ensures
        final(out)@ == old(out)@ + spec_json_segment(*seg),
{
    push_literal(out, "{\"startSeconds\":");
    push_seconds(out, seg.start_cs);
    push_literal(out, ",\"endSeconds\":");
    push_seconds(out, seg.end_cs);
    push_literal(out, ",\"text\":\"");
    push_escaped(out, seg.text.as_str());
    push_literal(out, "\",\"tokens\":[");
    push_json_tokens(out, &seg.tokens);
    push_literal(out, "],\"languageCode\":\"");
    push_escaped(out, seg.language_code.as_str());
    push_literal(out, "\",\"nextSpeakerTurn\":");
    push_json_bool(out, seg.next_speaker_turn);
    push_literal(out, "}");
    proof {
        assert(final(out)@ =~= old(out)@ + spec_json_segment(*seg));
    }
}

/// A closed JSON document is exactly one array: it opens with `[`,
/// closes with `]`, and everything between the brackets is the
/// comma-separated element list.
pub proof fn lemma_json_doc_is_one_array(segs: Seq<Segment>)
    ensures
        spec_json_doc(segs).len() >= 2,
        spec_json_doc(segs).first() == '[',
        spec_json_doc(segs).last() == ']',
        spec_json_doc(segs).subrange(1, spec_json_doc(segs).len() - 1) == spec_json_items(segs),
{
    reveal_strlit("[");
    reveal_strlit("]");
    assert(spec_json_doc(segs).subrange(1, spec_json_doc(segs).len() - 1) =~= spec_json_items(
        segs,
    ));
}

/// A `SegmentEncoder` that writes segments as a single JSON array.
pub struct JsonArrayEncoder {
    /// The encoded output produced so far.
    pub out: Vec<char>,
    /// Whether the opening `[` has been written.
    pub started: bool,
    /// Whether the next element would be the first in the array.
    pub first: bool,
    /// Whether the encoder has been closed.
    pub closed: bool,
    /// The segments successfully written so far.
    pub written: Ghost<Seq<Segment>>,
}

impl JsonArrayEncoder {
    /// The encoder's internal consistency: its output is always exactly the
    /// rendering of the segments written so far.
    pub open spec fn inv(&self) -> bool {
        &&& self.first <==> self.written@.len() == 0
        &&& self.closed ==> self.started
        &&& !self.started ==> self.out@ == Seq::<char>::empty() && self.written@.len() == 0
        &&& (self.started && !self.closed) ==> self.out@ == "["@ + spec_json_items(self.written@)
        &&& self.closed ==> self.out@ == spec_json_doc(self.written@)
    }

    /// Create a JSON array encoder with an empty output.
    pub fn new() -> (r: JsonArrayEncoder)
        ensures
            r.inv(),
            !r.closed,
            r.written@ == Seq::<Segment>::empty(),
            r.out@ == Seq::<char>::empty(),
    {
        JsonArrayEncoder {
            out: Vec::new(),
            started: false,
            first: true,
            closed: false,
            written: Ghost(Seq::empty()),
        }
    }

    /// Write the opening `[` if it has not been written yet.
    fn start_if_needed(&mut self)
        requires
            old(self).inv(),
            !old(self).closed,
        ensures
            final(self).inv(),
            final(self).started,
            !final(self).closed,
            final(self).first == old(self).first,
            final(self).written == old(self).written,
            final(self).out@ == "["@ + spec_json_items(final(self).written@),
    {
        if !self.started {
            push_literal(&mut self.out, "[");
            self.started = true;
            proof {
                assert(self.out@ =~= "["@ + spec_json_items(self.written@));
            }
        }
    }

    /// Serialize one segment and append it to the array.
    ///
    /// Fails without changing anything once the encoder is closed.
    pub fn write_segment(&mut self, seg: &Segment) -> (r: Result<(), Error>)
        requires
            old(self).inv(),
        ensures
            final(self).inv(),
            old(self).closed ==> r is Err && *final(self) == *old(self),
            !old(self).closed ==> r is Ok && !final(self).closed && final(self).written@ == old(
                self,
            ).written@.push(*seg),
    {
        if self.closed {
            return Err(Error::invalid_input(String::from_str(
                "cannot write segment: encoder is already closed",
            )));
        }
        self.start_if_needed();
        if !self.first {
            push_literal(&mut self.out, ",");
        }
        self.first = false;
        push_json_segment(&mut self.out, seg);
        proof {
            let w = self.written@;
            assert(w.push(*seg).drop_last() =~= w);
            assert(w.push(*seg).last() == *seg);
            if w.len() == 0 {
                assert(spec_json_items(w.push(*seg)) == spec_json_segment(*seg));
                assert(self.out@ =~= "["@ + spec_json_items(w.push(*seg)));
            } else {
                assert(spec_json_items(w.push(*seg)) == spec_json_items(w) + ","@
                    + spec_json_segment(*seg));
                assert(self.out@ =~= "["@ + spec_json_items(w.push(*seg)));
            }
        }
        self.written = Ghost(self.written@.push(*seg));
        Ok(())
    }

    /// Close the array.
    ///
    /// Idempotent: a second close changes nothing. A close with no writes
    /// produces exactly `[]`.
    pub fn close(&mut self) -> (r: Result<(), Error>)
        requires
            old(self).inv(),
        ensures
            final(self).inv(),
            r is Ok,
            final(self).closed,
            final(self).written == old(self).written,
            old(self).closed ==> *final(self) == *old(self),
            final(self).out@ == spec_json_doc(final(self).written@),
    {
        if self.closed {
            return Ok(());
        }
        self.start_if_needed();
        push_literal(&mut self.out, "]");
        self.closed = true;
        proof {
            assert(self.out@ =~= spec_json_doc(self.written@));
        }
        Ok(())
    }

    /// The output produced so far.
    pub fn output(&self) -> (r: &Vec<char>)
        ensures
            r@ == self.out@,
    {
        &self.out
    }

    /// The output produced so far, as a `String`.
    pub fn output_string(&self) -> (r: String)
        ensures
            r@ == self.out@,
    {
        chars_to_string(&self.out)
    }
}

} // verus!
