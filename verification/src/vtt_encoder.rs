//! Streaming WebVTT encoder for transcription segments.
//!
//! The `WEBVTT` header is deferred until the first write, so a run with no
//! segments produces an empty document. Each segment becomes one cue:
//! `{HH:MM:SS.mmm} --> {HH:MM:SS.mmm}`, a line of text, and a blank line.
//! Closing is idempotent, and a write after close fails without touching
//! the output.

use vstd::prelude::*;

use crate::error::Error;
use crate::segments::{wf_segment, Segment};
use crate::textfmt::{
    chars_to_string, lemma_timestamp_chars, push_str_chars, push_timestamp, spec_is_time_char,
    spec_timestamp,
};

verus! {

/// One segment as a WebVTT cue.
pub open spec fn spec_vtt_cue(s: Segment) -> Seq<char> {
    spec_timestamp(s.start_cs as int * 10) + " --> "@ + spec_timestamp(s.end_cs as int * 10)
        + "\n"@ + s.text@ + "\n\n"@
}

/// The cues of the document body, in order.
pub open spec fn spec_vtt_cues(segs: Seq<Segment>) -> Seq<char>
    decreases segs.len(),
{
    if segs.len() == 0 {
        Seq::empty()
    } else {
        spec_vtt_cues(segs.drop_last()) + spec_vtt_cue(segs.last())
    }
}

/// The document for a sequence of segments: empty when nothing was
/// written, else the header followed by the cues.
pub open spec fn spec_vtt_doc(segs: Seq<Segment>) -> Seq<char> {
    if segs.len() == 0 {
        Seq::empty()
    } else {
        "WEBVTT\n\n"@ + spec_vtt_cues(segs)
    }
}

/// The number of positions at which the cue separator ` --> ` occurs.
pub open spec fn spec_count_separators(s: Seq<char>) -> int
    decreases s.len(),
{
    if s.len() < 5 {
        0
    } else {
        (if s.subrange(0, 5) == " --> "@ {
            1int
        } else {
            0int
        }) + spec_count_separators(s.drop_first())
    }
}

/// The separator's characters, for reasoning about occurrences.
proof fn lemma_separator_pattern()
    ensures
        " --> "@.len() == 5,
        " --> "@[0] == ' ',
        " --> "@[1] == '-',
        " --> "@[2] == '-',
        " --> "@[3] == '>',
        " --> "@[4] == ' ',
{
    reveal_strlit(" --> ");
}

/// Occurrence counts are never negative.
proof fn lemma_count_nonneg(s: Seq<char>)
    ensures
        spec_count_separators(s) >= 0,
    decreases s.len(),
{
    if s.len() >= 5 {
        lemma_count_nonneg(s.drop_first());
    }
}

/// No occurrence begins at a non-space character: a prefix free of spaces
/// contributes nothing to the count.
proof fn lemma_count_skip_nonspace(a: Seq<char>, b: Seq<char>)
    requires
        forall|j: int| 0 <= j < a.len() ==> a[j] != ' ',
    ensures
        spec_count_separators(a + b) == spec_count_separators(b),
    decreases a.len(),
{
    lemma_separator_pattern();
    if a.len() == 0 {
        assert(a + b =~= b);
    } else {
        let s = a + b;
        if s.len() >= 5 {
            assert(s[0] == a[0]);
            assert(s.subrange(0, 5) != " --> "@) by {
                if s.subrange(0, 5) == " --> "@ {
                    assert(s.subrange(0, 5)[0] == ' ');
                }
            }
            assert(s.drop_first() =~= a.drop_first() + b);
            lemma_count_skip_nonspace(a.drop_first(), b);
        }
    }
}

/// No occurrence crosses a newline: counting splits at it.
proof fn lemma_count_split_after_newline(a: Seq<char>, b: Seq<char>)
    requires
        a.len() >= 1,
        a.last() == '\n',
    ensures
        spec_count_separators(a + b) == spec_count_separators(a) + spec_count_separators(b),
    decreases a.len(),
{
    lemma_separator_pattern();
    let s = a + b;
    if a.len() == 1 {
        if s.len() >= 5 {
            assert(s[0] == a[0] && a[0] == '\n');
            assert(s.subrange(0, 5) != " --> "@) by {
                if s.subrange(0, 5) == " --> "@ {
                    assert(s.subrange(0, 5)[0] == '\n');
                }
            }
            assert(s.drop_first() =~= b);
        }
    } else {
        let a2 = a.drop_first();
        assert(a2.last() == a.last());
        assert(s.drop_first() =~= a2 + b);
        lemma_count_split_after_newline(a2, b);
        if s.len() >= 5 {
            if a.len() >= 5 {
                assert(s.subrange(0, 5) =~= a.subrange(0, 5));
                assert(a.drop_first() == a2);
            } else {
                assert(s.subrange(0, 5) != " --> "@) by {
                    if s.subrange(0, 5) == " --> "@ {
                        assert(s[a.len() - 1] == a.last());
                        assert(s.subrange(0, 5)[a.len() - 1] == '\n');
                    }
                }
            }
        }
    }
}

/// Appending the cue terminator to separator-free text keeps it
/// separator-free.
proof fn lemma_count_text_terminator(text: Seq<char>)
    requires
        spec_count_separators(text) == 0,
    ensures
        spec_count_separators(text + "\n\n"@) == 0,
    decreases text.len(),
{
    lemma_separator_pattern();
    reveal_strlit("\n\n");
    let s = text + "\n\n"@;
    if text.len() == 0 {
        assert(s =~= "\n\n"@);
    } else {
        if s.len() >= 5 {
            assert(s.subrange(0, 5) != " --> "@) by {
                if s.subrange(0, 5) == " --> "@ {
                    if text.len() >= 5 {
                        assert(text.subrange(0, 5) =~= s.subrange(0, 5));
                        lemma_count_nonneg(text.drop_first());
                    } else {
                        assert(s[text.len() as int] == '\n');
                        assert(s.subrange(0, 5)[text.len() as int] == '\n');
                    }
                }
            }
            assert(s.drop_first() =~= text.drop_first() + "\n\n"@);
            assert(spec_count_separators(text.drop_first()) == 0) by {
                if text.len() >= 5 {
                    lemma_count_nonneg(text.drop_first());
                }
            }
            lemma_count_text_terminator(text.drop_first());
        }
    }
}

/// One cue holds exactly one separator, provided its text holds none.
proof fn lemma_count_cue(seg: Segment)
    requires
        spec_count_separators(seg.text@) == 0,
    ensures
        spec_count_separators(spec_vtt_cue(seg)) == 1,
        spec_vtt_cue(seg).len() >= 2,
        spec_vtt_cue(seg).last() == '\n',
{
    lemma_separator_pattern();
    reveal_strlit("\n");
    reveal_strlit("\n\n");
    let ts1 = spec_timestamp(seg.start_cs as int * 10);
    let ts2 = spec_timestamp(seg.end_cs as int * 10);
    lemma_timestamp_chars(seg.start_cs as int * 10);
    lemma_timestamp_chars(seg.end_cs as int * 10);
    let after_text = seg.text@ + "\n\n"@;
    let r2 = ts2 + ("\n"@ + after_text);
    let tail = " --> "@ + r2;
    assert(spec_vtt_cue(seg) =~= ts1 + tail);
    assert(!spec_is_time_char(' ') && !spec_is_time_char('-'));
    assert(forall|j: int| 0 <= j < ts1.len() ==> #[trigger] ts1[j] != ' ');
    lemma_count_skip_nonspace(ts1, tail);
    assert(tail.len() >= 5);
    assert(tail.subrange(0, 5) =~= " --> "@);
    let rest = tail.drop_first();
    let dashes = seq!['-', '-', '>'];
    let sp = seq![' '] + r2;
    assert(rest =~= dashes + sp);
    lemma_count_skip_nonspace(dashes, sp);
    assert(sp.len() >= 5);
    assert(sp.subrange(0, 5) != " --> "@) by {
        if sp.subrange(0, 5) == " --> "@ {
            assert(sp[1] == r2[0]);
            assert(r2[0] == ts2[0]);
            assert(spec_is_time_char(ts2[0]));
            assert(sp.subrange(0, 5)[1] == '-');
        }
    }
    assert(sp.drop_first() =~= r2);
    assert(forall|j: int| 0 <= j < ts2.len() ==> #[trigger] ts2[j] != ' ');
    lemma_count_skip_nonspace(ts2, "\n"@ + after_text);
    assert(forall|j: int| 0 <= j < "\n"@.len() ==> #[trigger] "\n"@[j] != ' ');
    lemma_count_skip_nonspace("\n"@, after_text);
    lemma_count_text_terminator(seg.text@);
    assert(spec_count_separators(spec_vtt_cue(seg)) == spec_count_separators(tail));
    assert(spec_count_separators(tail) == 1 + spec_count_separators(rest));
    assert(spec_count_separators(rest) == spec_count_separators(sp));
    assert(spec_count_separators(sp) == spec_count_separators(r2));
    assert(spec_count_separators(r2) == spec_count_separators(after_text));
    assert(spec_vtt_cue(seg).last() == "\n\n"@[1]);
}

/// The cue list holds exactly one separator per segment.
proof fn lemma_count_cues(segs: Seq<Segment>)
    requires
        forall|i: int| 0 <= i < segs.len() ==> spec_count_separators(
            (#[trigger] segs[i]).text@,
        ) == 0,
    ensures
        spec_count_separators(spec_vtt_cues(segs)) == segs.len(),
        segs.len() >= 1 ==> spec_vtt_cues(segs).len() >= 1 && spec_vtt_cues(segs).last() == '\n',
    decreases segs.len(),
{
    if segs.len() > 0 {
        let prev = spec_vtt_cues(segs.drop_last());
        let cue = spec_vtt_cue(segs.last());
        lemma_count_cues(segs.drop_last());
        lemma_count_cue(segs.last());
        if segs.len() == 1 {
            assert(prev + cue =~= cue);
        } else {
            lemma_count_split_after_newline(prev, cue);
        }
        assert((prev + cue).last() == cue.last());
    }
}

/// A WebVTT document holds exactly one cue separator per written segment,
/// provided no segment's text itself holds one.
pub proof fn lemma_vtt_one_separator_per_segment(segs: Seq<Segment>)
    requires
        forall|i: int| 0 <= i < segs.len() ==> spec_count_separators(
            (#[trigger] segs[i]).text@,
        ) == 0,
    ensures
        spec_count_separators(spec_vtt_doc(segs)) == segs.len(),
{
    lemma_count_cues(segs);
    if segs.len() > 0 {
        reveal_strlit("WEBVTT\n\n");
        assert(forall|j: int| 0 <= j < "WEBVTT\n\n"@.len() ==> #[trigger] "WEBVTT\n\n"@[j] != ' ');
        lemma_count_skip_nonspace("WEBVTT\n\n"@, spec_vtt_cues(segs));
    }
}

/// A non-empty WebVTT document begins with exactly the header line and
/// one blank line — `WEBVTT` and two newlines — and everything after
/// those eight characters is the cue list.
pub proof fn lemma_vtt_doc_header(segs: Seq<Segment>)
    requires
        segs.len() > 0,
    ensures
        spec_vtt_doc(segs).len() >= 8,
        spec_vtt_doc(segs).subrange(0, 8) == "WEBVTT\n\n"@,
        spec_vtt_doc(segs).skip(8) == spec_vtt_cues(segs),
{
    reveal_strlit("WEBVTT\n\n");
    assert(spec_vtt_doc(segs).subrange(0, 8) =~= "WEBVTT\n\n"@);
    assert(spec_vtt_doc(segs).skip(8) =~= spec_vtt_cues(segs));
}

/// A `SegmentEncoder` that writes segments as WebVTT cues.
pub struct VttEncoder {
    /// The encoded output produced so far.
    pub out: Vec<char>,
    /// Whether the `WEBVTT` header has been written.
    pub started: bool,
    /// Whether the encoder has been closed.
    pub closed: bool,
    /// The segments successfully written so far.
    pub written: Ghost<Seq<Segment>>,
}

impl VttEncoder {
    /// The encoder's internal consistency: its output is always exactly the
    /// rendering of the segments written so far.
    pub open spec fn inv(&self) -> bool {
        &&& self.started <==> self.written@.len() > 0
        &&& self.out@ == spec_vtt_doc(self.written@)
    }

    /// Create a WebVTT encoder with an empty output.
    pub fn new() -> (r: VttEncoder)
        ensures
            r.inv(),
            !r.closed,
            r.written@ == Seq::<Segment>::empty(),
            r.out@ == Seq::<char>::empty(),
    {
        VttEncoder { out: Vec::new(), started: false, closed: false, written: Ghost(Seq::empty()) }
    }

    /// Append one segment as a cue, writing the header first if needed.
    ///
    /// Fails without changing anything once the encoder is closed.
    #[verifier::rlimit(60)]
    pub fn write_segment(&mut self, seg: &Segment) -> (r: Result<(), Error>)
        requires
            old(self).inv(),
            wf_segment(*seg),
        ensures
            final(self).inv(),
            old(self).closed ==> r is Err && *final(self) == *old(self),
            !old(self).closed ==> r is Ok && !final(self).closed && final(self).written@ == old(
                self,
            ).written@.push(*seg),
    {
        if self.closed {
            return Err(Error::invalid_input(String::from_str("encoder is closed")));
        }
        if !self.started {
            push_str_chars(&mut self.out, "WEBVTT\n\n");
            self.started = true;
        }
        push_timestamp(&mut self.out, seg.start_cs * 10);
        push_str_chars(&mut self.out, " --> ");
        push_timestamp(&mut self.out, seg.end_cs * 10);
        push_str_chars(&mut self.out, "\n");
        push_str_chars(&mut self.out, seg.text.as_str());
        push_str_chars(&mut self.out, "\n\n");
        proof {
            let w = self.written@;
            assert(w.push(*seg).drop_last() =~= w);
            assert(w.push(*seg).last() == *seg);
            assert(spec_vtt_cues(w.push(*seg)) == spec_vtt_cues(w) + spec_vtt_cue(*seg));
            assert(spec_vtt_cue(*seg) == spec_timestamp(seg.start_cs as int * 10) + " --> "@
                + spec_timestamp(seg.end_cs as int * 10) + "\n"@ + seg.text@ + "\n\n"@);
            if w.len() == 0 {
                assert(spec_vtt_cues(w) == Seq::<char>::empty());
            }
            assert(self.out@ =~= spec_vtt_doc(w.push(*seg)));
        }
        self.written = Ghost(self.written@.push(*seg));
        Ok(())
    }

    /// Close the document.
    ///
    /// Idempotent: a second close changes nothing; the output is already
    /// complete, so closing only refuses further writes.
    pub fn close(&mut self) -> (r: Result<(), Error>)
        requires
            old(self).inv(),
        ensures
            final(self).inv(),
            r is Ok,
            final(self).closed,
            final(self).written == old(self).written,
            final(self).out@ == old(self).out@,
            old(self).closed ==> *final(self) == *old(self),
    {
        if self.closed {
            return Ok(());
        }
        self.closed = true;
        Ok(())
    }

    /// The output produced so far.
    pub fn output(&self) -> (r: &Vec<char>)
        ensures
            r@ == self.out@,
    {
        &self.out
    }

    /// The output produced so far, as a `String`.
    pub fn output_string(&self) -> (r: String)
        ensures
            r@ == self.out@,
    {
        chars_to_string(&self.out)
    }
}

} // verus!
