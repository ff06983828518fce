//! Transcription segments and tokens.
//!
//! Backends report timestamps in centiseconds, possibly negative where the
//! timing is unknown. Sanitizing a raw backend segment clamps timestamps
//! into range and refines the segment's own timing from its tokens: the
//! start is the earliest and the end the latest timing over tokens that are
//! neither special markers nor of unknown time, falling back to the
//! backend's segment-level timestamps otherwise.

use vstd::prelude::*;

verus! {

/// Ceiling on a timestamp as reported by a backend, in centiseconds.
pub const MAX_TIMESTAMP_CS: u64 = 1_000_000_000_000;

/// Ceiling on any timestamp a segment may carry once stream offsets are
/// applied; keeps every derived quantity (such as milliseconds) in `u64`.
pub const MAX_ENCODABLE_CS: u64 = u64::MAX / 10;

/// Ceiling on a stream offset, in centiseconds.
pub const MAX_OFFSET_CS: u64 = u64::MAX / 160;

/// A single token as reported by a backend, before sanitizing.
pub struct RawToken {
    /// Start time in centiseconds; negative when unknown.
    pub start_cs: i64,
    /// End time in centiseconds; negative when unknown.
    pub end_cs: i64,
    /// Token text.
    pub text: String,
    /// Probability assigned to this token, in parts per million.
    pub probability_ppm: u32,
}

/// A segment as reported by a backend, before sanitizing.
pub struct RawSegment {
    /// Start time in centiseconds; negative when unknown.
    pub start_cs: i64,
    /// End time in centiseconds; negative when unknown.
    pub end_cs: i64,
    /// Segment text.
    pub text: String,
    /// The segment's tokens, in order.
    pub tokens: Vec<RawToken>,
    /// Whether the backend predicts a speaker turn after this segment.
    pub next_speaker_turn: bool,
}

/// A sanitized token: timestamps clamped into `[0, MAX_TIMESTAMP_CS]`.
pub struct Token {
    /// Start time in centiseconds.
    pub start_cs: u64,
    /// End time in centiseconds.
    pub end_cs: u64,
    /// Token text.
    pub text: String,
    /// Probability assigned to this token, in parts per million.
    pub probability_ppm: u32,
}

/// A sanitized transcription segment.
pub struct Segment {
    /// Start time in centiseconds, on the global stream timeline.
    pub start_cs: u64,
    /// End time in centiseconds, on the global stream timeline.
    pub end_cs: u64,
    /// Segment text.
    pub text: String,
    /// The segment's tokens, in order.
    pub tokens: Vec<Token>,
    /// Language of the segment as a short code, `"und"` when undetermined.
    pub language_code: String,
    /// Whether the backend predicts a speaker turn after this segment.
    pub next_speaker_turn: bool,
}

/// A token whose timestamps encoders can safely convert.
pub open spec fn wf_token(t: Token) -> bool {
    t.start_cs <= MAX_ENCODABLE_CS && t.end_cs <= MAX_ENCODABLE_CS
}

/// A segment every consumer can rely on: ordered timestamps, all within
/// the encodable ceiling.
pub open spec fn wf_segment(s: Segment) -> bool {
    &&& s.start_cs <= s.end_cs
    &&& s.end_cs <= MAX_ENCODABLE_CS
    &&& forall|i: int| 0 <= i < s.tokens@.len() ==> wf_token(#[trigger] s.tokens@[i])
}

/// A freshly sanitized segment, before any stream offset: everything at or
/// below `MAX_TIMESTAMP_CS`.
pub open spec fn fresh_segment(s: Segment) -> bool {
    &&& s.start_cs <= s.end_cs
    &&& s.end_cs <= MAX_TIMESTAMP_CS
    &&& forall|i: int|
        0 <= i < s.tokens@.len() ==> (#[trigger] s.tokens@[i]).start_cs <= MAX_TIMESTAMP_CS
            && s.tokens@[i].end_cs <= MAX_TIMESTAMP_CS
}

/// A raw timestamp clamped into `[0, MAX_TIMESTAMP_CS]`.
pub open spec fn spec_clamp_cs(v: i64) -> u64 {
    if v < 0 {
        0u64
    } else if v > MAX_TIMESTAMP_CS {
        MAX_TIMESTAMP_CS
    } else {
        v as u64
    }
}

/// The sanitized form of a raw token.
pub open spec fn spec_clamp_token(t: RawToken) -> Token {
    Token {
        start_cs: spec_clamp_cs(t.start_cs),
        end_cs: spec_clamp_cs(t.end_cs),
        text: t.text,
        probability_ppm: t.probability_ppm,
    }
}

/// Whether token text is a special backend marker such as `[_BEG_]`.
pub open spec fn spec_is_special(s: Seq<char>) -> bool {
    s.len() >= 2 && s[0] == '[' && s[1] == '_' && s[s.len() - 2] == '_' && s[s.len() - 1] == ']'
}

/// Whether a sanitized token carries a known timestamp.
pub open spec fn spec_token_timed(t: Token) -> bool {
    t.start_cs > 0 || t.end_cs > 0
}

/// Whether a token contributes to segment timing: timed and not special.
pub open spec fn spec_token_counts(t: Token) -> bool {
    spec_token_timed(t) && !spec_is_special(t.text@)
}

/// The earliest start and latest end over the tokens that contribute to
/// timing, or `None` when no token does.
pub open spec fn spec_timing(tokens: Seq<Token>) -> Option<(u64, u64)>
    decreases tokens.len(),
{
    if tokens.len() == 0 {
        None
    } else {
        let t = tokens.last();
        let rest = spec_timing(tokens.drop_last());
        if !spec_token_counts(t) {
            rest
        } else {
            match rest {
                None => Some((t.start_cs, t.end_cs)),
                Some((s, e)) => Some(
                    (
                        if t.start_cs < s {
                            t.start_cs
                        } else {
                            s
                        },
                        if t.end_cs > e {
                            t.end_cs
                        } else {
                            e
                        },
                    ),
                ),
            }
        }
    }
}

/// The segment-level timestamps a raw segment falls back to: its own
/// clamped timestamps, with the end pulled up to the start.
pub open spec fn spec_fallback_times(raw: RawSegment) -> (u64, u64) {
    let s = spec_clamp_cs(raw.start_cs);
    let e = spec_clamp_cs(raw.end_cs);
    (s, if e < s {
        s
    } else {
        e
    })
}

/// The refined `(start, end)` of a raw segment: token-derived when the
/// contributing tokens give an ordered pair, the fallback otherwise.
pub open spec fn spec_refined_times(raw: RawSegment) -> (u64, u64) {
    let toks = raw.tokens@.map_values(|t: RawToken| spec_clamp_token(t));
    match spec_timing(toks) {
        Some((s, e)) => if s <= e {
            (s, e)
        } else {
            spec_fallback_times(raw)
        },
        None => spec_fallback_times(raw),
    }
}

/// Clamp a raw timestamp into `[0, MAX_TIMESTAMP_CS]`.
pub fn clamp_cs(v: i64) -> (r: u64)
    ensures
        r == spec_clamp_cs(v),
{
    if v < 0 {
        0
    } else if v as u64 > MAX_TIMESTAMP_CS {
        MAX_TIMESTAMP_CS
    } else {
        v as u64
    }
}

/// Whether token text is a special backend marker such as `[_BEG_]`.
fn is_special_token_text(s: &str) -> (r: bool)
    ensures
        r == spec_is_special(s@),
{
    let n: usize = s.unicode_len();
    if n < 2 {
        return false;
    }
    s.get_char(0) == '[' && s.get_char(1) == '_' && s.get_char(n - 2) == '_' && s.get_char(n - 1)
        == ']'
}

/// Sanitize the tokens of a raw segment, clamping their timestamps.
fn clamp_tokens(raw: &Vec<RawToken>) -> (r: Vec<Token>)
    ensures
        r@ == raw@.map_values(|t: RawToken| spec_clamp_token(t)),
{
    let mut out: Vec<Token> = Vec::new();
    let mut i: usize = 0;
    while i < raw.len()
        invariant
            0 <= i <= raw@.len(),
            out@ =~= raw@.subrange(0, i as int).map_values(|t: RawToken| spec_clamp_token(t)),
        decreases raw@.len() - i,
    {
        let t = &raw[i];
        out.push(
            Token {
                start_cs: clamp_cs(t.start_cs),
                end_cs: clamp_cs(t.end_cs),
                text: t.text.clone(),
                probability_ppm: t.probability_ppm,
            },
        );
        proof {
            assert(raw@.subrange(0, i + 1).drop_last() =~= raw@.subrange(0, i as int));
            assert(raw@.subrange(0, i + 1).map_values(|t: RawToken| spec_clamp_token(t)) =~= raw@
                .subrange(0, i as int).map_values(|t: RawToken| spec_clamp_token(t)).push(
                spec_clamp_token(raw@[i as int]),
            ));
        }
        i = i + 1;
    }
    proof {
        assert(raw@.subrange(0, raw@.len() as int) =~= raw@);
    }
    out
}

/// The earliest start and latest end over contributing tokens.
fn timing_from_tokens(tokens: &Vec<Token>) -> (r: Option<(u64, u64)>)
    ensures
        r == spec_timing(tokens@),
{
    let mut acc: Option<(u64, u64)> = None;
    let mut i: usize = 0;
    while i < tokens.len()
        invariant
            0 <= i <= tokens@.len(),
            acc == spec_timing(tokens@.subrange(0, i as int)),
        decreases tokens@.len() - i,
    {
        let t = &tokens[i];
        let timed: bool = t.start_cs > 0 || t.end_cs > 0;
        let counts: bool = timed && !is_special_token_text(t.text.as_str());
        if counts {
            acc = match acc {
                None => Some((t.start_cs, t.end_cs)),
                Some((s, e)) => Some(
                    (
                        if t.start_cs < s {
                            t.start_cs
                        } else {
                            s
                        },
                        if t.end_cs > e {
                            t.end_cs
                        } else {
                            e
                        },
                    ),
                ),
            };
        }
        proof {
            assert(tokens@.subrange(0, i + 1).drop_last() =~= tokens@.subrange(0, i as int));
            assert(tokens@.subrange(0, i + 1).last() == tokens@[i as int]);
        }
        i = i + 1;
    }
    proof {
        assert(tokens@.subrange(0, tokens@.len() as int) =~= tokens@);
    }
    acc
}

/// Turn a raw backend segment into a sanitized segment.
///
/// Timestamps are clamped into range, the segment's own timing is refined
/// from its tokens where they allow it, and the given language code is
/// attached.
pub fn to_segment(raw: &RawSegment, language_code: String) -> (r: Segment)
    ensures
        r.text@ == raw.text@,
        r.language_code == language_code,
        r.next_speaker_turn == raw.next_speaker_turn,
        r.tokens@ == raw.tokens@.map_values(|t: RawToken| spec_clamp_token(t)),
        (r.start_cs, r.end_cs) == spec_refined_times(*raw),
        fresh_segment(r),
{
    let tokens = clamp_tokens(&raw.tokens);
    let timing = timing_from_tokens(&tokens);
    let (start_cs, end_cs): (u64, u64) = match timing {
        Some((s, e)) => {
            if s <= e {
                (s, e)
            } else {
                fallback_times(raw)
            }
        },
        None => fallback_times(raw),
    };
    let r = Segment {
        start_cs,
        end_cs,
        text: raw.text.clone(),
        tokens,
        language_code,
        next_speaker_turn: raw.next_speaker_turn,
    };
    proof {
        lemma_timing_bounds(r.tokens@);
        assert(forall|i: int|
            0 <= i < r.tokens@.len() ==> (#[trigger] r.tokens@[i]).start_cs <= MAX_TIMESTAMP_CS
                && r.tokens@[i].end_cs <= MAX_TIMESTAMP_CS) by {
            assert(forall|i: int|
                0 <= i < raw.tokens@.len() ==> #[trigger] r.tokens@[i] == spec_clamp_token(
                    raw.tokens@[i],
                ));
        }
    }
    r
}

/// Segment-level fallback timestamps of a raw segment.
fn fallback_times(raw: &RawSegment) -> (r: (u64, u64))
    ensures
        r == spec_fallback_times(*raw),
{
    let s = clamp_cs(raw.start_cs);
    let e = clamp_cs(raw.end_cs);
    (s, if e < s {
        s
    } else {
        e
    })
}

/// Token-derived timing stays within the clamped token range.
proof fn lemma_timing_bounds(tokens: Seq<Token>)
    requires
        forall|i: int|
            0 <= i < tokens.len() ==> (#[trigger] tokens[i]).start_cs <= MAX_TIMESTAMP_CS
                && tokens[i].end_cs <= MAX_TIMESTAMP_CS,
    ensures
        match spec_timing(tokens) {
            Some((s, e)) => s <= MAX_TIMESTAMP_CS && e <= MAX_TIMESTAMP_CS,
            None => true,
        },
    decreases tokens.len(),
{
    if tokens.len() > 0 {
        lemma_timing_bounds(tokens.drop_last());
    }
}

/// Shift a freshly sanitized segment (and its tokens) later on the global
/// timeline by `offset_cs` centiseconds.
pub fn apply_time_offset(seg: &mut Segment, offset_cs: u64)
    requires
        fresh_segment(*old(seg)),
        offset_cs <= MAX_OFFSET_CS,
    ensures
        final(seg).start_cs == old(seg).start_cs + offset_cs,
        final(seg).end_cs == old(seg).end_cs + offset_cs,
        final(seg).text == old(seg).text,
        final(seg).language_code == old(seg).language_code,
        final(seg).next_speaker_turn == old(seg).next_speaker_turn,
        final(seg).tokens@.len() == old(seg).tokens@.len(),
        forall|i: int|
            0 <= i < old(seg).tokens@.len() ==> #[trigger] final(seg).tokens@[i] == (Token {
                start_cs: (old(seg).tokens@[i].start_cs + offset_cs) as u64,
                end_cs: (old(seg).tokens@[i].end_cs + offset_cs) as u64,
                text: old(seg).tokens@[i].text,
                probability_ppm: old(seg).tokens@[i].probability_ppm,
            }),
        wf_segment(*final(seg)),
{
    seg.start_cs = seg.start_cs + offset_cs;
    seg.end_cs = seg.end_cs + offset_cs;
    let ghost orig_tokens = seg.tokens@;
    let mut i: usize = 0;
    while i < seg.tokens.len()
        invariant
            fresh_segment(*old(seg)),
            offset_cs <= MAX_OFFSET_CS,
            0 <= i <= seg.tokens@.len(),
            seg.tokens@.len() == orig_tokens.len(),
            orig_tokens == old(seg).tokens@,
            seg.start_cs == old(seg).start_cs + offset_cs,
            seg.end_cs == old(seg).end_cs + offset_cs,
            seg.text == old(seg).text,
            seg.language_code == old(seg).language_code,
            seg.next_speaker_turn == old(seg).next_speaker_turn,
            forall|j: int|
                0 <= j < i ==> #[trigger] seg.tokens@[j] == (Token {
                    start_cs: (orig_tokens[j].start_cs + offset_cs) as u64,
                    end_cs: (orig_tokens[j].end_cs + offset_cs) as u64,
                    text: orig_tokens[j].text,
                    probability_ppm: orig_tokens[j].probability_ppm,
                }),
            forall|j: int| i <= j < seg.tokens@.len() ==> #[trigger] seg.tokens@[j]
                == orig_tokens[j],
        decreases seg.tokens@.len() - i,
    {
        let s2 = seg.tokens[i].start_cs + offset_cs;
        let e2 = seg.tokens[i].end_cs + offset_cs;
        seg.tokens[i].start_cs = s2;
        seg.tokens[i].end_cs = e2;
        i = i + 1;
    }
}

} // verus!
