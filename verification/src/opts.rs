//! Configuration consumed by the pipeline: output format selection,
//! transcription options, stream-decode options and the VAD policy.

use vstd::prelude::*;

use crate::error::Error;

verus! {

/// The supported output formats for encoded transcription segments.
#[derive(Clone, Copy, Debug, PartialEq, Eq, Structural)]
pub enum OutputType {
    /// Output segments as a JSON array.
    Json,
    /// Output segments in WebVTT subtitle format.
    Vtt,
}

/// Policy knobs for VAD range selection and non-speech handling.
///
/// Durations are in milliseconds. The threshold and the non-speech gain are
/// fixed-point fractions in parts per million, so `1_000_000` stands for 1.0.
#[derive(Clone, Copy, Debug, PartialEq, Eq, Structural)]
pub struct VadPolicy {
    /// VAD confidence threshold in parts per million (higher = more conservative).
    pub threshold_ppm: u32,
    /// Padding to include before each speech segment.
    pub pre_pad_ms: u32,
    /// Padding to include after each speech segment.
    pub post_pad_ms: u32,
    /// Drop speech segments shorter than this duration.
    pub min_speech_ms: u32,
    /// Merge speech segments separated by at most this gap.
    pub gap_merge_ms: u32,
    /// Gain applied to non-speech regions, in parts per million
    /// (0 = mute, 1_000_000 = unchanged).
    pub non_speech_gain_ppm: u32,
}

impl Default for VadPolicy {
    /// Default policy: keep speech, mute silence.
    fn default() -> (r: VadPolicy)
        ensures
            r == (VadPolicy {
                threshold_ppm: 500_000u32,
                pre_pad_ms: 250u32,
                post_pad_ms: 250u32,
                min_speech_ms: 250u32,
                gap_merge_ms: 300u32,
                non_speech_gain_ppm: 0u32,
            }),
    {
        VadPolicy {
            threshold_ppm: 500_000,
            pre_pad_ms: 250,
            post_pad_ms: 250,
            min_speech_ms: 250,
            gap_merge_ms: 300,
            non_speech_gain_ppm: 0,
        }
    }
}

/// Options that control how a transcription is performed.
pub struct Opts {
    /// Selects one of several loaded models; `None` means the first loaded.
    pub model_key: Option<String>,
    /// Whether to translate speech to English instead of transcribing verbatim.
    pub enable_translate_to_english: bool,
    /// Whether to apply voice activity detection before transcription.
    pub enable_voice_activity_detection: bool,
    /// Optional language hint (for example `"en"`); `None` lets the backend detect.
    pub language: Option<String>,
    /// The desired output format for transcription segments.
    pub output_type: OutputType,
    /// Minimum buffer duration in seconds before the first inference pass.
    pub incremental_min_window_seconds: u32,
    /// If true, emit segments as soon as detected; if false, treat the last
    /// segment of a batch as tentative.
    pub emit_single_segments: bool,
    /// Policy used when voice activity detection is enabled.
    pub vad_policy: Option<VadPolicy>,
}

/// Streaming decode configuration.
pub struct StreamDecodeOpts {
    /// Chunk size after resampling, in 16 kHz frames.
    pub target_chunk_frames_16k: usize,
    /// Optional container hint (for example "mp4" or "ogg") to help probing.
    pub hint_extension: Option<String>,
}

impl Default for StreamDecodeOpts {
    fn default() -> (r: StreamDecodeOpts)
        ensures
            r.target_chunk_frames_16k == 1024,
            r.hint_extension is None,
    {
        StreamDecodeOpts { target_chunk_frames_16k: 1024, hint_extension: None }
    }
}

/// Whether a character counts as blank space when an output-type string is trimmed.
pub open spec fn spec_is_space(c: char) -> bool {
    c == ' ' || c == '\t' || c == '\n' || c == '\r'
}

/// The ASCII lowercase of a character; other characters are unchanged.
pub open spec fn spec_ascii_lower(c: char) -> char {
    match c {
        'A' => 'a',
        'B' => 'b',
        'C' => 'c',
        'D' => 'd',
        'E' => 'e',
        'F' => 'f',
        'G' => 'g',
        'H' => 'h',
        'I' => 'i',
        'J' => 'j',
        'K' => 'k',
        'L' => 'l',
        'M' => 'm',
        'N' => 'n',
        'O' => 'o',
        'P' => 'p',
        'Q' => 'q',
        'R' => 'r',
        'S' => 's',
        'T' => 't',
        'U' => 'u',
        'V' => 'v',
        'W' => 'w',
        'X' => 'x',
        'Y' => 'y',
        'Z' => 'z',
        _ => c,
    }
}

/// A string with leading and trailing blank space removed and every ASCII
/// letter lowered: the normal form an output-type name is matched in.
pub open spec fn spec_normalized(s: Seq<char>) -> Seq<char> {
    spec_trim(s).map_values(|c: char| spec_ascii_lower(c))
}

/// A string with leading and trailing blank space removed.
pub open spec fn spec_trim(s: Seq<char>) -> Seq<char> {
    spec_trim_back(spec_trim_front(s))
}

pub open spec fn spec_trim_front(s: Seq<char>) -> Seq<char>
    decreases s.len(),
{
    if s.len() > 0 && spec_is_space(s[0]) {
        spec_trim_front(s.drop_first())
    } else {
        s
    }
}

pub open spec fn spec_trim_back(s: Seq<char>) -> Seq<char>
    decreases s.len(),
{
    if s.len() > 0 && spec_is_space(s[s.len() - 1]) {
        spec_trim_back(s.drop_last())
    } else {
        s
    }
}

pub open spec fn spec_json_name() -> Seq<char> {
    seq!['j', 's', 'o', 'n']
}

pub open spec fn spec_vtt_name() -> Seq<char> {
    seq!['v', 't', 't']
}

/// If the first `i` characters of `s` are blank and `s[i]` (when it exists)
/// is not, front trimming yields exactly the tail from `i`.
pub(crate) proof fn lemma_trim_front_at(s: Seq<char>, i: int)
    requires
        0 <= i <= s.len(),
        forall|j: int| 0 <= j < i ==> spec_is_space(#[trigger] s[j]),
        i == s.len() || !spec_is_space(s[i]),
    ensures
        spec_trim_front(s) == s.subrange(i, s.len() as int),
    decreases i,
{
    if i == 0 {
        if s.len() == 0 || !spec_is_space(s[0]) {
            assert(spec_trim_front(s) == s);
            assert(s.subrange(0, s.len() as int) =~= s);
        }
    } else {
        assert(spec_is_space(s[0]));
        let t = s.drop_first();
        lemma_trim_front_at(t, i - 1);
        assert(t.subrange(i - 1, t.len() as int) =~= s.subrange(i, s.len() as int));
    }
}

/// If the characters of `s` from `e` on are blank and `s[e-1]` (when it
/// exists) is not, back trimming yields exactly the prefix up to `e`.
pub(crate) proof fn lemma_trim_back_at(s: Seq<char>, e: int)
    requires
        0 <= e <= s.len(),
        forall|j: int| e <= j < s.len() ==> spec_is_space(#[trigger] s[j]),
        e == 0 || !spec_is_space(s[e - 1]),
    ensures
        spec_trim_back(s) == s.subrange(0, e),
    decreases s.len() - e,
{
    if e == s.len() {
        if s.len() == 0 || !spec_is_space(s[s.len() - 1]) {
            assert(spec_trim_back(s) == s);
            assert(s.subrange(0, s.len() as int) =~= s);
        }
    } else {
        assert(spec_is_space(s[s.len() - 1]));
        let t = s.drop_last();
        lemma_trim_back_at(t, e);
        assert(t.subrange(0, e) =~= s.subrange(0, e));
    }
}

/// Whether `c` counts as blank space; matches `spec_is_space`.
pub(crate) fn is_space_char(c: char) -> (r: bool)
    ensures
        r == spec_is_space(c),
{
    c == ' ' || c == '\t' || c == '\n' || c == '\r'
}

/// The ASCII lowercase of `c`; matches `spec_ascii_lower`.
fn ascii_lower_char(c: char) -> (r: char)
    ensures
        r == spec_ascii_lower(c),
{
    match c {
        'A' => 'a',
        'B' => 'b',
        'C' => 'c',
        'D' => 'd',
        'E' => 'e',
        'F' => 'f',
        'G' => 'g',
        'H' => 'h',
        'I' => 'i',
        'J' => 'j',
        'K' => 'k',
        'L' => 'l',
        'M' => 'm',
        'N' => 'n',
        'O' => 'o',
        'P' => 'p',
        'Q' => 'q',
        'R' => 'r',
        'S' => 's',
        'T' => 't',
        'U' => 'u',
        'V' => 'v',
        'W' => 'w',
        'X' => 'x',
        'Y' => 'y',
        'Z' => 'z',
        _ => c,
    }
}

/// The output-type name in `raw`, after trimming and lowering, as chars.
fn normalized_chars(raw: &str) -> (r: Vec<char>)
    ensures
        r@ == spec_normalized(raw@),
{
    let n: usize = raw.unicode_len();
    let mut start: usize = 0;
    while start < n && is_space_char(raw.get_char(start))
        invariant
            n == raw@.len(),
            0 <= start <= n,
            forall|j: int| 0 <= j < start ==> spec_is_space(#[trigger] raw@[j]),
        decreases n - start,
    {
        start = start + 1;
    }
    let mut end: usize = n;
    while end > start && is_space_char(raw.get_char(end - 1))
        invariant
            n == raw@.len(),
            0 <= start <= end <= n,
            forall|j: int| 0 <= j < start ==> spec_is_space(#[trigger] raw@[j]),
            forall|j: int| end <= j < n ==> spec_is_space(#[trigger] raw@[j]),
        decreases end,
    {
        end = end - 1;
    }
    proof {
        lemma_trim_front_at(raw@, start as int);
        let t = raw@.subrange(start as int, n as int);
        lemma_trim_back_at(t, end - start);
        assert(t.subrange(0, end - start) =~= raw@.subrange(start as int, end as int));
        assert(spec_trim(raw@) == raw@.subrange(start as int, end as int));
    }
    let mut out: Vec<char> = Vec::new();
    let mut i: usize = start;
    while i < end
        invariant
            n == raw@.len(),
            0 <= start <= i <= end <= n,
            spec_trim(raw@) == raw@.subrange(start as int, end as int),
            out@ =~= raw@.subrange(start as int, i as int).map_values(
                |c: char| spec_ascii_lower(c),
            ),
        decreases end - i,
    {
        out.push(ascii_lower_char(raw.get_char(i)));
        proof {
            assert(raw@.subrange(start as int, i + 1).drop_last() =~= raw@.subrange(
                start as int,
                i as int,
            ));
            assert(raw@.subrange(start as int, i + 1).map_values(
                |c: char| spec_ascii_lower(c),
            ) =~= raw@.subrange(start as int, i as int).map_values(|c: char| spec_ascii_lower(c))
                + seq![spec_ascii_lower(raw@[i as int])]);
        }
        i = i + 1;
    }
    proof {
        assert(out@ =~= spec_normalized(raw@));
    }
    out
}

/// Whether `v` holds exactly the characters of `name`.
fn chars_equal(v: &Vec<char>, name: &[char]) -> (r: bool)
    ensures
        r == (v@ =~= name@),
{
    if v.len() != name.len() {
        return false;
    }
    let mut i: usize = 0;
    while i < v.len()
        invariant
            0 <= i <= v@.len(),
            v@.len() == name@.len(),
            forall|j: int| 0 <= j < i ==> v@[j] == name@[j],
        decreases v@.len() - i,
    {
        if v[i] != name[i] {
            return false;
        }
        i = i + 1;
    }
    true
}

/// Select the output type named by `output`.
///
/// `None` defaults to WebVTT. Otherwise the name is trimmed and matched
/// case-insensitively against `"json"` and `"vtt"`; anything else is an
/// `InvalidInput` error.
pub fn parse_output_type(output: Option<&str>) -> (r: Result<OutputType, Error>)
    ensures
        match output {
            None => r == Ok::<OutputType, Error>(OutputType::Vtt),
            Some(raw) => {
                if spec_normalized(raw@) == spec_json_name() {
                    r == Ok::<OutputType, Error>(OutputType::Json)
                } else if spec_normalized(raw@) == spec_vtt_name() {
                    r == Ok::<OutputType, Error>(OutputType::Vtt)
                } else {
                    r is Err && (r matches Err(e) ==> e is InvalidInput)
                }
            },
        },
{
    match output {
        None => Ok(OutputType::Vtt),
        Some(raw) => {
            let norm = normalized_chars(raw);
            if chars_equal(&norm, &['j', 's', 'o', 'n']) {
                Ok(OutputType::Json)
            } else if chars_equal(&norm, &['v', 't', 't']) {
                Ok(OutputType::Vtt)
            } else {
                Err(Error::invalid_input(String::from_str(
                    "unknown output type (expected 'json' or 'vtt')",
                )))
            }
        },
    }
}

} // verus!
