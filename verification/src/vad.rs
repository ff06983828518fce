//! Voice-activity policy application.
//!
//! The VAD model itself is an outside collaborator; it reports speech time
//! ranges in milliseconds. This module turns those ranges into sample
//! ranges under a [`VadPolicy`] — dropping too-short speech, padding,
//! and merging near gaps — and attenuates everything outside the selected
//! ranges, preserving the buffer's length and timeline.

use vstd::prelude::*;

use vstd::arithmetic::div_mod::{lemma_div_is_ordered, lemma_div_by_multiple};
use crate::opts::VadPolicy;

verus! {

/// One part-per-million scale unit: the gain denominator.
pub const PPM: u32 = 1_000_000;

/// Convert milliseconds to samples at the 16 kHz backend rate, saturating
/// at the top of `usize`.
pub open spec fn spec_ms_to_samples(ms: int) -> int {
    if ms * 16 > usize::MAX {
        usize::MAX as int
    } else {
        ms * 16
    }
}

/// Convert milliseconds to samples at the 16 kHz backend rate.
pub fn ms_to_samples(ms: u64) -> (r: usize)
    ensures
        r as int == spec_ms_to_samples(ms as int),
{
    if ms > (usize::MAX / 16) as u64 {
        proof {
            assert(ms as int * 16 > usize::MAX as int) by (nonlinear_arith)
                requires
                    ms as int > usize::MAX as int / 16,
            ;
        }
        usize::MAX
    } else {
        proof {
            assert(ms as int * 16 <= usize::MAX as int) by (nonlinear_arith)
                requires
                    ms as int <= usize::MAX as int / 16,
            ;
        }
        (ms as usize) * 16
    }
}

/// One reported range clamped into the buffer: start and end in samples,
/// both at most `len`, never inverted.
pub open spec fn spec_clamped_range(r: (u64, u64), len: int) -> (int, int) {
    let s0 = spec_ms_to_samples(r.0 as int);
    let e0 = spec_ms_to_samples(r.1 as int);
    let s = if s0 > len {
        len
    } else {
        s0
    };
    let e0c = if e0 > len {
        len
    } else {
        e0
    };
    let e = if e0c < s {
        s
    } else {
        e0c
    };
    (s, e)
}

/// Whether a reported range survives the policy: long enough to count as
/// speech, and non-empty once padded and clamped.
pub open spec fn spec_qualifies(r: (u64, u64), len: int, policy: VadPolicy) -> bool {
    let (s, e) = spec_clamped_range(r, len);
    let dur = e - s;
    let ps = if s - spec_ms_to_samples(policy.pre_pad_ms as int) < 0 {
        0int
    } else {
        s - spec_ms_to_samples(policy.pre_pad_ms as int)
    };
    let pe_raw = e + spec_ms_to_samples(policy.post_pad_ms as int);
    let pe = if pe_raw > len {
        len
    } else {
        pe_raw
    };
    dur >= spec_ms_to_samples(policy.min_speech_ms as int) && ps < pe
}

/// Convert one reported range into clamped sample indices.
pub fn segment_sample_indexes(range: (u64, u64), samples_len: usize) -> (r: (usize, usize))
    ensures
        (r.0 as int, r.1 as int) == spec_clamped_range(range, samples_len as int),
        r.0 <= r.1 <= samples_len,
{
    let s0 = ms_to_samples(range.0);
    let e0 = ms_to_samples(range.1);
    let s = if s0 > samples_len {
        samples_len
    } else {
        s0
    };
    let e0c = if e0 > samples_len {
        samples_len
    } else {
        e0
    };
    let e = if e0c < s {
        s
    } else {
        e0c
    };
    (s, e)
}

/// How one reported range extends the selected ranges: dropped when too
/// short or empty after padding, merged into the last range when it
/// overlaps or sits within the merge gap, appended otherwise.
pub open spec fn spec_policy_step(
    acc: Seq<(int, int)>,
    r: (u64, u64),
    len: int,
    policy: VadPolicy,
) -> Seq<(int, int)> {
    let (s, e) = spec_clamped_range(r, len);
    let dur = e - s;
    if dur < spec_ms_to_samples(policy.min_speech_ms as int) {
        acc
    } else {
        let pre = spec_ms_to_samples(policy.pre_pad_ms as int);
        let post = spec_ms_to_samples(policy.post_pad_ms as int);
        let gap_merge = spec_ms_to_samples(policy.gap_merge_ms as int);
        let ps = if s - pre < 0 {
            0int
        } else {
            s - pre
        };
        let pe = if e + post > len {
            len
        } else {
            e + post
        };
        if ps >= pe {
            acc
        } else if acc.len() > 0 && (ps <= acc.last().1 || ps - acc.last().1 <= gap_merge) {
            acc.update(
                acc.len() - 1,
                (
                    acc.last().0,
                    if acc.last().1 > pe {
                        acc.last().1
                    } else {
                        pe
                    },
                ),
            )
        } else {
            acc.push((ps, pe))
        }
    }
}

/// The ranges the policy selects from a report, in order.
pub open spec fn spec_policy_ranges(ranges: Seq<(u64, u64)>, len: int, policy: VadPolicy) -> Seq<
    (int, int),
>
    decreases ranges.len(),
{
    if ranges.len() == 0 {
        Seq::empty()
    } else {
        spec_policy_step(
            spec_policy_ranges(ranges.drop_last(), len, policy),
            ranges.last(),
            len,
            policy,
        )
    }
}

/// A selected range list is well formed for a buffer of `len` samples:
/// every range is non-empty, within bounds, ordered, and separated from
/// the next.
pub open spec fn spec_ranges_wf(ranges: Seq<(usize, usize)>, len: int) -> bool {
    &&& forall|i: int| 0 <= i < ranges.len() ==> (#[trigger] ranges[i]).0 < ranges[i].1 <= len
    &&& forall|i: int|
        0 <= i < ranges.len() - 1 ==> (#[trigger] ranges[i]).1 < ranges[i + 1].0
}

/// Select the speech sample ranges of a buffer under a policy.
///
/// Reported ranges that are shorter than `min_speech_ms`, or empty once
/// clamped and padded, are dropped; the rest are padded by `pre_pad_ms`
/// and `post_pad_ms` and merged when they overlap or sit within
/// `gap_merge_ms` of each other. The result is `Some` exactly when some
/// reported range survives the policy, and is then sorted, in bounds,
/// non-empty and non-overlapping.
#[verifier::rlimit(80)]
pub fn speech_ranges_with_policy(
    ranges_ms: &Vec<(u64, u64)>,
    samples_len: usize,
    policy: VadPolicy,
) -> (r: Option<Vec<(usize, usize)>>)
    ensures
        r is Some <==> exists|i: int|
            0 <= i < ranges_ms@.len() && spec_qualifies(
                #[trigger] ranges_ms@[i],
                samples_len as int,
                policy,
            ),
        match r {
            Some(v) => v@.len() >= 1 && spec_ranges_wf(v@, samples_len as int) && v@.map_values(
                |p: (usize, usize)| (p.0 as int, p.1 as int),
            ) == spec_policy_ranges(ranges_ms@, samples_len as int, policy),
            None => spec_policy_ranges(ranges_ms@, samples_len as int, policy) == Seq::<(
                int,
                int,
            )>::empty(),
        },
{
    let pre_pad_samples = ms_to_samples(policy.pre_pad_ms as u64);
    let post_pad_samples = ms_to_samples(policy.post_pad_ms as u64);
    let min_speech_samples = ms_to_samples(policy.min_speech_ms as u64);
    let gap_merge_samples = ms_to_samples(policy.gap_merge_ms as u64);
    let mut out: Vec<(usize, usize)> = Vec::new();
    let mut i: usize = 0;
    while i < ranges_ms.len()
        invariant
            0 <= i <= ranges_ms@.len(),
            pre_pad_samples as int == spec_ms_to_samples(policy.pre_pad_ms as int),
            post_pad_samples as int == spec_ms_to_samples(policy.post_pad_ms as int),
            min_speech_samples as int == spec_ms_to_samples(policy.min_speech_ms as int),
            gap_merge_samples as int == spec_ms_to_samples(policy.gap_merge_ms as int),
            spec_ranges_wf(out@, samples_len as int),
            out@.map_values(|p: (usize, usize)| (p.0 as int, p.1 as int)) == spec_policy_ranges(
                ranges_ms@.subrange(0, i as int),
                samples_len as int,
                policy,
            ),
            (out@.len() >= 1) <==> exists|j: int|
                0 <= j < i && spec_qualifies(#[trigger] ranges_ms@[j], samples_len as int, policy),
        decreases ranges_ms@.len() - i,
    {
        proof {
            assert(ranges_ms@.subrange(0, i + 1).drop_last() =~= ranges_ms@.subrange(0, i as int));
            assert(ranges_ms@.subrange(0, i + 1).last() == ranges_ms@[i as int]);
        }
        let (start_raw, end_raw) = segment_sample_indexes(ranges_ms[i], samples_len);
        let dur = end_raw - start_raw;
        if dur < min_speech_samples {
            i = i + 1;
            continue ;
        }
        let start_idx = if start_raw < pre_pad_samples {
            0
        } else {
            start_raw - pre_pad_samples
        };
        let end_idx = if post_pad_samples > samples_len - end_raw {
            samples_len
        } else {
            end_raw + post_pad_samples
        };
        if start_idx >= end_idx {
            i = i + 1;
            continue ;
        }
        proof {
            assert(spec_qualifies(ranges_ms@[i as int], samples_len as int, policy));
        }
        let mut merged: bool = false;
        if out.len() > 0 {
            let last = out[out.len() - 1];
            let prev_end = last.1;
            let gap = if start_idx >= prev_end {
                start_idx - prev_end
            } else {
                0
            };
            if start_idx <= prev_end || gap <= gap_merge_samples {
                let new_end = if prev_end > end_idx {
                    prev_end
                } else {
                    end_idx
                };
                let li = out.len() - 1;
                out[li] = (last.0, new_end);
                merged = true;
                proof {
                    assert(spec_ranges_wf(out@, samples_len as int));
                    assert(out@.map_values(|p: (usize, usize)| (p.0 as int, p.1 as int))
                        =~= spec_policy_ranges(
                        ranges_ms@.subrange(0, i + 1),
                        samples_len as int,
                        policy,
                    ));
                }
            }
        }
        if !merged {
            out.push((start_idx, end_idx));
            proof {
                assert(spec_ranges_wf(out@, samples_len as int));
                assert(out@.map_values(|p: (usize, usize)| (p.0 as int, p.1 as int))
                    =~= spec_policy_ranges(
                    ranges_ms@.subrange(0, i + 1),
                    samples_len as int,
                    policy,
                ));
            }
        }
        i = i + 1;
    }
    proof {
        assert(ranges_ms@.subrange(0, ranges_ms@.len() as int) =~= ranges_ms@);
    }
    if out.len() == 0 {
        proof {
            assert(spec_policy_ranges(ranges_ms@, samples_len as int, policy) =~= Seq::<(
                int,
                int,
            )>::empty());
        }
        None
    } else {
        Some(out)
    }
}

/// When no reported range survives the policy, nothing is selected.
pub proof fn lemma_no_qualify_no_ranges(ranges: Seq<(u64, u64)>, len: int, policy: VadPolicy)
    requires
        forall|i: int| 0 <= i < ranges.len() ==> !spec_qualifies(#[trigger] ranges[i], len, policy),
    ensures
        spec_policy_ranges(ranges, len, policy) == Seq::<(int, int)>::empty(),
    decreases ranges.len(),
{
    if ranges.len() > 0 {
        lemma_no_qualify_no_ranges(ranges.drop_last(), len, policy);
        assert(!spec_qualifies(ranges.last(), len, policy));
    }
}

/// Truncated-toward-zero scaling of a sample by a fraction in parts per
/// million.
pub open spec fn spec_scaled(v: int, gain_ppm: int) -> int {
    let p = v * gain_ppm;
    if p >= 0 {
        p / 1000000
    } else {
        -((-p) / 1000000)
    }
}

/// Whether `idx` lies inside one of the selected ranges.
pub open spec fn spec_in_ranges(ranges: Seq<(usize, usize)>, idx: int) -> bool {
    exists|i: int| 0 <= i < ranges.len() && (#[trigger] ranges[i]).0 <= idx < ranges[i].1
}

/// Scale one sample by a gain in parts per million (at most one).
fn scale_sample(v: i64, gain_ppm: u32) -> (r: i64)
    requires
        gain_ppm <= PPM,
    ensures
        r as int == spec_scaled(v as int, gain_ppm as int),
{
    if v >= 0 {
        proof {
            assert(v as int * gain_ppm as int <= 0x7fff_ffff_ffff_ffff * 1000000)
                by (nonlinear_arith)
                requires
                    0 <= v as int <= 0x7fff_ffff_ffff_ffff,
                    0 <= gain_ppm as int <= 1000000,
            ;
        }
        let p: u128 = (v as u128) * (gain_ppm as u128);
        let q: u128 = p / 1000000u128;
        proof {
            assert(p as int == v as int * gain_ppm as int);
            assert(p as int <= v as int * 1000000) by (nonlinear_arith)
                requires
                    p as int == v as int * gain_ppm as int,
                    0 <= gain_ppm as int <= 1000000,
                    v >= 0,
            ;
            lemma_div_is_ordered(p as int, v as int * 1000000, 1000000);
            lemma_div_by_multiple(v as int, 1000000);
            assert(v as int * 1000000 == 1000000 * (v as int)) by (nonlinear_arith);
        }
        q as i64
    } else {
        let mag: u128 = (-(v as i128)) as u128;
        proof {
            assert(mag as int * gain_ppm as int <= 0x8000_0000_0000_0000 * 1000000)
                by (nonlinear_arith)
                requires
                    0 <= mag as int <= 0x8000_0000_0000_0000,
                    0 <= gain_ppm as int <= 1000000,
            ;
        }
        let p: u128 = mag * (gain_ppm as u128);
        let q: u128 = p / 1000000u128;
        proof {
            assert(mag as int == -(v as int));
            assert(p as int == mag as int * gain_ppm as int);
            assert(p as int <= mag as int * 1000000) by (nonlinear_arith)
                requires
                    p as int == mag as int * gain_ppm as int,
                    0 <= gain_ppm as int <= 1000000,
                    mag as int >= 0,
            ;
            lemma_div_is_ordered(p as int, mag as int * 1000000, 1000000);
            lemma_div_by_multiple(mag as int, 1000000);
            assert(mag as int * 1000000 == 1000000 * (mag as int)) by (nonlinear_arith);
            assert(-(v as int * gain_ppm as int) == p as int) by (nonlinear_arith)
                requires
                    mag as int == -(v as int),
                    p as int == mag as int * gain_ppm as int,
            ;
            assert(v as int * gain_ppm as int <= 0) by (nonlinear_arith)
                requires
                    v < 0,
                    gain_ppm as int >= 0,
            ;
        }
        if q >= 0x8000_0000_0000_0000u128 {
            i64::MIN
        } else {
            -(q as i64)
        }
    }
}

/// In a well-formed range list, ranges after `p` start no earlier than
/// range `p` does.
proof fn lemma_ranges_chain(ranges: Seq<(usize, usize)>, len: int, p: int, j: int)
    requires
        spec_ranges_wf(ranges, len),
        0 <= p <= j < ranges.len(),
    ensures
        ranges[p].0 <= ranges[j].0,
        p < j ==> ranges[p].1 <= ranges[j].0,
    decreases j - p,
{
    if p < j {
        lemma_ranges_chain(ranges, len, p + 1, j);
    }
}

/// Attenuate everything outside the selected ranges, in place.
///
/// Samples inside a range are untouched; every other sample is scaled by
/// `gain_ppm` (clamped to at most one). The buffer's length and timeline
/// are preserved.
pub fn apply_non_speech_gain_in_place(
    samples: &mut Vec<i64>,
    ranges: &Vec<(usize, usize)>,
    gain_ppm: u32,
)
    requires
        spec_ranges_wf(ranges@, old(samples)@.len() as int),
    ensures
        final(samples)@.len() == old(samples)@.len(),
        forall|idx: int|
            0 <= idx < old(samples)@.len() ==> #[trigger] final(samples)@[idx] as int == (
            if spec_in_ranges(ranges@, idx) {
                old(samples)@[idx] as int
            } else {
                spec_scaled(
                    old(samples)@[idx] as int,
                    if gain_ppm > PPM {
                        PPM as int
                    } else {
                        gain_ppm as int
                    },
                )
            }),
{
    let gain: u32 = if gain_ppm > PPM {
        PPM
    } else {
        gain_ppm
    };
    let n: usize = samples.len();
    let mut out: Vec<i64> = Vec::new();
    let mut p: usize = 0;
    let mut idx: usize = 0;
    while idx < n
        invariant
            n == old(samples)@.len(),
            samples@ == old(samples)@,
            gain <= PPM,
            gain as int == if gain_ppm > PPM {
                PPM as int
            } else {
                gain_ppm as int
            },
            spec_ranges_wf(ranges@, n as int),
            0 <= idx <= n,
            0 <= p <= ranges@.len(),
            forall|j: int| 0 <= j < p ==> (#[trigger] ranges@[j]).1 <= idx,
            out@.len() == idx,
            forall|m: int|
                0 <= m < idx ==> #[trigger] out@[m] as int == (if spec_in_ranges(ranges@, m) {
                    old(samples)@[m] as int
                } else {
                    spec_scaled(
                        old(samples)@[m] as int,
                        if gain_ppm > PPM {
                            PPM as int
                        } else {
                            gain_ppm as int
                        },
                    )
                }),
        decreases n - idx,
    {
        while p < ranges.len() && ranges[p].1 <= idx
            invariant
                spec_ranges_wf(ranges@, n as int),
                0 <= p <= ranges@.len(),
                forall|j: int| 0 <= j < p ==> (#[trigger] ranges@[j]).1 <= idx,
            decreases ranges@.len() - p,
        {
            p = p + 1;
        }
        let in_range: bool = p < ranges.len() && ranges[p].0 <= idx;
        proof {
            if in_range {
                assert(spec_in_ranges(ranges@, idx as int));
            } else {
                assert(!spec_in_ranges(ranges@, idx as int)) by {
                    if spec_in_ranges(ranges@, idx as int) {
                        let w = choose|w: int|
                            0 <= w < ranges@.len() && (#[trigger] ranges@[w]).0 <= idx as int && (
                            idx as int) < ranges@[w].1;
                        if w < p {
                            assert(ranges@[w].1 <= idx);
                        } else {
                            assert(p < ranges@.len());
                            if p < w {
                                lemma_ranges_chain(ranges@, n as int, p as int, w);
                                assert(ranges@[p as int].1 <= ranges@[w].0);
                            }
                        }
                    }
                }
            }
        }
        if in_range {
            out.push(samples[idx]);
        } else {
            out.push(scale_sample(samples[idx], gain));
        }
        idx = idx + 1;
    }
    core::mem::swap(samples, &mut out);
}

/// The default policy as a specification value.
pub open spec fn spec_default_policy() -> VadPolicy {
    VadPolicy {
        threshold_ppm: 500_000u32,
        pre_pad_ms: 250u32,
        post_pad_ms: 250u32,
        min_speech_ms: 250u32,
        gap_merge_ms: 300u32,
        non_speech_gain_ppm: 0u32,
    }
}

/// Keep speech, attenuate the rest, under the default policy.
pub fn to_speech_only(samples: &mut Vec<i64>, ranges_ms: &Vec<(u64, u64)>) -> (r: bool)
    ensures
        final(samples)@.len() == old(samples)@.len(),
        r <==> exists|i: int|
            0 <= i < ranges_ms@.len() && spec_qualifies(
                #[trigger] ranges_ms@[i],
                old(samples)@.len() as int,
                spec_default_policy(),
            ),
        !r ==> final(samples)@ == old(samples)@,
        r ==> forall|idx: int|
            0 <= idx < old(samples)@.len() ==> #[trigger] final(samples)@[idx] as int == (
            if spec_in_policy_ranges(
                spec_policy_ranges(ranges_ms@, old(samples)@.len() as int, spec_default_policy()),
                idx,
            ) {
                old(samples)@[idx] as int
            } else {
                0int
            }),
{
    let policy = VadPolicy::default();
    let r = to_speech_only_with_policy(samples, ranges_ms, policy);
    proof {
        assert forall|x: int| spec_scaled(x, 0) == 0 by {
            assert(x * 0 == 0) by (nonlinear_arith);
            vstd::arithmetic::div_mod::lemma_div_basics(1000000);
        }
    }
    r
}

/// Keep speech, attenuate the rest: apply the policy to the analyzer's
/// reported ranges and scale everything outside the selected ranges.
///
/// Returns false — leaving the buffer untouched — exactly when no
/// reported range survives the policy. Otherwise scales the non-speech
/// samples in place and returns true; a full gain of one changes nothing.
pub fn to_speech_only_with_policy(
    samples: &mut Vec<i64>,
    ranges_ms: &Vec<(u64, u64)>,
    policy: VadPolicy,
) -> (r: bool)
    ensures
        final(samples)@.len() == old(samples)@.len(),
        r <==> exists|i: int|
            0 <= i < ranges_ms@.len() && spec_qualifies(
                #[trigger] ranges_ms@[i],
                old(samples)@.len() as int,
                policy,
            ),
        !r ==> final(samples)@ == old(samples)@,
        r ==> forall|idx: int|
            0 <= idx < old(samples)@.len() ==> #[trigger] final(samples)@[idx] as int == (
            if spec_in_policy_ranges(
                spec_policy_ranges(ranges_ms@, old(samples)@.len() as int, policy),
                idx,
            ) {
                old(samples)@[idx] as int
            } else {
                spec_scaled(
                    old(samples)@[idx] as int,
                    if policy.non_speech_gain_ppm > PPM {
                        PPM as int
                    } else {
                        policy.non_speech_gain_ppm as int
                    },
                )
            }),
{
    let len: usize = samples.len();
    match speech_ranges_with_policy(ranges_ms, len, policy) {
        None => false,
        Some(ranges) => {
            apply_non_speech_gain_in_place(samples, &ranges, policy.non_speech_gain_ppm);
            proof {
                let mapped = ranges@.map_values(|p: (usize, usize)| (p.0 as int, p.1 as int));
                assert forall|idx: int| spec_in_ranges(ranges@, idx) == spec_in_policy_ranges(
                    mapped,
                    idx,
                ) by {
                    if spec_in_ranges(ranges@, idx) {
                        let w = choose|w: int|
                            0 <= w < ranges@.len() && (#[trigger] ranges@[w]).0 <= idx && idx < (
                            ranges@[w]).1;
                        assert(mapped[w].0 <= idx < mapped[w].1);
                    }
                    if spec_in_policy_ranges(mapped, idx) {
                        let w = choose|w: int|
                            0 <= w < mapped.len() && (#[trigger] mapped[w]).0 <= idx && idx < (
                            mapped[w]).1;
                        assert((ranges@[w]).0 <= idx < (ranges@[w]).1);
                    }
                }
            }
            true
        },
    }
}

/// Whether `idx` lies inside one of the policy-selected ranges.
pub open spec fn spec_in_policy_ranges(ranges: Seq<(int, int)>, idx: int) -> bool {
    exists|i: int| 0 <= i < ranges.len() && (#[trigger] ranges[i]).0 <= idx < ranges[i].1
}

} // verus!
