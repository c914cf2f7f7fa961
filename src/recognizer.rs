//! The recognizer side of the pipeline, as the rest of the library sees it:
//! its options, the final results it yields, and the reduction of
//! multichannel audio to the mono stream a recognizer expects.
use crate::text::texts;
use vstd::prelude::*;

verus! {

/// A confirmed transcript of one utterance: the best hypothesis and the
/// others, best first.
#[derive(Debug)]
pub struct FinalResult {
    pub text: String,
    pub alternatives: Vec<String>,
}

/// The options a streaming recognizer is configured with once, before the
/// first segment.
#[derive(Debug, Clone, Copy, PartialEq, Eq, Structural)]
pub struct StreamingOptions {
    /// How many ranked hypotheses a final result carries (0: a single one).
    pub max_alternatives: u16,
    /// Whether final results carry per-word timings.
    pub word_timings: bool,
    /// Whether partial results carry per-word timings.
    pub partial_word_timings: bool,
}

impl StreamingOptions {
    /// Ten ranked hypotheses, with word timings in final and partial results.
    pub fn ranked() -> (r: StreamingOptions)
        ensures
            r == (StreamingOptions { max_alternatives: 10, word_timings: true, partial_word_timings: true }),
    {
        StreamingOptions { max_alternatives: 10, word_timings: true, partial_word_timings: true }
    }
}

impl FinalResult {
    /// Builds a final result from ranked hypotheses, best first: the first is
    /// the text, the rest are kept in order. There is none without hypotheses.
    pub fn from_ranked(ranked: Vec<String>) -> (r: Option<FinalResult>)
        ensures
            ranked@.len() == 0 <==> r is None,
            r is Some ==> r->Some_0.text@ == ranked@[0]@ && texts(r->Some_0.alternatives@)
                == texts(ranked@).drop_first(),
    {
        let mut ranked = ranked;
        if ranked.len() == 0 {
            return None;
        }
        let ghost all = texts(ranked@);
        let text = ranked.remove(0);
        proof {
            assert(texts(ranked@) =~= all.drop_first());
        }
        Some(FinalResult { text, alternatives: ranked })
    }
}

/// The mean of the `channels` samples of frame `f` of interleaved audio,
/// rounded down.
pub open spec fn mixed_sample(samples: Seq<i16>, channels: nat, f: int) -> int
    recommends
        channels > 0,
{
    frame_sum(samples, channels, f, channels as int) / (channels as int)
}

/// The sum of the first `c` samples of frame `f` of interleaved audio.
pub open spec fn frame_sum(samples: Seq<i16>, channels: nat, f: int, c: int) -> int
    decreases c,
{
    if c <= 0 {
        0
    } else {
        frame_sum(samples, channels, f, c - 1) + samples[f * channels + c - 1] as int
    }
}

proof fn lemma_frame_sum_bounds(samples: Seq<i16>, channels: nat, f: int, c: int)
    requires
        0 <= c,
    ensures
        -32768 * c <= frame_sum(samples, channels, f, c) <= 32767 * c,
    decreases c,
{
    if c > 0 {
        lemma_frame_sum_bounds(samples, channels, f, c - 1);
    }
}

/// Averages each frame of interleaved `channels`-channel audio into one mono
/// sample (rounding down). There is no result for zero channels or for a
/// buffer that does not hold whole frames.
pub fn downmix(samples: &Vec<i16>, channels: u16) -> (r: Option<Vec<i16>>)
    ensures
        r is None <==> (channels == 0 || samples@.len() as int % (channels as int) != 0),
        r is Some ==> {
            let m = r->Some_0@;
            &&& m.len() * channels == samples@.len()
            &&& forall|f: int| 0 <= f < m.len() ==> #[trigger] m[f] as int == mixed_sample(
                samples@,
                channels as nat,
                f,
            )
        },
{
    if channels == 0 {
        return None;
    }
    let c = channels as usize;
    if samples.len() % c != 0 {
        return None;
    }
    let n: usize = samples.len();
    let frames = n / c;
    proof {
        vstd::arithmetic::div_mod::lemma_fundamental_div_mod(samples@.len() as int, c as int);
        assert(frames * c == samples@.len()) by (nonlinear_arith)
            requires
                samples@.len() == c * (samples@.len() as int / c as int) + samples@.len() as int % c as int,
                samples@.len() as int % c as int == 0,
                frames == samples@.len() as int / c as int,
        ;
    }
    let mut out: Vec<i16> = Vec::new();
    let mut f: usize = 0;
    while f < frames
        invariant
            c == channels,
            c > 0,
            frames * c == samples@.len(),
            samples@.len() <= usize::MAX,
            0 <= f <= frames,
            out@.len() == f,
            forall|g: int| 0 <= g < f ==> #[trigger] out@[g] as int == mixed_sample(
                samples@,
                channels as nat,
                g,
            ),
        decreases frames - f,
    {
        let mut sum: i64 = 0;
        let mut k: usize = 0;
        assert((f + 1) * c <= frames * c) by (nonlinear_arith)
            requires
                f + 1 <= frames,
        ;
        while k < c
            invariant
                c == channels,
                c > 0,
                f < frames,
                (f + 1) * c <= samples@.len(),
                samples@.len() <= usize::MAX,
                0 <= k <= c,
                sum == frame_sum(samples@, channels as nat, f as int, k as int),
                -32768 * k <= sum <= 32767 * k,
            decreases c - k,
        {
            assert(f * c + k < (f + 1) * c) by (nonlinear_arith)
                requires
                    k < c,
            ;
            assert(f * c <= f * c + k);
            sum = sum + samples[f * c + k] as i64;
            k = k + 1;
        }
        // Shift to a non-negative value so that unsigned division rounds down.
        let shifted = (sum + 32768 * (c as i64)) as u64;
        let q = (shifted / (c as u64)) as i64 - 32768;
        proof {
            let s = sum as int;
            let ci = c as int;
            assert(0 <= s + 32768 * ci <= 65535 * ci);
            assert((s + 32768 * ci) / ci == s / ci + 32768) by {
                vstd::arithmetic::div_mod::lemma_hoist_over_denominator(s, 32768, ci as nat);
            }
            assert(-32768 <= s / ci <= 32767) by {
                vstd::arithmetic::div_mod::lemma_div_is_ordered(-32768 * ci, s, ci);
                vstd::arithmetic::div_mod::lemma_div_is_ordered(s, 32767 * ci, ci);
                vstd::arithmetic::div_mod::lemma_hoist_over_denominator(0, -32768, ci as nat);
                vstd::arithmetic::div_mod::lemma_div_by_multiple(32767, ci);
            }
        }
        out.push(q as i16);
        f = f + 1;
    }
    Some(out)
}

} // verus!
