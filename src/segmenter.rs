//! Segmenters: turn the stream of captured frames into the segments handed to a
//! recognizer, either one frame at a time or in windows of a fixed number of
//! samples.
use vstd::arithmetic::div_mod::lemma_fundamental_div_mod_converse;
use vstd::prelude::*;

verus! {

/// The sample sequences held by a sequence of buffers.
pub open spec fn sample_seqs(v: Seq<Vec<i16>>) -> Seq<Seq<i16>> {
    v.map_values(|b: Vec<i16>| b@)
}

/// Why a window segmenter could not be built.
#[derive(Debug, Clone, Copy, PartialEq, Eq, Structural)]
pub enum SegmenterError {
    /// The sample rate is zero.
    ZeroSampleRate,
    /// The channel count is zero.
    ZeroChannels,
    /// The window lasts zero seconds.
    ZeroWindow,
    /// The window holds more samples than a buffer can.
    WindowTooLarge,
}

/// Forwards each frame unchanged as one segment.
#[derive(Debug, Clone, Copy, PartialEq, Eq, Structural)]
pub struct PassThrough;

/// What a pass-through segmenter emits for one frame: the frame itself.
pub open spec fn pass_through_emits(frame: Seq<i16>) -> Seq<Seq<i16>> {
    seq![frame]
}

/// What a pass-through segmenter emits, in order, for a whole stream of frames.
pub open spec fn pass_through_stream(frames: Seq<Seq<i16>>) -> Seq<Seq<i16>>
    decreases frames.len(),
{
    if frames.len() == 0 {
        seq![]
    } else {
        pass_through_stream(frames.drop_last()) + pass_through_emits(frames.last())
    }
}

impl PassThrough {
    pub fn new() -> (r: PassThrough) {
        PassThrough
    }

    /// The segments emitted for `frame`: the frame alone.
    pub fn push(&self, frame: Vec<i16>) -> (r: Vec<Vec<i16>>)
        ensures
            sample_seqs(r@) == pass_through_emits(frame@),
    {
        let r = vec![frame];
        assert(sample_seqs(r@) =~= pass_through_emits(r@[0]@));
        r
    }
}

/// A pass-through segmenter emits exactly the frames it was fed, in order, one
/// segment per frame.
pub proof fn lemma_pass_through_identity(frames: Seq<Seq<i16>>)
    ensures
        pass_through_stream(frames) == frames,
    decreases frames.len(),
{
    if frames.len() > 0 {
        lemma_pass_through_identity(frames.drop_last());
        assert(frames.drop_last().push(frames.last()) =~= frames);
        assert(frames.drop_last() + seq![frames.last()] =~= frames.drop_last().push(frames.last()));
    }
}

/// How one `push` of a window segmenter of window `w` relates the samples held
/// before (`pending`), the frame, the segments emitted and the samples held after:
/// every segment is a full window, and the segments followed by what is held
/// after are exactly what was held before followed by the frame.
pub open spec fn window_push(
    w: nat,
    pending: Seq<i16>,
    frame: Seq<i16>,
    emitted: Seq<Seq<i16>>,
    after: Seq<i16>,
) -> bool {
    &&& forall|k: int| 0 <= k < emitted.len() ==> (#[trigger] emitted[k]).len() == w
    &&& emitted.flatten() + after == pending + frame
    &&& emitted.len() * w + after.len() == pending.len() + frame.len()
    &&& after.len() < w
}

/// Gathers samples into segments of a fixed number of samples.
pub struct WindowAccumulator {
    window: usize,
    buffer: Vec<i16>,
}

impl WindowAccumulator {
    /// The number of samples in a full window.
    pub closed spec fn window_spec(&self) -> nat {
        self.window as nat
    }

    /// The samples received and not yet emitted.
    pub closed spec fn pending(&self) -> Seq<i16> {
        self.buffer@
    }

    pub closed spec fn wf(&self) -> bool {
        self.window > 0 && self.buffer@.len() < self.window
    }

    /// A segmenter that emits every `window` samples.
    pub fn with_window(window: usize) -> (r: Result<WindowAccumulator, SegmenterError>)
        ensures
            window == 0 ==> r == Err::<WindowAccumulator, SegmenterError>(SegmenterError::ZeroWindow),
            window > 0 ==> r is Ok && r->Ok_0.wf() && r->Ok_0.window_spec() == window
                && r->Ok_0.pending().len() == 0,
    {
        if window == 0 {
            return Err(SegmenterError::ZeroWindow);
        }
        Ok(WindowAccumulator { window, buffer: Vec::new() })
    }

    /// A segmenter whose window is `window_seconds` of audio at `sample_rate`
    /// samples per second on each of `channels` channels.
    pub fn new(sample_rate: u32, channels: u16, window_seconds: u32) -> (r: Result<
        WindowAccumulator,
        SegmenterError,
    >)
        ensures
            sample_rate == 0 ==> r == Err::<WindowAccumulator, SegmenterError>(
                SegmenterError::ZeroSampleRate,
            ),
            sample_rate != 0 && channels == 0 ==> r == Err::<WindowAccumulator, SegmenterError>(
                SegmenterError::ZeroChannels,
            ),
            sample_rate != 0 && channels != 0 && window_seconds == 0 ==> r == Err::<
                WindowAccumulator,
                SegmenterError,
            >(SegmenterError::ZeroWindow),
            sample_rate != 0 && channels != 0 && window_seconds != 0 ==> {
                let w = sample_rate as int * channels as int * window_seconds as int;
                &&& w > usize::MAX ==> r == Err::<WindowAccumulator, SegmenterError>(
                    SegmenterError::WindowTooLarge,
                )
                &&& w <= usize::MAX ==> r is Ok && r->Ok_0.wf() && r->Ok_0.window_spec() == w
                    && r->Ok_0.pending().len() == 0
            },
    {
        if sample_rate == 0 {
            return Err(SegmenterError::ZeroSampleRate);
        }
        if channels == 0 {
            return Err(SegmenterError::ZeroChannels);
        }
        if window_seconds == 0 {
            return Err(SegmenterError::ZeroWindow);
        }
        let rate = sample_rate as u128;
        let chans = channels as u128;
        let secs = window_seconds as u128;
        proof {
            assert(rate * chans <= 0x1_0000_0000 * 0x1_0000) by (nonlinear_arith)
                requires
                    rate <= 0x1_0000_0000,
                    chans <= 0x1_0000,
            ;
            assert(rate * chans * secs <= 0x1_0000_0000 * 0x1_0000 * 0x1_0000_0000) by (nonlinear_arith)
                requires
                    rate * chans <= 0x1_0000_0000 * 0x1_0000,
                    secs <= 0x1_0000_0000,
            ;
        }
        let w = rate * chans * secs;
        assert(w > 0) by (nonlinear_arith)
            requires
                w == rate * chans * secs,
                rate > 0,
                chans > 0,
                secs > 0,
        ;
        if w > usize::MAX as u128 {
            return Err(SegmenterError::WindowTooLarge);
        }
        Ok(WindowAccumulator { window: w as usize, buffer: Vec::new() })
    }

    /// The number of samples in a full window.
    pub fn window(&self) -> (r: usize)
        ensures
            r == self.window_spec(),
    {
        self.window
    }

    /// Appends the samples of `frame` and returns, in order, each window that
    /// became full.
    pub fn push(&mut self, frame: &Vec<i16>) -> (r: Vec<Vec<i16>>)
        requires
            old(self).wf(),
        ensures
            final(self).wf(),
            final(self).window_spec() == old(self).window_spec(),
            window_push(
                old(self).window_spec(),
                old(self).pending(),
                frame@,
                sample_seqs(r@),
                final(self).pending(),
            ),
    {
        let ghost start = self.buffer@;
        let mut out: Vec<Vec<i16>> = Vec::new();
        let mut i: usize = 0;
        while i < frame.len()
            invariant
                self.window > 0,
                self.window == old(self).window,
                start == old(self).buffer@,
                0 <= i <= frame.len(),
                self.buffer@.len() < self.window,
                forall|k: int| 0 <= k < out@.len() ==> (#[trigger] out@[k])@.len() == self.window,
                sample_seqs(out@).flatten() + self.buffer@ == start + frame@.subrange(0, i as int),
            decreases frame.len() - i,
        {
            let ghost before = sample_seqs(out@).flatten() + self.buffer@;
            self.buffer.push(frame[i]);
            assert(sample_seqs(out@).flatten() + self.buffer@ =~= before.push(frame@[i as int]));
            assert(start + frame@.subrange(0, i + 1) =~= (start + frame@.subrange(0, i as int)).push(
                frame@[i as int],
            ));
            if self.buffer.len() == self.window {
                let mut full: Vec<i16> = Vec::new();
                core::mem::swap(&mut full, &mut self.buffer);
                let ghost segs = sample_seqs(out@);
                out.push(full);
                proof {
                    assert(sample_seqs(out@) =~= segs.push(full@));
                    segs.lemma_flatten_push(full@);
                    assert(self.buffer@ =~= Seq::<i16>::empty());
                    assert(sample_seqs(out@).flatten() + self.buffer@ =~= segs.flatten() + full@);
                }
            }
            i = i + 1;
        }
        assert(frame@.subrange(0, frame@.len() as int) =~= frame@);
        proof {
            assert forall|k: int| 0 <= k < sample_seqs(out@).len() implies (#[trigger] sample_seqs(
                out@,
            )[k]).len() == self.window by {
                assert(sample_seqs(out@)[k] == out@[k]@);
            }
            lemma_flatten_uniform_len(sample_seqs(out@), self.window as nat);
            assert((sample_seqs(out@).flatten() + self.buffer@).len() == (start + frame@).len());
        }
        out
    }

    /// Ends the stream: returns what is held, if anything, as a last segment,
    /// and leaves the segmenter empty.
    pub fn flush(&mut self) -> (r: Option<Vec<i16>>)
        requires
            old(self).wf(),
        ensures
            final(self).wf(),
            final(self).window_spec() == old(self).window_spec(),
            final(self).pending().len() == 0,
            old(self).pending().len() == 0 ==> r is None,
            old(self).pending().len() > 0 ==> r is Some && r->Some_0@ == old(self).pending(),
    {
        if self.buffer.len() == 0 {
            return None;
        }
        let mut rest: Vec<i16> = Vec::new();
        core::mem::swap(&mut rest, &mut self.buffer);
        Some(rest)
    }
}


/// The number of samples in a stream of frames.
pub open spec fn total_samples(frames: Seq<Seq<i16>>) -> nat
    decreases frames.len(),
{
    if frames.len() == 0 {
        0
    } else {
        total_samples(frames.drop_last()) + frames.last().len()
    }
}

/// The number of segments in the first `n` results of a run of pushes.
pub open spec fn total_segments(emitted: Seq<Seq<Seq<i16>>>, n: int) -> nat
    decreases n,
{
    if n <= 0 {
        0
    } else {
        total_segments(emitted, n - 1) + emitted[n - 1].len()
    }
}

proof fn lemma_flatten_uniform_len(s: Seq<Seq<i16>>, w: nat)
    requires
        forall|k: int| 0 <= k < s.len() ==> (#[trigger] s[k]).len() == w,
    ensures
        s.flatten().len() == s.len() * w,
    decreases s.len(),
{
    if s.len() > 0 {
        assert forall|k: int| 0 <= k < s.drop_first().len() implies (#[trigger] s.drop_first()[k]).len()
            == w by {
            assert(s.drop_first()[k] == s[k + 1]);
        }
        lemma_flatten_uniform_len(s.drop_first(), w);
        assert(s.len() * w == w + (s.len() - 1) * w) by (nonlinear_arith);
    }
}

proof fn lemma_window_prefix(
    w: nat,
    frames: Seq<Seq<i16>>,
    emitted: Seq<Seq<Seq<i16>>>,
    pendings: Seq<Seq<i16>>,
    i: int,
)
    requires
        w > 0,
        0 <= i <= frames.len(),
        emitted.len() == frames.len(),
        pendings.len() == frames.len() + 1,
        pendings[0].len() == 0,
        forall|j: int|
            0 <= j < frames.len() ==> window_push(
                w,
                #[trigger] pendings[j],
                frames[j],
                emitted[j],
                pendings[j + 1],
            ),
    ensures
        total_segments(emitted, i) * w + pendings[i].len() == total_samples(frames.subrange(0, i)),
    decreases i,
{
    if i > 0 {
        let j = i - 1;
        lemma_window_prefix(w, frames, emitted, pendings, j);
        assert(window_push(w, pendings[j], frames[j], emitted[j], pendings[j + 1]));
        assert(frames.subrange(0, i).drop_last() =~= frames.subrange(0, j));
        assert(frames.subrange(0, i).last() == frames[j]);
        assert((total_segments(emitted, j) + emitted[j].len()) * w == total_segments(emitted, j) * w
            + emitted[j].len() * w) by (nonlinear_arith);
    } else {
        assert(frames.subrange(0, 0).len() == 0);
        assert(total_samples(frames.subrange(0, 0)) == 0);
        assert(total_segments(emitted, 0) == 0);
        assert(total_segments(emitted, i) * w == 0);
    }
}

/// A window segmenter of window `w` that starts empty and is pushed the frames
/// `frames` in order (the `i`-th push emitting `emitted[i]` and leaving
/// `pendings[i + 1]` held) has emitted `K / w` full segments in all, where `K` is
/// the number of samples pushed, and holds the last `K % w` of them, which a
/// flush then emits as one more segment when there are any.
pub proof fn lemma_window_counts(
    w: nat,
    frames: Seq<Seq<i16>>,
    emitted: Seq<Seq<Seq<i16>>>,
    pendings: Seq<Seq<i16>>,
)
    requires
        w > 0,
        emitted.len() == frames.len(),
        pendings.len() == frames.len() + 1,
        pendings[0].len() == 0,
        forall|i: int|
            0 <= i < frames.len() ==> window_push(
                w,
                #[trigger] pendings[i],
                frames[i],
                emitted[i],
                pendings[i + 1],
            ),
    ensures
        total_segments(emitted, frames.len() as int) == total_samples(frames) / w,
        pendings.last().len() == total_samples(frames) % w,
{
    let n = frames.len() as int;
    lemma_window_prefix(w, frames, emitted, pendings, n);
    assert(frames.subrange(0, n) =~= frames);
    assert(pendings.last() == pendings[n]);
    if n > 0 {
        assert(window_push(w, pendings[n - 1], frames[n - 1], emitted[n - 1], pendings[n]));
    }
    lemma_fundamental_div_mod_converse(
        total_samples(frames) as int,
        w as int,
        total_segments(emitted, n) as int,
        pendings[n].len() as int,
    );
}

} // verus!
