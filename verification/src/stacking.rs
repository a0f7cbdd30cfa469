use vstd::prelude::*;

use crate::errors::PipelineError;

verus! {

/// A raster image: `width * height` pixels in row-major order.  Pixel
/// values are integer intensities (an 8- or 16-bit image embeds losslessly).
#[derive(Clone, Debug, PartialEq, Eq)]
pub struct Frame {
    pub width: usize,
    pub height: usize,
    pub pixels: Vec<u32>,
}

pub open spec fn frame_wf(f: Frame) -> bool {
    f.pixels@.len() == f.width * f.height
}

impl Frame {
    /// A frame filled with one uniform value.
    pub fn new(width: usize, height: usize, fill: u32) -> (r: Frame)
        requires
            width * height <= usize::MAX,
        ensures
            r.width == width,
            r.height == height,
            frame_wf(r),
            forall|p: int| 0 <= p < r.pixels@.len() ==> r.pixels@[p] == fill,
    {
        let n: usize = width * height;
        let mut pixels: Vec<u32> = Vec::new();
        let mut j: usize = 0;
        while j < n
            invariant
                j <= n,
                pixels@.len() == j,
                forall|p: int| 0 <= p < j ==> pixels@[p] == fill,
            decreases n - j,
        {
            pixels.push(fill);
            j = j + 1;
        }
        Frame { width, height, pixels }
    }
}

/// The sum, over a list of frames, of the pixel at buffer position `p`.
pub open spec fn pixel_sum(frames: Seq<Frame>, p: int) -> int
    decreases frames.len(),
{
    if frames.len() == 0 {
        0
    } else {
        pixel_sum(frames.drop_last(), p) + frames.last().pixels@[p]
    }
}

proof fn lemma_pixel_sum_bounds(frames: Seq<Frame>, p: int)
    ensures
        0 <= pixel_sum(frames, p) <= frames.len() * (u32::MAX as int),
    decreases frames.len(),
{
    if frames.len() == 0 {
    } else {
        lemma_pixel_sum_bounds(frames.drop_last(), p);
        assert((frames.len() - 1) * (u32::MAX as int) + (u32::MAX as int) == frames.len() * (
        u32::MAX as int)) by (nonlinear_arith);
    }
}

/// Streaming mean state: the pixel-wise sum of every frame merged so far,
/// and how many were merged.  The ghost `frames` field records those frames;
/// the invariant ties the sums to them exactly, so the accumulator holds the
/// exact mean of the merged frames without retaining them.
pub struct StackAccumulator {
    pub width: usize,
    pub height: usize,
    pub sums: Vec<u64>,
    pub count: u32,
    pub frames: Ghost<Seq<Frame>>,
}

impl StackAccumulator {
    pub open spec fn wf(self) -> bool {
        &&& self.sums@.len() == self.width * self.height
        &&& self.count == self.frames@.len()
        &&& forall|k: int|
            0 <= k < self.frames@.len() ==> {
                let f = #[trigger] self.frames@[k];
                f.width == self.width && f.height == self.height && frame_wf(f)
            }
        &&& forall|p: int|
            0 <= p < self.sums@.len() ==> (#[trigger] self.sums@[p]) == pixel_sum(self.frames@, p)
    }

    /// An empty accumulator for frames of the given size.
    pub fn new(width: usize, height: usize) -> (r: StackAccumulator)
        requires
            width * height <= usize::MAX,
        ensures
            r.wf(),
            r.width == width,
            r.height == height,
            r.count == 0,
            r.frames@ == Seq::<Frame>::empty(),
    {
        let n: usize = width * height;
        let mut sums: Vec<u64> = Vec::new();
        let mut j: usize = 0;
        while j < n
            invariant
                j <= n,
                sums@.len() == j,
                forall|p: int| 0 <= p < j ==> sums@[p] == 0,
            decreases n - j,
        {
            sums.push(0u64);
            j = j + 1;
        }
        StackAccumulator { width, height, sums, count: 0, frames: Ghost(Seq::empty()) }
    }

    /// Merges one more frame into the running sums.  The merged count only
    /// ever grows; a frame of the wrong size is rejected and the state is
    /// left untouched.
    pub fn merge(&mut self, frame: &Frame) -> (r: Result<(), PipelineError>)
        requires
            old(self).wf(),
            frame_wf(*frame),
            old(self).frames@.len() < u32::MAX,
        ensures
            final(self).wf(),
            final(self).width == old(self).width,
            final(self).height == old(self).height,
            match r {
                Ok(_) => {
                    &&& frame.width == old(self).width
                    &&& frame.height == old(self).height
                    &&& final(self).frames@ == old(self).frames@.push(*frame)
                },
                Err(e) => {
                    &&& e == PipelineError::DimensionMismatch
                    &&& (frame.width != old(self).width || frame.height != old(self).height)
                    &&& *final(self) == *old(self)
                },
            },
    {
        if frame.width != self.width || frame.height != self.height {
            return Err(PipelineError::DimensionMismatch);
        }
        let ghost old_frames = self.frames@;
        let ghost w0 = self.width;
        let ghost h0 = self.height;
        let mut j: usize = 0;
        while j < self.sums.len()
            invariant
                j <= self.sums@.len(),
                self.width == w0,
                self.height == h0,
                self.count == old_frames.len() < u32::MAX,
                self.frames@ == old_frames,
                frame_wf(*frame),
                frame.width == w0,
                frame.height == h0,
                self.sums@.len() == w0 * h0,
                frame.pixels@.len() == self.sums@.len(),
                forall|k: int|
                    0 <= k < old_frames.len() ==> {
                        let f = #[trigger] old_frames[k];
                        f.width == w0 && f.height == h0 && frame_wf(f)
                    },
                forall|p: int|
                    j <= p < self.sums@.len() ==> (#[trigger] self.sums@[p]) == pixel_sum(
                        old_frames,
                        p,
                    ),
                forall|p: int|
                    0 <= p < j ==> (#[trigger] self.sums@[p]) == pixel_sum(old_frames, p)
                        + frame.pixels@[p],
            decreases self.sums@.len() - j,
        {
            proof {
                lemma_pixel_sum_bounds(old_frames, j as int);
                assert(old_frames.len() * (u32::MAX as int) + (u32::MAX as int) <= (u64::MAX
                    as int)) by (nonlinear_arith)
                    requires
                        old_frames.len() < u32::MAX,
                ;
            }
            let s: u64 = self.sums[j] + (frame.pixels[j] as u64);
            self.sums.set(j, s);
            j = j + 1;
        }
        self.count = self.count + 1;
        proof {
            self.frames@ = old_frames.push(*frame);
            assert(old_frames.push(*frame).drop_last() =~= old_frames);
            assert forall|p: int| 0 <= p < self.sums@.len() implies (#[trigger] self.sums@[p])
                == pixel_sum(self.frames@, p) by {
                assert(pixel_sum(self.frames@, p) == pixel_sum(old_frames, p)
                    + frame.pixels@[p]);
            }
        }
        Ok(())
    }

    /// The exact unweighted mean of the merged frames, pixel by pixel
    /// (integer division).
    pub fn mean_frame(&self) -> (r: Frame)
        requires
            self.wf(),
            self.count > 0,
        ensures
            frame_wf(r),
            r.width == self.width,
            r.height == self.height,
            forall|p: int|
                0 <= p < r.pixels@.len() ==> (#[trigger] r.pixels@[p]) == pixel_sum(
                    self.frames@,
                    p,
                ) / (self.frames@.len() as int),
    {
        let mut pixels: Vec<u32> = Vec::new();
        let mut j: usize = 0;
        while j < self.sums.len()
            invariant
                j <= self.sums@.len(),
                self.wf(),
                self.count > 0,
                pixels@.len() == j,
                forall|p: int|
                    0 <= p < j ==> (#[trigger] pixels@[p]) == pixel_sum(self.frames@, p) / (
                    self.frames@.len() as int),
            decreases self.sums@.len() - j,
        {
            proof {
                let n = self.frames@.len() as int;
                lemma_pixel_sum_bounds(self.frames@, j as int);
                vstd::arithmetic::div_mod::lemma_div_is_ordered(
                    pixel_sum(self.frames@, j as int),
                    n * (u32::MAX as int),
                    n,
                );
                vstd::arithmetic::div_mod::lemma_div_multiples_vanish(u32::MAX as int, n);
                vstd::arithmetic::div_mod::lemma_div_pos_is_pos(
                    pixel_sum(self.frames@, j as int),
                    n,
                );
            }
            let q: u64 = self.sums[j] / (self.count as u64);
            pixels.push(q as u32);
            j = j + 1;
        }
        Frame { width: self.width, height: self.height, pixels }
    }
}

/// Folds a non-empty frame list into its pixel-wise mean.  Every frame must
/// have the dimensions of the first, else the run fails with
/// DimensionMismatch.
pub fn stack_image(frames: &Vec<Frame>) -> (r: Result<Frame, PipelineError>)
    requires
        frames@.len() >= 1,
        frames@.len() <= u32::MAX,
        forall|k: int| 0 <= k < frames@.len() ==> frame_wf(#[trigger] frames@[k]),
    ensures
        match r {
            Ok(f) => {
                &&& forall|k: int|
                    0 <= k < frames@.len() ==> (#[trigger] frames@[k]).width == frames@[0].width
                        && frames@[k].height == frames@[0].height
                &&& frame_wf(f)
                &&& f.width == frames@[0].width
                &&& f.height == frames@[0].height
                &&& forall|p: int|
                    0 <= p < f.pixels@.len() ==> (#[trigger] f.pixels@[p]) == pixel_sum(
                        frames@,
                        p,
                    ) / (frames@.len() as int)
            },
            Err(e) => {
                &&& e == PipelineError::DimensionMismatch
                &&& exists|k: int|
                    0 <= k < frames@.len() && ((#[trigger] frames@[k]).width != frames@[0].width
                        || frames@[k].height != frames@[0].height)
            },
        },
{
    let width = frames[0].width;
    let height = frames[0].height;
    // The first frame's buffer length witnesses that width * height fits
    // in a usize, as the accumulator asks.
    let n_pixels = frames[0].pixels.len();
    proof {
        assert(width * height == n_pixels);
    }
    let mut acc = StackAccumulator::new(width, height);
    proof {
        assert(frames@.take(0) =~= Seq::<Frame>::empty());
    }
    let mut i: usize = 0;
    while i < frames.len()
        invariant
            i <= frames@.len(),
            frames@.len() <= u32::MAX,
            forall|k: int| 0 <= k < frames@.len() ==> frame_wf(#[trigger] frames@[k]),
            width == frames@[0].width,
            height == frames@[0].height,
            acc.wf(),
            acc.width == width,
            acc.height == height,
            acc.frames@ == frames@.take(i as int),
            forall|k: int|
                0 <= k < i ==> (#[trigger] frames@[k]).width == width && frames@[k].height
                    == height,
        decreases frames@.len() - i,
    {
        proof {
            assert(acc.frames@.len() == i < u32::MAX);
        }
        match acc.merge(&frames[i]) {
            Ok(_) => {
                proof {
                    assert(frames@.take(i as int).push(frames@[i as int]) =~= frames@.take(
                        i + 1,
                    ));
                }
            },
            Err(e) => {
                return Err(e);
            },
        }
        i = i + 1;
    }
    proof {
        assert(frames@.take(frames@.len() as int) =~= frames@);
    }
    Ok(acc.mean_frame())
}

proof fn lemma_pixel_sum_uniform(frames: Seq<Frame>, v: u32, p: int)
    requires
        forall|k: int| 0 <= k < frames.len() ==> (#[trigger] frames[k]).pixels@[p] == v,
    ensures
        pixel_sum(frames, p) == frames.len() * v,
    decreases frames.len(),
{
    if frames.len() == 0 {
    } else {
        assert forall|k: int| 0 <= k < frames.drop_last().len() implies (
        #[trigger] frames.drop_last()[k]).pixels@[p] == v by {
            assert(frames.drop_last()[k] == frames[k]);
        }
        lemma_pixel_sum_uniform(frames.drop_last(), v, p);
        assert((frames.len() - 1) * v + v == frames.len() * v) by (nonlinear_arith);
    }
}

/// Stacking identity law: frames that all hold one uniform value at a pixel
/// stack to exactly that value there.
pub proof fn lemma_stack_uniform(frames: Seq<Frame>, v: u32, p: int)
    requires
        frames.len() >= 1,
        forall|k: int| 0 <= k < frames.len() ==> (#[trigger] frames[k]).pixels@[p] == v,
    ensures
        pixel_sum(frames, p) == frames.len() * v,
        pixel_sum(frames, p) / (frames.len() as int) == v,
{
    lemma_pixel_sum_uniform(frames, v, p);
    vstd::arithmetic::div_mod::lemma_div_multiples_vanish(
        v as int,
        frames.len() as int,
    );
}

/// Stacking mean law for a pair: two frames stack to the elementwise
/// average (their pixel sum halved).
pub proof fn lemma_stack_pair(a: Frame, b: Frame, p: int)
    ensures
        pixel_sum(seq![a, b], p) == a.pixels@[p] + b.pixels@[p],
{
    let s = seq![a, b];
    assert(pixel_sum(seq![a], p) == a.pixels@[p]) by {
        assert(seq![a].drop_last() =~= Seq::<Frame>::empty());
        assert(seq![a].last() == a);
        assert(pixel_sum(Seq::<Frame>::empty(), p) == 0);
    }
    assert(pixel_sum(s, p) == pixel_sum(seq![a], p) + b.pixels@[p]) by {
        assert(s.drop_last() =~= seq![a]);
        assert(s.last() == b);
    }
}

proof fn lemma_pixel_sum_remove(frames: Seq<Frame>, i: int, p: int)
    requires
        0 <= i < frames.len(),
    ensures
        pixel_sum(frames.remove(i), p) == pixel_sum(frames, p) - frames[i].pixels@[p],
    decreases frames.len(),
{
    if i == frames.len() - 1 {
        assert(frames.remove(i) =~= frames.drop_last());
    } else {
        assert(frames.remove(i).drop_last() =~= frames.drop_last().remove(i));
        assert(frames.remove(i).last() == frames.last());
        lemma_pixel_sum_remove(frames.drop_last(), i, p);
        assert(frames.drop_last()[i] == frames[i]);
    }
}

/// Stacking order law: two arrangements of the same frames have the same
/// length and the same pixel sums, hence the same stacked mean.
pub proof fn lemma_stack_order_invariant(s1: Seq<Frame>, s2: Seq<Frame>, p: int)
    requires
        s1.to_multiset() == s2.to_multiset(),
    ensures
        s1.len() == s2.len(),
        pixel_sum(s1, p) == pixel_sum(s2, p),
    decreases s1.len(),
{
    broadcast use vstd::seq_lib::group_to_multiset_ensures;

    assert(s1.to_multiset().len() == s1.len());
    assert(s2.to_multiset().len() == s2.len());
    if s1.len() == 0 {
        assert(s2.len() == 0);
    } else {
        let x = s1.last();
        assert(s1[s1.len() - 1] == x);
        assert(s1.contains(x));
        assert(s2.to_multiset().count(x) > 0);
        assert(s2.contains(x));
        let j = choose|j: int| 0 <= j < s2.len() && s2[j] == x;
        assert(s1.remove(s1.len() - 1).to_multiset() == s1.to_multiset().remove(x));
        assert(s2.remove(j).to_multiset() == s2.to_multiset().remove(s2[j]));
        lemma_stack_order_invariant(s1.remove(s1.len() - 1), s2.remove(j), p);
        lemma_pixel_sum_remove(s1, s1.len() - 1, p);
        lemma_pixel_sum_remove(s2, j, p);
    }
}

} // verus!
