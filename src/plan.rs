//! The shape of one overlap-add run: how the input signal is cut into
//! segments, where each segment's convolution lands in the output, and how
//! long the output is.

use vstd::prelude::*;

verus! {

/// What can stop a synthesis run.
#[derive(Clone, Copy, Debug, PartialEq, Eq, Structural)]
pub enum SynthError {
    /// A file name whose suffix names none of the six formats.
    UnknownFormat,
    /// A line of a text file that is not a number.
    ParseError,
    /// A file could not be opened, created, read or written.
    IoError,
    /// A buffer whose samples are all zero cannot be normalised.
    DegenerateSignal,
    /// A sweep of width zero has no segments.
    ScheduleDegenerate,
}

/// The segmentation of one run: `sweep_width` segments of `segment_length`
/// samples each, segment `i` covering `[i * segment_length, (i + 1) * segment_length)`.
#[derive(Clone, Copy, Debug, PartialEq, Eq, Structural)]
pub struct SegmentPlan {
    pub sweep_width: u32,
    pub segment_length: u32,
}

impl SegmentPlan {
    /// The plan's segments fit the samples it was made from.
    pub open spec fn wf(self) -> bool {
        self.sweep_width > 0 && self.sweep_width * self.segment_length <= u32::MAX
    }

    /// Length of the output for a transfer function of `filter_len` taps.
    pub open spec fn accumulator_len_spec(self, filter_len: int) -> int {
        self.sweep_width * self.segment_length + filter_len - 1
    }

    /// Splits `move_samples` samples into `sweep_width` equal segments; the
    /// remainder of the division is left unused. A sweep of width zero is
    /// refused.
    pub fn new(move_samples: u32, sweep_width: u32) -> (r: Result<SegmentPlan, SynthError>)
        ensures
            sweep_width == 0 <==> r is Err,
            r is Err ==> r->Err_0 == SynthError::ScheduleDegenerate,
            r is Ok ==> r->Ok_0.wf() && r->Ok_0.sweep_width == sweep_width
                && r->Ok_0.segment_length == move_samples / sweep_width,
    {
        if sweep_width == 0 {
            return Err(SynthError::ScheduleDegenerate);
        }
        let segment_length = move_samples / sweep_width;
        proof {
            assert(sweep_width * segment_length <= move_samples) by (nonlinear_arith)
                requires
                    sweep_width > 0,
                    segment_length == move_samples / sweep_width,
            ;
        }
        Ok(SegmentPlan { sweep_width, segment_length })
    }

    /// How many input samples the segments use: `sweep_width * segment_length`.
    pub fn used_samples(&self) -> (r: u32)
        requires
            self.wf(),
        ensures
            r == self.sweep_width * self.segment_length,
    {
        self.sweep_width * self.segment_length
    }

    /// The input samples of segment `i`: `[i * segment_length, (i + 1) * segment_length)`.
    /// Consecutive segments meet, and the last ends at `used_samples`.
    pub fn segment_range(&self, i: u32) -> (r: (usize, usize))
        requires
            self.wf(),
            i < self.sweep_width,
        ensures
            r.0 == i * self.segment_length,
            r.1 == (i + 1) * self.segment_length,
            r.1 == r.0 + self.segment_length,
            r.1 <= self.sweep_width * self.segment_length,
    {
        proof {
            assert((i + 1) * self.segment_length <= self.sweep_width * self.segment_length)
                by (nonlinear_arith)
                requires
                    i < self.sweep_width,
            ;
            assert((i + 1) * self.segment_length == i * self.segment_length + self.segment_length)
                by (nonlinear_arith);
        }
        let start = i * self.segment_length;
        let end = start + self.segment_length;
        (start as usize, end as usize)
    }

    /// Length of the output buffer for a transfer function of `filter_len`
    /// taps: `sweep_width * segment_length + filter_len - 1`, long enough for
    /// the tail of the last segment's convolution.
    pub fn accumulator_len(&self, filter_len: usize) -> (r: usize)
        requires
            self.wf(),
            filter_len >= 1,
            self.sweep_width * self.segment_length + filter_len - 1 <= usize::MAX,
        ensures
            r == self.accumulator_len_spec(filter_len as int),
    {
        let used = self.used_samples() as usize;
        used + (filter_len - 1)
    }

    /// Where sample `j` of segment `i`'s convolution is added in the output:
    /// `i * segment_length + j`.
    pub fn output_index(&self, i: u32, j: usize, filter_len: usize) -> (r: usize)
        requires
            self.wf(),
            filter_len >= 1,
            self.accumulator_len_spec(filter_len as int) <= usize::MAX,
            i < self.sweep_width,
            j < self.segment_length + filter_len - 1,
        ensures
            r == i * self.segment_length + j,
            r < self.accumulator_len_spec(filter_len as int),
    {
        proof {
            lemma_overlap_add_in_bounds(*self, filter_len as int, i as int, j as int);
        }
        let (start, _) = self.segment_range(i);
        start + j
    }
}

/// Overlap-add never writes past the output: sample `j` of the convolution
/// of segment `i` (of length `segment_length + filter_len - 1`) lands at
/// `i * segment_length + j`, inside a buffer of
/// `sweep_width * segment_length + filter_len - 1` samples.
pub proof fn lemma_overlap_add_in_bounds(plan: SegmentPlan, filter_len: int, i: int, j: int)
    requires
        filter_len >= 1,
        0 <= i < plan.sweep_width,
        0 <= j < plan.segment_length + filter_len - 1,
    ensures
        0 <= i * plan.segment_length + j < plan.accumulator_len_spec(filter_len),
{
    let l = plan.segment_length as int;
    let w = plan.sweep_width as int;
    assert(i * l + l <= w * l) by (nonlinear_arith)
        requires
            0 <= i < w,
            l >= 0,
    ;
    assert(0 <= i * l) by (nonlinear_arith)
        requires
            0 <= i,
            l >= 0,
    ;
}

} // verus!
