//! The data model: the three kinds of renderable line, the grid
//! configuration, the parameter-update event and the capability trait
//! through which the data owner describes what to draw.

use crate::geom::Rect;
use crate::geom::Rgb;
use crate::grid::MAX_DIVS;
use crate::num::MAX_AMP;
use crate::num::MAX_SAMPLES;
use crate::num::ONE;
use vstd::prelude::*;

verus! {

/// A parameter update event. When the host hands it to [`super::render::ScopeView::event`],
/// the scope recalculates the signal it is showing.
#[derive(Debug)]
pub enum ParamUpdateEvent {
    ParamUpdate,
}

/// Draws a horizontal line at a constant level, mirrored about the
/// midline: one constant produces two lines, at `+constant` and
/// `-constant`.
#[derive(Clone, Copy)]
pub struct ConstantLine {
    pub constant: i64,
    pub color: Rgb,
}

impl ConstantLine {
    /// Instructions for drawing a horizontal line at `constant` (in
    /// amplitude units) in a certain color.
    pub fn new(color: Rgb, constant: i64) -> (r: Self)
        ensures
            r.constant == constant,
            r.color == color,
    {
        Self { color, constant }
    }
}

/// Draws its samples as a single mean-reduced line. Useful for small
/// amounts of samples and signals that don't vary much over time.
#[derive(Clone, Copy)]
pub struct SignalLine<'a> {
    pub samples: &'a Vec<i64>,
    pub color: Rgb,
    pub width: i64,
}

impl<'a> SignalLine<'a> {
    /// Instructions for drawing a signal as a line. When there are more
    /// samples than pixel columns, samples falling in the same column are
    /// averaged.
    pub fn new(samples: &'a Vec<i64>, color: Rgb, width: i64) -> (r: Self)
        ensures
            r.samples@ == samples@,
            r.color == color,
            r.width == width,
    {
        Self { samples, color, width }
    }
}

/// Draws its data as a min/max envelope, in the classic audio-waveform
/// silhouette, layered at two intensities.
#[derive(Clone, Copy)]
pub struct AudioLine<'a> {
    pub samples: &'a Vec<i64>,
    pub color: Rgb,
}

impl<'a> AudioLine<'a> {
    /// Instructions for drawing an audio buffer as an envelope.
    pub fn new(samples: &'a Vec<i64>, color: Rgb) -> (r: Self)
        ensures
            r.samples@ == samples@,
            r.color == color,
    {
        Self { samples, color }
    }
}

/// The three types of graphs the scope can draw.
#[derive(Clone, Copy)]
pub enum ScopeLine<'a> {
    Constant(ConstantLine),
    Signal(SignalLine<'a>),
    Audio(AudioLine<'a>),
}

/// The mathematical model of a [`ScopeLine`]: the same shape with the
/// sample buffer as a sequence.
pub enum LineModel {
    Constant { constant: i64, color: Rgb },
    Signal { samples: Seq<i64>, color: Rgb, width: i64 },
    Audio { samples: Seq<i64>, color: Rgb },
}

impl View for ScopeLine<'_> {
    type V = LineModel;

    open spec fn view(&self) -> LineModel {
        match self {
            ScopeLine::Constant(l) => LineModel::Constant { constant: l.constant, color: l.color },
            ScopeLine::Signal(l) => LineModel::Signal {
                samples: l.samples@,
                color: l.color,
                width: l.width,
            },
            ScopeLine::Audio(l) => LineModel::Audio { samples: l.samples@, color: l.color },
        }
    }
}

/// What the renderer asks of one line over a given rectangle: a constant
/// in range, and for sampled lines a non-empty buffer with at least one
/// sample's worth of data per pixel column.
pub open spec fn line_valid_spec(l: LineModel, rect: Rect) -> bool {
    match l {
        LineModel::Constant { constant, .. } => -MAX_AMP <= constant <= MAX_AMP,
        LineModel::Signal { samples, .. } => 1 <= samples.len() <= MAX_SAMPLES && samples.len()
            * ONE >= rect.w,
        LineModel::Audio { samples, .. } => 1 <= samples.len() <= MAX_SAMPLES && samples.len()
            * ONE >= rect.w,
    }
}

/// Runtime test of a sampled line's buffer against a rectangle: length
/// within range and at least one sample per pixel column.
fn check_samples(n: usize, rect: &Rect) -> (r: bool)
    requires
        rect.valid(),
    ensures
        r == (1 <= n <= MAX_SAMPLES && n * ONE >= rect.w),
{
    if n < 1 {
        return false;
    }
    if n as u64 > MAX_SAMPLES {
        return false;
    }
    proof {
        vstd::arithmetic::mul::lemma_mul_upper_bound(
            n as int,
            MAX_SAMPLES as int,
            ONE as int,
            ONE as int,
        );
    }
    (n as u128) * (ONE as u128) >= (rect.w as u128)
}

/// Runtime test matching [`line_valid_spec`].
pub fn check_line(l: &ScopeLine, rect: &Rect) -> (r: bool)
    requires
        rect.valid(),
    ensures
        r == line_valid_spec(l@, *rect),
{
    match l {
        ScopeLine::Constant(cl) => -MAX_AMP <= cl.constant && cl.constant <= MAX_AMP,
        ScopeLine::Signal(sl) => check_samples(sl.samples.len(), rect),
        ScopeLine::Audio(al) => check_samples(al.samples.len(), rect),
    }
}

/// Holds configuration for the grid divisions in the scope view.
pub struct ScopeConfig {
    pub x_divs: u32,
    pub y_divs: u32,
}

impl ScopeConfig {
    /// A configuration the grid generator accepts: at least one division
    /// along each axis, and not more than [`MAX_DIVS`].
    pub open spec fn valid(self) -> bool {
        &&& 1 <= self.x_divs <= MAX_DIVS
        &&& 1 <= self.y_divs <= MAX_DIVS
    }

    /// Runtime test matching [`ScopeConfig::valid`].
    pub fn check_valid(&self) -> (r: bool)
        ensures
            r == self.valid(),
    {
        1 <= self.x_divs && self.x_divs <= MAX_DIVS && 1 <= self.y_divs && self.y_divs <= MAX_DIVS
    }
}

impl Default for ScopeConfig {
    /// The default grid density: ten divisions each way.
    fn default() -> (r: Self)
        ensures
            r.x_divs == 10,
            r.y_divs == 10,
    {
        ScopeConfig { x_divs: 10, y_divs: 10 }
    }
}

/// A trait for types that can provide data for scope visualization:
/// recalculate the current sample values from the owner's state, and
/// describe which lines to show.
pub trait ScopeData {
    /// Recalculate the current vector of sample values.
    fn recalculate(&mut self);

    /// Which lines to show on the scope, borrowing currently valid
    /// buffers.
    fn scope_lines(&self) -> Vec<ScopeLine>;
}

} // verus!
