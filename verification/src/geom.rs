//! The drawing model: rectangles, points, colors, paths and the commands
//! the renderer emits for the host's vector-drawing primitive to execute.

use crate::num::MAX_COORD;
use vstd::prelude::*;

verus! {

/// A bounding rectangle in fixed-point pixel units ([`crate::num::ONE`]
/// units per pixel), as supplied by the host layout system.
#[derive(Clone, Copy, PartialEq, Eq, Structural, Debug)]
pub struct Rect {
    pub x: i64,
    pub y: i64,
    pub w: i64,
    pub h: i64,
}

impl Rect {
    /// A rectangle the renderer accepts: bounded coordinates and strictly
    /// positive sides.
    pub open spec fn valid(self) -> bool {
        &&& -MAX_COORD <= self.x <= MAX_COORD
        &&& -MAX_COORD <= self.y <= MAX_COORD
        &&& 0 < self.w <= MAX_COORD
        &&& 0 < self.h <= MAX_COORD
    }

    /// Runtime test matching [`Rect::valid`].
    pub fn check_valid(&self) -> (r: bool)
        ensures
            r == self.valid(),
    {
        -MAX_COORD <= self.x && self.x <= MAX_COORD && -MAX_COORD <= self.y && self.y <= MAX_COORD
            && 0 < self.w && self.w <= MAX_COORD && 0 < self.h && self.h <= MAX_COORD
    }
}

/// A point in fixed-point pixel units.
#[derive(Clone, Copy, PartialEq, Eq, Structural, Debug)]
pub struct Point {
    pub x: i64,
    pub y: i64,
}

/// A solid color, one byte per channel.
#[derive(Clone, Copy, PartialEq, Eq, Structural, Debug)]
pub struct Rgb {
    pub r: u8,
    pub g: u8,
    pub b: u8,
}

/// A stroke style: solid color and line width in fixed-point pixel units.
#[derive(Clone, Copy, PartialEq, Eq, Structural, Debug)]
pub struct Paint {
    pub color: Rgb,
    pub line_width: i64,
}

/// One element of a path handed to the stroking primitive.
#[derive(Clone, Copy, PartialEq, Eq, Structural, Debug)]
pub enum PathEl {
    MoveTo(Point),
    LineTo(Point),
    Rect(Rect),
}

/// One drawing request for the host's 2D primitive: clear a region to a
/// solid color, or stroke a path with a paint.
#[derive(Debug)]
pub enum DrawCmd {
    Clear { rect: Rect, color: Rgb },
    Stroke { path: Vec<PathEl>, paint: Paint },
}

/// The mathematical model of a [`DrawCmd`]: the same shape with the path
/// as a sequence.
pub enum CmdView {
    Clear { rect: Rect, color: Rgb },
    Stroke { path: Seq<PathEl>, paint: Paint },
}

impl View for DrawCmd {
    type V = CmdView;

    open spec fn view(&self) -> CmdView {
        match self {
            DrawCmd::Clear { rect, color } => CmdView::Clear { rect: *rect, color: *color },
            DrawCmd::Stroke { path, paint } => CmdView::Stroke { path: path@, paint: *paint },
        }
    }
}

} // verus!
