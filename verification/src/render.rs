//! The render orchestrator: builds the drawing commands for one frame —
//! clear the background, draw the grid, draw each configured line by its
//! variant, draw the border — and the scope view that drives it.

use crate::color::scale_color;
use crate::color::scale_color_spec;
use crate::coord::audio_y;
use crate::coord::audio_y_spec;
use crate::coord::bump;
use crate::coord::bump_spec;
use crate::coord::const_offset;
use crate::coord::const_offset_spec;
use crate::coord::half_height;
use crate::coord::signal_y;
use crate::coord::signal_y_spec;
use crate::coord::thin_limit;
use crate::coord::thin_limit_spec;
use crate::geom::CmdView;
use crate::geom::DrawCmd;
use crate::geom::Paint;
use crate::geom::PathEl;
use crate::geom::Point;
use crate::geom::Rect;
use crate::geom::Rgb;
use crate::grid::grid_path;
use crate::grid::grid_path_spec;
use crate::model::LineModel;
use crate::model::ParamUpdateEvent;
use crate::model::ScopeConfig;
use crate::model::ScopeData;
use crate::model::ScopeLine;
use crate::model::check_line;
use crate::model::line_valid_spec;
use crate::num::MAX_SAMPLES;
use crate::num::ONE;
use crate::num::lemma_div_range;
use crate::reduce::bucket_count;
use crate::reduce::bucket_mean;
use crate::reduce::bucket_of;
use crate::reduce::bucket_size;
use crate::reduce::eff_bucket_size;
use crate::reduce::envelope_reduce;
use crate::reduce::lemma_bucket_count_range;
use crate::reduce::lemma_eff_size_pos;
use crate::reduce::mean_reduce;
use crate::reduce::seq_max;
use crate::reduce::seq_min;
use vstd::arithmetic::div_mod::lemma_fundamental_div_mod;
use vstd::arithmetic::mul::lemma_mul_upper_bound;
use vstd::prelude::*;

verus! {

/// The scale of the fainter inner layer of an audio envelope.
pub const HALF_SCALE: i64 = 32768;

/// Path of a constant line: two horizontal lines mirrored about the
/// midline, at `+constant` and `-constant` halves of the height.
pub open spec fn constant_path_spec(c: int, rect: Rect) -> Seq<PathEl> {
    let base = rect.y + rect.h / 2;
    let off = const_offset_spec(c, rect.h as int);
    seq![
        PathEl::MoveTo(Point { x: rect.x, y: (base + off) as i64 }),
        PathEl::LineTo(Point { x: (rect.x + rect.w) as i64, y: (base + off) as i64 }),
        PathEl::MoveTo(Point { x: rect.x, y: (base - off) as i64 }),
        PathEl::LineTo(Point { x: (rect.x + rect.w) as i64, y: (base - off) as i64 }),
    ]
}

/// Executable counterpart of [`constant_path_spec`].
pub fn constant_path(c: i64, rect: &Rect) -> (r: Vec<PathEl>)
    requires
        rect.valid(),
        -crate::num::MAX_AMP <= c <= crate::num::MAX_AMP,
    ensures
        r@ == constant_path_spec(c as int, *rect),
{
    let base: i64 = rect.y + half_height(rect);
    let off: i64 = const_offset(c, rect.h);
    let mut r: Vec<PathEl> = Vec::new();
    r.push(PathEl::MoveTo(Point { x: rect.x, y: base + off }));
    r.push(PathEl::LineTo(Point { x: rect.x + rect.w, y: base + off }));
    r.push(PathEl::MoveTo(Point { x: rect.x, y: base - off }));
    r.push(PathEl::LineTo(Point { x: rect.x + rect.w, y: base - off }));
    proof {
        assert(r@ =~= constant_path_spec(c as int, *rect));
    }
    r
}

/// Path of a signal line: start at the midline's left edge, then one
/// line-to per bucket at the mapped bucket mean, one pixel column apart.
pub open spec fn signal_path_spec(samples: Seq<i64>, rect: Rect) -> Seq<PathEl> {
    let size = eff_bucket_size(samples.len() as int, rect.w as int);
    let n = bucket_count(samples.len() as int, size);
    Seq::new(
        (n + 1) as nat,
        |k: int|
            if k == 0 {
                PathEl::MoveTo(Point { x: rect.x, y: (rect.y + rect.h / 2) as i64 })
            } else {
                PathEl::LineTo(
                    Point {
                        x: (rect.x + (k - 1) * ONE) as i64,
                        y: signal_y_spec(rect, bucket_mean(bucket_of(samples, size, k - 1))) as i64,
                    },
                )
            },
    )
}

/// Executable counterpart of [`signal_path_spec`].
pub fn signal_path(samples: &Vec<i64>, rect: &Rect) -> (r: Vec<PathEl>)
    requires
        rect.valid(),
        1 <= samples@.len() <= MAX_SAMPLES,
        samples@.len() * ONE >= rect.w,
    ensures
        r@ == signal_path_spec(samples@, *rect),
{
    let ghost pspec = signal_path_spec(samples@, *rect);
    let len = samples.len();
    proof {
        lemma_eff_size_pos(len as int, rect.w as int);
    }
    let size = bucket_size(len, rect.w);
    proof {
        lemma_bucket_count_range(len as int, size as int);
    }
    let means = mean_reduce(samples, size);
    let mut r: Vec<PathEl> = Vec::new();
    r.push(PathEl::MoveTo(Point { x: rect.x, y: rect.y + half_height(rect) }));
    let mut i: usize = 0;
    while i < means.len()
        invariant
            rect.valid(),
            1 <= samples@.len() <= MAX_SAMPLES,
            size == eff_bucket_size(samples@.len() as int, rect.w as int),
            means@.len() == bucket_count(samples@.len() as int, size as int),
            means@.len() <= samples@.len(),
            forall|j: int|
                0 <= j < means@.len() ==> means@[j] == bucket_mean(
                    bucket_of(samples@, size as int, j),
                ),
            i <= means@.len(),
            pspec == signal_path_spec(samples@, *rect),
            r@.len() == i + 1,
            forall|k: int| 0 <= k < r@.len() ==> r@[k] == pspec[k],
        decreases means@.len() - i,
    {
        proof {
            lemma_mul_upper_bound(i as int, MAX_SAMPLES as int, ONE as int, ONE as int);
        }
        let x: i64 = rect.x + (i as i64) * ONE;
        let y: i64 = signal_y(rect, means[i] as i128);
        r.push(PathEl::LineTo(Point { x, y }));
        i = i + 1;
    }
    proof {
        assert(r@ =~= pspec);
    }
    r
}

/// How many envelope buckets are drawn: the iteration stops two buckets
/// before the end whenever there are at least three — a deliberate
/// off-by-one boundary guard against overrunning the right edge, so the
/// last two bucket columns are never stroked.
pub open spec fn audio_drawn_count(n: int) -> int {
    if n >= 3 {
        n - 2
    } else {
        n
    }
}

/// The top of an envelope bucket after the minimum-thickness bump: a
/// bucket thinner than [`thin_limit_spec`] has its maximum raised by
/// [`bump_spec`].
pub open spec fn audio_bucket_top(samples: Seq<i64>, size: int, rect: Rect, b: int) -> int {
    let mn = seq_min(bucket_of(samples, size, b));
    let mx = seq_max(bucket_of(samples, size, b));
    if mx - mn < thin_limit_spec(rect.h as int) {
        mx + bump_spec(rect.h as int)
    } else {
        mx
    }
}

/// Path of one audio envelope layer: per drawn bucket a vertical segment
/// from the mapped minimum to the mapped (possibly bumped) maximum, one
/// pixel column apart.
pub open spec fn audio_path_spec(samples: Seq<i64>, rect: Rect, scale: int) -> Seq<PathEl> {
    let size = eff_bucket_size(samples.len() as int, rect.w as int);
    let n = bucket_count(samples.len() as int, size);
    let drawn = audio_drawn_count(n);
    Seq::new(
        (2 * drawn) as nat,
        |k: int|
            {
                let b = k / 2;
                if k % 2 == 0 {
                    PathEl::MoveTo(
                        Point {
                            x: (rect.x + b * ONE) as i64,
                            y: audio_y_spec(
                                rect,
                                scale,
                                seq_min(bucket_of(samples, size, b)),
                            ) as i64,
                        },
                    )
                } else {
                    PathEl::LineTo(
                        Point {
                            x: (rect.x + b * ONE) as i64,
                            y: audio_y_spec(rect, scale, audio_bucket_top(samples, size, rect, b)) as i64,
                        },
                    )
                }
            },
    )
}

/// Executable counterpart of [`audio_path_spec`].
pub fn audio_path(samples: &Vec<i64>, rect: &Rect, scale: i64) -> (r: Vec<PathEl>)
    requires
        rect.valid(),
        0 <= scale <= ONE,
        1 <= samples@.len() <= MAX_SAMPLES,
        samples@.len() * ONE >= rect.w,
    ensures
        r@ == audio_path_spec(samples@, *rect, scale as int),
{
    let ghost pspec = audio_path_spec(samples@, *rect, scale as int);
    let len = samples.len();
    proof {
        lemma_eff_size_pos(len as int, rect.w as int);
    }
    let size = bucket_size(len, rect.w);
    proof {
        lemma_bucket_count_range(len as int, size as int);
    }
    let env = envelope_reduce(samples, size);
    let n = env.len();
    let drawn: usize = if n >= 3 {
        n - 2
    } else {
        n
    };
    let thin: i64 = thin_limit(rect.h);
    let bmp: i64 = bump(rect.h);
    let mut r: Vec<PathEl> = Vec::new();
    let mut b: usize = 0;
    while b < drawn
        invariant
            rect.valid(),
            0 <= scale <= ONE,
            1 <= samples@.len() <= MAX_SAMPLES,
            size == eff_bucket_size(samples@.len() as int, rect.w as int),
            env@.len() == bucket_count(samples@.len() as int, size as int),
            env@.len() <= samples@.len(),
            drawn == audio_drawn_count(env@.len() as int),
            drawn <= env@.len(),
            thin == thin_limit_spec(rect.h as int),
            bmp == bump_spec(rect.h as int),
            forall|j: int|
                0 <= j < env@.len() ==> (#[trigger] env@[j]).0 == seq_min(
                    bucket_of(samples@, size as int, j),
                ) && env@[j].1 == seq_max(bucket_of(samples@, size as int, j)),
            b <= drawn,
            pspec == audio_path_spec(samples@, *rect, scale as int),
            r@.len() == 2 * b,
            forall|k: int| 0 <= k < r@.len() ==> r@[k] == pspec[k],
        decreases drawn - b,
    {
        proof {
            lemma_mul_upper_bound(b as int, MAX_SAMPLES as int, ONE as int, ONE as int);
            assert((2 * b) % 2 == 0 && (2 * b) / 2 == b) by {
                lemma_div_range(2 * b as int, 2, b as int);
                lemma_fundamental_div_mod(2 * b as int, 2);
            }
            assert((2 * b + 1) % 2 == 1 && (2 * b + 1) / 2 == b) by {
                lemma_div_range(2 * b + 1, 2, b as int);
                lemma_fundamental_div_mod(2 * b + 1, 2);
            }
        }
        let x: i64 = rect.x + (b as i64) * ONE;
        let pair = env[b];
        let mn = pair.0;
        let mx = pair.1;
        let top: i128 = if (mx as i128) - (mn as i128) < (thin as i128) {
            (mx as i128) + (bmp as i128)
        } else {
            mx as i128
        };
        let y0: i64 = audio_y(rect, scale, mn as i128);
        let y1: i64 = audio_y(rect, scale, top);
        r.push(PathEl::MoveTo(Point { x, y: y0 }));
        r.push(PathEl::LineTo(Point { x, y: y1 }));
        b = b + 1;
    }
    proof {
        assert(r@ =~= pspec);
    }
    r
}

/// Path of the border: one rectangle around the bounds, widened by half
/// the border width on every side.
pub open spec fn border_path_spec(rect: Rect) -> Seq<PathEl> {
    seq![
        PathEl::Rect(
            Rect {
                x: (rect.x - (3 * ONE) / 2) as i64,
                y: (rect.y - (3 * ONE) / 2) as i64,
                w: (rect.w + 3 * ONE) as i64,
                h: (rect.h + 3 * ONE) as i64,
            },
        ),
    ]
}

/// Executable counterpart of [`border_path_spec`].
pub fn border_path(rect: &Rect) -> (r: Vec<PathEl>)
    requires
        rect.valid(),
    ensures
        r@ == border_path_spec(*rect),
{
    let half: i64 = 3 * ONE / 2;
    let mut r: Vec<PathEl> = Vec::new();
    r.push(
        PathEl::Rect(
            Rect { x: rect.x - half, y: rect.y - half, w: rect.w + 3 * ONE, h: rect.h + 3 * ONE },
        ),
    );
    proof {
        assert(r@ =~= border_path_spec(*rect));
    }
    r
}

/// The drawing commands one line contributes: one stroke for a constant
/// or signal line, two layered strokes for an audio line.
pub open spec fn line_cmds_spec(l: LineModel, rect: Rect) -> Seq<CmdView> {
    match l {
        LineModel::Constant { constant, color } => seq![
            CmdView::Stroke {
                path: constant_path_spec(constant as int, rect),
                paint: Paint { color, line_width: ONE },
            },
        ],
        LineModel::Signal { samples, color, width } => seq![
            CmdView::Stroke {
                path: signal_path_spec(samples, rect),
                paint: Paint { color, line_width: width },
            },
        ],
        LineModel::Audio { samples, color } => seq![
            CmdView::Stroke {
                path: audio_path_spec(samples, rect, ONE as int),
                paint: Paint {
                    color: scale_color_spec(color, ONE as int),
                    line_width: (2 * ONE) as i64,
                },
            },
            CmdView::Stroke {
                path: audio_path_spec(samples, rect, HALF_SCALE as int),
                paint: Paint {
                    color: scale_color_spec(color, HALF_SCALE as int),
                    line_width: (2 * ONE) as i64,
                },
            },
        ],
    }
}

/// The commands contributed by the first `i` lines, in order.
pub open spec fn line_cmds_upto(lines: Seq<LineModel>, rect: Rect, i: int) -> Seq<CmdView>
    decreases i,
{
    if i <= 0 {
        Seq::empty()
    } else {
        line_cmds_upto(lines, rect, i - 1) + line_cmds_spec(lines[i - 1], rect)
    }
}

/// The models of a sequence of lines.
pub open spec fn lines_model(s: Seq<ScopeLine>) -> Seq<LineModel> {
    s.map_values(|l: ScopeLine| l@)
}

/// The models of a sequence of commands.
pub open spec fn cmds_model(s: Seq<DrawCmd>) -> Seq<CmdView> {
    s.map_values(|c: DrawCmd| c@)
}

/// The full frame: clear the background to opaque black, stroke the
/// grid, stroke each line's commands in order, stroke the border.
pub open spec fn render_spec(lines: Seq<LineModel>, rect: Rect, config: ScopeConfig) -> Seq<
    CmdView,
> {
    seq![
        CmdView::Clear { rect, color: Rgb { r: 0, g: 0, b: 0 } },
        CmdView::Stroke {
            path: grid_path_spec(rect, config.x_divs as int, config.y_divs as int),
            paint: Paint { color: Rgb { r: 50, g: 50, b: 40 }, line_width: ONE },
        },
    ] + line_cmds_upto(lines, rect, lines.len() as int) + seq![
        CmdView::Stroke {
            path: border_path_spec(rect),
            paint: Paint { color: Rgb { r: 204, g: 204, b: 220 }, line_width: (3 * ONE) as i64 },
        },
    ]
}

/// Renders one frame over the given bounds. Returns `None` exactly when
/// some line fails [`line_valid_spec`]; otherwise the commands are
/// exactly [`render_spec`] of the lines' models.
pub fn render(lines: &Vec<ScopeLine>, rect: &Rect, config: &ScopeConfig) -> (r: Option<
    Vec<DrawCmd>,
>)
    requires
        rect.valid(),
        config.valid(),
    ensures
        r.is_some() <==> (forall|i: int|
            0 <= i < lines@.len() ==> line_valid_spec(#[trigger] lines@[i]@, *rect)),
        r matches Some(cmds) ==> cmds_model(cmds@) == render_spec(
            lines_model(lines@),
            *rect,
            *config,
        ),
{
    let ghost models = lines_model(lines@);
    let mut i: usize = 0;
    while i < lines.len()
        invariant
            rect.valid(),
            i <= lines@.len(),
            forall|j: int| 0 <= j < i ==> line_valid_spec(#[trigger] lines@[j]@, *rect),
        decreases lines@.len() - i,
    {
        let ok = check_line(&lines[i], rect);
        if !ok {
            return None;
        }
        i = i + 1;
    }
    let mut cmds: Vec<DrawCmd> = Vec::new();
    cmds.push(DrawCmd::Clear { rect: *rect, color: Rgb { r: 0, g: 0, b: 0 } });
    let gp = grid_path(rect, config.x_divs, config.y_divs);
    cmds.push(
        DrawCmd::Stroke {
            path: gp,
            paint: Paint { color: Rgb { r: 50, g: 50, b: 40 }, line_width: ONE },
        },
    );
    let ghost head = cmds_model(cmds@);
    let ghost grid_cmd = CmdView::Stroke {
        path: grid_path_spec(*rect, config.x_divs as int, config.y_divs as int),
        paint: Paint { color: Rgb { r: 50, g: 50, b: 40 }, line_width: ONE },
    };
    let ghost clear_cmd = CmdView::Clear { rect: *rect, color: Rgb { r: 0, g: 0, b: 0 } };
    proof {
        assert(head =~= seq![clear_cmd, grid_cmd]);
    }
    let mut k: usize = 0;
    while k < lines.len()
        invariant
            rect.valid(),
            config.valid(),
            k <= lines@.len(),
            models == lines_model(lines@),
            forall|j: int| 0 <= j < lines@.len() ==> line_valid_spec(#[trigger] lines@[j]@, *rect),
            head == seq![clear_cmd, grid_cmd],
            clear_cmd == (CmdView::Clear { rect: *rect, color: Rgb { r: 0, g: 0, b: 0 } }),
            grid_cmd == (CmdView::Stroke {
                path: grid_path_spec(*rect, config.x_divs as int, config.y_divs as int),
                paint: Paint { color: Rgb { r: 50, g: 50, b: 40 }, line_width: ONE },
            }),
            cmds_model(cmds@) =~= head + line_cmds_upto(models, *rect, k as int),
        decreases lines@.len() - k,
    {
        let line = lines[k];
        let ghost pre = cmds_model(cmds@);
        proof {
            assert(models[k as int] == lines@[k as int]@);
            assert(line_valid_spec(models[k as int], *rect));
        }
        match line {
            ScopeLine::Constant(cl) => {
                let path = constant_path(cl.constant, rect);
                cmds.push(
                    DrawCmd::Stroke { path, paint: Paint { color: cl.color, line_width: ONE } },
                );
            },
            ScopeLine::Signal(sl) => {
                let path = signal_path(sl.samples, rect);
                cmds.push(
                    DrawCmd::Stroke {
                        path,
                        paint: Paint { color: sl.color, line_width: sl.width },
                    },
                );
            },
            ScopeLine::Audio(al) => {
                let path = audio_path(al.samples, rect, ONE);
                let paint = Paint { color: scale_color(&al.color, ONE), line_width: 2 * ONE };
                cmds.push(DrawCmd::Stroke { path, paint });
                let path2 = audio_path(al.samples, rect, HALF_SCALE);
                let paint2 = Paint {
                    color: scale_color(&al.color, HALF_SCALE),
                    line_width: 2 * ONE,
                };
                cmds.push(DrawCmd::Stroke { path: path2, paint: paint2 });
            },
        }
        proof {
            assert(cmds_model(cmds@) =~= pre + line_cmds_spec(models[k as int], *rect));
            assert(line_cmds_upto(models, *rect, k + 1) == line_cmds_upto(models, *rect, k as int)
                + line_cmds_spec(models[k as int], *rect));
            assert(cmds_model(cmds@) =~= head + line_cmds_upto(models, *rect, k + 1));
        }
        k = k + 1;
    }
    let bp = border_path(rect);
    cmds.push(
        DrawCmd::Stroke {
            path: bp,
            paint: Paint { color: Rgb { r: 204, g: 204, b: 220 }, line_width: 3 * ONE },
        },
    );
    proof {
        let border_cmd = CmdView::Stroke {
            path: border_path_spec(*rect),
            paint: Paint { color: Rgb { r: 204, g: 204, b: 220 }, line_width: (3 * ONE) as i64 },
        };
        assert(cmds_model(cmds@) =~= head + line_cmds_upto(models, *rect, models.len() as int)
            + seq![border_cmd]);
        assert(cmds_model(cmds@) =~= render_spec(models, *rect, *config));
    }
    Some(cmds)
}

/// The shape of every rendered frame: at least three commands, the first
/// clearing the bounds to opaque black and the last stroking the border.
pub proof fn lemma_render_spec_frame(lines: Seq<LineModel>, rect: Rect, config: ScopeConfig)
    ensures
        render_spec(lines, rect, config).len() >= 3,
        render_spec(lines, rect, config)[0] == (CmdView::Clear {
            rect,
            color: Rgb { r: 0, g: 0, b: 0 },
        }),
        render_spec(lines, rect, config).last() == (CmdView::Stroke {
            path: border_path_spec(rect),
            paint: Paint { color: Rgb { r: 204, g: 204, b: 220 }, line_width: (3 * ONE) as i64 },
        }),
{
    lemma_line_cmds_upto_len(lines, rect, lines.len() as int);
}

/// The first `i` lines contribute at least zero commands.
proof fn lemma_line_cmds_upto_len(lines: Seq<LineModel>, rect: Rect, i: int)
    ensures
        line_cmds_upto(lines, rect, i).len() >= 0,
    decreases i,
{
    if i > 0 {
        lemma_line_cmds_upto_len(lines, rect, i - 1);
    }
}

/// Encapsulates the scope view along with its configuration and data.
pub struct ScopeView<T: ScopeData> {
    pub scope_data: T,
    pub config: ScopeConfig,
}

impl<T: ScopeData> ScopeView<T> {
    /// Constructs a new scope view over the given data, with the given
    /// configuration or the default ten-by-ten grid, and recalculates the
    /// data once.
    pub fn new(scope_data: T, config: Option<ScopeConfig>) -> (r: Self)
        ensures
            match config {
                Some(c) => r.config == c,
                None => r.config.x_divs == 10 && r.config.y_divs == 10,
            },
    {
        let mut scope_data = scope_data;
        scope_data.recalculate();
        let config = match config {
            Some(c) => c,
            None => ScopeConfig { x_divs: 10, y_divs: 10 },
        };
        ScopeView { scope_data, config }
    }

    /// Handles a parameter update event, triggering a recalculation of
    /// the scope data.
    pub fn event(&mut self, event: &ParamUpdateEvent)
        ensures
            final (self).config == old(self).config,
    {
        match event {
            ParamUpdateEvent::ParamUpdate => self.scope_data.recalculate(),
        }
    }

    /// Renders one frame: asks the data collaborator for its lines, then
    /// builds the fixed command sequence — clear, grid, lines, border.
    /// `None` is returned exactly when some line the collaborator handed
    /// back fails [`line_valid_spec`]; a returned frame always starts
    /// with the black clear and ends with the border stroke.
    pub fn draw(&self, rect: &Rect) -> (r: Option<Vec<DrawCmd>>)
        requires
            rect.valid(),
            self.config.valid(),
        ensures
            r matches Some(cmds) ==> cmds@.len() >= 3 && cmds@[0]@ == (CmdView::Clear {
                rect: *rect,
                color: Rgb { r: 0, g: 0, b: 0 },
            }) && cmds@.last()@ == (CmdView::Stroke {
                path: border_path_spec(*rect),
                paint: Paint {
                    color: Rgb { r: 204, g: 204, b: 220 },
                    line_width: (3 * ONE) as i64,
                },
            }),
    {
        let lines = self.scope_data.scope_lines();
        let r = render(&lines, rect, &self.config);
        proof {
            lemma_render_spec_frame(lines_model(lines@), *rect, self.config);
            if r is Some {
                let cmds = r->0;
                assert(cmds_model(cmds@) == render_spec(lines_model(lines@), *rect, self.config));
                assert(cmds@[0]@ == cmds_model(cmds@)[0]);
                assert(cmds@.last()@ == cmds_model(cmds@).last());
            }
        }
        r
    }
}

} // verus!
