use vizia_scope::color::scale_color;
use vizia_scope::geom::DrawCmd;
use vizia_scope::geom::PathEl;
use vizia_scope::geom::Rect;
use vizia_scope::geom::Rgb;
use vizia_scope::num::ONE;
use vizia_scope::render::audio_path;
use vizia_scope::render::border_path;
use vizia_scope::render::constant_path;
use vizia_scope::render::render;
use vizia_scope::render::signal_path;
use vizia_scope::model::AudioLine;
use vizia_scope::model::ConstantLine;
use vizia_scope::model::ScopeConfig;
use vizia_scope::model::ScopeLine;
use vizia_scope::model::SignalLine;

fn square100() -> Rect {
    Rect { x: 0, y: 0, w: 100 * ONE, h: 100 * ONE }
}

fn white() -> Rgb {
    Rgb { r: 255, g: 255, b: 255 }
}

#[test]
fn alternating_buffer_renders_full_height_segments() {
    // 1000 samples alternating +1.0 / -1.0 over a 100x100 square:
    // bucket size 10, every bucket reduces to (-1.0, 1.0), and each drawn
    // segment spans the full height from y = 100px down to y = 0.
    let rect = square100();
    let mut samples: Vec<i64> = Vec::new();
    for i in 0..1000 {
        samples.push(if i % 2 == 0 { ONE } else { -ONE });
    }
    let env = vizia_scope::reduce::envelope_reduce(&samples, 10);
    assert_eq!(env.len(), 100);
    for &(mn, mx) in &env {
        assert_eq!((mn, mx), (-ONE, ONE));
    }
    let path = audio_path(&samples, &rect, ONE);
    // the iteration stops two buckets before the end: 98 of 100 drawn
    assert_eq!(path.len(), 2 * 98);
    for b in 0..98usize {
        match (&path[2 * b], &path[2 * b + 1]) {
            (PathEl::MoveTo(lo), PathEl::LineTo(hi)) => {
                assert_eq!(lo.x, (b as i64) * ONE);
                assert_eq!(hi.x, (b as i64) * ONE);
                assert_eq!(lo.y, 100 * ONE);
                assert_eq!(hi.y, 0);
            },
            other => panic!("unexpected path elements: {:?}", other),
        }
    }
}

#[test]
fn constant_line_draws_two_mirrored_lines() {
    // constant 0.5 over a 100x100 square: horizontal lines at y = 75px
    // (base 50 plus offset 25) and y = 25px
    let rect = square100();
    let path = constant_path(ONE / 2, &rect);
    assert_eq!(
        path,
        vec![
            PathEl::MoveTo(vizia_scope::geom::Point { x: 0, y: 75 * ONE }),
            PathEl::LineTo(vizia_scope::geom::Point { x: 100 * ONE, y: 75 * ONE }),
            PathEl::MoveTo(vizia_scope::geom::Point { x: 0, y: 25 * ONE }),
            PathEl::LineTo(vizia_scope::geom::Point { x: 100 * ONE, y: 25 * ONE }),
        ]
    );
}

#[test]
fn silent_bucket_is_bumped_to_visible_thickness() {
    // an all-zero buffer: every envelope is (0, 0), thinner than the
    // limit, so the drawn top is raised by four pixel-heights' worth
    let rect = square100();
    let samples: Vec<i64> = vec![0; 1000];
    let path = audio_path(&samples, &rect, ONE);
    assert_eq!(path.len(), 2 * 98);
    match (&path[0], &path[1]) {
        (PathEl::MoveTo(lo), PathEl::LineTo(hi)) => {
            assert_eq!(lo.y, 50 * ONE);
            // bump of 2621 amplitude units maps to 2621 * 50 units of height
            assert_eq!(hi.y, 50 * ONE - 2621 * 50);
            assert!(lo.y - hi.y >= 2 * ONE - 50);
        },
        other => panic!("unexpected path elements: {:?}", other),
    }
}

#[test]
fn signal_path_starts_at_midline_and_averages() {
    // 200 samples of 0.5 over 100 pixels: 100 buckets of 2, every mean
    // 0.5, drawn at y = 75px, one pixel column apart
    let rect = square100();
    let samples: Vec<i64> = vec![ONE / 2; 200];
    let path = signal_path(&samples, &rect);
    assert_eq!(path.len(), 101);
    match &path[0] {
        PathEl::MoveTo(p) => {
            assert_eq!(p.x, 0);
            assert_eq!(p.y, 50 * ONE);
        },
        other => panic!("unexpected first element: {:?}", other),
    }
    for k in 1..=100usize {
        match &path[k] {
            PathEl::LineTo(p) => {
                assert_eq!(p.x, (k as i64 - 1) * ONE);
                assert_eq!(p.y, 75 * ONE);
            },
            other => panic!("unexpected element: {:?}", other),
        }
    }
}

#[test]
fn border_is_widened_by_half_its_width() {
    let rect = square100();
    let path = border_path(&rect);
    assert_eq!(
        path,
        vec![
            PathEl::Rect(Rect {
                x: -(3 * ONE / 2),
                y: -(3 * ONE / 2),
                w: 100 * ONE + 3 * ONE,
                h: 100 * ONE + 3 * ONE,
            }),
        ]
    );
}

#[test]
fn full_scale_layer_keeps_color() {
    let c = Rgb { r: 243, g: 250, b: 146 };
    assert_eq!(scale_color(&c, ONE), c);
}

#[test]
fn half_scale_layer_dims_by_fifth_root() {
    // fifth root of 0.5 in units: 57052 of 65536
    let out = scale_color(&white(), ONE / 2);
    assert_eq!(out, Rgb { r: 221, g: 221, b: 221 });
    let out2 = scale_color(&Rgb { r: 204, g: 50, b: 137 }, ONE / 2);
    assert_eq!(out2, Rgb { r: 177, g: 43, b: 119 });
}

#[test]
fn zero_scale_layer_is_black() {
    assert_eq!(scale_color(&white(), 0), Rgb { r: 0, g: 0, b: 0 });
}

#[test]
fn render_emits_clear_grid_lines_border() {
    let rect = square100();
    let audio: Vec<i64> = vec![ONE; 400];
    let signal: Vec<i64> = vec![0; 200];
    let config = ScopeConfig { x_divs: 10, y_divs: 10 };
    let lines = vec![
        ScopeLine::Constant(ConstantLine::new(white(), ONE / 2)),
        ScopeLine::Signal(SignalLine::new(&signal, white(), 3 * ONE / 2)),
        ScopeLine::Audio(AudioLine::new(&audio, white())),
    ];
    let cmds = render(&lines, &rect, &config).expect("valid lines render");
    // clear, grid, constant, signal, audio twice, border
    assert_eq!(cmds.len(), 7);
    match &cmds[0] {
        DrawCmd::Clear { rect: r, color } => {
            assert_eq!(*r, rect);
            assert_eq!(*color, Rgb { r: 0, g: 0, b: 0 });
        },
        other => panic!("unexpected first command: {:?}", other),
    }
    match &cmds[1] {
        DrawCmd::Stroke { path, paint } => {
            assert_eq!(path.len(), 44);
            assert_eq!(paint.color, Rgb { r: 50, g: 50, b: 40 });
        },
        other => panic!("unexpected grid command: {:?}", other),
    }
    match (&cmds[4], &cmds[5]) {
        (
            DrawCmd::Stroke { paint: outer, .. },
            DrawCmd::Stroke { paint: inner, .. },
        ) => {
            assert_eq!(outer.color, white());
            assert_eq!(inner.color, Rgb { r: 221, g: 221, b: 221 });
            assert_eq!(outer.line_width, 2 * ONE);
            assert_eq!(inner.line_width, 2 * ONE);
        },
        other => panic!("unexpected audio commands: {:?}", other),
    }
    match &cmds[6] {
        DrawCmd::Stroke { path, paint } => {
            assert_eq!(path.len(), 1);
            assert_eq!(paint.color, Rgb { r: 204, g: 204, b: 220 });
            assert_eq!(paint.line_width, 3 * ONE);
        },
        other => panic!("unexpected border command: {:?}", other),
    }
}

#[test]
fn render_rejects_empty_buffer() {
    let rect = square100();
    let empty: Vec<i64> = Vec::new();
    let lines = vec![ScopeLine::Audio(AudioLine::new(&empty, white()))];
    let config = ScopeConfig { x_divs: 10, y_divs: 10 };
    assert!(render(&lines, &rect, &config).is_none());
}

#[test]
fn render_rejects_fewer_samples_than_pixels() {
    let rect = square100();
    let short: Vec<i64> = vec![0; 99];
    let lines = vec![ScopeLine::Signal(SignalLine::new(&short, white(), ONE))];
    let config = ScopeConfig { x_divs: 10, y_divs: 10 };
    assert!(render(&lines, &rect, &config).is_none());
}
