use vizia_scope::geom::DrawCmd;
use vizia_scope::geom::Rect;
use vizia_scope::geom::Rgb;
use vizia_scope::model::ConstantLine;
use vizia_scope::model::ParamUpdateEvent;
use vizia_scope::model::ScopeConfig;
use vizia_scope::model::ScopeData;
use vizia_scope::model::ScopeLine;
use vizia_scope::num::ONE;
use vizia_scope::render::ScopeView;

struct ThresholdScope {
    threshold: i64,
    recalculations: u32,
}

impl ScopeData for ThresholdScope {
    fn recalculate(&mut self) {
        self.recalculations += 1;
    }

    fn scope_lines(&self) -> Vec<ScopeLine> {
        vec![
            ScopeLine::Constant(ConstantLine::new(Rgb { r: 163, g: 144, b: 95 }, self.threshold)),
            ScopeLine::Constant(ConstantLine::new(Rgb { r: 163, g: 144, b: 95 }, -self.threshold)),
        ]
    }
}

struct HugeScope;

impl ScopeData for HugeScope {
    fn recalculate(&mut self) {}

    fn scope_lines(&self) -> Vec<ScopeLine> {
        vec![ScopeLine::Constant(ConstantLine::new(Rgb { r: 0, g: 0, b: 0 }, i64::MAX))]
    }
}

#[test]
fn new_recalculates_once_and_defaults_to_ten_divisions() {
    let view = ScopeView::new(ThresholdScope { threshold: ONE / 2, recalculations: 0 }, None);
    assert_eq!(view.scope_data.recalculations, 1);
    assert_eq!(view.config.x_divs, 10);
    assert_eq!(view.config.y_divs, 10);
}

#[test]
fn new_keeps_given_config() {
    let view = ScopeView::new(
        ThresholdScope { threshold: 0, recalculations: 0 },
        Some(ScopeConfig { x_divs: 4, y_divs: 8 }),
    );
    assert_eq!(view.config.x_divs, 4);
    assert_eq!(view.config.y_divs, 8);
}

#[test]
fn param_update_event_recalculates() {
    let mut view = ScopeView::new(ThresholdScope { threshold: 0, recalculations: 0 }, None);
    view.event(&ParamUpdateEvent::ParamUpdate);
    view.event(&ParamUpdateEvent::ParamUpdate);
    assert_eq!(view.scope_data.recalculations, 3);
}

#[test]
fn draw_frames_every_render() {
    let view = ScopeView::new(ThresholdScope { threshold: ONE / 4, recalculations: 0 }, None);
    let rect = Rect { x: 0, y: 0, w: 100 * ONE, h: 100 * ONE };
    let cmds = view.draw(&rect).expect("constant lines always render");
    // clear, grid, two constant lines, border
    assert_eq!(cmds.len(), 5);
    match &cmds[0] {
        DrawCmd::Clear { color, .. } => assert_eq!(*color, Rgb { r: 0, g: 0, b: 0 }),
        other => panic!("unexpected first command: {:?}", other),
    }
    match cmds.last().expect("frame is never empty") {
        DrawCmd::Stroke { path, .. } => assert_eq!(path.len(), 1),
        other => panic!("unexpected last command: {:?}", other),
    }
}

#[test]
fn draw_rejects_out_of_range_constant() {
    let view = ScopeView::new(HugeScope, None);
    let rect = Rect { x: 0, y: 0, w: 100 * ONE, h: 100 * ONE };
    assert!(view.draw(&rect).is_none());
}
