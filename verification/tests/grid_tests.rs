use vizia_scope::geom::PathEl;
use vizia_scope::geom::Rect;
use vizia_scope::grid::grid_path;
use vizia_scope::num::ONE;

fn square100() -> Rect {
    Rect { x: 0, y: 0, w: 100 * ONE, h: 100 * ONE }
}

#[test]
fn grid_has_divisions_plus_one_lines_each_way() {
    let rect = square100();
    let path = grid_path(&rect, 10, 10);
    // 11 vertical and 11 horizontal lines, two elements each
    assert_eq!(path.len(), 2 * 11 + 2 * 11);
}

#[test]
fn grid_vertical_lines_evenly_spaced() {
    let rect = square100();
    let path = grid_path(&rect, 10, 10);
    for i in 0..=10u32 {
        let expect_x = (i as i64) * 10 * ONE;
        match (&path[2 * i as usize], &path[2 * i as usize + 1]) {
            (PathEl::MoveTo(a), PathEl::LineTo(b)) => {
                assert_eq!(a.x, expect_x);
                assert_eq!(b.x, expect_x);
                assert_eq!(a.y, 0);
                assert_eq!(b.y, 100 * ONE);
            },
            other => panic!("unexpected grid elements: {:?}", other),
        }
    }
}

#[test]
fn grid_first_and_last_lines_on_the_edges() {
    let rect = Rect { x: 7 * ONE, y: 3 * ONE, w: 90 * ONE, h: 60 * ONE };
    let path = grid_path(&rect, 9, 6);
    // first vertical line at rect.x, last at rect.x + rect.w
    match &path[0] {
        PathEl::MoveTo(p) => assert_eq!(p.x, 7 * ONE),
        other => panic!("unexpected first element: {:?}", other),
    }
    match &path[2 * 9] {
        PathEl::MoveTo(p) => assert_eq!(p.x, 7 * ONE + 90 * ONE),
        other => panic!("unexpected last vertical element: {:?}", other),
    }
    // first horizontal line at rect.y, last at rect.y + rect.h
    let base = 2 * 10;
    match &path[base] {
        PathEl::MoveTo(p) => assert_eq!(p.y, 3 * ONE),
        other => panic!("unexpected first horizontal element: {:?}", other),
    }
    match &path[base + 2 * 6] {
        PathEl::MoveTo(p) => assert_eq!(p.y, 3 * ONE + 60 * ONE),
        other => panic!("unexpected last horizontal element: {:?}", other),
    }
}

#[test]
fn grid_uneven_division_stays_monotone() {
    let rect = Rect { x: 0, y: 0, w: 100 * ONE, h: 100 * ONE };
    let path = grid_path(&rect, 3, 3);
    let gap = 100 * ONE / 3;
    let mut last_x: i64 = -1;
    for i in 0..=3u32 {
        match &path[2 * i as usize] {
            PathEl::MoveTo(p) => {
                assert!(p.x > last_x);
                if i > 0 {
                    let prev = match &path[2 * (i as usize - 1)] {
                        PathEl::MoveTo(q) => q.x,
                        other => panic!("unexpected element: {:?}", other),
                    };
                    let d = p.x - prev;
                    assert!(d == gap || d == gap + 1);
                }
                last_x = p.x;
            },
            other => panic!("unexpected element: {:?}", other),
        }
    }
    // last vertical line still ends exactly on the far edge
    match &path[2 * 3] {
        PathEl::MoveTo(p) => assert_eq!(p.x, 100 * ONE),
        other => panic!("unexpected element: {:?}", other),
    }
}
