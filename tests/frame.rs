use vessels::frame::{Blit, Point, Rect, Size, WebGL2Frame};

#[test]
fn lone_frame_blits_whole_extent() {
    let f = WebGL2Frame::root(Size { w: 800, h: 600 }, 1);
    assert_eq!(
        f.draw(None),
        vec![Blit {
            source: 1,
            target: None,
            src_x0: 0,
            src_y0: 0,
            src_x1: 800,
            src_y1: 600,
            dst_x0: 0,
            dst_y0: 0,
            dst_x1: 800,
            dst_y1: 600,
        }]
    );
}

#[test]
fn nested_frames_draw_first_onto_their_parent() {
    let mut root = WebGL2Frame::root(Size { w: 100, h: 100 }, 1);
    let a = root.new(Rect { x: 10, y: 20, w: 30, h: 40 }, 2);
    let b = root.new(Rect { x: 0, y: 0, w: 5, h: 5 }, 3);
    assert_eq!((a, b), (0, 1));
    root.children[a].clip(Some(Point { x: 2, y: 3 }), Some(Point { x: 12, y: 13 }));
    root.children[b].position(Point { x: 7, y: 8 });
    root.resize(Size { w: 50, h: 60 });
    let plan = root.draw(Some(9));
    assert_eq!(plan.len(), 3);
    assert_eq!(
        plan[0],
        Blit {
            source: 2,
            target: Some(1),
            src_x0: 2,
            src_y0: 3,
            src_x1: 12,
            src_y1: 13,
            dst_x0: 10,
            dst_y0: 20,
            dst_x1: 10,
            dst_y1: 10,
        }
    );
    assert_eq!(plan[1].source, 3);
    assert_eq!((plan[1].dst_x0, plan[1].dst_y0), (7, 8));
    assert_eq!(plan[1].target, Some(1));
    assert_eq!(plan[2].source, 1);
    assert_eq!(plan[2].target, Some(9));
    assert_eq!((plan[2].src_x1, plan[2].src_y1), (50, 60));
}

#[test]
fn blit_extent_does_not_overflow() {
    let mut f = WebGL2Frame::root(Size { w: 1, h: 1 }, 4);
    f.clip(Some(Point { x: i32::MIN, y: i32::MIN }), Some(Point { x: i32::MAX, y: i32::MAX }));
    let plan = f.draw(None);
    assert_eq!(plan[0].dst_x1, i32::MAX as i64 - i32::MIN as i64);
}
