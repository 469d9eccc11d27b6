use oxide::buffer::OffscreenBuffer;
use oxide::scene::{
    execute, render_frame, render_scene, scene_commands, DrawCommand, ScreenCurve, ScreenScene,
    BOUNDING_BOX_COLOR, CURVE_COLOR, GRID_COLOR, HANDLE_COLOR, HANDLE_LINE_COLOR, ORIGIN_COLOR,
};
use oxide::vector::{Vector2i32, Vector2u32};

fn p(x: i32, y: i32) -> Vector2i32 {
    Vector2i32 { x, y }
}

fn curve(offset: i32, on_view: bool) -> ScreenCurve {
    ScreenCurve {
        p0: p(offset, 0),
        p1: p(offset + 1, 1),
        p2: p(offset + 2, 1),
        p3: p(offset + 3, 0),
        polyline: vec![p(offset, 0), p(offset + 1, 1), p(offset + 3, 0)],
        bounding_box: if on_view {
            Some((Vector2u32 { x: offset as u32, y: 0 }, Vector2u32 { x: offset as u32 + 3, y: 1 }))
        } else {
            None
        },
    }
}

#[test]
fn scene_is_drawn_back_to_front() {
    let scene = ScreenScene {
        grid_rows: vec![3],
        grid_columns: vec![-2, 4],
        origin: p(8, 8),
        origin_radius: 5,
        handle_radius: 2,
        curves: vec![curve(0, true), curve(10, false)],
    };
    let cmds = scene_commands(&scene);
    let expected = vec![
        DrawCommand::Row { pos: 3, color: GRID_COLOR },
        DrawCommand::Column { pos: -2, color: GRID_COLOR },
        DrawCommand::Column { pos: 4, color: GRID_COLOR },
        DrawCommand::Circle { center: p(8, 8), radius: 5, color: ORIGIN_COLOR },
        DrawCommand::Rect {
            top_left: Vector2u32 { x: 0, y: 0 },
            bottom_right: Vector2u32 { x: 3, y: 1 },
            color: BOUNDING_BOX_COLOR,
        },
        DrawCommand::Line { a: p(0, 0), b: p(1, 1), color: CURVE_COLOR },
        DrawCommand::Line { a: p(1, 1), b: p(3, 0), color: CURVE_COLOR },
        DrawCommand::Line { a: p(10, 0), b: p(11, 1), color: CURVE_COLOR },
        DrawCommand::Line { a: p(11, 1), b: p(13, 0), color: CURVE_COLOR },
        DrawCommand::Line { a: p(0, 0), b: p(1, 1), color: HANDLE_LINE_COLOR },
        DrawCommand::Line { a: p(2, 1), b: p(3, 0), color: HANDLE_LINE_COLOR },
        DrawCommand::Circle { center: p(1, 1), radius: 2, color: HANDLE_COLOR },
        DrawCommand::Circle { center: p(2, 1), radius: 2, color: HANDLE_COLOR },
        DrawCommand::Line { a: p(10, 0), b: p(11, 1), color: HANDLE_LINE_COLOR },
        DrawCommand::Line { a: p(12, 1), b: p(13, 0), color: HANDLE_LINE_COLOR },
        DrawCommand::Circle { center: p(11, 1), radius: 2, color: HANDLE_COLOR },
        DrawCommand::Circle { center: p(12, 1), radius: 2, color: HANDLE_COLOR },
    ];
    assert_eq!(cmds, expected);
}

#[test]
fn empty_scene_has_only_the_origin_marker() {
    let scene = ScreenScene {
        grid_rows: vec![],
        grid_columns: vec![],
        origin: p(0, 0),
        origin_radius: 1,
        handle_radius: 1,
        curves: vec![],
    };
    assert_eq!(
        scene_commands(&scene),
        vec![DrawCommand::Circle { center: p(0, 0), radius: 1, color: ORIGIN_COLOR }]
    );
}

#[test]
fn render_frame_clears_before_drawing() {
    let mut b = OffscreenBuffer::new(3, 3);
    b.memory = vec![0xFFFF_FFFF; 9];
    render_frame(&mut b, &vec![DrawCommand::Row { pos: 1, color: 0xFF00_0001 }]);
    assert_eq!(
        b.memory,
        vec![0, 0, 0, 0xFF00_0001, 0xFF00_0001, 0xFF00_0001, 0, 0, 0]
    );
}

#[test]
fn later_commands_paint_over_earlier_ones() {
    let mut b = OffscreenBuffer::new(2, 1);
    let cmds = vec![
        DrawCommand::Rect {
            top_left: Vector2u32 { x: 0, y: 0 },
            bottom_right: Vector2u32 { x: 2, y: 1 },
            color: 0xFF10_2030,
        },
        DrawCommand::Column { pos: 1, color: 0x40F0_E0D0 },
    ];
    render_frame(&mut b, &cmds);
    assert_eq!(b.memory, vec![0xFF10_2030, 0xFF48_5058]);
}

#[test]
fn execute_runs_one_command() {
    let mut b = OffscreenBuffer::new(4, 4);
    execute(&mut b, DrawCommand::Circle { center: p(1, 1), radius: 0, color: 0xFF00_00FF });
    assert_eq!(b.get_pixel(1, 1), 0xFF00_00FF);
    assert_eq!(b.get_pixel(2, 1), 0);
}

#[test]
fn render_scene_draws_grid_and_origin() {
    let mut b = OffscreenBuffer::new(5, 5);
    b.memory = vec![0x1234_5678; 25];
    let scene = ScreenScene {
        grid_rows: vec![0],
        grid_columns: vec![],
        origin: p(2, 3),
        origin_radius: 0,
        handle_radius: 0,
        curves: vec![],
    };
    render_scene(&mut b, &scene);
    for x in 0..5 {
        assert_eq!(b.get_pixel(x, 0), GRID_COLOR);
    }
    assert_eq!(b.get_pixel(2, 3), ORIGIN_COLOR);
    assert_eq!(b.get_pixel(4, 4), 0);
}
