use vstd::prelude::*;
use crate::buffer::{OffscreenBuffer, Plot};
use crate::raster::{
    circle_box_end, circle_box_start, circle_scan, draw_circle, draw_grid_column, draw_grid_row,
    draw_line, fill_rect, hline_plots, lemma_paint_all_concat, min, rect_plots, vline_plots,
    wu_plots, wu_setup,
};
use crate::vector::{Vector2i32, Vector2u32};

verus! {

pub const GRID_COLOR: u32 = 0xFF44_4444;

pub const ORIGIN_COLOR: u32 = 0xFFFF_0000;

pub const BOUNDING_BOX_COLOR: u32 = 0x3300_DDAA;

pub const CURVE_COLOR: u32 = 0xFFFF_FFFF;

pub const HANDLE_LINE_COLOR: u32 = 0xFF88_8888;

pub const HANDLE_COLOR: u32 = 0xFF00_FF00;

/// One drawing operation, in screen pixels.
#[derive(Clone, Copy, Debug, PartialEq, Eq, Structural)]
pub enum DrawCommand {
    /// A full row, wrapped into the buffer's height.
    Row { pos: i32, color: u32 },
    /// A full column, wrapped into the buffer's width.
    Column { pos: i32, color: u32 },
    /// A filled box, `top_left` inclusive, `bottom_right` exclusive.
    Rect { top_left: Vector2u32, bottom_right: Vector2u32, color: u32 },
    /// An anti-aliased line.
    Line { a: Vector2i32, b: Vector2i32, color: u32 },
    /// A filled, anti-aliased circle.
    Circle { center: Vector2i32, radius: i32, color: u32 },
}

/// The pixel writes of one command on a buffer of `w` by `h` pixels.
pub open spec fn command_plots(w: int, h: int, cmd: DrawCommand) -> Seq<Plot> {
    match cmd {
        DrawCommand::Row { pos, color } => if h == 0 {
            Seq::empty()
        } else {
            hline_plots(pos as int % h, 0, w, color)
        },
        DrawCommand::Column { pos, color } => if w == 0 {
            Seq::empty()
        } else {
            vline_plots(pos as int % w, 0, h, color)
        },
        DrawCommand::Rect { top_left, bottom_right, color } => rect_plots(
            top_left.x as int,
            min(bottom_right.x as int, w),
            top_left.y as int,
            min(bottom_right.y as int, h),
            color,
        ),
        DrawCommand::Line { a, b, color } => wu_plots(wu_setup(a, b), color, wu_setup(a, b).dx + 1),
        DrawCommand::Circle { center, radius, color } => circle_scan(
            center,
            radius as int,
            color,
            circle_box_start(center.x as int, radius as int),
            circle_box_end(center.x as int, radius as int, w),
            circle_box_start(center.y as int, radius as int),
            circle_box_end(center.y as int, radius as int, h),
        ),
    }
}

/// The pixel writes of `cmds`, in order.
pub open spec fn commands_plots(w: int, h: int, cmds: Seq<DrawCommand>) -> Seq<Plot>
    decreases cmds.len(),
{
    if cmds.len() == 0 {
        Seq::empty()
    } else {
        commands_plots(w, h, cmds.drop_last()) + command_plots(w, h, cmds.last())
    }
}

/// Runs one command on the buffer.
pub fn execute(buffer: &mut OffscreenBuffer, cmd: DrawCommand)
    requires
        old(buffer).wf(),
    ensures
        final(buffer).wf(),
        final(buffer).same_shape(old(buffer)),
        final(buffer).memory@ == old(buffer).paint_all(
            old(buffer).memory@,
            command_plots(old(buffer).width as int, old(buffer).height as int, cmd),
        ),
{
    let ghost empty = Seq::<Plot>::empty();
    assert(buffer.paint_all(buffer.memory@, empty) == buffer.memory@);
    match cmd {
        DrawCommand::Row { pos, color } => draw_grid_row(buffer, pos, color),
        DrawCommand::Column { pos, color } => draw_grid_column(buffer, pos, color),
        DrawCommand::Rect { top_left, bottom_right, color } => fill_rect(buffer, top_left, bottom_right, color),
        DrawCommand::Line { a, b, color } => draw_line(buffer, a, b, color),
        DrawCommand::Circle { center, radius, color } => draw_circle(buffer, center, radius, color),
    }
}

/// Draws one frame: clears the buffer, then runs `cmds` in order, each
/// painting over what the earlier ones left.
pub fn render_frame(buffer: &mut OffscreenBuffer, cmds: &Vec<DrawCommand>)
    requires
        old(buffer).wf(),
    ensures
        final(buffer).wf(),
        final(buffer).same_shape(old(buffer)),
        final(buffer).memory@ == old(buffer).paint_all(
            Seq::new(old(buffer).memory@.len(), |i: int| 0u32),
            commands_plots(old(buffer).width as int, old(buffer).height as int, cmds@),
        ),
{
    let ghost b0 = *buffer;
    buffer.clear();
    let ghost zeros = Seq::new(b0.memory@.len(), |i: int| 0u32);
    assert(buffer.memory@ =~= zeros);
    assert(cmds@.take(0) =~= Seq::<DrawCommand>::empty());
    let mut i: usize = 0;
    while i < cmds.len()
        invariant
            buffer.wf(),
            buffer.same_shape(&b0),
            i <= cmds@.len(),
            buffer.memory@ == b0.paint_all(
                zeros,
                commands_plots(b0.width as int, b0.height as int, cmds@.take(i as int)),
            ),
        decreases cmds@.len() - i,
    {
        let cmd = cmds[i];
        proof {
            let done = cmds@.take(i as int);
            assert(cmds@.take(i + 1).drop_last() =~= done);
            assert(cmds@.take(i + 1).last() == cmd);
            assert(commands_plots(b0.width as int, b0.height as int, cmds@.take(i + 1))
                == commands_plots(b0.width as int, b0.height as int, done)
                    + command_plots(b0.width as int, b0.height as int, cmd));
            buffer.lemma_paint_all_same_shape(
                &b0,
                buffer.memory@,
                command_plots(b0.width as int, b0.height as int, cmd),
            );
            lemma_paint_all_concat(
                b0,
                zeros,
                commands_plots(b0.width as int, b0.height as int, done),
                command_plots(b0.width as int, b0.height as int, cmd),
            );
        }
        execute(buffer, cmd);
        i = i + 1;
    }
    assert(cmds@.take(cmds@.len() as int) =~= cmds@);
}

/// One curve as it appears on screen.
pub struct ScreenCurve {
    pub p0: Vector2i32,
    pub p1: Vector2i32,
    pub p2: Vector2i32,
    pub p3: Vector2i32,
    /// The curve as a chain of points, first to last.
    pub polyline: Vec<Vector2i32>,
    /// The corners of its bounding box, or `None` when the box is off view.
    pub bounding_box: Option<(Vector2u32, Vector2u32)>,
}

/// A frame's content in screen pixels.
pub struct ScreenScene {
    /// Rows and columns of the unit grid, before wrapping.
    pub grid_rows: Vec<i32>,
    pub grid_columns: Vec<i32>,
    /// The marker at the world origin.
    pub origin: Vector2i32,
    pub origin_radius: i32,
    /// The radius of the markers on curve handles.
    pub handle_radius: i32,
    pub curves: Vec<ScreenCurve>,
}

pub open spec fn row_command(pos: i32) -> DrawCommand {
    DrawCommand::Row { pos, color: GRID_COLOR }
}

pub open spec fn column_command(pos: i32) -> DrawCommand {
    DrawCommand::Column { pos, color: GRID_COLOR }
}

pub open spec fn box_commands(c: ScreenCurve) -> Seq<DrawCommand> {
    match c.bounding_box {
        Some(corners) => seq![
            DrawCommand::Rect { top_left: corners.0, bottom_right: corners.1, color: BOUNDING_BOX_COLOR },
        ],
        None => Seq::empty(),
    }
}

/// A segment between each two neighbouring points.
pub open spec fn polyline_commands(pts: Seq<Vector2i32>) -> Seq<DrawCommand> {
    if pts.len() < 2 {
        Seq::empty()
    } else {
        Seq::new(
            (pts.len() - 1) as nat,
            |k: int| DrawCommand::Line { a: pts[k], b: pts[k + 1], color: CURVE_COLOR },
        )
    }
}

/// The lines from each end to its handle, then a marker on each handle.
pub open spec fn handle_commands(c: ScreenCurve, radius: i32) -> Seq<DrawCommand> {
    seq![
        DrawCommand::Line { a: c.p0, b: c.p1, color: HANDLE_LINE_COLOR },
        DrawCommand::Line { a: c.p2, b: c.p3, color: HANDLE_LINE_COLOR },
        DrawCommand::Circle { center: c.p1, radius, color: HANDLE_COLOR },
        DrawCommand::Circle { center: c.p2, radius, color: HANDLE_COLOR },
    ]
}

pub open spec fn all_boxes(cs: Seq<ScreenCurve>) -> Seq<DrawCommand>
    decreases cs.len(),
{
    if cs.len() == 0 {
        Seq::empty()
    } else {
        all_boxes(cs.drop_last()) + box_commands(cs.last())
    }
}

pub open spec fn all_polylines(cs: Seq<ScreenCurve>) -> Seq<DrawCommand>
    decreases cs.len(),
{
    if cs.len() == 0 {
        Seq::empty()
    } else {
        all_polylines(cs.drop_last()) + polyline_commands(cs.last().polyline@)
    }
}

pub open spec fn all_handles(cs: Seq<ScreenCurve>, radius: i32) -> Seq<DrawCommand>
    decreases cs.len(),
{
    if cs.len() == 0 {
        Seq::empty()
    } else {
        all_handles(cs.drop_last(), radius) + handle_commands(cs.last(), radius)
    }
}

/// The frame, back to front: grid rows, grid columns, the origin marker, the
/// bounding boxes, the curves, then the handles.
pub open spec fn scene_commands_spec(s: ScreenScene) -> Seq<DrawCommand> {
    s.grid_rows@.map_values(|p: i32| row_command(p)) + s.grid_columns@.map_values(
        |p: i32| column_command(p),
    ) + seq![DrawCommand::Circle { center: s.origin, radius: s.origin_radius, color: ORIGIN_COLOR }]
        + all_boxes(s.curves@) + all_polylines(s.curves@) + all_handles(s.curves@, s.handle_radius)
}

/// The drawing commands of a frame, in the order they are painted.
pub fn scene_commands(scene: &ScreenScene) -> (r: Vec<DrawCommand>)
    ensures
        r@ == scene_commands_spec(*scene),
{
    let mut out: Vec<DrawCommand> = Vec::new();

    let mut i: usize = 0;
    while i < scene.grid_rows.len()
        invariant
            i <= scene.grid_rows@.len(),
            out@ == scene.grid_rows@.take(i as int).map_values(|p: i32| row_command(p)),
        decreases scene.grid_rows@.len() - i,
    {
        out.push(DrawCommand::Row { pos: scene.grid_rows[i], color: GRID_COLOR });
        assert(scene.grid_rows@.take(i + 1).map_values(|p: i32| row_command(p))
            =~= scene.grid_rows@.take(i as int).map_values(|p: i32| row_command(p)).push(
            row_command(scene.grid_rows@[i as int]),
        ));
        i = i + 1;
    }
    assert(scene.grid_rows@.take(i as int) =~= scene.grid_rows@);
    let ghost rows = out@;

    let mut i: usize = 0;
    while i < scene.grid_columns.len()
        invariant
            i <= scene.grid_columns@.len(),
            out@ == rows + scene.grid_columns@.take(i as int).map_values(|p: i32| column_command(p)),
        decreases scene.grid_columns@.len() - i,
    {
        out.push(DrawCommand::Column { pos: scene.grid_columns[i], color: GRID_COLOR });
        assert(scene.grid_columns@.take(i + 1).map_values(|p: i32| column_command(p))
            =~= scene.grid_columns@.take(i as int).map_values(|p: i32| column_command(p)).push(
            column_command(scene.grid_columns@[i as int]),
        ));
        assert(out@ =~= rows + scene.grid_columns@.take(i + 1).map_values(|p: i32| column_command(p)));
        i = i + 1;
    }
    assert(scene.grid_columns@.take(i as int) =~= scene.grid_columns@);

    out.push(DrawCommand::Circle { center: scene.origin, radius: scene.origin_radius, color: ORIGIN_COLOR });
    let ghost head = out@;
    let n = scene.curves.len();

    let mut i: usize = 0;
    while i < n
        invariant
            n == scene.curves@.len(),
            i <= n,
            out@ == head + all_boxes(scene.curves@.take(i as int)),
        decreases n - i,
    {
        let curve = &scene.curves[i];
        assert(scene.curves@.take(i + 1).drop_last() =~= scene.curves@.take(i as int));
        match curve.bounding_box {
            Some(corners) => {
                out.push(DrawCommand::Rect { top_left: corners.0, bottom_right: corners.1, color: BOUNDING_BOX_COLOR });
            },
            None => {},
        }
        assert(out@ =~= head + all_boxes(scene.curves@.take(i + 1)));
        i = i + 1;
    }
    assert(scene.curves@.take(n as int) =~= scene.curves@);
    let ghost head = out@;

    let mut i: usize = 0;
    while i < n
        invariant
            n == scene.curves@.len(),
            i <= n,
            out@ == head + all_polylines(scene.curves@.take(i as int)),
        decreases n - i,
    {
        let pts = &scene.curves[i].polyline;
        let ghost before = out@;
        if pts.len() >= 2 {
            let mut j: usize = 1;
            while j < pts.len()
                invariant
                    1 <= j <= pts@.len(),
                    out@ == before + polyline_commands(pts@.take(j as int)),
                decreases pts@.len() - j,
            {
                out.push(DrawCommand::Line { a: pts[j - 1], b: pts[j], color: CURVE_COLOR });
                assert(polyline_commands(pts@.take(j + 1)) =~= polyline_commands(pts@.take(j as int)).push(
                    DrawCommand::Line { a: pts@[j - 1], b: pts@[j as int], color: CURVE_COLOR },
                ));
                assert(out@ =~= before + polyline_commands(pts@.take(j + 1)));
                j = j + 1;
            }
            assert(pts@.take(j as int) =~= pts@);
        } else {
            assert(out@ =~= before + polyline_commands(pts@));
        }
        assert(scene.curves@.take(i + 1).drop_last() =~= scene.curves@.take(i as int));
        assert(out@ =~= head + all_polylines(scene.curves@.take(i + 1)));
        i = i + 1;
    }
    assert(scene.curves@.take(n as int) =~= scene.curves@);
    let ghost head = out@;

    let mut i: usize = 0;
    while i < n
        invariant
            n == scene.curves@.len(),
            i <= n,
            out@ == head + all_handles(scene.curves@.take(i as int), scene.handle_radius),
        decreases n - i,
    {
        let curve = &scene.curves[i];
        let r = scene.handle_radius;
        out.push(DrawCommand::Line { a: curve.p0, b: curve.p1, color: HANDLE_LINE_COLOR });
        out.push(DrawCommand::Line { a: curve.p2, b: curve.p3, color: HANDLE_LINE_COLOR });
        out.push(DrawCommand::Circle { center: curve.p1, radius: r, color: HANDLE_COLOR });
        out.push(DrawCommand::Circle { center: curve.p2, radius: r, color: HANDLE_COLOR });
        assert(scene.curves@.take(i + 1).drop_last() =~= scene.curves@.take(i as int));
        assert(out@ =~= head + all_handles(scene.curves@.take(i + 1), r));
        i = i + 1;
    }
    assert(scene.curves@.take(n as int) =~= scene.curves@);
    out
}

/// Draws the frame of `scene` on a cleared buffer.
pub fn render_scene(buffer: &mut OffscreenBuffer, scene: &ScreenScene)
    requires
        old(buffer).wf(),
    ensures
        final(buffer).wf(),
        final(buffer).same_shape(old(buffer)),
        final(buffer).memory@ == old(buffer).paint_all(
            Seq::new(old(buffer).memory@.len(), |i: int| 0u32),
            commands_plots(
                old(buffer).width as int,
                old(buffer).height as int,
                scene_commands_spec(*scene),
            ),
        ),
{
    let cmds = scene_commands(scene);
    render_frame(buffer, &cmds);
}

} // verus!
