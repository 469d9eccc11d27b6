use vstd::prelude::*;
use crate::input::InputController;

verus! {

/// Which way the keyboard moves the camera in one frame: `dx` and `dy` are
/// -1, 0 or 1 (y grows downwards), and `diagonal` tells that both move, at
/// the slower diagonal speed.
#[derive(Clone, Copy, Debug, PartialEq, Eq, Structural)]
pub struct CameraStep {
    pub dx: i8,
    pub dy: i8,
    pub diagonal: bool,
}

/// The curve handle being dragged, if any. `control_point` is 0 for `p1` and
/// 1 for `p2`, and means something only while `curve_index` is set.
#[derive(Clone, Copy, Debug, Default, PartialEq, Eq, Structural)]
pub struct Selection {
    pub curve_index: Option<u32>,
    pub control_point: u32,
}

/// What the left button does to the scene in this frame.
#[derive(Clone, Copy, Debug, PartialEq, Eq, Structural)]
pub enum Drag {
    /// The button is up.
    Idle,
    /// The handle `control_point` of the curve in slot `curve_index` moves to
    /// the pointer.
    MoveHandle { curve_index: u32, control_point: u32 },
    /// The camera moves by this many screen pixels (to be divided by the scale).
    Pan { dx: i64, dy: i64 },
}

/// Everything the input of one frame asks of the camera and the curves, to be
/// applied in this order: the keyboard step, the drag, then the reset.
#[derive(Clone, Copy, Debug, PartialEq, Eq, Structural)]
pub struct InputPlan {
    pub step: CameraStep,
    pub drag: Drag,
    /// The camera goes back to the world origin.
    pub reset_camera: bool,
}

impl Selection {
    pub open spec fn wf(&self) -> bool {
        self.control_point < 2
    }
}

/// The keyboard's camera movement: W or Up, S or Down, A or Left, D or Right.
/// Two keys at right angles give a diagonal; otherwise up wins over down, and
/// down over left and right, and left over right.
pub open spec fn keyboard_step_spec(input: InputController) -> CameraStep {
    let up = input.w.is_down || input.up.is_down;
    let down = input.s.is_down || input.down.is_down;
    let left = input.a.is_down || input.left.is_down;
    let right = input.d.is_down || input.right.is_down;
    if up && left {
        CameraStep { dx: -1i8, dy: -1i8, diagonal: true }
    } else if up && right {
        CameraStep { dx: 1, dy: -1i8, diagonal: true }
    } else if down && left {
        CameraStep { dx: -1i8, dy: 1, diagonal: true }
    } else if down && right {
        CameraStep { dx: 1, dy: 1, diagonal: true }
    } else if up {
        CameraStep { dx: 0, dy: -1i8, diagonal: false }
    } else if down {
        CameraStep { dx: 0, dy: 1, diagonal: false }
    } else if left {
        CameraStep { dx: -1i8, dy: 0, diagonal: false }
    } else if right {
        CameraStep { dx: 1, dy: 0, diagonal: false }
    } else {
        CameraStep { dx: 0, dy: 0, diagonal: false }
    }
}

/// `i` is the first slot whose handle is under the pointer.
pub open spec fn is_first_hit(hits: Seq<Option<u32>>, i: int) -> bool {
    &&& 0 <= i < hits.len()
    &&& hits[i] is Some
    &&& forall|j: int| 0 <= j < i ==> hits[j] is None
}

pub open spec fn no_hit(hits: Seq<Option<u32>>) -> bool {
    forall|j: int| 0 <= j < hits.len() ==> hits[j] is None
}

/// Each entry names the handle (0 or 1) of that slot's curve that lies under
/// the pointer, or is `None`.
pub open spec fn hits_wf(hits: Seq<Option<u32>>) -> bool {
    forall|j: int| 0 <= j < hits.len() && (#[trigger] hits[j]) is Some ==> hits[j]->0 < 2
}

/// The selection after a frame: a release of the left button clears it; a
/// press picks the first slot with a handle under the pointer, and keeps the
/// selection as it was where there is none.
pub open spec fn next_selection(
    input: InputController,
    sel: Selection,
    hits: Seq<Option<u32>>,
) -> Selection {
    let left = input.mouse_state.left;
    let kept = if !left.is_down && left.was_down {
        Selection { curve_index: None, control_point: sel.control_point }
    } else {
        sel
    };
    if left.is_down && !left.was_down && exists|i: int| is_first_hit(hits, i) {
        let i = choose|i: int| is_first_hit(hits, i);
        Selection { curve_index: Some(i as u32), control_point: hits[i]->0 }
    } else {
        kept
    }
}

/// While the left button is down, the selected handle follows the pointer, or,
/// with nothing selected, the camera moves against the pointer's movement.
pub open spec fn drag_of(input: InputController, sel: Selection) -> Drag {
    if !input.mouse_state.left.is_down {
        Drag::Idle
    } else {
        match sel.curve_index {
            Some(i) => Drag::MoveHandle { curve_index: i, control_point: sel.control_point },
            None => Drag::Pan {
                dx: (input.mouse_state.prev_pos.x - input.mouse_state.pos.x) as i64,
                dy: (input.mouse_state.prev_pos.y - input.mouse_state.pos.y) as i64,
            },
        }
    }
}

/// The camera movement that the keys held in this frame ask for.
pub fn keyboard_step(input: &InputController) -> (r: CameraStep)
    ensures
        r == keyboard_step_spec(*input),
{
    let up = input.w.is_down || input.up.is_down;
    let down = input.s.is_down || input.down.is_down;
    let left = input.a.is_down || input.left.is_down;
    let right = input.d.is_down || input.right.is_down;
    if up && left {
        CameraStep { dx: -1, dy: -1, diagonal: true }
    } else if up && right {
        CameraStep { dx: 1, dy: -1, diagonal: true }
    } else if down && left {
        CameraStep { dx: -1, dy: 1, diagonal: true }
    } else if down && right {
        CameraStep { dx: 1, dy: 1, diagonal: true }
    } else if up {
        CameraStep { dx: 0, dy: -1, diagonal: false }
    } else if down {
        CameraStep { dx: 0, dy: 1, diagonal: false }
    } else if left {
        CameraStep { dx: -1, dy: 0, diagonal: false }
    } else if right {
        CameraStep { dx: 1, dy: 0, diagonal: false }
    } else {
        CameraStep { dx: 0, dy: 0, diagonal: false }
    }
}

/// The first slot, in slot order, whose entry in `hits` is set.
pub fn first_hit(hits: &Vec<Option<u32>>) -> (r: Option<u32>)
    requires
        hits@.len() <= u32::MAX,
    ensures
        match r {
            Some(i) => is_first_hit(hits@, i as int),
            None => no_hit(hits@),
        },
{
    let mut i: usize = 0;
    while i < hits.len()
        invariant
            hits@.len() <= u32::MAX,
            i <= hits@.len(),
            forall|j: int| 0 <= j < i ==> hits@[j] is None,
        decreases hits@.len() - i,
    {
        if hits[i].is_some() {
            return Some(i as u32);
        }
        i = i + 1;
    }
    None
}

/// Reads one frame of input: updates the selection by the left button and
/// `hits` (one entry per curve slot: which handle of that curve lies under the
/// pointer), and says what the frame does to the camera and the curves.
pub fn plan_inputs(input: &InputController, selection: &mut Selection, hits: &Vec<Option<u32>>) -> (r: InputPlan)
    requires
        old(selection).wf(),
        hits@.len() <= u32::MAX,
        hits_wf(hits@),
    ensures
        *final(selection) == next_selection(*input, *old(selection), hits@),
        final(selection).wf(),
        r.step == keyboard_step_spec(*input),
        r.drag == drag_of(*input, *final(selection)),
        r.reset_camera == (input.mouse_state.right.is_down && !input.mouse_state.right.was_down),
{
    let step = keyboard_step(input);

    let left = input.mouse_state.left;
    if left.released() {
        selection.curve_index = None;
    }
    if left.pressed() {
        match first_hit(hits) {
            Some(i) => {
                let point = hits[i as usize].unwrap();
                selection.curve_index = Some(i);
                selection.control_point = point;
                proof {
                    assert(is_first_hit(hits@, i as int));
                    assert forall|k: int| is_first_hit(hits@, k) implies k == i as int by {
                        if k < i as int {
                            assert(hits@[k] is None);
                        } else if k > i as int {
                            assert(hits@[i as int] is None);
                        }
                    }
                }
            },
            None => {},
        }
    }

    let drag = if left.is_down {
        match selection.curve_index {
            Some(i) => Drag::MoveHandle { curve_index: i, control_point: selection.control_point },
            None => Drag::Pan {
                dx: input.mouse_state.prev_pos.x as i64 - input.mouse_state.pos.x as i64,
                dy: input.mouse_state.prev_pos.y as i64 - input.mouse_state.pos.y as i64,
            },
        }
    } else {
        Drag::Idle
    };

    InputPlan { step, drag, reset_camera: input.mouse_state.right.pressed() }
}

} // verus!
