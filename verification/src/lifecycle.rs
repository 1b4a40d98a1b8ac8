//! Window lifecycle decisions: what to apply to a freshly created window, and
//! what to persist when the window moves or is resized.
//!
//! Both functions are pure: the caller reads the window and the geometry
//! store, hands the observations in, and then performs exactly what the
//! returned plan says.

use vstd::prelude::*;
use crate::store::WindowState;

verus! {

/// A saved size is applied to a live window only when both dimensions are at
/// least this many pixels; smaller records keep their position but not their
/// size.
pub const MIN_RESTORE_DIM: u32 = 200;

/// What to apply to a freshly created window, in order: resize, then move,
/// then maximize. Maximizing last means the window's normal rectangle is the
/// restored one, so leaving the maximized state later falls back to it.
#[derive(Clone, Copy, Debug, PartialEq, Eq)]
pub struct RestorePlan {
    /// Outer size to apply, if any.
    pub size: Option<(u32, u32)>,
    /// Outer position to apply, if any.
    pub position: Option<(i32, i32)>,
    /// Whether to maximize the window once size and position are in place.
    pub maximize: bool,
}

/// Everything `restore_plan` needs to stay inside `i32` positions: the cascade
/// offset is non-negative, and wherever it is added to a coordinate the sum
/// still fits.
pub open spec fn restore_inputs_ok(
    stored: Option<WindowState>,
    current: Option<(i32, i32)>,
    cascade_offset: i32,
) -> bool {
    &&& 0 <= cascade_offset
    &&& match stored {
        Some(g) => g.x + cascade_offset <= i32::MAX && g.y + cascade_offset <= i32::MAX,
        None => match current {
            Some((cx, cy)) => cx + cascade_offset <= i32::MAX && cy + cascade_offset <= i32::MAX,
            None => true,
        },
    }
}

/// Decide what to apply to a freshly created window.
///
/// `stored` is what the geometry store holds, `current` the window's current
/// outer position as far as it could be read, and `cascade_offset` the pixel
/// delta that keeps concurrently launched windows from stacking exactly.
///
/// With a stored record, the size is applied only when both dimensions reach
/// [`MIN_RESTORE_DIM`], the position is always applied, shifted by the
/// cascade offset on both axes, and the window is maximized when the record
/// says so. Without one, a positive cascade offset still shifts the window
/// off its default position, so first-run copies cascade too; otherwise
/// nothing is applied.
pub fn restore_plan(
    stored: Option<WindowState>,
    current: Option<(i32, i32)>,
    cascade_offset: i32,
) -> (r: RestorePlan)
    requires
        restore_inputs_ok(stored, current, cascade_offset),
    ensures
        match stored {
            Some(g) => {
                &&& r.size == (if g.width >= MIN_RESTORE_DIM && g.height >= MIN_RESTORE_DIM {
                    Some((g.width, g.height))
                } else {
                    None::<(u32, u32)>
                })
                &&& r.position == Some(
                    ((g.x + cascade_offset) as i32, (g.y + cascade_offset) as i32),
                )
                &&& r.maximize == g.maximized
            },
            None => {
                &&& r.size == None::<(u32, u32)>
                &&& r.maximize == false
                &&& r.position == (if cascade_offset > 0 {
                    match current {
                        Some((cx, cy)) => Some(
                            ((cx + cascade_offset) as i32, (cy + cascade_offset) as i32),
                        ),
                        None => None::<(i32, i32)>,
                    }
                } else {
                    None::<(i32, i32)>
                })
            },
        },
{
    match stored {
        Some(g) => RestorePlan {
            size: if g.width >= MIN_RESTORE_DIM && g.height >= MIN_RESTORE_DIM {
                Some((g.width, g.height))
            } else {
                None
            },
            position: Some((g.x + cascade_offset, g.y + cascade_offset)),
            maximize: g.maximized,
        },
        None => RestorePlan {
            size: None,
            position: if cascade_offset > 0 {
                match current {
                    Some((cx, cy)) => Some((cx + cascade_offset, cy + cascade_offset)),
                    None => None,
                }
            } else {
                None
            },
            maximize: false,
        },
    }
}

/// Decide what to persist when the window reports a move or a resize.
///
/// `minimized` and `maximized` describe the window at the moment of the
/// event, `stored` is what the geometry store currently holds, and `x`, `y`,
/// `width`, `height` are the window's current outer bounds. The result is the
/// record to write, or `None` to leave the store untouched.
///
/// A minimized window is never captured: platforms park minimized windows at
/// an off-screen sentinel position, and persisting that would corrupt the
/// next restore. A maximized window only raises the stored record's
/// `maximized` flag, keeping the recorded normal rectangle; when nothing is
/// stored yet, the current outer bounds are the only normal rectangle
/// available and are recorded with the flag set. Otherwise the current outer
/// bounds are captured as the new normal rectangle.
pub fn capture_on_move_or_resize(
    minimized: bool,
    maximized: bool,
    stored: Option<WindowState>,
    x: i32,
    y: i32,
    width: u32,
    height: u32,
) -> (r: Option<WindowState>)
    ensures
        minimized ==> r == None::<WindowState>,
        !minimized && maximized && stored is Some ==> r == Some(
            WindowState { maximized: true, ..stored->0 },
        ),
        !minimized && maximized && stored is None ==> r == Some(
            WindowState { x, y, width, height, maximized: true },
        ),
        !minimized && !maximized ==> r == Some(
            WindowState { x, y, width, height, maximized: false },
        ),
{
    if minimized {
        None
    } else if maximized {
        match stored {
            Some(g) => Some(WindowState { maximized: true, ..g }),
            None => Some(WindowState { x, y, width, height, maximized: true }),
        }
    } else {
        Some(WindowState { x, y, width, height, maximized: false })
    }
}

} // verus!
