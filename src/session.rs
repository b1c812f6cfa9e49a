//! The run state of an editing session: whether the user is painting cells or
//! the simulation is running, and what each input event changes.

use vstd::prelude::*;
use crate::grid::{Cells, init_cells, get_all_cells_as_dead, dead_grid};
use crate::life::{game_of_life, next_generation};
use crate::spatial::{
    Point,
    coordinate_to_index,
    snap_to_grid,
    outside_area,
    cell_x_of,
    cell_y_of,
    lower_left,
    sorted_by_distance,
};

verus! {

/// Frames between two generations.
pub const FRAMES_PER_GENERATION: u64 = 5;

/// `Init`: cells may be painted and the simulation does not advance.
/// `Running`: the simulation advances on every tick.
#[derive(Debug, Clone, Copy, PartialEq, Eq, Structural)]
pub enum AppState {
    Init,
    Running,
}

/// Where a pointer stroke stands.
#[derive(Debug, Clone, Copy, PartialEq, Eq, Structural)]
pub enum DrawingState {
    Started,
    Ended,
    Void,
}

/// A key command.
#[derive(Debug, Clone, Copy, PartialEq, Eq, Structural)]
pub enum Command {
    Start,
    ToggleGrid,
    Clear,
    Reset,
    Other,
}

/// A pointer button.
#[derive(Debug, Clone, Copy, PartialEq, Eq, Structural)]
pub enum PointerButton {
    Left,
    Right,
    Other,
}

/// What the shell is left to do after a key command.
#[derive(Debug, Clone, Copy, PartialEq, Eq, Structural)]
pub enum KeyAction {
    Nothing,
    ClearStroke,
}

/// The state that the input events drive.
#[derive(Debug, Clone, Copy, PartialEq, Eq, Structural)]
pub struct Session {
    pub state: AppState,
    pub drawing_state: DrawingState,
    pub should_draw_grid: bool,
    pub should_draw_white: bool,
    pub generations: u64,
}

impl Session {
    /// A session that waits for the user to paint, with no stroke begun.
    pub fn new() -> (r: Session)
        ensures
            r == (Session {
                state: AppState::Init,
                drawing_state: DrawingState::Void,
                should_draw_grid: false,
                should_draw_white: true,
                generations: 0,
            }),
    {
        Session {
            state: AppState::Init,
            drawing_state: DrawingState::Void,
            should_draw_grid: false,
            should_draw_white: true,
            generations: 0,
        }
    }

    /// Whether a pointer movement paints: only while editing, inside a stroke.
    pub open spec fn spec_accepts_edits(&self) -> bool {
        self.state == AppState::Init && self.drawing_state == DrawingState::Started
    }

    pub fn accepts_edits(&self) -> (r: bool)
        ensures
            r == self.spec_accepts_edits(),
    {
        self.state == AppState::Init && self.drawing_state == DrawingState::Started
    }

    /// A pointer button goes down: a stroke begins; the left button paints
    /// live cells, the right one dead cells, another keeps the choice.
    pub fn mouse_pressed(&mut self, button: PointerButton)
        ensures
            *final(self) == (Session {
                drawing_state: DrawingState::Started,
                should_draw_white: match button {
                    PointerButton::Left => true,
                    PointerButton::Right => false,
                    PointerButton::Other => old(self).should_draw_white,
                },
                ..*old(self)
            }),
    {
        self.drawing_state = DrawingState::Started;
        match button {
            PointerButton::Left => self.should_draw_white = true,
            PointerButton::Right => self.should_draw_white = false,
            PointerButton::Other => {},
        }
    }

    /// A pointer button goes up: a stroke in progress ends.
    pub fn mouse_released(&mut self)
        ensures
            *final(self) == (Session {
                drawing_state: if old(self).drawing_state == DrawingState::Started {
                    DrawingState::Ended
                } else {
                    old(self).drawing_state
                },
                ..*old(self)
            }),
    {
        if self.drawing_state == DrawingState::Started {
            self.drawing_state = DrawingState::Ended;
        }
    }

    /// Applies a key command. `Start` runs the simulation, `ToggleGrid` flips
    /// the grid overlay, `Clear` kills every cell, `Reset` returns to editing
    /// with a freshly seeded grid of the same size; the shell then drops its
    /// current stroke.
    pub fn key_pressed(&mut self, cells: &mut Cells, key: Command) -> (r: KeyAction)
        requires
            old(cells).wf(),
        ensures
            final(cells).wf(),
            final(cells).num_cells_x == old(cells).num_cells_x,
            final(cells).num_cells_y == old(cells).num_cells_y,
            key == Command::Start ==> *final(self) == (Session { state: AppState::Running, ..*old(self) })
                && final(cells)@ == old(cells)@,
            key == Command::ToggleGrid ==> *final(self) == (Session {
                should_draw_grid: !old(self).should_draw_grid,
                ..*old(self)
            }) && final(cells)@ == old(cells)@,
            key == Command::Clear ==> *final(self) == *old(self) && final(cells)@ == dead_grid(
                old(cells).num_cells_x as int,
                old(cells).num_cells_y as int,
            ),
            key == Command::Reset ==> *final(self) == (Session { state: AppState::Init, ..*old(self) }),
            key == Command::Other ==> *final(self) == *old(self) && final(cells)@ == old(cells)@,
            r == (if key == Command::Reset {
                KeyAction::ClearStroke
            } else {
                KeyAction::Nothing
            }),
    {
        match key {
            Command::Start => {
                self.state = AppState::Running;
                KeyAction::Nothing
            },
            Command::ToggleGrid => {
                self.should_draw_grid = !self.should_draw_grid;
                KeyAction::Nothing
            },
            Command::Clear => {
                *cells = get_all_cells_as_dead(cells.num_cells_x, cells.num_cells_y);
                KeyAction::Nothing
            },
            Command::Reset => {
                self.state = AppState::Init;
                *cells = init_cells(cells.num_cells_x, cells.num_cells_y, true);
                KeyAction::ClearStroke
            },
            Command::Other => KeyAction::Nothing,
        }
    }

    /// One frame of the shell's clock. Every `FRAMES_PER_GENERATION`-th frame
    /// of a running session the grid advances one generation and the counter
    /// goes up (it stops at its largest value); otherwise nothing changes.
    /// Returns whether the grid advanced.
    pub fn update(&mut self, cells: &mut Cells, elapsed_frames: u64) -> (r: bool)
        requires
            old(cells).wf(),
        ensures
            r == (elapsed_frames % FRAMES_PER_GENERATION == 0 && old(self).state == AppState::Running),
            final(cells).wf(),
            final(cells).num_cells_x == old(cells).num_cells_x,
            final(cells).num_cells_y == old(cells).num_cells_y,
            r ==> final(cells)@ == next_generation(
                old(cells)@,
                old(cells).num_cells_x as int,
                old(cells).num_cells_y as int,
            ),
            r ==> *final(self) == (Session {
                generations: if old(self).generations < u64::MAX {
                    (old(self).generations + 1) as u64
                } else {
                    old(self).generations
                },
                ..*old(self)
            }),
            !r ==> final(cells)@ == old(cells)@ && *final(self) == *old(self),
    {
        if elapsed_frames % FRAMES_PER_GENERATION != 0 {
            return false;
        }
        if self.state != AppState::Running {
            return false;
        }
        *cells = game_of_life(cells);
        if self.generations < u64::MAX {
            self.generations = self.generations + 1;
        }
        true
    }
}

/// The cell that a movement of the pointer to `pos` paints, if any: there is
/// one when the session accepts edits, the grid has cells, and the snapped
/// point lies in the grid's area.
pub open spec fn painted_cell(
    session: Session,
    num_cells_x: int,
    num_cells_y: int,
    pos: Point,
    grid_points: Seq<Point>,
    width: int,
    height: int,
) -> Option<(int, int)> {
    let snapped = lower_left(sorted_by_distance(pos, grid_points).take(4));
    let cx = cell_x_of(snapped.x as int, width, num_cells_x);
    let cy = cell_y_of(snapped.y as int, height, num_cells_y);
    if session.spec_accepts_edits() && grid_points.len() >= 4 && 0 < num_cells_x && 0 < num_cells_y
        && !outside_area(snapped, width, height) {
        Some((cx, cy))
    } else {
        None
    }
}

/// The pointer moved to `pos`: while a stroke is being painted, the cell under
/// the snapped position takes the stroke's colour. Moves outside the grid's
/// area, and moves while not editing, change nothing.
pub fn mouse_moved(
    session: &Session,
    cells: &mut Cells,
    pos: Point,
    grid_points: &Vec<Point>,
    width: u32,
    height: u32,
)
    requires
        old(cells).wf(),
        0 < width,
        0 < height,
    ensures
        final(cells).wf(),
        final(cells).num_cells_x == old(cells).num_cells_x,
        final(cells).num_cells_y == old(cells).num_cells_y,
        final(cells)@ == match painted_cell(
            *session,
            old(cells).num_cells_x as int,
            old(cells).num_cells_y as int,
            pos,
            grid_points@,
            width as int,
            height as int,
        ) {
            Some(c) => old(cells)@.update(c.0, old(cells)@[c.0].update(c.1, session.should_draw_white)),
            None => old(cells)@,
        },
        painted_cell(
            *session,
            old(cells).num_cells_x as int,
            old(cells).num_cells_y as int,
            pos,
            grid_points@,
            width as int,
            height as int,
        ) matches Some(c) ==> 0 <= c.0 < old(cells).num_cells_x && 0 <= c.1 < old(cells).num_cells_y,
{
    if !session.accepts_edits() || grid_points.len() < 4 || cells.num_cells_x == 0
        || cells.num_cells_y == 0 {
        return;
    }
    let snapped = snap_to_grid(pos, grid_points);
    match coordinate_to_index(snapped, width, height, cells.num_cells_x, cells.num_cells_y) {
        Some(c) => {
            cells.set(c.x, c.y, session.should_draw_white);
        },
        None => {},
    }
}

} // verus!
