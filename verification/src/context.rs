//! The navigation state machine: which pane is focused and where the cursor
//! stands.
//!
//! A context is one of two panes — the project list, or the task list of one
//! chosen project — together with the 1-based on-screen cursor row (which
//! includes a fixed header offset) and the pane's length, mirroring the
//! underlying collection. Movement clamps at the pane's ends; after a
//! deletion the pane shrinks and the cursor moves to the row above (or stays
//! on the first row when the first entry went away), so the cursor always
//! points at a valid row while the collection shifts underneath it.

use vstd::prelude::*;

use crate::database::Database;
use crate::strings::push_char;

verus! {

/// How many rows the pane header occupies above the first entry row.
pub const HEADER_OFFSET: u16 = 2;

/// The focused pane and cursor: the variant names the pane, the first field
/// is the 1-based cursor row, the second the pane's length.
#[derive(Copy, Clone, PartialEq, Eq, Structural, Debug)]
pub enum Context {
    Project(u16, u16),
    Task(u16, u16),
}

impl Context {
    /// The cursor's 1-based on-screen row.
    pub open spec fn row(self) -> u16 {
        match self {
            Context::Project(row, _) => row,
            Context::Task(row, _) => row,
        }
    }

    /// The pane's length: how many entries the underlying collection holds.
    pub open spec fn pane_len(self) -> u16 {
        match self {
            Context::Project(_, len) => len,
            Context::Task(_, len) => len,
        }
    }

    /// The 0-based collection index the cursor points at.
    pub open spec fn spec_idx(self) -> int {
        self.row() - HEADER_OFFSET - 1
    }

    /// The same pane and length with another cursor row.
    pub open spec fn spec_with_row(self, row: u16) -> Context {
        match self {
            Context::Project(_, len) => Context::Project(row, len),
            Context::Task(_, len) => Context::Task(row, len),
        }
    }

    /// A valid context: the cursor sits at or below the first entry row, the
    /// pane is small enough that every entry's row fits in a `u16`, and
    /// whenever the pane is nonempty the cursor's index lies within it (on an
    /// empty pane the cursor rests on the first entry row).
    pub open spec fn wf(self) -> bool {
        &&& self.row() >= HEADER_OFFSET + 1
        &&& self.pane_len() <= u16::MAX - HEADER_OFFSET
        &&& if self.pane_len() > 0 {
            self.spec_idx() < self.pane_len()
        } else {
            self.row() == HEADER_OFFSET + 1
        }
    }

    /// Where `jump` lands: the context moved by `distance` rows if the target
    /// index stays within the pane, and nothing otherwise.
    pub open spec fn spec_jump(self, distance: int) -> Option<Context> {
        let target = self.spec_idx() + distance;
        if 0 <= target && target < self.pane_len() {
            Some(self.spec_with_row((target + HEADER_OFFSET + 1) as u16))
        } else {
            None
        }
    }

    /// Where `drop` lands: a pane one entry shorter, the cursor on the row
    /// above (or unmoved when it stood on the first entry), and nothing when
    /// the pane was already empty.
    pub open spec fn spec_drop(self) -> Option<Context> {
        if self.pane_len() == 0 {
            None
        } else {
            let row = if self.spec_idx() == 0 {
                self.row()
            } else {
                (self.row() - 1) as u16
            };
            match self {
                Context::Project(_, len) => Some(Context::Project(row, (len - 1) as u16)),
                Context::Task(_, len) => Some(Context::Task(row, (len - 1) as u16)),
            }
        }
    }

    /// The 0-based collection index the cursor points at.
    pub fn idx(self) -> (r: usize)
        requires
            self.wf(),
        ensures
            r == self.spec_idx(),
    {
        match self {
            Context::Project(row, _) => (row - HEADER_OFFSET - 1) as usize,
            Context::Task(row, _) => (row - HEADER_OFFSET - 1) as usize,
        }
    }

    /// The pane's length.
    pub fn length(self) -> (r: usize)
        ensures
            r == self.pane_len(),
    {
        match self {
            Context::Project(_, length) => length as usize,
            Context::Task(_, length) => length as usize,
        }
    }

    /// Moves the cursor by `distance` rows if the target index stays within
    /// the pane; yields nothing otherwise (the caller keeps the old context:
    /// clamp, not wraparound).
    pub fn jump(self, distance: i16) -> (r: Option<Context>)
        requires
            self.wf(),
        ensures
            r == self.spec_jump(distance as int),
    {
        let index = self.idx();
        let target: i32 = index as i32 + distance as i32;
        if target >= 0 && target < self.length() as i32 {
            let row = (target + HEADER_OFFSET as i32 + 1) as u16;
            match self {
                Context::Project(_, len) => Some(Context::Project(row, len)),
                Context::Task(_, len) => Some(Context::Task(row, len)),
            }
        } else {
            None
        }
    }

    /// Moves the cursor straight to the given index: the same move `jump`
    /// would make over the distance from the current index.
    pub fn jump_to(self, index: usize) -> (r: Option<Context>)
        requires
            self.wf(),
        ensures
            r == self.spec_jump(index - self.spec_idx()),
    {
        if index < self.length() {
            let row = (index as u16) + HEADER_OFFSET + 1;
            match self {
                Context::Project(_, len) => Some(Context::Project(row, len)),
                Context::Task(_, len) => Some(Context::Task(row, len)),
            }
        } else {
            None
        }
    }

    /// Moves the cursor to the pane's first entry.
    pub fn jump_to_start(self) -> (r: Option<Context>)
        requires
            self.wf(),
        ensures
            r == self.spec_jump(0 - self.spec_idx()),
    {
        self.jump_to(0)
    }

    /// Moves the cursor to the pane's last entry; on an empty pane there is
    /// no entry to reach.
    pub fn jump_to_end(self) -> (r: Option<Context>)
        requires
            self.wf(),
        ensures
            r == if self.pane_len() > 0 {
                self.spec_jump(self.pane_len() - 1 - self.spec_idx())
            } else {
                None
            },
    {
        let length = self.length();
        if length > 0 {
            self.jump_to(length - 1)
        } else {
            None
        }
    }

    /// Shrinks the pane after a deletion at the cursor: one entry fewer, the
    /// cursor on the row above the deleted one (or kept on the first entry
    /// row). Yields nothing when the pane is already empty: there is nothing
    /// to delete, and the caller keeps the old context.
    pub fn drop(self) -> (r: Option<Context>)
        requires
            self.wf(),
        ensures
            r == self.spec_drop(),
    {
        match self {
            Context::Project(row, len) => {
                if len > 0 {
                    let new_row = if row > HEADER_OFFSET + 1 {
                        row - 1
                    } else {
                        row
                    };
                    Some(Context::Project(new_row, len - 1))
                } else {
                    None
                }
            },
            Context::Task(row, len) => {
                if len > 0 {
                    let new_row = if row > HEADER_OFFSET + 1 {
                        row - 1
                    } else {
                        row
                    };
                    Some(Context::Task(new_row, len - 1))
                } else {
                    None
                }
            },
        }
    }

    /// Whether column `i` of the pane divider carries a column crossing.
    pub open spec fn spec_is_column(self, terminal_width: u16, i: int) -> bool {
        match self {
            Context::Project(_, _) => i == 0 || i == 8 || i == 16 || i == 26 || i == 33,
            Context::Task(_, _) => i == 0 || i == 10 || i == terminal_width - 24,
        }
    }

    /// The divider character at column `i`: a crossing where a column
    /// boundary runs, a plain rule everywhere else.
    pub open spec fn spec_div_char(self, terminal_width: u16, i: int) -> char {
        if self.spec_is_column(terminal_width, i) {
            '╋'
        } else {
            '━'
        }
    }

    /// The horizontal divider drawn under the pane header: one character per
    /// screen column, with crossings where the pane's column boundaries run.
    pub fn pane_div(self, terminal_width: u16) -> (r: String)
        requires
            terminal_width >= 24,
        ensures
            r@.len() == terminal_width - 3,
            forall|i: int| 0 <= i < terminal_width - 3 ==> r@[i] == self.spec_div_char(
                terminal_width,
                i,
            ),
    {
        let width = terminal_width - 3;
        let mut out = String::new();
        for i in 0..width
            invariant
                terminal_width >= 24,
                width == terminal_width - 3,
                out@.len() == i,
                forall|j: int| 0 <= j < i ==> out@[j] == self.spec_div_char(terminal_width, j),
        {
            let crossing = match self {
                Context::Project(_, _) => i == 0 || i == 8 || i == 16 || i == 26 || i == 33,
                Context::Task(_, _) => i == 0 || i == 10 || i == terminal_width - 24,
            };
            if crossing {
                push_char(&mut out, '╋');
            } else {
                push_char(&mut out, '━');
            }
        }
        out
    }
}

/// Where `enter_context` lands: from the project pane, focus moves to the
/// task pane of the selected project (cursor on the first entry row) and the
/// prior project context is remembered beside it; from the task pane nothing
/// changes. The pair is (active context, remembered project context).
pub open spec fn spec_enter(context: Context, project_context: Context, task_count: u16) -> (
    Context,
    Context,
) {
    match context {
        Context::Project(_, _) => (
            Context::Task((HEADER_OFFSET + 1) as u16, task_count),
            context,
        ),
        Context::Task(_, _) => (context, project_context),
    }
}

/// Where `leave_context` lands: from the task pane, the remembered project
/// context is restored exactly; from the project pane nothing changes.
pub open spec fn spec_leave(context: Context, project_context: Context) -> Context {
    match context {
        Context::Task(_, _) => project_context,
        Context::Project(_, _) => context,
    }
}

/// From the project pane, switches focus to the selected project's task
/// list and remembers the prior project context in `project_context`.
pub fn enter_context(context: &mut Context, project_context: &mut Context, db: &Database)
    requires
        old(context).wf(),
        old(context) matches Context::Project(_, _) ==> {
            &&& old(context).spec_idx() < db.spec_projects().len()
            &&& db.spec_projects()[old(context).spec_idx()].tasks@.len() <= u16::MAX
                - HEADER_OFFSET
        },
    ensures
        (*final(context), *final(project_context)) == spec_enter(
            *old(context),
            *old(project_context),
            db.spec_projects()[old(context).spec_idx()].tasks@.len() as u16,
        ),
{
    match *context {
        Context::Project(_, _) => {
            *project_context = *context;
            let index = context.idx();
            let count = db.task_count(index);
            *context = Context::Task(HEADER_OFFSET + 1, count);
        },
        Context::Task(_, _) => {},
    }
}

/// From the task pane, restores the remembered project context exactly:
/// same cursor row, same pane length.
pub fn leave_context(context: &mut Context, project_context: &mut Context)
    ensures
        *final(context) == spec_leave(*old(context), *old(project_context)),
        *final(project_context) == *old(project_context),
{
    match *context {
        Context::Task(_, _) => {
            *context = *project_context;
        },
        Context::Project(_, _) => {},
    }
}

/// Entering a task pane and immediately leaving it restores the exact prior
/// project context: same pane, same cursor row, same pane length.
pub proof fn lemma_enter_then_leave(context: Context, project_context: Context, task_count: u16)
    requires
        context matches Context::Project(_, _),
    ensures
        ({
            let (entered, remembered) = spec_enter(context, project_context, task_count);
            spec_leave(entered, remembered) == context
        }),
{
}

/// One navigation step, as the control loop issues it: a relative move, a
/// jump to an index, entering the task pane of a project with the given task
/// count, leaving it, or shrinking the pane after a deletion. Steps whose
/// target falls outside the pane leave the context unchanged.
pub enum NavStep {
    Jump(i16),
    JumpTo(usize),
    Enter(u16),
    Leave,
    Shrink,
}

/// A step's side condition: a pane handed to Enter must be small enough that
/// every entry's row fits in a `u16`.
pub open spec fn step_wf(step: NavStep) -> bool {
    match step {
        NavStep::Enter(task_count) => task_count <= u16::MAX - HEADER_OFFSET,
        _ => true,
    }
}

/// Applies one navigation step to (active context, remembered project
/// context).
pub open spec fn apply_step(state: (Context, Context), step: NavStep) -> (Context, Context) {
    match step {
        NavStep::Jump(distance) => match state.0.spec_jump(distance as int) {
            Some(c) => (c, state.1),
            None => state,
        },
        NavStep::JumpTo(index) => match state.0.spec_jump(index - state.0.spec_idx()) {
            Some(c) => (c, state.1),
            None => state,
        },
        NavStep::Enter(task_count) => spec_enter(state.0, state.1, task_count),
        NavStep::Leave => (spec_leave(state.0, state.1), state.1),
        NavStep::Shrink => match state.0.spec_drop() {
            Some(c) => (c, state.1),
            None => state,
        },
    }
}

/// Applies a sequence of navigation steps in order.
pub open spec fn apply_steps(state: (Context, Context), steps: Seq<NavStep>) -> (Context, Context)
    decreases steps.len(),
{
    if steps.len() == 0 {
        state
    } else {
        apply_steps(apply_step(state, steps[0]), steps.skip(1))
    }
}

/// One navigation step keeps both contexts valid: in particular, whenever the
/// pane is nonempty the cursor's index stays within it.
pub proof fn lemma_step_preserves_wf(state: (Context, Context), step: NavStep)
    requires
        state.0.wf(),
        state.1.wf(),
        step_wf(step),
    ensures
        apply_step(state, step).0.wf(),
        apply_step(state, step).1.wf(),
{
}

/// Any sequence of navigation steps from valid contexts keeps both contexts
/// valid after every step: whenever the pane is nonempty, the cursor's index
/// lies within it.
pub proof fn lemma_steps_preserve_wf(state: (Context, Context), steps: Seq<NavStep>)
    requires
        state.0.wf(),
        state.1.wf(),
        forall|i: int| 0 <= i < steps.len() ==> step_wf(#[trigger] steps[i]),
    ensures
        apply_steps(state, steps).0.wf(),
        apply_steps(state, steps).1.wf(),
    decreases steps.len(),
{
    if steps.len() > 0 {
        lemma_step_preserves_wf(state, steps[0]);
        lemma_steps_preserve_wf(apply_step(state, steps[0]), steps.skip(1));
    }
}

} // verus!
