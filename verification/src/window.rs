//! Pure decision logic of the window lifecycle: the stacking-level state
//! machine, the centered startup placement, and the per-note content URL.

use vstd::prelude::*;
use crate::note::{Note, WindowLevel};

verus! {

/// The two z-order attributes an OS window can carry at once.
#[derive(Clone, Copy, Debug, PartialEq, Eq, Structural)]
pub struct Stacking {
    pub on_top: bool,
    pub on_bottom: bool,
}

/// One imperative stacking call on a window.
#[derive(Clone, Copy, Debug, PartialEq, Eq, Structural)]
pub enum StackOp {
    SetTop(bool),
    SetBottom(bool),
}

/// The effect of one stacking call.
pub open spec fn apply_op(s: Stacking, op: StackOp) -> Stacking {
    match op {
        StackOp::SetTop(b) => Stacking { on_top: b, ..s },
        StackOp::SetBottom(b) => Stacking { on_bottom: b, ..s },
    }
}

/// The effect of a sequence of stacking calls, first call first.
pub open spec fn apply_ops(s: Stacking, ops: Seq<StackOp>) -> Stacking
    decreases ops.len(),
{
    if ops.len() == 0 {
        s
    } else {
        apply_ops(apply_op(s, ops[0]), ops.skip(1))
    }
}

/// The attributes a window at the given level carries: the three levels are
/// mutually exclusive, so at most one attribute is ever set.
pub open spec fn stacking_of(level: WindowLevel) -> Stacking {
    match level {
        WindowLevel::Normal => Stacking { on_top: false, on_bottom: false },
        WindowLevel::AlwaysOnTop => Stacking { on_top: true, on_bottom: false },
        WindowLevel::Desktop => Stacking { on_top: false, on_bottom: true },
    }
}

/// The calls made when an existing window moves to `level`: the opposing
/// attribute is cleared before (or independently of) the new one being set,
/// so that the two are never simultaneously active.
pub open spec fn level_transition_ops(level: WindowLevel) -> Seq<StackOp> {
    match level {
        WindowLevel::AlwaysOnTop => seq![StackOp::SetBottom(false), StackOp::SetTop(true)],
        WindowLevel::Desktop => seq![StackOp::SetTop(false), StackOp::SetBottom(true)],
        WindowLevel::Normal => seq![StackOp::SetTop(false), StackOp::SetBottom(false)],
    }
}

/// The calls made right after a window is built: a fresh window carries
/// neither attribute, so only the needed one is set.
pub open spec fn creation_ops(level: WindowLevel) -> Seq<StackOp> {
    match level {
        WindowLevel::AlwaysOnTop => seq![StackOp::SetTop(true)],
        WindowLevel::Desktop => seq![StackOp::SetBottom(true)],
        WindowLevel::Normal => Seq::<StackOp>::empty(),
    }
}

proof fn lemma_apply_two(s: Stacking, a: StackOp, b: StackOp)
    ensures
        apply_ops(s, seq![a, b]) == apply_op(apply_op(s, a), b),
{
    let ops = seq![a, b];
    assert(ops.len() == 2);
    assert(ops[0] == a);
    assert(ops[1] == b);
    assert(apply_ops(s, ops) == apply_ops(apply_op(s, a), ops.skip(1)));
    assert(ops.skip(1) =~= seq![b]);
    assert(apply_ops(apply_op(s, a), seq![b]) == apply_ops(
        apply_op(apply_op(s, a), b),
        seq![b].skip(1),
    ));
    assert(seq![b].skip(1) =~= Seq::<StackOp>::empty());
    assert(apply_ops(apply_op(apply_op(s, a), b), Seq::<StackOp>::empty()) == apply_op(
        apply_op(s, a),
        b,
    ));
}

/// A level transition drives a window from any stacking state to exactly the
/// level's state, which never has both attributes active.
pub proof fn lemma_transition_exact(s: Stacking, level: WindowLevel)
    ensures
        apply_ops(s, level_transition_ops(level)) == stacking_of(level),
        !(stacking_of(level).on_top && stacking_of(level).on_bottom),
{
    match level {
        WindowLevel::AlwaysOnTop => {
            lemma_apply_two(s, StackOp::SetBottom(false), StackOp::SetTop(true));
        },
        WindowLevel::Desktop => {
            lemma_apply_two(s, StackOp::SetTop(false), StackOp::SetBottom(true));
        },
        WindowLevel::Normal => {
            lemma_apply_two(s, StackOp::SetTop(false), StackOp::SetBottom(false));
        },
    }
}

/// Setting the same level twice is idempotent: the second application leaves
/// both the stored state and the window attributes where the first put them.
pub proof fn lemma_set_level_idempotent(s: Stacking, level: WindowLevel)
    ensures
        apply_ops(apply_ops(s, level_transition_ops(level)), level_transition_ops(level))
            == apply_ops(s, level_transition_ops(level)),
{
    lemma_transition_exact(s, level);
    lemma_transition_exact(apply_ops(s, level_transition_ops(level)), level);
}

/// Setting level `x` and then level `y` leaves exactly the `y` attributes
/// active, whatever the starting state; in particular never both.
pub proof fn lemma_set_level_overrides(s: Stacking, x: WindowLevel, y: WindowLevel)
    ensures
        apply_ops(apply_ops(s, level_transition_ops(x)), level_transition_ops(y)) == stacking_of(y),
        !(stacking_of(y).on_top && stacking_of(y).on_bottom),
{
    lemma_transition_exact(s, x);
    lemma_transition_exact(apply_ops(s, level_transition_ops(x)), y);
}

/// A freshly built window, which starts with neither attribute, ends in the
/// level's exact state after the creation calls.
pub proof fn lemma_creation_exact(level: WindowLevel)
    ensures
        apply_ops(
            (Stacking { on_top: false, on_bottom: false }),
            creation_ops(level),
        ) == stacking_of(level),
{
    let s = Stacking { on_top: false, on_bottom: false };
    match level {
        WindowLevel::AlwaysOnTop => {
            let ops = creation_ops(level);
            assert(ops.len() == 1);
            assert(ops[0] == StackOp::SetTop(true));
            assert(apply_ops(s, ops) == apply_ops(apply_op(s, ops[0]), ops.skip(1)));
            assert(ops.skip(1) =~= Seq::<StackOp>::empty());
            assert(apply_ops(apply_op(s, ops[0]), Seq::<StackOp>::empty()) == apply_op(
                s,
                ops[0],
            ));
        },
        WindowLevel::Desktop => {
            let ops = creation_ops(level);
            assert(ops.len() == 1);
            assert(ops[0] == StackOp::SetBottom(true));
            assert(apply_ops(s, ops) == apply_ops(apply_op(s, ops[0]), ops.skip(1)));
            assert(ops.skip(1) =~= Seq::<StackOp>::empty());
            assert(apply_ops(apply_op(s, ops[0]), Seq::<StackOp>::empty()) == apply_op(
                s,
                ops[0],
            ));
        },
        WindowLevel::Normal => {},
    }
}

/// The stacking calls for moving an existing window to `level`.
pub fn level_transition(level: WindowLevel) -> (r: Vec<StackOp>)
    ensures
        r@ == level_transition_ops(level),
{
    let mut r: Vec<StackOp> = Vec::new();
    match level {
        WindowLevel::AlwaysOnTop => {
            r.push(StackOp::SetBottom(false));
            r.push(StackOp::SetTop(true));
        },
        WindowLevel::Desktop => {
            r.push(StackOp::SetTop(false));
            r.push(StackOp::SetBottom(true));
        },
        WindowLevel::Normal => {
            r.push(StackOp::SetTop(false));
            r.push(StackOp::SetBottom(false));
        },
    }
    proof {
        assert(r@ =~= level_transition_ops(level));
    }
    r
}

/// The stacking calls applied right after a window is built.
pub fn creation_stacking(level: WindowLevel) -> (r: Vec<StackOp>)
    ensures
        r@ == creation_ops(level),
{
    let mut r: Vec<StackOp> = Vec::new();
    match level {
        WindowLevel::AlwaysOnTop => {
            r.push(StackOp::SetTop(true));
        },
        WindowLevel::Desktop => {
            r.push(StackOp::SetBottom(true));
        },
        WindowLevel::Normal => {},
    }
    proof {
        assert(r@ =~= creation_ops(level));
    }
    r
}

/// The startup placement: a window occupying half the primary display's
/// width and half its height, centered. Returns (width, height, x, y).
pub fn centered_geometry(screen_w: u32, screen_h: u32) -> (r: (u32, u32, u32, u32))
    ensures
        r.0 == screen_w / 2,
        r.1 == screen_h / 2,
        r.2 == (screen_w - r.0) / 2,
        r.3 == (screen_h - r.1) / 2,
{
    let win_w = screen_w / 2;
    let win_h = screen_h / 2;
    let x = (screen_w - win_w) / 2;
    let y = (screen_h - win_h) / 2;
    (win_w, win_h, x, y)
}

/// One window operation the host runtime is asked to perform.
#[derive(Debug, Clone)]
pub enum WindowAction {
    /// Show and focus the already-open window of this note.
    Show(String),
    /// Build a new window for this note (default placement).
    Open(Note),
    /// Give this note's window the input focus.
    Focus(String),
}

/// The reopen decision: a note whose window is already open is shown and
/// focused again rather than rebuilt; only a note without a window gets a
/// fresh one.
pub fn ensure_open_action(note: &Note, window_exists: bool) -> (r: WindowAction)
    ensures
        window_exists ==> (r matches WindowAction::Show(s) && s@ == note@.id),
        !window_exists ==> (r matches WindowAction::Open(n) && n@ == note@),
{
    if window_exists {
        WindowAction::Show(note.id.clone())
    } else {
        WindowAction::Open(note.clone())
    }
}

/// The bulk-show plan: for each note, show its window if one is open, else
/// open it; then focus the first note processed. `open_flags[i]` says
/// whether a window for `notes[i]` already exists.
pub fn show_all_plan(notes: &Vec<Note>, open_flags: &Vec<bool>) -> (r: Vec<WindowAction>)
    requires
        open_flags@.len() == notes@.len(),
    ensures
        notes@.len() == 0 ==> r@.len() == 0,
        notes@.len() > 0 ==> r@.len() == notes@.len() + 1,
        forall|i: int|
            0 <= i < notes@.len() ==> (if open_flags@[i] {
                r@[i] matches WindowAction::Show(s) && s@ == notes@[i]@.id
            } else {
                r@[i] matches WindowAction::Open(n) && n@ == notes@[i]@
            }),
        notes@.len() > 0 ==> (r@[r@.len() - 1] matches WindowAction::Focus(s) && s@
            == notes@[0]@.id),
{
    let mut r: Vec<WindowAction> = Vec::new();
    let mut i: usize = 0;
    while i < notes.len()
        invariant
            i <= notes@.len(),
            open_flags@.len() == notes@.len(),
            r@.len() == i,
            forall|j: int|
                0 <= j < i ==> (if open_flags@[j] {
                    r@[j] matches WindowAction::Show(s) && s@ == notes@[j]@.id
                } else {
                    r@[j] matches WindowAction::Open(n) && n@ == notes@[j]@
                }),
        decreases notes@.len() - i,
    {
        if open_flags[i] {
            r.push(WindowAction::Show(notes[i].id.clone()));
        } else {
            r.push(WindowAction::Open(notes[i].clone()));
        }
        i += 1;
    }
    if notes.len() > 0 {
        r.push(WindowAction::Focus(notes[0].id.clone()));
    }
    r
}

/// `base` with every trailing `/` removed.
pub open spec fn strip_trailing_slashes(s: Seq<char>) -> Seq<char>
    decreases s.len(),
{
    if s.len() > 0 && s[s.len() - 1] == '/' {
        strip_trailing_slashes(s.drop_last())
    } else {
        s
    }
}

/// The URL a note's window loads: the frontend base with the note id as a
/// query parameter, so one frontend renders a different note per window.
pub fn note_url(base: &str, id: &str) -> (r: String)
    ensures
        r@ == strip_trailing_slashes(base@) + "/?noteId="@ + id@,
{
    let n = base.unicode_len();
    let mut end: usize = n;
    proof {
        assert(base@.take(n as int) =~= base@);
    }
    while end > 0 && base.get_char(end - 1) == '/'
        invariant
            end <= base@.len(),
            strip_trailing_slashes(base@) == strip_trailing_slashes(base@.take(end as int)),
        decreases end,
    {
        proof {
            let t = base@.take(end as int);
            assert(t[t.len() - 1] == base@[end - 1]);
            assert(t.drop_last() =~= base@.take(end as int - 1));
        }
        end -= 1;
    }
    proof {
        let t = base@.take(end as int);
        if end > 0 {
            assert(t[t.len() - 1] == base@[end - 1]);
        }
        assert(strip_trailing_slashes(t) == t);
    }
    let head = base.substring_char(0, end);
    proof {
        assert(head@ =~= base@.take(end as int));
    }
    let r = String::from_str(head).concat("/?noteId=").concat(id);
    proof {
        assert(r@ =~= strip_trailing_slashes(base@) + "/?noteId="@ + id@);
    }
    r
}

} // verus!
