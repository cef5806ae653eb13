//! The window manager's decisions: which window has the focus, which are
//! closing, and which windows each process owns. Windows are known by their
//! 128-bit ids.
use vstd::prelude::*;
use crate::enums::Corner;

verus! {

/// What the window manager keeps of a window to decide focus and closing:
/// its id and its flags (where it stands on the screen is kept elsewhere).
#[derive(Clone, Copy, Debug, PartialEq, Eq, Structural)]
pub struct WindowState {
    pub id: u128,
    pub no_transition: bool,
    pub focused: bool,
    pub dragging: bool,
    /// The handle by which the window is being resized, if it is.
    pub resize_corner: Option<Corner>,
    pub maximized: bool,
    pub iconified: bool,
    pub closing: bool,
}

/// A process, and the windows it owns.
pub struct Process {
    pub id: u32,
    pub name: String,
    pub windows: Vec<u128>,
}

/// The model of a process: its id, its name and its windows.
pub struct ProcessModel {
    pub id: u32,
    pub name: Seq<char>,
    pub windows: Seq<u128>,
}

/// The models of a process table.
pub open spec fn processes_model(v: Seq<Process>) -> Seq<ProcessModel> {
    Seq::new(v.len(), |i: int| ProcessModel { id: v[i].id, name: v[i].name@, windows: v[i].windows@ })
}

/// The first window with id `id`.
pub open spec fn first_window(windows: Seq<WindowState>, id: u128) -> Option<int> {
    if exists|i: int| 0 <= i < windows.len() && windows[i].id == id {
        Some(choose|i: int| 0 <= i < windows.len() && windows[i].id == id && forall|j: int| 0 <= j < i ==> windows[j].id != id)
    } else {
        None
    }
}

/// Whether `i` is the first window with id `id`.
pub open spec fn is_first_window(windows: Seq<WindowState>, id: u128, i: int) -> bool {
    0 <= i < windows.len() && windows[i].id == id && forall|j: int| 0 <= j < i ==> windows[j].id != id
}

/// The index of the first window with id `id`.
pub fn find_window(windows: &Vec<WindowState>, id: u128) -> (res: Option<usize>)
    ensures
        match res {
            Some(i) => is_first_window(windows@, id, i as int),
            None => forall|j: int| 0 <= j < windows@.len() ==> windows@[j].id != id,
        },
{
    let mut i: usize = 0;
    while i < windows.len()
        invariant
            i <= windows@.len(),
            forall|j: int| 0 <= j < i ==> windows@[j].id != id,
        decreases windows@.len() - i,
    {
        if windows[i].id == id {
            return Some(i);
        }
        i = i + 1;
    }
    None
}

/// Sets the focus of the first window with id `window_id`; giving it the
/// focus takes the focus from every window with another id. Nothing
/// changes when there is no such window.
pub fn set_window_focused(windows: &mut Vec<WindowState>, window_id: u128, focused: bool)
    ensures
        final(windows)@.len() == old(windows)@.len(),
        forall|j: int|
            0 <= j < old(windows)@.len() ==> {
                let w = old(windows)@[j];
                let n = #[trigger] final(windows)@[j];
                &&& n == WindowState { focused: n.focused, ..w }
                &&& n.focused == match find_window_spec(old(windows)@, window_id) {
                    None => w.focused,
                    Some(k) => if j == k {
                        focused
                    } else if focused && w.id != window_id {
                        false
                    } else {
                        w.focused
                    },
                }
            },
        focused && find_window_spec(old(windows)@, window_id) is Some ==> forall|j: int|
            0 <= j < final(windows)@.len() && #[trigger] final(windows)@[j].id != window_id
                ==> !final(windows)@[j].focused,
{
    let found = find_window(windows, window_id);
    proof {
        lemma_find_window_spec(windows@, window_id, found);
    }
    match found {
        None => {},
        Some(k) => {
            let ghost before = windows@;
            let mut w = windows[k];
            w.focused = focused;
            windows.set(k, w);
            if focused {
                let mut i: usize = 0;
                while i < windows.len()
                    invariant
                        i <= windows@.len(),
                        windows@.len() == before.len(),
                        k < before.len(),
                        is_first_window(before, window_id, k as int),
                        forall|j: int|
                            0 <= j < before.len() ==> {
                                let n = #[trigger] windows@[j];
                                let o = before[j];
                                &&& n == WindowState { focused: n.focused, ..o }
                                &&& n.focused == if j == k {
                                    true
                                } else if j < i && o.id != window_id {
                                    false
                                } else {
                                    o.focused
                                }
                            },
                    decreases windows@.len() - i,
                {
                    if windows[i].id != window_id {
                        let mut o = windows[i];
                        o.focused = false;
                        windows.set(i, o);
                    }
                    i = i + 1;
                }
            }
        },
    }
}

/// The windows after the first one with id `window_id` is replaced by
/// `change` applied to it; nothing changes when there is no such window.
pub open spec fn changed_first(
    windows: Seq<WindowState>,
    window_id: u128,
    change: spec_fn(WindowState) -> WindowState,
) -> Seq<WindowState> {
    match find_window_spec(windows, window_id) {
        Some(k) => windows.update(k, change(windows[k])),
        None => windows,
    }
}

/// Turns the opening and closing animation of window `window_id` off or on.
pub fn set_window_no_transition(windows: &mut Vec<WindowState>, window_id: u128, no_transition: bool)
    ensures
        final(windows)@ == changed_first(
            old(windows)@,
            window_id,
            |w: WindowState| WindowState { no_transition, ..w },
        ),
{
    let found = find_window(windows, window_id);
    proof {
        lemma_find_window_spec(windows@, window_id, found);
    }
    if let Some(k) = found {
        let mut w = windows[k];
        w.no_transition = no_transition;
        windows.set(k, w);
    }
}

/// Records whether window `window_id` is being dragged.
pub fn set_window_dragging(windows: &mut Vec<WindowState>, window_id: u128, dragging: bool)
    ensures
        final(windows)@ == changed_first(old(windows)@, window_id, |w: WindowState| WindowState { dragging, ..w }),
{
    let found = find_window(windows, window_id);
    proof {
        lemma_find_window_spec(windows@, window_id, found);
    }
    if let Some(k) = found {
        let mut w = windows[k];
        w.dragging = dragging;
        windows.set(k, w);
    }
}

/// Records the handle by which window `window_id` is being resized, if any.
pub fn set_window_resize_corner(windows: &mut Vec<WindowState>, window_id: u128, corner: Option<Corner>)
    ensures
        final(windows)@ == changed_first(
            old(windows)@,
            window_id,
            |w: WindowState| WindowState { resize_corner: corner, ..w },
        ),
{
    let found = find_window(windows, window_id);
    proof {
        lemma_find_window_spec(windows@, window_id, found);
    }
    if let Some(k) = found {
        let mut w = windows[k];
        w.resize_corner = corner;
        windows.set(k, w);
    }
}

/// Maximises window `window_id`, or gives it back its own size.
pub fn set_window_maximized(windows: &mut Vec<WindowState>, window_id: u128, maximized: bool)
    ensures
        final(windows)@ == changed_first(old(windows)@, window_id, |w: WindowState| WindowState { maximized, ..w }),
{
    let found = find_window(windows, window_id);
    proof {
        lemma_find_window_spec(windows@, window_id, found);
    }
    if let Some(k) = found {
        let mut w = windows[k];
        w.maximized = maximized;
        windows.set(k, w);
    }
}

/// Hides window `window_id` in the task bar, or shows it again.
pub fn set_window_iconified(windows: &mut Vec<WindowState>, window_id: u128, iconified: bool)
    ensures
        final(windows)@ == changed_first(old(windows)@, window_id, |w: WindowState| WindowState { iconified, ..w }),
{
    let found = find_window(windows, window_id);
    proof {
        lemma_find_window_spec(windows@, window_id, found);
    }
    if let Some(k) = found {
        let mut w = windows[k];
        w.iconified = iconified;
        windows.set(k, w);
    }
}

/// The first window with id `id`, as `find_window` finds it.
pub open spec fn find_window_spec(windows: Seq<WindowState>, id: u128) -> Option<int> {
    if exists|i: int| is_first_window(windows, id, i) {
        Some(choose|i: int| is_first_window(windows, id, i))
    } else {
        None
    }
}

proof fn lemma_find_window_spec(windows: Seq<WindowState>, id: u128, found: Option<usize>)
    requires
        match found {
            Some(i) => is_first_window(windows, id, i as int),
            None => forall|j: int| 0 <= j < windows.len() ==> windows[j].id != id,
        },
    ensures
        match found {
            Some(i) => find_window_spec(windows, id) == Some(i as int),
            None => find_window_spec(windows, id) is None,
        },
{
    if let Some(i) = found {
        let k = choose|k: int| is_first_window(windows, id, k);
        assert(is_first_window(windows, id, k));
        if k < i {
            assert(windows[k].id != id);
        }
        if i < k {
            assert(windows[i as int].id != id);
        }
    }
}

/// Whether a window is being dragged or resized.
pub open spec fn busy(w: WindowState) -> bool {
    w.dragging || w.resize_corner is Some
}

/// Adds a window on top: it takes the focus unless another window is being
/// dragged or resized, and only the windows being dragged or resized keep
/// (or get) the focus.
pub fn spawn_window(windows: &mut Vec<WindowState>, window: WindowState)
    ensures
        final(windows)@.len() == old(windows)@.len() + 1,
        forall|j: int|
            0 <= j < old(windows)@.len() ==> #[trigger] final(windows)@[j] == (WindowState {
                focused: busy(old(windows)@[j]),
                ..old(windows)@[j]
            }),
        final(windows)@.last() == (WindowState {
            focused: !exists|j: int| 0 <= j < old(windows)@.len() && #[trigger] busy(old(windows)@[j]),
            ..window
        }),
        (forall|j: int| 0 <= j < old(windows)@.len() ==> !#[trigger] busy(old(windows)@[j])) ==> {
            &&& final(windows)@.last().focused
            &&& forall|j: int| 0 <= j < old(windows)@.len() ==> !(#[trigger] final(windows)@[j]).focused
        },
{
    let ghost before = windows@;
    let mut any_busy = false;
    let mut i: usize = 0;
    while i < windows.len()
        invariant
            i <= windows@.len(),
            windows@.len() == before.len(),
            any_busy == exists|j: int| 0 <= j < i && #[trigger] busy(before[j]),
            forall|j: int|
                0 <= j < before.len() ==> #[trigger] windows@[j] == if j < i {
                    WindowState { focused: busy(before[j]), ..before[j] }
                } else {
                    before[j]
                },
        decreases windows@.len() - i,
    {
        let mut w = windows[i];
        assert(w == before[i as int]);
        if w.dragging || w.resize_corner.is_some() {
            any_busy = true;
            assert(busy(before[i as int]));
        } else {
            assert(!busy(before[i as int]));
        }
        w.focused = w.dragging || w.resize_corner.is_some();
        windows.set(i, w);
        i = i + 1;
    }
    let mut added = window;
    added.focused = !any_busy;
    windows.push(added);
}

/// Marks the first window with id `window_id` as closing; whether there was
/// one (then it is to be removed shortly after).
pub fn close_window(windows: &mut Vec<WindowState>, window_id: u128) -> (res: bool)
    ensures
        res == (find_window_spec(old(windows)@, window_id) is Some),
        final(windows)@ == match find_window_spec(old(windows)@, window_id) {
            Some(k) => old(windows)@.update(k, WindowState { closing: true, ..old(windows)@[k] }),
            None => old(windows)@,
        },
{
    let found = find_window(windows, window_id);
    proof {
        lemma_find_window_spec(windows@, window_id, found);
    }
    match found {
        Some(k) => {
            let mut w = windows[k];
            w.closing = true;
            windows.set(k, w);
            true
        },
        None => false,
    }
}

/// `ids` without `id`, in order.
pub open spec fn without_id(ids: Seq<u128>, id: u128) -> Seq<u128>
    decreases ids.len(),
{
    if ids.len() == 0 {
        Seq::empty()
    } else {
        let r = without_id(ids.drop_last(), id);
        if ids.last() == id { r } else { r.push(ids.last()) }
    }
}

/// Taking an id out of a list leaves no copy of it and keeps every other id.
pub proof fn law_without_id(ids: Seq<u128>, id: u128)
    ensures
        !without_id(ids, id).contains(id),
        forall|x: u128| x != id ==> (#[trigger] without_id(ids, id).contains(x) <==> ids.contains(x)),
    decreases ids.len(),
{
    broadcast use vstd::seq_lib::group_seq_properties;

    if ids.len() > 0 {
        let d = ids.drop_last();
        let l = ids.last();
        law_without_id(d, id);
        assert(ids == d.push(l));
    }
}

/// After a window is removed at once, no process owns it, and each process
/// keeps its other windows.
pub proof fn law_force_close_disowns(processes: Seq<ProcessModel>, windows: Seq<WindowState>, window_id: u128, after: Seq<ProcessModel>)
    requires
        find_window_spec(windows, window_id) is Some,
        after.len() == processes.len(),
        forall|j: int|
            0 <= j < processes.len() ==> #[trigger] after[j] == (ProcessModel {
                windows: without_id(processes[j].windows, window_id),
                ..processes[j]
            }),
    ensures
        forall|j: int| 0 <= j < after.len() ==> !(#[trigger] after[j]).windows.contains(window_id),
        forall|j: int, x: u128|
            0 <= j < after.len() && x != window_id ==> (#[trigger] after[j].windows.contains(x)
                <==> processes[j].windows.contains(x)),
{
    assert forall|j: int| 0 <= j < after.len() implies !(#[trigger] after[j]).windows.contains(window_id) by {
        law_without_id(processes[j].windows, window_id);
    }
    assert forall|j: int, x: u128|
        0 <= j < after.len() && x != window_id implies (#[trigger] after[j].windows.contains(x)
            <==> processes[j].windows.contains(x)) by {
        law_without_id(processes[j].windows, window_id);
    }
}

fn retain_other_ids(ids: &mut Vec<u128>, id: u128)
    ensures
        final(ids)@ == without_id(old(ids)@, id),
{
    let ghost before = ids@;
    let mut kept: Vec<u128> = Vec::new();
    let mut i: usize = 0;
    while i < ids.len()
        invariant
            i <= ids@.len(),
            ids@ == before,
            kept@ == without_id(before.take(i as int), id),
        decreases ids@.len() - i,
    {
        assert(before.take(i + 1).drop_last() =~= before.take(i as int));
        if ids[i] != id {
            kept.push(ids[i]);
        }
        i = i + 1;
    }
    assert(before.take(before.len() as int) =~= before);
    *ids = kept;
}

/// Removes the first window with id `window_id` at once; then no process
/// owns that id any more. Whether its closing had not begun yet (then the
/// window's close handler is still owed a call).
pub fn force_close_window(windows: &mut Vec<WindowState>, processes: &mut Vec<Process>, window_id: u128) -> (res: bool)
    ensures
        res == (find_window_spec(old(windows)@, window_id) matches Some(k) && !old(windows)@[k].closing),
        match find_window_spec(old(windows)@, window_id) {
            Some(k) => {
                &&& final(windows)@ == old(windows)@.remove(k)
                &&& final(processes)@.len() == old(processes)@.len()
                &&& forall|j: int|
                    0 <= j < old(processes)@.len() ==> #[trigger] processes_model(final(processes)@)[j] == (
                    ProcessModel {
                        windows: without_id(processes_model(old(processes)@)[j].windows, window_id),
                        ..processes_model(old(processes)@)[j]
                    })
            },
            None => final(windows)@ == old(windows)@ && processes_model(final(processes)@) == processes_model(
                old(processes)@,
            ),
        },
{
    let found = find_window(windows, window_id);
    proof {
        lemma_find_window_spec(windows@, window_id, found);
    }
    match found {
        None => false,
        Some(k) => {
            let was_closing = windows[k].closing;
            windows.remove(k);
            let ghost before = processes_model(processes@);
            let mut all: Vec<Process> = Vec::new();
            std::mem::swap(&mut all, processes);
            let mut i: usize = 0;
            while i < all.len()
                invariant
                    i <= all@.len(),
                    before == processes_model(all@),
                    processes@.len() == i,
                    forall|j: int|
                        0 <= j < i ==> #[trigger] processes_model(processes@)[j] == (ProcessModel {
                            windows: without_id(before[j].windows, window_id),
                            ..before[j]
                        }),
                decreases all@.len() - i,
            {
                let mut ids: Vec<u128> = Vec::new();
                let mut j: usize = 0;
                while j < all[i].windows.len()
                    invariant
                        i < all@.len(),
                        j <= all@[i as int].windows@.len(),
                        ids@ == all@[i as int].windows@.take(j as int),
                    decreases all@[i as int].windows@.len() - j,
                {
                    ids.push(all[i].windows[j]);
                    assert(ids@ =~= all@[i as int].windows@.take(j + 1));
                    j = j + 1;
                }
                assert(all@[i as int].windows@.take(j as int) =~= all@[i as int].windows@);
                retain_other_ids(&mut ids, window_id);
                let record = Process { id: all[i].id, name: crate::text::owned(all[i].name.as_str()), windows: ids };
                let ghost prev = processes_model(processes@);
                processes.push(record);
                assert forall|j: int| 0 <= j < i + 1 implies #[trigger] processes_model(processes@)[j] == (
                ProcessModel { windows: without_id(before[j].windows, window_id), ..before[j] }) by {
                    if j < i {
                        assert(processes_model(processes@)[j] == prev[j]);
                    }
                }
                i = i + 1;
            }
            !was_closing
        },
    }
}

/// Whether `ids` holds `id`.
pub fn holds_id(ids: &Vec<u128>, id: u128) -> (res: bool)
    ensures
        res == ids@.contains(id),
{
    let mut i: usize = 0;
    while i < ids.len()
        invariant
            i <= ids@.len(),
            forall|j: int| 0 <= j < i ==> ids@[j] != id,
        decreases ids@.len() - i,
    {
        if ids[i] == id {
            return true;
        }
        i = i + 1;
    }
    false
}

/// Marks every window of `owned` that is not closing yet as closing, and
/// gives their ids (they are to be removed shortly after).
pub fn close_windows_of(windows: &mut Vec<WindowState>, owned: &Vec<u128>) -> (to_close: Vec<u128>)
    ensures
        final(windows)@.len() == old(windows)@.len(),
        forall|j: int|
            0 <= j < old(windows)@.len() ==> #[trigger] final(windows)@[j] == if owned@.contains(old(windows)@[j].id) {
                WindowState { closing: true, ..old(windows)@[j] }
            } else {
                old(windows)@[j]
            },
        to_close@ == closing_ids(old(windows)@, owned@),
{
    let ghost before = windows@;
    let mut to_close: Vec<u128> = Vec::new();
    let mut i: usize = 0;
    while i < windows.len()
        invariant
            i <= windows@.len(),
            windows@.len() == before.len(),
            to_close@ == closing_ids(before.take(i as int), owned@),
            forall|j: int|
                0 <= j < before.len() ==> #[trigger] windows@[j] == if j < i && owned@.contains(before[j].id) {
                    WindowState { closing: true, ..before[j] }
                } else {
                    before[j]
                },
        decreases windows@.len() - i,
    {
        assert(before.take(i + 1).drop_last() =~= before.take(i as int));
        let mut w = windows[i];
        if holds_id(owned, w.id) && !w.closing {
            w.closing = true;
            windows.set(i, w);
            to_close.push(w.id);
        } else if holds_id(owned, w.id) {
            windows.set(i, w);
        }
        i = i + 1;
    }
    assert(before.take(before.len() as int) =~= before);
    to_close
}

/// The ids of the windows of `owned` that are not closing yet, in order.
pub open spec fn closing_ids(windows: Seq<WindowState>, owned: Seq<u128>) -> Seq<u128>
    decreases windows.len(),
{
    if windows.len() == 0 {
        Seq::empty()
    } else {
        let r = closing_ids(windows.drop_last(), owned);
        let w = windows.last();
        if owned.contains(w.id) && !w.closing { r.push(w.id) } else { r }
    }
}

/// The index of the first process with id `pid`.
pub fn find_process(processes: &Vec<Process>, pid: u32) -> (res: Option<usize>)
    ensures
        match res {
            Some(i) => i < processes@.len() && processes@[i as int].id == pid && forall|j: int|
                0 <= j < i ==> processes@[j].id != pid,
            None => forall|j: int| 0 <= j < processes@.len() ==> processes@[j].id != pid,
        },
{
    let mut i: usize = 0;
    while i < processes.len()
        invariant
            i <= processes@.len(),
            forall|j: int| 0 <= j < i ==> processes@[j].id != pid,
        decreases processes@.len() - i,
    {
        if processes[i].id == pid {
            return Some(i);
        }
        i = i + 1;
    }
    None
}

/// The index of the first process that owns window `window_id`.
pub fn find_process_with_window(processes: &Vec<Process>, window_id: u128) -> (res: Option<usize>)
    ensures
        match res {
            Some(i) => i < processes@.len() && processes@[i as int].windows@.contains(window_id) && forall|j: int|
                0 <= j < i ==> !processes@[j].windows@.contains(window_id),
            None => forall|j: int| 0 <= j < processes@.len() ==> !processes@[j].windows@.contains(window_id),
        },
{
    let mut i: usize = 0;
    while i < processes.len()
        invariant
            i <= processes@.len(),
            forall|j: int| 0 <= j < i ==> !processes@[j].windows@.contains(window_id),
        decreases processes@.len() - i,
    {
        if holds_id(&processes[i].windows, window_id) {
            return Some(i);
        }
        i = i + 1;
    }
    None
}

/// Stops process `pid`: it leaves the table and its windows start closing
/// (their ids are given, to be removed shortly after). Stopping process 1
/// brings the whole system down, which the result reports.
pub fn kill_process(processes: &mut Vec<Process>, windows: &mut Vec<WindowState>, pid: u32) -> (res: (Vec<u128>, bool))
    ensures
        res.1 == (pid == 1),
        match find_process_spec(processes_model(old(processes)@), pid) {
            Some(k) => {
                &&& processes_model(final(processes)@) == processes_model(old(processes)@).remove(k)
                &&& res.0@ == closing_ids(old(windows)@, processes_model(old(processes)@)[k].windows)
                &&& final(windows)@.len() == old(windows)@.len()
                &&& forall|j: int|
                    0 <= j < old(windows)@.len() ==> #[trigger] final(windows)@[j] == if processes_model(
                        old(processes)@,
                    )[k].windows.contains(old(windows)@[j].id) {
                        WindowState { closing: true, ..old(windows)@[j] }
                    } else {
                        old(windows)@[j]
                    }
            },
            None => processes_model(final(processes)@) == processes_model(old(processes)@) && final(windows)@
                == old(windows)@ && res.0@.len() == 0,
        },
{
    let found = find_process(processes, pid);
    let ghost pm = processes_model(processes@);
    proof {
        lemma_find_process_spec(pm, pid, found);
    }
    let to_close = match found {
        Some(k) => {
            let ids = processes[k].close_all_windows(windows);
            processes.remove(k);
            assert(processes_model(processes@) =~= pm.remove(k as int));
            ids
        },
        None => Vec::new(),
    };
    (to_close, pid == 1)
}

/// The index of the first process with id `pid`.
pub open spec fn find_process_spec(processes: Seq<ProcessModel>, pid: u32) -> Option<int> {
    if exists|i: int| 0 <= i < processes.len() && processes[i].id == pid {
        Some(
            choose|i: int|
                0 <= i < processes.len() && processes[i].id == pid && forall|j: int|
                    0 <= j < i ==> processes[j].id != pid,
        )
    } else {
        None
    }
}

proof fn lemma_find_process_spec(processes: Seq<ProcessModel>, pid: u32, found: Option<usize>)
    requires
        match found {
            Some(i) => i < processes.len() && processes[i as int].id == pid && forall|j: int|
                0 <= j < i ==> processes[j].id != pid,
            None => forall|j: int| 0 <= j < processes.len() ==> processes[j].id != pid,
        },
    ensures
        match found {
            Some(i) => find_process_spec(processes, pid) == Some(i as int),
            None => find_process_spec(processes, pid) is None,
        },
{
    if let Some(i) = found {
        assert(processes[i as int].id == pid);
        let k = choose|k: int|
            0 <= k < processes.len() && processes[k].id == pid && forall|j: int| 0 <= j < k ==> processes[j].id != pid;
        if k < i {
            assert(processes[k].id != pid);
        }
        if i < k {
            assert(processes[i as int].id != pid);
        }
    }
}

impl Process {
    /// A process with no window yet.
    pub fn new(id: u32, name: &str) -> (res: Self)
        ensures
            res.id == id,
            res.name@ == name@,
            res.windows@.len() == 0,
    {
        Process { id, name: crate::text::owned(name), windows: Vec::new() }
    }

    /// Whether the process owns window `window_id`.
    pub fn has_window(&self, window_id: u128) -> (res: bool)
        ensures
            res == self.windows@.contains(window_id),
    {
        holds_id(&self.windows, window_id)
    }

    /// Gives the process a new window, which is put on the screen as
    /// `spawn_window` puts it.
    pub fn add_window(&mut self, windows: &mut Vec<WindowState>, window: WindowState)
        ensures
            final(self).id == old(self).id,
            final(self).name@ == old(self).name@,
            final(self).windows@ == old(self).windows@.push(window.id),
            final(windows)@.len() == old(windows)@.len() + 1,
            forall|j: int|
                0 <= j < old(windows)@.len() ==> #[trigger] final(windows)@[j] == (WindowState {
                    focused: busy(old(windows)@[j]),
                    ..old(windows)@[j]
                }),
            final(windows)@.last() == (WindowState {
                focused: !exists|j: int| 0 <= j < old(windows)@.len() && #[trigger] busy(old(windows)@[j]),
                ..window
            }),
    {
        self.windows.push(window.id);
        spawn_window(windows, window);
    }

    /// How many of a process's windows are open (not closing).
    pub fn windows_len(&self, windows: &Vec<WindowState>) -> (res: usize)
        ensures
            res == open_count(windows@, self.windows@),
    {
        let ghost ws = windows@;
        let mut n: usize = 0;
        let mut i: usize = 0;
        while i < windows.len()
            invariant
                i <= windows@.len(),
                ws == windows@,
                n == open_count(ws.take(i as int), self.windows@),
                n <= i,
            decreases windows@.len() - i,
        {
            assert(ws.take(i + 1).drop_last() =~= ws.take(i as int));
            if holds_id(&self.windows, windows[i].id) && !windows[i].closing {
                n = n + 1;
            }
            i = i + 1;
        }
        assert(ws.take(ws.len() as int) =~= ws);
        n
    }

    /// Starts closing every window of the process that is not closing yet,
    /// and gives their ids (they are to be removed shortly after); the
    /// process then owns no window.
    pub fn close_all_windows(&mut self, windows: &mut Vec<WindowState>) -> (to_close: Vec<u128>)
        ensures
            final(self).id == old(self).id,
            final(self).name@ == old(self).name@,
            final(self).windows@.len() == 0,
            final(windows)@.len() == old(windows)@.len(),
            forall|j: int|
                0 <= j < old(windows)@.len() ==> #[trigger] final(windows)@[j] == if old(self).windows@.contains(
                    old(windows)@[j].id,
                ) {
                    WindowState { closing: true, ..old(windows)@[j] }
                } else {
                    old(windows)@[j]
                },
            to_close@ == closing_ids(old(windows)@, old(self).windows@),
    {
        let to_close = close_windows_of(windows, &self.windows);
        self.windows.clear();
        to_close
    }
}

/// The number of windows of `owned` that are not closing.
pub open spec fn open_count(windows: Seq<WindowState>, owned: Seq<u128>) -> nat
    decreases windows.len(),
{
    if windows.len() == 0 {
        0
    } else {
        open_count(windows.drop_last(), owned) + if owned.contains(windows.last().id) && !windows.last().closing {
            1nat
        } else {
            0nat
        }
    }
}

} // verus!
