//! Window properties and the decisions made from them: classes and titles, work
//! areas and frame extents, workspaces, and which client holds the keyboard.

use crate::actions::{CycleDirection, Workspace};
use crate::geometry::{larger, moveresize_message, rect_fits, unframed_size};
use crate::rect::ints;
use crate::text::{
    chars_of, same_text, split_on, split_text, text_in, trim, trim_range, utf8_lossy, views,
};
use vstd::prelude::*;

verus! {

// === Constants ===

/// Maximum parent-walk depth when resolving a window's class.
pub const CLASS_MAX_DEPTH: u8 = 8;

// === Classes and titles ===

/// The pieces that are not empty.
pub open spec fn nonempty(pieces: Seq<Seq<char>>) -> Seq<Seq<char>>
    decreases pieces.len(),
{
    if pieces.len() == 0 {
        Seq::empty()
    } else if pieces.last().len() > 0 {
        nonempty(pieces.drop_last()).push(pieces.last())
    } else {
        nonempty(pieces.drop_last())
    }
}

/// The class named by a raw value `instance\0class\0`: the second of its parts, or
/// the only one, or nothing.
pub open spec fn class_text(value: Seq<u8>) -> Seq<char> {
    let parts = nonempty(split_on(text_in(value), '\0'));
    if parts.len() >= 2 {
        parts[1]
    } else if parts.len() == 1 {
        parts[0]
    } else {
        Seq::empty()
    }
}

fn nonempty_pieces(pieces: Vec<String>) -> (r: Vec<String>)
    ensures
        views(r@) == nonempty(views(pieces@)),
{
    let ghost all = views(pieces@);
    let mut out: Vec<String> = Vec::new();
    let mut i: usize = 0;
    assert(views(out@) =~= nonempty(all.take(0)));
    while i < pieces.len()
        invariant
            i <= pieces@.len(),
            all == views(pieces@),
            views(out@) == nonempty(all.take(i as int)),
        decreases pieces@.len() - i,
    {
        proof {
            assert(all.take(i + 1).drop_last() =~= all.take(i as int));
            assert(all.take(i + 1).last() == pieces@[i as int]@);
        }
        if !pieces[i].as_str().is_empty() {
            let ghost before = views(out@);
            out.push(pieces[i].clone());
            assert(views(out@) =~= before.push(pieces@[i as int]@));
        }
        i = i + 1;
    }
    assert(all.take(all.len() as int) =~= all);
    out
}

/// Extract the class name from a raw class value of the form `instance\0class\0`.
pub fn parse_wm_class(value: &[u8]) -> (r: String)
    ensures
        r@ == class_text(value@),
{
    let text = utf8_lossy(value);
    let parts = nonempty_pieces(split_text(text.as_str(), '\0'));
    let ghost all = nonempty(split_on(text_in(value@), '\0'));
    assert(views(parts@).len() == parts@.len());
    if parts.len() >= 2 {
        assert(views(parts@)[1] == parts@[1]@);
        parts[1].clone()
    } else if parts.len() == 1 {
        assert(views(parts@)[0] == parts@[0]@);
        parts[0].clone()
    } else {
        let r = String::new();
        assert(r@ =~= Seq::empty());
        r
    }
}

/// `s` without the NULs it ends with.
pub open spec fn without_nuls(s: Seq<char>) -> Seq<char>
    decreases s.len(),
{
    if s.len() > 0 && s.last() == '\0' {
        without_nuls(s.drop_last())
    } else {
        s
    }
}

/// The title a raw name value holds.
pub open spec fn name_text(value: Seq<u8>) -> Seq<char> {
    trim(without_nuls(text_in(value)))
}

/// Decode a window title from a raw name value (UTF-8, or Latin-1 read lossily),
/// trimming whitespace and any trailing NUL.
pub fn parse_window_name(value: &[u8]) -> (r: String)
    ensures
        r@ == name_text(value@),
{
    let text = utf8_lossy(value);
    let v = chars_of(text.as_str());
    let mut end: usize = v.len();
    assert(v@.subrange(0, end as int) =~= v@);
    while end > 0 && v[end - 1] == '\0'
        invariant
            end <= v@.len(),
            v@ == text_in(value@),
            without_nuls(v@) == without_nuls(v@.subrange(0, end as int)),
        decreases end,
    {
        assert(v@.subrange(0, end as int).drop_last() =~= v@.subrange(0, end - 1));
        end = end - 1;
    }
    assert(without_nuls(v@.subrange(0, end as int)) == v@.subrange(0, end as int));
    trim_range(&v, 0, end)
}

// === Geometry properties ===

/// Four values from `base` on, as the signed numbers they stand for.
pub open spec fn four_at(vals: Seq<u32>, base: int) -> (i32, i32, i32, i32) {
    (
        vals[base] as i32,
        vals[base + 1] as i32,
        vals[base + 2] as i32,
        vals[base + 3] as i32,
    )
}

/// The work area (`x, y, w, h`) of a desktop among the work areas of all desktops;
/// that of the first desktop where the desktop has none of its own.
pub fn work_area(vals: &[u32], desktop: u32) -> (r: Option<(i32, i32, i32, i32)>)
    ensures
        r == if vals@.len() >= desktop * 4 + 4 {
            Some(four_at(vals@, desktop * 4))
        } else if vals@.len() >= 4 {
            Some(four_at(vals@, 0))
        } else {
            None
        },
{
    let base: u64 = desktop as u64 * 4;
    let at: usize = if vals.len() as u64 >= base + 4 {
        base as usize
    } else if vals.len() >= 4 {
        0
    } else {
        return None;
    };
    Some((vals[at] as i32, vals[at + 1] as i32, vals[at + 2] as i32, vals[at + 3] as i32))
}

/// A window's frame extents as `(left, right, top, bottom)`, all zero where the
/// property is not four values — the case for undecorated windows and window
/// managers that do not set it.
pub fn frame_extents(vals: &[u32]) -> (r: (i32, i32, i32, i32))
    ensures
        r == if vals@.len() == 4 {
            four_at(vals@, 0)
        } else {
            (0i32, 0i32, 0i32, 0i32)
        },
{
    if vals.len() == 4 {
        (vals[0] as i32, vals[1] as i32, vals[2] as i32, vals[3] as i32)
    } else {
        (0, 0, 0, 0)
    }
}

/// The flags of a move-resize request: gravity NorthWest (1), all four numbers
/// present (bits 8 to 11), and the request of a pager (bit 13).
pub const MOVERESIZE_FLAGS: u32 = 0x2f01;

/// The payload of a move-resize request that puts a window's frame at `frame`.
pub fn moveresize_payload(frame: (i32, i32, i32, i32), extents: (i32, i32, i32, i32)) -> (r: [u32;
5])
    requires
        rect_fits(unframed_size(ints(frame), ints(extents))),
    ensures
        r@[0] == MOVERESIZE_FLAGS,
        r@[1] == frame.0 as u32,
        r@[2] == frame.1 as u32,
        r@[3] == larger(unframed_size(ints(frame), ints(extents)).2, 1),
        r@[4] == larger(unframed_size(ints(frame), ints(extents)).3, 1),
{
    let (x, y, w, h) = moveresize_message(frame, extents);
    let w: i32 = if w >= 1 {
        w
    } else {
        1
    };
    let h: i32 = if h >= 1 {
        h
    } else {
        1
    };
    [MOVERESIZE_FLAGS, x as u32, y as u32, w as u32, h as u32]
}

/// The first window of a list, unless it is the null window.
pub fn active_window(vals: &[u32]) -> (r: Option<u32>)
    ensures
        r == if vals@.len() > 0 && vals@[0] != 0 {
            Some(vals@[0])
        } else {
            None
        },
{
    if vals.len() > 0 && vals[0] != 0 {
        Some(vals[0])
    } else {
        None
    }
}

/// What to set the showing-desktop state to: the opposite of what it is.
pub fn toggled_showing(vals: &[u32]) -> (r: u32)
    ensures
        r == if vals@.len() == 0 || vals@[0] == 0 {
            1u32
        } else {
            0u32
        },
{
    if vals.len() == 0 || vals[0] == 0 {
        1
    } else {
        0
    }
}

// === Workspaces ===

/// One less, but not below zero.
pub open spec fn one_less(n: u32) -> int {
    if n == 0 {
        0
    } else {
        n - 1
    }
}

/// The number of a workspace from zero on: one named by its number, counted from one, or
/// the one before or after the current one, kept among those there are.
pub open spec fn workspace_index(target: Workspace, current: u32, count: u32) -> int {
    match target {
        Workspace::Index(n) => one_less(n),
        Workspace::Prev => one_less(current),
        Workspace::Next => if count > 0 && current + 1 > count - 1 {
            count - 1
        } else {
            current + 1
        },
    }
}

/// Resolve a [`Workspace`] target to a 0-based desktop index. `count` is 0 where
/// it is not known. The configuration counts from 1.
pub fn resolve_workspace(target: Workspace, current: u32, count: u32) -> (r: u32)
    requires
        target is Next ==> current < u32::MAX,
    ensures
        r == match target {
            Workspace::Index(n) => one_less(n),
            Workspace::Prev => one_less(current),
            Workspace::Next => if count > 0 && current + 1 > count - 1 {
                count - 1
            } else {
                current + 1
            },
        },
        r == workspace_index(target, current, count),
{
    match target {
        Workspace::Index(n) => if n == 0 {
            0
        } else {
            n - 1
        },
        Workspace::Prev => if current == 0 {
            0
        } else {
            current - 1
        },
        Workspace::Next => if count > 0 && current + 1 > count - 1 {
            count - 1
        } else {
            current + 1
        },
    }
}

/// The 0-based index of a [`Workspace`] target, clamped to the existing desktops where
/// their number is known. Where it is not, the next desktop is taken to be the last.
pub open spec fn desktop_index(target: Workspace, current: u32, count: Option<u32>) -> int {
    match target {
        Workspace::Index(n) => match count {
            Some(c) if one_less(n) > one_less(c) => one_less(c),
            _ => one_less(n),
        },
        Workspace::Prev => one_less(current),
        Workspace::Next => {
            let last = match count {
                Some(c) => one_less(c),
                None => current as int,
            };
            if current + 1 <= last {
                current + 1
            } else {
                last
            }
        },
    }
}

/// Resolve a [`Workspace`] target to a 0-based desktop index, clamped to the existing
/// desktops. The configuration counts from 1.
pub fn resolve_desktop_index(target: Workspace, current: u32, count: Option<u32>) -> (r: u32)
    requires
        target is Next ==> current < u32::MAX,
    ensures
        r == desktop_index(target, current, count),
{
    match target {
        Workspace::Index(n) => {
            let index: u32 = if n == 0 {
                0
            } else {
                n - 1
            };
            match count {
                Some(c) => {
                    let last: u32 = if c == 0 {
                        0
                    } else {
                        c - 1
                    };
                    if index > last {
                        last
                    } else {
                        index
                    }
                },
                None => index,
            }
        },
        Workspace::Prev => if current == 0 {
            0
        } else {
            current - 1
        },
        Workspace::Next => {
            let last: u32 = match count {
                Some(c) => if c == 0 {
                    0
                } else {
                    c - 1
                },
                None => current,
            };
            if current + 1 <= last {
                current + 1
            } else {
                last
            }
        },
    }
}

/// Where the number of desktops is known, every target resolves to one of them.
pub proof fn desktop_indices_are_clamped(target: Workspace, current: u32, count: u32)
    requires
        current < count,
    ensures
        0 <= desktop_index(target, current, Some(count)) < count,
{
}

/// Going to the previous workspace never leaves the first, and going to the next
/// never passes the last where their number is known.
pub proof fn workspaces_stay_in_range(current: u32, count: u32)
    requires
        current < count,
    ensures
        0 <= one_less(current) < count,
        ({
            let next = if count > 0 && current + 1 > count - 1 {
                count - 1
            } else {
                current + 1
            };
            next < count
        }),
{
}

// === Windows of an application ===

/// What a list of windows with their application names is.
pub open spec fn named_windows(list: Seq<(u64, Option<String>)>) -> Seq<(u64, Option<Seq<char>>)> {
    list.map_values(|w: (u64, Option<String>)| (w.0, crate::document::text_view(w.1)))
}

/// The windows of an application, in order.
pub open spec fn windows_named(list: Seq<(u64, Option<Seq<char>>)>, name: Seq<char>) -> Seq<u64>
    decreases list.len(),
{
    if list.len() == 0 {
        Seq::empty()
    } else {
        let before = windows_named(list.drop_last(), name);
        if list.last().1 == Some(name) {
            before.push(list.last().0)
        } else {
            before
        }
    }
}

/// The windows whose class is exactly `name`.
pub fn same_class(list: &Vec<(u64, Option<String>)>, name: &str) -> (r: Vec<u64>)
    ensures
        r@ == windows_named(named_windows(list@), name@),
{
    let ghost all = named_windows(list@);
    let mut out: Vec<u64> = Vec::new();
    let mut i: usize = 0;
    while i < list.len()
        invariant
            i <= list@.len(),
            all == named_windows(list@),
            out@ == windows_named(all.take(i as int), name@),
        decreases list@.len() - i,
    {
        proof {
            assert(all.take(i + 1).drop_last() =~= all.take(i as int));
            assert(all.take(i + 1).last() == (
                list@[i as int].0,
                crate::document::text_view(list@[i as int].1),
            ));
        }
        if let Some(class) = &list[i].1 {
            if same_text(class.as_str(), name) {
                out.push(list[i].0);
            }
        }
        i = i + 1;
    }
    assert(all.take(all.len() as int) =~= all);
    out
}

/// Where a value first stands in a list, from `i` on.
pub open spec fn first_at(list: Seq<u64>, v: u64, i: int) -> Option<int>
    decreases list.len() - i,
{
    if i >= list.len() {
        None
    } else if list[i] == v {
        Some(i)
    } else {
        first_at(list, v, i + 1)
    }
}

/// The window to activate when stepping through the windows of one application:
/// the one beside `win`, or the last where `win` is not among them; none where
/// there are fewer than two.
pub open spec fn cycled(same: Seq<u64>, win: u64, direction: CycleDirection) -> Option<u64> {
    if same.len() <= 1 {
        None
    } else {
        match first_at(same, win, 0) {
            Some(i) => Some(same[direction.spec_step(i, same.len() as int)]),
            None => Some(same.last()),
        }
    }
}

/// The window to activate when stepping through the windows of one application.
pub fn cycle_target(same: &Vec<u64>, win: u64, direction: CycleDirection) -> (r: Option<u64>)
    ensures
        r == cycled(same@, win, direction),
{
    if same.len() <= 1 {
        return None;
    }
    let mut i: usize = 0;
    while i < same.len()
        invariant
            i <= same@.len(),
            same@.len() > 1,
            first_at(same@, win, 0) == first_at(same@, win, i as int),
        decreases same@.len() - i,
    {
        if same[i] == win {
            return Some(same[direction.step(i, same.len())]);
        }
        i = i + 1;
    }
    Some(same[same.len() - 1])
}

proof fn lemma_first_at(list: Seq<u64>, v: u64, i: int)
    requires
        0 <= i,
    ensures
        first_at(list, v, i) matches Some(k) ==> i <= k < list.len() && list[k] == v,
    decreases list.len() - i,
{
    if i < list.len() && list[i] != v {
        lemma_first_at(list, v, i + 1);
    }
}

/// Stepping forward from a window and then backward comes back to it, where no
/// window is listed twice.
pub proof fn cycling_back_returns(same: Seq<u64>, i: int)
    requires
        same.len() > 1,
        0 <= i < same.len(),
        forall|a: int, b: int| 0 <= a < b < same.len() ==> #[trigger] same[a] != #[trigger] same[b],
    ensures
        cycled(same, same[i], CycleDirection::Forward) matches Some(next) && cycled(
            same,
            next,
            CycleDirection::Backward,
        ) == Some(same[i]),
{
    lemma_found(same, i);
    let next = CycleDirection::Forward.spec_step(i, same.len() as int);
    crate::actions::steps_undo_each_other(i, same.len() as int);
    lemma_found(same, next);
}

proof fn lemma_found(list: Seq<u64>, k: int)
    requires
        0 <= k < list.len(),
        forall|a: int, b: int| 0 <= a < b < list.len() ==> #[trigger] list[a] != #[trigger] list[b],
    ensures
        first_at(list, list[k], 0) == Some(k),
{
    lemma_first_at(list, list[k], 0);
    lemma_not_missed(list, list[k], 0, k);
}

proof fn lemma_not_missed(list: Seq<u64>, v: u64, i: int, k: int)
    requires
        0 <= i <= k < list.len(),
        list[k] == v,
    ensures
        first_at(list, v, i) is Some,
    decreases k - i,
{
    if list[i] != v {
        lemma_not_missed(list, v, i + 1, k);
    }
}

// === Climbing the window tree ===

/// The next thing to do in a climb from a window toward the root.
#[derive(Debug)]
pub enum Climb<T> {
    /// Read the property of this window.
    Read(u32),
    /// The climb ends here, with what was found.
    Done(Option<T>),
}

/// Where a climb for a class begins, or goes on at a parent after `depth` windows
/// have been read.
pub fn class_climb(window: u32, depth: u8) -> (r: Climb<String>)
    ensures
        r == if depth >= CLASS_MAX_DEPTH || window == 0 {
            Climb::Done(None::<String>)
        } else {
            Climb::Read(window)
        },
{
    if depth >= CLASS_MAX_DEPTH || window == 0 {
        Climb::Done(None)
    } else {
        Climb::Read(window)
    }
}

/// The class a window's raw value gives; none where the value is empty, so that
/// the climb goes on at the parent.
pub fn class_found(value: &[u8]) -> (r: Option<String>)
    ensures
        value@.len() == 0 ==> r is None,
        value@.len() > 0 ==> r is Some && r->0@ == class_text(value@),
{
    if value.len() == 0 {
        None
    } else {
        Some(parse_wm_class(value))
    }
}

/// Where a climb for a process id begins: not at the null window or the pointer
/// root.
pub fn pid_climb(window: u32) -> (r: Climb<u32>)
    ensures
        r == if window < 2 {
            Climb::Done(None::<u32>)
        } else {
            Climb::Read(window)
        },
{
    if window < 2 {
        Climb::Done(None)
    } else {
        Climb::Read(window)
    }
}

/// How a climb for a process id goes on after a window's property was read: it ends
/// with the first value, or at the root.
pub fn pid_climb_on(value: &[u32], parent: u32, root: u32) -> (r: Climb<u32>)
    ensures
        r == if value@.len() > 0 {
            Climb::Done(Some(value@[0]))
        } else if parent == 0 || parent == root {
            Climb::Done(None::<u32>)
        } else {
            Climb::Read(parent)
        },
{
    if value.len() > 0 {
        Climb::Done(Some(value[0]))
    } else if parent == 0 || parent == root {
        Climb::Done(None)
    } else {
        Climb::Read(parent)
    }
}

// === Keyboard focus ===

/// The focused window with its class, and whether another client holds a keyboard
/// grab.
#[derive(Debug)]
pub struct FocusTracker {
    pub focus: u32,
    pub class: String,
    pub grabbed: bool,
}

/// What a [`FocusTracker`] holds.
pub struct FocusView {
    pub focus: u32,
    pub class: Seq<char>,
    pub grabbed: bool,
}

/// What the display server reports about the keyboard focus.
#[derive(Clone, Copy, Debug)]
pub enum FocusEvent {
    /// A window lost the focus to a grab.
    LostToGrab(u32),
    /// A window got the focus back from a grab.
    BackFromGrab(u32),
    /// Anything else.
    Other,
}

impl View for FocusTracker {
    type V = FocusView;

    open spec fn view(&self) -> FocusView {
        FocusView { focus: self.focus, class: self.class@, grabbed: self.grabbed }
    }
}

/// What an event makes of the focus.
pub open spec fn focus_after(f: FocusView, event: FocusEvent) -> FocusView {
    match event {
        FocusEvent::LostToGrab(window) => if window == f.focus {
            FocusView { class: Seq::empty(), grabbed: true, ..f }
        } else {
            f
        },
        FocusEvent::BackFromGrab(_) => FocusView { focus: 0, grabbed: false, ..f },
        FocusEvent::Other => f,
    }
}

impl FocusTracker {
    /// Nothing focused, nothing grabbed.
    pub fn new() -> (r: FocusTracker)
        ensures
            r@ == (FocusView { focus: 0, class: Seq::empty(), grabbed: false }),
    {
        let class = String::new();
        assert(class@ =~= Seq::empty());
        FocusTracker { focus: 0, class, grabbed: false }
    }

    /// One event: losing the tracked window to a grab means another client grabbed
    /// the keyboard (e.g. a launcher); any ungrab clears the flag. The matching
    /// grab was on the tracked window, but the release can land on a different one
    /// when focus moved while grabbed, so the window is not compared there.
    pub fn on_event(&mut self, event: FocusEvent)
        ensures
            final(self)@ == focus_after(old(self)@, event),
    {
        match event {
            FocusEvent::LostToGrab(window) => {
                if window == self.focus {
                    self.grabbed = true;
                    self.class = String::new();
                    assert(self.class@ =~= Seq::empty());
                }
            },
            FocusEvent::BackFromGrab(_) => {
                self.grabbed = false;
                self.focus = 0;  // force a refresh on the next look
            },
            FocusEvent::Other => {},
        }
    }

    /// Self-heal a stuck grab: if the window whose ungrab is awaited was destroyed,
    /// the ungrab never arrives. Drop the stale flag so remapping resumes instead
    /// of forwarding every key raw until a restart.
    pub fn heal(&mut self, focus_exists: bool)
        ensures
            final(self)@ == if old(self)@.grabbed && !focus_exists {
                (FocusView { focus: 0, grabbed: false, ..old(self)@ })
            } else {
                old(self)@
            },
    {
        if self.grabbed && !focus_exists {
            self.grabbed = false;
            self.focus = 0;
        }
    }

    /// Whether the class has to be read anew because another window has the focus.
    pub fn is_stale(&self, focus: u32) -> (r: bool)
        ensures
            r == (focus != self@.focus),
    {
        focus != self.focus
    }

    /// Another window has the focus, with this class.
    pub fn refocus(&mut self, focus: u32, class: String)
        ensures
            final(self)@ == (FocusView { focus, class: class@, grabbed: old(self)@.grabbed }),
    {
        self.focus = focus;
        self.class = class;
    }

    /// The active application's name: none while another client holds the
    /// keyboard, so that no application-scoped keymap matches.
    pub fn app(&self) -> (r: String)
        ensures
            r@ == if self@.grabbed {
                Seq::empty()
            } else {
                self@.class
            },
    {
        if self.grabbed {
            let r = String::new();
            assert(r@ =~= Seq::empty());
            r
        } else {
            self.class.clone()
        }
    }
}

/// A grab that was seen ends with any ungrab, and with the tracked window's end.
pub proof fn grabs_end(f: FocusView, window: u32)
    ensures
        !focus_after(f, FocusEvent::BackFromGrab(window)).grabbed,
        focus_after(f, FocusEvent::LostToGrab(f.focus)).grabbed,
{
}

} // verus!
