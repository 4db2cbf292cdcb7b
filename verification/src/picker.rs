//! The pick-window overlay: which windows get a hint, what their chips say, where
//! they go, and the keys that narrow them down.

use crate::hints::{
    advance, chip_spot, key_to_hint_char, letter_of, narrowed, place_hint, resolved, HintMatch,
    OVERLAY_GAP,
};
use crate::key::Key;
use crate::text::{starts_with, views};
use crate::title::{split_app_from_title, title_split};
use crate::wmprops::{class_text, name_text, parse_window_name, parse_wm_class};
use vstd::prelude::*;

verus! {

// === Data structures ===

/// What the display server says of one window; a part is missing where the server
/// gave no answer.
#[derive(Debug)]
pub struct WindowFacts {
    pub win: u32,
    /// The desktop the window is on.
    pub desktop: Option<u32>,
    /// The origin of its client area in screen coordinates.
    pub origin: Option<(i16, i16)>,
    /// The size of its client area.
    pub size: Option<(u16, u16)>,
    /// The raw class pair.
    pub class: Option<Vec<u8>>,
    /// The raw UTF-8 title.
    pub net_name: Option<Vec<u8>>,
    /// The raw legacy title.
    pub name: Option<Vec<u8>>,
}

/// A window that gets a hint: its centre, the first line of its chip (the app's
/// brand) and the second (the rest of the title).
#[derive(Debug)]
pub struct HintTarget {
    pub win: u32,
    pub center: (i32, i32),
    pub label: String,
    pub rest: String,
}

/// What a [`HintTarget`] is.
pub struct TargetView {
    pub win: u32,
    pub center: (int, int),
    pub label: Seq<char>,
    pub rest: Seq<char>,
}

/// The hints of an open overlay and what has been typed so far.
#[derive(Debug)]
pub struct Picker {
    hints: Vec<String>,
    prefix: String,
}

/// What a [`Picker`] holds.
pub struct PickerView {
    pub hints: Seq<Seq<char>>,
    pub prefix: Seq<char>,
}

/// What a key press in the overlay asks for.
#[derive(Clone, Copy, Debug, Eq, PartialEq, Structural)]
pub enum PickerStep {
    /// The key means nothing here.
    Ignored,
    /// The typed prefix may have changed: show and hide chips accordingly.
    Updated,
    /// Close the overlay.
    Cancelled,
    /// Close the overlay and activate the window of this hint.
    Chosen(usize),
}

// === Targets ===

impl View for HintTarget {
    type V = TargetView;

    open spec fn view(&self) -> TargetView {
        TargetView {
            win: self.win,
            center: (self.center.0 as int, self.center.1 as int),
            label: self.label@,
            rest: self.rest@,
        }
    }
}

pub open spec fn bytes_of(v: Option<Vec<u8>>) -> Option<Seq<u8>> {
    match v {
        Some(b) => Some(b@),
        None => None,
    }
}

/// A window's title: the UTF-8 one if it says something, else the legacy one.
pub open spec fn title_of(net_name: Option<Seq<u8>>, name: Option<Seq<u8>>) -> Seq<char> {
    match net_name {
        Some(b) if name_text(b).len() > 0 => name_text(b),
        _ => match name {
            Some(b) => name_text(b),
            None => Seq::empty(),
        },
    }
}

/// The first line of a chip and the second: the app's brand as it appears in the
/// title, or the app's own name where the title carries no recognizable brand, and
/// the remaining part of the title.
pub open spec fn chip_lines(title: Seq<char>, app: Seq<char>) -> (Seq<char>, Seq<char>) {
    let (brand, rest) = title_split(title, app);
    (
        if brand.len() == 0 {
            app
        } else {
            brand
        },
        rest,
    )
}

/// The hint target a window is: none if it is on another desktop or the server did
/// not say where it is.
pub open spec fn target_of(f: WindowFacts, desktop: u32) -> Option<TargetView> {
    if f.desktop == Some(desktop) && f.origin is Some && f.size is Some {
        let (x, y) = f.origin->0;
        let (w, h) = f.size->0;
        let app = match f.class {
            Some(b) => class_text(b@),
            None => Seq::empty(),
        };
        let (label, rest) = chip_lines(title_of(bytes_of(f.net_name), bytes_of(f.name)), app);
        Some(
            TargetView {
                win: f.win,
                center: (x + w / 2, y + h / 2),
                label,
                rest,
            },
        )
    } else {
        None
    }
}

/// The hint targets of a list of windows, in order.
pub open spec fn targets_of(list: Seq<WindowFacts>, desktop: u32) -> Seq<TargetView>
    decreases list.len(),
{
    if list.len() == 0 {
        Seq::empty()
    } else {
        let before = targets_of(list.drop_last(), desktop);
        match target_of(list.last(), desktop) {
            Some(target) => before.push(target),
            None => before,
        }
    }
}

/// What a list of targets is.
pub open spec fn target_views(list: Seq<HintTarget>) -> Seq<TargetView> {
    list.map_values(|t: HintTarget| t@)
}

fn window_title(net_name: &Option<Vec<u8>>, name: &Option<Vec<u8>>) -> (r: String)
    ensures
        r@ == title_of(bytes_of(*net_name), bytes_of(*name)),
{
    if let Some(b) = net_name {
        let text = parse_window_name(b.as_slice());
        if !text.as_str().is_empty() {
            return text;
        }
    }
    match name {
        Some(b) => parse_window_name(b.as_slice()),
        None => {
            let r = String::new();
            assert(r@ =~= Seq::empty());
            r
        },
    }
}

/// The two lines of a window's chip.
pub fn chip_text(title: &str, app: String) -> (r: (String, String))
    ensures
        (r.0@, r.1@) == chip_lines(title@, app@),
{
    let (brand, rest) = split_app_from_title(title, app.as_str());
    if brand.as_str().is_empty() {
        (app, rest)
    } else {
        (brand, rest)
    }
}

fn hint_target(f: &WindowFacts, desktop: u32) -> (r: Option<HintTarget>)
    ensures
        match r {
            Some(t) => target_of(*f, desktop) == Some(t@),
            None => target_of(*f, desktop) is None,
        },
{
    let on: u32 = match f.desktop {
        Some(d) => d,
        None => return None,
    };
    if on != desktop {
        return None;
    }
    let (x, y) = match f.origin {
        Some(origin) => origin,
        None => return None,
    };
    let (w, h) = match f.size {
        Some(size) => size,
        None => return None,
    };
    let app = match &f.class {
        Some(b) => parse_wm_class(b.as_slice()),
        None => {
            let r = String::new();
            assert(r@ =~= Seq::empty());
            r
        },
    };
    let title = window_title(&f.net_name, &f.name);
    let (label, rest) = chip_text(title.as_str(), app);
    // Center of the client area in root coordinates.
    let center: (i32, i32) = (x as i32 + w as i32 / 2, y as i32 + h as i32 / 2);
    Some(HintTarget { win: f.win, center, label, rest })
}

/// The windows of the current desktop that get a hint, with what their chips say.
pub fn hint_targets(list: &Vec<WindowFacts>, desktop: u32) -> (r: Vec<HintTarget>)
    ensures
        target_views(r@) == targets_of(list@, desktop),
{
    let mut out: Vec<HintTarget> = Vec::new();
    let mut i: usize = 0;
    assert(target_views(out@) =~= targets_of(list@.take(0), desktop));
    while i < list.len()
        invariant
            i <= list@.len(),
            target_views(out@) == targets_of(list@.take(i as int), desktop),
        decreases list@.len() - i,
    {
        proof {
            assert(list@.take(i + 1).drop_last() =~= list@.take(i as int));
            assert(list@.take(i + 1).last() == list@[i as int]);
        }
        if let Some(target) = hint_target(&list[i], desktop) {
            let ghost before = target_views(out@);
            out.push(target);
            assert(target_views(out@) =~= before.push(target@));
        }
        i = i + 1;
    }
    assert(list@.take(list@.len() as int) =~= list@);
    out
}

// === Layout ===

/// Where a chip has to begin to be centred on a point.
pub open spec fn centred(center: (i32, i32), size: (u16, u16)) -> (int, int) {
    (center.0 - size.0 / 2, center.1 - size.1 / 2)
}

/// The top-left of a chip centred on a point.
pub fn centered_on(center: (i32, i32), size: (u16, u16)) -> (r: (i32, i32))
    requires
        centred(center, size).0 >= i32::MIN,
        centred(center, size).1 >= i32::MIN,
    ensures
        (r.0 as int, r.1 as int) == centred(center, size),
{
    (center.0 - size.0 as i32 / 2, center.1 - size.1 as i32 / 2)
}

/// The rectangles of the first `n` chips, each placed clear of those before it
/// where there is room.
pub open spec fn chips_placed(
    desired: Seq<(i32, i32)>,
    sizes: Seq<(i32, i32)>,
    screen: (i32, i32),
    n: nat,
) -> Seq<(int, int, int, int)>
    decreases n,
{
    if n == 0 {
        Seq::empty()
    } else {
        let before = chips_placed(desired, sizes, screen, (n - 1) as nat);
        let (w, h) = sizes[n - 1];
        let spot = chip_spot(
            (desired[n - 1].0 as int, desired[n - 1].1 as int),
            (w as int, h as int),
            before.map_values(
                |r: (int, int, int, int)| (r.0 as i32, r.1 as i32, r.2 as i32, r.3 as i32),
            ),
            (screen.0 as int, screen.1 as int),
        );
        before.push((spot.0, spot.1, w as int, h as int))
    }
}

/// Place the chips of an overlay one after the other: each at its desired spot,
/// clamped to the screen and nudged clear of those before it.
pub fn layout_chips(desired: &Vec<(i32, i32)>, sizes: &Vec<(i32, i32)>, screen: (i32, i32)) -> (r:
    Vec<(i32, i32, i32, i32)>)
    requires
        desired@.len() == sizes@.len(),
        forall|i: int|
            0 <= i < sizes@.len() ==> (#[trigger] sizes@[i]).1 + OVERLAY_GAP > 0 && screen.1
                - sizes@[i].1 <= i32::MAX,
    ensures
        r@.len() == desired@.len(),
        forall|i: int|
            0 <= i < r@.len() ==> crate::rect::ints(#[trigger] r@[i]) == chips_placed(
                desired@,
                sizes@,
                screen,
                desired@.len(),
            )[i],
{
    let mut placed: Vec<(i32, i32, i32, i32)> = Vec::new();
    let mut i: usize = 0;
    while i < desired.len()
        invariant
            i <= desired@.len(),
            desired@.len() == sizes@.len(),
            forall|k: int|
                0 <= k < sizes@.len() ==> (#[trigger] sizes@[k]).1 + OVERLAY_GAP > 0 && screen.1
                    - sizes@[k].1 <= i32::MAX,
            placed@.len() == i,
            chips_placed(desired@, sizes@, screen, i as nat).len() == i,
            forall|k: int|
                0 <= k < i ==> crate::rect::ints(#[trigger] placed@[k]) == chips_placed(
                    desired@,
                    sizes@,
                    screen,
                    i as nat,
                )[k],
        decreases desired@.len() - i,
    {
        let (w, h) = sizes[i];
        let ghost before = chips_placed(desired@, sizes@, screen, i as nat);
        proof {
            let as_machine = before.map_values(
                |r: (int, int, int, int)| (r.0 as i32, r.1 as i32, r.2 as i32, r.3 as i32),
            );
            assert(placed@ =~= as_machine) by {
                assert forall|k: int| 0 <= k < placed@.len() implies placed@[k]
                    == as_machine[k] by {
                    assert(crate::rect::ints(placed@[k]) == before[k]);
                }
            }
        }
        let (x, y) = place_hint(desired[i], (w, h), placed.as_slice(), screen);
        let ghost done = placed@;
        placed.push((x, y, w, h));
        proof {
            let after = chips_placed(desired@, sizes@, screen, (i + 1) as nat);
            assert(after.len() == i + 1);
            assert forall|k: int| 0 <= k < i + 1 implies crate::rect::ints(#[trigger] placed@[k])
                == after[k] by {
                if k < i {
                    assert(placed@[k] == done[k]);
                    assert(after[k] == before[k]);
                }
            }
        }
        i = i + 1;
    }
    placed
}

// === Picker ===

impl View for Picker {
    type V = PickerView;

    closed spec fn view(&self) -> PickerView {
        PickerView { hints: views(self.hints@), prefix: self.prefix@ }
    }
}

/// Which chips are shown: those whose hint begins with the prefix.
pub open spec fn shown_chips(p: PickerView) -> Seq<bool> {
    p.hints.map_values(|h: Seq<char>| p.prefix.is_prefix_of(h))
}

/// A prefix without its last character.
pub open spec fn untyped(prefix: Seq<char>) -> Seq<char> {
    if prefix.len() > 0 {
        prefix.drop_last()
    } else {
        prefix
    }
}

/// What the overlay is after a key press.
pub open spec fn picker_after(p: PickerView, key: Option<Key>) -> PickerView {
    match key {
        Some(Key::Backspace) => PickerView { prefix: untyped(p.prefix), ..p },
        Some(k) => match letter_of(k) {
            Some(ch) => PickerView { prefix: narrowed(p.hints, p.prefix, ch), ..p },
            None => p,
        },
        None => p,
    }
}

/// What a key press in the overlay asks for: Esc cancels, Backspace un-types, a
/// hint character narrows or selects.
pub open spec fn picker_step(p: PickerView, key: Option<Key>) -> PickerStep {
    match key {
        Some(Key::Esc) => PickerStep::Cancelled,
        Some(Key::Backspace) => PickerStep::Updated,
        Some(k) => match letter_of(k) {
            Some(ch) => match resolved(p.hints, p.prefix.push(ch)) {
                Some(i) => PickerStep::Chosen(i as usize),
                None => PickerStep::Updated,
            },
            None => PickerStep::Ignored,
        },
        None => PickerStep::Ignored,
    }
}

impl Picker {
    /// An overlay with these hints and nothing typed.
    pub fn new(hints: Vec<String>) -> (r: Picker)
        ensures
            r@ == (PickerView { hints: views(hints@), prefix: Seq::empty() }),
    {
        let prefix = String::new();
        assert(prefix@ =~= Seq::empty());
        Picker { hints, prefix }
    }

    /// Which chips are shown: those whose hint begins with what has been typed.
    pub fn visible(&self) -> (r: Vec<bool>)
        ensures
            r@ == shown_chips(self@),
    {
        let mut out: Vec<bool> = Vec::new();
        let mut i: usize = 0;
        while i < self.hints.len()
            invariant
                i <= self.hints@.len(),
                out@ =~= shown_chips(self@).take(i as int),
            decreases self.hints@.len() - i,
        {
            let shown = starts_with(self.hints[i].as_str(), self.prefix.as_str());
            assert(self@.hints[i as int] == self.hints@[i as int]@);
            out.push(shown);
            assert(shown_chips(self@).take(i + 1) =~= shown_chips(self@).take(i as int).push(shown));
            i = i + 1;
        }
        assert(shown_chips(self@).take(self.hints@.len() as int) =~= shown_chips(self@));
        out
    }

    /// One key press while the overlay is up; `None` is a key that is not in the
    /// key table.
    pub fn press(&mut self, key: Option<Key>) -> (r: PickerStep)
        ensures
            final(self)@ == picker_after(old(self)@, key),
            r == picker_step(old(self)@, key),
    {
        match key {
            None => PickerStep::Ignored,
            Some(k) => {
                if k == Key::Esc {
                    PickerStep::Cancelled
                } else if k == Key::Backspace {
                    let _gone = self.prefix.pop();
                    PickerStep::Updated
                } else {
                    match key_to_hint_char(k) {
                        Some(ch) => match advance(self.hints.as_slice(), &mut self.prefix, ch) {
                            HintMatch::Done(i) => PickerStep::Chosen(i),
                            HintMatch::Pending => PickerStep::Updated,
                        },
                        None => PickerStep::Ignored,
                    }
                }
            },
        }
    }
}

// === Laws ===

/// Typing a character that some hint still allows and then un-typing it leaves the
/// overlay as it was.
pub proof fn backspace_undoes_a_hint_character(p: PickerView, key: Key)
    requires
        letter_of(key) is Some,
        crate::hints::any_hit(p.hints, p.prefix.push(letter_of(key)->0)),
    ensures
        picker_after(picker_after(p, Some(key)), Some(Key::Backspace)) == p,
{
    let typed = picker_after(p, Some(key));
    assert(typed.prefix.drop_last() =~= p.prefix);
}

/// A character that no hint allows is ignored.
pub proof fn foreign_characters_are_ignored(p: PickerView, key: Key)
    requires
        letter_of(key) is Some,
        !crate::hints::any_hit(p.hints, p.prefix.push(letter_of(key)->0)),
    ensures
        picker_after(p, Some(key)) == p,
        picker_step(p, Some(key)) == PickerStep::Updated,
{
    let typed = p.prefix.push(letter_of(key)->0);
    assert forall|k: int| !crate::hints::sole_hit(p.hints, typed, k) by {
        if crate::hints::sole_hit(p.hints, typed, k) {
            assert(crate::hints::hit(p.hints, typed, k));
        }
    }
}

} // verus!
