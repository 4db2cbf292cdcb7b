//! What the overlays show and choose, told by what is typed and by where the chips stand.

use crate::element::{
    distinct_chars, duplicates, kept_of, label_text, refiltered, session_action, session_after,
    text_at, Element, HintAction, HintView, SessionView,
};
use crate::geometry::rect_fits;
use crate::hints::{
    chip_spot, every_hint_can_be_typed, first_free, hint_capacity, hint_length, hint_text,
    letter_of, overlap, resolved, slot_free, slots_above, slots_below, sole_hit, HINT_KEYS,
};
use crate::key::{names_are_distinct, Key};
use crate::picker::{
    bytes_of, centred, chip_lines, chips_placed, picker_after, picker_step, shown_chips, target_of,
    targets_of, title_of, PickerStep, PickerView, WindowFacts,
};
use crate::rect::{holds_point, ints};
use crate::text::{is_alphanumeric, listed, lowercase, trim};
use crate::title::{
    covers, leading_run, long_words, run_has, segments, segments_from, separator_at, title_split,
    tokens, trailing_run, words,
};
use crate::wmprops::{class_text, name_text};
use vstd::prelude::*;

verus! {

// === Hints ===

/// Where the home row reaches, each hint is one of its keys, in the order of the row.
pub proof fn few_hints_are_home_row_keys(count: nat, k: nat)
    requires
        k < count <= 9,
    ensures
        hint_text(k, hint_length(count)) == seq![seq![
            'a',
            's',
            'd',
            'f',
            'g',
            'h',
            'j',
            'k',
            'l',
        ][k as int]],
{
    reveal_with_fuel(hint_text, 2);
    assert(k / 26 == 0 && k % 26 == k);
    assert(hint_text(k, 1) =~= seq![HINT_KEYS@[k as int]]);
}

/// Hints count up with their last character fastest: the one number `26 * q + r` is that
/// of number `q`, one shorter, with the character number `r` behind it.
pub proof fn hints_count_up(q: nat, r: nat, length: nat)
    requires
        r < 26,
    ensures
        hint_text(26 * q + r, length + 1) == hint_text(q, length).push(HINT_KEYS@[r as int]),
        hint_text(q, length).len() == length,
    decreases length,
{
    assert((26 * q + r) / 26 == q && (26 * q + r) % 26 == r);
    if length > 0 {
        hints_count_up(q / 26, 0, (length - 1) as nat);
    }
}

/// Hints are as short as they can be: there are enough of their length, and there would
/// not be enough of any shorter one.
pub proof fn hints_are_as_short_as_can_be(count: nat)
    ensures
        count <= hint_capacity(hint_length(count)),
        hint_length(count) >= 1,
        hint_length(count) > 1 ==> hint_capacity((hint_length(count) - 1) as nat) < count,
        hint_capacity(0) == 1,
        forall|length: nat| #[trigger] hint_capacity(length + 1) == 26 * hint_capacity(length),
    decreases count,
{
    reveal_with_fuel(hint_capacity, 3);
    if count > 26 {
        let rest = ((count - 1) / 26 + 1) as nat;
        hints_are_as_short_as_can_be(rest);
        let length = hint_length(rest);
        assert(hint_length(count) == 1 + length);
        assert(hint_capacity(1 + length) == 26 * hint_capacity(length));
        assert(26 * rest >= count);
        if length > 1 {
            assert(hint_capacity(length) == 26 * hint_capacity((length - 1) as nat));
        }
    } else {
        assert(hint_capacity(1) == 26);
    }
}

/// A key types the letter it is named by, and only the keys named by a letter type one.
pub proof fn letters_are_key_names(key: Key, c: char)
    ensures
        letter_of(key) == Some(c) <==> 'a' <= c <= 'z' && key.spec_name() == seq![c],
{
    lemma_key_names();
    if let Some(l) = letter_of(key) {
        assert(key.spec_name() =~= seq![l]);
        assert(seq![l][0] == l && seq![c][0] == c);
    }
    if 'a' <= c <= 'z' && key.spec_name() == seq![c] {
        if c == 'a' {
            names_are_distinct(key, Key::A);
        } else if c == 'b' {
            names_are_distinct(key, Key::B);
        } else if c == 'c' {
            names_are_distinct(key, Key::C);
        } else if c == 'd' {
            names_are_distinct(key, Key::D);
        } else if c == 'e' {
            names_are_distinct(key, Key::E);
        } else if c == 'f' {
            names_are_distinct(key, Key::F);
        } else if c == 'g' {
            names_are_distinct(key, Key::G);
        } else if c == 'h' {
            names_are_distinct(key, Key::H);
        } else if c == 'i' {
            names_are_distinct(key, Key::I);
        } else if c == 'j' {
            names_are_distinct(key, Key::J);
        } else if c == 'k' {
            names_are_distinct(key, Key::K);
        } else if c == 'l' {
            names_are_distinct(key, Key::L);
        } else if c == 'm' {
            names_are_distinct(key, Key::M);
        } else if c == 'n' {
            names_are_distinct(key, Key::N);
        } else if c == 'o' {
            names_are_distinct(key, Key::O);
        } else if c == 'p' {
            names_are_distinct(key, Key::P);
        } else if c == 'q' {
            names_are_distinct(key, Key::Q);
        } else if c == 'r' {
            names_are_distinct(key, Key::R);
        } else if c == 's' {
            names_are_distinct(key, Key::S);
        } else if c == 't' {
            names_are_distinct(key, Key::T);
        } else if c == 'u' {
            names_are_distinct(key, Key::U);
        } else if c == 'v' {
            names_are_distinct(key, Key::V);
        } else if c == 'w' {
            names_are_distinct(key, Key::W);
        } else if c == 'x' {
            names_are_distinct(key, Key::X);
        } else if c == 'y' {
            names_are_distinct(key, Key::Y);
        } else if c == 'z' {
            names_are_distinct(key, Key::Z);
        }
    }
}

proof fn lemma_key_names()
    ensures
        "a"@ =~= seq!['a'] && "b"@ =~= seq!['b'] && "c"@ =~= seq!['c'] && "d"@ =~= seq!['d'],
        "e"@ =~= seq!['e'] && "f"@ =~= seq!['f'] && "g"@ =~= seq!['g'] && "h"@ =~= seq!['h'],
        "i"@ =~= seq!['i'] && "j"@ =~= seq!['j'] && "k"@ =~= seq!['k'] && "l"@ =~= seq!['l'],
        "m"@ =~= seq!['m'] && "n"@ =~= seq!['n'] && "o"@ =~= seq!['o'] && "p"@ =~= seq!['p'],
        "q"@ =~= seq!['q'] && "r"@ =~= seq!['r'] && "s"@ =~= seq!['s'] && "t"@ =~= seq!['t'],
        "u"@ =~= seq!['u'] && "v"@ =~= seq!['v'] && "w"@ =~= seq!['w'] && "x"@ =~= seq!['x'],
        "y"@ =~= seq!['y'] && "z"@ =~= seq!['z'],
{
    reveal_strlit("a");
    reveal_strlit("b");
    reveal_strlit("c");
    reveal_strlit("d");
    reveal_strlit("e");
    reveal_strlit("f");
    reveal_strlit("g");
    reveal_strlit("h");
    reveal_strlit("i");
    reveal_strlit("j");
    reveal_strlit("k");
    reveal_strlit("l");
    reveal_strlit("m");
    reveal_strlit("n");
    reveal_strlit("o");
    reveal_strlit("p");
    reveal_strlit("q");
    reveal_strlit("r");
    reveal_strlit("s");
    reveal_strlit("t");
    reveal_strlit("u");
    reveal_strlit("v");
    reveal_strlit("w");
    reveal_strlit("x");
    reveal_strlit("y");
    reveal_strlit("z");
}

// === The window picker ===

/// Typing a window's hint, character by character, chooses that window: every character
/// is taken, and the last one chooses it at the latest.
pub proof fn typing_a_hint_chooses_its_window(
    hints: Seq<Seq<char>>,
    length: nat,
    i: int,
    typed: int,
    key: Key,
)
    requires
        hints.len() <= usize::MAX,
        forall|k: int| 0 <= k < hints.len() ==> (#[trigger] hints[k]).len() == length,
        forall|j: int, k: int|
            0 <= j < k < hints.len() ==> #[trigger] hints[j] != #[trigger] hints[k],
        0 <= i < hints.len(),
        0 <= typed < length,
        letter_of(key) == Some(hints[i][typed]),
    ensures
        ({
            let p = PickerView { hints, prefix: hints[i].take(typed) };
            let step = picker_step(p, Some(key));
            &&& picker_after(p, Some(key)) == (PickerView {
                hints,
                prefix: hints[i].take(typed + 1),
            })
            &&& step is Updated || step == PickerStep::Chosen(i as usize)
            &&& typed + 1 == length ==> step == PickerStep::Chosen(i as usize)
        }),
{
    every_hint_can_be_typed(hints, length, i, typed);
    let longer = hints[i].take(typed).push(hints[i][typed]);
    assert(longer =~= hints[i].take(typed + 1));
    assert(longer.is_prefix_of(hints[i]));
    if resolved(hints, longer) is Some {
        let k = choose|k: int| sole_hit(hints, longer, k);
        assert(crate::hints::hit(hints, longer, i));
        assert(k == i);
    }
}

/// A window is chosen only by a letter after which its hint, and no other, begins with
/// what is typed; `Esc` cancels, and a key that types nothing changes nothing.
pub proof fn only_the_typed_window_is_chosen(p: PickerView, key: Key)
    requires
        p.hints.len() <= usize::MAX,
    ensures
        picker_step(p, Some(key)) matches PickerStep::Chosen(i) ==> {
            &&& letter_of(key) is Some
            &&& i < p.hints.len()
            &&& p.prefix.push(letter_of(key)->0).is_prefix_of(p.hints[i as int])
            &&& forall|j: int|
                0 <= j < p.hints.len() && j != i ==> !p.prefix.push(
                    letter_of(key)->0,
                ).is_prefix_of(#[trigger] p.hints[j])
        },
        picker_step(p, Some(Key::Esc)) is Cancelled,
        picker_after(p, Some(Key::Esc)) == p,
        picker_step(p, None) is Ignored && picker_after(p, None) == p,
        letter_of(key) is None && key != Key::Esc && key != Key::Backspace ==> picker_step(
            p,
            Some(key),
        ) is Ignored && picker_after(p, Some(key)) == p,
        picker_step(p, Some(Key::Backspace)) is Updated,
        picker_after(p, Some(Key::Backspace)).prefix == (if p.prefix.len() > 0 {
            p.prefix.drop_last()
        } else {
            p.prefix
        }),
{
    if let Some(ch) = letter_of(key) {
        let longer = p.prefix.push(ch);
        if resolved(p.hints, longer) is Some {
            let k = choose|k: int| sole_hit(p.hints, longer, k);
            assert forall|j: int| 0 <= j < p.hints.len() && j != k implies !longer.is_prefix_of(
                #[trigger] p.hints[j],
            ) by {
                assert(!crate::hints::hit(p.hints, longer, j));
            }
        }
    }
}

/// A chip is shown exactly while its hint begins with what is typed.
pub proof fn chips_show_while_they_can_be_typed(p: PickerView, i: int)
    requires
        0 <= i < p.hints.len(),
    ensures
        shown_chips(p).len() == p.hints.len(),
        shown_chips(p)[i] <==> p.prefix.len() <= p.hints[i].len() && p.hints[i].take(
            p.prefix.len() as int,
        ) == p.prefix,
{
    if p.prefix.is_prefix_of(p.hints[i]) {
        assert(p.hints[i].take(p.prefix.len() as int) =~= p.prefix);
    }
}

/// A window is a target exactly if it is on the desktop and its place is known; its chip
/// belongs in the middle of it, and is labelled by its title and its class.
pub proof fn windows_of_the_desktop_are_targets(f: WindowFacts, desktop: u32)
    ensures
        target_of(f, desktop) is Some <==> f.desktop == Some(desktop) && f.origin is Some
            && f.size is Some,
        target_of(f, desktop) matches Some(t) ==> {
            let (x, y) = f.origin->Some_0;
            let (w, h) = f.size->Some_0;
            &&& t.win == f.win
            &&& 0 <= w - 2 * (t.center.0 - x) <= 1
            &&& 0 <= h - 2 * (t.center.1 - y) <= 1
            &&& (t.label, t.rest) == chip_lines(
                title_of(bytes_of(f.net_name), bytes_of(f.name)),
                match f.class {
                    Some(b) => class_text(b@),
                    None => Seq::empty(),
                },
            )
        },
{
}

/// A title is the modern one where that says anything, else the old one, else empty.
pub proof fn titles_prefer_the_modern_name(net_name: Option<Seq<u8>>, name: Option<Seq<u8>>)
    ensures
        net_name matches Some(b) && name_text(b).len() > 0 ==> title_of(net_name, name)
            == name_text(net_name->0),
        !(net_name matches Some(b) && name_text(b).len() > 0) && name is Some ==> title_of(
            net_name,
            name,
        ) == name_text(name->0),
        !(net_name matches Some(b) && name_text(b).len() > 0) && name is None ==> title_of(
            net_name,
            name,
        ).len() == 0,
{
}

/// The targets are those of the windows, in order.
pub proof fn targets_come_in_order(a: Seq<WindowFacts>, b: Seq<WindowFacts>, f: WindowFacts, desktop: u32)
    ensures
        targets_of(a + b, desktop) == targets_of(a, desktop) + targets_of(b, desktop),
        targets_of(seq![f], desktop) == (match target_of(f, desktop) {
            Some(t) => seq![t],
            None => Seq::empty(),
        }),
    decreases b.len(),
{
    let one = seq![f];
    assert(one.drop_last() =~= Seq::empty());
    reveal_with_fuel(targets_of, 2);
    assert(targets_of(one, desktop) =~= (match target_of(f, desktop) {
        Some(t) => seq![t],
        None => Seq::empty(),
    }));
    if b.len() == 0 {
        assert(a + b =~= a);
    } else {
        targets_come_in_order(a, b.drop_last(), f, desktop);
        assert((a + b).drop_last() =~= a + b.drop_last());
        assert((a + b).last() == b.last());
    }
    assert(targets_of(a + b, desktop) =~= targets_of(a, desktop) + targets_of(b, desktop));
}

// === Chips ===

/// A chip's middle is the point it belongs to, but for half a pixel.
pub proof fn chips_are_centred(center: (i32, i32), size: (u16, u16))
    ensures
        0 <= 2 * centred(center, size).0 + size.0 - 2 * center.0 <= 1,
        0 <= 2 * centred(center, size).1 + size.1 - 2 * center.1 <= 1,
{
}

/// Two chips overlap exactly if some point lies in both.
pub proof fn overlapping_chips_share_a_point(a: (int, int, int, int), b: (int, int, int, int))
    requires
        a.2 > 0 && a.3 > 0 && b.2 > 0 && b.3 > 0,
    ensures
        overlap(a, b) <==> exists|x: int, y: int|
            holds_point(a, x, y) && #[trigger] holds_point(b, x, y),
{
    let x = if a.0 >= b.0 {
        a.0
    } else {
        b.0
    };
    let y = if a.1 >= b.1 {
        a.1
    } else {
        b.1
    };
    if overlap(a, b) {
        assert(holds_point(a, x, y) && holds_point(b, x, y));
    }
}

/// A chip stands just where it is wanted if that is on the screen and free; else it keeps
/// its column, and takes the next place below, a gap of four pixels away, if that is on the
/// screen and free.
pub proof fn chips_stand_where_wanted(
    desired: (int, int),
    size: (int, int),
    placed: Seq<(i32, i32, i32, i32)>,
    screen: (int, int),
)
    requires
        0 < size.0 && 0 < size.1,
        0 <= desired.0 <= screen.0 - size.0,
        0 <= desired.1 <= screen.1 - size.1,
    ensures
        chip_spot(desired, size, placed, screen).0 == desired.0,
        slot_free(placed, (desired.0, desired.1, size.0, size.1)) ==> chip_spot(
            desired,
            size,
            placed,
            screen,
        ) == desired,
        ({
            let below = desired.1 + size.1 + 4;
            !slot_free(placed, (desired.0, desired.1, size.0, size.1)) && below <= screen.1
                - size.1 && slot_free(placed, (desired.0, below, size.0, size.1)) ==> chip_spot(
                desired,
                size,
                placed,
                screen,
            ) == (desired.0, below)
        }),
{
    let step = size.1 + 4;
    let below = slots_below(desired.1, step, screen.1 - size.1);
    let slots = seq![desired.1] + below + slots_above(desired.1, step);
    assert(slots[0] == desired.1);
    reveal_with_fuel(first_free, 3);
    if desired.1 + step <= screen.1 - size.1 {
        assert(below[0] == desired.1 + step);
        assert(slots.drop_first()[0] == slots[1]);
        assert(slots[1] == desired.1 + step);
    }
}

/// The place above is taken only where nothing below is left: a chip that no place below
/// fits goes a gap of four pixels above, if that is on the screen and free.
pub proof fn chips_go_above_when_nothing_is_below(
    desired: (int, int),
    size: (int, int),
    placed: Seq<(i32, i32, i32, i32)>,
    screen: (int, int),
)
    requires
        0 < size.0 && 0 < size.1,
        0 <= desired.0 <= screen.0 - size.0,
        0 <= desired.1 <= screen.1 - size.1,
        !slot_free(placed, (desired.0, desired.1, size.0, size.1)),
        desired.1 + size.1 + 4 > screen.1 - size.1,
        desired.1 - size.1 - 4 >= 0,
        slot_free(placed, (desired.0, desired.1 - size.1 - 4, size.0, size.1)),
    ensures
        chip_spot(desired, size, placed, screen) == (desired.0, desired.1 - size.1 - 4),
{
    let step = size.1 + 4;
    let below = slots_below(desired.1, step, screen.1 - size.1);
    let above = slots_above(desired.1, step);
    let slots = seq![desired.1] + below + above;
    assert(below =~= Seq::empty());
    assert(above[0] == desired.1 - step);
    assert(slots[0] == desired.1 && slots[1] == desired.1 - step);
    reveal_with_fuel(first_free, 3);
    assert(slots.drop_first()[0] == slots[1]);
}

/// Chips are placed one after the other: those placed stay, and each has its own size.
pub proof fn placed_chips_stay(
    desired: Seq<(i32, i32)>,
    sizes: Seq<(i32, i32)>,
    screen: (i32, i32),
    n: nat,
)
    ensures
        chips_placed(desired, sizes, screen, n).len() == n,
        n > 0 ==> chips_placed(desired, sizes, screen, n).drop_last() == chips_placed(
            desired,
            sizes,
            screen,
            (n - 1) as nat,
        ),
        n > 0 ==> chips_placed(desired, sizes, screen, n).last().2 == sizes[n - 1].0,
        n > 0 ==> chips_placed(desired, sizes, screen, n).last().3 == sizes[n - 1].1,
    decreases n,
{
    if n > 0 {
        placed_chips_stay(desired, sizes, screen, (n - 1) as nat);
        assert(chips_placed(desired, sizes, screen, n).drop_last() =~= chips_placed(
            desired,
            sizes,
            screen,
            (n - 1) as nat,
        ));
    }
}

/// The numbers of a list of rectangles, as they are stored.
pub open spec fn stored(rects: Seq<(int, int, int, int)>) -> Seq<(i32, i32, i32, i32)> {
    rects.map_values(|r: (int, int, int, int)| (r.0 as i32, r.1 as i32, r.2 as i32, r.3 as i32))
}

/// A rectangle overlaps none of those before it.
pub open spec fn clear_of(
    rects: Seq<(int, int, int, int)>,
    chip: (int, int, int, int),
) -> bool {
    forall|i: int| 0 <= i < rects.len() ==> !overlap(#[trigger] rects[i], chip)
}

/// Each chip makes way for those placed before it: it stands just where it is wanted if it
/// is clear of them there, and else in the next place below if it is clear of them there.
pub proof fn chips_make_way_for_those_before(
    desired: Seq<(i32, i32)>,
    sizes: Seq<(i32, i32)>,
    screen: (i32, i32),
    n: nat,
)
    requires
        n > 0,
        ({
            let (w, h) = sizes[n - 1];
            let (x, y) = desired[n - 1];
            &&& 0 < w && 0 < h
            &&& 0 <= x <= screen.0 - w
            &&& 0 <= y <= screen.1 - h
        }),
        forall|i: int|
            0 <= i < n - 1 ==> rect_fits(
                #[trigger] chips_placed(desired, sizes, screen, (n - 1) as nat)[i],
            ),
    ensures
        ({
            let before = chips_placed(desired, sizes, screen, (n - 1) as nat);
            let chip = chips_placed(desired, sizes, screen, n).last();
            let (w, h) = (sizes[n - 1].0 as int, sizes[n - 1].1 as int);
            let (x, y) = (desired[n - 1].0 as int, desired[n - 1].1 as int);
            let below = y + h + 4;
            &&& chip.0 == x && chip.2 == w && chip.3 == h
            &&& clear_of(before, (x, y, w, h)) ==> chip == (x, y, w, h)
            &&& !clear_of(before, (x, y, w, h)) && below <= screen.1 - h && clear_of(
                before,
                (x, below, w, h),
            ) ==> chip == (x, below, w, h)
        }),
{
    let before = chips_placed(desired, sizes, screen, (n - 1) as nat);
    let (w, h) = (sizes[n - 1].0 as int, sizes[n - 1].1 as int);
    let (x, y) = (desired[n - 1].0 as int, desired[n - 1].1 as int);
    placed_chips_stay(desired, sizes, screen, (n - 1) as nat);
    lemma_clear(before, (x, y, w, h));
    lemma_clear(before, (x, y + h + 4, w, h));
    chips_stand_where_wanted(
        (x, y),
        (w, h),
        stored(before),
        (screen.0 as int, screen.1 as int),
    );
}

proof fn lemma_clear(rects: Seq<(int, int, int, int)>, chip: (int, int, int, int))
    requires
        forall|i: int| 0 <= i < rects.len() ==> rect_fits(#[trigger] rects[i]),
    ensures
        slot_free(stored(rects), chip) <==> clear_of(rects, chip),
{
    let kept = stored(rects);
    assert forall|i: int| 0 <= i < rects.len() implies ints(#[trigger] kept[i]) == rects[i] by {
        assert(rect_fits(rects[i]));
    }
    if slot_free(kept, chip) {
        assert forall|i: int| 0 <= i < rects.len() implies !overlap(#[trigger] rects[i], chip) by {
            assert(ints(kept[i]) == rects[i]);
        }
    }
}

// === Elements ===

/// An element that lies in another duplicates it, and so does one that half lies in it;
/// one that shares no point with it does not, and one without area never does.
pub proof fn duplicates_are_covered(a: Element, b: Element)
    ensures
        a.width > 0 && a.height > 0 && b.x <= a.x && a.x + a.width <= b.x + b.width && b.y <= a.y
            && a.y + a.height <= b.y + b.height ==> duplicates(a, b),
        a.width > 0 && a.height > 0 && b.x <= a.x && a.x + a.width <= b.x + b.width && b.y <= a.y
            && a.y < b.y + b.height <= a.y + a.height ==> (duplicates(a, b) <==> 2 * (b.y + b.height
            - a.y) >= a.height),
        a.x + a.width <= b.x || b.x + b.width <= a.x || a.y + a.height <= b.y || b.y + b.height
            <= a.y ==> !duplicates(a, b),
        a.width * a.height <= 0 ==> !duplicates(a, b),
{
    let (w, h) = (a.width as int, a.height as int);
    if w > 0 && h > 0 {
        assert(w * h > 0) by (nonlinear_arith)
            requires
                w > 0,
                h > 0,
        ;
    }
    let p = b.y + b.height - a.y;
    if w > 0 && 0 < p <= h {
        assert((w * p) * 2 >= w * h <==> 2 * p >= h) by (nonlinear_arith)
            requires
                w > 0,
        ;
    }
}

/// Elements are kept in order, and what is kept does not depend on what comes later.
pub proof fn kept_elements_stay(a: Seq<Element>, b: Seq<Element>)
    ensures
        kept_of(a).is_prefix_of(kept_of(a + b)),
    decreases b.len(),
{
    if b.len() == 0 {
        assert(a + b =~= a);
    } else {
        kept_elements_stay(a, b.drop_last());
        assert((a + b).drop_last() =~= a + b.drop_last());
        assert((a + b).last() == b.last());
    }
}

/// The characters that labels are made of are those of the pool, each once, in the order
/// in which they come there first.
pub proof fn label_characters_are_the_pools(a: Seq<char>, b: Seq<char>, c: char)
    ensures
        distinct_chars(a).contains(c) <==> a.contains(c),
        distinct_chars(a).no_duplicates(),
        distinct_chars(a).is_prefix_of(distinct_chars(a + b)),
        a.no_duplicates() ==> distinct_chars(a) == a,
    decreases a.len() + b.len(),
{
    if b.len() > 0 {
        label_characters_are_the_pools(a, b.drop_last(), c);
        assert((a + b).drop_last() =~= a + b.drop_last());
        assert((a + b).last() == b.last());
    } else {
        assert(a + b =~= a);
        if a.len() > 0 {
            let init = a.drop_last();
            let last = a.last();
            let none = Seq::<char>::empty();
            label_characters_are_the_pools(init, none, c);
            label_characters_are_the_pools(init, none, last);
            let before = distinct_chars(init);
            let all = distinct_chars(a);
            assert(a[a.len() - 1] == last);
            assert(a.contains(c) <==> init.contains(c) || c == last) by {
                if a.contains(c) {
                    let i = choose|i: int| 0 <= i < a.len() && a[i] == c;
                    if i < init.len() {
                        assert(init[i] == c);
                    }
                }
                if init.contains(c) {
                    let i = choose|i: int| 0 <= i < init.len() && init[i] == c;
                    assert(a[i] == c);
                }
            }
            if !before.contains(last) {
                assert(all == before.push(last));
                assert(all[all.len() - 1] == last);
                assert(all.contains(c) <==> before.contains(c) || c == last) by {
                    if all.contains(c) {
                        let i = choose|i: int| 0 <= i < all.len() && all[i] == c;
                        if i < before.len() {
                            assert(before[i] == c);
                        }
                    }
                    if before.contains(c) {
                        let i = choose|i: int| 0 <= i < before.len() && before[i] == c;
                        assert(all[i] == c);
                    }
                }
            }
            if a.no_duplicates() {
                assert(init.no_duplicates()) by {
                    assert forall|i: int, j: int|
                        0 <= i < init.len() && 0 <= j < init.len() && i != j implies init[i]
                        != init[j] by {
                        assert(a[i] != a[j]);
                    }
                }
                assert(!init.contains(last)) by {
                    if init.contains(last) {
                        let i = choose|i: int| 0 <= i < init.len() && init[i] == last;
                        assert(a[i] != a[a.len() - 1]);
                    }
                }
                assert(init.push(last) =~= a);
            }
        }
    }
}

/// Labels count up with their last character fastest, and where there are characters
/// enough each label is one of them, in order.
pub proof fn labels_count_up(i: nat, n: nat, pool: Seq<char>, q: nat, r: nat, length: nat)
    requires
        r < pool.len(),
    ensures
        text_at(q * pool.len() + r, length + 1, pool) == text_at(q, length, pool).push(
            pool[r as int],
        ),
        i < n <= distinct_chars(pool).len() && n > 1 ==> label_text(i, n, pool) == seq![
            distinct_chars(pool)[i as int],
        ],
{
    let p = pool.len() as int;
    vstd::arithmetic::div_mod::lemma_fundamental_div_mod_converse(q * p + r, p, q as int, r as int);
    assert(q * pool.len() == q * p);
    assert((q * pool.len() + r) / pool.len() == q);
    assert((q * pool.len() + r) % pool.len() == r);
    let own = distinct_chars(pool);
    if i < n <= own.len() && n > 1 {
        let m = own.len() as int;
        vstd::arithmetic::div_mod::lemma_fundamental_div_mod_converse(i as int, m, 0, i as int);
        reveal_with_fuel(text_at, 2);
        assert(text_at(i, 1, own) =~= seq![own[i as int]]);
    }
}

/// A hint is marked exactly while its label begins with what is typed, and marking changes
/// neither its label nor its element.
pub proof fn hints_are_marked_while_they_can_be_typed(
    hints: Seq<HintView>,
    prefix: Seq<char>,
    i: int,
)
    requires
        0 <= i < hints.len(),
    ensures
        refiltered(hints, prefix).len() == hints.len(),
        refiltered(hints, prefix)[i].label == hints[i].label,
        refiltered(hints, prefix)[i].element == hints[i].element,
        refiltered(hints, prefix)[i].matched <==> prefix.len() <= hints[i].label.len()
            && hints[i].label.take(prefix.len() as int) == prefix,
{
    if prefix.is_prefix_of(hints[i].label) {
        assert(hints[i].label.take(prefix.len() as int) =~= prefix);
    }
}

/// An element is activated only by a letter after which its label, and no other, begins
/// with what is typed; `Esc` dismisses, Backspace never activates, and a key that types
/// nothing is held back and changes nothing.
pub proof fn only_the_typed_element_is_activated(s: SessionView, key: Key)
    ensures
        session_action(s, key) matches HintAction::Activate(e) ==> {
            &&& letter_of(key) is Some
            &&& exists|i: int|
                {
                    let typed = s.prefix.push(letter_of(key)->0);
                    &&& 0 <= i < s.hints.len()
                    &&& #[trigger] s.hints[i].element == e
                    &&& typed.is_prefix_of(s.hints[i].label)
                    &&& forall|j: int|
                        0 <= j < s.hints.len() && typed.is_prefix_of(
                            (#[trigger] s.hints[j]).label,
                        ) ==> j == i
                }
        },
        session_action(s, Key::Esc) is Dismiss,
        session_after(s, Key::Esc) == s,
        session_action(s, Key::Backspace) is Updated,
        letter_of(key) is None && key != Key::Esc && key != Key::Backspace ==> session_action(
            s,
            key,
        ) is Suppressed && session_after(s, key) == s,
{
    if session_action(s, key) is Activate {
        let after = session_after(s, key).hints;
        let i = choose|i: int| crate::element::sole_match(after, i);
        let typed = s.prefix.push(letter_of(key)->0);
        assert(crate::element::sole_match(after, i));
        assert(after[i].matched && after[i].element == s.hints[i].element);
        assert forall|j: int| 0 <= j < s.hints.len() && typed.is_prefix_of(
            (#[trigger] s.hints[j]).label,
        ) implies j == i by {
            assert(after[j].matched);
        }
    }
}

// === Titles ===

/// A chip is labelled by the name found in the title, or by the class where none is found.
pub proof fn chips_are_labelled_by_name_or_class(title: Seq<char>, app: Seq<char>)
    ensures
        chip_lines(title, app).1 == title_split(title, app).1,
        title_split(title, app).0.len() > 0 ==> chip_lines(title, app).0 == title_split(
            title,
            app,
        ).0,
        title_split(title, app).0.len() == 0 ==> chip_lines(title, app).0 == app,
{
}

/// What is not a letter or a digit parts the words of a text; a text of letters and digits
/// alone is one word. A word of two characters or more counts, in lower case.
pub proof fn words_are_parted_by_what_is_no_letter(a: Seq<char>, c: char, b: Seq<char>)
    ensures
        !is_alphanumeric(c) ==> tokens(a + seq![c] + b) == tokens(a) + tokens(b),
        (forall|i: int| 0 <= i < a.len() ==> is_alphanumeric(#[trigger] a[i])) ==> tokens(a) == (
        if a.len() >= 2 {
            seq![lowercase(a)]
        } else {
            Seq::empty()
        }),
{
    if !is_alphanumeric(c) {
        lemma_words_parted(a, c, b);
        lemma_long_words_concat(words(a), words(b));
    }
    if forall|i: int| 0 <= i < a.len() ==> is_alphanumeric(#[trigger] a[i]) {
        lemma_one_word(a);
        let one = seq![a];
        reveal_with_fuel(long_words, 2);
        assert(one.drop_last() =~= Seq::empty());
        assert(long_words(one) =~= (if a.len() >= 2 {
            seq![lowercase(a)]
        } else {
            Seq::empty()
        }));
    }
}

proof fn lemma_words_nonempty(s: Seq<char>)
    ensures
        words(s).len() >= 1,
    decreases s.len(),
{
    if s.len() > 0 {
        lemma_words_nonempty(s.drop_last());
    }
}

proof fn lemma_words_parted(a: Seq<char>, c: char, b: Seq<char>)
    requires
        !is_alphanumeric(c),
    ensures
        words(a + seq![c] + b) == words(a) + words(b),
    decreases b.len(),
{
    let s = a + seq![c] + b;
    if b.len() == 0 {
        assert(s =~= a.push(c));
        assert(s.drop_last() =~= a);
        assert(words(s) =~= words(a) + words(b));
    } else {
        let init = b.drop_last();
        assert(s.drop_last() =~= a + seq![c] + init);
        assert(s.last() == b.last());
        lemma_words_parted(a, c, init);
        lemma_words_nonempty(init);
        let before = words(a) + words(init);
        assert(before.last() == words(init).last());
        assert(before.drop_last() =~= words(a) + words(init).drop_last());
        assert(words(s) =~= words(a) + words(b));
    }
}

proof fn lemma_one_word(s: Seq<char>)
    requires
        forall|i: int| 0 <= i < s.len() ==> is_alphanumeric(#[trigger] s[i]),
    ensures
        words(s) == seq![s],
    decreases s.len(),
{
    if s.len() == 0 {
        assert(s =~= Seq::empty());
    } else {
        let init = s.drop_last();
        assert forall|i: int| 0 <= i < init.len() implies is_alphanumeric(#[trigger] init[i]) by {
            assert(init[i] == s[i]);
        }
        lemma_one_word(init);
        assert(is_alphanumeric(s[s.len() - 1]));
        assert(init.push(s.last()) =~= s);
        assert(words(s) =~= seq![s]);
    }
}

proof fn lemma_long_words_concat(a: Seq<Seq<char>>, b: Seq<Seq<char>>)
    ensures
        long_words(a + b) == long_words(a) + long_words(b),
    decreases b.len(),
{
    if b.len() == 0 {
        assert(a + b =~= a);
    } else {
        assert((a + b).drop_last() =~= a + b.drop_last());
        assert((a + b).last() == b.last());
        lemma_long_words_concat(a, b.drop_last());
    }
    assert(long_words(a + b) =~= long_words(a) + long_words(b));
}

proof fn lemma_no_separators(t: Seq<char>, start: int, i: int, j: int)
    requires
        0 <= i <= j <= t.len(),
        forall|k: int| i <= k < j ==> !#[trigger] separator_at(t, k),
    ensures
        segments_from(t, start, i) == segments_from(t, start, j),
    decreases j - i,
{
    if i < j {
        assert(!separator_at(t, i));
        lemma_no_separators(t, start, i + 1, j);
    }
}

proof fn lemma_two_segments(t: Seq<char>, at: int)
    requires
        separator_at(t, at),
        forall|k: int| #[trigger] separator_at(t, k) ==> k == at,
    ensures
        segments(t) == seq![(0, at), (at + 3, t.len() as int)],
{
    lemma_no_separators(t, 0, 0, at);
    lemma_no_separators(t, at + 3, at + 3, t.len() as int);
    assert(segments_from(t, at + 3, t.len() as int) =~= seq![(at + 3, t.len() as int)]);
    assert(segments(t) =~= seq![(0, at), (at + 3, t.len() as int)]);
}

proof fn lemma_one_covers(t: Seq<char>, range: (int, int), app: Seq<Seq<char>>)
    ensures
        covers(t, seq![range], app) <==> forall|k: int|
            0 <= k < app.len() ==> listed(tokens(t.subrange(range.0, range.1)), #[trigger] app[k]),
{
    let run = seq![range];
    assert forall|k: int| 0 <= k < app.len() implies (run_has(t, run, #[trigger] app[k]) <==> listed(
        tokens(t.subrange(range.0, range.1)),
        app[k],
    )) by {
        if listed(tokens(t.subrange(range.0, range.1)), app[k]) {
            assert(run[0] == range);
            assert(run_has(t, run, app[k]));
        }
    }
}

/// A title that ends in a separator and the application's name is split into that name and
/// what comes before it.
pub proof fn names_behind_a_separator_are_found(title: Seq<char>, app: Seq<char>, at: int)
    requires
        ({
            let t = trim(title);
            &&& separator_at(t, at)
            &&& forall|k: int| #[trigger] separator_at(t, k) ==> k == at
            &&& t.skip(at + 3) == app
        }),
        tokens(app).len() > 0,
    ensures
        title_split(title, app) == (trim(app), trim(trim(title).take(at))),
{
    let t = trim(title);
    let ranges = segments(t);
    let wanted = tokens(app);
    lemma_two_segments(t, at);
    assert(ranges.skip(1) =~= seq![(at + 3, t.len() as int)]);
    assert(t.subrange(at + 3, t.len() as int) =~= app);
    lemma_one_covers(t, (at + 3, t.len() as int), wanted);
    assert(covers(t, ranges.skip(1), wanted));
    assert(trailing_run(t, ranges, wanted, 1) == Some(1int));
}

/// A title that begins with the application's name and a separator is split into that name
/// and what comes behind it, unless what comes behind says the name as well.
pub proof fn names_before_a_separator_are_found(title: Seq<char>, app: Seq<char>, at: int)
    requires
        ({
            let t = trim(title);
            &&& separator_at(t, at)
            &&& forall|k: int| #[trigger] separator_at(t, k) ==> k == at
            &&& t.take(at) == app
            &&& exists|k: int|
                0 <= k < tokens(app).len() && !listed(
                    tokens(t.skip(at + 3)),
                    #[trigger] tokens(app)[k],
                )
        }),
    ensures
        title_split(title, app) == (trim(app), trim(trim(title).skip(at + 3))),
{
    let t = trim(title);
    let ranges = segments(t);
    let wanted = tokens(app);
    lemma_two_segments(t, at);
    assert(ranges.skip(1) =~= seq![(at + 3, t.len() as int)]);
    assert(t.subrange(at + 3, t.len() as int) =~= t.skip(at + 3));
    lemma_one_covers(t, (at + 3, t.len() as int), wanted);
    assert(!covers(t, ranges.skip(1), wanted));
    reveal_with_fuel(trailing_run, 3);
    assert(trailing_run(t, ranges, wanted, 1) is None);
    assert(ranges.take(1) =~= seq![(0int, at)]);
    assert(t.subrange(0, at) =~= app);
    lemma_one_covers(t, (0, at), wanted);
    assert(covers(t, ranges.take(1), wanted));
    assert(leading_run(t, ranges, wanted, 1) == Some(1int));
}

/// A separator is a dash, a bar or a dot between two blanks.
pub proof fn separators_stand_between_blanks(a: Seq<char>, c: char, b: Seq<char>)
    ensures
        separator_at(a + seq![' ', c, ' '] + b, a.len() as int) <==> c == '-' || c == '|' || c
            == '\u{2013}' || c == '\u{2014}' || c == '\u{b7}',
{
    let t = a + seq![' ', c, ' '] + b;
    let i = a.len() as int;
    assert(t[i] == ' ' && t[i + 1] == c && t[i + 2] == ' ');
}

/// The components of a title lie one behind the other from its beginning to its end, with a
/// separator between each two.
pub proof fn components_lie_between_separators(t: Seq<char>, start: int, i: int)
    requires
        0 <= start <= i <= t.len(),
    ensures
        ({
            let ranges = segments_from(t, start, i);
            &&& ranges.len() > 0
            &&& ranges[0].0 == start
            &&& ranges.last().1 == t.len()
            &&& forall|k: int|
                0 <= k < ranges.len() - 1 ==> separator_at(t, (#[trigger] ranges[k]).1) && ranges[k
                    + 1].0 == ranges[k].1 + 3
            &&& forall|k: int| 0 <= k < ranges.len() ==> (#[trigger] ranges[k]).0 <= ranges[k].1
        }),
    decreases t.len() - i,
{
    if i < t.len() {
        if separator_at(t, i) {
            components_lie_between_separators(t, i + 3, i + 3);
            let rest = segments_from(t, i + 3, i + 3);
            let ranges = segments_from(t, start, i);
            assert(ranges == seq![(start, i)] + rest);
            assert forall|k: int| 0 <= k < ranges.len() - 1 implies separator_at(
                t,
                (#[trigger] ranges[k]).1,
            ) && ranges[k + 1].0 == ranges[k].1 + 3 by {
                if k > 0 {
                    assert(ranges[k] == rest[k - 1]);
                    assert(ranges[k + 1] == rest[k]);
                } else {
                    assert(ranges[1] == rest[0]);
                }
            }
            assert forall|k: int| 0 <= k < ranges.len() implies (#[trigger] ranges[k]).0
                <= ranges[k].1 by {
                if k > 0 {
                    assert(ranges[k] == rest[k - 1]);
                }
            }
            assert(ranges.last() == rest.last());
        } else {
            components_lie_between_separators(t, start, i + 1);
            assert(segments_from(t, start, i) == segments_from(t, start, i + 1));
        }
    } else {
        assert(segments_from(t, start, i) == seq![(start, t.len() as int)]);
    }
}

/// Every token of a name is in one of the last `k` components of a title, of which there
/// are more.
pub open spec fn named_at_the_end(t: Seq<char>, app: Seq<char>, k: int) -> bool {
    let ranges = segments(t);
    1 <= k < ranges.len() && covers(t, ranges.skip(ranges.len() - k), tokens(app))
}

/// Every token of a name is in one of the first `k` components of a title, of which there
/// are more.
pub open spec fn named_at_the_start(t: Seq<char>, app: Seq<char>, k: int) -> bool {
    let ranges = segments(t);
    1 <= k < ranges.len() && covers(t, ranges.take(k), tokens(app))
}

proof fn lemma_trailing(t: Seq<char>, app: Seq<char>, from: int, k: int)
    requires
        1 <= from <= k,
        named_at_the_end(t, app, k),
        forall|j: int| from <= j < k ==> !#[trigger] named_at_the_end(t, app, j),
    ensures
        trailing_run(t, segments(t), tokens(app), from) == Some(k),
    decreases k - from,
{
    if from < k {
        assert(!named_at_the_end(t, app, from));
        lemma_trailing(t, app, from + 1, k);
    }
}

proof fn lemma_no_trailing(t: Seq<char>, app: Seq<char>, from: int)
    requires
        1 <= from,
        forall|j: int| from <= j ==> !#[trigger] named_at_the_end(t, app, j),
    ensures
        trailing_run(t, segments(t), tokens(app), from) is None,
    decreases segments(t).len() - from,
{
    if from < segments(t).len() {
        assert(!named_at_the_end(t, app, from));
        lemma_no_trailing(t, app, from + 1);
    }
}

proof fn lemma_leading(t: Seq<char>, app: Seq<char>, from: int, k: int)
    requires
        1 <= from <= k,
        named_at_the_start(t, app, k),
        forall|j: int| from <= j < k ==> !#[trigger] named_at_the_start(t, app, j),
    ensures
        leading_run(t, segments(t), tokens(app), from) == Some(k),
    decreases k - from,
{
    if from < k {
        assert(!named_at_the_start(t, app, from));
        lemma_leading(t, app, from + 1, k);
    }
}

proof fn lemma_no_leading(t: Seq<char>, app: Seq<char>, from: int)
    requires
        1 <= from,
        forall|j: int| from <= j ==> !#[trigger] named_at_the_start(t, app, j),
    ensures
        leading_run(t, segments(t), tokens(app), from) is None,
    decreases segments(t).len() - from,
{
    if from < segments(t).len() {
        assert(!named_at_the_start(t, app, from));
        lemma_no_leading(t, app, from + 1);
    }
}

/// A title is split before the fewest components at its end that say the name; where none
/// do, behind the fewest at its start that do; and not at all where neither do.
pub proof fn titles_are_split_at_the_fewest_components(
    title: Seq<char>,
    app: Seq<char>,
    k: int,
)
    requires
        tokens(app).len() > 0,
    ensures
        ({
            let t = trim(title);
            let ranges = segments(t);
            let n = ranges.len() as int;
            &&& named_at_the_end(t, app, k) && (forall|j: int|
                1 <= j < k ==> !#[trigger] named_at_the_end(t, app, j)) ==> title_split(title, app)
                == (trim(t.skip(ranges[n - k].0)), trim(t.take(ranges[n - k].0 - 3)))
            &&& (forall|j: int| 1 <= j ==> !#[trigger] named_at_the_end(t, app, j)) && named_at_the_start(
                t,
                app,
                k,
            ) && (forall|j: int| 1 <= j < k ==> !#[trigger] named_at_the_start(t, app, j))
                ==> title_split(title, app) == (
                trim(t.take(ranges[k - 1].1)),
                trim(t.skip(ranges[k - 1].1 + 3)),
            )
            &&& (forall|j: int| 1 <= j ==> !#[trigger] named_at_the_end(t, app, j)) && (forall|j: int|
                1 <= j ==> !#[trigger] named_at_the_start(t, app, j)) ==> title_split(title, app)
                == (Seq::<char>::empty(), t)
        }),
{
    let t = trim(title);
    let ranges = segments(t);
    let n = ranges.len() as int;
    components_lie_between_separators(t, 0, 0);
    if named_at_the_end(t, app, k) && (forall|j: int|
        1 <= j < k ==> !#[trigger] named_at_the_end(t, app, j)) {
        lemma_trailing(t, app, 1, k);
        assert(ranges[n - k - 1 + 1].0 == ranges[n - k - 1].1 + 3);
    }
    if forall|j: int| 1 <= j ==> !#[trigger] named_at_the_end(t, app, j) {
        lemma_no_trailing(t, app, 1);
        if named_at_the_start(t, app, k) && (forall|j: int|
            1 <= j < k ==> !#[trigger] named_at_the_start(t, app, j)) {
            lemma_leading(t, app, 1, k);
            assert(ranges[k - 1 + 1].0 == ranges[k - 1].1 + 3);
        }
        if forall|j: int| 1 <= j ==> !#[trigger] named_at_the_start(t, app, j) {
            lemma_no_leading(t, app, 1);
        }
    }
}

/// A title is not split for an application without a name.
pub proof fn nameless_applications_split_nothing(title: Seq<char>, app: Seq<char>)
    requires
        tokens(app).len() == 0,
    ensures
        title_split(title, app) == (Seq::<char>::empty(), trim(title)),
{
}

} // verus!
