//! Hint labels for the overlays: generating them, mapping keys to hint
//! characters, the prefix navigator, and placing the hint chips on screen.

use crate::key::Key;
use crate::rect::ints;
use crate::text::{starts_with, views};
use vstd::prelude::*;

verus! {

// === Constants ===

/// Hint characters, home-row keys first.
pub const HINT_KEYS: [char; 26] = [
    'a', 's', 'd', 'f', 'g', 'h', 'j', 'k', 'l', 'q', 'w', 'e', 'r', 't', 'y', 'u', 'i', 'o', 'p',
    'z', 'x', 'c', 'v', 'b', 'n', 'm',
];

/// Gap left between hint chips when nudging one off another to avoid overlap.
pub const OVERLAY_GAP: i32 = 4;

// === Data structures ===

/// Result of feeding one hint character to the navigator.
#[derive(Debug)]
pub enum HintMatch {
    /// More input is needed (the prefix narrowed but several hints still match,
    /// or the character matched nothing and was ignored).
    Pending,
    /// Exactly one hint matched; its index into the hint list.
    Done(usize),
}

// === Hint labels ===

/// How many characters each of `count` hints has: the fewest, and at least one,
/// with which there are enough hints.
pub open spec fn hint_length(count: nat) -> nat
    decreases count,
{
    if count <= 26 {
        1
    } else {
        1 + hint_length(((count - 1) / 26 + 1) as nat)
    }
}

/// The hint number `k` of `length` characters: `k` written with the hint
/// characters as digits.
pub open spec fn hint_text(k: nat, length: nat) -> Seq<char>
    decreases length,
{
    if length == 0 {
        Seq::empty()
    } else {
        hint_text(k / 26, (length - 1) as nat).push(HINT_KEYS@[(k % 26) as int])
    }
}

/// How many hints of `length` characters there are.
pub open spec fn hint_capacity(length: nat) -> nat
    decreases length,
{
    if length == 0 {
        1
    } else {
        26 * hint_capacity((length - 1) as nat)
    }
}

fn hint_label(k: usize, length: usize) -> (r: String)
    ensures
        r@ == hint_text(k as nat, length as nat),
    decreases length,
{
    if length == 0 {
        let r = String::new();
        assert(r@ =~= Seq::empty());
        return r;
    }
    let keys = HINT_KEYS;
    let mut r = hint_label(k / 26, length - 1);
    r.push(keys[k % 26]);
    r
}

/// Generate `count` short hint strings drawn from [`HINT_KEYS`] (home-row first,
/// two-character hints when more than 26 windows are present).
pub fn make_hints(count: usize) -> (r: Vec<String>)
    ensures
        r@.len() == count,
        forall|k: int|
            0 <= k < count ==> (#[trigger] r@[k])@ == hint_text(
                k as nat,
                hint_length(count as nat),
            ),
{
    let mut length: usize = 1;
    let mut rest: usize = count;
    while rest > 26
        invariant
            hint_length(count as nat) == length + hint_length(rest as nat) - 1,
            length >= 1,
            length + rest <= count + 1,
        decreases rest,
    {
        rest = (rest - 1) / 26 + 1;
        length = length + 1;
    }
    let mut hints: Vec<String> = Vec::new();
    let mut k: usize = 0;
    while k < count
        invariant
            k <= count,
            hints@.len() == k,
            length == hint_length(count as nat),
            forall|j: int|
                0 <= j < k ==> (#[trigger] hints@[j])@ == hint_text(
                    j as nat,
                    hint_length(count as nat),
                ),
        decreases count - k,
    {
        hints.push(hint_label(k, length));
        k = k + 1;
    }
    hints
}

proof fn lemma_capacity(count: nat)
    ensures
        count <= hint_capacity(hint_length(count)),
        hint_length(count) >= 1,
    decreases count,
{
    if count > 26 {
        let fewer = ((count - 1) / 26 + 1) as nat;
        lemma_capacity(fewer);
        assert(count <= 26 * fewer);
    } else {
        reveal_with_fuel(hint_capacity, 2);
    }
}

proof fn lemma_text_len(k: nat, length: nat)
    ensures
        hint_text(k, length).len() == length,
    decreases length,
{
    if length > 0 {
        lemma_text_len(k / 26, (length - 1) as nat);
    }
}

proof fn lemma_text_injective(i: nat, j: nat, length: nat)
    requires
        i < hint_capacity(length),
        j < hint_capacity(length),
        hint_text(i, length) == hint_text(j, length),
    ensures
        i == j,
    decreases length,
{
    if length > 0 {
        let a = hint_text(i / 26, (length - 1) as nat);
        let b = hint_text(j / 26, (length - 1) as nat);
        assert(hint_text(i, length).drop_last() =~= a);
        assert(hint_text(j, length).drop_last() =~= b);
        assert(hint_text(i, length).last() == HINT_KEYS@[(i % 26) as int]);
        assert(hint_text(j, length).last() == HINT_KEYS@[(j % 26) as int]);
        lemma_keys_distinct((i % 26) as int, (j % 26) as int);
        lemma_text_injective(i / 26, j / 26, (length - 1) as nat);
    }
}

proof fn lemma_keys_distinct(i: int, j: int)
    requires
        0 <= i < 26,
        0 <= j < 26,
        HINT_KEYS@[i] == HINT_KEYS@[j],
    ensures
        i == j,
{
}

/// The hints of one overlay are all of the same length and no two are alike, so
/// none is the beginning of another.
pub proof fn hints_are_distinct(count: nat, i: nat, j: nat)
    requires
        i < count,
        j < count,
    ensures
        hint_text(i, hint_length(count)).len() == hint_length(count),
        hint_length(count) >= 1,
        i != j ==> hint_text(i, hint_length(count)) != hint_text(j, hint_length(count)),
        i != j ==> !hint_text(i, hint_length(count)).is_prefix_of(
            hint_text(j, hint_length(count)),
        ),
{
    lemma_capacity(count);
    let length = hint_length(count);
    lemma_text_len(i, length);
    lemma_text_len(j, length);
    if hint_text(i, length) == hint_text(j, length) {
        lemma_text_injective(i, j, length);
    }
    if hint_text(i, length).is_prefix_of(hint_text(j, length)) {
        assert(hint_text(i, length) =~= hint_text(j, length));
        lemma_text_injective(i, j, length);
    }
}

// === Keys ===

/// The letter a key types, if it is a letter key.
pub open spec fn letter_of(key: Key) -> Option<char> {
    match key {
        Key::A => Some('a'),
        Key::B => Some('b'),
        Key::C => Some('c'),
        Key::D => Some('d'),
        Key::E => Some('e'),
        Key::F => Some('f'),
        Key::G => Some('g'),
        Key::H => Some('h'),
        Key::I => Some('i'),
        Key::J => Some('j'),
        Key::K => Some('k'),
        Key::L => Some('l'),
        Key::M => Some('m'),
        Key::N => Some('n'),
        Key::O => Some('o'),
        Key::P => Some('p'),
        Key::Q => Some('q'),
        Key::R => Some('r'),
        Key::S => Some('s'),
        Key::T => Some('t'),
        Key::U => Some('u'),
        Key::V => Some('v'),
        Key::W => Some('w'),
        Key::X => Some('x'),
        Key::Y => Some('y'),
        Key::Z => Some('z'),
        _ => None,
    }
}

/// Map a [`Key`] to the corresponding [`HINT_KEYS`] character, if any.
pub fn key_to_hint_char(key: Key) -> (r: Option<char>)
    ensures
        r == letter_of(key),
{
    match key {
        Key::A => Some('a'),
        Key::B => Some('b'),
        Key::C => Some('c'),
        Key::D => Some('d'),
        Key::E => Some('e'),
        Key::F => Some('f'),
        Key::G => Some('g'),
        Key::H => Some('h'),
        Key::I => Some('i'),
        Key::J => Some('j'),
        Key::K => Some('k'),
        Key::L => Some('l'),
        Key::M => Some('m'),
        Key::N => Some('n'),
        Key::O => Some('o'),
        Key::P => Some('p'),
        Key::Q => Some('q'),
        Key::R => Some('r'),
        Key::S => Some('s'),
        Key::T => Some('t'),
        Key::U => Some('u'),
        Key::V => Some('v'),
        Key::W => Some('w'),
        Key::X => Some('x'),
        Key::Y => Some('y'),
        Key::Z => Some('z'),
        _ => None,
    }
}

/// Every hint character can be typed: one key maps to it.
pub proof fn every_hint_character_has_a_key(i: int)
    requires
        0 <= i < 26,
    ensures
        exists|key: Key| letter_of(key) == Some(HINT_KEYS@[i]),
{
    let keys: Seq<Key> = seq![
        Key::A, Key::S, Key::D, Key::F, Key::G, Key::H, Key::J, Key::K, Key::L, Key::Q, Key::W,
        Key::E, Key::R, Key::T, Key::Y, Key::U, Key::I, Key::O, Key::P, Key::Z, Key::X, Key::C,
        Key::V, Key::B, Key::N, Key::M,
    ];
    assert(letter_of(keys[i]) == Some(HINT_KEYS@[i]));
}

// === The navigator ===

/// The hint number `k` begins with what has been typed.
pub open spec fn hit(hints: Seq<Seq<char>>, typed: Seq<char>, k: int) -> bool {
    0 <= k < hints.len() && typed.is_prefix_of(hints[k])
}

/// The hint number `k`, and no other, begins with what has been typed.
pub open spec fn sole_hit(hints: Seq<Seq<char>>, typed: Seq<char>, k: int) -> bool {
    hit(hints, typed, k) && forall|j: int| #[trigger] hit(hints, typed, j) ==> j == k
}

/// Some hint begins with what has been typed.
pub open spec fn any_hit(hints: Seq<Seq<char>>, typed: Seq<char>) -> bool {
    exists|k: int| hit(hints, typed, k)
}

/// The only hint that begins with what has been typed, if there is just one.
pub open spec fn resolved(hints: Seq<Seq<char>>, typed: Seq<char>) -> Option<int> {
    if exists|k: int| sole_hit(hints, typed, k) {
        Some(choose|k: int| sole_hit(hints, typed, k))
    } else {
        None
    }
}

/// The prefix after one more character: longer if some hint still matches.
pub open spec fn narrowed(hints: Seq<Seq<char>>, prefix: Seq<char>, ch: char) -> Seq<char> {
    if any_hit(hints, prefix.push(ch)) {
        prefix.push(ch)
    } else {
        prefix
    }
}

/// Feed hint character `ch` to the navigator. Appends it to `prefix` when at
/// least one hint still matches (otherwise the character is ignored and `prefix`
/// is unchanged). Returns [`HintMatch::Done`] with the unique index once a
/// single hint remains.
pub fn advance(hints: &[String], prefix: &mut String, ch: char) -> (r: HintMatch)
    ensures
        final(prefix)@ == narrowed(views(hints@), old(prefix)@, ch),
        match r {
            HintMatch::Done(k) => k < hints@.len() && resolved(
                views(hints@),
                old(prefix)@.push(ch),
            ) == Some(k as int),
            HintMatch::Pending => resolved(views(hints@), old(prefix)@.push(ch)) is None,
        },
{
    let mut candidate = prefix.clone();
    candidate.push(ch);
    let ghost all = views(hints@);
    let ghost typed = candidate@;
    let mut found: Option<usize> = None;
    let mut several = false;
    let mut i: usize = 0;
    while i < hints.len()
        invariant
            i <= hints@.len(),
            all == views(hints@),
            typed == candidate@,
            typed == old(prefix)@.push(ch),
            prefix@ == old(prefix)@,
            match found {
                None => !several && forall|j: int| 0 <= j < i ==> !(#[trigger] hit(all, typed, j)),
                Some(k) => k < i && hit(all, typed, k as int) && if several {
                    exists|j: int| j != k && #[trigger] hit(all, typed, j)
                } else {
                    forall|j: int| 0 <= j < i && #[trigger] hit(all, typed, j) ==> j == k
                },
            },
        decreases hints@.len() - i,
    {
        assert(all[i as int] == hints@[i as int]@);
        if starts_with(hints[i].as_str(), candidate.as_str()) {
            assert(hit(all, typed, i as int));
            if found.is_some() {
                several = true;
            } else {
                found = Some(i);
            }
        }
        i = i + 1;
    }
    match found {
        None => {
            assert(forall|j: int| !(#[trigger] hit(all, typed, j)));
            HintMatch::Pending
        },
        Some(k) => {
            *prefix = candidate;
            if several {
                assert(forall|m: int| !sole_hit(all, typed, m));
                HintMatch::Pending
            } else {
                proof {
                    assert(sole_hit(all, typed, k as int));
                    let other = choose|m: int| sole_hit(all, typed, m);
                    assert(hit(all, typed, other));
                }
                HintMatch::Done(k)
            }
        },
    }
}

/// Every hint can be typed: with hints of one length of which no two are alike,
/// each character of a hint, typed after those before it, is taken, and the last
/// one, at the latest, resolves to that hint.
pub proof fn every_hint_can_be_typed(hints: Seq<Seq<char>>, length: nat, i: int, typed: int)
    requires
        forall|k: int| 0 <= k < hints.len() ==> (#[trigger] hints[k]).len() == length,
        forall|j: int, k: int|
            0 <= j < k < hints.len() ==> #[trigger] hints[j] != #[trigger] hints[k],
        0 <= i < hints.len(),
        0 <= typed < length,
    ensures
        any_hit(hints, hints[i].take(typed).push(hints[i][typed])),
        typed == length - 1 ==> resolved(hints, hints[i].take(typed).push(hints[i][typed])) == Some(
            i,
        ),
{
    let now = hints[i].take(typed).push(hints[i][typed]);
    assert(now =~= hints[i].take(typed + 1));
    assert(hit(hints, now, i));
    if typed == length - 1 {
        assert(now =~= hints[i]);
        assert forall|j: int| #[trigger] hit(hints, now, j) implies j == i by {
            assert(hints[j] =~= now);
        }
        assert(sole_hit(hints, now, i));
        let other = choose|k: int| sole_hit(hints, now, k);
        assert(hit(hints, now, other));
    }
}

// === Placing chips ===

/// The clamp of `v` to `0..=hi`.
pub open spec fn clamp_from_zero(v: int, hi: int) -> int {
    if v < 0 {
        0
    } else if v > hi {
        hi
    } else {
        v
    }
}

/// The larger of `v` and 0.
pub open spec fn at_least_zero(v: int) -> int {
    if v < 0 {
        0
    } else {
        v
    }
}

/// Two `(x, y, w, h)` rectangles overlap.
pub open spec fn overlap(a: (int, int, int, int), b: (int, int, int, int)) -> bool {
    a.0 < b.0 + b.2 && b.0 < a.0 + a.2 && a.1 < b.1 + b.3 && b.1 < a.1 + a.3
}

/// Whether two `(x, y, w, h)` rectangles overlap.
pub fn rects_overlap(a: (i32, i32, i32, i32), b: (i32, i32, i32, i32)) -> (r: bool)
    ensures
        r == overlap(ints(a), ints(b)),
{
    let (ax, ay, aw, ah) = a;
    let (bx, by, bw, bh) = b;
    (ax as i64) < bx as i64 + bw as i64 && (bx as i64) < ax as i64 + aw as i64 && (ay as i64) < by as i64
        + bh as i64 && (by as i64) < ay as i64 + ah as i64
}

/// The chip overlaps none of those already placed.
pub open spec fn slot_free(
    placed: Seq<(i32, i32, i32, i32)>,
    chip: (int, int, int, int),
) -> bool {
    forall|i: int| 0 <= i < placed.len() ==> !overlap(ints(#[trigger] placed[i]), chip)
}

/// The slots below `y`, a step apart, as far as `limit`.
pub open spec fn slots_below(y: int, step: int, limit: int) -> Seq<int>
    decreases limit - y,
{
    if step > 0 && y + step <= limit {
        seq![y + step] + slots_below(y + step, step, limit)
    } else {
        Seq::empty()
    }
}

/// The slots above `y`, a step apart, as far as 0.
pub open spec fn slots_above(y: int, step: int) -> Seq<int>
    decreases y,
{
    if step > 0 && y - step >= 0 {
        seq![y - step] + slots_above(y - step, step)
    } else {
        Seq::empty()
    }
}

/// The first of the slots at which the chip overlaps none of those placed.
pub open spec fn first_free(
    slots: Seq<int>,
    x: int,
    size: (int, int),
    placed: Seq<(i32, i32, i32, i32)>,
) -> Option<int>
    decreases slots.len(),
{
    if slots.len() == 0 {
        None
    } else if slot_free(placed, (x, slots[0], size.0, size.1)) {
        Some(slots[0])
    } else {
        first_free(slots.drop_first(), x, size, placed)
    }
}

/// Where a chip goes: the desired spot clamped to the screen if it is free there,
/// else the nearest free slot below, else the nearest free slot above, else the
/// clamped spot after all.
pub open spec fn chip_spot(
    desired: (int, int),
    size: (int, int),
    placed: Seq<(i32, i32, i32, i32)>,
    screen: (int, int),
) -> (int, int) {
    let x = clamp_from_zero(desired.0, at_least_zero(screen.0 - size.0));
    let y = clamp_from_zero(desired.1, at_least_zero(screen.1 - size.1));
    let step = size.1 + OVERLAY_GAP;
    let slots = seq![y] + slots_below(y, step, screen.1 - size.1) + slots_above(y, step);
    match first_free(slots, x, size, placed) {
        Some(free) => (x, free),
        None => (x, y),
    }
}

fn is_slot_free(placed: &[(i32, i32, i32, i32)], chip: (i32, i32, i32, i32)) -> (r: bool)
    ensures
        r == slot_free(placed@, ints(chip)),
{
    let mut i: usize = 0;
    while i < placed.len()
        invariant
            i <= placed@.len(),
            forall|j: int|
                0 <= j < i ==> !overlap(ints(#[trigger] placed@[j]), ints(chip)),
        decreases placed@.len() - i,
    {
        if rects_overlap(placed[i], chip) {
            return false;
        }
        i = i + 1;
    }
    true
}

proof fn lemma_first_free_skip(
    first: int,
    rest: Seq<int>,
    x: int,
    size: (int, int),
    placed: Seq<(i32, i32, i32, i32)>,
)
    ensures
        first_free(seq![first] + rest, x, size, placed) == if slot_free(
            placed,
            (x, first, size.0, size.1),
        ) {
            Some(first)
        } else {
            first_free(rest, x, size, placed)
        },
{
    assert((seq![first] + rest).drop_first() =~= rest);
}

/// Choose a top-left for a `w`×`h` hint chip near `desired`, clamped on screen
/// and not overlapping any already-`placed` chip. The desired spot is tried
/// first, then slots stepping downward, then upward (windows stacked at the same
/// corner thus get their chips fanned vertically). Falls back to the desired
/// spot when no free slot fits.
pub fn place_hint(
    desired: (i32, i32),
    size: (i32, i32),
    placed: &[(i32, i32, i32, i32)],
    screen: (i32, i32),
) -> (r: (i32, i32))
    requires
        size.1 + OVERLAY_GAP > 0,
        screen.1 - size.1 <= i32::MAX,
    ensures
        (r.0 as int, r.1 as int) == chip_spot(
            (desired.0 as int, desired.1 as int),
            (size.0 as int, size.1 as int),
            placed@,
            (screen.0 as int, screen.1 as int),
        ),
{
    let (w, h) = size;
    let right: i64 = screen.0 as i64 - w as i64;
    let bottom: i64 = screen.1 as i64 - h as i64;
    let x: i32 = clamp_spot(desired.0, right);
    let y0: i32 = clamp_spot(desired.1, bottom);
    let step: i64 = h as i64 + OVERLAY_GAP as i64;
    let ghost dims = (w as int, h as int);
    let ghost below = slots_below(y0 as int, step as int, bottom as int);
    let ghost above = slots_above(y0 as int, step as int);
    let ghost all = seq![y0 as int] + below + above;
    proof {
        assert(all =~= seq![y0 as int] + (below + above));
        lemma_first_free_skip(y0 as int, below + above, x as int, dims, placed@);
    }
    if is_slot_free(placed, (x, y0, w, h)) {
        return (x, y0);
    }
    let mut down: i64 = y0 as i64;
    while down + step <= bottom
        invariant
            0 < step <= 0x8000_0004,
            bottom <= i32::MAX,
            0 <= y0,
            i32::MIN <= down <= i32::MAX,
            dims == (w as int, h as int),
            above == slots_above(y0 as int, step as int),
            first_free(all, x as int, dims, placed@) == first_free(
                slots_below(down as int, step as int, bottom as int) + above,
                x as int,
                dims,
                placed@,
            ),
            chip_spot(
                (desired.0 as int, desired.1 as int),
                (size.0 as int, size.1 as int),
                placed@,
                (screen.0 as int, screen.1 as int),
            ) == match first_free(all, x as int, dims, placed@) {
                Some(free) => (x as int, free),
                None => (x as int, y0 as int),
            },
            down >= 0,
        decreases bottom - down,
    {
        proof {
            let more = slots_below(down + step, step as int, bottom as int);
            assert(slots_below(down as int, step as int, bottom as int) + above =~= seq![
                down + step,
            ] + (more + above));
            lemma_first_free_skip(down + step, more + above, x as int, dims, placed@);
        }
        down = down + step;
        if is_slot_free(placed, (x, down as i32, w, h)) {
            return (x, down as i32);
        }
    }
    assert(slots_below(down as int, step as int, bottom as int) + above =~= above);
    let mut up: i64 = y0 as i64;
    while up - step >= 0
        invariant
            0 < step <= 0x8000_0004,
            0 <= up <= i32::MAX,
            dims == (w as int, h as int),
            first_free(all, x as int, dims, placed@) == first_free(
                slots_above(up as int, step as int),
                x as int,
                dims,
                placed@,
            ),
            chip_spot(
                (desired.0 as int, desired.1 as int),
                (size.0 as int, size.1 as int),
                placed@,
                (screen.0 as int, screen.1 as int),
            ) == match first_free(all, x as int, dims, placed@) {
                Some(free) => (x as int, free),
                None => (x as int, y0 as int),
            },
        decreases up,
    {
        proof {
            lemma_first_free_skip(
                up - step,
                slots_above(up - step, step as int),
                x as int,
                dims,
                placed@,
            );
        }
        up = up - step;
        if is_slot_free(placed, (x, up as i32, w, h)) {
            return (x, up as i32);
        }
    }
    (x, y0)
}

fn clamp_spot(v: i32, hi: i64) -> (r: i32)
    ensures
        r == clamp_from_zero(v as int, at_least_zero(hi as int)),
        0 <= r,
{
    if v < 0 || hi <= 0 {
        0
    } else if v as i64 > hi {
        hi as i32
    } else {
        v
    }
}

proof fn lemma_first_free_member(
    slots: Seq<int>,
    x: int,
    size: (int, int),
    placed: Seq<(i32, i32, i32, i32)>,
)
    ensures
        match first_free(slots, x, size, placed) {
            Some(y) => slots.contains(y) && slot_free(placed, (x, y, size.0, size.1)),
            None => forall|i: int|
                0 <= i < slots.len() ==> !slot_free(
                    placed,
                    (x, #[trigger] slots[i], size.0, size.1),
                ),
        },
    decreases slots.len(),
{
    if slots.len() > 0 {
        let rest = slots.drop_first();
        lemma_first_free_member(rest, x, size, placed);
        if slot_free(placed, (x, slots[0], size.0, size.1)) {
        } else {
            match first_free(slots, x, size, placed) {
                Some(y) => {
                    let i = choose|i: int| 0 <= i < rest.len() && rest[i] == y;
                    assert(slots[i + 1] == y);
                },
                None => {
                    assert forall|i: int| 0 <= i < slots.len() implies !slot_free(
                        placed,
                        (x, #[trigger] slots[i], size.0, size.1),
                    ) by {
                        if i > 0 {
                            assert(rest[i - 1] == slots[i]);
                        }
                    }
                },
            }
        }
    }
}

proof fn lemma_slots_below_range(y: int, step: int, limit: int)
    ensures
        forall|i: int|
            0 <= i < slots_below(y, step, limit).len() ==> y < #[trigger] slots_below(
                y,
                step,
                limit,
            )[i] <= limit,
    decreases limit - y,
{
    if step > 0 && y + step <= limit {
        lemma_slots_below_range(y + step, step, limit);
        let more = slots_below(y + step, step, limit);
        assert forall|i: int| 0 <= i < slots_below(y, step, limit).len() implies y
            < #[trigger] slots_below(y, step, limit)[i] <= limit by {
            if i > 0 {
                assert(slots_below(y, step, limit)[i] == more[i - 1]);
            }
        }
    }
}

proof fn lemma_slots_above_range(y: int, step: int)
    requires
        y >= 0,
    ensures
        forall|i: int|
            0 <= i < slots_above(y, step).len() ==> 0 <= #[trigger] slots_above(y, step)[i] < y,
    decreases y,
{
    if step > 0 && y - step >= 0 {
        lemma_slots_above_range(y - step, step);
        let more = slots_above(y - step, step);
        assert forall|i: int| 0 <= i < slots_above(y, step).len() implies 0
            <= #[trigger] slots_above(y, step)[i] < y by {
            if i > 0 {
                assert(slots_above(y, step)[i] == more[i - 1]);
            }
        }
    }
}

/// A chip that fits on the screen is placed wholly on it.
pub proof fn chips_stay_on_screen(
    desired: (int, int),
    size: (int, int),
    placed: Seq<(i32, i32, i32, i32)>,
    screen: (int, int),
)
    requires
        0 <= size.0 <= screen.0,
        0 <= size.1 <= screen.1,
    ensures
        0 <= chip_spot(desired, size, placed, screen).0 <= screen.0 - size.0,
        0 <= chip_spot(desired, size, placed, screen).1 <= screen.1 - size.1,
{
    let x = clamp_from_zero(desired.0, at_least_zero(screen.0 - size.0));
    let y = clamp_from_zero(desired.1, at_least_zero(screen.1 - size.1));
    let step = size.1 + OVERLAY_GAP;
    let below = slots_below(y, step, screen.1 - size.1);
    let above = slots_above(y, step);
    let slots = seq![y] + below + above;
    lemma_slots_below_range(y, step, screen.1 - size.1);
    lemma_slots_above_range(y, step);
    lemma_first_free_member(slots, x, size, placed);
    match first_free(slots, x, size, placed) {
        Some(free) => {
            let i = choose|i: int| 0 <= i < slots.len() && slots[i] == free;
            if i == 0 {
            } else if i < 1 + below.len() {
                assert(slots[i] == below[i - 1]);
            } else {
                assert(slots[i] == above[i - 1 - below.len()]);
            }
        },
        None => {},
    }
}

/// A chip overlaps one that was placed before only where every slot is taken, and
/// then it stands at the desired spot.
pub proof fn chips_overlap_only_when_all_slots_are_taken(
    desired: (int, int),
    size: (int, int),
    placed: Seq<(i32, i32, i32, i32)>,
    screen: (int, int),
)
    ensures
        ({
            let (x, y) = chip_spot(desired, size, placed, screen);
            let y0 = clamp_from_zero(desired.1, at_least_zero(screen.1 - size.1));
            let step = size.1 + OVERLAY_GAP;
            let slots = seq![y0] + slots_below(y0, step, screen.1 - size.1) + slots_above(
                y0,
                step,
            );
            !slot_free(placed, (x, y, size.0, size.1)) ==> y == y0 && forall|i: int|
                0 <= i < slots.len() ==> !slot_free(
                    placed,
                    (x, #[trigger] slots[i], size.0, size.1),
                )
        }),
{
    let x = clamp_from_zero(desired.0, at_least_zero(screen.0 - size.0));
    let y0 = clamp_from_zero(desired.1, at_least_zero(screen.1 - size.1));
    let step = size.1 + OVERLAY_GAP;
    let slots = seq![y0] + slots_below(y0, step, screen.1 - size.1) + slots_above(y0, step);
    lemma_first_free_member(slots, x, size, placed);
}

} // verus!
