//! The pick-element overlay: the target elements, their hint labels, and the
//! session that narrows them down key by key. Collecting the elements and
//! drawing the chips is the backend's.

use crate::hints::{key_to_hint_char, letter_of};
use crate::key::Key;
use crate::rect::{common_area, rect_overlap};
use crate::text::{chars_of, starts_with};
use vstd::prelude::*;

verus! {

// === Constants ===

/// Character pool for generating hint labels (home-row keys first).
pub const HINT_CHARS: &'static str = "asdfghjklqwertyuiopzxcvbnm";

// === Data structures ===

/// What kind of widget an accessible object is; only the kinds that can be hint
/// targets are told apart.
#[derive(Clone, Copy, Debug, Eq, PartialEq, Structural)]
pub enum Role {
    CheckBox,
    CheckMenuItem,
    ColumnHeader,
    ComboBox,
    Entry,
    Icon,
    Link,
    ListItem,
    Menu,
    MenuItem,
    PageTab,
    PushButton,
    RadioButton,
    RadioMenuItem,
    TableCell,
    TableColumnHeader,
    ToggleButton,
    TreeItem,
    Other,
}

/// A single interactive UI element collected by the platform enumerator.
#[derive(Debug)]
pub struct Element {
    pub height: i32,
    pub label: String,
    pub width: i32,
    pub x: i32,
    pub y: i32,
    /// Bus name of the accessible application (Linux only, else empty).
    pub bus_name: String,
    /// Object path of this element on its bus (Linux only, else empty).
    pub node_path: String,
    pub role: Role,
}

/// What an [`Element`] says.
pub struct ElementView {
    pub bounds: (i32, i32, i32, i32),
    pub label: Seq<char>,
    pub bus_name: Seq<char>,
    pub node_path: Seq<char>,
    pub role: Role,
}

impl View for Element {
    type V = ElementView;

    open spec fn view(&self) -> ElementView {
        ElementView {
            bounds: (self.x, self.y, self.width, self.height),
            label: self.label@,
            bus_name: self.bus_name@,
            node_path: self.node_path@,
            role: self.role,
        }
    }
}

/// Result returned by [`HintSession::process_key`].
#[derive(Debug)]
pub enum HintAction {
    /// A prefix character was added or removed; callers should update overlay
    /// visibility.
    Updated,
    /// A unique hint was matched; the caller should activate this element and
    /// close the overlay.
    Activate(Element),
    /// Esc was pressed; the caller should close the overlay.
    Dismiss,
    /// Key had no effect (non-hint key while waiting); caller should suppress it.
    Suppressed,
}

/// One element paired with its generated hint label.
#[derive(Debug)]
struct Hint {
    element: Element,
    label: String,
    matched: bool,
}

/// Active hint session: holds the current element set and tracks the typed prefix.
///
/// Created when enumeration completes (via [`HintSession::new`]). The caller
/// routes each subsequent key press through [`HintSession::process_key`] until
/// the session returns [`HintAction::Activate`] or [`HintAction::Dismiss`].
#[derive(Debug)]
pub struct HintSession {
    hints: Vec<Hint>,
    hint_prefix: String,
}

/// One hint of a session.
pub struct HintView {
    pub element: Element,
    pub label: Seq<char>,
    pub matched: bool,
}

/// What a [`HintSession`] holds.
pub struct SessionView {
    pub hints: Seq<HintView>,
    pub prefix: Seq<char>,
}

// === Models ===

impl View for Hint {
    type V = HintView;

    closed spec fn view(&self) -> HintView {
        HintView { element: self.element, label: self.label@, matched: self.matched }
    }
}

spec fn hint_views(hints: Seq<Hint>) -> Seq<HintView> {
    hints.map_values(|h: Hint| h@)
}

impl View for HintSession {
    type V = SessionView;

    closed spec fn view(&self) -> SessionView {
        SessionView { hints: hint_views(self.hints@), prefix: self.hint_prefix@ }
    }
}

/// The element's bounding box.
pub open spec fn bounds(e: Element) -> (int, int, int, int) {
    (e.x as int, e.y as int, e.width as int, e.height as int)
}

/// The area of the element's bounding box.
pub open spec fn spec_area(e: Element) -> int {
    e.width * e.height
}

/// The element covers another so far that the two make one target: at least half
/// of its own area is shared.
pub open spec fn duplicates(candidate: Element, other: Element) -> bool {
    spec_area(candidate) > 0 && common_area(bounds(candidate), bounds(other)) * 2 >= spec_area(
        candidate,
    )
}

/// The candidate duplicates one of those kept.
pub open spec fn duplicates_any(candidate: Element, kept: Seq<Element>) -> bool {
    exists|i: int| 0 <= i < kept.len() && duplicates(candidate, #[trigger] kept[i])
}

/// The elements that are kept: each that duplicates none kept before it.
pub open spec fn kept_of(elements: Seq<Element>) -> Seq<Element>
    decreases elements.len(),
{
    if elements.len() == 0 {
        Seq::empty()
    } else {
        let kept = kept_of(elements.drop_last());
        if duplicates_any(elements.last(), kept) {
            kept
        } else {
            kept.push(elements.last())
        }
    }
}

/// How many texts of `length` characters a pool of `p` characters gives.
pub open spec fn texts_of(p: nat, length: nat) -> nat
    decreases length,
{
    if length == 0 {
        1
    } else {
        p * texts_of(p, (length - 1) as nat)
    }
}

/// How many characters each of `n` labels has, with a pool of `p` characters: the
/// fewest, and at least one, with which there are enough texts. Without a pool labels
/// are empty.
pub open spec fn label_length(n: nat, p: nat) -> nat
    decreases n,
{
    if p == 0 {
        0
    } else if n <= p || p == 1 {
        1
    } else {
        proof {
            lemma_shares_shrink(n, p);
        }
        1 + label_length(((n - 1) / (p as int) + 1) as nat, p)
    }
}

pub proof fn lemma_shares_shrink(n: nat, p: nat)
    requires
        2 <= p < n,
    ensures
        0 < (n - 1) / (p as int) + 1 < n,
        n <= p * ((n - 1) / (p as int) + 1),
        p * ((n - 1) / (p as int)) < n,
{
    let q = (n - 1) / (p as int);
    vstd::arithmetic::div_mod::lemma_fundamental_div_mod(n - 1, p as int);
    assert(0 <= q) by (nonlinear_arith)
        requires
            q == (n - 1) / (p as int),
            n > 2,
            p >= 2,
    ;
    assert(2 * q <= p * q) by (nonlinear_arith)
        requires
            p >= 2,
            q >= 0,
    ;
    assert(p * (q + 1) == p * q + p) by (nonlinear_arith);
}

/// The characters of a pool, each once, as they first come.
pub open spec fn distinct_chars(pool: Seq<char>) -> Seq<char>
    decreases pool.len(),
{
    if pool.len() == 0 {
        pool
    } else {
        let before = distinct_chars(pool.drop_last());
        if before.contains(pool.last()) {
            before
        } else {
            before.push(pool.last())
        }
    }
}

/// The text number `i` of `length` characters: `i` written with the characters of the
/// pool as digits.
pub open spec fn text_at(i: nat, length: nat, pool: Seq<char>) -> Seq<char>
    decreases length,
{
    if length == 0 {
        Seq::empty()
    } else {
        text_at(i / pool.len(), (length - 1) as nat, pool).push(pool[(i % pool.len()) as int])
    }
}

/// The label number `i` of `n`. With a lone character to make more than one label of,
/// each is longer than the one before, from two characters on.
pub open spec fn label_text(i: nat, n: nat, pool: Seq<char>) -> Seq<char> {
    let own = distinct_chars(pool);
    if own.len() == 1 && n > 1 {
        Seq::new(i + 2, |k: int| own[0])
    } else {
        text_at(i, label_length(n, own.len()), own)
    }
}

/// The hints a session starts with.
pub open spec fn opening_hints(elements: Seq<Element>, pool: Seq<char>) -> Seq<HintView> {
    let kept = kept_of(elements);
    Seq::new(
        kept.len(),
        |i: int|
            HintView {
                element: kept[i],
                label: label_text(i as nat, kept.len(), pool),
                matched: true,
            },
    )
}

/// The hints with their visibility set by a typed prefix.
pub open spec fn refiltered(hints: Seq<HintView>, prefix: Seq<char>) -> Seq<HintView> {
    hints.map_values(|h: HintView| HintView { matched: prefix.is_prefix_of(h.label), ..h })
}

/// The hint number `i`, and no other, is visible.
pub open spec fn sole_match(hints: Seq<HintView>, i: int) -> bool {
    &&& 0 <= i < hints.len()
    &&& hints[i].matched
    &&& forall|j: int| 0 <= j < hints.len() && (#[trigger] hints[j]).matched ==> j == i
}

/// The session with another prefix.
pub open spec fn with_prefix(s: SessionView, prefix: Seq<char>) -> SessionView {
    SessionView { hints: refiltered(s.hints, prefix), prefix }
}

/// A prefix without its last character.
pub open spec fn shortened(prefix: Seq<char>) -> Seq<char> {
    if prefix.len() > 0 {
        prefix.drop_last()
    } else {
        prefix
    }
}

/// What a session is after a key press.
pub open spec fn session_after(s: SessionView, key: Key) -> SessionView {
    if key == Key::Backspace {
        with_prefix(s, shortened(s.prefix))
    } else if key != Key::Esc && letter_of(key) is Some {
        with_prefix(s, s.prefix.push(letter_of(key)->0))
    } else {
        s
    }
}

/// The element of the only visible hint, if there is just one.
pub open spec fn sole_element(hints: Seq<HintView>) -> Option<Element> {
    if exists|i: int| sole_match(hints, i) {
        Some(hints[choose|i: int| sole_match(hints, i)].element)
    } else {
        None
    }
}

/// What a key press asks the caller to do, given the session it came to.
pub open spec fn session_action(s: SessionView, key: Key) -> HintAction {
    if key == Key::Esc {
        HintAction::Dismiss
    } else if key == Key::Backspace {
        HintAction::Updated
    } else if letter_of(key) is Some {
        match sole_element(session_after(s, key).hints) {
            Some(element) => HintAction::Activate(element),
            None => HintAction::Updated,
        }
    } else {
        HintAction::Suppressed
    }
}

// === Element ===

impl Clone for Element {
    fn clone(&self) -> (r: Element)
        ensures
            r == *self,
    {
        Element {
            height: self.height,
            label: self.label.clone(),
            width: self.width,
            x: self.x,
            y: self.y,
            bus_name: self.bus_name.clone(),
            node_path: self.node_path.clone(),
            role: self.role,
        }
    }
}

/// Bounding-box area of an element in square pixels.
pub fn area(e: &Element) -> (r: i64)
    ensures
        r == spec_area(*e),
{
    assert(-0x4000_0000_0000_0000 <= e.width * e.height <= 0x4000_0000_0000_0000)
        by (nonlinear_arith)
        requires
            -0x8000_0000 <= e.width <= 0x8000_0000,
            -0x8000_0000 <= e.height <= 0x8000_0000,
    ;
    e.width as i64 * e.height as i64
}

/// Overlapping area of two elements' bounding boxes in square pixels.
pub fn overlap_area(a: &Element, b: &Element) -> (r: i64)
    ensures
        r == common_area(bounds(*a), bounds(*b)),
        0 <= r < 0x4000_0000_0000_0000,
{
    rect_overlap((a.x, a.y, a.width, a.height), (b.x, b.y, b.width, b.height))
}

/// Collapse overlapping elements into one hint each.
///
/// An accessibility tree exposes a single visible widget as a stack of nested
/// objects (a list cell plus its icon plus its text label), all occupying
/// overlapping screen space. Elements are inspected in the order of the walk
/// (parents before children). A candidate is dropped when its bounding box
/// overlaps an already-accepted element by at least half of its own area.
pub fn deduplicate(elements: Vec<Element>) -> (r: Vec<Element>)
    ensures
        r@ == kept_of(elements@),
{
    let mut kept: Vec<Element> = Vec::new();
    let ghost all = elements@;
    for candidate in it: elements
        invariant
            it.seq() == all,
            kept@ == kept_of(all.take(it.index())),
    {
        proof {
            assert(all.take(it.index() + 1).drop_last() =~= all.take(it.index()));
            assert(all.take(it.index() + 1).last() == candidate);
        }
        let candidate_area: i64 = area(&candidate);
        let mut duplicate = false;
        let mut i: usize = 0;
        while i < kept.len() && !duplicate
            invariant
                i <= kept@.len(),
                candidate_area == spec_area(candidate),
                duplicate ==> duplicates_any(candidate, kept@),
                !duplicate ==> forall|j: int|
                    0 <= j < i ==> !duplicates(candidate, #[trigger] kept@[j]),
            decreases kept@.len() - i,
        {
            if candidate_area > 0 && overlap_area(&candidate, &kept[i]) * 2 >= candidate_area {
                assert(duplicates(candidate, kept@[i as int]));
                duplicate = true;
            }
            i = i + 1;
        }
        if !duplicate {
            assert(!duplicates_any(candidate, kept@));
            kept.push(candidate);
        }
    }
    assert(all.take(all.len() as int) =~= all);
    kept
}

fn nth_text(i: usize, length: usize, pool: &Vec<char>) -> (r: String)
    requires
        pool@.len() > 0 || length == 0,
    ensures
        r@ == text_at(i as nat, length as nat, pool@),
    decreases length,
{
    if length == 0 {
        let r = String::new();
        assert(r@ =~= Seq::empty());
        return r;
    }
    let mut r = nth_text(i / pool.len(), length - 1, pool);
    r.push(pool[i % pool.len()]);
    r
}

fn distinct_pool(chars: &str) -> (r: Vec<char>)
    ensures
        r@ == distinct_chars(chars@),
{
    let all = chars_of(chars);
    let mut own: Vec<char> = Vec::new();
    let mut i: usize = 0;
    assert(own@ =~= chars@.take(0));
    while i < all.len()
        invariant
            i <= all@.len(),
            all@ == chars@,
            own@ == distinct_chars(chars@.take(i as int)),
        decreases all@.len() - i,
    {
        let c = all[i];
        proof {
            assert(chars@.take(i + 1).drop_last() =~= chars@.take(i as int));
            assert(chars@.take(i + 1).last() == c);
        }
        let mut known = false;
        let mut k: usize = 0;
        while k < own.len() && !known
            invariant
                k <= own@.len(),
                known ==> own@.contains(c),
                !known ==> forall|m: int| 0 <= m < k ==> own@[m] != c,
            decreases own@.len() - k,
        {
            known = own[k] == c;
            k = k + 1;
        }
        if !known {
            own.push(c);
        }
        i = i + 1;
    }
    assert(chars@.take(chars@.len() as int) =~= chars@);
    own
}

/// Generate `n` unique, ordered hint labels from `chars`.
///
/// Single-character labels while `n` fits within the pool; growing to two and more
/// characters beyond that. Without a pool the labels are empty.
pub fn generate_labels(n: usize, chars: &str) -> (r: Vec<String>)
    ensures
        r@.len() == n,
        forall|i: int|
            0 <= i < n ==> (#[trigger] r@[i])@ == label_text(i as nat, n as nat, chars@),
{
    let pool = distinct_pool(chars);
    let p: usize = pool.len();
    let mut labels: Vec<String> = Vec::new();
    if p == 1 && n > 1 {
        let c = pool[0];
        let mut label = String::new();
        label.push(c);
        while labels.len() < n
            invariant
                labels@.len() <= n,
                n > 1,
                pool@ == distinct_chars(chars@),
                pool@.len() == 1,
                pool@[0] == c,
                label@ =~= Seq::new(labels@.len() + 1, |k: int| c),
                forall|i: int|
                    0 <= i < labels@.len() ==> (#[trigger] labels@[i])@ == label_text(
                        i as nat,
                        n as nat,
                        chars@,
                    ),
            decreases n - labels@.len(),
        {
            label.push(c);
            assert(label@ =~= label_text(labels@.len(), n as nat, chars@));
            labels.push(label.clone());
        }
        return labels;
    }
    let mut length: usize = 0;
    if p > 0 {
        length = 1;
    }
    if p > 1 {
        let mut rest: usize = n;
        while rest > p
            invariant
                p >= 2,
                label_length(n as nat, p as nat) == length + label_length(rest as nat, p as nat) - 1,
                length >= 1,
                length + rest <= n + 1,
            decreases rest,
        {
            proof {
                lemma_shares_shrink(rest as nat, p as nat);
            }
            rest = (rest - 1) / p + 1;
            length = length + 1;
        }
    }
    while labels.len() < n
        invariant
            labels@.len() <= n,
            pool@ == distinct_chars(chars@),
            !(pool@.len() == 1 && n > 1),
            pool@.len() > 0 || length == 0,
            length == label_length(n as nat, pool@.len()),
            forall|i: int|
                0 <= i < labels@.len() ==> (#[trigger] labels@[i])@ == label_text(
                    i as nat,
                    n as nat,
                    chars@,
                ),
        decreases n - labels@.len(),
    {
        let label = nth_text(labels.len(), length, &pool);
        labels.push(label);
    }
    labels
}

// === HintSession ===

impl HintSession {
    /// Build a new session from raw enumerated elements.
    ///
    /// Deduplicates overlapping elements, generates labels, and returns the
    /// session together with the `(element, label)` pairs the backend should
    /// render.
    pub fn new(elements: Vec<Element>, hint_chars: &str) -> (r: (
        HintSession,
        Vec<(Element, String)>,
    ))
        ensures
            r.0@ == (SessionView {
                hints: opening_hints(elements@, hint_chars@),
                prefix: Seq::empty(),
            }),
            r.1@.len() == r.0@.hints.len(),
            forall|i: int|
                0 <= i < r.1@.len() ==> (#[trigger] r.1@[i]).0 == r.0@.hints[i].element
                    && r.1@[i].1@ == r.0@.hints[i].label,
    {
        let ghost all = elements@;
        let kept = deduplicate(elements);
        let labels = generate_labels(kept.len(), hint_chars);
        let mut hints: Vec<Hint> = Vec::new();
        let mut pairs: Vec<(Element, String)> = Vec::new();
        let mut i: usize = 0;
        while i < labels.len()
            invariant
                i <= labels@.len(),
                kept@ == kept_of(all),
                labels@.len() == kept@.len(),
                forall|k: int|
                    0 <= k < labels@.len() ==> (#[trigger] labels@[k])@ == label_text(
                        k as nat,
                        kept@.len(),
                        hint_chars@,
                    ),
                hint_views(hints@) =~= opening_hints(all, hint_chars@).take(i as int),
                hints@.len() == i,
                pairs@.len() == i,
                forall|k: int|
                    0 <= k < i ==> (#[trigger] pairs@[k]).0 == kept@[k] && pairs@[k].1@
                        == labels@[k]@,
            decreases labels@.len() - i,
        {
            let element = kept[i].clone();
            let label = labels[i].clone();
            let hint = Hint { element: kept[i].clone(), label: labels[i].clone(), matched: true };
            let ghost before = hint_views(hints@);
            hints.push(hint);
            pairs.push((element, label));
            proof {
                assert(labels@[i as int]@ == label_text(i as nat, kept@.len(), hint_chars@));
                assert(hint_views(hints@) =~= before.push(hint@));
                assert(opening_hints(all, hint_chars@).take(i + 1) =~= opening_hints(
                    all,
                    hint_chars@,
                ).take(i as int).push(opening_hints(all, hint_chars@)[i as int]));
                assert(hint@ == opening_hints(all, hint_chars@)[i as int]);
            }
            i = i + 1;
        }
        let hint_prefix = String::new();
        assert(hint_prefix@ =~= Seq::empty());
        assert(opening_hints(all, hint_chars@).take(labels@.len() as int) =~= opening_hints(
            all,
            hint_chars@,
        ));
        (HintSession { hints, hint_prefix }, pairs)
    }

    /// Process a single key press. Returns the action the caller should perform.
    pub fn process_key(&mut self, key: Key) -> (r: HintAction)
        ensures
            final(self)@ == session_after(old(self)@, key),
            r == session_action(old(self)@, key),
    {
        if key == Key::Esc {
            return HintAction::Dismiss;
        }
        if key == Key::Backspace {
            let _gone = self.hint_prefix.pop();
            self.refilter();
            return HintAction::Updated;
        }
        if let Some(c) = key_to_hint_char(key) {
            self.hint_prefix.push(c);
            self.refilter();
            if let Some(idx) = self.unique_match() {
                let element = self.hints[idx].element.clone();
                proof {
                    let other = choose|i: int| sole_match(self@.hints, i);
                    assert(sole_match(self@.hints, idx as int));
                    assert(other == idx);
                    assert(self@.hints[idx as int].element == element);
                }
                return HintAction::Activate(element);
            }
            return HintAction::Updated;
        }
        HintAction::Suppressed
    }

    /// All hints with their current visibility state.
    ///
    /// Used by the backend to show/hide overlay chips after each keystroke.
    pub fn matched_hints(&self) -> (r: Vec<(&Element, &str, bool)>)
        ensures
            r@.len() == self@.hints.len(),
            forall|i: int|
                0 <= i < r@.len() ==> *(#[trigger] r@[i]).0 == self@.hints[i].element && r@[i].1@
                    == self@.hints[i].label && r@[i].2 == self@.hints[i].matched,
    {
        let mut out: Vec<(&Element, &str, bool)> = Vec::new();
        let mut i: usize = 0;
        while i < self.hints.len()
            invariant
                i <= self.hints@.len(),
                out@.len() == i,
                forall|k: int|
                    0 <= k < i ==> *(#[trigger] out@[k]).0 == self@.hints[k].element && out@[k].1@
                        == self@.hints[k].label && out@[k].2 == self@.hints[k].matched,
            decreases self.hints@.len() - i,
        {
            let h = &self.hints[i];
            assert(self@.hints[i as int] == h@);
            out.push((&h.element, h.label.as_str(), h.matched));
            i = i + 1;
        }
        out
    }

    fn refilter(&mut self)
        ensures
            final(self)@ == with_prefix(old(self)@, old(self).hint_prefix@),
            final(self).hint_prefix == old(self).hint_prefix,
    {
        let ghost before = hint_views(self.hints@);
        let ghost prefix = self.hint_prefix@;
        let mut i: usize = 0;
        while i < self.hints.len()
            invariant
                i <= self.hints@.len(),
                self.hint_prefix == old(self).hint_prefix,
                prefix == self.hint_prefix@,
                before == hint_views(old(self).hints@),
                self.hints@.len() == before.len(),
                forall|k: int|
                    0 <= k < i ==> (#[trigger] self.hints@[k])@ == (HintView {
                        matched: prefix.is_prefix_of(before[k].label),
                        ..before[k]
                    }),
                forall|k: int|
                    i <= k < self.hints@.len() ==> (#[trigger] self.hints@[k])@ == before[k],
            decreases self.hints@.len() - i,
        {
            let matched = starts_with(self.hints[i].label.as_str(), self.hint_prefix.as_str());
            assert(self.hints@[i as int]@ == before[i as int]);
            self.hints[i].matched = matched;
            i = i + 1;
        }
        assert(hint_views(self.hints@) =~= refiltered(before, prefix));
    }

    fn unique_match(&self) -> (r: Option<usize>)
        ensures
            match r {
                Some(i) => sole_match(self@.hints, i as int),
                None => forall|i: int| !(#[trigger] sole_match(self@.hints, i)),
            },
    {
        let mut found: Option<usize> = None;
        let mut i: usize = 0;
        while i < self.hints.len()
            invariant
                i <= self.hints@.len(),
                match found {
                    Some(k) => k < i && self@.hints[k as int].matched && forall|j: int|
                        0 <= j < i && (#[trigger] self@.hints[j]).matched ==> j == k,
                    None => forall|j: int| 0 <= j < i ==> !(#[trigger] self@.hints[j]).matched,
                },
            decreases self.hints@.len() - i,
        {
            assert(self@.hints[i as int] == self.hints@[i as int]@);
            if self.hints[i].matched {
                if found.is_some() {
                    return None;
                }
                found = Some(i);
            }
            i = i + 1;
        }
        found
    }
}

// === Laws ===

/// Elements are kept in order, none that is kept duplicates one kept before it,
/// and every element that is not kept duplicates one that is.
pub proof fn kept_elements_are_no_duplicates(elements: Seq<Element>)
    ensures
        forall|i: int, j: int|
            0 <= i < j < kept_of(elements).len() ==> !duplicates(
                #[trigger] kept_of(elements)[j],
                #[trigger] kept_of(elements)[i],
            ),
        forall|k: int|
            0 <= k < elements.len() ==> kept_of(elements).contains(#[trigger] elements[k])
                || duplicates_any(elements[k], kept_of(elements)),
    decreases elements.len(),
{
    if elements.len() > 0 {
        let init = elements.drop_last();
        let last = elements.last();
        let before = kept_of(init);
        let kept = kept_of(elements);
        kept_elements_are_no_duplicates(init);
        assert forall|i: int, j: int| 0 <= i < j < kept.len() implies !duplicates(
            #[trigger] kept[j],
            #[trigger] kept[i],
        ) by {
            assert(kept[i] == before[i]);
            if j < before.len() {
                assert(kept[j] == before[j]);
            }
        }
        assert forall|k: int| 0 <= k < elements.len() implies kept.contains(#[trigger] elements[k])
            || duplicates_any(elements[k], kept) by {
            if k < init.len() {
                assert(init[k] == elements[k]);
                if before.contains(init[k]) {
                    let i = choose|i: int| 0 <= i < before.len() && before[i] == init[k];
                    assert(kept[i] == elements[k]);
                } else {
                    let i = choose|i: int|
                        0 <= i < before.len() && duplicates(init[k], #[trigger] before[i]);
                    assert(kept[i] == before[i]);
                }
            } else if !duplicates_any(last, before) {
                assert(kept[before.len() as int] == elements[k]);
            }
        }
    }
}

proof fn lemma_enough_texts(n: nat, p: nat)
    requires
        p >= 2,
    ensures
        n <= texts_of(p, label_length(n, p)),
        label_length(n, p) >= 1,
        n > p ==> texts_of(p, (label_length(n, p) - 1) as nat) < n,
    decreases n,
{
    if n <= p {
        reveal_with_fuel(texts_of, 2);
    } else {
        let share = ((n - 1) / (p as int) + 1) as nat;
        lemma_shares_shrink(n, p);
        lemma_enough_texts(share, p);
        let length = label_length(share, p);
        assert(p * share <= p * texts_of(p, length)) by (nonlinear_arith)
            requires
                share <= texts_of(p, length),
        ;
        let fewer = (length - 1) as nat;
        reveal_with_fuel(texts_of, 2);
        if share > p {
            assert(p * texts_of(p, fewer) <= p * (share - 1)) by (nonlinear_arith)
                requires
                    texts_of(p, fewer) <= share - 1,
                    p >= 2,
            ;
            assert(texts_of(p, length) == p * texts_of(p, fewer));
            assert(share - 1 == (n - 1) / (p as int));
        } else {
            assert(length == 1);
            assert(texts_of(p, 1) == p * texts_of(p, 0));
            assert(p * 1 == p) by (nonlinear_arith);
        }
    }
}

proof fn lemma_text_len(i: nat, length: nat, pool: Seq<char>)
    requires
        pool.len() > 0,
    ensures
        text_at(i, length, pool).len() == length,
    decreases length,
{
    if length > 0 {
        lemma_text_len(i / pool.len(), (length - 1) as nat, pool);
    }
}

proof fn lemma_texts_differ(i: nat, j: nat, length: nat, pool: Seq<char>)
    requires
        i < texts_of(pool.len(), length),
        j < texts_of(pool.len(), length),
        pool.len() > 0,
        pool.no_duplicates(),
        text_at(i, length, pool) == text_at(j, length, pool),
    ensures
        i == j,
    decreases length,
{
    if length > 0 {
        let p = pool.len();
        let fewer = (length - 1) as nat;
        vstd::arithmetic::div_mod::lemma_fundamental_div_mod(i as int, p as int);
        vstd::arithmetic::div_mod::lemma_fundamental_div_mod(j as int, p as int);
        assert(text_at(i, length, pool).drop_last() =~= text_at(i / p, fewer, pool));
        assert(text_at(j, length, pool).drop_last() =~= text_at(j / p, fewer, pool));
        assert(text_at(i, length, pool).last() == pool[(i % p) as int]);
        assert(text_at(j, length, pool).last() == pool[(j % p) as int]);
        let cap = texts_of(p, fewer);
        assert(i / p < cap && j / p < cap) by (nonlinear_arith)
            requires
                i < p * cap,
                j < p * cap,
                p > 0,
        ;
        lemma_texts_differ(i / p, j / p, fewer, pool);
    }
}

/// The characters of a pool are different once each is counted once; nothing changes
/// where they were.
proof fn lemma_distinct_chars(pool: Seq<char>)
    ensures
        distinct_chars(pool).no_duplicates(),
        pool.len() > 0 ==> distinct_chars(pool).len() > 0,
        forall|k: int| 0 <= k < pool.len() ==> distinct_chars(pool).contains(#[trigger] pool[k]),
        forall|k: int|
            0 <= k < distinct_chars(pool).len() ==> pool.contains(
                #[trigger] distinct_chars(pool)[k],
            ),
        pool.no_duplicates() ==> distinct_chars(pool) == pool,
    decreases pool.len(),
{
    if pool.len() > 0 {
        let init = pool.drop_last();
        let c = pool.last();
        let before = distinct_chars(init);
        let own = distinct_chars(pool);
        lemma_distinct_chars(init);
        if !before.contains(c) {
            assert(own[before.len() as int] == c);
        }
        assert forall|k: int| 0 <= k < pool.len() implies own.contains(#[trigger] pool[k]) by {
            if k < init.len() {
                assert(before.contains(init[k]));
                let at = choose|at: int| 0 <= at < before.len() && before[at] == init[k];
                assert(own[at] == pool[k]);
            }
        }
        assert forall|k: int| 0 <= k < own.len() implies pool.contains(#[trigger] own[k]) by {
            if k < before.len() {
                assert(init.contains(before[k]));
                let at = choose|at: int| 0 <= at < init.len() && init[at] == before[k];
                assert(pool[at] == own[k]);
            } else {
                assert(pool[pool.len() - 1] == own[k]);
            }
        }
        if pool.no_duplicates() {
            assert(init.no_duplicates());
            if before.contains(c) {
                let at = choose|at: int| 0 <= at < before.len() && before[at] == c;
                assert(pool[at] == pool[pool.len() - 1]);
            }
            assert(own =~= pool);
        }
    }
}

/// Whatever the pool, if only there is one, no two labels are alike. With two or more
/// different characters all are of one length, the least with which there are enough.
pub proof fn labels_are_distinct(i: nat, j: nat, n: nat, pool: Seq<char>)
    requires
        i < n,
        j < n,
        pool.len() > 0,
    ensures
        i != j ==> label_text(i, n, pool) != label_text(j, n, pool),
        ({
            let p = distinct_chars(pool).len();
            p >= 2 ==> {
                &&& label_text(i, n, pool).len() == label_length(n, p)
                &&& label_text(j, n, pool).len() == label_length(n, p)
                &&& label_length(n, p) >= 1
                &&& n <= texts_of(p, label_length(n, p))
                &&& forall|length: nat|
                    1 <= length < label_length(n, p) ==> #[trigger] texts_of(p, length) < n
            }
        }),
{
    let own = distinct_chars(pool);
    let p = own.len();
    let length = label_length(n, p);
    lemma_distinct_chars(pool);
    if p >= 2 {
        lemma_enough_texts(n, p);
        lemma_text_len(i, length, own);
        lemma_text_len(j, length, own);
        if label_text(i, n, pool) == label_text(j, n, pool) {
            lemma_texts_differ(i, j, length, own);
        }
        assert forall|short: nat| 1 <= short < length implies #[trigger] texts_of(p, short)
            < n by {
            assert(n > p);
            lemma_texts_grow(p, short, (length - 1) as nat);
        }
    } else if i != j {
        assert(label_text(i, n, pool).len() == i + 2);
        assert(label_text(j, n, pool).len() == j + 2);
    }
}

proof fn lemma_texts_grow(p: nat, short: nat, long: nat)
    requires
        p >= 1,
        short <= long,
    ensures
        texts_of(p, short) <= texts_of(p, long),
    decreases long,
{
    if short < long {
        let fewer = (long - 1) as nat;
        lemma_texts_grow(p, short, fewer);
        assert(texts_of(p, fewer) <= p * texts_of(p, fewer)) by (nonlinear_arith)
            requires
                p >= 1,
        ;
    }
}

/// Every element that is kept gets a hint, and with a pool to make labels of, no two have
/// the same label.
pub proof fn every_kept_element_has_a_hint(elements: Seq<Element>, pool: Seq<char>)
    ensures
        opening_hints(elements, pool).len() == kept_of(elements).len(),
        forall|i: int|
            0 <= i < kept_of(elements).len() ==> (#[trigger] opening_hints(
                elements,
                pool,
            )[i]).element == kept_of(elements)[i],
        pool.len() > 0 ==> forall|i: int, j: int|
            0 <= i < j < kept_of(elements).len() ==> (#[trigger] opening_hints(
                elements,
                pool,
            )[i]).label != (#[trigger] opening_hints(elements, pool)[j]).label,
{
    if pool.len() > 0 {
        let hints = opening_hints(elements, pool);
        assert forall|i: int, j: int| 0 <= i < j < hints.len() implies (#[trigger] hints[i]).label
            != (#[trigger] hints[j]).label by {
            labels_are_distinct(i as nat, j as nat, kept_of(elements).len(), pool);
        }
    }
}

/// The characters of labels are all different.
proof fn lemma_hint_characters_differ()
    ensures
        HINT_CHARS@.len() == 26,
        HINT_CHARS@.no_duplicates(),
{
    reveal_strlit("asdfghjklqwertyuiopzxcvbnm");
}

/// Every label can be typed. With its first `typed` characters entered, pressing the
/// key of the next one keeps its element among those shown, and either picks that
/// element or waits for more; the key of the last one picks it.
pub proof fn typing_a_label_picks_its_element(
    elements: Seq<Element>,
    i: int,
    typed: int,
    key: Key,
)
    requires
        0 <= i < opening_hints(elements, HINT_CHARS@).len(),
        0 <= typed < opening_hints(elements, HINT_CHARS@)[i].label.len(),
        letter_of(key) == Some(opening_hints(elements, HINT_CHARS@)[i].label[typed]),
    ensures
        ({
            let hints = opening_hints(elements, HINT_CHARS@);
            let opened = SessionView { hints, prefix: Seq::empty() };
            let s = with_prefix(opened, hints[i].label.take(typed));
            let action = session_action(s, key);
            &&& session_after(s, key) == with_prefix(opened, hints[i].label.take(typed + 1))
            &&& session_after(s, key).hints[i].matched
            &&& action is Updated || action == HintAction::Activate(hints[i].element)
            &&& typed + 1 == hints[i].label.len() ==> action == HintAction::Activate(
                hints[i].element,
            )
        }),
{
    let pool = HINT_CHARS@;
    let n = kept_of(elements).len();
    let hints = opening_hints(elements, pool);
    let opened = SessionView { hints, prefix: Seq::empty() };
    let label = hints[i].label;
    let s = with_prefix(opened, label.take(typed));
    let t = session_after(s, key);
    lemma_hint_characters_differ();
    lemma_distinct_chars(pool);
    assert(s.prefix.push(label[typed]) =~= label.take(typed + 1));
    assert(t.hints =~= with_prefix(opened, label.take(typed + 1)).hints);
    assert(t.hints[i].matched);
    assert forall|k: int| #[trigger] sole_match(t.hints, k) implies k == i by {
        assert(t.hints[i].matched);
    }
    if typed + 1 == label.len() {
        assert(sole_match(t.hints, i)) by {
            assert forall|j: int|
                0 <= j < t.hints.len() && (#[trigger] t.hints[j]).matched implies j == i by {
                assert(label.take(typed + 1) =~= label);
                assert(label.is_prefix_of(hints[j].label));
                labels_are_distinct(i as nat, j as nat, n, pool);
                assert(hints[j].label =~= label);
            }
        }
    }
}

/// Backspace takes back the last character: the session is as it was before that
/// character was typed.
pub proof fn backspace_takes_back_a_character(s: SessionView, key: Key)
    requires
        letter_of(key) is Some,
        s.hints == refiltered(s.hints, s.prefix),
    ensures
        session_after(session_after(s, key), Key::Backspace) == s,
{
    let typed = session_after(s, key);
    assert(typed.prefix.drop_last() =~= s.prefix);
    assert(refiltered(typed.hints, s.prefix) =~= refiltered(s.hints, s.prefix));
}

/// Whatever key comes, what is visible is what begins with the typed prefix, and
/// neither elements nor labels change.
pub proof fn sessions_show_what_is_typed(s: SessionView, key: Key)
    requires
        s.hints == refiltered(s.hints, s.prefix),
    ensures
        session_after(s, key).hints == refiltered(
            session_after(s, key).hints,
            session_after(s, key).prefix,
        ),
        session_after(s, key).hints.len() == s.hints.len(),
        forall|i: int|
            0 <= i < s.hints.len() ==> (#[trigger] session_after(s, key).hints[i]).element
                == s.hints[i].element && session_after(s, key).hints[i].label == s.hints[i].label,
{
    let after = session_after(s, key);
    assert(refiltered(after.hints, after.prefix) =~= after.hints);
}

} // verus!
