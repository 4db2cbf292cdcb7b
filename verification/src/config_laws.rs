//! What a configuration document means, told by its nodes, their properties and the
//! rules they become.

use crate::actions::{Corner, CycleDirection, Scale, Side, StepView, WindowAction, Workspace};
use crate::combo::{combo_of, modifier_named, modifiers_of, ComboFault, ComboView, Modifier};
use crate::config::{
    action_named, all_digits, anchor_named, bind_of, binds_from, config_from, config_of,
    corner_named, digit_fault, digits_value, direction_named, int_prop, keymap_of, loaded,
    matcher_of, modmap_entry, modmap_from, multipurpose_of, number_fault, number_of, required_key,
    scale_prop, side_named, step_of, steps_from, tap_hold_entry, tap_holds_from, with_node,
    workspace_named, ConfigFault, NumberFault,
};
use crate::document::{argument, kdl_nodes, property, EntryView, NodeView, ValueView};
use crate::key::{key_named, names_are_distinct, Key};
use crate::pattern::pattern_language;
use crate::rules::{binding_of, tap_hold_of, ConfigView, KeymapView, MatcherView, MultipurposeView};
use crate::text::{
    first_pieces_end_at_the_first_separator, lower_ascii, split_on,
    texts_without_separators_are_one_piece,
};
use vstd::prelude::*;

verus! {

// === Properties ===

/// A property of a node names a key.
pub open spec fn names_key(n: NodeView, property: Seq<char>, key: Key) -> bool {
    n.prop(property) matches Some(text) && lower_ascii(text) == key.spec_name()
}

/// A property is the value of the first entry with its name, and the argument that of the
/// first entry without one.
pub proof fn first_entries_count(entries: Seq<EntryView>, name: Seq<char>)
    ensures
        match property(entries, name) {
            Some(v) => exists|i: int|
                {
                    &&& 0 <= i < entries.len()
                    &&& #[trigger] entries[i].name == Some(name) && entries[i].value == v
                    &&& forall|j: int| 0 <= j < i ==> (#[trigger] entries[j]).name != Some(name)
                },
            None => forall|i: int|
                0 <= i < entries.len() ==> (#[trigger] entries[i]).name != Some(name),
        },
        match argument(entries) {
            Some(v) => exists|i: int|
                {
                    &&& 0 <= i < entries.len()
                    &&& #[trigger] entries[i].name is None && entries[i].value == v
                    &&& forall|j: int| 0 <= j < i ==> (#[trigger] entries[j]).name is Some
                },
            None => forall|i: int| 0 <= i < entries.len() ==> (#[trigger] entries[i]).name is Some,
        },
    decreases entries.len(),
{
    if entries.len() > 0 {
        let rest = entries.drop_first();
        first_entries_count(rest, name);
        assert forall|i: int| 0 <= i < rest.len() implies #[trigger] rest[i] == entries[i + 1] by {}
        assert forall|i: int| 1 <= i < entries.len() implies #[trigger] entries[i] == rest[
            i - 1
        ] by {}
        if entries[0].name != Some(name) {
            if property(rest, name) is Some {
                let v = property(rest, name)->0;
                let i = choose|i: int|
                    {
                        &&& 0 <= i < rest.len()
                        &&& #[trigger] rest[i].name == Some(name) && rest[i].value == v
                        &&& forall|j: int| 0 <= j < i ==> (#[trigger] rest[j]).name != Some(name)
                    };
                assert(entries[i + 1].name == Some(name) && entries[i + 1].value == v);
            }
        } else {
            assert(entries[0].name == Some(name));
        }
        if entries[0].name is Some {
            if argument(rest) is Some {
                let v = argument(rest)->0;
                let i = choose|i: int|
                    {
                        &&& 0 <= i < rest.len()
                        &&& #[trigger] rest[i].name is None && rest[i].value == v
                        &&& forall|j: int| 0 <= j < i ==> (#[trigger] rest[j]).name is Some
                    };
                assert(entries[i + 1].name is None && entries[i + 1].value == v);
            }
        } else {
            assert(entries[0].name is None);
        }
    }
}

/// A property and an argument say something only where they are texts.
pub proof fn only_texts_are_said(n: NodeView, name: Seq<char>, text: Seq<char>)
    ensures
        n.prop(name) == Some(text) <==> property(n.entries, name) == Some(ValueView::Text(text)),
        n.arg() == Some(text) <==> argument(n.entries) == Some(ValueView::Text(text)),
{
}

/// A key is found by its name, whatever the case it is written in, and by nothing else.
pub proof fn keys_are_found_by_name(text: Seq<char>, key: Key)
    ensures
        key_named(text) == Some(key) <==> lower_ascii(text) == key.spec_name(),
{
    if lower_ascii(text) == key.spec_name() {
        let found = choose|k: Key| k.spec_name() == lower_ascii(text);
        names_are_distinct(found, key);
    }
}

proof fn lemma_required_key(n: NodeView, name: Seq<char>, key: Key)
    ensures
        names_key(n, name, key) <==> required_key(n, name) == Ok::<Key, ConfigFault>(key),
{
    if let Some(text) = n.prop(name) {
        keys_are_found_by_name(text, key);
    }
}

// === Tap-hold rules ===

/// A node maps a key: it says which key by `key`, which it taps by `tap`, and by `hold`
/// one whose modifier it holds.
pub open spec fn taps_and_holds(n: NodeView, key: Key, tap: Key, hold: Modifier) -> bool {
    &&& names_key(n, "key"@, key)
    &&& names_key(n, "tap"@, tap)
    &&& exists|k: Key| #[trigger] names_key(n, "hold"@, k) && k.spec_modifier() == Some(hold)
}

/// The node number `i` is the last, of those from `from` on, that names a key by a property.
pub open spec fn last_naming(
    nodes: Seq<NodeView>,
    from: int,
    property: Seq<char>,
    key: Key,
    i: int,
) -> bool {
    &&& from <= i < nodes.len()
    &&& names_key(nodes[i], property, key)
    &&& forall|j: int| i < j < nodes.len() ==> !names_key(#[trigger] nodes[j], property, key)
}

/// Some node, from `from` on, names a key by a property.
pub open spec fn some_names(
    nodes: Seq<NodeView>,
    from: int,
    property: Seq<char>,
    key: Key,
) -> bool {
    exists|i: int| from <= i < nodes.len() && names_key(#[trigger] nodes[i], property, key)
}

proof fn lemma_tap_hold_entry(n: NodeView, key: Key)
    requires
        tap_hold_entry(n) is Ok,
    ensures
        names_key(n, "key"@, key) <==> tap_hold_entry(n)->Ok_0.0 == key,
        n.name == "map"@,
        taps_and_holds(
            n,
            tap_hold_entry(n)->Ok_0.0,
            tap_hold_entry(n)->Ok_0.1.0,
            tap_hold_entry(n)->Ok_0.1.1,
        ),
{
    let (k, (tap, m)) = tap_hold_entry(n)->Ok_0;
    let hold = required_key(n, "hold"@)->Ok_0;
    lemma_required_key(n, "key"@, key);
    lemma_required_key(n, "key"@, k);
    lemma_required_key(n, "tap"@, tap);
    lemma_required_key(n, "hold"@, hold);
    assert(names_key(n, "hold"@, hold) && hold.spec_modifier() == Some(m));
}

proof fn lemma_tap_holds(
    nodes: Seq<NodeView>,
    from: int,
    done: Map<Key, (Key, Modifier)>,
    key: Key,
)
    requires
        0 <= from,
        tap_holds_from(nodes, from, done) is Ok,
    ensures
        ({
            let map = tap_holds_from(nodes, from, done)->Ok_0;
            &&& map.contains_key(key) <==> done.contains_key(key) || some_names(
                nodes,
                from,
                "key"@,
                key,
            )
            &&& !some_names(nodes, from, "key"@, key) && done.contains_key(key) ==> map[key]
                == done[key]
            &&& forall|i: int|
                #[trigger]
                last_naming(nodes, from, "key"@, key, i) ==> taps_and_holds(
                    nodes[i],
                    key,
                    map[key].0,
                    map[key].1,
                )
            &&& forall|i: int| from <= i < nodes.len() ==> (#[trigger] nodes[i]).name == "map"@
        }),
    decreases nodes.len() - from,
{
    if from < nodes.len() {
        let (k, target) = tap_hold_entry(nodes[from])->Ok_0;
        lemma_tap_hold_entry(nodes[from], key);
        lemma_tap_holds(nodes, from + 1, done.insert(k, target), key);
        let map = tap_holds_from(nodes, from, done)->Ok_0;
        assert(map == tap_holds_from(nodes, from + 1, done.insert(k, target))->Ok_0);
        if some_names(nodes, from, "key"@, key) {
            let i = choose|i: int|
                from <= i < nodes.len() && names_key(#[trigger] nodes[i], "key"@, key);
            assert(i == from || some_names(nodes, from + 1, "key"@, key));
        }
        if some_names(nodes, from + 1, "key"@, key) {
            let i = choose|i: int|
                from + 1 <= i < nodes.len() && names_key(#[trigger] nodes[i], "key"@, key);
            assert(some_names(nodes, from, "key"@, key));
        }
        assert forall|i: int| #[trigger]
            last_naming(nodes, from, "key"@, key, i) implies taps_and_holds(
            nodes[i],
            key,
            map[key].0,
            map[key].1,
        ) by {
            if i > from {
                assert(last_naming(nodes, from + 1, "key"@, key, i));
            } else {
                assert(!some_names(nodes, from + 1, "key"@, key));
            }
        }
    }
}

/// A tap-hold rule maps exactly the keys that its children name by `key`, and takes each
/// to the key that the last child to name it gives by `tap`, and to the modifier of the
/// key that this child gives by `hold`.
pub proof fn tap_hold_rules_map_what_they_name(n: NodeView, key: Key)
    requires
        multipurpose_of(n) is Ok,
    ensures
        ({
            let map = multipurpose_of(n)->Ok_0.map;
            &&& map.contains_key(key) <==> some_names(n.children, 0, "key"@, key)
            &&& forall|i: int|
                #[trigger]
                last_naming(n.children, 0, "key"@, key, i) ==> taps_and_holds(
                    n.children[i],
                    key,
                    map[key].0,
                    map[key].1,
                )
        }),
{
    lemma_tap_holds(n.children, 0, Map::empty(), key);
}

/// A tap-hold rule is read exactly if its patterns are and every child is a `map` that
/// names a key, one to tap and a modifier's to hold.
pub proof fn tap_hold_rules_are_read(n: NodeView)
    ensures
        multipurpose_of(n) is Ok <==> matcher_of(n) is Ok && forall|i: int|
            0 <= i < n.children.len() ==> is_tap_hold(#[trigger] n.children[i]),
{
    lemma_tap_holds_read(n.children, 0, Map::empty());
}

/// A node is a `map` that names a key, one to tap and a modifier's to hold.
pub open spec fn is_tap_hold(n: NodeView) -> bool {
    n.name == "map"@ && exists|key: Key, tap: Key, hold: Modifier|
        taps_and_holds(n, key, tap, hold)
}

proof fn lemma_is_tap_hold(n: NodeView)
    ensures
        tap_hold_entry(n) is Ok <==> is_tap_hold(n),
{
    if tap_hold_entry(n) is Ok {
        lemma_tap_hold_entry(n, Key::A);
    }
    if is_tap_hold(n) {
        let (key, tap, hold) = choose|key: Key, tap: Key, hold: Modifier|
            taps_and_holds(n, key, tap, hold);
        lemma_required_key(n, "key"@, key);
        lemma_required_key(n, "tap"@, tap);
        let k = choose|k: Key| #[trigger]
            names_key(n, "hold"@, k) && k.spec_modifier() == Some(hold);
        lemma_required_key(n, "hold"@, k);
    }
}

proof fn lemma_tap_holds_read(
    nodes: Seq<NodeView>,
    from: int,
    done: Map<Key, (Key, Modifier)>,
)
    requires
        0 <= from,
    ensures
        tap_holds_from(nodes, from, done) is Ok <==> forall|i: int|
            from <= i < nodes.len() ==> is_tap_hold(#[trigger] nodes[i]),
    decreases nodes.len() - from,
{
    if from < nodes.len() {
        lemma_is_tap_hold(nodes[from]);
        if tap_hold_entry(nodes[from]) is Ok {
            let (k, target) = tap_hold_entry(nodes[from])->Ok_0;
            lemma_tap_holds_read(nodes, from + 1, done.insert(k, target));
        }
    }
}

// === Modmaps ===

proof fn lemma_modmap_entry(n: NodeView, key: Key)
    requires
        modmap_entry(n) is Ok,
    ensures
        names_key(n, "from"@, key) <==> modmap_entry(n)->Ok_0.0 == key,
        names_key(n, "to"@, modmap_entry(n)->Ok_0.1),
{
    let (from, to) = modmap_entry(n)->Ok_0;
    lemma_required_key(n, "from"@, key);
    lemma_required_key(n, "to"@, to);
}

/// A modmap adds the keys that its children name by `from`, each taken to the key that the
/// last child to name it gives by `to`; what was mapped before and is not named stays.
pub proof fn modmaps_map_what_they_name(
    nodes: Seq<NodeView>,
    from: int,
    done: Map<Key, Key>,
    key: Key,
)
    requires
        0 <= from,
        modmap_from(nodes, from, done) is Ok,
    ensures
        ({
            let map = modmap_from(nodes, from, done)->Ok_0;
            &&& map.contains_key(key) <==> done.contains_key(key) || some_names(
                nodes,
                from,
                "from"@,
                key,
            )
            &&& !some_names(nodes, from, "from"@, key) && done.contains_key(key) ==> map[key]
                == done[key]
            &&& forall|i: int|
                #[trigger]
                last_naming(nodes, from, "from"@, key, i) ==> names_key(nodes[i], "to"@, map[key])
        }),
    decreases nodes.len() - from,
{
    if from < nodes.len() {
        let (k, to) = modmap_entry(nodes[from])->Ok_0;
        lemma_modmap_entry(nodes[from], key);
        modmaps_map_what_they_name(nodes, from + 1, done.insert(k, to), key);
        let map = modmap_from(nodes, from, done)->Ok_0;
        assert(map == modmap_from(nodes, from + 1, done.insert(k, to))->Ok_0);
        if some_names(nodes, from, "from"@, key) {
            let i = choose|i: int|
                from <= i < nodes.len() && names_key(#[trigger] nodes[i], "from"@, key);
            assert(i == from || some_names(nodes, from + 1, "from"@, key));
        }
        if some_names(nodes, from + 1, "from"@, key) {
            let i = choose|i: int|
                from + 1 <= i < nodes.len() && names_key(#[trigger] nodes[i], "from"@, key);
            assert(some_names(nodes, from, "from"@, key));
        }
        assert forall|i: int| #[trigger]
            last_naming(nodes, from, "from"@, key, i) implies names_key(
            nodes[i],
            "to"@,
            map[key],
        ) by {
            if i > from {
                assert(last_naming(nodes, from + 1, "from"@, key, i));
            } else {
                assert(!some_names(nodes, from + 1, "from"@, key));
            }
        }
    }
}

// === Bindings ===

/// A node binds a combo: its argument says which, and some child is a step on this OS.
pub open spec fn binds(n: NodeView, os: Seq<char>, combo: ComboView) -> bool {
    &&& n.arg() matches Some(text) && combo_of(text) == Ok::<ComboView, ComboFault>(combo)
    &&& steps_from(n.children, os, 0, Seq::empty()) matches Ok(steps) && steps.len() > 0
}

/// Some node, from `from` on, binds a combo.
pub open spec fn some_binds(
    nodes: Seq<NodeView>,
    os: Seq<char>,
    from: int,
    combo: ComboView,
) -> bool {
    exists|i: int| from <= i < nodes.len() && binds(#[trigger] nodes[i], os, combo)
}

/// The node number `i` is the last, of those from `from` on, that binds a combo.
pub open spec fn last_binding(
    nodes: Seq<NodeView>,
    os: Seq<char>,
    from: int,
    combo: ComboView,
    i: int,
) -> bool {
    &&& from <= i < nodes.len()
    &&& binds(nodes[i], os, combo)
    &&& forall|j: int| i < j < nodes.len() ==> !binds(#[trigger] nodes[j], os, combo)
}

proof fn lemma_binds(
    nodes: Seq<NodeView>,
    os: Seq<char>,
    from: int,
    done: Map<ComboView, Seq<StepView>>,
    combo: ComboView,
)
    requires
        0 <= from,
        binds_from(nodes, os, from, done) is Ok,
    ensures
        ({
            let map = binds_from(nodes, os, from, done)->Ok_0;
            &&& map.contains_key(combo) <==> done.contains_key(combo) || some_binds(
                nodes,
                os,
                from,
                combo,
            )
            &&& !some_binds(nodes, os, from, combo) && done.contains_key(combo) ==> map[combo]
                == done[combo]
            &&& forall|i: int|
                #[trigger]
                last_binding(nodes, os, from, combo, i) ==> steps_from(
                    nodes[i].children,
                    os,
                    0,
                    Seq::empty(),
                ) == Ok::<Seq<StepView>, ConfigFault>(map[combo])
            &&& forall|i: int| from <= i < nodes.len() ==> (#[trigger] nodes[i]).name == "bind"@
        }),
    decreases nodes.len() - from,
{
    if from < nodes.len() {
        let first = bind_of(nodes[from], os)->Ok_0;
        let next = match first {
            Some((trigger, steps)) => done.insert(trigger, steps),
            None => done,
        };
        assert(first matches Some((trigger, _)) ==> (binds(nodes[from], os, combo) <==> trigger
            == combo));
        assert(first is None ==> !binds(nodes[from], os, combo));
        lemma_binds(nodes, os, from + 1, next, combo);
        let map = binds_from(nodes, os, from, done)->Ok_0;
        assert(map == binds_from(nodes, os, from + 1, next)->Ok_0);
        if some_binds(nodes, os, from, combo) {
            let i = choose|i: int|
                from <= i < nodes.len() && binds(#[trigger] nodes[i], os, combo);
            assert(i == from || some_binds(nodes, os, from + 1, combo));
        }
        if some_binds(nodes, os, from + 1, combo) {
            let i = choose|i: int|
                from + 1 <= i < nodes.len() && binds(#[trigger] nodes[i], os, combo);
            assert(some_binds(nodes, os, from, combo));
        }
        assert forall|i: int| #[trigger]
            last_binding(nodes, os, from, combo, i) implies steps_from(
            nodes[i].children,
            os,
            0,
            Seq::empty(),
        ) == Ok::<Seq<StepView>, ConfigFault>(map[combo]) by {
            if i > from {
                assert(last_binding(nodes, os, from + 1, combo, i));
            } else {
                assert(!some_binds(nodes, os, from + 1, combo));
            }
        }
    }
}

/// A keymap binds exactly the combos that its children bind, each to the steps of the last
/// child that binds it.
pub proof fn keymaps_bind_what_they_name(n: NodeView, os: Seq<char>, combo: ComboView)
    requires
        keymap_of(n, os) is Ok,
    ensures
        ({
            let bindings = keymap_of(n, os)->Ok_0.bindings;
            &&& bindings.contains_key(combo) <==> some_binds(n.children, os, 0, combo)
            &&& forall|i: int|
                #[trigger]
                last_binding(n.children, os, 0, combo, i) ==> steps_from(
                    n.children[i].children,
                    os,
                    0,
                    Seq::empty(),
                ) == Ok::<Seq<StepView>, ConfigFault>(bindings[combo])
        }),
{
    lemma_binds(n.children, os, 0, Map::empty(), combo);
}

proof fn lemma_steps_append(
    nodes: Seq<NodeView>,
    os: Seq<char>,
    from: int,
    done: Seq<StepView>,
)
    requires
        0 <= from,
    ensures
        match steps_from(nodes, os, from, Seq::empty()) {
            Ok(steps) => steps_from(nodes, os, from, done) == Ok::<Seq<StepView>, ConfigFault>(
                done + steps,
            ),
            Err(e) => steps_from(nodes, os, from, done) == Err::<Seq<StepView>, ConfigFault>(e),
        },
    decreases nodes.len() - from,
{
    let none = Seq::<StepView>::empty();
    if from < nodes.len() {
        match step_of(nodes[from], os) {
            Err(_) => {},
            Ok(None) => lemma_steps_append(nodes, os, from + 1, done),
            Ok(Some(step)) => {
                lemma_steps_append(nodes, os, from + 1, done.push(step));
                lemma_steps_append(nodes, os, from + 1, none.push(step));
                if let Ok(rest) = steps_from(nodes, os, from + 1, none) {
                    assert(done.push(step) + rest =~= done + (none.push(step) + rest));
                }
            },
        }
    } else {
        assert(done + none =~= done);
    }
}

/// The steps of a binding are those of its children in order; a child that has no target
/// on this OS adds none, and the first that cannot be read stops the reading.
pub proof fn steps_come_in_order(nodes: Seq<NodeView>, os: Seq<char>, from: int)
    requires
        0 <= from < nodes.len(),
    ensures
        ({
            let rest = steps_from(nodes, os, from + 1, Seq::empty());
            let steps = steps_from(nodes, os, from, Seq::empty());
            match step_of(nodes[from], os) {
                Err(e) => steps == Err::<Seq<StepView>, ConfigFault>(e),
                Ok(None) => steps == rest,
                Ok(Some(step)) => match rest {
                    Err(e) => steps == Err::<Seq<StepView>, ConfigFault>(e),
                    Ok(later) => steps matches Ok(all) && all.len() == later.len() + 1 && all[0]
                        == step && all.skip(1) == later,
                },
            }
        }),
{
    let none = Seq::<StepView>::empty();
    if let Ok(Some(step)) = step_of(nodes[from], os) {
        lemma_steps_append(nodes, os, from + 1, none.push(step));
        if let Ok(later) = steps_from(nodes, os, from + 1, none) {
            assert((none.push(step) + later).skip(1) =~= later);
        }
    }
}

// === Steps ===

/// What a step is aimed at: the property named for this OS, else the argument.
pub open spec fn aims_at(n: NodeView, os: Seq<char>, target: Seq<char>) -> bool {
    n.prop(os) == Some(target) || (n.prop(os) is None && n.arg() == Some(target))
}

/// A step of a binding is what its node says: the combo, the program or the action it is
/// aimed at on this OS, and nothing else.
pub proof fn steps_are_what_their_nodes_say(n: NodeView, os: Seq<char>)
    requires
        step_of(n, os) is Ok,
    ensures
        match step_of(n, os)->Ok_0 {
            Some(StepView::Keys(combo)) => {
                &&& n.name == "keys"@ && n.prop("extend"@) is None
                &&& exists|text: Seq<char>| #[trigger]
                    aims_at(n, os, text) && combo_of(text) == Ok::<ComboView, ComboFault>(combo)
            },
            Some(StepView::WithMark(combo)) => {
                &&& n.name == "keys"@ && n.prop("extend"@) == Some("selection"@)
                &&& exists|text: Seq<char>| #[trigger]
                    aims_at(n, os, text) && combo_of(text) == Ok::<ComboView, ComboFault>(combo)
            },
            Some(StepView::SetMark(on)) => {
                &&& n.name == "selection"@
                &&& n.arg() == Some(
                    if on {
                        "start"@
                    } else {
                        "clear"@
                    },
                )
            },
            Some(StepView::PassThrough) => n.name == "pass-through"@,
            Some(StepView::Exec(program)) => n.name == "exec"@ && aims_at(n, os, program),
            Some(StepView::Window(action)) => {
                &&& n.name == "wm"@
                &&& n.prop("action"@) matches Some(named) && action_named(n, named) == Ok::<
                    WindowAction,
                    ConfigFault,
                >(action)
            },
            None => {
                &&& n.name == "keys"@ || n.name == "exec"@
                &&& forall|text: Seq<char>| !aims_at(n, os, text)
                &&& n.prop("windows"@) is Some || n.prop("linux"@) is Some || n.prop("macos"@)
                    is Some
            },
        },
{
    match n.prop(os) {
        Some(text) => assert(aims_at(n, os, text)),
        None => if let Some(text) = n.arg() {
            assert(aims_at(n, os, text));
        },
    }
}

/// A step with a target on this OS is never left out, and a step of a known kind that has
/// what it needs is read.
pub proof fn known_steps_are_read(n: NodeView, os: Seq<char>, text: Seq<char>)
    ensures
        n.name == "exec"@ && aims_at(n, os, text) ==> step_of(n, os) == Ok::<
            Option<StepView>,
            ConfigFault,
        >(Some(StepView::Exec(text))),
        n.name == "keys"@ && aims_at(n, os, text) && combo_of(text) is Ok && n.prop("extend"@)
            is None ==> step_of(n, os) == Ok::<Option<StepView>, ConfigFault>(
            Some(StepView::Keys(combo_of(text)->Ok_0)),
        ),
        n.name == "keys"@ && aims_at(n, os, text) && combo_of(text) is Ok && n.prop("extend"@)
            == Some("selection"@) ==> step_of(n, os) == Ok::<Option<StepView>, ConfigFault>(
            Some(StepView::WithMark(combo_of(text)->Ok_0)),
        ),
        n.name == "pass-through"@ ==> step_of(n, os) == Ok::<Option<StepView>, ConfigFault>(
            Some(StepView::PassThrough),
        ),
        n.name == "selection"@ && n.arg() == Some("start"@) ==> step_of(n, os) == Ok::<
            Option<StepView>,
            ConfigFault,
        >(Some(StepView::SetMark(true))),
        n.name == "selection"@ && n.arg() == Some("clear"@) ==> step_of(n, os) == Ok::<
            Option<StepView>,
            ConfigFault,
        >(Some(StepView::SetMark(false))),
{
    lemma_step_names();
}

proof fn lemma_step_names()
    ensures
        "keys"@ != "exec"@,
        "keys"@ != "selection"@,
        "keys"@ != "pass-through"@,
        "exec"@ != "selection"@,
        "exec"@ != "pass-through"@,
        "selection"@ != "pass-through"@,
        "start"@ != "clear"@,
{
    reveal_strlit("keys");
    reveal_strlit("exec");
    reveal_strlit("selection");
    reveal_strlit("pass-through");
    reveal_strlit("start");
    reveal_strlit("clear");
    assert("keys"@[0] != "exec"@[0]);
    assert("selection"@[0] != "pass-through"@[0]);
    assert("start"@[0] != "clear"@[0]);
}

// === Window actions ===

/// The name that a corner is written with.
pub open spec fn corner_text(corner: Corner) -> Seq<char> {
    match corner {
        Corner::TopLeft => "top-left"@,
        Corner::TopRight => "top-right"@,
        Corner::BottomLeft => "bottom-left"@,
        Corner::BottomRight => "bottom-right"@,
    }
}

/// The name that a side is written with.
pub open spec fn side_text(side: Side) -> Seq<char> {
    match side {
        Side::Left => "left"@,
        Side::Right => "right"@,
        Side::Top => "top"@,
        Side::Bottom => "bottom"@,
    }
}

/// A text is a name of a direction.
pub open spec fn names_direction(text: Seq<char>, direction: CycleDirection) -> bool {
    match direction {
        CycleDirection::Forward => text == "forward"@ || text == "next"@,
        CycleDirection::Backward => text == "backward"@ || text == "prev"@ || text == "previous"@,
    }
}

/// A property is a whole number, or is left out where the number is zero.
pub open spec fn gives_number(n: NodeView, name: Seq<char>, v: i32) -> bool {
    property(n.entries, name) matches Some(given) && given == ValueView::Integer(v as i128) || (
    property(n.entries, name) is None && v == 0)
}

/// A property is a number, whole or decimal.
pub open spec fn gives_scale(n: NodeView, name: Seq<char>, scale: Scale) -> bool {
    match scale {
        Scale::Float(bits) => property(n.entries, name) == Some(ValueView::Float(bits)),
        Scale::Integer(i) => property(n.entries, name) == Some(ValueView::Integer(i)),
    }
}

/// A property names a workspace: the one before, the one after, or one by its number.
pub open spec fn gives_workspace(n: NodeView, target: Workspace) -> bool {
    n.prop("to"@) matches Some(text) && match target {
        Workspace::Prev => text == "prev"@ || text == "previous"@ || text == "left"@,
        Workspace::Next => text == "next"@ || text == "right"@,
        Workspace::Index(i) => number_of(text) == Some(i),
    }
}

/// An action is the one its name says, with the numbers, the corner, the side, the
/// direction or the workspace that the node's properties give.
pub proof fn actions_are_what_their_nodes_say(n: NodeView, named: Seq<char>)
    requires
        action_named(n, named) is Ok,
    ensures
        match action_named(n, named)->Ok_0 {
            WindowAction::Adjust { dx, dy, dw, dh } => {
                &&& named == "adjust"@
                &&& gives_number(n, "dx"@, dx) && gives_number(n, "dy"@, dy)
                &&& gives_number(n, "dw"@, dw) && gives_number(n, "dh"@, dh)
            },
            WindowAction::Preset { w, h, anchor } => {
                &&& named == "preset"@
                &&& gives_scale(n, "w"@, w) && gives_scale(n, "h"@, h)
                &&& match anchor {
                    Some(corner) => n.prop("anchor"@) == Some(corner_text(corner)),
                    None => n.prop("anchor"@) matches Some(text) ==> text == "center"@ || text
                        == "centre"@,
                }
            },
            WindowAction::Snap(corner) => named == "snap"@ && n.prop("to"@) == Some(
                corner_text(corner),
            ),
            WindowAction::Corner(corner) => named == "corner"@ && n.prop("to"@) == Some(
                corner_text(corner),
            ),
            WindowAction::SmartTile { side, fraction } => named == "smart-tile"@ && n.prop("to"@)
                == Some(side_text(side)) && fraction is Half,
            WindowAction::MoveToMonitor(direction) => named == "move-to-monitor"@ && n.prop("to"@)
                is Some && names_direction(n.prop("to"@)->0, direction),
            WindowAction::CycleSameApp(direction) => named == "cycle-same-app"@ && match n.prop(
                "direction"@,
            ) {
                Some(text) => names_direction(text, direction),
                None => direction is Forward,
            },
            WindowAction::Workspace { target, move_window } => {
                &&& named == (if move_window {
                    "move-to-workspace"@
                } else {
                    "workspace"@
                })
                &&& gives_workspace(n, target)
            },
            WindowAction::Center => named == "center"@,
            WindowAction::FindWindow => named == "find-window"@,
            WindowAction::Maximize => named == "maximize"@,
            WindowAction::MaximizeToggle => named == "maximize-toggle"@,
            WindowAction::Minimize => named == "minimize"@,
            WindowAction::AlwaysOnTop => named == "always-on-top"@,
            WindowAction::ShowDesktop => named == "show-desktop"@,
            _ => false,
        },
{
}

/// The corners, sides, anchors, directions and workspaces that have a name are found by it.
pub proof fn names_of_places_are_read(corner: Corner, side: Side, i: u32, text: Seq<char>)
    ensures
        corner_named(corner_text(corner)) == Ok::<Corner, ConfigFault>(corner),
        anchor_named(Some(corner_text(corner))) == Ok::<Option<Corner>, ConfigFault>(Some(corner)),
        anchor_named(Some("center"@)) == Ok::<Option<Corner>, ConfigFault>(None),
        anchor_named(Some("centre"@)) == Ok::<Option<Corner>, ConfigFault>(None),
        anchor_named(None) == Ok::<Option<Corner>, ConfigFault>(None),
        side_named(side_text(side)) == Ok::<Side, ConfigFault>(side),
        names_direction(text, CycleDirection::Forward) ==> direction_named(Some(text)) == Ok::<
            CycleDirection,
            ConfigFault,
        >(CycleDirection::Forward),
        names_direction(text, CycleDirection::Backward) ==> direction_named(Some(text)) == Ok::<
            CycleDirection,
            ConfigFault,
        >(CycleDirection::Backward),
        direction_named(None) == Ok::<CycleDirection, ConfigFault>(CycleDirection::Forward),
        text == "next"@ || text == "right"@ ==> workspace_named(text) == Ok::<
            Workspace,
            ConfigFault,
        >(Workspace::Next),
        text == "prev"@ || text == "previous"@ || text == "left"@ ==> workspace_named(text) == Ok::<
            Workspace,
            ConfigFault,
        >(Workspace::Prev),
        number_of(text) == Some(i) ==> workspace_named(text) == Ok::<Workspace, ConfigFault>(
            Workspace::Index(i),
        ),
{
    reveal_strlit("top-left");
    reveal_strlit("top-right");
    reveal_strlit("bottom-left");
    reveal_strlit("bottom-right");
    reveal_strlit("center");
    reveal_strlit("centre");
    reveal_strlit("left");
    reveal_strlit("right");
    reveal_strlit("top");
    reveal_strlit("bottom");
    reveal_strlit("forward");
    reveal_strlit("next");
    reveal_strlit("backward");
    reveal_strlit("prev");
    reveal_strlit("previous");
    assert("top-left"@.len() == 8 && "top-right"@.len() == 9);
    assert("bottom-left"@.len() == 11 && "bottom-right"@.len() == 12);
    assert("center"@.len() == 6 && "centre"@.len() == 6);
    assert("left"@.len() == 4 && "right"@.len() == 5 && "top"@.len() == 3 && "bottom"@.len() == 6);
    assert("forward"@[0] != "backward"@[0]);
    assert("next"@[0] != "prev"@[0]);
    assert("next"@[0] != "left"@[0]);
    assert("right"@[0] != "left"@[0]);
    assert("right"@[0] != "prev"@[0]);
    assert("previous"@[0] != "backward"@[0]);
    if number_of(text) is Some {
        let digits = if text[0] == '+' {
            text.skip(1)
        } else {
            text
        };
        assert('0' <= digits[0] <= '9');
        assert(text[0] == '+' || '0' <= text[0] <= '9');
    }
}

/// A number is written in decimal: one digit stands for itself, a digit more makes ten
/// times the number and the digit, a leading plus changes nothing, and what would not fit
/// is no number.
pub proof fn numbers_are_decimal(text: Seq<char>, digit: char)
    requires
        '0' <= digit <= '9',
    ensures
        number_of(seq![digit]) == Some((digit as u32 - '0' as u32) as u32),
        number_of(text) matches Some(n) ==> number_of(text.push(digit)) == (if 10 * n + (
        digit as int - '0' as int) <= u32::MAX {
            Some((10 * n + (digit as int - '0' as int)) as u32)
        } else {
            None
        }),
        text.len() > 0 && text[0] != '+' ==> number_of(seq!['+'] + text) == number_of(text),
        text.len() > 0 && text[0] != '+' && !('0' <= text[0] <= '9') ==> number_of(text) is None,
        number_of(Seq::empty()) is None,
{
    let one = seq![digit];
    assert(one.drop_last() =~= Seq::empty());
    reveal_with_fuel(digits_value, 3);
    assert(digits_value(one) == digit as nat - '0' as nat);
    assert(all_digits(one));
    if number_of(text) is Some {
        let plus = text[0] == '+';
        let digits = if plus {
            text.skip(1)
        } else {
            text
        };
        let longer = if plus {
            text.push(digit).skip(1)
        } else {
            text.push(digit)
        };
        assert(text.push(digit)[0] == text[0]);
        assert(longer =~= digits.push(digit));
        assert(longer.drop_last() =~= digits);
        assert(longer.last() == digit);
        assert(all_digits(longer));
    }
    assert((seq!['+'] + text).skip(1) =~= text);
}

// === Patterns ===

/// A rule applies in an application exactly if the pattern by `application` matches it,
/// where there is one, and the pattern by `application-not` does not, where there is one.
pub proof fn rules_apply_where_their_patterns_say(n: NodeView, app: Seq<char>)
    requires
        matcher_of(n) is Ok,
    ensures
        matcher_of(n)->Ok_0.applies(app) <==> {
            &&& n.prop("application"@) matches Some(p) ==> (pattern_language(p) matches Ok(names)
                && names.contains(app))
            &&& n.prop("application-not"@) matches Some(p) ==> (pattern_language(p) matches Ok(
                names,
            ) && !names.contains(app))
        },
        rules_go_by_their_patterns(n),
{
}

/// The rules of a node go by the node's own patterns.
pub open spec fn rules_go_by_their_patterns(n: NodeView) -> bool {
    &&& multipurpose_of(n) matches Ok(rule) ==> matcher_of(n) == Ok::<MatcherView, ConfigFault>(
        rule.matcher,
    )
    &&& forall|os: Seq<char>|
        (#[trigger] keymap_of(n, os)) matches Ok(rule) ==> matcher_of(n) == Ok::<
            MatcherView,
            ConfigFault,
        >(rule.matcher)
}

// === Rules in order ===

/// A keymap number `i` is the first that applies and binds a combo.
pub open spec fn first_binding(
    keymaps: Seq<KeymapView>,
    app: Seq<char>,
    combo: ComboView,
    i: int,
) -> bool {
    &&& 0 <= i < keymaps.len()
    &&& keymaps[i].matcher.applies(app) && keymaps[i].bindings.contains_key(combo)
    &&& forall|j: int|
        0 <= j < i ==> !((#[trigger] keymaps[j]).matcher.applies(app)
            && keymaps[j].bindings.contains_key(combo))
}

/// A combo does what the first keymap says that applies and binds it, and nothing where
/// none does.
pub proof fn the_first_keymap_counts(keymaps: Seq<KeymapView>, app: Seq<char>, combo: ComboView)
    ensures
        forall|i: int| #[trigger]
            first_binding(keymaps, app, combo, i) ==> binding_of(keymaps, app, combo) == Some(
                keymaps[i].bindings[combo],
            ),
        binding_of(keymaps, app, combo) is Some ==> exists|i: int|
            first_binding(keymaps, app, combo, i),
    decreases keymaps.len(),
{
    if keymaps.len() > 0 {
        let rest = keymaps.drop_first();
        the_first_keymap_counts(rest, app, combo);
        assert forall|i: int| 0 <= i < rest.len() implies #[trigger] rest[i] == keymaps[i + 1] by {}
        assert forall|i: int| #[trigger]
            first_binding(keymaps, app, combo, i) implies binding_of(keymaps, app, combo) == Some(
            keymaps[i].bindings[combo],
        ) by {
            if i > 0 {
                assert(!(keymaps[0].matcher.applies(app) && keymaps[0].bindings.contains_key(
                    combo,
                )));
                assert(first_binding(rest, app, combo, i - 1));
            }
        }
        if binding_of(keymaps, app, combo) is Some {
            if keymaps[0].matcher.applies(app) && keymaps[0].bindings.contains_key(combo) {
                assert(first_binding(keymaps, app, combo, 0));
            } else {
                let i = choose|i: int| first_binding(rest, app, combo, i);
                assert forall|j: int| 0 <= j < i + 1 implies !((#[trigger] keymaps[j]).matcher.applies(
                    app,
                ) && keymaps[j].bindings.contains_key(combo)) by {
                    if j > 0 {
                        assert(keymaps[j] == rest[j - 1]);
                    }
                }
                assert(first_binding(keymaps, app, combo, i + 1));
            }
        }
    }
}

/// A tap-hold rule number `i` is the first that applies and maps a key.
pub open spec fn first_tap_hold(
    rules: Seq<MultipurposeView>,
    app: Seq<char>,
    raw: Key,
    i: int,
) -> bool {
    &&& 0 <= i < rules.len()
    &&& rules[i].matcher.applies(app) && rules[i].map.contains_key(raw)
    &&& forall|j: int|
        0 <= j < i ==> !((#[trigger] rules[j]).matcher.applies(app) && rules[j].map.contains_key(
            raw,
        ))
}

/// A key taps and holds what the first rule says that applies and maps it, and is an
/// ordinary key where none does.
pub proof fn the_first_tap_hold_rule_counts(
    rules: Seq<MultipurposeView>,
    app: Seq<char>,
    raw: Key,
)
    ensures
        forall|i: int| #[trigger]
            first_tap_hold(rules, app, raw, i) ==> tap_hold_of(rules, app, raw) == Some(
                rules[i].map[raw],
            ),
        tap_hold_of(rules, app, raw) is Some ==> exists|i: int| first_tap_hold(rules, app, raw, i),
    decreases rules.len(),
{
    if rules.len() > 0 {
        let rest = rules.drop_first();
        the_first_tap_hold_rule_counts(rest, app, raw);
        assert forall|i: int| 0 <= i < rest.len() implies #[trigger] rest[i] == rules[i + 1] by {}
        assert forall|i: int| #[trigger]
            first_tap_hold(rules, app, raw, i) implies tap_hold_of(rules, app, raw) == Some(
            rules[i].map[raw],
        ) by {
            if i > 0 {
                assert(!(rules[0].matcher.applies(app) && rules[0].map.contains_key(raw)));
                assert(first_tap_hold(rest, app, raw, i - 1));
            }
        }
        if tap_hold_of(rules, app, raw) is Some {
            if rules[0].matcher.applies(app) && rules[0].map.contains_key(raw) {
                assert(first_tap_hold(rules, app, raw, 0));
            } else {
                let i = choose|i: int| first_tap_hold(rest, app, raw, i);
                assert forall|j: int| 0 <= j < i + 1 implies !((#[trigger] rules[j]).matcher.applies(
                    app,
                ) && rules[j].map.contains_key(raw)) by {
                    if j > 0 {
                        assert(rules[j] == rest[j - 1]);
                    }
                }
                assert(first_tap_hold(rules, app, raw, i + 1));
            }
        }
    }
}

/// A node at the top of a document changes the part of the configuration that it is named
/// for and no other: a modmap adds to the mapped keys, a tap-hold rule and a keymap come
/// after those before it, and settings change nothing.
pub proof fn nodes_change_their_own_part(config: ConfigView, n: NodeView, os: Seq<char>)
    requires
        with_node(config, n, os) is Ok,
    ensures
        ({
            let after = with_node(config, n, os)->Ok_0;
            &&& after.pass_through == config.pass_through
            &&& n.name != "modmap"@ ==> after.modmap == config.modmap
            &&& n.name != "multipurpose-modmap"@ ==> after.multipurpose == config.multipurpose
            &&& n.name != "keymap"@ ==> after.keymaps == config.keymaps
            &&& n.name == "modmap"@ ==> forall|key: Key| #[trigger]
                after.modmap.contains_key(key) <==> config.modmap.contains_key(key) || some_names(
                    n.children,
                    0,
                    "from"@,
                    key,
                )
            &&& n.name == "modmap"@ ==> forall|key: Key, i: int| #[trigger]
                last_naming(n.children, 0, "from"@, key, i) ==> names_key(
                    n.children[i],
                    "to"@,
                    after.modmap[key],
                )
            &&& n.name == "modmap"@ ==> forall|key: Key|
                config.modmap.contains_key(key) && !some_names(n.children, 0, "from"@, key)
                    ==> #[trigger] after.modmap[key] == config.modmap[key]
            &&& n.name == "multipurpose-modmap"@ ==> {
                &&& after.multipurpose.len() == config.multipurpose.len() + 1
                &&& after.multipurpose.drop_last() == config.multipurpose
                &&& multipurpose_of(n) == Ok::<MultipurposeView, ConfigFault>(
                    after.multipurpose.last(),
                )
            }
            &&& n.name == "keymap"@ ==> {
                &&& after.keymaps.len() == config.keymaps.len() + 1
                &&& after.keymaps.drop_last() == config.keymaps
                &&& keymap_of(n, os) == Ok::<KeymapView, ConfigFault>(after.keymaps.last())
            }
            &&& n.name == "settings"@ || n.name == "modmap"@ || n.name == "multipurpose-modmap"@
                || n.name == "keymap"@
        }),
{
    reveal_strlit("settings");
    reveal_strlit("modmap");
    reveal_strlit("multipurpose-modmap");
    reveal_strlit("keymap");
    assert("settings"@.len() == 8 && "multipurpose-modmap"@.len() == 19);
    assert("modmap"@.len() == 6 && "keymap"@.len() == 6);
    assert("modmap"@[0] != "keymap"@[0]);
    let after = with_node(config, n, os)->Ok_0;
    if n.name == "modmap"@ {
        assert forall|key: Key| #[trigger]
            after.modmap.contains_key(key) <==> config.modmap.contains_key(key) || some_names(
                n.children,
                0,
                "from"@,
                key,
            ) by {
            modmaps_map_what_they_name(n.children, 0, config.modmap, key);
        }
        assert forall|key: Key, i: int| #[trigger]
            last_naming(n.children, 0, "from"@, key, i) implies names_key(
            n.children[i],
            "to"@,
            after.modmap[key],
        ) by {
            modmaps_map_what_they_name(n.children, 0, config.modmap, key);
        }
        assert forall|key: Key|
            config.modmap.contains_key(key) && !some_names(
                n.children,
                0,
                "from"@,
                key,
            ) implies #[trigger] after.modmap[key] == config.modmap[key] by {
            modmaps_map_what_they_name(n.children, 0, config.modmap, key);
        }
    } else if n.name == "multipurpose-modmap"@ {
        assert(after.multipurpose.drop_last() =~= config.multipurpose);
    } else if n.name == "keymap"@ {
        assert(after.keymaps.drop_last() =~= config.keymaps);
    }
}

/// Settings are read and change nothing, wherever they stand.
pub proof fn settings_change_nothing(config: ConfigView, n: NodeView, os: Seq<char>)
    requires
        n.name == "settings"@,
    ensures
        with_node(config, n, os) == Ok::<ConfigView, ConfigFault>(config),
{
}

// === Combos ===

/// A key's name alone is a combo without modifiers, and a modifier's letter and a plus
/// before a combo add that modifier to it.
pub proof fn combos_are_modifiers_and_a_key(token: Seq<char>, rest: Seq<char>, key: Key)
    ensures
        !rest.contains('+') && rest.len() > 0 && lower_ascii(rest) == key.spec_name()
            ==> combo_of(rest) == Ok::<ComboView, ComboFault>(
            ComboView { modifiers: Set::empty(), key },
        ),
        modifier_named(token) is Some && combo_of(rest) is Ok ==> combo_of(
            token + seq!['+'] + rest,
        ) == Ok::<ComboView, ComboFault>(
            ComboView {
                modifiers: combo_of(rest)->Ok_0.modifiers.insert(modifier_named(token)->0),
                key: combo_of(rest)->Ok_0.key,
            },
        ),
{
    if !rest.contains('+') && rest.len() > 0 && lower_ascii(rest) == key.spec_name() {
        texts_without_separators_are_one_piece(rest, '+');
        keys_are_found_by_name(rest, key);
        assert(seq![rest].drop_last() =~= Seq::empty());
    }
    if modifier_named(token) is Some && combo_of(rest) is Ok {
        lemma_modifier_tokens(token);
        first_pieces_end_at_the_first_separator(token, rest, '+');
        let parts = split_on(rest, '+');
        crate::text::lemma_split_on_nonempty(rest, '+');
        let all = seq![token] + parts;
        assert(all.last() == parts.last());
        assert(all.drop_last() =~= seq![token] + parts.drop_last());
        lemma_one_more_modifier(token, parts.drop_last());
    }
}

proof fn lemma_modifier_tokens(token: Seq<char>)
    requires
        modifier_named(token) is Some,
    ensures
        !token.contains('+'),
{
    reveal_strlit("C");
    reveal_strlit("M");
    reveal_strlit("S");
    reveal_strlit("s");
    reveal_strlit("Hyper");
}

proof fn lemma_one_more_modifier(token: Seq<char>, tokens: Seq<Seq<char>>)
    requires
        modifier_named(token) is Some,
        modifiers_of(tokens) is Ok,
    ensures
        modifiers_of(seq![token] + tokens) == Ok::<Set<Modifier>, Seq<char>>(
            modifiers_of(tokens)->Ok_0.insert(modifier_named(token)->0),
        ),
    decreases tokens.len(),
{
    let all = seq![token] + tokens;
    if tokens.len() == 0 {
        assert(all =~= seq![token]);
        assert(all.drop_last() =~= Seq::empty());
        reveal_with_fuel(modifiers_of, 2);
    } else {
        assert(all.drop_last() =~= seq![token] + tokens.drop_last());
        assert(all.last() == tokens.last());
        lemma_one_more_modifier(token, tokens.drop_last());
        let m = modifier_named(token)->0;
        let n = modifier_named(tokens.last())->0;
        let set = modifiers_of(tokens.drop_last())->Ok_0;
        assert(set.insert(m).insert(n) =~= set.insert(n).insert(m));
    }
}

/// The letters of modifiers: `C` is what the left and right `ctrl` keys are, `M` what the
/// `alt` keys are, `S` the `shift` keys, `s` the `meta` keys, and `Hyper` the `hyper` keys.
pub proof fn modifier_letters_stand_for_their_keys()
    ensures
        modifier_named("C"@) == Key::LeftCtrl.spec_modifier(),
        modifier_named("C"@) == Key::RightCtrl.spec_modifier(),
        modifier_named("M"@) == Key::LeftAlt.spec_modifier(),
        modifier_named("M"@) == Key::RightAlt.spec_modifier(),
        modifier_named("S"@) == Key::LeftShift.spec_modifier(),
        modifier_named("S"@) == Key::RightShift.spec_modifier(),
        modifier_named("s"@) == Key::LeftMeta.spec_modifier(),
        modifier_named("s"@) == Key::RightMeta.spec_modifier(),
        modifier_named("Hyper"@) == Key::LeftHyper.spec_modifier(),
        modifier_named("Hyper"@) == Key::RightHyper.spec_modifier(),
{
    reveal_strlit("C");
    reveal_strlit("M");
    reveal_strlit("S");
    reveal_strlit("s");
    reveal_strlit("Hyper");
    assert("C"@[0] != "M"@[0] && "C"@[0] != "S"@[0] && "C"@[0] != "s"@[0]);
    assert("M"@[0] != "S"@[0] && "M"@[0] != "s"@[0] && "S"@[0] != "s"@[0]);
}

/// A modifier is sent as a key that is itself one of that modifier; only `Hyper` is not
/// sent.
pub proof fn modifiers_are_sent_as_themselves(m: Modifier)
    ensures
        match m.spec_emit_key() {
            Some(key) => key.spec_modifier() == Some(m) && !(m is Hyper),
            None => m is Hyper,
        },
{
}

// === What is read and what is refused ===

/// A child of a modmap is a `map` that names the key it is for and the key it becomes.
pub open spec fn is_mapping(n: NodeView) -> bool {
    n.name == "map"@ && exists|from: Key, to: Key| #[trigger]
        names_key(n, "from"@, from) && #[trigger] names_key(n, "to"@, to)
}

/// A modmap is read exactly if every child is a `map` from a key to a key.
pub proof fn modmaps_are_read(nodes: Seq<NodeView>, from: int, done: Map<Key, Key>)
    requires
        0 <= from,
    ensures
        modmap_from(nodes, from, done) is Ok <==> forall|i: int|
            from <= i < nodes.len() ==> is_mapping(#[trigger] nodes[i]),
    decreases nodes.len() - from,
{
    if from < nodes.len() {
        let n = nodes[from];
        if is_mapping(n) {
            let (a, b) = choose|a: Key, b: Key| #[trigger]
                names_key(n, "from"@, a) && #[trigger] names_key(n, "to"@, b);
            lemma_required_key(n, "from"@, a);
            lemma_required_key(n, "to"@, b);
        }
        if modmap_entry(n) is Ok {
            let (a, b) = modmap_entry(n)->Ok_0;
            lemma_modmap_entry(n, a);
            assert(names_key(n, "from"@, a) && names_key(n, "to"@, b));
            modmaps_are_read(nodes, from + 1, done.insert(a, b));
        }
    }
}

/// A child of a keymap is a `bind` with a combo for its argument and steps that can be
/// read, of which there is one at least, if only for another OS.
pub open spec fn is_binding(n: NodeView, os: Seq<char>) -> bool {
    &&& n.name == "bind"@
    &&& n.arg() matches Some(text) && combo_of(text) is Ok
    &&& n.prop("to"@) is None && n.prop("mark-to"@) is None
    &&& n.children.len() > 0
    &&& forall|i: int| 0 <= i < n.children.len() ==> step_of(#[trigger] n.children[i], os) is Ok
}

proof fn lemma_steps_read(nodes: Seq<NodeView>, os: Seq<char>, from: int, done: Seq<StepView>)
    requires
        0 <= from,
    ensures
        steps_from(nodes, os, from, done) is Ok <==> forall|i: int|
            from <= i < nodes.len() ==> step_of(#[trigger] nodes[i], os) is Ok,
        steps_from(nodes, os, from, done) matches Ok(steps) ==> steps.len() >= done.len() && (from
            >= nodes.len() ==> steps == done),
    decreases nodes.len() - from,
{
    if from < nodes.len() {
        match step_of(nodes[from], os) {
            Ok(Some(step)) => lemma_steps_read(nodes, os, from + 1, done.push(step)),
            Ok(None) => lemma_steps_read(nodes, os, from + 1, done),
            Err(_) => {},
        }
    }
}

proof fn lemma_binds_read(
    nodes: Seq<NodeView>,
    os: Seq<char>,
    from: int,
    done: Map<ComboView, Seq<StepView>>,
)
    requires
        0 <= from,
    ensures
        binds_from(nodes, os, from, done) is Ok <==> forall|i: int|
            from <= i < nodes.len() ==> is_binding(#[trigger] nodes[i], os),
    decreases nodes.len() - from,
{
    if from < nodes.len() {
        lemma_steps_read(nodes[from].children, os, 0, Seq::empty());
        match bind_of(nodes[from], os) {
            Ok(Some((trigger, steps))) => lemma_binds_read(
                nodes,
                os,
                from + 1,
                done.insert(trigger, steps),
            ),
            Ok(None) => lemma_binds_read(nodes, os, from + 1, done),
            Err(_) => {},
        }
    }
}

/// A keymap is read exactly if its patterns are and every child is a binding.
pub proof fn keymaps_are_read(n: NodeView, os: Seq<char>)
    ensures
        keymap_of(n, os) is Ok <==> matcher_of(n) is Ok && forall|i: int|
            0 <= i < n.children.len() ==> is_binding(#[trigger] n.children[i], os),
        keymap_of(n, os) matches Ok(rule) ==> (match n.prop("name"@) {
            Some(name) => rule.name == name,
            None => rule.name.len() == 0,
        }),
        matcher_of(n) is Ok <==> {
            &&& n.prop("application"@) matches Some(p) ==> pattern_language(p) is Ok
            &&& n.prop("application-not"@) matches Some(p) ==> pattern_language(p) is Ok
        },
{
    lemma_binds_read(n.children, os, 0, Map::empty());
}

/// A step that is refused is refused for what is wrong with it.
pub proof fn refused_steps_are_told_why(n: NodeView, os: Seq<char>)
    requires
        step_of(n, os) is Err,
        n.name != "wm"@,
    ensures
        match step_of(n, os)->Err_0 {
            ConfigFault::UnknownStep(name) => name == n.name && n.name != "keys"@ && n.name
                != "selection"@ && n.name != "pass-through"@ && n.name != "exec"@,
            ConfigFault::SelectionNeedsArgument => n.name == "selection"@ && n.arg() is None,
            ConfigFault::BadSelection(given) => n.name == "selection"@ && n.arg() == Some(given)
                && given != "start"@ && given != "clear"@,
            ConfigFault::BadExtend(how) => n.name == "keys"@ && n.prop("extend"@) == Some(how) && how
                != "selection"@,
            ConfigFault::NeedsTarget(name) => {
                &&& name == n.name && (n.name == "keys"@ || n.name == "exec"@)
                &&& n.arg() is None && n.prop(os) is None
                &&& n.prop("windows"@) is None && n.prop("linux"@) is None && n.prop("macos"@)
                    is None
            },
            ConfigFault::BadCombo(fault) => {
                &&& n.name == "keys"@
                &&& exists|text: Seq<char>| #[trigger]
                    aims_at(n, os, text) && combo_of(text) == Err::<ComboView, ComboFault>(fault)
            },
            _ => false,
        },
{
    match n.prop(os) {
        Some(text) => assert(aims_at(n, os, text)),
        None => if let Some(text) = n.arg() {
            assert(aims_at(n, os, text));
        },
    }
}

/// An action that is refused is refused for what is wrong with it.
pub proof fn refused_actions_are_told_why(n: NodeView, named: Seq<char>)
    requires
        action_named(n, named) is Err,
    ensures
        match action_named(n, named)->Err_0 {
            ConfigFault::UnknownAction(name) => name == named,
            ConfigFault::MissingProperty { node, property: name } => node == n.name && (property(
                n.entries,
                name,
            ) is None || n.prop(name) is None),
            ConfigFault::UnknownCorner(text) => (n.prop("to"@) == Some(text) || n.prop("anchor"@)
                == Some(text)) && forall|corner: Corner| text != #[trigger] corner_text(corner),
            ConfigFault::UnknownSide(text) => n.prop("to"@) == Some(text) && forall|side: Side|
                text != #[trigger] side_text(side),
            ConfigFault::UnknownDirection(text) => (n.prop("to"@) == Some(text) || n.prop(
                "direction"@,
            ) == Some(text)) && !names_direction(text, CycleDirection::Forward)
                && !names_direction(text, CycleDirection::Backward),
            ConfigFault::BadWorkspace { value, .. } => n.prop("to"@) == Some(value) && number_of(
                value,
            ) is None,
            ConfigFault::OutOfRange(name) => property(n.entries, name) matches Some(
                ValueView::Integer(i),
            ) && !(i32::MIN <= i <= i32::MAX),
            ConfigFault::NotInteger(name) => property(n.entries, name) is Some && !(property(
                n.entries,
                name,
            )->Some_0 is Integer),
            ConfigFault::NotNumber(name) => property(n.entries, name) is Some && !(property(
                n.entries,
                name,
            )->Some_0 is Integer) && !(property(n.entries, name)->Some_0 is Float),
            _ => false,
        },
{
}

/// The actions that need nothing but their name are read by it, and the others once they
/// have what they need.
pub proof fn known_actions_are_read(n: NodeView)
    ensures
        action_named(n, "center"@) == Ok::<WindowAction, ConfigFault>(WindowAction::Center),
        action_named(n, "find-window"@) == Ok::<WindowAction, ConfigFault>(
            WindowAction::FindWindow,
        ),
        action_named(n, "maximize"@) == Ok::<WindowAction, ConfigFault>(WindowAction::Maximize),
        action_named(n, "maximize-toggle"@) == Ok::<WindowAction, ConfigFault>(
            WindowAction::MaximizeToggle,
        ),
        action_named(n, "minimize"@) == Ok::<WindowAction, ConfigFault>(WindowAction::Minimize),
        action_named(n, "always-on-top"@) == Ok::<WindowAction, ConfigFault>(
            WindowAction::AlwaysOnTop,
        ),
        action_named(n, "show-desktop"@) == Ok::<WindowAction, ConfigFault>(
            WindowAction::ShowDesktop,
        ),
        n.prop("direction"@) is None ==> action_named(n, "cycle-same-app"@) == Ok::<
            WindowAction,
            ConfigFault,
        >(WindowAction::CycleSameApp(CycleDirection::Forward)),
{
    reveal_strlit("adjust");
    reveal_strlit("preset");
    reveal_strlit("center");
    reveal_strlit("snap");
    reveal_strlit("corner");
    reveal_strlit("smart-tile");
    reveal_strlit("find-window");
    reveal_strlit("maximize");
    reveal_strlit("maximize-toggle");
    reveal_strlit("minimize");
    reveal_strlit("always-on-top");
    reveal_strlit("show-desktop");
    reveal_strlit("move-to-monitor");
    reveal_strlit("cycle-same-app");
    assert("adjust"@[0] == 'a' && "preset"@[0] == 'p' && "center"@[0] == 'c' && "corner"@[0] == 'c');
    assert("center"@[1] == 'e' && "corner"@[1] == 'o');
    assert("snap"@.len() == 4 && "smart-tile"@.len() == 10 && "find-window"@.len() == 11);
    assert("center"@.len() == 6 && "adjust"@.len() == 6 && "preset"@.len() == 6);
    assert("maximize"@.len() == 8 && "minimize"@.len() == 8 && "corner"@.len() == 6);
    assert("maximize"@[1] == 'a' && "minimize"@[1] == 'i');
    assert("maximize-toggle"@.len() == 15 && "move-to-monitor"@.len() == 15);
    assert("maximize-toggle"@[1] == 'a' && "move-to-monitor"@[1] == 'o');
    assert("always-on-top"@.len() == 13 && "show-desktop"@.len() == 12);
    assert("cycle-same-app"@.len() == 14);
}

/// A number that is written fits exactly if it is a whole number of 32 bits, and one that
/// is left out is zero; a size has to be given, whole or decimal.
pub proof fn numbers_are_read(n: NodeView, name: Seq<char>, v: i32, scale: Scale)
    ensures
        gives_number(n, name, v) <==> int_prop(n, name) == Ok::<i32, ConfigFault>(v),
        gives_scale(n, name, scale) <==> scale_prop(n, name) == Ok::<Scale, ConfigFault>(scale),
{
}

/// A combo that is refused is refused for the key that is missing, the first token before
/// the key that is no modifier, or the key that is unknown.
pub proof fn refused_combos_are_told_why(spec: Seq<char>)
    requires
        combo_of(spec) is Err,
    ensures
        ({
            let parts = split_on(spec, '+');
            let last = parts.last();
            match combo_of(spec)->Err_0 {
                ComboFault::MissingKey { spec: told } => told == spec && last.len() == 0,
                ComboFault::UnknownModifier { spec: told, token } => {
                    &&& told == spec && last.len() > 0
                    &&& modifier_named(token) is None
                    &&& parts.drop_last().contains(token)
                },
                ComboFault::UnknownKey { spec: told, token } => {
                    &&& told == spec && token == last
                    &&& forall|key: Key| lower_ascii(token) != #[trigger] key.spec_name()
                },
            }
        }),
{
    let parts = split_on(spec, '+');
    lemma_bad_token(parts.drop_last());
    assert forall|key: Key| key_named(parts.last()) is None implies lower_ascii(parts.last())
        != #[trigger] key.spec_name() by {
        keys_are_found_by_name(parts.last(), key);
    }
}

proof fn lemma_bad_token(tokens: Seq<Seq<char>>)
    ensures
        modifiers_of(tokens) matches Err(token) ==> modifier_named(token) is None
            && tokens.contains(token),
    decreases tokens.len(),
{
    if tokens.len() > 0 {
        let init = tokens.drop_last();
        lemma_bad_token(init);
        if let Err(token) = modifiers_of(tokens) {
            if modifiers_of(init) is Err {
                let i = choose|i: int| 0 <= i < init.len() && init[i] == token;
                assert(tokens[i] == token);
            } else {
                assert(tokens[tokens.len() - 1] == token);
            }
        }
    }
}

/// A property that should name a key, and does not, or is not there.
pub open spec fn misses_key(n: NodeView, name: Seq<char>, fault: ConfigFault) -> bool {
    match n.prop(name) {
        None => fault == (ConfigFault::MissingProperty { node: n.name, property: name }),
        Some(text) => fault == ConfigFault::UnknownKey(text) && forall|key: Key|
            lower_ascii(text) != #[trigger] key.spec_name(),
    }
}

proof fn lemma_missing_key(n: NodeView, name: Seq<char>)
    ensures
        required_key(n, name) matches Err(fault) ==> misses_key(n, name, fault),
{
    if let Some(text) = n.prop(name) {
        assert forall|key: Key| key_named(text) is None implies lower_ascii(text)
            != #[trigger] key.spec_name() by {
            keys_are_found_by_name(text, key);
        }
    }
}

/// A mapping, a tap-hold entry, a binding or a node at the top that is refused is refused
/// for what is wrong with it.
pub proof fn refused_entries_are_told_why(n: NodeView, os: Seq<char>, config: ConfigView)
    ensures
        modmap_entry(n) matches Err(fault) ==> if n.name != "map"@ {
            fault == (ConfigFault::UnexpectedNode { expected: "map"@, found: n.name })
        } else {
            misses_key(n, "from"@, fault) || misses_key(n, "to"@, fault)
        },
        tap_hold_entry(n) matches Err(fault) ==> if n.name != "map"@ {
            fault == (ConfigFault::UnexpectedNode { expected: "map"@, found: n.name })
        } else {
            ||| misses_key(n, "key"@, fault)
            ||| misses_key(n, "tap"@, fault)
            ||| misses_key(n, "hold"@, fault)
            ||| fault matches ConfigFault::HoldNotModifier(key) && names_key(n, "hold"@, key)
                && key.spec_modifier() is None
        },
        bind_of(n, os) matches Err(fault) ==> if n.name != "bind"@ {
            fault == (ConfigFault::UnexpectedNode { expected: "bind"@, found: n.name })
        } else if n.arg() is None {
            fault is MissingTrigger
        } else if combo_of(n.arg()->Some_0) is Err {
            fault == ConfigFault::BadCombo(combo_of(n.arg()->Some_0)->Err_0)
        } else if n.prop("to"@) is Some || n.prop("mark-to"@) is Some {
            fault == ConfigFault::ShorthandRemoved(n.arg()->Some_0)
        } else if n.children.len() == 0 {
            fault == ConfigFault::NoAction(n.arg()->Some_0)
        } else {
            steps_from(n.children, os, 0, Seq::empty()) == Err::<Seq<StepView>, ConfigFault>(fault)
        },
        n.name != "settings"@ && n.name != "modmap"@ && n.name != "multipurpose-modmap"@ && n.name
            != "keymap"@ ==> with_node(config, n, os) == Err::<ConfigView, ConfigFault>(
            ConfigFault::UnknownTopLevel(n.name),
        ),
{
    lemma_missing_key(n, "from"@);
    lemma_missing_key(n, "to"@);
    lemma_missing_key(n, "key"@);
    lemma_missing_key(n, "tap"@);
    lemma_missing_key(n, "hold"@);
    if let Ok(key) = required_key(n, "hold"@) {
        lemma_required_key(n, "hold"@, key);
    }
}

/// A document without nodes maps nothing, binds nothing and passes nothing through.
pub proof fn empty_documents_change_nothing(os: Seq<char>)
    ensures
        config_of(Seq::empty(), os) matches Ok(config) && config.modmap.dom().is_empty()
            && config.multipurpose.len() == 0 && config.keymaps.len() == 0
            && config.pass_through.len() == 0,
{
}

proof fn lemma_digit_fault(digits: Seq<char>, i: int)
    requires
        0 <= i <= digits.len(),
        all_digits(digits.take(i)),
        i > 0 ==> digits_value(digits.take(i)) <= u32::MAX,
    ensures
        digit_fault(digits, i) is None <==> all_digits(digits) && digits_value(digits) <= u32::MAX,
        digit_fault(digits, i) matches Some(NumberFault::NotDigit) ==> !all_digits(digits),
        digit_fault(digits, i) matches Some(fault) ==> fault is NotDigit || fault is TooLarge,
        all_digits(digits) && digits_value(digits) > u32::MAX ==> digit_fault(digits, i) == Some(
            NumberFault::TooLarge,
        ),
    decreases digits.len() - i,
{
    if i < digits.len() {
        let next = digits.take(i + 1);
        assert(next.drop_last() =~= digits.take(i));
        assert(next.last() == digits[i]);
        if '0' <= digits[i] <= '9' {
            assert(all_digits(next)) by {
                assert forall|k: int| 0 <= k < next.len() implies '0' <= #[trigger] next[k]
                    <= '9' by {
                    if k < i {
                        assert(digits.take(i)[k] == next[k]);
                    }
                }
            }
            if digits_value(next) <= u32::MAX {
                lemma_digit_fault(digits, i + 1);
            } else {
                lemma_more_digits(digits, i + 1);
            }
        }
    } else {
        assert(digits.take(i) =~= digits);
    }
}

proof fn lemma_more_digits(digits: Seq<char>, i: int)
    requires
        0 <= i <= digits.len(),
    ensures
        digits_value(digits.take(i)) <= digits_value(digits),
    decreases digits.len() - i,
{
    if i < digits.len() {
        let next = digits.take(i + 1);
        assert(next.drop_last() =~= digits.take(i));
        lemma_more_digits(digits, i + 1);
    } else {
        assert(digits.take(i) =~= digits);
    }
}

/// A text is either a number or told why not: it is empty, it holds what is no digit, or
/// its digits make more than fits.
pub proof fn numbers_are_read_or_told_why(text: Seq<char>)
    ensures
        number_of(text) is Some <==> number_fault(text) is None,
        number_fault(text) == Some(NumberFault::Empty) <==> text.len() == 0,
        text.len() > 0 && all_digits(text) && digits_value(text) > u32::MAX ==> number_fault(text)
            == Some(NumberFault::TooLarge),
        number_fault(text) == Some(NumberFault::NotDigit) ==> !all_digits(text),
{
    let digits = if text.len() > 0 && text[0] == '+' {
        text.skip(1)
    } else {
        text
    };
    assert(digits.take(0) =~= Seq::empty());
    lemma_digit_fault(digits, 0);
    if text.len() > 0 && text[0] == '+' {
        assert(!all_digits(text));
    }
}

/// A document of one node does what the node does, and a document that cannot be parsed is
/// refused as such.
pub proof fn documents_do_what_their_nodes_do(
    config: ConfigView,
    n: NodeView,
    text: Seq<char>,
    os: Seq<char>,
)
    ensures
        config_from(seq![n], os, 0, config) == with_node(config, n, os),
        kdl_nodes(text) is None ==> loaded(text, os) == Err::<ConfigView, ConfigFault>(
            ConfigFault::Syntax,
        ),
        kdl_nodes(text) matches Some(nodes) ==> loaded(text, os) == config_of(nodes, os),
{
    let one = seq![n];
    reveal_with_fuel(config_from, 2);
    assert(one.len() == 1 && one[0] == n);
}

} // verus!
