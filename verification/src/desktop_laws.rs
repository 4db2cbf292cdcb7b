//! What is read off the desktop and how programs, windows and files are found on it.

use crate::actions::{CycleDirection, OutEvent, Workspace};
use crate::icon::{frame_bytes, is_rgba, PngFrameView};
use crate::key::Key;
use crate::launch::{
    after_slash, belongs, first_window, joined_args, launch_of, utf16, utf16_units, windows_of_stem,
};
use crate::notify::send_arguments;
use crate::path::{
    begins_double, begins_with, body_start, component, components, components_from, instances,
    is_instance, is_separator, joined, last_dot, name_in, next_separator, of_same_program, piece,
    same_program_is_fair, shown, stem_of, style_of, without_deleted, PathStyle,
};
use crate::startup::{config_base, sends_like_a_keyboard};
use crate::text::{
    first_pieces_end_at_the_first_separator, is_white, lower_ascii, lowercase, occurs_in, text_in,
    texts_without_separators_are_one_piece, trim, trimming_takes_white_from_the_ends,
};
use crate::trace::{action_text, events_text};
use crate::tray::{choice_of, MenuChoice, ID_ENABLE, ID_QUIT, ID_RELOAD};
use crate::wmprops::{
    class_text, cycled, desktop_index, first_at, focus_after, four_at, name_text, nonempty,
    windows_named, without_nuls, workspace_index, FocusEvent, FocusView,
};
use vstd::prelude::*;

verus! {

// === Window properties ===

/// Of a class pair, written as two texts that each end in a NUL, the class is the second;
/// a single text is the class itself.
pub proof fn classes_are_the_second_text(
    value: Seq<u8>,
    instance: Seq<char>,
    class: Seq<char>,
)
    requires
        instance.len() > 0 && !instance.contains('\0'),
        class.len() > 0 && !class.contains('\0'),
    ensures
        text_in(value) == instance + seq!['\0'] + (class + seq!['\0'] + Seq::<char>::empty())
            ==> class_text(value) == class,
        text_in(value) == instance + seq!['\0'] + class ==> class_text(value) == class,
        text_in(value) == class + seq!['\0'] + Seq::<char>::empty() ==> class_text(value) == class,
        text_in(value) == class ==> class_text(value) == class,
        text_in(value).len() == 0 ==> class_text(value).len() == 0,
{
    let none = Seq::<char>::empty();
    let nul = seq!['\0'];
    reveal_with_fuel(nonempty, 5);
    assert(!none.contains('\0'));
    texts_without_separators_are_one_piece(none, '\0');
    texts_without_separators_are_one_piece(class, '\0');
    first_pieces_end_at_the_first_separator(class, none, '\0');
    first_pieces_end_at_the_first_separator(instance, class, '\0');
    first_pieces_end_at_the_first_separator(instance, class + nul + none, '\0');
    let one = seq![class];
    assert(one.drop_last() =~= Seq::empty());
    assert(nonempty(one) =~= seq![class]);
    let ended = seq![class] + seq![none];
    assert(ended.drop_last() =~= one);
    assert(nonempty(ended) =~= seq![class]);
    let first = seq![instance];
    assert(first.drop_last() =~= Seq::empty());
    assert(nonempty(first) =~= seq![instance]);
    let two = seq![instance] + seq![class];
    assert(two.drop_last() =~= first);
    assert(nonempty(two) =~= seq![instance, class]);
    let three = seq![instance] + (seq![class] + seq![none]);
    assert(three.drop_last() =~= two);
    assert(nonempty(three) =~= seq![instance, class]);
    let empty = seq![none];
    assert(empty.drop_last() =~= Seq::empty());
    assert(nonempty(empty) =~= Seq::empty());
    if text_in(value).len() == 0 {
        assert(text_in(value) =~= none);
    }
}

/// A window's name has no white space at its ends, and is part of what was read; what was
/// read with a NUL behind it is read alike.
pub proof fn names_have_no_white_ends(value: Seq<u8>, ended: Seq<u8>)
    ensures
        name_text(value).len() > 0 ==> !is_white(name_text(value)[0]) && !is_white(
            name_text(value).last(),
        ),
        occurs_in(text_in(value), name_text(value)),
        text_in(ended) == text_in(value).push('\0') ==> name_text(ended) == name_text(value),
{
    let text = text_in(value);
    let plain = without_nuls(text);
    trimming_takes_white_from_the_ends(plain);
    let (a, b) = choose|a: int, b: int|
        {
            &&& 0 <= a <= b <= plain.len()
            &&& trim(plain) == #[trigger] plain.subrange(a, b)
            &&& forall|i: int| 0 <= i < a ==> is_white(#[trigger] plain[i])
            &&& forall|i: int| b <= i < plain.len() ==> is_white(#[trigger] plain[i])
        };
    lemma_without_nuls(text);
    assert(text.subrange(a, a + name_text(value).len()) =~= name_text(value));
    assert(crate::text::occurs_at(text, name_text(value), a));
    if text_in(ended) == text.push('\0') {
        assert(text.push('\0').drop_last() =~= text);
        assert(without_nuls(text.push('\0')) == plain);
    }
}

proof fn lemma_without_nuls(s: Seq<char>)
    ensures
        without_nuls(s).is_prefix_of(s),
    decreases s.len(),
{
    if s.len() > 0 && s.last() == '\0' {
        lemma_without_nuls(s.drop_last());
    }
}

/// Four numbers are read in the order they stand, each as a signed one.
pub proof fn four_numbers_are_read_in_order(vals: Seq<u32>, base: int)
    ensures
        vals[base] <= i32::MAX ==> four_at(vals, base).0 == vals[base],
        vals[base + 1] <= i32::MAX ==> four_at(vals, base).1 == vals[base + 1],
        vals[base + 2] <= i32::MAX ==> four_at(vals, base).2 == vals[base + 2],
        vals[base + 3] <= i32::MAX ==> four_at(vals, base).3 == vals[base + 3],
{
}

/// Workspaces are named from one on; the one before and the one after are a step away,
/// and the first and the last are where the steps end.
pub proof fn workspaces_are_a_step_apart(current: u32, count: u32, n: u32)
    requires
        current < count,
    ensures
        1 <= n <= count ==> workspace_index(Workspace::Index(n), current, count) == n - 1,
        1 <= n <= count ==> desktop_index(Workspace::Index(n), current, Some(count)) == n - 1,
        n > count ==> desktop_index(Workspace::Index(n), current, Some(count)) == count - 1,
        n >= 1 ==> desktop_index(Workspace::Index(n), current, None) == n - 1,
        current > 0 ==> workspace_index(Workspace::Prev, current, count) == current - 1,
        current > 0 ==> desktop_index(Workspace::Prev, current, Some(count)) == current - 1,
        workspace_index(Workspace::Prev, 0, count) == 0,
        desktop_index(Workspace::Prev, 0, Some(count)) == 0,
        current + 1 < count ==> workspace_index(Workspace::Next, current, count) == current + 1,
        current + 1 < count ==> desktop_index(Workspace::Next, current, Some(count)) == current + 1,
        workspace_index(Workspace::Next, (count - 1) as u32, count) == count - 1,
        desktop_index(Workspace::Next, (count - 1) as u32, Some(count)) == count - 1,
        desktop_index(Workspace::Next, current, None) == current,
{
}

/// The windows of a class are those that have it, in order.
pub proof fn windows_of_a_class_come_in_order(
    a: Seq<(u64, Option<Seq<char>>)>,
    b: Seq<(u64, Option<Seq<char>>)>,
    window: (u64, Option<Seq<char>>),
    name: Seq<char>,
)
    ensures
        windows_named(a + b, name) == windows_named(a, name) + windows_named(b, name),
        windows_named(seq![window], name) == (if window.1 == Some(name) {
            seq![window.0]
        } else {
            Seq::empty()
        }),
    decreases b.len(),
{
    let one = seq![window];
    assert(one.drop_last() =~= Seq::empty());
    reveal_with_fuel(windows_named, 2);
    assert(windows_named(one, name) =~= (if window.1 == Some(name) {
        seq![window.0]
    } else {
        Seq::empty()
    }));
    if b.len() == 0 {
        assert(a + b =~= a);
    } else {
        windows_of_a_class_come_in_order(a, b.drop_last(), window, name);
        assert((a + b).drop_last() =~= a + b.drop_last());
        assert((a + b).last() == b.last());
    }
    assert(windows_named(a + b, name) =~= windows_named(a, name) + windows_named(b, name));
}

proof fn lemma_first_at(list: Seq<u64>, v: u64, i: int, k: int)
    requires
        0 <= i <= k < list.len(),
        list[k] == v,
        forall|j: int| i <= j < k ==> #[trigger] list[j] != v,
    ensures
        first_at(list, v, i) == Some(k),
    decreases k - i,
{
    if i < k {
        assert(list[i] != v);
        lemma_first_at(list, v, i + 1, k);
    }
}

proof fn lemma_not_there(list: Seq<u64>, v: u64, i: int)
    requires
        0 <= i,
        !list.contains(v),
    ensures
        first_at(list, v, i) is None,
    decreases list.len() - i,
{
    if i < list.len() {
        assert(list.contains(list[i]));
        lemma_not_there(list, v, i + 1);
    }
}

/// Cycling goes from a window to the one behind it in the list, or to the one before it,
/// round the ends; from a window that is not in the list to the last; and nowhere where
/// there is only one.
pub proof fn cycling_goes_to_the_neighbour(same: Seq<u64>, i: int, win: u64)
    requires
        same.len() > 1,
        0 <= i < same.len(),
        forall|a: int, b: int| 0 <= a < b < same.len() ==> #[trigger] same[a] != #[trigger] same[b],
    ensures
        i + 1 < same.len() ==> cycled(same, same[i], CycleDirection::Forward) == Some(same[i + 1]),
        cycled(same, same.last(), CycleDirection::Forward) == Some(same[0]),
        i > 0 ==> cycled(same, same[i], CycleDirection::Backward) == Some(same[i - 1]),
        cycled(same, same[0], CycleDirection::Backward) == Some(same.last()),
        !same.contains(win) ==> cycled(same, win, CycleDirection::Forward) == Some(same.last()),
        !same.contains(win) ==> cycled(same, win, CycleDirection::Backward) == Some(same.last()),
        cycled(same.take(1), win, CycleDirection::Forward) is None,
{
    let n = same.len() as int;
    lemma_first_at(same, same[i], 0, i);
    lemma_first_at(same, same[0], 0, 0);
    lemma_first_at(same, same[n - 1], 0, n - 1);
    if !same.contains(win) {
        lemma_not_there(same, win, 0);
    }
    if i + 1 < n {
        assert((i + 1) % n == i + 1) by (nonlinear_arith)
            requires
                0 <= i + 1 < n,
        ;
    }
    assert(n % n == 0) by (nonlinear_arith)
        requires
            n > 0,
    ;
    if i > 0 {
        assert((i + n - 1) % n == i - 1) by (nonlinear_arith)
            requires
                0 < i < n,
        ;
    }
    assert((n - 1) % n == n - 1) by (nonlinear_arith)
        requires
            n > 0,
    ;
}

/// While the focused window has lost its keys to a grab the application is unknown; a grab
/// on another window changes nothing; and when the grab ends no window counts as focused,
/// so that the application is read anew.
pub proof fn grabs_hide_the_application(f: FocusView, window: u32)
    ensures
        ({
            let lost = focus_after(f, FocusEvent::LostToGrab(f.focus));
            &&& lost.grabbed && lost.class.len() == 0 && lost.focus == f.focus
        }),
        window != f.focus ==> focus_after(f, FocusEvent::LostToGrab(window)) == f,
        ({
            let back = focus_after(f, FocusEvent::BackFromGrab(window));
            &&& !back.grabbed && back.focus == 0 && back.class == f.class
        }),
        focus_after(f, FocusEvent::Other) == f,
{
}

// === Programs ===

/// What stands behind the last slash is the name of a program.
pub proof fn program_names_stand_behind_the_slash(dir: Seq<char>, name: Seq<char>)
    requires
        !name.contains('/'),
    ensures
        after_slash(dir + seq!['/'] + name) == name,
        after_slash(name) == name,
    decreases name.len(),
{
    let p = dir + seq!['/'] + name;
    if name.len() == 0 {
        assert(p.last() == '/');
        assert(name =~= Seq::empty());
    } else {
        let init = name.drop_last();
        assert(!init.contains('/')) by {
            if init.contains('/') {
                let i = choose|i: int| 0 <= i < init.len() && init[i] == '/';
                assert(name[i] == '/');
            }
        }
        assert(name.contains(name[name.len() - 1]));
        program_names_stand_behind_the_slash(dir, init);
        assert(p.drop_last() =~= dir + seq!['/'] + init);
        assert(p.last() == name.last());
        assert(init.push(name.last()) =~= name);
    }
}

/// A command line runs its first word with the others as arguments, and its windows are
/// known by the program's name, without its directory and, on Windows, its extension.
pub proof fn command_lines_run_their_first_word(
    words: Seq<Seq<char>>,
    dir: Seq<char>,
    name: Seq<char>,
    windows: bool,
)
    ensures
        launch_of(words, windows) is None <==> words.len() == 0,
        launch_of(words, windows) matches Some(launch) ==> seq![launch.bin] + launch.args == words,
        words.len() > 0 && !name.contains('/') && (words[0] == dir + seq!['/'] + name || words[0]
            == name) ==> launch_of(words, false)->Some_0.stem == lowercase(name),
        words.len() > 0 && name_in(words[0], true) == Some(name) ==> launch_of(
            words,
            true,
        )->Some_0.stem == stem_of(name),
        words.len() > 0 && name_in(words[0], true) is None ==> launch_of(words, true)->Some_0.stem
            == words[0],
{
    if words.len() > 0 {
        assert(seq![words[0]] + words.drop_first() =~= words);
        if !name.contains('/') {
            program_names_stand_behind_the_slash(dir, name);
        }
    }
}

/// The first window whose class holds the program's name is the program's.
pub proof fn programs_are_found_by_their_first_window(
    list: Seq<(u64, Option<Seq<char>>)>,
    stem: Seq<char>,
    i: int,
)
    requires
        0 <= i,
    ensures
        match first_window(list, stem, i) {
            Some(window) => exists|k: int|
                {
                    &&& i <= k < list.len()
                    &&& #[trigger] list[k].0 == window
                    &&& list[k].1 matches Some(class) && occurs_in(lowercase(class), stem)
                    &&& forall|j: int|
                        i <= j < k ==> !((#[trigger] list[j]).1 matches Some(class) && occurs_in(
                            lowercase(class),
                            stem,
                        ))
                },
            None => forall|j: int|
                i <= j < list.len() ==> !((#[trigger] list[j]).1 matches Some(class) && occurs_in(
                    lowercase(class),
                    stem,
                )),
        },
    decreases list.len() - i,
{
    if i < list.len() {
        if belongs(list[i].1, stem) {
            assert(list[i].0 == first_window(list, stem, i)->Some_0);
        } else {
            programs_are_found_by_their_first_window(list, stem, i + 1);
        }
    }
}

/// The windows of a program are those named as it is, whatever the case, in order.
pub proof fn windows_of_a_program_come_in_order(
    a: Seq<(u64, Option<Seq<char>>)>,
    b: Seq<(u64, Option<Seq<char>>)>,
    window: (u64, Option<Seq<char>>),
    stem: Seq<char>,
)
    ensures
        windows_of_stem(a + b, stem) == windows_of_stem(a, stem) + windows_of_stem(b, stem),
        windows_of_stem(seq![window], stem) == (if window.1 is Some && lower_ascii(
            window.1->Some_0,
        ) == lower_ascii(stem) {
            seq![window.0]
        } else {
            Seq::empty()
        }),
    decreases b.len(),
{
    let one = seq![window];
    assert(one.drop_last() =~= Seq::empty());
    reveal_with_fuel(windows_of_stem, 2);
    assert(windows_of_stem(one, stem) =~= (if window.1 is Some && lower_ascii(window.1->Some_0)
        == lower_ascii(stem) {
        seq![window.0]
    } else {
        Seq::empty()
    }));
    if b.len() == 0 {
        assert(a + b =~= a);
    } else {
        windows_of_a_program_come_in_order(a, b.drop_last(), window, stem);
        assert((a + b).drop_last() =~= a + b.drop_last());
        assert((a + b).last() == b.last());
    }
    assert(windows_of_stem(a + b, stem) =~= windows_of_stem(a, stem) + windows_of_stem(b, stem));
}

/// Arguments are joined by a space, in order; one with white space in it stands between
/// quotes, any other as it is.
pub proof fn arguments_are_joined_by_spaces(args: Seq<Seq<char>>, arg: Seq<char>)
    ensures
        joined_args(Seq::empty()).len() == 0,
        args.len() > 0 ==> joined_args(args.push(arg)) == joined_args(args) + seq![' ']
            + joined_args(seq![arg]),
        (exists|i: int| 0 <= i < arg.len() && is_white(#[trigger] arg[i])) ==> joined_args(
            seq![arg],
        ) == seq!['"'] + arg + seq!['"'],
        (forall|i: int| 0 <= i < arg.len() ==> !is_white(#[trigger] arg[i])) ==> joined_args(
            seq![arg],
        ) == arg,
{
    assert(args.push(arg).drop_last() =~= args);
    assert(args.push(arg).last() == arg);
}

/// A character below 2^16 is its own unit; any other is a high and a low surrogate, from
/// which its code can be put together again.
pub proof fn wide_characters_can_be_read_back(c: char, s: Seq<char>)
    ensures
        (c as u32) < 0x1_0000 ==> utf16_units(c).len() == 1 && utf16_units(c)[0] == c as u32,
        (c as u32) >= 0x1_0000 ==> {
            let units = utf16_units(c);
            &&& units.len() == 2
            &&& 0xd800 <= units[0] < 0xdc00
            &&& 0xdc00 <= units[1] < 0xe000
            &&& (units[0] - 0xd800) * 0x400 + (units[1] - 0xdc00) + 0x1_0000 == c as u32
        },
        utf16(s.push(c)) == utf16(s) + utf16_units(c),
        utf16(Seq::empty()).len() == 0,
{
    assert(s.push(c).drop_last() =~= s);
    let code = c as u32;
    assert(code <= 0x10_ffff);
}

// === Files ===

/// The components of a path end with those behind any of its separators.
proof fn lemma_tail(
    p: Seq<char>,
    style: PathStyle,
    from: int,
    start: int,
    i: int,
    k: int,
)
    requires
        0 <= i < k <= p.len(),
        is_separator(p[k - 1], style),
    ensures
        ({
            let tail = components_from(p, style, from, k, k);
            let all = components_from(p, style, from, start, i);
            tail.len() > 0 ==> all.len() > 0 && all.last() == tail.last()
        }),
    decreases k - i,
{
    let tail = components_from(p, style, from, k, k);
    if is_separator(p[i], style) {
        if i + 1 < k {
            lemma_tail(p, style, from, i + 1, i + 1, k);
        }
    } else {
        lemma_tail(p, style, from, start, i + 1, k);
    }
}

proof fn lemma_last_piece(p: Seq<char>, style: PathStyle, from: int, start: int, i: int)
    requires
        0 <= start <= i <= p.len(),
        forall|j: int| i <= j < p.len() ==> !is_separator(#[trigger] p[j], style),
    ensures
        components_from(p, style, from, start, i) == piece(p, style, from, start, p.len() as int),
    decreases p.len() - i,
{
    if i < p.len() {
        lemma_last_piece(p, style, from, start, i + 1);
    }
}

/// The name of a file is what stands behind the last separator of its path, unless that is
/// a dot or two.
pub proof fn file_names_stand_behind_the_separator(
    dir: Seq<char>,
    sep: char,
    name: Seq<char>,
    windows: bool,
)
    requires
        ({
            let style = if windows {
                PathStyle::Windows
            } else {
                PathStyle::Unix
            };
            &&& is_separator(sep, style)
            &&& forall|i: int| 0 <= i < name.len() ==> !is_separator(#[trigger] name[i], style)
        }),
        windows ==> !begins_double(dir + seq![sep] + name),
        name.len() > 0 && name != seq!['.'] && name != seq!['.', '.'],
    ensures
        name_in(dir + seq![sep] + name, windows) == Some(name),
{
    let p = dir + seq![sep] + name;
    let style = style_of(p, windows);
    let k = dir.len() as int + 1;
    let from = body_start(p, windows);
    assert(p[k - 1] == sep);
    assert(0 <= from < k) by {
        if windows {
            assert(!crate::path::begins_verbatim(p));
            if crate::path::drive_at(p, 0) {
                assert(p[0] != sep || !is_separator(p[0], style));
            }
        }
    }
    assert forall|j: int| k <= j < p.len() implies !is_separator(#[trigger] p[j], style) by {
        assert(p[j] == name[j - k]);
    }
    assert(p.subrange(k, p.len() as int) =~= name);
    lemma_last_piece(p, style, from, k, k);
    lemma_tail(p, style, from, from, from, k);
}

proof fn lemma_next_separator(p: Seq<char>, style: PathStyle, i: int, k: int)
    requires
        0 <= i <= k <= p.len(),
        k < p.len() ==> is_separator(p[k], style),
        forall|j: int| i <= j < k ==> !is_separator(#[trigger] p[j], style),
    ensures
        next_separator(p, style, i) == k,
    decreases k - i,
{
    if i < k {
        assert(!is_separator(p[i], style));
        lemma_next_separator(p, style, i + 1, k);
    }
}

/// No character parts a path on Windows.
pub open spec fn is_one_piece(s: Seq<char>) -> bool {
    s.len() > 0 && forall|i: int|
        0 <= i < s.len() ==> !is_separator(#[trigger] s[i], PathStyle::Windows)
}

/// A share on Windows is no file, and a file on it has the name behind it.
pub proof fn files_on_shares_have_names(server: Seq<char>, share: Seq<char>, name: Seq<char>)
    requires
        is_one_piece(server) && is_one_piece(share) && is_one_piece(name),
        server != seq!['.'] && server != seq!['?'],
        name != seq!['.'] && name != seq!['.', '.'],
    ensures
        ({
            let root = seq!['\\', '\\'] + server + seq!['\\'] + share;
            &&& name_in(root, true) is None
            &&& name_in(root + seq!['\\'] + name, true) == Some(name)
        }),
{
    let root = seq!['\\', '\\'] + server + seq!['\\'] + share;
    let p = root + seq!['\\'] + name;
    lemma_share_root(root, server, share);
    assert(components(root, PathStyle::Windows, root.len() as int) =~= Seq::empty());
    lemma_share_root(p, server, share);
    let k = root.len() as int + 1;
    assert(p[k - 1] == '\\');
    assert forall|j: int| k <= j < p.len() implies !is_separator(
        #[trigger] p[j],
        PathStyle::Windows,
    ) by {
        assert(p[j] == name[j - k]);
    }
    assert(p.subrange(k, p.len() as int) =~= name);
    lemma_last_piece(p, PathStyle::Windows, root.len() as int, k, k);
    lemma_tail(p, PathStyle::Windows, root.len() as int, root.len() as int, root.len() as int, k);
}

proof fn lemma_share_root(p: Seq<char>, server: Seq<char>, share: Seq<char>)
    requires
        is_one_piece(server) && is_one_piece(share),
        server != seq!['.'] && server != seq!['?'],
        ({
            let root = seq!['\\', '\\'] + server + seq!['\\'] + share;
            &&& root.is_prefix_of(p)
            &&& p.len() > root.len() ==> p[root.len() as int] == '\\'
        }),
    ensures
        style_of(p, true) == PathStyle::Windows,
        body_start(p, true) == 3 + server.len() + share.len(),
{
    let root = seq!['\\', '\\'] + server + seq!['\\'] + share;
    let a = 2 + server.len() as int;
    let b = a + 1 + share.len() as int;
    assert forall|i: int| 0 <= i < root.len() implies p[i] == #[trigger] root[i] by {
        assert(root == p.take(root.len() as int) || root[i] == p[i]);
    }
    assert(root[0] == '\\' && root[1] == '\\' && root[a] == '\\');
    assert(p[0] == '\\' && p[1] == '\\' && p[a] == '\\');
    assert forall|j: int| 2 <= j < a implies !is_separator(
        #[trigger] p[j],
        PathStyle::Windows,
    ) by {
        assert(root[j] == server[j - 2]);
    }
    assert forall|j: int| a + 1 <= j < b implies !is_separator(
        #[trigger] p[j],
        PathStyle::Windows,
    ) by {
        assert(root[j] == share[j - a - 1]);
    }
    lemma_next_separator(p, PathStyle::Windows, 2, a);
    lemma_next_separator(p, PathStyle::Windows, a + 1, b);
    assert(p[2] == server[0]) by {
        assert(root[2] == server[0]);
    }
    assert(!(p[2] == '?' && p[3] == '\\') && !(p[2] == '.' && is_separator(
        p[3],
        PathStyle::Windows,
    ))) by {
        if server.len() == 1 {
            assert(server =~= seq![server[0]]);
        } else {
            assert(root[3] == server[1]);
            assert(!is_separator(server[1], PathStyle::Windows));
        }
    }
}

/// A file joined to a directory has the name it was joined by.
pub proof fn joined_files_keep_their_name(dir: Seq<char>, name: Seq<char>)
    requires
        dir.len() > 0,
        !name.contains('/'),
        name.len() > 0 && name != seq!['.'] && name != seq!['.', '.'],
    ensures
        name_in(joined(dir, name, false), false) == Some(name),
        dir.is_prefix_of(joined(dir, name, false)),
{
    reveal_strlit("/");
    assert forall|i: int| 0 <= i < name.len() implies !is_separator(
        #[trigger] name[i],
        PathStyle::Unix,
    ) by {
        assert(name.contains(name[i]));
    }
    assert("/"@ =~= seq!['/']);
    if dir.last() == '/' {
        file_names_stand_behind_the_separator(dir.drop_last(), '/', name, false);
        assert(dir.drop_last() + seq!['/'] + name =~= dir + name);
    } else {
        file_names_stand_behind_the_separator(dir, '/', name, false);
    }
}

/// On Windows too a file joined to a directory has the name it was joined by.
pub proof fn joined_files_keep_their_name_on_windows(dir: Seq<char>, name: Seq<char>)
    requires
        dir.len() > 2,
        !begins_double(dir),
        !name.contains('/') && !name.contains('\\'),
        name.len() > 0 && name != seq!['.'] && name != seq!['.', '.'],
    ensures
        name_in(joined(dir, name, true), true) == Some(name),
        dir.is_prefix_of(joined(dir, name, true)),
{
    reveal_strlit("\\");
    assert forall|i: int| 0 <= i < name.len() implies !is_separator(
        #[trigger] name[i],
        PathStyle::Windows,
    ) by {
        assert(name.contains(name[i]));
    }
    assert("\\"@ =~= seq!['\\']);
    if is_separator(dir.last(), PathStyle::Windows) {
        let init = dir.drop_last();
        let p = init + seq![dir.last()] + name;
        assert(p =~= dir + name);
        assert(p[0] == dir[0] && p[1] == dir[1]);
        file_names_stand_behind_the_separator(init, dir.last(), name, true);
    } else {
        let p = dir + seq!['\\'] + name;
        assert(p[0] == dir[0] && p[1] == dir[1]);
        file_names_stand_behind_the_separator(dir, '\\', name, true);
    }
}

/// Files of one name are of one program, wherever they lie and even where one has been
/// deleted since; files of two names are not.
pub proof fn programs_are_told_by_file_name(
    a: Seq<char>,
    b: Seq<char>,
    name: Seq<char>,
    other: Seq<char>,
)
    requires
        a.len() > 0 && b.len() > 0,
        !name.contains('/') && !other.contains('/'),
        name.len() > 0 && name != seq!['.'] && name != seq!['.', '.'],
        other.len() > 0 && other != seq!['.'] && other != seq!['.', '.'],
        without_deleted(joined(a, name, false)) == joined(a, name, false),
        without_deleted(joined(b, other, false)) == joined(b, other, false),
    ensures
        of_same_program(joined(a, name, false), joined(b, other, false), false) <==> name == other,
        of_same_program(joined(a, name, false) + " (deleted)"@, joined(b, other, false), false)
            <==> name == other,
{
    joined_files_keep_their_name(a, name);
    joined_files_keep_their_name(b, other);
    same_program_is_fair(joined(a, name, false), joined(b, other, false));
}

/// On Windows the case of a file's name does not matter, and what has no name is no
/// program on either system.
pub proof fn programs_are_told_in_any_case_on_windows(a: Seq<char>, b: Seq<char>)
    ensures
        of_same_program(a, b, true) <==> name_in(a, true) is Some && name_in(b, true) is Some
            && lower_ascii(name_in(a, true)->Some_0) == lower_ascii(name_in(b, true)->Some_0),
        name_in(without_deleted(a), false) is None ==> !of_same_program(a, b, false),
        name_in(without_deleted(b), false) is None ==> !of_same_program(a, b, false),
{
}

/// The stem of a name is what stands before its last dot, and all of it where it has none.
pub proof fn stems_end_at_the_last_dot(stem: Seq<char>, ext: Seq<char>)
    requires
        !ext.contains('.'),
    ensures
        stem.len() > 0 ==> stem_of(stem + seq!['.'] + ext) == stem,
        ext.len() > 0 ==> stem_of(ext) == ext,
{
    if stem.len() > 0 {
        let name = stem + seq!['.'] + ext;
        assert forall|i: int| stem.len() < i < name.len() implies name[i] != '.' by {
            assert(ext.contains(ext[i - stem.len() - 1]));
            assert(name[i] == ext[i - stem.len() - 1]);
        }
        lemma_last_dot(name, name.len() - 1, stem.len() as int);
        assert(name.take(stem.len() as int) =~= stem);
    }
    if ext.len() > 0 {
        assert forall|i: int| 0 < i < ext.len() implies ext[i] != '.' by {
            assert(ext.contains(ext[i]));
        }
        lemma_no_dot(ext, ext.len() - 1);
        assert(ext.take(ext.len() as int) =~= ext);
    }
}

proof fn lemma_last_dot(name: Seq<char>, i: int, k: int)
    requires
        0 < k <= i < name.len(),
        name[k] == '.',
        forall|j: int| k < j < name.len() ==> #[trigger] name[j] != '.',
    ensures
        last_dot(name, i) == k,
    decreases i,
{
    if i > k {
        lemma_last_dot(name, i - 1, k);
    }
}

proof fn lemma_no_dot(name: Seq<char>, i: int)
    requires
        i < name.len(),
        forall|j: int| 0 < j < name.len() ==> #[trigger] name[j] != '.',
    ensures
        last_dot(name, i) == name.len(),
    decreases i,
{
    if i > 0 {
        lemma_no_dot(name, i - 1);
    }
}

proof fn lemma_parted(p: Seq<char>, base: Seq<char>, start: int, i: int)
    requires
        base.len() < p.len(),
        base.is_prefix_of(p),
        p[base.len() as int] == '/',
        0 <= start <= i <= base.len(),
    ensures
        components_from(p, PathStyle::Unix, 0, start, i) == components_from(
            base,
            PathStyle::Unix,
            0,
            start,
            i,
        ) + components_from(p, PathStyle::Unix, 0, base.len() as int + 1, base.len() as int + 1),
    decreases base.len() - i,
{
    let tail = components_from(p, PathStyle::Unix, 0, base.len() as int + 1, base.len() as int + 1);
    if i < base.len() {
        assert(p[i] == base[i]);
        assert(p.subrange(start, i) =~= base.subrange(start, i));
        if p[i] == '/' {
            lemma_parted(p, base, i + 1, i + 1);
            let rest = components_from(base, PathStyle::Unix, 0, i + 1, i + 1);
            let first = piece(p, PathStyle::Unix, 0, start, i);
            assert(first + (rest + tail) =~= (first + rest) + tail);
        } else {
            lemma_parted(p, base, start, i + 1);
        }
    } else {
        assert(p.subrange(start, i) =~= base.subrange(start, i));
    }
}

/// A text that stands for a place below a directory: it begins with a name and ends with
/// one, and neither is a lone dot.
pub open spec fn is_way_down(rest: Seq<char>) -> bool {
    &&& rest.len() > 0
    &&& rest[0] != '/' && rest.last() != '/'
    &&& !(rest[0] == '.' && (rest.len() == 1 || rest[1] == '/'))
    &&& !(rest.last() == '.' && (rest.len() == 1 || rest[rest.len() - 2] == '/'))
}

proof fn lemma_first_begins(p: Seq<char>, start: int, i: int)
    requires
        0 < start <= i <= p.len(),
        start < p.len(),
        forall|j: int| start <= j < i ==> #[trigger] p[j] != '/',
        p[start] != '/',
        !(p[start] == '.' && (p.len() == start + 1 || p[start + 1] == '/')),
    ensures
        ({
            let parts = components_from(p, PathStyle::Unix, 0, start, i);
            parts.len() > 0 && parts[0].0 == start
        }),
    decreases p.len() - i,
{
    if i >= p.len() {
        assert(p.subrange(start, i)[0] == p[start]);
        assert(p.subrange(start, i) != seq!['.']) by {
            if p.subrange(start, i) == seq!['.'] {
                assert(p.subrange(start, i).len() == 1);
            }
        }
    } else if p[i] == '/' {
        assert(start < i);
        assert(p.subrange(start, i)[0] == p[start]);
        assert(p.subrange(start, i) != seq!['.']) by {
            if p.subrange(start, i) == seq!['.'] {
                assert(p.subrange(start, i).len() == 1);
            }
        }
    } else {
        lemma_first_begins(p, start, i + 1);
    }
}

proof fn lemma_last_ends(p: Seq<char>, start: int, i: int)
    requires
        0 < start <= i <= p.len(),
        start < p.len(),
        forall|j: int| start <= j < i ==> #[trigger] p[j] != '/',
        p.last() != '/',
        p[start - 1] == '/',
        !(p.last() == '.' && p[p.len() - 2] == '/'),
    ensures
        ({
            let parts = components_from(p, PathStyle::Unix, 0, start, i);
            parts.len() > 0 && parts.last().1 == p.len()
        }),
    decreases p.len() - i,
{
    if i >= p.len() {
        assert(p.subrange(start, i) != seq!['.']) by {
            if p.subrange(start, i) == seq!['.'] {
                assert(p.subrange(start, i).len() == 1);
                assert(p.subrange(start, i)[0] == p[start]);
            }
        }
    } else if p[i] == '/' {
        lemma_last_ends(p, i + 1, i + 1);
    } else {
        lemma_last_ends(p, start, i + 1);
    }
}

/// A file below the home directory is shown with a tilde for that directory.
pub proof fn files_below_home_are_shown_with_a_tilde(home: Seq<char>, rest: Seq<char>)
    requires
        home.len() > 0 && home.last() != '/',
        is_way_down(rest),
    ensures
        shown(home + seq!['/'] + rest, home) == "~/"@ + rest,
{
    let p = home + seq!['/'] + rest;
    let k = home.len() as int + 1;
    lemma_parted(p, home, 0, 0);
    let own = components(home, PathStyle::Unix, 0);
    let tail = components_from(p, PathStyle::Unix, 0, k, k);
    let parts = components(p, PathStyle::Unix, 0);
    assert(parts == own + tail);
    assert forall|i: int| 0 <= i < rest.len() implies #[trigger] p[k + i] == rest[i] by {}
    assert(p[k] == rest[0]);
    assert(p.last() == rest.last());
    if rest.len() > 1 {
        assert(p[k + 1] == rest[1]);
        assert(p[p.len() - 2] == rest[rest.len() - 2]);
    }
    lemma_first_begins(p, k, k);
    lemma_last_ends(p, k, k);
    lemma_ranges(home, 0, 0);
    assert forall|i: int| 0 <= i < own.len() implies #[trigger] component(p, i) == component(
        home,
        i,
    ) by {
        assert(parts[i] == own[i]);
        assert(p.subrange(own[i].0, own[i].1) =~= home.subrange(own[i].0, own[i].1));
    }
    assert(p[0] == home[0]);
    assert(begins_with(p, home));
    assert(parts[own.len() as int] == tail[0]);
    assert(parts.last() == tail.last());
    assert(p.subrange(k, p.len() as int) =~= rest);
}

proof fn lemma_ranges(p: Seq<char>, start: int, i: int)
    requires
        0 <= start <= i <= p.len(),
    ensures
        ({
            let parts = components_from(p, PathStyle::Unix, 0, start, i);
            forall|j: int|
                0 <= j < parts.len() ==> 0 <= (#[trigger] parts[j]).0 <= parts[j].1 <= p.len()
        }),
    decreases p.len() - i,
{
    if i < p.len() {
        if p[i] == '/' {
            lemma_ranges(p, i + 1, i + 1);
            let first = piece(p, PathStyle::Unix, 0, start, i);
            let rest = components_from(p, PathStyle::Unix, 0, i + 1, i + 1);
            let parts = components_from(p, PathStyle::Unix, 0, start, i);
            assert(parts == first + rest);
            assert forall|j: int| 0 <= j < parts.len() implies 0 <= (#[trigger] parts[j]).0
                <= parts[j].1 <= p.len() by {
                if j >= first.len() {
                    assert(parts[j] == rest[j - first.len()]);
                }
            }
        } else {
            lemma_ranges(p, start, i + 1);
            assert(components_from(p, PathStyle::Unix, 0, start, i) == components_from(
                p,
                PathStyle::Unix,
                0,
                start,
                i + 1,
            ));
        }
    } else {
        let parts = components_from(p, PathStyle::Unix, 0, start, i);
        assert(parts == piece(p, PathStyle::Unix, 0, start, p.len() as int));
        assert(parts.len() <= 1);
        assert(parts.len() == 1 ==> parts[0] == (start, p.len() as int));
    }
}

/// A file elsewhere is shown as it is.
pub proof fn files_elsewhere_are_shown_as_they_are(path: Seq<char>, home: Seq<char>)
    requires
        !begins_with(path, home),
    ensures
        shown(path, home) == path,
{
}

/// The other instances of a program are the other processes that run it, in order.
pub proof fn other_instances_come_in_order(
    a: Seq<(u32, Seq<char>)>,
    b: Seq<(u32, Seq<char>)>,
    process: (u32, Seq<char>),
    own_pid: u32,
    own_exe: Seq<char>,
    windows: bool,
)
    ensures
        instances(a + b, own_pid, own_exe, windows) == instances(a, own_pid, own_exe, windows)
            + instances(b, own_pid, own_exe, windows),
        instances(seq![process], own_pid, own_exe, windows) == (if process.0 != own_pid && !(windows
            && process.0 == 0) && of_same_program(process.1, own_exe, windows) {
            seq![process.0]
        } else {
            Seq::empty()
        }),
    decreases b.len(),
{
    let one = seq![process];
    assert(one.drop_last() =~= Seq::empty());
    reveal_with_fuel(instances, 2);
    assert(instances(one, own_pid, own_exe, windows) =~= (if is_instance(
        process.0,
        process.1,
        own_pid,
        own_exe,
        windows,
    ) {
        seq![process.0]
    } else {
        Seq::empty()
    }));
    if b.len() == 0 {
        assert(a + b =~= a);
    } else {
        other_instances_come_in_order(a, b.drop_last(), process, own_pid, own_exe, windows);
        assert((a + b).drop_last() =~= a + b.drop_last());
        assert((a + b).last() == b.last());
    }
    assert(instances(a + b, own_pid, own_exe, windows) =~= instances(a, own_pid, own_exe, windows)
        + instances(b, own_pid, own_exe, windows));
}

/// On Windows the configuration lies in the application data; elsewhere where the user set
/// it to lie, else in `.config` below the home directory, and nowhere without one.
pub proof fn configurations_lie_where_the_user_keeps_them(
    appdata: Option<Seq<char>>,
    xdg: Option<Seq<char>>,
    home: Seq<char>,
)
    requires
        home.len() > 0 && home.last() != '/',
    ensures
        config_base(true, appdata, xdg, Some(home)) == appdata,
        xdg is Some ==> config_base(false, appdata, xdg, Some(home)) == xdg,
        config_base(false, appdata, None, Some(home)) == Some(home + "/.config"@),
        config_base(false, appdata, None, None) is None,
{
    reveal_strlit("/");
    reveal_strlit(".config");
    reveal_strlit("/.config");
    assert("/"@ =~= seq!['/']);
    assert(".config"@ =~= seq!['.', 'c', 'o', 'n', 'f', 'i', 'g']);
    assert("/.config"@ =~= seq!['/', '.', 'c', 'o', 'n', 'f', 'i', 'g']);
    assert(home + "/"@ + ".config"@ =~= home + "/.config"@);
}

// === Tray and trace ===

/// Each item of the menu does what it is for, and nothing else does anything.
pub proof fn menu_items_do_what_they_are_for(id: Seq<char>, enabled: bool)
    ensures
        choice_of("enable"@, enabled) == MenuChoice::SetEnabled(!enabled),
        choice_of("reload"@, enabled) is Reload,
        choice_of("quit"@, enabled) is Quit,
        id != "enable"@ && id != "reload"@ && id != "quit"@ ==> choice_of(id, enabled) is Nothing,
{
    reveal_strlit("enable");
    reveal_strlit("reload");
    reveal_strlit("quit");
    assert("enable"@[0] != "reload"@[0]);
    assert("enable"@.len() == 6 && "reload"@.len() == 6 && "quit"@.len() == 4);
    assert(ID_ENABLE@ == "enable"@ && ID_RELOAD@ == "reload"@ && ID_QUIT@ == "quit"@);
}

/// Events are written one after the other with a space between them, each as its key with
/// a minus before a release and a plus before anything else.
pub proof fn events_are_written_in_order(events: Seq<OutEvent>, key: Key, value: i32)
    ensures
        events_text(seq![OutEvent { key, value }]) == seq![if value == 0 {
            '-'
        } else {
            '+'
        }] + key.spec_label(),
        events.len() > 0 ==> events_text(events.push(OutEvent { key, value })) == events_text(
            events,
        ) + seq![' '] + events_text(seq![OutEvent { key, value }]),
        events_text(Seq::empty()).len() == 0,
{
    let e = OutEvent { key, value };
    assert(events.push(e).drop_last() =~= events);
    assert(events.push(e).last() == e);
    assert(events_text(events).push(' ') =~= events_text(events) + seq![' ']);
}

/// What a key did is written as a press, a release or a repeat.
pub proof fn moves_are_written_by_what_they_are(value: i32)
    ensures
        action_text(1) == "press"@,
        action_text(0) == "release"@,
        action_text(2) == "repeat"@,
        value < 0 || value > 2 ==> action_text(value) == "?"@,
{
}

// === Devices and notices ===

/// A device is a keyboard exactly if it sends the keys A, Z and Space by their codes and
/// no mouse button.
pub proof fn keyboards_send_letters_and_space(codes: Seq<u16>)
    ensures
        sends_like_a_keyboard(codes) <==> {
            &&& codes.contains(Key::A.spec_evdev())
            &&& codes.contains(Key::Z.spec_evdev())
            &&& codes.contains(Key::Space.spec_evdev())
            &&& !codes.contains(0x110)
        },
{
}

/// A notice carries its message last, and shows the warning sign only for a warning.
pub proof fn notices_carry_their_message(message: Seq<char>, warning: bool)
    ensures
        ({
            let args = send_arguments(message, warning);
            &&& args.len() == 7
            &&& args.last() == message
            &&& args[0] == "-a"@ && args[1] == "RightKeys"@
            &&& args[2] == "-i"@ && args[3] == (if warning {
                "dialog-warning"@
            } else {
                "rightkeys"@
            })
            &&& args[4] == "-t"@ && args[5] == "5000"@
        }),
{
}

/// Of a decoded image as many bytes are taken as its frame has.
pub proof fn frames_are_taken_whole(f: PngFrameView)
    ensures
        frame_bytes(f).is_prefix_of(f.pixels),
        f.size <= f.pixels.len() ==> frame_bytes(f).len() == f.size,
        f.size > f.pixels.len() ==> frame_bytes(f) == f.pixels,
        is_rgba(f) <==> f.color is Rgba && f.depth == 8,
{
}

} // verus!
