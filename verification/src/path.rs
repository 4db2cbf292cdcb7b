//! File paths as text: the names in them, whether two name the same program, and
//! how a path is shown to a user.

use crate::text::{chars_of, lower_ascii, owned, same_text, text_of_range, to_lower_ascii};
use vstd::prelude::*;

verus! {

// === Prefixes ===

/// How a path is written: which characters separate its components, and whether a dot
/// among them says nothing.
#[derive(Clone, Copy, Debug, Eq, PartialEq, Structural)]
pub enum PathStyle {
    /// Slashes separate components.
    Unix,
    /// Slashes and backslashes separate components.
    Windows,
    /// A Windows path that is taken as it stands (`\\?\...`): only backslashes separate
    /// components, and a dot is one.
    Verbatim,
}

/// A character between the components of a path.
pub open spec fn is_separator(c: char, style: PathStyle) -> bool {
    match style {
        PathStyle::Unix => c == '/',
        PathStyle::Windows => c == '/' || c == '\\',
        PathStyle::Verbatim => c == '\\',
    }
}

/// The first separator of a path from `i` on, or its end.
pub open spec fn next_separator(p: Seq<char>, style: PathStyle, i: int) -> int
    decreases p.len() - i,
{
    if i >= p.len() {
        p.len() as int
    } else if is_separator(p[i], style) {
        i
    } else {
        next_separator(p, style, i + 1)
    }
}

/// An ASCII letter.
pub open spec fn is_letter(c: char) -> bool {
    'a' <= c <= 'z' || 'A' <= c <= 'Z'
}

/// A drive (`C:`) stands at `i`.
pub open spec fn drive_at(p: Seq<char>, i: int) -> bool {
    i + 2 <= p.len() && is_letter(p[i]) && p[i + 1] == ':'
}

/// The path begins with two separators, which a server's or a device's name may follow.
pub open spec fn begins_double(p: Seq<char>) -> bool {
    p.len() >= 2 && is_separator(p[0], PathStyle::Windows) && is_separator(p[1], PathStyle::Windows)
}

/// The path begins with `\\?\`, in backslashes.
pub open spec fn begins_verbatim(p: Seq<char>) -> bool {
    p.len() >= 4 && p[0] == '\\' && p[1] == '\\' && p[2] == '?' && p[3] == '\\'
}

/// The path begins with `\\?\UNC\`.
pub open spec fn begins_verbatim_share(p: Seq<char>) -> bool {
    begins_verbatim(p) && p.len() >= 8 && p[4] == 'U' && p[5] == 'N' && p[6] == 'C' && is_separator(
        p[7],
        PathStyle::Windows,
    )
}

/// The path begins with `\\.\`.
pub open spec fn begins_device(p: Seq<char>) -> bool {
    begins_double(p) && p.len() >= 4 && p[2] == '.' && is_separator(p[3], PathStyle::Windows)
}

/// How a path is written.
pub open spec fn style_of(p: Seq<char>, windows: bool) -> PathStyle {
    if !windows {
        PathStyle::Unix
    } else if begins_verbatim(p) {
        PathStyle::Verbatim
    } else {
        PathStyle::Windows
    }
}

/// Where the share of a server whose name begins at `i` ends, if there is one.
pub open spec fn share_end(p: Seq<char>, style: PathStyle, i: int) -> Option<int> {
    let server = next_separator(p, style, i);
    let share = next_separator(p, style, server + 1);
    if server + 1 < share {
        Some(share)
    } else {
        None
    }
}

/// Where the prefix of a Windows path ends: a drive (`C:`), a share (`\\server\share`), a
/// device (`\\.\COM42`), or one of a verbatim path (`\\?\C:`, `\\?\UNC\server\share` or
/// `\\?\name`). A server without a share is no prefix.
pub open spec fn prefix_end(p: Seq<char>, windows: bool) -> int {
    if !windows {
        0
    } else if begins_verbatim_share(p) {
        match share_end(p, PathStyle::Verbatim, 8) {
            Some(end) => end,
            None => next_separator(p, PathStyle::Verbatim, 8),
        }
    } else if begins_verbatim(p) {
        if drive_at(p, 4) && (p.len() == 6 || is_separator(p[6], PathStyle::Windows)) {
            6
        } else {
            next_separator(p, PathStyle::Verbatim, 4)
        }
    } else if begins_device(p) {
        next_separator(p, PathStyle::Windows, 4)
    } else if begins_double(p) {
        match share_end(p, PathStyle::Windows, 2) {
            Some(end) => if next_separator(p, PathStyle::Windows, 2) > 2 {
                end
            } else {
                0
            },
            None => 0,
        }
    } else if drive_at(p, 0) {
        2
    } else {
        0
    }
}

/// Where the components of a path begin. What follows the prefix of a verbatim path is
/// its root, be it a slash.
pub open spec fn body_start(p: Seq<char>, windows: bool) -> int {
    let end = prefix_end(p, windows);
    if style_of(p, windows) == PathStyle::Verbatim && end < p.len() {
        end + 1
    } else {
        end
    }
}

// === Components ===

/// A piece of a path that counts as a component: not empty, and not a dot unless
/// the path begins with it or is verbatim.
pub open spec fn counts(p: Seq<char>, style: PathStyle, from: int, start: int, end: int) -> bool {
    start < end && (start == from || style == PathStyle::Verbatim || p.subrange(start, end)
        != seq!['.'])
}

/// A component's range, if the piece counts.
pub open spec fn piece(p: Seq<char>, style: PathStyle, from: int, start: int, end: int) -> Seq<
    (int, int),
> {
    if counts(p, style, from, start, end) {
        seq![(start, end)]
    } else {
        Seq::empty()
    }
}

/// The ranges of the components of `p`, whose body begins at `from`, as seen at
/// `i` with the current piece begun at `start`.
pub open spec fn components_from(
    p: Seq<char>,
    style: PathStyle,
    from: int,
    start: int,
    i: int,
) -> Seq<(int, int)>
    decreases p.len() - i,
{
    if i >= p.len() {
        piece(p, style, from, start, p.len() as int)
    } else if is_separator(p[i], style) {
        piece(p, style, from, start, i) + components_from(p, style, from, i + 1, i + 1)
    } else {
        components_from(p, style, from, start, i + 1)
    }
}

/// The ranges of the components of `p`, whose body begins at `from`.
pub open spec fn components(p: Seq<char>, style: PathStyle, from: int) -> Seq<(int, int)> {
    components_from(p, style, from, from, from)
}

/// The last component of a path, if it is a name and no dots.
pub open spec fn name_in(p: Seq<char>, windows: bool) -> Option<Seq<char>> {
    let parts = components(p, style_of(p, windows), body_start(p, windows));
    if parts.len() == 0 {
        None
    } else {
        let name = p.subrange(parts.last().0, parts.last().1);
        if name == seq!['.'] || name == seq!['.', '.'] {
            None
        } else {
            Some(name)
        }
    }
}

/// Ranges within a text.
spec fn ranges_in(r: Seq<(usize, usize)>, len: int) -> bool {
    forall|i: int| 0 <= i < r.len() ==> (#[trigger] r[i]).0 < r[i].1 <= len
}

spec fn as_int_ranges(r: Seq<(usize, usize)>) -> Seq<(int, int)> {
    r.map_values(|p: (usize, usize)| (p.0 as int, p.1 as int))
}

fn push_piece(
    p: &Vec<char>,
    style: PathStyle,
    from: usize,
    start: usize,
    end: usize,
    out: &mut Vec<(usize, usize)>,
)
    requires
        from <= start <= end <= p@.len(),
        ranges_in(old(out)@, p@.len() as int),
    ensures
        as_int_ranges(final(out)@) == as_int_ranges(old(out)@) + piece(
            p@,
            style,
            from as int,
            start as int,
            end as int,
        ),
        ranges_in(final(out)@, p@.len() as int),
{
    let ghost text = p@.subrange(start as int, end as int);
    let keep = if start == end {
        false
    } else if start == from || style == PathStyle::Verbatim {
        true
    } else {
        let dot = end - start == 1 && p[start] == '.';
        proof {
            if dot {
                assert(text =~= seq!['.']);
            } else if text == seq!['.'] {
                assert(text.len() == 1 && text[0] == '.');
            }
        }
        !dot
    };
    if keep {
        out.push((start, end));
        assert(as_int_ranges(out@) =~= as_int_ranges(old(out)@).push((start as int, end as int)));
    }
    assert(as_int_ranges(out@) =~= as_int_ranges(old(out)@) + piece(
        p@,
        style,
        from as int,
        start as int,
        end as int,
    ));
}

fn separates(c: char, style: PathStyle) -> (r: bool)
    ensures
        r == is_separator(c, style),
{
    match style {
        PathStyle::Unix => c == '/',
        PathStyle::Windows => c == '/' || c == '\\',
        PathStyle::Verbatim => c == '\\',
    }
}

fn split_path(p: &Vec<char>, style: PathStyle, from: usize) -> (r: Vec<(usize, usize)>)
    requires
        from <= p@.len(),
    ensures
        as_int_ranges(r@) == components(p@, style, from as int),
        ranges_in(r@, p@.len() as int),
        r@.len() == components(p@, style, from as int).len(),
{
    let mut out: Vec<(usize, usize)> = Vec::new();
    let mut start: usize = from;
    let mut i: usize = from;
    assert(as_int_ranges(out@) + components(p@, style, from as int) =~= components(
        p@,
        style,
        from as int,
    ));
    while i < p.len()
        invariant
            from <= start <= i <= p@.len(),
            ranges_in(out@, p@.len() as int),
            as_int_ranges(out@) + components_from(p@, style, from as int, start as int, i as int)
                == components(p@, style, from as int),
        decreases p@.len() - i,
    {
        if separates(p[i], style) {
            let ghost before = as_int_ranges(out@);
            push_piece(p, style, from, start, i, &mut out);
            proof {
                let rest = components_from(p@, style, from as int, i + 1, i + 1);
                assert(as_int_ranges(out@) + rest =~= before + (piece(
                    p@,
                    style,
                    from as int,
                    start as int,
                    i as int,
                ) + rest));
            }
            start = i + 1;
        }
        i = i + 1;
    }
    push_piece(p, style, from, start, p.len(), &mut out);
    assert(as_int_ranges(out@).len() == out@.len());
    out
}

fn find_separator(p: &Vec<char>, style: PathStyle, from: usize) -> (r: usize)
    requires
        from <= p@.len(),
    ensures
        r == next_separator(p@, style, from as int),
        from <= r <= p@.len(),
{
    let mut i: usize = from;
    while i < p.len()
        invariant
            from <= i <= p@.len(),
            next_separator(p@, style, from as int) == next_separator(p@, style, i as int),
        decreases p@.len() - i,
    {
        if separates(p[i], style) {
            return i;
        }
        i = i + 1;
    }
    i
}

fn find_share_end(p: &Vec<char>, style: PathStyle, from: usize) -> (r: Option<usize>)
    requires
        from <= p@.len(),
    ensures
        match r {
            Some(end) => share_end(p@, style, from as int) == Some(end as int) && end <= p@.len(),
            None => share_end(p@, style, from as int) is None,
        },
{
    let server: usize = find_separator(p, style, from);
    if server == p.len() {
        return None;
    }
    let share: usize = find_separator(p, style, server + 1);
    if server + 1 < share {
        Some(share)
    } else {
        None
    }
}

fn has_drive(p: &Vec<char>, i: usize) -> (r: bool)
    requires
        i <= p@.len(),
    ensures
        r == drive_at(p@, i as int),
{
    p.len() - i >= 2 && (('a' <= p[i] && p[i] <= 'z') || ('A' <= p[i] && p[i] <= 'Z')) && p[i + 1]
        == ':'
}

fn find_style(p: &Vec<char>, windows: bool) -> (r: PathStyle)
    ensures
        r == style_of(p@, windows),
{
    if !windows {
        PathStyle::Unix
    } else if p.len() >= 4 && p[0] == '\\' && p[1] == '\\' && p[2] == '?' && p[3] == '\\' {
        PathStyle::Verbatim
    } else {
        PathStyle::Windows
    }
}

fn find_prefix_end(p: &Vec<char>, windows: bool) -> (r: usize)
    ensures
        r == prefix_end(p@, windows),
        r <= p@.len(),
{
    let n: usize = p.len();
    let any = PathStyle::Windows;
    match find_style(p, windows) {
        PathStyle::Unix => 0,
        PathStyle::Verbatim => {
            if n >= 8 && p[4] == 'U' && p[5] == 'N' && p[6] == 'C' && separates(p[7], any) {
                match find_share_end(p, PathStyle::Verbatim, 8) {
                    Some(end) => end,
                    None => find_separator(p, PathStyle::Verbatim, 8),
                }
            } else if has_drive(p, 4) && (n == 6 || separates(p[6], any)) {
                6
            } else {
                find_separator(p, PathStyle::Verbatim, 4)
            }
        },
        PathStyle::Windows => {
            if n >= 2 && separates(p[0], any) && separates(p[1], any) {
                if n >= 4 && p[2] == '.' && separates(p[3], any) {
                    return find_separator(p, any, 4);
                }
                if find_separator(p, any, 2) == 2 {
                    return 0;
                }
                match find_share_end(p, any, 2) {
                    Some(end) => end,
                    None => 0,
                }
            } else if has_drive(p, 0) {
                2
            } else {
                0
            }
        },
    }
}

fn find_body(p: &Vec<char>, windows: bool) -> (r: usize)
    ensures
        r == body_start(p@, windows),
        r <= p@.len(),
{
    let end: usize = find_prefix_end(p, windows);
    if find_style(p, windows) == PathStyle::Verbatim && end < p.len() {
        end + 1
    } else {
        end
    }
}

/// The file name at the end of a path, Unix or Windows; none where the path ends
/// in `..` or names no file.
pub fn file_name(path: &str, windows: bool) -> (r: Option<String>)
    ensures
        match r {
            Some(name) => name_in(path@, windows) == Some(name@),
            None => name_in(path@, windows) is None,
        },
{
    let p = chars_of(path);
    let from: usize = find_body(&p, windows);
    let parts = split_path(&p, find_style(&p, windows), from);
    if parts.len() == 0 {
        return None;
    }
    let last: usize = parts.len() - 1;
    let (start, end) = parts[last];
    let ghost name = p@.subrange(start as int, end as int);
    assert(as_int_ranges(parts@).last() == (start as int, end as int));
    if p[start] == '.' && (end - start == 1 || end - start == 2 && p[start + 1] == '.') {
        proof {
            if end - start == 1 {
                assert(name =~= seq!['.']);
            } else {
                assert(name =~= seq!['.', '.']);
            }
        }
        return None;
    }
    proof {
        if name == seq!['.'] {
            assert(name.len() == 1 && name[0] == '.');
        }
        if name == seq!['.', '.'] {
            assert(name.len() == 2 && name[0] == '.' && name[1] == '.');
        }
    }
    Some(text_of_range(&p, start, end))
}

/// Where the last dot of a name stands, other than at its beginning; the end of
/// the name where there is none.
pub open spec fn last_dot(name: Seq<char>, i: int) -> int
    decreases i,
{
    if i <= 0 {
        name.len() as int
    } else if name[i] == '.' {
        i
    } else {
        last_dot(name, i - 1)
    }
}

/// A file name without its extension.
pub open spec fn stem_of(name: Seq<char>) -> Seq<char> {
    name.take(last_dot(name, name.len() - 1))
}

/// The name at the end of a path without its extension (`firefox` of
/// `firefox.exe`).
pub fn file_stem(path: &str, windows: bool) -> (r: Option<String>)
    ensures
        match r {
            Some(stem) => name_in(path@, windows) is Some && stem@ == stem_of(
                name_in(path@, windows)->0,
            ),
            None => name_in(path@, windows) is None,
        },
{
    let name = match file_name(path, windows) {
        Some(name) => name,
        None => return None,
    };
    let v = chars_of(name.as_str());
    if v.len() == 0 {
        assert(stem_of(name@) =~= name@);
        return Some(name);
    }
    let mut i: usize = v.len() - 1;
    while i > 0 && v[i] != '.'
        invariant
            i < v@.len(),
            v@ == name@,
            last_dot(name@, name@.len() - 1) == last_dot(name@, i as int),
        decreases i,
    {
        i = i - 1;
    }
    if i > 0 {
        assert(v@.subrange(0, i as int) =~= stem_of(name@));
        Some(text_of_range(&v, 0, i))
    } else {
        assert(stem_of(name@) =~= name@);
        Some(name)
    }
}

// === Joining ===

/// A separator has to come between a path and a name in it: not after nothing, not
/// after another separator, and on Windows not after a drive alone.
pub open spec fn needs_separator(p: Seq<char>, windows: bool) -> bool {
    let style = if windows {
        PathStyle::Windows
    } else {
        PathStyle::Unix
    };
    p.len() > 0 && !is_separator(p.last(), style) && !(windows && p.len() == 2 && drive_at(p, 0))
}

/// Components of a path, with a backslash before each.
pub open spec fn listed_components(p: Seq<char>, parts: Seq<(int, int)>) -> Seq<char>
    decreases parts.len(),
{
    if parts.len() == 0 {
        Seq::empty()
    } else {
        listed_components(p, parts.drop_last()) + "\\"@ + p.subrange(
            parts.last().0,
            parts.last().1,
        )
    }
}

/// A name in a directory. A verbatim directory is written anew, its components with one
/// backslash between them.
pub open spec fn joined(p: Seq<char>, name: Seq<char>, windows: bool) -> Seq<char> {
    let style = style_of(p, windows);
    if style == PathStyle::Verbatim {
        p.take(prefix_end(p, windows)) + listed_components(
            p,
            components(p, style, body_start(p, windows)),
        ) + "\\"@ + name
    } else if !needs_separator(p, windows) {
        p + name
    } else if windows {
        p + "\\"@ + name
    } else {
        p + "/"@ + name
    }
}

/// A name in a directory.
pub fn join(path: &str, name: &str, windows: bool) -> (r: String)
    ensures
        r@ == joined(path@, name@, windows),
{
    let p = chars_of(path);
    let style = find_style(&p, windows);
    if style == PathStyle::Verbatim {
        let end: usize = find_prefix_end(&p, windows);
        let parts = split_path(&p, style, find_body(&p, windows));
        let ghost all = components(p@, style, body_start(p@, windows));
        let mut out = text_of_range(&p, 0, end);
        let mut i: usize = 0;
        proof {
            assert(p@.subrange(0, end as int) =~= p@.take(end as int));
            assert(all.take(0) =~= Seq::empty());
            assert(p@.take(end as int) + Seq::<char>::empty() =~= p@.take(end as int));
        }
        while i < parts.len()
            invariant
                i <= parts@.len(),
                end <= p@.len(),
                ranges_in(parts@, p@.len() as int),
                all == as_int_ranges(parts@),
                out@ == p@.take(end as int) + listed_components(p@, all.take(i as int)),
            decreases parts@.len() - i,
        {
            let (from, to) = parts[i];
            let part = text_of_range(&p, from, to);
            let ghost before = listed_components(p@, all.take(i as int));
            proof {
                assert(all.take(i + 1).drop_last() =~= all.take(i as int));
                assert(all.take(i + 1).last() == (from as int, to as int));
            }
            out.append("\\");
            out.append(part.as_str());
            assert(out@ =~= p@.take(end as int) + (before + "\\"@ + part@));
            i = i + 1;
        }
        assert(all.take(all.len() as int) =~= all);
        out.append("\\");
        out.append(name);
        return out;
    }
    let n: usize = p.len();
    let ends = n == 0 || separates(p[n - 1], style) || (windows && n == 2 && has_drive(&p, 0));
    let mut out = owned(path);
    if !ends {
        out.append(
            if windows {
                "\\"
            } else {
                "/"
            },
        );
    }
    out.append(name);
    out
}

// === Programs ===

/// What the kernel appends to the path of a running program whose file has been
/// replaced.
pub open spec fn without_deleted(path: Seq<char>) -> Seq<char> {
    let mark = " (deleted)"@;
    if mark.len() <= path.len() && path.skip(path.len() - mark.len()) == mark {
        path.take(path.len() - mark.len())
    } else {
        path
    }
}

fn strip_deleted(path: &str) -> (r: String)
    ensures
        r@ == without_deleted(path@),
{
    let p = chars_of(path);
    let mark = chars_of(" (deleted)");
    if mark.len() <= p.len() {
        let cut: usize = p.len() - mark.len();
        assert(p@.subrange(cut as int, cut + mark@.len()) =~= p@.skip(cut as int));
        if crate::text::matches_at(&p, &mark, cut) {
            assert(p@.subrange(0, cut as int) =~= p@.take(cut as int));
            return text_of_range(&p, 0, cut);
        }
    }
    owned(path)
}

/// Two paths end in the same file name.
pub open spec fn same_name(a: Option<Seq<char>>, b: Option<Seq<char>>) -> bool {
    a is Some && a == b
}

/// Whether two links to running programs are to the same program, compared on the
/// executable's file name. The ` (deleted)` suffix the kernel appends once the
/// binary's file has been replaced (e.g. by an update while an old instance is
/// still running) is stripped first.
pub fn same_program(a: &str, b: &str) -> (r: bool)
    ensures
        r == same_name(
            name_in(without_deleted(a@), false),
            name_in(without_deleted(b@), false),
        ),
{
    let a = strip_deleted(a);
    let b = strip_deleted(b);
    match (file_name(a.as_str(), false), file_name(b.as_str(), false)) {
        (Some(a), Some(b)) => same_text(a.as_str(), b.as_str()),
        _ => false,
    }
}

/// Two names are alike but for the case of ASCII letters.
pub open spec fn alike(a: Option<Seq<char>>, b: Option<Seq<char>>) -> bool {
    a is Some && b is Some && lower_ascii(a->0) == lower_ascii(b->0)
}

/// Whether two strings are alike but for the case of ASCII letters.
pub fn same_ignoring_case(a: &str, b: &str) -> (r: bool)
    ensures
        r == (lower_ascii(a@) == lower_ascii(b@)),
{
    same_text(to_lower_ascii(a).as_str(), to_lower_ascii(b).as_str())
}

/// Whether two Windows image paths are of the same program, compared on the file
/// name (case-insensitively) so an instance installed elsewhere still counts.
pub fn same_program_windows(a: &str, b: &str) -> (r: bool)
    ensures
        r == alike(name_in(a@, true), name_in(b@, true)),
{
    match (file_name(a, true), file_name(b, true)) {
        (Some(a), Some(b)) => same_ignoring_case(a.as_str(), b.as_str()),
        _ => false,
    }
}

/// Two executables are of the same program, as the platform compares them.
pub open spec fn of_same_program(a: Seq<char>, b: Seq<char>, windows: bool) -> bool {
    if windows {
        alike(name_in(a, true), name_in(b, true))
    } else {
        same_name(name_in(without_deleted(a), false), name_in(without_deleted(b), false))
    }
}

/// A process other than `own_pid` that runs the same program as `own_exe`. On
/// Windows number 0 is the idle process, which runs none.
pub open spec fn is_instance(
    pid: u32,
    exe: Seq<char>,
    own_pid: u32,
    own_exe: Seq<char>,
    windows: bool,
) -> bool {
    pid != own_pid && !(windows && pid == 0) && of_same_program(exe, own_exe, windows)
}

/// The processes of `list` that run the same program as `own_exe`, but for the
/// process `own_pid` itself.
pub open spec fn instances(
    list: Seq<(u32, Seq<char>)>,
    own_pid: u32,
    own_exe: Seq<char>,
    windows: bool,
) -> Seq<u32>
    decreases list.len(),
{
    if list.len() == 0 {
        Seq::empty()
    } else {
        let before = instances(list.drop_last(), own_pid, own_exe, windows);
        let (pid, exe) = list.last();
        if is_instance(pid, exe, own_pid, own_exe, windows) {
            before.push(pid)
        } else {
            before
        }
    }
}

/// What a list of processes is.
pub open spec fn process_views(list: Seq<(u32, String)>) -> Seq<(u32, Seq<char>)> {
    list.map_values(|p: (u32, String)| (p.0, p.1@))
}

/// PIDs of other processes running this program, given each process with the path
/// of its executable. Matched on the executable's file name so an instance
/// launched from a different path still counts.
pub fn other_instances(
    list: &Vec<(u32, String)>,
    own_pid: u32,
    own_exe: &str,
    windows: bool,
) -> (r: Vec<u32>)
    ensures
        r@ == instances(process_views(list@), own_pid, own_exe@, windows),
{
    let ghost all = process_views(list@);
    let mut pids: Vec<u32> = Vec::new();
    let mut i: usize = 0;
    while i < list.len()
        invariant
            i <= list@.len(),
            all == process_views(list@),
            pids@ == instances(all.take(i as int), own_pid, own_exe@, windows),
        decreases list@.len() - i,
    {
        proof {
            assert(all.take(i + 1).drop_last() =~= all.take(i as int));
            assert(all.take(i + 1).last() == (list@[i as int].0, list@[i as int].1@));
        }
        let pid: u32 = list[i].0;
        let exe = list[i].1.as_str();
        let same = if windows {
            pid != 0 && same_program_windows(exe, own_exe)
        } else {
            same_program(exe, own_exe)
        };
        if pid != own_pid && same {
            pids.push(pid);
        }
        i = i + 1;
    }
    assert(all.take(all.len() as int) =~= all);
    pids
}

// === Display ===

/// The path begins with a slash.
pub open spec fn is_absolute(p: Seq<char>) -> bool {
    p.len() > 0 && p[0] == '/'
}

/// The text of a component.
pub open spec fn component(p: Seq<char>, i: int) -> Seq<char> {
    p.subrange(components(p, PathStyle::Unix, 0)[i].0, components(p, PathStyle::Unix, 0)[i].1)
}

/// A path begins with the components of another.
pub open spec fn begins_with(p: Seq<char>, base: Seq<char>) -> bool {
    let n = components(base, PathStyle::Unix, 0).len();
    &&& is_absolute(base) == is_absolute(p) || base.len() == 0
    &&& n <= components(p, PathStyle::Unix, 0).len()
    &&& forall|i: int| 0 <= i < n ==> #[trigger] component(p, i) == component(base, i)
}

/// A path from its component number `n` to its last; empty where there is no such.
pub open spec fn from_component(p: Seq<char>, n: int) -> Seq<char> {
    let parts = components(p, PathStyle::Unix, 0);
    if n < parts.len() {
        p.subrange(parts[n].0, parts.last().1)
    } else {
        Seq::empty()
    }
}

/// What is left of a path below another, if it is below it.
pub open spec fn below(p: Seq<char>, base: Seq<char>) -> Option<Seq<char>> {
    let parts = components(p, PathStyle::Unix, 0);
    if !begins_with(p, base) {
        None
    } else if base.len() > 0 {
        Some(from_component(p, components(base, PathStyle::Unix, 0).len() as int))
    } else if parts.len() > 0 {
        Some(p.take(parts.last().1))
    } else {
        Some(
            p.take(
                if is_absolute(p) {
                    1
                } else {
                    0
                },
            ),
        )
    }
}

/// Whether the first `n` components of two paths are the same.
fn same_components(
    p: &Vec<char>,
    parts: &Vec<(usize, usize)>,
    base: &Vec<char>,
    base_parts: &Vec<(usize, usize)>,
) -> (r: bool)
    requires
        as_int_ranges(parts@) == components(p@, PathStyle::Unix, 0),
        as_int_ranges(base_parts@) == components(base@, PathStyle::Unix, 0),
        ranges_in(parts@, p@.len() as int),
        ranges_in(base_parts@, base@.len() as int),
        base_parts@.len() <= parts@.len(),
    ensures
        r == forall|i: int|
            0 <= i < base_parts@.len() ==> #[trigger] component(p@, i) == component(base@, i),
{
    let mut i: usize = 0;
    while i < base_parts.len()
        invariant
            as_int_ranges(parts@) == components(p@, PathStyle::Unix, 0),
            as_int_ranges(base_parts@) == components(base@, PathStyle::Unix, 0),
            ranges_in(parts@, p@.len() as int),
            ranges_in(base_parts@, base@.len() as int),
            i <= base_parts@.len() <= parts@.len(),
            forall|k: int| 0 <= k < i ==> #[trigger] component(p@, k) == component(base@, k),
        decreases base_parts@.len() - i,
    {
        let (a, b) = parts[i];
        let (c, d) = base_parts[i];
        assert(as_int_ranges(parts@)[i as int] == (a as int, b as int));
        assert(as_int_ranges(base_parts@)[i as int] == (c as int, d as int));
        let mine = text_of_range(p, a, b);
        let theirs = text_of_range(base, c, d);
        if !same_text(mine.as_str(), theirs.as_str()) {
            assert(component(p@, i as int) != component(base@, i as int));
            return false;
        }
        i = i + 1;
    }
    true
}

/// The path below `base`, if it is below it.
fn strip_prefix(path: &str, base: &str) -> (r: Option<String>)
    ensures
        match r {
            Some(rest) => below(path@, base@) == Some(rest@),
            None => below(path@, base@) is None,
        },
{
    let p = chars_of(path);
    let b = chars_of(base);
    let parts = split_path(&p, PathStyle::Unix, 0);
    let base_parts = split_path(&b, PathStyle::Unix, 0);
    let p_abs = p.len() > 0 && p[0] == '/';
    let b_abs = b.len() > 0 && b[0] == '/';
    if p_abs != b_abs && b.len() > 0 {
        return None;
    }
    if base_parts.len() > parts.len() {
        return None;
    }
    if !same_components(&p, &parts, &b, &base_parts) {
        assert(!begins_with(path@, base@));
        return None;
    }
    assert(begins_with(path@, base@));
    let n: usize = base_parts.len();
    if b.len() > 0 {
        if n < parts.len() {
            let start: usize = parts[n].0;
            let end: usize = parts[parts.len() - 1].1;
            proof {
                assert(as_int_ranges(parts@)[n as int] == (
                    parts@[n as int].0 as int,
                    parts@[n as int].1 as int,
                ));
                assert(as_int_ranges(parts@).last() == (
                    parts@[parts@.len() - 1].0 as int,
                    parts@[parts@.len() - 1].1 as int,
                ));
                lemma_components_ordered(p@, PathStyle::Unix, 0, 0, 0);
            }
            Some(text_of_range(&p, start, end))
        } else {
            let none = String::new();
            assert(none@ =~= Seq::empty());
            Some(none)
        }
    } else if parts.len() > 0 {
        let end: usize = parts[parts.len() - 1].1;
        assert(as_int_ranges(parts@).last() == (
            parts@[parts@.len() - 1].0 as int,
            parts@[parts@.len() - 1].1 as int,
        ));
        assert(p@.subrange(0, end as int) =~= p@.take(end as int));
        Some(text_of_range(&p, 0, end))
    } else {
        let end: usize = if p_abs {
            1
        } else {
            0
        };
        assert(p@.subrange(0, end as int) =~= p@.take(end as int));
        Some(text_of_range(&p, 0, end))
    }
}

/// Components come one after the other.
proof fn lemma_components_ordered(p: Seq<char>, style: PathStyle, from: int, start: int, i: int)
    requires
        from <= start <= i <= p.len(),
        0 <= from,
    ensures
        forall|k: int|
            0 <= k < components_from(p, style, from, start, i).len() ==> start <= (
            #[trigger] components_from(p, style, from, start, i)[k]).0 < components_from(
                p,
                style,
                from,
                start,
                i,
            )[k].1 <= p.len(),
        forall|k: int, m: int|
            0 <= k < m < components_from(p, style, from, start, i).len() ==> (
            #[trigger] components_from(p, style, from, start, i)[k]).1 <= (
            #[trigger] components_from(p, style, from, start, i)[m]).0,
    decreases p.len() - i,
{
    if i < p.len() {
        if is_separator(p[i], style) {
            lemma_components_ordered(p, style, from, i + 1, i + 1);
            let first = piece(p, style, from, start, i);
            let rest = components_from(p, style, from, i + 1, i + 1);
            let all = components_from(p, style, from, start, i);
            assert(all == first + rest);
            assert forall|k: int| 0 <= k < all.len() implies start <= (#[trigger] all[k]).0
                < all[k].1 <= p.len() by {
                if k < first.len() {
                    assert(all[k] == first[k]);
                } else {
                    assert(all[k] == rest[k - first.len()]);
                }
            }
            assert forall|k: int, m: int| 0 <= k < m < all.len() implies (#[trigger] all[k]).1 <= (
            #[trigger] all[m]).0 by {
                assert(all[m] == rest[m - first.len()]);
                if k < first.len() {
                    assert(all[k] == first[k]);
                } else {
                    assert(all[k] == rest[k - first.len()]);
                }
            }
        } else {
            lemma_components_ordered(p, style, from, start, i + 1);
            assert(components_from(p, style, from, start, i) == components_from(
                p,
                style,
                from,
                start,
                i + 1,
            ));
        }
    } else {
        assert(components_from(p, style, from, start, i) == piece(
            p,
            style,
            from,
            start,
            p.len() as int,
        ));
    }
}

/// A path as it is shown: what is below the home directory abbreviated with `~`.
pub open spec fn shown(path: Seq<char>, home: Seq<char>) -> Seq<char> {
    match below(path, home) {
        Some(rest) => "~/"@ + rest,
        None => path,
    }
}

/// Replace a leading `home` component of `path` with `~`, leaving other paths
/// untouched.
pub fn abbreviate_home(path: &str, home: &str) -> (r: String)
    ensures
        r@ == shown(path@, home@),
{
    match strip_prefix(path, home) {
        Some(rest) => {
            let mut out = owned("~/");
            out.append(rest.as_str());
            out
        },
        None => owned(path),
    }
}

// === Laws ===

/// Whether two paths are of the same program does not depend on their order, and a
/// path with a file name is of the same program as itself, replaced or not.
pub proof fn same_program_is_fair(a: Seq<char>, b: Seq<char>)
    ensures
        same_name(name_in(a, false), name_in(b, false)) == same_name(
            name_in(b, false),
            name_in(a, false),
        ),
        alike(name_in(a, true), name_in(b, true)) == alike(name_in(b, true), name_in(a, true)),
        name_in(a, false) is Some ==> same_name(name_in(a, false), name_in(a, false)),
        without_deleted(a + " (deleted)"@) == a,
{
    let mark = " (deleted)"@;
    assert((a + mark).skip(a.len() as int) =~= mark);
    assert((a + mark).take(a.len() as int) =~= a);
}

} // verus!
