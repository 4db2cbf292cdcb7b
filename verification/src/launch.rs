//! Launching programs: splitting a command, finding a window the program already
//! has, and passing arguments on.

use crate::document::text_view;
use crate::path::{file_stem, name_in, stem_of};
use crate::text::{
    char_is_white, chars_of, contains_text, debug_quoted, is_white, lower_ascii, lowercase,
    occurs_in, owned, quoted, same_text, text_of_range, to_lower_ascii, to_lowercase, views,
};
use crate::wmprops::named_windows;
use vstd::prelude::*;

verus! {

// === Data structures ===

/// A program to raise or run: the command, its arguments, and the name by which a
/// window of it is recognized.
#[derive(Debug)]
pub struct Launch {
    pub bin: String,
    pub args: Vec<String>,
    pub stem: String,
}

/// What a [`Launch`] is.
pub struct LaunchView {
    pub bin: Seq<char>,
    pub args: Seq<Seq<char>>,
    pub stem: Seq<char>,
}

/// A command with a quote that is not closed.
#[derive(Debug)]
pub struct BadCommand {
    pub command: String,
}

impl View for Launch {
    type V = LaunchView;

    open spec fn view(&self) -> LaunchView {
        LaunchView { bin: self.bin@, args: views(self.args@), stem: self.stem@ }
    }
}

// === Splitting ===

/// A command line that could not be split.
#[verifier::external_type_specification]
#[verifier::external_body]
pub struct ExParseError(shell_words::ParseError);

/// The words of a command line, split as a Unix shell splits them; none where a
/// quote is not closed.
pub uninterp spec fn shell_split(s: Seq<char>) -> Option<Seq<Seq<char>>>;

/// `shell_words::split`: the words of a command line, or an error where a quote is
/// not closed.
#[verifier::external_body]
fn split_words(s: &str) -> (r: Result<Vec<String>, shell_words::ParseError>)
    ensures
        match r {
            Ok(words) => shell_split(s@) == Some(views(words@)),
            Err(_) => shell_split(s@) is None,
        },
{
    shell_words::split(s)
}

/// What follows the last slash.
pub open spec fn after_slash(s: Seq<char>) -> Seq<char>
    decreases s.len(),
{
    if s.len() == 0 || s.last() == '/' {
        Seq::empty()
    } else {
        after_slash(s.drop_last()).push(s.last())
    }
}

fn last_piece(s: &str) -> (r: String)
    ensures
        r@ == after_slash(s@),
{
    let v = chars_of(s);
    let mut i: usize = v.len();
    assert(v@.subrange(i as int, v@.len() as int) =~= Seq::empty());
    assert(v@.take(i as int) =~= v@);
    assert(after_slash(v@) =~= after_slash(v@.take(i as int)) + v@.subrange(
        i as int,
        v@.len() as int,
    ));
    while i > 0 && v[i - 1] != '/'
        invariant
            i <= v@.len(),
            v@ == s@,
            after_slash(v@) == after_slash(v@.take(i as int)) + v@.subrange(
                i as int,
                v@.len() as int,
            ),
        decreases i,
    {
        proof {
            assert(v@.take(i as int).drop_last() =~= v@.take(i - 1));
            assert(v@.take(i as int).last() == v@[i - 1]);
            assert(v@.subrange(i - 1, v@.len() as int) =~= seq![v@[i - 1]] + v@.subrange(
                i as int,
                v@.len() as int,
            ));
            assert(after_slash(v@.take(i as int)) + v@.subrange(i as int, v@.len() as int)
                =~= after_slash(v@.take(i - 1)) + v@.subrange(i - 1, v@.len() as int));
        }
        i = i - 1;
    }
    proof {
        if i > 0 {
            assert(v@.take(i as int).last() == '/');
        }
        assert(after_slash(v@) =~= v@.subrange(i as int, v@.len() as int));
    }
    text_of_range(&v, i, v.len())
}

/// What a list of words launches: nothing where there are none. A window is
/// recognized by the command's name, lowered, without the directories before it
/// (Linux), or by the command's file stem (Windows).
pub open spec fn launch_of(words: Seq<Seq<char>>, windows: bool) -> Option<LaunchView> {
    if words.len() == 0 {
        None
    } else {
        let bin = words[0];
        let stem = if !windows {
            lowercase(after_slash(bin))
        } else {
            match name_in(bin, true) {
                Some(name) => stem_of(name),
                None => bin,
            }
        };
        Some(LaunchView { bin, args: words.drop_first(), stem })
    }
}

/// What a list of words launches.
pub fn launch_from(words: Vec<String>, windows: bool) -> (r: Option<Launch>)
    ensures
        match r {
            Some(launch) => launch_of(views(words@), windows) == Some(launch@),
            None => launch_of(views(words@), windows) is None,
        },
{
    assert(views(words@).len() == words@.len());
    if words.len() == 0 {
        return None;
    }
    assert(views(words@)[0] == words@[0]@);
    let bin = words[0].clone();
    let stem = if !windows {
        to_lowercase(last_piece(bin.as_str()).as_str())
    } else {
        match file_stem(bin.as_str(), true) {
            Some(stem) => stem,
            None => bin.clone(),
        }
    };
    let mut args: Vec<String> = Vec::new();
    let mut i: usize = 1;
    while i < words.len()
        invariant
            1 <= i <= words@.len(),
            views(args@) =~= views(words@).subrange(1, i as int),
        decreases words@.len() - i,
    {
        let ghost before = views(args@);
        args.push(words[i].clone());
        assert(views(args@) =~= before.push(words@[i as int]@));
        assert(views(words@).subrange(1, i + 1) =~= views(words@).subrange(1, i as int).push(
            words@[i as int]@,
        ));
        i = i + 1;
    }
    assert(views(words@).subrange(1, words@.len() as int) =~= views(words@).drop_first());
    Some(Launch { bin, args, stem })
}

/// What a command launches. It is split shell-style, so an argument can contain
/// spaces when quoted.
pub fn parse_launch(program: &str, windows: bool) -> (r: Result<Option<Launch>, BadCommand>)
    ensures
        match r {
            Ok(Some(launch)) => shell_split(program@) is Some && launch_of(
                shell_split(program@)->0,
                windows,
            ) == Some(launch@),
            Ok(None) => shell_split(program@) is Some && launch_of(
                shell_split(program@)->0,
                windows,
            ) is None,
            Err(e) => shell_split(program@) is None && e.command@ == program@,
        },
{
    match split_words(program) {
        Ok(words) => Ok(launch_from(words, windows)),
        Err(_) => Err(BadCommand { command: owned(program) }),
    }
}

impl BadCommand {
    /// The message that a user reads.
    pub fn message(&self) -> (r: String)
        ensures
            r@ == "parsing exec command "@ + debug_quoted(self.command@),
    {
        let mut out = owned("parsing exec command ");
        out.append(quoted(self.command.as_str()).as_str());
        out
    }
}

// === Windows of a program ===

/// The window belongs to the program: its class, lowered, has the stem in it.
pub open spec fn belongs(class: Option<Seq<char>>, stem: Seq<char>) -> bool {
    class matches Some(c) && occurs_in(lowercase(c), stem)
}

/// The first window, from `i` on, that belongs to a program.
pub open spec fn first_window(
    list: Seq<(u64, Option<Seq<char>>)>,
    stem: Seq<char>,
    i: int,
) -> Option<u64>
    decreases list.len() - i,
{
    if i >= list.len() {
        None
    } else if belongs(list[i].1, stem) {
        Some(list[i].0)
    } else {
        first_window(list, stem, i + 1)
    }
}

/// The window to raise instead of launching a program: the first whose class has
/// the program's stem in it.
pub fn window_of_program(list: &Vec<(u64, Option<String>)>, stem: &str) -> (r: Option<u64>)
    ensures
        r == first_window(named_windows(list@), stem@, 0),
{
    let ghost all = named_windows(list@);
    let mut i: usize = 0;
    while i < list.len()
        invariant
            i <= list@.len(),
            all == named_windows(list@),
            first_window(all, stem@, 0) == first_window(all, stem@, i as int),
        decreases list@.len() - i,
    {
        assert(all[i as int] == (list@[i as int].0, text_view(list@[i as int].1)));
        if let Some(class) = &list[i].1 {
            if contains_text(to_lowercase(class.as_str()).as_str(), stem) {
                return Some(list[i].0);
            }
        }
        i = i + 1;
    }
    None
}

/// The windows whose process has a given stem, whatever the case of its ASCII
/// letters, in order.
pub open spec fn windows_of_stem(list: Seq<(u64, Option<Seq<char>>)>, stem: Seq<char>) -> Seq<u64>
    decreases list.len(),
{
    if list.len() == 0 {
        Seq::empty()
    } else {
        let before = windows_of_stem(list.drop_last(), stem);
        match list.last().1 {
            Some(name) if lower_ascii(name) == lower_ascii(stem) => before.push(list.last().0),
            _ => before,
        }
    }
}

/// The windows whose owning process has the given executable stem.
pub fn same_stem(list: &Vec<(u64, Option<String>)>, stem: &str) -> (r: Vec<u64>)
    ensures
        r@ == windows_of_stem(named_windows(list@), stem@),
{
    let ghost all = named_windows(list@);
    let lower = to_lower_ascii(stem);
    let mut out: Vec<u64> = Vec::new();
    let mut i: usize = 0;
    while i < list.len()
        invariant
            i <= list@.len(),
            all == named_windows(list@),
            lower@ == lower_ascii(stem@),
            out@ == windows_of_stem(all.take(i as int), stem@),
        decreases list@.len() - i,
    {
        proof {
            assert(all.take(i + 1).drop_last() =~= all.take(i as int));
            assert(all.take(i + 1).last() == (list@[i as int].0, text_view(list@[i as int].1)));
        }
        if let Some(name) = &list[i].1 {
            if same_text(to_lower_ascii(name.as_str()).as_str(), lower.as_str()) {
                out.push(list[i].0);
            }
        }
        i = i + 1;
    }
    assert(all.take(all.len() as int) =~= all);
    out
}

// === Arguments ===

/// The text has whitespace in it.
pub open spec fn has_white(s: Seq<char>) -> bool {
    exists|i: int| 0 <= i < s.len() && is_white(#[trigger] s[i])
}

/// An argument, in double quotes where it has whitespace in it.
pub open spec fn quoted_arg(s: Seq<char>) -> Seq<char> {
    if has_white(s) {
        seq!['"'] + s + seq!['"']
    } else {
        s
    }
}

/// The arguments joined by blanks.
pub open spec fn joined_args(args: Seq<Seq<char>>) -> Seq<char>
    decreases args.len(),
{
    if args.len() == 0 {
        Seq::empty()
    } else if args.len() == 1 {
        quoted_arg(args[0])
    } else {
        joined_args(args.drop_last()) + seq![' '] + quoted_arg(args.last())
    }
}

fn white_in(s: &str) -> (r: bool)
    ensures
        r == has_white(s@),
{
    let v = chars_of(s);
    let mut i: usize = 0;
    while i < v.len()
        invariant
            i <= v@.len(),
            v@ == s@,
            forall|k: int| 0 <= k < i ==> !is_white(#[trigger] s@[k]),
        decreases v@.len() - i,
    {
        if char_is_white(v[i]) {
            return true;
        }
        i = i + 1;
    }
    false
}

/// Quote launch arguments for a single parameter string: wrap any argument
/// containing whitespace in double quotes so that it is split off as one argument
/// again.
pub fn quote_params(args: &Vec<String>) -> (r: String)
    ensures
        r@ == joined_args(views(args@)),
{
    let ghost all = views(args@);
    let mut out = String::new();
    let mut i: usize = 0;
    assert(out@ =~= joined_args(all.take(0)));
    while i < args.len()
        invariant
            i <= args@.len(),
            all == views(args@),
            out@ == joined_args(all.take(i as int)),
        decreases args@.len() - i,
    {
        let ghost done = out@;
        let arg = args[i].as_str();
        proof {
            assert(all.take(i + 1).drop_last() =~= all.take(i as int));
            assert(all.take(i + 1).last() == arg@);
            assert(all.take(i + 1)[i as int] == arg@);
        }
        if i > 0 {
            out.push(' ');
        }
        if white_in(arg) {
            out.push('"');
            out.append(arg);
            out.push('"');
        } else {
            out.append(arg);
        }
        proof {
            if i > 0 {
                assert(out@ =~= done + seq![' '] + quoted_arg(arg@));
            } else {
                assert(done =~= Seq::empty());
                assert(out@ =~= quoted_arg(arg@));
            }
        }
        i = i + 1;
    }
    assert(all.take(all.len() as int) =~= all);
    out
}

/// The UTF-16 code units of a character.
pub open spec fn utf16_units(c: char) -> Seq<u16> {
    let code = c as u32;
    if code < 0x1_0000 {
        seq![code as u16]
    } else {
        seq![
            (0xd800 + (code - 0x1_0000) / 0x400) as u16,
            (0xdc00 + (code - 0x1_0000) % 0x400) as u16,
        ]
    }
}

/// The UTF-16 form of a text.
pub open spec fn utf16(s: Seq<char>) -> Seq<u16>
    decreases s.len(),
{
    if s.len() == 0 {
        Seq::empty()
    } else {
        utf16(s.drop_last()) + utf16_units(s.last())
    }
}

/// UTF-16 encode `s` without a trailing NUL.
pub fn to_wide_no_nul(s: &str) -> (r: Vec<u16>)
    ensures
        r@ == utf16(s@),
{
    let v = chars_of(s);
    let mut out: Vec<u16> = Vec::new();
    let mut i: usize = 0;
    while i < v.len()
        invariant
            i <= v@.len(),
            v@ == s@,
            out@ == utf16(s@.take(i as int)),
        decreases v@.len() - i,
    {
        let ghost done = out@;
        proof {
            assert(s@.take(i + 1).drop_last() =~= s@.take(i as int));
            assert(s@.take(i + 1).last() == s@[i as int]);
        }
        let code: u32 = v[i] as u32;
        if code < 0x1_0000 {
            out.push(code as u16);
        } else {
            let over: u32 = code - 0x1_0000;
            out.push((0xd800 + over / 0x400) as u16);
            out.push((0xdc00 + over % 0x400) as u16);
        }
        assert(out@ =~= done + utf16_units(s@[i as int]));
        i = i + 1;
    }
    assert(s@.take(s@.len() as int) =~= s@);
    out
}

/// A NUL-terminated UTF-16 buffer for a wide-string argument.
pub fn to_wide(s: &str) -> (r: Vec<u16>)
    ensures
        r@ == utf16(s@).push(0),
{
    let mut out = to_wide_no_nul(s);
    out.push(0);
    out
}

} // verus!
