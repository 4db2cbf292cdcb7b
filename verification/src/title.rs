//! Telling an application's name from the rest of a window title.

use crate::text::{
    char_is_alphanumeric, chars_of, is_alphanumeric, listed, lists_text, lowercase, text_of_range,
    to_lowercase, trim, trim_range, views,
};
use vstd::prelude::*;

verus! {

// === Tokens ===

/// The pieces of `s` between its characters that are neither letters nor numbers.
pub open spec fn words(s: Seq<char>) -> Seq<Seq<char>>
    decreases s.len(),
{
    if s.len() == 0 {
        seq![Seq::empty()]
    } else {
        let before = words(s.drop_last());
        if is_alphanumeric(s.last()) {
            before.drop_last().push(before.last().push(s.last()))
        } else {
            before.push(Seq::empty())
        }
    }
}

/// The words of at least two characters, lowered.
pub open spec fn long_words(list: Seq<Seq<char>>) -> Seq<Seq<char>>
    decreases list.len(),
{
    if list.len() == 0 {
        Seq::empty()
    } else if list.last().len() >= 2 {
        long_words(list.drop_last()).push(lowercase(list.last()))
    } else {
        long_words(list.drop_last())
    }
}

/// Lowercased alphanumeric tokens of `s`, without single characters.
pub open spec fn tokens(s: Seq<char>) -> Seq<Seq<char>> {
    long_words(words(s))
}

/// Lowercased alphanumeric tokens of the part `from..to` of `v`, dropping
/// single-character noise.
fn tokenize(v: &Vec<char>, from: usize, to: usize) -> (r: Vec<String>)
    requires
        from <= to <= v@.len(),
    ensures
        views(r@) == tokens(v@.subrange(from as int, to as int)),
{
    let mut out: Vec<String> = Vec::new();
    let mut start: usize = from;
    let mut i: usize = from;
    let ghost all = v@.subrange(from as int, to as int);
    let ghost done: Seq<Seq<char>> = Seq::empty();
    proof {
        assert(all.take(0) =~= Seq::empty());
        assert(v@.subrange(from as int, from as int) =~= Seq::empty());
        assert(done.push(v@.subrange(start as int, i as int)) =~= words(all.take(0)));
        assert(views(out@) =~= long_words(done));
    }
    while i < to
        invariant
            from <= start <= i <= to <= v@.len(),
            all == v@.subrange(from as int, to as int),
            done.push(v@.subrange(start as int, i as int)) == words(all.take(i - from)),
            views(out@) == long_words(done),
        decreases to - i,
    {
        let ghost cur = v@.subrange(start as int, i as int);
        proof {
            assert(all.take(i + 1 - from).drop_last() =~= all.take(i - from));
            assert(all.take(i + 1 - from).last() == v@[i as int]);
            assert(done.push(cur).drop_last() =~= done);
        }
        if char_is_alphanumeric(v[i]) {
            assert(v@.subrange(start as int, i + 1) =~= cur.push(v@[i as int]));
        } else {
            push_long_word(v, start, i, &mut out);
            proof {
                done = done.push(cur);
                assert(v@.subrange(i + 1, i + 1) =~= Seq::empty());
                assert(done.drop_last() =~= words(all.take(i - from)).drop_last());
            }
            start = i + 1;
        }
        i = i + 1;
    }
    push_long_word(v, start, to, &mut out);
    assert(all.take(to - from) =~= all);
    out
}

fn push_long_word(v: &Vec<char>, from: usize, to: usize, out: &mut Vec<String>)
    requires
        from <= to <= v@.len(),
    ensures
        forall|done: Seq<Seq<char>>| #[trigger]
            long_words(done) == views(old(out)@) ==> views(final(out)@) == long_words(
                done.push(v@.subrange(from as int, to as int)),
            ),
{
    let ghost word = v@.subrange(from as int, to as int);
    if to - from >= 2 {
        let text = text_of_range(v, from, to);
        out.push(to_lowercase(text.as_str()));
        assert(views(out@) =~= views(old(out)@).push(lowercase(word)));
    }
    assert forall|done: Seq<Seq<char>>| #[trigger] long_words(done) == views(old(out)@) implies views(
        out@,
    ) == long_words(done.push(word)) by {
        assert(done.push(word).drop_last() =~= done);
    }
}

// === Segments ===

/// A separator that apps put between a title's components stands at `i`: a dash,
/// bar or dot between two blanks.
pub open spec fn separator_at(t: Seq<char>, i: int) -> bool {
    &&& 0 <= i
    &&& i + 3 <= t.len()
    &&& t[i] == ' '
    &&& t[i + 2] == ' '
    &&& t[i + 1] == '\u{2014}' || t[i + 1] == '\u{2013}' || t[i + 1] == '-' || t[i + 1] == '|' || t[i
        + 1] == '\u{b7}'
}

/// The `(start, end)` ranges of the components of `t`, from `i` on, where the
/// current component began at `start`.
pub open spec fn segments_from(t: Seq<char>, start: int, i: int) -> Seq<(int, int)>
    decreases t.len() - i,
{
    if i >= t.len() {
        seq![(start, t.len() as int)]
    } else if separator_at(t, i) {
        seq![(start, i)] + segments_from(t, i + 3, i + 3)
    } else {
        segments_from(t, start, i + 1)
    }
}

/// The ranges of a title's components; always at least one.
pub open spec fn segments(t: Seq<char>) -> Seq<(int, int)> {
    segments_from(t, 0, 0)
}

/// Ranges as integers.
pub open spec fn int_ranges(r: Seq<(usize, usize)>) -> Seq<(int, int)> {
    r.map_values(|p: (usize, usize)| (p.0 as int, p.1 as int))
}

/// Ranges within a text, each after the one before.
spec fn ranges_fit(r: Seq<(usize, usize)>, len: int) -> bool {
    forall|i: int| 0 <= i < r.len() ==> (#[trigger] r[i]).0 <= r[i].1 <= len
}

fn is_separator(t: &Vec<char>, i: usize) -> (r: bool)
    requires
        i < t@.len(),
    ensures
        r == separator_at(t@, i as int),
{
    if t.len() - i < 3 {
        return false;
    }
    let c = t[i + 1];
    t[i] == ' ' && t[i + 2] == ' ' && (c == '\u{2014}' || c == '\u{2013}' || c == '-' || c == '|'
        || c == '\u{b7}')
}

/// The ranges of a title's components, split on any separator. Always returns at
/// least one range (the whole string).
fn segment_ranges(t: &Vec<char>) -> (r: Vec<(usize, usize)>)
    ensures
        int_ranges(r@) == segments(t@),
        ranges_fit(r@, t@.len() as int),
        r@.len() >= 1,
{
    let mut ranges: Vec<(usize, usize)> = Vec::new();
    let mut start: usize = 0;
    let mut i: usize = 0;
    assert(int_ranges(ranges@) + segments_from(t@, 0, 0) =~= segments(t@));
    while i < t.len()
        invariant
            start <= i <= t@.len(),
            int_ranges(ranges@) + segments_from(t@, start as int, i as int) == segments(t@),
            ranges_fit(ranges@, t@.len() as int),
        decreases t@.len() - i,
    {
        if is_separator(t, i) {
            let ghost before = int_ranges(ranges@);
            ranges.push((start, i));
            proof {
                assert(int_ranges(ranges@) =~= before.push((start as int, i as int)));
                assert(int_ranges(ranges@) + segments_from(t@, i + 3, i + 3) =~= before
                    + segments_from(t@, start as int, i as int));
            }
            i = i + 3;
            start = i;
        } else {
            i = i + 1;
        }
    }
    let ghost before = int_ranges(ranges@);
    ranges.push((start, t.len()));
    assert(int_ranges(ranges@) =~= before + segments_from(t@, start as int, i as int));
    ranges
}

// === Splitting ===

/// One of the ranges of `t` has the token.
pub open spec fn run_has(t: Seq<char>, run: Seq<(int, int)>, token: Seq<char>) -> bool {
    exists|j: int|
        0 <= j < run.len() && listed(tokens(t.subrange((#[trigger] run[j]).0, run[j].1)), token)
}

/// The tokens of a run of ranges of `t` cover every one of the tokens `app`.
pub open spec fn covers(t: Seq<char>, run: Seq<(int, int)>, app: Seq<Seq<char>>) -> bool {
    forall|k: int| 0 <= k < app.len() ==> run_has(t, run, #[trigger] app[k])
}

/// The length, from `k` on and short of the whole, of the smallest trailing run
/// of ranges that covers `app`.
pub open spec fn trailing_run(
    t: Seq<char>,
    ranges: Seq<(int, int)>,
    app: Seq<Seq<char>>,
    k: int,
) -> Option<int>
    decreases ranges.len() - k,
{
    if k >= ranges.len() {
        None
    } else if covers(t, ranges.skip(ranges.len() - k), app) {
        Some(k)
    } else {
        trailing_run(t, ranges, app, k + 1)
    }
}

/// The same of the leading runs.
pub open spec fn leading_run(
    t: Seq<char>,
    ranges: Seq<(int, int)>,
    app: Seq<Seq<char>>,
    k: int,
) -> Option<int>
    decreases ranges.len() - k,
{
    if k >= ranges.len() {
        None
    } else if covers(t, ranges.take(k), app) {
        Some(k)
    } else {
        leading_run(t, ranges, app, k + 1)
    }
}

/// What a title says: the application's name in it, and the rest.
pub open spec fn title_split(title: Seq<char>, app: Seq<char>) -> (Seq<char>, Seq<char>) {
    let t = trim(title);
    let wanted = tokens(app);
    let ranges = segments(t);
    let n = ranges.len() as int;
    if wanted.len() == 0 {
        (Seq::empty(), t)
    } else if let Some(k) = trailing_run(t, ranges, wanted, 1) {
        (trim(t.skip(ranges[n - k].0)), trim(t.take(ranges[n - k - 1].1)))
    } else if let Some(k) = leading_run(t, ranges, wanted, 1) {
        (trim(t.take(ranges[k - 1].1)), trim(t.skip(ranges[k].0)))
    } else {
        (Seq::empty(), t)
    }
}

/// Whether the ranges `from..to` cover every token of `app`.
fn run_covers(
    t: &Vec<char>,
    ranges: &Vec<(usize, usize)>,
    from: usize,
    to: usize,
    app: &Vec<String>,
) -> (r: bool)
    requires
        from <= to <= ranges@.len(),
        ranges_fit(ranges@, t@.len() as int),
    ensures
        r == covers(t@, int_ranges(ranges@).subrange(from as int, to as int), views(app@)),
{
    let ghost run = int_ranges(ranges@).subrange(from as int, to as int);
    let mut k: usize = 0;
    while k < app.len()
        invariant
            k <= app@.len(),
            from <= to <= ranges@.len(),
            ranges_fit(ranges@, t@.len() as int),
            run == int_ranges(ranges@).subrange(from as int, to as int),
            forall|j: int| 0 <= j < k ==> run_has(t@, run, #[trigger] views(app@)[j]),
        decreases app@.len() - k,
    {
        let ghost token = views(app@)[k as int];
        assert(token == app@[k as int]@);
        let mut found = false;
        let mut j: usize = from;
        while j < to && !found
            invariant
                from <= j <= to <= ranges@.len(),
                ranges_fit(ranges@, t@.len() as int),
                run == int_ranges(ranges@).subrange(from as int, to as int),
                k < app@.len(),
                token == app@[k as int]@,
                found ==> run_has(t@, run, token),
                !found ==> forall|m: int|
                    0 <= m < j - from ==> !listed(
                        tokens(t@.subrange((#[trigger] run[m]).0, run[m].1)),
                        token,
                    ),
            decreases to - j,
        {
            let (a, b) = ranges[j];
            assert(run[j - from] == (a as int, b as int));
            let list = tokenize(t, a, b);
            if lists_text(&list, app[k].as_str()) {
                found = true;
            }
            j = j + 1;
        }
        if !found {
            assert(!run_has(t@, run, token));
            return false;
        }
        k = k + 1;
    }
    true
}

/// Split a window `title` into `(brand, rest)`: the application-name component
/// and the remaining document/page part. The app's branding in the title may
/// itself span several separator-joined segments and need not match `app`
/// verbatim (window class "code-insiders" vs the title's "Visual Studio Code -
/// Insiders"), so this works on tokens: it isolates the smallest run of trailing
/// (then leading) segments whose combined tokens cover every token of `app`.
/// e.g. "… - ZKDual - Visual Studio Code - Insiders" with app "code-insiders"
/// yields ("Visual Studio Code - Insiders", "… - ZKDual"). `brand` is empty when
/// no such run exists short of the whole title.
pub fn split_app_from_title(title: &str, app: &str) -> (r: (String, String))
    ensures
        (r.0@, r.1@) == title_split(title@, app@),
{
    let whole = chars_of(title);
    assert(whole@.subrange(0, whole@.len() as int) =~= title@);
    let trimmed = trim_range(&whole, 0, whole.len());
    let t = chars_of(trimmed.as_str());
    let app_chars = chars_of(app);
    assert(app_chars@.subrange(0, app_chars@.len() as int) =~= app@);
    let wanted = tokenize(&app_chars, 0, app_chars.len());
    assert(views(wanted@).len() == wanted@.len());
    if wanted.len() == 0 {
        let none = String::new();
        assert(none@ =~= Seq::empty());
        return (none, trimmed);
    }
    let ranges = segment_ranges(&t);
    let n: usize = ranges.len();
    let ghost all = int_ranges(ranges@);
    // Trailing run: smallest non-empty suffix (short of the whole) that is the app.
    let mut k: usize = 1;
    while k < n
        invariant
            1 <= k <= n,
            n == ranges@.len(),
            all == int_ranges(ranges@),
            all == segments(t@),
            t@ == trim(title@),
            ranges_fit(ranges@, t@.len() as int),
            views(wanted@) == tokens(app@),
            views(wanted@).len() > 0,
            trailing_run(t@, all, views(wanted@), 1) == trailing_run(
                t@,
                all,
                views(wanted@),
                k as int,
            ),
        decreases n - k,
    {
        assert(all.subrange(n - k, n as int) =~= all.skip(n - k));
        if run_covers(&t, &ranges, n - k, n, &wanted) {
            let from: usize = ranges[n - k].0;
            let upto: usize = ranges[n - k - 1].1;
            assert(all[n - k] == (ranges@[n - k].0 as int, ranges@[n - k].1 as int));
            assert(all[n - k - 1] == (ranges@[n - k - 1].0 as int, ranges@[n - k - 1].1 as int));
            assert(t@.subrange(from as int, t@.len() as int) =~= t@.skip(from as int));
            assert(t@.subrange(0, upto as int) =~= t@.take(upto as int));
            let brand = trim_range(&t, from, t.len());
            let rest = trim_range(&t, 0, upto);
            return (brand, rest);
        }
        k = k + 1;
    }
    // Leading run: apps that put their name first.
    let mut k: usize = 1;
    while k < n
        invariant
            1 <= k <= n,
            n == ranges@.len(),
            all == int_ranges(ranges@),
            all == segments(t@),
            t@ == trim(title@),
            ranges_fit(ranges@, t@.len() as int),
            views(wanted@) == tokens(app@),
            views(wanted@).len() > 0,
            trailing_run(t@, all, views(wanted@), 1) is None,
            leading_run(t@, all, views(wanted@), 1) == leading_run(
                t@,
                all,
                views(wanted@),
                k as int,
            ),
        decreases n - k,
    {
        assert(all.subrange(0, k as int) =~= all.take(k as int));
        if run_covers(&t, &ranges, 0, k, &wanted) {
            let upto: usize = ranges[k - 1].1;
            let from: usize = ranges[k].0;
            assert(all[k - 1] == (ranges@[k - 1].0 as int, ranges@[k - 1].1 as int));
            assert(all[k as int] == (ranges@[k as int].0 as int, ranges@[k as int].1 as int));
            assert(t@.subrange(from as int, t@.len() as int) =~= t@.skip(from as int));
            assert(t@.subrange(0, upto as int) =~= t@.take(upto as int));
            let brand = trim_range(&t, 0, upto);
            let rest = trim_range(&t, from, t.len());
            return (brand, rest);
        }
        k = k + 1;
    }
    let none = String::new();
    assert(none@ =~= Seq::empty());
    (none, trimmed)
}

/// A title of a single component is never taken for the application's name, so a
/// title never comes back empty-handed: where there is no name in it, the rest is
/// the whole title, trimmed.
pub proof fn lone_components_are_kept(title: Seq<char>, app: Seq<char>)
    requires
        segments(trim(title)).len() == 1,
    ensures
        title_split(title, app) == (Seq::<char>::empty(), trim(title)),
{
}

} // verus!
