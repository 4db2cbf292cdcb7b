//! What the debug log shows of key events.

use crate::actions::OutEvent;
use crate::text::owned;
use vstd::prelude::*;

verus! {

/// Short label for a key value: `1` press, `0` release, `2` repeat.
pub open spec fn action_text(value: i32) -> Seq<char> {
    if value == 0 {
        "release"@
    } else if value == 1 {
        "press"@
    } else if value == 2 {
        "repeat"@
    } else {
        "?"@
    }
}

/// Short label for a key value: `1` press, `0` release, `2` repeat.
pub fn action(value: i32) -> (r: &'static str)
    ensures
        r@ == action_text(value),
{
    match value {
        0 => "release",
        1 => "press",
        2 => "repeat",
        _ => "?",
    }
}

/// One event: `+Key` for a press or a repeat, `-Key` for a release.
pub open spec fn event_text(e: OutEvent) -> Seq<char> {
    seq![
        if e.value == 0 {
            '-'
        } else {
            '+'
        },
    ] + e.key.spec_label()
}

/// Events side by side.
pub open spec fn events_text(events: Seq<OutEvent>) -> Seq<char>
    decreases events.len(),
{
    if events.len() == 0 {
        Seq::empty()
    } else if events.len() == 1 {
        event_text(events[0])
    } else {
        events_text(events.drop_last()).push(' ') + event_text(events.last())
    }
}

/// Render the engine's output events compactly: `+Key` for press, `-Key` for release
/// (e.g. `+LeftMeta +Left`).
pub fn format_out(events: &[OutEvent]) -> (r: String)
    ensures
        r@ == if events@.len() == 0 {
            "(none)"@
        } else {
            events_text(events@)
        },
{
    let total: usize = events.len();
    if total == 0 {
        return owned("(none)");
    }
    let mut out = String::new();
    assert(out@ =~= Seq::empty());
    let mut i: usize = 0;
    while i < total
        invariant
            i <= total == events@.len(),
            out@ == events_text(events@.take(i as int)),
        decreases total - i,
    {
        let ghost before = out@;
        proof {
            assert(events@.take(i + 1).drop_last() =~= events@.take(i as int));
            assert(events@.take(i + 1).last() == events@[i as int]);
        }
        if i > 0 {
            out.push(' ');
        }
        if events[i].value == 0 {
            out.push('-');
        } else {
            out.push('+');
        }
        out.append(events[i].key.label());
        assert(out@ =~= if i > 0 {
            before.push(' ') + event_text(events@[i as int])
        } else {
            event_text(events@[i as int])
        });
        i = i + 1;
    }
    assert(events@.take(total as int) =~= events@);
    out
}

} // verus!
