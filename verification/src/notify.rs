//! What a desktop notification is made of.

use crate::text::{chars_of, owned, text_of_range, views};
use vstd::prelude::*;

verus! {

// === Constants ===

/// The name notifications are shown under.
pub const APP_NAME: &'static str = "RightKeys";

/// The icon of an informational notification.
pub const APP_ICON: &'static str = "rightkeys";

/// The icon of a warning.
pub const WARNING_ICON: &'static str = "dialog-warning";

/// Auto-expire notifications after this many milliseconds. Critical urgency is
/// avoided so the daemon honors the timeout (critical notifications are resident and
/// never auto-dismiss).
pub const EXPIRE_MS: &'static str = "5000";

// === Linux ===

/// The arguments `notify-send` is run with.
pub open spec fn send_arguments(message: Seq<char>, warning: bool) -> Seq<Seq<char>> {
    seq![
        "-a"@,
        APP_NAME@,
        "-i"@,
        if warning {
            WARNING_ICON@
        } else {
            APP_ICON@
        },
        "-t"@,
        EXPIRE_MS@,
        message,
    ]
}

/// The arguments to run `notify-send` with.
pub fn notify_arguments(message: &str, warning: bool) -> (r: Vec<String>)
    ensures
        views(r@) == send_arguments(message@, warning),
{
    let icon = if warning {
        WARNING_ICON
    } else {
        APP_ICON
    };
    let mut args: Vec<String> = Vec::new();
    args.push(owned("-a"));
    args.push(owned(APP_NAME));
    args.push(owned("-i"));
    args.push(owned(icon));
    args.push(owned("-t"));
    args.push(owned(EXPIRE_MS));
    args.push(owned(message));
    assert(views(args@) =~= send_arguments(message@, warning));
    args
}

// === Windows ===

/// A text without its apostrophes, which would end a quoted literal.
pub open spec fn unquoted(s: Seq<char>) -> Seq<char> {
    s.filter(|c: char| c != '\'')
}

/// A message without its apostrophes, to stand in a quoted literal.
pub fn sanitized(message: &str) -> (r: String)
    ensures
        r@ == unquoted(message@),
{
    let chars = chars_of(message);
    let mut kept: Vec<char> = Vec::new();
    let mut i: usize = 0;
    assert(message@.take(0).filter(|c: char| c != '\'') =~= Seq::empty()) by {
        reveal(Seq::filter);
    }
    while i < chars.len()
        invariant
            i <= chars@.len(),
            chars@ == message@,
            kept@ == unquoted(message@.take(i as int)),
        decreases chars@.len() - i,
    {
        proof {
            reveal(Seq::filter);
            assert(message@.take(i + 1).drop_last() =~= message@.take(i as int));
            assert(message@.take(i + 1).last() == message@[i as int]);
        }
        if chars[i] != '\'' {
            kept.push(chars[i]);
        }
        i = i + 1;
    }
    assert(message@.take(message@.len() as int) =~= message@);
    let total: usize = kept.len();
    assert(kept@.subrange(0, total as int) =~= kept@);
    text_of_range(&kept, 0, total)
}

/// The script before the message.
pub const TOAST_HEAD: &'static str = "[Windows.UI.Notifications.ToastNotificationManager, Windows.UI.Notifications, ContentType=WindowsRuntime] | Out-Null; $t=[Windows.UI.Notifications.ToastNotificationManager]::GetTemplateContent([Windows.UI.Notifications.ToastTemplateType]::ToastText01); $t.GetElementsByTagName('text')[0].AppendChild($t.CreateTextNode('";

/// The script between the message and the application's name.
pub const TOAST_MIDDLE: &'static str = "')) | Out-Null; $n=[Windows.UI.Notifications.ToastNotification]::new($t); [Windows.UI.Notifications.ToastNotificationManager]::CreateToastNotifier('";

/// The script after the application's name.
pub const TOAST_TAIL: &'static str = "').Show($n);";

/// The script that shows a message as a toast.
pub fn toast_script(message: &str) -> (r: String)
    ensures
        r@ == TOAST_HEAD@ + unquoted(message@) + TOAST_MIDDLE@ + APP_NAME@ + TOAST_TAIL@,
{
    let mut script = owned(TOAST_HEAD);
    script.append(sanitized(message).as_str());
    script.append(TOAST_MIDDLE);
    script.append(APP_NAME);
    script.append(TOAST_TAIL);
    script
}

// === Laws ===

/// Nothing in a sanitized message can end the literal it stands in, and a message
/// without apostrophes is kept as it is.
pub proof fn messages_stay_inside_their_literal(message: Seq<char>)
    ensures
        !unquoted(message).contains('\''),
        !message.contains('\'') ==> unquoted(message) == message,
    decreases message.len(),
{
    reveal(Seq::filter);
    if message.len() > 0 {
        messages_stay_inside_their_literal(message.drop_last());
        if !message.contains('\'') {
            assert(!message.drop_last().contains('\'')) by {
                if message.drop_last().contains('\'') {
                    let k = choose|k: int|
                        0 <= k < message.len() - 1 && message.drop_last()[k] == '\'';
                    assert(message[k] == '\'');
                }
            }
            assert(message[message.len() - 1] != '\'');
            assert(unquoted(message) =~= message);
        }
    }
}

} // verus!
