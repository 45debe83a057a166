//! The text of the commands sent over the control socket.
use vstd::prelude::*;
use crate::rules::{applied, StaticRule};
use crate::text::{concat, numeral, numeral_text, views};
use crate::value::{int_text, int_to_text};
use crate::window::Window;

verus! {

/// The icon of an on-screen notification.
#[derive(Debug, Clone, Copy, PartialEq, Eq, Structural)]
pub enum NotifyIcon {
    Warning,
    Info,
    Hint,
    Error,
    Confused,
    Success,
    NoIcon,
}

impl NotifyIcon {
    /// The number the control protocol gives the icon.
    pub open spec fn spec_code(self) -> int {
        match self {
            NotifyIcon::Warning => 0,
            NotifyIcon::Info => 1,
            NotifyIcon::Hint => 2,
            NotifyIcon::Error => 3,
            NotifyIcon::Confused => 4,
            NotifyIcon::Success => 5,
            NotifyIcon::NoIcon => -1,
        }
    }

    /// The number the control protocol gives the icon.
    pub fn code(&self) -> (r: i64)
        ensures
            r == self.spec_code(),
    {
        match self {
            NotifyIcon::Warning => 0,
            NotifyIcon::Info => 1,
            NotifyIcon::Hint => 2,
            NotifyIcon::Error => 3,
            NotifyIcon::Confused => 4,
            NotifyIcon::Success => 5,
            NotifyIcon::NoIcon => -1,
        }
    }
}

/// The command that shows a notification for `millis` milliseconds.
pub fn notify_command(icon: NotifyIcon, millis: u64, color: &str, message: &str) -> (r: String)
    ensures
        r@ == "notify "@ + int_text(icon.spec_code()) + " "@ + numeral(millis as nat, 10) + " "@
            + color@ + " "@ + message@,
{
    let code = int_to_text(icon.code());
    let time = numeral_text(millis, 10);
    let mut r = concat("notify ", code.as_str());
    r.append(" ");
    r.append(time.as_str());
    r.append(" ");
    r.append(color);
    r.append(" ");
    r.append(message);
    r
}

/// The command that runs a dispatcher.
pub fn dispatch_command(msg: &str) -> (r: String)
    ensures
        r@ == "dispatch "@ + msg@,
{
    concat("dispatch ", msg)
}

/// The dispatch fragments of every runtime rule, completed for the focused window.
pub open spec fn all_applied(rules: Seq<StaticRule>, window: Window) -> Seq<Seq<char>>
    decreases rules.len(),
{
    if rules.len() == 0 {
        Seq::empty()
    } else {
        all_applied(rules.drop_last(), window) + applied(rules.last(), window)
    }
}

/// The dispatch fragments to send when a window gains focus: those of every
/// runtime rule that follows it, in order; none when no window has focus.
pub fn apply_static_rules(window: &Option<Window>, rules: &Vec<StaticRule>) -> (r: Vec<String>)
    ensures
        match window {
            Some(w) => views(r@) == all_applied(rules@, *w),
            None => r@.len() == 0,
        },
{
    let mut r: Vec<String> = Vec::new();
    if let Some(w) = window {
        let mut i: usize = 0;
        while i < rules.len()
            invariant
                i <= rules@.len(),
                views(r@) == all_applied(rules@.subrange(0, i as int), *w),
            decreases rules.len() - i,
        {
            let ghost before = r@;
            let mut cmds = rules[i].apply_properties(w);
            let ghost c = cmds@;
            r.append(&mut cmds);
            proof {
                let s = rules@.subrange(0, i + 1);
                assert(s.drop_last() =~= rules@.subrange(0, i as int));
                assert(s.last() == rules@[i as int]);
                assert(views(r@) =~= views(before) + views(c));
            }
            i = i + 1;
        }
        assert(rules@.subrange(0, i as int) =~= rules@);
    }
    r
}

} // verus!
