//! Desktop notifications: what is handed to `notify-send`.

use vstd::prelude::*;

use crate::text::views;

verus! {

/// How much the notification interrupts.
#[derive(Debug, Clone, Copy, PartialEq, Eq, Structural)]
pub enum Urgency {
    /// Routine: a profile was applied as expected.
    Low,
    /// Worth reading: a layout was refused, or reverted on its own.
    Normal,
}

impl Urgency {
    pub open spec fn word(self) -> Seq<char> {
        match self {
            Urgency::Low => "low"@,
            Urgency::Normal => "normal"@,
        }
    }

    pub fn as_arg(self) -> (r: &'static str)
        ensures
            r@ == self.word(),
    {
        match self {
            Urgency::Low => "low",
            Urgency::Normal => "normal",
        }
    }
}

/// The arguments of a notification; without a body there is none.
pub open spec fn notification(summary: Seq<char>, body: Seq<char>, urgency: Urgency) -> Seq<
    Seq<char>,
> {
    let args = seq![
        "--app-name=hyprdmc"@,
        "--urgency="@ + urgency.word(),
        "--icon=video-display"@,
        "--hint=string:x-canonical-private-synchronous:hyprdmc"@,
        summary,
    ];
    if body.len() > 0 {
        args.push(body)
    } else {
        args
    }
}

/// Arguments passed to `notify-send`.
///
/// The `x-canonical-private-synchronous` hint makes a new notification replace
/// the previous one from us instead of stacking: docking a laptop can fire
/// several reconciliations in a row, and five stacked popups saying nearly the
/// same thing is worse than none.
pub fn build_args(summary: &str, body: &str, urgency: Urgency) -> (r: Vec<String>)
    ensures
        views(r@) == notification(summary@, body@, urgency),
{
    let mut args: Vec<String> = Vec::new();
    args.push("--app-name=hyprdmc".to_owned());
    let mut level = "--urgency=".to_owned();
    level.append(urgency.as_arg());
    args.push(level);
    args.push("--icon=video-display".to_owned());
    args.push("--hint=string:x-canonical-private-synchronous:hyprdmc".to_owned());
    args.push(summary.to_owned());
    if body.unicode_len() > 0 {
        args.push(body.to_owned());
    }
    assert(views(args@) =~= notification(summary@, body@, urgency));
    args
}

} // verus!
