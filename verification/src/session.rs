//! What a running compositor tells, whichever one it is.

use vstd::prelude::*;

use crate::text::view_opt_str;

verus! {

/// Something that happened in the compositor and that the daemon reacts to.
///
/// The compositor-agnostic form of a wire event: each session parses its own
/// protocol into this, so the daemon's loop never sees a wire format.
#[derive(Debug, Clone, PartialEq, Eq)]
pub enum CompositorEvent {
    /// An output appeared (connector name).
    OutputAdded(String),
    /// An output disappeared (connector name).
    OutputRemoved(String),
    /// The configuration was reloaded: the state may have changed under us.
    ConfigReloaded,
    /// Everything else, kept for verbose logging.
    Other(String),
}

pub ghost enum EventView {
    OutputAdded(Seq<char>),
    OutputRemoved(Seq<char>),
    ConfigReloaded,
    Other(Seq<char>),
}

impl View for CompositorEvent {
    type V = EventView;

    open spec fn view(&self) -> EventView {
        match *self {
            CompositorEvent::OutputAdded(s) => EventView::OutputAdded(s@),
            CompositorEvent::OutputRemoved(s) => EventView::OutputRemoved(s@),
            CompositorEvent::ConfigReloaded => EventView::ConfigReloaded,
            CompositorEvent::Other(s) => EventView::Other(s@),
        }
    }
}

impl EventView {
    /// Outputs came or went.
    pub open spec fn moves_outputs(self) -> bool {
        self is OutputAdded || self is OutputRemoved
    }
}

impl CompositorEvent {
    /// Should this trigger a profile re-evaluation?
    pub fn affects_outputs(&self) -> (r: bool)
        ensures
            r == self@.moves_outputs(),
    {
        match self {
            CompositorEvent::OutputAdded(_) => true,
            CompositorEvent::OutputRemoved(_) => true,
            _ => false,
        }
    }

    /// The output this event is about, if it names one.
    pub fn output(&self) -> (r: Option<&str>)
        ensures
            view_opt_str(r) == match self@ {
                EventView::OutputAdded(s) => Some(s),
                EventView::OutputRemoved(s) => Some(s),
                _ => None,
            },
    {
        match self {
            CompositorEvent::OutputAdded(name) => Some(name.as_str()),
            CompositorEvent::OutputRemoved(name) => Some(name.as_str()),
            _ => None,
        }
    }
}

} // verus!
