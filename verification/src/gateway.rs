//! Keeping a gateway instance warm.
//!
//! Asset requests and client messages are infrequent, so each gets a fresh
//! store. Event rendering is not: a streaming reply renders one frame per
//! token. So the renderer keeps a warm instance and recycles it on swap, trap
//! or age.
use vstd::prelude::*;

use crate::config::Config;
use crate::slot::{Slot, SlotView};

verus! {

/// Rebuild the warm renderer instance after this many calls, so a long-lived
/// guest cannot accumulate unbounded state.
pub const RENDERER_MAX_CALLS: u64 = 5_000;

/// The gateway serving the browser UI, named in configuration.
pub fn gateway_slot(cfg: &Config) -> (r: Slot)
    ensures
        r@ == SlotView::Gateway(cfg.primary_gateway@),
{
    Slot::gateway(cfg.primary_gateway.as_str())
}

/// An instance that is kept between calls.
#[derive(Debug, Clone, Copy, PartialEq, Eq, Structural)]
pub struct Warm {
    /// The revision it is an instance of.
    pub revision: u64,
    /// How often it has been called.
    pub calls: u64,
}

/// The renderer: the instance it keeps, if it keeps one.
#[derive(Debug, PartialEq, Eq)]
pub struct Renderer {
    warm: Option<Warm>,
}

impl View for Renderer {
    type V = Option<Warm>;

    closed spec fn view(&self) -> Option<Warm> {
        self.warm
    }
}

/// Whether the kept instance is stale: a swap happened, it aged out, or there
/// is nothing kept yet.
pub open spec fn stale(warm: Option<Warm>, current: Option<u64>) -> bool {
    match warm {
        None => true,
        Some(w) => w.calls >= RENDERER_MAX_CALLS || current != Some(w.revision),
    }
}

impl Renderer {
    #[verifier::type_invariant]
    spec fn well_formed(self) -> bool {
        self.warm matches Some(w) ==> w.calls <= RENDERER_MAX_CALLS
    }

    /// A renderer that keeps nothing yet.
    pub fn new() -> (r: Renderer)
        ensures
            r@ is None,
    {
        Renderer { warm: None }
    }

    /// Whether a fresh instance is needed, given the revision that is loaded.
    pub fn needs_refresh(&self, current: Option<u64>) -> (r: bool)
        ensures
            r == stale(self@, current),
    {
        match &self.warm {
            None => true,
            Some(w) => {
                if w.calls >= RENDERER_MAX_CALLS {
                    return true;
                }
                match current {
                    Some(revision) => revision != w.revision,
                    None => true,
                }
            },
        }
    }

    /// Keeps a fresh instance of a revision, or nothing where there is none.
    pub fn refreshed(&mut self, revision: Option<u64>)
        ensures
            final(self)@ == match revision {
                Some(r) => Some(Warm { revision: r, calls: 0 }),
                None => None,
            },
    {
        self.warm = match revision {
            Some(r) => Some(Warm { revision: r, calls: 0 }),
            None => None,
        };
    }

    /// Counts a call of the kept instance. Without one there is nothing to
    /// call.
    pub fn begin(&mut self) -> (r: bool)
        requires
            old(self)@ matches Some(w) ==> w.calls < RENDERER_MAX_CALLS,
        ensures
            r == (old(self)@ is Some),
            final(self)@ == match old(self)@ {
                Some(w) => Some(Warm { calls: (w.calls + 1) as u64, ..w }),
                None => None,
            },
    {
        match self.warm {
            Some(w) => {
                self.warm = Some(Warm { revision: w.revision, calls: w.calls + 1 });
                true
            },
            None => false,
        }
    }

    /// A trapped store is poisoned; it is dropped so the next event starts
    /// clean.
    pub fn trapped(&mut self)
        ensures
            final(self)@ is None,
    {
        self.warm = None;
    }
}

/// Once a stale instance has been replaced, the one that is kept is of the
/// loaded revision and may be called.
pub proof fn law_a_fresh_instance_is_not_stale(revision: u64)
    ensures
        !stale(Some(Warm { revision, calls: 0 }), Some(revision)),
{
}

/// An instance that is not stale is of the revision that is loaded, so a swap
/// takes effect with the next event.
pub proof fn law_what_is_called_is_what_is_loaded(warm: Option<Warm>, current: Option<u64>)
    requires
        !stale(warm, current),
    ensures
        warm matches Some(w) && current == Some(w.revision) && w.calls < RENDERER_MAX_CALLS,
{
}

/// An instance is stale exactly where there is none, it is of another revision than the
/// one that is loaded, or it has been called as often as one may be.
pub proof fn law_an_instance_is_kept_while_it_serves(warm: Warm, current: Option<u64>)
    ensures
        stale(None, current),
        current != Some(warm.revision) ==> stale(Some(warm), current),
        warm.calls >= RENDERER_MAX_CALLS ==> stale(Some(warm), current),
        current == Some(warm.revision) && warm.calls < RENDERER_MAX_CALLS ==> !stale(
            Some(warm),
            current,
        ),
{
}

} // verus!
