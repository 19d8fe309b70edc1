//! The active filter: which filter the stateless helpers use.
use crate::filter;
use crate::filter::{default_filter, FilterRules, ResolvedFilter};
use std::sync::Arc;
use vstd::prelude::*;

verus! {

/// The place that holds the filter that is active in a process, beside the default filter
/// that all of the process shares. The crawler installs the session's filter at crawl
/// startup and resets to defaults when done.
pub struct FilterSlot {
    /// The shared default filter.
    default: Arc<ResolvedFilter>,
    /// The filter that is installed, or nothing where the lock around the slot was
    /// poisoned: what it held cannot be read then, and nothing can be installed.
    installed: Option<Arc<ResolvedFilter>>,
}

impl View for FilterSlot {
    type V = Option<FilterRules>;

    /// The rules of the installed filter, or nothing where the slot is poisoned.
    closed spec fn view(&self) -> Option<FilterRules> {
        match self.installed {
            Some(f) => Some(f@),
            None => None,
        }
    }
}

impl FilterSlot {
    #[verifier::type_invariant]
    spec fn well_formed(self) -> bool {
        self.default@ == filter::default_rules()
    }

    /// The filter that is installed, or nothing where the slot is poisoned.
    pub closed spec fn installed(self) -> Option<Arc<ResolvedFilter>> {
        self.installed
    }

    /// The default filter that the slot shares.
    pub closed spec fn shared_default(self) -> Arc<ResolvedFilter> {
        self.default
    }

    /// The rules that are active: a poisoned slot falls back to the defaults.
    pub open spec fn active(self) -> FilterRules {
        match self@ {
            Some(f) => f,
            None => filter::default_rules(),
        }
    }

    /// A slot in which the default filter is installed.
    pub fn new() -> (r: FilterSlot)
        ensures
            r.installed() == Some(r.shared_default()),
            r@ == Some(filter::default_rules()),
    {
        let default = default_filter();
        FilterSlot { installed: Some(Arc::clone(&default)), default }
    }

    /// What is left of the slot when the lock around it is poisoned.
    pub fn poisoned(&self) -> (r: FilterSlot)
        ensures
            r.installed() is None,
            r@ is None,
            r.shared_default() == self.shared_default(),
    {
        proof {
            use_type_invariant(self);
        }
        FilterSlot { default: Arc::clone(&self.default), installed: None }
    }

    /// The shared default filter. Useful when constructing a normalizer that should ignore
    /// any active filter.
    pub fn default_filter(&self) -> (r: Arc<ResolvedFilter>)
        ensures
            r == self.shared_default(),
            r@ == filter::default_rules(),
    {
        proof {
            use_type_invariant(self);
        }
        Arc::clone(&self.default)
    }
}

impl Clone for FilterSlot {
    /// A slot with the same filters.
    fn clone(&self) -> (r: Self)
        ensures
            r.installed() == self.installed(),
            r.shared_default() == self.shared_default(),
            r@ == self@,
    {
        proof {
            use_type_invariant(self);
        }
        let installed = match &self.installed {
            Some(f) => Some(Arc::clone(f)),
            None => None,
        };
        FilterSlot { default: Arc::clone(&self.default), installed }
    }
}

/// Return a cloned `Arc` of the currently-installed filter. All stateless helpers call
/// this, so swapping via [`install_active_filter`] is enough to apply a custom config
/// across the link frontier + post-fetch paths. A poisoned slot falls back to the shared
/// default.
pub fn active_filter(slot: &FilterSlot) -> (r: Arc<ResolvedFilter>)
    ensures
        r@ == slot.active(),
        r == match slot.installed() {
            Some(f) => f,
            None => slot.shared_default(),
        },
{
    proof {
        use_type_invariant(slot);
    }
    match &slot.installed {
        Some(f) => Arc::clone(f),
        None => Arc::clone(&slot.default),
    }
}

/// Install a new active filter. Subsequent normalization calls pick it up. On a
/// poisoned slot nothing happens.
pub fn install_active_filter(slot: &mut FilterSlot, filter: Arc<ResolvedFilter>)
    ensures
        final(slot).installed() == match old(slot).installed() {
            Some(_) => Some(filter),
            None => None,
        },
        final(slot)@ == match old(slot)@ {
            Some(_) => Some(filter@),
            None => None,
        },
        final(slot).shared_default() == old(slot).shared_default(),
{
    proof {
        use_type_invariant(&*slot);
    }
    if slot.installed.is_some() {
        slot.installed = Some(filter);
    }
}

/// Restore the active filter to the shared default (e.g. between crawls in the GUI).
pub fn reset_active_filter(slot: &mut FilterSlot)
    ensures
        final(slot).installed() == match old(slot).installed() {
            Some(_) => Some(old(slot).shared_default()),
            None => None,
        },
        final(slot).active() == filter::default_rules(),
        (final(slot)@ is Some) == (old(slot)@ is Some),
        final(slot).shared_default() == old(slot).shared_default(),
{
    let filter = slot.default_filter();
    install_active_filter(slot, filter)
}

} // verus!
