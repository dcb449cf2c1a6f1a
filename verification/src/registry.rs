//! The label registry: which one-byte hex values are currently assigned to a
//! visible invader. An absent entry means the same as an entry set to
//! `false`: the label is free. Entries are never removed, so the map grows
//! monotonically over a session, which is acceptable for a domain of 255
//! values.

use std::collections::HashMap;
use vstd::prelude::*;

verus! {

/// Tracks, per label, whether it is currently assigned to a visible invader.
pub struct ValueRegistry {
    pub entries: HashMap<u8, bool>,
}

impl ValueRegistry {
    /// A label is active when its entry is present and `true`.
    pub open spec fn active(self, label: u8) -> bool {
        self.entries@.contains_key(label) && self.entries@[label]
    }

    /// A label is available for a new invader when it has no entry, or its
    /// entry is `false`.
    pub open spec fn available(self, label: u8) -> bool {
        !self.active(label)
    }

    pub fn new() -> (reg: Self)
        ensures
            reg.entries@ == Map::<u8, bool>::empty(),
            forall|label: u8| reg.available(label),
    {
        ValueRegistry { entries: HashMap::new() }
    }

    pub fn is_available(&self, label: u8) -> (r: bool)
        ensures
            r == self.available(label),
    {
        match self.entries.get(&label) {
            Some(active) => !*active,
            None => true,
        }
    }

    /// Record that `label` now belongs to a visible invader. Marking a label
    /// that is already active would break the uniqueness discipline, so the
    /// generator must only call this on an available label.
    pub fn mark_active(&mut self, label: u8)
        requires
            old(self).available(label),
        ensures
            final(self).entries@ == old(self).entries@.insert(label, true),
            final(self).active(label),
            forall|l: u8| l != label ==> final(self).active(l) == old(self).active(l),
    {
        self.entries.insert(label, true);
        proof {
            assert forall|l: u8| l != label implies self.active(l) == old(self).active(l) by {
                assert(self.entries@.contains_key(l) == old(self).entries@.contains_key(l));
            }
        }
    }

    /// Record that `label` no longer belongs to a visible invader.
    pub fn mark_free(&mut self, label: u8)
        ensures
            final(self).entries@ == old(self).entries@.insert(label, false),
            final(self).available(label),
            forall|l: u8| l != label ==> final(self).active(l) == old(self).active(l),
    {
        self.entries.insert(label, false);
        proof {
            assert forall|l: u8| l != label implies self.active(l) == old(self).active(l) by {
                assert(self.entries@.contains_key(l) == old(self).entries@.contains_key(l));
            }
        }
    }
}

} // verus!
