//! Verdicts of the parity probes that compare a resident device path with the CPU
//! path. A key that failed its probe is kept off the device; an unprobed one is not.

use std::collections::HashMap;

use vstd::prelude::*;

verus! {

broadcast use vstd::std_specs::hash::group_hash_axioms;

/// Verdicts by probe key: `true` for a pass.
#[derive(Debug, Clone)]
pub struct ResidentParityVerdicts {
    verdicts: HashMap<u64, bool>,
}

impl View for ResidentParityVerdicts {
    type V = Map<u64, bool>;

    closed spec fn view(&self) -> Map<u64, bool> {
        self.verdicts@
    }
}

impl ResidentParityVerdicts {
    /// No verdict yet.
    pub fn new() -> (verdicts: Self)
        ensures
            verdicts@ == Map::<u64, bool>::empty(),
    {
        ResidentParityVerdicts { verdicts: HashMap::new() }
    }

    /// Records the verdict of a probe, in place of an earlier one.
    pub fn insert(&mut self, key: u64, passed: bool)
        ensures
            final(self)@ == old(self)@.insert(key, passed),
    {
        self.verdicts.insert(key, passed);
    }

    /// Forgets the verdict of a probe.
    pub fn remove(&mut self, key: u64)
        ensures
            final(self)@ == old(self)@.remove(key),
    {
        self.verdicts.remove(&key);
    }
}

/// The probe of `key` failed.
pub open spec fn failed(verdicts: Map<u64, bool>, key: u64) -> bool {
    verdicts.contains_key(key) && !verdicts[key]
}

/// Whether the device path is forbidden for `key`.
pub fn resident_parity_forbids(verdicts: &ResidentParityVerdicts, key: u64) -> (forbidden: bool)
    ensures
        forbidden == failed(verdicts@, key),
{
    match verdicts.verdicts.get(&key) {
        Some(passed) => !*passed,
        None => false,
    }
}

/// Records a failed probe. Used too where the probe itself broke off.
pub fn record_resident_parity_fail(verdicts: &mut ResidentParityVerdicts, key: u64)
    ensures
        final(verdicts)@ == old(verdicts)@.insert(key, false),
{
    verdicts.insert(key, false);
}

/// A recorded failure forbids its own key, and changes nothing for others.
pub proof fn a_failure_forbids_its_key(verdicts: Map<u64, bool>, key: u64, other: u64)
    ensures
        failed(verdicts.insert(key, false), key),
        other != key ==> failed(verdicts.insert(key, false), other) == failed(verdicts, other),
{
}

} // verus!
