//! Process-wide counters: reconciliations by phase, restored taints, and
//! errors. The driver owns one instance per process and renders it for
//! exposition; every update saturates instead of wrapping.

use vstd::prelude::*;

verus! {

/// A saturating increment by `n`.
pub open spec fn spec_sat_add(x: u64, n: u64) -> u64 {
    if x + n > u64::MAX {
        u64::MAX
    } else {
        (x + n) as u64
    }
}

fn sat_add(x: u64, n: u64) -> (r: u64)
    ensures
        r == spec_sat_add(x, n),
{
    if x <= u64::MAX - n {
        x + n
    } else {
        u64::MAX
    }
}

/// The counters this service reports.
pub struct Metrics {
    /// Total taints restored by Apply patches.
    pub taints_restored_total: u64,
    /// Apply reconciliations observed.
    pub reconciliations_apply: u64,
    /// Cleanup reconciliations observed.
    pub reconciliations_cleanup: u64,
    /// Failed attempts of any kind.
    pub errors_total: u64,
}

/// Fresh counters, all zero; called once at process start.
pub fn init_metrics() -> (m: Metrics)
    ensures
        m.taints_restored_total == 0,
        m.reconciliations_apply == 0,
        m.reconciliations_cleanup == 0,
        m.errors_total == 0,
{
    Metrics {
        taints_restored_total: 0,
        reconciliations_apply: 0,
        reconciliations_cleanup: 0,
        errors_total: 0,
    }
}

impl Metrics {
    /// Counts one Apply reconciliation.
    pub fn record_apply(&mut self)
        ensures
            final(self).reconciliations_apply == spec_sat_add(old(self).reconciliations_apply, 1),
            final(self).taints_restored_total == old(self).taints_restored_total,
            final(self).reconciliations_cleanup == old(self).reconciliations_cleanup,
            final(self).errors_total == old(self).errors_total,
    {
        self.reconciliations_apply = sat_add(self.reconciliations_apply, 1);
    }

    /// Counts one Cleanup reconciliation.
    pub fn record_cleanup(&mut self)
        ensures
            final(self).reconciliations_cleanup == spec_sat_add(
                old(self).reconciliations_cleanup,
                1,
            ),
            final(self).taints_restored_total == old(self).taints_restored_total,
            final(self).reconciliations_apply == old(self).reconciliations_apply,
            final(self).errors_total == old(self).errors_total,
    {
        self.reconciliations_cleanup = sat_add(self.reconciliations_cleanup, 1);
    }

    /// Counts `n` restored taints.
    pub fn record_restored(&mut self, n: u64)
        ensures
            final(self).taints_restored_total == spec_sat_add(old(self).taints_restored_total, n),
            final(self).reconciliations_apply == old(self).reconciliations_apply,
            final(self).reconciliations_cleanup == old(self).reconciliations_cleanup,
            final(self).errors_total == old(self).errors_total,
    {
        self.taints_restored_total = sat_add(self.taints_restored_total, n);
    }

    /// Counts one failed attempt.
    pub fn record_error(&mut self)
        ensures
            final(self).errors_total == spec_sat_add(old(self).errors_total, 1),
            final(self).taints_restored_total == old(self).taints_restored_total,
            final(self).reconciliations_apply == old(self).reconciliations_apply,
            final(self).reconciliations_cleanup == old(self).reconciliations_cleanup,
    {
        self.errors_total = sat_add(self.errors_total, 1);
    }
}

} // verus!
