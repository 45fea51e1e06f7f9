//! Fill tracking: counts insertions and queries against the sizing
//! parameters and derives overfill status, fill ratio and the live
//! false-positive estimate.

use crate::fixed::ONE_Q32;
use crate::params::{spec_fpr, BloomParameters};
use crate::text::{
    push_decimal, push_ten_thousandths, push_tenths, rate_micro, rate_tenths, spec_decimal,
    spec_rate_micro, spec_ratio_tenths, spec_ten_thousandths, spec_tenths,
};
use vstd::prelude::*;
use vstd::string::StringExecFns;

verus! {

/// Running counters for one filter: how many items went in and how many
/// queries ran, beside the parameters the filter was sized with.
#[derive(Debug, Clone)]
pub struct AccuracyTracker {
    params: BloomParameters,
    items_inserted: usize,
    queries_performed: usize,
}

impl AccuracyTracker {
    /// The parameters this tracker was built with.
    pub closed spec fn spec_params(&self) -> BloomParameters {
        self.params
    }

    /// The insertion count.
    pub closed spec fn spec_items_inserted(&self) -> usize {
        self.items_inserted
    }

    /// The query count.
    pub closed spec fn spec_queries_performed(&self) -> usize {
        self.queries_performed
    }

    /// The live false-positive estimate: zero while nothing was
    /// inserted, else the rate formula at the actual insertion count.
    pub open spec fn spec_actual_fpr(&self) -> nat {
        if self.spec_items_inserted() == 0 {
            0
        } else {
            spec_fpr(
                self.spec_params().num_bits as nat,
                self.spec_params().num_hashes as nat,
                self.spec_items_inserted() as nat,
            )
        }
    }

    /// Insertions against expectation, as a fraction of `2^32`; zero
    /// when no items were expected.
    pub open spec fn spec_fill_ratio_raw(&self) -> nat {
        if self.spec_params().expected_items == 0 {
            0
        } else {
            ((self.spec_items_inserted() as nat) * 0x1_0000_0000) / (
            self.spec_params().expected_items as nat)
        }
    }

    /// The fill ratio, clamped into a 64-bit value.
    pub open spec fn spec_fill_ratio(&self) -> nat {
        if self.spec_fill_ratio_raw() <= u64::MAX {
            self.spec_fill_ratio_raw()
        } else {
            u64::MAX as nat
        }
    }

    /// Create a tracker with both counters at zero.
    pub fn new(params: BloomParameters) -> (r: AccuracyTracker)
        ensures
            r.spec_params() == params,
            r.spec_items_inserted() == 0,
            r.spec_queries_performed() == 0,
    {
        AccuracyTracker { params, items_inserted: 0, queries_performed: 0 }
    }

    /// Count one insertion.
    pub fn record_insert(&mut self)
        requires
            old(self).spec_items_inserted() < usize::MAX,
        ensures
            final (self).spec_items_inserted() == old(self).spec_items_inserted() + 1,
            final (self).spec_queries_performed() == old(self).spec_queries_performed(),
            final (self).spec_params() == old(self).spec_params(),
    {
        self.items_inserted = self.items_inserted + 1;
    }

    /// Count one query.
    pub fn record_query(&mut self)
        requires
            old(self).spec_queries_performed() < usize::MAX,
        ensures
            final (self).spec_queries_performed() == old(self).spec_queries_performed() + 1,
            final (self).spec_items_inserted() == old(self).spec_items_inserted(),
            final (self).spec_params() == old(self).spec_params(),
    {
        self.queries_performed = self.queries_performed + 1;
    }

    /// The number of items inserted.
    pub fn items_inserted(&self) -> (r: usize)
        ensures
            r == self.spec_items_inserted(),
    {
        self.items_inserted
    }

    /// The number of queries performed.
    pub fn queries_performed(&self) -> (r: usize)
        ensures
            r == self.spec_queries_performed(),
    {
        self.queries_performed
    }

    /// The target false-positive rate, as a fraction of `2^32`.
    pub fn theoretical_fpr(&self) -> (r: u64)
        ensures
            r == self.spec_params().false_positive_rate,
    {
        self.params.false_positive_rate
    }

    /// The live false-positive estimate at the current insertion count,
    /// as a fraction of `2^32`.
    pub fn actual_fpr(&self) -> (r: u64)
        requires
            self.spec_params().num_bits >= 1,
            self.spec_params().num_hashes >= 1,
        ensures
            r == self.spec_actual_fpr(),
            r <= ONE_Q32,
    {
        if self.items_inserted == 0 {
            return 0;
        }
        self.params.actual_fpr(self.items_inserted)
    }

    /// Whether more items were inserted than the filter was sized for.
    pub fn is_overfilled(&self) -> (r: bool)
        ensures
            r == (self.spec_items_inserted() > self.spec_params().expected_items),
    {
        self.items_inserted > self.params.expected_items
    }

    /// Insertions against expectation, as a fraction of `2^32`, clamped
    /// into 64 bits; zero when no items were expected.
    pub fn fill_ratio(&self) -> (r: u64)
        ensures
            r == self.spec_fill_ratio(),
    {
        if self.params.expected_items == 0 {
            return 0;
        }
        let v: u128 = ((self.items_inserted as u128) * 0x1_0000_0000u128) / (
        self.params.expected_items as u128);
        if v > 0xffff_ffff_ffff_ffffu128 {
            0xffff_ffff_ffff_ffffu64
        } else {
            v as u64
        }
    }

    /// How many items past the expected count were inserted; zero while
    /// not overfilled.
    pub fn overfill_amount(&self) -> (r: usize)
        ensures
            r == if self.spec_items_inserted() > self.spec_params().expected_items {
                self.spec_items_inserted() - self.spec_params().expected_items
            } else {
                0
            },
    {
        if self.items_inserted > self.params.expected_items {
            self.items_inserted - self.params.expected_items
        } else {
            0
        }
    }

    /// The status line, exactly: insertion count over expectation, fill
    /// percentage to one place, query count, and both rates as
    /// percentages to four places.
    pub open spec fn spec_status_summary(&self) -> Seq<char> {
        "Inserted: "@ + spec_decimal(self.spec_items_inserted() as nat) + "/"@ + spec_decimal(
            self.spec_params().expected_items as nat,
        ) + " items ("@ + spec_tenths(spec_ratio_tenths(self.spec_fill_ratio())) + "% full), Queries: "@
            + spec_decimal(self.spec_queries_performed() as nat) + ", Theoretical FPR: "@
            + spec_ten_thousandths(
            spec_rate_micro(self.spec_params().false_positive_rate as nat),
        ) + "%, Actual FPR: "@ + spec_ten_thousandths(spec_rate_micro(self.spec_actual_fpr())) + "%"@
    }

    /// Render the status line.
    pub fn status_summary(&self) -> (r: String)
        requires
            self.spec_params().num_bits >= 1,
            self.spec_params().num_hashes >= 1,
        ensures
            r@ == self.spec_status_summary(),
    {
        let mut out: String = String::new();
        out.append("Inserted: ");
        push_decimal(&mut out, self.items_inserted as u64);
        out.append("/");
        push_decimal(&mut out, self.params.expected_items as u64);
        out.append(" items (");
        let fill: u64 = self.fill_ratio();
        let tenths: u64 = rate_tenths(fill);
        push_tenths(&mut out, tenths);
        out.append("% full), Queries: ");
        push_decimal(&mut out, self.queries_performed as u64);
        out.append(", Theoretical FPR: ");
        let tmicro: u64 = rate_micro(self.params.false_positive_rate);
        push_ten_thousandths(&mut out, tmicro);
        out.append("%, Actual FPR: ");
        let afpr: u64 = self.actual_fpr();
        let amicro: u64 = rate_micro(afpr);
        push_ten_thousandths(&mut out, amicro);
        out.append("%");
        out
    }

    /// Zero both counters, keeping the parameters.
    pub fn reset(&mut self)
        ensures
            final (self).spec_items_inserted() == 0,
            final (self).spec_queries_performed() == 0,
            final (self).spec_params() == old(self).spec_params(),
    {
        self.items_inserted = 0;
        self.queries_performed = 0;
    }
}

} // verus!
