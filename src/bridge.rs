//! Hand-off of callback payloads to the host application: a broadcast to
//! every open UI surface, where a failed delivery is recorded and the rest
//! go on.
use vstd::prelude::*;

verus! {

/// The positions of the failed deliveries, in order.
pub open spec fn failures(results: Seq<bool>) -> Seq<usize>
    decreases results.len(),
{
    if results.len() == 0 {
        Seq::empty()
    } else if results.last() {
        failures(results.drop_last())
    } else {
        failures(results.drop_last()).push((results.len() - 1) as usize)
    }
}

/// The number of successful deliveries.
pub open spec fn successes(results: Seq<bool>) -> nat
    decreases results.len(),
{
    if results.len() == 0 {
        0
    } else if results.last() {
        successes(results.drop_last()) + 1
    } else {
        successes(results.drop_last())
    }
}

/// What one broadcast achieved.
#[derive(Clone, Debug, PartialEq, Eq)]
pub struct DeliveryReport {
    /// How many surfaces received the payload.
    pub delivered: usize,
    /// The positions of the surfaces that did not, in order.
    pub failed: Vec<usize>,
}

impl DeliveryReport {
    /// Summarizes a broadcast from the outcome of each delivery, in the order
    /// the surfaces were tried; no outcome cuts the others short.
    pub fn from_results(results: &Vec<bool>) -> (r: DeliveryReport)
        ensures
            r.delivered == successes(results@),
            r.failed@ == failures(results@),
    {
        let mut delivered: usize = 0;
        let mut failed: Vec<usize> = Vec::new();
        let mut i: usize = 0;
        while i < results.len()
            invariant
                i <= results@.len(),
                delivered == successes(results@.subrange(0, i as int)),
                delivered <= i,
                failed@ == failures(results@.subrange(0, i as int)),
            decreases results@.len() - i,
        {
            let ghost sub = results@.subrange(0, i as int + 1);
            assert(sub.drop_last() =~= results@.subrange(0, i as int));
            assert(sub.last() == results@[i as int]);
            if results[i] {
                delivered += 1;
            } else {
                failed.push(i);
            }
            i += 1;
        }
        assert(results@.subrange(0, results@.len() as int) =~= results@);
        DeliveryReport { delivered, failed }
    }

    /// Whether every surface received the payload.
    pub fn complete(&self) -> (r: bool)
        ensures
            r == (self.failed@.len() == 0),
    {
        self.failed.len() == 0
    }
}

} // verus!
