//! A single-process accumulator pipeline: inbound numeric update requests are
//! validated by a gateway, carried through a bounded FIFO dispatch queue, and
//! applied one at a time to a shared ledger that keeps a running sum and a
//! running difference per identifier.

pub mod ledger;
pub mod pipeline;
pub mod queue;
pub mod request;
