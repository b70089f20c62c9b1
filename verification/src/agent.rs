//! The domain record: an `Agent` with an identifier, two transaction
//! counters and an ordered queue of transactions. The record is immutable
//! after construction; every handle to it observes the same field values.

use vstd::prelude::*;
use std::collections::VecDeque;
use crate::timestamp::Timestamp;
use crate::sources::now_timestamp;
use crate::sources::random_record_id;

verus! {

/// One entry of the record's queue: an identifier and its creation time.
#[derive(Clone, Copy, PartialEq, Eq, Structural, Debug)]
pub struct Transaction {
    pub id: u16,
    pub transaction_date: Timestamp,
}

impl Transaction {
    pub open spec fn wf(self) -> bool {
        self.transaction_date.wf()
    }
}

/// The mathematical model of a record: its four fields, with the queue as
/// a sequence in insertion order. Contracts and the projection grammar are
/// stated over this model.
pub struct AgentModel {
    pub id: u16,
    pub transactions_closed: i32,
    pub transactions_open: i32,
    pub queue: Seq<Transaction>,
}

impl AgentModel {
    /// The identifier stays in `[0, 1000]`, the counters are never negative,
    /// and every queued transaction carries a well-formed timestamp.
    pub open spec fn wf(self) -> bool {
        &&& self.id <= 1000
        &&& 0 <= self.transactions_closed
        &&& 0 <= self.transactions_open
        &&& forall|i: int| 0 <= i < self.queue.len() ==> (#[trigger] self.queue[i]).wf()
    }
}

/// The domain record. Constructed once, then only ever read.
#[derive(Debug)]
pub struct Agent {
    pub id: u16,
    pub transactions_closed: i32,
    pub transactions_open: i32,
    pub transaction_queue: VecDeque<Transaction>,
}

impl Agent {
    /// The record's value as a mathematical model.
    pub open spec fn model(self) -> AgentModel {
        AgentModel {
            id: self.id,
            transactions_closed: self.transactions_closed,
            transactions_open: self.transactions_open,
            queue: self.transaction_queue@,
        }
    }

    /// See `AgentModel::wf`.
    pub open spec fn wf(self) -> bool {
        self.model().wf()
    }

    /// The record's queue as a mathematical sequence, in insertion order.
    pub open spec fn queue_seq(self) -> Seq<Transaction> {
        self.transaction_queue@
    }

    /// Decides `wf` executably.
    pub fn is_well_formed(&self) -> (r: bool)
        ensures
            r == self.wf(),
    {
        if self.id > 1000 || self.transactions_closed < 0 || self.transactions_open < 0 {
            return false;
        }
        let n = self.transaction_queue.len();
        let mut i: usize = 0;
        while i < n
            invariant
                0 <= i <= n,
                n == self.transaction_queue@.len(),
                forall|j: int| 0 <= j < i ==> (#[trigger] self.transaction_queue@[j]).wf(),
            decreases n - i,
        {
            if !self.transaction_queue[i].transaction_date.is_well_formed() {
                proof {
                    assert(!(self.model().queue[i as int]).wf());
                }
                return false;
            }
            i = i + 1;
        }
        proof {
            assert forall|j: int| 0 <= j < self.model().queue.len() implies (
            #[trigger] self.model().queue[j]).wf() by {
                assert(self.transaction_queue@[j].wf());
            }
        }
        true
    }

    /// Constructs the record in its canonical shape: the given identifier,
    /// both counters zero, and a queue of exactly two transactions, with
    /// identifiers 1 and 2 in that order, stamped with the given times.
    pub fn new(id: u16, first_date: Timestamp, second_date: Timestamp) -> (r: Agent)
        requires
            id <= 1000,
            first_date.wf(),
            second_date.wf(),
        ensures
            r.wf(),
            r.id == id,
            r.transactions_closed == 0,
            r.transactions_open == 0,
            r.queue_seq() =~= seq![
                Transaction { id: 1, transaction_date: first_date },
                Transaction { id: 2, transaction_date: second_date },
            ],
    {
        let mut queue: VecDeque<Transaction> = VecDeque::new();
        queue.push_back(Transaction { id: 1, transaction_date: first_date });
        queue.push_back(Transaction { id: 2, transaction_date: second_date });
        Agent { id, transactions_closed: 0, transactions_open: 0, transaction_queue: queue }
    }

    /// Constructs a record as the production entry point does: a random
    /// identifier in `[0, 1000]` and transactions stamped with the current
    /// time. The shape is deterministic even though the inputs are not.
    pub fn fresh() -> (r: Agent)
        ensures
            r.wf(),
            r.id <= 1000,
            r.transactions_closed == 0,
            r.transactions_open == 0,
            r.queue_seq().len() == 2,
            r.queue_seq()[0].id == 1,
            r.queue_seq()[1].id == 2,
    {
        let id = random_record_id();
        let first_date = now_timestamp();
        let second_date = now_timestamp();
        Agent::new(id, first_date, second_date)
    }
}

} // verus!
