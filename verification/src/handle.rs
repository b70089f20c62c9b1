//! Reference-counted handles to one shared `Agent` record.
//!
//! `SingleHandle` is the single-owner variant: its ownership cell is an
//! `Rc`, whose count updates are plain, and the type cannot cross into an
//! independently scheduled worker (it is not `Send`), which makes misuse of
//! the non-atomic count structurally impossible. `SharedHandle` is the
//! multi-owner variant: its cell is an `Arc`, whose count updates are atomic
//! read-modify-write steps, so handles may be handed to workers.
//!
//! Every handle of one record aliases the same allocation: no handle holds a
//! private copy, so all handles always observe identical field values.

use vstd::prelude::*;
use std::rc::Rc;
use std::sync::Arc;
use crate::agent::Agent;
use crate::json::agent_chars;
use crate::json::render_agent;

verus! {

/// Relies on std's `Rc::clone`: the clone points at the same allocation as
/// the original, so it carries the same value.
#[verifier::external_body]
fn rc_clone(cell: &Rc<Agent>) -> (r: Rc<Agent>)
    ensures
        r == *cell,
{
    Rc::clone(cell)
}

/// Relies on std's `Deref` impl for `Rc`: dereferencing borrows the shared
/// allocation's value.
#[verifier::external_body]
fn rc_borrow(cell: &Rc<Agent>) -> (r: &Agent)
    ensures
        *r == **cell,
{
    &**cell
}

/// Relies on std's `Rc::strong_count`: it returns the number of strong
/// pointers to the allocation, and `cell` itself is one of them.
#[verifier::external_body]
fn rc_strong_count(cell: &Rc<Agent>) -> (r: usize)
    ensures
        r >= 1,
{
    Rc::strong_count(cell)
}

/// Relies on std's `Arc::clone`: the clone points at the same allocation as
/// the original, so it carries the same value.
#[verifier::external_body]
fn arc_clone(cell: &Arc<Agent>) -> (r: Arc<Agent>)
    ensures
        r == *cell,
{
    Arc::clone(cell)
}

/// Relies on std's `Deref` impl for `Arc`: dereferencing borrows the shared
/// allocation's value.
#[verifier::external_body]
fn arc_borrow(cell: &Arc<Agent>) -> (r: &Agent)
    ensures
        *r == **cell,
{
    &**cell
}

/// Relies on std's `Arc::strong_count`: it returns the number of strong
/// pointers to the allocation, and `cell` itself is one of them.
#[verifier::external_body]
fn arc_strong_count(cell: &Arc<Agent>) -> (r: usize)
    ensures
        r >= 1,
{
    Arc::strong_count(cell)
}

/// A single-owner handle: clones may only be made and read within one
/// sequential thread of execution, which the type itself enforces.
pub struct SingleHandle {
    cell: Rc<Agent>,
}

impl SingleHandle {
    /// The record this handle aliases.
    pub closed spec fn record(self) -> Agent {
        *self.cell
    }

    pub open spec fn wf(self) -> bool {
        self.record().wf()
    }

    /// Wraps a freshly constructed record; the live-count starts at 1.
    pub fn wrap(record: Agent) -> (r: SingleHandle)
        ensures
            r.record() == record,
    {
        SingleHandle { cell: Rc::new(record) }
    }

    /// Produces a new handle aliasing the same record, incrementing the
    /// live-count. The aliased record is unchanged: the clone — and every
    /// other handle — observes exactly the field values this handle does.
    pub fn clone_handle(&self) -> (r: SingleHandle)
        ensures
            r.record() == self.record(),
    {
        SingleHandle { cell: rc_clone(&self.cell) }
    }

    /// Borrows the record's current field values. Every handle of one
    /// record reads the same allocation, so concurrent reads never race.
    pub fn read(&self) -> (r: &Agent)
        ensures
            *r == self.record(),
    {
        rc_borrow(&self.cell)
    }

    /// The live-count at the call point. At least this handle is alive.
    pub fn live_count(&self) -> (r: usize)
        ensures
            r >= 1,
    {
        rc_strong_count(&self.cell)
    }

    /// Renders this handle's view of the record as its structured-text
    /// projection. Every handle of one record renders the same text.
    pub fn render_json(&self) -> (s: String)
        requires
            self.wf(),
        ensures
            s@ == agent_chars(self.record().model()),
    {
        render_agent(self.read())
    }
}

/// A multi-owner handle: clones may be transferred to independently
/// scheduled workers; count updates on clone and release are atomic.
pub struct SharedHandle {
    cell: Arc<Agent>,
}

impl SharedHandle {
    /// The record this handle aliases.
    pub closed spec fn record(self) -> Agent {
        *self.cell
    }

    pub open spec fn wf(self) -> bool {
        self.record().wf()
    }

    /// Wraps a freshly constructed record; the live-count starts at 1.
    pub fn wrap(record: Agent) -> (r: SharedHandle)
        ensures
            r.record() == record,
    {
        SharedHandle { cell: Arc::new(record) }
    }

    /// Produces a new handle aliasing the same record, atomically
    /// incrementing the live-count. The aliased record is unchanged: the
    /// clone — and every other handle — observes exactly the field values
    /// this handle does.
    pub fn clone_handle(&self) -> (r: SharedHandle)
        ensures
            r.record() == self.record(),
    {
        SharedHandle { cell: arc_clone(&self.cell) }
    }

    /// Borrows the record's current field values. The record is immutable
    /// after construction, so reads through any number of handles on any
    /// number of workers never race.
    pub fn read(&self) -> (r: &Agent)
        ensures
            *r == self.record(),
    {
        arc_borrow(&self.cell)
    }

    /// A snapshot of the live-count. The value is exact only if no clone or
    /// release races with the read; at least this handle is alive.
    pub fn live_count(&self) -> (r: usize)
        ensures
            r >= 1,
    {
        arc_strong_count(&self.cell)
    }

    /// Renders this handle's view of the record as its structured-text
    /// projection. Every handle of one record renders the same text.
    pub fn render_json(&self) -> (s: String)
        requires
            self.wf(),
        ensures
            s@ == agent_chars(self.record().model()),
    {
        render_agent(self.read())
    }
}

/// Law: handles always agree. Any two single-owner handles of the same
/// record — for instance an original and any handle cloned from it —
/// observe identical field values, because neither holds a private copy.
pub proof fn lemma_handles_agree(a: SingleHandle, b: SingleHandle)
    requires
        a.record() == b.record(),
    ensures
        a.record().id == b.record().id,
        a.record().transactions_closed == b.record().transactions_closed,
        a.record().transactions_open == b.record().transactions_open,
        a.record().queue_seq() == b.record().queue_seq(),
{
}

/// Law: the same, for multi-owner handles — whatever workers hold them,
/// and in whatever order they read.
pub proof fn lemma_shared_handles_agree(a: SharedHandle, b: SharedHandle)
    requires
        a.record() == b.record(),
    ensures
        a.record().id == b.record().id,
        a.record().transactions_closed == b.record().transactions_closed,
        a.record().transactions_open == b.record().transactions_open,
        a.record().queue_seq() == b.record().queue_seq(),
{
}

} // verus!
