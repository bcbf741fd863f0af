//! The order ledger: the single source of truth for in-flight and recent
//! orders, reconciling asynchronous venue pushes by client request id or
//! venue order id. Every transition is exact; terminal entries are frozen,
//! and a failed operation leaves the ledger unchanged.

use vstd::prelude::*;
use crate::decimal::Dec;
use crate::decimal::dec_add;
use crate::decimal::dec_ge;
use crate::decimal::mant_at;
use crate::decimal::max_scale;
use crate::types::HandleError;
use crate::types::Order;
use crate::types::OrdStatus;

verus! {

/// A venue order-state push, already decoded to plain values.
#[derive(Clone, Debug)]
pub struct OrderPush {
    pub order_id: String,
    pub order_link_id: String,
    pub status: OrdStatus,
}

/// A venue execution (fill) report, already decoded to plain values.
#[derive(Clone, Debug)]
pub struct ExecPush {
    pub order_id: String,
    pub order_link_id: String,
    pub exec_qty: Dec,
}

/// Field-by-field equality of ledger entries, with strings by content.
pub open spec fn ord_eq(a: Order, b: Order) -> bool {
    &&& a.asset_no == b.asset_no
    &&& a.client_req_id@ == b.client_req_id@
    &&& match (a.exch_order_id, b.exch_order_id) {
        (Option::None, Option::None) => true,
        (Option::Some(x), Option::Some(y)) => x@ == y@,
        _ => false,
    }
    &&& a.side == b.side
    &&& a.price == b.price
    &&& a.qty == b.qty
    &&& a.filled == b.filled
    &&& a.status == b.status
    &&& a.cancel_pending == b.cancel_pending
    &&& a.pre_cancel == b.pre_cancel
}

impl Order {
    /// An exact copy of the entry, for re-export as an event.
    pub fn duplicate(&self) -> (r: Order)
        ensures
            ord_eq(r, *self),
    {
        Order {
            asset_no: self.asset_no,
            client_req_id: self.client_req_id.clone(),
            exch_order_id: match &self.exch_order_id {
                Option::Some(s) => Option::Some(s.clone()),
                Option::None => Option::None,
            },
            side: self.side,
            price: self.price,
            qty: self.qty,
            filled: self.filled,
            status: self.status,
            cancel_pending: self.cancel_pending,
            pre_cancel: self.pre_cancel,
        }
    }
}

/// The in-memory order store shared by the private and trade handlers.
pub struct OrderLedger {
    entries: Vec<Order>,
}

impl View for OrderLedger {
    type V = Seq<Order>;

    closed spec fn view(&self) -> Seq<Order> {
        self.entries@
    }
}

/// What `update_order` does to the matched entry: adopt the venue-reported
/// state, bind the venue order id without losing the request-id binding,
/// and clear a pending cancel once the reported state settles it.
pub open spec fn order_push_result(o: Order, upd: OrderPush) -> Order {
    Order {
        exch_order_id: Option::Some(upd.order_id),
        status: upd.status,
        cancel_pending: if upd.status.spec_is_terminal() || upd.status == OrdStatus::Canceled {
            false
        } else {
            o.cancel_pending
        },
        ..o
    }
}

/// What `update_submit_fail` does to the matched entry.
pub open spec fn submit_fail_result(o: Order) -> Order {
    Order { status: OrdStatus::SubmitRejected, cancel_pending: false, ..o }
}

/// What `update_cancel_fail` does to the matched entry: restore the
/// pre-cancel live state without destroying the order.
pub open spec fn cancel_fail_result(o: Order) -> Order {
    Order { status: o.pre_cancel, cancel_pending: false, ..o }
}

/// What `update_execution` does to the matched entry once the new filled
/// quantity is known: accumulate, and settle to `Filled` when done.
pub open spec fn exec_result(o: Order, new_filled: Dec, done: bool) -> Order {
    Order {
        filled: new_filled,
        status: if done {
            OrdStatus::Filled
        } else {
            OrdStatus::PartiallyFilled
        },
        cancel_pending: if done {
            false
        } else {
            o.cancel_pending
        },
        ..o
    }
}

pub open spec fn has_client_id(s: Seq<Order>, id: Seq<char>) -> bool {
    exists|i: int| 0 <= i < s.len() && (#[trigger] s[i]).client_req_id@ == id
}

pub open spec fn has_exch_id(s: Seq<Order>, id: Seq<char>) -> bool {
    exists|i: int|
        0 <= i < s.len() && ((#[trigger] s[i]).exch_order_id matches Option::Some(e) && e@ == id)
}

/// `post` is `pre` with entry `i` replaced (up to string representation)
/// by `new_e`, everything else untouched.
pub open spec fn updated_at(pre: Seq<Order>, post: Seq<Order>, i: int, new_e: Order) -> bool {
    &&& post.len() == pre.len()
    &&& 0 <= i < pre.len()
    &&& ord_eq(post[i], new_e)
    &&& forall|j: int| 0 <= j < pre.len() && j != i ==> post[j] == pre[j]
}

/// Terminal entries never transition again.
pub open spec fn terminal_frozen(pre: Seq<Order>, post: Seq<Order>) -> bool {
    pre.len() == post.len() && forall|i: int|
        0 <= i < pre.len() && (#[trigger] pre[i]).status.spec_is_terminal() ==> post[i] == pre[i]
}

impl OrderLedger {
    /// The ledger never holds two entries for the same client request id —
    /// in particular never two live ones.
    pub open spec fn wf(self) -> bool {
        forall|i: int, j: int|
            0 <= i < j < self@.len() ==> (#[trigger] self@[i]).client_req_id@ != (
            #[trigger] self@[j]).client_req_id@
    }

    pub fn new() -> (r: OrderLedger)
        ensures
            r.wf(),
            r@.len() == 0,
    {
        OrderLedger { entries: Vec::new() }
    }

    /// How many entries the ledger holds.
    pub fn len(&self) -> (r: usize)
        ensures
            r == self@.len(),
    {
        self.entries.len()
    }

    /// A copy of the entry at `i`, for inspection.
    pub fn entry_at(&self, i: usize) -> (r: Order)
        requires
            i < self@.len(),
        ensures
            ord_eq(r, self@[i as int]),
    {
        self.entries[i].duplicate()
    }

    fn find_by_client(&self, id: &String) -> (r: Option<usize>)
        ensures
            match r {
                Some(i) => i < self@.len() && self@[i as int].client_req_id@ == id@,
                None => !has_client_id(self@, id@),
            },
    {
        let mut i: usize = 0;
        while i < self.entries.len()
            invariant
                i <= self@.len(),
                forall|k: int| 0 <= k < i ==> (#[trigger] self@[k]).client_req_id@ != id@,
            decreases self@.len() - i,
        {
            if self.entries[i].client_req_id == *id {
                return Some(i);
            }
            i = i + 1;
        }
        None
    }

    fn find_by_exch(&self, id: &String) -> (r: Option<usize>)
        ensures
            match r {
                Some(i) => i < self@.len() && (self@[i as int].exch_order_id
                    matches Option::Some(e) && e@ == id@),
                None => !has_exch_id(self@, id@),
            },
    {
        let mut i: usize = 0;
        while i < self.entries.len()
            invariant
                i <= self@.len(),
                forall|k: int|
                    0 <= k < i ==> !((#[trigger] self@[k]).exch_order_id matches Option::Some(e)
                        && e@ == id@),
            decreases self@.len() - i,
        {
            match &self.entries[i].exch_order_id {
                Option::Some(e) => {
                    if *e == *id {
                        return Some(i);
                    }
                },
                Option::None => {},
            }
            i = i + 1;
        }
        None
    }

    /// Either lookup key resolves to the same entry once both are known:
    /// the client request id takes precedence, then the venue order id.
    fn find_match(&self, link_id: &String, order_id: &String) -> (r: Option<usize>)
        ensures
            match r {
                Some(i) => i < self@.len() && (self@[i as int].client_req_id@ == link_id@ || (
                self@[i as int].exch_order_id matches Option::Some(e) && e@ == order_id@)),
                None => !has_client_id(self@, link_id@) && !has_exch_id(self@, order_id@),
            },
    {
        match self.find_by_client(link_id) {
            Some(i) => Some(i),
            None => self.find_by_exch(order_id),
        }
    }

    /// Registers a new order under its client request id. Fails, leaving
    /// the ledger unchanged, iff the id is already present.
    pub fn new_order(&mut self, order: Order) -> (r: Result<(), HandleError>)
        requires
            old(self).wf(),
        ensures
            final(self).wf(),
            match r {
                Ok(()) => !has_client_id(old(self)@, order.client_req_id@) && final(self)@
                    == old(self)@.push(order),
                Err(e) => e == HandleError::DuplicateClientId && final(self)@ == old(self)@
                    && has_client_id(old(self)@, order.client_req_id@),
            },
    {
        match self.find_by_client(&order.client_req_id) {
            Some(_) => Err(HandleError::DuplicateClientId),
            None => {
                self.entries.push(order);
                Ok(())
            },
        }
    }

    /// Marks a cancel as outstanding on a live entry, remembering the
    /// pre-cancel state so a venue cancel rejection can restore it.
    pub fn mark_cancel_pending(&mut self, req_id: &String) -> (r: Result<(), HandleError>)
        requires
            old(self).wf(),
        ensures
            final(self).wf(),
            terminal_frozen(old(self)@, final(self)@),
            match r {
                Ok(()) => exists|i: int|
                    0 <= i < old(self)@.len() && (#[trigger] old(self)@[i]).client_req_id@
                        == req_id@ && !old(self)@[i].status.spec_is_terminal() && updated_at(
                        old(self)@,
                        final(self)@,
                        i,
                        if old(self)@[i].cancel_pending {
                            old(self)@[i]
                        } else {
                            Order {
                                cancel_pending: true,
                                pre_cancel: old(self)@[i].status,
                                ..old(self)@[i]
                            }
                        },
                    ),
                Err(e) => final(self)@ == old(self)@ && (e == HandleError::OrderNotFound
                    <==> !has_client_id(old(self)@, req_id@)) && (e == HandleError::StateInvalid
                    ==> has_client_id(old(self)@, req_id@)),
            },
    {
        let idx = match self.find_by_client(req_id) {
            Some(i) => i,
            None => {
                return Err(HandleError::OrderNotFound);
            },
        };
        if self.entries[idx].status.is_terminal() {
            return Err(HandleError::StateInvalid);
        }
        if self.entries[idx].cancel_pending {
            return Ok(());
        }
        let st = self.entries[idx].status;
        let mut entry = self.entries[idx].duplicate();
        entry.cancel_pending = true;
        entry.pre_cancel = st;
        let ghost pre = self@;
        self.entries.set(idx, entry);
        proof {
            lemma_same_ids_wf(pre, self@);
        }
        Ok(())
    }

    /// Applies a venue order-state push to the entry matched by client or
    /// venue id; an unknown id is an error and leaves the ledger unchanged.
    pub fn update_order(&mut self, upd: &OrderPush) -> (r: Result<(u64, Order), HandleError>)
        requires
            old(self).wf(),
        ensures
            final(self).wf(),
            terminal_frozen(old(self)@, final(self)@),
            match r {
                Ok(res) => exists|i: int|
                    0 <= i < old(self)@.len() && ((#[trigger] old(self)@[i]).client_req_id@
                        == upd.order_link_id@ || (old(self)@[i].exch_order_id
                        matches Option::Some(e) && e@ == upd.order_id@))
                        && !old(self)@[i].status.spec_is_terminal() && updated_at(
                        old(self)@,
                        final(self)@,
                        i,
                        order_push_result(old(self)@[i], *upd),
                    ) && res.0 == old(self)@[i].asset_no && ord_eq(
                        res.1,
                        order_push_result(old(self)@[i], *upd),
                    ),
                Err(e) => final(self)@ == old(self)@ && (e == HandleError::OrderNotFound
                    <==> !has_client_id(old(self)@, upd.order_link_id@) && !has_exch_id(
                    old(self)@,
                    upd.order_id@,
                )) && (e != HandleError::OrderNotFound ==> e == HandleError::StateInvalid),
            },
    {
        let idx = match self.find_match(&upd.order_link_id, &upd.order_id) {
            Some(i) => i,
            None => {
                return Err(HandleError::OrderNotFound);
            },
        };
        if self.entries[idx].status.is_terminal() {
            return Err(HandleError::StateInvalid);
        }
        let asset_no = self.entries[idx].asset_no;
        let mut entry = self.entries[idx].duplicate();
        entry.exch_order_id = Some(upd.order_id.clone());
        entry.status = upd.status;
        if upd.status.is_terminal() || upd.status == OrdStatus::Canceled {
            entry.cancel_pending = false;
        }
        let ret = entry.duplicate();
        let ghost pre = self@;
        self.entries.set(idx, entry);
        proof {
            lemma_same_ids_wf(pre, self@);
        }
        Ok((asset_no, ret))
    }

    /// Accumulates a fill on the matched entry, transitioning it to
    /// `PartiallyFilled` or `Filled`; an unknown id is an error, and every
    /// error leaves the ledger unchanged.
    pub fn update_execution(&mut self, upd: &ExecPush) -> (r: Result<(u64, Order), HandleError>)
        requires
            old(self).wf(),
        ensures
            final(self).wf(),
            terminal_frozen(old(self)@, final(self)@),
            match r {
                Ok(res) => exists|i: int|
                    {
                        let o = (#[trigger] old(self)@[i]);
                        let ms = max_scale(o.filled, upd.exec_qty);
                        let nf = Dec {
                            neg: false,
                            mant: (mant_at(o.filled, ms) + mant_at(upd.exec_qty, ms)) as u64,
                            scale: ms as u32,
                        };
                        let ms2 = max_scale(nf, o.qty);
                        let done = mant_at(nf, ms2) >= mant_at(o.qty, ms2);
                        &&& 0 <= i < old(self)@.len()
                        &&& (o.client_req_id@ == upd.order_link_id@ || (o.exch_order_id
                            matches Option::Some(e) && e@ == upd.order_id@))
                        &&& !o.status.spec_is_terminal()
                        &&& !o.filled.neg && !o.qty.neg && !upd.exec_qty.neg
                        &&& mant_at(o.filled, ms) + mant_at(upd.exec_qty, ms) <= u64::MAX
                        &&& updated_at(old(self)@, final(self)@, i, exec_result(o, nf, done))
                        &&& res.0 == o.asset_no
                        &&& ord_eq(res.1, exec_result(o, nf, done))
                    },
                Err(e) => final(self)@ == old(self)@ && (e == HandleError::OrderNotFound
                    <==> !has_client_id(old(self)@, upd.order_link_id@) && !has_exch_id(
                    old(self)@,
                    upd.order_id@,
                )) && (e == HandleError::OrderNotFound || e == HandleError::StateInvalid || e
                    == HandleError::Numeric),
            },
    {
        let idx = match self.find_match(&upd.order_link_id, &upd.order_id) {
            Some(i) => i,
            None => {
                return Err(HandleError::OrderNotFound);
            },
        };
        if self.entries[idx].status.is_terminal() {
            return Err(HandleError::StateInvalid);
        }
        if self.entries[idx].filled.neg || self.entries[idx].qty.neg || upd.exec_qty.neg {
            return Err(HandleError::Numeric);
        }
        let nf = match dec_add(&self.entries[idx].filled, &upd.exec_qty) {
            Some(v) => v,
            None => {
                return Err(HandleError::Numeric);
            },
        };
        let done = match dec_ge(&nf, &self.entries[idx].qty) {
            Some(b) => b,
            None => {
                return Err(HandleError::Numeric);
            },
        };
        let asset_no = self.entries[idx].asset_no;
        let mut entry = self.entries[idx].duplicate();
        entry.filled = nf;
        entry.status = if done {
            OrdStatus::Filled
        } else {
            OrdStatus::PartiallyFilled
        };
        if done {
            entry.cancel_pending = false;
        }
        let ret = entry.duplicate();
        let ghost pre = self@;
        self.entries.set(idx, entry);
        proof {
            lemma_same_ids_wf(pre, self@);
        }
        Ok((asset_no, ret))
    }

    /// A venue submit rejection: only legal while the entry is `New` or
    /// `Submitted`; an unknown id returns an error and leaves the ledger
    /// unchanged.
    pub fn update_submit_fail(&mut self, req_id: &String) -> (r: Result<(u64, Order), HandleError>)
        requires
            old(self).wf(),
        ensures
            final(self).wf(),
            terminal_frozen(old(self)@, final(self)@),
            match r {
                Ok(res) => exists|i: int|
                    0 <= i < old(self)@.len() && (#[trigger] old(self)@[i]).client_req_id@
                        == req_id@ && (old(self)@[i].status == OrdStatus::New || old(self)@[i].status
                        == OrdStatus::Submitted) && updated_at(
                        old(self)@,
                        final(self)@,
                        i,
                        submit_fail_result(old(self)@[i]),
                    ) && res.0 == old(self)@[i].asset_no && ord_eq(
                        res.1,
                        submit_fail_result(old(self)@[i]),
                    ),
                Err(e) => final(self)@ == old(self)@ && (e == HandleError::OrderNotFound
                    <==> !has_client_id(old(self)@, req_id@)) && (e == HandleError::StateInvalid
                    ==> exists|i: int|
                        0 <= i < old(self)@.len() && (#[trigger] old(self)@[i]).client_req_id@
                            == req_id@ && !(old(self)@[i].status == OrdStatus::New
                            || old(self)@[i].status == OrdStatus::Submitted)) && (e
                    != HandleError::OrderNotFound ==> e == HandleError::StateInvalid),
            },
    {
        let idx = match self.find_by_client(req_id) {
            Some(i) => i,
            None => {
                return Err(HandleError::OrderNotFound);
            },
        };
        let ok_state = match self.entries[idx].status {
            OrdStatus::New => true,
            OrdStatus::Submitted => true,
            _ => false,
        };
        if !ok_state {
            return Err(HandleError::StateInvalid);
        }
        let asset_no = self.entries[idx].asset_no;
        let mut entry = self.entries[idx].duplicate();
        entry.status = OrdStatus::SubmitRejected;
        entry.cancel_pending = false;
        let ret = entry.duplicate();
        let ghost pre = self@;
        self.entries.set(idx, entry);
        proof {
            lemma_same_ids_wf(pre, self@);
        }
        Ok((asset_no, ret))
    }

    /// A venue cancel rejection: restores the cancel-pending entry to its
    /// pre-cancel live state (the order is not destroyed); an unknown id
    /// returns an error and leaves the ledger unchanged.
    pub fn update_cancel_fail(&mut self, req_id: &String) -> (r: Result<(u64, Order), HandleError>)
        requires
            old(self).wf(),
        ensures
            final(self).wf(),
            terminal_frozen(old(self)@, final(self)@),
            match r {
                Ok(res) => exists|i: int|
                    0 <= i < old(self)@.len() && (#[trigger] old(self)@[i]).client_req_id@
                        == req_id@ && old(self)@[i].cancel_pending
                        && !old(self)@[i].status.spec_is_terminal() && updated_at(
                        old(self)@,
                        final(self)@,
                        i,
                        cancel_fail_result(old(self)@[i]),
                    ) && res.0 == old(self)@[i].asset_no && ord_eq(
                        res.1,
                        cancel_fail_result(old(self)@[i]),
                    ),
                Err(e) => final(self)@ == old(self)@ && (e == HandleError::OrderNotFound
                    <==> !has_client_id(old(self)@, req_id@)) && (e == HandleError::StateInvalid
                    ==> exists|i: int|
                        0 <= i < old(self)@.len() && (#[trigger] old(self)@[i]).client_req_id@
                            == req_id@ && !(old(self)@[i].cancel_pending
                            && !old(self)@[i].status.spec_is_terminal())) && (e
                    != HandleError::OrderNotFound ==> e == HandleError::StateInvalid),
            },
    {
        let idx = match self.find_by_client(req_id) {
            Some(i) => i,
            None => {
                return Err(HandleError::OrderNotFound);
            },
        };
        if self.entries[idx].status.is_terminal() {
            return Err(HandleError::StateInvalid);
        }
        if !self.entries[idx].cancel_pending {
            return Err(HandleError::StateInvalid);
        }
        let asset_no = self.entries[idx].asset_no;
        let pre_cancel = self.entries[idx].pre_cancel;
        let mut entry = self.entries[idx].duplicate();
        entry.status = pre_cancel;
        entry.cancel_pending = false;
        let ret = entry.duplicate();
        let ghost pre = self@;
        self.entries.set(idx, entry);
        proof {
            lemma_same_ids_wf(pre, self@);
        }
        Ok((asset_no, ret))
    }
}

/// Replacing an entry with one that keeps its client request id keeps the
/// ledger's client-id uniqueness.
proof fn lemma_same_ids_wf(pre: Seq<Order>, post: Seq<Order>)
    requires
        pre.len() == post.len(),
        forall|i: int|
            0 <= i < pre.len() ==> (#[trigger] post[i]).client_req_id@ == pre[i].client_req_id@,
        forall|i: int, j: int|
            0 <= i < j < pre.len() ==> (#[trigger] pre[i]).client_req_id@ != (
            #[trigger] pre[j]).client_req_id@,
    ensures
        forall|i: int, j: int|
            0 <= i < j < post.len() ==> (#[trigger] post[i]).client_req_id@ != (
            #[trigger] post[j]).client_req_id@,
{
}

/// Terminal entries stay frozen across any sequence of reconciliations:
/// two frozen steps compose into a frozen step, so the per-operation
/// guarantee extends inductively to whole batches and sessions.
pub proof fn lemma_frozen_trans(a: Seq<Order>, b: Seq<Order>, c: Seq<Order>)
    requires
        terminal_frozen(a, b),
        terminal_frozen(b, c),
    ensures
        terminal_frozen(a, c),
{
    assert forall|i: int|
        0 <= i < a.len() && (#[trigger] a[i]).status.spec_is_terminal() implies c[i] == a[i] by {
        assert(b[i] == a[i]);
    }
}

/// The uniqueness the ledger maintains, as a law of its own: two distinct
/// entries of a well-formed ledger never share a client request id.
pub proof fn lemma_client_id_unique(l: OrderLedger, i: int, j: int)
    requires
        l.wf(),
        0 <= i < l@.len(),
        0 <= j < l@.len(),
        i != j,
    ensures
        l@[i].client_req_id@ != l@[j].client_req_id@,
{
}

} // verus!
