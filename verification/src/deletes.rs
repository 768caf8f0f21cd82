//! Cascading deletes: removing a document, a party or a product removes
//! every dependent row, per the schema's foreign-key actions. The one
//! `SET NULL` action of the schema — an invoice's reference to its
//! originating order — clears the reference instead of deleting the
//! invoice.
//!
//! Each operation returns the number of rows it removed.

use vstd::prelude::*;
use crate::model::{
    Client, Supplier, Product, InventoryMovement, Order, OrderItem, Invoice, InvoiceItem, Quote,
    QuoteItem, StoreError,
};
use crate::store::{
    Store, client_ids, supplier_ids, product_ids, movement_ids, order_ids, order_item_ids,
    invoice_ids, invoice_item_ids, quote_ids, quote_item_ids, movement_refs, order_item_refs,
    invoice_item_refs, str_views, id_list_contains,
};

verus! {

broadcast use vstd::seq_lib::group_filter_ensures, Seq::lemma_filter_push,
    Seq::lemma_filter_contains_rev;

/// The order rows that survive deleting the order `oid`.
pub open spec fn orders_except(s: Seq<Order>, oid: Seq<char>) -> Seq<Order> {
    s.filter(|o: Order| o.id@ != oid)
}

/// The order items that deleting the order `oid` removes.
pub open spec fn order_items_of_order(s: Seq<OrderItem>, oid: Seq<char>) -> Seq<OrderItem> {
    s.filter(|it: OrderItem| it.order_id@ == oid)
}

/// The order items that survive deleting the order `oid`.
pub open spec fn order_items_except_order(s: Seq<OrderItem>, oid: Seq<char>) -> Seq<OrderItem> {
    s.filter(|it: OrderItem| it.order_id@ != oid)
}

/// The movements that survive when every movement referenced in `refs`
/// is removed.
pub open spec fn movements_excluding(s: Seq<InventoryMovement>, refs: Seq<Seq<char>>) -> Seq<
    InventoryMovement,
> {
    s.filter(|m: InventoryMovement| !refs.contains(m.id@))
}

/// An invoice with its order reference cleared when it names `oid`.
pub open spec fn invoice_cleared_of_order(v: Invoice, oid: Seq<char>) -> Invoice {
    if v.order_id is Some && v.order_id->Some_0@ == oid {
        Invoice { order_id: None, ..v }
    } else {
        v
    }
}

/// The invoice table after deleting the order `oid`: no invoice is
/// removed, only dangling order references are cleared.
pub open spec fn invoices_cleared_of_order(s: Seq<Invoice>, oid: Seq<char>) -> Seq<Invoice> {
    s.map_values(|v: Invoice| invoice_cleared_of_order(v, oid))
}

/// A filtered table keeps its ids duplicate-free.
pub broadcast proof fn lemma_filter_map_no_dup<A>(s: Seq<A>, pred: spec_fn(A) -> bool, f: spec_fn(A) -> Seq<char>)
    requires
        s.map_values(f).no_duplicates(),
    ensures
        (#[trigger] s.filter(pred).map_values(f)).no_duplicates(),
    decreases s.len(),
{
    reveal(Seq::filter);
    if s.len() > 0 {
        let s0 = s.drop_last();
        let x = s.last();
        assert(s0.map_values(f) =~= s.map_values(f).drop_last());
        assert forall|i: int, j: int| 0 <= i < j < s0.map_values(f).len()
            implies s0.map_values(f)[i] != s0.map_values(f)[j] by {
            assert(s0.map_values(f)[i] == s.map_values(f)[i]);
            assert(s0.map_values(f)[j] == s.map_values(f)[j]);
        }
        lemma_filter_map_no_dup(s0, pred, f);
        if pred(x) {
            let fs0 = s0.filter(pred);
            assert(s.filter(pred) == fs0.push(x));
            if fs0.map_values(f).contains(f(x)) {
                let j = choose|j: int| 0 <= j < fs0.len() && fs0.map_values(f)[j] == f(x);
                let el = fs0[j];
                assert(fs0.contains(el));
                s0.lemma_filter_contains_rev(pred, el);
                let k = choose|k: int| 0 <= k < s0.len() && s0[k] == el;
                assert(s.map_values(f)[k] == f(x));
                assert(s.map_values(f)[s.len() - 1] == f(x));
                assert(false);
            }
            assert(s.filter(pred).map_values(f)
                =~= fs0.map_values(f).push(f(x)));
            assert forall|i: int, j: int|
                0 <= i < j < s.filter(pred).map_values(f).len()
                implies s.filter(pred).map_values(f)[i] != s.filter(pred).map_values(f)[j] by {
                if j == fs0.len() {
                    assert(fs0.map_values(f).contains(fs0.map_values(f)[i]));
                }
            }
        }
    }
}

/// The exclusive movement-reference rule survives removing sold lines on
/// either side.
pub broadcast proof fn lemma_refs_no_dup_sub(
    oi: Seq<OrderItem>,
    ii: Seq<InvoiceItem>,
    p: spec_fn(OrderItem) -> bool,
    q: spec_fn(InvoiceItem) -> bool,
)
    requires
        movement_refs(oi, ii).no_duplicates(),
    ensures
        (#[trigger] movement_refs(oi.filter(p), ii.filter(q))).no_duplicates(),
{
    let fo = |it: OrderItem| it.inventory_id@;
    let fi = |it: InvoiceItem| it.inventory_id@;
    let a = order_item_refs(oi);
    let b = invoice_item_refs(ii);
    let a2 = order_item_refs(oi.filter(p));
    let b2 = invoice_item_refs(ii.filter(q));
    assert forall|i: int, j: int| 0 <= i < j < a.len() implies a[i] != a[j] by {
        assert(movement_refs(oi, ii)[i] == a[i]);
        assert(movement_refs(oi, ii)[j] == a[j]);
    }
    assert forall|i: int, j: int| 0 <= i < j < b.len() implies b[i] != b[j] by {
        assert(movement_refs(oi, ii)[oi.len() + i] == b[i]);
        assert(movement_refs(oi, ii)[oi.len() + j] == b[j]);
    }
    lemma_filter_map_no_dup(oi, p, fo);
    lemma_filter_map_no_dup(ii, q, fi);
    assert forall|i: int, j: int| 0 <= i < a2.len() && 0 <= j < b2.len()
        implies a2[i] != b2[j] by {
        let el1 = oi.filter(p)[i];
        assert(oi.filter(p).contains(el1));
        oi.lemma_filter_contains_rev(p, el1);
        let k1 = choose|k: int| 0 <= k < oi.len() && oi[k] == el1;
        let el2 = ii.filter(q)[j];
        assert(ii.filter(q).contains(el2));
        ii.lemma_filter_contains_rev(q, el2);
        let k2 = choose|k: int| 0 <= k < ii.len() && ii[k] == el2;
        assert(movement_refs(oi, ii)[k1] == el1.inventory_id@);
        assert(movement_refs(oi, ii)[oi.len() + k2] == el2.inventory_id@);
        assert(a2[i] == el1.inventory_id@);
        assert(b2[j] == el2.inventory_id@);
    }
    assert forall|i: int, j: int| 0 <= i < j < (a2 + b2).len()
        implies (a2 + b2)[i] != (a2 + b2)[j] by {
        if j < a2.len() {
            assert((a2 + b2)[i] == a2[i] && (a2 + b2)[j] == a2[j]);
        } else if i >= a2.len() {
            assert((a2 + b2)[i] == b2[i - a2.len()] && (a2 + b2)[j] == b2[j - a2.len()]);
        } else {
            assert((a2 + b2)[i] == a2[i] && (a2 + b2)[j] == b2[j - a2.len()]);
        }
    }
}

/// In a well-formed store, a run of removed order lines (each a row of
/// the item table, none equal to the surviving holder of `inv_id`) never
/// references the movement `inv_id` that the holder references.
proof fn lemma_removed_refs_miss_survivor(
    s: Store,
    removed: Seq<OrderItem>,
    inv_id: Seq<char>,
    holder_oi: Option<int>,
    holder_ii: Option<int>,
)
    requires
        s.wf(),
        forall|j: int| 0 <= j < removed.len() ==> s.order_items@.contains(#[trigger] removed[j]),
        holder_oi is Some ==> 0 <= holder_oi->Some_0 < s.order_items@.len()
            && s.order_items@[holder_oi->Some_0].inventory_id@ == inv_id
            && (forall|j: int| 0 <= j < removed.len()
                ==> #[trigger] removed[j] != s.order_items@[holder_oi->Some_0]),
        holder_ii is Some ==> 0 <= holder_ii->Some_0 < s.invoice_items@.len()
            && s.invoice_items@[holder_ii->Some_0].inventory_id@ == inv_id,
        holder_oi is Some || holder_ii is Some,
    ensures
        !order_item_refs(removed).contains(inv_id),
{
    if order_item_refs(removed).contains(inv_id) {
        let j = choose|j: int| 0 <= j < removed.len() && order_item_refs(removed)[j] == inv_id;
        let el = removed[j];
        assert(s.order_items@.contains(el));
        let k = choose|k: int| 0 <= k < s.order_items@.len() && s.order_items@[k] == el;
        let refs = movement_refs(s.order_items@, s.invoice_items@);
        assert(refs[k] == inv_id);
        match holder_oi {
            Some(h) => {
                assert(refs[h] == inv_id);
                assert(h != k);
                assert(false);
            },
            None => {
                let h = holder_ii->Some_0;
                assert(refs[s.order_items@.len() + h] == inv_id);
                assert(false);
            },
        }
    }
}

impl Store {
    /// Deletes an order: its line items and their movements go with it;
    /// invoices that referenced it keep living with the reference
    /// cleared. Returns the number of rows removed.
    pub fn delete_order(&mut self, id: &String) -> (r: Result<u128, StoreError>)
        requires
            old(self).wf(),
        ensures
            final(self).wf(),
            r is Ok <==> order_ids(old(self).orders@).contains(id@),
            r is Err ==> *final(self) == *old(self) && r->Err_0 == StoreError::NotFound,
            r is Ok ==> final(self).orders@ == orders_except(old(self).orders@, id@)
                && final(self).order_items@ == order_items_except_order(
                    old(self).order_items@, id@)
                && final(self).movements@ == movements_excluding(
                    old(self).movements@,
                    order_item_refs(order_items_of_order(old(self).order_items@, id@)))
                && final(self).invoices@ == invoices_cleared_of_order(old(self).invoices@, id@)
                && final(self).clients@ == old(self).clients@
                && final(self).suppliers@ == old(self).suppliers@
                && final(self).products@ == old(self).products@
                && final(self).invoice_items@ == old(self).invoice_items@
                && final(self).quotes@ == old(self).quotes@
                && final(self).quote_items@ == old(self).quote_items@
                && r->Ok_0 == 1 + (old(self).order_items@.len() - final(self).order_items@.len())
                    + (old(self).movements@.len() - final(self).movements@.len()),
    {
        if !self.has_order(id) {
            return Err(StoreError::NotFound);
        }
        let ghost pre = *self;
        let ghost oid = id@;

        // the movement references of the removed lines
        let mut removed_refs: Vec<String> = Vec::new();
        let mut i: usize = 0;
        while i < self.order_items.len()
            invariant
                0 <= i <= self.order_items@.len(),
                *self == *old(self),
                id@ == oid,
                str_views(removed_refs@) == order_item_refs(
                    order_items_of_order(self.order_items@.subrange(0, i as int), oid)),
            decreases self.order_items@.len() - i,
        {
            let it = &self.order_items[i];
            proof {
                let prefix = self.order_items@.subrange(0, i as int);
                assert(self.order_items@.subrange(0, i + 1 as int) =~= prefix.push(
                    self.order_items@[i as int]));
            }
            if it.order_id == *id {
                let r = it.inventory_id.clone();
                removed_refs.push(r);
                proof {
                    let prefix = self.order_items@.subrange(0, i as int);
                    assert(str_views(removed_refs@) =~= order_item_refs(
                        order_items_of_order(prefix, oid)).push(
                            self.order_items@[i as int].inventory_id@));
                    assert(order_item_refs(order_items_of_order(prefix, oid).push(
                        self.order_items@[i as int]))
                        =~= order_item_refs(order_items_of_order(prefix, oid)).push(
                            self.order_items@[i as int].inventory_id@));
                }
            }
            i = i + 1;
        }
        proof {
            assert(self.order_items@.subrange(0, self.order_items@.len() as int)
                =~= self.order_items@);
        }
        let ghost rr = order_item_refs(order_items_of_order(pre.order_items@, oid));

        // movements: drop every movement that a removed line referenced
        let mut kept_mvs: Vec<InventoryMovement> = Vec::new();
        let mut i: usize = 0;
        while i < self.movements.len()
            invariant
                0 <= i <= self.movements@.len(),
                *self == *old(self),
                str_views(removed_refs@) == rr,
                kept_mvs@ == movements_excluding(self.movements@.subrange(0, i as int), rr),
            decreases self.movements@.len() - i,
        {
            proof {
                let prefix = self.movements@.subrange(0, i as int);
                assert(self.movements@.subrange(0, i + 1 as int) =~= prefix.push(
                    self.movements@[i as int]));
            }
            let m = &self.movements[i];
            if !id_list_contains(&removed_refs, &m.id) {
                kept_mvs.push(m.clone());
            }
            i = i + 1;
        }
        proof {
            assert(self.movements@.subrange(0, self.movements@.len() as int) =~= self.movements@);
        }

        // order items: drop the removed order's lines
        let mut kept_items: Vec<OrderItem> = Vec::new();
        let mut i: usize = 0;
        while i < self.order_items.len()
            invariant
                0 <= i <= self.order_items@.len(),
                *self == *old(self),
                id@ == oid,
                kept_items@ == order_items_except_order(
                    self.order_items@.subrange(0, i as int), oid),
            decreases self.order_items@.len() - i,
        {
            proof {
                let prefix = self.order_items@.subrange(0, i as int);
                assert(self.order_items@.subrange(0, i + 1 as int) =~= prefix.push(
                    self.order_items@[i as int]));
            }
            let it = &self.order_items[i];
            if !(it.order_id == *id) {
                kept_items.push(it.clone());
            }
            i = i + 1;
        }
        proof {
            assert(self.order_items@.subrange(0, self.order_items@.len() as int)
                =~= self.order_items@);
        }

        // orders: drop the row itself
        let mut kept_orders: Vec<Order> = Vec::new();
        let mut i: usize = 0;
        while i < self.orders.len()
            invariant
                0 <= i <= self.orders@.len(),
                *self == *old(self),
                id@ == oid,
                kept_orders@ == orders_except(self.orders@.subrange(0, i as int), oid),
            decreases self.orders@.len() - i,
        {
            proof {
                let prefix = self.orders@.subrange(0, i as int);
                assert(self.orders@.subrange(0, i + 1 as int) =~= prefix.push(
                    self.orders@[i as int]));
            }
            let o = &self.orders[i];
            if !(o.id == *id) {
                kept_orders.push(o.clone());
            }
            i = i + 1;
        }
        proof {
            assert(self.orders@.subrange(0, self.orders@.len() as int) =~= self.orders@);
        }

        let old_items_len = self.order_items.len();
        let old_mvs_len = self.movements.len();
        let new_items_len = kept_items.len();
        let new_mvs_len = kept_mvs.len();
        self.orders = kept_orders;
        self.order_items = kept_items;
        self.movements = kept_mvs;

        // invoices: clear dangling order references
        let mut i: usize = 0;
        while i < self.invoices.len()
            invariant
                0 <= i <= self.invoices@.len(),
                id@ == oid,
                self.invoices@.len() == old(self).invoices@.len(),
                forall|j: int| 0 <= j < i ==> self.invoices@[j] == invoice_cleared_of_order(
                    #[trigger] old(self).invoices@[j], oid),
                forall|j: int| i <= j < self.invoices@.len()
                    ==> self.invoices@[j] == #[trigger] old(self).invoices@[j],
                self.orders@ == orders_except(old(self).orders@, oid),
                self.order_items@ == order_items_except_order(old(self).order_items@, oid),
                self.movements@ == movements_excluding(old(self).movements@,
                    order_item_refs(order_items_of_order(old(self).order_items@, oid))),
                self.clients@ == old(self).clients@,
                self.suppliers@ == old(self).suppliers@,
                self.products@ == old(self).products@,
                self.invoice_items@ == old(self).invoice_items@,
                self.quotes@ == old(self).quotes@,
                self.quote_items@ == old(self).quote_items@,
            decreases self.invoices@.len() - i,
        {
            let mut clear = false;
            match &self.invoices[i].order_id {
                Some(o) => {
                    if *o == *id {
                        clear = true;
                    }
                },
                None => {},
            }
            if clear {
                self.invoices[i].order_id = None;
            }
            i = i + 1;
        }
        proof {
            assert(self.invoices@ =~= invoices_cleared_of_order(pre.invoices@, oid));
            lemma_delete_order_wf(pre, *self, oid);
        }
        let removed: u128 = 1 + (old_items_len - new_items_len) as u128 + (old_mvs_len
            - new_mvs_len) as u128;
        Ok(removed)
    }
}

/// The invoice rows that survive deleting the invoice `iid`.
pub open spec fn invoices_except(s: Seq<Invoice>, iid: Seq<char>) -> Seq<Invoice> {
    s.filter(|v: Invoice| v.id@ != iid)
}

/// The invoice items that deleting the invoice `iid` removes.
pub open spec fn invoice_items_of_invoice(s: Seq<InvoiceItem>, iid: Seq<char>) -> Seq<
    InvoiceItem,
> {
    s.filter(|it: InvoiceItem| it.invoice_id@ == iid)
}

/// The invoice items that survive deleting the invoice `iid`.
pub open spec fn invoice_items_except_invoice(s: Seq<InvoiceItem>, iid: Seq<char>) -> Seq<
    InvoiceItem,
> {
    s.filter(|it: InvoiceItem| it.invoice_id@ != iid)
}

/// Mirror of `lemma_removed_refs_miss_survivor` for removed invoice
/// lines.
proof fn lemma_removed_iirefs_miss_survivor(
    s: Store,
    removed: Seq<InvoiceItem>,
    inv_id: Seq<char>,
    holder_oi: Option<int>,
    holder_ii: Option<int>,
)
    requires
        s.wf(),
        forall|j: int| 0 <= j < removed.len() ==> s.invoice_items@.contains(
            #[trigger] removed[j]),
        holder_ii is Some ==> 0 <= holder_ii->Some_0 < s.invoice_items@.len()
            && s.invoice_items@[holder_ii->Some_0].inventory_id@ == inv_id
            && (forall|j: int| 0 <= j < removed.len()
                ==> #[trigger] removed[j] != s.invoice_items@[holder_ii->Some_0]),
        holder_oi is Some ==> 0 <= holder_oi->Some_0 < s.order_items@.len()
            && s.order_items@[holder_oi->Some_0].inventory_id@ == inv_id,
        holder_oi is Some || holder_ii is Some,
    ensures
        !invoice_item_refs(removed).contains(inv_id),
{
    if invoice_item_refs(removed).contains(inv_id) {
        let j = choose|j: int| 0 <= j < removed.len()
            && invoice_item_refs(removed)[j] == inv_id;
        let el = removed[j];
        assert(s.invoice_items@.contains(el));
        let k = choose|k: int| 0 <= k < s.invoice_items@.len() && s.invoice_items@[k] == el;
        let refs = movement_refs(s.order_items@, s.invoice_items@);
        assert(refs[s.order_items@.len() + k] == inv_id);
        match holder_ii {
            Some(h) => {
                assert(refs[s.order_items@.len() + h] == inv_id);
                assert(h != k);
                assert(false);
            },
            None => {
                let h = holder_oi->Some_0;
                assert(refs[h] == inv_id);
                assert(false);
            },
        }
    }
}

impl Store {
    /// Deletes an invoice: its line items and their movements go with
    /// it. Returns the number of rows removed.
    pub fn delete_invoice(&mut self, id: &String) -> (r: Result<u128, StoreError>)
        requires
            old(self).wf(),
        ensures
            final(self).wf(),
            r is Ok <==> invoice_ids(old(self).invoices@).contains(id@),
            r is Err ==> *final(self) == *old(self) && r->Err_0 == StoreError::NotFound,
            r is Ok ==> final(self).invoices@ == invoices_except(old(self).invoices@, id@)
                && final(self).invoice_items@ == invoice_items_except_invoice(
                    old(self).invoice_items@, id@)
                && final(self).movements@ == movements_excluding(
                    old(self).movements@,
                    invoice_item_refs(invoice_items_of_invoice(old(self).invoice_items@, id@)))
                && final(self).clients@ == old(self).clients@
                && final(self).suppliers@ == old(self).suppliers@
                && final(self).products@ == old(self).products@
                && final(self).orders@ == old(self).orders@
                && final(self).order_items@ == old(self).order_items@
                && final(self).quotes@ == old(self).quotes@
                && final(self).quote_items@ == old(self).quote_items@
                && r->Ok_0 == 1 + (old(self).invoice_items@.len()
                    - final(self).invoice_items@.len())
                    + (old(self).movements@.len() - final(self).movements@.len()),
    {
        if !self.has_invoice(id) {
            return Err(StoreError::NotFound);
        }
        let ghost pre = *self;
        let ghost iid = id@;

        // the movement references of the removed lines
        let mut removed_refs: Vec<String> = Vec::new();
        let mut i: usize = 0;
        while i < self.invoice_items.len()
            invariant
                0 <= i <= self.invoice_items@.len(),
                *self == *old(self),
                id@ == iid,
                str_views(removed_refs@) == invoice_item_refs(
                    invoice_items_of_invoice(self.invoice_items@.subrange(0, i as int), iid)),
            decreases self.invoice_items@.len() - i,
        {
            let it = &self.invoice_items[i];
            proof {
                let prefix = self.invoice_items@.subrange(0, i as int);
                assert(self.invoice_items@.subrange(0, i + 1 as int) =~= prefix.push(
                    self.invoice_items@[i as int]));
            }
            if it.invoice_id == *id {
                let r = it.inventory_id.clone();
                removed_refs.push(r);
                proof {
                    let prefix = self.invoice_items@.subrange(0, i as int);
                    assert(str_views(removed_refs@) =~= invoice_item_refs(
                        invoice_items_of_invoice(prefix, iid)).push(
                            self.invoice_items@[i as int].inventory_id@));
                    assert(invoice_item_refs(invoice_items_of_invoice(prefix, iid).push(
                        self.invoice_items@[i as int]))
                        =~= invoice_item_refs(invoice_items_of_invoice(prefix, iid)).push(
                            self.invoice_items@[i as int].inventory_id@));
                }
            }
            i = i + 1;
        }
        proof {
            assert(self.invoice_items@.subrange(0, self.invoice_items@.len() as int)
                =~= self.invoice_items@);
        }
        let ghost rr = invoice_item_refs(invoice_items_of_invoice(pre.invoice_items@, iid));

        // movements: drop every movement that a removed line referenced
        let mut kept_mvs: Vec<InventoryMovement> = Vec::new();
        let mut i: usize = 0;
        while i < self.movements.len()
            invariant
                0 <= i <= self.movements@.len(),
                *self == *old(self),
                str_views(removed_refs@) == rr,
                kept_mvs@ == movements_excluding(self.movements@.subrange(0, i as int), rr),
            decreases self.movements@.len() - i,
        {
            proof {
                let prefix = self.movements@.subrange(0, i as int);
                assert(self.movements@.subrange(0, i + 1 as int) =~= prefix.push(
                    self.movements@[i as int]));
            }
            let m = &self.movements[i];
            if !id_list_contains(&removed_refs, &m.id) {
                kept_mvs.push(m.clone());
            }
            i = i + 1;
        }
        proof {
            assert(self.movements@.subrange(0, self.movements@.len() as int) =~= self.movements@);
        }

        // invoice items: drop the removed invoice's lines
        let mut kept_items: Vec<InvoiceItem> = Vec::new();
        let mut i: usize = 0;
        while i < self.invoice_items.len()
            invariant
                0 <= i <= self.invoice_items@.len(),
                *self == *old(self),
                id@ == iid,
                kept_items@ == invoice_items_except_invoice(
                    self.invoice_items@.subrange(0, i as int), iid),
            decreases self.invoice_items@.len() - i,
        {
            proof {
                let prefix = self.invoice_items@.subrange(0, i as int);
                assert(self.invoice_items@.subrange(0, i + 1 as int) =~= prefix.push(
                    self.invoice_items@[i as int]));
            }
            let it = &self.invoice_items[i];
            if !(it.invoice_id == *id) {
                kept_items.push(it.clone());
            }
            i = i + 1;
        }
        proof {
            assert(self.invoice_items@.subrange(0, self.invoice_items@.len() as int)
                =~= self.invoice_items@);
        }

        // invoices: drop the row itself
        let mut kept_invoices: Vec<Invoice> = Vec::new();
        let mut i: usize = 0;
        while i < self.invoices.len()
            invariant
                0 <= i <= self.invoices@.len(),
                *self == *old(self),
                id@ == iid,
                kept_invoices@ == invoices_except(self.invoices@.subrange(0, i as int), iid),
            decreases self.invoices@.len() - i,
        {
            proof {
                let prefix = self.invoices@.subrange(0, i as int);
                assert(self.invoices@.subrange(0, i + 1 as int) =~= prefix.push(
                    self.invoices@[i as int]));
            }
            let v = &self.invoices[i];
            if !(v.id == *id) {
                kept_invoices.push(v.clone());
            }
            i = i + 1;
        }
        proof {
            assert(self.invoices@.subrange(0, self.invoices@.len() as int) =~= self.invoices@);
        }

        let old_items_len = self.invoice_items.len();
        let old_mvs_len = self.movements.len();
        let new_items_len = kept_items.len();
        let new_mvs_len = kept_mvs.len();
        self.invoices = kept_invoices;
        self.invoice_items = kept_items;
        self.movements = kept_mvs;
        proof {
            lemma_delete_invoice_wf(pre, *self, iid);
        }
        let removed: u128 = 1 + (old_items_len - new_items_len) as u128 + (old_mvs_len
            - new_mvs_len) as u128;
        Ok(removed)
    }
}

/// The product rows that survive deleting the product `pid`.
pub open spec fn products_except(s: Seq<Product>, pid: Seq<char>) -> Seq<Product> {
    s.filter(|p: Product| p.id@ != pid)
}

/// The movements that deleting the product `pid` removes.
pub open spec fn movements_of_product(s: Seq<InventoryMovement>, pid: Seq<char>) -> Seq<
    InventoryMovement,
> {
    s.filter(|m: InventoryMovement| m.product_id@ == pid)
}

/// The movements that survive deleting the product `pid`.
pub open spec fn movements_except_product(s: Seq<InventoryMovement>, pid: Seq<char>) -> Seq<
    InventoryMovement,
> {
    s.filter(|m: InventoryMovement| m.product_id@ != pid)
}

/// The order items whose movement is not among the removed ones.
pub open spec fn order_items_outside(s: Seq<OrderItem>, mvids: Seq<Seq<char>>) -> Seq<OrderItem> {
    s.filter(|it: OrderItem| !mvids.contains(it.inventory_id@))
}

/// The invoice items whose movement is not among the removed ones.
pub open spec fn invoice_items_outside(s: Seq<InvoiceItem>, mvids: Seq<Seq<char>>) -> Seq<
    InvoiceItem,
> {
    s.filter(|it: InvoiceItem| !mvids.contains(it.inventory_id@))
}

/// The quote items that survive deleting the product `pid`.
pub open spec fn quote_items_except_product(s: Seq<QuoteItem>, pid: Seq<char>) -> Seq<QuoteItem> {
    s.filter(|it: QuoteItem| it.product_id@ != pid)
}

impl Store {
    /// Deletes a product: all its movements go with it, and transitively
    /// every sold line referencing one of them, and its quote lines.
    /// Returns the number of rows removed.
    pub fn delete_product(&mut self, id: &String) -> (r: Result<u128, StoreError>)
        requires
            old(self).wf(),
        ensures
            final(self).wf(),
            r is Ok <==> product_ids(old(self).products@).contains(id@),
            r is Err ==> *final(self) == *old(self) && r->Err_0 == StoreError::NotFound,
            r is Ok ==> final(self).products@ == products_except(old(self).products@, id@)
                && final(self).movements@ == movements_except_product(old(self).movements@, id@)
                && final(self).order_items@ == order_items_outside(old(self).order_items@,
                    movement_ids(movements_of_product(old(self).movements@, id@)))
                && final(self).invoice_items@ == invoice_items_outside(old(self).invoice_items@,
                    movement_ids(movements_of_product(old(self).movements@, id@)))
                && final(self).quote_items@ == quote_items_except_product(
                    old(self).quote_items@, id@)
                && final(self).clients@ == old(self).clients@
                && final(self).suppliers@ == old(self).suppliers@
                && final(self).orders@ == old(self).orders@
                && final(self).invoices@ == old(self).invoices@
                && final(self).quotes@ == old(self).quotes@
                && r->Ok_0 == 1 + (old(self).movements@.len() - final(self).movements@.len())
                    + (old(self).order_items@.len() - final(self).order_items@.len())
                    + (old(self).invoice_items@.len() - final(self).invoice_items@.len())
                    + (old(self).quote_items@.len() - final(self).quote_items@.len()),
    {
        if !self.has_product(id) {
            return Err(StoreError::NotFound);
        }
        let ghost pre = *self;
        let ghost pid = id@;

        // the identifiers of the removed movements
        let mut removed_ids: Vec<String> = Vec::new();
        let mut i: usize = 0;
        while i < self.movements.len()
            invariant
                0 <= i <= self.movements@.len(),
                *self == *old(self),
                id@ == pid,
                str_views(removed_ids@) == movement_ids(
                    movements_of_product(self.movements@.subrange(0, i as int), pid)),
            decreases self.movements@.len() - i,
        {
            let m = &self.movements[i];
            proof {
                let prefix = self.movements@.subrange(0, i as int);
                assert(self.movements@.subrange(0, i + 1 as int) =~= prefix.push(
                    self.movements@[i as int]));
            }
            if m.product_id == *id {
                let r = m.id.clone();
                removed_ids.push(r);
                proof {
                    let prefix = self.movements@.subrange(0, i as int);
                    assert(str_views(removed_ids@) =~= movement_ids(
                        movements_of_product(prefix, pid)).push(self.movements@[i as int].id@));
                    assert(movement_ids(movements_of_product(prefix, pid).push(
                        self.movements@[i as int]))
                        =~= movement_ids(movements_of_product(prefix, pid)).push(
                            self.movements@[i as int].id@));
                }
            }
            i = i + 1;
        }
        proof {
            assert(self.movements@.subrange(0, self.movements@.len() as int) =~= self.movements@);
        }
        let ghost mvids = movement_ids(movements_of_product(pre.movements@, pid));

        // order items referencing a removed movement go
        let mut kept_oi: Vec<OrderItem> = Vec::new();
        let mut i: usize = 0;
        while i < self.order_items.len()
            invariant
                0 <= i <= self.order_items@.len(),
                *self == *old(self),
                str_views(removed_ids@) == mvids,
                kept_oi@ == order_items_outside(self.order_items@.subrange(0, i as int), mvids),
            decreases self.order_items@.len() - i,
        {
            proof {
                let prefix = self.order_items@.subrange(0, i as int);
                assert(self.order_items@.subrange(0, i + 1 as int) =~= prefix.push(
                    self.order_items@[i as int]));
            }
            let it = &self.order_items[i];
            if !id_list_contains(&removed_ids, &it.inventory_id) {
                kept_oi.push(it.clone());
            }
            i = i + 1;
        }
        proof {
            assert(self.order_items@.subrange(0, self.order_items@.len() as int)
                =~= self.order_items@);
        }

        // invoice items referencing a removed movement go
        let mut kept_ii: Vec<InvoiceItem> = Vec::new();
        let mut i: usize = 0;
        while i < self.invoice_items.len()
            invariant
                0 <= i <= self.invoice_items@.len(),
                *self == *old(self),
                str_views(removed_ids@) == mvids,
                kept_ii@ == invoice_items_outside(
                    self.invoice_items@.subrange(0, i as int), mvids),
            decreases self.invoice_items@.len() - i,
        {
            proof {
                let prefix = self.invoice_items@.subrange(0, i as int);
                assert(self.invoice_items@.subrange(0, i + 1 as int) =~= prefix.push(
                    self.invoice_items@[i as int]));
            }
            let it = &self.invoice_items[i];
            if !id_list_contains(&removed_ids, &it.inventory_id) {
                kept_ii.push(it.clone());
            }
            i = i + 1;
        }
        proof {
            assert(self.invoice_items@.subrange(0, self.invoice_items@.len() as int)
                =~= self.invoice_items@);
        }

        // movements of the product go
        let mut kept_mvs: Vec<InventoryMovement> = Vec::new();
        let mut i: usize = 0;
        while i < self.movements.len()
            invariant
                0 <= i <= self.movements@.len(),
                *self == *old(self),
                id@ == pid,
                kept_mvs@ == movements_except_product(
                    self.movements@.subrange(0, i as int), pid),
            decreases self.movements@.len() - i,
        {
            proof {
                let prefix = self.movements@.subrange(0, i as int);
                assert(self.movements@.subrange(0, i + 1 as int) =~= prefix.push(
                    self.movements@[i as int]));
            }
            let m = &self.movements[i];
            if !(m.product_id == *id) {
                kept_mvs.push(m.clone());
            }
            i = i + 1;
        }
        proof {
            assert(self.movements@.subrange(0, self.movements@.len() as int) =~= self.movements@);
        }

        // quote lines of the product go
        let mut kept_qi: Vec<QuoteItem> = Vec::new();
        let mut i: usize = 0;
        while i < self.quote_items.len()
            invariant
                0 <= i <= self.quote_items@.len(),
                *self == *old(self),
                id@ == pid,
                kept_qi@ == quote_items_except_product(
                    self.quote_items@.subrange(0, i as int), pid),
            decreases self.quote_items@.len() - i,
        {
            proof {
                let prefix = self.quote_items@.subrange(0, i as int);
                assert(self.quote_items@.subrange(0, i + 1 as int) =~= prefix.push(
                    self.quote_items@[i as int]));
            }
            let it = &self.quote_items[i];
            if !(it.product_id == *id) {
                kept_qi.push(it.clone());
            }
            i = i + 1;
        }
        proof {
            assert(self.quote_items@.subrange(0, self.quote_items@.len() as int)
                =~= self.quote_items@);
        }

        // the product row itself goes
        let mut kept_products: Vec<Product> = Vec::new();
        let mut i: usize = 0;
        while i < self.products.len()
            invariant
                0 <= i <= self.products@.len(),
                *self == *old(self),
                id@ == pid,
                kept_products@ == products_except(self.products@.subrange(0, i as int), pid),
            decreases self.products@.len() - i,
        {
            proof {
                let prefix = self.products@.subrange(0, i as int);
                assert(self.products@.subrange(0, i + 1 as int) =~= prefix.push(
                    self.products@[i as int]));
            }
            let p = &self.products[i];
            if !(p.id == *id) {
                kept_products.push(p.clone());
            }
            i = i + 1;
        }
        proof {
            assert(self.products@.subrange(0, self.products@.len() as int) =~= self.products@);
        }

        let old_mvs_len = self.movements.len();
        let old_oi_len = self.order_items.len();
        let old_ii_len = self.invoice_items.len();
        let old_qi_len = self.quote_items.len();
        let new_mvs_len = kept_mvs.len();
        let new_oi_len = kept_oi.len();
        let new_ii_len = kept_ii.len();
        let new_qi_len = kept_qi.len();
        self.products = kept_products;
        self.movements = kept_mvs;
        self.order_items = kept_oi;
        self.invoice_items = kept_ii;
        self.quote_items = kept_qi;
        proof {
            lemma_delete_product_wf(pre, *self, pid);
        }
        let removed: u128 = 1 + (old_mvs_len - new_mvs_len) as u128 + (old_oi_len - new_oi_len)
            as u128 + (old_ii_len - new_ii_len) as u128 + (old_qi_len - new_qi_len) as u128;
        Ok(removed)
    }
}

/// The quote rows that survive deleting the quote `qid`.
pub open spec fn quotes_except(s: Seq<Quote>, qid: Seq<char>) -> Seq<Quote> {
    s.filter(|q: Quote| q.id@ != qid)
}

/// The quote items that survive deleting the quote `qid`.
pub open spec fn quote_items_except_quote(s: Seq<QuoteItem>, qid: Seq<char>) -> Seq<QuoteItem> {
    s.filter(|it: QuoteItem| it.quote_id@ != qid)
}

/// The supplier rows that survive deleting the supplier `sid`.
pub open spec fn suppliers_except(s: Seq<Supplier>, sid: Seq<char>) -> Seq<Supplier> {
    s.filter(|c: Supplier| c.id@ != sid)
}

impl Store {
    /// Deletes a quote and its line items. Returns the number of rows
    /// removed.
    pub fn delete_quote(&mut self, id: &String) -> (r: Result<u128, StoreError>)
        requires
            old(self).wf(),
        ensures
            final(self).wf(),
            r is Ok <==> quote_ids(old(self).quotes@).contains(id@),
            r is Err ==> *final(self) == *old(self) && r->Err_0 == StoreError::NotFound,
            r is Ok ==> final(self).quotes@ == quotes_except(old(self).quotes@, id@)
                && final(self).quote_items@ == quote_items_except_quote(
                    old(self).quote_items@, id@)
                && final(self).clients@ == old(self).clients@
                && final(self).suppliers@ == old(self).suppliers@
                && final(self).products@ == old(self).products@
                && final(self).movements@ == old(self).movements@
                && final(self).orders@ == old(self).orders@
                && final(self).order_items@ == old(self).order_items@
                && final(self).invoices@ == old(self).invoices@
                && final(self).invoice_items@ == old(self).invoice_items@
                && r->Ok_0 == 1 + (old(self).quote_items@.len()
                    - final(self).quote_items@.len()),
    {
        if !self.has_quote(id) {
            return Err(StoreError::NotFound);
        }
        let ghost pre = *self;
        let ghost qid = id@;

        let mut kept_qi: Vec<QuoteItem> = Vec::new();
        let mut i: usize = 0;
        while i < self.quote_items.len()
            invariant
                0 <= i <= self.quote_items@.len(),
                *self == *old(self),
                id@ == qid,
                kept_qi@ == quote_items_except_quote(
                    self.quote_items@.subrange(0, i as int), qid),
            decreases self.quote_items@.len() - i,
        {
            proof {
                let prefix = self.quote_items@.subrange(0, i as int);
                assert(self.quote_items@.subrange(0, i + 1 as int) =~= prefix.push(
                    self.quote_items@[i as int]));
            }
            let it = &self.quote_items[i];
            if !(it.quote_id == *id) {
                kept_qi.push(it.clone());
            }
            i = i + 1;
        }
        proof {
            assert(self.quote_items@.subrange(0, self.quote_items@.len() as int)
                =~= self.quote_items@);
        }

        let mut kept_quotes: Vec<Quote> = Vec::new();
        let mut i: usize = 0;
        while i < self.quotes.len()
            invariant
                0 <= i <= self.quotes@.len(),
                *self == *old(self),
                id@ == qid,
                kept_quotes@ == quotes_except(self.quotes@.subrange(0, i as int), qid),
            decreases self.quotes@.len() - i,
        {
            proof {
                let prefix = self.quotes@.subrange(0, i as int);
                assert(self.quotes@.subrange(0, i + 1 as int) =~= prefix.push(
                    self.quotes@[i as int]));
            }
            let q = &self.quotes[i];
            if !(q.id == *id) {
                kept_quotes.push(q.clone());
            }
            i = i + 1;
        }
        proof {
            assert(self.quotes@.subrange(0, self.quotes@.len() as int) =~= self.quotes@);
        }

        let old_qi_len = self.quote_items.len();
        let new_qi_len = kept_qi.len();
        self.quotes = kept_quotes;
        self.quote_items = kept_qi;
        proof {
            broadcast use lemma_filter_map_no_dup;

            assert(quote_ids(self.quotes@) == quote_ids(quotes_except(pre.quotes@, qid)));
            assert(quote_item_ids(self.quote_items@)
                == quote_item_ids(quote_items_except_quote(pre.quote_items@, qid)));
            assert forall|i: int| 0 <= i < self.quotes@.len()
                implies client_ids(self.clients@).contains(
                    (#[trigger] self.quotes@[i]).client_id@) by {
                let el = self.quotes@[i];
                assert(quotes_except(pre.quotes@, qid).contains(el));
                let k = choose|k: int| 0 <= k < pre.quotes@.len() && pre.quotes@[k] == el;
                assert(pre.quotes@[k] == el);
            }
            assert forall|i: int| 0 <= i < self.quote_items@.len()
                implies quote_ids(self.quotes@).contains(
                    (#[trigger] self.quote_items@[i]).quote_id@)
                    && product_ids(self.products@).contains(
                        self.quote_items@[i].product_id@) by {
                let el = self.quote_items@[i];
                assert(quote_items_except_quote(pre.quote_items@, qid).contains(el));
                let k = choose|k: int| 0 <= k < pre.quote_items@.len()
                    && pre.quote_items@[k] == el;
                assert(el.quote_id@ != qid);
                let kq = choose|kq: int| 0 <= kq < pre.quotes@.len()
                    && quote_ids(pre.quotes@)[kq] == el.quote_id@;
                assert(pre.quotes@[kq].id@ == el.quote_id@);
                assert(quotes_except(pre.quotes@, qid).contains(pre.quotes@[kq]));
                let jq = choose|jq: int| 0 <= jq < self.quotes@.len()
                    && self.quotes@[jq] == pre.quotes@[kq];
                assert(quote_ids(self.quotes@)[jq] == el.quote_id@);
            }
        }
        let removed: u128 = 1 + (old_qi_len - new_qi_len) as u128;
        Ok(removed)
    }

    /// Deletes a supplier. Nothing references suppliers, so exactly one
    /// row is removed.
    pub fn delete_supplier(&mut self, id: &String) -> (r: Result<u128, StoreError>)
        requires
            old(self).wf(),
        ensures
            final(self).wf(),
            r is Ok <==> supplier_ids(old(self).suppliers@).contains(id@),
            r is Err ==> *final(self) == *old(self) && r->Err_0 == StoreError::NotFound,
            r is Ok ==> final(self).suppliers@ == suppliers_except(old(self).suppliers@, id@)
                && final(self).clients@ == old(self).clients@
                && final(self).products@ == old(self).products@
                && final(self).movements@ == old(self).movements@
                && final(self).orders@ == old(self).orders@
                && final(self).order_items@ == old(self).order_items@
                && final(self).invoices@ == old(self).invoices@
                && final(self).invoice_items@ == old(self).invoice_items@
                && final(self).quotes@ == old(self).quotes@
                && final(self).quote_items@ == old(self).quote_items@
                && r->Ok_0 == 1,
    {
        if !self.has_supplier(id) {
            return Err(StoreError::NotFound);
        }
        let ghost pre = *self;
        let ghost sid = id@;
        let mut kept: Vec<Supplier> = Vec::new();
        let mut i: usize = 0;
        while i < self.suppliers.len()
            invariant
                0 <= i <= self.suppliers@.len(),
                *self == *old(self),
                id@ == sid,
                kept@ == suppliers_except(self.suppliers@.subrange(0, i as int), sid),
            decreases self.suppliers@.len() - i,
        {
            proof {
                let prefix = self.suppliers@.subrange(0, i as int);
                assert(self.suppliers@.subrange(0, i + 1 as int) =~= prefix.push(
                    self.suppliers@[i as int]));
            }
            let c = &self.suppliers[i];
            if !(c.id == *id) {
                kept.push(c.clone());
            }
            i = i + 1;
        }
        proof {
            assert(self.suppliers@.subrange(0, self.suppliers@.len() as int)
                =~= self.suppliers@);
        }
        self.suppliers = kept;
        proof {
            broadcast use lemma_filter_map_no_dup;

            assert(supplier_ids(self.suppliers@)
                == supplier_ids(suppliers_except(pre.suppliers@, sid)));
        }
        Ok(1)
    }
}

/// After a product is deleted, the store is well-formed again.
proof fn lemma_delete_product_wf(pre: Store, post: Store, pid: Seq<char>)
    requires
        pre.wf(),
        post.products@ == products_except(pre.products@, pid),
        post.movements@ == movements_except_product(pre.movements@, pid),
        post.order_items@ == order_items_outside(pre.order_items@,
            movement_ids(movements_of_product(pre.movements@, pid))),
        post.invoice_items@ == invoice_items_outside(pre.invoice_items@,
            movement_ids(movements_of_product(pre.movements@, pid))),
        post.quote_items@ == quote_items_except_product(pre.quote_items@, pid),
        post.clients@ == pre.clients@,
        post.suppliers@ == pre.suppliers@,
        post.orders@ == pre.orders@,
        post.invoices@ == pre.invoices@,
        post.quotes@ == pre.quotes@,
    ensures
        post.wf(),
{
    broadcast use lemma_filter_map_no_dup, lemma_refs_no_dup_sub;

    let mvids = movement_ids(movements_of_product(pre.movements@, pid));

    assert(product_ids(post.products@) == product_ids(products_except(pre.products@, pid)));
    assert(movement_ids(post.movements@)
        == movement_ids(movements_except_product(pre.movements@, pid)));
    assert(order_item_ids(post.order_items@)
        == order_item_ids(order_items_outside(pre.order_items@, mvids)));
    assert(invoice_item_ids(post.invoice_items@)
        == invoice_item_ids(invoice_items_outside(pre.invoice_items@, mvids)));
    assert(quote_item_ids(post.quote_items@)
        == quote_item_ids(quote_items_except_product(pre.quote_items@, pid)));

    // surviving movements still name existing products
    assert forall|i: int| 0 <= i < post.movements@.len()
        implies product_ids(post.products@).contains(
            (#[trigger] post.movements@[i]).product_id@) by {
        let el = post.movements@[i];
        assert(movements_except_product(pre.movements@, pid).contains(el));
        let k = choose|k: int| 0 <= k < pre.movements@.len() && pre.movements@[k] == el;
        assert(el.product_id@ != pid);
        let kp = choose|kp: int| 0 <= kp < pre.products@.len()
            && product_ids(pre.products@)[kp] == el.product_id@;
        assert(pre.products@[kp].id@ == el.product_id@);
        assert(products_except(pre.products@, pid).contains(pre.products@[kp]));
        let jp = choose|jp: int| 0 <= jp < post.products@.len()
            && post.products@[jp] == pre.products@[kp];
        assert(product_ids(post.products@)[jp] == el.product_id@);
    }

    // surviving order items still resolve
    assert forall|i: int| 0 <= i < post.order_items@.len()
        implies order_ids(post.orders@).contains((#[trigger] post.order_items@[i]).order_id@)
            && movement_ids(post.movements@).contains(post.order_items@[i].inventory_id@) by {
        let el = post.order_items@[i];
        assert(order_items_outside(pre.order_items@, mvids).contains(el));
        let k = choose|k: int| 0 <= k < pre.order_items@.len() && pre.order_items@[k] == el;
        assert(!mvids.contains(el.inventory_id@));
        let km = choose|km: int| 0 <= km < pre.movements@.len()
            && movement_ids(pre.movements@)[km] == el.inventory_id@;
        let m = pre.movements@[km];
        if m.product_id@ == pid {
            assert(movements_of_product(pre.movements@, pid).contains(m));
            let jm = choose|jm: int| 0 <= jm < movements_of_product(pre.movements@, pid).len()
                && movements_of_product(pre.movements@, pid)[jm] == m;
            assert(mvids[jm] == el.inventory_id@);
            assert(false);
        }
        assert(movements_except_product(pre.movements@, pid).contains(m));
        let jm = choose|jm: int| 0 <= jm < post.movements@.len() && post.movements@[jm] == m;
        assert(movement_ids(post.movements@)[jm] == el.inventory_id@);
    }

    // surviving invoice items still resolve
    assert forall|i: int| 0 <= i < post.invoice_items@.len()
        implies invoice_ids(post.invoices@).contains(
            (#[trigger] post.invoice_items@[i]).invoice_id@)
            && movement_ids(post.movements@).contains(post.invoice_items@[i].inventory_id@) by {
        let el = post.invoice_items@[i];
        assert(invoice_items_outside(pre.invoice_items@, mvids).contains(el));
        let k = choose|k: int| 0 <= k < pre.invoice_items@.len()
            && pre.invoice_items@[k] == el;
        assert(!mvids.contains(el.inventory_id@));
        let km = choose|km: int| 0 <= km < pre.movements@.len()
            && movement_ids(pre.movements@)[km] == el.inventory_id@;
        let m = pre.movements@[km];
        if m.product_id@ == pid {
            assert(movements_of_product(pre.movements@, pid).contains(m));
            let jm = choose|jm: int| 0 <= jm < movements_of_product(pre.movements@, pid).len()
                && movements_of_product(pre.movements@, pid)[jm] == m;
            assert(mvids[jm] == el.inventory_id@);
            assert(false);
        }
        assert(movements_except_product(pre.movements@, pid).contains(m));
        let jm = choose|jm: int| 0 <= jm < post.movements@.len() && post.movements@[jm] == m;
        assert(movement_ids(post.movements@)[jm] == el.inventory_id@);
    }

    // surviving quote items still resolve
    assert forall|i: int| 0 <= i < post.quote_items@.len()
        implies quote_ids(post.quotes@).contains((#[trigger] post.quote_items@[i]).quote_id@)
            && product_ids(post.products@).contains(post.quote_items@[i].product_id@) by {
        let el = post.quote_items@[i];
        assert(quote_items_except_product(pre.quote_items@, pid).contains(el));
        let k = choose|k: int| 0 <= k < pre.quote_items@.len() && pre.quote_items@[k] == el;
        assert(el.product_id@ != pid);
        let kp = choose|kp: int| 0 <= kp < pre.products@.len()
            && product_ids(pre.products@)[kp] == el.product_id@;
        assert(pre.products@[kp].id@ == el.product_id@);
        assert(products_except(pre.products@, pid).contains(pre.products@[kp]));
        let jp = choose|jp: int| 0 <= jp < post.products@.len()
            && post.products@[jp] == pre.products@[kp];
        assert(product_ids(post.products@)[jp] == el.product_id@);
    }

    // the exclusive-reference rule survives on the shrunken tables
    assert(movement_refs(order_items_outside(pre.order_items@, mvids),
        invoice_items_outside(pre.invoice_items@, mvids)).no_duplicates());
    assert(movement_refs(post.order_items@, post.invoice_items@).no_duplicates());
}

/// After an invoice is deleted, the store is well-formed again.
proof fn lemma_delete_invoice_wf(pre: Store, post: Store, iid: Seq<char>)
    requires
        pre.wf(),
        post.invoices@ == invoices_except(pre.invoices@, iid),
        post.invoice_items@ == invoice_items_except_invoice(pre.invoice_items@, iid),
        post.movements@ == movements_excluding(pre.movements@,
            invoice_item_refs(invoice_items_of_invoice(pre.invoice_items@, iid))),
        post.clients@ == pre.clients@,
        post.suppliers@ == pre.suppliers@,
        post.products@ == pre.products@,
        post.orders@ == pre.orders@,
        post.order_items@ == pre.order_items@,
        post.quotes@ == pre.quotes@,
        post.quote_items@ == pre.quote_items@,
    ensures
        post.wf(),
{
    broadcast use lemma_filter_map_no_dup, lemma_refs_no_dup_sub;

    let rr = invoice_item_refs(invoice_items_of_invoice(pre.invoice_items@, iid));
    let removed = invoice_items_of_invoice(pre.invoice_items@, iid);

    assert forall|j: int| 0 <= j < removed.len()
        implies pre.invoice_items@.contains(#[trigger] removed[j]) by {
        assert(removed.contains(removed[j]));
    }

    assert(invoice_ids(post.invoices@) == invoice_ids(invoices_except(pre.invoices@, iid)));
    assert(invoice_item_ids(post.invoice_items@)
        == invoice_item_ids(invoice_items_except_invoice(pre.invoice_items@, iid)));
    assert(movement_ids(post.movements@)
        == movement_ids(movements_excluding(pre.movements@, rr)));

    // surviving invoices still resolve
    assert forall|i: int| 0 <= i < post.invoices@.len()
        implies client_ids(post.clients@).contains((#[trigger] post.invoices@[i]).client_id@)
            && (post.invoices@[i].order_id is Some
                ==> order_ids(post.orders@).contains(post.invoices@[i].order_id->Some_0@)) by {
        let el = post.invoices@[i];
        assert(invoices_except(pre.invoices@, iid).contains(el));
        let k = choose|k: int| 0 <= k < pre.invoices@.len() && pre.invoices@[k] == el;
        assert(pre.invoices@[k] == el);
    }

    // surviving invoice items still resolve
    assert forall|i: int| 0 <= i < post.invoice_items@.len()
        implies invoice_ids(post.invoices@).contains(
            (#[trigger] post.invoice_items@[i]).invoice_id@)
            && movement_ids(post.movements@).contains(post.invoice_items@[i].inventory_id@) by {
        let el = post.invoice_items@[i];
        assert(invoice_items_except_invoice(pre.invoice_items@, iid).contains(el));
        let k = choose|k: int| 0 <= k < pre.invoice_items@.len()
            && pre.invoice_items@[k] == el;
        assert(el.invoice_id@ != iid);
        // the owning invoice survives the filter
        let kv = choose|kv: int| 0 <= kv < pre.invoices@.len()
            && invoice_ids(pre.invoices@)[kv] == el.invoice_id@;
        assert(pre.invoices@[kv].id@ == el.invoice_id@);
        assert(invoices_except(pre.invoices@, iid).contains(pre.invoices@[kv]));
        let jv = choose|jv: int| 0 <= jv < post.invoices@.len()
            && post.invoices@[jv] == pre.invoices@[kv];
        assert(invoice_ids(post.invoices@)[jv] == el.invoice_id@);
        // the referenced movement survives
        assert forall|j: int| 0 <= j < removed.len()
            implies #[trigger] removed[j] != pre.invoice_items@[k] by {
            assert(removed[j].invoice_id@ == iid);
        }
        lemma_removed_iirefs_miss_survivor(pre, removed, el.inventory_id@, None, Some(k));
        let km = choose|km: int| 0 <= km < pre.movements@.len()
            && movement_ids(pre.movements@)[km] == el.inventory_id@;
        assert(pre.movements@[km].id@ == el.inventory_id@);
        assert(movements_excluding(pre.movements@, rr).contains(pre.movements@[km]));
        let jm = choose|jm: int| 0 <= jm < post.movements@.len()
            && post.movements@[jm] == pre.movements@[km];
        assert(movement_ids(post.movements@)[jm] == el.inventory_id@);
    }

    // surviving movements still name existing products
    assert forall|i: int| 0 <= i < post.movements@.len()
        implies product_ids(post.products@).contains(
            (#[trigger] post.movements@[i]).product_id@) by {
        let el = post.movements@[i];
        assert(movements_excluding(pre.movements@, rr).contains(el));
        let k = choose|k: int| 0 <= k < pre.movements@.len() && pre.movements@[k] == el;
        assert(pre.movements@[k] == el);
    }

    // order items keep resolving: an invoice's lines never shared their
    // movements
    assert forall|i: int| 0 <= i < post.order_items@.len()
        implies order_ids(post.orders@).contains((#[trigger] post.order_items@[i]).order_id@)
            && movement_ids(post.movements@).contains(post.order_items@[i].inventory_id@) by {
        let el = pre.order_items@[i];
        lemma_removed_iirefs_miss_survivor(pre, removed, el.inventory_id@, Some(i), None);
        let km = choose|km: int| 0 <= km < pre.movements@.len()
            && movement_ids(pre.movements@)[km] == el.inventory_id@;
        assert(pre.movements@[km].id@ == el.inventory_id@);
        assert(movements_excluding(pre.movements@, rr).contains(pre.movements@[km]));
        let jm = choose|jm: int| 0 <= jm < post.movements@.len()
            && post.movements@[jm] == pre.movements@[km];
        assert(movement_ids(post.movements@)[jm] == el.inventory_id@);
    }

    // the exclusive-reference rule survives
    assert(all_order_items(pre.order_items@) == pre.order_items@) by {
        lemma_all_order_items(pre.order_items@);
    }
    assert(movement_refs(all_order_items(pre.order_items@),
        invoice_items_except_invoice(pre.invoice_items@, iid)).no_duplicates());
    assert(movement_refs(post.order_items@, post.invoice_items@).no_duplicates());
}

/// The client rows that survive deleting the client `cid`.
pub open spec fn clients_except(s: Seq<Client>, cid: Seq<char>) -> Seq<Client> {
    s.filter(|c: Client| c.id@ != cid)
}

/// The orders that deleting the client `cid` removes.
pub open spec fn orders_of_client(s: Seq<Order>, cid: Seq<char>) -> Seq<Order> {
    s.filter(|o: Order| o.client_id@ == cid)
}

/// The orders that survive deleting the client `cid`.
pub open spec fn orders_except_client(s: Seq<Order>, cid: Seq<char>) -> Seq<Order> {
    s.filter(|o: Order| o.client_id@ != cid)
}

/// The invoices that deleting the client `cid` removes.
pub open spec fn invoices_of_client(s: Seq<Invoice>, cid: Seq<char>) -> Seq<Invoice> {
    s.filter(|v: Invoice| v.client_id@ == cid)
}

/// The invoices that survive deleting the client `cid`.
pub open spec fn invoices_except_client(s: Seq<Invoice>, cid: Seq<char>) -> Seq<Invoice> {
    s.filter(|v: Invoice| v.client_id@ != cid)
}

/// The quotes that deleting the client `cid` removes.
pub open spec fn quotes_of_client(s: Seq<Quote>, cid: Seq<char>) -> Seq<Quote> {
    s.filter(|q: Quote| q.client_id@ == cid)
}

/// The quotes that survive deleting the client `cid`.
pub open spec fn quotes_except_client(s: Seq<Quote>, cid: Seq<char>) -> Seq<Quote> {
    s.filter(|q: Quote| q.client_id@ != cid)
}

/// The order items whose owning order is among the removed ones.
pub open spec fn order_items_of_orders(s: Seq<OrderItem>, oids: Seq<Seq<char>>) -> Seq<
    OrderItem,
> {
    s.filter(|it: OrderItem| oids.contains(it.order_id@))
}

/// The order items whose owning order survives.
pub open spec fn order_items_except_orders(s: Seq<OrderItem>, oids: Seq<Seq<char>>) -> Seq<
    OrderItem,
> {
    s.filter(|it: OrderItem| !oids.contains(it.order_id@))
}

/// The invoice items whose owning invoice is among the removed ones.
pub open spec fn invoice_items_of_invoices(s: Seq<InvoiceItem>, iids: Seq<Seq<char>>) -> Seq<
    InvoiceItem,
> {
    s.filter(|it: InvoiceItem| iids.contains(it.invoice_id@))
}

/// The invoice items whose owning invoice survives.
pub open spec fn invoice_items_except_invoices(s: Seq<InvoiceItem>, iids: Seq<Seq<char>>) -> Seq<
    InvoiceItem,
> {
    s.filter(|it: InvoiceItem| !iids.contains(it.invoice_id@))
}

/// The quote items whose owning quote survives.
pub open spec fn quote_items_except_quotes(s: Seq<QuoteItem>, qids: Seq<Seq<char>>) -> Seq<
    QuoteItem,
> {
    s.filter(|it: QuoteItem| !qids.contains(it.quote_id@))
}

/// The invoice table with every reference into `oids` cleared.
pub open spec fn invoices_cleared_of_orders(s: Seq<Invoice>, oids: Seq<Seq<char>>) -> Seq<
    Invoice,
> {
    s.map_values(|v: Invoice| if v.order_id is Some && oids.contains(v.order_id->Some_0@) {
        Invoice { order_id: None, ..v }
    } else {
        v
    })
}

/// Membership in a concatenation splits over its parts.
pub proof fn lemma_contains_append_split(a: Seq<Seq<char>>, b: Seq<Seq<char>>, x: Seq<char>)
    ensures
        (a + b).contains(x) <==> a.contains(x) || b.contains(x),
{
    if a.contains(x) {
        let w = choose|w: int| 0 <= w < a.len() && a[w] == x;
        assert((a + b)[w] == x);
    }
    if b.contains(x) {
        let w = choose|w: int| 0 <= w < b.len() && b[w] == x;
        assert((a + b)[a.len() + w] == x);
    }
    if (a + b).contains(x) {
        let w = choose|w: int| 0 <= w < (a + b).len() && (a + b)[w] == x;
        if w < a.len() {
            assert(a[w] == x);
        } else {
            assert(b[w - a.len()] == x);
        }
    }
}

impl Store {
    /// Deletes a client with everything it owns: its orders, invoices
    /// and quotes, their line items, and the movements those items
    /// reference. Invoices of other clients that referenced a removed
    /// order keep living with the reference cleared. Returns the number
    /// of rows removed.
    pub fn delete_client(&mut self, id: &String) -> (r: Result<u128, StoreError>)
        requires
            old(self).wf(),
        ensures
            final(self).wf(),
            r is Ok <==> client_ids(old(self).clients@).contains(id@),
            r is Err ==> *final(self) == *old(self) && r->Err_0 == StoreError::NotFound,
            r is Ok ==> final(self).clients@ == clients_except(old(self).clients@, id@)
                && final(self).orders@ == orders_except_client(old(self).orders@, id@)
                && final(self).order_items@ == order_items_except_orders(
                    old(self).order_items@,
                    order_ids(orders_of_client(old(self).orders@, id@)))
                && final(self).invoices@ == invoices_cleared_of_orders(
                    invoices_except_client(old(self).invoices@, id@),
                    order_ids(orders_of_client(old(self).orders@, id@)))
                && final(self).invoice_items@ == invoice_items_except_invoices(
                    old(self).invoice_items@,
                    invoice_ids(invoices_of_client(old(self).invoices@, id@)))
                && final(self).movements@ == movements_excluding(
                    old(self).movements@,
                    order_item_refs(order_items_of_orders(old(self).order_items@,
                        order_ids(orders_of_client(old(self).orders@, id@))))
                    + invoice_item_refs(invoice_items_of_invoices(old(self).invoice_items@,
                        invoice_ids(invoices_of_client(old(self).invoices@, id@)))))
                && final(self).quotes@ == quotes_except_client(old(self).quotes@, id@)
                && final(self).quote_items@ == quote_items_except_quotes(
                    old(self).quote_items@,
                    quote_ids(quotes_of_client(old(self).quotes@, id@)))
                && final(self).suppliers@ == old(self).suppliers@
                && final(self).products@ == old(self).products@
                && r->Ok_0 == 1 + (old(self).orders@.len() - final(self).orders@.len())
                    + (old(self).invoices@.len() - final(self).invoices@.len())
                    + (old(self).quotes@.len() - final(self).quotes@.len())
                    + (old(self).order_items@.len() - final(self).order_items@.len())
                    + (old(self).invoice_items@.len() - final(self).invoice_items@.len())
                    + (old(self).quote_items@.len() - final(self).quote_items@.len())
                    + (old(self).movements@.len() - final(self).movements@.len()),
    {
        if !self.has_client(id) {
            return Err(StoreError::NotFound);
        }
        let ghost pre = *self;
        let ghost cid = id@;

        // the identifiers of the removed documents
        let mut r_oids: Vec<String> = Vec::new();
        let mut i: usize = 0;
        while i < self.orders.len()
            invariant
                0 <= i <= self.orders@.len(),
                *self == *old(self),
                id@ == cid,
                str_views(r_oids@) == order_ids(
                    orders_of_client(self.orders@.subrange(0, i as int), cid)),
            decreases self.orders@.len() - i,
        {
            proof {
                let prefix = self.orders@.subrange(0, i as int);
                assert(self.orders@.subrange(0, i + 1 as int) =~= prefix.push(
                    self.orders@[i as int]));
            }
            let o = &self.orders[i];
            if o.client_id == *id {
                let x = o.id.clone();
                r_oids.push(x);
                proof {
                    let prefix = self.orders@.subrange(0, i as int);
                    assert(str_views(r_oids@) =~= order_ids(
                        orders_of_client(prefix, cid)).push(self.orders@[i as int].id@));
                    assert(order_ids(orders_of_client(prefix, cid).push(self.orders@[i as int]))
                        =~= order_ids(orders_of_client(prefix, cid)).push(
                            self.orders@[i as int].id@));
                }
            }
            i = i + 1;
        }
        proof {
            assert(self.orders@.subrange(0, self.orders@.len() as int) =~= self.orders@);
        }
        let ghost roids = order_ids(orders_of_client(pre.orders@, cid));

        let mut r_iids: Vec<String> = Vec::new();
        let mut i: usize = 0;
        while i < self.invoices.len()
            invariant
                0 <= i <= self.invoices@.len(),
                *self == *old(self),
                id@ == cid,
                str_views(r_iids@) == invoice_ids(
                    invoices_of_client(self.invoices@.subrange(0, i as int), cid)),
            decreases self.invoices@.len() - i,
        {
            proof {
                let prefix = self.invoices@.subrange(0, i as int);
                assert(self.invoices@.subrange(0, i + 1 as int) =~= prefix.push(
                    self.invoices@[i as int]));
            }
            let v = &self.invoices[i];
            if v.client_id == *id {
                let x = v.id.clone();
                r_iids.push(x);
                proof {
                    let prefix = self.invoices@.subrange(0, i as int);
                    assert(str_views(r_iids@) =~= invoice_ids(
                        invoices_of_client(prefix, cid)).push(self.invoices@[i as int].id@));
                    assert(invoice_ids(invoices_of_client(prefix, cid).push(
                        self.invoices@[i as int]))
                        =~= invoice_ids(invoices_of_client(prefix, cid)).push(
                            self.invoices@[i as int].id@));
                }
            }
            i = i + 1;
        }
        proof {
            assert(self.invoices@.subrange(0, self.invoices@.len() as int) =~= self.invoices@);
        }
        let ghost riids = invoice_ids(invoices_of_client(pre.invoices@, cid));

        let mut r_qids: Vec<String> = Vec::new();
        let mut i: usize = 0;
        while i < self.quotes.len()
            invariant
                0 <= i <= self.quotes@.len(),
                *self == *old(self),
                id@ == cid,
                str_views(r_qids@) == quote_ids(
                    quotes_of_client(self.quotes@.subrange(0, i as int), cid)),
            decreases self.quotes@.len() - i,
        {
            proof {
                let prefix = self.quotes@.subrange(0, i as int);
                assert(self.quotes@.subrange(0, i + 1 as int) =~= prefix.push(
                    self.quotes@[i as int]));
            }
            let q = &self.quotes[i];
            if q.client_id == *id {
                let x = q.id.clone();
                r_qids.push(x);
                proof {
                    let prefix = self.quotes@.subrange(0, i as int);
                    assert(str_views(r_qids@) =~= quote_ids(
                        quotes_of_client(prefix, cid)).push(self.quotes@[i as int].id@));
                    assert(quote_ids(quotes_of_client(prefix, cid).push(self.quotes@[i as int]))
                        =~= quote_ids(quotes_of_client(prefix, cid)).push(
                            self.quotes@[i as int].id@));
                }
            }
            i = i + 1;
        }
        proof {
            assert(self.quotes@.subrange(0, self.quotes@.len() as int) =~= self.quotes@);
        }
        let ghost rqids = quote_ids(quotes_of_client(pre.quotes@, cid));

        // the movement references of the removed lines, order side
        let mut rr_o: Vec<String> = Vec::new();
        let mut i: usize = 0;
        while i < self.order_items.len()
            invariant
                0 <= i <= self.order_items@.len(),
                *self == *old(self),
                str_views(r_oids@) == roids,
                str_views(rr_o@) == order_item_refs(
                    order_items_of_orders(self.order_items@.subrange(0, i as int), roids)),
            decreases self.order_items@.len() - i,
        {
            proof {
                let prefix = self.order_items@.subrange(0, i as int);
                assert(self.order_items@.subrange(0, i + 1 as int) =~= prefix.push(
                    self.order_items@[i as int]));
            }
            let it = &self.order_items[i];
            if id_list_contains(&r_oids, &it.order_id) {
                let x = it.inventory_id.clone();
                rr_o.push(x);
                proof {
                    let prefix = self.order_items@.subrange(0, i as int);
                    assert(str_views(rr_o@) =~= order_item_refs(
                        order_items_of_orders(prefix, roids)).push(
                            self.order_items@[i as int].inventory_id@));
                    assert(order_item_refs(order_items_of_orders(prefix, roids).push(
                        self.order_items@[i as int]))
                        =~= order_item_refs(order_items_of_orders(prefix, roids)).push(
                            self.order_items@[i as int].inventory_id@));
                }
            }
            i = i + 1;
        }
        proof {
            assert(self.order_items@.subrange(0, self.order_items@.len() as int)
                =~= self.order_items@);
        }

        // the movement references of the removed lines, invoice side
        let mut rr_i: Vec<String> = Vec::new();
        let mut i: usize = 0;
        while i < self.invoice_items.len()
            invariant
                0 <= i <= self.invoice_items@.len(),
                *self == *old(self),
                str_views(r_iids@) == riids,
                str_views(rr_i@) == invoice_item_refs(
                    invoice_items_of_invoices(
                        self.invoice_items@.subrange(0, i as int), riids)),
            decreases self.invoice_items@.len() - i,
        {
            proof {
                let prefix = self.invoice_items@.subrange(0, i as int);
                assert(self.invoice_items@.subrange(0, i + 1 as int) =~= prefix.push(
                    self.invoice_items@[i as int]));
            }
            let it = &self.invoice_items[i];
            if id_list_contains(&r_iids, &it.invoice_id) {
                let x = it.inventory_id.clone();
                rr_i.push(x);
                proof {
                    let prefix = self.invoice_items@.subrange(0, i as int);
                    assert(str_views(rr_i@) =~= invoice_item_refs(
                        invoice_items_of_invoices(prefix, riids)).push(
                            self.invoice_items@[i as int].inventory_id@));
                    assert(invoice_item_refs(invoice_items_of_invoices(prefix, riids).push(
                        self.invoice_items@[i as int]))
                        =~= invoice_item_refs(invoice_items_of_invoices(prefix, riids)).push(
                            self.invoice_items@[i as int].inventory_id@));
                }
            }
            i = i + 1;
        }
        proof {
            assert(self.invoice_items@.subrange(0, self.invoice_items@.len() as int)
                =~= self.invoice_items@);
        }
        let ghost rr = order_item_refs(order_items_of_orders(pre.order_items@, roids))
            + invoice_item_refs(invoice_items_of_invoices(pre.invoice_items@, riids));

        // movements referenced by any removed line go
        let mut kept_mvs: Vec<InventoryMovement> = Vec::new();
        let mut i: usize = 0;
        while i < self.movements.len()
            invariant
                0 <= i <= self.movements@.len(),
                *self == *old(self),
                str_views(rr_o@) == order_item_refs(
                    order_items_of_orders(self.order_items@, roids)),
                str_views(rr_i@) == invoice_item_refs(
                    invoice_items_of_invoices(self.invoice_items@, riids)),
                rr == str_views(rr_o@) + str_views(rr_i@),
                kept_mvs@ == movements_excluding(self.movements@.subrange(0, i as int), rr),
            decreases self.movements@.len() - i,
        {
            proof {
                let prefix = self.movements@.subrange(0, i as int);
                assert(self.movements@.subrange(0, i + 1 as int) =~= prefix.push(
                    self.movements@[i as int]));
                lemma_contains_append_split(str_views(rr_o@), str_views(rr_i@),
                    self.movements@[i as int].id@);
            }
            let m = &self.movements[i];
            if !id_list_contains(&rr_o, &m.id) && !id_list_contains(&rr_i, &m.id) {
                kept_mvs.push(m.clone());
            }
            i = i + 1;
        }
        proof {
            assert(self.movements@.subrange(0, self.movements@.len() as int) =~= self.movements@);
        }

        // order items of removed orders go
        let mut kept_oi: Vec<OrderItem> = Vec::new();
        let mut i: usize = 0;
        while i < self.order_items.len()
            invariant
                0 <= i <= self.order_items@.len(),
                *self == *old(self),
                str_views(r_oids@) == roids,
                kept_oi@ == order_items_except_orders(
                    self.order_items@.subrange(0, i as int), roids),
            decreases self.order_items@.len() - i,
        {
            proof {
                let prefix = self.order_items@.subrange(0, i as int);
                assert(self.order_items@.subrange(0, i + 1 as int) =~= prefix.push(
                    self.order_items@[i as int]));
            }
            let it = &self.order_items[i];
            if !id_list_contains(&r_oids, &it.order_id) {
                kept_oi.push(it.clone());
            }
            i = i + 1;
        }
        proof {
            assert(self.order_items@.subrange(0, self.order_items@.len() as int)
                =~= self.order_items@);
        }

        // invoice items of removed invoices go
        let mut kept_ii: Vec<InvoiceItem> = Vec::new();
        let mut i: usize = 0;
        while i < self.invoice_items.len()
            invariant
                0 <= i <= self.invoice_items@.len(),
                *self == *old(self),
                str_views(r_iids@) == riids,
                kept_ii@ == invoice_items_except_invoices(
                    self.invoice_items@.subrange(0, i as int), riids),
            decreases self.invoice_items@.len() - i,
        {
            proof {
                let prefix = self.invoice_items@.subrange(0, i as int);
                assert(self.invoice_items@.subrange(0, i + 1 as int) =~= prefix.push(
                    self.invoice_items@[i as int]));
            }
            let it = &self.invoice_items[i];
            if !id_list_contains(&r_iids, &it.invoice_id) {
                kept_ii.push(it.clone());
            }
            i = i + 1;
        }
        proof {
            assert(self.invoice_items@.subrange(0, self.invoice_items@.len() as int)
                =~= self.invoice_items@);
        }

        // quote items of removed quotes go
        let mut kept_qi: Vec<QuoteItem> = Vec::new();
        let mut i: usize = 0;
        while i < self.quote_items.len()
            invariant
                0 <= i <= self.quote_items@.len(),
                *self == *old(self),
                str_views(r_qids@) == rqids,
                kept_qi@ == quote_items_except_quotes(
                    self.quote_items@.subrange(0, i as int), rqids),
            decreases self.quote_items@.len() - i,
        {
            proof {
                let prefix = self.quote_items@.subrange(0, i as int);
                assert(self.quote_items@.subrange(0, i + 1 as int) =~= prefix.push(
                    self.quote_items@[i as int]));
            }
            let it = &self.quote_items[i];
            if !id_list_contains(&r_qids, &it.quote_id) {
                kept_qi.push(it.clone());
            }
            i = i + 1;
        }
        proof {
            assert(self.quote_items@.subrange(0, self.quote_items@.len() as int)
                =~= self.quote_items@);
        }

        // documents and the client row itself go
        let mut kept_orders: Vec<Order> = Vec::new();
        let mut i: usize = 0;
        while i < self.orders.len()
            invariant
                0 <= i <= self.orders@.len(),
                *self == *old(self),
                id@ == cid,
                kept_orders@ == orders_except_client(self.orders@.subrange(0, i as int), cid),
            decreases self.orders@.len() - i,
        {
            proof {
                let prefix = self.orders@.subrange(0, i as int);
                assert(self.orders@.subrange(0, i + 1 as int) =~= prefix.push(
                    self.orders@[i as int]));
            }
            let o = &self.orders[i];
            if !(o.client_id == *id) {
                kept_orders.push(o.clone());
            }
            i = i + 1;
        }
        proof {
            assert(self.orders@.subrange(0, self.orders@.len() as int) =~= self.orders@);
        }

        let mut kept_invoices: Vec<Invoice> = Vec::new();
        let mut i: usize = 0;
        while i < self.invoices.len()
            invariant
                0 <= i <= self.invoices@.len(),
                *self == *old(self),
                id@ == cid,
                kept_invoices@ == invoices_except_client(
                    self.invoices@.subrange(0, i as int), cid),
            decreases self.invoices@.len() - i,
        {
            proof {
                let prefix = self.invoices@.subrange(0, i as int);
                assert(self.invoices@.subrange(0, i + 1 as int) =~= prefix.push(
                    self.invoices@[i as int]));
            }
            let v = &self.invoices[i];
            if !(v.client_id == *id) {
                kept_invoices.push(v.clone());
            }
            i = i + 1;
        }
        proof {
            assert(self.invoices@.subrange(0, self.invoices@.len() as int) =~= self.invoices@);
        }

        let mut kept_quotes: Vec<Quote> = Vec::new();
        let mut i: usize = 0;
        while i < self.quotes.len()
            invariant
                0 <= i <= self.quotes@.len(),
                *self == *old(self),
                id@ == cid,
                kept_quotes@ == quotes_except_client(self.quotes@.subrange(0, i as int), cid),
            decreases self.quotes@.len() - i,
        {
            proof {
                let prefix = self.quotes@.subrange(0, i as int);
                assert(self.quotes@.subrange(0, i + 1 as int) =~= prefix.push(
                    self.quotes@[i as int]));
            }
            let q = &self.quotes[i];
            if !(q.client_id == *id) {
                kept_quotes.push(q.clone());
            }
            i = i + 1;
        }
        proof {
            assert(self.quotes@.subrange(0, self.quotes@.len() as int) =~= self.quotes@);
        }

        let mut kept_clients: Vec<Client> = Vec::new();
        let mut i: usize = 0;
        while i < self.clients.len()
            invariant
                0 <= i <= self.clients@.len(),
                *self == *old(self),
                id@ == cid,
                kept_clients@ == clients_except(self.clients@.subrange(0, i as int), cid),
            decreases self.clients@.len() - i,
        {
            proof {
                let prefix = self.clients@.subrange(0, i as int);
                assert(self.clients@.subrange(0, i + 1 as int) =~= prefix.push(
                    self.clients@[i as int]));
            }
            let c = &self.clients[i];
            if !(c.id == *id) {
                kept_clients.push(c.clone());
            }
            i = i + 1;
        }
        proof {
            assert(self.clients@.subrange(0, self.clients@.len() as int) =~= self.clients@);
        }

        let old_orders_len = self.orders.len();
        let old_invoices_len = self.invoices.len();
        let old_quotes_len = self.quotes.len();
        let old_oi_len = self.order_items.len();
        let old_ii_len = self.invoice_items.len();
        let old_qi_len = self.quote_items.len();
        let old_mvs_len = self.movements.len();
        let new_orders_len = kept_orders.len();
        let new_invoices_len = kept_invoices.len();
        let new_quotes_len = kept_quotes.len();
        let new_oi_len = kept_oi.len();
        let new_ii_len = kept_ii.len();
        let new_qi_len = kept_qi.len();
        let new_mvs_len = kept_mvs.len();

        self.clients = kept_clients;
        self.orders = kept_orders;
        self.invoices = kept_invoices;
        self.quotes = kept_quotes;
        self.order_items = kept_oi;
        self.invoice_items = kept_ii;
        self.quote_items = kept_qi;
        self.movements = kept_mvs;

        // clear the order references of surviving invoices that pointed
        // at a removed order
        let ghost mid = *self;
        let mut i: usize = 0;
        while i < self.invoices.len()
            invariant
                0 <= i <= self.invoices@.len(),
                str_views(r_oids@) == roids,
                self.invoices@.len() == mid.invoices@.len(),
                forall|j: int| 0 <= j < i
                    ==> self.invoices@[j] == invoices_cleared_of_orders(mid.invoices@, roids)[j],
                forall|j: int| i <= j < self.invoices@.len()
                    ==> self.invoices@[j] == #[trigger] mid.invoices@[j],
                self.clients@ == mid.clients@,
                self.suppliers@ == mid.suppliers@,
                self.products@ == mid.products@,
                self.movements@ == mid.movements@,
                self.orders@ == mid.orders@,
                self.order_items@ == mid.order_items@,
                self.invoice_items@ == mid.invoice_items@,
                self.quotes@ == mid.quotes@,
                self.quote_items@ == mid.quote_items@,
            decreases self.invoices@.len() - i,
        {
            let mut clear = false;
            match &self.invoices[i].order_id {
                Some(o) => {
                    if id_list_contains(&r_oids, o) {
                        clear = true;
                    }
                },
                None => {},
            }
            if clear {
                self.invoices[i].order_id = None;
            }
            i = i + 1;
        }
        proof {
            assert(self.invoices@ =~= invoices_cleared_of_orders(
                invoices_except_client(pre.invoices@, cid), roids));
            lemma_delete_client_wf(pre, *self, cid);
        }
        let removed: u128 = 1 + (old_orders_len - new_orders_len) as u128
            + (old_invoices_len - new_invoices_len) as u128
            + (old_quotes_len - new_quotes_len) as u128 + (old_oi_len - new_oi_len) as u128
            + (old_ii_len - new_ii_len) as u128 + (old_qi_len - new_qi_len) as u128
            + (old_mvs_len - new_mvs_len) as u128;
        Ok(removed)
    }
}

/// After a client is deleted, the store is well-formed again.
proof fn lemma_delete_client_wf(pre: Store, post: Store, cid: Seq<char>)
    requires
        pre.wf(),
        post.clients@ == clients_except(pre.clients@, cid),
        post.orders@ == orders_except_client(pre.orders@, cid),
        post.order_items@ == order_items_except_orders(pre.order_items@,
            order_ids(orders_of_client(pre.orders@, cid))),
        post.invoices@ == invoices_cleared_of_orders(
            invoices_except_client(pre.invoices@, cid),
            order_ids(orders_of_client(pre.orders@, cid))),
        post.invoice_items@ == invoice_items_except_invoices(pre.invoice_items@,
            invoice_ids(invoices_of_client(pre.invoices@, cid))),
        post.movements@ == movements_excluding(pre.movements@,
            order_item_refs(order_items_of_orders(pre.order_items@,
                order_ids(orders_of_client(pre.orders@, cid))))
            + invoice_item_refs(invoice_items_of_invoices(pre.invoice_items@,
                invoice_ids(invoices_of_client(pre.invoices@, cid))))),
        post.quotes@ == quotes_except_client(pre.quotes@, cid),
        post.quote_items@ == quote_items_except_quotes(pre.quote_items@,
            quote_ids(quotes_of_client(pre.quotes@, cid))),
        post.suppliers@ == pre.suppliers@,
        post.products@ == pre.products@,
    ensures
        post.wf(),
{
    broadcast use lemma_filter_map_no_dup, lemma_refs_no_dup_sub;

    let roids = order_ids(orders_of_client(pre.orders@, cid));
    let riids = invoice_ids(invoices_of_client(pre.invoices@, cid));
    let rqids = quote_ids(quotes_of_client(pre.quotes@, cid));
    let removed_oi = order_items_of_orders(pre.order_items@, roids);
    let removed_ii = invoice_items_of_invoices(pre.invoice_items@, riids);
    let rr = order_item_refs(removed_oi) + invoice_item_refs(removed_ii);

    assert forall|j: int| 0 <= j < removed_oi.len()
        implies pre.order_items@.contains(#[trigger] removed_oi[j]) by {
        assert(removed_oi.contains(removed_oi[j]));
    }
    assert forall|j: int| 0 <= j < removed_ii.len()
        implies pre.invoice_items@.contains(#[trigger] removed_ii[j]) by {
        assert(removed_ii.contains(removed_ii[j]));
    }

    assert(client_ids(post.clients@) == client_ids(clients_except(pre.clients@, cid)));
    assert(order_ids(post.orders@) == order_ids(orders_except_client(pre.orders@, cid)));
    assert(order_item_ids(post.order_items@)
        == order_item_ids(order_items_except_orders(pre.order_items@, roids)));
    assert(invoice_ids(post.invoices@)
        =~= invoice_ids(invoices_except_client(pre.invoices@, cid)));
    assert(invoice_item_ids(post.invoice_items@)
        == invoice_item_ids(invoice_items_except_invoices(pre.invoice_items@, riids)));
    assert(movement_ids(post.movements@)
        == movement_ids(movements_excluding(pre.movements@, rr)));
    assert(quote_ids(post.quotes@) == quote_ids(quotes_except_client(pre.quotes@, cid)));
    assert(quote_item_ids(post.quote_items@)
        == quote_item_ids(quote_items_except_quotes(pre.quote_items@, rqids)));

    // surviving orders still name surviving clients
    assert forall|i: int| 0 <= i < post.orders@.len()
        implies client_ids(post.clients@).contains((#[trigger] post.orders@[i]).client_id@) by {
        let el = post.orders@[i];
        assert(orders_except_client(pre.orders@, cid).contains(el));
        let k = choose|k: int| 0 <= k < pre.orders@.len() && pre.orders@[k] == el;
        assert(el.client_id@ != cid);
        let kc = choose|kc: int| 0 <= kc < pre.clients@.len()
            && client_ids(pre.clients@)[kc] == el.client_id@;
        assert(pre.clients@[kc].id@ == el.client_id@);
        assert(clients_except(pre.clients@, cid).contains(pre.clients@[kc]));
        let jc = choose|jc: int| 0 <= jc < post.clients@.len()
            && post.clients@[jc] == pre.clients@[kc];
        assert(client_ids(post.clients@)[jc] == el.client_id@);
    }

    // surviving order items still resolve
    assert forall|i: int| 0 <= i < post.order_items@.len()
        implies order_ids(post.orders@).contains((#[trigger] post.order_items@[i]).order_id@)
            && movement_ids(post.movements@).contains(post.order_items@[i].inventory_id@) by {
        let el = post.order_items@[i];
        assert(order_items_except_orders(pre.order_items@, roids).contains(el));
        let k = choose|k: int| 0 <= k < pre.order_items@.len() && pre.order_items@[k] == el;
        assert(!roids.contains(el.order_id@));
        // the owning order survives
        let ko = choose|ko: int| 0 <= ko < pre.orders@.len()
            && order_ids(pre.orders@)[ko] == el.order_id@;
        let o = pre.orders@[ko];
        if o.client_id@ == cid {
            assert(orders_of_client(pre.orders@, cid).contains(o));
            let jo = choose|jo: int| 0 <= jo < orders_of_client(pre.orders@, cid).len()
                && orders_of_client(pre.orders@, cid)[jo] == o;
            assert(roids[jo] == el.order_id@);
            assert(false);
        }
        assert(orders_except_client(pre.orders@, cid).contains(o));
        let jo = choose|jo: int| 0 <= jo < post.orders@.len() && post.orders@[jo] == o;
        assert(order_ids(post.orders@)[jo] == el.order_id@);
        // the referenced movement survives
        assert forall|j: int| 0 <= j < removed_oi.len()
            implies #[trigger] removed_oi[j] != pre.order_items@[k] by {
            assert(roids.contains(removed_oi[j].order_id@));
        }
        lemma_removed_refs_miss_survivor(pre, removed_oi, el.inventory_id@, Some(k), None);
        lemma_removed_iirefs_miss_survivor(pre, removed_ii, el.inventory_id@, Some(k), None);
        lemma_contains_append_split(order_item_refs(removed_oi),
            invoice_item_refs(removed_ii), el.inventory_id@);
        let km = choose|km: int| 0 <= km < pre.movements@.len()
            && movement_ids(pre.movements@)[km] == el.inventory_id@;
        assert(pre.movements@[km].id@ == el.inventory_id@);
        assert(movements_excluding(pre.movements@, rr).contains(pre.movements@[km]));
        let jm = choose|jm: int| 0 <= jm < post.movements@.len()
            && post.movements@[jm] == pre.movements@[km];
        assert(movement_ids(post.movements@)[jm] == el.inventory_id@);
    }

    // surviving movements still name existing products
    assert forall|i: int| 0 <= i < post.movements@.len()
        implies product_ids(post.products@).contains(
            (#[trigger] post.movements@[i]).product_id@) by {
        let el = post.movements@[i];
        assert(movements_excluding(pre.movements@, rr).contains(el));
        let k = choose|k: int| 0 <= k < pre.movements@.len() && pre.movements@[k] == el;
        assert(pre.movements@[k] == el);
    }

    // surviving invoices still resolve
    assert forall|i: int| 0 <= i < post.invoices@.len()
        implies client_ids(post.clients@).contains((#[trigger] post.invoices@[i]).client_id@)
            && (post.invoices@[i].order_id is Some
                ==> order_ids(post.orders@).contains(post.invoices@[i].order_id->Some_0@)) by {
        let v0 = invoices_except_client(pre.invoices@, cid)[i];
        assert(invoices_except_client(pre.invoices@, cid).contains(v0));
        let k = choose|k: int| 0 <= k < pre.invoices@.len() && pre.invoices@[k] == v0;
        assert(v0.client_id@ != cid);
        let kc = choose|kc: int| 0 <= kc < pre.clients@.len()
            && client_ids(pre.clients@)[kc] == v0.client_id@;
        assert(pre.clients@[kc].id@ == v0.client_id@);
        assert(clients_except(pre.clients@, cid).contains(pre.clients@[kc]));
        let jc = choose|jc: int| 0 <= jc < post.clients@.len()
            && post.clients@[jc] == pre.clients@[kc];
        assert(client_ids(post.clients@)[jc] == v0.client_id@);
        assert(post.invoices@[i].client_id@ == v0.client_id@);
        if post.invoices@[i].order_id is Some {
            let oid = post.invoices@[i].order_id->Some_0@;
            assert(v0.order_id is Some && v0.order_id->Some_0@ == oid);
            assert(!roids.contains(oid));
            let ko = choose|ko: int| 0 <= ko < pre.orders@.len()
                && order_ids(pre.orders@)[ko] == oid;
            let o = pre.orders@[ko];
            if o.client_id@ == cid {
                assert(orders_of_client(pre.orders@, cid).contains(o));
                let jo = choose|jo: int| 0 <= jo < orders_of_client(pre.orders@, cid).len()
                    && orders_of_client(pre.orders@, cid)[jo] == o;
                assert(roids[jo] == oid);
                assert(false);
            }
            assert(orders_except_client(pre.orders@, cid).contains(o));
            let jo = choose|jo: int| 0 <= jo < post.orders@.len() && post.orders@[jo] == o;
            assert(order_ids(post.orders@)[jo] == oid);
        }
    }

    // surviving invoice items still resolve
    assert forall|i: int| 0 <= i < post.invoice_items@.len()
        implies invoice_ids(post.invoices@).contains(
            (#[trigger] post.invoice_items@[i]).invoice_id@)
            && movement_ids(post.movements@).contains(post.invoice_items@[i].inventory_id@) by {
        let el = post.invoice_items@[i];
        assert(invoice_items_except_invoices(pre.invoice_items@, riids).contains(el));
        let k = choose|k: int| 0 <= k < pre.invoice_items@.len()
            && pre.invoice_items@[k] == el;
        assert(!riids.contains(el.invoice_id@));
        // the owning invoice survives
        let kv = choose|kv: int| 0 <= kv < pre.invoices@.len()
            && invoice_ids(pre.invoices@)[kv] == el.invoice_id@;
        let v = pre.invoices@[kv];
        if v.client_id@ == cid {
            assert(invoices_of_client(pre.invoices@, cid).contains(v));
            let jv = choose|jv: int| 0 <= jv < invoices_of_client(pre.invoices@, cid).len()
                && invoices_of_client(pre.invoices@, cid)[jv] == v;
            assert(riids[jv] == el.invoice_id@);
            assert(false);
        }
        assert(invoices_except_client(pre.invoices@, cid).contains(v));
        let jv = choose|jv: int| 0 <= jv < invoices_except_client(pre.invoices@, cid).len()
            && invoices_except_client(pre.invoices@, cid)[jv] == v;
        assert(invoice_ids(post.invoices@)[jv] == el.invoice_id@);
        // the referenced movement survives
        assert forall|j: int| 0 <= j < removed_ii.len()
            implies #[trigger] removed_ii[j] != pre.invoice_items@[k] by {
            assert(riids.contains(removed_ii[j].invoice_id@));
        }
        lemma_removed_refs_miss_survivor(pre, removed_oi, el.inventory_id@, None, Some(k));
        lemma_removed_iirefs_miss_survivor(pre, removed_ii, el.inventory_id@, None, Some(k));
        lemma_contains_append_split(order_item_refs(removed_oi),
            invoice_item_refs(removed_ii), el.inventory_id@);
        let km = choose|km: int| 0 <= km < pre.movements@.len()
            && movement_ids(pre.movements@)[km] == el.inventory_id@;
        assert(pre.movements@[km].id@ == el.inventory_id@);
        assert(movements_excluding(pre.movements@, rr).contains(pre.movements@[km]));
        let jm = choose|jm: int| 0 <= jm < post.movements@.len()
            && post.movements@[jm] == pre.movements@[km];
        assert(movement_ids(post.movements@)[jm] == el.inventory_id@);
    }

    // surviving quotes still name surviving clients
    assert forall|i: int| 0 <= i < post.quotes@.len()
        implies client_ids(post.clients@).contains((#[trigger] post.quotes@[i]).client_id@) by {
        let el = post.quotes@[i];
        assert(quotes_except_client(pre.quotes@, cid).contains(el));
        let k = choose|k: int| 0 <= k < pre.quotes@.len() && pre.quotes@[k] == el;
        assert(el.client_id@ != cid);
        let kc = choose|kc: int| 0 <= kc < pre.clients@.len()
            && client_ids(pre.clients@)[kc] == el.client_id@;
        assert(pre.clients@[kc].id@ == el.client_id@);
        assert(clients_except(pre.clients@, cid).contains(pre.clients@[kc]));
        let jc = choose|jc: int| 0 <= jc < post.clients@.len()
            && post.clients@[jc] == pre.clients@[kc];
        assert(client_ids(post.clients@)[jc] == el.client_id@);
    }

    // surviving quote items still resolve
    assert forall|i: int| 0 <= i < post.quote_items@.len()
        implies quote_ids(post.quotes@).contains((#[trigger] post.quote_items@[i]).quote_id@)
            && product_ids(post.products@).contains(post.quote_items@[i].product_id@) by {
        let el = post.quote_items@[i];
        assert(quote_items_except_quotes(pre.quote_items@, rqids).contains(el));
        let k = choose|k: int| 0 <= k < pre.quote_items@.len() && pre.quote_items@[k] == el;
        assert(!rqids.contains(el.quote_id@));
        let kq = choose|kq: int| 0 <= kq < pre.quotes@.len()
            && quote_ids(pre.quotes@)[kq] == el.quote_id@;
        let q = pre.quotes@[kq];
        if q.client_id@ == cid {
            assert(quotes_of_client(pre.quotes@, cid).contains(q));
            let jq = choose|jq: int| 0 <= jq < quotes_of_client(pre.quotes@, cid).len()
                && quotes_of_client(pre.quotes@, cid)[jq] == q;
            assert(rqids[jq] == el.quote_id@);
            assert(false);
        }
        assert(quotes_except_client(pre.quotes@, cid).contains(q));
        let jq = choose|jq: int| 0 <= jq < post.quotes@.len() && post.quotes@[jq] == q;
        assert(quote_ids(post.quotes@)[jq] == el.quote_id@);
    }

    // the exclusive-reference rule survives on the shrunken tables
    assert(movement_refs(order_items_except_orders(pre.order_items@, roids),
        invoice_items_except_invoices(pre.invoice_items@, riids)).no_duplicates());
    assert(movement_refs(post.order_items@, post.invoice_items@).no_duplicates());
}

/// After an order is deleted, the store is well-formed again.
proof fn lemma_delete_order_wf(pre: Store, post: Store, oid: Seq<char>)
    requires
        pre.wf(),
        post.orders@ == orders_except(pre.orders@, oid),
        post.order_items@ == order_items_except_order(pre.order_items@, oid),
        post.movements@ == movements_excluding(pre.movements@,
            order_item_refs(order_items_of_order(pre.order_items@, oid))),
        post.invoices@ == invoices_cleared_of_order(pre.invoices@, oid),
        post.clients@ == pre.clients@,
        post.suppliers@ == pre.suppliers@,
        post.products@ == pre.products@,
        post.invoice_items@ == pre.invoice_items@,
        post.quotes@ == pre.quotes@,
        post.quote_items@ == pre.quote_items@,
    ensures
        post.wf(),
{
    broadcast use lemma_filter_map_no_dup, lemma_refs_no_dup_sub;

    let rr = order_item_refs(order_items_of_order(pre.order_items@, oid));
    let removed = order_items_of_order(pre.order_items@, oid);

    // removed lines are rows of the old item table, and differ from every
    // surviving line
    assert forall|j: int| 0 <= j < removed.len()
        implies pre.order_items@.contains(#[trigger] removed[j]) by {
        assert(removed.contains(removed[j]));
    }

    // key uniqueness of the shrunken tables comes from the filters
    assert(order_ids(post.orders@) == order_ids(orders_except(pre.orders@, oid)));
    assert(order_item_ids(post.order_items@)
        == order_item_ids(order_items_except_order(pre.order_items@, oid)));
    assert(movement_ids(post.movements@)
        == movement_ids(movements_excluding(pre.movements@, rr)));
    assert(invoice_ids(post.invoices@) =~= invoice_ids(pre.invoices@));

    // surviving orders still name existing clients
    assert forall|i: int| 0 <= i < post.orders@.len()
        implies client_ids(post.clients@).contains((#[trigger] post.orders@[i]).client_id@) by {
        let el = post.orders@[i];
        assert(orders_except(pre.orders@, oid).contains(el));
        let k = choose|k: int| 0 <= k < pre.orders@.len() && pre.orders@[k] == el;
        assert(pre.orders@[k] == el);
    }

    // surviving order items still resolve
    assert forall|i: int| 0 <= i < post.order_items@.len()
        implies order_ids(post.orders@).contains((#[trigger] post.order_items@[i]).order_id@)
            && movement_ids(post.movements@).contains(post.order_items@[i].inventory_id@) by {
        let el = post.order_items@[i];
        assert(order_items_except_order(pre.order_items@, oid).contains(el));
        let k = choose|k: int| 0 <= k < pre.order_items@.len() && pre.order_items@[k] == el;
        assert(el.order_id@ != oid);
        // the owning order survives the filter
        let ko = choose|ko: int| 0 <= ko < pre.orders@.len()
            && order_ids(pre.orders@)[ko] == el.order_id@;
        assert(pre.orders@[ko].id@ == el.order_id@);
        assert(orders_except(pre.orders@, oid).contains(pre.orders@[ko]));
        let jo = choose|jo: int| 0 <= jo < post.orders@.len()
            && post.orders@[jo] == pre.orders@[ko];
        assert(order_ids(post.orders@)[jo] == el.order_id@);
        // the referenced movement survives: a removed line never shares it
        assert forall|j: int| 0 <= j < removed.len()
            implies #[trigger] removed[j] != pre.order_items@[k] by {
            assert(removed[j].order_id@ == oid);
        }
        lemma_removed_refs_miss_survivor(pre, removed, el.inventory_id@, Some(k), None);
        let km = choose|km: int| 0 <= km < pre.movements@.len()
            && movement_ids(pre.movements@)[km] == el.inventory_id@;
        assert(pre.movements@[km].id@ == el.inventory_id@);
        assert(movements_excluding(pre.movements@, rr).contains(pre.movements@[km]));
        let jm = choose|jm: int| 0 <= jm < post.movements@.len()
            && post.movements@[jm] == pre.movements@[km];
        assert(movement_ids(post.movements@)[jm] == el.inventory_id@);
    }

    // surviving movements still name existing products
    assert forall|i: int| 0 <= i < post.movements@.len()
        implies product_ids(post.products@).contains(
            (#[trigger] post.movements@[i]).product_id@) by {
        let el = post.movements@[i];
        assert(movements_excluding(pre.movements@, rr).contains(el));
        let k = choose|k: int| 0 <= k < pre.movements@.len() && pre.movements@[k] == el;
        assert(pre.movements@[k] == el);
    }

    // cleared invoices still resolve
    assert forall|i: int| 0 <= i < post.invoices@.len()
        implies client_ids(post.clients@).contains((#[trigger] post.invoices@[i]).client_id@)
            && (post.invoices@[i].order_id is Some
                ==> order_ids(post.orders@).contains(post.invoices@[i].order_id->Some_0@)) by {
        let v0 = pre.invoices@[i];
        assert(post.invoices@[i] == invoice_cleared_of_order(v0, oid));
        if post.invoices@[i].order_id is Some {
            let o = post.invoices@[i].order_id->Some_0@;
            assert(v0.order_id is Some && v0.order_id->Some_0@ == o && o != oid);
            let ko = choose|ko: int| 0 <= ko < pre.orders@.len()
                && order_ids(pre.orders@)[ko] == o;
            assert(pre.orders@[ko].id@ == o);
            assert(orders_except(pre.orders@, oid).contains(pre.orders@[ko]));
            let jo = choose|jo: int| 0 <= jo < post.orders@.len()
                && post.orders@[jo] == pre.orders@[ko];
            assert(order_ids(post.orders@)[jo] == o);
        }
    }

    // invoice items keep resolving: their invoices were not removed, and
    // an order's lines never shared their movements
    assert forall|i: int| 0 <= i < post.invoice_items@.len()
        implies invoice_ids(post.invoices@).contains(
            (#[trigger] post.invoice_items@[i]).invoice_id@)
            && movement_ids(post.movements@).contains(post.invoice_items@[i].inventory_id@) by {
        let el = pre.invoice_items@[i];
        lemma_removed_refs_miss_survivor(pre, removed, el.inventory_id@, None, Some(i));
        let km = choose|km: int| 0 <= km < pre.movements@.len()
            && movement_ids(pre.movements@)[km] == el.inventory_id@;
        assert(pre.movements@[km].id@ == el.inventory_id@);
        assert(movements_excluding(pre.movements@, rr).contains(pre.movements@[km]));
        let jm = choose|jm: int| 0 <= jm < post.movements@.len()
            && post.movements@[jm] == pre.movements@[km];
        assert(movement_ids(post.movements@)[jm] == el.inventory_id@);
    }

    // the exclusive-reference rule survives on the shrunken tables
    assert(all_invoice_items(pre.invoice_items@) == pre.invoice_items@) by {
        lemma_all_invoice_items(pre.invoice_items@);
    }
    assert(movement_refs(order_items_except_order(pre.order_items@, oid),
        all_invoice_items(pre.invoice_items@)).no_duplicates());
    assert(movement_refs(post.order_items@, post.invoice_items@).no_duplicates());
}

/// Filtering with a vacuous test keeps every invoice item.
pub open spec fn all_invoice_items(s: Seq<InvoiceItem>) -> Seq<InvoiceItem> {
    s.filter(|it: InvoiceItem| true)
}

/// Filtering with a vacuous test keeps every order item.
pub open spec fn all_order_items(s: Seq<OrderItem>) -> Seq<OrderItem> {
    s.filter(|it: OrderItem| true)
}

proof fn lemma_all_invoice_items(s: Seq<InvoiceItem>)
    ensures
        all_invoice_items(s) == s,
    decreases s.len(),
{
    if s.len() > 0 {
        let s0 = s.drop_last();
        lemma_all_invoice_items(s0);
        assert(s0.push(s.last()) =~= s);
        assert(all_invoice_items(s0.push(s.last())) == all_invoice_items(s0).push(s.last()));
    }
}

proof fn lemma_all_order_items(s: Seq<OrderItem>)
    ensures
        all_order_items(s) == s,
    decreases s.len(),
{
    if s.len() > 0 {
        let s0 = s.drop_last();
        lemma_all_order_items(s0);
        assert(s0.push(s.last()) =~= s);
        assert(all_order_items(s0.push(s.last())) == all_order_items(s0).push(s.last()));
    }
}

} // verus!
