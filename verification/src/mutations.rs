//! Mutations of the store: inserts, status/paid-amount updates, and the
//! cascading deletes.
//!
//! Every operation is all-or-nothing: on any error the store is returned
//! unchanged. Identifiers are supplied by the caller (they are
//! client-generatable tokens); an operation rejects an identifier that is
//! already taken rather than overwrite a row.

use vstd::prelude::*;
use crate::model::{
    Client, Supplier, Product, InventoryMovement, MovementKind, Order, OrderItem, Invoice,
    InvoiceItem, Quote, QuoteItem, NewOrder, NewInvoice, NewDocItem, NewQuoteItem, StoreError,
};
use crate::store::{
    Store, client_ids, supplier_ids, product_ids, movement_ids, order_ids, order_item_ids,
    invoice_ids, invoice_item_ids, quote_ids, quote_item_ids, movement_refs, index_of_id,
};

verus! {

/// Membership in an id sequence survives appending another id.
pub proof fn lemma_contains_push(ids: Seq<Seq<char>>, x: Seq<char>, y: Seq<char>)
    requires
        ids.contains(y),
    ensures
        ids.push(x).contains(y),
{
    let w = choose|w: int| 0 <= w < ids.len() && ids[w] == y;
    assert(ids.push(x)[w] == y);
}

/// Appending a fresh id keeps an id sequence duplicate-free.
pub proof fn lemma_no_dup_push(ids: Seq<Seq<char>>, x: Seq<char>)
    requires
        ids.no_duplicates(),
        !ids.contains(x),
    ensures
        ids.push(x).no_duplicates(),
{
    let p = ids.push(x);
    assert forall|i: int, j: int| 0 <= i < j < p.len() implies p[i] != p[j] by {
        if j == ids.len() {
            assert(ids.contains(ids[i]));
        }
    }
}

/// Membership in an id sequence survives appending a whole sequence.
pub proof fn lemma_contains_append(ids: Seq<Seq<char>>, more: Seq<Seq<char>>, y: Seq<char>)
    requires
        ids.contains(y),
    ensures
        (ids + more).contains(y),
{
    let w = choose|w: int| 0 <= w < ids.len() && ids[w] == y;
    assert((ids + more)[w] == y);
}

/// Appending pairwise-fresh ids keeps an id sequence duplicate-free.
pub proof fn lemma_no_dup_append(a: Seq<Seq<char>>, b: Seq<Seq<char>>)
    requires
        a.no_duplicates(),
        b.no_duplicates(),
        forall|k: int| 0 <= k < b.len() ==> !a.contains(#[trigger] b[k]),
    ensures
        (a + b).no_duplicates(),
{
    let p = a + b;
    assert forall|i: int, j: int| 0 <= i < j < p.len() implies p[i] != p[j] by {
        if i < a.len() && j >= a.len() {
            assert(a.contains(a[i]));
            assert(p[j] == b[j - a.len()]);
        }
    }
}

/// Splicing fresh ids into the reference list keeps it duplicate-free.
///
/// `a` and `c` are the old reference regions (each reference resolves in
/// `mids`), `b` is a duplicate-free batch of ids outside `mids`; the rule
/// survives whether the batch lands between the regions or after them.
pub proof fn lemma_refs_no_dup_splice(
    a: Seq<Seq<char>>,
    b: Seq<Seq<char>>,
    c: Seq<Seq<char>>,
    mids: Seq<Seq<char>>,
)
    requires
        (a + c).no_duplicates(),
        b.no_duplicates(),
        forall|k: int| 0 <= k < b.len() ==> !mids.contains(#[trigger] b[k]),
        forall|k: int| 0 <= k < a.len() ==> mids.contains(#[trigger] a[k]),
        forall|k: int| 0 <= k < c.len() ==> mids.contains(#[trigger] c[k]),
    ensures
        (a + b + c).no_duplicates(),
        (a + (c + b)).no_duplicates(),
{
    let oldrefs = a + c;
    let mid = a + b + c;
    let tail = a + (c + b);
    assert forall|i: int, j: int| 0 <= i < j < mid.len() implies mid[i] != mid[j] by {
        let oi = if i < a.len() { i } else { i - b.len() };
        let oj = if j < a.len() { j } else { j - b.len() };
        if a.len() <= i < a.len() + b.len() {
            if a.len() <= j < a.len() + b.len() {
                assert(mid[i] == b[i - a.len()] && mid[j] == b[j - a.len()]);
            } else {
                assert(mid[i] == b[i - a.len()] && mid[j] == oldrefs[oj]);
            }
        } else if a.len() <= j < a.len() + b.len() {
            assert(mid[i] == oldrefs[oi] && mid[j] == b[j - a.len()]);
        } else {
            assert(mid[i] == oldrefs[oi] && mid[j] == oldrefs[oj]);
        }
    }
    assert forall|i: int, j: int| 0 <= i < j < tail.len() implies tail[i] != tail[j] by {
        let na = a.len();
        let nc = c.len();
        if i < na + nc && j < na + nc {
            assert(tail[i] == oldrefs[i] && tail[j] == oldrefs[j]);
        } else if i < na + nc {
            if i < na {
                assert(tail[i] == oldrefs[i]);
            } else {
                assert(tail[i] == oldrefs[i]);
            }
            assert(tail[j] == b[j - na - nc]);
        } else {
            assert(tail[i] == b[i - na - nc] && tail[j] == b[j - na - nc]);
        }
    }
}

/// The order-item rows created for a new order.
pub open spec fn new_order_item_rows(order_id: String, items: Seq<NewDocItem>) -> Seq<OrderItem> {
    items.map_values(|it: NewDocItem| (OrderItem {
        id: it.id,
        price: it.price,
        order_id: order_id,
        inventory_id: it.inventory_id,
    }))
}

/// The invoice-item rows created for a new invoice.
pub open spec fn new_invoice_item_rows(
    invoice_id: String,
    items: Seq<NewDocItem>,
) -> Seq<InvoiceItem> {
    items.map_values(|it: NewDocItem| (InvoiceItem {
        id: it.id,
        price: it.price,
        invoice_id: invoice_id,
        inventory_id: it.inventory_id,
    }))
}

/// The `Out` movements created alongside the item rows of a new document:
/// one depletion event per sold line.
pub open spec fn new_out_movements(items: Seq<NewDocItem>, created_at: u64) -> Seq<
    InventoryMovement,
> {
    items.map_values(|it: NewDocItem| (InventoryMovement {
        id: it.inventory_id,
        kind: MovementKind::Out,
        quantity: it.quantity,
        product_id: it.product_id,
        created_at: created_at,
    }))
}

/// Every line of the request names an existing product.
pub open spec fn doc_items_products_ok(s: Store, items: Seq<NewDocItem>) -> bool {
    forall|k: int| 0 <= k < items.len()
        ==> product_ids(s.products@).contains((#[trigger] items[k]).product_id@)
}

/// The identifiers of the request lines are fresh and pairwise distinct:
/// the item ids against the given item table, the movement ids against
/// the movement table.
pub open spec fn doc_items_fresh(
    item_ids: Seq<Seq<char>>,
    s: Store,
    items: Seq<NewDocItem>,
) -> bool {
    &&& forall|k: int| 0 <= k < items.len() ==> !item_ids.contains((#[trigger] items[k]).id@)
    &&& forall|k: int| 0 <= k < items.len()
        ==> !movement_ids(s.movements@).contains((#[trigger] items[k]).inventory_id@)
    &&& forall|k: int, l: int| 0 <= k < l < items.len()
        ==> items[k].id@ != items[l].id@ && items[k].inventory_id@ != items[l].inventory_id@
}

impl Store {
    /// Inserts a client row. Rejected only when the id is already taken.
    pub fn create_client(&mut self, c: Client) -> (r: Result<(), StoreError>)
        requires
            old(self).wf(),
        ensures
            final(self).wf(),
            r is Ok <==> !client_ids(old(self).clients@).contains(c.id@),
            r is Err ==> *final(self) == *old(self) && r->Err_0 == StoreError::Constraint,
            r is Ok ==> final(self).clients@ == old(self).clients@.push(c)
                && final(self).suppliers@ == old(self).suppliers@
                && final(self).products@ == old(self).products@
                && final(self).movements@ == old(self).movements@
                && final(self).orders@ == old(self).orders@
                && final(self).order_items@ == old(self).order_items@
                && final(self).invoices@ == old(self).invoices@
                && final(self).invoice_items@ == old(self).invoice_items@
                && final(self).quotes@ == old(self).quotes@
                && final(self).quote_items@ == old(self).quote_items@,
    {
        if self.has_client(&c.id) {
            return Err(StoreError::Constraint);
        }
        let ghost pre = *self;
        let ghost cid = c.id@;
        self.clients.push(c);
        proof {
            assert(client_ids(self.clients@) =~= client_ids(pre.clients@).push(cid));
            lemma_no_dup_push(client_ids(pre.clients@), cid);
            assert forall|i: int| 0 <= i < self.orders@.len()
                implies client_ids(self.clients@).contains(
                    (#[trigger] self.orders@[i]).client_id@) by {
                lemma_contains_push(client_ids(pre.clients@), cid, self.orders@[i].client_id@);
            }
            assert forall|i: int| 0 <= i < self.invoices@.len()
                implies client_ids(self.clients@).contains(
                    (#[trigger] self.invoices@[i]).client_id@) by {
                lemma_contains_push(client_ids(pre.clients@), cid, self.invoices@[i].client_id@);
            }
            assert forall|i: int| 0 <= i < self.quotes@.len()
                implies client_ids(self.clients@).contains(
                    (#[trigger] self.quotes@[i]).client_id@) by {
                lemma_contains_push(client_ids(pre.clients@), cid, self.quotes@[i].client_id@);
            }
        }
        Ok(())
    }

    /// Inserts a supplier row. Rejected only when the id is already taken.
    pub fn create_supplier(&mut self, s: Supplier) -> (r: Result<(), StoreError>)
        requires
            old(self).wf(),
        ensures
            final(self).wf(),
            r is Ok <==> !supplier_ids(old(self).suppliers@).contains(s.id@),
            r is Err ==> *final(self) == *old(self) && r->Err_0 == StoreError::Constraint,
            r is Ok ==> final(self).suppliers@ == old(self).suppliers@.push(s)
                && final(self).clients@ == old(self).clients@
                && final(self).products@ == old(self).products@
                && final(self).movements@ == old(self).movements@
                && final(self).orders@ == old(self).orders@
                && final(self).order_items@ == old(self).order_items@
                && final(self).invoices@ == old(self).invoices@
                && final(self).invoice_items@ == old(self).invoice_items@
                && final(self).quotes@ == old(self).quotes@
                && final(self).quote_items@ == old(self).quote_items@,
    {
        if self.has_supplier(&s.id) {
            return Err(StoreError::Constraint);
        }
        let ghost pre = *self;
        let ghost sid = s.id@;
        self.suppliers.push(s);
        proof {
            assert(supplier_ids(self.suppliers@) =~= supplier_ids(pre.suppliers@).push(sid));
            lemma_no_dup_push(supplier_ids(pre.suppliers@), sid);
        }
        Ok(())
    }

    /// Inserts a product row. Rejected only when the id is already taken.
    pub fn create_product(&mut self, p: Product) -> (r: Result<(), StoreError>)
        requires
            old(self).wf(),
        ensures
            final(self).wf(),
            r is Ok <==> !product_ids(old(self).products@).contains(p.id@),
            r is Err ==> *final(self) == *old(self) && r->Err_0 == StoreError::Constraint,
            r is Ok ==> final(self).products@ == old(self).products@.push(p)
                && final(self).clients@ == old(self).clients@
                && final(self).suppliers@ == old(self).suppliers@
                && final(self).movements@ == old(self).movements@
                && final(self).orders@ == old(self).orders@
                && final(self).order_items@ == old(self).order_items@
                && final(self).invoices@ == old(self).invoices@
                && final(self).invoice_items@ == old(self).invoice_items@
                && final(self).quotes@ == old(self).quotes@
                && final(self).quote_items@ == old(self).quote_items@,
    {
        if self.has_product(&p.id) {
            return Err(StoreError::Constraint);
        }
        let ghost pre = *self;
        let ghost pid = p.id@;
        self.products.push(p);
        proof {
            assert(product_ids(self.products@) =~= product_ids(pre.products@).push(pid));
            lemma_no_dup_push(product_ids(pre.products@), pid);
            assert forall|i: int| 0 <= i < self.movements@.len()
                implies product_ids(self.products@).contains(
                    (#[trigger] self.movements@[i]).product_id@) by {
                lemma_contains_push(product_ids(pre.products@), pid, self.movements@[i].product_id@);
            }
            assert forall|i: int| 0 <= i < self.quote_items@.len()
                implies product_ids(self.products@).contains(
                    (#[trigger] self.quote_items@[i]).product_id@) by {
                lemma_contains_push(
                    product_ids(pre.products@), pid, self.quote_items@[i].product_id@);
            }
        }
        Ok(())
    }

    /// Records a stock event. The owning product must exist; the movement
    /// id must be fresh.
    pub fn create_inventory_movement(&mut self, m: InventoryMovement) -> (r: Result<
        (),
        StoreError,
    >)
        requires
            old(self).wf(),
        ensures
            final(self).wf(),
            r is Ok <==> product_ids(old(self).products@).contains(m.product_id@)
                && !movement_ids(old(self).movements@).contains(m.id@),
            r == Err::<(), StoreError>(StoreError::Validation)
                <==> !product_ids(old(self).products@).contains(m.product_id@),
            r == Err::<(), StoreError>(StoreError::Constraint)
                <==> product_ids(old(self).products@).contains(m.product_id@)
                    && movement_ids(old(self).movements@).contains(m.id@),
            r is Err ==> *final(self) == *old(self),
            r is Ok ==> final(self).movements@ == old(self).movements@.push(m)
                && final(self).clients@ == old(self).clients@
                && final(self).suppliers@ == old(self).suppliers@
                && final(self).products@ == old(self).products@
                && final(self).orders@ == old(self).orders@
                && final(self).order_items@ == old(self).order_items@
                && final(self).invoices@ == old(self).invoices@
                && final(self).invoice_items@ == old(self).invoice_items@
                && final(self).quotes@ == old(self).quotes@
                && final(self).quote_items@ == old(self).quote_items@,
    {
        if !self.has_product(&m.product_id) {
            return Err(StoreError::Validation);
        }
        if self.has_movement(&m.id) {
            return Err(StoreError::Constraint);
        }
        let ghost pre = *self;
        let ghost mid = m.id@;
        self.movements.push(m);
        proof {
            assert(movement_ids(self.movements@) =~= movement_ids(pre.movements@).push(mid));
            lemma_no_dup_push(movement_ids(pre.movements@), mid);
            assert forall|i: int| 0 <= i < self.order_items@.len()
                implies movement_ids(self.movements@).contains(
                    (#[trigger] self.order_items@[i]).inventory_id@) by {
                lemma_contains_push(
                    movement_ids(pre.movements@), mid, self.order_items@[i].inventory_id@);
            }
            assert forall|i: int| 0 <= i < self.invoice_items@.len()
                implies movement_ids(self.movements@).contains(
                    (#[trigger] self.invoice_items@[i]).inventory_id@) by {
                lemma_contains_push(
                    movement_ids(pre.movements@), mid, self.invoice_items@[i].inventory_id@);
            }
        }
        Ok(())
    }
    /// Creates an order with its line items. Each line inserts one item
    /// row and one fresh `Out` movement that the item references
    /// exclusively.
    ///
    /// Fails with `Validation` when the client or a line's product does
    /// not exist, and with `Constraint` when any supplied identifier is
    /// already taken or repeated within the request.
    pub fn create_order(
        &mut self,
        order_id: String,
        o: NewOrder,
        items: Vec<NewDocItem>,
        created_at: u64,
    ) -> (r: Result<(), StoreError>)
        requires
            old(self).wf(),
        ensures
            final(self).wf(),
            r is Ok <==> client_ids(old(self).clients@).contains(o.client_id@)
                && doc_items_products_ok(*old(self), items@)
                && !order_ids(old(self).orders@).contains(order_id@)
                && doc_items_fresh(order_item_ids(old(self).order_items@), *old(self), items@),
            r == Err::<(), StoreError>(StoreError::Validation)
                <==> !(client_ids(old(self).clients@).contains(o.client_id@)
                    && doc_items_products_ok(*old(self), items@)),
            r is Err ==> *final(self) == *old(self),
            r is Ok ==> final(self).orders@ == old(self).orders@.push(
                (Order {
                    id: order_id,
                    client_id: o.client_id,
                    status: o.status,
                    created_at: created_at,
                }))
                && final(self).order_items@ == old(self).order_items@
                    + new_order_item_rows(order_id, items@)
                && final(self).movements@ == old(self).movements@
                    + new_out_movements(items@, created_at)
                && final(self).clients@ == old(self).clients@
                && final(self).suppliers@ == old(self).suppliers@
                && final(self).products@ == old(self).products@
                && final(self).invoices@ == old(self).invoices@
                && final(self).invoice_items@ == old(self).invoice_items@
                && final(self).quotes@ == old(self).quotes@
                && final(self).quote_items@ == old(self).quote_items@,
    {
        if !self.has_client(&o.client_id) {
            return Err(StoreError::Validation);
        }
        let mut k: usize = 0;
        while k < items.len()
            invariant
                0 <= k <= items@.len(),
                old(self).wf(),
                *self == *old(self),
                forall|j: int| 0 <= j < k
                    ==> product_ids(self.products@).contains((#[trigger] items@[j]).product_id@),
            decreases items@.len() - k,
        {
            if !self.has_product(&items[k].product_id) {
                return Err(StoreError::Validation);
            }
            k = k + 1;
        }
        if self.has_order(&order_id) {
            return Err(StoreError::Constraint);
        }
        let mut k: usize = 0;
        while k < items.len()
            invariant
                0 <= k <= items@.len(),
                old(self).wf(),
                *self == *old(self),
                client_ids(old(self).clients@).contains(o.client_id@),
                doc_items_products_ok(*old(self), items@),
                !order_ids(old(self).orders@).contains(order_id@),
                forall|j: int| 0 <= j < k
                    ==> !order_item_ids(self.order_items@).contains((#[trigger] items@[j]).id@),
                forall|j: int| 0 <= j < k
                    ==> !movement_ids(self.movements@).contains(
                        (#[trigger] items@[j]).inventory_id@),
                forall|j: int, l: int| 0 <= j < l < k
                    ==> items@[j].id@ != items@[l].id@
                        && items@[j].inventory_id@ != items@[l].inventory_id@,
            decreases items@.len() - k,
        {
            if self.has_order_item(&items[k].id) {
                return Err(StoreError::Constraint);
            }
            if self.has_movement(&items[k].inventory_id) {
                return Err(StoreError::Constraint);
            }
            let mut l: usize = 0;
            while l < k
                invariant
                    0 <= l <= k < items@.len(),
                    old(self).wf(),
                    *self == *old(self),
                    client_ids(old(self).clients@).contains(o.client_id@),
                    doc_items_products_ok(*old(self), items@),
                    !order_ids(old(self).orders@).contains(order_id@),
                    forall|j: int| 0 <= j < l
                        ==> items@[j].id@ != items@[k as int].id@
                            && items@[j].inventory_id@ != items@[k as int].inventory_id@,
                decreases k - l,
            {
                if items[l].id == items[k].id {
                    return Err(StoreError::Constraint);
                }
                if items[l].inventory_id == items[k].inventory_id {
                    return Err(StoreError::Constraint);
                }
                l = l + 1;
            }
            k = k + 1;
        }
        let ghost pre = *self;
        let ghost oid = order_id@;
        let ghost itemseq = items@;
        let row = Order {
            id: order_id.clone(),
            client_id: o.client_id,
            status: o.status,
            created_at,
        };
        let ghost orow = row;
        self.orders.push(row);
        let mut k: usize = 0;
        while k < items.len()
            invariant
                0 <= k <= items@.len(),
                items@ == itemseq,
                order_id@ == oid,
                self.orders@ == pre.orders@.push(orow),
                self.order_items@ == pre.order_items@
                    + new_order_item_rows(order_id, itemseq.subrange(0, k as int)),
                self.movements@ == pre.movements@
                    + new_out_movements(itemseq.subrange(0, k as int), created_at),
                self.clients@ == pre.clients@,
                self.suppliers@ == pre.suppliers@,
                self.products@ == pre.products@,
                self.invoices@ == pre.invoices@,
                self.invoice_items@ == pre.invoice_items@,
                self.quotes@ == pre.quotes@,
                self.quote_items@ == pre.quote_items@,
            decreases items@.len() - k,
        {
            let it = &items[k];
            let item_row = OrderItem {
                id: it.id.clone(),
                price: it.price,
                order_id: order_id.clone(),
                inventory_id: it.inventory_id.clone(),
            };
            let mv_row = InventoryMovement {
                id: it.inventory_id.clone(),
                kind: MovementKind::Out,
                quantity: it.quantity,
                product_id: it.product_id.clone(),
                created_at,
            };
            proof {
                assert(new_order_item_rows(order_id, itemseq.subrange(0, k + 1 as int))
                    =~= new_order_item_rows(order_id, itemseq.subrange(0, k as int)).push(
                        item_row));
                assert(new_out_movements(itemseq.subrange(0, k + 1 as int), created_at)
                    =~= new_out_movements(itemseq.subrange(0, k as int), created_at).push(mv_row));
                assert(pre.order_items@ + new_order_item_rows(
                    order_id, itemseq.subrange(0, k as int)).push(item_row)
                    =~= (pre.order_items@ + new_order_item_rows(
                        order_id, itemseq.subrange(0, k as int))).push(item_row));
                assert(pre.movements@ + new_out_movements(
                    itemseq.subrange(0, k as int), created_at).push(mv_row)
                    =~= (pre.movements@ + new_out_movements(
                        itemseq.subrange(0, k as int), created_at)).push(mv_row));
            }
            self.order_items.push(item_row);
            self.movements.push(mv_row);
            k = k + 1;
        }
        proof {
            assert(itemseq.subrange(0, itemseq.len() as int) =~= itemseq);
            lemma_create_order_wf(pre, *self, orow, order_id, itemseq, created_at);
        }
        Ok(())
    }

    /// Creates an invoice with its line items, mirroring order creation;
    /// the optional originating order must exist when named.
    pub fn create_invoice(
        &mut self,
        invoice_id: String,
        v: NewInvoice,
        items: Vec<NewDocItem>,
        created_at: u64,
    ) -> (r: Result<(), StoreError>)
        requires
            old(self).wf(),
        ensures
            final(self).wf(),
            r is Ok <==> client_ids(old(self).clients@).contains(v.client_id@)
                && (v.order_id is Some
                    ==> order_ids(old(self).orders@).contains(v.order_id->Some_0@))
                && doc_items_products_ok(*old(self), items@)
                && !invoice_ids(old(self).invoices@).contains(invoice_id@)
                && doc_items_fresh(invoice_item_ids(old(self).invoice_items@), *old(self), items@),
            r == Err::<(), StoreError>(StoreError::Validation)
                <==> !(client_ids(old(self).clients@).contains(v.client_id@)
                    && (v.order_id is Some
                        ==> order_ids(old(self).orders@).contains(v.order_id->Some_0@))
                    && doc_items_products_ok(*old(self), items@)),
            r is Err ==> *final(self) == *old(self),
            r is Ok ==> final(self).invoices@ == old(self).invoices@.push(
                (Invoice {
                    id: invoice_id,
                    client_id: v.client_id,
                    order_id: v.order_id,
                    status: v.status,
                    paid_amount: v.paid_amount,
                    created_at: created_at,
                }))
                && final(self).invoice_items@ == old(self).invoice_items@
                    + new_invoice_item_rows(invoice_id, items@)
                && final(self).movements@ == old(self).movements@
                    + new_out_movements(items@, created_at)
                && final(self).clients@ == old(self).clients@
                && final(self).suppliers@ == old(self).suppliers@
                && final(self).products@ == old(self).products@
                && final(self).orders@ == old(self).orders@
                && final(self).order_items@ == old(self).order_items@
                && final(self).quotes@ == old(self).quotes@
                && final(self).quote_items@ == old(self).quote_items@,
    {
        if !self.has_client(&v.client_id) {
            return Err(StoreError::Validation);
        }
        match &v.order_id {
            Some(oid) => {
                if !self.has_order(oid) {
                    return Err(StoreError::Validation);
                }
            },
            None => {},
        }
        let mut k: usize = 0;
        while k < items.len()
            invariant
                0 <= k <= items@.len(),
                old(self).wf(),
                *self == *old(self),
                client_ids(old(self).clients@).contains(v.client_id@),
                v.order_id is Some
                    ==> order_ids(old(self).orders@).contains(v.order_id->Some_0@),
                forall|j: int| 0 <= j < k
                    ==> product_ids(self.products@).contains((#[trigger] items@[j]).product_id@),
            decreases items@.len() - k,
        {
            if !self.has_product(&items[k].product_id) {
                return Err(StoreError::Validation);
            }
            k = k + 1;
        }
        if self.has_invoice(&invoice_id) {
            return Err(StoreError::Constraint);
        }
        let mut k: usize = 0;
        while k < items.len()
            invariant
                0 <= k <= items@.len(),
                old(self).wf(),
                *self == *old(self),
                client_ids(old(self).clients@).contains(v.client_id@),
                v.order_id is Some
                    ==> order_ids(old(self).orders@).contains(v.order_id->Some_0@),
                doc_items_products_ok(*old(self), items@),
                !invoice_ids(old(self).invoices@).contains(invoice_id@),
                forall|j: int| 0 <= j < k
                    ==> !invoice_item_ids(self.invoice_items@).contains(
                        (#[trigger] items@[j]).id@),
                forall|j: int| 0 <= j < k
                    ==> !movement_ids(self.movements@).contains(
                        (#[trigger] items@[j]).inventory_id@),
                forall|j: int, l: int| 0 <= j < l < k
                    ==> items@[j].id@ != items@[l].id@
                        && items@[j].inventory_id@ != items@[l].inventory_id@,
            decreases items@.len() - k,
        {
            if self.has_invoice_item(&items[k].id) {
                return Err(StoreError::Constraint);
            }
            if self.has_movement(&items[k].inventory_id) {
                return Err(StoreError::Constraint);
            }
            let mut l: usize = 0;
            while l < k
                invariant
                    0 <= l <= k < items@.len(),
                    old(self).wf(),
                    *self == *old(self),
                    client_ids(old(self).clients@).contains(v.client_id@),
                    v.order_id is Some
                        ==> order_ids(old(self).orders@).contains(v.order_id->Some_0@),
                    doc_items_products_ok(*old(self), items@),
                    !invoice_ids(old(self).invoices@).contains(invoice_id@),
                    forall|j: int| 0 <= j < l
                        ==> items@[j].id@ != items@[k as int].id@
                            && items@[j].inventory_id@ != items@[k as int].inventory_id@,
                decreases k - l,
            {
                if items[l].id == items[k].id {
                    return Err(StoreError::Constraint);
                }
                if items[l].inventory_id == items[k].inventory_id {
                    return Err(StoreError::Constraint);
                }
                l = l + 1;
            }
            k = k + 1;
        }
        let ghost pre = *self;
        let ghost itemseq = items@;
        let row = Invoice {
            id: invoice_id.clone(),
            client_id: v.client_id,
            order_id: v.order_id,
            status: v.status,
            paid_amount: v.paid_amount,
            created_at,
        };
        let ghost vrow = row;
        self.invoices.push(row);
        let mut k: usize = 0;
        while k < items.len()
            invariant
                0 <= k <= items@.len(),
                items@ == itemseq,
                self.invoices@ == pre.invoices@.push(vrow),
                self.invoice_items@ == pre.invoice_items@
                    + new_invoice_item_rows(invoice_id, itemseq.subrange(0, k as int)),
                self.movements@ == pre.movements@
                    + new_out_movements(itemseq.subrange(0, k as int), created_at),
                self.clients@ == pre.clients@,
                self.suppliers@ == pre.suppliers@,
                self.products@ == pre.products@,
                self.orders@ == pre.orders@,
                self.order_items@ == pre.order_items@,
                self.quotes@ == pre.quotes@,
                self.quote_items@ == pre.quote_items@,
            decreases items@.len() - k,
        {
            let it = &items[k];
            let item_row = InvoiceItem {
                id: it.id.clone(),
                price: it.price,
                invoice_id: invoice_id.clone(),
                inventory_id: it.inventory_id.clone(),
            };
            let mv_row = InventoryMovement {
                id: it.inventory_id.clone(),
                kind: MovementKind::Out,
                quantity: it.quantity,
                product_id: it.product_id.clone(),
                created_at,
            };
            proof {
                assert(new_invoice_item_rows(invoice_id, itemseq.subrange(0, k + 1 as int))
                    =~= new_invoice_item_rows(invoice_id, itemseq.subrange(0, k as int)).push(
                        item_row));
                assert(new_out_movements(itemseq.subrange(0, k + 1 as int), created_at)
                    =~= new_out_movements(itemseq.subrange(0, k as int), created_at).push(mv_row));
                assert(pre.invoice_items@ + new_invoice_item_rows(
                    invoice_id, itemseq.subrange(0, k as int)).push(item_row)
                    =~= (pre.invoice_items@ + new_invoice_item_rows(
                        invoice_id, itemseq.subrange(0, k as int))).push(item_row));
                assert(pre.movements@ + new_out_movements(
                    itemseq.subrange(0, k as int), created_at).push(mv_row)
                    =~= (pre.movements@ + new_out_movements(
                        itemseq.subrange(0, k as int), created_at)).push(mv_row));
            }
            self.invoice_items.push(item_row);
            self.movements.push(mv_row);
            k = k + 1;
        }
        proof {
            assert(itemseq.subrange(0, itemseq.len() as int) =~= itemseq);
            lemma_create_invoice_wf(pre, *self, vrow, invoice_id, itemseq, created_at);
        }
        Ok(())
    }

    /// Creates a quote with its line items. Quotes reference products
    /// directly and touch no stock.
    pub fn create_quote(
        &mut self,
        quote_id: String,
        client_id: String,
        items: Vec<NewQuoteItem>,
        created_at: u64,
    ) -> (r: Result<(), StoreError>)
        requires
            old(self).wf(),
        ensures
            final(self).wf(),
            r is Ok <==> client_ids(old(self).clients@).contains(client_id@)
                && quote_items_products_ok(*old(self), items@)
                && !quote_ids(old(self).quotes@).contains(quote_id@)
                && quote_items_fresh(*old(self), items@),
            r == Err::<(), StoreError>(StoreError::Validation)
                <==> !(client_ids(old(self).clients@).contains(client_id@)
                    && quote_items_products_ok(*old(self), items@)),
            r is Err ==> *final(self) == *old(self),
            r is Ok ==> final(self).quotes@ == old(self).quotes@.push(
                (Quote { id: quote_id, client_id: client_id, created_at: created_at }))
                && final(self).quote_items@ == old(self).quote_items@
                    + new_quote_item_rows(quote_id, items@)
                && final(self).clients@ == old(self).clients@
                && final(self).suppliers@ == old(self).suppliers@
                && final(self).products@ == old(self).products@
                && final(self).movements@ == old(self).movements@
                && final(self).orders@ == old(self).orders@
                && final(self).order_items@ == old(self).order_items@
                && final(self).invoices@ == old(self).invoices@
                && final(self).invoice_items@ == old(self).invoice_items@,
    {
        if !self.has_client(&client_id) {
            return Err(StoreError::Validation);
        }
        let mut k: usize = 0;
        while k < items.len()
            invariant
                0 <= k <= items@.len(),
                old(self).wf(),
                *self == *old(self),
                client_ids(old(self).clients@).contains(client_id@),
                forall|j: int| 0 <= j < k
                    ==> product_ids(self.products@).contains((#[trigger] items@[j]).product_id@),
            decreases items@.len() - k,
        {
            if !self.has_product(&items[k].product_id) {
                return Err(StoreError::Validation);
            }
            k = k + 1;
        }
        if self.has_quote(&quote_id) {
            return Err(StoreError::Constraint);
        }
        let mut k: usize = 0;
        while k < items.len()
            invariant
                0 <= k <= items@.len(),
                old(self).wf(),
                *self == *old(self),
                client_ids(old(self).clients@).contains(client_id@),
                quote_items_products_ok(*old(self), items@),
                !quote_ids(old(self).quotes@).contains(quote_id@),
                forall|j: int| 0 <= j < k
                    ==> !quote_item_ids(self.quote_items@).contains((#[trigger] items@[j]).id@),
                forall|j: int, l: int| 0 <= j < l < k
                    ==> items@[j].id@ != items@[l].id@,
            decreases items@.len() - k,
        {
            if self.has_quote_item(&items[k].id) {
                return Err(StoreError::Constraint);
            }
            let mut l: usize = 0;
            while l < k
                invariant
                    0 <= l <= k < items@.len(),
                    old(self).wf(),
                    *self == *old(self),
                    client_ids(old(self).clients@).contains(client_id@),
                    quote_items_products_ok(*old(self), items@),
                    !quote_ids(old(self).quotes@).contains(quote_id@),
                    forall|j: int| 0 <= j < l ==> items@[j].id@ != items@[k as int].id@,
                decreases k - l,
            {
                if items[l].id == items[k].id {
                    return Err(StoreError::Constraint);
                }
                l = l + 1;
            }
            k = k + 1;
        }
        let ghost pre = *self;
        let ghost itemseq = items@;
        let row = Quote { id: quote_id.clone(), client_id: client_id, created_at };
        let ghost qrow = row;
        self.quotes.push(row);
        let mut k: usize = 0;
        while k < items.len()
            invariant
                0 <= k <= items@.len(),
                items@ == itemseq,
                self.quotes@ == pre.quotes@.push(qrow),
                self.quote_items@ == pre.quote_items@
                    + new_quote_item_rows(quote_id, itemseq.subrange(0, k as int)),
                self.clients@ == pre.clients@,
                self.suppliers@ == pre.suppliers@,
                self.products@ == pre.products@,
                self.movements@ == pre.movements@,
                self.orders@ == pre.orders@,
                self.order_items@ == pre.order_items@,
                self.invoices@ == pre.invoices@,
                self.invoice_items@ == pre.invoice_items@,
            decreases items@.len() - k,
        {
            let it = &items[k];
            let item_row = QuoteItem {
                id: it.id.clone(),
                price: it.price,
                quantity: it.quantity,
                product_id: it.product_id.clone(),
                quote_id: quote_id.clone(),
            };
            proof {
                assert(new_quote_item_rows(quote_id, itemseq.subrange(0, k + 1 as int))
                    =~= new_quote_item_rows(quote_id, itemseq.subrange(0, k as int)).push(
                        item_row));
                assert(pre.quote_items@ + new_quote_item_rows(
                    quote_id, itemseq.subrange(0, k as int)).push(item_row)
                    =~= (pre.quote_items@ + new_quote_item_rows(
                        quote_id, itemseq.subrange(0, k as int))).push(item_row));
            }
            self.quote_items.push(item_row);
            k = k + 1;
        }
        proof {
            assert(itemseq.subrange(0, itemseq.len() as int) =~= itemseq);
            lemma_create_quote_wf(pre, *self, qrow, quote_id, itemseq);
        }
        Ok(())
    }

    /// Updates the status of an order; line items are immutable.
    pub fn update_order(&mut self, id: &String, status: String) -> (r: Result<(), StoreError>)
        requires
            old(self).wf(),
        ensures
            final(self).wf(),
            r is Ok <==> order_ids(old(self).orders@).contains(id@),
            r is Err ==> *final(self) == *old(self) && r->Err_0 == StoreError::NotFound,
            r is Ok ==> final(self).orders@ == old(self).orders@.update(
                index_of_id(order_ids(old(self).orders@), id@),
                (Order {
                    status: status,
                    ..old(self).orders@[index_of_id(order_ids(old(self).orders@), id@)]
                }))
                && final(self).clients@ == old(self).clients@
                && final(self).suppliers@ == old(self).suppliers@
                && final(self).products@ == old(self).products@
                && final(self).movements@ == old(self).movements@
                && final(self).order_items@ == old(self).order_items@
                && final(self).invoices@ == old(self).invoices@
                && final(self).invoice_items@ == old(self).invoice_items@
                && final(self).quotes@ == old(self).quotes@
                && final(self).quote_items@ == old(self).quote_items@,
    {
        let k = match self.find_order(id) {
            Some(k) => k,
            None => {
                return Err(StoreError::NotFound);
            },
        };
        let ghost pre = *self;
        self.orders[k].status = status;
        proof {
            assert(order_ids(self.orders@) =~= order_ids(pre.orders@));
            assert forall|i: int| 0 <= i < self.orders@.len()
                implies client_ids(self.clients@).contains(
                    (#[trigger] self.orders@[i]).client_id@) by {
                assert(self.orders@[i].client_id@ == pre.orders@[i].client_id@);
            }
        }
        Ok(())
    }

    /// Updates the mutable fields of an invoice: status and paid amount.
    pub fn update_invoice(&mut self, id: &String, status: String, paid_amount: u32) -> (r: Result<
        (),
        StoreError,
    >)
        requires
            old(self).wf(),
        ensures
            final(self).wf(),
            r is Ok <==> invoice_ids(old(self).invoices@).contains(id@),
            r is Err ==> *final(self) == *old(self) && r->Err_0 == StoreError::NotFound,
            r is Ok ==> final(self).invoices@ == old(self).invoices@.update(
                index_of_id(invoice_ids(old(self).invoices@), id@),
                (Invoice {
                    status: status,
                    paid_amount: paid_amount,
                    ..old(self).invoices@[index_of_id(invoice_ids(old(self).invoices@), id@)]
                }))
                && final(self).clients@ == old(self).clients@
                && final(self).suppliers@ == old(self).suppliers@
                && final(self).products@ == old(self).products@
                && final(self).movements@ == old(self).movements@
                && final(self).orders@ == old(self).orders@
                && final(self).order_items@ == old(self).order_items@
                && final(self).invoice_items@ == old(self).invoice_items@
                && final(self).quotes@ == old(self).quotes@
                && final(self).quote_items@ == old(self).quote_items@,
    {
        let k = match self.find_invoice(id) {
            Some(k) => k,
            None => {
                return Err(StoreError::NotFound);
            },
        };
        let ghost pre = *self;
        self.invoices[k].status = status;
        self.invoices[k].paid_amount = paid_amount;
        proof {
            assert(invoice_ids(self.invoices@) =~= invoice_ids(pre.invoices@));
            assert forall|i: int| 0 <= i < self.invoices@.len()
                implies client_ids(self.clients@).contains(
                    (#[trigger] self.invoices@[i]).client_id@)
                    && (self.invoices@[i].order_id is Some
                        ==> order_ids(self.orders@).contains(
                            self.invoices@[i].order_id->Some_0@)) by {
                assert(self.invoices@[i].client_id@ == pre.invoices@[i].client_id@);
                assert(self.invoices@[i].order_id == pre.invoices@[i].order_id);
            }
        }
        Ok(())
    }
}

/// The quote-item rows created for a new quote.
pub open spec fn new_quote_item_rows(quote_id: String, items: Seq<NewQuoteItem>) -> Seq<QuoteItem> {
    items.map_values(|it: NewQuoteItem| (QuoteItem {
        id: it.id,
        price: it.price,
        quantity: it.quantity,
        product_id: it.product_id,
        quote_id: quote_id,
    }))
}

/// Every line of a quote request names an existing product.
pub open spec fn quote_items_products_ok(s: Store, items: Seq<NewQuoteItem>) -> bool {
    forall|k: int| 0 <= k < items.len()
        ==> product_ids(s.products@).contains((#[trigger] items[k]).product_id@)
}

/// The identifiers of the quote request lines are fresh and pairwise
/// distinct.
pub open spec fn quote_items_fresh(s: Store, items: Seq<NewQuoteItem>) -> bool {
    &&& forall|k: int| 0 <= k < items.len()
        ==> !quote_item_ids(s.quote_items@).contains((#[trigger] items[k]).id@)
    &&& forall|k: int, l: int| 0 <= k < l < items.len() ==> items[k].id@ != items[l].id@
}

/// After a validated invoice insertion, the store is well-formed again.
proof fn lemma_create_invoice_wf(
    pre: Store,
    post: Store,
    vrow: Invoice,
    invoice_id: String,
    items: Seq<NewDocItem>,
    created_at: u64,
)
    requires
        pre.wf(),
        vrow == (Invoice {
            id: invoice_id,
            client_id: vrow.client_id,
            order_id: vrow.order_id,
            status: vrow.status,
            paid_amount: vrow.paid_amount,
            created_at: vrow.created_at,
        }),
        client_ids(pre.clients@).contains(vrow.client_id@),
        vrow.order_id is Some ==> order_ids(pre.orders@).contains(vrow.order_id->Some_0@),
        doc_items_products_ok(pre, items),
        !invoice_ids(pre.invoices@).contains(invoice_id@),
        doc_items_fresh(invoice_item_ids(pre.invoice_items@), pre, items),
        post.invoices@ == pre.invoices@.push(vrow),
        post.invoice_items@ == pre.invoice_items@ + new_invoice_item_rows(invoice_id, items),
        post.movements@ == pre.movements@ + new_out_movements(items, created_at),
        post.clients@ == pre.clients@,
        post.suppliers@ == pre.suppliers@,
        post.products@ == pre.products@,
        post.orders@ == pre.orders@,
        post.order_items@ == pre.order_items@,
        post.quotes@ == pre.quotes@,
        post.quote_items@ == pre.quote_items@,
    ensures
        post.wf(),
{
    let item_rows = new_invoice_item_rows(invoice_id, items);
    let mv_rows = new_out_movements(items, created_at);
    let new_item_ids = items.map_values(|it: NewDocItem| it.id@);
    let new_mv_ids = items.map_values(|it: NewDocItem| it.inventory_id@);

    assert(invoice_ids(post.invoices@) =~= invoice_ids(pre.invoices@).push(invoice_id@));
    lemma_no_dup_push(invoice_ids(pre.invoices@), invoice_id@);

    assert(invoice_item_ids(post.invoice_items@)
        =~= invoice_item_ids(pre.invoice_items@) + new_item_ids);
    lemma_no_dup_append(invoice_item_ids(pre.invoice_items@), new_item_ids);

    assert(movement_ids(post.movements@) =~= movement_ids(pre.movements@) + new_mv_ids);
    lemma_no_dup_append(movement_ids(pre.movements@), new_mv_ids);

    // foreign keys of the invoice table
    assert forall|i: int| 0 <= i < post.invoices@.len()
        implies client_ids(post.clients@).contains((#[trigger] post.invoices@[i]).client_id@)
            && (post.invoices@[i].order_id is Some
                ==> order_ids(post.orders@).contains(post.invoices@[i].order_id->Some_0@)) by {
        if i < pre.invoices@.len() {
            assert(post.invoices@[i] == pre.invoices@[i]);
        }
    }

    // foreign keys of the invoice-item table
    assert forall|i: int| 0 <= i < post.invoice_items@.len()
        implies invoice_ids(post.invoices@).contains(
            (#[trigger] post.invoice_items@[i]).invoice_id@)
            && movement_ids(post.movements@).contains(post.invoice_items@[i].inventory_id@) by {
        if i < pre.invoice_items@.len() {
            assert(post.invoice_items@[i] == pre.invoice_items@[i]);
            lemma_contains_push(invoice_ids(pre.invoices@), invoice_id@,
                pre.invoice_items@[i].invoice_id@);
            lemma_contains_append(movement_ids(pre.movements@), new_mv_ids,
                pre.invoice_items@[i].inventory_id@);
        } else {
            let k = i - pre.invoice_items@.len();
            assert(post.invoice_items@[i] == item_rows[k]);
            assert(invoice_ids(post.invoices@)[pre.invoices@.len() as int] == invoice_id@);
            assert(movement_ids(post.movements@)[pre.movements@.len() + k] == new_mv_ids[k]);
        }
    }

    // foreign keys of the movement table
    assert forall|i: int| 0 <= i < post.movements@.len()
        implies product_ids(post.products@).contains(
            (#[trigger] post.movements@[i]).product_id@) by {
        if i < pre.movements@.len() {
            assert(post.movements@[i] == pre.movements@[i]);
        } else {
            let k = i - pre.movements@.len();
            assert(post.movements@[i] == mv_rows[k]);
            assert(items[k].product_id@ == mv_rows[k].product_id@);
        }
    }

    // foreign keys of the order-item table: the movement table only grew
    assert forall|i: int| 0 <= i < post.order_items@.len()
        implies order_ids(post.orders@).contains((#[trigger] post.order_items@[i]).order_id@)
            && movement_ids(post.movements@).contains(post.order_items@[i].inventory_id@) by {
        lemma_contains_append(movement_ids(pre.movements@), new_mv_ids,
            pre.order_items@[i].inventory_id@);
    }

    // the exclusive movement-reference rule
    let a = pre.order_items@.map_values(|it: OrderItem| it.inventory_id@);
    let c = pre.invoice_items@.map_values(|it: InvoiceItem| it.inventory_id@);
    assert forall|i: int| 0 <= i < pre.order_items@.len()
        implies movement_ids(pre.movements@).contains(#[trigger] a[i]) by {
        assert(a[i] == pre.order_items@[i].inventory_id@);
    }
    assert forall|i: int| 0 <= i < pre.invoice_items@.len()
        implies movement_ids(pre.movements@).contains(#[trigger] c[i]) by {
        assert(c[i] == pre.invoice_items@[i].inventory_id@);
    }
    lemma_refs_no_dup_splice(a, new_mv_ids, c, movement_ids(pre.movements@));
    assert(movement_refs(post.order_items@, post.invoice_items@) =~= a + (c + new_mv_ids));
}

/// After a validated quote insertion, the store is well-formed again.
proof fn lemma_create_quote_wf(
    pre: Store,
    post: Store,
    qrow: Quote,
    quote_id: String,
    items: Seq<NewQuoteItem>,
)
    requires
        pre.wf(),
        qrow == (Quote { id: quote_id, client_id: qrow.client_id, created_at: qrow.created_at }),
        client_ids(pre.clients@).contains(qrow.client_id@),
        quote_items_products_ok(pre, items),
        !quote_ids(pre.quotes@).contains(quote_id@),
        quote_items_fresh(pre, items),
        post.quotes@ == pre.quotes@.push(qrow),
        post.quote_items@ == pre.quote_items@ + new_quote_item_rows(quote_id, items),
        post.clients@ == pre.clients@,
        post.suppliers@ == pre.suppliers@,
        post.products@ == pre.products@,
        post.movements@ == pre.movements@,
        post.orders@ == pre.orders@,
        post.order_items@ == pre.order_items@,
        post.invoices@ == pre.invoices@,
        post.invoice_items@ == pre.invoice_items@,
    ensures
        post.wf(),
{
    let item_rows = new_quote_item_rows(quote_id, items);
    let new_item_ids = items.map_values(|it: NewQuoteItem| it.id@);

    assert(quote_ids(post.quotes@) =~= quote_ids(pre.quotes@).push(quote_id@));
    lemma_no_dup_push(quote_ids(pre.quotes@), quote_id@);

    assert(quote_item_ids(post.quote_items@)
        =~= quote_item_ids(pre.quote_items@) + new_item_ids);
    lemma_no_dup_append(quote_item_ids(pre.quote_items@), new_item_ids);

    assert forall|i: int| 0 <= i < post.quotes@.len()
        implies client_ids(post.clients@).contains((#[trigger] post.quotes@[i]).client_id@) by {
        if i < pre.quotes@.len() {
            assert(post.quotes@[i] == pre.quotes@[i]);
        }
    }

    assert forall|i: int| 0 <= i < post.quote_items@.len()
        implies quote_ids(post.quotes@).contains((#[trigger] post.quote_items@[i]).quote_id@)
            && product_ids(post.products@).contains(post.quote_items@[i].product_id@) by {
        if i < pre.quote_items@.len() {
            assert(post.quote_items@[i] == pre.quote_items@[i]);
            lemma_contains_push(quote_ids(pre.quotes@), quote_id@,
                pre.quote_items@[i].quote_id@);
        } else {
            let k = i - pre.quote_items@.len();
            assert(post.quote_items@[i] == item_rows[k]);
            assert(quote_ids(post.quotes@)[pre.quotes@.len() as int] == quote_id@);
            assert(items[k].product_id@ == item_rows[k].product_id@);
        }
    }
}

/// After a validated order insertion, the store is well-formed again.
proof fn lemma_create_order_wf(
    pre: Store,
    post: Store,
    orow: Order,
    order_id: String,
    items: Seq<NewDocItem>,
    created_at: u64,
)
    requires
        pre.wf(),
        orow == (Order {
            id: order_id,
            client_id: orow.client_id,
            status: orow.status,
            created_at: orow.created_at,
        }),
        client_ids(pre.clients@).contains(orow.client_id@),
        doc_items_products_ok(pre, items),
        !order_ids(pre.orders@).contains(order_id@),
        doc_items_fresh(order_item_ids(pre.order_items@), pre, items),
        post.orders@ == pre.orders@.push(orow),
        post.order_items@ == pre.order_items@ + new_order_item_rows(order_id, items),
        post.movements@ == pre.movements@ + new_out_movements(items, created_at),
        post.clients@ == pre.clients@,
        post.suppliers@ == pre.suppliers@,
        post.products@ == pre.products@,
        post.invoices@ == pre.invoices@,
        post.invoice_items@ == pre.invoice_items@,
        post.quotes@ == pre.quotes@,
        post.quote_items@ == pre.quote_items@,
    ensures
        post.wf(),
{
    let item_rows = new_order_item_rows(order_id, items);
    let mv_rows = new_out_movements(items, created_at);
    let new_item_ids = items.map_values(|it: NewDocItem| it.id@);
    let new_mv_ids = items.map_values(|it: NewDocItem| it.inventory_id@);

    assert(order_ids(post.orders@) =~= order_ids(pre.orders@).push(order_id@));
    lemma_no_dup_push(order_ids(pre.orders@), order_id@);

    assert(order_item_ids(post.order_items@)
        =~= order_item_ids(pre.order_items@) + new_item_ids);
    lemma_no_dup_append(order_item_ids(pre.order_items@), new_item_ids);

    assert(movement_ids(post.movements@) =~= movement_ids(pre.movements@) + new_mv_ids);
    lemma_no_dup_append(movement_ids(pre.movements@), new_mv_ids);

    // foreign keys of the orders table
    assert forall|i: int| 0 <= i < post.orders@.len()
        implies client_ids(post.clients@).contains((#[trigger] post.orders@[i]).client_id@) by {
        if i < pre.orders@.len() {
            assert(post.orders@[i] == pre.orders@[i]);
        }
    }

    // foreign keys of the order-item table
    assert forall|i: int| 0 <= i < post.order_items@.len()
        implies order_ids(post.orders@).contains((#[trigger] post.order_items@[i]).order_id@)
            && movement_ids(post.movements@).contains(post.order_items@[i].inventory_id@) by {
        if i < pre.order_items@.len() {
            assert(post.order_items@[i] == pre.order_items@[i]);
            lemma_contains_push(order_ids(pre.orders@), order_id@,
                pre.order_items@[i].order_id@);
            lemma_contains_append(movement_ids(pre.movements@), new_mv_ids,
                pre.order_items@[i].inventory_id@);
        } else {
            let k = i - pre.order_items@.len();
            assert(post.order_items@[i] == item_rows[k]);
            assert(order_ids(post.orders@)[pre.orders@.len() as int] == order_id@);
            assert(movement_ids(post.movements@)[pre.movements@.len() + k] == new_mv_ids[k]);
        }
    }

    // foreign keys of the movement table
    assert forall|i: int| 0 <= i < post.movements@.len()
        implies product_ids(post.products@).contains(
            (#[trigger] post.movements@[i]).product_id@) by {
        if i < pre.movements@.len() {
            assert(post.movements@[i] == pre.movements@[i]);
        } else {
            let k = i - pre.movements@.len();
            assert(post.movements@[i] == mv_rows[k]);
            assert(items[k].product_id@ == mv_rows[k].product_id@);
        }
    }

    // foreign keys of tables that changed only on the referenced side
    assert forall|i: int| 0 <= i < post.invoices@.len()
        implies client_ids(post.clients@).contains((#[trigger] post.invoices@[i]).client_id@)
            && (post.invoices@[i].order_id is Some
                ==> order_ids(post.orders@).contains(post.invoices@[i].order_id->Some_0@)) by {
        if post.invoices@[i].order_id is Some {
            lemma_contains_push(order_ids(pre.orders@), order_id@,
                pre.invoices@[i].order_id->Some_0@);
        }
    }
    assert forall|i: int| 0 <= i < post.invoice_items@.len()
        implies invoice_ids(post.invoices@).contains(
            (#[trigger] post.invoice_items@[i]).invoice_id@)
            && movement_ids(post.movements@).contains(post.invoice_items@[i].inventory_id@) by {
        lemma_contains_append(movement_ids(pre.movements@), new_mv_ids,
            pre.invoice_items@[i].inventory_id@);
    }

    // the exclusive movement-reference rule
    let a = pre.order_items@.map_values(|it: OrderItem| it.inventory_id@);
    let c = pre.invoice_items@.map_values(|it: InvoiceItem| it.inventory_id@);
    assert forall|i: int| 0 <= i < pre.order_items@.len()
        implies movement_ids(pre.movements@).contains(#[trigger] a[i]) by {
        assert(a[i] == pre.order_items@[i].inventory_id@);
    }
    assert forall|i: int| 0 <= i < pre.invoice_items@.len()
        implies movement_ids(pre.movements@).contains(#[trigger] c[i]) by {
        assert(c[i] == pre.invoice_items@[i].inventory_id@);
    }
    lemma_refs_no_dup_splice(a, new_mv_ids, c, movement_ids(pre.movements@));
    assert(movement_refs(post.order_items@, post.invoice_items@) =~= a + new_mv_ids + c);
}

} // verus!
