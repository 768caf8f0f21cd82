//! The relational store: one vector per table, with the schema's
//! referential-integrity rules as a well-formedness predicate.
//!
//! Every mutation requires a well-formed store and proves that it stays
//! well-formed; in particular the exclusive movement-reference rule (a
//! stock movement backs at most one sold line, across order items and
//! invoice items together) holds after any sequence of operations.

use vstd::prelude::*;
use crate::model::{
    Client, Supplier, Product, InventoryMovement, MovementKind, Order, OrderItem, Invoice,
    InvoiceItem, Quote, QuoteItem,
};

verus! {

/// The identifiers of a client table, in row order.
pub open spec fn client_ids(s: Seq<Client>) -> Seq<Seq<char>> {
    s.map_values(|c: Client| c.id@)
}

pub open spec fn supplier_ids(s: Seq<Supplier>) -> Seq<Seq<char>> {
    s.map_values(|c: Supplier| c.id@)
}

pub open spec fn product_ids(s: Seq<Product>) -> Seq<Seq<char>> {
    s.map_values(|p: Product| p.id@)
}

pub open spec fn movement_ids(s: Seq<InventoryMovement>) -> Seq<Seq<char>> {
    s.map_values(|m: InventoryMovement| m.id@)
}

pub open spec fn order_ids(s: Seq<Order>) -> Seq<Seq<char>> {
    s.map_values(|o: Order| o.id@)
}

pub open spec fn order_item_ids(s: Seq<OrderItem>) -> Seq<Seq<char>> {
    s.map_values(|it: OrderItem| it.id@)
}

pub open spec fn invoice_ids(s: Seq<Invoice>) -> Seq<Seq<char>> {
    s.map_values(|v: Invoice| v.id@)
}

pub open spec fn invoice_item_ids(s: Seq<InvoiceItem>) -> Seq<Seq<char>> {
    s.map_values(|it: InvoiceItem| it.id@)
}

pub open spec fn quote_ids(s: Seq<Quote>) -> Seq<Seq<char>> {
    s.map_values(|q: Quote| q.id@)
}

pub open spec fn quote_item_ids(s: Seq<QuoteItem>) -> Seq<Seq<char>> {
    s.map_values(|it: QuoteItem| it.id@)
}

/// The movement references of a run of order items, in row order.
pub open spec fn order_item_refs(s: Seq<OrderItem>) -> Seq<Seq<char>> {
    s.map_values(|it: OrderItem| it.inventory_id@)
}

/// The movement references of a run of invoice items, in row order.
pub open spec fn invoice_item_refs(s: Seq<InvoiceItem>) -> Seq<Seq<char>> {
    s.map_values(|it: InvoiceItem| it.inventory_id@)
}

/// The movement references of the sold lines, order items first, then
/// invoice items. The exclusive-reference rule says this sequence has no
/// duplicates.
pub open spec fn movement_refs(
    order_items: Seq<OrderItem>,
    invoice_items: Seq<InvoiceItem>,
) -> Seq<Seq<char>> {
    order_item_refs(order_items) + invoice_item_refs(invoice_items)
}

/// The views of a list of id strings.
pub open spec fn str_views(s: Seq<String>) -> Seq<Seq<char>> {
    s.map_values(|t: String| t@)
}

/// Whether a collected id list holds this id.
pub fn id_list_contains(v: &Vec<String>, x: &String) -> (r: bool)
    ensures
        r == str_views(v@).contains(x@),
{
    let mut i: usize = 0;
    while i < v.len()
        invariant
            0 <= i <= v@.len(),
            forall|j: int| 0 <= j < i ==> str_views(v@)[j] != x@,
        decreases v@.len() - i,
    {
        if v[i] == *x {
            proof {
                assert(str_views(v@)[i as int] == x@);
            }
            return true;
        }
        i = i + 1;
    }
    false
}

/// The first position of `id` in `ids`; meaningful when `ids.contains(id)`.
pub open spec fn index_of_id(ids: Seq<Seq<char>>, id: Seq<char>) -> int
    decreases ids.len(),
{
    if ids.len() == 0 {
        0
    } else if ids[0] == id {
        0
    } else {
        1 + index_of_id(ids.drop_first(), id)
    }
}

/// When `k` holds `id` and no earlier position does, `k` is the first
/// position of `id`.
pub proof fn lemma_index_of_first(ids: Seq<Seq<char>>, id: Seq<char>, k: int)
    requires
        0 <= k < ids.len(),
        ids[k] == id,
        forall|j: int| 0 <= j < k ==> ids[j] != id,
    ensures
        index_of_id(ids, id) == k,
    decreases ids.len(),
{
    if k > 0 {
        lemma_index_of_first(ids.drop_first(), id, k - 1);
    }
}

/// The quantity of a movement, negated for `Out` events.
pub open spec fn signed_quantity(m: InventoryMovement) -> int {
    match m.kind {
        MovementKind::In => m.quantity as int,
        MovementKind::Out => -(m.quantity as int),
    }
}

/// The derived stock of a product: the sum of the signed quantities of
/// its movements, never stored.
pub open spec fn stock_of(ms: Seq<InventoryMovement>, product_id: Seq<char>) -> int
    decreases ms.len(),
{
    if ms.len() == 0 {
        0
    } else {
        stock_of(ms.drop_last(), product_id) + if ms.last().product_id@ == product_id {
            signed_quantity(ms.last())
        } else {
            0
        }
    }
}

pub proof fn lemma_stock_of_bound(ms: Seq<InventoryMovement>, product_id: Seq<char>)
    ensures
        -(ms.len() as int) * (u32::MAX as int) <= stock_of(ms, product_id)
            <= (ms.len() as int) * (u32::MAX as int),
    decreases ms.len(),
{
    if ms.len() > 0 {
        lemma_stock_of_bound(ms.drop_last(), product_id);
    }
}

/// The store: one table per entity of the schema.
pub struct Store {
    pub clients: Vec<Client>,
    pub suppliers: Vec<Supplier>,
    pub products: Vec<Product>,
    pub movements: Vec<InventoryMovement>,
    pub orders: Vec<Order>,
    pub order_items: Vec<OrderItem>,
    pub invoices: Vec<Invoice>,
    pub invoice_items: Vec<InvoiceItem>,
    pub quotes: Vec<Quote>,
    pub quote_items: Vec<QuoteItem>,
}

impl Store {
    /// Well-formedness: primary keys are unique per table, every foreign
    /// key resolves, and no two sold lines share a movement.
    pub open spec fn wf(self) -> bool {
        &&& client_ids(self.clients@).no_duplicates()
        &&& supplier_ids(self.suppliers@).no_duplicates()
        &&& product_ids(self.products@).no_duplicates()
        &&& movement_ids(self.movements@).no_duplicates()
        &&& order_ids(self.orders@).no_duplicates()
        &&& order_item_ids(self.order_items@).no_duplicates()
        &&& invoice_ids(self.invoices@).no_duplicates()
        &&& invoice_item_ids(self.invoice_items@).no_duplicates()
        &&& quote_ids(self.quotes@).no_duplicates()
        &&& quote_item_ids(self.quote_items@).no_duplicates()
        &&& forall|i: int| #![trigger self.movements@[i]] 0 <= i < self.movements@.len()
            ==> product_ids(self.products@).contains(self.movements@[i].product_id@)
        &&& forall|i: int| #![trigger self.orders@[i]] 0 <= i < self.orders@.len()
            ==> client_ids(self.clients@).contains(self.orders@[i].client_id@)
        &&& forall|i: int| #![trigger self.order_items@[i]] 0 <= i < self.order_items@.len()
            ==> order_ids(self.orders@).contains(self.order_items@[i].order_id@)
                && movement_ids(self.movements@).contains(self.order_items@[i].inventory_id@)
        &&& forall|i: int| #![trigger self.invoices@[i]] 0 <= i < self.invoices@.len()
            ==> client_ids(self.clients@).contains(self.invoices@[i].client_id@)
                && (self.invoices@[i].order_id is Some
                    ==> order_ids(self.orders@).contains(self.invoices@[i].order_id->Some_0@))
        &&& forall|i: int| #![trigger self.invoice_items@[i]] 0 <= i < self.invoice_items@.len()
            ==> invoice_ids(self.invoices@).contains(self.invoice_items@[i].invoice_id@)
                && movement_ids(self.movements@).contains(self.invoice_items@[i].inventory_id@)
        &&& forall|i: int| #![trigger self.quotes@[i]] 0 <= i < self.quotes@.len()
            ==> client_ids(self.clients@).contains(self.quotes@[i].client_id@)
        &&& forall|i: int| #![trigger self.quote_items@[i]] 0 <= i < self.quote_items@.len()
            ==> quote_ids(self.quotes@).contains(self.quote_items@[i].quote_id@)
                && product_ids(self.products@).contains(self.quote_items@[i].product_id@)
        &&& movement_refs(self.order_items@, self.invoice_items@).no_duplicates()
    }

    /// An empty, well-formed store.
    pub fn new() -> (r: Store)
        ensures
            r.wf(),
            r.clients@.len() == 0,
            r.suppliers@.len() == 0,
            r.products@.len() == 0,
            r.movements@.len() == 0,
            r.orders@.len() == 0,
            r.order_items@.len() == 0,
            r.invoices@.len() == 0,
            r.invoice_items@.len() == 0,
            r.quotes@.len() == 0,
            r.quote_items@.len() == 0,
    {
        let r = Store {
            clients: Vec::new(),
            suppliers: Vec::new(),
            products: Vec::new(),
            movements: Vec::new(),
            orders: Vec::new(),
            order_items: Vec::new(),
            invoices: Vec::new(),
            invoice_items: Vec::new(),
            quotes: Vec::new(),
            quote_items: Vec::new(),
        };
        proof {
            assert(client_ids(r.clients@) =~= Seq::<Seq<char>>::empty());
            assert(supplier_ids(r.suppliers@) =~= Seq::<Seq<char>>::empty());
            assert(product_ids(r.products@) =~= Seq::<Seq<char>>::empty());
            assert(movement_ids(r.movements@) =~= Seq::<Seq<char>>::empty());
            assert(order_ids(r.orders@) =~= Seq::<Seq<char>>::empty());
            assert(order_item_ids(r.order_items@) =~= Seq::<Seq<char>>::empty());
            assert(invoice_ids(r.invoices@) =~= Seq::<Seq<char>>::empty());
            assert(invoice_item_ids(r.invoice_items@) =~= Seq::<Seq<char>>::empty());
            assert(quote_ids(r.quotes@) =~= Seq::<Seq<char>>::empty());
            assert(quote_item_ids(r.quote_items@) =~= Seq::<Seq<char>>::empty());
            assert(movement_refs(r.order_items@, r.invoice_items@) =~= Seq::<Seq<char>>::empty());
        }
        r
    }

    /// Recomputes the stock of a product from the movement ledger.
    pub fn derived_stock(&self, product_id: &String) -> (r: i128)
        ensures
            r == stock_of(self.movements@, product_id@),
    {
        let ghost pid = product_id@;
        let mut acc: i128 = 0;
        let mut i: usize = 0;
        while i < self.movements.len()
            invariant
                0 <= i <= self.movements@.len(),
                acc == stock_of(self.movements@.subrange(0, i as int), pid),
                -(i as int) * (u32::MAX as int) <= acc <= (i as int) * (u32::MAX as int),
                pid == product_id@,
            decreases self.movements@.len() - i,
        {
            let m = &self.movements[i];
            proof {
                let pre = self.movements@.subrange(0, i as int);
                let post = self.movements@.subrange(0, i + 1 as int);
                assert(post.drop_last() =~= pre);
                assert(post.last() == self.movements@[i as int]);
                assert((i as int) * (u32::MAX as int) + (u32::MAX as int)
                    == (i + 1 as int) * (u32::MAX as int)) by (nonlinear_arith);
                assert((i + 1 as int) * (u32::MAX as int) <= (usize::MAX as int) * (u32::MAX as int))
                    by (nonlinear_arith)
                    requires i + 1 <= usize::MAX as int;
            }
            if m.product_id == *product_id {
                match m.kind {
                    MovementKind::In => {
                        acc = acc + m.quantity as i128;
                    },
                    MovementKind::Out => {
                        acc = acc - m.quantity as i128;
                    },
                }
            }
            i = i + 1;
        }
        proof {
            assert(self.movements@.subrange(0, self.movements@.len() as int) =~= self.movements@);
        }
        acc
    }

    /// Whether a client with this id exists.
    pub fn has_client(&self, id: &String) -> (r: bool)
        ensures
            r == client_ids(self.clients@).contains(id@),
    {
        let mut i: usize = 0;
        while i < self.clients.len()
            invariant
                0 <= i <= self.clients@.len(),
                forall|j: int| 0 <= j < i ==> client_ids(self.clients@)[j] != id@,
            decreases self.clients@.len() - i,
        {
            if self.clients[i].id == *id {
                proof {
                    assert(client_ids(self.clients@)[i as int] == id@);
                }
                return true;
            }
            i = i + 1;
        }
        false
    }

    /// Whether a supplier with this id exists.
    pub fn has_supplier(&self, id: &String) -> (r: bool)
        ensures
            r == supplier_ids(self.suppliers@).contains(id@),
    {
        let mut i: usize = 0;
        while i < self.suppliers.len()
            invariant
                0 <= i <= self.suppliers@.len(),
                forall|j: int| 0 <= j < i ==> supplier_ids(self.suppliers@)[j] != id@,
            decreases self.suppliers@.len() - i,
        {
            if self.suppliers[i].id == *id {
                proof {
                    assert(supplier_ids(self.suppliers@)[i as int] == id@);
                }
                return true;
            }
            i = i + 1;
        }
        false
    }

    /// Whether a product with this id exists.
    pub fn has_product(&self, id: &String) -> (r: bool)
        ensures
            r == product_ids(self.products@).contains(id@),
    {
        let mut i: usize = 0;
        while i < self.products.len()
            invariant
                0 <= i <= self.products@.len(),
                forall|j: int| 0 <= j < i ==> product_ids(self.products@)[j] != id@,
            decreases self.products@.len() - i,
        {
            if self.products[i].id == *id {
                proof {
                    assert(product_ids(self.products@)[i as int] == id@);
                }
                return true;
            }
            i = i + 1;
        }
        false
    }

    /// Whether a movement with this id exists.
    pub fn has_movement(&self, id: &String) -> (r: bool)
        ensures
            r == movement_ids(self.movements@).contains(id@),
    {
        let mut i: usize = 0;
        while i < self.movements.len()
            invariant
                0 <= i <= self.movements@.len(),
                forall|j: int| 0 <= j < i ==> movement_ids(self.movements@)[j] != id@,
            decreases self.movements@.len() - i,
        {
            if self.movements[i].id == *id {
                proof {
                    assert(movement_ids(self.movements@)[i as int] == id@);
                }
                return true;
            }
            i = i + 1;
        }
        false
    }

    /// Whether an order with this id exists.
    pub fn has_order(&self, id: &String) -> (r: bool)
        ensures
            r == order_ids(self.orders@).contains(id@),
    {
        let mut i: usize = 0;
        while i < self.orders.len()
            invariant
                0 <= i <= self.orders@.len(),
                forall|j: int| 0 <= j < i ==> order_ids(self.orders@)[j] != id@,
            decreases self.orders@.len() - i,
        {
            if self.orders[i].id == *id {
                proof {
                    assert(order_ids(self.orders@)[i as int] == id@);
                }
                return true;
            }
            i = i + 1;
        }
        false
    }

    /// Whether an order item with this id exists.
    pub fn has_order_item(&self, id: &String) -> (r: bool)
        ensures
            r == order_item_ids(self.order_items@).contains(id@),
    {
        let mut i: usize = 0;
        while i < self.order_items.len()
            invariant
                0 <= i <= self.order_items@.len(),
                forall|j: int| 0 <= j < i ==> order_item_ids(self.order_items@)[j] != id@,
            decreases self.order_items@.len() - i,
        {
            if self.order_items[i].id == *id {
                proof {
                    assert(order_item_ids(self.order_items@)[i as int] == id@);
                }
                return true;
            }
            i = i + 1;
        }
        false
    }

    /// Whether an invoice with this id exists.
    pub fn has_invoice(&self, id: &String) -> (r: bool)
        ensures
            r == invoice_ids(self.invoices@).contains(id@),
    {
        let mut i: usize = 0;
        while i < self.invoices.len()
            invariant
                0 <= i <= self.invoices@.len(),
                forall|j: int| 0 <= j < i ==> invoice_ids(self.invoices@)[j] != id@,
            decreases self.invoices@.len() - i,
        {
            if self.invoices[i].id == *id {
                proof {
                    assert(invoice_ids(self.invoices@)[i as int] == id@);
                }
                return true;
            }
            i = i + 1;
        }
        false
    }

    /// Whether an invoice item with this id exists.
    pub fn has_invoice_item(&self, id: &String) -> (r: bool)
        ensures
            r == invoice_item_ids(self.invoice_items@).contains(id@),
    {
        let mut i: usize = 0;
        while i < self.invoice_items.len()
            invariant
                0 <= i <= self.invoice_items@.len(),
                forall|j: int| 0 <= j < i ==> invoice_item_ids(self.invoice_items@)[j] != id@,
            decreases self.invoice_items@.len() - i,
        {
            if self.invoice_items[i].id == *id {
                proof {
                    assert(invoice_item_ids(self.invoice_items@)[i as int] == id@);
                }
                return true;
            }
            i = i + 1;
        }
        false
    }

    /// Whether a quote with this id exists.
    pub fn has_quote(&self, id: &String) -> (r: bool)
        ensures
            r == quote_ids(self.quotes@).contains(id@),
    {
        let mut i: usize = 0;
        while i < self.quotes.len()
            invariant
                0 <= i <= self.quotes@.len(),
                forall|j: int| 0 <= j < i ==> quote_ids(self.quotes@)[j] != id@,
            decreases self.quotes@.len() - i,
        {
            if self.quotes[i].id == *id {
                proof {
                    assert(quote_ids(self.quotes@)[i as int] == id@);
                }
                return true;
            }
            i = i + 1;
        }
        false
    }

    /// Whether a quote item with this id exists.
    pub fn has_quote_item(&self, id: &String) -> (r: bool)
        ensures
            r == quote_item_ids(self.quote_items@).contains(id@),
    {
        let mut i: usize = 0;
        while i < self.quote_items.len()
            invariant
                0 <= i <= self.quote_items@.len(),
                forall|j: int| 0 <= j < i ==> quote_item_ids(self.quote_items@)[j] != id@,
            decreases self.quote_items@.len() - i,
        {
            if self.quote_items[i].id == *id {
                proof {
                    assert(quote_item_ids(self.quote_items@)[i as int] == id@);
                }
                return true;
            }
            i = i + 1;
        }
        false
    }

    /// The row position of an order, `None` when the id does not exist.
    pub fn find_order(&self, id: &String) -> (r: Option<usize>)
        ensures
            r is Some <==> order_ids(self.orders@).contains(id@),
            r is Some ==> r->Some_0 == index_of_id(order_ids(self.orders@), id@)
                && r->Some_0 < self.orders@.len()
                && self.orders@[r->Some_0 as int].id@ == id@,
    {
        let mut i: usize = 0;
        while i < self.orders.len()
            invariant
                0 <= i <= self.orders@.len(),
                forall|j: int| 0 <= j < i ==> order_ids(self.orders@)[j] != id@,
            decreases self.orders@.len() - i,
        {
            if self.orders[i].id == *id {
                proof {
                    assert(order_ids(self.orders@)[i as int] == id@);
                    lemma_index_of_first(order_ids(self.orders@), id@, i as int);
                }
                return Some(i);
            }
            i = i + 1;
        }
        None
    }

    /// The row position of an invoice, `None` when the id does not exist.
    pub fn find_invoice(&self, id: &String) -> (r: Option<usize>)
        ensures
            r is Some <==> invoice_ids(self.invoices@).contains(id@),
            r is Some ==> r->Some_0 == index_of_id(invoice_ids(self.invoices@), id@)
                && r->Some_0 < self.invoices@.len()
                && self.invoices@[r->Some_0 as int].id@ == id@,
    {
        let mut i: usize = 0;
        while i < self.invoices.len()
            invariant
                0 <= i <= self.invoices@.len(),
                forall|j: int| 0 <= j < i ==> invoice_ids(self.invoices@)[j] != id@,
            decreases self.invoices@.len() - i,
        {
            if self.invoices[i].id == *id {
                proof {
                    assert(invoice_ids(self.invoices@)[i as int] == id@);
                    lemma_index_of_first(invoice_ids(self.invoices@), id@, i as int);
                }
                return Some(i);
            }
            i = i + 1;
        }
        None
    }

    /// The exclusive-reference rule, stated on its own: in a well-formed
    /// store no inventory movement is referenced by two sold lines,
    /// whether they belong to orders or to invoices.
    pub proof fn lemma_exclusive_movement_refs(self)
        requires
            self.wf(),
        ensures
            forall|i: int, j: int|
                0 <= i < j < movement_refs(self.order_items@, self.invoice_items@).len()
                    ==> movement_refs(self.order_items@, self.invoice_items@)[i]
                        != movement_refs(self.order_items@, self.invoice_items@)[j],
    {
    }
}

} // verus!
