//! Read-only projections over the store: joined document views, paged
//! lists, and the dashboard aggregates. Every result is recomputed from
//! the tables on each call; nothing is cached.

use vstd::prelude::*;
use crate::model::{
    Client, Product, InventoryMovement, MovementKind, Order, OrderItem, Invoice, InvoiceItem,
    ListArgs, SelectOrders, SelectOrderDetails, SelectInvoices, SelectInvoiceDetails,
    SelectInvoiceProduct, StatusCount, TopEntry, MvmStat,
};
use crate::store::{
    Store, client_ids, product_ids, movement_ids, order_ids, invoice_ids, index_of_id,
    lemma_index_of_first,
};
use crate::deletes::{order_items_of_order, invoice_items_of_invoice, orders_of_client};

verus! {

broadcast use vstd::seq_lib::group_filter_ensures, Seq::lemma_filter_push;

/// The client row holding `cid`; meaningful when the id resolves.
pub open spec fn client_row(s: Seq<Client>, cid: Seq<char>) -> Client {
    s[index_of_id(client_ids(s), cid)]
}

/// The product row holding `pid`; meaningful when the id resolves.
pub open spec fn product_row(s: Seq<Product>, pid: Seq<char>) -> Product {
    s[index_of_id(product_ids(s), pid)]
}

/// The movement row holding `mid`; meaningful when the id resolves.
pub open spec fn movement_row(s: Seq<InventoryMovement>, mid: Seq<char>) -> InventoryMovement {
    s[index_of_id(movement_ids(s), mid)]
}

/// The sum of the prices of a run of order items.
pub open spec fn sum_order_item_prices(s: Seq<OrderItem>) -> int
    decreases s.len(),
{
    if s.len() == 0 {
        0
    } else {
        sum_order_item_prices(s.drop_last()) + s.last().price as int
    }
}

/// The sum of the prices of a run of invoice items.
pub open spec fn sum_invoice_item_prices(s: Seq<InvoiceItem>) -> int
    decreases s.len(),
{
    if s.len() == 0 {
        0
    } else {
        sum_invoice_item_prices(s.drop_last()) + s.last().price as int
    }
}

/// The total of an order: the sum of its line prices.
pub open spec fn order_total(s: Store, oid: Seq<char>) -> int {
    sum_order_item_prices(order_items_of_order(s.order_items@, oid))
}

/// The line count of an order.
pub open spec fn order_item_count(s: Store, oid: Seq<char>) -> int {
    order_items_of_order(s.order_items@, oid).len() as int
}

/// The total of an invoice: the sum of its line prices.
pub open spec fn invoice_total(s: Store, iid: Seq<char>) -> int {
    sum_invoice_item_prices(invoice_items_of_invoice(s.invoice_items@, iid))
}

/// The line count of an invoice.
pub open spec fn invoice_item_count(s: Store, iid: Seq<char>) -> int {
    invoice_items_of_invoice(s.invoice_items@, iid).len() as int
}

pub proof fn lemma_sum_order_item_prices_bound(s: Seq<OrderItem>)
    ensures
        0 <= sum_order_item_prices(s) <= (s.len() as int) * (u32::MAX as int),
    decreases s.len(),
{
    if s.len() > 0 {
        lemma_sum_order_item_prices_bound(s.drop_last());
    }
}

pub proof fn lemma_sum_invoice_item_prices_bound(s: Seq<InvoiceItem>)
    ensures
        0 <= sum_invoice_item_prices(s) <= (s.len() as int) * (u32::MAX as int),
    decreases s.len(),
{
    if s.len() > 0 {
        lemma_sum_invoice_item_prices_bound(s.drop_last());
    }
}

impl Store {
    /// The row position of a client, `None` when the id does not exist.
    pub fn find_client(&self, id: &String) -> (r: Option<usize>)
        ensures
            r is Some <==> client_ids(self.clients@).contains(id@),
            r is Some ==> r->Some_0 == index_of_id(client_ids(self.clients@), id@)
                && r->Some_0 < self.clients@.len()
                && self.clients@[r->Some_0 as int].id@ == id@,
    {
        let mut i: usize = 0;
        while i < self.clients.len()
            invariant
                0 <= i <= self.clients@.len(),
                forall|j: int| 0 <= j < i ==> client_ids(self.clients@)[j] != id@,
            decreases self.clients@.len() - i,
        {
            if self.clients[i].id == *id {
                proof {
                    assert(client_ids(self.clients@)[i as int] == id@);
                    lemma_index_of_first(client_ids(self.clients@), id@, i as int);
                }
                return Some(i);
            }
            i = i + 1;
        }
        None
    }

    /// The row position of a product, `None` when the id does not exist.
    pub fn find_product(&self, id: &String) -> (r: Option<usize>)
        ensures
            r is Some <==> product_ids(self.products@).contains(id@),
            r is Some ==> r->Some_0 == index_of_id(product_ids(self.products@), id@)
                && r->Some_0 < self.products@.len()
                && self.products@[r->Some_0 as int].id@ == id@,
    {
        let mut i: usize = 0;
        while i < self.products.len()
            invariant
                0 <= i <= self.products@.len(),
                forall|j: int| 0 <= j < i ==> product_ids(self.products@)[j] != id@,
            decreases self.products@.len() - i,
        {
            if self.products[i].id == *id {
                proof {
                    assert(product_ids(self.products@)[i as int] == id@);
                    lemma_index_of_first(product_ids(self.products@), id@, i as int);
                }
                return Some(i);
            }
            i = i + 1;
        }
        None
    }

    /// The row position of a movement, `None` when the id does not
    /// exist.
    pub fn find_movement(&self, id: &String) -> (r: Option<usize>)
        ensures
            r is Some <==> movement_ids(self.movements@).contains(id@),
            r is Some ==> r->Some_0 == index_of_id(movement_ids(self.movements@), id@)
                && r->Some_0 < self.movements@.len()
                && self.movements@[r->Some_0 as int].id@ == id@,
    {
        let mut i: usize = 0;
        while i < self.movements.len()
            invariant
                0 <= i <= self.movements@.len(),
                forall|j: int| 0 <= j < i ==> movement_ids(self.movements@)[j] != id@,
            decreases self.movements@.len() - i,
        {
            if self.movements[i].id == *id {
                proof {
                    assert(movement_ids(self.movements@)[i as int] == id@);
                    lemma_index_of_first(movement_ids(self.movements@), id@, i as int);
                }
                return Some(i);
            }
            i = i + 1;
        }
        None
    }

    /// The line count and price total of an order, in one pass.
    fn order_count_and_total(&self, oid: &String) -> (r: (usize, u128))
        ensures
            r.0 == order_item_count(*self, oid@),
            r.1 == order_total(*self, oid@),
    {
        let mut count: usize = 0;
        let mut total: u128 = 0;
        let mut i: usize = 0;
        while i < self.order_items.len()
            invariant
                0 <= i <= self.order_items@.len(),
                count == order_items_of_order(
                    self.order_items@.subrange(0, i as int), oid@).len(),
                total == sum_order_item_prices(order_items_of_order(
                    self.order_items@.subrange(0, i as int), oid@)),
            decreases self.order_items@.len() - i,
        {
            proof {
                let prefix = self.order_items@.subrange(0, i as int);
                assert(self.order_items@.subrange(0, i + 1 as int) =~= prefix.push(
                    self.order_items@[i as int]));
                let fp = order_items_of_order(prefix, oid@);
                assert(fp.push(self.order_items@[i as int]).drop_last() =~= fp);
                lemma_sum_order_item_prices_bound(fp);
                assert((fp.len() as int) * (u32::MAX as int)
                    <= (usize::MAX as int) * (u32::MAX as int)) by (nonlinear_arith)
                    requires fp.len() <= usize::MAX as int;
            }
            let it = &self.order_items[i];
            if it.order_id == *oid {
                count = count + 1;
                total = total + it.price as u128;
            }
            i = i + 1;
        }
        proof {
            assert(self.order_items@.subrange(0, self.order_items@.len() as int)
                =~= self.order_items@);
        }
        (count, total)
    }

    /// The line count and price total of an invoice, in one pass.
    fn invoice_count_and_total(&self, iid: &String) -> (r: (usize, u128))
        ensures
            r.0 == invoice_item_count(*self, iid@),
            r.1 == invoice_total(*self, iid@),
    {
        let mut count: usize = 0;
        let mut total: u128 = 0;
        let mut i: usize = 0;
        while i < self.invoice_items.len()
            invariant
                0 <= i <= self.invoice_items@.len(),
                count == invoice_items_of_invoice(
                    self.invoice_items@.subrange(0, i as int), iid@).len(),
                total == sum_invoice_item_prices(invoice_items_of_invoice(
                    self.invoice_items@.subrange(0, i as int), iid@)),
            decreases self.invoice_items@.len() - i,
        {
            proof {
                let prefix = self.invoice_items@.subrange(0, i as int);
                assert(self.invoice_items@.subrange(0, i + 1 as int) =~= prefix.push(
                    self.invoice_items@[i as int]));
                let fp = invoice_items_of_invoice(prefix, iid@);
                assert(fp.push(self.invoice_items@[i as int]).drop_last() =~= fp);
                lemma_sum_invoice_item_prices_bound(fp);
                assert((fp.len() as int) * (u32::MAX as int)
                    <= (usize::MAX as int) * (u32::MAX as int)) by (nonlinear_arith)
                    requires fp.len() <= usize::MAX as int;
            }
            let it = &self.invoice_items[i];
            if it.invoice_id == *iid {
                count = count + 1;
                total = total + it.price as u128;
            }
            i = i + 1;
        }
        proof {
            assert(self.invoice_items@.subrange(0, self.invoice_items@.len() as int)
                =~= self.invoice_items@);
        }
        (count, total)
    }
}

/// The details projection of an order joined with its client.
pub open spec fn order_details_row(s: Store, o: Order) -> SelectOrderDetails {
    let c = client_row(s.clients@, o.client_id@);
    SelectOrderDetails {
        id: o.id,
        created_at: o.created_at,
        full_name: c.full_name,
        address: c.address,
        phone_number: c.phone_number,
        email: c.email,
        status: o.status,
        total: order_total(s, o.id@) as u128,
    }
}

impl Store {
    /// The joined details of one order: client contact fields and the
    /// computed total. `None` when the id does not resolve.
    pub fn get_order(&self, id: &String) -> (r: Option<SelectOrderDetails>)
        requires
            self.wf(),
        ensures
            r is Some <==> order_ids(self.orders@).contains(id@),
            r is Some ==> r->Some_0 == order_details_row(
                *self, self.orders@[index_of_id(order_ids(self.orders@), id@)]),
    {
        let k = match self.find_order(id) {
            Some(k) => k,
            None => {
                return None;
            },
        };
        let o = &self.orders[k];
        let kc = match self.find_client(&o.client_id) {
            Some(kc) => kc,
            None => {
                proof {
                    assert(client_ids(self.clients@).contains(self.orders@[k as int].client_id@));
                }
                return None;
            },
        };
        let c = &self.clients[kc];
        let (_count, total) = self.order_count_and_total(&o.id);
        proof {
            assert(self.clients@[kc as int] == client_row(self.clients@, o.client_id@));
        }
        Some(SelectOrderDetails {
            id: o.id.clone(),
            created_at: o.created_at,
            full_name: c.full_name.clone(),
            address: crate::model::clone_opt(&c.address),
            phone_number: crate::model::clone_opt(&c.phone_number),
            email: crate::model::clone_opt(&c.email),
            status: o.status.clone(),
            total,
        })
    }
}

/// Whether `n` occurs as a contiguous run of characters in `h`.
pub open spec fn is_substring(n: Seq<char>, h: Seq<char>) -> bool {
    exists|k: int| 0 <= k && k + n.len() <= h.len() && #[trigger] h.subrange(k, k + n.len()) == n
}

/// Whether `needle` matches `hay` starting at position `k`.
fn match_at(hay: &str, k: usize, needle: &str) -> (r: bool)
    requires
        k + needle@.len() <= hay@.len(),
        hay@.len() <= usize::MAX,
    ensures
        r == (hay@.subrange(k as int, k + needle@.len()) == needle@),
{
    let nn = needle.unicode_len();
    let mut t: usize = 0;
    while t < nn
        invariant
            0 <= t <= nn == needle@.len(),
            k + nn <= hay@.len(),
            hay@.len() <= usize::MAX,
            forall|u: int| 0 <= u < t ==> hay@[k + u] == needle@[u],
        decreases nn - t,
    {
        if hay.get_char(k + t) != needle.get_char(t) {
            proof {
                assert(hay@.subrange(k as int, k + needle@.len())[t as int]
                    == hay@[k + t as int]);
            }
            return false;
        }
        t = t + 1;
    }
    proof {
        assert(hay@.subrange(k as int, k + needle@.len()) =~= needle@);
    }
    true
}

/// Whether `needle` occurs anywhere in `hay`.
pub fn contains_term(hay: &str, needle: &str) -> (r: bool)
    ensures
        r == is_substring(needle@, hay@),
{
    let hn = hay.unicode_len();
    let nn = needle.unicode_len();
    if nn > hn {
        return false;
    }
    if nn == 0 {
        proof {
            assert(hay@.subrange(0, 0 + needle@.len() as int) =~= needle@);
        }
        return true;
    }
    let mut k: usize = 0;
    while k <= hn - nn
        invariant
            0 <= k <= hn - nn + 1,
            1 <= nn <= hn,
            hn == hay@.len() && nn == needle@.len(),
            forall|j: int| 0 <= j < k
                ==> #[trigger] hay@.subrange(j, j + needle@.len()) != needle@,
        decreases hn - k,
    {
        if match_at(hay, k, needle) {
            return true;
        }
        k = k + 1;
    }
    false
}

/// A canonical document status: only these act as status filters; any
/// other value degrades to "no filter applied".
pub open spec fn canonical_status(st: Seq<char>) -> bool {
    st == "PENDING"@ || st == "DELIVERED"@ || st == "CANCELED"@ || st == "PAID"@
}

/// Whether an order passes the filters of a list query: an active
/// status filter must match exactly, and a search term must equal the
/// owning client's full name.
pub open spec fn order_matches(s: Store, o: Order, args: ListArgs) -> bool {
    &&& (args.status is Some && canonical_status(args.status->Some_0@)
        ==> o.status@ == args.status->Some_0@)
    &&& (args.search is Some
        ==> is_substring(args.search->Some_0@, client_row(s.clients@, o.client_id@).full_name@))
}

/// Whether an invoice passes the filters of a list query.
pub open spec fn invoice_matches(s: Store, v: Invoice, args: ListArgs) -> bool {
    &&& (args.status is Some && canonical_status(args.status->Some_0@)
        ==> v.status@ == args.status->Some_0@)
    &&& (args.search is Some
        ==> is_substring(args.search->Some_0@, client_row(s.clients@, v.client_id@).full_name@))
}

/// The orders of a run that pass the filters, in row order.
pub open spec fn orders_matching_in(s: Store, orders: Seq<Order>, args: ListArgs) -> Seq<Order> {
    orders.filter(|o: Order| order_matches(s, o, args))
}

/// The orders passing the filters, in row order.
pub open spec fn orders_matching(s: Store, args: ListArgs) -> Seq<Order> {
    orders_matching_in(s, s.orders@, args)
}

/// The invoices of a run that pass the filters, in row order.
pub open spec fn invoices_matching_in(s: Store, invoices: Seq<Invoice>, args: ListArgs) -> Seq<
    Invoice,
> {
    invoices.filter(|v: Invoice| invoice_matches(s, v, args))
}

/// The invoices passing the filters, in row order.
pub open spec fn invoices_matching(s: Store, args: ListArgs) -> Seq<Invoice> {
    invoices_matching_in(s, s.invoices@, args)
}

/// A run of orders projected to list rows.
pub open spec fn project_orders(s: Store, orders: Seq<Order>) -> Seq<SelectOrders> {
    orders.map_values(|o: Order| select_order_row(s, o))
}

/// A run of invoices projected to list rows.
pub open spec fn project_invoices(s: Store, invoices: Seq<Invoice>) -> Seq<SelectInvoices> {
    invoices.map_values(|v: Invoice| select_invoice_row(s, v))
}

/// A run of invoice items projected to joined lines.
pub open spec fn project_invoice_items(s: Store, items: Seq<InvoiceItem>) -> Seq<
    SelectInvoiceProduct,
> {
    items.map_values(|it: InvoiceItem| invoice_product_row(s, it))
}

/// The first row index of the requested page. Pages are numbered from
/// 1; page 0 is read as page 1.
pub open spec fn page_start(args: ListArgs, len: int) -> int {
    let p: int = if args.page == 0 { 0 } else { args.page - 1 };
    if p * (args.per_page as int) <= len { p * (args.per_page as int) } else { len }
}

/// One past the last row index of the requested page.
pub open spec fn page_end(args: ListArgs, len: int) -> int {
    if page_start(args, len) + (args.per_page as int) <= len {
        page_start(args, len) + (args.per_page as int)
    } else {
        len
    }
}

/// The list projection of an order joined with its client.
pub open spec fn select_order_row(s: Store, o: Order) -> SelectOrders {
    SelectOrders {
        id: o.id,
        created_at: o.created_at,
        client_id: o.client_id,
        full_name: client_row(s.clients@, o.client_id@).full_name,
        status: o.status,
        products: order_item_count(s, o.id@) as usize,
        total: order_total(s, o.id@) as u128,
    }
}

/// The list projection of an invoice joined with its client.
pub open spec fn select_invoice_row(s: Store, v: Invoice) -> SelectInvoices {
    SelectInvoices {
        id: v.id,
        created_at: v.created_at,
        client_id: v.client_id,
        full_name: client_row(s.clients@, v.client_id@).full_name,
        status: v.status,
        paid_amount: v.paid_amount,
        products: invoice_item_count(s, v.id@) as usize,
        total: invoice_total(s, v.id@) as u128,
    }
}

/// The rows of an order-list query: the matching orders, projected, cut
/// to the requested page.
pub open spec fn list_orders_spec(s: Store, args: ListArgs) -> Seq<SelectOrders> {
    let m = project_orders(s, orders_matching(s, args));
    m.subrange(page_start(args, m.len() as int), page_end(args, m.len() as int))
}

/// The rows of an invoice-list query.
pub open spec fn list_invoices_spec(s: Store, args: ListArgs) -> Seq<SelectInvoices> {
    let m = project_invoices(s, invoices_matching(s, args));
    m.subrange(page_start(args, m.len() as int), page_end(args, m.len() as int))
}

/// The details projection of an invoice joined with its client.
pub open spec fn invoice_details_row(s: Store, v: Invoice) -> SelectInvoiceDetails {
    let c = client_row(s.clients@, v.client_id@);
    SelectInvoiceDetails {
        id: v.id,
        created_at: v.created_at,
        full_name: c.full_name,
        address: c.address,
        phone_number: c.phone_number,
        email: c.email,
        status: v.status,
        paid_amount: v.paid_amount,
        total: invoice_total(s, v.id@) as u128,
    }
}

/// A line of an invoice joined with its movement and product.
pub open spec fn invoice_product_row(s: Store, it: InvoiceItem) -> SelectInvoiceProduct {
    let mv = movement_row(s.movements@, it.inventory_id@);
    SelectInvoiceProduct {
        item_id: it.id,
        inventory_id: it.inventory_id,
        product_id: mv.product_id,
        name: product_row(s.products@, mv.product_id@).name,
        price: it.price,
        quantity: mv.quantity,
    }
}

/// The joined lines of an invoice, in row order.
pub open spec fn invoice_products_spec(s: Store, iid: Seq<char>) -> Seq<SelectInvoiceProduct> {
    project_invoice_items(s, invoice_items_of_invoice(s.invoice_items@, iid))
}

impl Store {
    /// Whether an order passes the filters; mirrors `order_matches`.
    fn order_passes(&self, o: &Order, args: &ListArgs) -> (r: bool)
        requires
            self.wf(),
            client_ids(self.clients@).contains(o.client_id@),
        ensures
            r == order_matches(*self, *o, *args),
    {
        match &args.status {
            Some(st) => {
                let canon = st.eq(&"PENDING".to_string()) || st.eq(&"DELIVERED".to_string())
                    || st.eq(&"CANCELED".to_string()) || st.eq(&"PAID".to_string());
                if canon && !o.status.eq(st) {
                    return false;
                }
            },
            None => {},
        }
        match &args.search {
            Some(term) => {
                let kc = match self.find_client(&o.client_id) {
                    Some(kc) => kc,
                    None => {
                        return false;
                    },
                };
                proof {
                    assert(self.clients@[kc as int] == client_row(self.clients@, o.client_id@));
                }
                contains_term(self.clients[kc].full_name.as_str(), term.as_str())
            },
            None => true,
        }
    }

    /// Whether an invoice passes the filters; mirrors `invoice_matches`.
    fn invoice_passes(&self, v: &Invoice, args: &ListArgs) -> (r: bool)
        requires
            self.wf(),
            client_ids(self.clients@).contains(v.client_id@),
        ensures
            r == invoice_matches(*self, *v, *args),
    {
        match &args.status {
            Some(st) => {
                let canon = st.eq(&"PENDING".to_string()) || st.eq(&"DELIVERED".to_string())
                    || st.eq(&"CANCELED".to_string()) || st.eq(&"PAID".to_string());
                if canon && !v.status.eq(st) {
                    return false;
                }
            },
            None => {},
        }
        match &args.search {
            Some(term) => {
                let kc = match self.find_client(&v.client_id) {
                    Some(kc) => kc,
                    None => {
                        return false;
                    },
                };
                proof {
                    assert(self.clients@[kc as int] == client_row(self.clients@, v.client_id@));
                }
                contains_term(self.clients[kc].full_name.as_str(), term.as_str())
            },
            None => true,
        }
    }

    /// The list projection of one order; mirrors `select_order_row`.
    fn order_row(&self, o: &Order) -> (r: SelectOrders)
        requires
            self.wf(),
            client_ids(self.clients@).contains(o.client_id@),
        ensures
            r == select_order_row(*self, *o),
    {
        let kc = self.find_client(&o.client_id).unwrap();
        proof {
            assert(self.clients@[kc as int] == client_row(self.clients@, o.client_id@));
        }
        let (count, total) = self.order_count_and_total(&o.id);
        SelectOrders {
            id: o.id.clone(),
            created_at: o.created_at,
            client_id: o.client_id.clone(),
            full_name: self.clients[kc].full_name.clone(),
            status: o.status.clone(),
            products: count,
            total,
        }
    }

    /// The list projection of one invoice; mirrors `select_invoice_row`.
    fn invoice_row(&self, v: &Invoice) -> (r: SelectInvoices)
        requires
            self.wf(),
            client_ids(self.clients@).contains(v.client_id@),
        ensures
            r == select_invoice_row(*self, *v),
    {
        let kc = self.find_client(&v.client_id).unwrap();
        proof {
            assert(self.clients@[kc as int] == client_row(self.clients@, v.client_id@));
        }
        let (count, total) = self.invoice_count_and_total(&v.id);
        SelectInvoices {
            id: v.id.clone(),
            created_at: v.created_at,
            client_id: v.client_id.clone(),
            full_name: self.clients[kc].full_name.clone(),
            status: v.status.clone(),
            paid_amount: v.paid_amount,
            products: count,
            total,
        }
    }

    /// The order list: matching rows, joined and paged. Never returns
    /// more rows than the requested page size, and the result is a pure
    /// function of the store and the arguments.
    pub fn list_orders(&self, args: &ListArgs) -> (r: Vec<SelectOrders>)
        requires
            self.wf(),
        ensures
            r@ == list_orders_spec(*self, *args),
            r@.len() <= args.per_page,
    {
        let mut matched: Vec<SelectOrders> = Vec::new();
        let mut i: usize = 0;
        while i < self.orders.len()
            invariant
                0 <= i <= self.orders@.len(),
                self.wf(),
                matched@ == project_orders(*self, orders_matching_in(
                    *self, self.orders@.subrange(0, i as int), *args)),
            decreases self.orders@.len() - i,
        {
            proof {
                let prefix = self.orders@.subrange(0, i as int);
                assert(self.orders@.subrange(0, i + 1 as int) =~= prefix.push(
                    self.orders@[i as int]));
            }
            let o = &self.orders[i];
            if self.order_passes(o, args) {
                let row = self.order_row(o);
                proof {
                    let prefix = self.orders@.subrange(0, i as int);
                    assert(project_orders(*self, orders_matching_in(
                        *self, prefix.push(self.orders@[i as int]), *args))
                        =~= project_orders(*self, orders_matching_in(
                            *self, prefix, *args)).push(row));
                }
                matched.push(row);
            } else {
                proof {
                    let prefix = self.orders@.subrange(0, i as int);
                    assert(project_orders(*self, orders_matching_in(
                        *self, prefix.push(self.orders@[i as int]), *args))
                        =~= project_orders(*self, orders_matching_in(*self, prefix, *args)));
                }
            }
            i = i + 1;
        }
        proof {
            assert(self.orders@.subrange(0, self.orders@.len() as int) =~= self.orders@);
        }
        self.page_of_orders(matched, args)
    }

    /// Cuts the projected rows to the requested page.
    fn page_of_orders(&self, rows: Vec<SelectOrders>, args: &ListArgs) -> (r: Vec<SelectOrders>)
        requires
            rows@ == project_orders(*self, orders_matching(*self, *args)),
        ensures
            r@ == list_orders_spec(*self, *args),
            r@.len() <= args.per_page,
    {
        let len = rows.len();
        let p128: u128 = if args.page == 0 { 0 } else { (args.page - 1) as u128 };
        proof {
            assert((p128 as int) * (args.per_page as int)
                <= (u64::MAX as int) * (u64::MAX as int)) by (nonlinear_arith)
                requires p128 <= u64::MAX as int && args.per_page <= u64::MAX as int;
        }
        let start128: u128 = p128 * args.per_page as u128;
        let start: usize = if start128 <= len as u128 { start128 as usize } else { len };
        let end128: u128 = start as u128 + args.per_page as u128;
        let end: usize = if end128 <= len as u128 { end128 as usize } else { len };
        let mut out: Vec<SelectOrders> = Vec::new();
        let mut k: usize = start;
        proof {
            assert(start == page_start(*args, rows@.len() as int));
            assert(end == page_end(*args, rows@.len() as int));
        }
        while k < end
            invariant
                start <= k <= end <= rows@.len(),
                out@ == rows@.subrange(start as int, k as int),
            decreases end - k,
        {
            let row = &rows[k];
            out.push(SelectOrders {
                id: row.id.clone(),
                created_at: row.created_at,
                client_id: row.client_id.clone(),
                full_name: row.full_name.clone(),
                status: row.status.clone(),
                products: row.products,
                total: row.total,
            });
            proof {
                assert(out@ =~= rows@.subrange(start as int, k + 1 as int));
            }
            k = k + 1;
        }
        proof {
            assert(out@ == rows@.subrange(page_start(*args, rows@.len() as int),
                page_end(*args, rows@.len() as int)));
        }
        out
    }

    /// The invoice list: matching rows, joined and paged.
    pub fn list_invoices(&self, args: &ListArgs) -> (r: Vec<SelectInvoices>)
        requires
            self.wf(),
        ensures
            r@ == list_invoices_spec(*self, *args),
            r@.len() <= args.per_page,
    {
        let mut matched: Vec<SelectInvoices> = Vec::new();
        let mut i: usize = 0;
        while i < self.invoices.len()
            invariant
                0 <= i <= self.invoices@.len(),
                self.wf(),
                matched@ == project_invoices(*self, invoices_matching_in(
                    *self, self.invoices@.subrange(0, i as int), *args)),
            decreases self.invoices@.len() - i,
        {
            proof {
                let prefix = self.invoices@.subrange(0, i as int);
                assert(self.invoices@.subrange(0, i + 1 as int) =~= prefix.push(
                    self.invoices@[i as int]));
            }
            let v = &self.invoices[i];
            if self.invoice_passes(v, args) {
                let row = self.invoice_row(v);
                proof {
                    let prefix = self.invoices@.subrange(0, i as int);
                    assert(project_invoices(*self, invoices_matching_in(
                        *self, prefix.push(self.invoices@[i as int]), *args))
                        =~= project_invoices(*self, invoices_matching_in(
                            *self, prefix, *args)).push(row));
                }
                matched.push(row);
            } else {
                proof {
                    let prefix = self.invoices@.subrange(0, i as int);
                    assert(project_invoices(*self, invoices_matching_in(
                        *self, prefix.push(self.invoices@[i as int]), *args))
                        =~= project_invoices(*self, invoices_matching_in(
                            *self, prefix, *args)));
                }
            }
            i = i + 1;
        }
        proof {
            assert(self.invoices@.subrange(0, self.invoices@.len() as int) =~= self.invoices@);
        }
        self.page_of_invoices(matched, args)
    }

    /// Cuts the projected invoice rows to the requested page.
    fn page_of_invoices(&self, rows: Vec<SelectInvoices>, args: &ListArgs) -> (r: Vec<
        SelectInvoices,
    >)
        requires
            rows@ == project_invoices(*self, invoices_matching(*self, *args)),
        ensures
            r@ == list_invoices_spec(*self, *args),
            r@.len() <= args.per_page,
    {
        let len = rows.len();
        let p128: u128 = if args.page == 0 { 0 } else { (args.page - 1) as u128 };
        proof {
            assert((p128 as int) * (args.per_page as int)
                <= (u64::MAX as int) * (u64::MAX as int)) by (nonlinear_arith)
                requires p128 <= u64::MAX as int && args.per_page <= u64::MAX as int;
        }
        let start128: u128 = p128 * args.per_page as u128;
        let start: usize = if start128 <= len as u128 { start128 as usize } else { len };
        let end128: u128 = start as u128 + args.per_page as u128;
        let end: usize = if end128 <= len as u128 { end128 as usize } else { len };
        let mut out: Vec<SelectInvoices> = Vec::new();
        let mut k: usize = start;
        proof {
            assert(start == page_start(*args, rows@.len() as int));
            assert(end == page_end(*args, rows@.len() as int));
        }
        while k < end
            invariant
                start <= k <= end <= rows@.len(),
                out@ == rows@.subrange(start as int, k as int),
            decreases end - k,
        {
            let row = &rows[k];
            out.push(SelectInvoices {
                id: row.id.clone(),
                created_at: row.created_at,
                client_id: row.client_id.clone(),
                full_name: row.full_name.clone(),
                status: row.status.clone(),
                paid_amount: row.paid_amount,
                products: row.products,
                total: row.total,
            });
            proof {
                assert(out@ =~= rows@.subrange(start as int, k + 1 as int));
            }
            k = k + 1;
        }
        proof {
            assert(out@ == rows@.subrange(page_start(*args, rows@.len() as int),
                page_end(*args, rows@.len() as int)));
        }
        out
    }

    /// One invoice row as stored. `None` when the id does not resolve.
    pub fn get_invoice(&self, id: &String) -> (r: Option<Invoice>)
        ensures
            r is Some <==> invoice_ids(self.invoices@).contains(id@),
            r is Some ==> r->Some_0 == self.invoices@[index_of_id(
                invoice_ids(self.invoices@), id@)],
    {
        match self.find_invoice(id) {
            Some(k) => Some(self.invoices[k].clone()),
            None => None,
        }
    }

    /// The joined details of one invoice. `None` when the id does not
    /// resolve.
    pub fn get_invoice_details(&self, id: &String) -> (r: Option<SelectInvoiceDetails>)
        requires
            self.wf(),
        ensures
            r is Some <==> invoice_ids(self.invoices@).contains(id@),
            r is Some ==> r->Some_0 == invoice_details_row(
                *self, self.invoices@[index_of_id(invoice_ids(self.invoices@), id@)]),
    {
        let k = match self.find_invoice(id) {
            Some(k) => k,
            None => {
                return None;
            },
        };
        let v = &self.invoices[k];
        let kc = match self.find_client(&v.client_id) {
            Some(kc) => kc,
            None => {
                proof {
                    assert(client_ids(self.clients@).contains(
                        self.invoices@[k as int].client_id@));
                }
                return None;
            },
        };
        let c = &self.clients[kc];
        let (_count, total) = self.invoice_count_and_total(&v.id);
        proof {
            assert(self.clients@[kc as int] == client_row(self.clients@, v.client_id@));
        }
        Some(SelectInvoiceDetails {
            id: v.id.clone(),
            created_at: v.created_at,
            full_name: c.full_name.clone(),
            address: crate::model::clone_opt(&c.address),
            phone_number: crate::model::clone_opt(&c.phone_number),
            email: crate::model::clone_opt(&c.email),
            status: v.status.clone(),
            paid_amount: v.paid_amount,
            total,
        })
    }

    /// The joined lines of an invoice: each with its movement's quantity
    /// and its product's name. An id that does not resolve yields an
    /// empty list, not an error.
    pub fn list_invoice_products(&self, id: &String) -> (r: Vec<SelectInvoiceProduct>)
        requires
            self.wf(),
        ensures
            r@ == invoice_products_spec(*self, id@),
    {
        let ghost iid = id@;
        let mut out: Vec<SelectInvoiceProduct> = Vec::new();
        let mut i: usize = 0;
        while i < self.invoice_items.len()
            invariant
                0 <= i <= self.invoice_items@.len(),
                self.wf(),
                id@ == iid,
                out@ == project_invoice_items(*self, invoice_items_of_invoice(
                    self.invoice_items@.subrange(0, i as int), iid)),
            decreases self.invoice_items@.len() - i,
        {
            proof {
                let prefix = self.invoice_items@.subrange(0, i as int);
                assert(self.invoice_items@.subrange(0, i + 1 as int) =~= prefix.push(
                    self.invoice_items@[i as int]));
            }
            let it = &self.invoice_items[i];
            if it.invoice_id == *id {
                let km = self.find_movement(&it.inventory_id).unwrap();
                let mv = &self.movements[km];
                proof {
                    assert(self.movements@[km as int] == movement_row(
                        self.movements@, it.inventory_id@));
                }
                let kp = self.find_product(&mv.product_id).unwrap();
                proof {
                    assert(self.products@[kp as int] == product_row(
                        self.products@, mv.product_id@));
                }
                let row = SelectInvoiceProduct {
                    item_id: it.id.clone(),
                    inventory_id: it.inventory_id.clone(),
                    product_id: mv.product_id.clone(),
                    name: self.products[kp].name.clone(),
                    price: it.price,
                    quantity: mv.quantity,
                };
                proof {
                    let prefix = self.invoice_items@.subrange(0, i as int);
                    assert(project_invoice_items(*self, invoice_items_of_invoice(
                        prefix.push(self.invoice_items@[i as int]), iid))
                        =~= project_invoice_items(*self, invoice_items_of_invoice(
                            prefix, iid)).push(row));
                }
                out.push(row);
            } else {
                proof {
                    let prefix = self.invoice_items@.subrange(0, i as int);
                    assert(project_invoice_items(*self, invoice_items_of_invoice(
                        prefix.push(self.invoice_items@[i as int]), iid))
                        =~= project_invoice_items(*self, invoice_items_of_invoice(
                            prefix, iid)));
                }
            }
            i = i + 1;
        }
        proof {
            assert(self.invoice_items@.subrange(0, self.invoice_items@.len() as int)
                =~= self.invoice_items@);
        }
        out
    }
}

/// The orders of a run holding this status.
pub open spec fn orders_with_status(orders: Seq<Order>, st: Seq<char>) -> Seq<Order> {
    orders.filter(|o: Order| o.status@ == st)
}

/// The invoices of a run holding this status.
pub open spec fn invoices_with_status(invoices: Seq<Invoice>, st: Seq<char>) -> Seq<Invoice> {
    invoices.filter(|v: Invoice| v.status@ == st)
}

/// The paid amounts of a run of invoices, summed.
pub open spec fn sum_paid(invoices: Seq<Invoice>) -> int
    decreases invoices.len(),
{
    if invoices.len() == 0 {
        0
    } else {
        sum_paid(invoices.drop_last()) + invoices.last().paid_amount as int
    }
}

pub proof fn lemma_sum_paid_bound(invoices: Seq<Invoice>)
    ensures
        0 <= sum_paid(invoices) <= (invoices.len() as int) * (u32::MAX as int),
    decreases invoices.len(),
{
    if invoices.len() > 0 {
        lemma_sum_paid_bound(invoices.drop_last());
    }
}

/// What one movement cost: for an `In` event, its quantity at the
/// product's current unit price; `Out` events cost nothing here.
pub open spec fn expense_of(s: Store, m: InventoryMovement) -> int {
    match m.kind {
        MovementKind::In => (m.quantity as int) * (product_row(
            s.products@, m.product_id@).price as int),
        MovementKind::Out => 0,
    }
}

/// The total expenses of a run of movements.
pub open spec fn sum_expenses(s: Store, ms: Seq<InventoryMovement>) -> int
    decreases ms.len(),
{
    if ms.len() == 0 {
        0
    } else {
        sum_expenses(s, ms.drop_last()) + expense_of(s, ms.last())
    }
}

pub proof fn lemma_sum_expenses_bound(s: Store, ms: Seq<InventoryMovement>)
    ensures
        0 <= sum_expenses(s, ms)
            <= (ms.len() as int) * ((u32::MAX as int) * (u32::MAX as int)),
    decreases ms.len(),
{
    if ms.len() > 0 {
        lemma_sum_expenses_bound(s, ms.drop_last());
        assert(0 <= expense_of(s, ms.last()) <= (u32::MAX as int) * (u32::MAX as int))
            by (nonlinear_arith)
            requires expense_of(s, ms.last()) == 0 || (expense_of(s, ms.last())
                == (ms.last().quantity as int) * (product_row(
                    s.products@, ms.last().product_id@).price as int)
                && 0 <= ms.last().quantity as int <= u32::MAX as int
                && 0 <= product_row(s.products@, ms.last().product_id@).price as int
                    <= u32::MAX as int);
    }
}

/// The quantity that came in for a product over a run of movements.
pub open spec fn qty_in(ms: Seq<InventoryMovement>, pid: Seq<char>) -> int
    decreases ms.len(),
{
    if ms.len() == 0 {
        0
    } else {
        qty_in(ms.drop_last(), pid) + if ms.last().product_id@ == pid
            && ms.last().kind is In {
            ms.last().quantity as int
        } else {
            0
        }
    }
}

/// The quantity that went out for a product over a run of movements.
pub open spec fn qty_out(ms: Seq<InventoryMovement>, pid: Seq<char>) -> int
    decreases ms.len(),
{
    if ms.len() == 0 {
        0
    } else {
        qty_out(ms.drop_last(), pid) + if ms.last().product_id@ == pid
            && ms.last().kind is Out {
            ms.last().quantity as int
        } else {
            0
        }
    }
}

pub proof fn lemma_qty_bounds(ms: Seq<InventoryMovement>, pid: Seq<char>)
    ensures
        0 <= qty_in(ms, pid) <= (ms.len() as int) * (u32::MAX as int),
        0 <= qty_out(ms, pid) <= (ms.len() as int) * (u32::MAX as int),
    decreases ms.len(),
{
    if ms.len() > 0 {
        lemma_qty_bounds(ms.drop_last(), pid);
    }
}

/// The movement statistics of one product.
pub open spec fn mvm_stat_row(s: Store, p: Product) -> MvmStat {
    MvmStat {
        product_id: p.id,
        name: p.name,
        quantity_in: qty_in(s.movements@, p.id@) as u128,
        quantity_out: qty_out(s.movements@, p.id@) as u128,
    }
}

/// A run of products projected to movement statistics.
pub open spec fn project_mvm_stats(s: Store, products: Seq<Product>) -> Seq<MvmStat> {
    products.map_values(|p: Product| mvm_stat_row(s, p))
}

/// How many orders a client has.
pub open spec fn client_volume(s: Store, c: Client) -> int {
    orders_of_client(s.orders@, c.id@).len() as int
}

/// `k` is the first position of the maximal volume.
pub open spec fn first_max_client(s: Store, k: int) -> bool {
    &&& 0 <= k < s.clients@.len()
    &&& forall|j: int| 0 <= j < s.clients@.len()
        ==> client_volume(s, #[trigger] s.clients@[j]) <= client_volume(s, s.clients@[k])
    &&& forall|j: int| 0 <= j < k
        ==> client_volume(s, #[trigger] s.clients@[j]) < client_volume(s, s.clients@[k])
}

/// `k` is the first position of the maximal outgoing volume.
pub open spec fn first_max_product(s: Store, k: int) -> bool {
    &&& 0 <= k < s.products@.len()
    &&& forall|j: int| 0 <= j < s.products@.len()
        ==> qty_out(s.movements@, (#[trigger] s.products@[j]).id@)
            <= qty_out(s.movements@, s.products@[k].id@)
    &&& forall|j: int| 0 <= j < k
        ==> qty_out(s.movements@, (#[trigger] s.products@[j]).id@)
            < qty_out(s.movements@, s.products@[k].id@)
}

impl Store {
    /// How many orders hold this status.
    pub fn count_orders_with_status(&self, status: &String) -> (r: usize)
        ensures
            r == orders_with_status(self.orders@, status@).len(),
    {
        let mut count: usize = 0;
        let mut i: usize = 0;
        while i < self.orders.len()
            invariant
                0 <= i <= self.orders@.len(),
                count == orders_with_status(
                    self.orders@.subrange(0, i as int), status@).len(),
            decreases self.orders@.len() - i,
        {
            proof {
                let prefix = self.orders@.subrange(0, i as int);
                assert(self.orders@.subrange(0, i + 1 as int) =~= prefix.push(
                    self.orders@[i as int]));
            }
            if self.orders[i].status == *status {
                count = count + 1;
            }
            i = i + 1;
        }
        proof {
            assert(self.orders@.subrange(0, self.orders@.len() as int) =~= self.orders@);
        }
        count
    }

    /// How many invoices hold this status.
    pub fn count_invoices_with_status(&self, status: &String) -> (r: usize)
        ensures
            r == invoices_with_status(self.invoices@, status@).len(),
    {
        let mut count: usize = 0;
        let mut i: usize = 0;
        while i < self.invoices.len()
            invariant
                0 <= i <= self.invoices@.len(),
                count == invoices_with_status(
                    self.invoices@.subrange(0, i as int), status@).len(),
            decreases self.invoices@.len() - i,
        {
            proof {
                let prefix = self.invoices@.subrange(0, i as int);
                assert(self.invoices@.subrange(0, i + 1 as int) =~= prefix.push(
                    self.invoices@[i as int]));
            }
            if self.invoices[i].status == *status {
                count = count + 1;
            }
            i = i + 1;
        }
        proof {
            assert(self.invoices@.subrange(0, self.invoices@.len() as int) =~= self.invoices@);
        }
        count
    }

    /// Order and invoice counts for each canonical status, in a fixed
    /// order.
    pub fn list_status_count(&self) -> (r: Vec<StatusCount>)
        ensures
            r@.len() == 4,
            r@[0].status@ == "PENDING"@ && r@[0].orders == orders_with_status(
                self.orders@, "PENDING"@).len() && r@[0].invoices == invoices_with_status(
                self.invoices@, "PENDING"@).len(),
            r@[1].status@ == "DELIVERED"@ && r@[1].orders == orders_with_status(
                self.orders@, "DELIVERED"@).len() && r@[1].invoices == invoices_with_status(
                self.invoices@, "DELIVERED"@).len(),
            r@[2].status@ == "PAID"@ && r@[2].orders == orders_with_status(
                self.orders@, "PAID"@).len() && r@[2].invoices == invoices_with_status(
                self.invoices@, "PAID"@).len(),
            r@[3].status@ == "CANCELED"@ && r@[3].orders == orders_with_status(
                self.orders@, "CANCELED"@).len() && r@[3].invoices == invoices_with_status(
                self.invoices@, "CANCELED"@).len(),
    {
        let mut out: Vec<StatusCount> = Vec::new();
        let pending = "PENDING".to_string();
        let delivered = "DELIVERED".to_string();
        let paid = "PAID".to_string();
        let canceled = "CANCELED".to_string();
        let row0 = StatusCount {
            orders: self.count_orders_with_status(&pending),
            invoices: self.count_invoices_with_status(&pending),
            status: pending,
        };
        let row1 = StatusCount {
            orders: self.count_orders_with_status(&delivered),
            invoices: self.count_invoices_with_status(&delivered),
            status: delivered,
        };
        let row2 = StatusCount {
            orders: self.count_orders_with_status(&paid),
            invoices: self.count_invoices_with_status(&paid),
            status: paid,
        };
        let row3 = StatusCount {
            orders: self.count_orders_with_status(&canceled),
            invoices: self.count_invoices_with_status(&canceled),
            status: canceled,
        };
        out.push(row0);
        out.push(row1);
        out.push(row2);
        out.push(row3);
        out
    }

    /// The revenue so far: the paid amounts of all invoices, summed.
    pub fn list_revenue(&self) -> (r: u128)
        ensures
            r == sum_paid(self.invoices@),
    {
        let mut total: u128 = 0;
        let mut i: usize = 0;
        while i < self.invoices.len()
            invariant
                0 <= i <= self.invoices@.len(),
                total == sum_paid(self.invoices@.subrange(0, i as int)),
                total <= (i as int) * (u32::MAX as int),
            decreases self.invoices@.len() - i,
        {
            proof {
                let prefix = self.invoices@.subrange(0, i as int);
                assert(self.invoices@.subrange(0, i + 1 as int) =~= prefix.push(
                    self.invoices@[i as int]));
                assert(prefix.push(self.invoices@[i as int]).drop_last() =~= prefix);
                assert((i + 1 as int) * (u32::MAX as int) <= (usize::MAX as int) * (u32::MAX
                    as int)) by (nonlinear_arith)
                    requires i + 1 <= usize::MAX as int;
            }
            total = total + self.invoices[i].paid_amount as u128;
            i = i + 1;
        }
        proof {
            assert(self.invoices@.subrange(0, self.invoices@.len() as int) =~= self.invoices@);
        }
        total
    }

    /// The expenses so far: each incoming movement's quantity at its
    /// product's current unit price, summed.
    pub fn list_expenses(&self) -> (r: u128)
        requires
            self.wf(),
        ensures
            r == sum_expenses(*self, self.movements@),
    {
        let mut total: u128 = 0;
        let mut i: usize = 0;
        while i < self.movements.len()
            invariant
                0 <= i <= self.movements@.len(),
                self.wf(),
                total == sum_expenses(*self, self.movements@.subrange(0, i as int)),
                total <= (i as int) * ((u32::MAX as int) * (u32::MAX as int)),
            decreases self.movements@.len() - i,
        {
            proof {
                let prefix = self.movements@.subrange(0, i as int);
                assert(self.movements@.subrange(0, i + 1 as int) =~= prefix.push(
                    self.movements@[i as int]));
                assert(prefix.push(self.movements@[i as int]).drop_last() =~= prefix);
                assert((i + 1 as int) * ((u32::MAX as int) * (u32::MAX as int))
                    <= (usize::MAX as int) * ((u32::MAX as int) * (u32::MAX as int)))
                    by (nonlinear_arith)
                    requires i + 1 <= usize::MAX as int;
            }
            let m = &self.movements[i];
            match m.kind {
                MovementKind::In => {
                    let kp = self.find_product(&m.product_id).unwrap();
                    proof {
                        assert(self.products@[kp as int] == product_row(
                            self.products@, m.product_id@));
                        assert((m.quantity as int) * (self.products@[kp as int].price as int)
                            <= (u32::MAX as int) * (u32::MAX as int)) by (nonlinear_arith)
                            requires 0 <= m.quantity as int <= u32::MAX as int
                                && 0 <= self.products@[kp as int].price as int
                                    <= u32::MAX as int;
                    }
                    total = total + (m.quantity as u128) * (self.products[kp].price as u128);
                },
                MovementKind::Out => {},
            }
            i = i + 1;
        }
        proof {
            assert(self.movements@.subrange(0, self.movements@.len() as int) =~= self.movements@);
        }
        total
    }

    /// The incoming and outgoing quantities of one product.
    fn product_qtys(&self, pid: &String) -> (r: (u128, u128))
        ensures
            r.0 == qty_in(self.movements@, pid@),
            r.1 == qty_out(self.movements@, pid@),
    {
        let mut q_in: u128 = 0;
        let mut q_out: u128 = 0;
        let mut i: usize = 0;
        while i < self.movements.len()
            invariant
                0 <= i <= self.movements@.len(),
                q_in == qty_in(self.movements@.subrange(0, i as int), pid@),
                q_out == qty_out(self.movements@.subrange(0, i as int), pid@),
                q_in <= (i as int) * (u32::MAX as int),
                q_out <= (i as int) * (u32::MAX as int),
            decreases self.movements@.len() - i,
        {
            proof {
                let prefix = self.movements@.subrange(0, i as int);
                assert(self.movements@.subrange(0, i + 1 as int) =~= prefix.push(
                    self.movements@[i as int]));
                assert(prefix.push(self.movements@[i as int]).drop_last() =~= prefix);
                assert((i + 1 as int) * (u32::MAX as int) <= (usize::MAX as int) * (u32::MAX
                    as int)) by (nonlinear_arith)
                    requires i + 1 <= usize::MAX as int;
            }
            let m = &self.movements[i];
            if m.product_id == *pid {
                match m.kind {
                    MovementKind::In => {
                        q_in = q_in + m.quantity as u128;
                    },
                    MovementKind::Out => {
                        q_out = q_out + m.quantity as u128;
                    },
                }
            }
            i = i + 1;
        }
        proof {
            assert(self.movements@.subrange(0, self.movements@.len() as int) =~= self.movements@);
        }
        (q_in, q_out)
    }

    /// Per-product movement statistics, in catalog order.
    pub fn list_mvm_stats(&self) -> (r: Vec<MvmStat>)
        ensures
            r@ == project_mvm_stats(*self, self.products@),
    {
        let mut out: Vec<MvmStat> = Vec::new();
        let mut i: usize = 0;
        while i < self.products.len()
            invariant
                0 <= i <= self.products@.len(),
                out@ == project_mvm_stats(*self, self.products@.subrange(0, i as int)),
            decreases self.products@.len() - i,
        {
            let p = &self.products[i];
            let (q_in, q_out) = self.product_qtys(&p.id);
            let row = MvmStat {
                product_id: p.id.clone(),
                name: p.name.clone(),
                quantity_in: q_in,
                quantity_out: q_out,
            };
            proof {
                let prefix = self.products@.subrange(0, i as int);
                assert(self.products@.subrange(0, i + 1 as int) =~= prefix.push(
                    self.products@[i as int]));
                assert(project_mvm_stats(*self, prefix.push(self.products@[i as int]))
                    =~= project_mvm_stats(*self, prefix).push(row));
            }
            out.push(row);
            i = i + 1;
        }
        proof {
            assert(self.products@.subrange(0, self.products@.len() as int) =~= self.products@);
        }
        out
    }

    /// How many orders this client has.
    pub fn count_orders_of_client(&self, cid: &String) -> (r: usize)
        ensures
            r == orders_of_client(self.orders@, cid@).len(),
    {
        let mut count: usize = 0;
        let mut i: usize = 0;
        while i < self.orders.len()
            invariant
                0 <= i <= self.orders@.len(),
                count == orders_of_client(self.orders@.subrange(0, i as int), cid@).len(),
            decreases self.orders@.len() - i,
        {
            proof {
                let prefix = self.orders@.subrange(0, i as int);
                assert(self.orders@.subrange(0, i + 1 as int) =~= prefix.push(
                    self.orders@[i as int]));
            }
            if self.orders[i].client_id == *cid {
                count = count + 1;
            }
            i = i + 1;
        }
        proof {
            assert(self.orders@.subrange(0, self.orders@.len() as int) =~= self.orders@);
        }
        count
    }

    /// The client with the most orders, earliest row first on ties.
    /// `None` only when there are no clients.
    pub fn top_client(&self) -> (r: Option<TopEntry>)
        ensures
            r is Some <==> self.clients@.len() > 0,
            r is Some ==> exists|k: int| #[trigger] first_max_client(*self, k)
                && r->Some_0 == (TopEntry {
                    id: self.clients@[k].id,
                    name: self.clients@[k].full_name,
                    volume: client_volume(*self, self.clients@[k]) as u128,
                }),
    {
        if self.clients.len() == 0 {
            return None;
        }
        let mut best: usize = 0;
        let mut best_count: usize = self.count_orders_of_client(&self.clients[0].id);
        let mut i: usize = 1;
        while i < self.clients.len()
            invariant
                1 <= i <= self.clients@.len(),
                0 <= best < i,
                best_count == client_volume(*self, self.clients@[best as int]),
                forall|j: int| 0 <= j < i
                    ==> client_volume(*self, #[trigger] self.clients@[j]) <= best_count,
                forall|j: int| 0 <= j < best
                    ==> client_volume(*self, #[trigger] self.clients@[j]) < best_count,
            decreases self.clients@.len() - i,
        {
            let c = self.count_orders_of_client(&self.clients[i].id);
            if c > best_count {
                best = i;
                best_count = c;
            }
            i = i + 1;
        }
        let e = TopEntry {
            id: self.clients[best].id.clone(),
            name: self.clients[best].full_name.clone(),
            volume: best_count as u128,
        };
        proof {
            assert(first_max_client(*self, best as int));
        }
        Some(e)
    }

    /// The product with the largest outgoing volume, earliest row first
    /// on ties. `None` only when there are no products.
    pub fn top_product(&self) -> (r: Option<TopEntry>)
        ensures
            r is Some <==> self.products@.len() > 0,
            r is Some ==> exists|k: int| #[trigger] first_max_product(*self, k)
                && r->Some_0 == (TopEntry {
                    id: self.products@[k].id,
                    name: self.products@[k].name,
                    volume: qty_out(self.movements@, self.products@[k].id@) as u128,
                }),
    {
        if self.products.len() == 0 {
            return None;
        }
        let (_q_in0, q_out0) = self.product_qtys(&self.products[0].id);
        let mut best: usize = 0;
        let mut best_out: u128 = q_out0;
        let mut i: usize = 1;
        proof {
            lemma_qty_bounds(self.movements@, self.products@[0].id@);
        }
        while i < self.products.len()
            invariant
                1 <= i <= self.products@.len(),
                0 <= best < i,
                best_out == qty_out(self.movements@, self.products@[best as int].id@),
                forall|j: int| 0 <= j < i
                    ==> qty_out(self.movements@, (#[trigger] self.products@[j]).id@)
                        <= best_out,
                forall|j: int| 0 <= j < best
                    ==> qty_out(self.movements@, (#[trigger] self.products@[j]).id@)
                        < best_out,
            decreases self.products@.len() - i,
        {
            let (_q_in, q_out) = self.product_qtys(&self.products[i].id);
            if q_out > best_out {
                best = i;
                best_out = q_out;
            }
            i = i + 1;
        }
        let e = TopEntry {
            id: self.products[best].id.clone(),
            name: self.products[best].name.clone(),
            volume: best_out,
        };
        proof {
            assert(first_max_product(*self, best as int));
        }
        Some(e)
    }
}

} // verus!
