//! Cross-cutting laws of the store, proved once over the same spec
//! functions that the operations' own contracts use.

use vstd::prelude::*;
use vstd::seq_lib::group_filter_ensures;
use crate::model::{NewOrder, NewDocItem, Order, OrderItem, Invoice};
use crate::store::{Store, order_ids, order_item_ids};
use crate::mutations::{new_order_item_rows, doc_items_fresh};
use crate::deletes::{
    order_items_of_order, orders_of_client, orders_except_client, invoices_of_client,
    invoices_except_client, invoices_cleared_of_orders,
};
use crate::queries::{order_item_count, order_total, sum_order_item_prices};

verus! {

broadcast use group_filter_ensures, Seq::lemma_filter_push, Seq::filter_distributes_over_add;

/// The prices of the requested lines, summed.
pub open spec fn sum_new_item_prices(items: Seq<NewDocItem>) -> int
    decreases items.len(),
{
    if items.len() == 0 {
        0
    } else {
        sum_new_item_prices(items.drop_last()) + items.last().price as int
    }
}

/// A run of order items none of which belongs to `oid` filters to
/// nothing.
proof fn lemma_items_of_absent_order(s: Seq<OrderItem>, oid: Seq<char>)
    requires
        forall|k: int| 0 <= k < s.len() ==> (#[trigger] s[k]).order_id@ != oid,
    ensures
        order_items_of_order(s, oid) =~= Seq::<OrderItem>::empty(),
    decreases s.len(),
{
    if s.len() > 0 {
        let s0 = s.drop_last();
        lemma_items_of_absent_order(s0, oid);
        assert(s0.push(s.last()) =~= s);
        assert(order_items_of_order(s0.push(s.last()), oid) == order_items_of_order(s0, oid));
    }
}

/// A run of order items all of which belong to `oid` filters to itself.
proof fn lemma_items_all_of_order(s: Seq<OrderItem>, oid: Seq<char>)
    requires
        forall|k: int| 0 <= k < s.len() ==> (#[trigger] s[k]).order_id@ == oid,
    ensures
        order_items_of_order(s, oid) =~= s,
    decreases s.len(),
{
    if s.len() > 0 {
        let s0 = s.drop_last();
        lemma_items_all_of_order(s0, oid);
        assert(s0.push(s.last()) =~= s);
        assert(order_items_of_order(s0.push(s.last()), oid)
            == order_items_of_order(s0, oid).push(s.last()));
    }
}

/// The item rows built for a request sum to the requested prices.
proof fn lemma_sum_rows(order_id: String, items: Seq<NewDocItem>)
    ensures
        sum_order_item_prices(new_order_item_rows(order_id, items))
            == sum_new_item_prices(items),
    decreases items.len(),
{
    if items.len() > 0 {
        lemma_sum_rows(order_id, items.drop_last());
        assert(new_order_item_rows(order_id, items).drop_last()
            =~= new_order_item_rows(order_id, items.drop_last()));
        assert(new_order_item_rows(order_id, items).last().price == items.last().price);
    }
}

/// The orders of a client and the orders of everyone else partition
/// the table.
proof fn lemma_orders_partition(s: Seq<Order>, cid: Seq<char>)
    ensures
        orders_of_client(s, cid).len() + orders_except_client(s, cid).len() == s.len(),
    decreases s.len(),
{
    if s.len() > 0 {
        let s0 = s.drop_last();
        lemma_orders_partition(s0, cid);
        assert(s0.push(s.last()) =~= s);
        assert(orders_of_client(s0.push(s.last()), cid) == if s.last().client_id@ == cid {
            orders_of_client(s0, cid).push(s.last())
        } else {
            orders_of_client(s0, cid)
        });
        assert(orders_except_client(s0.push(s.last()), cid) == if s.last().client_id@ != cid {
            orders_except_client(s0, cid).push(s.last())
        } else {
            orders_except_client(s0, cid)
        });
    }
}

/// The invoices of a client and the invoices of everyone else partition
/// the table.
proof fn lemma_invoices_partition(s: Seq<Invoice>, cid: Seq<char>)
    ensures
        invoices_of_client(s, cid).len() + invoices_except_client(s, cid).len() == s.len(),
    decreases s.len(),
{
    if s.len() > 0 {
        let s0 = s.drop_last();
        lemma_invoices_partition(s0, cid);
        assert(s0.push(s.last()) =~= s);
        assert(invoices_of_client(s0.push(s.last()), cid) == if s.last().client_id@ == cid {
            invoices_of_client(s0, cid).push(s.last())
        } else {
            invoices_of_client(s0, cid)
        });
        assert(invoices_except_client(s0.push(s.last()), cid) == if s.last().client_id@ != cid {
            invoices_except_client(s0, cid).push(s.last())
        } else {
            invoices_except_client(s0, cid)
        });
    }
}

/// What deleting a client removes, counted: with N orders and M
/// invoices owned by the client, exactly N orders and M invoices leave
/// the store — the documents of other clients all survive. Together
/// with `delete_client`'s own contract this pins the document count of
/// the cascade.
pub proof fn lemma_delete_client_document_counts(pre: Store, post: Store, cid: Seq<char>)
    requires
        post.orders@ == orders_except_client(pre.orders@, cid),
        post.invoices@ == invoices_cleared_of_orders(
            invoices_except_client(pre.invoices@, cid),
            order_ids(orders_of_client(pre.orders@, cid))),
    ensures
        pre.orders@.len() - post.orders@.len() == orders_of_client(pre.orders@, cid).len(),
        pre.invoices@.len() - post.invoices@.len() == invoices_of_client(
            pre.invoices@, cid).len(),
{
    lemma_orders_partition(pre.orders@, cid);
    lemma_invoices_partition(pre.invoices@, cid);
}

/// What a freshly created order reports: immediately after
/// `create_order` succeeds, the order resolves, its line count is the
/// number of requested items, and its total is the sum of their prices
/// — which is exactly what `get_order` and the list projections then
/// return, since their contracts are stated over the same
/// `order_item_count` and `order_total`.
pub proof fn lemma_create_then_get_totals(
    pre: Store,
    post: Store,
    order_id: String,
    o: NewOrder,
    items: Seq<NewDocItem>,
    created_at: u64,
)
    requires
        pre.wf(),
        !order_ids(pre.orders@).contains(order_id@),
        doc_items_fresh(order_item_ids(pre.order_items@), pre, items),
        post.orders@ == pre.orders@.push(
            (Order {
                id: order_id,
                client_id: o.client_id,
                status: o.status,
                created_at: created_at,
            })),
        post.order_items@ == pre.order_items@ + new_order_item_rows(order_id, items),
    ensures
        order_ids(post.orders@).contains(order_id@),
        order_item_count(post, order_id@) == items.len(),
        order_total(post, order_id@) == sum_new_item_prices(items),
{
    let oid = order_id@;
    let rows = new_order_item_rows(order_id, items);

    assert(order_ids(post.orders@)[pre.orders@.len() as int] == oid);

    // no old line belongs to the new order: its id was fresh
    assert forall|k: int| 0 <= k < pre.order_items@.len()
        implies (#[trigger] pre.order_items@[k]).order_id@ != oid by {
        if pre.order_items@[k].order_id@ == oid {
            assert(order_ids(pre.orders@).contains(pre.order_items@[k].order_id@));
        }
    }
    lemma_items_of_absent_order(pre.order_items@, oid);

    // every new line belongs to it
    assert forall|k: int| 0 <= k < rows.len()
        implies (#[trigger] rows[k]).order_id@ == oid by {
        assert(rows[k] == (OrderItem {
            id: items[k].id,
            price: items[k].price,
            order_id: order_id,
            inventory_id: items[k].inventory_id,
        }));
    }
    lemma_items_all_of_order(rows, oid);

    assert(order_items_of_order(post.order_items@, oid)
        =~= order_items_of_order(pre.order_items@, oid) + order_items_of_order(rows, oid));
    assert(order_items_of_order(post.order_items@, oid) =~= rows);
    lemma_sum_rows(order_id, items);
}

} // verus!
