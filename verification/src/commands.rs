//! The command layer: each inbound call is answered with the uniform
//! `{data | error, message}` envelope. These adapters only wrap the
//! store operations; the conditions under which they succeed, and what
//! they change, are the operations' own contracts restated.

use vstd::prelude::*;
use crate::model::{
    NewInvoice, NewDocItem, Invoice, ListArgs, SelectInvoices, SelectInvoiceDetails,
    SelectInvoiceProduct, StatusCount, TopEntry, MvmStat, StoreError,
};
use crate::relay::{SResult, Fail};
use crate::store::{Store, client_ids, product_ids, order_ids, invoice_ids, index_of_id};
use crate::mutations::{
    doc_items_products_ok, doc_items_fresh, new_invoice_item_rows, new_out_movements,
};
use crate::deletes::{
    invoices_except, invoice_items_except_invoice, invoice_items_of_invoice,
    movements_excluding,
};
use crate::store::{invoice_item_ids, movement_ids, invoice_item_refs};
use crate::queries::{
    list_invoices_spec, invoice_products_spec, invoice_details_row, project_mvm_stats,
    orders_with_status, invoices_with_status, sum_paid, sum_expenses, first_max_client,
    first_max_product, client_volume, qty_out,
};

verus! {

/// The failure envelope of a store error.
pub fn fail_of(e: StoreError) -> (r: Fail)
    ensures
        r.error is Some,
        r.error->Some_0@ == e.text_spec(),
        r.message is None,
{
    Fail { error: Some(e.text()), message: None }
}

/// Lists invoices: always succeeds, with the paged projection as data.
pub fn list_invoices(store: &Store, args: &ListArgs) -> (r: Result<SResult<Vec<SelectInvoices>>,
    Fail>)
    requires
        store.wf(),
    ensures
        r is Ok,
        r->Ok_0.error is None && r->Ok_0.message is None,
        r->Ok_0.data is Some,
        r->Ok_0.data->Some_0@ == list_invoices_spec(*store, *args),
        r->Ok_0.data->Some_0@.len() <= args.per_page,
{
    Ok(SResult { error: None, message: None, data: Some(store.list_invoices(args)) })
}

/// Lists the joined lines of one invoice; an unknown id yields an empty
/// list, not an error.
pub fn list_invoice_products(store: &Store, id: &String) -> (r: Result<SResult<Vec<
    SelectInvoiceProduct>>, Fail>)
    requires
        store.wf(),
    ensures
        r is Ok,
        r->Ok_0.error is None && r->Ok_0.message is None,
        r->Ok_0.data is Some,
        r->Ok_0.data->Some_0@ == invoice_products_spec(*store, id@),
{
    Ok(SResult { error: None, message: None, data: Some(store.list_invoice_products(id)) })
}

/// Creates an invoice; on success the new id is returned as data.
pub fn create_invoice(
    store: &mut Store,
    invoice_id: String,
    invoice: NewInvoice,
    items: Vec<NewDocItem>,
    created_at: u64,
) -> (r: Result<SResult<String>, Fail>)
    requires
        old(store).wf(),
    ensures
        final(store).wf(),
        r is Ok <==> client_ids(old(store).clients@).contains(invoice.client_id@)
            && (invoice.order_id is Some
                ==> order_ids(old(store).orders@).contains(invoice.order_id->Some_0@))
            && doc_items_products_ok(*old(store), items@)
            && !invoice_ids(old(store).invoices@).contains(invoice_id@)
            && doc_items_fresh(invoice_item_ids(old(store).invoice_items@), *old(store), items@),
        r is Ok ==> final(store).invoices@ == old(store).invoices@.push(
            (Invoice {
                id: invoice_id,
                client_id: invoice.client_id,
                order_id: invoice.order_id,
                status: invoice.status,
                paid_amount: invoice.paid_amount,
                created_at: created_at,
            }))
            && final(store).invoice_items@ == old(store).invoice_items@
                + new_invoice_item_rows(invoice_id, items@)
            && final(store).movements@ == old(store).movements@
                + new_out_movements(items@, created_at)
            && r->Ok_0.error is None && r->Ok_0.message is None
            && r->Ok_0.data is Some && r->Ok_0.data->Some_0@ == invoice_id@,
        r is Err ==> *final(store) == *old(store)
            && r->Err_0.error is Some && r->Err_0.message is None,
{
    let id_echo = invoice_id.clone();
    match store.create_invoice(invoice_id, invoice, items, created_at) {
        Ok(()) => Ok(SResult { error: None, message: None, data: Some(id_echo) }),
        Err(e) => Err(fail_of(e)),
    }
}

/// Updates an invoice's status and paid amount.
pub fn update_invoice(store: &mut Store, id: &String, status: String, paid_amount: u32) -> (r:
    Result<SResult<()>, Fail>)
    requires
        old(store).wf(),
    ensures
        final(store).wf(),
        r is Ok <==> invoice_ids(old(store).invoices@).contains(id@),
        r is Ok ==> final(store).invoices@ == old(store).invoices@.update(
            index_of_id(invoice_ids(old(store).invoices@), id@),
            (Invoice {
                status: status,
                paid_amount: paid_amount,
                ..old(store).invoices@[index_of_id(invoice_ids(old(store).invoices@), id@)]
            }))
            && r->Ok_0.error is None && r->Ok_0.data is None
            && r->Ok_0.message is Some
            && r->Ok_0.message->Some_0@ == "update invoices success"@,
        r is Err ==> *final(store) == *old(store)
            && r->Err_0.error is Some
            && r->Err_0.error->Some_0@ == StoreError::NotFound.text_spec()
            && r->Err_0.message is None,
{
    match store.update_invoice(id, status, paid_amount) {
        Ok(()) => Ok(SResult {
            error: None,
            message: Some("update invoices success".to_string()),
            data: None,
        }),
        Err(e) => Err(fail_of(e)),
    }
}

/// Deletes an invoice; on success the number of removed rows is the
/// data.
pub fn delete_invoice(store: &mut Store, id: &String) -> (r: Result<SResult<u128>, Fail>)
    requires
        old(store).wf(),
    ensures
        final(store).wf(),
        r is Ok <==> invoice_ids(old(store).invoices@).contains(id@),
        r is Ok ==> final(store).invoices@ == invoices_except(old(store).invoices@, id@)
            && final(store).invoice_items@ == invoice_items_except_invoice(
                old(store).invoice_items@, id@)
            && final(store).movements@ == movements_excluding(
                old(store).movements@,
                invoice_item_refs(invoice_items_of_invoice(old(store).invoice_items@, id@)))
            && r->Ok_0.error is None && r->Ok_0.message is None
            && r->Ok_0.data is Some
            && r->Ok_0.data->Some_0 == 1 + (old(store).invoice_items@.len()
                - final(store).invoice_items@.len())
                + (old(store).movements@.len() - final(store).movements@.len()),
        r is Err ==> *final(store) == *old(store)
            && r->Err_0.error is Some
            && r->Err_0.error->Some_0@ == StoreError::NotFound.text_spec()
            && r->Err_0.message is None,
{
    match store.delete_invoice(id) {
        Ok(n) => Ok(SResult { error: None, message: None, data: Some(n) }),
        Err(e) => Err(fail_of(e)),
    }
}

/// One invoice row; an unknown id yields an empty result, not an error.
pub fn get_invoice(store: &Store, id: &String) -> (r: Result<SResult<Invoice>, Fail>)
    ensures
        r is Ok,
        r->Ok_0.error is None && r->Ok_0.message is None,
        r->Ok_0.data is Some <==> invoice_ids(store.invoices@).contains(id@),
        r->Ok_0.data is Some ==> r->Ok_0.data->Some_0 == store.invoices@[index_of_id(
            invoice_ids(store.invoices@), id@)],
{
    Ok(SResult { error: None, message: None, data: store.get_invoice(id) })
}

/// The joined details of one invoice; an unknown id yields an empty
/// result, not an error.
pub fn get_invoice_details(store: &Store, id: &String) -> (r: Result<SResult<
    SelectInvoiceDetails>, Fail>)
    requires
        store.wf(),
    ensures
        r is Ok,
        r->Ok_0.error is None && r->Ok_0.message is None,
        r->Ok_0.data is Some <==> invoice_ids(store.invoices@).contains(id@),
        r->Ok_0.data is Some ==> r->Ok_0.data->Some_0 == invoice_details_row(
            *store, store.invoices@[index_of_id(invoice_ids(store.invoices@), id@)]),
{
    Ok(SResult { error: None, message: None, data: store.get_invoice_details(id) })
}

/// Per-product movement statistics.
pub fn list_mvm_stats(store: &Store) -> (r: Result<SResult<Vec<MvmStat>>, Fail>)
    ensures
        r is Ok,
        r->Ok_0.error is None && r->Ok_0.message is None,
        r->Ok_0.data is Some,
        r->Ok_0.data->Some_0@ == project_mvm_stats(*store, store.products@),
{
    Ok(SResult { error: None, message: None, data: Some(store.list_mvm_stats()) })
}

/// The leading client by order count: at most one entry, ties going to
/// the earliest row.
pub fn list_top_clients(store: &Store) -> (r: Result<SResult<Vec<TopEntry>>, Fail>)
    ensures
        r is Ok,
        r->Ok_0.error is None && r->Ok_0.message is None,
        r->Ok_0.data is Some,
        r->Ok_0.data->Some_0@.len() == (if store.clients@.len() > 0 { 1int } else { 0int }),
        store.clients@.len() > 0 ==> exists|k: int| #[trigger] first_max_client(*store, k)
            && r->Ok_0.data->Some_0@[0] == (TopEntry {
                id: store.clients@[k].id,
                name: store.clients@[k].full_name,
                volume: client_volume(*store, store.clients@[k]) as u128,
            }),
{
    let mut out: Vec<TopEntry> = Vec::new();
    match store.top_client() {
        Some(e) => {
            out.push(e);
        },
        None => {},
    }
    Ok(SResult { error: None, message: None, data: Some(out) })
}

/// The leading product by outgoing volume: at most one entry, ties
/// going to the earliest row.
pub fn list_top_products(store: &Store) -> (r: Result<SResult<Vec<TopEntry>>, Fail>)
    ensures
        r is Ok,
        r->Ok_0.error is None && r->Ok_0.message is None,
        r->Ok_0.data is Some,
        r->Ok_0.data->Some_0@.len() == (if store.products@.len() > 0 { 1int } else { 0int }),
        store.products@.len() > 0 ==> exists|k: int| #[trigger] first_max_product(*store, k)
            && r->Ok_0.data->Some_0@[0] == (TopEntry {
                id: store.products@[k].id,
                name: store.products@[k].name,
                volume: qty_out(store.movements@, store.products@[k].id@) as u128,
            }),
{
    let mut out: Vec<TopEntry> = Vec::new();
    match store.top_product() {
        Some(e) => {
            out.push(e);
        },
        None => {},
    }
    Ok(SResult { error: None, message: None, data: Some(out) })
}

/// Order and invoice counts by canonical status.
pub fn list_status_count(store: &Store) -> (r: Result<SResult<Vec<StatusCount>>, Fail>)
    ensures
        r is Ok,
        r->Ok_0.error is None && r->Ok_0.message is None,
        r->Ok_0.data is Some,
        r->Ok_0.data->Some_0@.len() == 4,
        r->Ok_0.data->Some_0@[0].status@ == "PENDING"@
            && r->Ok_0.data->Some_0@[0].orders == orders_with_status(
                store.orders@, "PENDING"@).len()
            && r->Ok_0.data->Some_0@[0].invoices == invoices_with_status(
                store.invoices@, "PENDING"@).len(),
        r->Ok_0.data->Some_0@[1].status@ == "DELIVERED"@
            && r->Ok_0.data->Some_0@[1].orders == orders_with_status(
                store.orders@, "DELIVERED"@).len()
            && r->Ok_0.data->Some_0@[1].invoices == invoices_with_status(
                store.invoices@, "DELIVERED"@).len(),
        r->Ok_0.data->Some_0@[2].status@ == "PAID"@
            && r->Ok_0.data->Some_0@[2].orders == orders_with_status(
                store.orders@, "PAID"@).len()
            && r->Ok_0.data->Some_0@[2].invoices == invoices_with_status(
                store.invoices@, "PAID"@).len(),
        r->Ok_0.data->Some_0@[3].status@ == "CANCELED"@
            && r->Ok_0.data->Some_0@[3].orders == orders_with_status(
                store.orders@, "CANCELED"@).len()
            && r->Ok_0.data->Some_0@[3].invoices == invoices_with_status(
                store.invoices@, "CANCELED"@).len(),
{
    Ok(SResult { error: None, message: None, data: Some(store.list_status_count()) })
}

/// The revenue sum.
pub fn list_revenue(store: &Store) -> (r: Result<SResult<u128>, Fail>)
    ensures
        r is Ok,
        r->Ok_0.error is None && r->Ok_0.message is None,
        r->Ok_0.data == Some(sum_paid(store.invoices@) as u128),
{
    Ok(SResult { error: None, message: None, data: Some(store.list_revenue()) })
}

/// The expense sum.
pub fn list_expenses(store: &Store) -> (r: Result<SResult<u128>, Fail>)
    requires
        store.wf(),
    ensures
        r is Ok,
        r->Ok_0.error is None && r->Ok_0.message is None,
        r->Ok_0.data == Some(sum_expenses(*store, store.movements@) as u128),
{
    Ok(SResult { error: None, message: None, data: Some(store.list_expenses()) })
}

} // verus!
