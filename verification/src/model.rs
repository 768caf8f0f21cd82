//! Record types of the ledger: parties, products, the movement ledger,
//! and the three document kinds with their line items.
//!
//! All identifiers are strings (globally unique, client-generatable tokens).
//! Monetary and quantity columns are integer-valued: prices and paid amounts
//! are in minor currency units, quantities in whole units.

use vstd::prelude::*;

verus! {

/// A party that buys: referenced by orders, invoices and quotes.
#[derive(Debug)]
pub struct Client {
    pub id: String,
    pub full_name: String,
    pub phone_number: Option<String>,
    pub email: Option<String>,
    pub address: Option<String>,
    pub image: Option<String>,
    pub created_at: u64,
}

/// A party that supplies. A standalone record: no other table references it.
#[derive(Debug)]
pub struct Supplier {
    pub id: String,
    pub full_name: String,
    pub phone_number: Option<String>,
    pub email: Option<String>,
    pub address: Option<String>,
    pub image: Option<String>,
    pub created_at: u64,
}

/// A catalog entry.
#[derive(Debug)]
pub struct Product {
    pub id: String,
    pub name: String,
    pub description: Option<String>,
    pub image: Option<String>,
    pub price: u32,
    pub min_quantity: u32,
    pub created_at: u64,
}

/// Direction of a stock event.
#[derive(PartialEq, Eq, Structural, Clone, Copy, Debug)]
pub enum MovementKind {
    In,
    Out,
}

/// A single stock event of a product. The running stock of a product is
/// always derived as the sum of signed quantities of its movements.
#[derive(Debug)]
pub struct InventoryMovement {
    pub id: String,
    pub kind: MovementKind,
    pub quantity: u32,
    pub product_id: String,
    pub created_at: u64,
}

/// A client purchase document.
#[derive(Debug)]
pub struct Order {
    pub id: String,
    pub client_id: String,
    pub status: String,
    pub created_at: u64,
}

/// A line of an order, bound exclusively to the `Out` movement that
/// fulfills it.
#[derive(Debug)]
pub struct OrderItem {
    pub id: String,
    pub price: u32,
    pub order_id: String,
    pub inventory_id: String,
}

/// A billing document; optionally references the order it originated from
/// (cleared, not cascaded, when that order is deleted).
#[derive(Debug)]
pub struct Invoice {
    pub id: String,
    pub client_id: String,
    pub order_id: Option<String>,
    pub status: String,
    pub paid_amount: u32,
    pub created_at: u64,
}

/// A line of an invoice, bound exclusively to one inventory movement.
#[derive(Debug)]
pub struct InvoiceItem {
    pub id: String,
    pub price: u32,
    pub invoice_id: String,
    pub inventory_id: String,
}

/// A non-binding price estimate; consumes no stock.
#[derive(Debug)]
pub struct Quote {
    pub id: String,
    pub client_id: String,
    pub created_at: u64,
}

/// A line of a quote: references its product directly, not through a
/// movement.
#[derive(Debug)]
pub struct QuoteItem {
    pub id: String,
    pub price: u32,
    pub quantity: u32,
    pub product_id: String,
    pub quote_id: String,
}

/// Relies on uuid::Uuid::now_v7 and its hyphenated display form: a
/// fresh time-ordered token, rendered as 36 characters. Nothing is
/// assumed about uniqueness; every insert checks its ids against the
/// store instead.
#[verifier::external_body]
pub fn new_id() -> (r: String)
    ensures
        r@.len() == 36,
{
    uuid::Uuid::now_v7().to_string()
}

/// Clones an optional string, keeping the value.
pub fn clone_opt(o: &Option<String>) -> (r: Option<String>)
    ensures
        r == *o,
{
    match o {
        Some(s) => Some(s.clone()),
        None => None,
    }
}

impl Clone for Client {
    fn clone(&self) -> (r: Client)
        ensures
            r == *self,
    {
        Client {
            id: self.id.clone(),
            full_name: self.full_name.clone(),
            phone_number: clone_opt(&self.phone_number),
            email: clone_opt(&self.email),
            address: clone_opt(&self.address),
            image: clone_opt(&self.image),
            created_at: self.created_at,
        }
    }
}

impl Clone for Supplier {
    fn clone(&self) -> (r: Supplier)
        ensures
            r == *self,
    {
        Supplier {
            id: self.id.clone(),
            full_name: self.full_name.clone(),
            phone_number: clone_opt(&self.phone_number),
            email: clone_opt(&self.email),
            address: clone_opt(&self.address),
            image: clone_opt(&self.image),
            created_at: self.created_at,
        }
    }
}

impl Clone for Product {
    fn clone(&self) -> (r: Product)
        ensures
            r == *self,
    {
        Product {
            id: self.id.clone(),
            name: self.name.clone(),
            description: clone_opt(&self.description),
            image: clone_opt(&self.image),
            price: self.price,
            min_quantity: self.min_quantity,
            created_at: self.created_at,
        }
    }
}

impl Clone for InventoryMovement {
    fn clone(&self) -> (r: InventoryMovement)
        ensures
            r == *self,
    {
        InventoryMovement {
            id: self.id.clone(),
            kind: self.kind,
            quantity: self.quantity,
            product_id: self.product_id.clone(),
            created_at: self.created_at,
        }
    }
}

impl Clone for Order {
    fn clone(&self) -> (r: Order)
        ensures
            r == *self,
    {
        Order {
            id: self.id.clone(),
            client_id: self.client_id.clone(),
            status: self.status.clone(),
            created_at: self.created_at,
        }
    }
}

impl Clone for OrderItem {
    fn clone(&self) -> (r: OrderItem)
        ensures
            r == *self,
    {
        OrderItem {
            id: self.id.clone(),
            price: self.price,
            order_id: self.order_id.clone(),
            inventory_id: self.inventory_id.clone(),
        }
    }
}

impl Clone for Invoice {
    fn clone(&self) -> (r: Invoice)
        ensures
            r == *self,
    {
        Invoice {
            id: self.id.clone(),
            client_id: self.client_id.clone(),
            order_id: clone_opt(&self.order_id),
            status: self.status.clone(),
            paid_amount: self.paid_amount,
            created_at: self.created_at,
        }
    }
}

impl Clone for InvoiceItem {
    fn clone(&self) -> (r: InvoiceItem)
        ensures
            r == *self,
    {
        InvoiceItem {
            id: self.id.clone(),
            price: self.price,
            invoice_id: self.invoice_id.clone(),
            inventory_id: self.inventory_id.clone(),
        }
    }
}

impl Clone for Quote {
    fn clone(&self) -> (r: Quote)
        ensures
            r == *self,
    {
        Quote {
            id: self.id.clone(),
            client_id: self.client_id.clone(),
            created_at: self.created_at,
        }
    }
}

impl Clone for QuoteItem {
    fn clone(&self) -> (r: QuoteItem)
        ensures
            r == *self,
    {
        QuoteItem {
            id: self.id.clone(),
            price: self.price,
            quantity: self.quantity,
            product_id: self.product_id.clone(),
            quote_id: self.quote_id.clone(),
        }
    }
}

/// Request payload for creating an order.
#[derive(Debug)]
pub struct NewOrder {
    pub client_id: String,
    pub status: String,
}

/// Request payload for creating an invoice.
#[derive(Debug)]
pub struct NewInvoice {
    pub client_id: String,
    pub order_id: Option<String>,
    pub status: String,
    pub paid_amount: u32,
}

/// Request payload for one line of a new order or invoice. Carries the
/// fresh identifiers of the item row and of the paired `Out` movement.
#[derive(Debug)]
pub struct NewDocItem {
    pub id: String,
    pub inventory_id: String,
    pub product_id: String,
    pub price: u32,
    pub quantity: u32,
}

/// Request payload for one line of a new quote.
#[derive(Debug)]
pub struct NewQuoteItem {
    pub id: String,
    pub product_id: String,
    pub price: u32,
    pub quantity: u32,
}

/// A row of the order list: the order joined with its client's name, a
/// line count and a computed total.
#[derive(Debug)]
pub struct SelectOrders {
    pub id: String,
    pub created_at: u64,
    pub client_id: String,
    pub full_name: String,
    pub status: String,
    pub products: usize,
    pub total: u128,
}

/// The details view of one order: client contact fields and the total.
#[derive(Debug)]
pub struct SelectOrderDetails {
    pub id: String,
    pub created_at: u64,
    pub full_name: String,
    pub address: Option<String>,
    pub phone_number: Option<String>,
    pub email: Option<String>,
    pub status: String,
    pub total: u128,
}

/// A row of the invoice list: the invoice joined with its client's name,
/// a line count and a computed total.
#[derive(Debug)]
pub struct SelectInvoices {
    pub id: String,
    pub created_at: u64,
    pub client_id: String,
    pub full_name: String,
    pub status: String,
    pub paid_amount: u32,
    pub products: usize,
    pub total: u128,
}

/// The details view of one invoice: client contact fields and the total.
#[derive(Debug)]
pub struct SelectInvoiceDetails {
    pub id: String,
    pub created_at: u64,
    pub full_name: String,
    pub address: Option<String>,
    pub phone_number: Option<String>,
    pub email: Option<String>,
    pub status: String,
    pub paid_amount: u32,
    pub total: u128,
}

/// A line of an invoice joined with its movement and product.
#[derive(Debug)]
pub struct SelectInvoiceProduct {
    pub item_id: String,
    pub inventory_id: String,
    pub product_id: String,
    pub name: String,
    pub price: u32,
    pub quantity: u32,
}

/// Counts of one document status across orders and invoices.
#[derive(Debug)]
pub struct StatusCount {
    pub status: String,
    pub orders: usize,
    pub invoices: usize,
}

/// A dashboard entry: a party or product with its traded volume.
#[derive(Debug)]
pub struct TopEntry {
    pub id: String,
    pub name: String,
    pub volume: u128,
}

/// Per-product movement statistics: what came in and what went out.
#[derive(Debug)]
pub struct MvmStat {
    pub product_id: String,
    pub name: String,
    pub quantity_in: u128,
    pub quantity_out: u128,
}

/// Filter and pagination parameters of the list queries. Pages are
/// numbered from 1; page 0 is read as page 1.
#[derive(Debug)]
pub struct ListArgs {
    pub page: u64,
    pub per_page: u64,
    pub search: Option<String>,
    pub status: Option<String>,
}

/// Failure kinds of the store operations.
#[derive(PartialEq, Eq, Structural, Clone, Copy, Debug)]
pub enum StoreError {
    /// A referenced identifier does not resolve to an existing row.
    Validation,
    /// The targeted identifier does not exist.
    NotFound,
    /// A new identifier collides with an existing one, or the exclusive
    /// movement-reference rule would be violated.
    Constraint,
}

impl StoreError {
    /// The error text placed in failure envelopes.
    pub fn text(&self) -> (r: String)
        ensures
            r@ == self.text_spec(),
    {
        match self {
            StoreError::Validation => "validation error: a referenced id does not exist".to_string(),
            StoreError::NotFound => "not found: the id does not exist".to_string(),
            StoreError::Constraint => "constraint error: duplicate id or movement reference".to_string(),
        }
    }

    pub open spec fn text_spec(self) -> Seq<char> {
        match self {
            StoreError::Validation => "validation error: a referenced id does not exist"@,
            StoreError::NotFound => "not found: the id does not exist"@,
            StoreError::Constraint => "constraint error: duplicate id or movement reference"@,
        }
    }
}

} // verus!
