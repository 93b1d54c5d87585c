//! The store: every table the point of sale reads and writes, with the
//! constraints its schema declares (primary and unique keys, foreign keys,
//! checks), and the rule that `products.current_stock` only ever changes
//! together with a `stock_movements` row. Tables are only reached through
//! the functions of `repositories`, which keep the store well formed.

pub mod migrations;
pub mod repositories;

use vstd::prelude::*;

verus! {

/// A failed statement: a violated constraint (with the message the
/// database reports, e.g. `UNIQUE constraint failed: products.sku`), a
/// table that can take no more rows, or an out-of-range integer.
#[derive(Debug)]
pub enum DbError {
    Constraint(String),
    Full,
    /// Integer arithmetic on a stored value left the 64-bit range.
    Overflow,
}

pub struct UserRecord {
    pub id: i64,
    pub username: String,
    pub password_hash: String,
    pub full_name: String,
    pub is_active: bool,
}

pub struct RoleRecord {
    pub id: i64,
    pub name: String,
}

pub struct PermissionRecord {
    pub id: i64,
    pub key: String,
}

pub struct CategoryRecord {
    pub id: i64,
    pub name: String,
    pub parent_id: Option<i64>,
    pub is_active: bool,
    pub deleted: bool,
}

pub struct BrandRecord {
    pub id: i64,
    pub name: String,
    pub deleted: bool,
}

pub struct UnitRecord {
    pub id: i64,
    pub name: String,
    pub abbreviation: String,
    pub deleted: bool,
}

/// A tax; `rate_bits` holds the bit pattern of its floating-point rate.
pub struct TaxRecord {
    pub id: i64,
    pub name: String,
    pub rate_bits: u64,
    pub is_active: bool,
}

pub struct DiscountRecord {
    pub id: i64,
    pub name: String,
    pub kind: String,
    pub value: i64,
    pub is_active: bool,
}

pub struct ProductRecord {
    pub id: i64,
    pub sku: String,
    pub name: String,
    pub description: Option<String>,
    pub category_id: Option<i64>,
    pub brand_id: Option<i64>,
    pub unit_id: i64,
    pub purchase_price: i64,
    pub selling_price: i64,
    pub tax_id: Option<i64>,
    pub discount_id: Option<i64>,
    pub min_stock: i64,
    pub current_stock: i64,
    pub is_active: bool,
    pub image_path: Option<String>,
    pub created_at: String,
    pub updated_at: String,
    pub deleted: bool,
}

pub struct BarcodeRecord {
    pub product_id: i64,
    pub barcode: String,
}

pub struct SaleRecord {
    pub id: String,
    pub invoice_number: String,
    pub customer_id: Option<i64>,
    pub user_id: i64,
    pub subtotal: i64,
    pub discount_total: i64,
    pub tax_total: i64,
    pub total: i64,
    pub status: String,
    pub idempotency_key: Option<String>,
    pub created_at: String,
}

pub struct SaleItemRecord {
    pub sale_id: String,
    pub product_id: i64,
    pub quantity: i64,
    pub unit_price: i64,
    pub discount: i64,
    pub tax: i64,
    pub line_total: i64,
    /// The manual discount the request gave the line, if any.
    pub discount_override: Option<i64>,
}

pub struct PaymentRecord {
    pub sale_id: String,
    pub method: String,
    pub amount: i64,
    pub received_at: String,
}

pub struct MovementRecord {
    pub id: i64,
    pub product_id: i64,
    pub quantity_delta: i64,
    pub reason: String,
    pub reference_type: Option<String>,
    pub reference_id: Option<String>,
    pub user_id: Option<i64>,
    pub created_at: String,
}

pub struct AdjustmentRecord {
    pub id: i64,
    pub product_id: i64,
    pub quantity_delta: i64,
    pub reason: String,
    pub note: Option<String>,
    pub user_id: i64,
}

pub struct AuditRecord {
    pub id: i64,
    pub user_id: Option<i64>,
    pub device_id: Option<i64>,
    pub action: String,
    pub entity_type: String,
    pub entity_id: String,
    pub before: Option<String>,
    pub after: Option<String>,
    pub ip_address: Option<String>,
}

/// The whole database. Integer primary keys are assigned in insertion
/// order starting at 1, and rows are never removed (deletion is a flag),
/// so row `i` of a table has id `i + 1`. The tables are public so that
/// contracts can speak of them; they are written only through the
/// functions of this crate, which keep `wf`.
pub struct Database {
    pub users: Vec<UserRecord>,
    pub roles: Vec<RoleRecord>,
    pub permissions: Vec<PermissionRecord>,
    /// `(role_id, permission_id)`
    pub role_permissions: Vec<(i64, i64)>,
    /// `(user_id, role_id)`
    pub user_roles: Vec<(i64, i64)>,
    pub categories: Vec<CategoryRecord>,
    pub brands: Vec<BrandRecord>,
    pub units: Vec<UnitRecord>,
    pub taxes: Vec<TaxRecord>,
    pub discounts: Vec<DiscountRecord>,
    pub products: Vec<ProductRecord>,
    pub barcodes: Vec<BarcodeRecord>,
    pub sales: Vec<SaleRecord>,
    pub sale_items: Vec<SaleItemRecord>,
    pub payments: Vec<PaymentRecord>,
    pub movements: Vec<MovementRecord>,
    pub adjustments: Vec<AdjustmentRecord>,
    pub audit_logs: Vec<AuditRecord>,
    /// The current time as an ISO-8601 UTC timestamp, stamped on new rows.
    pub now: String,
}

/// The tables of the store, to say which ones an operation writes.
pub enum Table {
    Users,
    Roles,
    Permissions,
    RolePermissions,
    UserRoles,
    Categories,
    Brands,
    Units,
    Taxes,
    Discounts,
    Products,
    Barcodes,
    Sales,
    SaleItems,
    Payments,
    Movements,
    Adjustments,
    AuditLogs,
}

/// `id` names row `id - 1` of a table with `len` rows.
pub open spec fn valid_id(id: i64, len: nat) -> bool {
    1 <= id <= len
}

pub open spec fn valid_opt_id(id: Option<i64>, len: nat) -> bool {
    match id {
        Some(i) => valid_id(i, len),
        None => true,
    }
}

/// The net quantity that the movements in `ms` record for product `pid`.
pub open spec fn movement_total(ms: Seq<MovementRecord>, pid: i64) -> int
    decreases ms.len(),
{
    if ms.len() == 0 {
        0
    } else {
        movement_total(ms.drop_last(), pid) + if ms.last().product_id == pid {
            ms.last().quantity_delta as int
        } else {
            0
        }
    }
}

pub proof fn lemma_movement_total_push(ms: Seq<MovementRecord>, m: MovementRecord, pid: i64)
    ensures
        movement_total(ms.push(m), pid) == movement_total(ms, pid) + if m.product_id == pid {
            m.quantity_delta as int
        } else {
            0
        },
{
    assert(ms.push(m).drop_last() =~= ms);
}

pub proof fn lemma_movement_total_none(ms: Seq<MovementRecord>, pid: i64)
    requires
        forall|i: int| 0 <= i < ms.len() ==> #[trigger] ms[i].product_id != pid,
    ensures
        movement_total(ms, pid) == 0,
    decreases ms.len(),
{
    if ms.len() > 0 {
        lemma_movement_total_none(ms.drop_last(), pid);
    }
}

/// `p` is `a` with possibly another stock level.
pub open spec fn same_except_stock(a: ProductRecord, p: ProductRecord) -> bool {
    &&& p.id == a.id
    &&& p.sku == a.sku
    &&& p.name == a.name
    &&& p.description == a.description
    &&& p.category_id == a.category_id
    &&& p.brand_id == a.brand_id
    &&& p.unit_id == a.unit_id
    &&& p.purchase_price == a.purchase_price
    &&& p.selling_price == a.selling_price
    &&& p.tax_id == a.tax_id
    &&& p.discount_id == a.discount_id
    &&& p.min_stock == a.min_stock
    &&& p.is_active == a.is_active
    &&& p.image_path == a.image_path
    &&& p.created_at == a.created_at
    &&& p.updated_at == a.updated_at
    &&& p.deleted == a.deleted
}

/// Largest row count a table can reach (ids stay below `i64::MAX`).
pub open spec fn row_limit() -> int {
    0x7fff_ffff_ffff_fff0
}

/// A table of `len` rows can take one more.
pub open spec fn room(len: nat) -> bool {
    len + 1 < row_limit()
}

/// Whether a table of `len` rows can take one more.
pub fn has_room(len: usize) -> (b: bool)
    ensures
        b == room(len as nat),
{
    (len as u64) < 0x7fff_ffff_ffff_ffefu64
}

/// The id the next row of a table of `len` rows receives.
pub fn next_id(len: usize) -> (id: i64)
    requires
        room(len as nat),
    ensures
        id == len + 1,
{
    (len as i64) + 1
}

/// A violated constraint, with the database's message.
pub fn constraint(message: &str) -> (e: DbError)
    ensures
        e matches DbError::Constraint(m) && m@ == message@,
{
    DbError::Constraint(message.to_owned())
}

impl Database {
    /// Some sale has this id.
    pub open spec fn has_sale(&self, id: Seq<char>) -> bool {
        exists|j: int| 0 <= j < self.sales@.len() && #[trigger] self.sales@[j].id@ == id
    }

    /// The administrator role (role 1) is granted permission `pid`.
    pub open spec fn admin_grants(&self, pid: i64) -> bool {
        exists|b: int| 0 <= b < self.role_permissions@.len() && #[trigger] self.role_permissions@[b] == (1i64, pid)
    }

    /// The administrator role grants every permission, as seeded. No
    /// operation writes roles, permissions or grants, so this stays true.
    pub open spec fn admin_holds_all(&self) -> bool {
        forall|j: int| 0 <= j < self.permissions@.len() ==> self.admin_grants(#[trigger] self.permissions@[j].id)
    }

    /// Table sizes stay below the id range.
    pub open spec fn wf_sizes(&self) -> bool {
        &&& self.users@.len() < row_limit()
        &&& self.roles@.len() < row_limit()
        &&& self.permissions@.len() < row_limit()
        &&& self.categories@.len() < row_limit()
        &&& self.brands@.len() < row_limit()
        &&& self.units@.len() < row_limit()
        &&& self.taxes@.len() < row_limit()
        &&& self.discounts@.len() < row_limit()
        &&& self.products@.len() < row_limit()
        &&& self.sales@.len() < row_limit()
        &&& self.movements@.len() < row_limit()
        &&& self.adjustments@.len() < row_limit()
        &&& self.audit_logs@.len() < row_limit()
    }

    /// Row `i` of each table with an integer key has id `i + 1`.
    pub open spec fn wf_ids(&self) -> bool {
        &&& forall|i: int| 0 <= i < self.users@.len() ==> #[trigger] self.users@[i].id == i + 1
        &&& forall|i: int| 0 <= i < self.roles@.len() ==> #[trigger] self.roles@[i].id == i + 1
        &&& forall|i: int|
            0 <= i < self.permissions@.len() ==> #[trigger] self.permissions@[i].id == i + 1
        &&& forall|i: int|
            0 <= i < self.categories@.len() ==> #[trigger] self.categories@[i].id == i + 1
        &&& forall|i: int| 0 <= i < self.brands@.len() ==> #[trigger] self.brands@[i].id == i + 1
        &&& forall|i: int| 0 <= i < self.units@.len() ==> #[trigger] self.units@[i].id == i + 1
        &&& forall|i: int| 0 <= i < self.taxes@.len() ==> #[trigger] self.taxes@[i].id == i + 1
        &&& forall|i: int|
            0 <= i < self.discounts@.len() ==> #[trigger] self.discounts@[i].id == i + 1
        &&& forall|i: int|
            0 <= i < self.products@.len() ==> #[trigger] self.products@[i].id == i + 1
        &&& forall|i: int|
            0 <= i < self.movements@.len() ==> #[trigger] self.movements@[i].id == i + 1
        &&& forall|i: int|
            0 <= i < self.adjustments@.len() ==> #[trigger] self.adjustments@[i].id == i + 1
        &&& forall|i: int|
            0 <= i < self.audit_logs@.len() ==> #[trigger] self.audit_logs@[i].id == i + 1
        // the administrator role the schema seeds comes first
        &&& self.roles@.len() > 0
        &&& self.roles@[0].name@ == seq!['a', 'd', 'm', 'i', 'n']
    }

    /// Foreign keys that reads join on point at existing rows.
    pub open spec fn wf_keys(&self) -> bool {
        &&& forall|i: int|
            0 <= i < self.categories@.len() ==> valid_opt_id(
                #[trigger] self.categories@[i].parent_id,
                self.categories@.len(),
            )
        &&& forall|i: int|
            0 <= i < self.products@.len() ==> {
                let p = #[trigger] self.products@[i];
                &&& valid_id(p.unit_id, self.units@.len())
                &&& valid_opt_id(p.category_id, self.categories@.len())
                &&& valid_opt_id(p.brand_id, self.brands@.len())
                &&& valid_opt_id(p.tax_id, self.taxes@.len())
                &&& valid_opt_id(p.discount_id, self.discounts@.len())
            }
        &&& forall|i: int|
            0 <= i < self.barcodes@.len() ==> valid_id(
                #[trigger] self.barcodes@[i].product_id,
                self.products@.len(),
            )
        &&& forall|i: int|
            0 <= i < self.sales@.len() ==> valid_id(#[trigger] self.sales@[i].user_id, self.users@.len())
        // sales.id is the primary key and idempotency keys are unique
        &&& forall|a: int, b: int|
            0 <= a < b < self.sales@.len() ==> (#[trigger] self.sales@[a]).id@ != (#[trigger] self.sales@[b]).id@
        &&& forall|a: int, b: int|
            0 <= a < b < self.sales@.len() && (#[trigger] self.sales@[a]).idempotency_key is Some && (
            #[trigger] self.sales@[b]).idempotency_key is Some ==> self.sales@[a].idempotency_key->0@
                != self.sales@[b].idempotency_key->0@
        &&& forall|i: int|
            0 <= i < self.sale_items@.len() ==> {
                let it = #[trigger] self.sale_items@[i];
                &&& valid_id(it.product_id, self.products@.len())
                &&& it.quantity > 0
                &&& self.has_sale(it.sale_id@)
            }
        &&& forall|i: int|
            0 <= i < self.payments@.len() ==> #[trigger] self.payments@[i].amount > 0 && self.has_sale(
                self.payments@[i].sale_id@,
            )
        &&& forall|i: int|
            0 <= i < self.movements@.len() ==> {
                let m = #[trigger] self.movements@[i];
                &&& valid_id(m.product_id, self.products@.len())
                &&& valid_opt_id(m.user_id, self.users@.len())
            }
    }

    /// Each product's stock is exactly what its movements record.
    pub open spec fn wf_stock(&self) -> bool {
        forall|i: int|
            0 <= i < self.products@.len() ==> #[trigger] self.products@[i].current_stock
                == movement_total(self.movements@, (i + 1) as i64)
    }

    /// Usernames, brand names, unit abbreviations, SKUs and barcodes are
    /// each unique (over every row, deleted ones included).
    pub open spec fn wf_unique(&self) -> bool {
        &&& forall|a: int, b: int|
            0 <= a < b < self.users@.len() ==> (#[trigger] self.users@[a]).username@ != (
            #[trigger] self.users@[b]).username@
        &&& forall|a: int, b: int|
            0 <= a < b < self.brands@.len() ==> (#[trigger] self.brands@[a]).name@ != (#[trigger] self.brands@[b]).name@
        &&& forall|a: int, b: int|
            0 <= a < b < self.units@.len() ==> (#[trigger] self.units@[a]).abbreviation@ != (
            #[trigger] self.units@[b]).abbreviation@
        &&& forall|a: int, b: int|
            0 <= a < b < self.products@.len() ==> (#[trigger] self.products@[a]).sku@ != (
            #[trigger] self.products@[b]).sku@
        &&& forall|a: int, b: int|
            0 <= a < b < self.barcodes@.len() ==> (#[trigger] self.barcodes@[a]).barcode@ != (
            #[trigger] self.barcodes@[b]).barcode@
    }

    /// The store's invariant.
    pub open spec fn wf(&self) -> bool {
        &&& self.wf_sizes()
        &&& self.wf_ids()
        &&& self.wf_keys()
        &&& self.wf_stock()
        &&& self.wf_unique()
    }

    /// The current time the store stamps on new rows.
    pub open spec fn clock(&self) -> Seq<char> {
        self.now@
    }

    /// `other` holds exactly the rows of `self` (the clock may differ).
    pub open spec fn same_tables(&self, other: &Database) -> bool {
        &&& other.users@ == self.users@
        &&& other.roles@ == self.roles@
        &&& other.permissions@ == self.permissions@
        &&& other.role_permissions@ == self.role_permissions@
        &&& other.user_roles@ == self.user_roles@
        &&& other.categories@ == self.categories@
        &&& other.brands@ == self.brands@
        &&& other.units@ == self.units@
        &&& other.taxes@ == self.taxes@
        &&& other.discounts@ == self.discounts@
        &&& other.products@ == self.products@
        &&& other.barcodes@ == self.barcodes@
        &&& other.sales@ == self.sales@
        &&& other.sale_items@ == self.sale_items@
        &&& other.payments@ == self.payments@
        &&& other.movements@ == self.movements@
        &&& other.adjustments@ == self.adjustments@
        &&& other.audit_logs@ == self.audit_logs@
    }

    /// `other` holds the same rows as `self` in every table outside
    /// `changed`, and the same clock.
    pub open spec fn agrees_outside(&self, other: &Database, changed: Set<Table>) -> bool {
        &&& (!changed.contains(Table::Users) ==> other.users@ == self.users@)
        &&& (!changed.contains(Table::Roles) ==> other.roles@ == self.roles@)
        &&& (!changed.contains(Table::Permissions) ==> other.permissions@ == self.permissions@)
        &&& (!changed.contains(Table::RolePermissions) ==> other.role_permissions@
            == self.role_permissions@)
        &&& (!changed.contains(Table::UserRoles) ==> other.user_roles@ == self.user_roles@)
        &&& (!changed.contains(Table::Categories) ==> other.categories@ == self.categories@)
        &&& (!changed.contains(Table::Brands) ==> other.brands@ == self.brands@)
        &&& (!changed.contains(Table::Units) ==> other.units@ == self.units@)
        &&& (!changed.contains(Table::Taxes) ==> other.taxes@ == self.taxes@)
        &&& (!changed.contains(Table::Discounts) ==> other.discounts@ == self.discounts@)
        &&& (!changed.contains(Table::Products) ==> other.products@ == self.products@)
        &&& (!changed.contains(Table::Barcodes) ==> other.barcodes@ == self.barcodes@)
        &&& (!changed.contains(Table::Sales) ==> other.sales@ == self.sales@)
        &&& (!changed.contains(Table::SaleItems) ==> other.sale_items@ == self.sale_items@)
        &&& (!changed.contains(Table::Payments) ==> other.payments@ == self.payments@)
        &&& (!changed.contains(Table::Movements) ==> other.movements@ == self.movements@)
        &&& (!changed.contains(Table::Adjustments) ==> other.adjustments@ == self.adjustments@)
        &&& (!changed.contains(Table::AuditLogs) ==> other.audit_logs@ == self.audit_logs@)
        &&& other.now@ == self.now@
    }

    pub proof fn lemma_same_tables_wf(&self, other: &Database)
        requires
            self.wf(),
            self.same_tables(other),
        ensures
            other.wf(),
    {
    }

    /// Sets the current time (an ISO-8601 UTC timestamp such as
    /// `2026-01-01T12:00:00.000Z`).
    pub fn set_clock(&mut self, now: String)
        requires
            old(self).wf(),
        ensures
            final(self).wf(),
            final(self).clock() == now@,
            old(self).same_tables(final(self)),
    {
        self.now = now;
        proof {
            old(self).lemma_same_tables_wf(self);
        }
    }
}

fn role(id: i64, name: &str) -> (r: RoleRecord)
    ensures
        r.id == id,
        r.name@ == name@,
{
    RoleRecord { id, name: name.to_owned() }
}

fn permission(id: i64, key: &str) -> (r: PermissionRecord)
    ensures
        r.id == id,
        r.key@ == key@,
{
    PermissionRecord { id, key: key.to_owned() }
}

/// Grants every permission in `ids` to `role_id`.
fn grant(table: &mut Vec<(i64, i64)>, role_id: i64, ids: &[i64])
    ensures
        final(table)@.len() == old(table)@.len() + ids@.len(),
        final(table)@.take(old(table)@.len() as int) == old(table)@,
        forall|k: int| 0 <= k < ids@.len() ==> #[trigger] final(table)@[old(table)@.len() + k] == (role_id, ids@[k]),
{
    let mut i: usize = 0;
    while i < ids.len()
        invariant
            i <= ids.len(),
            table@.len() == old(table)@.len() + i,
            table@.take(old(table)@.len() as int) == old(table)@,
            forall|k: int| 0 <= k < i ==> #[trigger] table@[old(table)@.len() + k] == (role_id, ids@[k]),
        decreases ids.len() - i,
    {
        table.push((role_id, ids[i]));
        i = i + 1;
        assert(table@.take(old(table)@.len() as int) =~= old(table)@);
    }
}

/// The names of the seeded roles; role `k + 1` is `seeded_role_names()[k]`.
pub open spec fn seeded_role_names() -> Seq<Seq<char>> {
    seq!["admin"@, "manager"@, "cashier"@, "mobile_seller"@, "inventory"@]
}

/// The keys of the seeded permissions; permission `k + 1` is
/// `seeded_permission_keys()[k]`.
pub open spec fn seeded_permission_keys() -> Seq<Seq<char>> {
    seq![
        "products.view"@,
        "products.create"@,
        "products.update"@,
        "products.delete"@,
        "sales.view"@,
        "sales.create"@,
        "sales.cancel"@,
        "stock.view"@,
        "stock.adjust"@,
        "devices.view"@,
        "devices.manage"@,
        "settings.manage"@,
    ]
}

/// The seeded grants, as `(role id, permission id)`: the admin holds every
/// permission, the manager all but the device and settings ones, the
/// cashier viewing products and viewing and creating sales, the mobile
/// seller viewing products and creating sales, and the inventory role
/// viewing products and viewing and adjusting stock.
pub open spec fn seeded_grants() -> Seq<(i64, i64)> {
    seq![
        (1i64, 1i64), (1, 2), (1, 3), (1, 4), (1, 5), (1, 6), (1, 7), (1, 8), (1, 9), (1, 10), (1, 11), (1, 12),
        (2, 1), (2, 2), (2, 3), (2, 4), (2, 5), (2, 6), (2, 7), (2, 8), (2, 9), (2, 10),
        (3, 1), (3, 5), (3, 6),
        (4, 1), (4, 6),
        (5, 1), (5, 8), (5, 9),
    ]
}

impl Database {
    /// A store with the schema's seed data (the five roles and the
    /// permissions they grant) and no other rows.
    pub fn new() -> (db: Database)
        ensures
            db.wf(),
            db.users@.len() == 0,
            db.categories@.len() == 0,
            db.brands@.len() == 0,
            db.units@.len() == 0,
            db.taxes@.len() == 0,
            db.discounts@.len() == 0,
            db.products@.len() == 0,
            db.barcodes@.len() == 0,
            db.sales@.len() == 0,
            db.sale_items@.len() == 0,
            db.payments@.len() == 0,
            db.movements@.len() == 0,
            db.adjustments@.len() == 0,
            db.audit_logs@.len() == 0,
            db.user_roles@.len() == 0,
            db.admin_holds_all(),
            db.roles@.len() == 5,
            forall|k: int|
                0 <= k < 5 ==> #[trigger] db.roles@[k].id == k + 1 && db.roles@[k].name@ == seeded_role_names()[k],
            db.permissions@.len() == 12,
            forall|k: int|
                0 <= k < 12 ==> #[trigger] db.permissions@[k].id == k + 1 && db.permissions@[k].key@
                    == seeded_permission_keys()[k],
            db.role_permissions@ == seeded_grants(),
    {
        let mut roles: Vec<RoleRecord> = Vec::new();
        roles.push(role(1, "admin"));
        roles.push(role(2, "manager"));
        roles.push(role(3, "cashier"));
        roles.push(role(4, "mobile_seller"));
        roles.push(role(5, "inventory"));
        proof {
            reveal_strlit("admin");
            assert(roles@[0].name@ =~= seq!['a', 'd', 'm', 'i', 'n']);
        }
        let mut permissions: Vec<PermissionRecord> = Vec::new();
        permissions.push(permission(1, "products.view"));
        permissions.push(permission(2, "products.create"));
        permissions.push(permission(3, "products.update"));
        permissions.push(permission(4, "products.delete"));
        permissions.push(permission(5, "sales.view"));
        permissions.push(permission(6, "sales.create"));
        permissions.push(permission(7, "sales.cancel"));
        permissions.push(permission(8, "stock.view"));
        permissions.push(permission(9, "stock.adjust"));
        permissions.push(permission(10, "devices.view"));
        permissions.push(permission(11, "devices.manage"));
        permissions.push(permission(12, "settings.manage"));
        let mut role_permissions: Vec<(i64, i64)> = Vec::new();
        let admin_ids: [i64; 12] = [1, 2, 3, 4, 5, 6, 7, 8, 9, 10, 11, 12];
        grant(&mut role_permissions, 1, &admin_ids);
        let ghost admin_rows = role_permissions@;
        proof {
            assert forall|j: int| 0 <= j < 12 implies #[trigger] admin_rows[j] == (1i64, (j + 1) as i64) by {
                assert(admin_rows[0 + j] == (1i64, admin_ids@[j]));
            }
        }
        let manager_ids: [i64; 10] = [1, 2, 3, 4, 5, 6, 7, 8, 9, 10];
        grant(&mut role_permissions, 2, &manager_ids);
        let ghost t2 = role_permissions@;
        let cashier_ids: [i64; 3] = [1, 5, 6];
        grant(&mut role_permissions, 3, &cashier_ids);
        let ghost t3 = role_permissions@;
        let seller_ids: [i64; 2] = [1, 6];
        grant(&mut role_permissions, 4, &seller_ids);
        let ghost t4 = role_permissions@;
        let inventory_ids: [i64; 3] = [1, 8, 9];
        grant(&mut role_permissions, 5, &inventory_ids);
        proof {
            let t5 = role_permissions@;
            let g = seeded_grants();
            assert forall|j: int| 0 <= j < 30 implies #[trigger] t5[j] == g[j] by {
                if j < 27 {
                    assert(t5[j] == t5.take(27)[j]);
                }
                if j < 25 {
                    assert(t4[j] == t4.take(25)[j]);
                }
                if j < 22 {
                    assert(t3[j] == t3.take(22)[j]);
                }
                if j < 12 {
                    assert(t2[j] == t2.take(12)[j]);
                    assert(admin_rows[0 + j] == (1i64, admin_ids@[j]));
                } else if j < 22 {
                    assert(t2[12 + (j - 12)] == (2i64, manager_ids@[j - 12]));
                } else if j < 25 {
                    assert(t3[22 + (j - 22)] == (3i64, cashier_ids@[j - 22]));
                } else if j < 27 {
                    assert(t4[25 + (j - 25)] == (4i64, seller_ids@[j - 25]));
                } else {
                    assert(t5[27 + (j - 27)] == (5i64, inventory_ids@[j - 27]));
                }
            }
            assert(t5 =~= g);
            assert forall|j: int| 0 <= j < 12 implies #[trigger] role_permissions@[j] == (1i64, (j + 1) as i64) by {
                assert(role_permissions@[j] == g[j]);
            }
        }
        let db = Database {
            users: Vec::new(),
            roles,
            permissions,
            role_permissions,
            user_roles: Vec::new(),
            categories: Vec::new(),
            brands: Vec::new(),
            units: Vec::new(),
            taxes: Vec::new(),
            discounts: Vec::new(),
            products: Vec::new(),
            barcodes: Vec::new(),
            sales: Vec::new(),
            sale_items: Vec::new(),
            payments: Vec::new(),
            movements: Vec::new(),
            adjustments: Vec::new(),
            audit_logs: Vec::new(),
            now: "1970-01-01T00:00:00.000Z".to_owned(),
        };
        assert(db.roles@[0].name@ == seq!['a', 'd', 'm', 'i', 'n']);
        assert forall|j: int| 0 <= j < db.permissions@.len() implies db.admin_grants(#[trigger] db.permissions@[j].id) by {
            assert(db.role_permissions@[j] == (1i64, (j + 1) as i64));
        }
        db
    }
}

} // verus!
