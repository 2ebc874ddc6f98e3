use vstd::prelude::*;

use crate::errors::{DatabaseError, StorageResult};
use crate::generics::{
    delete_spec, filter_admits, find_spec, found, generic_delete, generic_filter,
    generic_find_by_id, generic_find_by_id_optional, generic_insert, generic_update_by_id,
    insert_spec, keep_fn, key_present, update_spec, Table,
};
use crate::schema::{Changeset, Direction, Insertable, Order, Predicate, Record};

verus! {

/// The primary key of the customers table: customer id within a merchant.
#[derive(Debug, Clone, PartialEq, Eq)]
pub struct CustomerKey {
    pub customer_id: String,
    pub merchant_id: String,
}

/// A stored customer row. Timestamps are seconds since the Unix epoch.
#[derive(Debug, Clone, PartialEq, Eq)]
pub struct Customer {
    pub customer_id: String,
    pub merchant_id: String,
    pub name: Option<String>,
    pub email: Option<String>,
    pub phone: Option<String>,
    pub description: Option<String>,
    pub created_at: i64,
    pub modified_at: i64,
}

/// The data of a customer row to be created.
#[derive(Debug, Clone, PartialEq, Eq)]
pub struct CustomerNew {
    pub customer_id: String,
    pub merchant_id: String,
    pub name: Option<String>,
    pub email: Option<String>,
    pub phone: Option<String>,
    pub description: Option<String>,
    pub created_at: i64,
    pub modified_at: i64,
}

/// A partial update of a customer: each `Some` column is written, each `None`
/// column is left as it is.
#[derive(Debug, Clone, PartialEq, Eq)]
pub struct CustomerUpdateInternal {
    pub name: Option<String>,
    pub email: Option<String>,
    pub phone: Option<String>,
    pub description: Option<String>,
    pub modified_at: Option<i64>,
}

/// The columns of the customers table that results can be ordered by.
#[derive(Debug, Clone, Copy, PartialEq, Eq)]
pub enum CustomerColumn {
    CreatedAt,
    ModifiedAt,
}

/// Predicates over customer rows.
#[derive(Debug, Clone, PartialEq, Eq)]
pub enum CustomerFilter {
    /// The row with this primary key.
    ByKey(CustomerKey),
    /// Every row of this merchant.
    ByMerchant(String),
}

/// The key model of a customer id within a merchant.
pub open spec fn customer_key(customer_id: String, merchant_id: String) -> (Seq<char>, Seq<char>) {
    (customer_id@, merchant_id@)
}

/// A column value after an update: the new value if one is given.
pub open spec fn pick<T>(new: Option<T>, current: Option<T>) -> Option<T> {
    match new {
        Some(_) => new,
        None => current,
    }
}

fn clone_text(o: &Option<String>) -> (r: Option<String>)
    ensures
        r == *o,
{
    match o {
        Some(s) => Some(s.clone()),
        None => None,
    }
}

impl Record for Customer {
    type Key = CustomerKey;

    type KeyModel = (Seq<char>, Seq<char>);

    type Column = CustomerColumn;

    open spec fn key_model(&self) -> (Seq<char>, Seq<char>) {
        customer_key(self.customer_id, self.merchant_id)
    }

    open spec fn model_of_key(k: CustomerKey) -> (Seq<char>, Seq<char>) {
        customer_key(k.customer_id, k.merchant_id)
    }

    open spec fn spec_order_value(&self, col: CustomerColumn) -> int {
        match col {
            CustomerColumn::CreatedAt => self.created_at as int,
            CustomerColumn::ModifiedAt => self.modified_at as int,
        }
    }

    fn has_key(&self, k: &CustomerKey) -> (r: bool) {
        self.customer_id == k.customer_id && self.merchant_id == k.merchant_id
    }

    fn same_key(&self, other: &Customer) -> (r: bool) {
        self.customer_id == other.customer_id && self.merchant_id == other.merchant_id
    }

    fn duplicate(&self) -> (r: Customer) {
        Customer {
            customer_id: self.customer_id.clone(),
            merchant_id: self.merchant_id.clone(),
            name: clone_text(&self.name),
            email: clone_text(&self.email),
            phone: clone_text(&self.phone),
            description: clone_text(&self.description),
            created_at: self.created_at,
            modified_at: self.modified_at,
        }
    }

    fn order_value(&self, col: &CustomerColumn) -> (v: i64) {
        match col {
            CustomerColumn::CreatedAt => self.created_at,
            CustomerColumn::ModifiedAt => self.modified_at,
        }
    }
}

impl Insertable<Customer> for CustomerNew {
    open spec fn spec_into_record(self) -> Customer {
        Customer {
            customer_id: self.customer_id,
            merchant_id: self.merchant_id,
            name: self.name,
            email: self.email,
            phone: self.phone,
            description: self.description,
            created_at: self.created_at,
            modified_at: self.modified_at,
        }
    }

    fn into_record(self) -> (r: Customer) {
        Customer {
            customer_id: self.customer_id,
            merchant_id: self.merchant_id,
            name: self.name,
            email: self.email,
            phone: self.phone,
            description: self.description,
            created_at: self.created_at,
            modified_at: self.modified_at,
        }
    }
}

impl Changeset<Customer> for CustomerUpdateInternal {
    open spec fn spec_is_empty(&self) -> bool {
        &&& self.name is None
        &&& self.email is None
        &&& self.phone is None
        &&& self.description is None
        &&& self.modified_at is None
    }

    open spec fn spec_apply(&self, r: Customer) -> Customer {
        Customer {
            customer_id: r.customer_id,
            merchant_id: r.merchant_id,
            name: pick(self.name, r.name),
            email: pick(self.email, r.email),
            phone: pick(self.phone, r.phone),
            description: pick(self.description, r.description),
            created_at: r.created_at,
            modified_at: match self.modified_at {
                Some(t) => t,
                None => r.modified_at,
            },
        }
    }

    proof fn lemma_apply_keeps_key(&self, r: Customer) {
    }

    fn is_empty(&self) -> (b: bool) {
        self.name.is_none() && self.email.is_none() && self.phone.is_none()
            && self.description.is_none() && self.modified_at.is_none()
    }

    fn apply(&self, r: &Customer) -> (out: Customer) {
        Customer {
            customer_id: r.customer_id.clone(),
            merchant_id: r.merchant_id.clone(),
            name: if self.name.is_some() {
                clone_text(&self.name)
            } else {
                clone_text(&r.name)
            },
            email: if self.email.is_some() {
                clone_text(&self.email)
            } else {
                clone_text(&r.email)
            },
            phone: if self.phone.is_some() {
                clone_text(&self.phone)
            } else {
                clone_text(&r.phone)
            },
            description: if self.description.is_some() {
                clone_text(&self.description)
            } else {
                clone_text(&r.description)
            },
            created_at: r.created_at,
            modified_at: match self.modified_at {
                Some(t) => t,
                None => r.modified_at,
            },
        }
    }
}

impl Predicate<Customer> for CustomerFilter {
    open spec fn holds(&self, r: Customer) -> bool {
        match self {
            CustomerFilter::ByKey(k) => r.key_model() == Customer::model_of_key(*k),
            CustomerFilter::ByMerchant(m) => r.merchant_id@ == m@,
        }
    }

    fn test(&self, r: &Customer) -> (b: bool) {
        match self {
            CustomerFilter::ByKey(k) => r.has_key(k),
            CustomerFilter::ByMerchant(m) => r.merchant_id == *m,
        }
    }
}

/// The key value for a customer id within a merchant.
fn key_of(customer_id: &String, merchant_id: &String) -> (k: CustomerKey)
    ensures
        k == key_of_spec(*customer_id, *merchant_id),
{
    CustomerKey { customer_id: customer_id.clone(), merchant_id: merchant_id.clone() }
}

/// An update writes exactly the columns it gives and keeps every other
/// column of the row, the primary key and creation time included.
pub proof fn lemma_customer_update_columns(u: CustomerUpdateInternal, c: Customer)
    ensures
        u.spec_apply(c).customer_id == c.customer_id,
        u.spec_apply(c).merchant_id == c.merchant_id,
        u.spec_apply(c).created_at == c.created_at,
        u.name is Some ==> u.spec_apply(c).name == u.name,
        u.name is None ==> u.spec_apply(c).name == c.name,
        u.email is Some ==> u.spec_apply(c).email == u.email,
        u.email is None ==> u.spec_apply(c).email == c.email,
        u.phone is Some ==> u.spec_apply(c).phone == u.phone,
        u.phone is None ==> u.spec_apply(c).phone == c.phone,
        u.description is Some ==> u.spec_apply(c).description == u.description,
        u.description is None ==> u.spec_apply(c).description == c.description,
        u.modified_at is Some ==> u.spec_apply(c).modified_at == u.modified_at->Some_0,
        u.modified_at is None ==> u.spec_apply(c).modified_at == c.modified_at,
{
}

impl CustomerNew {
    /// Stores the new customer and returns the stored row; `UniqueViolation`
    /// when the customer id is already taken within the merchant.
    pub fn insert(self, conn: &mut Table<Customer>) -> (r: StorageResult<Customer>)
        requires
            old(conn).wf(),
        ensures
            final(conn).wf(),
            (final(conn)@, r) == insert_spec(old(conn)@, self.spec_into_record()),
    {
        generic_insert(conn, self)
    }
}

impl Customer {
    /// Updates the customer and returns the row as it now stands. An update
    /// with no columns writes nothing and falls back to reading the row, so
    /// the result is then the current row, or `NotFound`.
    pub fn update_by_customer_id_merchant_id(
        conn: &mut Table<Customer>,
        customer_id: String,
        merchant_id: String,
        customer: CustomerUpdateInternal,
    ) -> (r: StorageResult<Customer>)
        requires
            old(conn).wf(),
        ensures
            final(conn).wf(),
            customer.spec_is_empty() ==> final(conn)@ == old(conn)@ && r == found(
                old(conn)@,
                customer_key(customer_id, merchant_id),
            ),
            !customer.spec_is_empty() ==> (final(conn)@, r) == update_spec(
                old(conn)@,
                customer_key(customer_id, merchant_id),
                customer,
            ),
    {
        let key = key_of(&customer_id, &merchant_id);
        match generic_update_by_id(conn, key, customer) {
            Err(error) => match error {
                DatabaseError::NoFieldsToUpdate => generic_find_by_id(
                    conn,
                    CustomerKey { customer_id, merchant_id },
                ),
                _ => Err(error),
            },
            result => result,
        }
    }

    /// Deletes the customer and tells whether a row was removed.
    pub fn delete_by_customer_id_merchant_id(
        conn: &mut Table<Customer>,
        customer_id: &String,
        merchant_id: &String,
    ) -> (r: StorageResult<bool>)
        requires
            old(conn).wf(),
        ensures
            final(conn).wf(),
            (final(conn)@, r) == delete_spec(
                old(conn)@,
                CustomerFilter::ByKey(key_of_spec(*customer_id, *merchant_id)),
            ),
            r == Ok::<bool, DatabaseError>(
                key_present(old(conn)@, customer_key(*customer_id, *merchant_id)),
            ),
            !key_present(final(conn)@, customer_key(*customer_id, *merchant_id)),
    {
        let ghost km = customer_key(*customer_id, *merchant_id);
        let ghost rows0 = conn@;
        let pred = CustomerFilter::ByKey(key_of(customer_id, merchant_id));
        let r = generic_delete(conn, pred);
        proof {
            if key_present(rows0, km) {
                let i = choose|i: int| 0 <= i < rows0.len() && #[trigger] rows0[i].key_model() == km;
                assert(pred.holds(rows0[i]));
            }
            if key_present(conn@, km) {
                let j = choose|j: int| 0 <= j < conn@.len() && #[trigger] conn@[j].key_model() == km;
                let keep = keep_fn::<Customer, CustomerFilter>(pred);
                rows0.lemma_filter_pred(keep, j);
            }
        }
        r
    }

    /// The customer with this id within the merchant; `NotFound` when absent.
    pub fn find_by_customer_id_merchant_id(
        conn: &Table<Customer>,
        customer_id: &String,
        merchant_id: &String,
    ) -> (r: StorageResult<Customer>)
        requires
            conn.wf(),
        ensures
            r == found(conn@, customer_key(*customer_id, *merchant_id)),
    {
        generic_find_by_id(conn, key_of(customer_id, merchant_id))
    }

    /// Every customer of the merchant, oldest first.
    pub fn list_by_merchant_id(conn: &Table<Customer>, merchant_id: &String) -> (r: StorageResult<
        Vec<Customer>,
    >)
        requires
            conn.wf(),
        ensures
            match r {
                Ok(v) => filter_admits(
                    conn@,
                    Some(CustomerFilter::ByMerchant(*merchant_id)),
                    None,
                    None,
                    Some(oldest_first()),
                    v@,
                ),
                Err(_) => false,
            },
    {
        generic_filter(
            conn,
            Some(CustomerFilter::ByMerchant(merchant_id.clone())),
            None,
            None,
            Some(Order { column: CustomerColumn::CreatedAt, direction: Direction::Ascending }),
        )
    }

    /// The customer with this id within the merchant, or `None`.
    pub fn find_optional_by_customer_id_merchant_id(
        conn: &Table<Customer>,
        customer_id: &String,
        merchant_id: &String,
    ) -> (r: StorageResult<Option<Customer>>)
        requires
            conn.wf(),
        ensures
            r == Ok::<Option<Customer>, DatabaseError>(
                find_spec(conn@, customer_key(*customer_id, *merchant_id)),
            ),
    {
        generic_find_by_id_optional(conn, key_of(customer_id, merchant_id))
    }
}

/// The key value for a customer id within a merchant.
pub open spec fn key_of_spec(customer_id: String, merchant_id: String) -> CustomerKey {
    CustomerKey { customer_id, merchant_id }
}

/// Ascending by creation time.
pub open spec fn oldest_first() -> Order<CustomerColumn> {
    Order { column: CustomerColumn::CreatedAt, direction: Direction::Ascending }
}

} // verus!
