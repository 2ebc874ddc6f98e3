use relational_access::customers::{
    Customer, CustomerColumn, CustomerFilter, CustomerKey, CustomerNew, CustomerUpdateInternal,
};
use relational_access::errors::{normalize, BackendFailure, DatabaseError};
use relational_access::generics::{
    generic_delete, generic_filter, generic_find_by_id, generic_find_by_id_optional,
    generic_insert, generic_update_by_id, Table,
};
use relational_access::schema::{Direction, Order};

fn new_customer(id: &str, merchant: &str, name: &str, created_at: i64) -> CustomerNew {
    CustomerNew {
        customer_id: id.to_string(),
        merchant_id: merchant.to_string(),
        name: Some(name.to_string()),
        email: None,
        phone: None,
        description: None,
        created_at,
        modified_at: created_at,
    }
}

fn no_changes() -> CustomerUpdateInternal {
    CustomerUpdateInternal {
        name: None,
        email: None,
        phone: None,
        description: None,
        modified_at: None,
    }
}

fn key(id: &str, merchant: &str) -> CustomerKey {
    CustomerKey { customer_id: id.to_string(), merchant_id: merchant.to_string() }
}

fn s(v: &str) -> String {
    v.to_string()
}

#[test]
fn customer_lifecycle_scenario() {
    let mut conn: Table<Customer> = Table::new();
    let stored = new_customer("cust_1", "m_1", "Ann", 100).insert(&mut conn).unwrap();
    assert_eq!(stored.name, Some(s("Ann")));

    let found = Customer::find_by_customer_id_merchant_id(&conn, &s("cust_1"), &s("m_1")).unwrap();
    assert_eq!(found.name, Some(s("Ann")));

    let unchanged =
        Customer::update_by_customer_id_merchant_id(&mut conn, s("cust_1"), s("m_1"), no_changes())
            .unwrap();
    assert_eq!(unchanged, found);

    let mut rename = no_changes();
    rename.name = Some(s("Annie"));
    let renamed =
        Customer::update_by_customer_id_merchant_id(&mut conn, s("cust_1"), s("m_1"), rename)
            .unwrap();
    assert_eq!(renamed.name, Some(s("Annie")));

    assert_eq!(
        Customer::delete_by_customer_id_merchant_id(&mut conn, &s("cust_1"), &s("m_1")),
        Ok(true)
    );
    assert_eq!(
        Customer::find_optional_by_customer_id_merchant_id(&conn, &s("cust_1"), &s("m_1")),
        Ok(None)
    );
}

#[test]
fn empty_update_reports_no_fields_and_keeps_row() {
    let mut conn: Table<Customer> = Table::new();
    let stored = generic_insert(&mut conn, new_customer("c", "m", "Ann", 5)).unwrap();
    assert_eq!(
        generic_update_by_id(&mut conn, key("c", "m"), no_changes()),
        Err(DatabaseError::NoFieldsToUpdate)
    );
    assert_eq!(generic_find_by_id(&conn, key("c", "m")), Ok(stored));
}

#[test]
fn insert_then_find_returns_inserted_row() {
    let mut conn: Table<Customer> = Table::new();
    let new = new_customer("c", "m", "Bo", 7);
    let stored = generic_insert(&mut conn, new.clone()).unwrap();
    let found = generic_find_by_id(&conn, key("c", "m")).unwrap();
    assert_eq!(found, stored);
    assert_eq!(found.customer_id, new.customer_id);
    assert_eq!(found.merchant_id, new.merchant_id);
    assert_eq!(found.name, new.name);
    assert_eq!(found.created_at, 7);
    assert_eq!(conn.len(), 1);
}

#[test]
fn find_missing_key_is_not_found() {
    let mut conn: Table<Customer> = Table::new();
    generic_insert(&mut conn, new_customer("c", "m", "Bo", 7)).unwrap();
    assert_eq!(generic_find_by_id(&conn, key("c", "other")), Err(DatabaseError::NotFound));
    assert_eq!(generic_find_by_id(&conn, key("x", "m")), Err(DatabaseError::NotFound));
}

#[test]
fn optional_find_of_never_inserted_key_is_none() {
    let mut conn: Table<Customer> = Table::new();
    assert_eq!(generic_find_by_id_optional(&conn, key("c", "m")), Ok(None));
    generic_insert(&mut conn, new_customer("d", "m", "Cy", 1)).unwrap();
    assert_eq!(generic_find_by_id_optional(&conn, key("c", "m")), Ok(None));
    assert!(generic_find_by_id_optional(&conn, key("d", "m")).unwrap().is_some());
}

#[test]
fn duplicate_insert_is_unique_violation_and_adds_nothing() {
    let mut conn: Table<Customer> = Table::new();
    let first = generic_insert(&mut conn, new_customer("c", "m", "First", 1));
    let second = generic_insert(&mut conn, new_customer("c", "m", "Second", 2));
    assert!(first.is_ok());
    assert_eq!(second, Err(DatabaseError::UniqueViolation));
    assert_eq!(conn.len(), 1);
    let kept = generic_find_by_id(&conn, key("c", "m")).unwrap();
    assert_eq!(kept.name, Some(s("First")));
}

#[test]
fn same_customer_id_under_two_merchants_is_allowed() {
    let mut conn: Table<Customer> = Table::new();
    assert!(generic_insert(&mut conn, new_customer("c", "m1", "A", 1)).is_ok());
    assert!(generic_insert(&mut conn, new_customer("c", "m2", "B", 1)).is_ok());
    assert_eq!(conn.len(), 2);
}

#[test]
fn update_writes_only_given_columns() {
    let mut conn: Table<Customer> = Table::new();
    let mut new = new_customer("c", "m", "Ann", 10);
    new.email = Some(s("ann@example.com"));
    new.description = Some(s("first"));
    generic_insert(&mut conn, new).unwrap();
    let mut change = no_changes();
    change.email = Some(s("annie@example.com"));
    change.modified_at = Some(20);
    let updated = generic_update_by_id(&mut conn, key("c", "m"), change).unwrap();
    assert_eq!(updated.email, Some(s("annie@example.com")));
    assert_eq!(updated.modified_at, 20);
    assert_eq!(updated.name, Some(s("Ann")));
    assert_eq!(updated.description, Some(s("first")));
    assert_eq!(updated.phone, None);
    assert_eq!(updated.created_at, 10);
    assert_eq!(updated.customer_id, s("c"));
    assert_eq!(generic_find_by_id(&conn, key("c", "m")), Ok(updated));
}

#[test]
fn update_of_missing_key_is_not_found() {
    let mut conn: Table<Customer> = Table::new();
    generic_insert(&mut conn, new_customer("c", "m", "Ann", 10)).unwrap();
    let mut change = no_changes();
    change.name = Some(s("Zed"));
    assert_eq!(
        generic_update_by_id(&mut conn, key("nope", "m"), change),
        Err(DatabaseError::NotFound)
    );
    assert_eq!(generic_find_by_id(&conn, key("c", "m")).unwrap().name, Some(s("Ann")));
}

#[test]
fn empty_update_of_missing_customer_falls_back_to_not_found() {
    let mut conn: Table<Customer> = Table::new();
    assert_eq!(
        Customer::update_by_customer_id_merchant_id(&mut conn, s("c"), s("m"), no_changes()),
        Err(DatabaseError::NotFound)
    );
}

#[test]
fn delete_matching_nothing_returns_false() {
    let mut conn: Table<Customer> = Table::new();
    generic_insert(&mut conn, new_customer("c", "m", "Ann", 10)).unwrap();
    assert_eq!(generic_delete(&mut conn, CustomerFilter::ByMerchant(s("other"))), Ok(false));
    assert_eq!(conn.len(), 1);
    assert_eq!(
        Customer::delete_by_customer_id_merchant_id(&mut conn, &s("x"), &s("m")),
        Ok(false)
    );
}

#[test]
fn delete_by_predicate_removes_every_match() {
    let mut conn: Table<Customer> = Table::new();
    generic_insert(&mut conn, new_customer("a", "m1", "A", 1)).unwrap();
    generic_insert(&mut conn, new_customer("b", "m1", "B", 2)).unwrap();
    generic_insert(&mut conn, new_customer("c", "m2", "C", 3)).unwrap();
    assert_eq!(generic_delete(&mut conn, CustomerFilter::ByMerchant(s("m1"))), Ok(true));
    assert_eq!(conn.len(), 1);
    assert_eq!(generic_find_by_id_optional(&conn, key("a", "m1")), Ok(None));
    assert_eq!(generic_find_by_id_optional(&conn, key("b", "m1")), Ok(None));
    assert!(generic_find_by_id_optional(&conn, key("c", "m2")).unwrap().is_some());
}

fn three_merchant_rows() -> Table<Customer> {
    let mut conn: Table<Customer> = Table::new();
    generic_insert(&mut conn, new_customer("late", "m", "L", 30)).unwrap();
    generic_insert(&mut conn, new_customer("other", "n", "O", 5)).unwrap();
    generic_insert(&mut conn, new_customer("early", "m", "E", 10)).unwrap();
    generic_insert(&mut conn, new_customer("mid", "m", "M", 20)).unwrap();
    conn
}

fn ids(rows: &[Customer]) -> Vec<String> {
    rows.iter().map(|c| c.customer_id.clone()).collect()
}

#[test]
fn list_by_merchant_is_oldest_first() {
    let conn = three_merchant_rows();
    let rows = Customer::list_by_merchant_id(&conn, &s("m")).unwrap();
    assert_eq!(ids(&rows), vec![s("early"), s("mid"), s("late")]);
    assert_eq!(Customer::list_by_merchant_id(&conn, &s("none")), Ok(vec![]));
}

#[test]
fn filter_descending_with_limit() {
    let conn = three_merchant_rows();
    let order = Order { column: CustomerColumn::CreatedAt, direction: Direction::Descending };
    let rows = generic_filter(
        &conn,
        Some(CustomerFilter::ByMerchant(s("m"))),
        Some(2),
        None,
        Some(order),
    )
    .unwrap();
    assert_eq!(ids(&rows), vec![s("late"), s("mid")]);
}

#[test]
fn filter_window_with_offset() {
    let conn = three_merchant_rows();
    let order = Order { column: CustomerColumn::CreatedAt, direction: Direction::Ascending };
    let rows = generic_filter::<Customer, CustomerFilter>(&conn, None, Some(2), Some(1), Some(order))
        .unwrap();
    assert_eq!(ids(&rows), vec![s("early"), s("mid")]);
    let past_end =
        generic_filter::<Customer, CustomerFilter>(&conn, None, Some(3), Some(9), Some(order))
            .unwrap();
    assert!(past_end.is_empty());
}

#[test]
fn filter_without_order_keeps_storage_order() {
    let conn = three_merchant_rows();
    let rows = generic_filter::<Customer, CustomerFilter>(&conn, None, None, None, None).unwrap();
    assert_eq!(ids(&rows), vec![s("late"), s("other"), s("early"), s("mid")]);
    let limited =
        generic_filter::<Customer, CustomerFilter>(&conn, None, Some(0), None, None).unwrap();
    assert!(limited.is_empty());
}

#[test]
fn filter_limit_bounds_result_length() {
    let conn = three_merchant_rows();
    for n in 0..6usize {
        let rows =
            generic_filter::<Customer, CustomerFilter>(&conn, None, Some(n), None, None).unwrap();
        assert!(rows.len() <= n);
        assert_eq!(rows.len(), n.min(4));
    }
}

#[test]
fn racing_inserts_one_wins() {
    let mut conn: Table<Customer> = Table::new();
    let results = vec![
        generic_insert(&mut conn, new_customer("c", "m", "A", 1)),
        generic_insert(&mut conn, new_customer("c", "m", "B", 2)),
    ];
    assert_eq!(results.iter().filter(|r| r.is_ok()).count(), 1);
    assert_eq!(results[1], Err(DatabaseError::UniqueViolation));
    assert_eq!(conn.len(), 1);
}

#[test]
fn backend_failures_normalize() {
    assert_eq!(normalize(BackendFailure::NoRows), DatabaseError::NotFound);
    assert_eq!(normalize(BackendFailure::UniqueConstraint), DatabaseError::UniqueViolation);
    assert_eq!(normalize(BackendFailure::EmptyChangeset), DatabaseError::NoFieldsToUpdate);
    assert_eq!(normalize(BackendFailure::PoolUnavailable), DatabaseError::ConnectionError);
    assert_eq!(
        normalize(BackendFailure::ForeignKeyConstraint(s("fk_merchant"))),
        DatabaseError::QueryError(s("fk_merchant"))
    );
    assert_eq!(
        normalize(BackendFailure::Other(s("syntax error"))),
        DatabaseError::QueryError(s("syntax error"))
    );
}
