use vstd::prelude::*;

use crate::errors::{normalize, BackendFailure, DatabaseError, StorageResult};
use crate::schema::{
    admits, in_order, sorted_by, window, window_end, window_start, Changeset, Direction,
    Insertable, Order, Predicate, Record,
};

verus! {

/// No two rows share a primary key.
pub open spec fn keys_unique<R: Record>(rows: Seq<R>) -> bool {
    forall|i: int, j: int|
        0 <= i < rows.len() && 0 <= j < rows.len() && i != j ==> #[trigger] rows[i].key_model()
            != #[trigger] rows[j].key_model()
}

/// Some row has primary key `km`.
pub open spec fn key_present<R: Record>(rows: Seq<R>, km: R::KeyModel) -> bool {
    exists|i: int| 0 <= i < rows.len() && #[trigger] rows[i].key_model() == km
}

/// The row with primary key `km`, if there is one.
pub open spec fn find_spec<R: Record>(rows: Seq<R>, km: R::KeyModel) -> Option<R> {
    if key_present(rows, km) {
        Some(rows[choose|i: int| 0 <= i < rows.len() && #[trigger] rows[i].key_model() == km])
    } else {
        None
    }
}

/// A point lookup as a result: the row, or `NotFound`.
pub open spec fn found<R: Record>(rows: Seq<R>, km: R::KeyModel) -> StorageResult<R> {
    match find_spec(rows, km) {
        Some(r) => Ok(r),
        None => Err(DatabaseError::NotFound),
    }
}

/// Rows and result after inserting `rec`: appended, unless its key is taken.
pub open spec fn insert_spec<R: Record>(rows: Seq<R>, rec: R) -> (Seq<R>, StorageResult<R>) {
    if key_present(rows, rec.key_model()) {
        (rows, Err(DatabaseError::UniqueViolation))
    } else {
        (rows.push(rec), Ok(rec))
    }
}

/// Every row with key `km` has the update written onto it.
pub open spec fn updated_rows<R: Record, U: Changeset<R>>(
    rows: Seq<R>,
    km: R::KeyModel,
    u: U,
) -> Seq<R> {
    rows.map_values(|r: R| if r.key_model() == km { u.spec_apply(r) } else { r })
}

/// Rows and result after updating the row with key `km`: an empty update
/// writes nothing and reports `NoFieldsToUpdate`; a missing row reports
/// `NotFound`; otherwise the updated row is stored and returned.
pub open spec fn update_spec<R: Record, U: Changeset<R>>(
    rows: Seq<R>,
    km: R::KeyModel,
    u: U,
) -> (Seq<R>, StorageResult<R>) {
    if u.spec_is_empty() {
        (rows, Err(DatabaseError::NoFieldsToUpdate))
    } else {
        match find_spec(rows, km) {
            Some(r) => (updated_rows(rows, km, u), Ok(u.spec_apply(r))),
            None => (rows, Err(DatabaseError::NotFound)),
        }
    }
}

/// The rows that a delete by `p` keeps.
pub open spec fn keep_fn<R, P: Predicate<R>>(p: P) -> spec_fn(R) -> bool {
    |r: R| !p.holds(r)
}

/// The rows that an optional predicate selects.
pub open spec fn admits_fn<R, P: Predicate<R>>(p: Option<P>) -> spec_fn(R) -> bool {
    |r: R| admits(p, r)
}

/// Some row satisfies `p`.
pub open spec fn any_match<R, P: Predicate<R>>(rows: Seq<R>, p: P) -> bool {
    exists|i: int| 0 <= i < rows.len() && #[trigger] p.holds(rows[i])
}

/// Rows and result after deleting every row that satisfies `p`; the result
/// tells whether any row was removed.
pub open spec fn delete_spec<R, P: Predicate<R>>(rows: Seq<R>, p: P) -> (Seq<R>, StorageResult<bool>) {
    (rows.filter(keep_fn(p)), Ok(any_match(rows, p)))
}

/// `out` is a result that a filter may return: the selected rows, in storage
/// order when no order is given, or else in some arrangement monotone on the
/// order's column, cut to the pagination window.
pub open spec fn filter_admits<R: Record, P: Predicate<R>>(
    rows: Seq<R>,
    p: Option<P>,
    limit: Option<usize>,
    offset: Option<usize>,
    order: Option<Order<R::Column>>,
    out: Seq<R>,
) -> bool {
    let selected = rows.filter(admits_fn(p));
    match order {
        None => out == window(selected, limit, offset),
        Some(o) => exists|s: Seq<R>|
            #[trigger] sorted_by(s, o) && s.to_multiset() == selected.to_multiset() && out == window(
                s,
                limit,
                offset,
            ),
    }
}

proof fn lemma_filter_take<A>(s: Seq<A>, f: spec_fn(A) -> bool, i: int)
    requires
        0 <= i < s.len(),
    ensures
        s.take(i + 1).filter(f) == (if f(s[i]) {
            s.take(i).filter(f).push(s[i])
        } else {
            s.take(i).filter(f)
        }),
{
    reveal(Seq::filter);
    assert(s.take(i + 1).drop_last() =~= s.take(i));
}

proof fn lemma_find_at<R: Record>(rows: Seq<R>, km: R::KeyModel, i: int)
    requires
        keys_unique(rows),
        0 <= i < rows.len(),
        rows[i].key_model() == km,
    ensures
        find_spec(rows, km) == Some(rows[i]),
{
    assert(key_present(rows, km));
}

/// One table of a relational store: its rows, with unique primary keys.
pub struct Table<R: Record> {
    rows: Vec<R>,
}

impl<R: Record> View for Table<R> {
    type V = Seq<R>;

    closed spec fn view(&self) -> Seq<R> {
        self.rows@
    }
}

impl<R: Record> Table<R> {
    /// Well-formed: primary keys are unique.
    pub open spec fn wf(&self) -> bool {
        keys_unique(self@)
    }

    /// An empty table.
    pub fn new() -> (t: Self)
        ensures
            t@ == Seq::<R>::empty(),
            t.wf(),
    {
        Table { rows: Vec::new() }
    }

    /// Number of rows stored.
    pub fn len(&self) -> (n: usize)
        ensures
            n == self@.len(),
    {
        self.rows.len()
    }

    fn index_of_key(&self, key: &R::Key) -> (r: Option<usize>)
        ensures
            match r {
                Some(i) => i < self@.len() && self@[i as int].key_model() == R::model_of_key(*key),
                None => !key_present(self@, R::model_of_key(*key)),
            },
    {
        let mut i: usize = 0;
        while i < self.rows.len()
            invariant
                i <= self.rows@.len(),
                forall|k: int| 0 <= k < i ==> self.rows@[k].key_model() != R::model_of_key(*key),
            decreases self.rows@.len() - i,
        {
            if self.rows[i].has_key(key) {
                return Some(i);
            }
            i += 1;
        }
        None
    }

    fn index_of_row_key(&self, rec: &R) -> (r: Option<usize>)
        ensures
            match r {
                Some(i) => i < self@.len() && self@[i as int].key_model() == rec.key_model(),
                None => !key_present(self@, rec.key_model()),
            },
    {
        let mut i: usize = 0;
        while i < self.rows.len()
            invariant
                i <= self.rows@.len(),
                forall|k: int| 0 <= k < i ==> self.rows@[k].key_model() != rec.key_model(),
            decreases self.rows@.len() - i,
        {
            if self.rows[i].same_key(rec) {
                return Some(i);
            }
            i += 1;
        }
        None
    }

    /// The backend's insert statement: a unique-key clash is reported as the
    /// backend reports it.
    fn insert_row(&mut self, rec: R) -> (r: Result<R, BackendFailure>)
        requires
            old(self).wf(),
        ensures
            final(self).wf(),
            match r {
                Ok(x) => !key_present(old(self)@, rec.key_model()) && final(self)@ == old(
                    self,
                )@.push(rec) && x == rec,
                Err(f) => key_present(old(self)@, rec.key_model()) && f
                    == BackendFailure::UniqueConstraint && final(self)@ == old(self)@,
            },
    {
        match self.index_of_row_key(&rec) {
            Some(_) => Err(BackendFailure::UniqueConstraint),
            None => {
                let out = rec.duplicate();
                self.rows.push(rec);
                Ok(out)
            },
        }
    }
}

/// Inserts a new row built from `new` and returns the row as stored. Fails
/// with `UniqueViolation`, leaving the table as it was, exactly when a row
/// with the same primary key exists.
pub fn generic_insert<R: Record, N: Insertable<R>>(conn: &mut Table<R>, new: N) -> (r:
    StorageResult<R>)
    requires
        old(conn).wf(),
    ensures
        final(conn).wf(),
        (final(conn)@, r) == insert_spec(old(conn)@, new.spec_into_record()),
{
    let rec = new.into_record();
    match conn.insert_row(rec) {
        Ok(x) => Ok(x),
        Err(f) => Err(normalize(f)),
    }
}

/// Looks up the row with the full primary key `key`; `NotFound` when absent.
pub fn generic_find_by_id<R: Record>(conn: &Table<R>, key: R::Key) -> (r: StorageResult<R>)
    requires
        conn.wf(),
    ensures
        r == found(conn@, R::model_of_key(key)),
{
    match conn.index_of_key(&key) {
        Some(i) => {
            proof {
                lemma_find_at(conn@, R::model_of_key(key), i as int);
            }
            Ok(conn.rows[i].duplicate())
        },
        None => Err(normalize(BackendFailure::NoRows)),
    }
}

/// Looks up the row with the full primary key `key`; absence is `None`.
pub fn generic_find_by_id_optional<R: Record>(conn: &Table<R>, key: R::Key) -> (r: StorageResult<
    Option<R>,
>)
    requires
        conn.wf(),
    ensures
        r == Ok::<Option<R>, DatabaseError>(find_spec(conn@, R::model_of_key(key))),
{
    match conn.index_of_key(&key) {
        Some(i) => {
            proof {
                lemma_find_at(conn@, R::model_of_key(key), i as int);
            }
            Ok(Some(conn.rows[i].duplicate()))
        },
        None => Ok(None),
    }
}

/// Writes `update` onto the row with the full primary key `key` and returns
/// the updated row. An empty update writes nothing and reports
/// `NoFieldsToUpdate`; a key with no row reports `NotFound`.
pub fn generic_update_by_id<R: Record, U: Changeset<R>>(
    conn: &mut Table<R>,
    key: R::Key,
    update: U,
) -> (r: StorageResult<R>)
    requires
        old(conn).wf(),
    ensures
        final(conn).wf(),
        (final(conn)@, r) == update_spec(old(conn)@, R::model_of_key(key), update),
{
    if update.is_empty() {
        return Err(normalize(BackendFailure::EmptyChangeset));
    }
    let ghost km = R::model_of_key(key);
    let ghost rows0 = conn@;
    match conn.index_of_key(&key) {
        Some(i) => {
            proof {
                lemma_find_at(rows0, km, i as int);
                update.lemma_apply_keeps_key(rows0[i as int]);
            }
            let changed = update.apply(&conn.rows[i]);
            let out = changed.duplicate();
            conn.rows.set(i, changed);
            proof {
                assert forall|j: int| 0 <= j < rows0.len() implies #[trigger] conn@[j] == (
                if rows0[j].key_model() == km {
                    update.spec_apply(rows0[j])
                } else {
                    rows0[j]
                }) by {
                    if j != i {
                        assert(rows0[j].key_model() != rows0[i as int].key_model());
                    }
                }
                assert(conn@ =~= updated_rows(rows0, km, update));
                assert forall|a: int, b: int|
                    0 <= a < conn@.len() && 0 <= b < conn@.len() && a != b implies #[trigger] conn@[a].key_model()
                    != #[trigger] conn@[b].key_model() by {
                    assert(rows0[a].key_model() != rows0[b].key_model());
                }
            }
            Ok(out)
        },
        None => Err(normalize(BackendFailure::NoRows)),
    }
}

/// Deletes every row that satisfies `predicate` and tells whether any row was
/// removed; removing none is no error.
pub fn generic_delete<R: Record, P: Predicate<R>>(conn: &mut Table<R>, predicate: P) -> (r:
    StorageResult<bool>)
    requires
        old(conn).wf(),
    ensures
        final(conn).wf(),
        (final(conn)@, r) == delete_spec(old(conn)@, predicate),
{
    let ghost rows0 = conn@;
    let ghost keep = keep_fn::<R, P>(predicate);
    let mut kept: Vec<R> = Vec::new();
    let mut removed = false;
    let mut i: usize = 0;
    while i < conn.rows.len()
        invariant
            conn@ == rows0,
            keep == keep_fn::<R, P>(predicate),
            keys_unique(rows0),
            i <= rows0.len(),
            kept@ == rows0.take(i as int).filter(keep),
            keys_unique(kept@),
            removed == (exists|k: int| 0 <= k < i && #[trigger] predicate.holds(rows0[k])),
        decreases rows0.len() - i,
    {
        proof {
            lemma_filter_take(rows0, keep, i as int);
            assert(keep(rows0[i as int]) == !predicate.holds(rows0[i as int]));
        }
        if predicate.test(&conn.rows[i]) {
            removed = true;
        } else {
            let row = conn.rows[i].duplicate();
            proof {
                assert forall|a: int| 0 <= a < kept@.len() implies kept@[a].key_model()
                    != row.key_model() by {
                    let t = rows0.take(i as int);
                    assert(t.filter(keep).contains(kept@[a]));
                    t.lemma_filter_contains_rev(keep, kept@[a]);
                    let idx = choose|idx: int| 0 <= idx < t.len() && t[idx] == kept@[a];
                    assert(rows0[idx] == kept@[a]);
                }
            }
            kept.push(row);
        }
        i += 1;
    }
    assert(rows0.take(rows0.len() as int) =~= rows0);
    conn.rows = kept;
    Ok(removed)
}

/// Whether `a` may stand before `b` under direction `d`.
fn stands_before(a: i64, b: i64, d: Direction) -> (r: bool)
    ensures
        r == in_order(a as int, b as int, d),
{
    match d {
        Direction::Ascending => a <= b,
        Direction::Descending => a >= b,
    }
}

proof fn lemma_insert_multiset<A>(s: Seq<A>, pos: int, x: A)
    requires
        0 <= pos <= s.len(),
    ensures
        s.insert(pos, x).to_multiset() == s.to_multiset().insert(x),
{
    broadcast use vstd::seq_lib::group_to_multiset_ensures;

    let t = s.insert(pos, x);
    s.insert_ensures(pos, x);
    assert(t.remove(pos) =~= s);
    assert(t.contains(x));
    assert(t.to_multiset() =~= s.to_multiset().insert(x));
}

/// The first position of a sorted sequence at which `x` can be inserted with
/// the sequence staying sorted, after all rows that may stand before it.
fn insertion_point<R: Record>(sorted: &Vec<R>, x: &R, o: &Order<R::Column>) -> (j: usize)
    requires
        sorted_by(sorted@, *o),
    ensures
        j <= sorted@.len(),
        forall|k: int|
            0 <= k < j ==> in_order(
                #[trigger] sorted@[k].spec_order_value(o.column),
                x.spec_order_value(o.column),
                o.direction,
            ),
        forall|k: int|
            j <= k < sorted@.len() ==> !in_order(
                #[trigger] sorted@[k].spec_order_value(o.column),
                x.spec_order_value(o.column),
                o.direction,
            ),
{
    let xv = x.order_value(&o.column);
    let mut j: usize = 0;
    while j < sorted.len()
        invariant
            j <= sorted@.len(),
            sorted_by(sorted@, *o),
            xv as int == x.spec_order_value(o.column),
            forall|k: int|
                0 <= k < j ==> in_order(
                    #[trigger] sorted@[k].spec_order_value(o.column),
                    x.spec_order_value(o.column),
                    o.direction,
                ),
        decreases sorted@.len() - j,
    {
        let v = sorted[j].order_value(&o.column);
        if !stands_before(v, xv, o.direction) {
            assert forall|k: int| j <= k < sorted@.len() implies !in_order(
                #[trigger] sorted@[k].spec_order_value(o.column),
                x.spec_order_value(o.column),
                o.direction,
            ) by {
                if k > j {
                    assert(in_order(
                        sorted@[j as int].spec_order_value(o.column),
                        sorted@[k].spec_order_value(o.column),
                        o.direction,
                    ));
                }
            }
            return j;
        }
        j += 1;
    }
    j
}

/// Arranges `rows` monotonically on the order's column.
fn sort_rows<R: Record>(rows: Vec<R>, o: &Order<R::Column>) -> (r: Vec<R>)
    ensures
        sorted_by(r@, *o),
        r@.to_multiset() == rows@.to_multiset(),
{
    broadcast use vstd::seq_lib::group_to_multiset_ensures;

    let ghost all = rows@;
    let mut remaining = rows;
    let mut sorted: Vec<R> = Vec::new();
    while remaining.len() > 0
        invariant
            sorted_by(sorted@, *o),
            sorted@.to_multiset().add(remaining@.to_multiset()) == all.to_multiset(),
        decreases remaining@.len(),
    {
        let ghost before = remaining@;
        match remaining.pop() {
            Some(x) => {
                proof {
                    assert(before =~= remaining@.push(x));
                }
                let j = insertion_point(&sorted, &x, o);
                let ghost s0 = sorted@;
                sorted.insert(j, x);
                proof {
                    s0.insert_ensures(j as int, x);
                    lemma_insert_multiset(s0, j as int, x);
                    remaining@.to_multiset_ensures();
                    assert(before.to_multiset() == remaining@.push(x).to_multiset());
                    assert(before.to_multiset() == remaining@.to_multiset().insert(x));
                    assert(sorted@.to_multiset() == s0.to_multiset().insert(x));
                    assert(s0.to_multiset().add(before.to_multiset()) == all.to_multiset());
                    assert(sorted@.to_multiset().add(remaining@.to_multiset()) =~= all.to_multiset());
                    assert forall|a: int, b: int| 0 <= a < b < sorted@.len() implies in_order(
                        #[trigger] sorted@[a].spec_order_value(o.column),
                        #[trigger] sorted@[b].spec_order_value(o.column),
                        o.direction,
                    ) by {
                        if b < j {
                        } else if b == j {
                        } else if a < j {
                            assert(!in_order(
                                s0[b - 1].spec_order_value(o.column),
                                x.spec_order_value(o.column),
                                o.direction,
                            ));
                        } else if a == j {
                            assert(!in_order(
                                s0[b - 1].spec_order_value(o.column),
                                x.spec_order_value(o.column),
                                o.direction,
                            ));
                        } else {
                            assert(in_order(
                                s0[a - 1].spec_order_value(o.column),
                                s0[b - 1].spec_order_value(o.column),
                                o.direction,
                            ));
                        }
                    }
                }
            },
            None => {},
        }
    }
    proof {
        assert(remaining@ =~= Seq::<R>::empty());
        assert(sorted@.to_multiset().add(remaining@.to_multiset()) =~= sorted@.to_multiset());
    }
    sorted
}

/// Copies the part of `rows` that the pagination window keeps.
fn copy_window<R: Record>(rows: &Vec<R>, limit: Option<usize>, offset: Option<usize>) -> (r: Vec<
    R,
>)
    ensures
        r@ == window(rows@, limit, offset),
{
    let n = rows.len();
    let start: usize = match offset {
        Some(off) => if off < n {
            off
        } else {
            n
        },
        None => 0,
    };
    let end: usize = match limit {
        Some(lim) => if lim < n - start {
            start + lim
        } else {
            n
        },
        None => n,
    };
    assert(start == window_start(n as int, offset));
    assert(end == window_end(n as int, limit, offset));
    let mut out: Vec<R> = Vec::new();
    let mut k: usize = start;
    while k < end
        invariant
            start <= k <= end <= rows@.len(),
            out@ == rows@.subrange(start as int, k as int),
        decreases end - k,
    {
        out.push(rows[k].duplicate());
        proof {
            assert(out@ =~= rows@.subrange(start as int, k + 1));
        }
        k += 1;
    }
    out
}

/// Reads the rows that satisfy `predicate` (all rows when it is absent),
/// ordered by `order` when given, and cut to the window that `limit` and
/// `offset` describe. The whole window is read before returning; an empty
/// result is no failure.
pub fn generic_filter<R: Record, P: Predicate<R>>(
    conn: &Table<R>,
    predicate: Option<P>,
    limit: Option<usize>,
    offset: Option<usize>,
    order: Option<Order<R::Column>>,
) -> (r: StorageResult<Vec<R>>)
    requires
        conn.wf(),
    ensures
        match r {
            Ok(v) => filter_admits(conn@, predicate, limit, offset, order, v@),
            Err(_) => false,
        },
{
    let ghost rows0 = conn@;
    let ghost sel = admits_fn::<R, P>(predicate);
    let mut selected: Vec<R> = Vec::new();
    let mut i: usize = 0;
    while i < conn.rows.len()
        invariant
            conn@ == rows0,
            sel == admits_fn::<R, P>(predicate),
            i <= rows0.len(),
            selected@ == rows0.take(i as int).filter(sel),
        decreases rows0.len() - i,
    {
        proof {
            lemma_filter_take(rows0, sel, i as int);
            assert(sel(rows0[i as int]) == admits(predicate, rows0[i as int]));
        }
        let pass = match &predicate {
            Some(q) => q.test(&conn.rows[i]),
            None => true,
        };
        if pass {
            selected.push(conn.rows[i].duplicate());
        }
        i += 1;
    }
    assert(rows0.take(rows0.len() as int) =~= rows0);
    match order {
        Some(o) => {
            let ordered = sort_rows(selected, &o);
            let out = copy_window(&ordered, limit, offset);
            assert(sorted_by(ordered@, o));
            Ok(out)
        },
        None => Ok(copy_window(&selected, limit, offset)),
    }
}

/// An insert that succeeds is followed by a lookup of its key that returns
/// exactly the inserted row, and the table keeps unique keys.
pub proof fn lemma_insert_then_find<R: Record>(rows: Seq<R>, rec: R)
    requires
        keys_unique(rows),
    ensures
        insert_spec(rows, rec).1 is Ok ==> {
            &&& keys_unique(insert_spec(rows, rec).0)
            &&& find_spec(insert_spec(rows, rec).0, rec.key_model()) == Some(rec)
            &&& found(insert_spec(rows, rec).0, rec.key_model()) == Ok::<R, DatabaseError>(rec)
        },
{
    if !key_present(rows, rec.key_model()) {
        let t = rows.push(rec);
        assert(keys_unique(t));
        lemma_find_at(t, rec.key_model(), rows.len() as int);
    }
}

/// A key that no row holds is looked up as absent, and stays absent when a
/// row with another key is inserted.
pub proof fn lemma_never_inserted_is_absent<R: Record>(rows: Seq<R>, rec: R, km: R::KeyModel)
    requires
        !key_present(rows, km),
        rec.key_model() != km,
    ensures
        find_spec(rows, km) == None::<R>,
        find_spec(insert_spec(rows, rec).0, km) == None::<R>,
{
    let t = insert_spec(rows, rec).0;
    if key_present(t, km) {
        let i = choose|i: int| 0 <= i < t.len() && #[trigger] t[i].key_model() == km;
        if i < rows.len() {
            assert(rows[i].key_model() == km);
        }
    }
}

/// An empty update writes nothing, reports `NoFieldsToUpdate`, and a lookup
/// of the same key afterwards returns the row as it was.
pub proof fn lemma_empty_update_is_noop<R: Record, U: Changeset<R>>(
    rows: Seq<R>,
    km: R::KeyModel,
    u: U,
)
    requires
        u.spec_is_empty(),
    ensures
        update_spec(rows, km, u) == (rows, Err::<R, DatabaseError>(DatabaseError::NoFieldsToUpdate)),
        find_spec(update_spec(rows, km, u).0, km) == find_spec(rows, km),
{
}

/// A non-empty update of an existing key returns the row with the update
/// written onto it, stores that row under the same key, and leaves the rows
/// under every other key as they were.
pub proof fn lemma_update_changes_only_target<R: Record, U: Changeset<R>>(
    rows: Seq<R>,
    km: R::KeyModel,
    u: U,
)
    requires
        keys_unique(rows),
        !u.spec_is_empty(),
        key_present(rows, km),
    ensures
        update_spec(rows, km, u).1 == Ok::<R, DatabaseError>(
            u.spec_apply(find_spec(rows, km)->Some_0),
        ),
        keys_unique(update_spec(rows, km, u).0),
        find_spec(update_spec(rows, km, u).0, km) == Some(u.spec_apply(find_spec(rows, km)->Some_0)),
        forall|other: R::KeyModel|
            other != km ==> #[trigger] find_spec(update_spec(rows, km, u).0, other) == find_spec(
                rows,
                other,
            ),
{
    let t = update_spec(rows, km, u).0;
    assert(t == updated_rows(rows, km, u));
    assert forall|j: int| 0 <= j < rows.len() implies #[trigger] t[j].key_model()
        == rows[j].key_model() by {
        u.lemma_apply_keeps_key(rows[j]);
    }
    assert(keys_unique(t)) by {
        assert forall|a: int, b: int|
            0 <= a < t.len() && 0 <= b < t.len() && a != b implies #[trigger] t[a].key_model()
            != #[trigger] t[b].key_model() by {
            assert(rows[a].key_model() != rows[b].key_model());
        }
    }
    let i = choose|i: int| 0 <= i < rows.len() && #[trigger] rows[i].key_model() == km;
    lemma_find_at(rows, km, i);
    lemma_find_at(t, km, i);
    assert forall|other: R::KeyModel| other != km implies #[trigger] find_spec(t, other) == find_spec(
        rows,
        other,
    ) by {
        if key_present(rows, other) {
            let j = choose|j: int| 0 <= j < rows.len() && #[trigger] rows[j].key_model() == other;
            lemma_find_at(rows, other, j);
            lemma_find_at(t, other, j);
        } else if key_present(t, other) {
            let j = choose|j: int| 0 <= j < t.len() && #[trigger] t[j].key_model() == other;
            assert(rows[j].key_model() == other);
        }
    }
}

/// A delete reports `false` exactly when no row satisfies the predicate, and
/// afterwards no deleted row's key can be found.
pub proof fn lemma_delete_outcome<R: Record, P: Predicate<R>>(rows: Seq<R>, p: P)
    requires
        keys_unique(rows),
    ensures
        delete_spec(rows, p).1 == Ok::<bool, DatabaseError>(false) <==> forall|i: int|
            0 <= i < rows.len() ==> !#[trigger] p.holds(rows[i]),
        forall|i: int|
            0 <= i < rows.len() && #[trigger] p.holds(rows[i]) ==> find_spec(
                delete_spec(rows, p).0,
                rows[i].key_model(),
            ) == None::<R>,
{
    let t = delete_spec(rows, p).0;
    let keep = keep_fn::<R, P>(p);
    assert forall|i: int| 0 <= i < rows.len() && #[trigger] p.holds(rows[i]) implies find_spec(
        t,
        rows[i].key_model(),
    ) == None::<R> by {
        let km = rows[i].key_model();
        if key_present(t, km) {
            let j = choose|j: int| 0 <= j < t.len() && #[trigger] t[j].key_model() == km;
            rows.lemma_filter_pred(keep, j);
            assert(t.contains(t[j]));
            rows.lemma_filter_contains_rev(keep, t[j]);
            let idx = choose|idx: int| 0 <= idx < rows.len() && rows[idx] == t[j];
            assert(rows[idx].key_model() == rows[i].key_model());
        }
    }
}

/// A filter result is never longer than its limit, and with an order it is
/// monotone on the order's column.
pub proof fn lemma_filter_window<R: Record, P: Predicate<R>>(
    rows: Seq<R>,
    p: Option<P>,
    limit: Option<usize>,
    offset: Option<usize>,
    order: Option<Order<R::Column>>,
    out: Seq<R>,
)
    requires
        filter_admits(rows, p, limit, offset, order, out),
    ensures
        limit is Some ==> out.len() <= limit->Some_0,
        order is Some ==> sorted_by(out, order->Some_0),
{
    let selected = rows.filter(admits_fn(p));
    match order {
        None => {},
        Some(o) => {
            let s = choose|s: Seq<R>|
                #[trigger] sorted_by(s, o) && s.to_multiset() == selected.to_multiset() && out
                    == window(s, limit, offset);
            let start = window_start(s.len() as int, offset);
            assert forall|a: int, b: int| 0 <= a < b < out.len() implies in_order(
                #[trigger] out[a].spec_order_value(o.column),
                #[trigger] out[b].spec_order_value(o.column),
                o.direction,
            ) by {
                assert(out[a] == s[start + a]);
                assert(out[b] == s[start + b]);
            }
        },
    }
}

/// Of two inserts that claim the same free key, whichever runs first
/// succeeds and the other reports `UniqueViolation`, leaving no row behind.
pub proof fn lemma_conflicting_inserts<R: Record>(rows: Seq<R>, a: R, b: R)
    requires
        keys_unique(rows),
        a.key_model() == b.key_model(),
        !key_present(rows, a.key_model()),
    ensures
        insert_spec(rows, a) == (rows.push(a), Ok::<R, DatabaseError>(a)),
        insert_spec(rows.push(a), b) == (rows.push(a), Err::<R, DatabaseError>(
            DatabaseError::UniqueViolation,
        )),
{
    assert(rows.push(a)[rows.len() as int] == a);
}

} // verus!
