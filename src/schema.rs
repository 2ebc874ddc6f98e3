use vstd::prelude::*;

verus! {

/// A materialised row of some table: it knows its primary key and can be
/// compared on it, copied, and read on its orderable columns.
pub trait Record: Sized {
    /// A fully-specified primary key value, as callers supply it.
    type Key;
    /// The mathematical value of a key; two rows address the same slot when
    /// their key models are equal.
    type KeyModel;
    /// The columns that results can be ordered by.
    type Column;

    spec fn key_model(&self) -> Self::KeyModel;

    spec fn model_of_key(k: Self::Key) -> Self::KeyModel;

    spec fn spec_order_value(&self, col: Self::Column) -> int;

    fn has_key(&self, k: &Self::Key) -> (r: bool)
        ensures
            r == (self.key_model() == Self::model_of_key(*k)),
    ;

    fn same_key(&self, other: &Self) -> (r: bool)
        ensures
            r == (self.key_model() == other.key_model()),
    ;

    fn duplicate(&self) -> (r: Self)
        ensures
            r == *self,
    ;

    fn order_value(&self, col: &Self::Column) -> (v: i64)
        ensures
            v as int == self.spec_order_value(*col),
    ;
}

/// The data of a row to be created.
pub trait Insertable<R: Record>: Sized {
    spec fn spec_into_record(self) -> R;

    fn into_record(self) -> (r: R)
        ensures
            r == self.spec_into_record(),
    ;
}

/// A partial update: a set of columns with new values, possibly empty.
pub trait Changeset<R: Record>: Sized {
    spec fn spec_is_empty(&self) -> bool;

    /// The row after the update's columns are written onto `r`.
    spec fn spec_apply(&self, r: R) -> R;

    /// An update never moves a row to another primary key.
    proof fn lemma_apply_keeps_key(&self, r: R)
        ensures
            self.spec_apply(r).key_model() == r.key_model(),
    ;

    fn is_empty(&self) -> (b: bool)
        ensures
            b == self.spec_is_empty(),
    ;

    fn apply(&self, r: &R) -> (out: R)
        ensures
            out == self.spec_apply(*r),
    ;
}

/// A boolean expression over the columns of a row.
pub trait Predicate<R>: Sized {
    spec fn holds(&self, r: R) -> bool;

    fn test(&self, r: &R) -> (b: bool)
        ensures
            b == self.holds(*r),
    ;
}

/// Direction of an ordering.
#[derive(Debug, Clone, Copy, PartialEq, Eq)]
pub enum Direction {
    Ascending,
    Descending,
}

/// An ordering of results by one column, in an explicit direction.
#[derive(Debug, Clone, Copy, PartialEq, Eq)]
pub struct Order<C> {
    pub column: C,
    pub direction: Direction,
}

/// Whether value `a` may stand before value `b` under direction `d`.
pub open spec fn in_order(a: int, b: int, d: Direction) -> bool {
    match d {
        Direction::Ascending => a <= b,
        Direction::Descending => a >= b,
    }
}

/// `s` is monotone on the order's column, in the order's direction.
pub open spec fn sorted_by<R: Record>(s: Seq<R>, o: Order<R::Column>) -> bool {
    forall|i: int, j: int|
        0 <= i < j < s.len() ==> in_order(
            #[trigger] s[i].spec_order_value(o.column),
            #[trigger] s[j].spec_order_value(o.column),
            o.direction,
        )
}

/// Whether a row passes an optional predicate; an absent predicate passes all.
pub open spec fn admits<R, P: Predicate<R>>(p: Option<P>, r: R) -> bool {
    match p {
        Some(q) => q.holds(r),
        None => true,
    }
}

/// First index of the window that `offset` leaves over `n` rows.
pub open spec fn window_start(n: int, offset: Option<usize>) -> int {
    match offset {
        Some(off) => if off < n { off as int } else { n },
        None => 0,
    }
}

/// One past the last index of the window over `n` rows.
pub open spec fn window_end(n: int, limit: Option<usize>, offset: Option<usize>) -> int {
    let start = window_start(n, offset);
    match limit {
        Some(lim) => if start + lim < n { start + lim } else { n },
        None => n,
    }
}

/// The part of `s` that a pagination window keeps: `offset` rows are
/// skipped, then at most `limit` rows are kept.
pub open spec fn window<T>(s: Seq<T>, limit: Option<usize>, offset: Option<usize>) -> Seq<T> {
    s.subrange(window_start(s.len() as int, offset), window_end(s.len() as int, limit, offset))
}

} // verus!
