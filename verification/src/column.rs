use vstd::prelude::*;

verus! {

/// The lattice of inferred column types, from least to most general.
/// A column's type is only ever widened: it moves up this order and
/// never back down.
#[derive(Clone, Copy, Debug, PartialEq, Eq, Structural)]
pub enum ColumnType {
    Unknown,
    Boolean,
    Integer,
    Numeric,
    Date,
    Timestamp,
    Text,
}

/// Whether a column may hold the null sentinel.  `Nullable` is the
/// starting point; one sighting of a non-sentinel value strengthens the
/// column to `NotNull` for good.
#[derive(Clone, Copy, Debug, PartialEq, Eq, Structural)]
pub enum ColumnConstraint {
    Nullable,
    NotNull,
}

impl ColumnType {
    /// The explicit rank that drives widening: the accumulated type of a
    /// column is the maximum rank seen among its values.
    pub open spec fn rank(self) -> int {
        match self {
            ColumnType::Unknown => 0,
            ColumnType::Boolean => 1,
            ColumnType::Integer => 2,
            ColumnType::Numeric => 3,
            ColumnType::Date => 4,
            ColumnType::Timestamp => 5,
            ColumnType::Text => 6,
        }
    }

    /// The keyword this type renders as in the emitted statement.
    pub open spec fn keyword(self) -> Seq<char> {
        match self {
            ColumnType::Unknown => "unknown"@,
            ColumnType::Boolean => "boolean"@,
            ColumnType::Integer => "integer"@,
            ColumnType::Numeric => "numeric"@,
            ColumnType::Date => "date"@,
            ColumnType::Timestamp => "timestamp"@,
            ColumnType::Text => "text"@,
        }
    }

    /// The rank as a machine integer, for comparing two types at run time.
    pub fn rank_value(self) -> (r: u8)
        ensures
            r as int == self.rank(),
    {
        match self {
            ColumnType::Unknown => 0,
            ColumnType::Boolean => 1,
            ColumnType::Integer => 2,
            ColumnType::Numeric => 3,
            ColumnType::Date => 4,
            ColumnType::Timestamp => 5,
            ColumnType::Text => 6,
        }
    }

    /// The rendered keyword of this type.
    pub fn keyword_str(self) -> (r: &'static str)
        ensures
            r@ == self.keyword(),
    {
        match self {
            ColumnType::Unknown => "unknown",
            ColumnType::Boolean => "boolean",
            ColumnType::Integer => "integer",
            ColumnType::Numeric => "numeric",
            ColumnType::Date => "date",
            ColumnType::Timestamp => "timestamp",
            ColumnType::Text => "text",
        }
    }
}

/// The widening order on column types.
pub open spec fn type_le(a: ColumnType, b: ColumnType) -> bool {
    a.rank() <= b.rank()
}

/// The join of the widening lattice: the more general of the two types.
pub open spec fn type_join(a: ColumnType, b: ColumnType) -> ColumnType {
    if b.rank() > a.rank() {
        b
    } else {
        a
    }
}

/// The join of a whole sequence of observed types, folded in order,
/// starting from the pre-observation default `Unknown`.
pub open spec fn join_all(ks: Seq<ColumnType>) -> ColumnType
    decreases ks.len(),
{
    if ks.len() == 0 {
        ColumnType::Unknown
    } else {
        type_join(join_all(ks.drop_last()), ks.last())
    }
}

/// Widen `a` by `b`: the run-time counterpart of `type_join`.
pub fn widen_type(a: ColumnType, b: ColumnType) -> (r: ColumnType)
    ensures
        r == type_join(a, b),
{
    if b.rank_value() > a.rank_value() {
        b
    } else {
        a
    }
}

/// The strengthening order on constraints: `Nullable` below `NotNull`.
pub open spec fn constraint_le(a: ColumnConstraint, b: ColumnConstraint) -> bool {
    a == ColumnConstraint::Nullable || b == ColumnConstraint::NotNull
}

/// The join toward `NotNull`: one non-sentinel sighting wins for good.
pub open spec fn constraint_join(a: ColumnConstraint, b: ColumnConstraint) -> ColumnConstraint {
    if b == ColumnConstraint::NotNull {
        ColumnConstraint::NotNull
    } else {
        a
    }
}

/// Strengthen `a` by `b`: the run-time counterpart of `constraint_join`.
pub fn strengthen_constraint(a: ColumnConstraint, b: ColumnConstraint) -> (r: ColumnConstraint)
    ensures
        r == constraint_join(a, b),
{
    match b {
        ColumnConstraint::NotNull => ColumnConstraint::NotNull,
        ColumnConstraint::Nullable => a,
    }
}

/// Two distinct types never share a rank, so the join picks a definite one.
pub proof fn lemma_rank_injective(a: ColumnType, b: ColumnType)
    ensures
        a.rank() == b.rank() ==> a == b,
{
}

/// The type join is commutative: widening by `a` then `b` lands where
/// widening by `b` then `a` does.
pub proof fn lemma_join_commutative(a: ColumnType, b: ColumnType)
    ensures
        type_join(a, b) == type_join(b, a),
{
    lemma_rank_injective(a, b);
}

/// The type join is associative.
pub proof fn lemma_join_associative(a: ColumnType, b: ColumnType, c: ColumnType)
    ensures
        type_join(type_join(a, b), c) == type_join(a, type_join(b, c)),
{
}

/// The accumulated type of a column is the maximum of the individually
/// classified types: it dominates every observed type, and (unless no
/// type was observed) it is one of them.
pub proof fn lemma_join_all_is_max(ks: Seq<ColumnType>)
    ensures
        forall|i: int| 0 <= i < ks.len() ==> type_le(#[trigger] ks[i], join_all(ks)),
        ks.len() > 0 ==> ks.contains(join_all(ks)),
    decreases ks.len(),
{
    if ks.len() > 0 {
        lemma_join_all_is_max(ks.drop_last());
        if ks.len() > 1 || join_all(ks) != ks.last() {
            assert(join_all(ks.drop_last()) == join_all(ks) ==> ks.drop_last().contains(
                join_all(ks),
            ) ==> ks.contains(join_all(ks))) by {
                if ks.drop_last().contains(join_all(ks)) {
                    let i = choose|i: int|
                        0 <= i < ks.drop_last().len() && ks.drop_last()[i] == join_all(ks);
                    assert(ks[i] == join_all(ks));
                }
            }
        }
        assert(forall|i: int|
            0 <= i < ks.len() - 1 ==> #[trigger] ks[i] == ks.drop_last()[i]);
    }
}

/// Accumulating the same observed types in any order yields the same
/// final type: the fold is order-independent.
pub proof fn lemma_join_all_order_independent(ks1: Seq<ColumnType>, ks2: Seq<ColumnType>)
    requires
        ks1.to_multiset() == ks2.to_multiset(),
    ensures
        join_all(ks1) == join_all(ks2),
{
    ks1.to_multiset_ensures();
    ks2.to_multiset_ensures();
    lemma_join_all_is_max(ks1);
    lemma_join_all_is_max(ks2);
    if ks1.len() == 0 {
        assert(ks2.len() == 0);
    } else {
        assert(ks2.len() > 0);
        let j1 = join_all(ks1);
        let j2 = join_all(ks2);
        assert(ks1.to_multiset().count(j1) > 0);
        assert(ks2.contains(j1));
        assert(ks2.to_multiset().count(j2) > 0);
        assert(ks1.contains(j2));
        let i1 = choose|i: int| 0 <= i < ks1.len() && ks1[i] == j2;
        let i2 = choose|i: int| 0 <= i < ks2.len() && ks2[i] == j1;
        assert(type_le(j2, j1));
        assert(type_le(j1, j2));
        lemma_rank_injective(j1, j2);
    }
}

/// One column of the assembled table: a resolved name, the widened type,
/// and the accumulated constraint.
pub struct Column {
    pub name: String,
    pub ctype: ColumnType,
    pub constraint: ColumnConstraint,
}

/// The mathematical image of a `Column`.
pub ghost struct ColumnV {
    pub name: Seq<char>,
    pub ctype: ColumnType,
    pub constraint: ColumnConstraint,
}

impl View for Column {
    type V = ColumnV;

    open spec fn view(&self) -> ColumnV {
        ColumnV { name: self.name@, ctype: self.ctype, constraint: self.constraint }
    }
}

/// The assembled table description: a name and its ordered columns.
/// A well-formed table has at least one column.
pub struct Table {
    pub name: String,
    pub columns: Vec<Column>,
}

/// The mathematical image of a `Table`.
pub ghost struct TableV {
    pub name: Seq<char>,
    pub columns: Seq<ColumnV>,
}

impl View for Table {
    type V = TableV;

    open spec fn view(&self) -> TableV {
        TableV { name: self.name@, columns: self.columns@.map_values(|c: Column| c@) }
    }
}

} // verus!
