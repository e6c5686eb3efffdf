use crate::classify::{classify_field, constraint_spec, find_constraint, find_type};
use crate::column::{
    constraint_join, join_all, type_join, type_le, widen_type, ColumnConstraint, ColumnType,
};
use crate::SchemaError;
use vstd::prelude::*;

verus! {

/// The fields of column `i`, read down a sequence of rows.
pub open spec fn column_fields(rows: Seq<Seq<Seq<char>>>, i: int) -> Seq<Seq<char>> {
    rows.map_values(|r: Seq<Seq<char>>| r[i])
}

/// Whether some field of a column differs from the null sentinel.
pub open spec fn has_non_sentinel(fields: Seq<Seq<char>>, null_as: Seq<char>) -> bool {
    exists|j: int| 0 <= j < fields.len() && fields[j] != null_as
}

/// The constraint a column accumulates: `NotNull` the moment any one
/// field differs from the sentinel; `Nullable` only when every field
/// equals it.
pub open spec fn accumulated_constraint(
    fields: Seq<Seq<char>>,
    null_as: Seq<char>,
) -> ColumnConstraint {
    if has_non_sentinel(fields, null_as) {
        ColumnConstraint::NotNull
    } else {
        ColumnConstraint::Nullable
    }
}

/// The type a column accumulates: the join of each field's own
/// classification, folded in order from the pre-observation default.
pub open spec fn widened_type_of(fields: Seq<Seq<char>>) -> ColumnType {
    join_all(fields.map_values(|f: Seq<char>| classify_field(f)))
}

/// The nullability join direction: folding one more field into a
/// column's constraint is the join toward `NotNull` with that field's
/// own constraint — one non-sentinel sighting decides, and only a column
/// of nothing but the sentinel stays `Nullable`.
pub proof fn lemma_accumulated_constraint_push(
    fields: Seq<Seq<char>>,
    f: Seq<char>,
    null_as: Seq<char>,
)
    ensures
        accumulated_constraint(fields.push(f), null_as) == constraint_join(
            accumulated_constraint(fields, null_as),
            constraint_spec(f, null_as),
        ),
{
    if has_non_sentinel(fields, null_as) {
        let j = choose|j: int| 0 <= j < fields.len() && fields[j] != null_as;
        assert(fields.push(f)[j] != null_as);
    }
    if f != null_as {
        assert(fields.push(f)[fields.len() as int] != null_as);
    }
    if has_non_sentinel(fields.push(f), null_as) && !has_non_sentinel(fields, null_as) && f
        == null_as {
        let j = choose|j: int| 0 <= j < fields.push(f).len() && fields.push(f)[j] != null_as;
        if j < fields.len() {
            assert(fields[j] != null_as);
        }
    }
}

/// The type widening direction: folding one more field into a column's
/// type is the join with that field's own classification.
pub proof fn lemma_widened_type_push(fields: Seq<Seq<char>>, f: Seq<char>)
    ensures
        widened_type_of(fields.push(f)) == type_join(widened_type_of(fields), classify_field(f)),
{
    let cf = |f: Seq<char>| classify_field(f);
    assert(fields.push(f).map_values(cf) =~= fields.map_values(cf).push(classify_field(f)));
    assert(fields.map_values(cf).push(classify_field(f)).drop_last() =~= fields.map_values(cf));
}

/// The accumulated type of a column is the maximum, under the widening
/// order, of its fields' individual classifications: it dominates each
/// one, and (for a non-empty column) it is one of them.
pub proof fn lemma_widening_is_max_of_fields(fields: Seq<Seq<char>>)
    ensures
        forall|j: int|
            0 <= j < fields.len() ==> type_le(
                classify_field(#[trigger] fields[j]),
                widened_type_of(fields),
            ),
        fields.len() > 0 ==> exists|j: int|
            0 <= j < fields.len() && widened_type_of(fields) == classify_field(
                #[trigger] fields[j],
            ),
{
    let cf = |f: Seq<char>| classify_field(f);
    let ks = fields.map_values(cf);
    crate::column::lemma_join_all_is_max(ks);
    assert forall|j: int| 0 <= j < fields.len() implies type_le(
        classify_field(#[trigger] fields[j]),
        widened_type_of(fields),
    ) by {
        assert(ks[j] == classify_field(fields[j]));
        assert(type_le(ks[j], join_all(ks)));
    }
    if fields.len() > 0 {
        let j = choose|j: int| 0 <= j < ks.len() && ks[j] == join_all(ks);
        assert(widened_type_of(fields) == classify_field(fields[j]));
    }
}

/// Mapping a function over two sequences with the same multiset of
/// elements yields the same multiset of results.
proof fn lemma_map_values_multiset<A, B>(s1: Seq<A>, s2: Seq<A>, f: spec_fn(A) -> B)
    requires
        s1.to_multiset() == s2.to_multiset(),
    ensures
        s1.map_values(f).to_multiset() == s2.map_values(f).to_multiset(),
    decreases s1.len(),
{
    s1.to_multiset_ensures();
    s2.to_multiset_ensures();
    s1.map_values(f).to_multiset_ensures();
    s2.map_values(f).to_multiset_ensures();
    if s1.len() == 0 {
        assert(s2.len() == 0);
        assert(s1.map_values(f).to_multiset() =~= s2.map_values(f).to_multiset());
    } else {
        let x = s1.last();
        let s1p = s1.drop_last();
        assert(s1 =~= s1p.push(x));
        s1p.to_multiset_ensures();
        assert(s1.to_multiset() =~= s1p.to_multiset().insert(x));
        assert(s2.to_multiset().count(x) > 0);
        assert(s2.contains(x));
        let k = choose|k: int| 0 <= k < s2.len() && s2[k] == x;
        assert(s2.remove(k).to_multiset() =~= s2.to_multiset().remove(x));
        assert(s1p.to_multiset() =~= s2.remove(k).to_multiset());
        lemma_map_values_multiset(s1p, s2.remove(k), f);
        assert(s1.map_values(f) =~= s1p.map_values(f).push(f(x)));
        s1p.map_values(f).to_multiset_ensures();
        assert(s1.map_values(f).to_multiset() =~= s1p.map_values(f).to_multiset().insert(f(x)));
        assert(s2.remove(k).map_values(f) =~= s2.map_values(f).remove(k));
        assert(s2.map_values(f).remove(k).to_multiset() =~= s2.map_values(f).to_multiset().remove(
            f(x),
        ));
        assert(s2.map_values(f).to_multiset().count(f(x)) > 0) by {
            assert(s2.map_values(f)[k] == f(x));
            assert(s2.map_values(f).contains(f(x)));
        }
        assert(s2.map_values(f).to_multiset() =~= s2.map_values(f).to_multiset().remove(
            f(x),
        ).insert(f(x)));
    }
}

/// Accumulating the same multiset of fields, in any row order, yields
/// the same final column type: the widening join is commutative and
/// associative, so only what was observed matters, not when.
pub proof fn lemma_widening_order_independent(f1: Seq<Seq<char>>, f2: Seq<Seq<char>>)
    requires
        f1.to_multiset() == f2.to_multiset(),
    ensures
        widened_type_of(f1) == widened_type_of(f2),
{
    let cf = |f: Seq<char>| classify_field(f);
    lemma_map_values_multiset(f1, f2, cf);
    crate::column::lemma_join_all_order_independent(f1.map_values(cf), f2.map_values(cf));
}

/// One pass over all data rows: widen each column's type and strengthen
/// its constraint from every field.  Fails the moment a row's field
/// count disagrees with the column count.
pub fn accumulate_columns(rows: &Vec<Vec<String>>, ncols: usize, null_as: &str) -> (r: Result<
    (Vec<ColumnType>, Vec<ColumnConstraint>),
    SchemaError,
>)
    ensures
        match r {
            Ok((tys, cons)) => {
                &&& forall|j: int|
                    0 <= j < rows.deep_view().len() ==> #[trigger] rows.deep_view()[j].len()
                        == ncols
                &&& tys@.len() == ncols
                &&& cons@.len() == ncols
                &&& forall|i: int|
                    0 <= i < ncols ==> #[trigger] tys@[i] == widened_type_of(
                        column_fields(rows.deep_view(), i),
                    )
                &&& forall|i: int|
                    0 <= i < ncols ==> #[trigger] cons@[i] == accumulated_constraint(
                        column_fields(rows.deep_view(), i),
                        null_as@,
                    )
            },
            Err(e) => e == SchemaError::RowArityMismatch && exists|j: int|
                0 <= j < rows.deep_view().len() && #[trigger] rows.deep_view()[j].len() != ncols,
        },
{
    let ghost dv = rows.deep_view();
    let nrows = rows.len();
    let mut tys: Vec<ColumnType> = Vec::new();
    let mut cons: Vec<ColumnConstraint> = Vec::new();
    let mut k: usize = 0;
    while k < ncols
        invariant
            0 <= k <= ncols,
            tys@.len() == k,
            cons@.len() == k,
            forall|i: int| 0 <= i < k ==> #[trigger] tys@[i] == ColumnType::Unknown,
            forall|i: int| 0 <= i < k ==> #[trigger] cons@[i] == ColumnConstraint::Nullable,
        decreases ncols - k,
    {
        tys.push(ColumnType::Unknown);
        cons.push(ColumnConstraint::Nullable);
        k = k + 1;
    }
    let mut r: usize = 0;
    while r < nrows
        invariant
            0 <= r <= nrows,
            nrows == dv.len(),
            dv == rows.deep_view(),
            tys@.len() == ncols,
            cons@.len() == ncols,
            forall|j: int| 0 <= j < r ==> #[trigger] dv[j].len() == ncols,
            forall|i: int|
                0 <= i < ncols ==> #[trigger] tys@[i] == widened_type_of(
                    column_fields(dv.take(r as int), i),
                ),
            forall|i: int|
                0 <= i < ncols ==> #[trigger] cons@[i] == accumulated_constraint(
                    column_fields(dv.take(r as int), i),
                    null_as@,
                ),
        decreases nrows - r,
    {
        let row: &Vec<String> = &rows[r];
        proof {
            assert(dv[r as int] == row.deep_view());
        }
        if row.len() != ncols {
            proof {
                assert(dv[r as int].len() != ncols);
            }
            return Err(SchemaError::RowArityMismatch);
        }
        let mut i: usize = 0;
        while i < ncols
            invariant
                0 <= i <= ncols,
                0 <= r < nrows,
                nrows == dv.len(),
                dv == rows.deep_view(),
                dv[r as int] == row.deep_view(),
                row@.len() == ncols,
                tys@.len() == ncols,
                cons@.len() == ncols,
                forall|i2: int|
                    0 <= i2 < i ==> #[trigger] tys@[i2] == widened_type_of(
                        column_fields(dv.take(r + 1), i2),
                    ),
                forall|i2: int|
                    i <= i2 < ncols ==> #[trigger] tys@[i2] == widened_type_of(
                        column_fields(dv.take(r as int), i2),
                    ),
                forall|i2: int|
                    0 <= i2 < i ==> #[trigger] cons@[i2] == accumulated_constraint(
                        column_fields(dv.take(r + 1), i2),
                        null_as@,
                    ),
                forall|i2: int|
                    i <= i2 < ncols ==> #[trigger] cons@[i2] == accumulated_constraint(
                        column_fields(dv.take(r as int), i2),
                        null_as@,
                    ),
            decreases ncols - i,
        {
            let field: &String = &row[i];
            let t = find_type(field.as_str());
            let c = find_constraint(field.as_str(), null_as);
            proof {
                assert(field@ == row.deep_view()[i as int]);
                assert(t == classify_field(dv[r as int][i as int]));
            }
            let widened = widen_type(tys[i], t);
            tys[i] = widened;
            let strengthened = crate::column::strengthen_constraint(cons[i], c);
            cons[i] = strengthened;
            proof {
                assert(column_fields(dv.take(r + 1), i as int) =~= column_fields(
                    dv.take(r as int),
                    i as int,
                ).push(dv[r as int][i as int]));
                lemma_widened_type_push(
                    column_fields(dv.take(r as int), i as int),
                    dv[r as int][i as int],
                );
                lemma_accumulated_constraint_push(
                    column_fields(dv.take(r as int), i as int),
                    dv[r as int][i as int],
                    null_as@,
                );
            }
            i = i + 1;
        }
        r = r + 1;
    }
    proof {
        assert(dv.take(nrows as int) =~= dv);
    }
    Ok((tys, cons))
}

} // verus!
