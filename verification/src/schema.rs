use crate::accumulate::{
    accumulate_columns, accumulated_constraint, column_fields, widened_type_of,
};
use crate::column::{Column, ColumnConstraint, ColumnType, ColumnV, Table, TableV};
use crate::names::{get_column_names, get_table_name, resolve_names_spec, table_name_spec};
use crate::render::render_spec;
use crate::{Opt, SchemaError};
use vstd::prelude::*;

verus! {

/// `Unknown` never reaches the output: a column whose every field was
/// empty is declared textual at finalization.
pub open spec fn finalize_type(t: ColumnType) -> ColumnType {
    if t == ColumnType::Unknown {
        ColumnType::Text
    } else {
        t
    }
}

/// What the assembled table must be for the given inputs: the name as
/// handed in, one column per header field, names exactly as the resolver
/// gives them, each type a finalized widening of the column's fields,
/// each constraint the exact accumulated nullability.
pub open spec fn table_ok(
    tv: TableV,
    tname: Seq<char>,
    columns: Option<Seq<char>>,
    no_header: bool,
    null_as: Seq<char>,
    header: Seq<Seq<char>>,
    rows: Seq<Seq<Seq<char>>>,
) -> bool {
    &&& tv.name == tname
    &&& tv.columns.len() == header.len()
    &&& forall|j: int| 0 <= j < rows.len() ==> (#[trigger] rows[j]).len() == header.len()
    &&& resolve_names_spec(columns, no_header, header) == Ok::<Seq<Seq<char>>, SchemaError>(
        tv.columns.map_values(|c: ColumnV| c.name),
    )
    &&& forall|i: int|
        0 <= i < tv.columns.len() ==> (#[trigger] tv.columns[i]).ctype == finalize_type(
            widened_type_of(column_fields(rows, i)),
        )
    &&& forall|i: int|
        0 <= i < tv.columns.len() ==> (#[trigger] tv.columns[i]).constraint
            == accumulated_constraint(column_fields(rows, i), null_as)
}

/// Which failure the run reports, and exactly when: an empty input
/// first; then the name resolver's own error; then a row whose field
/// count disagrees with the column count.
pub open spec fn schema_failure(
    e: SchemaError,
    columns: Option<Seq<char>>,
    no_header: bool,
    header: Seq<Seq<char>>,
    rows: Seq<Seq<Seq<char>>>,
) -> bool {
    if rows.len() == 0 || header.len() == 0 {
        e == SchemaError::EmptyInput
    } else if resolve_names_spec(columns, no_header, header) is Err {
        Err::<Seq<Seq<char>>, SchemaError>(e) == resolve_names_spec(columns, no_header, header)
    } else {
        e == SchemaError::RowArityMismatch && exists|j: int|
            0 <= j < rows.len() && #[trigger] rows[j].len() != header.len()
    }
}

/// Zip resolved names with accumulated types and constraints into the
/// ordered column records.  Upstream validation makes the lengths equal.
pub fn get_columns(
    column_names: Vec<String>,
    column_types: Vec<ColumnType>,
    column_constraints: Vec<ColumnConstraint>,
) -> (r: Vec<Column>)
    requires
        column_names@.len() == column_types@.len(),
        column_names@.len() == column_constraints@.len(),
    ensures
        r@.len() == column_names@.len(),
        forall|i: int|
            0 <= i < r@.len() ==> #[trigger] r@[i]@ == (ColumnV {
                name: column_names.deep_view()[i],
                ctype: column_types@[i],
                constraint: column_constraints@[i],
            }),
{
    let n = column_names.len();
    let mut r: Vec<Column> = Vec::new();
    let mut i: usize = 0;
    while i < n
        invariant
            0 <= i <= n,
            n == column_names@.len(),
            n == column_types@.len(),
            n == column_constraints@.len(),
            r@.len() == i,
            forall|k: int|
                0 <= k < i ==> #[trigger] r@[k]@ == (ColumnV {
                    name: column_names.deep_view()[k],
                    ctype: column_types@[k],
                    constraint: column_constraints@[k],
                }),
        decreases n - i,
    {
        let col = Column {
            name: column_names[i].clone(),
            ctype: column_types[i],
            constraint: column_constraints[i],
        };
        r.push(col);
        i = i + 1;
    }
    r
}

/// Assemble the table for one run: reject an empty input, resolve the
/// column names, fold every row into each column's type and constraint,
/// coerce still-unknown types to text, and zip the results into the
/// ordered table description under the given name.
pub fn build_table(
    columns: Option<&str>,
    no_header: bool,
    null_as: &str,
    table_name: String,
    header: &Vec<String>,
    rows: &Vec<Vec<String>>,
) -> (r: Result<Table, SchemaError>)
    ensures
        match r {
            Ok(t) => rows.deep_view().len() > 0 && header.deep_view().len() > 0 && table_ok(
                t@,
                table_name@,
                columns.deep_view(),
                no_header,
                null_as@,
                header.deep_view(),
                rows.deep_view(),
            ),
            Err(e) => schema_failure(
                e,
                columns.deep_view(),
                no_header,
                header.deep_view(),
                rows.deep_view(),
            ),
        },
{
    if rows.len() == 0 || header.len() == 0 {
        return Err(SchemaError::EmptyInput);
    }
    let names = match get_column_names(columns, no_header, header) {
        Ok(names) => names,
        Err(e) => {
            return Err(e);
        },
    };
    proof {
        assert(names.deep_view().len() == header.deep_view().len());
    }
    let ncols = header.len();
    let (mut tys, cons) = match accumulate_columns(rows, ncols, null_as) {
        Ok(pair) => pair,
        Err(e) => {
            return Err(e);
        },
    };
    let ghost widened = tys@;
    let mut i: usize = 0;
    while i < ncols
        invariant
            0 <= i <= ncols,
            tys@.len() == ncols,
            widened.len() == ncols,
            forall|k: int| 0 <= k < i ==> #[trigger] tys@[k] == finalize_type(widened[k]),
            forall|k: int| i <= k < ncols ==> #[trigger] tys@[k] == widened[k],
        decreases ncols - i,
    {
        if matches!(tys[i], ColumnType::Unknown) {
            tys[i] = ColumnType::Text;
        }
        i = i + 1;
    }
    let cols = get_columns(names, tys, cons);
    let t = Table { name: table_name, columns: cols };
    proof {
        assert(t@.columns.map_values(|c: ColumnV| c.name) =~~= names.deep_view());
        assert(forall|k: int|
            0 <= k < ncols ==> #[trigger] t@.columns[k].ctype == finalize_type(
                widened_type_of(column_fields(rows.deep_view(), k)),
            )) by {
            assert(forall|k: int|
                0 <= k < ncols ==> #[trigger] t@.columns[k].ctype == finalize_type(widened[k])
                    && widened[k] == widened_type_of(column_fields(rows.deep_view(), k)));
        }
    }
    Ok(t)
}

/// The statement text of one run: some assembled table that is right for
/// the inputs, rendered.
pub open spec fn infer_ok(
    out: Seq<char>,
    columns: Option<Seq<char>>,
    no_header: bool,
    null_as: Seq<char>,
    tname: Seq<char>,
    header: Seq<Seq<char>>,
    rows: Seq<Seq<Seq<char>>>,
) -> bool {
    exists|tv: TableV|
        table_ok(tv, tname, columns, no_header, null_as, header, rows) && out
            == #[trigger] render_spec(tv)
}

/// One whole run of the core: resolve the table name, assemble the
/// table, and render the data-definition statement.  The header row
/// carries the detected column count; with headers off it is the first
/// data row, read only for its names or width.
pub fn infer_schema(opt: Opt, header: &Vec<String>, rows: &Vec<Vec<String>>) -> (r: Result<
    String,
    SchemaError,
>)
    ensures
        match r {
            Ok(out) => rows.deep_view().len() > 0 && header.deep_view().len() > 0
                && exists|stem: Option<Seq<char>>|
                infer_ok(
                    out@,
                    opt.columns.deep_view(),
                    opt.no_header,
                    opt.null_as@,
                    #[trigger] table_name_spec(opt.table_name.deep_view(), stem),
                    header.deep_view(),
                    rows.deep_view(),
                ),
            Err(e) => schema_failure(
                e,
                opt.columns.deep_view(),
                opt.no_header,
                header.deep_view(),
                rows.deep_view(),
            ),
        },
{
    let Opt { no_header, delimiter: _, columns, null_as, file, table_name } = opt;
    let cols_arg: Option<&str> = match &columns {
        Some(c) => Some(c.as_str()),
        None => None,
    };
    proof {
        assert(cols_arg.deep_view() == columns.deep_view());
        assert(columns.deep_view() == opt.columns.deep_view());
        assert(table_name.deep_view() == opt.table_name.deep_view());
    }
    let tname = get_table_name(table_name, file);
    let table = match build_table(cols_arg, no_header, null_as.as_str(), tname, header, rows) {
        Ok(t) => t,
        Err(e) => {
            return Err(e);
        },
    };
    let out = table.render();
    proof {
        let stem = choose|stem: Option<Seq<char>>|
            table@.name == #[trigger] table_name_spec(opt.table_name.deep_view(), stem);
        assert(infer_ok(
            out@,
            opt.columns.deep_view(),
            opt.no_header,
            opt.null_as@,
            table_name_spec(opt.table_name.deep_view(), stem),
            header.deep_view(),
            rows.deep_view(),
        )) by {
            assert(table_ok(
                table@,
                table_name_spec(opt.table_name.deep_view(), stem),
                opt.columns.deep_view(),
                opt.no_header,
                opt.null_as@,
                header.deep_view(),
                rows.deep_view(),
            ));
        }
    }
    Ok(out)
}

} // verus!
