use crate::column::{ColumnConstraint, ColumnV, Table, TableV};
use vstd::prelude::*;
use vstd::string::*;

verus! {

/// One column's line, before indentation and the line ending: the name,
/// the type keyword, and `not null` when the column never held the
/// sentinel.  A nullable column emits no constraint keyword and no
/// trailing space.
pub open spec fn column_line(c: ColumnV) -> Seq<char> {
    let base = c.name + " "@ + c.ctype.keyword();
    if c.constraint == ColumnConstraint::NotNull {
        base + " not null"@
    } else {
        base
    }
}

/// The column lines from index `i` on, each indented and ended: a comma
/// after every column but the last.
pub open spec fn lines_from(cols: Seq<ColumnV>, i: int) -> Seq<char>
    decreases cols.len() - i,
{
    if i < 0 || i >= cols.len() {
        Seq::<char>::empty()
    } else if i == cols.len() - 1 {
        "    "@ + column_line(cols[i]) + "\n"@
    } else {
        "    "@ + column_line(cols[i]) + ",\n"@ + lines_from(cols, i + 1)
    }
}

/// The whole statement: header line, one line per column, closing line.
pub open spec fn render_spec(t: TableV) -> Seq<char> {
    "create table "@ + t.name + " (\n"@ + lines_from(t.columns, 0) + ");\n"@
}

/// Rendering reads nothing but the table's mathematical content, so
/// rendering the same accumulated table twice yields byte-identical
/// text.
pub proof fn lemma_render_deterministic(t1: TableV, t2: TableV, r1: Seq<char>, r2: Seq<char>)
    requires
        t1 == t2,
        r1 == render_spec(t1),
        r2 == render_spec(t2),
    ensures
        r1 == r2,
{
}

impl Table {
    /// Serialize the table description into the textual data-definition
    /// statement.  Pure formatting: every decision was made upstream.
    /// A table always has at least one column.
    pub fn render(&self) -> (out: String)
        requires
            self.columns@.len() >= 1,
        ensures
            out@ == render_spec(self@),
    {
        let mut out = String::new();
        out.append("create table ");
        out.append(self.name.as_str());
        out.append(" (\n");
        let ghost head = "create table "@ + self@.name + " (\n"@;
        proof {
            assert(out@ =~= head);
        }
        let n = self.columns.len();
        let mut i: usize = 0;
        while i < n
            invariant
                0 <= i <= n,
                n == self.columns@.len(),
                render_spec(self@) == out@ + lines_from(self@.columns, i as int) + ");\n"@,
            decreases n - i,
        {
            let ghost before = out@;
            let col = &self.columns[i];
            out.append("    ");
            out.append(col.name.as_str());
            out.append(" ");
            out.append(col.ctype.keyword_str());
            if matches!(col.constraint, ColumnConstraint::NotNull) {
                out.append(" not null");
            }
            if i < n - 1 {
                out.append(",\n");
                proof {
                    assert(self@.columns[i as int] == col@);
                    assert(out@ =~= before + ("    "@ + column_line(self@.columns[i as int])
                        + ",\n"@));
                    assert(before + lines_from(self@.columns, i as int) =~= out@ + lines_from(
                        self@.columns,
                        i + 1,
                    ));
                }
            } else {
                out.append("\n");
                proof {
                    assert(self@.columns[i as int] == col@);
                    assert(out@ =~= before + ("    "@ + column_line(self@.columns[i as int])
                        + "\n"@));
                    assert(lines_from(self@.columns, i + 1) =~= Seq::<char>::empty());
                    assert(before + lines_from(self@.columns, i as int) =~= out@ + lines_from(
                        self@.columns,
                        i + 1,
                    ));
                }
            }
            i = i + 1;
        }
        out.append(");\n");
        proof {
            assert(lines_from(self@.columns, n as int) =~= Seq::<char>::empty());
            assert(out@ =~= render_spec(self@));
        }
        out
    }
}

} // verus!
