use vstd::prelude::*;

pub mod accumulate;
pub mod classify;
pub mod column;
pub mod names;
pub mod render;
pub mod schema;

verus! {

/// The failures the inference core reports.  Every one of them aborts
/// the run; no partial output is produced.
#[derive(Clone, Copy, Debug, PartialEq, Eq, Structural)]
pub enum SchemaError {
    /// The row source held no data rows, or no fields at all.
    EmptyInput,
    /// The explicit column-name list does not have one name per column.
    ColumnCountMismatch,
    /// A data row's field count disagrees with the column count.
    RowArityMismatch,
    /// Fallback letter names were asked for more columns than letters.
    UnsupportedColumnCount,
}

impl SchemaError {
    /// The message reported for this failure.
    pub open spec fn message_spec(self) -> Seq<char> {
        match self {
            SchemaError::EmptyInput => "csv file has no records."@,
            SchemaError::ColumnCountMismatch => "There is more columns in the file than provided by columns option."@,
            SchemaError::RowArityMismatch => "A row has a different number of fields than the header."@,
            SchemaError::UnsupportedColumnCount => "Default column names support at most 26 columns."@,
        }
    }

    /// A short description of the failure, for reporting it.
    pub fn message(self) -> (r: &'static str)
        ensures
            r@ == self.message_spec(),
    {
        match self {
            SchemaError::EmptyInput => "csv file has no records.",
            SchemaError::ColumnCountMismatch => "There is more columns in the file than provided by columns option.",
            SchemaError::RowArityMismatch => "A row has a different number of fields than the header.",
            SchemaError::UnsupportedColumnCount => "Default column names support at most 26 columns.",
        }
    }
}

/// The validated configuration record handed to the inference core.
/// Argument parsing and option defaults live outside the core; the core
/// only reads these fields.
pub struct Opt {
    pub no_header: bool,
    pub delimiter: char,
    pub columns: Option<String>,
    pub null_as: String,
    pub file: Option<std::path::PathBuf>,
    pub table_name: Option<String>,
}

} // verus!
