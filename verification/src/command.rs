//! The selectable output formats and SQL dialects, as plain data.  Argument
//! parsing lives with the caller; the library only consumes these values.

use vstd::prelude::*;

verus! {

/// A target SQL engine, each with its own idiom for reading back the
/// auto-generated identifier of a just-inserted parent row.
#[derive(Clone, Copy, Debug, PartialEq, Eq, Structural)]
pub enum SqlDialect {
    Postgres,
    Mysql,
    Sqlite,
}

impl Default for SqlDialect {
    /// The dialect used when none is chosen.
    fn default() -> (r: SqlDialect)
        ensures
            r == SqlDialect::Postgres,
    {
        SqlDialect::Postgres
    }
}

impl SqlDialect {
    /// The dialect's command-line name.
    pub open spec fn spec_name(&self) -> Seq<char> {
        match *self {
            SqlDialect::Postgres => "postgres"@,
            SqlDialect::Mysql => "mysql"@,
            SqlDialect::Sqlite => "sqlite"@,
        }
    }

    pub fn name(&self) -> (r: &'static str)
        ensures
            r@ == self.spec_name(),
    {
        match *self {
            SqlDialect::Postgres => "postgres",
            SqlDialect::Mysql => "mysql",
            SqlDialect::Sqlite => "sqlite",
        }
    }
}

/// One export request: the chosen format with its destination path and, for
/// SQL, the dialect and the three table names.
pub enum FormatCommand {
    Csv { output: String },
    Json { output: String },
    Sql {
        output: String,
        dialect: SqlDialect,
        table_department: String,
        table_province: String,
        table_district: String,
    },
}

impl FormatCommand {
    /// The destination path the command names.
    pub fn output_path(&self) -> (r: &String)
        ensures
            r@ == match *self {
                FormatCommand::Csv { output } => output@,
                FormatCommand::Json { output } => output@,
                FormatCommand::Sql { output, .. } => output@,
            },
    {
        match self {
            FormatCommand::Csv { output } => output,
            FormatCommand::Json { output } => output,
            FormatCommand::Sql { output, .. } => output,
        }
    }
}

} // verus!
