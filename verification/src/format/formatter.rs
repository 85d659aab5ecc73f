//! The one capability every output format shares: serializing the canonical
//! geography map to text.  The caller writes the text to its destination.

use vstd::prelude::*;
use crate::command::FormatCommand;
use crate::format::csv::CsvFormatter;
use crate::format::csv::csv_text;
use crate::format::json::JsonFormatter;
use crate::format::json::json_text;
use crate::format::sql::SqlFormatter;
use crate::format::sql::sql_text;
use crate::ubigeo::{UbigeoMap, MapV};

verus! {

pub trait Formatter {
    /// The exact text this formatter produces for a given map.
    spec fn spec_output(&self, m: MapV) -> Seq<char>;

    fn format(&self, data: &UbigeoMap) -> (r: String)
        requires
            data.wf(),
        ensures
            r@ == self.spec_output(data@),
    ;
}

/// The text that the chosen command's format produces for the map.
pub open spec fn rendered_text(cmd: FormatCommand, m: MapV) -> Seq<char> {
    match cmd {
        FormatCommand::Csv { output } => csv_text(m),
        FormatCommand::Json { output } => json_text(m),
        FormatCommand::Sql { output, dialect, table_department, table_province, table_district } =>
            sql_text(m, dialect, table_department@, table_province@, table_district@),
    }
}

/// Serializes the map as the command asks; the caller writes the text to the
/// command's destination path.
pub fn render(cmd: &FormatCommand, data: &UbigeoMap) -> (r: String)
    requires
        data.wf(),
    ensures
        r@ == rendered_text(*cmd, data@),
{
    match cmd {
        FormatCommand::Csv { output } => {
            let f = CsvFormatter;
            f.format(data)
        },
        FormatCommand::Json { output } => {
            let f = JsonFormatter;
            f.format(data)
        },
        FormatCommand::Sql { output, dialect, table_department, table_province, table_district } => {
            let f = SqlFormatter {
                dialect: *dialect,
                table_department: table_department.clone(),
                table_province: table_province.clone(),
                table_district: table_district.clone(),
            };
            f.format(data)
        },
    }
}

} // verus!
