pub mod formatter;
pub mod csv;
pub mod json;
pub mod sql;
