pub mod command;
pub mod data;
pub mod format;
pub mod processor;
pub mod text;
pub mod ubigeo;
