pub mod sql_types;
