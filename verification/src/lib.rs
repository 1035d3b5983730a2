//! Verified core of the Odoo lint rules.
pub mod ast;
pub mod classes;
pub mod deprecated;
pub mod manifest;
pub mod path;
pub mod removal;
pub mod text;
pub mod tokens;
pub mod version;
pub mod wrap;
