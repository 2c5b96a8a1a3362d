//! Cell rendering for a data grid: how one typed value is shown in a table
//! cell, how the cell is edited in place, how edited text is turned back into
//! a value and handed to the owning table, and the container of the table body.

pub mod options;
pub mod digits;
pub mod value;
pub mod decimal;
pub mod markup;
pub mod cell;
pub mod body;
pub mod laws;
