//! Where a table keeps its files.

use vstd::prelude::*;
use std::path::PathBuf;

verus! {

/// `std::path::PathBuf`, carried as a value that nothing is known of.
#[verifier::external_type_specification]
#[verifier::external_body]
pub struct ExPathBuf(std::path::PathBuf);

/// The configuration of a table.
pub struct TableConfig {
    /// The folder that holds the table's files.
    pub base_folder: PathBuf,
}

} // verus!
