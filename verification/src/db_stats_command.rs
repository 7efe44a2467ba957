//! The `db-stats` console command: report database table statistics.
//!
//! The report itself is assembled next to the database handle, outside this
//! crate; the command takes no arguments, so only their (empty) shape is
//! defined here.

use vstd::prelude::*;

verus! {

/// Arguments of the `db-stats` command; it takes none.
#[derive(Debug, Clone)]
pub struct Args {}

} // verus!
