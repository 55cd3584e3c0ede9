//! Disk-usage statistics for the extracted sources of a package cache:
//! entry identities, run-length aggregation, ranking and table rendering.

pub mod naming;
pub mod probe;
pub mod rank;
pub mod report;
pub mod stats;
pub mod table;

pub use naming::identity_of;
pub use probe::measure_total;
pub use rank::rank;
pub use report::{reg_src_list_to_string, registry_source_stats};
pub use stats::{stats_from_file_desc_list, FileDesc, RgSrcInfo};
pub use table::format_table;
