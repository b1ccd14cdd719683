//! Filters for Subversion (`svn`) command output: status, log, diff, info,
//! blame, add, commit and update, each condensed to what matters.
//!
//! `svn log` and `svn info` are read from their `--xml` form; the other
//! subcommands are filtered line by line with regular expressions. The
//! entry points in `commands` say which `svn` command line to run and which
//! filter its output goes through.

use vstd::prelude::*;

pub mod add;
pub mod blame;
pub mod commands;
pub mod commit;
pub mod diff;
pub mod info;
pub mod laws;
pub mod line_by_line;
pub mod line_laws;
pub mod log;
pub mod pattern;
pub mod status;
pub mod text;
pub mod update;
pub mod xml;

pub use add::filter_add;
pub use blame::filter_blame;
pub use commands::{
    apply_filter, run_add, run_blame, run_commit, run_diff, run_info, run_log, run_other,
    run_status, run_update, SvnAction, SvnError, SvnFilter,
};
pub use commit::filter_commit;
pub use diff::filter_diff;
pub use info::filter_info;
pub use log::filter_log;
pub use status::filter_status;
pub use update::filter_update;
pub use xml::extract_xml_text;

verus! {

} // verus!
