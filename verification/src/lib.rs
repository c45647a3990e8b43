//! Review of the changes in a git repository, hunk by hunk: the diff and its
//! layout, the verdicts and comments, how they are carried over when the work
//! tree moves on, the report, and what a connected agent can ask for.
//!
//! The library holds what is decided and computed. Reading a repository, running
//! commands, threads and drawing are the application's: it hands in plain values
//! and carries out what comes back.

use vstd::prelude::*;

pub mod anchor_laws;
pub mod answer_laws;
pub mod browse_laws;
pub mod carry_laws;
pub mod content;
pub mod controls;
pub mod diff;
pub mod diff_laws;
pub mod display;
pub mod goto_laws;
pub mod gotodef;
pub mod highlight;
pub mod mcp;
pub mod mcp_laws;
pub mod nav;
pub mod number;
pub mod numbering_laws;
pub mod order;
pub mod overlay;
pub mod pane;
pub mod patch_laws;
pub mod path;
pub mod reanchor;
pub mod reanchor_laws;
pub mod remote_laws;
pub mod replies_laws;
pub mod repo;
pub mod report;
pub mod report_laws;
pub mod review_state;
pub mod rows;
pub mod rows_laws;
pub mod search;
pub mod seqs;
pub mod session;
pub mod session_laws;
pub mod state_laws;
pub mod text;
pub mod text_laws;
pub mod tree;
pub mod view_laws;

verus! {

} // verus!
