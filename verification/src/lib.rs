//! A concurrent file-path search library: partitioning a directory tree into
//! independent work items, matching file paths case-insensitively against a
//! query, aggregating matches into a deduplicated, sorted, capped result set,
//! and driving the lifecycle of one in-flight search session.

use vstd::prelude::*;

mod roots;
mod search;
mod session;
mod text;
mod tree;

pub use roots::all_computer_roots;
pub use search::{
    root_work_items, search_files_include, search_post, spec_work_items, matches_in, pick,
    roots_files, root_files, strictly_sorted, views, SearchOutput, lemma_matched_sound,
    lemma_scanned_counts_all, lemma_search_deterministic, lemma_cap_exact,
    lemma_matched_no_duplicates, lemma_work_items_files,
};
pub use session::{
    App, Focus, PollOutcome, RevealDirective, SearchScope, StartDirective, Status, SPINNER_STEPS,
};
pub use text::{path_matches, spec_path_matches, lower_of, trim_of, lex_lt, seq_contains};
pub use tree::{FsTree, tree_files, forest_files};

verus! {

} // verus!
