//! A cancellable directory-tree scan engine.
//!
//! The library holds the pure core of a filesystem scanner: the result
//! data model, the scan options, the name filter, the sibling sort, and
//! the traversal state machine. The caller performs the actual directory
//! reads and hands the listings to the state machine, which decides what
//! is reported, what is descended into, and when the walk ends.

mod channel;
mod entries;
mod filter;
mod laws;
mod options;
mod order;
mod walker;

pub use channel::drain_into;
pub use channel::send_all;
pub use entries::DirEntry;
pub use entries::DirEntryExt;
pub use entries::ErrorsType;
pub use entries::ItemModel;
pub use entries::Metadata;
pub use entries::ReturnType;
pub use entries::ScandirResult;
pub use entries::ScandirResults;
pub use entries::item_model;
pub use entries::items_models;
pub use entries::make_entry;
pub use entries::meta_base_of;
pub use entries::meta_zero;
pub use filter::filter_entry;
pub use filter::lemma_descend_implies_report;
pub use filter::spec_allowed;
pub use filter::spec_descend;
pub use filter::spec_fold;
pub use filter::spec_fold_byte;
pub use filter::spec_glob;
pub use filter::spec_glob_ci;
pub use filter::spec_hidden;
pub use filter::spec_matches_any;
pub use filter::spec_report;
pub use laws::items_sorted;
pub use laws::lemma_child_path_order;
pub use laws::lemma_depth_cutoff;
pub use laws::lemma_finished_iff_positive_duration;
pub use laws::lemma_name_bytes_concat;
pub use laws::lemma_process_emits_sorted;
pub use laws::lemma_report_within_budget;
pub use laws::lemma_reported_within_limit;
pub use laws::lemma_scan_deterministic;
pub use laws::lemma_schedule_within_depth;
pub use laws::lemma_sorted_scan_ordered;
pub use laws::lemma_stop_quiesces;
pub use options::Options;
pub use options::OptionsModel;
pub use options::name_bytes;
pub use options::opt_pattern_views;
pub use options::pattern_views;
pub use order::lemma_lex_le_prepend;
pub use order::lemma_lex_le_refl;
pub use order::lemma_lex_le_total;
pub use order::lemma_lex_le_trans;
pub use order::lex_le;
pub use order::lex_le_bytes;
pub use walker::Child;
pub use walker::ChildModel;
pub use walker::StepModel;
pub use walker::Walker;
pub use walker::child_model;
pub use walker::child_path;
pub use walker::children_sorted;
pub use walker::join_path;
pub use walker::lemma_insert_permutes;
pub use walker::lemma_insert_sorted;
pub use walker::lemma_sort_permutes;
pub use walker::lemma_sort_sorted;
pub use walker::pend_model;
pub use walker::pending_models;
pub use walker::sort_children;
pub use walker::spec_insert;
pub use walker::spec_process;
pub use walker::spec_sort;
pub use walker::step_empty;
