//! A hierarchical name-to-file persistence core for named stream documents.
//!
//! A stream document is a named graph of agents and channels that is kept
//! both in an in-memory registry and as one file on disk. This crate holds
//! the verified logic of that layer: the mapping between logical
//! slash-delimited names and relative file paths, the registry with its
//! uniqueness invariants, the directory-scan bookkeeping, and the
//! save/rename/remove/import decisions. The embedding application performs
//! the actual file reads and writes and hands the results in as plain values.

mod digits;
mod doc;
mod load;
mod name;
mod ops;
mod scan;
mod store;

pub use digits::{
    dec_digits, digit_char, lemma_dec_digits_injective, lemma_dec_digits_len, push_dec_digits,
};
pub use doc::{
    part_ids, parts_at_or_above, parts_below, AgentSpec, ChannelSpec, DocModel, StreamDoc,
    StreamError,
};
pub use load::{lemma_import_isolation, load_accepts, load_width, loaded_doc, parsed_model};
pub use name::{
    agent_stream_path, file_stem, has_json_ext, is_space, is_valid_name, join_name, join_segs,
    json_ext, lemma_join_split, lemma_path_round_trip, lemma_split_len, name_of_path,
    path_of_name, split_name, split_segs, stem_of, trim_left, trim_right, trim_spec, trim_str,
    valid_name,
};
pub use ops::{save_agent_stream, RemovePlan, RenamePlan, SavePlan};
pub use scan::{
    lemma_scan_deterministic, models_of, scan_fits, scan_fold, scan_step, scanned_name, step_fits,
    ScanFile, ScanFileModel, ScanState,
};
pub use store::{
    has_id, has_name, ids_unique, index_of_id, names_unique, remap_ref, EntryModel, StreamEntry,
    StreamStore,
};
