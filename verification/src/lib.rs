//! Interactive editor core for a binary's disassembled functions.
//!
//! The library keeps two parallel, index-aligned representations of every
//! function of a loaded binary — a machine-encoded byte form (hex text) and a
//! human-readable instruction form (mnemonic text) — synchronized while either
//! one is edited, and models the write-back of the byte form into the binary.

mod application;
mod hex;
mod nav;
mod services;

pub use application::Application;
pub use application::Function;
pub use application::apply_patch;
pub use application::asm_resynced;
pub use application::bytes_resynced;
pub use application::filtered_names;
pub use application::find_named;
pub use application::invalid_text;
pub use application::key_applied;
pub use application::lemma_find_named_props;
pub use application::lemma_lossless_verdict_fixpoint;
pub use application::lemma_resync_asm_idempotent;
pub use application::lemma_resync_bytes_idempotent;
pub use application::loaded_cells;
pub use application::loaded_prefix;
pub use application::mode_text;
pub use application::name_matches;
pub use application::patch_bytes;
pub use application::resync_asm;
pub use application::same_cells;
pub use hex::from_hexstring;
pub use hex::hex_decode;
pub use hex::hex_encode;
pub use hex::is_hex_digit;
pub use hex::is_hex_space;
pub use hex::is_lower_hex_digit;
pub use hex::lemma_hex_encode_format;
pub use hex::lemma_hex_round_trip;
pub use hex::to_hexstring;
pub use nav::Key;
pub use nav::Mode;
pub use nav::SelectedColumn;
pub use nav::cursor_dest;
pub use nav::cursor_hop;
pub use nav::edit_ok;
pub use nav::edit_text;
pub use nav::iterate_rows;
pub use nav::lemma_cursor_hop_boundary;
pub use nav::lemma_row_navigation_cycle;
pub use nav::step_row;
pub use nav::wrap_row;
pub use services::cells_bytes;
pub use services::disasm;
pub use services::disasm_of;
pub use services::fuzzy_score_of;
pub use services::pairs_bytes;
