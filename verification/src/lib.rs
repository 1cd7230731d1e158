//! Core logic of a note-jotting tool: deriving a title from document
//! content, confirming it interactively, turning it into a slug, and
//! picking a collision-free destination filename.

pub mod confirm;
pub mod naming;
pub mod scratchpad;
pub mod slugging;
pub mod title;

pub use confirm::ConfirmStep;
pub use confirm::confirm_step;
pub use confirm::resolve_raw_title;
pub use confirm::resolve_title;
pub use confirm::run_confirm;
pub use naming::candidate_filename;
pub use naming::first_free_candidate;
pub use slugging::choose_destination;
pub use slugging::resolve_destination;
pub use scratchpad::scratch_entry;
pub use scratchpad::scratch_content_after;
pub use title::draft_template;
pub use title::title_from_content;
