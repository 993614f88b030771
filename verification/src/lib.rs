//! A flashcard-authoring library: an in-memory draft state machine for
//! building multiple-choice flashcards, and an append-only collection
//! store serialized as a JSON document.

pub mod text;
pub mod card;
pub mod draft;
pub mod codec;
pub mod store;
