//! Romaji Agent: turns romaji, typo-heavy or unconverted drafts into Japanese text.

// Text.
pub mod text;
pub mod search;
pub mod number;
pub mod json;

// From the draft to the accepted text.
pub mod normalization;
pub mod protocol;
pub mod fallback;
pub mod transform;
pub mod clock;
pub mod records;
pub mod config;
pub mod layout;
pub mod cli;

// The backends.
pub mod prompt;
pub mod response;
pub mod sidecar;
pub mod codex_messages;
pub mod codex_session;

// The sidecars that come with the app.
pub mod options;
pub mod lfm_sidecar;
pub mod lfm_prompt;
pub mod lfm_output;
pub mod apple_sidecar;
