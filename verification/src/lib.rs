//! Core logic of grace, a recorder that transcribes conversations and
//! feeds the transcript to a chat model: recording sessions, audio sample
//! handling, transcript rendering, response classification and the
//! self-update decisions.

pub mod app_state;
pub mod audio;
pub mod resource;
pub mod session;
pub mod transcript;
pub mod update;
