//! The decision and text-processing core of Potabot, a Discord bot that plays
//! music in voice channels and answers mentions through a local language model.

pub mod text;
pub mod response;
pub mod mentions;
pub mod prompt;
pub mod voice;
pub mod playback;
pub mod commands;
pub mod events;
