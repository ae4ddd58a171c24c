//! Core data model and rendering logic of a note-block style music editor:
//! MIDI-like project types, pitch arithmetic, the tick scheduler that decides
//! which notes start when, and byte-level helpers for icons and WAV output.
pub mod midi;
pub mod project;
pub mod slots;
pub mod schedule;
pub mod frames;
pub mod wav;
pub mod bitmap;
pub mod bmp_check;
