//! Offline document OCR helpers: model catalogue, settings, download
//! planning, scan history, speech preparation and export.

pub mod text;
pub mod settings;
pub mod catalog;
pub mod download;
pub mod history;
pub mod tts;
pub mod export;
pub mod markdown;
pub mod kokoro_tts;
pub mod mobile;
pub mod screens;
pub mod vlm;
pub mod playback;
pub mod v6;
