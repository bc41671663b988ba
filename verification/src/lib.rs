//! A stand-in for the Whisper engine of PotPlayer, and for whisper.cpp's `main(64).exe`:
//! it hands sound to an OpenAI-compatible server and answers as the engine would.
//!
//! The library decides and computes; reading, sending, writing and waiting belong to the
//! program around it.
pub mod answer;
pub mod args;
pub mod batch;
pub mod bytes;
pub mod config;
pub mod desk;
pub mod frame;
pub mod installer;
pub mod ipc;
pub mod json;
pub mod launch;
pub mod laws;
pub mod multipart;
pub mod number;
pub mod output;
pub mod text;
pub mod wav;
pub mod whisper_client;
