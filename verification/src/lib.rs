//! FT8 and FT4 decoding: the verified decisions of a receiver.
//!
//! The library packs and unpacks the 77-bit messages, encodes and checks the
//! (174, 91) code, searches by order statistics, plans the search of a window, keeps
//! stations that were heard, and runs the sessions of a sample stream. Signal
//! processing is floating point and stands around the library; where the library
//! decides on frequencies, times and likelihoods, it reads their bit patterns in
//! single precision.
// Plain data.
pub mod input_laws;
pub mod json;
pub mod quantities;
pub mod record;
pub mod settings_laws;
pub mod single;
pub mod sums;
pub mod text;

// Messages.
pub mod callsign;
pub mod contest_round_trip;
pub mod encode_laws;
pub mod message;
pub mod message_encode;
pub mod message_laws;
pub mod message_tables;
pub mod receive_laws;
pub mod round_trip;
pub mod text_round_trip;
pub mod wire;

// The code and its symbols.
pub mod code_laws;
pub mod context_laws;
pub mod correction_laws;
pub mod fec;
pub mod hybrid;
pub mod osd;
pub mod osd_laws;
pub mod parity_law;
pub mod reliability;
pub mod symbol_laws;
pub mod symbols;
pub mod tables;

// Receiving a window.
pub mod assistance;
pub mod assistance_laws;
pub mod candidate_laws;
pub mod candidates;
pub mod document_laws;
pub mod downsample;
pub mod engine;
pub mod engine_laws;
pub mod fft;
pub mod ft4_search;
pub mod ft8_candidate;
pub mod ft8_list;
pub mod ft8_list_search;
pub mod ft8_search;
pub mod list_choice;
pub mod list_laws;
pub mod schedule_laws;
pub mod search;
pub mod search_laws;

// Streams.
pub mod hypothesis_laws;
pub mod ingress;
pub mod protocol;
pub mod session;
pub mod session_laws;
pub mod stream_laws;
pub mod stream_settings;
pub mod window_laws;
pub mod worker;
pub mod worker_laws;

// Files and the command line.
pub mod attempt_laws;
pub mod audio_input;
pub mod cli;
pub mod cli_laws;
pub mod column_laws;
pub mod commands;
pub mod output;
pub mod output_laws;
pub mod output_options;
pub mod start;
pub mod wav;
pub mod wav_cli;
pub mod wav_laws;
