//! Verified core of a speech-translation engine: text segmentation, translation
//! post-processing and quality checks, tokenizers, WAV framing and the
//! boundary/speaker state machines of the voice-activity pipeline.
pub mod text;
pub mod text_segmentation;
pub mod error;
pub mod translation_quality;
pub mod post_processing;
pub mod paths;
pub mod language_pair;
pub mod json;
pub mod marian_tokenizer;
pub mod trie;
pub mod m2m100_tokenizer;
pub mod tts;
pub mod vad;
pub mod persona;
pub mod performance_logger;
pub mod nmt;
pub mod tables;
pub mod text_processor;
pub mod vits_tokenizer;
pub mod speakers;
pub mod audio;
pub mod models;
pub mod layout;
