//! Subtitle-based episode identification.
//!
//! The crate pairs unlabeled subtitle files with known TV episodes. Raw
//! subtitle text is first cleaned by the normalizer in [`normalize`], then the
//! matching engine in [`matching`] scores every (episode, file) pair by
//! Levenshtein edit distance ([`distance`]) and proposes one assignment per
//! file, flagging ambiguity instead of guessing. [`task_queue`] models the
//! FIFO pipeline that lets track extraction overlap with OCR without ever
//! running two OCR jobs at once.

pub mod catalog;
pub mod distance;
pub mod matching;
pub mod normalize;
pub mod subtitles;
pub mod task_queue;
pub mod text;
pub mod tracks;
