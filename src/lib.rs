//! A streaming audio-to-transcript pipeline: a bounded hand-off queue for
//! captured frames, segmentation of audio, down-mixing to mono, selection of
//! recognition results, a sink that de-duplicates partial hypotheses, scores
//! final ones against a vocabulary and watches for a stop phrase, and the
//! session state machine that decides what the capture loop does next.
pub mod text;
pub mod segmenter;
pub mod recognizer;
pub mod sink;
pub mod session;
pub mod queue;
