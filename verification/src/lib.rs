//! A response-materialization engine: it takes the free-form text (markdown
//! with code fences) that a generative model produces, extracts a set of
//! (path, content) pairs from it, sanitizes and completes each path, and
//! plans the files to write; and it folds the outcomes of structured actions
//! (create folder, create file, run command) into feedback records, serialized
//! for the next turn. All extraction, sanitization, planning and feedback
//! logic is verified; the thin I/O shell around it (network, filesystem,
//! process spawning) lives outside the library and hands it plain values.

pub mod actions;
pub mod errors;
pub mod extract;
pub mod feedback;
pub mod infer;
pub mod lines;
pub mod paths;
pub mod response;
pub mod text;
