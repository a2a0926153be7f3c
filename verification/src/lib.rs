//! Core of a tokenization sidecar: a length-prefixed message framer, a
//! Unicode-aware text segmenter, a feature-string mapper, the pipeline that
//! turns analyzer output into schema records, and the request dispatcher.
//! The morphological analyzer itself is an external collaborator, reached
//! through a small trusted boundary and treated as a black box.

pub mod segmenter;
pub mod framer;
pub mod feature;
pub mod json;
pub mod dispatcher;
pub mod pipeline;
