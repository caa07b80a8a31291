//! The parts of a scene description that the extraction reads.

pub mod entities_json;
