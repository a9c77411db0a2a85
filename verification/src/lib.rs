//! Voice-controlled music player core: title normalisation, a searchable
//! library index, fuzzy matching of spoken phrases, and the sample-level
//! playback and capture rules, all stated over mathematical models.

pub mod capture;
pub mod library;
pub mod matcher;
pub mod playback;
pub mod session;
pub mod store;
pub mod text;
