//! A harness that runs a sample-rate converter over the HydrogenAudio test
//! signals: the sample packs, the layout of a work directory, the listing of
//! sound files, the reading of the analysis results, and the command line
//! settings of the two converters that it drives.
pub mod analysis;
pub mod cli;
pub mod error;
pub mod layout;
pub mod listing;
pub mod path;
pub mod text;
pub mod variant;

pub use error::HydrogenError;
pub use variant::FloatVariant;
