//! The errors of a test run. Paths are byte strings.
use vstd::prelude::*;

verus! {

/// `std::io::Error`, carried through as it is.
#[verifier::external_type_specification]
#[verifier::external_body]
pub struct ExIoError(std::io::Error);

/// `reqwest::Error`, carried through as it is.
#[verifier::external_type_specification]
#[verifier::external_body]
pub struct ExReqwestError(reqwest::Error);

/// `zip::result::ZipError`, carried through as it is.
#[verifier::external_type_specification]
#[verifier::external_body]
pub struct ExZipError(zip::result::ZipError);

/// `wavers::WaversError`, carried through as it is.
#[verifier::external_type_specification]
#[verifier::external_body]
pub struct ExWaversError(wavers::WaversError);

/// Why a test run, or reading its results, failed.
pub enum HydrogenError {
    Io(std::io::Error),
    Http(reqwest::Error),
    Zip(zip::result::ZipError),
    Wav(wavers::WaversError),
    PathPrefix { input: Vec<u8>, base: Vec<u8> },
    MissingCallbackF32,
    MissingCallbackF64,
    MissingFileName(Vec<u8>),
    MissingLocalCallback,
    ConflictingLocalCallbacks,
    MissingOctaveCommand,
    MissingOctavePackages(Vec<String>),
    OctaveCommandFailed { context: String, stderr: String },
    InvalidScriptLocation(Vec<u8>),
    MissingGeneratedSampleFiles { sample_dir: Vec<u8>, missing_files: Vec<String> },
    EmptyQualityMetric { path: Vec<u8> },
    InvalidQualityMetric { path: Vec<u8>, value: String },
}

} // verus!
