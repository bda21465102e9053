//! The two sample packs: 32-bit and 64-bit floating point samples.
use vstd::prelude::*;

verus! {

/// Which floating point width the sample pack and the resampler use.
#[derive(Debug, Clone, Copy, PartialEq, Eq, Structural)]
pub enum FloatVariant {
    F32,
    F64,
}

/// The file name of the zipped sample pack.
pub open spec fn sample_pack_filename_spec(v: FloatVariant) -> Seq<char> {
    match v {
        FloatVariant::F32 => "src-test-32bitfloat.zip"@,
        FloatVariant::F64 => "src-test-64bitfloat.zip"@,
    }
}

/// The directory that the zipped sample pack unpacks into.
pub open spec fn extracted_dir_spec(v: FloatVariant) -> Seq<char> {
    match v {
        FloatVariant::F32 => "32bitfloat"@,
        FloatVariant::F64 => "64bitfloat"@,
    }
}

/// The short label of a variant.
pub open spec fn slug_spec(v: FloatVariant) -> Seq<char> {
    match v {
        FloatVariant::F32 => "f32"@,
        FloatVariant::F64 => "f64"@,
    }
}

/// Where the sample packs are published.
pub const SAMPLE_PACK_BASE_URL: &'static str = "https://src.hydrogenaudio.org/testsamples/";

impl FloatVariant {
    /// The file name of the zipped sample pack.
    pub fn sample_pack_filename(self) -> (s: &'static str)
        ensures
            s@ == sample_pack_filename_spec(self),
    {
        match self {
            FloatVariant::F32 => "src-test-32bitfloat.zip",
            FloatVariant::F64 => "src-test-64bitfloat.zip",
        }
    }

    /// Where the zipped sample pack is downloaded from.
    pub fn sample_pack_url(self) -> (s: &'static str)
        ensures
            s@ == (match self {
                FloatVariant::F32 => "https://src.hydrogenaudio.org/testsamples/src-test-32bitfloat.zip"@,
                FloatVariant::F64 => "https://src.hydrogenaudio.org/testsamples/src-test-64bitfloat.zip"@,
            }),
    {
        match self {
            FloatVariant::F32 => "https://src.hydrogenaudio.org/testsamples/src-test-32bitfloat.zip",
            FloatVariant::F64 => "https://src.hydrogenaudio.org/testsamples/src-test-64bitfloat.zip",
        }
    }

    /// The directory that the sample pack unpacks into.
    pub fn extracted_sample_pack_dir(self) -> (s: &'static str)
        ensures
            s@ == extracted_dir_spec(self),
    {
        match self {
            FloatVariant::F32 => "32bitfloat",
            FloatVariant::F64 => "64bitfloat",
        }
    }

    /// Short label used in output file names.
    pub fn slug(self) -> (s: &'static str)
        ensures
            s@ == slug_spec(self),
    {
        match self {
            FloatVariant::F32 => "f32",
            FloatVariant::F64 => "f64",
        }
    }
}

/// Each sample pack is downloaded from the publishing address followed by its
/// file name, and that file name is `src-test-`, the directory it unpacks
/// into, and `.zip`.
pub proof fn lemma_sample_pack_names(v: FloatVariant)
    ensures
        ({
            let file = match v {
                FloatVariant::F32 => "src-test-32bitfloat.zip"@,
                FloatVariant::F64 => "src-test-64bitfloat.zip"@,
            };
            let url = match v {
                FloatVariant::F32 => "https://src.hydrogenaudio.org/testsamples/src-test-32bitfloat.zip"@,
                FloatVariant::F64 => "https://src.hydrogenaudio.org/testsamples/src-test-64bitfloat.zip"@,
            };
            let dir = match v {
                FloatVariant::F32 => "32bitfloat"@,
                FloatVariant::F64 => "64bitfloat"@,
            };
            &&& url == SAMPLE_PACK_BASE_URL@ + file
            &&& file == "src-test-"@ + dir + ".zip"@
        }),
{
    reveal_strlit("https://src.hydrogenaudio.org/testsamples/");
    reveal_strlit("src-test-");
    reveal_strlit(".zip");
    reveal_strlit("src-test-32bitfloat.zip");
    reveal_strlit("src-test-64bitfloat.zip");
    reveal_strlit("https://src.hydrogenaudio.org/testsamples/src-test-32bitfloat.zip");
    reveal_strlit("https://src.hydrogenaudio.org/testsamples/src-test-64bitfloat.zip");
    reveal_strlit("32bitfloat");
    reveal_strlit("64bitfloat");
    assert("https://src.hydrogenaudio.org/testsamples/src-test-32bitfloat.zip"@ =~= SAMPLE_PACK_BASE_URL@
        + "src-test-32bitfloat.zip"@);
    assert("https://src.hydrogenaudio.org/testsamples/src-test-64bitfloat.zip"@ =~= SAMPLE_PACK_BASE_URL@
        + "src-test-64bitfloat.zip"@);
    assert("src-test-32bitfloat.zip"@ =~= "src-test-"@ + "32bitfloat"@ + ".zip"@);
    assert("src-test-64bitfloat.zip"@ =~= "src-test-"@ + "64bitfloat"@ + ".zip"@);
}

} // verus!
