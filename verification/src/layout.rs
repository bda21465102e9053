//! Where a test run keeps its files: the work directory of a run whose
//! results are uploaded, and the workspace and script directory of a run that
//! is analysed on this machine. Every path is made absolute against the
//! working directory `cwd` that the caller reads.
use vstd::prelude::*;
use vstd::string::StringSliceAdditionalSpecFns;
use vstd::utf8::encode_utf8;

use crate::error::HydrogenError;
use crate::path::{absolutize, absolutize_spec, join, join_spec, push_all};
use crate::variant::{extracted_dir_spec, sample_pack_filename_spec, slug_spec, FloatVariant};

verus! {

/// The sample rate that every converted file is written at.
pub const TARGET_OUTPUT_SAMPLE_RATE: usize = 44_100;

/// Subdirectory of the work directory that receives the converted files.
pub const OUTPUT_SUBDIR: &'static str = "output";

/// Subdirectory of the workspace that receives the generated test signals.
pub const DEFAULT_SAMPLE_SUBDIR: &'static str = "local_test_generated_samples";

/// Subdirectory of the workspace that receives the converted files.
pub const DEFAULT_OUTPUT_SUBDIR: &'static str = "local_test_output";

/// Subdirectory of the workspace that receives the analysis results.
pub const DEFAULT_ANALYSIS_OUTPUT_SUBDIR: &'static str = "analysis_output";

/// Spectrogram of the reference conversion, copied next to the outputs.
pub const REFERENCE_SPECTROGRAM_PNG: &'static str = "sweep-1-to-44KHz-1to11secHighRES-REF.png";

/// Subdirectory of the script directory that holds the signal generators.
pub const GENERATOR_SUBDIR: &'static str = "TestSignals96KHzto44KHz";

/// The impulse reference that the analysis needs, and the archive it comes in.
pub const INTERNAL_IMPULSE_REFERENCE_WAV: &'static str = "impulse-64bitfloat-InternalUse.wav";

pub const INTERNAL_IMPULSE_REFERENCE_ZIP: &'static str = "impulse-64bitfloat-InternalUse.zip";

/// The signal generator scripts, in the order they run.
pub const GENERATION_SCRIPTS: [&'static str; 6] = [
    "GEN_aliasing150db.m",
    "GEN_bitdepthtest.m",
    "GEN_gaplesstest.m",
    "GEN_impulse_96KHz.m",
    "GEN_intermodulation_60Hz_and_7kHz.m",
    "GEN_sweep_1_to_48KHz_96KHz.m",
];

/// The analysis scripts, in the order they run.
pub const ANALYSIS_SCRIPTS: [&'static str; 6] = [
    "aliasing150db.m",
    "bit_depth_test.m",
    "gaplesstest.m",
    "impulse.m",
    "intermodulation_harmonic_distortion.m",
    "spectogram_sweep_1_to_44kHz_96kHz_srcto_44kHz.m",
];

/// The UTF-8 bytes of a text.
pub open spec fn utf8(s: Seq<char>) -> Seq<u8> {
    encode_utf8(s)
}

/// Each script of a list, joined onto a directory.
pub open spec fn script_paths_spec(dir: Seq<u8>, names: Seq<&'static str>) -> Seq<Seq<u8>> {
    Seq::new(names.len(), |i: int| join_spec(dir, names[i].spec_bytes()))
}

/// The byte strings of a sequence of vectors.
pub open spec fn path_views(s: Seq<Vec<u8>>) -> Seq<Seq<u8>> {
    s.map_values(|v: Vec<u8>| v@)
}

/// The file name of the zip archive of a run: the output prefix, a dash, the
/// variant's label and `.zip`.
pub open spec fn output_zip_name_spec(basename: Seq<u8>, v: FloatVariant) -> Seq<u8> {
    basename + utf8("-"@) + utf8(slug_spec(v)) + utf8(".zip"@)
}

/// The analysis directory of a workspace.
pub open spec fn analysis_dir_spec(workspace: Seq<u8>, cwd: Seq<u8>) -> Seq<u8> {
    join_spec(absolutize_spec(workspace, cwd), DEFAULT_ANALYSIS_OUTPUT_SUBDIR.spec_bytes())
}

/// The directory of the signal generators under a script directory.
pub open spec fn generator_dir_spec(script_dir: Seq<u8>) -> Seq<u8> {
    join_spec(script_dir, GENERATOR_SUBDIR.spec_bytes())
}

/// The paths of each script of `names` under `dir`, in order.
fn script_paths(dir: &[u8], names: &[&'static str]) -> (r: Vec<Vec<u8>>)
    ensures
        path_views(r@) == script_paths_spec(dir@, names@),
        r@.len() == names@.len(),
        forall|i: int| 0 <= i < r@.len() ==> #[trigger] r@[i]@ == join_spec(dir@, names@[i].spec_bytes()),
{
    let mut r: Vec<Vec<u8>> = Vec::new();
    let mut i: usize = 0;
    while i < names.len()
        invariant
            i <= names@.len(),
            r@.len() == i,
            path_views(r@) == script_paths_spec(dir@, names@.subrange(0, i as int)),
        decreases names@.len() - i,
    {
        let name: &'static str = names[i];
        let p = join(dir, name.as_bytes());
        assert(p@ == join_spec(dir@, names@[i as int].spec_bytes()));
        let ghost old_r = r@;
        let ghost before = path_views(r@);
        r.push(p);
        assert(r@ == old_r.push(p));
        assert forall|k: int| 0 <= k < i + 1 implies #[trigger] path_views(r@)[k] == script_paths_spec(
            dir@,
            names@.subrange(0, i + 1),
        )[k] by {
            assert(path_views(r@)[k] == r@[k]@);
            if k < i {
                assert(r@[k] == old_r[k]);
                assert(before[k] == old_r[k]@);
                assert(script_paths_spec(dir@, names@.subrange(0, i as int))[k] == before[k]);
            }
        }
        assert(path_views(r@) =~= script_paths_spec(dir@, names@.subrange(0, i + 1)));
        i = i + 1;
    }
    assert(names@.subrange(0, names@.len() as int) =~= names@);
    assert forall|i: int| 0 <= i < r@.len() implies #[trigger] r@[i]@ == join_spec(dir@, names@[i].spec_bytes()) by {
        assert(path_views(r@)[i] == r@[i]@);
    }
    r
}

/// The analysis directory of a workspace, made absolute: where the analysis
/// of a local run leaves its results.
pub fn analysis_dir_for_workspace(workspace: &[u8], cwd: &[u8]) -> (r: Vec<u8>)
    ensures
        r@ == analysis_dir_spec(workspace@, cwd@),
{
    let ws = absolutize(workspace, cwd);
    join(ws.as_slice(), DEFAULT_ANALYSIS_OUTPUT_SUBDIR.as_bytes())
}

/// The directory of the signal generators under a script directory.
pub fn generator_dir(script_dir: &[u8]) -> (r: Vec<u8>)
    ensures
        r@ == generator_dir_spec(script_dir@),
{
    join(script_dir, GENERATOR_SUBDIR.as_bytes())
}

/// The settings of a run whose converted files are zipped for upload.
pub struct HydrogenConfig {
    pub work_dir: Vec<u8>,
    pub float_variant: FloatVariant,
    pub output_zip_basename: Vec<u8>,
}

impl HydrogenConfig {
    /// A run in `work_dir` over the sample pack of `float_variant`, whose
    /// archive is named after `output_prefix`.
    pub fn new(work_dir: Vec<u8>, float_variant: FloatVariant, output_prefix: &str) -> (r: Self)
        ensures
            r.work_dir@ == work_dir@,
            r.float_variant == float_variant,
            r.output_zip_basename@ == output_prefix.spec_bytes(),
    {
        let mut basename: Vec<u8> = Vec::new();
        push_all(&mut basename, output_prefix.as_bytes());
        assert(basename@ =~= output_prefix.spec_bytes());
        HydrogenConfig { work_dir, float_variant, output_zip_basename: basename }
    }

    /// The work directory, made absolute.
    pub fn absolute_work_dir(&self, cwd: &[u8]) -> (r: Vec<u8>)
        ensures
            r@ == absolutize_spec(self.work_dir@, cwd@),
    {
        absolutize(self.work_dir.as_slice(), cwd)
    }

    /// Where the zipped sample pack is kept.
    pub fn sample_pack_path(&self, cwd: &[u8]) -> (r: Vec<u8>)
        ensures
            r@ == join_spec(
                absolutize_spec(self.work_dir@, cwd@),
                utf8(sample_pack_filename_spec(self.float_variant)),
            ),
    {
        let dir = self.absolute_work_dir(cwd);
        join(dir.as_slice(), self.float_variant.sample_pack_filename().as_bytes())
    }

    /// Where the sample pack is unpacked.
    pub fn sample_pack_dir(&self, cwd: &[u8]) -> (r: Vec<u8>)
        ensures
            r@ == join_spec(
                absolutize_spec(self.work_dir@, cwd@),
                utf8(extracted_dir_spec(self.float_variant)),
            ),
    {
        let dir = self.absolute_work_dir(cwd);
        join(dir.as_slice(), self.float_variant.extracted_sample_pack_dir().as_bytes())
    }

    /// Where the converted files are written.
    pub fn output_dir(&self, cwd: &[u8]) -> (r: Vec<u8>)
        ensures
            r@ == join_spec(absolutize_spec(self.work_dir@, cwd@), OUTPUT_SUBDIR.spec_bytes()),
    {
        let dir = self.absolute_work_dir(cwd);
        join(dir.as_slice(), OUTPUT_SUBDIR.as_bytes())
    }

    /// The file name of the archive of converted files.
    pub fn output_zip_name(&self) -> (r: Vec<u8>)
        ensures
            r@ == output_zip_name_spec(self.output_zip_basename@, self.float_variant),
            r@ == self.output_zip_basename@ + zip_name_tail(self.float_variant),
    {
        let mut r: Vec<u8> = Vec::new();
        push_all(&mut r, self.output_zip_basename.as_slice());
        push_all(&mut r, "-".as_bytes());
        push_all(&mut r, self.float_variant.slug().as_bytes());
        push_all(&mut r, ".zip".as_bytes());
        proof {
            lemma_zip_name_shape(self.output_zip_basename@, self.float_variant);
        }
        r
    }

    /// Where the archive of converted files is written.
    pub fn output_zip_path(&self, cwd: &[u8]) -> (r: Vec<u8>)
        ensures
            r@ == join_spec(
                absolutize_spec(self.work_dir@, cwd@),
                output_zip_name_spec(self.output_zip_basename@, self.float_variant),
            ),
    {
        let dir = self.absolute_work_dir(cwd);
        let name = self.output_zip_name();
        join(dir.as_slice(), name.as_slice())
    }

    /// The archive's path as the user gave the work directory, for reporting.
    pub fn reported_output_zip_path(&self) -> (r: Vec<u8>)
        ensures
            r@ == join_spec(
                self.work_dir@,
                output_zip_name_spec(self.output_zip_basename@, self.float_variant),
            ),
    {
        let name = self.output_zip_name();
        join(self.work_dir.as_slice(), name.as_slice())
    }

    /// A run needs the converter of its own variant.
    pub fn require_callback(&self, has_f32: bool, has_f64: bool) -> (r: Result<(), HydrogenError>)
        ensures
            match self.float_variant {
                FloatVariant::F32 => if has_f32 {
                    r is Ok
                } else {
                    r matches Err(HydrogenError::MissingCallbackF32)
                },
                FloatVariant::F64 => if has_f64 {
                    r is Ok
                } else {
                    r matches Err(HydrogenError::MissingCallbackF64)
                },
            },
    {
        match self.float_variant {
            FloatVariant::F32 => if has_f32 {
                Ok(())
            } else {
                Err(HydrogenError::MissingCallbackF32)
            },
            FloatVariant::F64 => if has_f64 {
                Ok(())
            } else {
                Err(HydrogenError::MissingCallbackF64)
            },
        }
    }
}

/// Which converter a local run uses: exactly one of the two must be set.
pub fn choose_local_callback(has_f32: bool, has_f64: bool) -> (r: Result<
    FloatVariant,
    HydrogenError,
>)
    ensures
        has_f32 && has_f64 ==> r matches Err(HydrogenError::ConflictingLocalCallbacks),
        !has_f32 && !has_f64 ==> r matches Err(HydrogenError::MissingLocalCallback),
        has_f32 && !has_f64 ==> r == Ok::<FloatVariant, HydrogenError>(FloatVariant::F32),
        !has_f32 && has_f64 ==> r == Ok::<FloatVariant, HydrogenError>(FloatVariant::F64),
{
    if has_f32 && has_f64 {
        Err(HydrogenError::ConflictingLocalCallbacks)
    } else if !has_f32 && !has_f64 {
        Err(HydrogenError::MissingLocalCallback)
    } else if has_f32 {
        Ok(FloatVariant::F32)
    } else {
        Ok(FloatVariant::F64)
    }
}

/// The directories of a run that is analysed on this machine.
pub struct LocalLayout {
    pub workspace: Vec<u8>,
    pub script_dir: Vec<u8>,
}

impl LocalLayout {
    pub fn new(workspace: Vec<u8>, script_dir: Vec<u8>) -> (r: Self)
        ensures
            r.workspace@ == workspace@,
            r.script_dir@ == script_dir@,
    {
        LocalLayout { workspace, script_dir }
    }

    /// The workspace, made absolute.
    pub fn workspace_dir(&self, cwd: &[u8]) -> (r: Vec<u8>)
        ensures
            r@ == absolutize_spec(self.workspace@, cwd@),
    {
        absolutize(self.workspace.as_slice(), cwd)
    }

    /// The script directory, made absolute; the caller checks that it is a
    /// directory.
    pub fn script_dir(&self, cwd: &[u8]) -> (r: Vec<u8>)
        ensures
            r@ == absolutize_spec(self.script_dir@, cwd@),
    {
        absolutize(self.script_dir.as_slice(), cwd)
    }

    /// Where the generated test signals are kept.
    pub fn sample_dir(&self, cwd: &[u8]) -> (r: Vec<u8>)
        ensures
            r@ == join_spec(absolutize_spec(self.workspace@, cwd@), DEFAULT_SAMPLE_SUBDIR.spec_bytes()),
    {
        let ws = self.workspace_dir(cwd);
        join(ws.as_slice(), DEFAULT_SAMPLE_SUBDIR.as_bytes())
    }

    /// Where the generated test signals of one variant are kept.
    pub fn sample_input_dir(&self, float_variant: FloatVariant, cwd: &[u8]) -> (r: Vec<u8>)
        ensures
            r@ == join_spec(
                join_spec(absolutize_spec(self.workspace@, cwd@), DEFAULT_SAMPLE_SUBDIR.spec_bytes()),
                utf8(extracted_dir_spec(float_variant)),
            ),
    {
        let subdir = match float_variant {
            FloatVariant::F32 => "32bitfloat",
            FloatVariant::F64 => "64bitfloat",
        };
        let dir = self.sample_dir(cwd);
        join(dir.as_slice(), subdir.as_bytes())
    }

    /// Where the converted files are written.
    pub fn output_dir(&self, cwd: &[u8]) -> (r: Vec<u8>)
        ensures
            r@ == join_spec(absolutize_spec(self.workspace@, cwd@), DEFAULT_OUTPUT_SUBDIR.spec_bytes()),
    {
        let ws = self.workspace_dir(cwd);
        join(ws.as_slice(), DEFAULT_OUTPUT_SUBDIR.as_bytes())
    }

    /// Where the analysis leaves its results.
    pub fn analysis_output_dir(&self, cwd: &[u8]) -> (r: Vec<u8>)
        ensures
            r@ == analysis_dir_spec(self.workspace@, cwd@),
    {
        analysis_dir_for_workspace(self.workspace.as_slice(), cwd)
    }

    /// The analysis scripts under the (absolute) script directory, in the
    /// order they run; the caller checks that each is a file.
    pub fn analysis_script_paths(&self, script_dir: &[u8]) -> (r: Vec<Vec<u8>>)
        ensures
            path_views(r@) == script_paths_spec(script_dir@, ANALYSIS_SCRIPTS@),
            r@.len() == ANALYSIS_SCRIPTS@.len(),
            forall|i: int|
                0 <= i < r@.len() ==> #[trigger] r@[i]@ == join_spec(script_dir@, ANALYSIS_SCRIPTS@[i].spec_bytes()),
    {
        script_paths(script_dir, &ANALYSIS_SCRIPTS)
    }

    /// The signal generator scripts under the (absolute) script directory, in
    /// the order they run; the caller checks that each is a file.
    pub fn generation_script_paths(&self, script_dir: &[u8]) -> (r: Vec<Vec<u8>>)
        ensures
            path_views(r@) == script_paths_spec(generator_dir_spec(script_dir@), GENERATION_SCRIPTS@),
            r@.len() == GENERATION_SCRIPTS@.len(),
            forall|i: int|
                0 <= i < r@.len() ==> #[trigger] r@[i]@ == join_spec(
                    generator_dir_spec(script_dir@),
                    GENERATION_SCRIPTS@[i].spec_bytes(),
                ),
    {
        let dir = generator_dir(script_dir);
        script_paths(dir.as_slice(), &GENERATION_SCRIPTS)
    }
}

/// A local run reads the test signals of a variant from a directory named as
/// the one that variant's sample pack unpacks into.
pub proof fn lemma_local_inputs_named_like_pack(layout: LocalLayout, v: FloatVariant, cwd: Seq<u8>)
    ensures
        file_name_matches(
            join_spec(
                join_spec(absolutize_spec(layout.workspace@, cwd), DEFAULT_SAMPLE_SUBDIR.spec_bytes()),
                utf8(extracted_dir_spec(v)),
            ),
            utf8(extracted_dir_spec(v)),
        ),
{
    reveal_strlit("32bitfloat");
    reveal_strlit("64bitfloat");
    let name = utf8(extracted_dir_spec(v));
    assert(crate::path::is_normal_name(name)) by {
        vstd::utf8::is_ascii_chars_encode_utf8(extracted_dir_spec(v));
    }
    crate::path::lemma_join_file_name(
        join_spec(absolutize_spec(layout.workspace@, cwd), DEFAULT_SAMPLE_SUBDIR.spec_bytes()),
        name,
    );
}

/// The file name of `p` is `name`.
pub open spec fn file_name_matches(p: Seq<u8>, name: Seq<u8>) -> bool {
    crate::path::file_name_spec(p) == Some(name)
}

/// The archive path that a run reports, made absolute against the working
/// directory, is the path that the run writes the archive to.
pub proof fn lemma_reported_zip_path_is_written_path(config: HydrogenConfig, cwd: Seq<u8>)
    ensures
        absolutize_spec(
            join_spec(config.work_dir@, output_zip_name_spec(config.output_zip_basename@, config.float_variant)),
            cwd,
        ) == join_spec(
            absolutize_spec(config.work_dir@, cwd),
            output_zip_name_spec(config.output_zip_basename@, config.float_variant),
        ),
{
    crate::path::lemma_absolutize_join(
        config.work_dir@,
        output_zip_name_spec(config.output_zip_basename@, config.float_variant),
        cwd,
    );
}

/// The bytes that follow the output prefix in the archive name of a variant:
/// a dash, the variant's label and `.zip`.
pub open spec fn zip_name_tail(v: FloatVariant) -> Seq<u8> {
    match v {
        FloatVariant::F32 => seq![0x2du8, 0x66u8, 0x33u8, 0x32u8, 0x2eu8, 0x7au8, 0x69u8, 0x70u8],
        FloatVariant::F64 => seq![0x2du8, 0x66u8, 0x36u8, 0x34u8, 0x2eu8, 0x7au8, 0x69u8, 0x70u8],
    }
}

/// The archive name is the whole output prefix, unchanged, followed by
/// `-f32.zip` or `-f64.zip`; so two runs share an archive name only when they
/// share both the prefix and the variant.
pub proof fn lemma_output_zip_name_keeps_prefix(
    basename: Seq<u8>,
    v: FloatVariant,
    other_basename: Seq<u8>,
    other_v: FloatVariant,
)
    ensures
        output_zip_name_spec(basename, v).len() == basename.len() + 8,
        output_zip_name_spec(basename, v).subrange(0, basename.len() as int) == basename,
        output_zip_name_spec(basename, v).subrange(
            basename.len() as int,
            basename.len() + 8int,
        ) == zip_name_tail(v),
        output_zip_name_spec(basename, v) == output_zip_name_spec(other_basename, other_v)
            ==> basename == other_basename && v == other_v,
{
    lemma_zip_name_shape(basename, v);
    lemma_zip_name_shape(other_basename, other_v);
    let a = output_zip_name_spec(basename, v);
    let b = output_zip_name_spec(other_basename, other_v);
    assert(zip_name_tail(v).len() == 8 && zip_name_tail(other_v).len() == 8);
    assert(a.len() == basename.len() + 8);
    assert(b.len() == other_basename.len() + 8);
    assert(a.subrange(0, basename.len() as int) =~= basename);
    assert(a.subrange(basename.len() as int, basename.len() + 8int) =~= zip_name_tail(v));
    if a == b {
        assert(basename.len() == other_basename.len());
        assert forall|i: int| 0 <= i < basename.len() implies basename[i] == other_basename[i] by {
            assert(a[i] == basename[i]);
            assert(b[i] == other_basename[i]);
        }
        assert(basename =~= other_basename);
        assert(b.subrange(basename.len() as int, basename.len() + 8int) =~= zip_name_tail(other_v));
        assert(zip_name_tail(v) == zip_name_tail(other_v));
        if v != other_v {
            assert(zip_name_tail(v)[2] != zip_name_tail(other_v)[2]);
        }
    }
}

proof fn lemma_zip_name_shape(basename: Seq<u8>, v: FloatVariant)
    ensures
        output_zip_name_spec(basename, v) =~= basename + zip_name_tail(v),
{
    reveal_strlit("-");
    reveal_strlit(".zip");
    reveal_strlit("f32");
    reveal_strlit("f64");
    vstd::utf8::is_ascii_chars_encode_utf8("-"@);
    vstd::utf8::is_ascii_chars_encode_utf8(".zip"@);
    vstd::utf8::is_ascii_chars_encode_utf8(slug_spec(v));
    assert(utf8("-"@) =~= seq![0x2du8]);
    assert(utf8(".zip"@) =~= seq![0x2eu8, 0x7au8, 0x69u8, 0x70u8]);
    match v {
        FloatVariant::F32 => assert(utf8(slug_spec(v)) =~= seq![0x66u8, 0x33u8, 0x32u8]),
        FloatVariant::F64 => assert(utf8(slug_spec(v)) =~= seq![0x66u8, 0x36u8, 0x34u8]),
    }
}

/// Distinct ASCII names without separators, other than `.` and `..`, have
/// distinct byte strings, each a single normal path component.
proof fn lemma_ascii_names(names: Seq<&'static str>)
    requires
        forall|i: int| 0 <= i < names.len() ==> vstd::utf8::is_ascii_chars(#[trigger] names[i]@),
        forall|i: int, k: int|
            0 <= i < names.len() && 0 <= k < names[i]@.len() ==> #[trigger] names[i]@[k] != '/',
        forall|i: int| 0 <= i < names.len() ==> #[trigger] names[i]@.len() > 2,
        forall|i: int, j: int| 0 <= i < j < names.len() ==> names[i]@ != names[j]@,
    ensures
        forall|i: int| 0 <= i < names.len() ==> crate::path::is_normal_name(#[trigger] names[i].spec_bytes()),
        forall|i: int, j: int|
            0 <= i < j < names.len() ==> #[trigger] names[i].spec_bytes() != #[trigger] names[j].spec_bytes(),
{
    assert forall|i: int| 0 <= i < names.len() implies crate::path::is_normal_name(#[trigger] names[i].spec_bytes()) by {
        let c = names[i]@;
        vstd::utf8::is_ascii_chars_encode_utf8(c);
        let b = names[i].spec_bytes();
        assert forall|k: int| 0 <= k < b.len() implies #[trigger] b[k] != crate::path::SEP by {
            assert(c[k] as u8 == b[k]);
            assert(c[k] != '/');
        }
    }
    assert forall|i: int, j: int|
        0 <= i < j < names.len() implies #[trigger] names[i].spec_bytes() != #[trigger] names[j].spec_bytes() by {
        let a = names[i]@;
        let c = names[j]@;
        vstd::utf8::is_ascii_chars_encode_utf8(a);
        vstd::utf8::is_ascii_chars_encode_utf8(c);
        if names[i].spec_bytes() == names[j].spec_bytes() {
            assert forall|k: int| 0 <= k < a.len() implies a[k] == c[k] by {
                assert(a[k] as u8 == names[i].spec_bytes()[k]);
                assert(c[k] as u8 == names[j].spec_bytes()[k]);
            }
            assert(a =~= c);
        }
    }
}

/// Each script list holds, in order, every script of its constant list
/// joined onto the directory, each exactly once.
pub proof fn lemma_script_lists_in_order(dir: Seq<u8>)
    ensures
        script_paths_spec(dir, ANALYSIS_SCRIPTS@).len() == ANALYSIS_SCRIPTS@.len(),
        forall|i: int|
            0 <= i < ANALYSIS_SCRIPTS@.len() ==> #[trigger] script_paths_spec(dir, ANALYSIS_SCRIPTS@)[i]
                == join_spec(dir, ANALYSIS_SCRIPTS@[i].spec_bytes()),
        forall|i: int, j: int|
            0 <= i < j < ANALYSIS_SCRIPTS@.len() ==> #[trigger] script_paths_spec(dir, ANALYSIS_SCRIPTS@)[i]
                != #[trigger] script_paths_spec(dir, ANALYSIS_SCRIPTS@)[j],
        script_paths_spec(dir, GENERATION_SCRIPTS@).len() == GENERATION_SCRIPTS@.len(),
        forall|i: int|
            0 <= i < GENERATION_SCRIPTS@.len() ==> #[trigger] script_paths_spec(dir, GENERATION_SCRIPTS@)[i]
                == join_spec(dir, GENERATION_SCRIPTS@[i].spec_bytes()),
        forall|i: int, j: int|
            0 <= i < j < GENERATION_SCRIPTS@.len() ==> #[trigger] script_paths_spec(dir, GENERATION_SCRIPTS@)[i]
                != #[trigger] script_paths_spec(dir, GENERATION_SCRIPTS@)[j],
{
    reveal_strlit("aliasing150db.m");
    reveal_strlit("bit_depth_test.m");
    reveal_strlit("gaplesstest.m");
    reveal_strlit("impulse.m");
    reveal_strlit("intermodulation_harmonic_distortion.m");
    reveal_strlit("spectogram_sweep_1_to_44kHz_96kHz_srcto_44kHz.m");
    reveal_strlit("GEN_aliasing150db.m");
    reveal_strlit("GEN_bitdepthtest.m");
    reveal_strlit("GEN_gaplesstest.m");
    reveal_strlit("GEN_impulse_96KHz.m");
    reveal_strlit("GEN_intermodulation_60Hz_and_7kHz.m");
    reveal_strlit("GEN_sweep_1_to_48KHz_96KHz.m");
    assert(ANALYSIS_SCRIPTS@[0] == "aliasing150db.m");
    assert(ANALYSIS_SCRIPTS@[1] == "bit_depth_test.m");
    assert(ANALYSIS_SCRIPTS@[2] == "gaplesstest.m");
    assert(ANALYSIS_SCRIPTS@[3] == "impulse.m");
    assert(ANALYSIS_SCRIPTS@[4] == "intermodulation_harmonic_distortion.m");
    assert(ANALYSIS_SCRIPTS@[5] == "spectogram_sweep_1_to_44kHz_96kHz_srcto_44kHz.m");
    assert(GENERATION_SCRIPTS@[0] == "GEN_aliasing150db.m");
    assert(GENERATION_SCRIPTS@[1] == "GEN_bitdepthtest.m");
    assert(GENERATION_SCRIPTS@[2] == "GEN_gaplesstest.m");
    assert(GENERATION_SCRIPTS@[3] == "GEN_impulse_96KHz.m");
    assert(GENERATION_SCRIPTS@[4] == "GEN_intermodulation_60Hz_and_7kHz.m");
    assert(GENERATION_SCRIPTS@[5] == "GEN_sweep_1_to_48KHz_96KHz.m");
    let a = ANALYSIS_SCRIPTS@;
    let g = GENERATION_SCRIPTS@;
    assert(a[0]@.len() == 15 && a[1]@.len() == 16 && a[2]@.len() == 13);
    assert(a[3]@.len() == 9 && a[4]@.len() == 37 && a[5]@.len() == 47);
    assert(g[0]@.len() == 19 && g[1]@.len() == 18 && g[2]@.len() == 17);
    assert(g[3]@.len() == 19 && g[4]@.len() == 35 && g[5]@.len() == 28);
    assert(g[0]@[4] != g[3]@[4]);
    assert forall|i: int, j: int| 0 <= i < j < a.len() implies a[i]@ != a[j]@ by {
        assert(a[i]@.len() != a[j]@.len());
    }
    assert forall|i: int, j: int| 0 <= i < j < g.len() implies g[i]@ != g[j]@ by {
        if i != 0 || j != 3 {
            assert(g[i]@.len() != g[j]@.len());
        }
    }
    lemma_ascii_names(a);
    lemma_ascii_names(g);
    assert forall|i: int, j: int|
        0 <= i < j < ANALYSIS_SCRIPTS@.len() implies #[trigger] script_paths_spec(dir, ANALYSIS_SCRIPTS@)[i]
            != #[trigger] script_paths_spec(dir, ANALYSIS_SCRIPTS@)[j] by {
        crate::path::lemma_join_file_name(dir, ANALYSIS_SCRIPTS@[i].spec_bytes());
        crate::path::lemma_join_file_name(dir, ANALYSIS_SCRIPTS@[j].spec_bytes());
    }
    assert forall|i: int, j: int|
        0 <= i < j < GENERATION_SCRIPTS@.len() implies #[trigger] script_paths_spec(dir, GENERATION_SCRIPTS@)[i]
            != #[trigger] script_paths_spec(dir, GENERATION_SCRIPTS@)[j] by {
        crate::path::lemma_join_file_name(dir, GENERATION_SCRIPTS@[i].spec_bytes());
        crate::path::lemma_join_file_name(dir, GENERATION_SCRIPTS@[j].spec_bytes());
    }
}

} // verus!
