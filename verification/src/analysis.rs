//! The files of a local analysis: which quality metric each result file
//! holds, the text of a metric, the converted files renamed without their
//! sample width, and the check of the octave packages that the analysis needs.
use vstd::prelude::*;
use vstd::string::StringSliceAdditionalSpecFns;
use vstd::utf8::valid_utf8;

use crate::error::HydrogenError;
use crate::listing::WAV_EXTENSION;
use crate::path::{
    bytes_eq, copy_range, ends_with, file_name, file_name_spec, file_stem, file_stem_spec,
    has_extension, has_extension_spec, join, join_spec, lemma_file_name_normal,
    lemma_last_dot_append, lemma_last_dot_bounds, push_all, DOT, SEP,
};
use crate::text::{
    chars_eq, char_views, is_utf8, lines_spec, metric_line, metric_line_spec, split_lines, trim,
    trim_spec,
};

verus! {

/// The result file that holds the delay the analysis measured.
pub const CALCULATED_DELAY_FILENAME: &'static str = "calculateddelay.txt";

/// The extension of the figures that the analysis draws.
pub const FIGURE_EXTENSION: &'static str = "png";

/// The width suffixes of converted file names, in the order they are tried.
pub const SIXTY_FOUR_BIT_SUFFIX: &'static str = "-64bitfloat";

pub const THIRTY_TWO_BIT_SUFFIX: &'static str = "-32bitfloat";

/// The octave packages that the analysis scripts load, in the order they are
/// checked.
pub const SIGNAL_PACKAGE: [char; 6] = ['s', 'i', 'g', 'n', 'a', 'l'];

pub const IMAGE_PACKAGE: [char; 5] = ['i', 'm', 'a', 'g', 'e'];

/// A score or measurement of the analysis.
#[derive(Debug, Clone, Copy, PartialEq, Eq, Structural)]
pub enum QualityMetric {
    Spectrogram,
    Bandwidth,
    AverageImpulseFreq,
    ImpulseFreq,
    Alias,
    Preringing,
    Gapless,
    Intermoddiff,
    /// The measured delay in samples, from which the delay score is derived.
    Delay,
}

/// Read `metric` from line `line` of a result file.
#[derive(Debug, Clone, Copy, PartialEq, Eq, Structural)]
pub struct MetricRead {
    pub metric: QualityMetric,
    pub line: usize,
}

/// What a file of the analysis directory contributes to the results: the
/// metrics it holds, read in this order, and whether it is a figure.
pub struct AnalysisEntry {
    pub reads: Vec<MetricRead>,
    pub is_figure: bool,
}

/// A single read.
pub open spec fn one_read(metric: QualityMetric) -> Seq<MetricRead> {
    seq![MetricRead { metric, line: 0 }]
}

/// The metrics that a result file of this name holds, with their lines.
pub open spec fn metric_reads_spec(name: Seq<u8>) -> Seq<MetricRead> {
    if name == "quality-spectrogram.txt".spec_bytes() {
        one_read(QualityMetric::Spectrogram)
    } else if name == "quality-bandwidth.txt".spec_bytes() {
        one_read(QualityMetric::Bandwidth)
    } else if name == "quality-impulse_freq.txt".spec_bytes() {
        seq![
            MetricRead { metric: QualityMetric::AverageImpulseFreq, line: 0 },
            MetricRead { metric: QualityMetric::ImpulseFreq, line: 1 },
        ]
    } else if name == "quality-alias.txt".spec_bytes() {
        one_read(QualityMetric::Alias)
    } else if name == "quality-preringing.txt".spec_bytes() {
        one_read(QualityMetric::Preringing)
    } else if name == "quality-gapless.txt".spec_bytes() {
        one_read(QualityMetric::Gapless)
    } else if name == "quality-intermoddiff.txt".spec_bytes() {
        one_read(QualityMetric::Intermoddiff)
    } else if name == CALCULATED_DELAY_FILENAME.spec_bytes() {
        one_read(QualityMetric::Delay)
    } else {
        seq![]
    }
}

/// The file name of a converted file once its width suffix is dropped: the
/// stem without `-64bitfloat` (tried first) or `-32bitfloat`, followed by
/// `.wav`; none when the stem carries neither suffix.
pub open spec fn normalized_name_spec(stem: Seq<u8>) -> Option<Seq<u8>> {
    let s64 = SIXTY_FOUR_BIT_SUFFIX.spec_bytes();
    let s32 = THIRTY_TWO_BIT_SUFFIX.spec_bytes();
    if s64.len() <= stem.len() && stem.subrange(stem.len() - s64.len(), stem.len() as int) == s64 {
        Some(stem.subrange(0, stem.len() - s64.len()) + ".wav".spec_bytes())
    } else if s32.len() <= stem.len() && stem.subrange(stem.len() - s32.len(), stem.len() as int)
        == s32 {
        Some(stem.subrange(0, stem.len() - s32.len()) + ".wav".spec_bytes())
    } else {
        None
    }
}

/// The file name of a path, or that it has none.
pub fn file_name_from_path(path: &[u8]) -> (r: Result<Vec<u8>, HydrogenError>)
    ensures
        match r {
            Ok(n) => file_name_spec(path@) == Some(n@),
            Err(e) => file_name_spec(path@) is None && (e matches HydrogenError::MissingFileName(p)
                && p@ == path@),
        },
{
    match file_name(path) {
        Some(n) => Ok(n),
        None => Err(HydrogenError::MissingFileName(copy_range(path, 0, path.len()))),
    }
}

fn name_is(name: &[u8], literal: &str) -> (r: bool)
    ensures
        r == (name@ == literal.spec_bytes()),
{
    bytes_eq(name, literal.as_bytes())
}

/// What the file at `path` of the analysis directory contributes: it needs a
/// file name that is UTF-8; the metrics come from that name, and it is a
/// figure when its extension is `png` up to ASCII case.
pub fn classify_analysis_file(path: &[u8]) -> (r: Result<AnalysisEntry, HydrogenError>)
    ensures
        match r {
            Ok(e) => file_name_spec(path@) matches Some(n) && valid_utf8(n) && e.reads@
                == metric_reads_spec(n) && e.is_figure == has_extension_spec(
                path@,
                FIGURE_EXTENSION.spec_bytes(),
            ),
            Err(e) => (file_name_spec(path@) matches Some(n) ==> !valid_utf8(n)) && (
            e matches HydrogenError::MissingFileName(p) && p@ == path@),
        },
        r matches Ok(e) ==> forall|k: int|
            0 <= k < e.reads@.len() ==> file_name_spec(path@) == Some(
                result_file_name((#[trigger] e.reads@[k]).metric),
            ) && e.reads@[k].line == metric_line_in_file(e.reads@[k].metric),
        r matches Ok(e) ==> forall|m: QualityMetric|
            file_name_spec(path@) == Some(#[trigger] result_file_name(m)) ==> e.reads@.contains(
                MetricRead { metric: m, line: metric_line_in_file(m) },
            ),
{
    let name = match file_name(path) {
        Some(n) => n,
        None => {
            return Err(HydrogenError::MissingFileName(copy_range(path, 0, path.len())));
        },
    };
    if !is_utf8(name.as_slice()) {
        return Err(HydrogenError::MissingFileName(copy_range(path, 0, path.len())));
    }
    let n = name.as_slice();
    let mut reads: Vec<MetricRead> = Vec::new();
    if name_is(n, "quality-spectrogram.txt") {
        reads.push(MetricRead { metric: QualityMetric::Spectrogram, line: 0 });
    } else if name_is(n, "quality-bandwidth.txt") {
        reads.push(MetricRead { metric: QualityMetric::Bandwidth, line: 0 });
    } else if name_is(n, "quality-impulse_freq.txt") {
        reads.push(MetricRead { metric: QualityMetric::AverageImpulseFreq, line: 0 });
        reads.push(MetricRead { metric: QualityMetric::ImpulseFreq, line: 1 });
    } else if name_is(n, "quality-alias.txt") {
        reads.push(MetricRead { metric: QualityMetric::Alias, line: 0 });
    } else if name_is(n, "quality-preringing.txt") {
        reads.push(MetricRead { metric: QualityMetric::Preringing, line: 0 });
    } else if name_is(n, "quality-gapless.txt") {
        reads.push(MetricRead { metric: QualityMetric::Gapless, line: 0 });
    } else if name_is(n, "quality-intermoddiff.txt") {
        reads.push(MetricRead { metric: QualityMetric::Intermoddiff, line: 0 });
    } else if name_is(n, CALCULATED_DELAY_FILENAME) {
        reads.push(MetricRead { metric: QualityMetric::Delay, line: 0 });
    }
    assert(reads@ =~= metric_reads_spec(name@));
    proof {
        lemma_metric_reads_follow_file_names();
        assert forall|m: QualityMetric| name@ == #[trigger] result_file_name(m) implies reads@.contains(
            MetricRead { metric: m, line: metric_line_in_file(m) },
        ) by {
            if m is AverageImpulseFreq || m is ImpulseFreq {
                lemma_result_file_names();
                assert(result_file_name(m) == result_file_name(QualityMetric::ImpulseFreq));
                if m is ImpulseFreq {
                    assert(reads@[1] == MetricRead { metric: m, line: metric_line_in_file(m) });
                } else {
                    assert(reads@[0] == MetricRead { metric: m, line: metric_line_in_file(m) });
                }
            } else {
                assert(reads@[0] == MetricRead { metric: m, line: metric_line_in_file(m) });
            }
        }
    }
    let is_figure = has_extension(path, FIGURE_EXTENSION.as_bytes());
    Ok(AnalysisEntry { reads, is_figure })
}

/// Line `line_num` of a result file, trimmed, from the file's text: the
/// number that the caller parses. An error names the file when the text has no
/// such line.
pub fn quality_metric_text(path: &[u8], contents: &[char], line_num: usize) -> (r: Result<
    Vec<char>,
    HydrogenError,
>)
    ensures
        match r {
            Ok(l) => metric_line_spec(contents@, line_num as int) == Some(l@),
            Err(e) => metric_line_spec(contents@, line_num as int) is None && (
            e matches HydrogenError::EmptyQualityMetric { path: p } && p@ == path@),
        },
{
    match metric_line(contents, line_num) {
        Some(l) => Ok(l),
        None => Err(HydrogenError::EmptyQualityMetric { path: copy_range(path, 0, path.len()) }),
    }
}

/// Where a converted file is copied once its width suffix is dropped from
/// its name: into `output_dir`, under the name that `normalized_name_spec`
/// gives its stem. None when the stem carries no width suffix; an error
/// naming the file when it has no stem or its stem is not UTF-8.
pub fn normalized_output_path(output_dir: &[u8], input: &[u8]) -> (r: Result<
    Option<Vec<u8>>,
    HydrogenError,
>)
    ensures
        match r {
            Ok(o) => file_stem_spec(input@) matches Some(stem) && valid_utf8(stem) && match o {
                Some(p) => normalized_name_spec(stem) matches Some(n) && p@ == join_spec(
                    output_dir@,
                    n,
                ),
                None => normalized_name_spec(stem) is None,
            },
            Err(e) => (file_stem_spec(input@) matches Some(stem) ==> !valid_utf8(stem)) && (
            e matches HydrogenError::MissingFileName(p) && p@ == input@),
        },
{
    let stem = match file_stem(input) {
        Some(s) => s,
        None => {
            return Err(HydrogenError::MissingFileName(copy_range(input, 0, input.len())));
        },
    };
    if !is_utf8(stem.as_slice()) {
        return Err(HydrogenError::MissingFileName(copy_range(input, 0, input.len())));
    }
    let suffix_len: usize;
    if ends_with(stem.as_slice(), SIXTY_FOUR_BIT_SUFFIX.as_bytes()) {
        suffix_len = SIXTY_FOUR_BIT_SUFFIX.as_bytes().len();
    } else if ends_with(stem.as_slice(), THIRTY_TWO_BIT_SUFFIX.as_bytes()) {
        suffix_len = THIRTY_TWO_BIT_SUFFIX.as_bytes().len();
    } else {
        return Ok(None);
    }
    let mut name = copy_range(stem.as_slice(), 0, stem.len() - suffix_len);
    push_all(&mut name, ".wav".as_bytes());
    Ok(Some(join(output_dir, name.as_slice())))
}

/// Whether `package` is one of the lines, once trimmed.
fn package_listed(lines: &Vec<Vec<char>>, package: &[char]) -> (r: bool)
    ensures
        r == char_views(lines@).map_values(|l: Seq<char>| trim_spec(l)).contains(package@),
{
    let ghost listed = char_views(lines@).map_values(|l: Seq<char>| trim_spec(l));
    let mut i: usize = 0;
    while i < lines.len()
        invariant
            i <= lines@.len(),
            listed == char_views(lines@).map_values(|l: Seq<char>| trim_spec(l)),
            forall|k: int| 0 <= k < i ==> listed[k] != package@,
        decreases lines@.len() - i,
    {
        let t = trim(lines[i].as_slice());
        assert(listed[i as int] == trim_spec(lines@[i as int]@));
        if chars_eq(t.as_slice(), package) {
            assert(listed.contains(package@));
            return true;
        }
        i = i + 1;
    }
    false
}

/// The packages that octave lists, one per line: each line trimmed, empty
/// lines left out.
pub open spec fn listed_packages(out: Seq<char>) -> Seq<Seq<char>> {
    lines_spec(out).map_values(|l: Seq<char>| trim_spec(l)).filter(|l: Seq<char>| l.len() > 0)
}

/// The required packages, in order, that octave does not list.
pub open spec fn missing_packages_spec(out: Seq<char>) -> Seq<Seq<char>> {
    seq![SIGNAL_PACKAGE@, IMAGE_PACKAGE@].filter(|p: Seq<char>| !listed_packages(out).contains(p))
}

/// The character strings of a sequence of strings.
pub open spec fn string_views(s: Seq<String>) -> Seq<Seq<char>> {
    s.map_values(|v: String| v@)
}

/// A package that is not empty is listed exactly when some line, trimmed, is
/// that package.
proof fn lemma_listed_nonempty(out: Seq<char>, p: Seq<char>)
    requires
        p.len() > 0,
    ensures
        listed_packages(out).contains(p) == lines_spec(out).map_values(|l: Seq<char>| trim_spec(l)).contains(p),
{
    let all = lines_spec(out).map_values(|l: Seq<char>| trim_spec(l));
    let pred = |l: Seq<char>| l.len() > 0;
    assert(listed_packages(out) == all.filter(pred));
    if all.contains(p) {
        let k = choose|k: int| 0 <= k < all.len() && all[k] == p;
        assert(pred(all[k]));
        all.lemma_filter_contains(pred, k);
    }
    if all.filter(pred).contains(p) {
        all.lemma_filter_contains_rev(pred, p);
    }
}

/// Whether octave lists the packages that the analysis needs: `out` is what
/// octave printed when asked for its packages. The error names the missing
/// ones.
pub fn check_octave_packages(out: &[char]) -> (r: Result<(), HydrogenError>)
    ensures
        match r {
            Ok(()) => missing_packages_spec(out@).len() == 0,
            Err(e) => missing_packages_spec(out@).len() > 0 && (
            e matches HydrogenError::MissingOctavePackages(v) && string_views(v@)
                == missing_packages_spec(out@)),
        },
        r is Ok <==> some_line_is(out@, seq!['s', 'i', 'g', 'n', 'a', 'l']) && some_line_is(
            out@,
            seq!['i', 'm', 'a', 'g', 'e'],
        ),
        r matches Err(e) ==> (e matches HydrogenError::MissingOctavePackages(v) && (string_views(
            v@,
        ).contains(seq!['s', 'i', 'g', 'n', 'a', 'l']) <==> !some_line_is(
            out@,
            seq!['s', 'i', 'g', 'n', 'a', 'l'],
        )) && (string_views(v@).contains(seq!['i', 'm', 'a', 'g', 'e']) <==> !some_line_is(
            out@,
            seq!['i', 'm', 'a', 'g', 'e'],
        ))),
{
    let lines = split_lines(out);
    let signal_listed = package_listed(&lines, &SIGNAL_PACKAGE);
    let image_listed = package_listed(&lines, &IMAGE_PACKAGE);
    let mut missing: Vec<String> = Vec::new();
    proof {
        reveal_strlit("signal");
        reveal_strlit("image");
        assert("signal"@ =~= SIGNAL_PACKAGE@);
        assert("image"@ =~= IMAGE_PACKAGE@);
        lemma_listed_nonempty(out@, SIGNAL_PACKAGE@);
        lemma_listed_nonempty(out@, IMAGE_PACKAGE@);
    }
    if !signal_listed {
        missing.push("signal".to_owned());
    }
    if !image_listed {
        missing.push("image".to_owned());
    }
    proof {
        let pred = |p: Seq<char>| !listed_packages(out@).contains(p);
        let req = seq![SIGNAL_PACKAGE@, IMAGE_PACKAGE@];
        reveal_with_fuel(Seq::filter, 3);
        assert(req.drop_last() =~= seq![SIGNAL_PACKAGE@]);
        assert(req.drop_last().drop_last() =~= Seq::<Seq<char>>::empty());
        assert(string_views(missing@) =~= req.filter(pred));
        lemma_missing_packages_exact(out@);
        let sig = seq!['s', 'i', 'g', 'n', 'a', 'l'];
        let img = seq!['i', 'm', 'a', 'g', 'e'];
        assert(sig != img);
        let sv = string_views(missing@);
        if sv.contains(sig) {
            let k = choose|k: int| 0 <= k < sv.len() && sv[k] == sig;
            assert(!some_line_is(out@, sig));
        }
        if sv.contains(img) {
            let k = choose|k: int| 0 <= k < sv.len() && sv[k] == img;
            assert(!some_line_is(out@, img));
        }
        if !some_line_is(out@, sig) {
            assert(sv[0] == sig);
        }
        if !some_line_is(out@, img) {
            assert(sv[sv.len() - 1] == img);
        }
    }
    if missing.len() == 0 {
        Ok(())
    } else {
        Err(HydrogenError::MissingOctavePackages(missing))
    }
}

/// A converted file that is copied without its width suffix keeps the `wav`
/// extension and lands in the output directory under its new name, provided
/// something precedes the suffix in its stem.
pub proof fn lemma_normalized_output_is_wav(output_dir: Seq<u8>, input: Seq<u8>)
    requires
        file_stem_spec(input) matches Some(stem) && normalized_name_spec(stem) matches Some(n)
            && n.len() > 4,
    ensures
        ({
            let n = normalized_name_spec(file_stem_spec(input)->0)->0;
            let p = join_spec(output_dir, n);
            &&& file_name_spec(p) == Some(n)
            &&& has_extension_spec(p, WAV_EXTENSION.spec_bytes())
        }),
{
    let f = file_name_spec(input)->0;
    let stem = file_stem_spec(input)->0;
    let n = normalized_name_spec(stem)->0;
    reveal_strlit(".wav");
    reveal_strlit("wav");
    vstd::utf8::is_ascii_chars_encode_utf8(".wav"@);
    vstd::utf8::is_ascii_chars_encode_utf8("wav"@);
    let ext = seq![0x77u8, 0x61u8, 0x76u8];
    assert(".wav".spec_bytes() =~= seq![DOT].add(ext));
    assert(WAV_EXTENSION.spec_bytes() =~= ext);
    lemma_file_name_normal(input);
    lemma_last_dot_bounds(f);
    let prefix = n.subrange(0, n.len() - 4);
    assert(n =~= prefix + seq![DOT].add(ext));
    assert forall|k: int| 0 <= k < n.len() implies #[trigger] n[k] != SEP by {
        if k < prefix.len() {
            assert(n[k] == stem[k]);
            assert(stem[k] == f[k]);
        }
    }
    crate::path::lemma_join_file_name(output_dir, n);
    lemma_last_dot_append(prefix, ext);
    assert(n.subrange(n.len() - 3, n.len() as int) =~= ext);
}

/// A converted file is never copied onto itself: the name it is copied to is
/// a file name of its own, and differs from the converted file's name.
pub proof fn lemma_normalized_name_differs(output_dir: Seq<u8>, input: Seq<u8>)
    requires
        file_stem_spec(input) matches Some(stem) && normalized_name_spec(stem) is Some,
    ensures
        ({
            let n = normalized_name_spec(file_stem_spec(input)->0)->0;
            &&& file_name_spec(join_spec(output_dir, n)) == Some(n)
            &&& file_name_spec(input) != Some(n)
        }),
{
    let f = file_name_spec(input)->0;
    let stem = file_stem_spec(input)->0;
    let n = normalized_name_spec(stem)->0;
    reveal_strlit(".wav");
    reveal_strlit("-64bitfloat");
    reveal_strlit("-32bitfloat");
    vstd::utf8::is_ascii_chars_encode_utf8(".wav"@);
    vstd::utf8::is_ascii_chars_encode_utf8("-64bitfloat"@);
    vstd::utf8::is_ascii_chars_encode_utf8("-32bitfloat"@);
    let dot_wav = ".wav".spec_bytes();
    assert(dot_wav =~= seq![DOT, 0x77u8, 0x61u8, 0x76u8]);
    let s64 = SIXTY_FOUR_BIT_SUFFIX.spec_bytes();
    let s32 = THIRTY_TWO_BIT_SUFFIX.spec_bytes();
    assert(s64.len() == 11 && s64[0] == 0x2d);
    assert(s32.len() == 11 && s32[0] == 0x2d);
    lemma_file_name_normal(input);
    lemma_last_dot_bounds(f);
    let cut = n.len() - 4;
    assert(n[cut] == DOT);
    assert(stem[cut] == 0x2d);
    assert(cut < stem.len() <= f.len());
    assert(f[cut] == stem[cut]);
    assert forall|k: int| 0 <= k < n.len() implies #[trigger] n[k] != SEP by {
        if k < cut {
            assert(n[k] == stem[k]);
            assert(stem[k] == f[k]);
        }
    }
    crate::path::lemma_join_file_name(output_dir, n);
}

/// Whether some line of octave's output, once trimmed, is `p`.
pub open spec fn some_line_is(out: Seq<char>, p: Seq<char>) -> bool {
    exists|i: int| 0 <= i < lines_spec(out).len() && #[trigger] trim_spec(lines_spec(out)[i]) == p
}

proof fn lemma_listed_iff_some_line(out: Seq<char>, p: Seq<char>)
    requires
        p.len() > 0,
    ensures
        listed_packages(out).contains(p) == some_line_is(out, p),
{
    lemma_listed_nonempty(out, p);
    let all = lines_spec(out).map_values(|l: Seq<char>| trim_spec(l));
    if all.contains(p) {
        let k = choose|k: int| 0 <= k < all.len() && all[k] == p;
        assert(trim_spec(lines_spec(out)[k]) == p);
    }
    if some_line_is(out, p) {
        let i = choose|i: int| 0 <= i < lines_spec(out).len() && #[trigger] trim_spec(lines_spec(out)[i]) == p;
        assert(all[i] == p);
    }
}

/// The packages reported missing are `signal` when no trimmed line of
/// octave's output is `signal`, then `image` when no trimmed line is `image`;
/// each is judged on its own, and nothing else is ever reported.
pub proof fn lemma_missing_packages_exact(out: Seq<char>)
    ensures
        missing_packages_spec(out) == (if some_line_is(out, seq!['s', 'i', 'g', 'n', 'a', 'l']) {
            Seq::<Seq<char>>::empty()
        } else {
            seq![seq!['s', 'i', 'g', 'n', 'a', 'l']]
        }) + (if some_line_is(out, seq!['i', 'm', 'a', 'g', 'e']) {
            Seq::<Seq<char>>::empty()
        } else {
            seq![seq!['i', 'm', 'a', 'g', 'e']]
        }),
{
    let signal = seq!['s', 'i', 'g', 'n', 'a', 'l'];
    let image = seq!['i', 'm', 'a', 'g', 'e'];
    assert(SIGNAL_PACKAGE@ =~= signal);
    assert(IMAGE_PACKAGE@ =~= image);
    lemma_listed_iff_some_line(out, signal);
    lemma_listed_iff_some_line(out, image);
    let pred = |p: Seq<char>| !listed_packages(out).contains(p);
    let req = seq![SIGNAL_PACKAGE@, IMAGE_PACKAGE@];
    reveal_with_fuel(Seq::filter, 3);
    assert(req.drop_last() =~= seq![SIGNAL_PACKAGE@]);
    assert(req.drop_last().drop_last() =~= Seq::<Seq<char>>::empty());
    let expected = (if some_line_is(out, signal) {
        Seq::<Seq<char>>::empty()
    } else {
        seq![signal]
    }) + (if some_line_is(out, image) {
        Seq::<Seq<char>>::empty()
    } else {
        seq![image]
    });
    assert(req.filter(pred) =~= expected);
}

/// The name of a result file of the analysis whose metric is spelled `label`
/// in it: `quality-`, the label and `.txt`.
pub open spec fn quality_file(label: Seq<char>) -> Seq<char> {
    "quality-"@ + label + ".txt"@
}

/// The name of the result file that holds a metric: `quality-` and the
/// metric's name (both impulse metrics share `impulse_freq`), then `.txt`; the
/// delay alone is in `calculateddelay.txt`.
pub open spec fn result_file_text(m: QualityMetric) -> Seq<char> {
    match m {
        QualityMetric::Spectrogram => quality_file("spectrogram"@),
        QualityMetric::Bandwidth => quality_file("bandwidth"@),
        QualityMetric::AverageImpulseFreq => quality_file("impulse_freq"@),
        QualityMetric::ImpulseFreq => quality_file("impulse_freq"@),
        QualityMetric::Alias => quality_file("alias"@),
        QualityMetric::Preringing => quality_file("preringing"@),
        QualityMetric::Gapless => quality_file("gapless"@),
        QualityMetric::Intermoddiff => quality_file("intermoddiff"@),
        QualityMetric::Delay => "calculateddelay.txt"@,
    }
}

/// The result file name of a metric, as bytes.
pub open spec fn result_file_name(m: QualityMetric) -> Seq<u8> {
    vstd::utf8::encode_utf8(result_file_text(m))
}

/// The line of its result file that a metric is on: the impulse score is on
/// the second line, under the average impulse frequency; every other metric is
/// on the first.
pub open spec fn metric_line_in_file(m: QualityMetric) -> usize {
    if m is ImpulseFreq {
        1
    } else {
        0
    }
}

/// Two metrics share a result file only when both are impulse metrics.
pub open spec fn share_file(m1: QualityMetric, m2: QualityMetric) -> bool {
    m1 == m2 || ((m1 is AverageImpulseFreq || m1 is ImpulseFreq) && (m2 is AverageImpulseFreq
        || m2 is ImpulseFreq))
}

proof fn lemma_encode_injective(a: Seq<char>, b: Seq<char>)
    ensures
        vstd::utf8::encode_utf8(a) == vstd::utf8::encode_utf8(b) ==> a == b,
{
    vstd::utf8::encode_utf8_decode_utf8(a);
    vstd::utf8::encode_utf8_decode_utf8(b);
}

/// The result file names as the classification spells them, and that they
/// differ from one another.
proof fn lemma_result_file_names()
    ensures
        "quality-spectrogram.txt".spec_bytes() == result_file_name(QualityMetric::Spectrogram),
        "quality-bandwidth.txt".spec_bytes() == result_file_name(QualityMetric::Bandwidth),
        "quality-impulse_freq.txt".spec_bytes() == result_file_name(QualityMetric::ImpulseFreq),
        "quality-impulse_freq.txt".spec_bytes() == result_file_name(QualityMetric::AverageImpulseFreq),
        "quality-alias.txt".spec_bytes() == result_file_name(QualityMetric::Alias),
        "quality-preringing.txt".spec_bytes() == result_file_name(QualityMetric::Preringing),
        "quality-gapless.txt".spec_bytes() == result_file_name(QualityMetric::Gapless),
        "quality-intermoddiff.txt".spec_bytes() == result_file_name(QualityMetric::Intermoddiff),
        CALCULATED_DELAY_FILENAME.spec_bytes() == result_file_name(QualityMetric::Delay),
        forall|m1: QualityMetric, m2: QualityMetric|
            #[trigger] result_file_name(m1) == #[trigger] result_file_name(m2) <==> share_file(m1, m2),
{
    reveal_strlit("quality-");
    reveal_strlit(".txt");
    reveal_strlit("spectrogram");
    reveal_strlit("bandwidth");
    reveal_strlit("impulse_freq");
    reveal_strlit("alias");
    reveal_strlit("preringing");
    reveal_strlit("gapless");
    reveal_strlit("intermoddiff");
    reveal_strlit("calculateddelay.txt");
    reveal_strlit("quality-spectrogram.txt");
    reveal_strlit("quality-bandwidth.txt");
    reveal_strlit("quality-impulse_freq.txt");
    reveal_strlit("quality-alias.txt");
    reveal_strlit("quality-preringing.txt");
    reveal_strlit("quality-gapless.txt");
    reveal_strlit("quality-intermoddiff.txt");
    assert("quality-spectrogram.txt"@ =~= result_file_text(QualityMetric::Spectrogram));
    assert("quality-bandwidth.txt"@ =~= result_file_text(QualityMetric::Bandwidth));
    assert("quality-impulse_freq.txt"@ =~= result_file_text(QualityMetric::ImpulseFreq));
    assert("quality-alias.txt"@ =~= result_file_text(QualityMetric::Alias));
    assert("quality-preringing.txt"@ =~= result_file_text(QualityMetric::Preringing));
    assert("quality-gapless.txt"@ =~= result_file_text(QualityMetric::Gapless));
    assert("quality-intermoddiff.txt"@ =~= result_file_text(QualityMetric::Intermoddiff));
    assert(CALCULATED_DELAY_FILENAME@ =~= result_file_text(QualityMetric::Delay));
    let t = |m: QualityMetric| result_file_text(m);
    assert(t(QualityMetric::Spectrogram).len() == 23);
    assert(t(QualityMetric::Bandwidth).len() == 21);
    assert(t(QualityMetric::ImpulseFreq).len() == 24);
    assert(t(QualityMetric::AverageImpulseFreq).len() == 24);
    assert(t(QualityMetric::Alias).len() == 17);
    assert(t(QualityMetric::Preringing).len() == 22);
    assert(t(QualityMetric::Gapless).len() == 19);
    assert(t(QualityMetric::Intermoddiff).len() == 24);
    assert(t(QualityMetric::Delay).len() == 19);
    assert(t(QualityMetric::ImpulseFreq)[9] != t(QualityMetric::Intermoddiff)[9]);
    assert(t(QualityMetric::Gapless)[0] != t(QualityMetric::Delay)[0]);
    assert forall|m1: QualityMetric, m2: QualityMetric|
        #[trigger] result_file_name(m1) == #[trigger] result_file_name(m2) <==> share_file(m1, m2) by {
        lemma_encode_injective(result_file_text(m1), result_file_text(m2));
        if share_file(m1, m2) {
            assert(result_file_text(m1) == result_file_text(m2));
        } else {
            assert(result_file_text(m1) != result_file_text(m2));
        }
    }
}

/// Each recognised result file is read for the metric its name spells, on
/// that metric's line: `quality-X.txt` gives metric X (the impulse file gives
/// the average impulse frequency on its first line and the impulse score on
/// its second), `calculateddelay.txt` gives the delay. Every read that any
/// name gives is of this kind, so no two names feed the same metric and only
/// the impulse file is read past its first line.
pub proof fn lemma_metric_reads_follow_file_names()
    ensures
        forall|m: QualityMetric|
            !(m is AverageImpulseFreq || m is ImpulseFreq) ==> #[trigger] metric_reads_spec(
                result_file_name(m),
            ) == seq![MetricRead { metric: m, line: 0 }],
        metric_reads_spec(result_file_name(QualityMetric::ImpulseFreq)) == seq![
            MetricRead { metric: QualityMetric::AverageImpulseFreq, line: 0 },
            MetricRead { metric: QualityMetric::ImpulseFreq, line: 1 },
        ],
        forall|name: Seq<u8>, k: int|
            0 <= k < metric_reads_spec(name).len() ==> name == result_file_name(
                (#[trigger] metric_reads_spec(name)[k]).metric,
            ) && metric_reads_spec(name)[k].line == metric_line_in_file(
                metric_reads_spec(name)[k].metric,
            ),
        forall|n1: Seq<u8>, n2: Seq<u8>, i: int, j: int|
            0 <= i < metric_reads_spec(n1).len() && 0 <= j < metric_reads_spec(n2).len() && (
            #[trigger] metric_reads_spec(n1)[i]).metric == (#[trigger] metric_reads_spec(n2)[j]).metric
                ==> n1 == n2,
{
    lemma_result_file_names();
    assert forall|m: QualityMetric|
        !(m is AverageImpulseFreq || m is ImpulseFreq) implies #[trigger] metric_reads_spec(
            result_file_name(m),
        ) == seq![MetricRead { metric: m, line: 0 }] by {
        assert(!share_file(m, QualityMetric::ImpulseFreq));
        match m {
            QualityMetric::Spectrogram => {},
            QualityMetric::Bandwidth => {
                assert(!share_file(m, QualityMetric::Spectrogram));
            },
            QualityMetric::Alias => {
                assert(!share_file(m, QualityMetric::Spectrogram));
                assert(!share_file(m, QualityMetric::Bandwidth));
            },
            QualityMetric::Preringing => {
                assert(!share_file(m, QualityMetric::Spectrogram));
                assert(!share_file(m, QualityMetric::Bandwidth));
                assert(!share_file(m, QualityMetric::Alias));
            },
            QualityMetric::Gapless => {
                assert(!share_file(m, QualityMetric::Spectrogram));
                assert(!share_file(m, QualityMetric::Bandwidth));
                assert(!share_file(m, QualityMetric::Alias));
                assert(!share_file(m, QualityMetric::Preringing));
            },
            QualityMetric::Intermoddiff => {
                assert(!share_file(m, QualityMetric::Spectrogram));
                assert(!share_file(m, QualityMetric::Bandwidth));
                assert(!share_file(m, QualityMetric::Alias));
                assert(!share_file(m, QualityMetric::Preringing));
                assert(!share_file(m, QualityMetric::Gapless));
            },
            QualityMetric::Delay => {
                assert(!share_file(m, QualityMetric::Spectrogram));
                assert(!share_file(m, QualityMetric::Bandwidth));
                assert(!share_file(m, QualityMetric::Alias));
                assert(!share_file(m, QualityMetric::Preringing));
                assert(!share_file(m, QualityMetric::Gapless));
                assert(!share_file(m, QualityMetric::Intermoddiff));
            },
            _ => {},
        }
    }
    assert(!share_file(QualityMetric::ImpulseFreq, QualityMetric::Spectrogram));
    assert(!share_file(QualityMetric::ImpulseFreq, QualityMetric::Bandwidth));
    assert(metric_reads_spec(result_file_name(QualityMetric::ImpulseFreq)) =~= seq![
        MetricRead { metric: QualityMetric::AverageImpulseFreq, line: 0 },
        MetricRead { metric: QualityMetric::ImpulseFreq, line: 1 },
    ]);
    assert forall|name: Seq<u8>, k: int|
        0 <= k < metric_reads_spec(name).len() implies name == result_file_name(
            (#[trigger] metric_reads_spec(name)[k]).metric,
        ) && metric_reads_spec(name)[k].line == metric_line_in_file(
            metric_reads_spec(name)[k].metric,
        ) by {}
}

} // verus!
