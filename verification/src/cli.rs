//! The command line settings of the two converters that the harness drives:
//! the ardftsrc presets and tapers, the checks made on the settings before a
//! run, and the output name of a rubato run.
use vstd::prelude::*;
use vstd::string::StringSliceAdditionalSpecFns;

use crate::path::push_all;
use crate::variant::FloatVariant;

verus! {

/// A named ardftsrc preset.
#[derive(Debug, Clone, Copy, PartialEq, Eq, Structural)]
pub enum PresetArg {
    /// Low latency.
    Fast,
    /// Balanced.
    Good,
    /// High quality.
    High,
    /// Maximum quality.
    Extreme,
}

impl PresetArg {
    /// The preset's name in output labels.
    pub fn slug(self) -> (s: &'static str)
        ensures
            s@ == (match self {
                PresetArg::Fast => "fast"@,
                PresetArg::Good => "good"@,
                PresetArg::High => "high"@,
                PresetArg::Extreme => "extreme"@,
            }),
    {
        match self {
            PresetArg::Fast => "fast",
            PresetArg::Good => "good",
            PresetArg::High => "high",
            PresetArg::Extreme => "extreme",
        }
    }
}

/// The taper of the ardftsrc filter.
#[derive(Debug, Clone, Copy, PartialEq, Eq, Structural)]
pub enum CliTaperType {
    Planck,
    Bessel,
    Cosine,
    BetaCdf,
}

impl CliTaperType {
    /// The taper's name in output labels.
    pub fn slug(self) -> (s: &'static str)
        ensures
            s@ == (match self {
                CliTaperType::Planck => "planck"@,
                CliTaperType::Bessel => "bessel"@,
                CliTaperType::Cosine => "cosine"@,
                CliTaperType::BetaCdf => "beta_cdf"@,
            }),
    {
        match self {
            CliTaperType::Planck => "planck",
            CliTaperType::Bessel => "bessel",
            CliTaperType::Cosine => "cosine",
            CliTaperType::BetaCdf => "beta_cdf",
        }
    }
}

/// A command line setting that a run refuses.
#[derive(Debug, Clone, Copy, PartialEq, Eq, Structural)]
pub enum SettingsError {
    /// A rubato chunk size or sub-chunk count of zero.
    ZeroChunking,
    /// An ardftsrc quality of zero.
    ZeroQuality,
    /// The double-double FFT asked for with 32-bit processing.
    DdFftWithF32,
    /// `--alpha` or `--beta` given with the Planck taper.
    AlphaOrBetaWithPlanck,
    /// `--beta` given with a taper other than `beta_cdf`.
    BetaWithoutBetaCdf,
}

impl SettingsError {
    /// What the command prints before it exits.
    pub fn message(&self) -> (s: &'static str)
        ensures
            s@ == (match *self {
                SettingsError::ZeroChunking => "--chunk-size and --sub-chunk must be > 0"@,
                SettingsError::ZeroQuality => "--quality must be > 0"@,
                SettingsError::DdFftWithF32 => "--dd-fft is not compatible with --f32; use --f64 instead"@,
                SettingsError::AlphaOrBetaWithPlanck => "--alpha and --beta can only be used with --taper-type=bessel, --taper-type=cosine, or --taper-type=beta_cdf"@,
                SettingsError::BetaWithoutBetaCdf => "--beta can only be used with --taper-type=beta_cdf"@,
            }),
    {
        match *self {
            SettingsError::ZeroChunking => "--chunk-size and --sub-chunk must be > 0",
            SettingsError::ZeroQuality => "--quality must be > 0",
            SettingsError::DdFftWithF32 => "--dd-fft is not compatible with --f32; use --f64 instead",
            SettingsError::AlphaOrBetaWithPlanck => "--alpha and --beta can only be used with --taper-type=bessel, --taper-type=cosine, or --taper-type=beta_cdf",
            SettingsError::BetaWithoutBetaCdf => "--beta can only be used with --taper-type=beta_cdf",
        }
    }
}

/// Which of `--alpha` and `--beta` a taper accepts: Planck takes neither,
/// Bessel and cosine take only alpha, `beta_cdf` takes both.
pub fn check_taper_arguments(taper: CliTaperType, has_alpha: bool, has_beta: bool) -> (r: Result<
    (),
    SettingsError,
>)
    ensures
        r == (match taper {
            CliTaperType::Planck => if has_alpha || has_beta {
                Err(SettingsError::AlphaOrBetaWithPlanck)
            } else {
                Ok(())
            },
            CliTaperType::Bessel | CliTaperType::Cosine => if has_beta {
                Err(SettingsError::BetaWithoutBetaCdf)
            } else {
                Ok(())
            },
            CliTaperType::BetaCdf => Ok(()),
        }),
{
    match taper {
        CliTaperType::Planck => if has_alpha || has_beta {
            Err(SettingsError::AlphaOrBetaWithPlanck)
        } else {
            Ok(())
        },
        CliTaperType::Bessel | CliTaperType::Cosine => if has_beta {
            Err(SettingsError::BetaWithoutBetaCdf)
        } else {
            Ok(())
        },
        CliTaperType::BetaCdf => Ok(()),
    }
}

/// The ardftsrc quality must be positive.
pub fn check_quality(quality: usize) -> (r: Result<(), SettingsError>)
    ensures
        r == (if quality == 0 {
            Err(SettingsError::ZeroQuality)
        } else {
            Ok::<(), SettingsError>(())
        }),
{
    if quality == 0 {
        Err(SettingsError::ZeroQuality)
    } else {
        Ok(())
    }
}

/// The double-double FFT works on 64-bit samples only.
pub fn check_dd_fft(dd_fft: bool, float_variant: FloatVariant) -> (r: Result<(), SettingsError>)
    ensures
        r == (if dd_fft && float_variant == FloatVariant::F32 {
            Err(SettingsError::DdFftWithF32)
        } else {
            Ok::<(), SettingsError>(())
        }),
{
    if dd_fft && float_variant == FloatVariant::F32 {
        Err(SettingsError::DdFftWithF32)
    } else {
        Ok(())
    }
}

/// The rubato chunk size and sub-chunk count must both be positive.
pub fn check_rubato_chunking(chunk_size: usize, sub_chunk: usize) -> (r: Result<
    (),
    SettingsError,
>)
    ensures
        r == (if chunk_size == 0 || sub_chunk == 0 {
            Err(SettingsError::ZeroChunking)
        } else {
            Ok::<(), SettingsError>(())
        }),
{
    if chunk_size == 0 || sub_chunk == 0 {
        Err(SettingsError::ZeroChunking)
    } else {
        Ok(())
    }
}

/// The ASCII digit of a value below ten.
pub open spec fn digit(d: nat) -> u8 {
    (0x30 + d) as u8
}

/// The decimal digits of `n`, most significant first, without leading zeros.
pub open spec fn decimal_spec(n: nat) -> Seq<u8>
    decreases n,
{
    if n < 10 {
        seq![digit(n)]
    } else {
        decimal_spec(n / 10).push(digit(n % 10))
    }
}

/// The number that a string of ASCII digits denotes.
pub open spec fn digits_value(s: Seq<u8>) -> int
    decreases s.len(),
{
    if s.len() == 0 {
        0
    } else {
        digits_value(s.drop_last()) * 10 + (s.last() - 0x30)
    }
}

/// `n` in decimal, as `format!("{}", n)` writes it.
pub fn decimal(n: usize) -> (r: Vec<u8>)
    ensures
        r@ == decimal_spec(n as nat),
    decreases n,
{
    if n < 10 {
        let mut r: Vec<u8> = Vec::new();
        r.push(0x30 + n as u8);
        r
    } else {
        let mut r = decimal(n / 10);
        r.push(0x30 + (n % 10) as u8);
        r
    }
}

/// The output prefix of a rubato run: `output-rubato-`, the chunk size, a
/// dash, and the sub-chunk count.
pub open spec fn rubato_output_label_spec(chunk_size: nat, sub_chunk: nat) -> Seq<u8> {
    "output-rubato-".spec_bytes() + decimal_spec(chunk_size) + "-".spec_bytes() + decimal_spec(
        sub_chunk,
    )
}

/// The output prefix of a rubato run, as bytes.
pub fn rubato_output_label(chunk_size: usize, sub_chunk: usize) -> (r: Vec<u8>)
    ensures
        r@ == rubato_output_label_spec(chunk_size as nat, sub_chunk as nat),
{
    let mut r: Vec<u8> = Vec::new();
    push_all(&mut r, "output-rubato-".as_bytes());
    let c = decimal(chunk_size);
    push_all(&mut r, c.as_slice());
    push_all(&mut r, "-".as_bytes());
    let s = decimal(sub_chunk);
    push_all(&mut r, s.as_slice());
    r
}

/// The decimal form of a number reads back as that number, is made of ASCII
/// digits, and starts with a zero only when it is zero.
pub proof fn lemma_decimal_round_trip(n: nat)
    ensures
        digits_value(decimal_spec(n)) == n,
        decimal_spec(n).len() > 0,
        forall|i: int| 0 <= i < decimal_spec(n).len() ==> 0x30 <= #[trigger] decimal_spec(n)[i] <= 0x39,
        decimal_spec(n)[0] == 0x30 ==> n == 0,
    decreases n,
{
    if n >= 10 {
        lemma_decimal_round_trip(n / 10);
        let s = decimal_spec(n);
        assert(s.drop_last() =~= decimal_spec(n / 10));
        assert forall|i: int| 0 <= i < s.len() implies 0x30 <= #[trigger] s[i] <= 0x39 by {
            if i < s.len() - 1 {
                assert(s[i] == decimal_spec(n / 10)[i]);
            }
        }
        assert(s[0] == decimal_spec(n / 10)[0]);
        assert(s.last() == digit(n % 10));
        assert(digit(n % 10) == 0x30 + n % 10);
        assert(n == (n / 10) * 10 + n % 10);
        assert(digits_value(s.drop_last()) == n / 10);
        assert(digits_value(s) == digits_value(s.drop_last()) * 10 + (s.last() - 0x30));
    } else {
        assert(decimal_spec(n).drop_last() =~= Seq::<u8>::empty());
        assert(digit(n) == 0x30 + n);
        assert(digits_value(decimal_spec(n)) == digits_value(decimal_spec(n).drop_last()) * 10 + (decimal_spec(n).last() - 0x30));
    }
}

/// The bytes of `output-rubato-`.
pub open spec fn rubato_label_prefix() -> Seq<u8> {
    seq![
        0x6fu8, 0x75u8, 0x74u8, 0x70u8, 0x75u8, 0x74u8, 0x2du8, 0x72u8, 0x75u8, 0x62u8, 0x61u8,
        0x74u8, 0x6fu8, 0x2du8,
    ]
}

/// `s` is a decimal numeral: ASCII digits, at least one, and no leading zero
/// unless it is `0` itself.
pub open spec fn is_numeral(s: Seq<u8>) -> bool {
    &&& s.len() > 0
    &&& forall|i: int| 0 <= i < s.len() ==> 0x30 <= #[trigger] s[i] <= 0x39
    &&& (s[0] == 0x30 ==> s.len() == 1)
}

/// The rubato output label is `output-rubato-`, the chunk size as a decimal
/// numeral, a dash, and the sub-chunk count as a decimal numeral: reading the
/// numerals back gives the chunk size and the sub-chunk count.
pub proof fn lemma_rubato_label_reads_back(chunk_size: nat, sub_chunk: nat)
    ensures
        ({
            let l = rubato_output_label_spec(chunk_size, sub_chunk);
            &&& l.len() > 14
            &&& l.subrange(0, 14) == rubato_label_prefix()
            &&& exists|k: int|
                14 < k < l.len() - 1 && l[k] == 0x2d && is_numeral(#[trigger] l.subrange(14, k))
                    && digits_value(l.subrange(14, k)) == chunk_size && is_numeral(
                    l.subrange(k + 1, l.len() as int),
                ) && digits_value(l.subrange(k + 1, l.len() as int)) == sub_chunk
        }),
{
    reveal_strlit("output-rubato-");
    reveal_strlit("-");
    vstd::utf8::is_ascii_chars_encode_utf8("output-rubato-"@);
    vstd::utf8::is_ascii_chars_encode_utf8("-"@);
    assert("output-rubato-".spec_bytes() =~= rubato_label_prefix());
    assert("-".spec_bytes() =~= seq![0x2du8]);
    lemma_decimal_round_trip(chunk_size);
    lemma_decimal_round_trip(sub_chunk);
    let c = decimal_spec(chunk_size);
    let s = decimal_spec(sub_chunk);
    let l = rubato_output_label_spec(chunk_size, sub_chunk);
    assert(l =~= rubato_label_prefix() + c + seq![0x2du8] + s);
    let k: int = 14 + c.len() as int;
    assert(l.subrange(0, 14) =~= rubato_label_prefix());
    assert(l.subrange(14, k) =~= c);
    assert(l.subrange(k + 1, l.len() as int) =~= s);
    assert(l[k] == 0x2d);
    assert(is_numeral(l.subrange(14, k)));
}

} // verus!
