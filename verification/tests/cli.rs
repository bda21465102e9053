use hydrogen_src::cli::{
    check_dd_fft, check_quality, check_rubato_chunking, check_taper_arguments, decimal,
    rubato_output_label, CliTaperType, PresetArg, SettingsError,
};
use hydrogen_src::FloatVariant;

#[test]
fn preset_and_taper_slugs() {
    assert_eq!(PresetArg::Fast.slug(), "fast");
    assert_eq!(PresetArg::Good.slug(), "good");
    assert_eq!(PresetArg::High.slug(), "high");
    assert_eq!(PresetArg::Extreme.slug(), "extreme");
    assert_eq!(CliTaperType::Planck.slug(), "planck");
    assert_eq!(CliTaperType::Bessel.slug(), "bessel");
    assert_eq!(CliTaperType::Cosine.slug(), "cosine");
    assert_eq!(CliTaperType::BetaCdf.slug(), "beta_cdf");
}

#[test]
fn taper_arguments() {
    assert_eq!(check_taper_arguments(CliTaperType::Planck, false, false), Ok(()));
    assert_eq!(
        check_taper_arguments(CliTaperType::Planck, true, false),
        Err(SettingsError::AlphaOrBetaWithPlanck)
    );
    assert_eq!(
        check_taper_arguments(CliTaperType::Planck, false, true),
        Err(SettingsError::AlphaOrBetaWithPlanck)
    );
    assert_eq!(check_taper_arguments(CliTaperType::Bessel, true, false), Ok(()));
    assert_eq!(
        check_taper_arguments(CliTaperType::Cosine, true, true),
        Err(SettingsError::BetaWithoutBetaCdf)
    );
    assert_eq!(check_taper_arguments(CliTaperType::BetaCdf, true, true), Ok(()));
}

#[test]
fn setting_checks() {
    assert_eq!(check_quality(0), Err(SettingsError::ZeroQuality));
    assert_eq!(check_quality(2048), Ok(()));
    assert_eq!(check_dd_fft(true, FloatVariant::F32), Err(SettingsError::DdFftWithF32));
    assert_eq!(check_dd_fft(true, FloatVariant::F64), Ok(()));
    assert_eq!(check_dd_fft(false, FloatVariant::F32), Ok(()));
    assert_eq!(check_rubato_chunking(0, 1), Err(SettingsError::ZeroChunking));
    assert_eq!(check_rubato_chunking(512, 0), Err(SettingsError::ZeroChunking));
    assert_eq!(check_rubato_chunking(512, 1), Ok(()));
    assert_eq!(
        SettingsError::ZeroChunking.message(),
        "--chunk-size and --sub-chunk must be > 0"
    );
}

#[test]
fn decimal_matches_format() {
    for n in [0usize, 7, 10, 99, 512, 1000, 65535, usize::MAX] {
        assert_eq!(decimal(n), format!("{}", n).into_bytes());
    }
}

#[test]
fn rubato_label() {
    assert_eq!(rubato_output_label(512, 1), b"output-rubato-512-1".to_vec());
    assert_eq!(rubato_output_label(1024, 2), format!("output-rubato-{}-{}", 1024, 2).into_bytes());
}
