use hydrogen_src::analysis::{
    check_octave_packages, classify_analysis_file, file_name_from_path, normalized_output_path,
    quality_metric_text, MetricRead, QualityMetric,
};
use hydrogen_src::HydrogenError;

fn chars(s: &str) -> Vec<char> {
    s.chars().collect()
}

fn b(s: &str) -> Vec<u8> {
    s.as_bytes().to_vec()
}

#[test]
fn metric_text_first_line() {
    let got = quality_metric_text(b"/a/q.txt", &chars("  97.5  \n12\n\n"), 0).ok().unwrap();
    assert_eq!(got, chars("97.5"));
}

#[test]
fn metric_text_second_line_with_crlf() {
    let got = quality_metric_text(b"/a/q.txt", &chars("-42.25\r\n 3.5\r\n"), 1).ok().unwrap();
    assert_eq!(got, chars("3.5"));
}

#[test]
fn metric_text_missing_line() {
    match quality_metric_text(b"/a/q.txt", &chars("1.0\n\n\n"), 1) {
        Err(HydrogenError::EmptyQualityMetric { path }) => assert_eq!(path, b("/a/q.txt")),
        _ => panic!("expected an empty metric"),
    }
    assert!(matches!(
        quality_metric_text(b"/a/q.txt", &chars(" \t\n"), 0),
        Err(HydrogenError::EmptyQualityMetric { .. })
    ));
}

#[test]
fn metric_text_unicode_whitespace() {
    let got = quality_metric_text(b"/q", &chars("\u{3000}7\u{a0}\n"), 0).ok().unwrap();
    assert_eq!(got, chars("7"));
}

#[test]
fn classify_metric_files() {
    let e = classify_analysis_file(b"/r/quality-impulse_freq.txt").ok().unwrap();
    assert_eq!(
        e.reads,
        vec![
            MetricRead { metric: QualityMetric::AverageImpulseFreq, line: 0 },
            MetricRead { metric: QualityMetric::ImpulseFreq, line: 1 },
        ]
    );
    assert!(!e.is_figure);
    let d = classify_analysis_file(b"/r/calculateddelay.txt").ok().unwrap();
    assert_eq!(d.reads, vec![MetricRead { metric: QualityMetric::Delay, line: 0 }]);
    let s = classify_analysis_file(b"/r/quality-spectrogram.txt").ok().unwrap();
    assert_eq!(s.reads, vec![MetricRead { metric: QualityMetric::Spectrogram, line: 0 }]);
    let f = classify_analysis_file(b"/r/sweep.PNG").ok().unwrap();
    assert!(f.reads.is_empty());
    assert!(f.is_figure);
}

#[test]
fn classify_rejects_non_utf8_names() {
    match classify_analysis_file(b"/r/\xff.png") {
        Err(HydrogenError::MissingFileName(p)) => assert_eq!(p, b"/r/\xff.png".to_vec()),
        _ => panic!("expected a missing file name"),
    }
    assert!(matches!(classify_analysis_file(b"/"), Err(HydrogenError::MissingFileName(_))));
}

#[test]
fn file_name_errors_name_the_path() {
    assert_eq!(file_name_from_path(b"/x/y.wav").ok().unwrap(), b("y.wav"));
    match file_name_from_path(b"/x/..") {
        Err(HydrogenError::MissingFileName(p)) => assert_eq!(p, b("/x/..")),
        _ => panic!("expected a missing file name"),
    }
}

#[test]
fn normalized_outputs() {
    assert_eq!(
        normalized_output_path(b"/o", b"/o/sweep-64bitfloat.wav").ok().unwrap(),
        Some(b("/o/sweep.wav"))
    );
    assert_eq!(
        normalized_output_path(b"/o", b"/o/imp-32bitfloat.wav").ok().unwrap(),
        Some(b("/o/imp.wav"))
    );
    assert_eq!(normalized_output_path(b"/o", b"/o/plain.wav").ok().unwrap(), None);
    assert!(matches!(
        normalized_output_path(b"/o", b"/o/\xfe-32bitfloat.wav"),
        Err(HydrogenError::MissingFileName(_))
    ));
}

#[test]
fn octave_packages_all_present() {
    assert!(check_octave_packages(&chars("control\n  signal \nimage\n")).is_ok());
}

#[test]
fn octave_packages_missing_listed_in_order() {
    match check_octave_packages(&chars("control\nsignalx\n\n")) {
        Err(HydrogenError::MissingOctavePackages(v)) => {
            assert_eq!(v, vec!["signal".to_string(), "image".to_string()])
        }
        _ => panic!("expected missing packages"),
    }
    match check_octave_packages(&chars("signal\r\n")) {
        Err(HydrogenError::MissingOctavePackages(v)) => assert_eq!(v, vec!["image".to_string()]),
        _ => panic!("expected missing packages"),
    }
}
