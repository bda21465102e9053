use hydrogen_src::FloatVariant;

#[test]
fn sample_pack_names_f32() {
    let v = FloatVariant::F32;
    assert_eq!(v.sample_pack_filename(), "src-test-32bitfloat.zip");
    assert_eq!(
        v.sample_pack_url(),
        "https://src.hydrogenaudio.org/testsamples/src-test-32bitfloat.zip"
    );
    assert_eq!(v.extracted_sample_pack_dir(), "32bitfloat");
    assert_eq!(v.slug(), "f32");
}

#[test]
fn sample_pack_names_f64() {
    let v = FloatVariant::F64;
    assert_eq!(v.sample_pack_filename(), "src-test-64bitfloat.zip");
    assert_eq!(
        v.sample_pack_url(),
        "https://src.hydrogenaudio.org/testsamples/src-test-64bitfloat.zip"
    );
    assert_eq!(v.extracted_sample_pack_dir(), "64bitfloat");
    assert_eq!(v.slug(), "f64");
}

#[test]
fn url_is_base_followed_by_file_name() {
    for v in [FloatVariant::F32, FloatVariant::F64] {
        let expected = format!(
            "{}{}",
            hydrogen_src::variant::SAMPLE_PACK_BASE_URL,
            v.sample_pack_filename()
        );
        assert_eq!(v.sample_pack_url(), expected);
        assert_eq!(
            v.sample_pack_filename(),
            format!("src-test-{}.zip", v.extracted_sample_pack_dir())
        );
    }
}
