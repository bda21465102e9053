use hydrogen_src::analysis::{normalized_output_path, quality_metric_text};
use hydrogen_src::layout::{HydrogenConfig, LocalLayout};
use hydrogen_src::listing::{list_wavs, DirEntry};
use hydrogen_src::path::{absolutize, file_name, has_extension, join};
use hydrogen_src::FloatVariant;

#[test]
fn joined_name_is_the_file_name() {
    for dir in [&b""[..], b"/", b"/a/b", b"rel/", b"/a/./"] {
        assert_eq!(file_name(&join(dir, b"x.wav")), Some(b"x.wav".to_vec()));
    }
}

#[test]
fn absolutize_twice_changes_nothing() {
    let once = absolutize(b"ws/out", b"/home/me");
    assert_eq!(once, b"/home/me/ws/out".to_vec());
    assert_eq!(absolutize(&once, b"/elsewhere"), once);
}

#[test]
fn reported_zip_path_names_the_written_archive() {
    for work_dir in ["workspace", "/abs/ws", "", "a/b/"] {
        let c = HydrogenConfig::new(work_dir.as_bytes().to_vec(), FloatVariant::F64, "output-x");
        let cwd = b"/home/me";
        assert_eq!(absolutize(&c.reported_output_zip_path(), cwd), c.output_zip_path(cwd));
    }
}

#[test]
fn local_input_dir_is_named_like_the_pack() {
    let l = LocalLayout::new(b"ws".to_vec(), b"s".to_vec());
    for v in [FloatVariant::F32, FloatVariant::F64] {
        assert_eq!(
            file_name(&l.sample_input_dir(v, b"/r")),
            Some(v.extracted_sample_pack_dir().as_bytes().to_vec())
        );
    }
}

#[test]
fn normalized_copy_is_listed_and_never_the_source() {
    let target = normalized_output_path(b"/o", b"/o/sweep-64bitfloat.wav").ok().unwrap().unwrap();
    assert!(has_extension(&target, b"wav"));
    assert_ne!(file_name(&target), Some(b"sweep-64bitfloat.wav".to_vec()));
    let entries = vec![DirEntry { name: file_name(&target).unwrap(), is_file: true }];
    assert_eq!(list_wavs(b"/o", &entries), vec![target]);
}

#[test]
fn normalized_copy_of_a_bare_suffix_loses_its_extension() {
    let target = normalized_output_path(b"/o", b"/o/-64bitfloat.wav").ok().unwrap().unwrap();
    assert_eq!(target, b"/o/.wav".to_vec());
    assert!(!has_extension(&target, b"wav"));
}

#[test]
fn metric_text_has_no_white_space_at_its_ends() {
    let contents: Vec<char> = "\t 1.25 \u{2003}\r\n".chars().collect();
    let line = quality_metric_text(b"/q", &contents, 0).ok().unwrap();
    assert_eq!(line, vec!['1', '.', '2', '5']);
    assert!(!line.first().unwrap().is_whitespace() && !line.last().unwrap().is_whitespace());
}
