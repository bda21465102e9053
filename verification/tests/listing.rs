use hydrogen_src::listing::{le_bytes, list_wavs, sort_paths, DirEntry};

fn e(name: &str, is_file: bool) -> DirEntry {
    DirEntry { name: name.as_bytes().to_vec(), is_file }
}

#[test]
fn list_wavs_filters_and_sorts() {
    let entries = vec![
        e("zeta.wav", true),
        e("Alpha.WAV", true),
        e("notes.txt", true),
        e("beta.wav", false),
        e("mid.Wav", true),
        e(".wav", true),
    ];
    let got = list_wavs(b"/s", &entries);
    let want: Vec<Vec<u8>> = vec![
        b"/s/Alpha.WAV".to_vec(),
        b"/s/mid.Wav".to_vec(),
        b"/s/zeta.wav".to_vec(),
    ];
    assert_eq!(got, want);
}

#[test]
fn list_wavs_of_empty_directory() {
    assert!(list_wavs(b"/s", &vec![]).is_empty());
}

#[test]
fn sort_paths_bytewise_prefix_first() {
    let paths: Vec<Vec<u8>> = vec![b"/d/b".to_vec(), b"/d/ab".to_vec(), b"/d/a".to_vec(), b"/d/B".to_vec()];
    let want: Vec<Vec<u8>> = vec![b"/d/B".to_vec(), b"/d/a".to_vec(), b"/d/ab".to_vec(), b"/d/b".to_vec()];
    assert_eq!(sort_paths(&paths), want);
}

#[test]
fn sorted_order_matches_std_path_order() {
    let mut std_sorted: Vec<std::path::PathBuf> = ["/d/x-2.wav", "/d/x.wav", "/d/X.wav", "/d/x10.wav"]
        .iter()
        .map(std::path::PathBuf::from)
        .collect();
    std_sorted.sort();
    let ours = sort_paths(&std_sorted.iter().rev().map(|p| p.to_str().unwrap().as_bytes().to_vec()).collect());
    let theirs: Vec<Vec<u8>> = std_sorted.iter().map(|p| p.to_str().unwrap().as_bytes().to_vec()).collect();
    assert_eq!(ours, theirs);
}

#[test]
fn le_bytes_is_lexicographic() {
    assert!(le_bytes(b"", b""));
    assert!(le_bytes(b"a", b"ab"));
    assert!(!le_bytes(b"ab", b"a"));
    assert!(le_bytes(b"ab", b"b"));
    assert!(!le_bytes(b"b", b"ab"));
}
