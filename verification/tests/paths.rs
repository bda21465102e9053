use hydrogen_src::path::{
    absolutize, extension, file_name, file_stem, has_extension, is_absolute, join,
};

fn b(s: &str) -> Vec<u8> {
    s.as_bytes().to_vec()
}

#[test]
fn join_relative_adds_separator() {
    assert_eq!(join(b"/work", b"output"), b("/work/output"));
    assert_eq!(join(b"/work/", b"output"), b("/work/output"));
    assert_eq!(join(b"", b"output"), b("output"));
    assert_eq!(join(b"a", b""), b("a/"));
}

#[test]
fn join_absolute_replaces() {
    assert_eq!(join(b"/work", b"/elsewhere/x"), b("/elsewhere/x"));
}

#[test]
fn absolutize_uses_cwd_only_for_relative_paths() {
    assert_eq!(absolutize(b"ws", b"/home/me"), b("/home/me/ws"));
    assert_eq!(absolutize(b"/abs/ws", b"/home/me"), b("/abs/ws"));
    assert!(is_absolute(b"/x"));
    assert!(!is_absolute(b"x/y"));
    assert!(!is_absolute(b""));
}

#[test]
fn file_name_follows_std() {
    assert_eq!(file_name(b"/usr/bin/"), Some(b("bin")));
    assert_eq!(file_name(b"tmp/foo.txt"), Some(b("foo.txt")));
    assert_eq!(file_name(b"foo.txt/."), Some(b("foo.txt")));
    assert_eq!(file_name(b"foo.txt/.//"), Some(b("foo.txt")));
    assert_eq!(file_name(b"foo.txt/.."), None);
    assert_eq!(file_name(b"/"), None);
    assert_eq!(file_name(b"."), None);
    assert_eq!(file_name(b""), None);
    assert_eq!(file_name(b"./a"), Some(b("a")));
    assert_eq!(file_name(b"a/.b"), Some(b(".b")));
}

#[test]
fn extension_and_stem_follow_std() {
    assert_eq!(extension(b"/d/foo.rs"), Some(b("rs")));
    assert_eq!(extension(b"/d/foo.tar.gz"), Some(b("gz")));
    assert_eq!(extension(b"/d/.wav"), None);
    assert_eq!(extension(b"/d/foo"), None);
    assert_eq!(extension(b"/d/foo."), Some(b("")));
    assert_eq!(file_stem(b"/d/foo.tar.gz"), Some(b("foo.tar")));
    assert_eq!(file_stem(b"/d/.wav"), Some(b(".wav")));
    assert_eq!(file_stem(b"/d/.."), None);
    assert_eq!(file_stem(b"/d/noext"), Some(b("noext")));
}

#[test]
fn has_extension_ignores_ascii_case() {
    assert!(has_extension(b"/d/a.WAV", b"wav"));
    assert!(has_extension(b"/d/a.Png", b"png"));
    assert!(!has_extension(b"/d/a.wave", b"wav"));
    assert!(!has_extension(b"/d/wav", b"wav"));
}
