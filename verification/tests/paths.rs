use std::path::Path;

use lrc_sync::db::{rel_path, relative_bytes};
use lrc_sync::paths::{
    join, path_extension, path_name, path_parent, path_stem, plain_path, readable_text,
    with_extension,
};

const SAMPLES: &[&str] = &[
    "", "/", "//", ".", "./", "..", "../", "a", "a/", "a/.", "a/./", "a/..", "./a", ".//a", "/a",
    "//a", "/./a", "/a/b.mp3", "/a//b.mp3", "/a/./b.mp3", "/a/b.mp3/", "a.b.c", ".hidden",
    ".hidden.mp3", "a.", "a..", "...", "/music/x.lrc", "/music/no extension",
];

fn bytes(p: &Path) -> Vec<u8> {
    p.to_str().unwrap().as_bytes().to_vec()
}

#[test]
fn parts_of_paths_agree_with_std() {
    for sample in SAMPLES {
        let path = Path::new(sample);
        let raw = sample.as_bytes();
        assert_eq!(path_name(raw), path.file_name().map(|part| bytes(Path::new(part))), "name of {sample:?}");
        assert_eq!(path_stem(raw), path.file_stem().map(|part| bytes(Path::new(part))), "stem of {sample:?}");
        assert_eq!(path_extension(raw), path.extension().map(|part| bytes(Path::new(part))), "extension of {sample:?}");
        assert_eq!(path_parent(raw), path.parent().map(bytes), "parent of {sample:?}");
        assert_eq!(
            with_extension(raw, b"lrc"),
            bytes(&path.with_extension("lrc")),
            "other extension of {sample:?}"
        );
    }
}

#[test]
fn a_stem_of_one_dot_is_a_stem() {
    assert_eq!(path_stem(b"/m/..mp3"), Some(b".".to_vec()));
    assert_eq!(path_extension(b"/m/..mp3"), Some(b"mp3".to_vec()));
    assert_eq!(with_extension(b"/m/..mp3", b"lrc"), b"/m/..lrc".to_vec());
}

#[test]
fn joined_paths_agree_with_std() {
    for dir in SAMPLES {
        for name in ["x", "x/y", "/x", ""] {
            assert_eq!(
                join(dir.as_bytes(), name.as_bytes()),
                bytes(&Path::new(dir).join(name)),
                "{dir:?} and {name:?}"
            );
        }
    }
}

#[test]
fn paths_are_the_same_where_std_says_so() {
    let more = [
        "./a/", "././a", "a/./b", "a//b", "a/b/", "a/b/.", "/a/b", "/a/./b", "/./a//b/.", "a/../b",
        "../a", ".././a", "/..", "/../", "./..", "..", ".", "./.", "/.", "/./", ".a", "a/.b",
    ];
    let all: Vec<&str> = SAMPLES.iter().chain(more.iter()).copied().collect();
    for one in &all {
        for other in &all {
            assert_eq!(
                plain_path(one.as_bytes()) == plain_path(other.as_bytes()),
                Path::new(one) == Path::new(other),
                "{one:?} and {other:?}"
            );
        }
        let plain = plain_path(one.as_bytes());
        assert_eq!(plain_path(&plain), plain);
        assert_eq!(Path::new(std::str::from_utf8(&plain).unwrap()), Path::new(one));
    }
    assert_eq!(plain_path(b"/./m//a/./b.mp3"), b"/m/a/b.mp3".to_vec());
}

#[test]
fn keys_are_relative_to_the_music_directory() {
    assert_eq!(rel_path(b"/music/a/b.mp3", b"/music"), "a/b.mp3");
    assert_eq!(rel_path(b"/music/a/b.mp3", b"/music/"), "a/b.mp3");
    assert_eq!(rel_path(b"/music//a/b.mp3", b"/music"), "a/b.mp3");
    assert_eq!(rel_path(b"/music/./a/b.mp3", b"/music/."), "a/b.mp3");
    assert_eq!(rel_path(b"/musical/b.mp3", b"/music"), "/musical/b.mp3");
    assert_eq!(rel_path(b"/other/b.mp3", b"/music"), "/other/b.mp3");
    assert_eq!(rel_path(b"./a/b.mp3", b"."), "a/b.mp3");
    assert_eq!(rel_path(b"/a/b.mp3", b"/"), "a/b.mp3");
    assert_eq!(rel_path(b"a/b.mp3", b""), "a/b.mp3");
    assert_eq!(rel_path(b"/music", b"/music"), "");
}

#[test]
fn keys_agree_with_std_below_the_directory() {
    for base in ["/music", "/music/", "/music/.", "/", ".", "./", "m", "m//"] {
        for rest in ["a", "a/b.mp3", ".a", "..", "a b/c"] {
            let path = Path::new(base).join(rest);
            assert_eq!(
                relative_bytes(&bytes(&path), base.as_bytes()),
                bytes(path.strip_prefix(base).unwrap()),
                "{rest:?} below {base:?}"
            );
        }
    }
}

#[test]
fn invalid_text_is_replaced() {
    assert_eq!(readable_text("h\u{e9}".as_bytes()), "h\u{e9}");
    assert_eq!(readable_text(b"a\xff.mp3"), "a\u{fffd}.mp3");
    assert_eq!(rel_path(b"/music/a\xff.mp3", b"/music"), "a\u{fffd}.mp3");
}
