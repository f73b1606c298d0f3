use lrc_sync::names::{
    clean_name, draft_path, file_name, find_orphan_index, find_orphan_match, index_of_text,
    is_audio_file, is_lyrics_file, pick_match, sidecar_name, sidecar_path, track_number,
};

fn texts(items: &[&str]) -> Vec<String> {
    items.iter().map(|item| item.to_string()).collect()
}

#[test]
fn audio_files_are_known_by_extension() {
    for name in ["a.mp3", "/m/a.FLAC", "a.m4a", "a.Ogg", "x/a.b.opus", "..mp3"] {
        assert!(is_audio_file(name.as_bytes()), "{name}");
        assert!(!is_lyrics_file(name.as_bytes()), "{name}");
    }
    for name in ["a.wav", "mp3", ".mp3", "a.mp3/..", "a.mp", "a.mp33", ""] {
        assert!(!is_audio_file(name.as_bytes()), "{name}");
    }
    assert!(!is_audio_file(b"a.mp3\xff"));
}

#[test]
fn lyrics_files_are_known_by_extension() {
    assert!(is_lyrics_file(b"/m/a.lrc"));
    assert!(is_lyrics_file(b"a.LRC"));
    assert!(!is_lyrics_file(b".lrc"));
    assert!(!is_lyrics_file(b"a.lrc.tmp"));
}

#[test]
fn names_are_read_as_text() {
    assert_eq!(file_name(b"/m/a.mp3"), "a.mp3");
    assert_eq!(file_name(b"/m/a\xff.mp3"), "a\u{fffd}.mp3");
    assert_eq!(file_name(b"/m/.."), "");
}

#[test]
fn lyrics_stand_beside_their_audio() {
    assert_eq!(sidecar_path(b"/m/01 a.b.mp3"), b"/m/01 a.b.lrc".to_vec());
    assert_eq!(sidecar_name(b"/m/01 a.b.mp3"), "01 a.b.lrc");
    assert_eq!(sidecar_name(b"/m/.."), "unknown.lrc");
    assert_eq!(draft_path(b"/m/01 a.b.lrc"), b"/m/01 a.b.lrc.tmp".to_vec());
}

#[test]
fn written_lyrics_are_found_by_the_next_scan() {
    let audio = b"/m/\xc3\xa4 song.flac";
    let lrc = sidecar_path(audio);
    assert!(is_lyrics_file(&lrc));
    assert_eq!(file_name(&lrc), sidecar_name(audio));
    let draft = draft_path(&lrc);
    assert!(!is_lyrics_file(&draft));
    assert!(!is_audio_file(&draft));
}

#[test]
fn track_numbers_lead_the_name() {
    assert_eq!(track_number("07 - Song.mp3"), Some(7));
    assert_eq!(track_number("Song 7.mp3"), None);
    assert_eq!(track_number(""), None);
    assert_eq!(track_number("4294967295x"), Some(u32::MAX));
    assert_eq!(track_number("4294967296x"), None);
}

#[test]
fn names_are_cleaned() {
    assert_eq!(clean_name("03. My Song (Live) [HD].mp3"), "mysong");
    assert_eq!(clean_name("My_Song FEAT. Someone.lrc"), "mysong");
    assert_eq!(clean_name("Left ft Right.lrc"), "left");
    assert_eq!(clean_name("Lefty.lrc"), "lefty");
    assert_eq!(clean_name("12.mp3"), "");
    assert_eq!(clean_name("3 \u{c4}bc.mp3"), "\u{c4}bc");
    assert_eq!(clean_name(".."), "");
}

#[test]
fn clean_names_forget_extension_and_case() {
    for stem in ["03. My Song (Live)", ".", "..", "a.b", "M\u{c4}r FEAT x", "Ft. Worth_[x]", "\u{17f}K"] {
        let song = clean_name(&format!("{stem}.mp3"));
        assert_eq!(song, clean_name(&format!("{stem}.lrc")));
        assert_eq!(song, clean_name(&format!("{stem}.mp3").to_ascii_uppercase()));
        assert_eq!(song, clean_name(&format!("{stem}.mp3").to_ascii_lowercase()));
        assert!(song.chars().all(|c| c != '_' && !c.is_ascii_uppercase()));
        assert!(song.chars().all(|c| !c.is_ascii() || c.is_ascii_alphanumeric()));
    }
}

#[test]
fn only_parts_of_words_are_left() {
    assert_eq!(clean_name("a-b_c \u{2014} d\u{e9}\u{301}!.mp3"), "abcd\u{e9}\u{301}");
}

#[test]
fn orphans_match_by_number_first() {
    let names = texts(&["Song.lrc", "2 Other.lrc", "02 Third.lrc"]);
    assert_eq!(find_orphan_match(b"/m/02 Song.mp3", &names), Some("2 Other.lrc".to_string()));
    assert_eq!(find_orphan_index(b"/m/02 Song.mp3", &names), Some(1));
}

#[test]
fn orphans_match_by_cleaned_name_next() {
    let names = texts(&["1 Song.lrc", "SONG (live).lrc"]);
    assert_eq!(find_orphan_match(b"/m/Song.mp3", &names), Some("1 Song.lrc".to_string()));
    assert_eq!(find_orphan_match(b"/m/9 song.mp3", &names), Some("1 Song.lrc".to_string()));
    assert_eq!(find_orphan_match(b"/m/9 tune.mp3", &names), None);
    assert_eq!(find_orphan_match(b"/m/Song.mp3", &Vec::new()), None);
}

#[test]
fn a_match_agrees_in_number_or_name() {
    let tracks = vec![None, Some(4), Some(5)];
    let cleans = texts(&["a", "b", "a"]);
    assert_eq!(pick_match(Some(5), "a", &tracks, &cleans), Some(2));
    assert_eq!(pick_match(Some(6), "a", &tracks, &cleans), Some(0));
    assert_eq!(pick_match(None, "b", &tracks, &cleans), Some(1));
    assert_eq!(pick_match(None, "c", &tracks, &cleans), None);
}

#[test]
fn the_first_equal_text_is_found() {
    let among = texts(&["x", "y", "y"]);
    assert_eq!(index_of_text("y", &among), Some(1));
    assert_eq!(index_of_text("z", &among), None);
}
