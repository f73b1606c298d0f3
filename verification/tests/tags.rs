use lrc_sync::tags::{clean_metadata_value, read_tags, RawAudio, RawTag, TagError, TrackTags};

#[test]
fn test_clean_metadata_strips_remaster() {
    assert_eq!(
        clean_metadata_value("Song Title (Remastered 2023)"),
        "Song Title"
    );
}

#[test]
fn test_clean_metadata_strips_deluxe_edition() {
    assert_eq!(
        clean_metadata_value("Album Name [Deluxe Edition]"),
        "Album Name"
    );
}

#[test]
fn test_clean_metadata_preserves_normal() {
    assert_eq!(
        clean_metadata_value("Normal Song Title"),
        "Normal Song Title"
    );
}

#[test]
fn test_clean_metadata_empty() {
    assert_eq!(clean_metadata_value(""), "");
    assert_eq!(clean_metadata_value("  "), "  ");
}

#[test]
fn test_cleaned_tags() {
    let tags = TrackTags {
        title: "Song (Remastered 2020)".to_string(),
        artist: "Artist".to_string(),
        album: "Album [Deluxe Edition]".to_string(),
        duration_secs: 200,
    };
    let cleaned = tags.cleaned();
    assert_eq!(cleaned.title, "Song");
    assert_eq!(cleaned.album, "Album");
    assert_eq!(cleaned.artist, "Artist");
    assert_eq!(cleaned.duration_secs, 200);
}

fn raw(title: Option<&str>, artist: Option<&str>, album_artist: Option<&str>) -> RawTag {
    RawTag {
        title: title.map(str::to_string),
        artist: artist.map(str::to_string),
        album_artist: album_artist.map(str::to_string),
        album: Some(" Album ".to_string()),
    }
}

#[test]
fn only_the_last_remark_is_stripped() {
    assert_eq!(clean_metadata_value("Song (Live) (Remastered)"), "Song (Live)");
    assert_eq!(clean_metadata_value("Song {2011 - Digitally Remastered}  "), "Song");
    assert_eq!(clean_metadata_value("Song (Oliver)"), "Song (Oliver)");
    assert_eq!(clean_metadata_value("  Song  "), "Song");
    assert_eq!(clean_metadata_value("(Live)"), "");
}

#[test]
fn cleaning_takes_only_an_end() {
    for value in [" A (Live) B (Remix) ", "A (live)\n", "(Mono) A", "A [Mix", "A (Live)\nB"] {
        let cleaned = clean_metadata_value(value);
        assert!(value.trim_start().starts_with(&cleaned), "{value:?}");
    }
    assert_eq!(clean_metadata_value(" A (Live) B (Remix) "), "A (Live) B");
    assert_eq!(clean_metadata_value("A (Live)\nB"), "A (Live)\nB");
}

#[test]
fn without_a_closing_bracket_a_value_is_only_trimmed() {
    for value in ["Song (Live) x", " Live ", "Song (Live", "(Remix) Song\u{3000}", "(Live). "] {
        assert_eq!(clean_metadata_value(value), value.trim());
    }
    assert_eq!(clean_metadata_value("Song {Live}\u{3000}"), "Song");
}

#[test]
fn renamed_tags_keep_artist_and_length() {
    let tags = TrackTags {
        title: "a".to_string(),
        artist: "b".to_string(),
        album: "c".to_string(),
        duration_secs: -1,
    };
    let other = tags.renamed("x".to_string(), "y".to_string());
    assert_eq!(other.title, "x");
    assert_eq!(other.album, "y");
    assert_eq!(other.artist, "b");
    assert_eq!(other.duration_secs, -1);
}

#[test]
fn default_tags_are_empty() {
    let tags = TrackTags::default();
    assert_eq!(tags.title, "");
    assert_eq!(tags.artist, "");
    assert_eq!(tags.album, "");
    assert_eq!(tags.duration_secs, 0);
}

#[test]
fn tags_come_from_the_primary_tag() {
    let audio = RawAudio {
        duration_secs: 61,
        primary_tag: Some(raw(Some(" One "), Some("\tA"), None)),
        first_tag: Some(raw(Some("Two"), Some("B"), None)),
    };
    let tags = read_tags(&audio).unwrap();
    assert_eq!(tags.title, "One");
    assert_eq!(tags.artist, "A");
    assert_eq!(tags.album, "Album");
    assert_eq!(tags.duration_secs, 61);
}

#[test]
fn tags_come_from_the_first_tag_where_there_is_no_primary() {
    let mut tag = raw(Some("Two"), None, Some(" Various "));
    tag.album = None;
    let audio = RawAudio { duration_secs: 0, primary_tag: None, first_tag: Some(tag) };
    let tags = read_tags(&audio).unwrap();
    assert_eq!(tags.title, "Two");
    assert_eq!(tags.artist, "Various");
    assert_eq!(tags.album, "");
}

#[test]
fn a_blank_artist_hides_the_album_artist() {
    let audio = RawAudio {
        duration_secs: 0,
        primary_tag: Some(raw(Some("x"), Some("  "), Some("y"))),
        first_tag: None,
    };
    assert_eq!(read_tags(&audio).unwrap_err(), TagError::MissingArtist);
}

#[test]
fn missing_tags_are_named() {
    let none = RawAudio { duration_secs: 0, primary_tag: None, first_tag: None };
    assert_eq!(read_tags(&none).unwrap_err().message(), "no metadata tag found");
    let untitled = RawAudio {
        duration_secs: 0,
        primary_tag: Some(raw(Some(" "), None, None)),
        first_tag: Some(raw(Some("x"), Some("y"), None)),
    };
    assert_eq!(read_tags(&untitled).unwrap_err().message(), "missing title tag");
    let unsung = RawAudio {
        duration_secs: 0,
        primary_tag: Some(raw(Some("x"), None, None)),
        first_tag: None,
    };
    assert_eq!(read_tags(&unsung).unwrap_err().message(), "missing artist tag");
}
