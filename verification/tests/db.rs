use lrc_sync::db::{
    legacy_rows, not_found_row, opt_nonempty, rel_path, success_row, CacheDb, LegacyError, TrackRow,
    TrackStatus, SECONDS_PER_DAY, TICKS_PER_SECOND,
};
use lrc_sync::tags::TrackTags;

const DAY: i64 = SECONDS_PER_DAY * TICKS_PER_SECOND;

fn columns(names: &[&str]) -> Vec<String> {
    names.iter().map(|name| name.to_string()).collect()
}

fn status(path: &str, status: &str, updated_at: i64) -> TrackStatus {
    TrackStatus { path: path.to_string(), status: status.to_string(), updated_at }
}

fn song(artist: &str, title: &str, duration_secs: i64) -> TrackTags {
    TrackTags {
        title: title.to_string(),
        artist: artist.to_string(),
        album: String::new(),
        duration_secs,
    }
}

fn cache(days: u64) -> CacheDb {
    CacheDb::open(&Vec::new(), days).0
}

fn migrate(bytes: &[u8], now: i64) -> Result<Vec<TrackRow>, LegacyError> {
    CacheDb::migrate_legacy_json(Some(bytes), now).map(|migration| {
        assert!(migration.remove_file);
        migration.rows
    })
}

#[test]
fn a_new_table_needs_no_upgrade() {
    let all = columns(&[
        "path", "status", "artist", "title", "album", "duration", "lyrics", "updated_at",
    ]);
    let (db, statements) = CacheDb::open(&all, 7);
    assert!(statements.is_empty());
    assert!(!db.is_success("a"));
    assert!(!db.is_not_found("a"));
}

#[test]
fn an_old_table_gets_its_missing_columns() {
    let (_, statements) = CacheDb::open(&columns(&["path", "status", "title", "updated_at"]), 7);
    assert_eq!(
        statements,
        vec![
            "ALTER TABLE track_cache ADD COLUMN artist TEXT",
            "ALTER TABLE track_cache ADD COLUMN album TEXT",
            "ALTER TABLE track_cache ADD COLUMN duration INTEGER",
            "ALTER TABLE track_cache ADD COLUMN lyrics TEXT",
        ]
    );
    let (_, statements) = CacheDb::open(&columns(&["Title"]), 7);
    assert_eq!(statements[1], "ALTER TABLE track_cache ADD COLUMN title TEXT");
}

#[test]
fn an_upgraded_table_needs_nothing_more() {
    let old = columns(&["path", "status", "album", "updated_at"]);
    let (_, statements) = CacheDb::open(&old, 7);
    let mut upgraded = old;
    for statement in &statements {
        upgraded.push(statement.split(' ').nth(5).unwrap().to_string());
    }
    assert_eq!(upgraded.len(), 8);
    assert!(CacheDb::open(&upgraded, 7).1.is_empty());
}

#[test]
fn old_caches_are_read() {
    let rows = migrate(b" [\"a/b.mp3\", \"\\u00e4\"] ", 5).unwrap();
    assert_eq!(rows.len(), 2);
    assert_eq!(rows[0].path, "a/b.mp3");
    assert_eq!(rows[1].path, "\u{e4}");
    for row in &rows {
        assert_eq!(row.status, "not_found");
        assert_eq!(row.updated_at, 5);
        assert!(row.artist.is_none() && row.title.is_none() && row.album.is_none());
        assert!(row.duration.is_none() && row.lyrics.is_none());
    }
}

#[test]
fn migrated_tracks_are_passed_over_for_the_given_days() {
    let rows = migrate(b"[\"a\"]", 10 * DAY).unwrap();
    let listed = vec![status(&rows[0].path, &rows[0].status, rows[0].updated_at)];
    let mut db = cache(7);
    db.load_memory_cache(&listed, 17 * DAY);
    assert!(db.is_not_found("a"));
    db.load_memory_cache(&listed, 17 * DAY + 1);
    assert!(!db.is_not_found("a"));
}

#[test]
fn without_an_old_cache_nothing_is_done() {
    let migration = CacheDb::migrate_legacy_json(None, 5).unwrap();
    assert!(migration.rows.is_empty());
    assert!(!migration.remove_file);
}

#[test]
fn broken_old_caches_are_refused() {
    for bytes in [&b"[1]"[..], b"{}", b"", b"[\"a\"", b"[\"\xff\"]"] {
        assert_eq!(
            migrate(bytes, 5).unwrap_err(),
            LegacyError::NotAListOfPaths
        );
    }
    assert!(migrate(b"[]", 5).unwrap().is_empty());
}

#[test]
fn listed_paths_become_rows() {
    let rows = legacy_rows(&columns(&["x", "x"]), 9);
    assert_eq!(rows.len(), 2);
    assert_eq!(rows[1].path, "x");
    assert_eq!(rows[1].updated_at, 9);
}

#[test]
fn the_table_is_loaded() {
    let mut db = cache(7);
    db.mark_success("gone");
    db.mark_not_found("forgotten");
    let now = 1_000 * DAY;
    db.load_memory_cache(
        &vec![
            status("s", "success", 0),
            status("fresh", "not_found", now - 7 * DAY),
            status("stale", "not_found", now - 7 * DAY - 1),
            status("odd", "pending", now),
        ],
        now,
    );
    assert!(db.is_success("s"));
    assert!(!db.is_not_found("s"));
    assert!(db.is_not_found("fresh"));
    assert!(!db.is_success("fresh"));
    for path in ["stale", "odd", "gone", "forgotten"] {
        assert!(!db.is_success(path), "{path}");
        assert!(!db.is_not_found(path), "{path}");
    }
}

#[test]
fn long_windows_do_not_overflow() {
    let mut db = cache(u64::MAX);
    db.load_memory_cache(&vec![status("a", "not_found", i64::MIN)], i64::MAX);
    assert!(db.is_not_found("a"));
}

#[test]
fn the_two_states_exclude_each_other() {
    let mut db = cache(7);
    db.mark_success("a");
    assert!(db.is_success("a"));
    db.mark_not_found("a");
    assert!(db.is_not_found("a"));
    assert!(!db.is_success("a"));
    db.mark_success("a");
    assert!(db.is_success("a"));
    assert!(!db.is_not_found("a"));
    assert!(!db.is_success("b"));
}

#[test]
fn noting_agrees_with_loading() {
    let now = 50 * DAY;
    let mut noted = cache(3);
    noted.mark_not_found("a");
    noted.mark_success("b");
    let mut loaded = cache(3);
    loaded.load_memory_cache(
        &vec![status("a", "not_found", now), status("b", "success", now)],
        now,
    );
    for path in ["a", "b", "c"] {
        assert_eq!(noted.is_success(path), loaded.is_success(path));
        assert_eq!(noted.is_not_found(path), loaded.is_not_found(path));
    }
}

#[test]
fn empty_texts_are_no_column_value() {
    assert_eq!(opt_nonempty(""), None);
    assert_eq!(opt_nonempty(" "), Some(" "));
}

#[test]
fn rows_hold_what_was_recorded() {
    let row = success_row("a.mp3", Some(&song("Art", "Ti", 12)), Some("la"), 77);
    assert_eq!(row.path, "a.mp3");
    assert_eq!(row.status, "success");
    assert_eq!(row.artist.as_deref(), Some("Art"));
    assert_eq!(row.title.as_deref(), Some("Ti"));
    assert_eq!(row.album, None);
    assert_eq!(row.duration, Some(12));
    assert_eq!(row.lyrics.as_deref(), Some("la"));
    assert_eq!(row.updated_at, 77);

    let bare = success_row("a.mp3", None, None, 1);
    assert_eq!(bare.artist, None);
    assert_eq!(bare.duration, Some(0));
    assert_eq!(bare.lyrics, None);

    let vain = not_found_row("b.mp3", &song("Art", "", 3), 2);
    assert_eq!(vain.status, "not_found");
    assert_eq!(vain.artist.as_deref(), Some("Art"));
    assert_eq!(vain.title, None);
    assert_eq!(vain.duration, Some(3));
    assert_eq!(vain.lyrics, None);
}

#[test]
fn stored_lyrics_are_found_again() {
    let rows: Vec<TrackRow> = vec![
        not_found_row("n.mp3", &song("abba", "sos", 200), 1),
        success_row("x.mp3", Some(&song("abba", "sos", 300)), Some("wrong length"), 1),
        success_row("y.mp3", Some(&song("abba", "sos", 205)), Some("first"), 1),
        success_row("z.mp3", Some(&song("abba", "sos", 0)), Some("second"), 1),
    ];
    assert_eq!(
        CacheDb::find_cached_lyrics(&rows, &song("ABBA", "Sos", 200)).as_deref(),
        Some("first")
    );
    assert_eq!(
        CacheDb::find_cached_lyrics(&rows, &song("abba", "sos", 199)).as_deref(),
        Some("second")
    );
    assert_eq!(
        CacheDb::find_cached_lyrics(&rows, &song("abba", "sos", i64::MIN)).as_deref(),
        Some("second")
    );
    assert_eq!(CacheDb::find_cached_lyrics(&rows, &song("abba", "other", 200)), None);
    assert_eq!(CacheDb::find_cached_lyrics(&rows, &song("", "sos", 200)), None);
}

#[test]
fn a_row_without_a_length_fits_any() {
    let mut row = success_row("y.mp3", Some(&song("a", "b", 100)), Some("la"), 1);
    assert!(row.offers_lyrics(&song("a", "b", 105)));
    assert!(row.offers_lyrics(&song("a", "b", 95)));
    assert!(!row.offers_lyrics(&song("a", "b", 106)));
    row.duration = None;
    assert!(row.offers_lyrics(&song("a", "b", 106)));
    row.lyrics = None;
    assert!(!row.offers_lyrics(&song("a", "b", 106)));
}

#[test]
fn keys_tell_files_apart() {
    let one = rel_path(b"/music/a/x.mp3", b"/music");
    let other = rel_path(b"/music/b/x.mp3", b"/music");
    assert_ne!(one, other);
}
