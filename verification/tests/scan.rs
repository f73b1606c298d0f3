use lrc_sync::config::OrphanAction;
use lrc_sync::db::CacheDb;
use lrc_sync::grouping::{find_lyrics, group_files, DirectoryFiles, LyricsFile};
use lrc_sync::names::find_orphan_match;
use lrc_sync::scan::{
    adoption_key, handle_remaining_orphans, match_sidecars, plan_directory, queue_jobs,
    reconcile_orphans, sync_library, DirectoryPlan, JobSource,
};

fn bytes(items: &[&str]) -> Vec<Vec<u8>> {
    items.iter().map(|item| item.as_bytes().to_vec()).collect()
}

fn texts(items: &[&str]) -> Vec<String> {
    items.iter().map(|item| item.to_string()).collect()
}

fn lyrics(paths: &[&str]) -> Vec<LyricsFile> {
    paths
        .iter()
        .map(|path| LyricsFile {
            name: path.rsplit('/').next().unwrap().to_string(),
            path: path.as_bytes().to_vec(),
        })
        .collect()
}

fn text(path: &[u8]) -> String {
    String::from_utf8(path.to_vec()).unwrap()
}

fn album() -> DirectoryFiles {
    DirectoryFiles {
        dir: b"/m/a".to_vec(),
        audio: bytes(&["/m/a/1 One.mp3", "/m/a/2 Two.mp3", "/m/a/3 Three.mp3"]),
        lrc: lyrics(&["/m/a/2 Two.lrc", "/m/a/01 Uno.lrc", "/m/a/Other.lrc"]),
    }
}

fn sorted(mut items: Vec<String>) -> Vec<String> {
    items.sort();
    items
}

#[test]
fn files_are_grouped_by_directory() {
    let groups = group_files(&bytes(&[
        "/m/a/x.mp3",
        "/m/b/x.mp3",
        "/m/a/x.lrc",
        "/m/a/cover.jpg",
        "/m/a/y.flac",
        "/m/c/notes.txt",
        "/",
    ]));
    let mut dirs: Vec<String> = Vec::new();
    for group in &groups {
        dirs.push(text(&group.dir));
        if group.dir == b"/m/a" {
            assert_eq!(group.audio, bytes(&["/m/a/x.mp3", "/m/a/y.flac"]));
            assert_eq!(group.lrc.len(), 1);
            assert_eq!(group.lrc[0].name, "x.lrc");
            assert_eq!(group.lrc[0].path, b"/m/a/x.lrc".to_vec());
        }
        if group.dir == b"/m/c" {
            assert!(group.audio.is_empty() && group.lrc.is_empty());
        }
    }
    assert_eq!(sorted(dirs), texts(&["/m/a", "/m/b", "/m/c"]));
}

#[test]
fn a_directory_is_one_under_any_spelling() {
    let groups = group_files(&bytes(&["/m/./a/x.mp3", "/m/a/x.lrc", "/m//a/y.mp3", "/m/b/z.mp3"]));
    assert_eq!(groups.len(), 2);
    let a = groups.iter().find(|group| group.audio.len() == 2).unwrap();
    assert_eq!(a.dir, b"/m/./a".to_vec());
    assert_eq!(a.audio, bytes(&["/m/./a/x.mp3", "/m//a/y.mp3"]));
    assert_eq!(a.lrc[0].path, b"/m/a/x.lrc".to_vec());
}

#[test]
fn of_two_lyrics_with_one_name_the_last_counts() {
    let groups = group_files(&vec![b"/m/a\xfe.lrc".to_vec(), b"/m/a\xff.lrc".to_vec()]);
    assert_eq!(groups.len(), 1);
    assert_eq!(groups[0].lrc.len(), 1);
    assert_eq!(groups[0].lrc[0].name, "a\u{fffd}.lrc");
    assert_eq!(groups[0].lrc[0].path, b"/m/a\xff.lrc".to_vec());
}

#[test]
fn lyrics_are_found_by_name() {
    let files = lyrics(&["/m/a.lrc", "/m/b.lrc"]);
    assert_eq!(find_lyrics(&files, "b.lrc"), Some(1));
    assert_eq!(find_lyrics(&files, "B.lrc"), None);
}

#[test]
fn audio_and_lyrics_are_matched_by_name() {
    let m = match_sidecars(
        &bytes(&["/m/a.mp3", "/m/a.flac", "/m/b.mp3"]),
        &texts(&["a.lrc", "a.lrc", "b.lrc"]),
        lyrics(&["/m/c.lrc", "/m/b.lrc", "/m/a.lrc"]),
    );
    assert_eq!(m.matched.len(), 2);
    assert_eq!(m.matched[0].audio, b"/m/a.mp3".to_vec());
    assert_eq!(m.matched[0].lrc, b"/m/a.lrc".to_vec());
    assert_eq!(m.matched[1].audio, b"/m/b.mp3".to_vec());
    assert_eq!(m.missing, bytes(&["/m/a.flac"]));
    assert_eq!(m.lrc.len(), 1);
    assert_eq!(m.lrc[0].name, "c.lrc");
}

#[test]
fn orphans_are_renamed_to_their_audio() {
    let r = reconcile_orphans(
        &bytes(&["/m/1 One.mp3", "/m/9 Nine.mp3"]),
        lyrics(&["/m/01 Uno.lrc", "/m/Two.lrc"]),
    );
    assert_eq!(r.renames.len(), 1);
    assert_eq!(r.renames[0].audio, b"/m/1 One.mp3".to_vec());
    assert_eq!(r.renames[0].from, b"/m/01 Uno.lrc".to_vec());
    assert_eq!(r.renames[0].to, b"/m/1 One.lrc".to_vec());
    assert_eq!(r.missing, bytes(&["/m/9 Nine.mp3"]));
    assert_eq!(r.lrc.len(), 1);
    assert_eq!(r.lrc[0].name, "Two.lrc");
}

#[test]
fn one_orphan_serves_one_track() {
    let r = reconcile_orphans(&bytes(&["/m/1 a.mp3", "/m/1 b.mp3"]), lyrics(&["/m/1.lrc"]));
    assert_eq!(r.renames.len(), 1);
    assert_eq!(r.renames[0].to, b"/m/1 a.lrc".to_vec());
    assert_eq!(r.missing, bytes(&["/m/1 b.mp3"]));
    assert!(r.lrc.is_empty());
}

#[test]
fn kept_orphans_stay() {
    for action in [OrphanAction::Keep, OrphanAction::Reconcile] {
        let plan = handle_remaining_orphans(action, b"/m", &lyrics(&["/m/a.lrc", "/m/b.lrc"]));
        assert_eq!(plan.create_dir, None);
        assert!(plan.moves.is_empty());
        assert!(plan.deletes.is_empty());
        assert_eq!(plan.count, 2);
    }
}

#[test]
fn quarantined_orphans_move() {
    let plan = handle_remaining_orphans(OrphanAction::Quarantine, b"/m", &lyrics(&["/m/a.lrc"]));
    assert_eq!(plan.create_dir, Some(b"/m/.lrcget-orphans".to_vec()));
    assert_eq!(plan.moves.len(), 1);
    assert_eq!(plan.moves[0].from, b"/m/a.lrc".to_vec());
    assert_eq!(plan.moves[0].to, b"/m/.lrcget-orphans/a.lrc".to_vec());
    assert!(plan.deletes.is_empty());
    assert_eq!(plan.count, 1);
    let none = handle_remaining_orphans(OrphanAction::Quarantine, b"/m", &Vec::new());
    assert_eq!(none.create_dir, Some(b"/m/.lrcget-orphans".to_vec()));
}

#[test]
fn deleted_orphans_go() {
    let plan = handle_remaining_orphans(OrphanAction::Delete, b"/m", &lyrics(&["/m/a.lrc"]));
    assert_eq!(plan.create_dir, None);
    assert!(plan.moves.is_empty());
    assert_eq!(plan.deletes, bytes(&["/m/a.lrc"]));
}

#[test]
fn only_reconciling_renames() {
    let plan = plan_directory(album(), OrphanAction::Keep);
    assert_eq!(plan.matched.len(), 1);
    assert_eq!(plan.matched[0].lrc, b"/m/a/2 Two.lrc".to_vec());
    assert!(plan.renames.is_empty());
    assert_eq!(plan.missing, bytes(&["/m/a/1 One.mp3", "/m/a/3 Three.mp3"]));
    assert_eq!(plan.orphans.count, 2);

    let plan = plan_directory(album(), OrphanAction::Reconcile);
    assert_eq!(plan.renames.len(), 1);
    assert_eq!(plan.renames[0].from, b"/m/a/01 Uno.lrc".to_vec());
    assert_eq!(plan.missing, bytes(&["/m/a/3 Three.mp3"]));
    assert_eq!(plan.orphans.count, 1);
}

#[test]
fn matched_lyrics_are_never_touched() {
    for action in [OrphanAction::Quarantine, OrphanAction::Delete, OrphanAction::Reconcile] {
        let plan = plan_directory(album(), action);
        let matched = plan.matched[0].lrc.clone();
        assert!(plan.renames.iter().all(|r| r.from != matched));
        assert!(plan.orphans.moves.iter().all(|m| m.from != matched));
        assert!(plan.orphans.deletes.iter().all(|d| *d != matched));
    }
}

#[test]
fn what_stays_missing_has_no_match_left() {
    let r = reconcile_orphans(
        &bytes(&["/m/1 a.mp3", "/m/b.mp3", "/m/1 c.mp3", "/m/d.mp3"]),
        lyrics(&["/m/1 x.lrc", "/m/B (live).lrc", "/m/y.lrc"]),
    );
    assert_eq!(r.missing, bytes(&["/m/1 c.mp3", "/m/d.mp3"]));
    let left = texts(&["y.lrc"]);
    assert_eq!(r.lrc.len(), 1);
    assert_eq!(r.lrc[0].name, left[0]);
    for audio in &r.missing {
        assert_eq!(find_orphan_match(audio, &left), None);
    }
}

#[test]
fn reconciling_keeps_the_order() {
    let r = reconcile_orphans(
        &bytes(&["/m/z.mp3", "/m/2 b.mp3", "/m/y.mp3", "/m/1 a.mp3", "/m/x.mp3"]),
        lyrics(&["/m/1.lrc", "/m/2.lrc", "/m/q.lrc"]),
    );
    assert_eq!(r.missing, bytes(&["/m/z.mp3", "/m/y.mp3", "/m/x.mp3"]));
    assert_eq!(r.renames.len(), 2);
    assert_eq!(r.renames[0].audio, b"/m/2 b.mp3".to_vec());
    assert_eq!(r.renames[1].audio, b"/m/1 a.mp3".to_vec());
    assert_eq!(r.lrc.len(), 1);
}

#[test]
fn lyrics_of_the_right_name_are_matched() {
    let files = bytes(&["/m/a.mp3", "/m/b.mp3", "/m/b.lrc", "/n/a.lrc", "/m/a.lrc"]);
    let plans = sync_library(&files, OrphanAction::Delete);
    for (audio, lrc) in [("/m/a.mp3", "/m/a.lrc"), ("/m/b.mp3", "/m/b.lrc")] {
        assert!(plans.iter().any(|plan| plan
            .matched
            .iter()
            .any(|pair| text(&pair.audio) == audio && text(&pair.lrc) == lrc)));
    }
}

#[test]
fn a_rename_may_replace_matched_lyrics() {
    let files = bytes(&["/m/1 s.mp3", "/m/1 s.flac", "/m/1 s.lrc", "/m/1 other.lrc"]);
    let plans = sync_library(&files, OrphanAction::Reconcile);
    assert_eq!(plans.len(), 1);
    assert_eq!(plans[0].matched[0].lrc, b"/m/1 s.lrc".to_vec());
    assert_eq!(plans[0].renames[0].from, b"/m/1 other.lrc".to_vec());
    assert_eq!(plans[0].renames[0].to, b"/m/1 s.lrc".to_vec());
}

#[test]
fn a_scan_accounts_for_every_audio_file() {
    let files = bytes(&["/m/a/x.mp3", "/m/a/x.lrc", "/m/b/1 y.mp3", "/m/b/1.lrc", "/m/c/z.opus"]);
    for action in [
        OrphanAction::Keep,
        OrphanAction::Reconcile,
        OrphanAction::Quarantine,
        OrphanAction::Delete,
    ] {
        let plans: Vec<DirectoryPlan> = sync_library(&files, action);
        let mut audio: Vec<String> = Vec::new();
        for plan in &plans {
            audio.extend(plan.matched.iter().map(|p| text(&p.audio)));
            audio.extend(plan.renames.iter().map(|r| text(&r.audio)));
            audio.extend(plan.missing.iter().map(|m| text(m)));
        }
        assert_eq!(sorted(audio), texts(&["/m/a/x.mp3", "/m/b/1 y.mp3", "/m/c/z.opus"]));
    }
}

#[test]
fn recent_vain_searches_are_passed_over() {
    let mut db = CacheDb::open(&Vec::new(), 7).0;
    db.mark_not_found("a/x.mp3");
    let (jobs, skipped) = queue_jobs(&bytes(&["/m/a/x.mp3", "/m/a/y.mp3"]), b"/m", &db);
    assert_eq!(skipped, 1);
    assert_eq!(jobs.len(), 1);
    assert_eq!(jobs[0].audio_path, b"/m/a/y.mp3".to_vec());
    assert_eq!(jobs[0].rel_path, "a/y.mp3");
    assert_eq!(jobs[0].lrc_path, b"/m/a/y.lrc".to_vec());
    assert_eq!(jobs[0].source, JobSource::Scan);
}

#[test]
fn known_tracks_are_not_adopted_again() {
    let mut db = CacheDb::open(&Vec::new(), 7).0;
    assert_eq!(adoption_key(b"/m/a/x.mp3", b"/m", &db), Some("a/x.mp3".to_string()));
    db.mark_success("a/x.mp3");
    assert_eq!(adoption_key(b"/m/a/x.mp3", b"/m", &db), None);
    db.mark_not_found("a/x.mp3");
    assert_eq!(adoption_key(b"/m/a/x.mp3", b"/m", &db), Some("a/x.mp3".to_string()));
}
