use lrc_sync::config::Config;
use lrc_sync::db::CacheDb;
use lrc_sync::lrclib::LyricsResult;
use lrc_sync::scan::{JobSource, TrackJob};
use lrc_sync::tags::TrackTags;
use lrc_sync::track::{
    advance_track, follow_vain_lookup, write_lyrics, ActiveTracks, Processor, TrackEvent,
    TrackOutcome, TrackState,
};
use lrc_sync::watch::{should_handle, watch_music, EventKind};

fn song(title: &str) -> TrackTags {
    TrackTags {
        title: title.to_string(),
        artist: "Art".to_string(),
        album: "Alb".to_string(),
        duration_secs: 9,
    }
}

fn processor() -> Processor {
    let vars = vec![("LRCGET_MUSIC_PATH".to_string(), "/m".to_string())];
    Processor::new(Config::from_env(&vars).unwrap(), CacheDb::open(&Vec::new(), 7).0)
}

fn run(source: JobSource, clean_fallback: bool, events: Vec<TrackEvent>) -> TrackState {
    let mut state = TrackState::ReadingTags;
    for event in events {
        state = advance_track(state, event, source, clean_fallback);
    }
    state
}

fn tags(title: &str) -> TrackEvent {
    TrackEvent::Tags { tags: Some(song(title)) }
}

fn looked_up(title: &str, result: LyricsResult) -> Vec<TrackEvent> {
    vec![
        tags(title),
        TrackEvent::Sidecar { present: false },
        TrackEvent::Cached { lyrics: None },
        TrackEvent::Lyrics { result },
    ]
}

fn outcome(state: &TrackState) -> Option<TrackOutcome> {
    match state {
        TrackState::Finished { outcome } => Some(*outcome),
        _ => None,
    }
}

#[test]
fn unreadable_files_are_left_by_a_scan() {
    let state = run(JobSource::Scan, true, vec![TrackEvent::Tags { tags: None }]);
    assert_eq!(outcome(&state), Some(TrackOutcome::Unreadable));
}

#[test]
fn unreadable_files_are_read_twice_by_the_watcher() {
    let state = run(JobSource::Watch, true, vec![TrackEvent::Tags { tags: None }]);
    assert!(matches!(state, TrackState::RereadingTags));
    let state = advance_track(state, TrackEvent::Tags { tags: None }, JobSource::Watch, true);
    assert_eq!(outcome(&state), Some(TrackOutcome::Failed));
    let state = run(JobSource::Watch, true, vec![TrackEvent::Tags { tags: None }, tags("a")]);
    assert!(matches!(state, TrackState::CheckingSidecar { tags } if tags.title == "a"));
}

#[test]
fn existing_lyrics_are_recorded() {
    let mut events = vec![tags("a"), TrackEvent::Sidecar { present: true }];
    let state = run(JobSource::Scan, true, vec![tags("a"), TrackEvent::Sidecar { present: true }]);
    assert!(matches!(state, TrackState::ReadingSidecar { .. }));
    events.push(TrackEvent::SidecarText { lyrics: Some("la".to_string()) });
    let state = run(JobSource::Scan, true, events);
    match &state {
        TrackState::RecordingSuccess { tags, known_lyrics } => {
            assert_eq!(tags.title, "a");
            assert_eq!(known_lyrics.as_deref(), Some("la"));
        }
        other => panic!("{other:?}"),
    }
    let state = advance_track(state, TrackEvent::Done, JobSource::Scan, true);
    assert_eq!(outcome(&state), Some(TrackOutcome::Success));
}

#[test]
fn unreadable_lyrics_are_recorded_without_text() {
    let state = run(
        JobSource::Scan,
        true,
        vec![
            tags("a"),
            TrackEvent::Sidecar { present: true },
            TrackEvent::SidecarText { lyrics: None },
        ],
    );
    assert!(matches!(state, TrackState::RecordingSuccess { known_lyrics: None, .. }));
}

#[test]
fn cached_lyrics_are_restored() {
    let state = run(
        JobSource::Scan,
        true,
        vec![
            tags("a"),
            TrackEvent::Sidecar { present: false },
            TrackEvent::Cached { lyrics: Some("la".to_string()) },
        ],
    );
    assert!(matches!(&state, TrackState::Restoring { lyrics, .. } if lyrics == "la"));
    let state = advance_track(state, TrackEvent::Done, JobSource::Scan, true);
    assert!(
        matches!(&state, TrackState::RecordingSuccess { known_lyrics: Some(l), .. } if l == "la")
    );
}

#[test]
fn found_lyrics_are_saved() {
    let state = run(JobSource::Scan, true, looked_up("a", LyricsResult::Found("la".to_string())));
    assert!(matches!(&state, TrackState::Saving { lyrics, .. } if lyrics == "la"));
    let state = advance_track(state, TrackEvent::Done, JobSource::Scan, true);
    assert!(matches!(&state, TrackState::RecordingSuccess { .. }));
    let state = advance_track(state, TrackEvent::Failed, JobSource::Scan, true);
    assert_eq!(outcome(&state), Some(TrackOutcome::Failed));
}

#[test]
fn a_vain_lookup_is_repeated_with_cleaned_tags() {
    let state = run(JobSource::Scan, true, looked_up("a (Live)", LyricsResult::NotFound));
    match &state {
        TrackState::FetchingCleaned { tags, lookup } => {
            assert_eq!(tags.title, "a (Live)");
            assert_eq!(lookup.title, "a");
            assert_eq!(lookup.artist, "Art");
        }
        other => panic!("{other:?}"),
    }
    let event = TrackEvent::Lyrics { result: LyricsResult::NotFound };
    let state = advance_track(state, event, JobSource::Scan, true);
    assert!(matches!(&state, TrackState::RecordingNotFound { tags } if tags.title == "a (Live)"));
    let state = advance_track(state, TrackEvent::Done, JobSource::Scan, true);
    assert_eq!(outcome(&state), Some(TrackOutcome::NotFound));
}

#[test]
fn lyrics_of_the_second_lookup_go_with_the_read_tags() {
    let mut events = looked_up("a (Live)", LyricsResult::NotFound);
    events.push(TrackEvent::Lyrics { result: LyricsResult::Found("la".to_string()) });
    let state = run(JobSource::Watch, true, events);
    assert!(matches!(&state, TrackState::Saving { tags, .. } if tags.title == "a (Live)"));
}

#[test]
fn clean_tags_are_looked_up_once() {
    let state = run(JobSource::Scan, true, looked_up("a", LyricsResult::NotFound));
    assert!(matches!(state, TrackState::RecordingNotFound { .. }));
    let state = run(JobSource::Scan, false, looked_up("a (Live)", LyricsResult::NotFound));
    assert!(matches!(state, TrackState::RecordingNotFound { .. }));
}

#[test]
fn a_changed_album_is_reason_enough() {
    let mut cleaned = song("a");
    cleaned.album = "Other".to_string();
    assert!(matches!(
        follow_vain_lookup(song("a"), cleaned, true),
        TrackState::FetchingCleaned { .. }
    ));
    let mut same = song("a");
    same.artist = "Other".to_string();
    assert!(matches!(
        follow_vain_lookup(song("a"), same, true),
        TrackState::RecordingNotFound { .. }
    ));
}

#[test]
fn temporary_failures_are_not_recorded() {
    let state = run(JobSource::Scan, true, looked_up("a (Live)", LyricsResult::TemporaryFailure));
    assert_eq!(outcome(&state), Some(TrackOutcome::Deferred));
    let mut events = looked_up("a (Live)", LyricsResult::NotFound);
    events.push(TrackEvent::Lyrics { result: LyricsResult::TemporaryFailure });
    let state = run(JobSource::Scan, true, events);
    assert_eq!(outcome(&state), Some(TrackOutcome::Deferred));
}

#[test]
fn failing_steps_end_the_course() {
    let state = run(
        JobSource::Scan,
        true,
        vec![tags("a"), TrackEvent::Sidecar { present: false }, TrackEvent::Failed],
    );
    assert_eq!(outcome(&state), Some(TrackOutcome::Failed));
    let state = advance_track(state, tags("b"), JobSource::Scan, true);
    assert_eq!(outcome(&state), Some(TrackOutcome::Failed));
}

#[test]
fn lyrics_are_written_aside_first() {
    let write = write_lyrics(b"/m/a/x.lrc");
    assert_eq!(write.create_dir, Some(b"/m/a".to_vec()));
    assert_eq!(write.draft, b"/m/a/x.lrc.tmp".to_vec());
    assert_eq!(write.target, b"/m/a/x.lrc".to_vec());
}

#[test]
fn a_file_is_taken_up_once() {
    let mut active = ActiveTracks::new();
    assert!(active.begin(b"a"));
    assert!(!active.begin(b"a"));
    assert!(active.begin(b"b"));
    active.end(b"a");
    assert!(active.begin(b"a"));
    assert!(!active.begin(b"b"));
}

#[test]
fn a_file_is_the_same_under_any_spelling() {
    let mut active = ActiveTracks::new();
    assert!(active.begin(b"/m/./a.mp3"));
    assert!(!active.begin(b"/m/a.mp3"));
    assert!(!active.begin(b"//m//a.mp3"));
    assert!(active.begin(b"/m/../m/a.mp3"));
    active.end(b"/m//a.mp3");
    assert!(active.begin(b"/m/a.mp3"));
}

#[test]
fn watched_files_become_jobs() {
    let mut p = processor();
    let job = p.process_watch_path(b"/m/a/x.mp3", false).unwrap();
    assert_eq!(job.audio_path, b"/m/a/x.mp3".to_vec());
    assert_eq!(job.rel_path, "a/x.mp3");
    assert_eq!(job.lrc_path, b"/m/a/x.lrc".to_vec());
    assert_eq!(job.source, JobSource::Watch);
    assert!(p.process_watch_path(b"/m/a/x.mp3", true).is_none());
    assert!(p.process_watch_path(b"/m/a/x.txt", false).is_none());
    p.db.mark_not_found("a/x.mp3");
    assert!(p.process_watch_path(b"/m/a/x.mp3", false).is_none());
}

#[test]
fn a_job_in_progress_is_not_started_again() {
    let mut p = processor();
    let job = TrackJob {
        audio_path: b"/m/x.mp3".to_vec(),
        rel_path: "x.mp3".to_string(),
        lrc_path: b"/m/x.lrc".to_vec(),
        source: JobSource::Scan,
    };
    assert!(matches!(p.process_track(&job), Some(TrackState::ReadingTags)));
    assert!(p.process_track(&job).is_none());
    p.finish_track(&job);
    assert!(p.process_track(&job).is_some());
}

#[test]
fn additions_are_watched() {
    for kind in [EventKind::Any, EventKind::Create, EventKind::Modify] {
        assert!(should_handle(kind));
        assert_eq!(watch_music(kind, vec![b"/a".to_vec()]), vec![b"/a".to_vec()]);
    }
    for kind in [EventKind::Access, EventKind::Remove, EventKind::Other] {
        assert!(!should_handle(kind));
        assert!(watch_music(kind, vec![b"/a".to_vec()]).is_empty());
    }
}
