//! The course of one track: from its tags to its lyrics, or to the note that there are none.
use vstd::prelude::*;

use crate::config;
use crate::config::Config;
use crate::db::CacheDb;
use crate::lrclib::{LyricsResult, LyricsView};
use crate::names;
use crate::paths;
use crate::scan;
use crate::scan::{JobSource, TrackJob};
use crate::tags;
use crate::tags::{TagsView, TrackTags};
use crate::text;

verus! {

/// The pause before tags are read once more.
pub const REREAD_AFTER_SECS: u64 = 3;

/// How a track's course ended.
#[derive(Debug, Clone, Copy, PartialEq, Eq, Structural)]
pub enum TrackOutcome {
    /// The tags of a scanned file could not be read; nothing was done.
    Unreadable,
    /// The lyrics are in place and recorded.
    Success,
    /// It is recorded that there are no lyrics.
    NotFound,
    /// The lookup failed for now; nothing was recorded.
    Deferred,
    /// A step failed.
    Failed,
}

/// The next thing to do for a track.
#[derive(Debug)]
pub enum TrackState {
    /// Read the tags of the audio file.
    ReadingTags,
    /// Read them again, after a pause.
    RereadingTags,
    /// See whether the lyrics file exists.
    CheckingSidecar { tags: TrackTags },
    /// Read the lyrics file.
    ReadingSidecar { tags: TrackTags },
    /// Ask the cache for lyrics.
    SearchingCache { tags: TrackTags },
    /// Write lyrics from the cache.
    Restoring { tags: TrackTags, lyrics: String },
    /// Look the track up under its own tags.
    Fetching { tags: TrackTags },
    /// Look it up under cleaned tags.
    FetchingCleaned { tags: TrackTags, lookup: TrackTags },
    /// Write lyrics that were looked up.
    Saving { tags: TrackTags, lyrics: String },
    /// Record that the track has lyrics.
    RecordingSuccess { tags: TrackTags, known_lyrics: Option<String> },
    /// Record that nothing was found.
    RecordingNotFound { tags: TrackTags },
    Finished { outcome: TrackOutcome },
}

/// What came of it.
#[derive(Debug)]
pub enum TrackEvent {
    /// The tags, if they could be read.
    Tags { tags: Option<TrackTags> },
    /// Whether the lyrics file exists.
    Sidecar { present: bool },
    /// The text of the lyrics file, if it could be read.
    SidecarText { lyrics: Option<String> },
    /// The lyrics that the cache has.
    Cached { lyrics: Option<String> },
    /// The result of a lookup.
    Lyrics { result: LyricsResult },
    /// What was to be written or recorded is.
    Done,
    /// The step failed.
    Failed,
}

/// The contents of a `TrackState`.
pub enum TrackView {
    ReadingTags,
    RereadingTags,
    CheckingSidecar { tags: TagsView },
    ReadingSidecar { tags: TagsView },
    SearchingCache { tags: TagsView },
    Restoring { tags: TagsView, lyrics: Seq<char> },
    Fetching { tags: TagsView },
    FetchingCleaned { tags: TagsView, lookup: TagsView },
    Saving { tags: TagsView, lyrics: Seq<char> },
    RecordingSuccess { tags: TagsView, known_lyrics: Option<Seq<char>> },
    RecordingNotFound { tags: TagsView },
    Finished { outcome: TrackOutcome },
}

impl View for TrackState {
    type V = TrackView;

    open spec fn view(&self) -> TrackView {
        match self {
            TrackState::ReadingTags => TrackView::ReadingTags,
            TrackState::RereadingTags => TrackView::RereadingTags,
            TrackState::CheckingSidecar { tags } => TrackView::CheckingSidecar { tags: tags@ },
            TrackState::ReadingSidecar { tags } => TrackView::ReadingSidecar { tags: tags@ },
            TrackState::SearchingCache { tags } => TrackView::SearchingCache { tags: tags@ },
            TrackState::Restoring { tags, lyrics } => TrackView::Restoring {
                tags: tags@,
                lyrics: lyrics@,
            },
            TrackState::Fetching { tags } => TrackView::Fetching { tags: tags@ },
            TrackState::FetchingCleaned { tags, lookup } => TrackView::FetchingCleaned {
                tags: tags@,
                lookup: lookup@,
            },
            TrackState::Saving { tags, lyrics } => TrackView::Saving { tags: tags@, lyrics: lyrics@ },
            TrackState::RecordingSuccess { tags, known_lyrics } => TrackView::RecordingSuccess {
                tags: tags@,
                known_lyrics: text::option_text(*known_lyrics),
            },
            TrackState::RecordingNotFound { tags } => TrackView::RecordingNotFound { tags: tags@ },
            TrackState::Finished { outcome } => TrackView::Finished { outcome: *outcome },
        }
    }
}

/// Where a lookup under the track's own tags leads that found nothing: to a second one, where that
/// is wanted and the cleaned tags differ.
pub open spec fn after_vain_lookup(
    t: TagsView,
    cleaned: TagsView,
    clean_fallback: bool,
) -> TrackView {
    if clean_fallback && (cleaned.title != t.title || cleaned.album != t.album) {
        TrackView::FetchingCleaned { tags: t, lookup: cleaned }
    } else {
        TrackView::RecordingNotFound { tags: t }
    }
}

/// Where the outcome of a final lookup leads.
pub open spec fn after_lookup(t: TagsView, result: LyricsView) -> TrackView {
    match result {
        LyricsView::Found(lyrics) => TrackView::Saving { tags: t, lyrics },
        LyricsView::NotFound => TrackView::RecordingNotFound { tags: t },
        LyricsView::TemporaryFailure => TrackView::Finished { outcome: TrackOutcome::Deferred },
    }
}

/// Where an event leads. One that the track does not wait for changes nothing.
pub open spec fn track_step(
    state: TrackView,
    event: TrackEvent,
    source: JobSource,
    clean_fallback: bool,
) -> TrackView {
    match (state, event) {
        (TrackView::ReadingTags, TrackEvent::Tags { tags: Some(t) }) =>
            TrackView::CheckingSidecar { tags: t@ },
        (TrackView::ReadingTags, TrackEvent::Tags { tags: None }) => match source {
            JobSource::Watch => TrackView::RereadingTags,
            JobSource::Scan => TrackView::Finished { outcome: TrackOutcome::Unreadable },
        },
        (TrackView::RereadingTags, TrackEvent::Tags { tags: Some(t) }) =>
            TrackView::CheckingSidecar { tags: t@ },
        (TrackView::RereadingTags, TrackEvent::Tags { tags: None }) => TrackView::Finished {
            outcome: TrackOutcome::Failed,
        },
        (TrackView::CheckingSidecar { tags }, TrackEvent::Sidecar { present }) => if present {
            TrackView::ReadingSidecar { tags }
        } else {
            TrackView::SearchingCache { tags }
        },
        (TrackView::ReadingSidecar { tags }, TrackEvent::SidecarText { lyrics }) =>
            TrackView::RecordingSuccess { tags, known_lyrics: text::option_text(lyrics) },
        (TrackView::SearchingCache { tags }, TrackEvent::Cached { lyrics: Some(l) }) =>
            TrackView::Restoring { tags, lyrics: l@ },
        (TrackView::SearchingCache { tags }, TrackEvent::Cached { lyrics: None }) =>
            TrackView::Fetching { tags },
        (TrackView::Fetching { tags }, TrackEvent::Lyrics { result }) => if result@
            == LyricsView::NotFound {
            after_vain_lookup(tags, tags::cleaned_tags(tags), clean_fallback)
        } else {
            after_lookup(tags, result@)
        },
        (TrackView::FetchingCleaned { tags, .. }, TrackEvent::Lyrics { result }) => after_lookup(
            tags,
            result@,
        ),
        (TrackView::Restoring { tags, lyrics }, TrackEvent::Done) => TrackView::RecordingSuccess {
            tags,
            known_lyrics: Some(lyrics),
        },
        (TrackView::Saving { tags, lyrics }, TrackEvent::Done) => TrackView::RecordingSuccess {
            tags,
            known_lyrics: Some(lyrics),
        },
        (TrackView::RecordingSuccess { .. }, TrackEvent::Done) => TrackView::Finished {
            outcome: TrackOutcome::Success,
        },
        (TrackView::RecordingNotFound { .. }, TrackEvent::Done) => TrackView::Finished {
            outcome: TrackOutcome::NotFound,
        },
        (TrackView::SearchingCache { .. }, TrackEvent::Failed)
        | (TrackView::Restoring { .. }, TrackEvent::Failed)
        | (TrackView::Saving { .. }, TrackEvent::Failed)
        | (TrackView::RecordingSuccess { .. }, TrackEvent::Failed)
        | (TrackView::RecordingNotFound { .. }, TrackEvent::Failed) => TrackView::Finished {
            outcome: TrackOutcome::Failed,
        },
        _ => state,
    }
}

/// Decides on a second lookup, under the given cleaned tags.
pub fn follow_vain_lookup(t: TrackTags, cleaned: TrackTags, clean_fallback: bool) -> (r: TrackState)
    ensures
        r@ == after_vain_lookup(t@, cleaned@, clean_fallback),
{
    if clean_fallback && (!text::str_eq(cleaned.title.as_str(), t.title.as_str()) || !text::str_eq(
        cleaned.album.as_str(),
        t.album.as_str(),
    )) {
        TrackState::FetchingCleaned { tags: t, lookup: cleaned }
    } else {
        TrackState::RecordingNotFound { tags: t }
    }
}

fn follow_lookup(t: TrackTags, result: LyricsResult) -> (r: TrackState)
    ensures
        r@ == after_lookup(t@, result@),
{
    match result {
        LyricsResult::Found(lyrics) => TrackState::Saving { tags: t, lyrics },
        LyricsResult::NotFound => TrackState::RecordingNotFound { tags: t },
        LyricsResult::TemporaryFailure => TrackState::Finished { outcome: TrackOutcome::Deferred },
    }
}

/// Takes a track on by one event.
pub fn advance_track(
    state: TrackState,
    event: TrackEvent,
    source: JobSource,
    clean_fallback: bool,
) -> (r: TrackState)
    ensures
        r@ == track_step(state@, event, source, clean_fallback),
{
    match (state, event) {
        (TrackState::ReadingTags, TrackEvent::Tags { tags: Some(t) }) =>
            TrackState::CheckingSidecar { tags: t },
        (TrackState::ReadingTags, TrackEvent::Tags { tags: None }) => match source {
            JobSource::Watch => TrackState::RereadingTags,
            JobSource::Scan => TrackState::Finished { outcome: TrackOutcome::Unreadable },
        },
        (TrackState::RereadingTags, TrackEvent::Tags { tags: Some(t) }) =>
            TrackState::CheckingSidecar { tags: t },
        (TrackState::RereadingTags, TrackEvent::Tags { tags: None }) => TrackState::Finished {
            outcome: TrackOutcome::Failed,
        },
        (TrackState::CheckingSidecar { tags }, TrackEvent::Sidecar { present }) => if present {
            TrackState::ReadingSidecar { tags }
        } else {
            TrackState::SearchingCache { tags }
        },
        (TrackState::ReadingSidecar { tags }, TrackEvent::SidecarText { lyrics }) =>
            TrackState::RecordingSuccess { tags, known_lyrics: lyrics },
        (TrackState::SearchingCache { tags }, TrackEvent::Cached { lyrics: Some(lyrics) }) =>
            TrackState::Restoring { tags, lyrics },
        (TrackState::SearchingCache { tags }, TrackEvent::Cached { lyrics: None }) =>
            TrackState::Fetching { tags },
        (TrackState::Fetching { tags }, TrackEvent::Lyrics { result: LyricsResult::NotFound }) => {
            let cleaned = tags.cleaned();
            follow_vain_lookup(tags, cleaned, clean_fallback)
        },
        (TrackState::Fetching { tags }, TrackEvent::Lyrics { result }) => follow_lookup(
            tags,
            result,
        ),
        (TrackState::FetchingCleaned { tags, .. }, TrackEvent::Lyrics { result }) => follow_lookup(
            tags,
            result,
        ),
        (TrackState::Restoring { tags, lyrics }, TrackEvent::Done) => TrackState::RecordingSuccess {
            tags,
            known_lyrics: Some(lyrics),
        },
        (TrackState::Saving { tags, lyrics }, TrackEvent::Done) => TrackState::RecordingSuccess {
            tags,
            known_lyrics: Some(lyrics),
        },
        (TrackState::RecordingSuccess { .. }, TrackEvent::Done) => TrackState::Finished {
            outcome: TrackOutcome::Success,
        },
        (TrackState::RecordingNotFound { .. }, TrackEvent::Done) => TrackState::Finished {
            outcome: TrackOutcome::NotFound,
        },
        (TrackState::SearchingCache { .. }, TrackEvent::Failed)
        | (TrackState::Restoring { .. }, TrackEvent::Failed)
        | (TrackState::Saving { .. }, TrackEvent::Failed)
        | (TrackState::RecordingSuccess { .. }, TrackEvent::Failed)
        | (TrackState::RecordingNotFound { .. }, TrackEvent::Failed) => TrackState::Finished {
            outcome: TrackOutcome::Failed,
        },
        (state, _) => state,
    }
}

/// How a lyrics file is written: in full under another name, which is then changed.
#[derive(Debug)]
pub struct LyricsWrite {
    /// The directory that must be there.
    pub create_dir: Option<Vec<u8>>,
    /// The path to write to.
    pub draft: Vec<u8>,
    /// The path to rename it to.
    pub target: Vec<u8>,
}

/// The way to write lyrics to `path`.
pub fn write_lyrics(path: &[u8]) -> (r: LyricsWrite)
    ensures
        (match r.create_dir {
            Some(dir) => Some(dir@),
            None => None,
        }) == paths::parent_of(path@),
        r.draft@ == names::draft_of(path@),
        r.target@ == path@,
{
    LyricsWrite {
        create_dir: paths::path_parent(path),
        draft: names::draft_path(path),
        target: paths::copy_of(path),
    }
}

/// The audio files that are being processed, each by the plain form of its path: however a path is
/// spelled, it is the same file.
#[derive(Debug)]
pub struct ActiveTracks {
    files: Vec<Vec<u8>>,
}

impl View for ActiveTracks {
    type V = Set<Seq<u8>>;

    closed spec fn view(&self) -> Set<Seq<u8>> {
        paths::all_bytes(self.files@).to_set()
    }
}

impl ActiveTracks {
    pub fn new() -> (r: Self)
        ensures
            r@ == Set::<Seq<u8>>::empty(),
    {
        let r = ActiveTracks { files: Vec::new() };
        proof {
            assert(r@ =~= Set::<Seq<u8>>::empty());
        }
        r
    }

    /// Takes a file up, unless it is being processed already; says whether it did.
    pub fn begin(&mut self, file: &[u8]) -> (r: bool)
        ensures
            r == !old(self)@.contains(paths::plain(file@)),
            final(self)@ == old(self)@.insert(paths::plain(file@)),
    {
        let key = paths::plain_path(file);
        let ghost before = paths::all_bytes(self.files@);
        let mut i: usize = 0;
        while i < self.files.len()
            invariant
                i <= self.files.len(),
                *self == *old(self),
                key@ == paths::plain(file@),
                before == paths::all_bytes(self.files@),
                forall|j: int| 0 <= j < i ==> before[j] != key@,
            decreases self.files.len() - i,
        {
            if paths::bytes_eq(&self.files[i], &key) {
                proof {
                    assert(before[i as int] == key@);
                    assert(self@ =~= old(self)@.insert(key@));
                }
                return false;
            }
            i += 1;
        }
        self.files.push(paths::copy_of(&key));
        proof {
            let after = paths::all_bytes(self.files@);
            assert(after =~= before.push(key@));
            assert forall|p: Seq<u8>| after.contains(p) <==> before.contains(p) || p == key@ by {
                if before.contains(p) {
                    let k = choose|k: int| 0 <= k < before.len() && before[k] == p;
                    assert(after[k] == p);
                }
                assert(after[before.len() as int] == key@);
            }
            assert(self@ =~= old(self)@.insert(key@));
        }
        true
    }

    /// Lets a file go again.
    pub fn end(&mut self, file: &[u8])
        ensures
            final(self)@ == old(self)@.remove(paths::plain(file@)),
    {
        let key = paths::plain_path(file);
        let ghost before = paths::all_bytes(self.files@);
        let mut kept: Vec<Vec<u8>> = Vec::new();
        let mut i: usize = 0;
        while i < self.files.len()
            invariant
                i <= self.files.len(),
                *self == *old(self),
                before == paths::all_bytes(self.files@),
                forall|p: Seq<u8>|
                    paths::all_bytes(kept@).contains(p) <==> p != key@ && before.take(
                        i as int,
                    ).contains(p),
            decreases self.files.len() - i,
        {
            let ghost kept_before = paths::all_bytes(kept@);
            let ghost here = self.files@[i as int]@;
            proof {
                assert(before[i as int] == here);
                assert(before.take(i + 1) =~= before.take(i as int).push(here));
            }
            if !paths::bytes_eq(&self.files[i], &key) {
                kept.push(paths::copy_of(&self.files[i]));
                proof {
                    assert(paths::all_bytes(kept@) =~= kept_before.push(here));
                }
            }
            proof {
                let now = paths::all_bytes(kept@);
                assert forall|p: Seq<u8>|
                    now.contains(p) <==> p != key@ && before.take(i + 1).contains(p) by {
                    lemma_push_contains(kept_before, here, p);
                    lemma_push_contains(before.take(i as int), here, p);
                }
            }
            i += 1;
        }
        self.files = kept;
        proof {
            assert(before.take(before.len() as int) =~= before);
            assert(self@ =~= old(self)@.remove(key@));
        }
    }
}

proof fn lemma_push_contains(s: Seq<Seq<u8>>, a: Seq<u8>, p: Seq<u8>)
    ensures
        s.push(a).contains(p) <==> s.contains(p) || p == a,
{
    if s.contains(p) {
        let k = choose|k: int| 0 <= k < s.len() && s[k] == p;
        assert(s.push(a)[k] == p);
    }
    assert(s.push(a)[s.len() as int] == a);
}

/// What the workers share: the settings, the cache, and the files that are being processed.
pub struct Processor {
    pub config: Config,
    pub db: CacheDb,
    pub active: ActiveTracks,
}

/// The music directory as a path.
pub open spec fn music_path(config: config::ConfigView) -> Seq<u8> {
    vstd::utf8::encode_utf8(config.music_dir)
}

/// The job for a file that the watcher reports: an audio file without lyrics, unless it was looked
/// for in vain not long ago.
pub open spec fn watch_job(
    file: Seq<u8>,
    lrc_exists: bool,
    music_dir: Seq<u8>,
    not_found: Set<Seq<char>>,
) -> Option<scan::JobView> {
    if names::is_audio(file) && !not_found.contains(scan::key_of(file, music_dir)) && !lrc_exists {
        Some(scan::job_for(file, music_dir, JobSource::Watch))
    } else {
        None
    }
}

impl Processor {
    pub fn new(config: Config, db: CacheDb) -> (r: Self)
        ensures
            r.config == config,
            r.db == db,
            r.active@ == Set::<Seq<u8>>::empty(),
    {
        Processor { config, db, active: ActiveTracks::new() }
    }

    /// What to do about a file that the watcher reports. `lrc_exists` says whether there is a file
    /// at its `sidecar_path`.
    pub fn process_watch_path(&self, path: &[u8], lrc_exists: bool) -> (r: Option<TrackJob>)
        ensures
            (match r {
                Some(job) => Some(job@),
                None => None,
            }) == watch_job(path@, lrc_exists, music_path(self.config@), self.db@.not_found),
    {
        if !names::is_audio_file(path) {
            return None;
        }
        let rel_path = crate::db::rel_path(path, self.config.music_dir.as_str().as_bytes());
        if self.db.is_not_found(rel_path.as_str()) || lrc_exists {
            return None;
        }
        Some(
            TrackJob {
                audio_path: paths::copy_of(path),
                rel_path,
                lrc_path: names::sidecar_path(path),
                source: JobSource::Watch,
            },
        )
    }

    /// Takes up a job, unless its file is being processed already.
    pub fn process_track(&mut self, job: &TrackJob) -> (r: Option<TrackState>)
        ensures
            match r {
                Some(state) => !old(self).active@.contains(paths::plain(job.audio_path@)) && state@
                    == TrackView::ReadingTags,
                None => old(self).active@.contains(paths::plain(job.audio_path@)),
            },
            final(self).active@ == old(self).active@.insert(paths::plain(job.audio_path@)),
            final(self).config == old(self).config,
            final(self).db == old(self).db,
    {
        if self.active.begin(&job.audio_path) {
            Some(TrackState::ReadingTags)
        } else {
            None
        }
    }

    /// Lets go of the file of a job that ended.
    pub fn finish_track(&mut self, job: &TrackJob)
        ensures
            final(self).active@ == old(self).active@.remove(paths::plain(job.audio_path@)),
            final(self).config == old(self).config,
            final(self).db == old(self).db,
    {
        self.active.end(&job.audio_path);
    }
}

/// The state of a track after a row of events.
pub open spec fn track_run(
    events: Seq<TrackEvent>,
    source: JobSource,
    clean_fallback: bool,
) -> TrackView
    decreases events.len(),
{
    if events.len() == 0 {
        TrackView::ReadingTags
    } else {
        track_step(
            track_run(events.drop_last(), source, clean_fallback),
            events.last(),
            source,
            clean_fallback,
        )
    }
}

/// The tags that a state carries.
pub open spec fn tags_in(state: TrackView) -> Option<TagsView> {
    match state {
        TrackView::ReadingTags => None,
        TrackView::RereadingTags => None,
        TrackView::CheckingSidecar { tags } => Some(tags),
        TrackView::ReadingSidecar { tags } => Some(tags),
        TrackView::SearchingCache { tags } => Some(tags),
        TrackView::Restoring { tags, .. } => Some(tags),
        TrackView::Fetching { tags } => Some(tags),
        TrackView::FetchingCleaned { tags, .. } => Some(tags),
        TrackView::Saving { tags, .. } => Some(tags),
        TrackView::RecordingSuccess { tags, .. } => Some(tags),
        TrackView::RecordingNotFound { tags } => Some(tags),
        TrackView::Finished { .. } => None,
    }
}

/// The event at `k` gave the track these tags.
pub open spec fn gave_tags(
    events: Seq<TrackEvent>,
    k: int,
    t: TagsView,
    source: JobSource,
    clean_fallback: bool,
) -> bool {
    let before = track_run(events.take(k), source, clean_fallback);
    &&& 0 <= k < events.len()
    &&& before is ReadingTags || before is RereadingTags
    &&& events[k] matches TrackEvent::Tags { tags: Some(read) } && read@ == t
}

/// The event at `k` told the track that it has no lyrics file.
pub open spec fn told_sidecar_missing(
    events: Seq<TrackEvent>,
    k: int,
    source: JobSource,
    clean_fallback: bool,
) -> bool {
    &&& 0 <= k < events.len()
    &&& track_run(events.take(k), source, clean_fallback) is CheckingSidecar
    &&& events[k] matches TrackEvent::Sidecar { present } && !present
}

/// The event at `k` was the answer to a lookup that found nothing.
pub open spec fn told_not_found(
    events: Seq<TrackEvent>,
    k: int,
    source: JobSource,
    clean_fallback: bool,
) -> bool {
    let before = track_run(events.take(k), source, clean_fallback);
    &&& 0 <= k < events.len()
    &&& before is Fetching || before is FetchingCleaned
    &&& events[k] matches TrackEvent::Lyrics { result } && result@ == LyricsView::NotFound
}

/// The event at `k` was the answer to the last lookup that is due: the one under cleaned tags, where
/// that is wanted and they differ.
pub open spec fn was_last_lookup(
    events: Seq<TrackEvent>,
    k: int,
    t: TagsView,
    source: JobSource,
    clean_fallback: bool,
) -> bool {
    let cleaned = tags::cleaned_tags(t);
    clean_fallback && (cleaned.title != t.title || cleaned.album != t.album) ==> track_run(
        events.take(k),
        source,
        clean_fallback,
    ) is FetchingCleaned
}

/// The event at `k` was the answer to a lookup.
pub open spec fn is_answer(
    events: Seq<TrackEvent>,
    k: int,
    source: JobSource,
    clean_fallback: bool,
) -> bool {
    let before = track_run(events.take(k), source, clean_fallback);
    &&& 0 <= k < events.len()
    &&& before is Fetching || before is FetchingCleaned
    &&& events[k] is Lyrics
}

pub open spec fn is_past_the_check(state: TrackView) -> bool {
    ||| state is SearchingCache
    ||| state is Restoring
    ||| state is Fetching
    ||| state is FetchingCleaned
    ||| state is Saving
    ||| state is RecordingNotFound
}

/// Dropping the last event leaves what came before any other.
proof fn lemma_same_history(events: Seq<TrackEvent>)
    requires
        events.len() > 0,
    ensures
        events.take(events.len() - 1) == events.drop_last(),
        forall|k: int|
            0 <= k < events.len() - 1 ==> #[trigger] events.drop_last().take(k) == events.take(k),
{
    let fewer = events.drop_last();
    assert(events.take(events.len() - 1) =~= fewer);
    assert forall|k: int| 0 <= k < fewer.len() implies #[trigger] fewer.take(k) == events.take(k) by {
        assert(fewer.take(k) =~= events.take(k));
    }
}

proof fn lemma_tags_were_given(events: Seq<TrackEvent>, source: JobSource, clean_fallback: bool)
    ensures
        ({
            let state = track_run(events, source, clean_fallback);
            tags_in(state) is Some ==> exists|k: int|
                gave_tags(events, k, tags_in(state)->0, source, clean_fallback)
        }),
    decreases events.len(),
{
    if events.len() > 0 {
        let fewer = events.drop_last();
        let before = track_run(fewer, source, clean_fallback);
        let state = track_run(events, source, clean_fallback);
        lemma_tags_were_given(fewer, source, clean_fallback);
        lemma_same_history(events);
        if tags_in(state) is Some {
            if tags_in(before) is Some {
                let k = choose|k: int|
                    gave_tags(fewer, k, tags_in(before)->0, source, clean_fallback);
                assert(fewer.take(k) == events.take(k));
                assert(gave_tags(events, k, tags_in(state)->0, source, clean_fallback));
            } else {
                assert(gave_tags(
                    events,
                    events.len() - 1,
                    tags_in(state)->0,
                    source,
                    clean_fallback,
                ));
            }
        }
    }
}

proof fn lemma_sidecar_was_missing(
    events: Seq<TrackEvent>,
    source: JobSource,
    clean_fallback: bool,
)
    ensures
        is_past_the_check(track_run(events, source, clean_fallback)) ==> exists|k: int|
            told_sidecar_missing(events, k, source, clean_fallback),
    decreases events.len(),
{
    if events.len() > 0 {
        let fewer = events.drop_last();
        let before = track_run(fewer, source, clean_fallback);
        lemma_sidecar_was_missing(fewer, source, clean_fallback);
        lemma_same_history(events);
        if is_past_the_check(track_run(events, source, clean_fallback)) {
            if is_past_the_check(before) {
                let k = choose|k: int| told_sidecar_missing(fewer, k, source, clean_fallback);
                assert(fewer.take(k) == events.take(k));
                assert(told_sidecar_missing(events, k, source, clean_fallback));
            } else {
                assert(told_sidecar_missing(events, events.len() - 1, source, clean_fallback));
            }
        }
    }
}

proof fn lemma_answer_was_not_found(
    events: Seq<TrackEvent>,
    source: JobSource,
    clean_fallback: bool,
)
    ensures
        track_run(events, source, clean_fallback) matches TrackView::RecordingNotFound { tags }
            ==> exists|k: int| #[trigger]
            told_not_found(events, k, source, clean_fallback) && was_last_lookup(
                events,
                k,
                tags,
                source,
                clean_fallback,
            ),
    decreases events.len(),
{
    if events.len() > 0 {
        let fewer = events.drop_last();
        let before = track_run(fewer, source, clean_fallback);
        lemma_answer_was_not_found(fewer, source, clean_fallback);
        lemma_same_history(events);
        if track_run(events, source, clean_fallback) is RecordingNotFound {
            if before is RecordingNotFound {
                let k = choose|k: int| #[trigger]
                    told_not_found(fewer, k, source, clean_fallback) && was_last_lookup(
                        fewer,
                        k,
                        tags_in(before)->0,
                        source,
                        clean_fallback,
                    );
                assert(fewer.take(k) == events.take(k));
                assert(told_not_found(events, k, source, clean_fallback));
            } else {
                assert(told_not_found(events, events.len() - 1, source, clean_fallback));
            }
        }
    }
}

/// Lyrics are written only after the lyrics file was seen to be missing.
pub proof fn law_existing_lyrics_are_not_overwritten(
    events: Seq<TrackEvent>,
    source: JobSource,
    clean_fallback: bool,
)
    requires
        ({
            let state = track_run(events, source, clean_fallback);
            state is Restoring || state is Saving
        }),
    ensures
        exists|k: int| told_sidecar_missing(events, k, source, clean_fallback),
{
    lemma_sidecar_was_missing(events, source, clean_fallback);
}

/// A track is recorded as not found only after a lookup that found nothing, and not before the one
/// under cleaned tags where that is due.
pub proof fn law_not_found_is_recorded_on_an_answer(
    events: Seq<TrackEvent>,
    source: JobSource,
    clean_fallback: bool,
)
    requires
        track_run(events, source, clean_fallback) is RecordingNotFound,
    ensures
        exists|k: int| #[trigger]
            told_not_found(events, k, source, clean_fallback) && was_last_lookup(
                events,
                k,
                tags_in(track_run(events, source, clean_fallback))->0,
                source,
                clean_fallback,
            ),
{
    lemma_answer_was_not_found(events, source, clean_fallback);
}

/// What is recorded of a track is recorded under its tags as they were read, also where it was found
/// under cleaned ones.
pub proof fn law_tags_are_recorded_as_read(
    events: Seq<TrackEvent>,
    source: JobSource,
    clean_fallback: bool,
)
    requires
        ({
            let state = track_run(events, source, clean_fallback);
            state is RecordingSuccess || state is RecordingNotFound
        }),
    ensures
        exists|k: int|
            gave_tags(
                events,
                k,
                tags_in(track_run(events, source, clean_fallback))->0,
                source,
                clean_fallback,
            ),
{
    lemma_tags_were_given(events, source, clean_fallback);
}

/// The second lookup asks under the cleaned tags, only where that is wanted and only where title or
/// album differ.
pub proof fn law_second_lookup_is_cleaned(
    events: Seq<TrackEvent>,
    source: JobSource,
    clean_fallback: bool,
)
    ensures
        track_run(events, source, clean_fallback) matches TrackView::FetchingCleaned {
            tags,
            lookup,
        } ==> {
            &&& clean_fallback
            &&& lookup == tags::cleaned_tags(tags)
            &&& lookup.title != tags.title || lookup.album != tags.album
        },
    decreases events.len(),
{
    if events.len() > 0 {
        law_second_lookup_is_cleaned(events.drop_last(), source, clean_fallback);
    }
}

/// A lookup that fails for now records nothing: the track's course ends there, and stays ended.
pub proof fn law_temporary_failure_ends_the_course(
    events: Seq<TrackEvent>,
    k: int,
    source: JobSource,
    clean_fallback: bool,
)
    requires
        is_answer(events, k, source, clean_fallback),
        events[k]->result@ == LyricsView::TemporaryFailure,
    ensures
        track_run(events, source, clean_fallback) == (TrackView::Finished {
            outcome: TrackOutcome::Deferred,
        }),
    decreases events.len(),
{
    let fewer = events.drop_last();
    if k == fewer.len() {
        assert(events.take(k) =~= fewer);
    } else {
        assert(fewer.take(k) =~= events.take(k));
        law_temporary_failure_ends_the_course(fewer, k, source, clean_fallback);
    }
}

/// How much of its course a track has still before it, at most.
pub open spec fn steps_left(state: TrackView) -> nat {
    match state {
        TrackView::ReadingTags => 8,
        TrackView::RereadingTags => 7,
        TrackView::CheckingSidecar { .. } => 6,
        TrackView::ReadingSidecar { .. } => 5,
        TrackView::SearchingCache { .. } => 5,
        TrackView::Fetching { .. } => 4,
        TrackView::FetchingCleaned { .. } => 3,
        TrackView::Restoring { .. } => 2,
        TrackView::Saving { .. } => 2,
        TrackView::RecordingSuccess { .. } => 1,
        TrackView::RecordingNotFound { .. } => 1,
        TrackView::Finished { .. } => 0,
    }
}

/// Every event that is waited for brings a track nearer to its end.
pub proof fn law_every_step_leads_on(
    state: TrackView,
    event: TrackEvent,
    source: JobSource,
    clean_fallback: bool,
)
    ensures
        ({
            let next = track_step(state, event, source, clean_fallback);
            next == state || steps_left(next) < steps_left(state)
        }),
{
}

/// How many lookups a row of events answers.
pub open spec fn answers(events: Seq<TrackEvent>, source: JobSource, clean_fallback: bool) -> nat
    decreases events.len(),
{
    if events.len() == 0 {
        0
    } else {
        let here: nat = if is_answer(events, events.len() - 1, source, clean_fallback) {
            1
        } else {
            0
        };
        answers(events.drop_last(), source, clean_fallback) + here
    }
}

proof fn lemma_answers_bounded(events: Seq<TrackEvent>, source: JobSource, clean_fallback: bool)
    ensures
        ({
            let state = track_run(events, source, clean_fallback);
            &&& answers(events, source, clean_fallback) <= 2
            &&& steps_left(state) >= 4 ==> answers(events, source, clean_fallback) == 0
            &&& state is FetchingCleaned ==> answers(events, source, clean_fallback) <= 1
        }),
    decreases events.len(),
{
    if events.len() > 0 {
        lemma_answers_bounded(events.drop_last(), source, clean_fallback);
        assert(events.take(events.len() - 1) =~= events.drop_last());
    }
}

/// A track is looked up at most twice.
pub proof fn law_at_most_two_lookups(
    events: Seq<TrackEvent>,
    source: JobSource,
    clean_fallback: bool,
)
    ensures
        answers(events, source, clean_fallback) <= 2,
{
    lemma_answers_bounded(events, source, clean_fallback);
}

/// Taking up a file and letting it go, under any spelling of its path, leaves the files that are
/// being processed as they were.
pub proof fn law_letting_go_undoes_taking_up(active: Set<Seq<u8>>, file: Seq<u8>, again: Seq<u8>)
    requires
        !active.contains(paths::plain(file)),
        paths::plain(again) == paths::plain(file),
    ensures
        active.insert(paths::plain(file)).remove(paths::plain(again)) == active,
{
    assert(active.insert(paths::plain(file)).remove(paths::plain(again)) =~= active);
}

/// The event at `k` gave the track lyrics that it waited for: found by a lookup, or in the cache.
pub open spec fn gave_lyrics(
    events: Seq<TrackEvent>,
    k: int,
    lyrics: Seq<char>,
    source: JobSource,
    clean_fallback: bool,
) -> bool {
    let before = track_run(events.take(k), source, clean_fallback);
    &&& 0 <= k < events.len()
    &&& {
        ||| before is Fetching && (events[k] matches TrackEvent::Lyrics { result } && result@
            == LyricsView::Found(lyrics))
        ||| before is FetchingCleaned && (events[k] matches TrackEvent::Lyrics { result } && result@
            == LyricsView::Found(lyrics))
        ||| before is SearchingCache && (events[k] matches TrackEvent::Cached { lyrics: Some(l) }
            && l@ == lyrics)
    }
}

/// Lyrics that a track was given are the ones that are written, and the ones that are recorded with
/// it once they are: the cache gets what the file got.
pub proof fn law_recorded_lyrics_are_the_written_ones(
    events: Seq<TrackEvent>,
    k: int,
    lyrics: Seq<char>,
    source: JobSource,
    clean_fallback: bool,
)
    requires
        gave_lyrics(events, k, lyrics, source, clean_fallback),
    ensures
        match track_run(events, source, clean_fallback) {
            TrackView::Saving { lyrics: l, .. } => l == lyrics,
            TrackView::Restoring { lyrics: l, .. } => l == lyrics,
            TrackView::RecordingSuccess { known_lyrics, .. } => known_lyrics == Some(lyrics),
            TrackView::Finished { outcome } => outcome == TrackOutcome::Success || outcome
                == TrackOutcome::Failed,
            _ => false,
        },
    decreases events.len(),
{
    let fewer = events.drop_last();
    lemma_same_history(events);
    if k < fewer.len() {
        assert(fewer.take(k) == events.take(k));
        law_recorded_lyrics_are_the_written_ones(fewer, k, lyrics, source, clean_fallback);
    }
}

/// Where a track had a lyrics file before, it is recorded with the text that was read of it.
pub proof fn law_existing_lyrics_are_recorded_as_read(
    events: Seq<TrackEvent>,
    k: int,
    source: JobSource,
    clean_fallback: bool,
)
    requires
        0 <= k < events.len(),
        track_run(events.take(k), source, clean_fallback) is ReadingSidecar,
        events[k] is SidecarText,
    ensures
        match track_run(events, source, clean_fallback) {
            TrackView::RecordingSuccess { known_lyrics, .. } => known_lyrics == text::option_text(
                events[k]->SidecarText_lyrics,
            ),
            TrackView::Finished { outcome } => outcome == TrackOutcome::Success || outcome
                == TrackOutcome::Failed,
            _ => false,
        },
    decreases events.len(),
{
    let fewer = events.drop_last();
    lemma_same_history(events);
    if k < fewer.len() {
        assert(fewer.take(k) == events.take(k));
        law_existing_lyrics_are_recorded_as_read(fewer, k, source, clean_fallback);
    }
}

/// Lyrics that are written, or recorded with a track that has none of its own, were given to it.
pub proof fn law_written_lyrics_were_given(
    events: Seq<TrackEvent>,
    source: JobSource,
    clean_fallback: bool,
)
    ensures
        match track_run(events, source, clean_fallback) {
            TrackView::Saving { lyrics, .. } => exists|k: int|
                gave_lyrics(events, k, lyrics, source, clean_fallback),
            TrackView::Restoring { lyrics, .. } => exists|k: int|
                gave_lyrics(events, k, lyrics, source, clean_fallback),
            _ => true,
        },
    decreases events.len(),
{
    if events.len() > 0 {
        let fewer = events.drop_last();
        let before = track_run(fewer, source, clean_fallback);
        let state = track_run(events, source, clean_fallback);
        law_written_lyrics_were_given(fewer, source, clean_fallback);
        lemma_same_history(events);
        if state is Saving || state is Restoring {
            let lyrics = match state {
                TrackView::Saving { lyrics, .. } => lyrics,
                TrackView::Restoring { lyrics, .. } => lyrics,
                _ => Seq::empty(),
            };
            if before is Saving || before is Restoring {
                let k = choose|k: int| gave_lyrics(fewer, k, lyrics, source, clean_fallback);
                assert(fewer.take(k) == events.take(k));
                assert(gave_lyrics(events, k, lyrics, source, clean_fallback));
            } else {
                assert(gave_lyrics(events, events.len() - 1, lyrics, source, clean_fallback));
            }
        }
    }
}

/// A course ends in success only after success was recorded, and with nothing found only after that
/// was.
pub proof fn law_outcomes_were_recorded(
    state: TrackView,
    event: TrackEvent,
    source: JobSource,
    clean_fallback: bool,
)
    requires
        !(state is Finished),
        track_step(state, event, source, clean_fallback) is Finished,
    ensures
        match track_step(state, event, source, clean_fallback)->outcome {
            TrackOutcome::Success => state is RecordingSuccess && event is Done,
            TrackOutcome::NotFound => state is RecordingNotFound && event is Done,
            TrackOutcome::Unreadable => state is ReadingTags && source == JobSource::Scan,
            TrackOutcome::Deferred => (state is Fetching || state is FetchingCleaned)
                && event is Lyrics,
            TrackOutcome::Failed => event is Failed || (state is RereadingTags && event is Tags),
        },
{
}

proof fn lemma_run_of_one_more(
    events: Seq<TrackEvent>,
    event: TrackEvent,
    source: JobSource,
    clean_fallback: bool,
)
    ensures
        track_run(events.push(event), source, clean_fallback) == track_step(
            track_run(events, source, clean_fallback),
            event,
            source,
            clean_fallback,
        ),
{
    assert(events.push(event).drop_last() =~= events);
}

/// The first events of a track whose tags are read at once and that has no lyrics file.
pub open spec fn without_sidecar(t: TrackTags) -> Seq<TrackEvent> {
    Seq::empty().push(TrackEvent::Tags { tags: Some(t) }).push(
        TrackEvent::Sidecar { present: false },
    )
}

proof fn lemma_without_sidecar(t: TrackTags, source: JobSource, clean_fallback: bool)
    ensures
        track_run(without_sidecar(t), source, clean_fallback) == (TrackView::SearchingCache {
            tags: t@,
        }),
{
    let none = Seq::<TrackEvent>::empty();
    let read = TrackEvent::Tags { tags: Some(t) };
    lemma_run_of_one_more(none, read, source, clean_fallback);
    lemma_run_of_one_more(
        none.push(read),
        TrackEvent::Sidecar { present: false },
        source,
        clean_fallback,
    );
}

/// A track with a lyrics file is recorded as having lyrics, with what was read of the file, and
/// nothing is looked up or written.
pub proof fn law_course_of_a_track_with_lyrics(
    t: TrackTags,
    lyrics: Option<String>,
    source: JobSource,
    clean_fallback: bool,
)
    ensures
        ({
            let events = Seq::empty().push(TrackEvent::Tags { tags: Some(t) }).push(
                TrackEvent::Sidecar { present: true },
            ).push(TrackEvent::SidecarText { lyrics });
            &&& track_run(events, source, clean_fallback) == (TrackView::RecordingSuccess {
                tags: t@,
                known_lyrics: text::option_text(lyrics),
            })
            &&& track_run(events.push(TrackEvent::Done), source, clean_fallback) == (
            TrackView::Finished { outcome: TrackOutcome::Success })
        }),
{
    let none = Seq::<TrackEvent>::empty();
    let read = TrackEvent::Tags { tags: Some(t) };
    let there = TrackEvent::Sidecar { present: true };
    let text = TrackEvent::SidecarText { lyrics };
    lemma_run_of_one_more(none, read, source, clean_fallback);
    lemma_run_of_one_more(none.push(read), there, source, clean_fallback);
    lemma_run_of_one_more(none.push(read).push(there), text, source, clean_fallback);
    lemma_run_of_one_more(
        none.push(read).push(there).push(text),
        TrackEvent::Done,
        source,
        clean_fallback,
    );
}

/// A track whose lyrics the cache has gets them written and recorded, without a lookup.
pub proof fn law_course_of_a_cached_track(
    t: TrackTags,
    lyrics: String,
    source: JobSource,
    clean_fallback: bool,
)
    ensures
        ({
            let events = without_sidecar(t).push(TrackEvent::Cached { lyrics: Some(lyrics) });
            let written = events.push(TrackEvent::Done);
            &&& track_run(events, source, clean_fallback) == (TrackView::Restoring {
                tags: t@,
                lyrics: lyrics@,
            })
            &&& track_run(written, source, clean_fallback) == (TrackView::RecordingSuccess {
                tags: t@,
                known_lyrics: Some(lyrics@),
            })
            &&& track_run(written.push(TrackEvent::Done), source, clean_fallback) == (
            TrackView::Finished { outcome: TrackOutcome::Success })
        }),
{
    let cached = TrackEvent::Cached { lyrics: Some(lyrics) };
    let events = without_sidecar(t).push(cached);
    lemma_without_sidecar(t, source, clean_fallback);
    lemma_run_of_one_more(without_sidecar(t), cached, source, clean_fallback);
    lemma_run_of_one_more(events, TrackEvent::Done, source, clean_fallback);
    lemma_run_of_one_more(
        events.push(TrackEvent::Done),
        TrackEvent::Done,
        source,
        clean_fallback,
    );
}

/// A track that is neither here nor in the cache is looked up under its own tags. What is found is
/// written and recorded; a failure for now ends its course.
pub proof fn law_course_of_a_found_track(
    t: TrackTags,
    result: LyricsResult,
    source: JobSource,
    clean_fallback: bool,
)
    ensures
        ({
            let asked = without_sidecar(t).push(TrackEvent::Cached { lyrics: None });
            let answered = asked.push(TrackEvent::Lyrics { result });
            let written = answered.push(TrackEvent::Done);
            &&& track_run(asked, source, clean_fallback) == (TrackView::Fetching { tags: t@ })
            &&& result@ matches LyricsView::Found(lyrics) ==> {
                &&& track_run(answered, source, clean_fallback) == (TrackView::Saving {
                    tags: t@,
                    lyrics,
                })
                &&& track_run(written, source, clean_fallback) == (TrackView::RecordingSuccess {
                    tags: t@,
                    known_lyrics: Some(lyrics),
                })
                &&& track_run(written.push(TrackEvent::Done), source, clean_fallback) == (
                TrackView::Finished { outcome: TrackOutcome::Success })
            }
            &&& result@ is TemporaryFailure ==> track_run(answered, source, clean_fallback) == (
            TrackView::Finished { outcome: TrackOutcome::Deferred })
        }),
{
    let none = TrackEvent::Cached { lyrics: None };
    let asked = without_sidecar(t).push(none);
    let answer = TrackEvent::Lyrics { result };
    lemma_without_sidecar(t, source, clean_fallback);
    lemma_run_of_one_more(without_sidecar(t), none, source, clean_fallback);
    lemma_run_of_one_more(asked, answer, source, clean_fallback);
    lemma_run_of_one_more(asked.push(answer), TrackEvent::Done, source, clean_fallback);
    lemma_run_of_one_more(
        asked.push(answer).push(TrackEvent::Done),
        TrackEvent::Done,
        source,
        clean_fallback,
    );
}

/// A track that is not found under its own tags is looked up again under the cleaned ones, where
/// that is wanted and they give another title or album. Otherwise, and where that finds nothing
/// either, it is recorded as not found, under its own tags. What the second lookup finds is written
/// and recorded under its own tags too.
pub proof fn law_course_of_a_track_that_is_not_found(
    t: TrackTags,
    first: LyricsResult,
    second: LyricsResult,
    source: JobSource,
    clean_fallback: bool,
)
    requires
        first@ is NotFound,
    ensures
        ({
            let asked = without_sidecar(t).push(TrackEvent::Cached { lyrics: None });
            let once = asked.push(TrackEvent::Lyrics { result: first });
            let twice = once.push(TrackEvent::Lyrics { result: second });
            let cleaned = tags::cleaned_tags(t@);
            let again = clean_fallback && (cleaned.title != t@.title || cleaned.album != t@.album);
            &&& again ==> track_run(once, source, clean_fallback) == (TrackView::FetchingCleaned {
                tags: t@,
                lookup: cleaned,
            })
            &&& !again ==> track_run(once, source, clean_fallback) == (
            TrackView::RecordingNotFound { tags: t@ })
            &&& again ==> match second@ {
                LyricsView::Found(lyrics) => track_run(twice, source, clean_fallback) == (
                TrackView::Saving { tags: t@, lyrics }),
                LyricsView::NotFound => track_run(twice, source, clean_fallback) == (
                TrackView::RecordingNotFound { tags: t@ }),
                LyricsView::TemporaryFailure => track_run(twice, source, clean_fallback) == (
                TrackView::Finished { outcome: TrackOutcome::Deferred }),
            }
            &&& !again ==> track_run(once.push(TrackEvent::Done), source, clean_fallback) == (
            TrackView::Finished { outcome: TrackOutcome::NotFound })
        }),
{
    let none = TrackEvent::Cached { lyrics: None };
    let asked = without_sidecar(t).push(none);
    let one = TrackEvent::Lyrics { result: first };
    let two = TrackEvent::Lyrics { result: second };
    lemma_without_sidecar(t, source, clean_fallback);
    lemma_run_of_one_more(without_sidecar(t), none, source, clean_fallback);
    lemma_run_of_one_more(asked, one, source, clean_fallback);
    lemma_run_of_one_more(asked.push(one), two, source, clean_fallback);
    lemma_run_of_one_more(asked.push(one), TrackEvent::Done, source, clean_fallback);
}

/// A file whose tags cannot be read is left alone by a scan. After an event of the watcher they are
/// read a second time, and the course goes on with what that gives, or fails.
pub proof fn law_course_of_an_unreadable_file(t: TrackTags, clean_fallback: bool)
    ensures
        ({
            let unread = Seq::empty().push(TrackEvent::Tags { tags: None });
            &&& track_run(unread, JobSource::Scan, clean_fallback) == (TrackView::Finished {
                outcome: TrackOutcome::Unreadable,
            })
            &&& track_run(unread, JobSource::Watch, clean_fallback) == TrackView::RereadingTags
            &&& track_run(
                unread.push(TrackEvent::Tags { tags: Some(t) }),
                JobSource::Watch,
                clean_fallback,
            ) == (TrackView::CheckingSidecar { tags: t@ })
            &&& track_run(
                unread.push(TrackEvent::Tags { tags: None }),
                JobSource::Watch,
                clean_fallback,
            ) == (TrackView::Finished { outcome: TrackOutcome::Failed })
        }),
{
    let none = Seq::<TrackEvent>::empty();
    let no_tags = TrackEvent::Tags { tags: None };
    let some_tags = TrackEvent::Tags { tags: Some(t) };
    lemma_run_of_one_more(none, no_tags, JobSource::Scan, clean_fallback);
    lemma_run_of_one_more(none, no_tags, JobSource::Watch, clean_fallback);
    lemma_run_of_one_more(none.push(no_tags), some_tags, JobSource::Watch, clean_fallback);
    lemma_run_of_one_more(none.push(no_tags), no_tags, JobSource::Watch, clean_fallback);
}

/// A step of writing or recording, or a search of the cache, that fails ends the course as failed.
pub proof fn law_failed_step_ends_the_course(
    state: TrackView,
    source: JobSource,
    clean_fallback: bool,
)
    requires
        state is SearchingCache || state is Restoring || state is Saving || state is RecordingSuccess
            || state is RecordingNotFound,
    ensures
        track_step(state, TrackEvent::Failed, source, clean_fallback) == (TrackView::Finished {
            outcome: TrackOutcome::Failed,
        }),
{
}

/// The watcher takes up a file exactly where it is audio, has no lyrics file, and does not count as
/// not found under its key. The job is for that file, its key and the lyrics file beside it.
pub proof fn law_watched_files_become_jobs(
    file: Seq<u8>,
    lrc_exists: bool,
    music_dir: Seq<u8>,
    not_found: Set<Seq<char>>,
)
    ensures
        ({
            let job = watch_job(file, lrc_exists, music_dir, not_found);
            &&& job is Some <==> names::is_audio(file) && !lrc_exists && !not_found.contains(
                scan::key_of(file, music_dir),
            )
            &&& job is Some ==> {
                &&& job->0.audio_path == file
                &&& job->0.rel_path == scan::key_of(file, music_dir)
                &&& job->0.lrc_path == names::sidecar_of(file)
                &&& job->0.source == JobSource::Watch
            }
        }),
{
}

} // verus!
