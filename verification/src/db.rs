//! The track cache: which tracks have lyrics, which were looked for in vain, and the rows in which
//! the table `track_cache` keeps that.
use vstd::hash_set::StringHashSet;
use vstd::prelude::*;

use crate::paths;
use crate::tags;
use crate::tags::TrackTags;
use crate::text;

verus! {

pub const SUCCESS: &'static str = "success";

pub const NOT_FOUND: &'static str = "not_found";

pub const ADD_ARTIST: &'static str = "ALTER TABLE track_cache ADD COLUMN artist TEXT";

pub const ADD_TITLE: &'static str = "ALTER TABLE track_cache ADD COLUMN title TEXT";

pub const ADD_ALBUM: &'static str = "ALTER TABLE track_cache ADD COLUMN album TEXT";

pub const ADD_DURATION: &'static str = "ALTER TABLE track_cache ADD COLUMN duration INTEGER";

pub const ADD_LYRICS: &'static str = "ALTER TABLE track_cache ADD COLUMN lyrics TEXT";

/// Points in time are counted from the Unix epoch in units of 2^-22 second. That is the step between
/// neighbouring `f64` counts of seconds from the year 2004 to 2038, so such a count converts without
/// loss, and flooring any other keeps its order to such counts.
pub const TICKS_PER_SECOND: i64 = 4_194_304;

pub const SECONDS_PER_DAY: i64 = 86_400;

/// A row of the table.
#[derive(Debug)]
pub struct TrackRow {
    pub path: String,
    pub status: String,
    pub artist: Option<String>,
    pub title: Option<String>,
    pub album: Option<String>,
    pub duration: Option<i64>,
    pub lyrics: Option<String>,
    pub updated_at: i64,
}

/// The contents of a `TrackRow`.
pub struct RowView {
    pub path: Seq<char>,
    pub status: Seq<char>,
    pub artist: Option<Seq<char>>,
    pub title: Option<Seq<char>>,
    pub album: Option<Seq<char>>,
    pub duration: Option<i64>,
    pub lyrics: Option<Seq<char>>,
    pub updated_at: i64,
}

impl View for TrackRow {
    type V = RowView;

    open spec fn view(&self) -> RowView {
        RowView {
            path: self.path@,
            status: self.status@,
            artist: text::option_text(self.artist),
            title: text::option_text(self.title),
            album: text::option_text(self.album),
            duration: self.duration,
            lyrics: text::option_text(self.lyrics),
            updated_at: self.updated_at,
        }
    }
}

/// What a row says of its track's state.
#[derive(Debug)]
pub struct TrackStatus {
    pub path: String,
    pub status: String,
    pub updated_at: i64,
}

/// The contents of a `TrackStatus`.
pub struct StatusView {
    pub path: Seq<char>,
    pub status: Seq<char>,
    pub updated_at: i64,
}

impl View for TrackStatus {
    type V = StatusView;

    open spec fn view(&self) -> StatusView {
        StatusView { path: self.path@, status: self.status@, updated_at: self.updated_at }
    }
}

/// A vain search of time `updated_at` still counts at time `now`.
pub open spec fn is_fresh(updated_at: i64, now: i64, retry_days: u64) -> bool {
    updated_at >= now - retry_days * SECONDS_PER_DAY * TICKS_PER_SECOND
}

pub open spec fn says_success(s: StatusView) -> bool {
    s.status == SUCCESS@
}

pub open spec fn says_not_found(s: StatusView, now: i64, retry_days: u64) -> bool {
    s.status == NOT_FOUND@ && is_fresh(s.updated_at, now, retry_days)
}

/// The paths of the tracks that have lyrics.
pub open spec fn success_paths(rows: Seq<TrackStatus>) -> Set<Seq<char>> {
    Set::new(
        |p: Seq<char>|
            exists|i: int|
                0 <= i < rows.len() && (#[trigger] rows[i])@.path == p && says_success(rows[i]@),
    )
}

/// The paths of the tracks that were looked for in vain, not too long ago.
pub open spec fn not_found_paths(rows: Seq<TrackStatus>, now: i64, retry_days: u64) -> Set<
    Seq<char>,
> {
    Set::new(
        |p: Seq<char>|
            exists|i: int|
                0 <= i < rows.len() && (#[trigger] rows[i])@.path == p && says_not_found(
                    rows[i]@,
                    now,
                    retry_days,
                ),
    )
}

fn fresh(updated_at: i64, now: i64, retry_days: u64) -> (r: bool)
    ensures
        r == is_fresh(updated_at, now, retry_days),
{
    let ticks_per_day: i128 = SECONDS_PER_DAY as i128 * TICKS_PER_SECOND as i128;
    assert(retry_days as int * SECONDS_PER_DAY * TICKS_PER_SECOND == retry_days as int
        * ticks_per_day) by (nonlinear_arith)
        requires
            ticks_per_day == SECONDS_PER_DAY * TICKS_PER_SECOND,
    ;
    assert(0 <= retry_days as int * ticks_per_day <= u64::MAX * 362_387_865_600) by (
    nonlinear_arith)
        requires
            ticks_per_day == 362_387_865_600,
            0 <= retry_days <= u64::MAX,
    ;
    let window: i128 = retry_days as i128 * ticks_per_day;
    updated_at as i128 >= now as i128 - window
}

/// `value`, unless it is empty.
pub fn opt_nonempty(value: &str) -> (r: Option<&str>)
    ensures
        match r {
            Some(v) => value@.len() > 0 && v@ == value@,
            None => value@.len() == 0,
        },
{
    if value.is_empty() {
        None
    } else {
        Some(value)
    }
}

/// A text column: the text, or NULL where it is empty.
pub open spec fn column_text(value: Seq<char>) -> Option<Seq<char>> {
    if value.len() == 0 {
        None
    } else {
        Some(value)
    }
}

fn text_column(value: &str) -> (r: Option<String>)
    ensures
        text::option_text(r) == column_text(value@),
{
    match opt_nonempty(value) {
        Some(v) => Some(v.to_owned()),
        None => None,
    }
}

/// The row of a track in the state `status`.
pub open spec fn track_row(
    path: Seq<char>,
    status: Seq<char>,
    t: tags::TagsView,
    lyrics: Option<Seq<char>>,
    now: i64,
) -> RowView {
    RowView {
        path,
        status,
        artist: column_text(t.artist),
        title: column_text(t.title),
        album: column_text(t.album),
        duration: Some(t.duration_secs),
        lyrics,
        updated_at: now,
    }
}

/// The row to store for a track that has lyrics. Where its tags are not known they count as empty.
pub fn success_row(
    rel_path: &str,
    known: Option<&TrackTags>,
    lyrics: Option<&str>,
    now: i64,
) -> (r: TrackRow)
    ensures
        r@ == track_row(
            rel_path@,
            SUCCESS@,
            match known {
                Some(t) => t@,
                None => tags::empty_tags(),
            },
            match lyrics {
                Some(l) => Some(l@),
                None => None,
            },
            now,
        ),
{
    let empty = TrackTags::default();
    let t: &TrackTags = match known {
        Some(t) => t,
        None => &empty,
    };
    TrackRow {
        path: rel_path.to_owned(),
        status: SUCCESS.to_owned(),
        artist: text_column(t.artist.as_str()),
        title: text_column(t.title.as_str()),
        album: text_column(t.album.as_str()),
        duration: Some(t.duration_secs),
        lyrics: match lyrics {
            Some(l) => Some(l.to_owned()),
            None => None,
        },
        updated_at: now,
    }
}

/// The row to store for a track that was looked for in vain.
pub fn not_found_row(rel_path: &str, t: &TrackTags, now: i64) -> (r: TrackRow)
    ensures
        r@ == track_row(rel_path@, NOT_FOUND@, t@, None, now),
{
    TrackRow {
        path: rel_path.to_owned(),
        status: NOT_FOUND.to_owned(),
        artist: text_column(t.artist.as_str()),
        title: text_column(t.title.as_str()),
        album: text_column(t.album.as_str()),
        duration: Some(t.duration_secs),
        lyrics: None,
        updated_at: now,
    }
}

/// The in-memory side of the cache.
pub struct CacheDb {
    not_found: StringHashSet,
    success: StringHashSet,
    retry_not_found_days: u64,
}

/// The contents of a `CacheDb`.
pub struct CacheView {
    pub not_found: Set<Seq<char>>,
    pub success: Set<Seq<char>>,
    pub retry_not_found_days: u64,
}

impl View for CacheDb {
    type V = CacheView;

    closed spec fn view(&self) -> CacheView {
        CacheView {
            not_found: self.not_found@,
            success: self.success@,
            retry_not_found_days: self.retry_not_found_days,
        }
    }
}

/// The cache after a track was recorded as having lyrics.
pub open spec fn with_success(cache: CacheView, path: Seq<char>) -> CacheView {
    CacheView {
        success: cache.success.insert(path),
        not_found: cache.not_found.remove(path),
        ..cache
    }
}

/// The cache after a track was recorded as looked for in vain.
pub open spec fn with_not_found(cache: CacheView, path: Seq<char>) -> CacheView {
    CacheView {
        success: cache.success.remove(path),
        not_found: cache.not_found.insert(path),
        ..cache
    }
}

/// A statement is due where the column that it adds is missing.
pub open spec fn upgrade(columns: Seq<String>, name: Seq<char>, statement: Seq<char>) -> Seq<
    Seq<char>,
> {
    if text::texts(columns).contains(name) {
        Seq::empty()
    } else {
        seq![statement]
    }
}

/// The statements that bring a table with the given columns up to date.
pub open spec fn upgrades(columns: Seq<String>) -> Seq<Seq<char>> {
    upgrade(columns, "artist"@, ADD_ARTIST@) + upgrade(columns, "title"@, ADD_TITLE@) + upgrade(
        columns,
        "album"@,
        ADD_ALBUM@,
    ) + upgrade(columns, "duration"@, ADD_DURATION@) + upgrade(columns, "lyrics"@, ADD_LYRICS@)
}

fn has_column(columns: &Vec<String>, name: &str) -> (r: bool)
    ensures
        r == text::texts(columns@).contains(name@),
{
    let mut i: usize = 0;
    while i < columns.len()
        invariant
            i <= columns.len(),
            forall|j: int| 0 <= j < i ==> text::texts(columns@)[j] != name@,
        decreases columns.len() - i,
    {
        if text::str_eq(columns[i].as_str(), name) {
            proof {
                assert(text::texts(columns@)[i as int] == name@);
            }
            return true;
        }
        i += 1;
    }
    false
}

fn push_upgrade(statements: &mut Vec<String>, columns: &Vec<String>, name: &str, statement: &str)
    ensures
        text::texts(final(statements)@) == text::texts(old(statements)@) + upgrade(
            columns@,
            name@,
            statement@,
        ),
{
    if !has_column(columns, name) {
        statements.push(statement.to_owned());
    }
    proof {
        assert(text::texts(statements@) =~= text::texts(old(statements)@) + upgrade(
            columns@,
            name@,
            statement@,
        ));
    }
}

/// The cache as it stands before the table was read.
pub open spec fn fresh_cache(retry_not_found_days: u64) -> CacheView {
    CacheView { not_found: Set::empty(), success: Set::empty(), retry_not_found_days }
}

/// What `serde_json::from_slice` reads from bytes as a list of strings.
pub uninterp spec fn json_string_list(bytes: Seq<u8>) -> Option<Seq<Seq<char>>>;

#[verifier::external_type_specification]
#[verifier::external_body]
pub struct ExJsonError(serde_json::Error);

/// `serde_json::from_slice` for a list of strings. Which bytes it accepts, and the strings that it
/// reads from them, are left to the name `json_string_list`.
#[verifier::external_body]
fn parse_string_list(bytes: &[u8]) -> (r: Result<Vec<String>, serde_json::Error>)
    ensures
        match r {
            Ok(v) => json_string_list(bytes@) == Some(text::texts(v@)),
            Err(_) => json_string_list(bytes@) is None,
        },
{
    serde_json::from_slice(bytes)
}

#[derive(Debug, Clone, Copy, PartialEq, Eq, Structural)]
pub enum LegacyError {
    NotAListOfPaths,
}

/// The row of a track of which only a path is known, and that nothing was found for it.
pub open spec fn legacy_row(path: Seq<char>, now: i64) -> RowView {
    RowView {
        path,
        status: NOT_FOUND@,
        artist: None,
        title: None,
        album: None,
        duration: None,
        lyrics: None,
        updated_at: now,
    }
}

pub open spec fn row_views(rows: Seq<TrackRow>) -> Seq<RowView> {
    rows.map_values(|r: TrackRow| r@)
}

/// One row for each path, in order.
pub open spec fn legacy_rows_for(listed: Seq<Seq<char>>, now: i64) -> Seq<RowView> {
    listed.map_values(|path: Seq<char>| legacy_row(path, now))
}

/// The rows for the paths of tracks that an older cache has as not found.
pub fn legacy_rows(listed: &Vec<String>, now: i64) -> (rows: Vec<TrackRow>)
    ensures
        row_views(rows@) == legacy_rows_for(text::texts(listed@), now),
{
    let mut rows: Vec<TrackRow> = Vec::new();
    let mut i: usize = 0;
    while i < listed.len()
        invariant
            i <= listed.len(),
            rows.len() == i,
            forall|j: int|
                0 <= j < i ==> (#[trigger] rows@[j])@ == legacy_row(text::texts(listed@)[j], now),
        decreases listed.len() - i,
    {
        rows.push(
            TrackRow {
                path: listed[i].clone(),
                status: NOT_FOUND.to_owned(),
                artist: None,
                title: None,
                album: None,
                duration: None,
                lyrics: None,
                updated_at: now,
            },
        );
        i += 1;
    }
    proof {
        assert(row_views(rows@) =~= legacy_rows_for(text::texts(listed@), now));
    }
    rows
}

/// What taking over an older cache comes to.
#[derive(Debug)]
pub struct Migration {
    /// The rows to add, in order, each unless the table has a row of its path.
    pub rows: Vec<TrackRow>,
    /// Whether the file of the older cache is to be removed afterwards.
    pub remove_file: bool,
}

/// The contents of a `Migration`.
pub struct MigrationView {
    pub rows: Seq<RowView>,
    pub remove_file: bool,
}

impl View for Migration {
    type V = MigrationView;

    open spec fn view(&self) -> MigrationView {
        MigrationView { rows: row_views(self.rows@), remove_file: self.remove_file }
    }
}

/// What is done about the file of an older cache: nothing where there is none, and an error where it
/// is not a list of paths.
pub open spec fn migration_for(file: Option<Seq<u8>>, now: i64) -> Result<
    MigrationView,
    LegacyError,
> {
    match file {
        None => Ok(MigrationView { rows: Seq::empty(), remove_file: false }),
        Some(bytes) => match json_string_list(bytes) {
            Some(listed) => Ok(
                MigrationView { rows: legacy_rows_for(listed, now), remove_file: true },
            ),
            None => Err(LegacyError::NotAListOfPaths),
        },
    }
}

/// A row's lyrics fit a track: artist and title agree but for the case of ASCII letters, and the
/// length, where the row has one, is at most five seconds off.
pub open spec fn offers_lyrics(row: RowView, t: tags::TagsView) -> bool {
    &&& row.artist is Some && text::same_ignoring_case(row.artist->0, t.artist)
    &&& row.title is Some && text::same_ignoring_case(row.title->0, t.title)
    &&& match row.duration {
        None => true,
        Some(d) => d == 0 || -5 <= d - t.duration_secs <= 5,
    }
    &&& row.lyrics is Some
}

impl TrackRow {
    /// Whether the row's lyrics fit a track.
    pub fn offers_lyrics(&self, t: &TrackTags) -> (r: bool)
        ensures
            r == offers_lyrics(self@, t@),
    {
        let same_artist = match &self.artist {
            Some(artist) => text::eq_ignore_ascii_case(artist.as_str(), t.artist.as_str()),
            None => false,
        };
        let same_title = match &self.title {
            Some(title) => text::eq_ignore_ascii_case(title.as_str(), t.title.as_str()),
            None => false,
        };
        let same_length = match self.duration {
            Some(d) => {
                let apart: i128 = d as i128 - t.duration_secs as i128;
                d == 0 || (-5 <= apart && apart <= 5)
            },
            None => true,
        };
        same_artist && same_title && same_length && self.lyrics.is_some()
    }
}

/// The lyrics of the first row that fits a track.
pub open spec fn first_lyrics(rows: Seq<TrackRow>, t: tags::TagsView) -> Option<Seq<char>>
    decreases rows.len(),
{
    if rows.len() == 0 {
        None
    } else if offers_lyrics(rows.first()@, t) {
        rows.first()@.lyrics
    } else {
        first_lyrics(rows.drop_first(), t)
    }
}

/// The key of a track in the table: its path below the music directory.
pub open spec fn relative(path: Seq<u8>, base: Seq<u8>) -> Seq<u8> {
    let dir = base_prefix(base);
    if base.len() > 0 && dir.len() <= path.len() && path.take(dir.len() as int) == dir && (
    path.len() == dir.len() || path[dir.len() as int] == paths::SLASH) {
        undotted(path.skip(dir.len() as int))
    } else {
        path
    }
}

/// A directory without the separators at its end. The root comes out empty.
pub open spec fn base_prefix(base: Seq<u8>) -> Seq<u8> {
    if paths::body(base).len() > 0 || base.len() == 0 || base.first() == paths::SLASH {
        paths::body(base)
    } else {
        base.take(1)
    }
}

/// `p` without the separators and the `.` components at its start.
pub open spec fn undotted(p: Seq<u8>) -> Seq<u8>
    decreases p.len(),
{
    if p.len() == 0 {
        p
    } else if p.first() == paths::SLASH {
        undotted(p.drop_first())
    } else if p.first() == paths::DOT && (p.len() == 1 || p[1] == paths::SLASH) {
        undotted(p.drop_first())
    } else {
        p
    }
}

/// The part of `path` below `base`; all of it where it lies elsewhere.
pub fn relative_bytes(path: &[u8], base: &[u8]) -> (r: Vec<u8>)
    ensures
        r@ == relative(path@, base@),
{
    let end = paths::body_end(base);
    let stop: usize = if end > 0 || base.len() == 0 || base[0] == paths::SLASH {
        end
    } else {
        1
    };
    let dir = paths::slice_of(base, 0, stop);
    proof {
        assert(dir@ =~= base@.take(stop as int));
        assert(dir@ == base_prefix(base@));
    }
    let mut start: usize = 0;
    if base.len() > 0 && dir.len() <= path.len() {
        let head = paths::slice_of(path, 0, dir.len());
        proof {
            assert(head@ =~= path@.take(dir@.len() as int));
        }
        if paths::bytes_eq(&head, &dir) && (path.len() == dir.len() || path[dir.len()]
            == paths::SLASH) {
            start = dir.len();
            proof {
                assert(path@.skip(start as int) =~= path@.skip(dir@.len() as int));
            }
            while start < path.len() && (path[start] == paths::SLASH || (path[start] == paths::DOT
                && (path.len() - start == 1 || path[start + 1] == paths::SLASH)))
                invariant
                    start <= path@.len(),
                    undotted(path@.skip(start as int)) == undotted(path@.skip(dir@.len() as int)),
                decreases path@.len() - start,
            {
                proof {
                    assert(path@.skip(start as int).drop_first() =~= path@.skip(start + 1));
                }
                start += 1;
            }
        }
    }
    let r = paths::slice_of(path, start, path.len());
    proof {
        assert(r@ =~= path@.skip(start as int));
        if start == 0 {
            assert(r@ =~= path@);
        }
    }
    r
}

/// The key of a track in the table.
pub fn rel_path(path: &[u8], music_dir: &[u8]) -> (r: String)
    ensures
        r@ == paths::readable(relative(path@, music_dir@)),
{
    paths::readable_text(&relative_bytes(path, music_dir))
}

impl CacheDb {
    /// An empty cache over a table with the given columns, and the statements that the table needs
    /// first.
    pub fn open(columns: &Vec<String>, retry_not_found_days: u64) -> (r: (Self, Vec<String>))
        ensures
            r.0@ == fresh_cache(retry_not_found_days),
            text::texts(r.1@) == upgrades(columns@),
    {
        let mut statements: Vec<String> = Vec::new();
        proof {
            assert(text::texts(statements@) =~= Seq::<Seq<char>>::empty());
        }
        push_upgrade(&mut statements, columns, "artist", ADD_ARTIST);
        push_upgrade(&mut statements, columns, "title", ADD_TITLE);
        push_upgrade(&mut statements, columns, "album", ADD_ALBUM);
        push_upgrade(&mut statements, columns, "duration", ADD_DURATION);
        push_upgrade(&mut statements, columns, "lyrics", ADD_LYRICS);
        let db = CacheDb {
            not_found: StringHashSet::new(),
            success: StringHashSet::new(),
            retry_not_found_days,
        };
        proof {
            assert(text::texts(statements@) =~= upgrades(columns@));
        }
        (db, statements)
    }

    /// What to do about the file of an older cache, a JSON list of the paths of tracks that were not
    /// found. `file` is what it holds, if it is there. Where it cannot be read as such a list,
    /// nothing is done.
    pub fn migrate_legacy_json(file: Option<&[u8]>, now: i64) -> (r: Result<Migration, LegacyError>)
        ensures
            match r {
                Ok(m) => migration_for(
                    match file {
                        Some(bytes) => Some(bytes@),
                        None => None,
                    },
                    now,
                ) == Ok::<MigrationView, LegacyError>(m@),
                Err(e) => migration_for(
                    match file {
                        Some(bytes) => Some(bytes@),
                        None => None,
                    },
                    now,
                ) == Err::<MigrationView, LegacyError>(e),
            },
    {
        match file {
            None => {
                let rows: Vec<TrackRow> = Vec::new();
                proof {
                    assert(row_views(rows@) =~= Seq::<RowView>::empty());
                }
                Ok(Migration { rows, remove_file: false })
            },
            Some(bytes) => match parse_string_list(bytes) {
                Ok(listed) => Ok(Migration { rows: legacy_rows(&listed, now), remove_file: true }),
                Err(_) => Err(LegacyError::NotAListOfPaths),
            },
        }
    }

    /// The lyrics that the table holds for a track: those of the first row that fits.
    pub fn find_cached_lyrics(rows: &Vec<TrackRow>, t: &TrackTags) -> (r: Option<String>)
        ensures
            text::option_text(r) == first_lyrics(rows@, t@),
    {
        let mut i: usize = 0;
        proof {
            assert(rows@.skip(0) =~= rows@);
        }
        while i < rows.len()
            invariant
                i <= rows.len(),
                first_lyrics(rows@.skip(i as int), t@) == first_lyrics(rows@, t@),
            decreases rows.len() - i,
        {
            proof {
                assert(rows@.skip(i as int).drop_first() =~= rows@.skip(i + 1));
            }
            if rows[i].offers_lyrics(t) {
                return rows[i].lyrics.clone();
            }
            i += 1;
        }
        None
    }

    /// Takes over what the rows of the table say at time `now`.
    pub fn load_memory_cache(&mut self, rows: &Vec<TrackStatus>, now: i64)
        ensures
            final(self)@ == (CacheView {
                success: success_paths(rows@),
                not_found: not_found_paths(rows@, now, old(self)@.retry_not_found_days),
                retry_not_found_days: old(self)@.retry_not_found_days,
            }),
    {
        let days = self.retry_not_found_days;
        let mut not_found = StringHashSet::new();
        let mut success = StringHashSet::new();
        proof {
            reveal_strlit("success");
            reveal_strlit("not_found");
            assert(SUCCESS@.len() != NOT_FOUND@.len());
        }
        let mut i: usize = 0;
        while i < rows.len()
            invariant
                i <= rows.len(),
                SUCCESS@ != NOT_FOUND@,
                forall|p: Seq<char>|
                    success@.contains(p) <==> exists|j: int|
                        0 <= j < i && (#[trigger] rows@[j])@.path == p && says_success(rows@[j]@),
                forall|p: Seq<char>|
                    not_found@.contains(p) <==> exists|j: int|
                        0 <= j < i && (#[trigger] rows@[j])@.path == p && says_not_found(
                            rows@[j]@,
                            now,
                            days,
                        ),
            decreases rows.len() - i,
        {
            let row = &rows[i];
            let ghost before_success = success@;
            let ghost before_not_found = not_found@;
            if text::str_eq(row.status.as_str(), SUCCESS) {
                success.insert(row.path.clone());
            } else if text::str_eq(row.status.as_str(), NOT_FOUND) && fresh(
                row.updated_at,
                now,
                days,
            ) {
                not_found.insert(row.path.clone());
            }
            proof {
                assert(rows@[i as int]@ == row@);
                assert forall|p: Seq<char>|
                    success@.contains(p) <==> exists|j: int|
                        0 <= j < i + 1 && (#[trigger] rows@[j])@.path == p && says_success(
                            rows@[j]@,
                        ) by {
                    if success@.contains(p) && !before_success.contains(p) {
                        assert(rows@[i as int]@.path == p);
                    }
                    if before_success.contains(p) {
                        let j = choose|j: int|
                            0 <= j < i && (#[trigger] rows@[j])@.path == p && says_success(
                                rows@[j]@,
                            );
                        assert(rows@[j]@.path == p);
                    }
                }
                assert forall|p: Seq<char>|
                    not_found@.contains(p) <==> exists|j: int|
                        0 <= j < i + 1 && (#[trigger] rows@[j])@.path == p && says_not_found(
                            rows@[j]@,
                            now,
                            days,
                        ) by {
                    if not_found@.contains(p) && !before_not_found.contains(p) {
                        assert(rows@[i as int]@.path == p);
                    }
                    if before_not_found.contains(p) {
                        let j = choose|j: int|
                            0 <= j < i && (#[trigger] rows@[j])@.path == p && says_not_found(
                                rows@[j]@,
                                now,
                                days,
                            );
                        assert(rows@[j]@.path == p);
                    }
                }
            }
            i += 1;
        }
        self.not_found = not_found;
        self.success = success;
        proof {
            assert(self.success@ =~= success_paths(rows@));
            assert(self.not_found@ =~= not_found_paths(rows@, now, days));
        }
    }

    /// Whether the track was looked for in vain, not too long ago.
    pub fn is_not_found(&self, rel_path: &str) -> (r: bool)
        ensures
            r == self@.not_found.contains(rel_path@),
    {
        self.not_found.contains(rel_path)
    }

    /// Whether the track has lyrics.
    pub fn is_success(&self, rel_path: &str) -> (r: bool)
        ensures
            r == self@.success.contains(rel_path@),
    {
        self.success.contains(rel_path)
    }

    /// Notes that a `success_row` was stored.
    pub fn mark_success(&mut self, rel_path: &str)
        ensures
            final(self)@ == with_success(old(self)@, rel_path@),
    {
        self.success.insert(rel_path.to_owned());
        self.not_found.remove(rel_path);
    }

    /// Notes that a `not_found_row` was stored.
    pub fn mark_not_found(&mut self, rel_path: &str)
        ensures
            final(self)@ == with_not_found(old(self)@, rel_path@),
    {
        self.not_found.insert(rel_path.to_owned());
        self.success.remove(rel_path);
    }
}

/// The paths that the table itself has as tracks with lyrics.
pub open spec fn success_in(table: Map<Seq<char>, RowView>) -> Set<Seq<char>> {
    Set::new(|p: Seq<char>| table.dom().contains(p) && says_success(status_in(table[p])))
}

/// The paths that the table itself has as looked for in vain, not too long ago.
pub open spec fn not_found_in(
    table: Map<Seq<char>, RowView>,
    now: i64,
    retry_days: u64,
) -> Set<Seq<char>> {
    Set::new(
        |p: Seq<char>|
            table.dom().contains(p) && says_not_found(status_in(table[p]), now, retry_days),
    )
}

pub open spec fn status_in(row: RowView) -> StatusView {
    StatusView { path: row.path, status: row.status, updated_at: row.updated_at }
}

/// `rows` gives the state of every row of a table whose key is the path.
pub open spec fn lists(rows: Seq<TrackStatus>, table: Map<Seq<char>, RowView>) -> bool {
    &&& forall|p: Seq<char>| #[trigger] table.dom().contains(p) ==> table[p].path == p
    &&& forall|i: int|
        0 <= i < rows.len() ==> table.dom().contains((#[trigger] rows[i])@.path) && rows[i]@
            == status_in(table[rows[i]@.path])
    &&& forall|p: Seq<char>| #[trigger]
        table.dom().contains(p) ==> exists|i: int|
            0 <= i < rows.len() && (#[trigger] rows[i])@.path == p
}

/// Loading the cache from the rows of a table gives the states that the table has.
pub proof fn law_loading_reads_the_table(
    rows: Seq<TrackStatus>,
    table: Map<Seq<char>, RowView>,
    now: i64,
    retry_days: u64,
)
    requires
        lists(rows, table),
    ensures
        success_paths(rows) == success_in(table),
        not_found_paths(rows, now, retry_days) == not_found_in(table, now, retry_days),
{
    assert forall|p: Seq<char>|
        success_paths(rows).contains(p) <==> success_in(table).contains(p) by {
        if success_in(table).contains(p) {
            let i = choose|i: int| 0 <= i < rows.len() && (#[trigger] rows[i])@.path == p;
            assert(rows[i]@.path == p && says_success(rows[i]@));
        }
    }
    assert(success_paths(rows) =~= success_in(table));
    assert forall|p: Seq<char>|
        not_found_paths(rows, now, retry_days).contains(p) <==> not_found_in(
            table,
            now,
            retry_days,
        ).contains(p) by {
        if not_found_in(table, now, retry_days).contains(p) {
            let i = choose|i: int| 0 <= i < rows.len() && (#[trigger] rows[i])@.path == p;
            assert(rows[i]@.path == p && says_not_found(rows[i]@, now, retry_days));
        }
    }
    assert(not_found_paths(rows, now, retry_days) =~= not_found_in(table, now, retry_days));
}

proof fn lemma_states_differ()
    ensures
        SUCCESS@ != NOT_FOUND@,
{
    reveal_strlit("success");
    reveal_strlit("not_found");
    assert(SUCCESS@.len() != NOT_FOUND@.len());
}

/// Storing a track's success row and noting it keeps the cache in agreement with the table.
pub proof fn law_noting_success_follows_the_table(
    table: Map<Seq<char>, RowView>,
    path: Seq<char>,
    t: tags::TagsView,
    lyrics: Option<Seq<char>>,
    stored_at: i64,
    now: i64,
    cache: CacheView,
)
    requires
        cache.success == success_in(table),
        cache.not_found == not_found_in(table, now, cache.retry_not_found_days),
    ensures
        ({
            let after = table.insert(path, track_row(path, SUCCESS@, t, lyrics, stored_at));
            let noted = with_success(cache, path);
            &&& noted.success == success_in(after)
            &&& noted.not_found == not_found_in(after, now, cache.retry_not_found_days)
        }),
{
    lemma_states_differ();
    let after = table.insert(path, track_row(path, SUCCESS@, t, lyrics, stored_at));
    assert(with_success(cache, path).success =~= success_in(after));
    assert(with_success(cache, path).not_found =~= not_found_in(
        after,
        now,
        cache.retry_not_found_days,
    ));
}

/// Storing a track's row as not found and noting it keeps the cache in agreement with the table, as
/// long as the search is not too long ago.
pub proof fn law_noting_not_found_follows_the_table(
    table: Map<Seq<char>, RowView>,
    path: Seq<char>,
    t: tags::TagsView,
    stored_at: i64,
    now: i64,
    cache: CacheView,
)
    requires
        cache.success == success_in(table),
        cache.not_found == not_found_in(table, now, cache.retry_not_found_days),
        is_fresh(stored_at, now, cache.retry_not_found_days),
    ensures
        ({
            let after = table.insert(path, track_row(path, NOT_FOUND@, t, None, stored_at));
            let noted = with_not_found(cache, path);
            &&& noted.success == success_in(after)
            &&& noted.not_found == not_found_in(after, now, cache.retry_not_found_days)
        }),
{
    lemma_states_differ();
    let after = table.insert(path, track_row(path, NOT_FOUND@, t, None, stored_at));
    assert(with_not_found(cache, path).success =~= success_in(after));
    assert(with_not_found(cache, path).not_found =~= not_found_in(
        after,
        now,
        cache.retry_not_found_days,
    ));
}

/// No track has lyrics and counts as not found at once: neither after loading from a table, nor
/// after any mark.
pub proof fn law_states_exclude_each_other(
    table: Map<Seq<char>, RowView>,
    now: i64,
    cache: CacheView,
    path: Seq<char>,
)
    requires
        cache.success.disjoint(cache.not_found),
    ensures
        success_in(table).disjoint(not_found_in(table, now, cache.retry_not_found_days)),
        fresh_cache(cache.retry_not_found_days).success.disjoint(
            fresh_cache(cache.retry_not_found_days).not_found,
        ),
        with_success(cache, path).success.disjoint(with_success(cache, path).not_found),
        with_not_found(cache, path).success.disjoint(with_not_found(cache, path).not_found),
{
    lemma_states_differ();
}

/// A statement of `upgrades` adds a column of this name.
pub open spec fn is_added(columns: Seq<String>, name: Seq<char>) -> bool {
    &&& !text::texts(columns).contains(name)
    &&& name == "artist"@ || name == "title"@ || name == "album"@ || name == "duration"@ || name
        == "lyrics"@
}

/// A table that was given the columns that it lacked, and kept those that it had, is up to date:
/// opening it again calls for no statement.
pub proof fn law_upgraded_table_is_up_to_date(columns: Seq<String>, after: Seq<String>)
    requires
        forall|name: Seq<char>|
            text::texts(columns).contains(name) || is_added(columns, name) ==> #[trigger] text::texts(
                after,
            ).contains(name),
    ensures
        upgrades(after) == Seq::<Seq<char>>::empty(),
{
    assert(upgrades(after) =~= Seq::<Seq<char>>::empty());
}

/// A vain search counts for the given number of days, to the moment, and no longer.
pub proof fn law_vain_search_counts_for_the_given_days(updated_at: i64, now: i64, retry_days: u64)
    ensures
        is_fresh(updated_at, now, retry_days) <==> now - updated_at <= retry_days * SECONDS_PER_DAY
            * TICKS_PER_SECOND,
{
}

/// Lyrics are found exactly where some row offers them.
pub proof fn law_lyrics_are_found_where_offered(rows: Seq<TrackRow>, t: tags::TagsView)
    ensures
        first_lyrics(rows, t) is Some <==> exists|i: int|
            0 <= i < rows.len() && offers_lyrics((#[trigger] rows[i])@, t),
        first_lyrics(rows, t) is Some ==> exists|i: int|
            0 <= i < rows.len() && offers_lyrics((#[trigger] rows[i])@, t) && first_lyrics(rows, t)
                == rows[i]@.lyrics,
    decreases rows.len(),
{
    if rows.len() > 0 {
        let rest = rows.drop_first();
        law_lyrics_are_found_where_offered(rest, t);
        if offers_lyrics(rows.first()@, t) {
            assert(offers_lyrics(rows[0]@, t));
        } else {
            if first_lyrics(rest, t) is Some {
                let j = choose|j: int|
                    0 <= j < rest.len() && offers_lyrics((#[trigger] rest[j])@, t) && first_lyrics(
                        rest,
                        t,
                    ) == rest[j]@.lyrics;
                assert(rows[j + 1] == rest[j]);
            }
            if exists|i: int| 0 <= i < rows.len() && offers_lyrics((#[trigger] rows[i])@, t) {
                let i = choose|i: int|
                    0 <= i < rows.len() && offers_lyrics((#[trigger] rows[i])@, t);
                assert(rest[i - 1] == rows[i]);
            }
        }
    }
}

/// Lyrics that were stored with a track's tags are offered to every track of that artist and title,
/// in any ASCII case, whose length is at most five seconds off, and to any length where the stored
/// one is 0.
pub proof fn law_stored_lyrics_are_offered(
    path: Seq<char>,
    stored: tags::TagsView,
    lyrics: Seq<char>,
    now: i64,
    asked: tags::TagsView,
)
    requires
        stored.artist.len() > 0,
        stored.title.len() > 0,
        text::same_ignoring_case(stored.artist, asked.artist),
        text::same_ignoring_case(stored.title, asked.title),
        stored.duration_secs == 0 || -5 <= stored.duration_secs - asked.duration_secs <= 5,
    ensures
        offers_lyrics(track_row(path, SUCCESS@, stored, Some(lyrics), now), asked),
{
}

/// Where a stored row offers lyrics to a track, a search for that track finds lyrics: those, or those
/// of a row before it that fits as well.
pub proof fn law_stored_lyrics_are_found(
    rows: Seq<TrackRow>,
    k: int,
    path: Seq<char>,
    stored: tags::TagsView,
    lyrics: Seq<char>,
    now: i64,
    asked: tags::TagsView,
)
    requires
        0 <= k < rows.len(),
        rows[k]@ == track_row(path, SUCCESS@, stored, Some(lyrics), now),
        stored.artist.len() > 0,
        stored.title.len() > 0,
        text::same_ignoring_case(stored.artist, asked.artist),
        text::same_ignoring_case(stored.title, asked.title),
        stored.duration_secs == 0 || -5 <= stored.duration_secs - asked.duration_secs <= 5,
    ensures
        first_lyrics(rows, asked) is Some,
        (forall|j: int| 0 <= j < k ==> !offers_lyrics((#[trigger] rows[j])@, asked))
            ==> first_lyrics(rows, asked) == Some(lyrics),
    decreases rows.len(),
{
    if k > 0 && !offers_lyrics(rows.first()@, asked) {
        let rest = rows.drop_first();
        assert(rest[k - 1] == rows[k]);
        law_stored_lyrics_are_found(rest, k - 1, path, stored, lyrics, now, asked);
        if forall|j: int| 0 <= j < k ==> !offers_lyrics((#[trigger] rows[j])@, asked) {
            assert forall|j: int| 0 <= j < k - 1 implies !offers_lyrics(
                (#[trigger] rest[j])@,
                asked,
            ) by {
                assert(rest[j] == rows[j + 1]);
            }
        }
    } else if k > 0 {
        assert(offers_lyrics(rows[0]@, asked));
    }
}

/// A table after rows were added, each unless there was a row of its path.
pub open spec fn with_new_rows(table: Map<Seq<char>, RowView>, rows: Seq<RowView>) -> Map<
    Seq<char>,
    RowView,
>
    decreases rows.len(),
{
    if rows.len() == 0 {
        table
    } else {
        let before = with_new_rows(table, rows.drop_last());
        let row = rows.last();
        if before.dom().contains(row.path) {
            before
        } else {
            before.insert(row.path, row)
        }
    }
}

/// The file of an older cache, if it is there, and the table.
pub struct Stored {
    pub file: Option<Seq<u8>>,
    pub table: Map<Seq<char>, RowView>,
}

/// What is stored after a migration at time `now`.
pub open spec fn after_migration(stored: Stored, now: i64) -> Stored {
    match migration_for(stored.file, now) {
        Ok(m) => Stored {
            file: if m.remove_file {
                None
            } else {
                stored.file
            },
            table: with_new_rows(stored.table, m.rows),
        },
        Err(_) => stored,
    }
}

proof fn lemma_with_new_rows(
    table: Map<Seq<char>, RowView>,
    listed: Seq<Seq<char>>,
    now: i64,
    path: Seq<char>,
)
    ensures
        ({
            let after = with_new_rows(table, legacy_rows_for(listed, now));
            &&& after.dom().contains(path) <==> table.dom().contains(path) || listed.contains(path)
            &&& table.dom().contains(path) ==> after[path] == table[path]
            &&& !table.dom().contains(path) && listed.contains(path) ==> after[path] == legacy_row(
                path,
                now,
            )
        }),
    decreases listed.len(),
{
    if listed.len() > 0 {
        let fewer = listed.drop_last();
        lemma_with_new_rows(table, fewer, now, path);
        lemma_with_new_rows(table, fewer, now, listed.last());
        assert(legacy_rows_for(listed, now).drop_last() =~= legacy_rows_for(fewer, now));
        assert(listed =~= fewer.push(listed.last()));
        assert(listed.contains(path) <==> fewer.contains(path) || path == listed.last()) by {
            if fewer.contains(path) {
                let k = choose|k: int| 0 <= k < fewer.len() && fewer[k] == path;
                assert(listed[k] == path);
            }
            if path == listed.last() {
                assert(listed[listed.len() - 1] == path);
            }
        }
    }
}

/// Migrating a list of paths adds a row for each that has none, as not found at that time. The rows
/// that were there keep all their values, no other path gets a row, and the file goes.
pub proof fn law_migration_adds_what_is_new(
    stored: Stored,
    listed: Seq<Seq<char>>,
    now: i64,
    path: Seq<char>,
)
    requires
        stored.file is Some,
        json_string_list(stored.file->0) == Some(listed),
    ensures
        ({
            let after = after_migration(stored, now);
            &&& after.file is None
            &&& after.table.dom().contains(path) <==> stored.table.dom().contains(path)
                || listed.contains(path)
            &&& stored.table.dom().contains(path) ==> after.table[path] == stored.table[path]
            &&& !stored.table.dom().contains(path) && listed.contains(path) ==> after.table[path]
                == legacy_row(path, now)
        }),
{
    lemma_with_new_rows(stored.table, listed, now, path);
}

/// Without a file, or with one that is not a list of paths, a migration changes nothing.
pub proof fn law_migration_needs_a_list(stored: Stored, now: i64)
    requires
        match stored.file {
            Some(bytes) => json_string_list(bytes) is None,
            None => true,
        },
    ensures
        after_migration(stored, now) == stored,
        migration_for(stored.file, now) is Err <==> stored.file is Some,
{
}

/// A second migration changes nothing that the first one left.
pub proof fn law_second_migration_does_nothing(stored: Stored, now: i64, later: i64)
    ensures
        after_migration(after_migration(stored, now), later) == after_migration(stored, now),
{
}

/// What is stored, and the cache over it.
pub struct Kept {
    pub stored: Stored,
    pub cache: CacheView,
}

/// What is done with the table and the cache, one step at a time.
pub enum CacheStep {
    Load { now: i64 },
    Success { path: Seq<char>, tags: tags::TagsView, lyrics: Option<Seq<char>>, now: i64 },
    NotFound { path: Seq<char>, tags: tags::TagsView, now: i64 },
    Migrate { now: i64 },
}

/// What is kept after a step: loading reads the table, a mark follows the row that was stored, and
/// a migration leaves the cache for the next load.
pub open spec fn after_cache_step(kept: Kept, step: CacheStep) -> Kept {
    let table = kept.stored.table;
    match step {
        CacheStep::Load { now } => Kept {
            cache: CacheView {
                success: success_in(table),
                not_found: not_found_in(table, now, kept.cache.retry_not_found_days),
                ..kept.cache
            },
            ..kept
        },
        CacheStep::Success { path, tags, lyrics, now } => Kept {
            stored: Stored {
                table: table.insert(path, track_row(path, SUCCESS@, tags, lyrics, now)),
                ..kept.stored
            },
            cache: with_success(kept.cache, path),
        },
        CacheStep::NotFound { path, tags, now } => Kept {
            stored: Stored {
                table: table.insert(path, track_row(path, NOT_FOUND@, tags, None, now)),
                ..kept.stored
            },
            cache: with_not_found(kept.cache, path),
        },
        CacheStep::Migrate { now } => Kept { stored: after_migration(kept.stored, now), ..kept },
    }
}

/// What is kept after a row of steps, from a cache that was just opened.
pub open spec fn cache_run(stored: Stored, retry_days: u64, steps: Seq<CacheStep>) -> Kept
    decreases steps.len(),
{
    if steps.len() == 0 {
        Kept { stored, cache: fresh_cache(retry_days) }
    } else {
        after_cache_step(cache_run(stored, retry_days, steps.drop_last()), steps.last())
    }
}

/// Whatever is loaded, recorded and migrated, no track has lyrics and counts as not found at once,
/// and a track that the cache has as having lyrics is one that the table has so.
pub proof fn law_cache_stays_sound(stored: Stored, retry_days: u64, steps: Seq<CacheStep>)
    ensures
        ({
            let kept = cache_run(stored, retry_days, steps);
            &&& kept.cache.success.disjoint(kept.cache.not_found)
            &&& kept.cache.success.subset_of(success_in(kept.stored.table))
            &&& kept.cache.retry_not_found_days == retry_days
        }),
    decreases steps.len(),
{
    if steps.len() > 0 {
        let before = cache_run(stored, retry_days, steps.drop_last());
        let after = cache_run(stored, retry_days, steps);
        law_cache_stays_sound(stored, retry_days, steps.drop_last());
        lemma_states_differ();
        match steps.last() {
            CacheStep::Migrate { now } => {
                assert forall|p: Seq<char>| #[trigger] after.cache.success.contains(
                    p,
                ) implies success_in(after.stored.table).contains(p) by {
                    assert(success_in(before.stored.table).contains(p));
                    if before.stored.file is Some && json_string_list(before.stored.file->0) is Some {
                        lemma_with_new_rows(
                            before.stored.table,
                            json_string_list(before.stored.file->0)->0,
                            now,
                            p,
                        );
                    }
                }
            },
            _ => {},
        }
    }
}

/// A track of an older cache counts as not found from the time at which it was taken over.
pub proof fn law_migrated_tracks_count_as_not_found(
    path: Seq<char>,
    stored_at: i64,
    now: i64,
    retry_days: u64,
)
    ensures
        says_not_found(status_in(legacy_row(path, stored_at)), now, retry_days) <==> is_fresh(
            stored_at,
            now,
            retry_days,
        ),
        !says_success(status_in(legacy_row(path, stored_at))),
{
    lemma_states_differ();
}

proof fn lemma_undotted_prefix(head: Seq<u8>, tail: Seq<u8>)
    requires
        paths::body(head).len() == 0,
        head.len() == 0 || head.last() == paths::SLASH,
    ensures
        undotted(head + tail) == undotted(tail),
    decreases head.len(),
{
    if head.len() == 0 {
        assert(head + tail =~= tail);
    } else {
        lemma_bodyless(head);
        let p = head + tail;
        assert(p.drop_first() =~= head.drop_first() + tail);
        assert(p.first() == head.first());
        if head.len() > 1 {
            assert(p[1] == head[1]);
            assert(head.drop_first().last() == head.last());
        }
        lemma_undotted_prefix(head.drop_first(), tail);
    }
}

/// A path without a component is made of separators and lone dots.
proof fn lemma_bodyless(head: Seq<u8>)
    requires
        head.len() > 0,
        paths::body(head).len() == 0,
    ensures
        head.first() == paths::SLASH || (head.first() == paths::DOT && (head.len() == 1 || head[1]
            == paths::SLASH)),
        paths::body(head.drop_first()).len() == 0,
    decreases head.len(),
{
    if head.len() > 1 {
        let shorter = head.drop_last();
        assert(paths::body(shorter).len() == 0);
        lemma_bodyless(shorter);
        let rest = head.drop_first();
        assert(rest.drop_last() =~= shorter.drop_first());
        assert(rest.last() == head.last());
        if head.len() == 2 {
            assert(rest.len() == 1);
            reveal_with_fuel(paths::body, 3);
        } else {
            assert(rest[rest.len() - 2] == head[head.len() - 2]);
        }
    } else {
        reveal_with_fuel(paths::body, 2);
    }
}

/// What follows the body of a path starts with a separator and has no component.
proof fn lemma_after_body(p: Seq<u8>)
    requires
        paths::body(p).len() > 0,
    ensures
        ({
            let k = paths::body(p).len() as int;
            &&& 0 < k <= p.len()
            &&& p.take(k) == paths::body(p)
            &&& p[k - 1] != paths::SLASH
            &&& k < p.len() ==> p[k] == paths::SLASH
            &&& paths::body(p.skip(k)).len() == 0
        }),
    decreases p.len(),
{
    let k = paths::body(p).len() as int;
    if p.last() == paths::SLASH || (p.last() == paths::DOT && (p.len() == 1 || p[p.len() - 2]
        == paths::SLASH)) {
        let q = p.drop_last();
        lemma_after_body(q);
        assert(p.take(k) =~= q.take(k));
        let tail = p.skip(k);
        assert(tail.drop_last() =~= q.skip(k));
        assert(tail.last() == p.last());
        if tail.len() > 1 {
            assert(tail[tail.len() - 2] == p[p.len() - 2]);
        }
    } else {
        assert(p.take(k) =~= p);
        assert(p.skip(k) =~= Seq::<u8>::empty());
    }
}

/// The key of a file below the music directory is the rest of its path, however the directory is
/// spelled.
pub proof fn law_key_is_the_path_below_the_directory(base: Seq<u8>, rest: Seq<u8>)
    requires
        base.len() > 0,
        rest.len() > 0,
        undotted(rest) == rest,
    ensures
        relative(paths::joined(base, rest), base) == rest,
{
    let dir = base_prefix(base);
    let p = paths::joined(base, rest);
    assert(rest.first() != paths::SLASH) by {
        if rest.first() == paths::SLASH {
            lemma_undotted_shrinks(rest.drop_first());
        }
    }
    let k = dir.len() as int;
    if paths::body(base).len() > 0 {
        lemma_after_body(base);
    } else {
        lemma_bodyless(base);
        assert(base.skip(0) =~= base);
        assert(base.skip(1) =~= base.drop_first());
        assert(paths::body(base) =~= base.take(0));
    }
    assert(dir =~= base.take(k));
    let gap = base.skip(k);
    assert(paths::body(gap).len() == 0);
    let head = if base.last() != paths::SLASH {
        gap + seq![paths::SLASH]
    } else {
        gap
    };
    assert(p =~= dir + head + rest);
    if base.last() != paths::SLASH {
        assert(head.drop_last() =~= gap);
    } else {
        assert(gap.last() == base.last());
    }
    assert(head.first() == paths::SLASH);
    assert(p[k] == head[0]);
    assert(p.take(k) =~= dir);
    assert(p.skip(k) =~= head + rest);
    lemma_undotted_prefix(head, rest);
}

/// Different files below the music directory have different keys, where their paths are in UTF-8.
pub proof fn law_keys_tell_files_apart(base: Seq<u8>, one: Seq<u8>, other: Seq<u8>)
    requires
        base.len() > 0,
        one.len() > 0,
        other.len() > 0,
        undotted(one) == one,
        undotted(other) == other,
        vstd::utf8::valid_utf8(one),
        vstd::utf8::valid_utf8(other),
        paths::readable(relative(paths::joined(base, one), base)) == paths::readable(
            relative(paths::joined(base, other), base),
        ),
    ensures
        one == other,
{
    law_key_is_the_path_below_the_directory(base, one);
    law_key_is_the_path_below_the_directory(base, other);
    vstd::utf8::decode_utf8_encode_utf8(one);
    vstd::utf8::decode_utf8_encode_utf8(other);
}

proof fn lemma_undotted_shrinks(p: Seq<u8>)
    ensures
        undotted(p).len() <= p.len(),
    decreases p.len(),
{
    if p.len() > 0 {
        lemma_undotted_shrinks(p.drop_first());
    }
}

/// Lyrics that are found for a track are those of a row of that artist and that title, in any ASCII
/// case, whose length is not known or is at most five seconds off.
pub proof fn law_found_lyrics_are_of_the_track(rows: Seq<TrackRow>, t: tags::TagsView)
    requires
        first_lyrics(rows, t) is Some,
    ensures
        exists|i: int|
            {
                let row = (#[trigger] rows[i])@;
                &&& 0 <= i < rows.len()
                &&& row.lyrics == first_lyrics(rows, t)
                &&& row.artist is Some && text::lowered(row.artist->0) == text::lowered(t.artist)
                &&& row.title is Some && text::lowered(row.title->0) == text::lowered(t.title)
                &&& row.duration is None || row.duration->0 == 0 || -5 <= row.duration->0
                    - t.duration_secs <= 5
            },
    decreases rows.len(),
{
    if offers_lyrics(rows.first()@, t) {
        assert(rows[0]@.lyrics == first_lyrics(rows, t));
    } else {
        let rest = rows.drop_first();
        law_found_lyrics_are_of_the_track(rest, t);
        let i = choose|i: int|
            {
                let row = (#[trigger] rest[i])@;
                &&& 0 <= i < rest.len()
                &&& row.lyrics == first_lyrics(rest, t)
                &&& row.artist is Some && text::lowered(row.artist->0) == text::lowered(t.artist)
                &&& row.title is Some && text::lowered(row.title->0) == text::lowered(t.title)
                &&& row.duration is None || row.duration->0 == 0 || -5 <= row.duration->0
                    - t.duration_secs <= 5
            };
        assert(rows[i + 1] == rest[i]);
    }
}

/// A row with lyrics, of the artist and the title of a track in any ASCII case, whose length is not
/// known or is at most five seconds off, gives the track its lyrics, unless a row before it gives
/// some.
pub proof fn law_fitting_row_gives_its_lyrics(rows: Seq<TrackRow>, k: int, t: tags::TagsView)
    requires
        0 <= k < rows.len(),
        rows[k]@.lyrics is Some,
        rows[k]@.artist is Some,
        text::lowered(rows[k]@.artist->0) == text::lowered(t.artist),
        rows[k]@.title is Some,
        text::lowered(rows[k]@.title->0) == text::lowered(t.title),
        rows[k]@.duration is None || rows[k]@.duration->0 == 0 || -5 <= rows[k]@.duration->0
            - t.duration_secs <= 5,
    ensures
        first_lyrics(rows, t) is Some,
        first_lyrics(rows.take(k), t) is None ==> first_lyrics(rows, t) == rows[k]@.lyrics,
        first_lyrics(rows.take(k), t) is Some ==> first_lyrics(rows, t) == first_lyrics(
            rows.take(k),
            t,
        ),
    decreases rows.len(),
{
    let head = rows.take(k);
    if k > 0 {
        let rest = rows.drop_first();
        assert(rest[k - 1] == rows[k]);
        law_fitting_row_gives_its_lyrics(rest, k - 1, t);
        assert(head.drop_first() =~= rest.take(k - 1));
        assert(head.first() == rows.first());
    }
}

/// A row says of a track what was recorded: its path, its state, the time, its lyrics and its
/// length, and its artist, title and album, where an empty one is left out.
pub proof fn law_rows_hold_what_was_recorded(
    path: Seq<char>,
    status: Seq<char>,
    t: tags::TagsView,
    lyrics: Option<Seq<char>>,
    now: i64,
)
    ensures
        ({
            let row = track_row(path, status, t, lyrics, now);
            &&& row.path == path
            &&& row.status == status
            &&& row.lyrics == lyrics
            &&& row.updated_at == now
            &&& row.duration == Some(t.duration_secs)
            &&& t.artist.len() > 0 ==> row.artist == Some(t.artist)
            &&& t.title.len() > 0 ==> row.title == Some(t.title)
            &&& t.album.len() > 0 ==> row.album == Some(t.album)
            &&& t.artist.len() == 0 ==> row.artist is None
            &&& t.title.len() == 0 ==> row.title is None
            &&& t.album.len() == 0 ==> row.album is None
        }),
{
}

/// A row of an older cache's track has its path, the state not found and the time, and nothing else.
pub proof fn law_legacy_rows_are_bare(listed: Seq<Seq<char>>, now: i64, k: int)
    requires
        0 <= k < listed.len(),
    ensures
        legacy_rows_for(listed, now).len() == listed.len(),
        ({
            let row = legacy_rows_for(listed, now)[k];
            &&& row.path == listed[k]
            &&& row.status == "not_found"@
            &&& row.updated_at == now
            &&& row.artist is None && row.title is None && row.album is None
            &&& row.duration is None && row.lyrics is None
        }),
{
}

/// Loading takes a track as having lyrics where a row says `success`, whatever its time, and as not
/// found where a row says `not_found` and is no older than the given days. Any other row counts for
/// nothing.
pub proof fn law_loading_goes_by_state_and_time(
    rows: Seq<TrackStatus>,
    now: i64,
    retry_days: u64,
    path: Seq<char>,
)
    ensures
        success_paths(rows).contains(path) <==> exists|i: int|
            0 <= i < rows.len() && (#[trigger] rows[i]).path@ == path && rows[i].status@
                == "success"@,
        not_found_paths(rows, now, retry_days).contains(path) <==> exists|i: int|
            0 <= i < rows.len() && (#[trigger] rows[i]).path@ == path && rows[i].status@
                == "not_found"@ && now - rows[i].updated_at <= retry_days * 86_400 * 4_194_304,
{
    if exists|i: int|
        0 <= i < rows.len() && (#[trigger] rows[i]).path@ == path && rows[i].status@ == "success"@ {
        let i = choose|i: int|
            0 <= i < rows.len() && (#[trigger] rows[i]).path@ == path && rows[i].status@
                == "success"@;
        assert(rows[i]@.path == path && says_success(rows[i]@));
    }
    if exists|i: int|
        0 <= i < rows.len() && (#[trigger] rows[i]).path@ == path && rows[i].status@
            == "not_found"@ && now - rows[i].updated_at <= retry_days * 86_400 * 4_194_304 {
        let i = choose|i: int|
            0 <= i < rows.len() && (#[trigger] rows[i]).path@ == path && rows[i].status@
                == "not_found"@ && now - rows[i].updated_at <= retry_days * 86_400 * 4_194_304;
        assert(rows[i]@.path == path && says_not_found(rows[i]@, now, retry_days));
    }
}

/// A mark moves one track to the one state and out of the other, and leaves all others where they
/// are.
pub proof fn law_marks_move_one_track(cache: CacheView, path: Seq<char>, other: Seq<char>)
    ensures
        with_success(cache, path).success.contains(path),
        !with_success(cache, path).not_found.contains(path),
        with_not_found(cache, path).not_found.contains(path),
        !with_not_found(cache, path).success.contains(path),
        other != path ==> {
            &&& with_success(cache, path).success.contains(other) == cache.success.contains(other)
            &&& with_success(cache, path).not_found.contains(other) == cache.not_found.contains(
                other,
            )
            &&& with_not_found(cache, path).success.contains(other) == cache.success.contains(other)
            &&& with_not_found(cache, path).not_found.contains(other) == cache.not_found.contains(
                other,
            )
        },
        with_success(cache, path).retry_not_found_days == cache.retry_not_found_days,
        with_not_found(cache, path).retry_not_found_days == cache.retry_not_found_days,
{
}

/// A table gets a column for artist, title, album, length and lyrics, each exactly where it has none
/// of that name, and nothing else.
pub proof fn law_missing_columns_are_added(columns: Seq<String>)
    ensures
        ({
            let present = text::texts(columns);
            let due = upgrades(columns);
            &&& due.contains(ADD_ARTIST@) <==> !present.contains("artist"@)
            &&& due.contains(ADD_TITLE@) <==> !present.contains("title"@)
            &&& due.contains(ADD_ALBUM@) <==> !present.contains("album"@)
            &&& due.contains(ADD_DURATION@) <==> !present.contains("duration"@)
            &&& due.contains(ADD_LYRICS@) <==> !present.contains("lyrics"@)
            &&& forall|i: int|
                0 <= i < due.len() ==> #[trigger] due[i] == ADD_ARTIST@ || due[i] == ADD_TITLE@
                    || due[i] == ADD_ALBUM@ || due[i] == ADD_DURATION@ || due[i] == ADD_LYRICS@
        }),
{
    lemma_statements_differ();
    let a = upgrade(columns, "artist"@, ADD_ARTIST@);
    let b = upgrade(columns, "title"@, ADD_TITLE@);
    let c = upgrade(columns, "album"@, ADD_ALBUM@);
    let d = upgrade(columns, "duration"@, ADD_DURATION@);
    let e = upgrade(columns, "lyrics"@, ADD_LYRICS@);
    lemma_contained_in_parts(a, b);
    lemma_contained_in_parts(a + b, c);
    lemma_contained_in_parts(a + b + c, d);
    lemma_contained_in_parts(a + b + c + d, e);
    lemma_one_or_none(columns, "artist"@, ADD_ARTIST@);
    lemma_one_or_none(columns, "title"@, ADD_TITLE@);
    lemma_one_or_none(columns, "album"@, ADD_ALBUM@);
    lemma_one_or_none(columns, "duration"@, ADD_DURATION@);
    lemma_one_or_none(columns, "lyrics"@, ADD_LYRICS@);
    let due = upgrades(columns);
    assert forall|i: int| 0 <= i < due.len() implies #[trigger] due[i] == ADD_ARTIST@ || due[i]
        == ADD_TITLE@ || due[i] == ADD_ALBUM@ || due[i] == ADD_DURATION@ || due[i]
        == ADD_LYRICS@ by {
        assert(due.contains(due[i]));
    }
}

proof fn lemma_contained_in_parts(a: Seq<Seq<char>>, b: Seq<Seq<char>>)
    ensures
        forall|s: Seq<char>| #[trigger] (a + b).contains(s) <==> a.contains(s) || b.contains(s),
{
    assert forall|s: Seq<char>| #[trigger] (a + b).contains(s) <==> a.contains(s) || b.contains(
        s,
    ) by {
        if a.contains(s) {
            let i = choose|i: int| 0 <= i < a.len() && a[i] == s;
            assert((a + b)[i] == s);
        }
        if b.contains(s) {
            let i = choose|i: int| 0 <= i < b.len() && b[i] == s;
            assert((a + b)[a.len() + i] == s);
        }
        if (a + b).contains(s) {
            let i = choose|i: int| 0 <= i < (a + b).len() && (a + b)[i] == s;
            if i < a.len() {
                assert(a[i] == s);
            } else {
                assert(b[i - a.len()] == s);
            }
        }
    }
}

proof fn lemma_one_or_none(columns: Seq<String>, name: Seq<char>, statement: Seq<char>)
    ensures
        forall|s: Seq<char>| #[trigger]
            upgrade(columns, name, statement).contains(s) <==> s == statement && !text::texts(
                columns,
            ).contains(name),
{
    if !text::texts(columns).contains(name) {
        assert(seq![statement][0] == statement);
    }
}

proof fn lemma_statements_differ()
    ensures
        ADD_ARTIST@ != ADD_TITLE@,
        ADD_ARTIST@ != ADD_ALBUM@,
        ADD_ARTIST@ != ADD_DURATION@,
        ADD_ARTIST@ != ADD_LYRICS@,
        ADD_TITLE@ != ADD_ALBUM@,
        ADD_TITLE@ != ADD_DURATION@,
        ADD_TITLE@ != ADD_LYRICS@,
        ADD_ALBUM@ != ADD_DURATION@,
        ADD_ALBUM@ != ADD_LYRICS@,
        ADD_DURATION@ != ADD_LYRICS@,
{
    reveal_strlit("ALTER TABLE track_cache ADD COLUMN artist TEXT");
    reveal_strlit("ALTER TABLE track_cache ADD COLUMN title TEXT");
    reveal_strlit("ALTER TABLE track_cache ADD COLUMN album TEXT");
    reveal_strlit("ALTER TABLE track_cache ADD COLUMN duration INTEGER");
    reveal_strlit("ALTER TABLE track_cache ADD COLUMN lyrics TEXT");
    assert(ADD_ARTIST@[35] == 'a' && ADD_ARTIST@[36] == 'r');
    assert(ADD_TITLE@[35] == 't');
    assert(ADD_ALBUM@[35] == 'a' && ADD_ALBUM@[36] == 'l');
    assert(ADD_DURATION@[35] == 'd');
    assert(ADD_LYRICS@[35] == 'l');
}

/// A file that is not below the music directory has its whole path for a key.
pub proof fn law_key_of_a_file_elsewhere(path: Seq<u8>, base: Seq<u8>)
    requires
        base.len() > 0,
        base.last() != paths::SLASH,
        base.last() != paths::DOT,
        path != base,
        !(base + seq![paths::SLASH]).is_prefix_of(path),
    ensures
        relative(path, base) == path,
{
    assert(base_prefix(base) == base);
    let n = base.len() as int;
    if n <= path.len() && path.take(n) == base {
        if path.len() == n {
            assert(path.take(n) =~= path);
        } else if path[n] == paths::SLASH {
            assert(base + seq![paths::SLASH] =~= path.take(n + 1));
        }
    }
}

} // verus!
