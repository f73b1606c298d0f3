//! The files of a music library, directory by directory.
use vstd::prelude::*;

use crate::names;
use crate::paths;

verus! {

/// A lyrics file, with its name as text.
#[derive(Debug)]
pub struct LyricsFile {
    pub name: String,
    pub path: Vec<u8>,
}

/// The contents of a `LyricsFile`.
pub struct LyricsFileView {
    pub name: Seq<char>,
    pub path: Seq<u8>,
}

impl View for LyricsFile {
    type V = LyricsFileView;

    open spec fn view(&self) -> LyricsFileView {
        LyricsFileView { name: self.name@, path: self.path@ }
    }
}

/// The audio and lyrics files of a directory. No two lyrics files have one name.
#[derive(Debug)]
pub struct DirectoryFiles {
    pub dir: Vec<u8>,
    pub audio: Vec<Vec<u8>>,
    pub lrc: Vec<LyricsFile>,
}

/// The contents of a `DirectoryFiles`.
pub struct DirectoryView {
    pub dir: Seq<u8>,
    pub audio: Seq<Seq<u8>>,
    pub lrc: Seq<LyricsFileView>,
}

impl View for DirectoryFiles {
    type V = DirectoryView;

    open spec fn view(&self) -> DirectoryView {
        DirectoryView {
            dir: self.dir@,
            audio: paths::all_bytes(self.audio@),
            lrc: lyrics_views(self.lrc@),
        }
    }
}

pub open spec fn lyrics_views(files: Seq<LyricsFile>) -> Seq<LyricsFileView> {
    files.map_values(|f: LyricsFile| f@)
}

pub open spec fn directory_views(groups: Seq<DirectoryFiles>) -> Seq<DirectoryView> {
    groups.map_values(|g: DirectoryFiles| g@)
}

/// The names of lyrics files.
pub open spec fn lyrics_names(files: Seq<LyricsFileView>) -> Seq<Seq<char>> {
    files.map_values(|f: LyricsFileView| f.name)
}

/// The paths of lyrics files.
pub open spec fn lyrics_paths(files: Seq<LyricsFileView>) -> Seq<Seq<u8>> {
    files.map_values(|f: LyricsFileView| f.path)
}

/// `files` with one more; it takes the place of one of the same name.
pub open spec fn with_lyrics(files: Seq<LyricsFileView>, file: LyricsFileView) -> Seq<
    LyricsFileView,
> {
    match names::first_index(lyrics_names(files), file.name) {
        Some(i) => files.update(i, file),
        None => files.push(file),
    }
}

/// Lyrics files by name, the last of each name.
pub open spec fn by_name(files: Seq<Seq<u8>>) -> Seq<LyricsFileView>
    decreases files.len(),
{
    if files.len() == 0 {
        Seq::empty()
    } else {
        with_lyrics(
            by_name(files.drop_last()),
            LyricsFileView { name: names::name_text(files.last()), path: files.last() },
        )
    }
}

/// A file stands in the directory of the given plain form.
pub open spec fn is_in(file: Seq<u8>, dir: Seq<u8>) -> bool {
    paths::parent_of(file) is Some && paths::plain(paths::parent_of(file)->0) == dir
}

/// The files of a directory, in order.
pub open spec fn files_in(files: Seq<Seq<u8>>, dir: Seq<u8>) -> Seq<Seq<u8>> {
    files.filter(|f: Seq<u8>| is_in(f, dir))
}

/// The audio files of a directory, in order.
pub open spec fn audio_in(files: Seq<Seq<u8>>, dir: Seq<u8>) -> Seq<Seq<u8>> {
    files.filter(|f: Seq<u8>| is_in(f, dir) && names::is_audio(f))
}

/// The lyrics files of a directory, in order.
pub open spec fn lyrics_in(files: Seq<Seq<u8>>, dir: Seq<u8>) -> Seq<Seq<u8>> {
    files.filter(|f: Seq<u8>| is_in(f, dir) && names::is_lyrics(f))
}

/// The group of the directory of the given plain form, among files of many. The first of its files
/// gives the spelling of its path.
pub open spec fn group_of(files: Seq<Seq<u8>>, dir: Seq<u8>) -> DirectoryView {
    DirectoryView {
        dir: paths::parent_of(files_in(files, dir).first())->0,
        audio: audio_in(files, dir),
        lrc: by_name(lyrics_in(files, dir)),
    }
}

/// The plain form of a group's directory.
pub open spec fn key_of(group: DirectoryView) -> Seq<u8> {
    paths::plain(group.dir)
}

/// Some of the files stands in the directory.
pub open spec fn has_file_in(files: Seq<Seq<u8>>, dir: Seq<u8>) -> bool {
    exists|k: int| 0 <= k < files.len() && is_in(#[trigger] files[k], dir)
}

/// `groups` holds one group for every directory in which a file stands, in any order, however the
/// files' paths spell it.
pub open spec fn is_grouping(groups: Seq<DirectoryView>, files: Seq<Seq<u8>>) -> bool {
    &&& forall|i: int, j: int| 0 <= i < j < groups.len() ==> key_of(groups[i]) != key_of(groups[j])
    &&& forall|i: int|
        0 <= i < groups.len() ==> (#[trigger] groups[i]) == group_of(files, key_of(groups[i]))
            && has_file_in(files, key_of(groups[i]))
    &&& forall|d: Seq<u8>| #[trigger]
        has_file_in(files, d) ==> exists|i: int|
            0 <= i < groups.len() && key_of(#[trigger] groups[i]) == d
}

proof fn lemma_group_of_push(files: Seq<Seq<u8>>, file: Seq<u8>, dir: Seq<u8>)
    ensures
        audio_in(files.push(file), dir) == (if is_in(file, dir) && names::is_audio(file) {
            audio_in(files, dir).push(file)
        } else {
            audio_in(files, dir)
        }),
        lyrics_in(files.push(file), dir) == (if is_in(file, dir) && names::is_lyrics(file) {
            lyrics_in(files, dir).push(file)
        } else {
            lyrics_in(files, dir)
        }),
        files_in(files.push(file), dir) == (if is_in(file, dir) {
            files_in(files, dir).push(file)
        } else {
            files_in(files, dir)
        }),
        has_file_in(files.push(file), dir) <==> has_file_in(files, dir) || is_in(file, dir),
{
    let more = files.push(file);
    assert(more.drop_last() =~= files);
    reveal(Seq::filter);
    if has_file_in(files, dir) {
        let k = choose|k: int| 0 <= k < files.len() && is_in(#[trigger] files[k], dir);
        assert(is_in(more[k], dir));
    }
    if is_in(file, dir) {
        assert(is_in(more[files.len() as int], dir));
    }
    if has_file_in(more, dir) && !is_in(file, dir) {
        let k = choose|k: int| 0 <= k < more.len() && is_in(#[trigger] more[k], dir);
        assert(is_in(files[k], dir));
    }
}

proof fn lemma_group_of_empty(files: Seq<Seq<u8>>, dir: Seq<u8>)
    requires
        !has_file_in(files, dir),
    ensures
        audio_in(files, dir) == Seq::<Seq<u8>>::empty(),
        lyrics_in(files, dir) == Seq::<Seq<u8>>::empty(),
        files_in(files, dir) == Seq::<Seq<u8>>::empty(),
    decreases files.len(),
{
    reveal(Seq::filter);
    if files.len() > 0 {
        let fewer = files.drop_last();
        assert(fewer.push(files.last()) =~= files);
        lemma_group_of_push(fewer, files.last(), dir);
        lemma_group_of_empty(fewer, dir);
    }
}

proof fn lemma_files_in_has_first(files: Seq<Seq<u8>>, dir: Seq<u8>)
    requires
        has_file_in(files, dir),
    ensures
        files_in(files, dir).len() > 0,
        is_in(files_in(files, dir).first(), dir),
    decreases files.len(),
{
    let fewer = files.drop_last();
    assert(fewer.push(files.last()) =~= files);
    lemma_group_of_push(fewer, files.last(), dir);
    if has_file_in(fewer, dir) {
        lemma_files_in_has_first(fewer, dir);
    } else {
        lemma_group_of_empty(fewer, dir);
    }
}

/// Where a lyrics file of the given name stands.
pub fn find_lyrics(files: &Vec<LyricsFile>, name: &str) -> (r: Option<usize>)
    ensures
        match r {
            Some(i) => names::first_index(lyrics_names(lyrics_views(files@)), name@) == Some(
                i as int,
            ) && i < files.len(),
            None => names::first_index(lyrics_names(lyrics_views(files@)), name@) is None,
        },
{
    let ghost all = lyrics_names(lyrics_views(files@));
    let mut i: usize = 0;
    while i < files.len()
        invariant
            i <= files.len(),
            all == lyrics_names(lyrics_views(files@)),
            forall|j: int| 0 <= j < i ==> all[j] != name@,
        decreases files.len() - i,
    {
        proof {
            assert(all[i as int] == files@[i as int].name@);
        }
        if crate::text::str_eq(files[i].name.as_str(), name) {
            proof {
                names::lemma_is_first_index(all, name@, i as int);
            }
            return Some(i);
        }
        i += 1;
    }
    proof {
        names::lemma_first_index(all, name@);
    }
    None
}

fn insert_lyrics(files: &mut Vec<LyricsFile>, path: Vec<u8>)
    ensures
        lyrics_views(final(files)@) == with_lyrics(
            lyrics_views(old(files)@),
            LyricsFileView { name: names::name_text(path@), path: path@ },
        ),
{
    let name = names::file_name(&path);
    match find_lyrics(files, name.as_str()) {
        Some(i) => {
            files.set(i, LyricsFile { name, path });
        },
        None => {
            files.push(LyricsFile { name, path });
        },
    }
    proof {
        assert(lyrics_views(files@) =~= with_lyrics(
            lyrics_views(old(files)@),
            LyricsFileView { name: names::name_text(path@), path: path@ },
        ));
    }
}

fn find_key(keys: &Vec<Vec<u8>>, key: &[u8]) -> (r: Option<usize>)
    ensures
        match r {
            Some(i) => i < keys.len() && keys@[i as int]@ == key@,
            None => forall|j: int| 0 <= j < keys.len() ==> (#[trigger] keys@[j])@ != key@,
        },
{
    let mut i: usize = keys.len();
    while i > 0
        invariant
            i <= keys.len(),
            forall|j: int| i <= j < keys.len() ==> (#[trigger] keys@[j])@ != key@,
        decreases i,
    {
        i -= 1;
        if paths::bytes_eq(&keys[i], key) {
            return Some(i);
        }
    }
    None
}

impl DirectoryFiles {
    /// Takes up a file of the directory.
    fn take_up(&mut self, file: &Vec<u8>)
        ensures
            final(self)@.dir == old(self)@.dir,
            final(self)@.audio == (if names::is_audio(file@) {
                old(self)@.audio.push(file@)
            } else {
                old(self)@.audio
            }),
            final(self)@.lrc == (if names::is_lyrics(file@) {
                with_lyrics(
                    old(self)@.lrc,
                    LyricsFileView { name: names::name_text(file@), path: file@ },
                )
            } else {
                old(self)@.lrc
            }),
    {
        proof {
            names::law_audio_is_not_lyrics(file@);
        }
        let copy = paths::slice_of(file, 0, file.len());
        proof {
            assert(copy@ =~= file@);
        }
        if names::is_audio_file(file) {
            self.audio.push(copy);
            proof {
                assert(self@.audio =~= old(self)@.audio.push(file@));
            }
        } else if names::is_lyrics_file(file) {
            insert_lyrics(&mut self.lrc, copy);
        }
    }
}

/// The files of a library by directory.
pub fn group_files(files: &Vec<Vec<u8>>) -> (groups: Vec<DirectoryFiles>)
    ensures
        is_grouping(directory_views(groups@), paths::all_bytes(files@)),
{
    let ghost all = paths::all_bytes(files@);
    let mut groups: Vec<DirectoryFiles> = Vec::new();
    let mut keys: Vec<Vec<u8>> = Vec::new();
    let mut i: usize = 0;
    proof {
        assert(all.take(0) =~= Seq::<Seq<u8>>::empty());
    }
    while i < files.len()
        invariant
            i <= files.len(),
            all == paths::all_bytes(files@),
            is_grouping(directory_views(groups@), all.take(i as int)),
            keys.len() == groups.len(),
            forall|j: int| 0 <= j < keys.len() ==> (#[trigger] keys@[j])@ == key_of(groups@[j]@),
        decreases files.len() - i,
    {
        let file = &files[i];
        let ghost seen = all.take(i as int);
        let ghost before = directory_views(groups@);
        proof {
            assert(all[i as int] == file@);
            assert(all.take(i + 1) =~= seen.push(file@));
        }
        match paths::path_parent(file) {
            Some(dir) => {
                let ghost d = dir@;
                let ghost known = groups@;
                let key = paths::plain_path(&dir);
                let at: usize = match find_key(&keys, &key) {
                    Some(at) => at,
                    None => {
                        proof {
                            assert forall|j: int| 0 <= j < before.len() implies key_of(
                                #[trigger] before[j],
                            ) != key@ by {
                                assert(before[j] == known[j]@);
                                assert(keys@[j]@ != key@);
                            }
                        }
                        groups.push(
                            DirectoryFiles { dir, audio: Vec::new(), lrc: Vec::new() },
                        );
                        keys.push(key);
                        proof {
                            let fresh = groups@.last()@;
                            assert(fresh.audio =~= Seq::<Seq<u8>>::empty());
                            assert(fresh.lrc =~= Seq::<LyricsFileView>::empty());
                            assert(directory_views(groups@) =~= before.push(
                                DirectoryView { dir: d, audio: Seq::empty(), lrc: Seq::empty() },
                            ));
                        }
                        groups.len() - 1
                    },
                };
                let ghost opened = directory_views(groups@);
                groups[at].take_up(file);
                proof {
                    lemma_file_taken_up(
                        before,
                        opened,
                        directory_views(groups@),
                        seen,
                        file@,
                        at as int,
                    );
                }
            },
            None => {
                proof {
                    lemma_file_passed_over(before, seen, file@);
                }
            },
        }
        i += 1;
    }
    proof {
        assert(all.take(i as int) =~= all);
    }
    groups
}

proof fn lemma_file_passed_over(groups: Seq<DirectoryView>, files: Seq<Seq<u8>>, file: Seq<u8>)
    requires
        is_grouping(groups, files),
        paths::parent_of(file) is None,
    ensures
        is_grouping(groups, files.push(file)),
{
    assert forall|d: Seq<u8>| #[trigger]
        group_of(files.push(file), d) == group_of(files, d) && (has_file_in(files.push(file), d)
            <==> has_file_in(files, d)) by {
        lemma_group_of_push(files, file, d);
    }
    assert forall|d: Seq<u8>| #[trigger] has_file_in(files.push(file), d) implies has_file_in(
        files,
        d,
    ) by {
        lemma_group_of_push(files, file, d);
    }
}

/// `opened` is `before` with a group for the file's directory at `at`, a new one if need be;
/// `after` has the file in that group.
proof fn lemma_file_taken_up(
    before: Seq<DirectoryView>,
    opened: Seq<DirectoryView>,
    after: Seq<DirectoryView>,
    files: Seq<Seq<u8>>,
    file: Seq<u8>,
    at: int,
)
    requires
        is_grouping(before, files),
        0 <= at < opened.len(),
        is_in(file, key_of(opened[at])),
        opened == before || {
            &&& opened == before.push(
                DirectoryView {
                    dir: paths::parent_of(file)->0,
                    audio: Seq::empty(),
                    lrc: Seq::empty(),
                },
            )
            &&& at == before.len()
            &&& forall|j: int|
                0 <= j < before.len() ==> key_of(#[trigger] before[j]) != key_of(opened[at])
        },
        after.len() == opened.len(),
        forall|j: int| 0 <= j < after.len() && j != at ==> after[j] == opened[j],
        after[at].dir == opened[at].dir,
        after[at].audio == (if names::is_audio(file) {
            opened[at].audio.push(file)
        } else {
            opened[at].audio
        }),
        after[at].lrc == (if names::is_lyrics(file) {
            with_lyrics(
                opened[at].lrc,
                LyricsFileView { name: names::name_text(file), path: file },
            )
        } else {
            opened[at].lrc
        }),
    ensures
        is_grouping(after, files.push(file)),
{
    let more = files.push(file);
    let dir = key_of(opened[at]);
    lemma_group_of_push(files, file, dir);
    if opened == before {
        assert(before[at] == group_of(files, dir));
        lemma_files_in_has_first(files, dir);
    } else {
        if has_file_in(files, dir) {
            let j = choose|j: int| 0 <= j < before.len() && key_of(#[trigger] before[j]) == dir;
            assert(false);
        }
        lemma_group_of_empty(files, dir);
    }
    assert(lyrics_in(files, dir).push(file).drop_last() =~= lyrics_in(files, dir));
    assert(after[at].dir == group_of(more, dir).dir);
    assert(opened[at].audio =~= audio_in(files, dir));
    assert(opened[at].lrc =~= by_name(lyrics_in(files, dir)));
    assert(after[at].audio =~= audio_in(more, dir));
    assert(after[at].lrc =~= by_name(lyrics_in(more, dir)));
    assert(after[at] == group_of(more, dir));
    assert forall|j: int| 0 <= j < after.len() implies (#[trigger] after[j]) == group_of(
        more,
        key_of(after[j]),
    ) && has_file_in(more, key_of(after[j])) by {
        if j != at {
            let other = key_of(after[j]);
            assert(opened[j] == before[j]);
            lemma_group_of_push(files, file, other);
            lemma_files_in_has_first(files, other);
            assert(other != dir) by {
                if opened == before {
                    if j < at {
                        assert(key_of(before[j]) != key_of(before[at]));
                    } else {
                        assert(key_of(before[at]) != key_of(before[j]));
                    }
                }
            }
        }
    }
    assert forall|d: Seq<u8>| #[trigger] has_file_in(more, d) implies exists|j: int|
        0 <= j < after.len() && key_of(#[trigger] after[j]) == d by {
        lemma_group_of_push(files, file, d);
        if d == dir {
            assert(key_of(after[at]) == d);
        } else {
            let j = choose|j: int| 0 <= j < before.len() && key_of(#[trigger] before[j]) == d;
            assert(opened[j] == before[j]);
            assert(key_of(after[j]) == d);
        }
    }
    assert forall|j: int, k: int| 0 <= j < k < after.len() implies key_of(after[j]) != key_of(
        after[k],
    ) by {
        assert(after[j].dir == opened[j].dir);
        assert(after[k].dir == opened[k].dir);
        if opened != before && k == at {
            assert(key_of(before[j]) != key_of(opened[at]));
        } else {
            assert(key_of(before[j]) != key_of(before[k]));
        }
    }
}

/// A path with a name stands in some directory.
proof fn lemma_named_has_parent(path: Seq<u8>)
    requires
        paths::name_of(path) is Some,
    ensures
        paths::parent_of(path) is Some,
{
    if paths::body(path).len() == 0 {
        assert(paths::body(path).skip(paths::last_start(paths::body(path))).len() == 0);
    }
}

/// Every audio file of a library is in the group of its directory, and in no other.
pub proof fn law_every_audio_file_is_in_one_group(
    groups: Seq<DirectoryView>,
    files: Seq<Seq<u8>>,
    k: int,
)
    requires
        is_grouping(groups, files),
        0 <= k < files.len(),
        names::is_audio(files[k]),
    ensures
        exists|i: int|
            0 <= i < groups.len() && (#[trigger] groups[i]).audio.contains(files[k]) && forall|j: int|
                0 <= j < groups.len() && j != i ==> !(#[trigger] groups[j]).audio.contains(
                    files[k],
                ),
{
    let file = files[k];
    lemma_named_has_parent(file);
    let dir = paths::plain(paths::parent_of(file)->0);
    assert(is_in(files[k], dir));
    assert(has_file_in(files, dir));
    let i = choose|i: int| 0 <= i < groups.len() && key_of(#[trigger] groups[i]) == dir;
    broadcast use vstd::seq_lib::group_filter_ensures;

    let wanted = |f: Seq<u8>| is_in(f, dir) && names::is_audio(f);
    assert(wanted(files[k]));
    assert(files.filter(wanted).contains(files[k]));
    assert(groups[i].audio.contains(file));
    assert forall|j: int| 0 <= j < groups.len() && j != i implies !(
    #[trigger] groups[j]).audio.contains(file) by {
        if groups[j].audio.contains(file) {
            let other = key_of(groups[j]);
            let there = |f: Seq<u8>| is_in(f, other) && names::is_audio(f);
            let n = choose|n: int| 0 <= n < groups[j].audio.len() && groups[j].audio[n] == file;
            assert(groups[j].audio == files.filter(there));
            assert(there(files.filter(there)[n]));
            assert(key_of(groups[i]) == key_of(groups[j]));
        }
    }
}

/// The lyrics files of a group have different names.
pub proof fn law_lyrics_names_differ(files: Seq<Seq<u8>>, i: int, j: int)
    requires
        0 <= i < j < by_name(files).len(),
    ensures
        by_name(files)[i].name != by_name(files)[j].name,
    decreases files.len(),
{
    let before = by_name(files.drop_last());
    let last = LyricsFileView { name: names::name_text(files.last()), path: files.last() };
    names::lemma_first_index(lyrics_names(before), last.name);
    assert(forall|k: int|
        0 <= k < before.len() ==> lyrics_names(before)[k] == (#[trigger] before[k]).name);
    match names::first_index(lyrics_names(before), last.name) {
        Some(k) => {
            assert(before[k].name == last.name);
            law_lyrics_names_differ(files.drop_last(), i, j);
        },
        None => {
            if j < before.len() {
                law_lyrics_names_differ(files.drop_last(), i, j);
            }
        },
    }
}

/// The groups of a library may come in the opposite order.
pub proof fn lemma_order_of_groups_is_free(groups: Seq<DirectoryView>, files: Seq<Seq<u8>>)
    requires
        is_grouping(groups, files),
    ensures
        is_grouping(groups.reverse(), files),
{
    let back = groups.reverse();
    assert forall|i: int, j: int| 0 <= i < j < back.len() implies key_of(back[i]) != key_of(
        back[j],
    ) by {
        assert(back[i] == groups[groups.len() - 1 - i]);
        assert(back[j] == groups[groups.len() - 1 - j]);
    }
    assert forall|d: Seq<u8>| #[trigger] has_file_in(files, d) implies exists|i: int|
        0 <= i < back.len() && key_of(#[trigger] back[i]) == d by {
        let i = choose|i: int| 0 <= i < groups.len() && key_of(#[trigger] groups[i]) == d;
        assert(back[groups.len() - 1 - i] == groups[i]);
    }
}

proof fn lemma_by_name_takes_from(files: Seq<Seq<u8>>, i: int)
    requires
        0 <= i < by_name(files).len(),
    ensures
        files.contains(by_name(files)[i].path),
        by_name(files)[i].name == names::name_text(by_name(files)[i].path),
    decreases files.len(),
{
    let fewer = files.drop_last();
    let before = by_name(fewer);
    let last = LyricsFileView { name: names::name_text(files.last()), path: files.last() };
    names::lemma_first_index(lyrics_names(before), last.name);
    let here = by_name(files)[i];
    if here == last {
        assert(files[files.len() - 1] == here.path);
    } else {
        assert(here == before[i]);
        lemma_by_name_takes_from(fewer, i);
        let k = choose|k: int| 0 <= k < fewer.len() && fewer[k] == here.path;
        assert(files[k] == here.path);
    }
}

/// Where only one of some lyrics files has its name, it is the one of that name.
pub proof fn lemma_by_name_has(files: Seq<Seq<u8>>, file: Seq<u8>)
    requires
        files.contains(file),
        forall|j: int|
            0 <= j < files.len() && names::name_text(#[trigger] files[j]) == names::name_text(file)
                ==> files[j] == file,
    ensures
        ({
            let i = names::first_index(lyrics_names(by_name(files)), names::name_text(file));
            &&& i is Some
            &&& 0 <= i->0 < by_name(files).len()
            &&& by_name(files)[i->0].path == file
        }),
{
    let all = by_name(files);
    let name = names::name_text(file);
    let k = choose|k: int| 0 <= k < files.len() && files[k] == file;
    lemma_by_name_has_name(files, k);
    names::lemma_first_index(lyrics_names(all), name);
    let i = names::first_index(lyrics_names(all), name)->0;
    lemma_by_name_takes_from(files, i);
    let j = choose|j: int| 0 <= j < files.len() && files[j] == all[i].path;
    assert(names::name_text(files[j]) == name);
}

proof fn lemma_by_name_has_name(files: Seq<Seq<u8>>, k: int)
    requires
        0 <= k < files.len(),
    ensures
        lyrics_names(by_name(files)).contains(names::name_text(files[k])),
    decreases files.len(),
{
    let fewer = files.drop_last();
    let before = by_name(fewer);
    let after = by_name(files);
    let last = LyricsFileView { name: names::name_text(files.last()), path: files.last() };
    let name = names::name_text(files[k]);
    names::lemma_first_index(lyrics_names(before), last.name);
    if k < fewer.len() {
        lemma_by_name_has_name(fewer, k);
        let i = choose|i: int|
            0 <= i < before.len() && lyrics_names(before)[i] == names::name_text(fewer[k]);
        assert(lyrics_names(after)[i] == name);
    } else {
        match names::first_index(lyrics_names(before), last.name) {
            Some(i) => {
                assert(lyrics_names(after)[i] == name);
            },
            None => {
                assert(lyrics_names(after)[before.len() as int] == name);
            },
        }
    }
}

/// The lyrics files of a group are different files, and stand in its directory.
pub proof fn law_lyrics_paths_differ(files: Seq<Seq<u8>>, dir: Seq<u8>)
    ensures
        lyrics_paths(group_of(files, dir).lrc).no_duplicates(),
        forall|i: int|
            0 <= i < group_of(files, dir).lrc.len() ==> is_in(
                (#[trigger] group_of(files, dir).lrc[i]).path,
                dir,
            ),
{
    broadcast use vstd::seq_lib::group_filter_ensures;

    let there = lyrics_in(files, dir);
    let wanted = |f: Seq<u8>| is_in(f, dir) && names::is_lyrics(f);
    let lrc = group_of(files, dir).lrc;
    assert forall|i: int| 0 <= i < lrc.len() implies is_in((#[trigger] lrc[i]).path, dir) by {
        lemma_by_name_takes_from(there, i);
        let k = choose|k: int| 0 <= k < there.len() && there[k] == lrc[i].path;
        assert(there == files.filter(wanted));
        assert(wanted(files.filter(wanted)[k]));
    }
    assert forall|i: int, j: int|
        0 <= i < lrc.len() && 0 <= j < lrc.len() && i != j implies lyrics_paths(lrc)[i]
        != lyrics_paths(lrc)[j] by {
        lemma_by_name_takes_from(there, i);
        lemma_by_name_takes_from(there, j);
        if i < j {
            law_lyrics_names_differ(there, i, j);
        } else {
            law_lyrics_names_differ(there, j, i);
        }
    }
}

/// What a group holds is what its directory holds: audio files among its audio, lyrics files among
/// its lyrics, each of these under the text of its name.
pub proof fn law_groups_hold_their_own(files: Seq<Seq<u8>>, dir: Seq<u8>, i: int)
    ensures
        0 <= i < group_of(files, dir).audio.len() ==> ({
            let file = group_of(files, dir).audio[i];
            files.contains(file) && is_in(file, dir) && names::is_audio(file)
        }),
        0 <= i < group_of(files, dir).lrc.len() ==> ({
            let file = group_of(files, dir).lrc[i];
            &&& files.contains(file.path)
            &&& is_in(file.path, dir)
            &&& names::is_lyrics(file.path)
            &&& file.name == names::name_text(file.path)
        }),
{
    broadcast use vstd::seq_lib::group_filter_ensures;

    let group = group_of(files, dir);
    if 0 <= i < group.audio.len() {
        let sung = |f: Seq<u8>| is_in(f, dir) && names::is_audio(f);
        assert(group.audio == files.filter(sung));
        assert(sung(files.filter(sung)[i]));
        assert(files.filter(sung).contains(group.audio[i]));
        files.lemma_filter_contains_rev(sung, group.audio[i]);
    }
    if 0 <= i < group.lrc.len() {
        let there = lyrics_in(files, dir);
        let written = |f: Seq<u8>| is_in(f, dir) && names::is_lyrics(f);
        lemma_by_name_takes_from(there, i);
        let k = choose|k: int| 0 <= k < there.len() && there[k] == group.lrc[i].path;
        assert(there == files.filter(written));
        assert(written(files.filter(written)[k]));
        assert(files.filter(written).contains(there[k]));
        files.lemma_filter_contains_rev(written, there[k]);
    }
}

/// Of lyrics files of one name, the last counts.
pub proof fn law_last_lyrics_of_a_name_count(files: Seq<Seq<u8>>, k: int)
    requires
        0 <= k < files.len(),
        forall|j: int|
            k < j < files.len() ==> names::name_text(#[trigger] files[j]) != names::name_text(
                files[k],
            ),
    ensures
        by_name(files).contains(
            LyricsFileView { name: names::name_text(files[k]), path: files[k] },
        ),
    decreases files.len(),
{
    let fewer = files.drop_last();
    let before = by_name(fewer);
    let after = by_name(files);
    let last = LyricsFileView { name: names::name_text(files.last()), path: files.last() };
    let file = LyricsFileView { name: names::name_text(files[k]), path: files[k] };
    names::lemma_first_index(lyrics_names(before), last.name);
    if k < fewer.len() {
        assert forall|j: int| k < j < fewer.len() implies names::name_text(#[trigger] fewer[j])
            != names::name_text(fewer[k]) by {
            assert(files[j] == fewer[j]);
        }
        law_last_lyrics_of_a_name_count(fewer, k);
        assert(names::name_text(files[files.len() - 1]) != file.name);
        let i = choose|i: int| 0 <= i < before.len() && before[i] == file;
        assert(lyrics_names(before)[i] == file.name);
        assert(after[i] == file);
    } else {
        match names::first_index(lyrics_names(before), last.name) {
            Some(i) => {
                assert(after[i] == file);
            },
            None => {
                assert(after[before.len() as int] == file);
            },
        }
    }
}

/// The path of a group's directory is spelled as the first of its files spells it.
pub proof fn law_first_file_spells_the_directory(files: Seq<Seq<u8>>, dir: Seq<u8>, k: int)
    requires
        0 <= k < files.len(),
        is_in(files[k], dir),
        forall|j: int| 0 <= j < k ==> !is_in(#[trigger] files[j], dir),
    ensures
        paths::parent_of(files[k]) == Some(group_of(files, dir).dir),
    decreases files.len(),
{
    let fewer = files.drop_last();
    let last = files.last();
    assert(fewer.push(last) =~= files);
    lemma_group_of_push(fewer, last, dir);
    if k < fewer.len() {
        assert(is_in(fewer[k], dir));
        assert(has_file_in(fewer, dir));
        law_first_file_spells_the_directory(fewer, dir, k);
        lemma_files_in_has_first(fewer, dir);
    } else {
        if has_file_in(fewer, dir) {
            let j = choose|j: int| 0 <= j < fewer.len() && is_in(#[trigger] fewer[j], dir);
            assert(is_in(files[j], dir));
        }
        lemma_group_of_empty(fewer, dir);
    }
}

/// The last lyrics file of its name in a directory is in the group of the directory.
pub proof fn law_last_lyrics_of_a_directory_count(files: Seq<Seq<u8>>, dir: Seq<u8>, k: int)
    requires
        0 <= k < files.len(),
        is_in(files[k], dir),
        names::is_lyrics(files[k]),
        forall|j: int|
            k < j < files.len() && is_in(#[trigger] files[j], dir) && names::is_lyrics(files[j])
                ==> names::name_text(files[j]) != names::name_text(files[k]),
    ensures
        group_of(files, dir).lrc.contains(
            LyricsFileView { name: names::name_text(files[k]), path: files[k] },
        ),
    decreases files.len(),
{
    let fewer = files.drop_last();
    let last = files.last();
    let file = LyricsFileView { name: names::name_text(files[k]), path: files[k] };
    assert(fewer.push(last) =~= files);
    lemma_group_of_push(fewer, last, dir);
    let before = by_name(lyrics_in(fewer, dir));
    let after = by_name(lyrics_in(files, dir));
    assert(lyrics_in(fewer, dir).push(last).drop_last() =~= lyrics_in(fewer, dir));
    names::lemma_first_index(lyrics_names(before), names::name_text(last));
    if k < fewer.len() {
        assert forall|j: int|
            k < j < fewer.len() && is_in(#[trigger] fewer[j], dir) && names::is_lyrics(
                fewer[j],
            ) implies names::name_text(fewer[j]) != names::name_text(fewer[k]) by {
            assert(files[j] == fewer[j]);
        }
        law_last_lyrics_of_a_directory_count(fewer, dir, k);
        let i = choose|i: int| 0 <= i < before.len() && before[i] == file;
        assert(lyrics_names(before)[i] == file.name);
        if is_in(last, dir) && names::is_lyrics(last) {
            assert(is_in(files[files.len() - 1], dir));
        }
        assert(after[i] == file);
    } else {
        match names::first_index(lyrics_names(before), names::name_text(last)) {
            Some(i) => {
                assert(after[i] == file);
            },
            None => {
                assert(after[before.len() as int] == file);
            },
        }
    }
}

} // verus!
