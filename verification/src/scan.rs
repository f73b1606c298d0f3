//! What a scan of the library does: which lyrics go with which audio, what becomes of the others,
//! and which tracks are to be looked up.
use vstd::prelude::*;

use crate::config::OrphanAction;
use crate::db;
use crate::db::CacheDb;
use crate::grouping;
use crate::grouping::{DirectoryFiles, DirectoryView, LyricsFile, LyricsFileView};
use crate::names;
use crate::paths;
use crate::text;

verus! {

/// The directory into which unmatched lyrics files are moved, in the directory where they stood.
pub const QUARANTINE_DIR: &'static str = ".lrcget-orphans";

/// An audio file and its lyrics.
#[derive(Debug)]
pub struct SidecarPair {
    pub audio: Vec<u8>,
    pub lrc: Vec<u8>,
}

/// The contents of a `SidecarPair`.
pub struct PairView {
    pub audio: Seq<u8>,
    pub lrc: Seq<u8>,
}

impl View for SidecarPair {
    type V = PairView;

    open spec fn view(&self) -> PairView {
        PairView { audio: self.audio@, lrc: self.lrc@ }
    }
}

pub open spec fn pair_views(v: Seq<SidecarPair>) -> Seq<PairView> {
    v.map_values(|p: SidecarPair| p@)
}

pub open spec fn pair_audio(v: Seq<PairView>) -> Seq<Seq<u8>> {
    v.map_values(|p: PairView| p.audio)
}

pub open spec fn pair_lrc(v: Seq<PairView>) -> Seq<Seq<u8>> {
    v.map_values(|p: PairView| p.lrc)
}

/// Audio files with their lyrics, audio files without, and the lyrics that are left.
#[derive(Debug)]
pub struct Matching {
    pub matched: Vec<SidecarPair>,
    pub missing: Vec<Vec<u8>>,
    pub lrc: Vec<LyricsFile>,
}

/// The contents of a `Matching`.
pub struct MatchingView {
    pub matched: Seq<PairView>,
    pub missing: Seq<Seq<u8>>,
    pub lrc: Seq<LyricsFileView>,
}

impl View for Matching {
    type V = MatchingView;

    open spec fn view(&self) -> MatchingView {
        MatchingView {
            matched: pair_views(self.matched@),
            missing: paths::all_bytes(self.missing@),
            lrc: grouping::lyrics_views(self.lrc@),
        }
    }
}

/// One audio file takes the lyrics file of the name that it wants, if that is still there.
pub open spec fn match_one(m: MatchingView, audio: Seq<u8>, wanted: Seq<char>) -> MatchingView {
    match names::first_index(grouping::lyrics_names(m.lrc), wanted) {
        Some(i) => MatchingView {
            matched: m.matched.push(PairView { audio, lrc: m.lrc[i].path }),
            missing: m.missing,
            lrc: m.lrc.remove(i),
        },
        None => MatchingView { missing: m.missing.push(audio), ..m },
    }
}

/// The audio files take their lyrics one after the other.
pub open spec fn match_all(
    audio: Seq<Seq<u8>>,
    wanted: Seq<Seq<char>>,
    lrc: Seq<LyricsFileView>,
) -> MatchingView
    decreases audio.len(),
{
    if audio.len() == 0 {
        MatchingView { matched: Seq::empty(), missing: Seq::empty(), lrc }
    } else {
        match_one(
            match_all(audio.drop_last(), wanted, lrc),
            audio.last(),
            wanted[audio.len() - 1],
        )
    }
}

/// Gives each audio file the lyrics file of the name that it wants.
pub fn match_sidecars(audio: &Vec<Vec<u8>>, wanted: &Vec<String>, lrc: Vec<LyricsFile>) -> (r:
    Matching)
    requires
        wanted.len() == audio.len(),
    ensures
        r@ == match_all(
            paths::all_bytes(audio@),
            text::texts(wanted@),
            grouping::lyrics_views(lrc@),
        ),
{
    let ghost files = paths::all_bytes(audio@);
    let ghost texts = text::texts(wanted@);
    let ghost start = grouping::lyrics_views(lrc@);
    let mut m = Matching { matched: Vec::new(), missing: Vec::new(), lrc };
    proof {
        assert(pair_views(m.matched@) =~= Seq::<PairView>::empty());
        assert(paths::all_bytes(m.missing@) =~= Seq::<Seq<u8>>::empty());
        assert(files.take(0) =~= Seq::<Seq<u8>>::empty());
    }
    let mut i: usize = 0;
    while i < audio.len()
        invariant
            i <= audio.len(),
            wanted.len() == audio.len(),
            files == paths::all_bytes(audio@),
            texts == text::texts(wanted@),
            m@ == match_all(files.take(i as int), texts, start),
        decreases audio.len() - i,
    {
        let ghost before = m@;
        proof {
            assert(files.take(i + 1).drop_last() =~= files.take(i as int));
            assert(files.take(i + 1).last() == audio@[i as int]@);
            assert(texts[i as int] == wanted@[i as int]@);
        }
        match grouping::find_lyrics(&m.lrc, wanted[i].as_str()) {
            Some(at) => {
                let file = m.lrc.remove(at);
                m.matched.push(SidecarPair { audio: paths::copy_of(&audio[i]), lrc: file.path });
                proof {
                    assert(pair_views(m.matched@) =~= before.matched.push(
                        PairView { audio: audio@[i as int]@, lrc: before.lrc[at as int].path },
                    ));
                    assert(grouping::lyrics_views(m.lrc@) =~= before.lrc.remove(at as int));
                }
            },
            None => {
                m.missing.push(paths::copy_of(&audio[i]));
                proof {
                    assert(paths::all_bytes(m.missing@) =~= before.missing.push(
                        audio@[i as int]@,
                    ));
                }
            },
        }
        i += 1;
    }
    proof {
        assert(files.take(i as int) =~= files);
    }
    m
}

/// A lyrics file that is to be renamed so that it goes with an audio file.
#[derive(Debug)]
pub struct Reconciled {
    pub audio: Vec<u8>,
    pub from: Vec<u8>,
    pub to: Vec<u8>,
}

/// The contents of a `Reconciled`.
pub struct ReconciledView {
    pub audio: Seq<u8>,
    pub from: Seq<u8>,
    pub to: Seq<u8>,
}

impl View for Reconciled {
    type V = ReconciledView;

    open spec fn view(&self) -> ReconciledView {
        ReconciledView { audio: self.audio@, from: self.from@, to: self.to@ }
    }
}

pub open spec fn reconciled_views(v: Seq<Reconciled>) -> Seq<ReconciledView> {
    v.map_values(|r: Reconciled| r@)
}

pub open spec fn reconciled_audio(v: Seq<ReconciledView>) -> Seq<Seq<u8>> {
    v.map_values(|r: ReconciledView| r.audio)
}

pub open spec fn reconciled_from(v: Seq<ReconciledView>) -> Seq<Seq<u8>> {
    v.map_values(|r: ReconciledView| r.from)
}

/// The renames that give audio files lyrics, the audio files that get none, and the lyrics that are
/// left.
#[derive(Debug)]
pub struct Reconciliation {
    pub renames: Vec<Reconciled>,
    pub missing: Vec<Vec<u8>>,
    pub lrc: Vec<LyricsFile>,
}

/// The contents of a `Reconciliation`.
pub struct ReconciliationView {
    pub renames: Seq<ReconciledView>,
    pub missing: Seq<Seq<u8>>,
    pub lrc: Seq<LyricsFileView>,
}

impl View for Reconciliation {
    type V = ReconciliationView;

    open spec fn view(&self) -> ReconciliationView {
        ReconciliationView {
            renames: reconciled_views(self.renames@),
            missing: paths::all_bytes(self.missing@),
            lrc: grouping::lyrics_views(self.lrc@),
        }
    }
}

/// One audio file takes the lyrics file that goes with it, if any is left that does.
pub open spec fn reconcile_one(r: ReconciliationView, audio: Seq<u8>) -> ReconciliationView {
    match names::match_index(audio, grouping::lyrics_names(r.lrc)) {
        Some(i) => ReconciliationView {
            renames: r.renames.push(
                ReconciledView { audio, from: r.lrc[i].path, to: names::sidecar_of(audio) },
            ),
            missing: r.missing,
            lrc: r.lrc.remove(i),
        },
        None => ReconciliationView { missing: r.missing.push(audio), ..r },
    }
}

/// The audio files take the lyrics that go with them one after the other.
pub open spec fn reconcile_all(
    audio: Seq<Seq<u8>>,
    lrc: Seq<LyricsFileView>,
) -> ReconciliationView
    decreases audio.len(),
{
    if audio.len() == 0 {
        ReconciliationView { renames: Seq::empty(), missing: Seq::empty(), lrc }
    } else {
        reconcile_one(reconcile_all(audio.drop_last(), lrc), audio.last())
    }
}

fn names_of(lrc: &Vec<LyricsFile>) -> (r: Vec<String>)
    ensures
        text::texts(r@) == grouping::lyrics_names(grouping::lyrics_views(lrc@)),
{
    let mut r: Vec<String> = Vec::new();
    let mut i: usize = 0;
    while i < lrc.len()
        invariant
            i <= lrc.len(),
            r.len() == i,
            forall|j: int| 0 <= j < i ==> (#[trigger] r@[j])@ == lrc@[j].name@,
        decreases lrc.len() - i,
    {
        r.push(lrc[i].name.clone());
        i += 1;
    }
    proof {
        assert(text::texts(r@) =~= grouping::lyrics_names(grouping::lyrics_views(lrc@)));
    }
    r
}

/// Finds lyrics for audio files among lyrics files of other names.
pub fn reconcile_orphans(missing: &Vec<Vec<u8>>, lrc: Vec<LyricsFile>) -> (r: Reconciliation)
    ensures
        r@ == reconcile_all(paths::all_bytes(missing@), grouping::lyrics_views(lrc@)),
{
    let ghost files = paths::all_bytes(missing@);
    let ghost start = grouping::lyrics_views(lrc@);
    let mut r = Reconciliation { renames: Vec::new(), missing: Vec::new(), lrc };
    proof {
        assert(reconciled_views(r.renames@) =~= Seq::<ReconciledView>::empty());
        assert(paths::all_bytes(r.missing@) =~= Seq::<Seq<u8>>::empty());
        assert(files.take(0) =~= Seq::<Seq<u8>>::empty());
    }
    let mut i: usize = 0;
    while i < missing.len()
        invariant
            i <= missing.len(),
            files == paths::all_bytes(missing@),
            r@ == reconcile_all(files.take(i as int), start),
        decreases missing.len() - i,
    {
        let ghost before = r@;
        proof {
            assert(files.take(i + 1).drop_last() =~= files.take(i as int));
            assert(files.take(i + 1).last() == missing@[i as int]@);
        }
        let lrc_names = names_of(&r.lrc);
        match names::find_orphan_index(&missing[i], &lrc_names) {
            Some(at) => {
                proof {
                    assert(text::texts(lrc_names@).len() == grouping::lyrics_names(
                        before.lrc,
                    ).len());
                }
                let file = r.lrc.remove(at);
                r.renames.push(
                    Reconciled {
                        audio: paths::copy_of(&missing[i]),
                        from: file.path,
                        to: names::sidecar_path(&missing[i]),
                    },
                );
                proof {
                    assert(reconciled_views(r.renames@) =~= before.renames.push(
                        ReconciledView {
                            audio: missing@[i as int]@,
                            from: before.lrc[at as int].path,
                            to: names::sidecar_of(missing@[i as int]@),
                        },
                    ));
                    assert(grouping::lyrics_views(r.lrc@) =~= before.lrc.remove(at as int));
                }
            },
            None => {
                r.missing.push(paths::copy_of(&missing[i]));
                proof {
                    assert(paths::all_bytes(r.missing@) =~= before.missing.push(
                        missing@[i as int]@,
                    ));
                }
            },
        }
        i += 1;
    }
    proof {
        assert(files.take(i as int) =~= files);
    }
    r
}

/// A file that is to be moved.
#[derive(Debug)]
pub struct FileMove {
    pub from: Vec<u8>,
    pub to: Vec<u8>,
}

/// The contents of a `FileMove`.
pub struct MoveView {
    pub from: Seq<u8>,
    pub to: Seq<u8>,
}

impl View for FileMove {
    type V = MoveView;

    open spec fn view(&self) -> MoveView {
        MoveView { from: self.from@, to: self.to@ }
    }
}

pub open spec fn move_views(v: Seq<FileMove>) -> Seq<MoveView> {
    v.map_values(|m: FileMove| m@)
}

/// What becomes of the lyrics files that go with no audio file.
#[derive(Debug)]
pub struct OrphanPlan {
    /// A directory that must be there before the moves.
    pub create_dir: Option<Vec<u8>>,
    pub moves: Vec<FileMove>,
    pub deletes: Vec<Vec<u8>>,
    /// How many such files there are.
    pub count: usize,
}

/// The contents of an `OrphanPlan`.
pub struct OrphanPlanView {
    pub create_dir: Option<Seq<u8>>,
    pub moves: Seq<MoveView>,
    pub deletes: Seq<Seq<u8>>,
    pub count: nat,
}

impl View for OrphanPlan {
    type V = OrphanPlanView;

    open spec fn view(&self) -> OrphanPlanView {
        OrphanPlanView {
            create_dir: match self.create_dir {
                Some(dir) => Some(dir@),
                None => None,
            },
            moves: move_views(self.moves@),
            deletes: paths::all_bytes(self.deletes@),
            count: self.count as nat,
        }
    }
}

/// Where unmatched lyrics files of a directory are moved.
pub open spec fn quarantine_of(dir: Seq<u8>) -> Seq<u8> {
    paths::joined(dir, vstd::utf8::encode_utf8(QUARANTINE_DIR@))
}

/// The moves that put lyrics files into quarantine.
pub open spec fn quarantine_moves(dir: Seq<u8>, lrc: Seq<LyricsFileView>) -> Seq<MoveView> {
    lrc.map_values(
        |f: LyricsFileView|
            MoveView {
                from: f.path,
                to: paths::joined(quarantine_of(dir), vstd::utf8::encode_utf8(f.name)),
            },
    )
}

/// What is done with unmatched lyrics files: nothing, unless they are to be quarantined or deleted.
pub open spec fn orphan_plan_for(
    action: OrphanAction,
    dir: Seq<u8>,
    lrc: Seq<LyricsFileView>,
) -> OrphanPlanView {
    OrphanPlanView {
        create_dir: if action == OrphanAction::Quarantine {
            Some(quarantine_of(dir))
        } else {
            None
        },
        moves: if action == OrphanAction::Quarantine {
            quarantine_moves(dir, lrc)
        } else {
            Seq::empty()
        },
        deletes: if action == OrphanAction::Delete {
            grouping::lyrics_paths(lrc)
        } else {
            Seq::empty()
        },
        count: lrc.len(),
    }
}

fn moves_into(quarantine: &Vec<u8>, lrc: &Vec<LyricsFile>, Ghost(dir): Ghost<Seq<u8>>) -> (r: Vec<
    FileMove,
>)
    requires
        quarantine@ == quarantine_of(dir),
    ensures
        move_views(r@) == quarantine_moves(dir, grouping::lyrics_views(lrc@)),
{
    let mut r: Vec<FileMove> = Vec::new();
    let mut i: usize = 0;
    while i < lrc.len()
        invariant
            i <= lrc.len(),
            r.len() == i,
            quarantine@ == quarantine_of(dir),
            forall|j: int|
                0 <= j < i ==> (#[trigger] r@[j])@ == (MoveView {
                    from: lrc@[j].path@,
                    to: paths::joined(
                        quarantine_of(dir),
                        vstd::utf8::encode_utf8(lrc@[j].name@),
                    ),
                }),
        decreases lrc.len() - i,
    {
        r.push(
            FileMove {
                from: paths::copy_of(&lrc[i].path),
                to: paths::join(quarantine, lrc[i].name.as_str().as_bytes()),
            },
        );
        i += 1;
    }
    proof {
        assert(move_views(r@) =~= quarantine_moves(dir, grouping::lyrics_views(lrc@)));
    }
    r
}

fn paths_of(lrc: &Vec<LyricsFile>) -> (r: Vec<Vec<u8>>)
    ensures
        paths::all_bytes(r@) == grouping::lyrics_paths(grouping::lyrics_views(lrc@)),
{
    let mut r: Vec<Vec<u8>> = Vec::new();
    let mut i: usize = 0;
    while i < lrc.len()
        invariant
            i <= lrc.len(),
            r.len() == i,
            forall|j: int| 0 <= j < i ==> (#[trigger] r@[j])@ == lrc@[j].path@,
        decreases lrc.len() - i,
    {
        r.push(paths::copy_of(&lrc[i].path));
        i += 1;
    }
    proof {
        assert(paths::all_bytes(r@) =~= grouping::lyrics_paths(grouping::lyrics_views(lrc@)));
    }
    r
}

/// What becomes of the lyrics files of a directory that go with no audio file.
pub fn handle_remaining_orphans(action: OrphanAction, dir: &[u8], lrc: &Vec<LyricsFile>) -> (r:
    OrphanPlan)
    ensures
        r@ == orphan_plan_for(action, dir@, grouping::lyrics_views(lrc@)),
{
    let mut r = OrphanPlan {
        create_dir: None,
        moves: Vec::new(),
        deletes: Vec::new(),
        count: lrc.len(),
    };
    proof {
        assert(move_views(r.moves@) =~= Seq::<MoveView>::empty());
        assert(paths::all_bytes(r.deletes@) =~= Seq::<Seq<u8>>::empty());
    }
    match action {
        OrphanAction::Keep | OrphanAction::Reconcile => {},
        OrphanAction::Quarantine => {
            let quarantine = paths::join(dir, QUARANTINE_DIR.as_bytes());
            r.moves = moves_into(&quarantine, lrc, Ghost(dir@));
            r.create_dir = Some(quarantine);
        },
        OrphanAction::Delete => {
            r.deletes = paths_of(lrc);
        },
    }
    r
}

/// What a scan does in one directory. The steps are taken in this order.
#[derive(Debug)]
pub struct DirectoryPlan {
    pub matched: Vec<SidecarPair>,
    pub renames: Vec<Reconciled>,
    pub orphans: OrphanPlan,
    /// The audio files that have no lyrics.
    pub missing: Vec<Vec<u8>>,
}

/// The contents of a `DirectoryPlan`.
pub struct DirectoryPlanView {
    pub matched: Seq<PairView>,
    pub renames: Seq<ReconciledView>,
    pub orphans: OrphanPlanView,
    pub missing: Seq<Seq<u8>>,
}

impl View for DirectoryPlan {
    type V = DirectoryPlanView;

    open spec fn view(&self) -> DirectoryPlanView {
        DirectoryPlanView {
            matched: pair_views(self.matched@),
            renames: reconciled_views(self.renames@),
            orphans: self.orphans@,
            missing: paths::all_bytes(self.missing@),
        }
    }
}

/// The names of the lyrics files that audio files want.
pub open spec fn wanted_names(audio: Seq<Seq<u8>>) -> Seq<Seq<char>> {
    audio.map_values(|a: Seq<u8>| names::sidecar_name_of(a))
}

/// The first round: lyrics by name.
pub open spec fn first_round(files: DirectoryView) -> MatchingView {
    match_all(files.audio, wanted_names(files.audio), files.lrc)
}

/// The second round: lyrics of other names, where they are to be reconciled.
pub open spec fn second_round(files: DirectoryView, action: OrphanAction) -> ReconciliationView {
    let m = first_round(files);
    if action == OrphanAction::Reconcile {
        reconcile_all(m.missing, m.lrc)
    } else {
        ReconciliationView { renames: Seq::empty(), missing: m.missing, lrc: m.lrc }
    }
}

/// What a scan does in a directory.
pub open spec fn plan_for(files: DirectoryView, action: OrphanAction) -> DirectoryPlanView {
    let r = second_round(files, action);
    DirectoryPlanView {
        matched: first_round(files).matched,
        renames: r.renames,
        orphans: orphan_plan_for(action, files.dir, r.lrc),
        missing: r.missing,
    }
}

fn wanted_by(audio: &Vec<Vec<u8>>) -> (r: Vec<String>)
    ensures
        r.len() == audio.len(),
        text::texts(r@) == wanted_names(paths::all_bytes(audio@)),
{
    let mut r: Vec<String> = Vec::new();
    let mut i: usize = 0;
    while i < audio.len()
        invariant
            i <= audio.len(),
            r.len() == i,
            forall|j: int|
                0 <= j < i ==> (#[trigger] r@[j])@ == names::sidecar_name_of(audio@[j]@),
        decreases audio.len() - i,
    {
        r.push(names::sidecar_name(&audio[i]));
        i += 1;
    }
    proof {
        assert(text::texts(r@) =~= wanted_names(paths::all_bytes(audio@)));
    }
    r
}

/// What a scan does in a directory.
pub fn plan_directory(files: DirectoryFiles, action: OrphanAction) -> (r: DirectoryPlan)
    ensures
        r@ == plan_for(files@, action),
{
    let DirectoryFiles { dir, audio, lrc } = files;
    let wanted = wanted_by(&audio);
    let m = match_sidecars(&audio, &wanted, lrc);
    let Matching { matched, missing, lrc } = m;
    let second = if action == OrphanAction::Reconcile {
        reconcile_orphans(&missing, lrc)
    } else {
        let none = Reconciliation { renames: Vec::new(), missing, lrc };
        proof {
            assert(reconciled_views(none.renames@) =~= Seq::<ReconciledView>::empty());
        }
        none
    };
    let orphans = handle_remaining_orphans(action, &dir, &second.lrc);
    DirectoryPlan { matched, renames: second.renames, orphans, missing: second.missing }
}

pub open spec fn plan_views(v: Seq<DirectoryPlan>) -> Seq<DirectoryPlanView> {
    v.map_values(|p: DirectoryPlan| p@)
}

/// `plans` holds one plan for every directory in which a file stands, in any order.
pub open spec fn is_scan_plan(
    plans: Seq<DirectoryPlanView>,
    files: Seq<Seq<u8>>,
    action: OrphanAction,
) -> bool {
    exists|groups: Seq<DirectoryView>| #[trigger]
        grouping::is_grouping(groups, files) && plans == groups.map_values(
            |g: DirectoryView| plan_for(g, action),
        )
}

/// What a scan does with the files of a library.
pub fn sync_library(files: &Vec<Vec<u8>>, action: OrphanAction) -> (plans: Vec<DirectoryPlan>)
    ensures
        is_scan_plan(plan_views(plans@), paths::all_bytes(files@), action),
{
    let mut groups = grouping::group_files(files);
    let ghost all = grouping::directory_views(groups@);
    let ghost backwards = all.reverse();
    let mut plans: Vec<DirectoryPlan> = Vec::new();
    proof {
        grouping::lemma_order_of_groups_is_free(all, paths::all_bytes(files@));
        assert(all.take(all.len() as int) =~= all);
    }
    loop
        invariant
            plans.len() + groups.len() == all.len(),
            grouping::directory_views(groups@) == all.take(groups.len() as int),
            backwards == all.reverse(),
            forall|j: int|
                0 <= j < plans.len() ==> (#[trigger] plans@[j])@ == plan_for(backwards[j], action),
        ensures
            groups.len() == 0,
        decreases groups.len(),
    {
        let ghost left = grouping::directory_views(groups@);
        match groups.pop() {
            Some(group) => {
                proof {
                    assert(left.last() == group@);
                    assert(backwards[plans.len() as int] == group@);
                    assert(grouping::directory_views(groups@) =~= left.drop_last());
                    assert(left.drop_last() =~= all.take(groups.len() as int));
                }
                plans.push(plan_directory(group, action));
            },
            None => {
                break;
            },
        }
    }
    proof {
        assert(plan_views(plans@) =~= backwards.map_values(
            |g: DirectoryView| plan_for(g, action),
        ));
    }
    plans
}

#[derive(Debug, Clone, Copy, PartialEq, Eq, Structural)]
pub enum JobSource {
    Scan,
    Watch,
}

/// A track that is to be looked up.
#[derive(Debug)]
pub struct TrackJob {
    pub audio_path: Vec<u8>,
    pub rel_path: String,
    pub lrc_path: Vec<u8>,
    pub source: JobSource,
}

/// The contents of a `TrackJob`.
pub struct JobView {
    pub audio_path: Seq<u8>,
    pub rel_path: Seq<char>,
    pub lrc_path: Seq<u8>,
    pub source: JobSource,
}

impl View for TrackJob {
    type V = JobView;

    open spec fn view(&self) -> JobView {
        JobView {
            audio_path: self.audio_path@,
            rel_path: self.rel_path@,
            lrc_path: self.lrc_path@,
            source: self.source,
        }
    }
}

pub open spec fn job_views(v: Seq<TrackJob>) -> Seq<JobView> {
    v.map_values(|j: TrackJob| j@)
}

/// The key of an audio file in the cache.
pub open spec fn key_of(audio: Seq<u8>, music_dir: Seq<u8>) -> Seq<char> {
    paths::readable(db::relative(audio, music_dir))
}

/// The job that looks up an audio file.
pub open spec fn job_for(audio: Seq<u8>, music_dir: Seq<u8>, source: JobSource) -> JobView {
    JobView {
        audio_path: audio,
        rel_path: key_of(audio, music_dir),
        lrc_path: names::sidecar_of(audio),
        source,
    }
}

/// The jobs for audio files without lyrics, but for those that were looked for in vain not long ago.
pub open spec fn jobs_for(
    missing: Seq<Seq<u8>>,
    music_dir: Seq<u8>,
    cache: db::CacheView,
) -> Seq<JobView> {
    missing.filter(|a: Seq<u8>| !cache.not_found.contains(key_of(a, music_dir))).map_values(
        |a: Seq<u8>| job_for(a, music_dir, JobSource::Scan),
    )
}

/// The jobs of a scan for audio files without lyrics, and how many files it passes over.
pub fn queue_jobs(missing: &Vec<Vec<u8>>, music_dir: &[u8], cache: &CacheDb) -> (r: (
    Vec<TrackJob>,
    usize,
))
    ensures
        job_views(r.0@) == jobs_for(paths::all_bytes(missing@), music_dir@, cache@),
        r.0.len() + r.1 == missing.len(),
{
    let ghost files = paths::all_bytes(missing@);
    let mut jobs: Vec<TrackJob> = Vec::new();
    let mut skipped: usize = 0;
    proof {
        reveal(Seq::filter);
        assert(files.take(0) =~= Seq::<Seq<u8>>::empty());
        assert(job_views(jobs@) =~= jobs_for(files.take(0), music_dir@, cache@));
    }
    let mut i: usize = 0;
    while i < missing.len()
        invariant
            i <= missing.len(),
            files == paths::all_bytes(missing@),
            job_views(jobs@) == jobs_for(files.take(i as int), music_dir@, cache@),
            jobs.len() + skipped == i,
        decreases missing.len() - i,
    {
        let audio = &missing[i];
        let ghost before = job_views(jobs@);
        let ghost seen = files.take(i as int);
        proof {
            reveal(Seq::filter);
            assert(files.take(i + 1) =~= seen.push(audio@));
            assert(seen.push(audio@).drop_last() =~= seen);
        }
        let rel_path = db::rel_path(audio, music_dir);
        if cache.is_not_found(rel_path.as_str()) {
            skipped += 1;
        } else {
            jobs.push(
                TrackJob {
                    audio_path: paths::copy_of(audio),
                    rel_path,
                    lrc_path: names::sidecar_path(audio),
                    source: JobSource::Scan,
                },
            );
            proof {
                assert(job_views(jobs@) =~= before.push(
                    job_for(audio@, music_dir@, JobSource::Scan),
                ));
                assert(jobs_for(seen.push(audio@), music_dir@, cache@) =~= jobs_for(
                    seen,
                    music_dir@,
                    cache@,
                ).push(job_for(audio@, music_dir@, JobSource::Scan)));
            }
        }
        i += 1;
    }
    proof {
        assert(files.take(i as int) =~= files);
    }
    (jobs, skipped)
}

/// The key under which a matched audio file is still to be recorded as having lyrics; none where
/// the cache has it already.
pub fn adoption_key(audio: &[u8], music_dir: &[u8], cache: &CacheDb) -> (r: Option<String>)
    ensures
        match r {
            Some(key) => key@ == key_of(audio@, music_dir@) && !cache@.success.contains(key@),
            None => cache@.success.contains(key_of(audio@, music_dir@)),
        },
{
    let key = db::rel_path(audio, music_dir);
    if cache.is_success(key.as_str()) {
        None
    } else {
        Some(key)
    }
}

proof fn lemma_matching_loses_nothing(
    audio: Seq<Seq<u8>>,
    wanted: Seq<Seq<char>>,
    lrc: Seq<LyricsFileView>,
)
    ensures
        ({
            let m = match_all(audio, wanted, lrc);
            &&& pair_audio(m.matched).to_multiset().add(m.missing.to_multiset())
                == audio.to_multiset()
            &&& pair_lrc(m.matched).to_multiset().add(
                grouping::lyrics_paths(m.lrc).to_multiset(),
            ) == grouping::lyrics_paths(lrc).to_multiset()
        }),
    decreases audio.len(),
{
    broadcast use vstd::seq_lib::group_to_multiset_ensures;

    let m = match_all(audio, wanted, lrc);
    if audio.len() == 0 {
        assert(pair_audio(m.matched) =~= Seq::<Seq<u8>>::empty());
        assert(pair_lrc(m.matched) =~= Seq::<Seq<u8>>::empty());
        assert(audio =~= Seq::<Seq<u8>>::empty());
    } else {
        let fewer = audio.drop_last();
        let before = match_all(fewer, wanted, lrc);
        let name = wanted[audio.len() - 1];
        lemma_matching_loses_nothing(fewer, wanted, lrc);
        assert(audio =~= fewer.push(audio.last()));
        names::lemma_first_index(grouping::lyrics_names(before.lrc), name);
        match names::first_index(grouping::lyrics_names(before.lrc), name) {
            Some(i) => {
                assert(pair_audio(m.matched) =~= pair_audio(before.matched).push(audio.last()));
                assert(pair_lrc(m.matched) =~= pair_lrc(before.matched).push(before.lrc[i].path));
                assert(grouping::lyrics_paths(m.lrc) =~= grouping::lyrics_paths(
                    before.lrc,
                ).remove(i));
                assert(grouping::lyrics_paths(before.lrc)[i] == before.lrc[i].path);
                assert(grouping::lyrics_paths(before.lrc).contains(before.lrc[i].path));
            },
            None => {},
        }
    }
}

proof fn lemma_reconciling_loses_nothing(audio: Seq<Seq<u8>>, lrc: Seq<LyricsFileView>)
    ensures
        ({
            let r = reconcile_all(audio, lrc);
            &&& reconciled_audio(r.renames).to_multiset().add(r.missing.to_multiset())
                == audio.to_multiset()
            &&& reconciled_from(r.renames).to_multiset().add(
                grouping::lyrics_paths(r.lrc).to_multiset(),
            ) == grouping::lyrics_paths(lrc).to_multiset()
        }),
    decreases audio.len(),
{
    broadcast use vstd::seq_lib::group_to_multiset_ensures;

    let r = reconcile_all(audio, lrc);
    if audio.len() == 0 {
        assert(reconciled_audio(r.renames) =~= Seq::<Seq<u8>>::empty());
        assert(reconciled_from(r.renames) =~= Seq::<Seq<u8>>::empty());
        assert(audio =~= Seq::<Seq<u8>>::empty());
    } else {
        let fewer = audio.drop_last();
        let before = reconcile_all(fewer, lrc);
        lemma_reconciling_loses_nothing(fewer, lrc);
        assert(audio =~= fewer.push(audio.last()));
        match names::match_index(audio.last(), grouping::lyrics_names(before.lrc)) {
            Some(i) => {
                names::law_match_agrees(audio.last(), grouping::lyrics_names(before.lrc));
                assert(reconciled_audio(r.renames) =~= reconciled_audio(before.renames).push(
                    audio.last(),
                ));
                assert(reconciled_from(r.renames) =~= reconciled_from(before.renames).push(
                    before.lrc[i].path,
                ));
                assert(grouping::lyrics_paths(r.lrc) =~= grouping::lyrics_paths(
                    before.lrc,
                ).remove(i));
                assert(grouping::lyrics_paths(before.lrc)[i] == before.lrc[i].path);
                assert(grouping::lyrics_paths(before.lrc).contains(before.lrc[i].path));
            },
            None => {},
        }
    }
}

/// A scan accounts for every audio file of a directory once: it has lyrics, is given lyrics, or is
/// missing them.
pub proof fn law_no_audio_file_is_lost(files: DirectoryView, action: OrphanAction)
    ensures
        ({
            let plan = plan_for(files, action);
            pair_audio(plan.matched).to_multiset().add(
                reconciled_audio(plan.renames).to_multiset(),
            ).add(plan.missing.to_multiset()) == files.audio.to_multiset()
        }),
{
    broadcast use vstd::seq_lib::group_to_multiset_ensures;

    let m = first_round(files);
    let plan = plan_for(files, action);
    lemma_matching_loses_nothing(files.audio, wanted_names(files.audio), files.lrc);
    lemma_reconciling_loses_nothing(m.missing, m.lrc);
    if action != OrphanAction::Reconcile {
        assert(reconciled_audio(plan.renames) =~= Seq::<Seq<u8>>::empty());
    }
    assert(pair_audio(plan.matched).to_multiset().add(
        reconciled_audio(plan.renames).to_multiset(),
    ).add(plan.missing.to_multiset()) =~= files.audio.to_multiset());
}

/// A scan accounts for every lyrics file of a directory once: it goes with an audio file, is renamed
/// to go with one, or is unmatched.
pub proof fn law_no_lyrics_file_is_lost(files: DirectoryView, action: OrphanAction)
    ensures
        ({
            let plan = plan_for(files, action);
            let unmatched = grouping::lyrics_paths(second_round(files, action).lrc);
            &&& pair_lrc(plan.matched).to_multiset().add(
                reconciled_from(plan.renames).to_multiset(),
            ).add(unmatched.to_multiset()) == grouping::lyrics_paths(files.lrc).to_multiset()
            &&& plan.orphans.count == unmatched.len()
        }),
{
    broadcast use vstd::seq_lib::group_to_multiset_ensures;

    let m = first_round(files);
    let plan = plan_for(files, action);
    let unmatched = grouping::lyrics_paths(second_round(files, action).lrc);
    lemma_matching_loses_nothing(files.audio, wanted_names(files.audio), files.lrc);
    lemma_reconciling_loses_nothing(m.missing, m.lrc);
    if action != OrphanAction::Reconcile {
        assert(reconciled_from(plan.renames) =~= Seq::<Seq<u8>>::empty());
    }
    assert(pair_lrc(plan.matched).to_multiset().add(
        reconciled_from(plan.renames).to_multiset(),
    ).add(unmatched.to_multiset()) =~= grouping::lyrics_paths(files.lrc).to_multiset());
}

/// A plan accounts for an audio file.
pub open spec fn accounts_for(plan: DirectoryPlanView, audio: Seq<u8>) -> bool {
    ||| pair_audio(plan.matched).contains(audio)
    ||| reconciled_audio(plan.renames).contains(audio)
    ||| plan.missing.contains(audio)
}

/// The plans of a scan account for every audio file of the library, each in one plan.
pub proof fn law_a_scan_accounts_for_every_audio_file(
    plans: Seq<DirectoryPlanView>,
    files: Seq<Seq<u8>>,
    action: OrphanAction,
    k: int,
)
    requires
        is_scan_plan(plans, files, action),
        0 <= k < files.len(),
        names::is_audio(files[k]),
    ensures
        exists|i: int|
            0 <= i < plans.len() && accounts_for(#[trigger] plans[i], files[k]) && forall|j: int|
                0 <= j < plans.len() && j != i ==> !accounts_for(#[trigger] plans[j], files[k]),
{
    let groups = choose|groups: Seq<DirectoryView>| #[trigger]
        grouping::is_grouping(groups, files) && plans == groups.map_values(
            |g: DirectoryView| plan_for(g, action),
        );
    grouping::law_every_audio_file_is_in_one_group(groups, files, k);
    assert forall|i: int| 0 <= i < plans.len() implies (accounts_for(#[trigger] plans[i], files[k])
        <==> groups[i].audio.contains(files[k])) by {
        assert(plans[i] == plan_for(groups[i], action));
        lemma_plan_accounts_for_its_group(groups[i], action, files[k]);
    }
    let i = choose|i: int|
        0 <= i < groups.len() && (#[trigger] groups[i]).audio.contains(files[k]) && forall|j: int|
            0 <= j < groups.len() && j != i ==> !(#[trigger] groups[j]).audio.contains(files[k]);
    assert(accounts_for(plans[i], files[k]));
    assert forall|j: int| 0 <= j < plans.len() && j != i implies !accounts_for(
        #[trigger] plans[j],
        files[k],
    ) by {
        assert(!groups[j].audio.contains(files[k]));
    }
}

proof fn lemma_plan_accounts_for_its_group(
    files: DirectoryView,
    action: OrphanAction,
    audio: Seq<u8>,
)
    ensures
        accounts_for(plan_for(files, action), audio) <==> files.audio.contains(audio),
{
    broadcast use vstd::seq_lib::group_to_multiset_ensures;

    let plan = plan_for(files, action);
    law_no_audio_file_is_lost(files, action);
    assert(files.audio.to_multiset().count(audio) == pair_audio(plan.matched).to_multiset().count(
        audio,
    ) + reconciled_audio(plan.renames).to_multiset().count(audio)
        + plan.missing.to_multiset().count(audio));
}

/// The files that a plan for unmatched lyrics moves away or deletes.
pub open spec fn is_taken_away(plan: OrphanPlanView, path: Seq<u8>) -> bool {
    ||| exists|i: int| 0 <= i < plan.moves.len() && (#[trigger] plan.moves[i]).from == path
    ||| plan.deletes.contains(path)
}

/// Lyrics that a plan matches with an audio file, by name or by a rename.
pub open spec fn matches_lyrics(plan: DirectoryPlanView, path: Seq<u8>) -> bool {
    ||| pair_lrc(plan.matched).contains(path)
    ||| reconciled_from(plan.renames).contains(path)
}

proof fn lemma_lyrics_of_a_plan(files: DirectoryView, action: OrphanAction, path: Seq<u8>)
    requires
        grouping::lyrics_paths(files.lrc).no_duplicates(),
    ensures
        ({
            let plan = plan_for(files, action);
            &&& matches_lyrics(plan, path) ==> !is_taken_away(plan.orphans, path)
            &&& matches_lyrics(plan, path) || is_taken_away(plan.orphans, path)
                ==> grouping::lyrics_paths(files.lrc).contains(path)
        }),
{
    broadcast use vstd::seq_lib::group_to_multiset_ensures;

    let plan = plan_for(files, action);
    let all = grouping::lyrics_paths(files.lrc);
    let left = second_round(files, action).lrc;
    let unmatched = grouping::lyrics_paths(left);
    law_no_lyrics_file_is_lost(files, action);
    all.lemma_multiset_has_no_duplicates();
    let matched = pair_lrc(plan.matched).to_multiset().count(path) + reconciled_from(
        plan.renames,
    ).to_multiset().count(path);
    assert(all.to_multiset().count(path) == matched + unmatched.to_multiset().count(path));
    assert(matches_lyrics(plan, path) <==> matched > 0);
    if is_taken_away(plan.orphans, path) && !plan.orphans.deletes.contains(path) {
        let i = choose|i: int|
            0 <= i < plan.orphans.moves.len() && (#[trigger] plan.orphans.moves[i]).from == path;
        assert(unmatched[i] == path);
    }
    assert(is_taken_away(plan.orphans, path) ==> unmatched.contains(path));
}

/// Lyrics that a scan matches with an audio file are neither quarantined nor deleted, in any
/// directory. What stands at the target of a rename or a move is another matter: a file of that
/// name there is replaced, matched lyrics too.
pub proof fn law_matched_lyrics_stay(
    plans: Seq<DirectoryPlanView>,
    files: Seq<Seq<u8>>,
    action: OrphanAction,
    i: int,
    j: int,
    path: Seq<u8>,
)
    requires
        is_scan_plan(plans, files, action),
        0 <= i < plans.len(),
        0 <= j < plans.len(),
        matches_lyrics(plans[i], path),
    ensures
        !is_taken_away(plans[j].orphans, path),
{
    let groups = choose|groups: Seq<DirectoryView>| #[trigger]
        grouping::is_grouping(groups, files) && plans == groups.map_values(
            |g: DirectoryView| plan_for(g, action),
        );
    grouping::law_lyrics_paths_differ(files, grouping::key_of(groups[i]));
    grouping::law_lyrics_paths_differ(files, grouping::key_of(groups[j]));
    lemma_lyrics_of_a_plan(groups[i], action, path);
    lemma_lyrics_of_a_plan(groups[j], action, path);
    if is_taken_away(plans[j].orphans, path) {
        let here = groups[i].lrc;
        let there = groups[j].lrc;
        let m = choose|m: int| 0 <= m < here.len() && grouping::lyrics_paths(here)[m] == path;
        let n = choose|n: int| 0 <= n < there.len() && grouping::lyrics_paths(there)[n] == path;
        assert(grouping::is_in(here[m].path, grouping::key_of(groups[i])));
        assert(grouping::is_in(there[n].path, grouping::key_of(groups[j])));
    }
}

/// `part` is `whole` with some of it left out, in the same order.
pub open spec fn is_part_of<A>(part: Seq<A>, whole: Seq<A>) -> bool
    decreases whole.len(),
{
    if part.len() == 0 {
        true
    } else if whole.len() == 0 {
        false
    } else {
        ||| part.last() == whole.last() && is_part_of(part.drop_last(), whole.drop_last())
        ||| is_part_of(part, whole.drop_last())
    }
}

/// Reconciling keeps the order of the audio files, both of those that get lyrics and of those that
/// do not, and takes one lyrics file for each that gets some. No file is lost.
pub proof fn law_reconciling_keeps_count_and_order(audio: Seq<Seq<u8>>, lrc: Seq<LyricsFileView>)
    ensures
        ({
            let r = reconcile_all(audio, lrc);
            &&& is_part_of(r.missing, audio)
            &&& is_part_of(reconciled_audio(r.renames), audio)
            &&& r.missing.len() + r.renames.len() == audio.len()
            &&& r.lrc.len() + r.renames.len() == lrc.len()
            &&& reconciled_audio(r.renames).to_multiset().add(r.missing.to_multiset())
                == audio.to_multiset()
            &&& reconciled_from(r.renames).to_multiset().add(
                grouping::lyrics_paths(r.lrc).to_multiset(),
            ) == grouping::lyrics_paths(lrc).to_multiset()
        }),
    decreases audio.len(),
{
    lemma_reconciling_loses_nothing(audio, lrc);
    if audio.len() > 0 {
        let fewer = audio.drop_last();
        let before = reconcile_all(fewer, lrc);
        let after = reconcile_all(audio, lrc);
        law_reconciling_keeps_count_and_order(fewer, lrc);
        match names::match_index(audio.last(), grouping::lyrics_names(before.lrc)) {
            Some(i) => {
                names::law_match_agrees(audio.last(), grouping::lyrics_names(before.lrc));
                assert(reconciled_audio(after.renames).drop_last() =~= reconciled_audio(
                    before.renames,
                ));
            },
            None => {
                assert(after.missing.drop_last() =~= before.missing);
            },
        }
    }
}

/// Some audio file wants this name.
spec fn is_wanted(audio: Seq<Seq<u8>>, name: Seq<char>) -> bool {
    exists|j: int| 0 <= j < audio.len() && names::sidecar_name_of(#[trigger] audio[j]) == name
}

proof fn lemma_wanted_lyrics_are_matched(
    audio: Seq<Seq<u8>>,
    lrc: Seq<LyricsFileView>,
    file: Seq<u8>,
    m: int,
)
    requires
        names::first_index(grouping::lyrics_names(lrc), names::sidecar_name_of(file)) == Some(m),
        forall|j: int|
            0 <= j < audio.len() && names::sidecar_name_of(#[trigger] audio[j])
                == names::sidecar_name_of(file) ==> audio[j] == file,
    ensures
        ({
            let name = names::sidecar_name_of(file);
            let r = match_all(audio, wanted_names(audio), lrc);
            if is_wanted(audio, name) {
                r.matched.contains(PairView { audio: file, lrc: lrc[m].path })
            } else {
                let i = names::first_index(grouping::lyrics_names(r.lrc), name);
                i is Some && r.lrc[i->0] == lrc[m]
            }
        }),
    decreases audio.len(),
{
    let name = names::sidecar_name_of(file);
    let pair = PairView { audio: file, lrc: lrc[m].path };
    if audio.len() > 0 {
        let fewer = audio.drop_last();
        let before = match_all(fewer, wanted_names(fewer), lrc);
        let after = match_all(audio, wanted_names(audio), lrc);
        let wanted = names::sidecar_name_of(audio.last());
        lemma_wanted_by_index(fewer, wanted_names(fewer), wanted_names(audio), lrc);
        assert(after == match_one(before, audio.last(), wanted));
        lemma_wanted_lyrics_are_matched(fewer, lrc, file, m);
        assert(is_wanted(audio, name) <==> is_wanted(fewer, name) || wanted == name) by {
            if is_wanted(fewer, name) {
                let j = choose|j: int|
                    0 <= j < fewer.len() && names::sidecar_name_of(#[trigger] fewer[j]) == name;
                assert(names::sidecar_name_of(audio[j]) == name);
            }
            if wanted == name {
                assert(names::sidecar_name_of(audio[audio.len() - 1]) == name);
            }
            if is_wanted(audio, name) && wanted != name {
                let j = choose|j: int|
                    0 <= j < audio.len() && names::sidecar_name_of(#[trigger] audio[j]) == name;
                assert(names::sidecar_name_of(fewer[j]) == name);
            }
        }
        let all = grouping::lyrics_names(before.lrc);
        names::lemma_first_index(all, wanted);
        names::lemma_first_index(all, name);
        if is_wanted(fewer, name) {
            let k = choose|k: int| 0 <= k < before.matched.len() && before.matched[k] == pair;
            assert(after.matched[k] == pair);
        } else if wanted == name {
            assert(audio[audio.len() - 1] == file);
            assert(after.matched.last() == pair);
        } else if names::first_index(all, wanted) is Some {
            let gone = names::first_index(all, wanted)->0;
            let i = names::first_index(all, name)->0;
            let left = all.remove(gone);
            let at = if i < gone {
                i
            } else {
                i - 1
            };
            assert(grouping::lyrics_names(after.lrc) =~= left);
            assert(left[at] == name);
            assert forall|j: int| 0 <= j < at implies left[j] != name by {
                assert(left[j] == all[if j < gone {
                    j
                } else {
                    j + 1
                }]);
            }
            names::lemma_is_first_index(left, name, at);
            assert(after.lrc[at] == before.lrc[i]);
        }
    }
}

/// An audio file whose lyrics file is there, under the name that goes with it, is matched with it,
/// unless another audio file of the directory wants the same name.
pub proof fn law_lyrics_of_the_right_name_are_matched(
    plans: Seq<DirectoryPlanView>,
    files: Seq<Seq<u8>>,
    action: OrphanAction,
    dir: Seq<u8>,
    a: int,
    l: int,
)
    requires
        is_scan_plan(plans, files, action),
        0 <= a < files.len(),
        grouping::is_in(files[a], dir),
        names::is_audio(files[a]),
        0 <= l < files.len(),
        grouping::is_in(files[l], dir),
        names::is_lyrics(files[l]),
        names::name_text(files[l]) == names::sidecar_name_of(files[a]),
        forall|b: int|
            0 <= b < files.len() && grouping::is_in(#[trigger] files[b], dir) && names::is_audio(
                files[b],
            ) && names::sidecar_name_of(files[b]) == names::sidecar_name_of(files[a]) ==> files[b]
                == files[a],
        forall|b: int|
            0 <= b < files.len() && grouping::is_in(#[trigger] files[b], dir) && names::is_lyrics(
                files[b],
            ) && names::name_text(files[b]) == names::name_text(files[l]) ==> files[b] == files[l],
    ensures
        exists|i: int|
            0 <= i < plans.len() && (#[trigger] plans[i]).matched.contains(
                PairView { audio: files[a], lrc: files[l] },
            ),
{
    let groups = choose|groups: Seq<DirectoryView>| #[trigger]
        grouping::is_grouping(groups, files) && plans == groups.map_values(
            |g: DirectoryView| plan_for(g, action),
        );
    assert(grouping::has_file_in(files, dir));
    let i = choose|i: int|
        0 <= i < groups.len() && grouping::key_of(#[trigger] groups[i]) == dir;
    let group = groups[i];
    let file = files[a];
    let name = names::sidecar_name_of(file);
    broadcast use vstd::seq_lib::group_filter_ensures;

    let sung = |f: Seq<u8>| grouping::is_in(f, dir) && names::is_audio(f);
    assert(group.audio == files.filter(sung));
    assert(sung(files[a]));
    assert(group.audio.contains(file));
    assert(is_wanted(group.audio, name)) by {
        let j = choose|j: int| 0 <= j < group.audio.len() && group.audio[j] == file;
        assert(names::sidecar_name_of(group.audio[j]) == name);
    }
    assert forall|j: int|
        0 <= j < group.audio.len() && names::sidecar_name_of(#[trigger] group.audio[j])
            == name implies group.audio[j] == file by {
        let f = files.filter(sung)[j];
        assert(files.filter(sung).contains(f));
        files.lemma_filter_contains_rev(sung, f);
        let b = choose|b: int| 0 <= b < files.len() && files[b] == f;
        assert(grouping::is_in(files[b], dir));
    }
    let written = |f: Seq<u8>| grouping::is_in(f, dir) && names::is_lyrics(f);
    let there = grouping::lyrics_in(files, dir);
    assert(there == files.filter(written));
    assert(written(files[l]));
    assert(there.contains(files[l]));
    assert forall|j: int|
        0 <= j < there.len() && names::name_text(#[trigger] there[j]) == name implies there[j]
        == files[l] by {
        let f = files.filter(written)[j];
        assert(files.filter(written).contains(f));
        files.lemma_filter_contains_rev(written, f);
        let b = choose|b: int| 0 <= b < files.len() && files[b] == f;
        assert(grouping::is_in(files[b], dir));
    }
    grouping::lemma_by_name_has(there, files[l]);
    let m = names::first_index(grouping::lyrics_names(group.lrc), name)->0;
    lemma_wanted_lyrics_are_matched(group.audio, group.lrc, file, m);
    assert(plans[i] == plan_for(group, action));
}

proof fn lemma_no_match_among_fewer(audio: Seq<u8>, names: Seq<Seq<char>>, i: int)
    requires
        0 <= i < names.len(),
        names::match_index(audio, names) is None,
    ensures
        names::match_index(audio, names.remove(i)) is None,
{
    let fewer = names.remove(i);
    let number = names::track_number_in(names::name_text(audio));
    let clean = names::clean_name_of(names::name_text(audio));
    let tracks = names.map_values(|n: Seq<char>| names::track_number_in(n));
    let cleans = names.map_values(|n: Seq<char>| names::clean_name_of(n));
    let fewer_tracks = fewer.map_values(|n: Seq<char>| names::track_number_in(n));
    let fewer_cleans = fewer.map_values(|n: Seq<char>| names::clean_name_of(n));
    assert(fewer_tracks =~= tracks.remove(i));
    assert(fewer_cleans =~= cleans.remove(i));
    lemma_not_among_fewer(cleans, clean, i);
    if number is Some {
        lemma_not_among_fewer(tracks, number, i);
    }
}

proof fn lemma_not_among_fewer<A>(s: Seq<A>, a: A, i: int)
    requires
        0 <= i < s.len(),
        names::first_index(s, a) is None,
    ensures
        names::first_index(s.remove(i), a) is None,
{
    let fewer = s.remove(i);
    names::lemma_first_index(s, a);
    names::lemma_first_index(fewer, a);
    if names::first_index(fewer, a) is Some {
        let k = names::first_index(fewer, a)->0;
        assert(fewer[k] == s[if k < i {
            k
        } else {
            k + 1
        }]);
    }
}

/// Reconciling leaves no audio file without lyrics while lyrics are left that go with it.
pub proof fn law_reconciling_leaves_no_match(audio: Seq<Seq<u8>>, lrc: Seq<LyricsFileView>, k: int)
    requires
        0 <= k < reconcile_all(audio, lrc).missing.len(),
    ensures
        ({
            let r = reconcile_all(audio, lrc);
            names::match_index(r.missing[k], grouping::lyrics_names(r.lrc)) is None
        }),
    decreases audio.len(),
{
    let before = reconcile_all(audio.drop_last(), lrc);
    let after = reconcile_all(audio, lrc);
    if k < before.missing.len() {
        law_reconciling_leaves_no_match(audio.drop_last(), lrc, k);
        match names::match_index(audio.last(), grouping::lyrics_names(before.lrc)) {
            Some(i) => {
                names::law_match_agrees(audio.last(), grouping::lyrics_names(before.lrc));
                assert(grouping::lyrics_names(after.lrc) =~= grouping::lyrics_names(
                    before.lrc,
                ).remove(i));
                lemma_no_match_among_fewer(
                    before.missing[k],
                    grouping::lyrics_names(before.lrc),
                    i,
                );
            },
            None => {},
        }
    }
}

proof fn lemma_matching_leaves_no_name(
    audio: Seq<Seq<u8>>,
    lrc: Seq<LyricsFileView>,
    k: int,
)
    requires
        0 <= k < match_all(audio, wanted_names(audio), lrc).missing.len(),
    ensures
        ({
            let m = match_all(audio, wanted_names(audio), lrc);
            names::first_index(
                grouping::lyrics_names(m.lrc),
                names::sidecar_name_of(m.missing[k]),
            ) is None
        }),
    decreases audio.len(),
{
    let fewer = audio.drop_last();
    let before = match_all(fewer, wanted_names(fewer), lrc);
    let after = match_all(audio, wanted_names(audio), lrc);
    let wanted = wanted_names(audio)[audio.len() - 1];
    lemma_wanted_by_index(fewer, wanted_names(fewer), wanted_names(audio), lrc);
    assert(after == match_one(before, audio.last(), wanted));
    if k < before.missing.len() {
        lemma_matching_leaves_no_name(fewer, lrc, k);
        let all = grouping::lyrics_names(before.lrc);
        names::lemma_first_index(all, wanted);
        match names::first_index(all, wanted) {
            Some(i) => {
                assert(grouping::lyrics_names(after.lrc) =~= all.remove(i));
                lemma_not_among_fewer(all, names::sidecar_name_of(before.missing[k]), i);
            },
            None => {},
        }
    }
}

/// What is wanted beyond the last audio file makes no difference.
proof fn lemma_wanted_by_index(
    audio: Seq<Seq<u8>>,
    wanted: Seq<Seq<char>>,
    more: Seq<Seq<char>>,
    lrc: Seq<LyricsFileView>,
)
    requires
        forall|i: int| 0 <= i < audio.len() ==> wanted[i] == more[i],
    ensures
        match_all(audio, wanted, lrc) == match_all(audio, more, lrc),
    decreases audio.len(),
{
    if audio.len() > 0 {
        lemma_wanted_by_index(audio.drop_last(), wanted, more, lrc);
    }
}

/// Of an audio file that a scan leaves without lyrics, no match is among the lyrics that it leaves
/// unmatched: none by track number or clean name with `reconcile`, none by name otherwise.
pub proof fn law_missing_means_no_match(files: DirectoryView, action: OrphanAction, k: int)
    requires
        0 <= k < plan_for(files, action).missing.len(),
    ensures
        ({
            let audio = plan_for(files, action).missing[k];
            let left = grouping::lyrics_names(second_round(files, action).lrc);
            if action == OrphanAction::Reconcile {
                names::match_index(audio, left) is None
            } else {
                names::first_index(left, names::sidecar_name_of(audio)) is None
            }
        }),
{
    let m = first_round(files);
    if action == OrphanAction::Reconcile {
        law_reconciling_leaves_no_match(m.missing, m.lrc, k);
    } else {
        lemma_matching_leaves_no_name(files.audio, files.lrc, k);
    }
}

/// With `keep`, a scan renames, moves and deletes nothing and makes no directory.
pub proof fn law_keep_touches_nothing(files: DirectoryView)
    ensures
        ({
            let plan = plan_for(files, OrphanAction::Keep);
            &&& plan.renames.len() == 0
            &&& plan.orphans.moves.len() == 0
            &&& plan.orphans.deletes.len() == 0
            &&& plan.orphans.create_dir is None
        }),
{
}

/// Only `delete` deletes, only `quarantine` moves away, and only `reconcile` renames.
pub proof fn law_each_action_does_its_own(files: DirectoryView, action: OrphanAction)
    ensures
        ({
            let plan = plan_for(files, action);
            &&& plan.orphans.deletes.len() > 0 ==> action == OrphanAction::Delete
            &&& plan.orphans.moves.len() > 0 ==> action == OrphanAction::Quarantine
            &&& plan.renames.len() > 0 ==> action == OrphanAction::Reconcile
        }),
{
}

/// A job is queued exactly for the audio files without lyrics that do not count as not found.
pub proof fn law_jobs_cover_the_missing(
    missing: Seq<Seq<u8>>,
    music_dir: Seq<u8>,
    cache: db::CacheView,
    k: int,
)
    requires
        0 <= k < missing.len(),
    ensures
        jobs_for(missing, music_dir, cache).contains(
            job_for(missing[k], music_dir, JobSource::Scan),
        ) <==> !cache.not_found.contains(key_of(missing[k], music_dir)),
{
    broadcast use vstd::seq_lib::group_filter_ensures;

    let wanted = |a: Seq<u8>| !cache.not_found.contains(key_of(a, music_dir));
    let kept = missing.filter(wanted);
    let jobs = jobs_for(missing, music_dir, cache);
    let job = job_for(missing[k], music_dir, JobSource::Scan);
    if wanted(missing[k]) {
        assert(kept.contains(missing[k]));
        let i = choose|i: int| 0 <= i < kept.len() && kept[i] == missing[k];
        assert(jobs[i] == job);
    }
    if jobs.contains(job) {
        let i = choose|i: int| 0 <= i < jobs.len() && jobs[i] == job;
        assert(wanted(kept[i]));
        assert(kept[i] == missing[k]);
    }
}

/// A rename gives an audio file lyrics that go with it, by track number or by clean name, under the
/// name that belongs to the audio file: in its directory, with its stem and the extension `lrc`. So
/// the next scan matches the two by name.
pub proof fn law_renames_make_sidecars(audio: Seq<Seq<u8>>, lrc: Seq<LyricsFileView>, k: int)
    requires
        0 <= k < reconcile_all(audio, lrc).renames.len(),
        forall|j: int| 0 <= j < audio.len() ==> paths::name_of(#[trigger] audio[j]) is Some,
    ensures
        ({
            let r = reconcile_all(audio, lrc).renames[k];
            let wanted = names::name_text(r.audio);
            &&& audio.contains(r.audio)
            &&& exists|i: int|
                0 <= i < lrc.len() && (#[trigger] lrc[i]).path == r.from && {
                    ||| names::track_number_in(wanted) is Some && names::track_number_in(lrc[i].name)
                        == names::track_number_in(wanted)
                    ||| names::clean_name_of(lrc[i].name) == names::clean_name_of(wanted)
                }
            &&& paths::parent_of(r.to) == paths::parent_of(r.audio)
            &&& paths::stem_of(r.to) == paths::stem_of(r.audio)
            &&& paths::extension_of(r.to) == Some(seq![108u8, 114u8, 99u8])
            &&& names::is_lyrics(r.to)
            &&& vstd::utf8::valid_utf8(paths::stem_of(r.audio)->0) ==> names::name_text(r.to)
                == names::sidecar_name_of(r.audio)
        }),
    decreases audio.len(),
{
    let fewer = audio.drop_last();
    let before = reconcile_all(fewer, lrc);
    let r = reconcile_all(audio, lrc).renames[k];
    lemma_left_lyrics_were_there(fewer, lrc);
    if k < before.renames.len() {
        assert forall|j: int| 0 <= j < fewer.len() implies paths::name_of(
            #[trigger] fewer[j],
        ) is Some by {
            assert(fewer[j] == audio[j]);
        }
        law_renames_make_sidecars(fewer, lrc, k);
        let j = choose|j: int| 0 <= j < fewer.len() && fewer[j] == r.audio;
        assert(audio[j] == r.audio);
    } else {
        let left = grouping::lyrics_names(before.lrc);
        names::law_match_agrees(audio.last(), left);
        let m = names::match_index(audio.last(), left)->0;
        assert(before.lrc.contains(before.lrc[m]));
        let i = choose|i: int| 0 <= i < lrc.len() && lrc[i] == before.lrc[m];
        assert(left[m] == lrc[i].name);
        assert(lrc[i].path == r.from);
        assert(audio[audio.len() - 1] == r.audio);
        names::law_sidecar_stands_beside(r.audio);
        paths::law_with_extension_reads_back(r.audio, names::lrc_extension());
        if vstd::utf8::valid_utf8(paths::stem_of(r.audio)->0) {
            names::law_written_lyrics_are_recognised(r.audio);
        }
    }
}

proof fn lemma_left_lyrics_were_there(audio: Seq<Seq<u8>>, lrc: Seq<LyricsFileView>)
    ensures
        forall|f: LyricsFileView| #[trigger]
            reconcile_all(audio, lrc).lrc.contains(f) ==> lrc.contains(f),
    decreases audio.len(),
{
    if audio.len() > 0 {
        let before = reconcile_all(audio.drop_last(), lrc);
        let after = reconcile_all(audio, lrc);
        lemma_left_lyrics_were_there(audio.drop_last(), lrc);
        let left = grouping::lyrics_names(before.lrc);
        match names::match_index(audio.last(), left) {
            Some(i) => {
                names::law_match_agrees(audio.last(), left);
                assert forall|f: LyricsFileView| #[trigger] after.lrc.contains(
                    f,
                ) implies lrc.contains(f) by {
                    let k = choose|k: int| 0 <= k < after.lrc.len() && after.lrc[k] == f;
                    let from = if k < i {
                        k
                    } else {
                        k + 1
                    };
                    assert(before.lrc[from] == f);
                    assert(before.lrc.contains(f));
                }
            },
            None => {},
        }
    }
}

proof fn lemma_unmatched_were_there(
    audio: Seq<Seq<u8>>,
    wanted: Seq<Seq<char>>,
    lrc: Seq<LyricsFileView>,
)
    ensures
        forall|f: LyricsFileView| #[trigger]
            match_all(audio, wanted, lrc).lrc.contains(f) ==> lrc.contains(f),
    decreases audio.len(),
{
    if audio.len() > 0 {
        let before = match_all(audio.drop_last(), wanted, lrc);
        let after = match_all(audio, wanted, lrc);
        lemma_unmatched_were_there(audio.drop_last(), wanted, lrc);
        let left = grouping::lyrics_names(before.lrc);
        let name = wanted[audio.len() - 1];
        names::lemma_first_index(left, name);
        match names::first_index(left, name) {
            Some(i) => {
                assert forall|f: LyricsFileView| #[trigger] after.lrc.contains(
                    f,
                ) implies lrc.contains(f) by {
                    let k = choose|k: int| 0 <= k < after.lrc.len() && after.lrc[k] == f;
                    let from = if k < i {
                        k
                    } else {
                        k + 1
                    };
                    assert(before.lrc[from] == f);
                    assert(before.lrc.contains(f));
                }
            },
            None => {},
        }
    }
}

proof fn lemma_matched_pair_fits(audio: Seq<Seq<u8>>, lrc: Seq<LyricsFileView>, k: int)
    requires
        0 <= k < match_all(audio, wanted_names(audio), lrc).matched.len(),
    ensures
        ({
            let pair = match_all(audio, wanted_names(audio), lrc).matched[k];
            &&& audio.contains(pair.audio)
            &&& exists|i: int|
                0 <= i < lrc.len() && (#[trigger] lrc[i]).path == pair.lrc && lrc[i].name
                    == names::sidecar_name_of(pair.audio)
        }),
    decreases audio.len(),
{
    let fewer = audio.drop_last();
    let before = match_all(fewer, wanted_names(fewer), lrc);
    let after = match_all(audio, wanted_names(audio), lrc);
    let pair = after.matched[k];
    lemma_wanted_by_index(fewer, wanted_names(fewer), wanted_names(audio), lrc);
    lemma_unmatched_were_there(fewer, wanted_names(fewer), lrc);
    if k < before.matched.len() {
        lemma_matched_pair_fits(fewer, lrc, k);
        let j = choose|j: int| 0 <= j < fewer.len() && fewer[j] == pair.audio;
        assert(audio[j] == pair.audio);
    } else {
        let left = grouping::lyrics_names(before.lrc);
        let name = names::sidecar_name_of(audio.last());
        names::lemma_first_index(left, name);
        let m = names::first_index(left, name)->0;
        assert(left[m] == before.lrc[m].name);
        assert(before.lrc.contains(before.lrc[m]));
        let i = choose|i: int| 0 <= i < lrc.len() && lrc[i] == before.lrc[m];
        assert(lrc[i].path == pair.lrc);
        assert(audio[audio.len() - 1] == pair.audio);
    }
}

/// What a scan matches belongs together: an audio file and a lyrics file of the library, in one
/// directory, the lyrics under the name that is the audio file's stem with `.lrc`.
pub proof fn law_matched_pairs_belong_together(
    plans: Seq<DirectoryPlanView>,
    files: Seq<Seq<u8>>,
    action: OrphanAction,
    i: int,
    k: int,
)
    requires
        is_scan_plan(plans, files, action),
        0 <= i < plans.len(),
        0 <= k < plans[i].matched.len(),
    ensures
        ({
            let pair = plans[i].matched[k];
            &&& files.contains(pair.audio) && names::is_audio(pair.audio)
            &&& files.contains(pair.lrc) && names::is_lyrics(pair.lrc)
            &&& paths::parent_of(pair.audio) is Some && paths::parent_of(pair.lrc) is Some
            &&& paths::plain(paths::parent_of(pair.audio)->0) == paths::plain(
                paths::parent_of(pair.lrc)->0,
            )
            &&& names::name_text(pair.lrc) == names::sidecar_name_of(pair.audio)
        }),
{
    let groups = choose|groups: Seq<DirectoryView>| #[trigger]
        grouping::is_grouping(groups, files) && plans == groups.map_values(
            |g: DirectoryView| plan_for(g, action),
        );
    let group = groups[i];
    let dir = grouping::key_of(group);
    assert(plans[i] == plan_for(group, action));
    assert(group == grouping::group_of(files, dir));
    lemma_matched_pair_fits(group.audio, group.lrc, k);
    let pair = plans[i].matched[k];
    let a = choose|a: int| 0 <= a < group.audio.len() && group.audio[a] == pair.audio;
    let l = choose|l: int|
        0 <= l < group.lrc.len() && (#[trigger] group.lrc[l]).path == pair.lrc && group.lrc[l].name
            == names::sidecar_name_of(pair.audio);
    grouping::law_groups_hold_their_own(files, dir, a);
    grouping::law_groups_hold_their_own(files, dir, l);
}

/// Renames of a scan are of files of the library, and give an audio file the lyrics file that
/// belongs beside it.
pub proof fn law_renames_of_a_scan(
    plans: Seq<DirectoryPlanView>,
    files: Seq<Seq<u8>>,
    action: OrphanAction,
    i: int,
    k: int,
)
    requires
        is_scan_plan(plans, files, action),
        0 <= i < plans.len(),
        0 <= k < plans[i].renames.len(),
    ensures
        ({
            let r = plans[i].renames[k];
            &&& action == OrphanAction::Reconcile
            &&& files.contains(r.audio) && names::is_audio(r.audio)
            &&& files.contains(r.from) && names::is_lyrics(r.from)
            &&& names::is_lyrics(r.to)
            &&& paths::parent_of(r.to) == paths::parent_of(r.audio)
            &&& paths::stem_of(r.to) == paths::stem_of(r.audio)
        }),
{
    let groups = choose|groups: Seq<DirectoryView>| #[trigger]
        grouping::is_grouping(groups, files) && plans == groups.map_values(
            |g: DirectoryView| plan_for(g, action),
        );
    let group = groups[i];
    let dir = grouping::key_of(group);
    let m = first_round(group);
    assert(plans[i] == plan_for(group, action));
    assert(group == grouping::group_of(files, dir));
    let r = plans[i].renames[k];
    assert forall|j: int| 0 <= j < m.missing.len() implies paths::name_of(
        #[trigger] m.missing[j],
    ) is Some && group.audio.contains(m.missing[j]) by {
        lemma_missing_was_there(group.audio, wanted_names(group.audio), group.lrc, j);
        let a = choose|a: int| 0 <= a < group.audio.len() && group.audio[a] == m.missing[j];
        grouping::law_groups_hold_their_own(files, dir, a);
    }
    law_renames_make_sidecars(m.missing, m.lrc, k);
    let j = choose|j: int| 0 <= j < m.missing.len() && m.missing[j] == r.audio;
    assert(group.audio.contains(m.missing[j]));
    let a = choose|a: int| 0 <= a < group.audio.len() && group.audio[a] == r.audio;
    grouping::law_groups_hold_their_own(files, dir, a);
    lemma_unmatched_were_there(group.audio, wanted_names(group.audio), group.lrc);
    let n = choose|n: int| 0 <= n < m.lrc.len() && (#[trigger] m.lrc[n]).path == r.from;
    assert(m.lrc.contains(m.lrc[n]));
    let l = choose|l: int| 0 <= l < group.lrc.len() && group.lrc[l] == m.lrc[n];
    grouping::law_groups_hold_their_own(files, dir, l);
}

proof fn lemma_missing_was_there(
    audio: Seq<Seq<u8>>,
    wanted: Seq<Seq<char>>,
    lrc: Seq<LyricsFileView>,
    k: int,
)
    requires
        0 <= k < match_all(audio, wanted, lrc).missing.len(),
    ensures
        audio.contains(match_all(audio, wanted, lrc).missing[k]),
    decreases audio.len(),
{
    let fewer = audio.drop_last();
    let before = match_all(fewer, wanted, lrc);
    let file = match_all(audio, wanted, lrc).missing[k];
    if k < before.missing.len() {
        lemma_missing_was_there(fewer, wanted, lrc, k);
        let j = choose|j: int| 0 <= j < fewer.len() && fewer[j] == file;
        assert(audio[j] == file);
    } else {
        assert(audio[audio.len() - 1] == file);
    }
}

/// Matching by name keeps the order of the audio files, both of those with lyrics and of those
/// without, and takes one lyrics file for each that has some.
pub proof fn law_matching_keeps_count_and_order(
    audio: Seq<Seq<u8>>,
    wanted: Seq<Seq<char>>,
    lrc: Seq<LyricsFileView>,
)
    ensures
        ({
            let m = match_all(audio, wanted, lrc);
            &&& is_part_of(m.missing, audio)
            &&& is_part_of(pair_audio(m.matched), audio)
            &&& m.missing.len() + m.matched.len() == audio.len()
            &&& m.lrc.len() + m.matched.len() == lrc.len()
        }),
    decreases audio.len(),
{
    if audio.len() > 0 {
        let before = match_all(audio.drop_last(), wanted, lrc);
        let after = match_all(audio, wanted, lrc);
        let left = grouping::lyrics_names(before.lrc);
        law_matching_keeps_count_and_order(audio.drop_last(), wanted, lrc);
        names::lemma_first_index(left, wanted[audio.len() - 1]);
        match names::first_index(left, wanted[audio.len() - 1]) {
            Some(i) => {
                assert(pair_audio(after.matched).drop_last() =~= pair_audio(before.matched));
            },
            None => {
                assert(after.missing.drop_last() =~= before.missing);
            },
        }
    }
}

proof fn lemma_matched_stays_matched(
    audio: Seq<Seq<u8>>,
    lrc: Seq<LyricsFileView>,
    n: int,
    pair: PairView,
)
    requires
        0 <= n <= audio.len(),
        match_all(audio.take(n), wanted_names(audio.take(n)), lrc).matched.contains(pair),
    ensures
        match_all(audio, wanted_names(audio), lrc).matched.contains(pair),
    decreases audio.len(),
{
    if n < audio.len() {
        let fewer = audio.drop_last();
        assert(fewer.take(n) =~= audio.take(n));
        lemma_matched_stays_matched(fewer, lrc, n, pair);
        lemma_wanted_by_index(fewer, wanted_names(fewer), wanted_names(audio), lrc);
        let before = match_all(fewer, wanted_names(fewer), lrc);
        let after = match_all(audio, wanted_names(audio), lrc);
        let k = choose|k: int| 0 <= k < before.matched.len() && before.matched[k] == pair;
        assert(after.matched[k] == pair);
    } else {
        assert(audio.take(n) =~= audio);
    }
}

/// Where several audio files of a directory want lyrics of one name, the first gets them.
pub proof fn law_first_audio_file_gets_the_lyrics(
    files: DirectoryView,
    action: OrphanAction,
    k: int,
    m: int,
)
    requires
        0 <= k < files.audio.len(),
        forall|j: int|
            0 <= j < k ==> names::sidecar_name_of(#[trigger] files.audio[j])
                != names::sidecar_name_of(files.audio[k]),
        0 <= m < files.lrc.len(),
        files.lrc[m].name == names::sidecar_name_of(files.audio[k]),
        forall|j: int|
            0 <= j < m ==> (#[trigger] files.lrc[j]).name != names::sidecar_name_of(files.audio[k]),
    ensures
        plan_for(files, action).matched.contains(
            PairView { audio: files.audio[k], lrc: files.lrc[m].path },
        ),
{
    let file = files.audio[k];
    let name = names::sidecar_name_of(file);
    let head = files.audio.take(k + 1);
    let all = grouping::lyrics_names(files.lrc);
    assert(all[m] == name);
    assert forall|j: int| 0 <= j < m implies all[j] != name by {
        assert(all[j] == files.lrc[j].name);
    }
    names::lemma_is_first_index(all, name, m);
    assert forall|j: int|
        0 <= j < head.len() && names::sidecar_name_of(#[trigger] head[j]) == name implies head[j]
        == file by {
        assert(head[j] == files.audio[j]);
    }
    lemma_wanted_lyrics_are_matched(head, files.lrc, file, m);
    assert(names::sidecar_name_of(head[k]) == name);
    lemma_matched_stays_matched(
        files.audio,
        files.lrc,
        k + 1,
        PairView { audio: file, lrc: files.lrc[m].path },
    );
}

/// The lyrics files of moves.
pub open spec fn moved_from(moves: Seq<MoveView>) -> Seq<Seq<u8>> {
    moves.map_values(|m: MoveView| m.from)
}

/// A move takes one of some lyrics files, under its name, into the directory `aside`.
pub open spec fn is_moved_aside(
    m: MoveView,
    lrc: Seq<LyricsFileView>,
    aside: Seq<u8>,
) -> bool {
    exists|i: int|
        0 <= i < lrc.len() && (#[trigger] lrc[i]).path == m.from && m.to == paths::joined(
            aside,
            vstd::utf8::encode_utf8(lrc[i].name),
        )
}

/// Every lyrics file that goes with no audio file is counted. With `delete` all of them are deleted,
/// and with `quarantine` all of them are moved, each under its name into one directory beside them,
/// which is made first.
pub proof fn law_unmatched_lyrics_go_where_they_should(files: DirectoryView, action: OrphanAction)
    ensures
        ({
            let plan = plan_for(files, action);
            let all = grouping::lyrics_paths(files.lrc).to_multiset();
            let matched = pair_lrc(plan.matched).to_multiset();
            let aside = paths::joined(files.dir, vstd::utf8::encode_utf8(".lrcget-orphans"@));
            &&& plan.orphans.count + plan.matched.len() + plan.renames.len() == files.lrc.len()
            &&& action == OrphanAction::Delete ==> matched.add(plan.orphans.deletes.to_multiset())
                == all
            &&& action == OrphanAction::Quarantine ==> {
                &&& matched.add(moved_from(plan.orphans.moves).to_multiset()) == all
                &&& plan.orphans.create_dir == Some(aside)
                &&& forall|k: int|
                    0 <= k < plan.orphans.moves.len() ==> is_moved_aside(
                        #[trigger] plan.orphans.moves[k],
                        files.lrc,
                        aside,
                    )
            }
        }),
{
    broadcast use vstd::seq_lib::group_to_multiset_ensures;

    let plan = plan_for(files, action);
    let m = first_round(files);
    let left = second_round(files, action).lrc;
    law_no_lyrics_file_is_lost(files, action);
    law_matching_keeps_count_and_order(files.audio, wanted_names(files.audio), files.lrc);
    law_reconciling_keeps_count_and_order(m.missing, m.lrc);
    lemma_unmatched_were_there(files.audio, wanted_names(files.audio), files.lrc);
    if action != OrphanAction::Reconcile {
        assert(reconciled_from(plan.renames) =~= Seq::<Seq<u8>>::empty());
        let matched = pair_lrc(plan.matched).to_multiset();
        assert(matched.add(reconciled_from(plan.renames).to_multiset()) =~= matched);
    }
    assert(plan.orphans.count + plan.matched.len() + plan.renames.len() == files.lrc.len());
    if action == OrphanAction::Delete {
        assert(plan.orphans.deletes == grouping::lyrics_paths(left));
        assert(pair_lrc(plan.matched).to_multiset().add(plan.orphans.deletes.to_multiset())
            =~= grouping::lyrics_paths(files.lrc).to_multiset());
    }
    if action == OrphanAction::Quarantine {
        assert(moved_from(plan.orphans.moves) =~= grouping::lyrics_paths(left));
        assert(pair_lrc(plan.matched).to_multiset().add(
            moved_from(plan.orphans.moves).to_multiset(),
        ) =~= grouping::lyrics_paths(files.lrc).to_multiset());
        assert(plan.orphans.create_dir == Some(
            paths::joined(files.dir, vstd::utf8::encode_utf8(".lrcget-orphans"@)),
        ));
        let aside = paths::joined(files.dir, vstd::utf8::encode_utf8(".lrcget-orphans"@));
        assert forall|k: int| 0 <= k < plan.orphans.moves.len() implies is_moved_aside(
            #[trigger] plan.orphans.moves[k],
            files.lrc,
            aside,
        ) by {
            assert(left.contains(left[k]));
            let i = choose|i: int| 0 <= i < files.lrc.len() && files.lrc[i] == left[k];
            assert(files.lrc[i].path == plan.orphans.moves[k].from);
        }
    }
}

/// A job of a scan is for an audio file that misses lyrics, under its key, which does not count as
/// not found, and for the lyrics file beside it.
pub proof fn law_jobs_are_for_the_missing(
    missing: Seq<Seq<u8>>,
    music_dir: Seq<u8>,
    cache: db::CacheView,
    k: int,
)
    requires
        0 <= k < jobs_for(missing, music_dir, cache).len(),
        forall|j: int| 0 <= j < missing.len() ==> paths::name_of(#[trigger] missing[j]) is Some,
    ensures
        ({
            let job = jobs_for(missing, music_dir, cache)[k];
            &&& missing.contains(job.audio_path)
            &&& job.rel_path == paths::readable(db::relative(job.audio_path, music_dir))
            &&& !cache.not_found.contains(job.rel_path)
            &&& paths::parent_of(job.lrc_path) == paths::parent_of(job.audio_path)
            &&& paths::stem_of(job.lrc_path) == paths::stem_of(job.audio_path)
            &&& paths::extension_of(job.lrc_path) == Some(seq![108u8, 114u8, 99u8])
            &&& job.source == JobSource::Scan
        }),
{
    broadcast use vstd::seq_lib::group_filter_ensures;

    let wanted = |a: Seq<u8>| !cache.not_found.contains(key_of(a, music_dir));
    let kept = missing.filter(wanted);
    let job = jobs_for(missing, music_dir, cache)[k];
    assert(job == job_for(kept[k], music_dir, JobSource::Scan));
    assert(wanted(kept[k]));
    assert(missing.filter(wanted).contains(kept[k]));
    missing.lemma_filter_contains_rev(wanted, kept[k]);
    let j = choose|j: int| 0 <= j < missing.len() && missing[j] == kept[k];
    assert(paths::name_of(missing[j]) is Some);
    names::law_sidecar_stands_beside(kept[k]);
    paths::law_with_extension_reads_back(kept[k], names::lrc_extension());
}

proof fn lemma_filtered_is_part(s: Seq<Seq<u8>>, wanted: spec_fn(Seq<u8>) -> bool)
    ensures
        is_part_of(s.filter(wanted), s),
    decreases s.len(),
{
    reveal(Seq::filter);
    if s.len() > 0 {
        lemma_filtered_is_part(s.drop_last(), wanted);
        if wanted(s.last()) {
            assert(s.filter(wanted).drop_last() =~= s.drop_last().filter(wanted));
        }
    }
}

/// Jobs come in the order of the files that they are for.
pub proof fn law_jobs_keep_the_order(
    missing: Seq<Seq<u8>>,
    music_dir: Seq<u8>,
    cache: db::CacheView,
)
    ensures
        is_part_of(
            jobs_for(missing, music_dir, cache).map_values(|j: JobView| j.audio_path),
            missing,
        ),
{
    let wanted = |a: Seq<u8>| !cache.not_found.contains(key_of(a, music_dir));
    lemma_filtered_is_part(missing, wanted);
    assert(jobs_for(missing, music_dir, cache).map_values(|j: JobView| j.audio_path)
        =~= missing.filter(wanted));
}

/// The key of an audio file below the music directory is the rest of its path, as text.
pub proof fn law_key_spelled_out(music_dir: Seq<u8>, rest: Seq<u8>)
    requires
        music_dir.len() > 0,
        rest.len() > 0,
        rest.first() != paths::SLASH,
        rest.first() != paths::DOT,
    ensures
        vstd::utf8::valid_utf8(rest) ==> key_of(paths::joined(music_dir, rest), music_dir)
            == vstd::utf8::decode_utf8(rest),
        !vstd::utf8::valid_utf8(rest) ==> key_of(paths::joined(music_dir, rest), music_dir)
            == paths::lossy_text(rest),
{
    assert(db::undotted(rest) == rest);
    db::law_key_is_the_path_below_the_directory(music_dir, rest);
}

/// What is matched by name does not depend on what is done with the other lyrics; nor does what is
/// missing, unless they are reconciled.
pub proof fn law_action_is_for_the_unmatched(
    files: DirectoryView,
    one: OrphanAction,
    other: OrphanAction,
)
    ensures
        plan_for(files, one).matched == plan_for(files, other).matched,
        one != OrphanAction::Reconcile && other != OrphanAction::Reconcile ==> plan_for(
            files,
            one,
        ).missing == plan_for(files, other).missing && plan_for(files, one).orphans.count
            == plan_for(files, other).orphans.count,
{
}

/// A group has the audio files of its directory in the order in which they came.
pub proof fn law_groups_keep_the_order(files: Seq<Seq<u8>>, dir: Seq<u8>)
    ensures
        is_part_of(grouping::group_of(files, dir).audio, files),
{
    let sung = |f: Seq<u8>| grouping::is_in(f, dir) && names::is_audio(f);
    lemma_filtered_is_part(files, sung);
    assert(grouping::group_of(files, dir).audio == files.filter(sung));
}

/// The plans of a scan are those of the directories that hold a file, one for each.
pub proof fn law_one_plan_for_each_directory(
    plans: Seq<DirectoryPlanView>,
    files: Seq<Seq<u8>>,
    action: OrphanAction,
    dir: Seq<u8>,
)
    requires
        is_scan_plan(plans, files, action),
        grouping::has_file_in(files, dir),
    ensures
        exists|i: int|
            0 <= i < plans.len() && #[trigger] plans[i] == plan_for(
                grouping::group_of(files, dir),
                action,
            ),
{
    let groups = choose|groups: Seq<DirectoryView>| #[trigger]
        grouping::is_grouping(groups, files) && plans == groups.map_values(
            |g: DirectoryView| plan_for(g, action),
        );
    let i = choose|i: int| 0 <= i < groups.len() && grouping::key_of(#[trigger] groups[i]) == dir;
    assert(plans[i] == plan_for(groups[i], action));
}

} // verus!
