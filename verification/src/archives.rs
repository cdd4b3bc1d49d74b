//! Whether a game's archive outlives its unpacking, and what a game takes on
//! disk.

use crate::collections::{collection_rel_game_dir, collection_rel_zip};
use crate::fspath::join_path;
use crate::install::source_text;
use crate::layout::capped_sum;
use crate::library::archive_name_of;
use crate::models::Game;
use crate::text;
use crate::text::{
    borrow, cat, cat3, chars_of, copy, decimal_of, is_one_of, rcut_once, same, string_of,
};
use vstd::prelude::*;

verus! {

/// The setting that says whether archives are kept.
pub const KEEP_ARCHIVES_KEY: &'static str = "keep_archives";

/// Whether archives are kept. They are unless the setting is `0`.
pub fn keep_archives(stored: Option<&str>) -> (r: bool)
    ensures
        r == (text::opt_ref(stored) != Some("0"@)),
{
    match stored {
        Some(v) => !same(v, "0"),
        None => true,
    }
}

/// Where the list of a dropped archive's files is kept.
pub open spec fn manifest_place(data_dir: Seq<char>, source: Seq<char>, index: nat) -> Seq<char> {
    crate::fspath::joined(
        crate::fspath::joined(crate::fspath::joined(data_dir, "content"@), "pristine"@),
        source + "_"@ + text::decimal(index) + ".idx"@,
    )
}

/// Where the list of a dropped archive's files is kept.
pub fn manifest_path(data_dir: &str, source: &str, file_index: usize) -> (r: String)
    ensures
        r@ == manifest_place(data_dir@, source@, file_index as nat),
{
    let content = join_path(data_dir, "content");
    let dir = join_path(content.as_str(), "pristine");
    let number = decimal_of(file_index as u64);
    let stem = cat3(source, "_", number.as_str());
    join_path(dir.as_str(), cat(stem.as_str(), ".idx").as_str())
}

/// Where a game's archive lies.
pub open spec fn zip_place(root: Seq<char>, game: Game) -> Seq<char> {
    crate::fspath::joined(
        root,
        crate::collections::rel_zip(
            crate::install::source_of(game),
            crate::library::archive_name(game),
            text::opt(game.application_path),
        ),
    )
}

/// Where a game's archive lies.
pub fn zip_path_of(torrent_root: &str, game: &Game) -> (r: String)
    ensures
        r@ == zip_place(torrent_root@, *game),
{
    let source = source_text(game);
    let name = archive_name_of(game);
    let rel = collection_rel_zip(source.as_str(), name.as_str(), borrow(&game.application_path));
    join_path(torrent_root, rel.as_str())
}

/// Where the list of a game's files is looked for once its archive is gone.
pub open spec fn manifest_of(data_dir: Seq<char>, game: Game) -> Option<Seq<char>> {
    match game.game_torrent_index {
        Some(i) => if 0 <= i <= usize::MAX {
            Some(manifest_place(data_dir, crate::install::source_of(game), i as nat))
        } else {
            None
        },
        None => None,
    }
}

/// Where to read which files a game came with.
pub struct PristinePlaces {
    /// The game's archive.
    pub zip: String,
    /// The list that was kept when the archive was dropped.
    pub manifest: Option<String>,
}

/// Where to read which files a game came with: its archive, or else the list that
/// was kept of it.
pub fn pristine_places(data_dir: &str, torrent_root: &str, game: &Game) -> (r: PristinePlaces)
    ensures
        r.zip@ == zip_place(torrent_root@, *game),
        text::opt(r.manifest) == manifest_of(data_dir@, *game),
{
    let zip = zip_path_of(torrent_root, game);
    let source = source_text(game);
    let manifest = match game.game_torrent_index {
        Some(i) => if i >= 0 && i as u64 <= usize::MAX as u64 {
            Some(manifest_path(data_dir, source.as_str(), i as usize))
        } else {
            None
        },
        None => None,
    };
    PristinePlaces { zip, manifest }
}

/// What the files that a game came with are read from.
#[derive(Clone, Copy, PartialEq, Eq, Structural)]
pub enum PristineSource {
    Archive,
    Manifest,
}

/// What the files that a game came with are read from: the archive while it
/// reads, then the list; nothing where neither does.
pub fn pristine_for(archive_reads: bool, manifest_reads: bool) -> (r: Option<PristineSource>)
    ensures
        r == (if archive_reads {
            Some(PristineSource::Archive)
        } else if manifest_reads {
            Some(PristineSource::Manifest)
        } else {
            None
        }),
{
    if archive_reads {
        Some(PristineSource::Archive)
    } else if manifest_reads {
        Some(PristineSource::Manifest)
    } else {
        None
    }
}

/// Why an archive was not dropped.
pub enum UnlinkFailure {
    NotAnArchive,
    /// The list of its files could not be written.
    Manifest(String),
    /// It could not be removed.
    Remove(String),
}

/// What is said of an archive that was not dropped.
pub open spec fn unlink_text(zip: Seq<char>, manifest: Seq<char>, failure: UnlinkFailure) -> Seq<
    char,
> {
    match failure {
        UnlinkFailure::NotAnArchive => zip + " is not an archive"@,
        UnlinkFailure::Manifest(e) => "cannot write "@ + manifest + ": "@ + e@,
        UnlinkFailure::Remove(e) => "cannot remove "@ + zip + ": "@ + e@,
    }
}

/// What to say of an archive that was not dropped.
pub fn unlink_message(zip: &str, manifest: &str, failure: &UnlinkFailure) -> (r: String)
    ensures
        r@ == unlink_text(zip@, manifest@, *failure),
{
    match failure {
        UnlinkFailure::NotAnArchive => cat(zip, " is not an archive"),
        UnlinkFailure::Manifest(e) => {
            let head = cat3("cannot write ", manifest, ": ");
            cat(head.as_str(), e.as_str())
        },
        UnlinkFailure::Remove(e) => {
            let head = cat3("cannot remove ", zip, ": ");
            cat(head.as_str(), e.as_str())
        },
    }
}

/// How far the dropping of an archive has come.
pub enum UnlinkState {
    /// Nothing was done yet. The archive can be read, or cannot.
    Start { reads: bool },
    /// The list of its files was written, or failed to be.
    Listed { failure: Option<String> },
    /// The archive was removed, or failed to be.
    Removed { failure: Option<String> },
}

/// What to do next about an archive that is to be dropped.
pub enum UnlinkStep {
    /// Write the list of its files.
    List,
    Remove,
    Done,
    /// The archive stays.
    Fail(String),
}

/// What is wrong, if anything is.
pub open spec fn unlink_fault(state: UnlinkState) -> Option<UnlinkFailure> {
    match state {
        UnlinkState::Start { reads } => if reads {
            None
        } else {
            Some(UnlinkFailure::NotAnArchive)
        },
        UnlinkState::Listed { failure } => match failure {
            Some(e) => Some(UnlinkFailure::Manifest(e)),
            None => None,
        },
        UnlinkState::Removed { failure } => match failure {
            Some(e) => Some(UnlinkFailure::Remove(e)),
            None => None,
        },
    }
}

/// What to do next about an archive that is to be dropped: the list of its files is
/// written first, and only then is the archive removed.
pub fn unlink_archive(zip: &str, manifest: &str, state: &UnlinkState) -> (r: UnlinkStep)
    ensures
        match (unlink_fault(*state), r) {
            (Some(fault), UnlinkStep::Fail(message)) => message@ == unlink_text(
                zip@,
                manifest@,
                fault,
            ),
            (None, UnlinkStep::List) => *state is Start,
            (None, UnlinkStep::Remove) => *state is Listed,
            (None, UnlinkStep::Done) => *state is Removed,
            _ => false,
        },
{
    match state {
        UnlinkState::Start { reads } => if *reads {
            UnlinkStep::List
        } else {
            UnlinkStep::Fail(unlink_message(zip, manifest, &UnlinkFailure::NotAnArchive))
        },
        UnlinkState::Listed { failure } => match failure {
            Some(e) => UnlinkStep::Fail(
                unlink_message(zip, manifest, &UnlinkFailure::Manifest(copy(e.as_str()))),
            ),
            None => UnlinkStep::Remove,
        },
        UnlinkState::Removed { failure } => match failure {
            Some(e) => UnlinkStep::Fail(
                unlink_message(zip, manifest, &UnlinkFailure::Remove(copy(e.as_str()))),
            ),
            None => UnlinkStep::Done,
        },
    }
}

// ── What archives take ───────────────────────────────────────────────────────

/// How many archives there are, and what they take.
#[derive(Clone, Copy)]
pub struct ArchiveUsage {
    pub count: usize,
    pub bytes: u64,
}

/// A file on disk that opens as an archive, and the space that it takes.
pub struct RealArchive {
    pub path: String,
    pub bytes: u64,
}

/// The archive of an unpacked game.
pub struct InstalledArchive {
    pub id: i64,
    pub source: String,
    pub file_index: usize,
    pub zip: String,
    pub bytes: u64,
}

/// The view of such an archive.
pub struct InstalledArchiveView {
    pub id: i64,
    pub source: Seq<char>,
    pub file_index: usize,
    pub zip: Seq<char>,
    pub bytes: u64,
}

impl View for InstalledArchive {
    type V = InstalledArchiveView;

    open spec fn view(&self) -> InstalledArchiveView {
        InstalledArchiveView {
            id: self.id,
            source: self.source@,
            file_index: self.file_index,
            zip: self.zip@,
            bytes: self.bytes,
        }
    }
}

/// The views of archives.
pub open spec fn archive_views(v: Seq<InstalledArchive>) -> Seq<InstalledArchiveView> {
    Seq::new(v.len(), |i: int| v[i]@)
}

/// The first archive at this path, at `i` or later.
pub open spec fn real_from(zips: Seq<RealArchive>, path: Seq<char>, i: int) -> Option<u64>
    decreases zips.len() - i,
{
    if i >= zips.len() {
        None
    } else if zips[i].path@ == path {
        Some(zips[i].bytes)
    } else {
        real_from(zips, path, i + 1)
    }
}

/// The space that a file takes, if it opens as an archive.
pub fn real_archive_bytes(zips: &Vec<RealArchive>, path: &str) -> (r: Option<u64>)
    ensures
        r == real_from(zips@, path@, 0),
{
    let mut i: usize = 0;
    while i < zips.len()
        invariant
            i <= zips@.len(),
            real_from(zips@, path@, i as int) == real_from(zips@, path@, 0),
        decreases zips@.len() - i,
    {
        if same(zips[i].path.as_str(), path) {
            return Some(zips[i].bytes);
        }
        i += 1;
    }
    None
}

/// Where a game is unpacked.
pub open spec fn game_place(root: Seq<char>, game: Game) -> Option<Seq<char>> {
    match game.shortcode {
        Some(shortcode) => Some(
            crate::fspath::joined(
                root,
                crate::collections::rel_game_dir(
                    crate::install::source_of(game),
                    shortcode@,
                    text::opt(game.application_path),
                ),
            ),
        ),
        None => None,
    }
}

/// The archive of one game, where the game is installed, its directory is there and its
/// archive is on disk.
pub open spec fn archive_of(
    game: Game,
    root: Seq<char>,
    dirs: Seq<Seq<char>>,
    zips: Seq<RealArchive>,
) -> Option<InstalledArchiveView> {
    match (game.game_torrent_index, game_place(root, game)) {
        (Some(index), Some(dir)) => match real_from(zips, zip_place(root, game), 0) {
            Some(bytes) => if game.installed && dirs.contains(dir) {
                Some(
                    InstalledArchiveView {
                        id: game.id,
                        source: crate::install::source_of(game),
                        file_index: index as usize,
                        zip: zip_place(root, game),
                        bytes,
                    },
                )
            } else {
                None
            },
            None => None,
        },
        _ => None,
    }
}

/// The archives of the first `n` games.
pub open spec fn archives_of(
    games: Seq<Game>,
    root: Seq<char>,
    dirs: Seq<Seq<char>>,
    zips: Seq<RealArchive>,
    n: int,
) -> Seq<InstalledArchiveView>
    decreases n,
{
    if n <= 0 {
        Seq::<InstalledArchiveView>::empty()
    } else {
        match archive_of(games[n - 1], root, dirs, zips) {
            Some(a) => archives_of(games, root, dirs, zips, n - 1).push(a),
            None => archives_of(games, root, dirs, zips, n - 1),
        }
    }
}

fn find_archive(game: &Game, root: &str, dirs: &Vec<String>, zips: &Vec<RealArchive>) -> (r: Option<
    InstalledArchive,
>)
    ensures
        match r {
            Some(a) => archive_of(*game, root@, text::texts(dirs@), zips@) == Some(a@),
            None => archive_of(*game, root@, text::texts(dirs@), zips@) is None,
        },
{
    let source = source_text(game);
    match (game.game_torrent_index, &game.shortcode) {
        (Some(index), Some(shortcode)) => {
            let rel = collection_rel_game_dir(
                source.as_str(),
                shortcode.as_str(),
                borrow(&game.application_path),
            );
            let dir = join_path(root, rel.as_str());
            if !game.installed || !is_one_of(dirs, dir.as_str()) {
                return None;
            }
            let zip = zip_path_of(root, game);
            match real_archive_bytes(zips, zip.as_str()) {
                Some(bytes) => Some(
                    InstalledArchive { id: game.id, source, file_index: index as usize, zip, bytes },
                ),
                None => None,
            }
        },
        _ => None,
    }
}

/// The archives of games that are installed and unpacked. `dirs` lists the directories on disk,
/// and `zips` the files that open as archives: a placeholder is none.
pub fn installed_archives(
    games: &Vec<Game>,
    torrent_root: &str,
    dirs: &Vec<String>,
    zips: &Vec<RealArchive>,
) -> (r: Vec<InstalledArchive>)
    ensures
        archive_views(r@) == archives_of(
            games@,
            torrent_root@,
            text::texts(dirs@),
            zips@,
            games@.len() as int,
        ),
{
    let mut out: Vec<InstalledArchive> = Vec::new();
    let mut i: usize = 0;
    assert(archive_views(out@) =~= archives_of(games@, torrent_root@, text::texts(dirs@), zips@, 0));
    while i < games.len()
        invariant
            i <= games@.len(),
            archive_views(out@) == archives_of(
                games@,
                torrent_root@,
                text::texts(dirs@),
                zips@,
                i as int,
            ),
        decreases games@.len() - i,
    {
        if let Some(a) = find_archive(&games[i], torrent_root, dirs, zips) {
            let ghost done = archive_views(out@);
            let ghost new = a@;
            out.push(a);
            assert(archive_views(out@) =~= done.push(new));
        }
        i += 1;
    }
    out
}

/// What the first `n` archives take.
pub open spec fn archive_bytes(list: Seq<InstalledArchive>, n: int) -> nat
    decreases n,
{
    if n <= 0 {
        0
    } else {
        archive_bytes(list, n - 1) + list[n - 1].bytes as nat
    }
}

/// How many archives there are, and what they take, or the largest number that
/// fits.
pub fn archive_usage(list: &Vec<InstalledArchive>) -> (r: ArchiveUsage)
    ensures
        r.count == list@.len(),
        r.bytes == crate::layout::capped(archive_bytes(list@, list@.len() as int)),
{
    let mut bytes: u64 = 0;
    let mut i: usize = 0;
    while i < list.len()
        invariant
            i <= list@.len(),
            bytes == crate::layout::capped(archive_bytes(list@, i as int)),
        decreases list@.len() - i,
    {
        bytes = capped_sum(bytes, list[i].bytes);
        i += 1;
    }
    ArchiveUsage { count: list.len(), bytes }
}

// ── Removing archives ────────────────────────────────────────────────────────

/// Places of the first `n` archives whose torrent is in the session and whose game is
/// not busy.
pub open spec fn removable_of(
    list: Seq<InstalledArchive>,
    managers: Seq<Seq<char>>,
    busy: Seq<i64>,
    n: int,
) -> Seq<usize>
    decreases n,
{
    if n <= 0 {
        Seq::<usize>::empty()
    } else if managers.contains(list[n - 1].source@) && !busy.contains(list[n - 1].id) {
        removable_of(list, managers, busy, n - 1).push((n - 1) as usize)
    } else {
        removable_of(list, managers, busy, n - 1)
    }
}

fn is_busy(busy: &Vec<i64>, id: i64) -> (r: bool)
    ensures
        r == busy@.contains(id),
{
    let mut i: usize = 0;
    while i < busy.len()
        invariant
            i <= busy@.len(),
            forall|k: int| 0 <= k < i ==> #[trigger] busy@[k] != id,
        decreases busy@.len() - i,
    {
        if busy[i] == id {
            return true;
        }
        i += 1;
    }
    false
}

/// Which archives to remove, by place: those whose torrent is in the session. A game
/// among `busy`, which has an operation in flight, is passed over. Without a session
/// nothing is removed, for the torrent would still claim what is gone.
pub fn remove_installed_archives(
    list: &Vec<InstalledArchive>,
    managers: &Vec<String>,
    busy: &Vec<i64>,
) -> (r: Result<Vec<usize>, String>)
    ensures
        match r {
            Ok(places) => {
                &&& managers@.len() > 0
                &&& places@ == removable_of(
                    list@,
                    text::texts(managers@),
                    busy@,
                    list@.len() as int,
                )
            },
            Err(message) => {
                &&& managers@.len() == 0
                &&& message@
                    == "Archives can only be removed while online: the download client has to forget them."@
            },
        },
{
    if managers.len() == 0 {
        return Err(
            copy(
                "Archives can only be removed while online: the download client has to forget them.",
            ),
        );
    }
    let mut out: Vec<usize> = Vec::new();
    let mut i: usize = 0;
    while i < list.len()
        invariant
            i <= list@.len(),
            out@ == removable_of(list@, text::texts(managers@), busy@, i as int),
        decreases list@.len() - i,
    {
        if is_one_of(managers, list[i].source.as_str()) && !is_busy(busy, list[i].id) {
            out.push(i);
        }
        i += 1;
    }
    Ok(out)
}

/// Indices of the first `n` removed archives of a torrent.
pub open spec fn indices_of(
    removed: Seq<InstalledArchive>,
    source: Seq<char>,
    n: int,
) -> Seq<usize>
    decreases n,
{
    if n <= 0 {
        Seq::<usize>::empty()
    } else if removed[n - 1].source@ == source {
        indices_of(removed, source, n - 1).push(removed[n - 1].file_index)
    } else {
        indices_of(removed, source, n - 1)
    }
}

/// What a torrent has to forget of the archives that were removed.
pub fn removed_indices(removed: &Vec<InstalledArchive>, source: &str) -> (r: Vec<usize>)
    ensures
        r@ == indices_of(removed@, source@, removed@.len() as int),
{
    let mut out: Vec<usize> = Vec::new();
    let mut i: usize = 0;
    while i < removed.len()
        invariant
            i <= removed@.len(),
            out@ == indices_of(removed@, source@, i as int),
        decreases removed@.len() - i,
    {
        if same(removed[i].source.as_str(), source) {
            out.push(removed[i].file_index);
        }
        i += 1;
    }
    out
}

// ── What a game takes ────────────────────────────────────────────────────────

/// What a game takes on disk.
#[derive(Clone, Copy)]
pub struct GameDiskUsage {
    /// The unpacked game.
    pub game_bytes: u64,
    /// The archive; nothing for a placeholder or a dropped one.
    pub archive_bytes: u64,
    /// What an uninstall left of it.
    pub save_bytes: u64,
}

/// Where the parts of a game lie.
pub struct UsagePlaces {
    pub game_dir: String,
    pub zip: String,
    pub save_dir: String,
}

/// Where an uninstall leaves what lay at a path.
pub open spec fn save_place(root: Seq<char>, rel: Seq<char>) -> Seq<char> {
    match text::rsplit_once(rel, '/') {
        Some((parent, leaf)) => crate::fspath::joined(
            crate::fspath::joined(crate::fspath::joined(root, parent), "!save"@),
            leaf,
        ),
        None => crate::fspath::joined(crate::fspath::joined(root, "!save"@), rel),
    }
}

/// Where the parts of a game lie. A game without a shortcode has no directory.
pub fn usage_places(root: &str, game: &Game) -> (r: Option<UsagePlaces>)
    ensures
        r is Some <==> game.shortcode is Some,
        match r {
            Some(p) => {
                &&& Some(p.game_dir@) == game_place(root@, *game)
                &&& p.zip@ == zip_place(root@, *game)
                &&& p.save_dir@ == save_place(
                    root@,
                    crate::collections::rel_game_dir(
                        crate::install::source_of(*game),
                        text::opt(game.shortcode)->0,
                        text::opt(game.application_path),
                    ),
                )
            },
            None => true,
        },
{
    let source = source_text(game);
    match &game.shortcode {
        Some(shortcode) => {
            let rel = collection_rel_game_dir(
                source.as_str(),
                shortcode.as_str(),
                borrow(&game.application_path),
            );
            let game_dir = join_path(root, rel.as_str());
            let chars = chars_of(rel.as_str());
            let save_dir = match rcut_once(chars.as_slice(), '/') {
                Some((parent, leaf)) => {
                    let shelf = join_path(root, string_of(parent).as_str());
                    let saves = join_path(shelf.as_str(), "!save");
                    join_path(saves.as_str(), string_of(leaf).as_str())
                },
                None => join_path(join_path(root, "!save").as_str(), rel.as_str()),
            };
            Some(UsagePlaces { game_dir, zip: zip_path_of(root, game), save_dir })
        },
        None => None,
    }
}

/// What a game takes on disk, from what was found at its places. What is not
/// there takes nothing.
pub fn game_disk_usage(game: Option<u64>, archive: Option<u64>, save: Option<u64>) -> (r:
    GameDiskUsage)
    ensures
        r.game_bytes == (if game is Some { game->0 } else { 0 }),
        r.archive_bytes == (if archive is Some { archive->0 } else { 0 }),
        r.save_bytes == (if save is Some { save->0 } else { 0 }),
{
    GameDiskUsage {
        game_bytes: game.unwrap_or(0),
        archive_bytes: archive.unwrap_or(0),
        save_bytes: save.unwrap_or(0),
    }
}

/// Once an archive is dropped, the list of its files is looked for where it was
/// written.
pub proof fn law_manifest_is_found_again(
    data_dir: Seq<char>,
    game: Game,
    root: Seq<char>,
    dirs: Seq<Seq<char>>,
    zips: Seq<RealArchive>,
)
    requires
        archive_of(game, root, dirs, zips) is Some,
        0 <= game.game_torrent_index->0 <= usize::MAX,
    ensures
        ({
            let a = archive_of(game, root, dirs, zips)->0;
            manifest_of(data_dir, game) == Some(
                manifest_place(data_dir, a.source, a.file_index as nat),
            )
        }),
{
}

/// What a torrent forgets of removed archives are the files of its own archives
/// and no others.
pub proof fn law_only_own_files_are_forgotten(
    removed: Seq<InstalledArchive>,
    source: Seq<char>,
    n: int,
    index: usize,
)
    requires
        0 <= n <= removed.len(),
    ensures
        indices_of(removed, source, n).contains(index) <==> exists|k: int|
            0 <= k < n && (#[trigger] removed[k]).source@ == source && removed[k].file_index
                == index,
    decreases n,
{
    if n > 0 {
        law_only_own_files_are_forgotten(removed, source, n - 1, index);
        let before = indices_of(removed, source, n - 1);
        let now = indices_of(removed, source, n);
        if removed[n - 1].source@ == source {
            assert(now == before.push(removed[n - 1].file_index));
            assert(now.last() == removed[n - 1].file_index);
            if before.contains(index) {
                let w = choose|w: int| 0 <= w < before.len() && before[w] == index;
                assert(now[w] == index);
            }
            if now.contains(index) {
                let w = choose|w: int| 0 <= w < now.len() && now[w] == index;
                if w < before.len() {
                    assert(before[w] == index);
                }
            }
        }
    }
}

/// An archive counts as one that can be dropped only where its game is installed, the game's
/// directory is on disk and the file opens as an archive: nothing is dropped that is not
/// unpacked.
pub proof fn law_only_unpacked_archives_count(
    game: Game,
    root: Seq<char>,
    dirs: Seq<Seq<char>>,
    zips: Seq<RealArchive>,
)
    requires
        archive_of(game, root, dirs, zips) is Some,
    ensures
        ({
            let a = archive_of(game, root, dirs, zips)->0;
            &&& game.installed
            &&& game.shortcode is Some
            &&& dirs.contains(game_place(root, game)->0)
            &&& a.id == game.id
            &&& exists|i: int|
                0 <= i < zips.len() && (#[trigger] zips[i]).path@ == a.zip && zips[i].bytes == a.bytes
        }),
{
    lemma_real(zips, zip_place(root, game), 0);
}

proof fn lemma_real(zips: Seq<RealArchive>, path: Seq<char>, from: int)
    requires
        0 <= from,
        real_from(zips, path, from) is Some,
    ensures
        exists|i: int|
            from <= i < zips.len() && (#[trigger] zips[i]).path@ == path && zips[i].bytes
                == real_from(zips, path, from)->0,
    decreases zips.len() - from,
{
    if zips[from].path@ != path {
        lemma_real(zips, path, from + 1);
    } else {
        assert(zips[from].path@ == path);
    }
}

/// The archives that go are those whose torrent is in the session and whose game nothing is
/// being done to: all of them, and no other.
pub proof fn law_which_archives_go(
    list: Seq<InstalledArchive>,
    managers: Seq<Seq<char>>,
    busy: Seq<i64>,
    n: int,
    i: int,
)
    requires
        0 <= i < n <= list.len(),
        n <= usize::MAX,
    ensures
        removable_of(list, managers, busy, n).contains(i as usize) <==> managers.contains(
            list[i].source@,
        ) && !busy.contains(list[i].id),
    decreases n,
{
    let now = removable_of(list, managers, busy, n);
    let before = removable_of(list, managers, busy, n - 1);
    lemma_removable_below(list, managers, busy, n - 1);
    if i < n - 1 {
        law_which_archives_go(list, managers, busy, n - 1, i);
        if before.contains(i as usize) {
            let w = choose|w: int| 0 <= w < before.len() && before[w] == i as usize;
            assert(now[w] == i as usize);
        }
        if now.contains(i as usize) {
            let w = choose|w: int| 0 <= w < now.len() && now[w] == i as usize;
            if w < before.len() {
                assert(before[w] == i as usize);
            }
        }
    } else {
        if managers.contains(list[i].source@) && !busy.contains(list[i].id) {
            assert(now[before.len() as int] == i as usize);
        } else if now.contains(i as usize) {
            let w = choose|w: int| 0 <= w < now.len() && now[w] == i as usize;
            assert(before[w] < n - 1);
        }
    }
}

proof fn lemma_removable_below(
    list: Seq<InstalledArchive>,
    managers: Seq<Seq<char>>,
    busy: Seq<i64>,
    n: int,
)
    requires
        0 <= n <= list.len(),
        n <= usize::MAX,
    ensures
        forall|w: int|
            0 <= w < removable_of(list, managers, busy, n).len() ==> (#[trigger] removable_of(
                list,
                managers,
                busy,
                n,
            )[w]) < n,
    decreases n,
{
    if n > 0 {
        lemma_removable_below(list, managers, busy, n - 1);
        let before = removable_of(list, managers, busy, n - 1);
        let now = removable_of(list, managers, busy, n);
        assert forall|w: int| 0 <= w < now.len() implies (#[trigger] now[w]) < n by {
            if w < before.len() {
                assert(now[w] == before[w]);
            }
        }
    }
}

} // verus!
