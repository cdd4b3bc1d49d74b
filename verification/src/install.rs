//! Getting a game onto disk: what a download needs, what its progress means, and
//! what is unpacked before a launch.

use crate::collections::{
    collection_def, collection_game_prefix, collection_rel_game_dir, collection_rel_zip, Launcher,
};
use crate::content_packs::{installable_pack, pack_space, ContentPackInfo, PackEntry};
use crate::fspath::join_path;
use crate::layout::capped_sum;
use crate::library::archive_name_of;
use crate::models::Game;
use crate::scummvm::{pack_id, EngineSource};
use crate::text;
use crate::text::{
    borrow, cat, cat3, chars_of, copy, copy_opt, cut_once, has_prefix, has_str, same, string_of,
    to_lower,
};
use vstd::prelude::*;

verus! {

pub const MIB: u64 = 1024 * 1024;
pub const GIB: u64 = 1024 * 1024 * 1024;

// ── Starting a download ──────────────────────────────────────────────────────

/// What has to be known before a download starts.
pub struct DownloadFacts {
    /// The collection's torrent is in the session.
    pub manager_ready: bool,
    pub offline: bool,
    /// The support files of the game's emulator are unpacked.
    pub support_ready: bool,
    /// The data directory is configured.
    pub data_dir_set: bool,
    /// How much of the game's archive is on disk.
    pub on_disk: u64,
    /// How much of the disk is free, where that is known.
    pub free: Option<u64>,
    /// The download size of the English game that a patch needs.
    pub base_size: Option<i64>,
    /// The size of the emulator pack that comes along, where one does.
    pub pack_size: Option<u64>,
    /// The torrent of eXoDOS is in the session.
    pub main_ready: bool,
    /// The directory of the DOSBox confs is there.
    pub confs_there: bool,
    /// The directory of the MT-32 ROMs is there.
    pub roms_there: bool,
    /// The game's conf asks for MIDI music.
    pub wants_midi: bool,
    /// The program runs on Windows.
    pub windows: bool,
    /// The build of DOSBox ECE is unpacked.
    pub ece_there: bool,
}

/// What a download queues.
pub struct DownloadPlan {
    /// The files of the collection's torrent.
    pub files: Vec<usize>,
    /// The support files of Windows 9x.
    pub win9x_support: bool,
    /// The support files of ScummVM.
    pub scummvm_support: bool,
    /// The DOSBox confs, out of eXoDOS's torrent.
    pub confs: bool,
    /// The MIDI files and the ECE build, out of eXoDOS's torrent.
    pub dos_support: bool,
}

/// What a request for a download leads to.
pub enum DownloadStart {
    /// The game is there already, and nothing is queued.
    AlreadyThere,
    Queue(DownloadPlan),
}

/// Why a download does not start.
pub enum DownloadRefusal {
    /// The catalogue does not say where the game is.
    NoIndex,
    /// The collection's torrent is not in the session.
    NoManager,
    /// The disk has too little room.
    NoSpace { needed: u64, free: u64 },
}

/// The collection that a row belongs to, eXoDOS where it does not say.
pub open spec fn source_of(game: Game) -> Seq<char> {
    match game.torrent_source {
        Some(s) => s@,
        None => "eXoDOS"@,
    }
}

/// What runs a row's game.
pub open spec fn launcher_of(game: Game) -> Option<Launcher> {
    match crate::collections::def_of(source_of(game)) {
        Some(c) => Some(c.launcher),
        None => None,
    }
}

/// A size of the catalogue as a number of bytes. One below zero is taken for the
/// number that its bits stand for.
pub open spec fn byte_count(size: i64) -> int {
    if size < 0 {
        size + 0x1_0000_0000_0000_0000
    } else {
        size as int
    }
}

/// Twice the download, for the archive and what it unpacks to, without what is
/// on disk.
pub open spec fn game_space(size: i64, on_disk: u64) -> int {
    let twice = crate::layout::capped((2 * byte_count(size)) as nat) as int;
    if twice > on_disk {
        twice - on_disk
    } else {
        0
    }
}

/// The space that a download takes with half a gigabyte of room and the support files
/// that are missing.
pub open spec fn own_space(game: Game, size: i64, facts: DownloadFacts) -> int {
    game_space(size, facts.on_disk) + 500 * MIB + if facts.support_ready {
        0
    } else {
        match launcher_of(game) {
            Some(Launcher::Win9x) => 8 * GIB,
            Some(Launcher::ScummVm) => 3 * GIB,
            _ => 0,
        }
    }
}

/// The space that a download takes, with the English game that a patch needs three
/// times over, and an emulator pack.
pub open spec fn space_needed(game: Game, size: i64, facts: DownloadFacts) -> int {
    (match facts.base_size {
        Some(b) => crate::layout::capped(
            (own_space(game, size, facts) + 3 * byte_count(b)) as nat,
        ) as int,
        None => own_space(game, size, facts),
    }) + (match facts.pack_size {
        Some(p) => crate::content_packs::space_needed(p as nat) as int,
        None => 0,
    })
}

/// The space is looked at before the download starts.
pub open spec fn space_counts(game: Game, facts: DownloadFacts) -> bool {
    !game.installed && game.game_torrent_index is Some && facts.manager_ready
        && facts.data_dir_set && game.download_size is Some
}

/// The space that a download takes can be counted in 64 bits.
pub open spec fn space_fits(game: Game, size: i64, facts: DownloadFacts) -> bool {
    own_space(game, size, facts) <= u64::MAX && space_needed(game, size, facts) <= u64::MAX
}

/// Why a download does not start, if it does not.
pub open spec fn refusal(game: Game, facts: DownloadFacts) -> Option<DownloadRefusal> {
    if game.installed {
        None
    } else if game.game_torrent_index is None {
        Some(DownloadRefusal::NoIndex)
    } else if !facts.manager_ready {
        Some(DownloadRefusal::NoManager)
    } else {
        match (game.download_size, facts.free) {
            (Some(size), Some(free)) if facts.data_dir_set && free < space_needed(
                game,
                size,
                facts,
            ) => Some(
                DownloadRefusal::NoSpace {
                    needed: space_needed(game, size, facts) as u64,
                    free,
                },
            ),
            _ => None,
        }
    }
}

/// The files that a game's download fetches: its archive and that of its extras.
pub open spec fn download_files(game: Game) -> Seq<usize> {
    (match game.game_torrent_index {
        Some(i) => seq![i as usize],
        None => Seq::<usize>::empty(),
    }) + (match game.gamedata_torrent_index {
        Some(i) => seq![i as usize],
        None => Seq::<usize>::empty(),
    })
}

/// A variant of DOSBox that is one of ECE's.
pub open spec fn is_ece(variant: Option<String>) -> bool {
    match variant {
        Some(v) => "ece"@.is_prefix_of(v@),
        None => false,
    }
}

/// The row's indices name files.
pub open spec fn indices_fit(game: Game) -> bool {
    &&& game.game_torrent_index matches Some(i) ==> 0 <= i <= usize::MAX
    &&& game.gamedata_torrent_index matches Some(i) ==> 0 <= i <= usize::MAX
}

pub fn source_text(game: &Game) -> (r: String)
    ensures
        r@ == source_of(*game),
{
    match &game.torrent_source {
        Some(s) => copy(s.as_str()),
        None => copy("eXoDOS"),
    }
}

pub fn launcher_for(game: &Game) -> (r: Option<Launcher>)
    ensures
        r == launcher_of(*game),
{
    match collection_def(source_text(game).as_str()) {
        Some(c) => Some(c.launcher),
        None => None,
    }
}

/// A size of the catalogue as a number of bytes.
fn bytes_of(size: i64) -> (r: u64)
    ensures
        r == byte_count(size),
{
    if size < 0 {
        assert(size as u64 == size + 0x1_0000_0000_0000_0000) by (bit_vector)
            requires
                size < 0,
        ;
    }
    size as u64
}

fn times(n: u64, by: u64) -> (r: u64)
    requires
        by == 2 || by == 3,
    ensures
        r == crate::layout::capped((n * by) as nat),
{
    if n > u64::MAX / by {
        assert(n * by > u64::MAX) by (nonlinear_arith)
            requires
                n > u64::MAX / by,
                by == 2 || by == 3,
        ;
        u64::MAX
    } else {
        assert(n * by <= u64::MAX) by (nonlinear_arith)
            requires
                n <= u64::MAX / by,
                by == 2 || by == 3,
        ;
        n * by
    }
}

fn needed_space(game: &Game, size: i64, facts: &DownloadFacts) -> (r: u64)
    requires
        space_fits(*game, size, *facts),
    ensures
        r == space_needed(*game, size, *facts),
{
    let twice: u64 = times(bytes_of(size), 2);
    let own: u64 = if twice > facts.on_disk {
        twice - facts.on_disk
    } else {
        0
    };
    let launcher = launcher_for(game);
    let support: u64 = if facts.support_ready {
        0
    } else {
        match launcher {
            Some(Launcher::Win9x) => 8 * GIB,
            Some(Launcher::ScummVm) => 3 * GIB,
            _ => 0,
        }
    };
    let first: u64 = own + 500 * MIB + support;
    let with_base: u64 = match facts.base_size {
        Some(b) => capped_sum(first, times(bytes_of(b), 3)),
        None => first,
    };
    match facts.pack_size {
        Some(p) => with_base + pack_space(p),
        None => with_base,
    }
}

/// Decides whether a game's download starts, and what it queues. A game that is there
/// already needs none.
pub fn download_game(game: &Game, facts: &DownloadFacts) -> (r: Result<
    DownloadStart,
    DownloadRefusal,
>)
    requires
        space_counts(*game, *facts) ==> space_fits(*game, game.download_size->0, *facts),
    ensures
        game.installed ==> r is Ok,
        match r {
            Ok(DownloadStart::AlreadyThere) => game.installed,
            Ok(DownloadStart::Queue(plan)) => {
                &&& !game.installed
                &&& refusal(*game, *facts) is None
                &&& plan.files@ == download_files(*game)
                &&& plan.win9x_support == (launcher_of(*game) == Some(Launcher::Win9x)
                    && !facts.support_ready)
                &&& plan.scummvm_support == (launcher_of(*game) == Some(Launcher::ScummVm)
                    && !facts.support_ready)
                &&& plan.confs == (facts.main_ready && !facts.confs_there)
                &&& plan.dos_support == (facts.main_ready && ((!facts.roms_there
                    && facts.wants_midi) || (facts.windows && is_ece(game.dosbox_variant)
                    && !facts.ece_there)))
            },
            Err(e) => refusal(*game, *facts) == Some(e),
        },
        r matches Ok(DownloadStart::Queue(plan)) ==> {
            &&& game.game_torrent_index matches Some(i) && plan.files@.contains(i as usize)
            &&& game.gamedata_torrent_index matches Some(i) ==> plan.files@.contains(i as usize)
            &&& facts.support_ready ==> !plan.win9x_support && !plan.scummvm_support
            &&& !facts.main_ready || facts.confs_there ==> !plan.confs
            &&& facts.main_ready && !facts.confs_there ==> plan.confs
            &&& !facts.main_ready ==> !plan.dos_support
            &&& facts.main_ready && facts.wants_midi && !facts.roms_there ==> plan.dos_support
        },
{
    if game.installed {
        return Ok(DownloadStart::AlreadyThere);
    }
    let index: i64 = match game.game_torrent_index {
        Some(i) => i,
        None => {
            return Err(DownloadRefusal::NoIndex);
        },
    };
    if !facts.manager_ready {
        return Err(DownloadRefusal::NoManager);
    }
    if let Some(size) = game.download_size {
        if facts.data_dir_set {
            if let Some(free) = facts.free {
                let needed: u64 = needed_space(game, size, facts);
                if free < needed {
                    return Err(DownloadRefusal::NoSpace { needed, free });
                }
            }
        }
    }
    let mut files: Vec<usize> = Vec::new();
    files.push(index as usize);
    if let Some(extras) = game.gamedata_torrent_index {
        files.push(extras as usize);
    }
    assert(files@ =~= download_files(*game));
    assert(files@[0] == index as usize);
    assert(game.gamedata_torrent_index matches Some(i) ==> files@[1] == i as usize);
    let launcher = launcher_for(game);
    let win9x = match launcher {
        Some(Launcher::Win9x) => true,
        _ => false,
    };
    let scummvm = match launcher {
        Some(Launcher::ScummVm) => true,
        _ => false,
    };
    let ece = match &game.dosbox_variant {
        Some(v) => has_prefix(chars_of(v.as_str()).as_slice(), "ece"),
        None => false,
    };
    Ok(
        DownloadStart::Queue(
            DownloadPlan {
                files,
                win9x_support: win9x && !facts.support_ready,
                scummvm_support: scummvm && !facts.support_ready,
                confs: facts.main_ready && !facts.confs_there,
                dos_support: facts.main_ready && ((!facts.roms_there && facts.wants_midi) || (
                facts.windows && ece && !facts.ece_there)),
            },
        ),
    )
}

/// Why a download came to nothing.
pub enum DownloadFailure {
    Refused(DownloadRefusal),
    /// The session did not take the files. The text says so.
    NotQueued(String),
}

/// What a request for a download left behind.
pub struct DownloadEnd {
    /// The game is in the library.
    pub in_library: bool,
    /// What is said of it.
    pub result: Result<String, DownloadFailure>,
}

/// What a request for a download left behind. `queued` says how the queueing of the
/// plan came out, where there was one. A game enters the library only once its files
/// are queued, so a failure leaves no entry that was not there.
pub fn download_outcome(
    game: &Game,
    start: Result<DownloadStart, DownloadRefusal>,
    queued: &Result<(), String>,
) -> (r: DownloadEnd)
    ensures
        r.result is Err ==> r.in_library == game.in_library,
        match start {
            Err(refusal) => {
                &&& r.result == Err::<String, DownloadFailure>(DownloadFailure::Refused(refusal))
                &&& r.in_library == game.in_library
            },
            Ok(DownloadStart::AlreadyThere) => {
                &&& r.result matches Ok(said) && said@ == game.title@ + " is already installed"@
                &&& r.in_library == game.in_library
            },
            Ok(DownloadStart::Queue(_)) => match queued {
                Ok(_) => {
                    &&& r.result matches Ok(said) && said@ == "Downloading: "@ + game.title@
                    &&& r.in_library
                },
                Err(e) => {
                    &&& r.result matches Err(DownloadFailure::NotQueued(said)) && said@
                        == "Failed to queue download: "@ + e@
                    &&& r.in_library == game.in_library
                },
            },
        },
{
    let (in_library, result) = match start {
        Err(refusal) => (game.in_library, Err(DownloadFailure::Refused(refusal))),
        Ok(DownloadStart::AlreadyThere) => (
            game.in_library,
            Ok(cat(game.title.as_str(), " is already installed")),
        ),
        Ok(DownloadStart::Queue(_)) => match queued {
            Ok(_) => (true, Ok(cat("Downloading: ", game.title.as_str()))),
            Err(e) => (
                game.in_library,
                Err(DownloadFailure::NotQueued(cat("Failed to queue download: ", e.as_str()))),
            ),
        },
    };
    DownloadEnd { in_library, result }
}

/// The pack that brings the emulator of a Windows 9x game.
pub struct Win9xEngine {
    pub pack: Option<String>,
    /// The emulator is there already.
    pub resolvable: bool,
}

/// The emulator pack that a game needs, where the system has none that will do: any
/// emulator does for a Windows 9x game, but ScummVM has to be of the game's build.
pub open spec fn wanted_pack(
    game: Game,
    windows: bool,
    win9x: Win9xEngine,
    engine: Option<EngineSource>,
) -> Option<Seq<char>> {
    if windows {
        None
    } else if launcher_of(game) == Some(Launcher::Win9x) {
        if win9x.resolvable {
            None
        } else {
            text::opt(win9x.pack)
        }
    } else if launcher_of(game) == Some(Launcher::ScummVm) {
        if engine == Some(EngineSource::Exo) || engine == Some(EngineSource::Pack) {
            None
        } else {
            Some(
                "scummvm-"@ + crate::scummvm::pack_version_of(
                    match game.dosbox_variant {
                        Some(v) => v@,
                        None => "default"@,
                    },
                ),
            )
        }
    } else {
        None
    }
}

/// The emulator pack that is installed along with a game: the one that it needs,
/// where that one can be installed. `packs` are those of the game's collection.
pub fn emulator_pack<'a>(
    game: &Game,
    windows: bool,
    win9x: &Win9xEngine,
    engine: Option<EngineSource>,
    packs: &'a Vec<PackEntry>,
) -> (r: Option<(String, &'a ContentPackInfo)>)
    ensures
        match (wanted_pack(*game, windows, *win9x, engine), r) {
            (Some(id), Some((pack, info))) => {
                let at = crate::content_packs::pack_from(packs@, id, 0);
                &&& pack@ == id
                &&& at is Some
                &&& packs@[at->0].here == Some(*info)
                &&& crate::content_packs::is_installable(*info)
            },
            (Some(id), None) => {
                let at = crate::content_packs::pack_from(packs@, id, 0);
                !(at is Some && packs@[at->0].here is Some
                    && crate::content_packs::is_installable(packs@[at->0].here->0))
            },
            (None, r) => r is None,
        },
{
    if windows {
        return None;
    }
    let id: String = match launcher_for(game) {
        Some(Launcher::Win9x) => match &win9x.pack {
            Some(pack) if !win9x.resolvable => copy(pack.as_str()),
            _ => {
                return None;
            },
        },
        Some(Launcher::ScummVm) => match engine {
            Some(EngineSource::Exo) | Some(EngineSource::Pack) => {
                return None;
            },
            _ => match &game.dosbox_variant {
                Some(slug) => pack_id(slug.as_str()),
                None => pack_id("default"),
            },
        },
        _ => {
            return None;
        },
    };
    match installable_pack(packs, id.as_str()) {
        Some(info) => Some((id, info)),
        None => None,
    }
}

/// What is said of a refused download, except that the disk is too small, which
/// takes numbers that are not whole.
pub open spec fn refusal_text(game: Game, refusal: DownloadRefusal, offline: bool) -> Option<Seq<char>> {
    match refusal {
        DownloadRefusal::NoIndex => Some(game.title@ + " has no torrent index - cannot download"@),
        DownloadRefusal::NoManager => if offline {
            Some(
                "Offline mode is on - no games can be downloaded. Switch to online mode in Settings → Network."@,
            )
        } else {
            Some("Download manager for '"@ + source_of(game) + "' not initialized."@)
        },
        DownloadRefusal::NoSpace { .. } => None,
    }
}

/// What is said of a refused download.
pub fn refusal_message(game: &Game, refusal: &DownloadRefusal, offline: bool) -> (r: Option<String>)
    ensures
        text::opt(r) == refusal_text(*game, *refusal, offline),
{
    match refusal {
        DownloadRefusal::NoIndex => Some(
            cat(game.title.as_str(), " has no torrent index - cannot download"),
        ),
        DownloadRefusal::NoManager => if offline {
            Some(
                copy(
                    "Offline mode is on - no games can be downloaded. Switch to online mode in Settings → Network.",
                ),
            )
        } else {
            Some(
                cat3(
                    "Download manager for '",
                    source_text(game).as_str(),
                    "' not initialized.",
                ),
            )
        },
        DownloadRefusal::NoSpace { needed, free } => None,
    }
}

/// The conf asks for MIDI music.
pub open spec fn asks_for_midi(conf: Seq<char>) -> bool {
    let l = text::lower(conf);
    text::has(l, "mididevice"@) || text::has(l, "mt32."@) || text::has(l, "fluid."@) || text::has(l, "[mt32]"@) || text::has(
        l,
        "[fluidsynth]"@,
    )
}

/// Whether a game's conf asks for MIDI music. A conf that could not be read asks
/// for nothing.
pub fn game_requests_midi(conf: Option<&str>) -> (r: bool)
    ensures
        r == match conf {
            Some(c) => asks_for_midi(c@),
            None => false,
        },
{
    match conf {
        Some(c) => {
            let low = to_lower(chars_of(c).as_slice());
            let l = low.as_slice();
            has_str(l, "mididevice") || has_str(l, "mt32.") || has_str(l, "fluid.") || has_str(
                l,
                "[mt32]",
            ) || has_str(l, "[fluidsynth]")
        },
        None => false,
    }
}

// ── Downloads under way ──────────────────────────────────────────────────────

/// A library row whose archive the session fetches. One that is complete and not
/// unpacked counts too; one that is installed and not complete was taken for an
/// install by mistake.
pub struct PendingDownload {
    pub id: i64,
    pub title: String,
    pub torrent_source: String,
    pub thumbnail_key: Option<String>,
    pub rel_path: String,
    pub installed: bool,
    pub complete: bool,
}

/// A library row with an archive, and what the session knows of the archive.
pub struct LibraryRow {
    pub id: i64,
    pub title: String,
    pub torrent_source: String,
    pub thumbnail_key: Option<String>,
    pub installed: bool,
    /// None where the session does not have the collection's torrent.
    pub file: Option<SessionFile>,
}

/// A file in the session.
pub struct SessionFile {
    pub selected: bool,
    pub complete: bool,
    /// None where the torrent has no such file.
    pub path: Option<String>,
}

/// The row's download is pending.
pub open spec fn is_pending(row: LibraryRow) -> bool {
    match row.file {
        Some(f) => f.selected && f.path is Some && !(row.installed && f.complete),
        None => false,
    }
}

/// `d` says of `row` what is pending.
pub open spec fn pending_of(row: LibraryRow, d: PendingDownload) -> bool {
    &&& d.id == row.id
    &&& d.title@ == row.title@
    &&& d.torrent_source@ == row.torrent_source@
    &&& text::opt(d.thumbnail_key) == text::opt(row.thumbnail_key)
    &&& d.installed == row.installed
    &&& row.file matches Some(f) && f.path matches Some(p) && d.rel_path@ == p@ && d.complete
        == f.complete
}

/// The positions of the pending ones among the first `n` rows.
pub open spec fn pending_upto(rows: Seq<LibraryRow>, n: int) -> Seq<int>
    decreases n,
{
    if n <= 0 {
        Seq::<int>::empty()
    } else if is_pending(rows[n - 1]) {
        pending_upto(rows, n - 1).push(n - 1)
    } else {
        pending_upto(rows, n - 1)
    }
}

/// The downloads to pick up after a restart.
pub fn pending_downloads(rows: &Vec<LibraryRow>) -> (r: Vec<PendingDownload>)
    ensures
        r@.len() == pending_upto(rows@, rows@.len() as int).len(),
        forall|k: int|
            0 <= k < r@.len() ==> pending_of(
                rows@[pending_upto(rows@, rows@.len() as int)[k]],
                #[trigger] r@[k],
            ),
{
    let mut out: Vec<PendingDownload> = Vec::new();
    let mut i: usize = 0;
    while i < rows.len()
        invariant
            i <= rows@.len(),
            out@.len() == pending_upto(rows@, i as int).len(),
            forall|k: int|
                0 <= k < out@.len() ==> pending_of(
                    rows@[pending_upto(rows@, i as int)[k]],
                    #[trigger] out@[k],
                ),
        decreases rows@.len() - i,
    {
        let row = &rows[i];
        if let Some(f) = &row.file {
            if f.selected && !(row.installed && f.complete) {
                if let Some(path) = &f.path {
                    out.push(
                        PendingDownload {
                            id: row.id,
                            title: copy(row.title.as_str()),
                            torrent_source: copy(row.torrent_source.as_str()),
                            thumbnail_key: copy_opt(&row.thumbnail_key),
                            rel_path: copy(path.as_str()),
                            installed: row.installed,
                            complete: f.complete,
                        },
                    );
                }
            }
        }
        i += 1;
    }
    out
}

/// The ids among the first `n` of rows that a scan took for installed while
/// their archive was still being fetched.
pub open spec fn false_installs_upto(pending: Seq<PendingDownload>, n: int) -> Seq<i64>
    decreases n,
{
    if n <= 0 {
        Seq::<i64>::empty()
    } else if pending[n - 1].installed && !pending[n - 1].complete {
        false_installs_upto(pending, n - 1).push(pending[n - 1].id)
    } else {
        false_installs_upto(pending, n - 1)
    }
}

/// The rows that were taken for installed while their archive was being fetched.
pub fn false_installs(pending: &Vec<PendingDownload>) -> (r: Vec<i64>)
    ensures
        r@ == false_installs_upto(pending@, pending@.len() as int),
{
    let mut out: Vec<i64> = Vec::new();
    let mut i: usize = 0;
    while i < pending.len()
        invariant
            i <= pending@.len(),
            out@ == false_installs_upto(pending@, i as int),
        decreases pending@.len() - i,
    {
        if pending[i].installed && !pending[i].complete {
            out.push(pending[i].id);
        }
        i += 1;
    }
    out
}

/// The paths among the first `n` of archives that are still being fetched.
pub open spec fn in_flight_upto(pending: Seq<PendingDownload>, n: int) -> Seq<Seq<char>>
    decreases n,
{
    if n <= 0 {
        Seq::<Seq<char>>::empty()
    } else if !pending[n - 1].complete {
        in_flight_upto(pending, n - 1).push(pending[n - 1].rel_path@)
    } else {
        in_flight_upto(pending, n - 1)
    }
}

/// The archives that are still being fetched.
pub fn in_flight(pending: &Vec<PendingDownload>) -> (r: Vec<String>)
    ensures
        text::texts(r@) == in_flight_upto(pending@, pending@.len() as int),
{
    let mut out: Vec<String> = Vec::new();
    let mut i: usize = 0;
    assert(text::texts(out@) =~= in_flight_upto(pending@, 0));
    while i < pending.len()
        invariant
            i <= pending@.len(),
            text::texts(out@) == in_flight_upto(pending@, i as int),
        decreases pending@.len() - i,
    {
        if !pending[i].complete {
            let ghost done = text::texts(out@);
            out.push(copy(pending[i].rel_path.as_str()));
            assert(text::texts(out@) =~= done.push(pending@[i as int].rel_path@));
        }
        i += 1;
    }
    out
}

// ── Progress ─────────────────────────────────────────────────────────────────

/// How far a download is.
pub struct Progress {
    pub downloaded_bytes: u64,
    pub total_bytes: u64,
    pub finished: bool,
    pub installed: bool,
    /// The extras are there, or none are on their way.
    pub extras_done: Option<bool>,
    /// The English game that has to be unpacked first.
    pub waiting_for: Option<String>,
    pub error: Option<String>,
}

/// What the session knows of the archive of extras.
pub enum Extras {
    /// The game has none.
    Absent,
    /// It has one, and the session does not fetch it.
    NotSelected,
    /// The session fetches it and says nothing of it.
    Unknown,
    /// The session fetches it. `total` is its length, and `on_disk` that of the
    /// file on disk.
    Fetched { finished: bool, total: u64, on_disk: Option<u64> },
}

/// A file is as long as it has to be. The session's own figures can stall short
/// of the end of a file that is all there.
pub open spec fn assembled(total: u64, on_disk: Option<u64>) -> bool {
    total > 0 && match on_disk {
        Some(len) => len >= total,
        None => false,
    }
}

/// All of a download is there: the session says so, or the disk does where the
/// session says that nearly all of it is there.
pub open spec fn is_complete(reported: Progress, nearly: bool, on_disk: Option<u64>) -> bool {
    reported.finished || (nearly && assembled(reported.total_bytes, on_disk))
}

/// Whether the extras are done, as far as that is known.
pub open spec fn extras_state(extras: Extras, before: Option<bool>) -> Option<bool> {
    match extras {
        Extras::NotSelected => Some(true),
        Extras::Fetched { finished, total, on_disk } => Some(finished || assembled(total, on_disk)),
        _ => before,
    }
}

fn is_assembled(total: u64, on_disk: Option<u64>) -> (r: bool)
    ensures
        r == assembled(total, on_disk),
{
    total > 0 && match on_disk {
        Some(len) => len >= total,
        None => false,
    }
}

/// What the session reports, corrected by what is known otherwise: the row's own
/// flag, the extras, and the file on disk where the session says that nearly all
/// of it is there (`nearly`).
pub fn settle_progress(
    reported: Progress,
    installed: bool,
    extras: &Extras,
    nearly: bool,
    on_disk: Option<u64>,
) -> (r: Progress)
    ensures
        r.installed == installed,
        r.total_bytes == reported.total_bytes,
        r.finished == is_complete(reported, nearly, on_disk),
        r.downloaded_bytes == (if !reported.finished && r.finished {
            reported.total_bytes
        } else {
            reported.downloaded_bytes
        }),
        r.extras_done == extras_state(*extras, reported.extras_done),
        r.waiting_for == reported.waiting_for,
        r.error == reported.error,
{
    let mut p = reported;
    p.installed = installed;
    match extras {
        Extras::NotSelected => {
            p.extras_done = Some(true);
        },
        Extras::Fetched { finished, total, on_disk: len } => {
            p.extras_done = Some(*finished || is_assembled(*total, *len));
        },
        _ => {},
    }
    if !p.finished && nearly && is_assembled(p.total_bytes, on_disk) {
        p.downloaded_bytes = p.total_bytes;
        p.finished = true;
    }
    p
}

/// A lock of this age, in seconds, belongs to an extraction that died.
pub open spec fn lock_is_stale_at(age: u64) -> bool {
    age > 300
}

pub fn lock_is_stale(age: u64) -> (r: bool)
    ensures
        r == lock_is_stale_at(age),
{
    age > 300
}

/// After this many tries a download that is all there and on no disk is given up.
pub const MAX_ATTEMPTS: u32 = 60;

/// When a game's download was last made to look again, in milliseconds, and how
/// often that happened.
#[derive(Clone, Copy, Debug, PartialEq, Eq, Structural)]
pub struct Retry {
    pub id: i64,
    pub last: u64,
    pub attempts: u32,
}

/// The downloads that are being made to look again, one entry per game.
pub struct RetryState {
    pub entries: Vec<Retry>,
}

/// No two entries are for the same game.
pub open spec fn retries_distinct(entries: Seq<Retry>) -> bool {
    forall|i: int, j: int|
        0 <= i < entries.len() && 0 <= j < entries.len() && (#[trigger] entries[i]).id == (
        #[trigger] entries[j]).id ==> i == j
}

/// The entry for `id`.
pub open spec fn retry_of(entries: Seq<Retry>, id: i64) -> Option<Retry> {
    if exists|i: int| 0 <= i < entries.len() && (#[trigger] entries[i]).id == id {
        Some(choose|e: Retry| entries.contains(e) && e.id == id)
    } else {
        None
    }
}

/// Two minutes have passed since.
pub open spec fn is_idle(e: Retry, now: u64) -> bool {
    now - e.last >= 120_000
}

/// The entry for `id` that counts at `now`: the recent one, or a fresh one that
/// lies a minute back as far as the clock goes.
pub open spec fn counted_retry(entries: Seq<Retry>, id: i64, now: u64) -> Retry {
    match retry_of(entries, id) {
        Some(e) if !is_idle(e, now) => e,
        _ => Retry {
            id,
            last: if now >= 60_000 {
                (now - 60_000) as u64
            } else {
                now
            },
            attempts: 0,
        },
    }
}

/// The entry after a poll at `now`: every five seconds the count goes up.
pub open spec fn ticked_retry(e: Retry, now: u64) -> Retry {
    if now - e.last >= 5_000 {
        Retry {
            id: e.id,
            last: now,
            attempts: if e.attempts < u32::MAX {
                (e.attempts + 1) as u32
            } else {
                e.attempts
            },
        }
    } else {
        e
    }
}

proof fn lemma_retry_of(entries: Seq<Retry>, i: int)
    requires
        retries_distinct(entries),
        0 <= i < entries.len(),
    ensures
        retry_of(entries, entries[i].id) == Some(entries[i]),
{
    let id = entries[i].id;
    assert(entries.contains(entries[i]));
    let e = choose|e: Retry| entries.contains(e) && e.id == id;
    let j = choose|j: int| 0 <= j < entries.len() && entries[j] == e;
    assert(entries[j].id == entries[i].id);
}

impl RetryState {
    pub fn new() -> (r: Self)
        ensures
            r.entries@.len() == 0,
    {
        RetryState { entries: Vec::new() }
    }

    /// Forgets a game whose archive has appeared.
    pub fn clear(&mut self, id: i64)
        requires
            retries_distinct(old(self).entries@),
        ensures
            retries_distinct(final(self).entries@),
            retry_of(final(self).entries@, id) is None,
            forall|other: i64| other != id ==> #[trigger] retry_of(final(self).entries@, other)
                == retry_of(old(self).entries@, other),
    {
        let ghost start = self.entries@;
        let mut kept: Vec<Retry> = Vec::new();
        let mut i: usize = 0;
        while i < self.entries.len()
            invariant
                i <= self.entries@.len(),
                self.entries@ == start,
                retries_distinct(start),
                retries_distinct(kept@),
                forall|k: int| 0 <= k < kept@.len() ==> (#[trigger] kept@[k]).id != id,
                forall|k: int|
                    0 <= k < kept@.len() ==> start.take(i as int).contains(#[trigger] kept@[k]),
                forall|k: int|
                    0 <= k < i && (#[trigger] start[k]).id != id ==> kept@.contains(start[k]),
            decreases self.entries@.len() - i,
        {
            let e = self.entries[i];
            let ghost done = kept@;
            assert(start.take(i + 1) =~= start.take(i as int).push(e));
            assert forall|k: int| 0 <= k < done.len() implies start.take(i + 1).contains(
                #[trigger] done[k],
            ) by {
                let j = choose|j: int| 0 <= j < i && start.take(i as int)[j] == done[k];
                assert(start.take(i + 1)[j] == done[k]);
            }
            if e.id != id {
                kept.push(e);
                assert(start.take(i + 1)[i as int] == e);
                assert(kept@[done.len() as int] == e);
                assert forall|k: int| 0 <= k < i && (#[trigger] start[k]).id != id implies kept@.contains(
                    start[k],
                ) by {
                    let j = choose|j: int| 0 <= j < done.len() && done[j] == start[k];
                    assert(kept@[j] == start[k]);
                }
                assert forall|a: int, b: int|
                    0 <= a < kept@.len() && 0 <= b < kept@.len() && (#[trigger] kept@[a]).id == (
                    #[trigger] kept@[b]).id implies a == b by {
                    if a < done.len() && b == done.len() {
                        let j = choose|j: int| 0 <= j < i && start.take(i as int)[j] == done[a];
                        assert(start[j].id == start[i as int].id);
                    }
                    if b < done.len() && a == done.len() {
                        let j = choose|j: int| 0 <= j < i && start.take(i as int)[j] == done[b];
                        assert(start[j].id == start[i as int].id);
                    }
                }
            }
            i += 1;
        }
        assert(start.take(start.len() as int) =~= start);
        self.entries = kept;
        proof {
            assert forall|other: i64| other != id implies #[trigger] retry_of(kept@, other)
                == retry_of(start, other) by {
                lemma_same_retry(start, kept@, other);
            }
        }
    }

    /// One poll of a download that is all there and on no disk: the count of
    /// tries, and whether this poll is one. Entries that nobody asked about for
    /// two minutes are forgotten.
    pub fn tick(&mut self, id: i64, now: u64) -> (r: (u32, bool))
        requires
            retries_distinct(old(self).entries@),
        ensures
            retries_distinct(final(self).entries@),
            ({
                let e = ticked_retry(counted_retry(old(self).entries@, id, now), now);
                &&& retry_of(final(self).entries@, id) == Some(e)
                &&& r.0 == e.attempts
                &&& r.1 == (now - counted_retry(old(self).entries@, id, now).last >= 5_000)
            }),
            forall|other: i64|
                other != id ==> #[trigger] retry_of(final(self).entries@, other) == (match retry_of(
                    old(self).entries@,
                    other,
                ) {
                    Some(e) if !is_idle(e, now) => Some(e),
                    _ => None,
                }),
    {
        let ghost start = self.entries@;
        let mut kept: Vec<Retry> = Vec::new();
        let mut current: Option<Retry> = None;
        let mut i: usize = 0;
        while i < self.entries.len()
            invariant
                i <= self.entries@.len(),
                self.entries@ == start,
                retries_distinct(start),
                retries_distinct(kept@),
                forall|k: int|
                    0 <= k < kept@.len() ==> start.take(i as int).contains(#[trigger] kept@[k])
                        && kept@[k].id != id && !is_idle(kept@[k], now),
                forall|k: int|
                    0 <= k < i && (#[trigger] start[k]).id != id && !is_idle(start[k], now)
                        ==> kept@.contains(start[k]),
                current matches Some(e) ==> start.take(i as int).contains(e) && e.id == id
                    && !is_idle(e, now),
                current is None ==> forall|k: int|
                    0 <= k < i && (#[trigger] start[k]).id == id ==> is_idle(start[k], now),
            decreases self.entries@.len() - i,
        {
            let e = self.entries[i];
            let ghost done = kept@;
            assert(start.take(i + 1) =~= start.take(i as int).push(e));
            assert forall|x: Retry| start.take(i as int).contains(x) implies start.take(
                i + 1,
            ).contains(x) by {
                let j = choose|j: int| 0 <= j < i && start.take(i as int)[j] == x;
                assert(start.take(i + 1)[j] == x);
            }
            assert(start.take(i + 1)[i as int] == e);
            if now < e.last || now - e.last < 120_000 {
                if e.id == id {
                    current = Some(e);
                } else {
                    kept.push(e);
                    assert(kept@[done.len() as int] == e);
                    assert forall|k: int|
                        0 <= k < i && (#[trigger] start[k]).id != id && !is_idle(
                            start[k],
                            now,
                        ) implies kept@.contains(start[k]) by {
                        let j = choose|j: int| 0 <= j < done.len() && done[j] == start[k];
                        assert(kept@[j] == start[k]);
                    }
                    assert forall|a: int, b: int|
                        0 <= a < kept@.len() && 0 <= b < kept@.len() && (#[trigger] kept@[a]).id
                            == (#[trigger] kept@[b]).id implies a == b by {
                        if a < done.len() && b == done.len() {
                            let j = choose|j: int| 0 <= j < i && start.take(i as int)[j] == done[a];
                            assert(start[j].id == start[i as int].id);
                        }
                        if b < done.len() && a == done.len() {
                            let j = choose|j: int| 0 <= j < i && start.take(i as int)[j] == done[b];
                            assert(start[j].id == start[i as int].id);
                        }
                    }
                }
            }
            i += 1;
        }
        assert(start.take(start.len() as int) =~= start);
        let entry = match current {
            Some(e) => e,
            None => Retry {
                id,
                last: if now >= 60_000 {
                    now - 60_000
                } else {
                    now
                },
                attempts: 0,
            },
        };
        proof {
            if current is Some {
                let j = choose|j: int| 0 <= j < start.len() && start[j] == current->0;
                lemma_retry_of(start, j);
            } else if exists|k: int| 0 <= k < start.len() && (#[trigger] start[k]).id == id {
                let k = choose|k: int| 0 <= k < start.len() && (#[trigger] start[k]).id == id;
                lemma_retry_of(start, k);
            }
            assert(entry == counted_retry(start, id, now));
        }
        let ticked = now >= entry.last && now - entry.last >= 5_000;
        let next = if ticked {
            Retry {
                id,
                last: now,
                attempts: if entry.attempts < u32::MAX {
                    entry.attempts + 1
                } else {
                    entry.attempts
                },
            }
        } else {
            entry
        };
        let ghost others = kept@;
        kept.push(next);
        self.entries = kept;
        proof {
            let end = self.entries@;
            assert(end == others.push(next));
            assert forall|a: int, b: int|
                0 <= a < end.len() && 0 <= b < end.len() && (#[trigger] end[a]).id == (
                #[trigger] end[b]).id implies a == b by {
                if a < others.len() && b < others.len() {
                    assert(others[a].id == others[b].id);
                }
            }
            assert(end[others.len() as int] == next);
            lemma_retry_of(end, others.len() as int);
            assert forall|other: i64| other != id implies #[trigger] retry_of(end, other) == (
            match retry_of(start, other) {
                Some(e) if !is_idle(e, now) => Some(e),
                _ => None,
            }) by {
                if exists|k: int| 0 <= k < start.len() && (#[trigger] start[k]).id == other {
                    let k = choose|k: int| 0 <= k < start.len() && (#[trigger] start[k]).id == other;
                    lemma_retry_of(start, k);
                    if !is_idle(start[k], now) {
                        assert(others.contains(start[k]));
                        let j = choose|j: int| 0 <= j < others.len() && others[j] == start[k];
                        assert(end[j] == start[k]);
                        lemma_retry_of(end, j);
                    }
                }
                if exists|k: int| 0 <= k < end.len() && (#[trigger] end[k]).id == other {
                    let k = choose|k: int| 0 <= k < end.len() && (#[trigger] end[k]).id == other;
                    assert(k < others.len());
                    assert(others[k] == end[k]);
                    let j = choose|j: int| 0 <= j < start.len() && start[j] == others[k];
                    lemma_retry_of(start, j);
                }
            }
        }
        (next.attempts, ticked)
    }
}

proof fn lemma_same_retry(start: Seq<Retry>, kept: Seq<Retry>, id: i64)
    requires
        retries_distinct(start),
        retries_distinct(kept),
        forall|k: int| 0 <= k < kept.len() ==> start.contains(#[trigger] kept[k]),
        forall|k: int| 0 <= k < start.len() && (#[trigger] start[k]).id == id ==> kept.contains(
            start[k],
        ),
    ensures
        retry_of(kept, id) == retry_of(start, id),
{
    if exists|k: int| 0 <= k < start.len() && (#[trigger] start[k]).id == id {
        let k = choose|k: int| 0 <= k < start.len() && (#[trigger] start[k]).id == id;
        lemma_retry_of(start, k);
        let j = choose|j: int| 0 <= j < kept.len() && kept[j] == start[k];
        lemma_retry_of(kept, j);
    }
    if exists|k: int| 0 <= k < kept.len() && (#[trigger] kept[k]).id == id {
        let k = choose|k: int| 0 <= k < kept.len() && (#[trigger] kept[k]).id == id;
        let j = choose|j: int| 0 <= j < start.len() && start[j] == kept[k];
        assert(start[j].id == id);
    }
}

/// Whether a stuck download is made to look again at this poll.
pub fn should_reassemble(attempts: u32, ticked: bool) -> (r: bool)
    ensures
        r == (ticked && attempts <= MAX_ATTEMPTS),
        r == (ticked && attempts < 61),
{
    ticked && attempts <= MAX_ATTEMPTS
}

/// What is said of a download that is given up.
pub open spec fn stuck_text() -> Seq<char> {
    "Download stuck - librqbit reports 100% but the file isn't on disk. Cancel and re-download to recover."@
}

/// A stuck download as it is reported: not finished, so that it is asked about
/// again, and after too many tries with an error.
pub fn report_stuck(p: Progress, attempts: u32) -> (r: Progress)
    ensures
        !r.finished,
        text::opt(r.error) == (if attempts > MAX_ATTEMPTS {
            Some(stuck_text())
        } else {
            text::opt(p.error)
        }),
        r.downloaded_bytes == p.downloaded_bytes,
        r.total_bytes == p.total_bytes,
        r.installed == p.installed,
        r.extras_done == p.extras_done,
        r.waiting_for == p.waiting_for,
        attempts < 61 ==> text::opt(r.error) == text::opt(p.error),
        attempts > 60 ==> r.error is Some,
{
    let mut out = p;
    out.finished = false;
    if attempts > MAX_ATTEMPTS {
        out.error = Some(
            copy(
                "Download stuck - librqbit reports 100% but the file isn't on disk. Cancel and re-download to recover.",
            ),
        );
    }
    out
}

/// What the disk says of an archive that the session has a place for.
pub struct ArchiveState {
    pub there: bool,
    /// The seconds since the lock of its extraction was written, where there is
    /// one and they are known.
    pub lock_age: Option<u64>,
}

/// What to do about a download after a poll.
#[derive(Clone, Copy, PartialEq, Eq, Structural)]
pub enum PollAction {
    /// Nothing: it goes on, or it is done.
    Nothing,
    /// The archive is there: take the lock of its extraction, after the lock of
    /// one that died is dropped.
    TakeLock { drop_stale: bool },
    /// The session has all of it and wrote no file: make it look again.
    Reassemble,
}

/// A complete download waits to be unpacked.
pub open spec fn is_due(
    game: Game,
    reported: Progress,
    nearly: bool,
    on_disk: Option<u64>,
    archive: Option<ArchiveState>,
) -> bool {
    is_complete(reported, nearly, on_disk) && !game.installed && archive is Some
}

/// The archive's lock belongs to an extraction that died.
pub open spec fn has_stale_lock(archive: ArchiveState) -> bool {
    archive.lock_age matches Some(age) && lock_is_stale_at(age)
}

/// What is reported of a download, and what to do about it. A download is asked
/// about once a second while it is under way. It is reported as finished only once
/// its archive is on disk, and is tried again while it is not.
pub fn get_download_progress(
    game: &Game,
    manager: bool,
    reported: Option<Progress>,
    extras: &Extras,
    nearly: bool,
    on_disk: Option<u64>,
    archive: &Option<ArchiveState>,
    retries: &mut RetryState,
    now: u64,
) -> (r: (Option<Progress>, PollAction))
    requires
        retries_distinct(old(retries).entries@),
    ensures
        retries_distinct(final(retries).entries@),
        r.0 is Some <==> game.game_torrent_index is Some && manager && reported is Some,
        match r.0 {
            None => r.1 == PollAction::Nothing && *final(retries) == *old(retries),
            Some(p) => {
                let given = reported->0;
                &&& p.total_bytes == given.total_bytes
                &&& p.installed == game.installed
                &&& p.extras_done == extras_state(*extras, given.extras_done)
                &&& p.waiting_for == given.waiting_for
                &&& p.downloaded_bytes == (if !given.finished && is_complete(given, nearly, on_disk) {
                    given.total_bytes
                } else {
                    given.downloaded_bytes
                })
                &&& if !is_due(*game, given, nearly, on_disk, *archive) {
                    &&& p.finished == is_complete(given, nearly, on_disk)
                    &&& p.error == given.error
                    &&& r.1 == PollAction::Nothing
                    &&& *final(retries) == *old(retries)
                } else if archive->0.there {
                    &&& p.finished
                    &&& p.error == given.error
                    &&& r.1 == (PollAction::TakeLock { drop_stale: has_stale_lock(archive->0) })
                    &&& retry_of(final(retries).entries@, game.id) is None
                    &&& forall|other: i64|
                        other != game.id ==> #[trigger] retry_of(final(retries).entries@, other)
                            == retry_of(old(retries).entries@, other)
                } else {
                    let counted = counted_retry(old(retries).entries@, game.id, now);
                    let e = ticked_retry(counted, now);
                    &&& !p.finished
                    &&& text::opt(p.error) == (if e.attempts > MAX_ATTEMPTS {
                        Some(stuck_text())
                    } else {
                        text::opt(given.error)
                    })
                    &&& r.1 == (if now - counted.last >= 5_000 && e.attempts <= MAX_ATTEMPTS {
                        PollAction::Reassemble
                    } else {
                        PollAction::Nothing
                    })
                    &&& retry_of(final(retries).entries@, game.id) == Some(e)
                    &&& forall|other: i64|
                        other != game.id ==> #[trigger] retry_of(final(retries).entries@, other)
                            == (match retry_of(old(retries).entries@, other) {
                            Some(e) if !is_idle(e, now) => Some(e),
                            _ => None,
                        })
                }
            },
        },
        r.1 is TakeLock ==> !game.installed && archive is Some && archive->0.there,
        r.1 is Reassemble ==> !game.installed && archive is Some && !archive->0.there,
        game.installed ==> r.1 is Nothing,
        r.0 matches Some(p) && p.finished && !game.installed && archive is Some ==> archive->0.there,
{
    if game.game_torrent_index.is_none() || !manager {
        return (None, PollAction::Nothing);
    }
    let given = match reported {
        Some(p) => p,
        None => {
            return (None, PollAction::Nothing);
        },
    };
    let p = settle_progress(given, game.installed, extras, nearly, on_disk);
    if !p.finished || game.installed {
        return (Some(p), PollAction::Nothing);
    }
    match archive {
        None => (Some(p), PollAction::Nothing),
        Some(a) => if a.there {
            retries.clear(game.id);
            let drop_stale = match a.lock_age {
                Some(age) => lock_is_stale(age),
                None => false,
            };
            (Some(p), PollAction::TakeLock { drop_stale })
        } else {
            let (attempts, ticked) = retries.tick(game.id, now);
            let action = if should_reassemble(attempts, ticked) {
                PollAction::Reassemble
            } else {
                PollAction::Nothing
            };
            (Some(report_stuck(p, attempts)), action)
        },
    }
}

/// The English game that a variant is unpacked onto.
pub struct BaseState {
    pub title: String,
    pub unpacked: bool,
}

/// What to do once the lock of an extraction was tried for.
#[derive(Clone, Copy, PartialEq, Eq, Structural)]
pub enum LockAction {
    /// Another extraction holds it.
    Nothing,
    /// Give it back: the English game is still on its way.
    Release,
    /// Unpack, onto a copy of the English game or by itself.
    Unpack { onto_base: bool },
}

/// What is reported once the lock was tried for, and what to do with it.
pub fn lock_outcome(p: Progress, taken: bool, base: &Option<BaseState>) -> (r: (Progress, LockAction))
    ensures
        r.1 == (if !taken {
            LockAction::Nothing
        } else {
            match base {
                Some(b) => if b.unpacked {
                    LockAction::Unpack { onto_base: true }
                } else {
                    LockAction::Release
                },
                None => LockAction::Unpack { onto_base: false },
            }
        }),
        text::opt(r.0.waiting_for) == (if r.1 == LockAction::Release {
            Some((base->0).title@)
        } else {
            text::opt(p.waiting_for)
        }),
        r.0.downloaded_bytes == p.downloaded_bytes,
        r.0.total_bytes == p.total_bytes,
        r.0.finished == p.finished,
        r.0.installed == p.installed,
        r.0.extras_done == p.extras_done,
        r.0.error == p.error,
        r.1 is Unpack ==> taken,
        taken && base is Some && !base->0.unpacked ==> r.1 is Release,
        r.1 == (LockAction::Unpack { onto_base: true }) ==> base is Some && base->0.unpacked,
{
    if !taken {
        return (p, LockAction::Nothing);
    }
    match base {
        None => (p, LockAction::Unpack { onto_base: false }),
        Some(b) => if b.unpacked {
            (p, LockAction::Unpack { onto_base: true })
        } else {
            let mut out = p;
            out.waiting_for = Some(copy(b.title.as_str()));
            (out, LockAction::Release)
        },
    }
}

/// What an extraction under the lock came to.
#[derive(Clone, Copy, PartialEq, Eq, Structural)]
pub enum InstallOutcome {
    /// The game is installed.
    Installed,
    /// The archive is a placeholder or a fragment: it is removed, and the game
    /// leaves the library, so that a new download starts clean.
    Discard,
    /// The archive stays, and the next poll tries again.
    Failed,
    /// The archive was removed while the lock was waited for.
    Gone,
}

/// What an extraction came to. The lock is given back in every case.
pub fn install_outcome(zip_there: bool, failed: &Option<ExtractError>) -> (r: InstallOutcome)
    ensures
        r == (if !zip_there {
            InstallOutcome::Gone
        } else {
            match failed {
                None => InstallOutcome::Installed,
                Some(e) => if e is NotAnArchive {
                    InstallOutcome::Discard
                } else {
                    InstallOutcome::Failed
                },
            }
        }),
        r is Installed ==> zip_there && failed is None,
        r is Discard ==> failed is Some,
{
    if !zip_there {
        return InstallOutcome::Gone;
    }
    match failed {
        None => InstallOutcome::Installed,
        Some(e) => if e.is_not_an_archive() {
            InstallOutcome::Discard
        } else {
            InstallOutcome::Failed
        },
    }
}

/// The tries that a download gets never go down from one poll to the next while
/// it is being asked about.
pub proof fn law_attempts_never_drop(entries: Seq<Retry>, id: i64, now: u64)
    requires
        retry_of(entries, id) matches Some(e) && e.id == id && !is_idle(e, now),
    ensures
        ticked_retry(counted_retry(entries, id, now), now).attempts >= (retry_of(
            entries,
            id,
        )->0).attempts,
{
}

// ── Cancelling ───────────────────────────────────────────────────────────────

/// A localized game that was cancelled with the English one it needs.
pub struct CancelledDependent {
    pub id: i64,
    pub title: String,
}

/// Another row of the library wants the same archive of extras.
pub open spec fn extras_shared(rows: Seq<Game>, game: Game, extras: i64) -> bool {
    exists|i: int|
        0 <= i < rows.len() && (#[trigger] rows[i]).gamedata_torrent_index == Some(extras)
            && rows[i].id != game.id && rows[i].in_library
}

/// The archive of extras that nothing needs once `game` is gone.
pub fn gamedata_drop(rows: &Vec<Game>, game: &Game) -> (r: Option<usize>)
    ensures
        r == match game.gamedata_torrent_index {
            Some(x) if !extras_shared(rows@, *game, x) => Some(x as usize),
            _ => None,
        },
{
    let extras: i64 = match game.gamedata_torrent_index {
        Some(x) => x,
        None => {
            return None;
        },
    };
    let mut i: usize = 0;
    while i < rows.len()
        invariant
            i <= rows@.len(),
            game.gamedata_torrent_index == Some(extras),
            forall|k: int|
                0 <= k < i ==> !((#[trigger] rows@[k]).gamedata_torrent_index == Some(extras)
                    && rows@[k].id != game.id && rows@[k].in_library),
        decreases rows@.len() - i,
    {
        let other = &rows[i];
        let shares = match other.gamedata_torrent_index {
            Some(x) => x == extras,
            None => false,
        };
        if shares && other.id != game.id && other.in_library {
            assert(rows@[i as int].in_library);
            return None;
        }
        i += 1;
    }
    Some(extras as usize)
}

/// The waiting row can be cancelled: the catalogue says where its archive is.
pub open spec fn can_cancel(g: Game) -> bool {
    g.game_torrent_index is Some && g.torrent_source is Some
}

/// The positions of the rows among the first `n` that can be cancelled.
pub open spec fn cancellable_upto(rows: Seq<Game>, n: int) -> Seq<int>
    decreases n,
{
    if n <= 0 {
        Seq::<int>::empty()
    } else if can_cancel(rows[n - 1]) {
        cancellable_upto(rows, n - 1).push(n - 1)
    } else {
        cancellable_upto(rows, n - 1)
    }
}

/// What to fetch of the English game that a patch needs: nothing where it is installed.
pub fn queue_base_game(base: &Game, main_ready: bool) -> (r: Result<Vec<usize>, String>)
    ensures
        match r {
            Ok(files) => if base.installed {
                files@.len() == 0
            } else {
                main_ready && base.game_torrent_index is Some && files@ == download_files(*base)
            },
            Err(message) => !base.installed && if !main_ready {
                message@ == "eXoDOS manager not initialized"@
            } else {
                base.game_torrent_index is None && message@ == "base row has no torrent index"@
            },
        },
{
    let mut files: Vec<usize> = Vec::new();
    if base.installed {
        return Ok(files);
    }
    if !main_ready {
        return Err(copy("eXoDOS manager not initialized"));
    }
    match base.game_torrent_index {
        Some(i) => {
            files.push(i as usize);
            if let Some(extras) = base.gamedata_torrent_index {
                files.push(extras as usize);
            }
            assert(files@ =~= download_files(*base));
            Ok(files)
        },
        None => Err(copy("base row has no torrent index")),
    }
}

/// The files that are no longer fetched once a game's download is cancelled: its
/// archive, and the extras that no other game of the library uses.
pub open spec fn cancelled_files(rows: Seq<Game>, game: Game) -> Seq<usize> {
    (match game.game_torrent_index {
        Some(i) => seq![i as usize],
        None => Seq::<usize>::empty(),
    }) + (match game.gamedata_torrent_index {
        Some(x) if !extras_shared(rows, game, x) => seq![x as usize],
        _ => Seq::<usize>::empty(),
    })
}

/// What a cancelled download drops.
pub struct CancelPlan {
    /// The torrent that the game belongs to.
    pub source: String,
    /// The files that are no longer wanted.
    pub files: Vec<usize>,
}

/// What a cancelled download drops: the game's archive, and its extras where no other
/// game in the library needs them. `rows` are the rows of the catalogue.
pub fn cancel_download(rows: &Vec<Game>, game: &Game) -> (r: CancelPlan)
    ensures
        r.source@ == source_of(*game),
        r.files@ == cancelled_files(rows@, *game),
{
    let mut files: Vec<usize> = Vec::new();
    if let Some(i) = game.game_torrent_index {
        files.push(i as usize);
    }
    if let Some(extras) = gamedata_drop(rows, game) {
        files.push(extras);
    }
    assert(files@ =~= (match game.game_torrent_index {
        Some(i) => seq![i as usize],
        None => Seq::<usize>::empty(),
    }) + (match game.gamedata_torrent_index {
        Some(x) if !extras_shared(rows@, *game, x) => seq![x as usize],
        _ => Seq::<usize>::empty(),
    }));
    CancelPlan { source: source_text(game), files }
}

/// The rows that are cancelled with the English game that they wait for.
pub fn cancel_dependents(waiting: &Vec<Game>) -> (r: Vec<CancelledDependent>)
    ensures
        r@.len() == cancellable_upto(waiting@, waiting@.len() as int).len(),
        forall|k: int|
            0 <= k < r@.len() ==> {
                let g = waiting@[cancellable_upto(waiting@, waiting@.len() as int)[k]];
                (#[trigger] r@[k]).id == g.id && r@[k].title@ == g.title@
            },
{
    let mut out: Vec<CancelledDependent> = Vec::new();
    let mut i: usize = 0;
    while i < waiting.len()
        invariant
            i <= waiting@.len(),
            out@.len() == cancellable_upto(waiting@, i as int).len(),
            forall|k: int|
                0 <= k < out@.len() ==> {
                    let g = waiting@[cancellable_upto(waiting@, i as int)[k]];
                    (#[trigger] out@[k]).id == g.id && out@[k].title@ == g.title@
                },
        decreases waiting@.len() - i,
    {
        let g = &waiting[i];
        if g.game_torrent_index.is_some() && g.torrent_source.is_some() {
            out.push(CancelledDependent { id: g.id, title: copy(g.title.as_str()) });
        }
        i += 1;
    }
    out
}

// ── The DOSBox confs ─────────────────────────────────────────────────────────

/// The extraction of the DOSBox confs: one at a time, and not again for five
/// minutes after it failed. Times are in seconds.
pub struct DosmetaState {
    pub in_flight: bool,
    pub failed_at: Option<u64>,
}

/// An extraction may start at `now`.
pub open spec fn may_extract(s: DosmetaState, now: u64) -> bool {
    !s.in_flight && match s.failed_at {
        Some(t) => now - t >= 300,
        None => true,
    }
}

impl DosmetaState {
    pub fn new() -> (r: Self)
        ensures
            !r.in_flight,
            r.failed_at is None,
    {
        DosmetaState { in_flight: false, failed_at: None }
    }

    /// Starts an extraction if one may start.
    pub fn try_begin(&mut self, now: u64) -> (r: bool)
        ensures
            r == may_extract(*old(self), now),
            final(self).in_flight == (old(self).in_flight || r),
            final(self).failed_at == old(self).failed_at,
    {
        if self.in_flight {
            return false;
        }
        if let Some(t) = self.failed_at {
            if now < t || now - t < 300 {
                return false;
            }
        }
        self.in_flight = true;
        true
    }

    /// Ends an extraction.
    pub fn finish(&mut self, success: bool, now: u64)
        ensures
            !final(self).in_flight,
            final(self).failed_at == (if success {
                None
            } else {
                Some(now)
            }),
    {
        self.in_flight = false;
        self.failed_at = if success {
            None
        } else {
            Some(now)
        };
    }
}

// ── Unpacking before a launch ────────────────────────────────────────────────

/// Why an archive was not unpacked.
pub enum ExtractError {
    /// It is none: the placeholder or the fragment that a torrent leaves.
    NotAnArchive(String),
    Other(String),
}

impl ExtractError {
    pub open spec fn text(self) -> Seq<char> {
        match self {
            ExtractError::NotAnArchive(m) => m@,
            ExtractError::Other(m) => m@,
        }
    }

    pub fn is_not_an_archive(&self) -> (r: bool)
        ensures
            r == (*self is NotAnArchive),
    {
        match self {
            ExtractError::NotAnArchive(m) => true,
            ExtractError::Other(m) => false,
        }
    }

    /// What is said of it.
    pub fn message(&self) -> (r: String)
        ensures
            r@ == self.text(),
    {
        match self {
            ExtractError::NotAnArchive(m) => copy(m.as_str()),
            ExtractError::Other(m) => copy(m.as_str()),
        }
    }
}

/// Why an archive could not be read.
#[derive(Clone, Copy, PartialEq, Eq, Structural)]
pub enum ZipFault {
    /// It has no directory that can be read.
    Invalid,
    /// It is of a kind that is not known.
    Unsupported,
    Other,
}

/// What a failed extraction came to. An archive that cannot be read as one is a
/// placeholder or a fragment of a download.
pub fn extract_error(fault: ZipFault, message: &str) -> (r: ExtractError)
    ensures
        r.text() == message@,
        r is NotAnArchive <==> fault != ZipFault::Other,
{
    match fault {
        ZipFault::Other => ExtractError::Other(copy(message)),
        _ => ExtractError::NotAnArchive(copy(message)),
    }
}

/// Why there is no game directory to launch from.
pub enum LaunchError {
    /// A placeholder or fragment of a torrent; the row is not installed after all.
    Placeholder { title: String },
    StillDownloading { title: String },
    NoShortcode { title: String },
    FilesMissing { title: String },
    /// Unpacked, and not where the catalogue expects it.
    Misplaced { title: String, expected: String },
    Extract(ExtractError),
    Task(String),
}

impl LaunchError {
    pub open spec fn text(self) -> Seq<char> {
        match self {
            LaunchError::Placeholder { title } => "Game ZIP for '"@ + title@
                + "' is incomplete or corrupted (torrent placeholder). Please re-download the game."@,
            LaunchError::StillDownloading { title } => "'"@ + title@
                + "' is still downloading - it will install by itself when done."@,
            LaunchError::NoShortcode { title } => "'"@ + title@
                + "' has no game directory in the catalogue"@,
            LaunchError::FilesMissing { title } => "Game files not found for '"@ + title@
                + "'. The game may need to be re-downloaded."@,
            LaunchError::Misplaced { title, expected } => "'"@ + title@
                + "' unpacked, but its folder is not where the catalogue expects it: "@ + expected@,
            LaunchError::Extract(e) => "Failed to extract game before launch: "@ + e.text(),
            LaunchError::Task(e) => "extraction task failed: "@ + e@,
        }
    }

    /// What is said of it.
    pub fn message(&self) -> (r: String)
        ensures
            r@ == self.text(),
    {
        match self {
            LaunchError::Placeholder { title } => cat3(
                "Game ZIP for '",
                title.as_str(),
                "' is incomplete or corrupted (torrent placeholder). Please re-download the game.",
            ),
            LaunchError::StillDownloading { title } => cat3(
                "'",
                title.as_str(),
                "' is still downloading - it will install by itself when done.",
            ),
            LaunchError::NoShortcode { title } => cat3(
                "'",
                title.as_str(),
                "' has no game directory in the catalogue",
            ),
            LaunchError::FilesMissing { title } => cat3(
                "Game files not found for '",
                title.as_str(),
                "'. The game may need to be re-downloaded.",
            ),
            LaunchError::Misplaced { title, expected } => {
                let head = cat3(
                    "'",
                    title.as_str(),
                    "' unpacked, but its folder is not where the catalogue expects it: ",
                );
                cat(head.as_str(), expected.as_str())
            },
            LaunchError::Extract(e) => cat(
                "Failed to extract game before launch: ",
                e.message().as_str(),
            ),
            LaunchError::Task(e) => cat("extraction task failed: ", e.as_str()),
        }
    }
}

/// Where a game's archive may lie: where the collection keeps it, and with all
/// games.
pub open spec fn zip_candidates(
    root: Seq<char>,
    source: Seq<char>,
    name: Seq<char>,
    app_path: Option<Seq<char>>,
) -> Seq<Seq<char>> {
    let own = crate::fspath::joined(root, crate::collections::rel_zip(source, name, app_path));
    let flat = crate::fspath::joined(
        root,
        crate::collections::prefix_of(source) + "/"@ + name + ".zip"@,
    );
    if flat == own {
        seq![own]
    } else {
        seq![own, flat]
    }
}

/// Where a game's archive may lie, the likeliest place first.
pub fn launch_zip_candidates(root: &str, source: &str, game_name: &str, app_path: Option<&str>) -> (r:
    Vec<String>)
    ensures
        text::texts(r@) == zip_candidates(root@, source@, game_name@, text::opt_ref(app_path)),
{
    let own = join_path(root, collection_rel_zip(source, game_name, app_path).as_str());
    let stem = cat3(collection_game_prefix(source), "/", game_name);
    let flat = join_path(root, cat(stem.as_str(), ".zip").as_str());
    let mut out: Vec<String> = Vec::new();
    if same(flat.as_str(), own.as_str()) {
        out.push(own);
    } else {
        out.push(own);
        out.push(flat);
    }
    assert(text::texts(out@) =~= zip_candidates(root@, source@, game_name@, text::opt_ref(app_path)));
    out
}

/// Where a launch looks for a game.
pub struct LaunchPlaces {
    pub game_dir: String,
    pub zips: Vec<String>,
}

/// The row names a directory.
pub open spec fn launch_code(game: Game) -> Option<Seq<char>> {
    match game.shortcode {
        Some(s) if s@.len() > 0 => Some(s@),
        _ => None,
    }
}

/// Where a launch looks for a game: its directory, and its archive.
pub fn launch_places(game: &Game, source: &str, root: &str) -> (r: Result<LaunchPlaces, LaunchError>)
    ensures
        match (r, launch_code(*game)) {
            (Ok(p), Some(code)) => {
                &&& p.game_dir@ == crate::fspath::joined(
                    root@,
                    crate::collections::rel_game_dir(source@, code, text::opt(game.application_path)),
                )
                &&& text::texts(p.zips@) == zip_candidates(
                    root@,
                    source@,
                    crate::library::archive_name(*game),
                    text::opt(game.application_path),
                )
            },
            (Err(LaunchError::NoShortcode { title }), None) => title@ == game.title@,
            _ => false,
        },
{
    let code = match &game.shortcode {
        Some(s) => if chars_of(s.as_str()).len() > 0 {
            s.as_str()
        } else {
            return Err(LaunchError::NoShortcode { title: copy(game.title.as_str()) });
        },
        None => {
            return Err(LaunchError::NoShortcode { title: copy(game.title.as_str()) });
        },
    };
    let app_path = borrow(&game.application_path);
    let game_dir = join_path(root, collection_rel_game_dir(source, code, app_path).as_str());
    let name = archive_name_of(game);
    let zips = launch_zip_candidates(root, source, name.as_str(), app_path);
    Ok(LaunchPlaces { game_dir, zips })
}

/// What a launch does first.
pub enum LaunchStep {
    /// The directory is there.
    Run,
    /// It is not: unpack the archive at this place of the list.
    Unpack { zip: usize },
}

/// The first place, `i` or later, that holds an archive.
pub open spec fn first_there(there: Seq<bool>, i: int) -> Option<int>
    decreases there.len() - i,
{
    if i >= there.len() {
        None
    } else if there[i] {
        Some(i)
    } else {
        first_there(there, i + 1)
    }
}

/// The first place that is there.
pub fn find_there(there: &Vec<bool>) -> (r: Option<usize>)
    ensures
        match r {
            Some(i) => first_there(there@, 0) == Some(i as int) && i < there@.len(),
            None => first_there(there@, 0) is None,
        },
{
    let mut i: usize = 0;
    while i < there.len()
        invariant
            i <= there@.len(),
            first_there(there@, i as int) == first_there(there@, 0),
        decreases there@.len() - i,
    {
        if there[i] {
            return Some(i);
        }
        i += 1;
    }
    None
}

/// Decides what a launch does first. `zips_there` says of each place for the
/// archive whether it holds one, and `downloading` that the session is still
/// filling it.
pub fn extract_before_launch(
    game: &Game,
    dir_there: bool,
    zips_there: &Vec<bool>,
    downloading: bool,
) -> (r: Result<LaunchStep, LaunchError>)
    ensures
        match r {
            Ok(LaunchStep::Run) => dir_there,
            Ok(LaunchStep::Unpack { zip }) => !dir_there && !downloading && first_there(
                zips_there@,
                0,
            ) == Some(zip as int),
            Err(LaunchError::FilesMissing { title }) => !dir_there && first_there(zips_there@, 0)
                is None && title@ == game.title@,
            Err(LaunchError::StillDownloading { title }) => !dir_there && downloading
                && first_there(zips_there@, 0) is Some && title@ == game.title@,
            _ => false,
        },
        dir_there ==> r matches Ok(LaunchStep::Run),
        r matches Ok(LaunchStep::Unpack { zip }) ==> zip < zips_there@.len() && zips_there@[zip as int],
        downloading && !dir_there ==> r is Err,
{
    if dir_there {
        return Ok(LaunchStep::Run);
    }
    proof {
        law_the_first_place_is_taken(zips_there@, 0);
    }
    match find_there(zips_there) {
        None => Err(LaunchError::FilesMissing { title: copy(game.title.as_str()) }),
        Some(zip) => if downloading {
            Err(LaunchError::StillDownloading { title: copy(game.title.as_str()) })
        } else {
            Ok(LaunchStep::Unpack { zip })
        },
    }
}

/// What comes of unpacking: the error to report, if there is one, and whether
/// the row turns out not to be installed.
pub fn after_unpacking(
    game: &Game,
    failed: Option<ExtractError>,
    dir_there: bool,
    game_dir: &str,
) -> (r: (Option<LaunchError>, bool))
    ensures
        r.1 == (failed matches Some(e) && e is NotAnArchive),
        match (failed, r.0) {
            (Some(ExtractError::NotAnArchive(_)), Some(LaunchError::Placeholder { title })) => title@
                == game.title@,
            (Some(ExtractError::Other(m)), Some(LaunchError::Extract(e))) => e
                == ExtractError::Other(m),
            (None, Some(LaunchError::Misplaced { title, expected })) => !dir_there && title@
                == game.title@ && expected@ == game_dir@,
            (None, None) => dir_there,
            _ => false,
        },
{
    match failed {
        Some(e) => {
            if e.is_not_an_archive() {
                (Some(LaunchError::Placeholder { title: copy(game.title.as_str()) }), true)
            } else {
                (Some(LaunchError::Extract(e)), false)
            }
        },
        None => if dir_there {
            (None, false)
        } else {
            (
                Some(
                    LaunchError::Misplaced {
                        title: copy(game.title.as_str()),
                        expected: copy(game_dir),
                    },
                ),
                false,
            )
        },
    }
}

/// The directory that the first entry in one, `i` or later, lies in.
pub open spec fn first_dir(names: Seq<Option<String>>, i: int) -> Option<Seq<char>>
    decreases names.len() - i,
{
    if i >= names.len() {
        None
    } else {
        match names[i] {
            Some(name) => match text::split_once(name@, '/') {
                Some((dir, _)) => Some(dir),
                None => first_dir(names, i + 1),
            },
            None => first_dir(names, i + 1),
        }
    }
}

/// The directory that an archive unpacks into: that of its first entry which
/// lies in one. An entry that could not be read has no name.
pub fn top_directory(names: &Vec<Option<String>>) -> (r: Option<String>)
    ensures
        text::opt(r) == first_dir(names@, 0),
{
    let mut i: usize = 0;
    while i < names.len()
        invariant
            i <= names@.len(),
            first_dir(names@, i as int) == first_dir(names@, 0),
        decreases names@.len() - i,
    {
        if let Some(name) = &names[i] {
            let chars = chars_of(name.as_str());
            if let Some((dir, rest)) = cut_once(chars.as_slice(), '/') {
                return Some(string_of(dir));
            }
        }
        i += 1;
    }
    None
}

// ── Laws ─────────────────────────────────────────────────────────────────────

/// The extras that another game of the library uses stay when a download is cancelled.
pub proof fn law_shared_extras_stay(rows: Seq<Game>, game: Game, i: int)
    requires
        0 <= i < rows.len(),
        rows[i].id != game.id,
        rows[i].in_library,
        game.gamedata_torrent_index is Some,
        rows[i].gamedata_torrent_index == game.gamedata_torrent_index,
    ensures
        extras_shared(rows, game, game.gamedata_torrent_index->0),
        cancelled_files(rows, game) == (match game.game_torrent_index {
            Some(g) => seq![g as usize],
            None => Seq::<usize>::empty(),
        }),
{
    assert(cancelled_files(rows, game) =~= match game.game_torrent_index {
        Some(g) => seq![g as usize],
        None => Seq::<usize>::empty(),
    });
}

/// A download fetches the game's own archive and its extras, and nothing else of the
/// torrent.
pub proof fn law_only_own_files_are_fetched(game: Game, file: usize)
    requires
        indices_fit(game),
        download_files(game).contains(file),
    ensures
        game.game_torrent_index == Some(file as i64) || game.gamedata_torrent_index == Some(
            file as i64,
        ),
{
    let at = download_files(game).index_of(file);
    assert(download_files(game)[at] == file);
}

/// The space that a download takes: twice its size without what is on disk, half a gigabyte of
/// room, three times the English game that it needs and what its emulator pack needs.
pub proof fn law_a_download_counts_all_its_parts(game: Game, size: i64, facts: DownloadFacts)
    requires
        0 <= size,
        2 * size <= u64::MAX,
        facts.base_size matches Some(b) ==> 0 <= b && own_space(game, size, facts) + 3 * b
            <= u64::MAX,
    ensures
        space_needed(game, size, facts) >= 2 * size - facts.on_disk + 500 * 1024 * 1024,
        facts.on_disk <= 2 * size && facts.support_ready && facts.base_size is None
            && facts.pack_size is None ==> space_needed(game, size, facts) == 2 * size
            - facts.on_disk + 500 * 1024 * 1024,
        facts.base_size matches Some(b) ==> space_needed(game, size, facts) >= 2 * size
            - facts.on_disk + 500 * 1024 * 1024 + 3 * b,
        facts.pack_size matches Some(p) ==> space_needed(game, size, facts) >= 2 * size
            - facts.on_disk + 500 * 1024 * 1024 + p,
        !facts.support_ready && game.torrent_source is Some && (game.torrent_source->0)@
            == "eXoWin9x"@ ==> space_needed(game, size, facts) >= 2 * size - facts.on_disk + 8 * 1024
            * 1024 * 1024,
        !facts.support_ready && game.torrent_source is Some && (game.torrent_source->0)@
            == "eXoScummVM"@ ==> space_needed(game, size, facts) >= 2 * size - facts.on_disk + 3
            * 1024 * 1024 * 1024,
{
    crate::collections::law_launchers();
    if let Some(p) = facts.pack_size {
        crate::content_packs::law_a_pack_needs_room(p as nat);
    }
}

/// A download is refused for want of space exactly where the free space is known and less than
/// it takes; the other refusals come before that, and a game that is there is never refused.
pub proof fn law_why_a_download_is_refused(game: Game, facts: DownloadFacts)
    ensures
        game.installed ==> refusal(game, facts) is None,
        !game.installed && game.game_torrent_index is None ==> refusal(game, facts) == Some(
            DownloadRefusal::NoIndex,
        ),
        !game.installed && game.game_torrent_index is Some && !facts.manager_ready ==> refusal(
            game,
            facts,
        ) == Some(DownloadRefusal::NoManager),
        refusal(game, facts) is Some && (refusal(game, facts)->0) is NoSpace <==> !game.installed
            && game.game_torrent_index is Some && facts.manager_ready && facts.data_dir_set
            && game.download_size is Some && facts.free is Some && facts.free->0 < space_needed(
            game,
            game.download_size->0,
            facts,
        ),
        !game.installed && game.game_torrent_index is Some && facts.manager_ready && facts.free
            is None ==> refusal(game, facts) is None,
{
}

/// A download fetches the game's archive and that of its extras, and nothing else.
pub proof fn law_the_game_and_its_extras_are_fetched(game: Game, file: usize)
    requires
        indices_fit(game),
    ensures
        download_files(game).contains(file) <==> game.game_torrent_index == Some(file as i64)
            && file <= i64::MAX || game.gamedata_torrent_index == Some(file as i64) && file
            <= i64::MAX,
{
    let files = download_files(game);
    if game.game_torrent_index == Some(file as i64) && file <= i64::MAX {
        assert(files[0] == file);
    }
    if game.gamedata_torrent_index == Some(file as i64) && file <= i64::MAX {
        assert(files.last() == file);
    }
    if files.contains(file) {
        let w = choose|w: int| 0 <= w < files.len() && files[w] == file;
    }
}

/// A download counts as complete where the session says so, or where nearly all of it has come
/// and the file on disk is as long as it has to be. A file that is too short is not complete,
/// whatever share of it the session counts.
pub proof fn law_a_short_file_is_not_complete(p: Progress, nearly: bool, on_disk: Option<u64>)
    ensures
        p.finished ==> is_complete(p, nearly, on_disk),
        !p.finished && (on_disk matches Some(len) ==> len < p.total_bytes) ==> !is_complete(
            p,
            nearly,
            on_disk,
        ),
        !p.finished && !nearly ==> !is_complete(p, nearly, on_disk),
        !p.finished && p.total_bytes == 0 ==> !is_complete(p, nearly, on_disk),
        nearly && p.total_bytes > 0 && on_disk == Some(p.total_bytes) ==> is_complete(
            p,
            nearly,
            on_disk,
        ),
{
}

/// A stuck download is made to look again every five seconds at most: the count of tries goes
/// up by one then, and not before. After two minutes of silence it starts anew.
pub proof fn law_tries_are_five_seconds_apart(entries: Seq<Retry>, i: int, now: u64)
    requires
        retries_distinct(entries),
        0 <= i < entries.len(),
        now >= 60_000,
        entries[i].attempts < u32::MAX,
    ensures
        ({
            let e = entries[i];
            let counted = counted_retry(entries, e.id, now);
            let next = ticked_retry(counted, now);
            &&& next.id == e.id
            &&& now - e.last < 5_000 ==> next == e
            &&& 5_000 <= now - e.last < 120_000 ==> next.attempts == e.attempts + 1 && next.last
                == now
            &&& now - e.last >= 120_000 ==> next.attempts == 1 && next.last == now
        }),
{
    lemma_retry_of(entries, i);
}

/// The archive of a DOS game is looked for among the DOS games, and that of a translation first
/// in the directory of its language.
pub proof fn law_where_an_archive_is_looked_for(
    root: Seq<char>,
    name: Seq<char>,
    app_path: Option<Seq<char>>,
)
    ensures
        zip_candidates(root, "eXoDOS"@, name, app_path) == seq![
            crate::fspath::joined(root, "eXo/eXoDOS/"@ + name + ".zip"@),
        ],
        zip_candidates(root, "eXoDOS_GLP"@, name, app_path)[0] == crate::fspath::joined(
            root,
            "eXo/eXoDOS/!german/"@ + name + ".zip"@,
        ),
        zip_candidates(root, "eXoDOS_GLP"@, name, app_path).last() == crate::fspath::joined(
            root,
            "eXo/eXoDOS/"@ + name + ".zip"@,
        ),
{
    crate::collections::law_where_the_games_lie(name, app_path);
    crate::collections::law_zip_beside_dir("eXoDOS"@, name, app_path);
    crate::collections::law_zip_beside_dir("eXoDOS_GLP"@, name, app_path);
    crate::collections::law_the_language_packs_share_the_dos_games();
    reveal_strlit("/");
    reveal_strlit("eXo/eXoDOS");
    reveal_strlit("eXo/eXoDOS/");
    assert("eXo/eXoDOS"@ + "/"@ + name + ".zip"@ =~= "eXo/eXoDOS/"@ + name + ".zip"@);
    assert(zip_candidates(root, "eXoDOS"@, name, app_path) =~= seq![
        crate::fspath::joined(root, "eXo/eXoDOS/"@ + name + ".zip"@),
    ]);
}

/// The first place that is there is taken, and none is where none is there.
pub proof fn law_the_first_place_is_taken(there: Seq<bool>, from: int)
    requires
        0 <= from,
    ensures
        match first_there(there, from) {
            Some(i) => from <= i < there.len() && there[i] && forall|k: int|
                from <= k < i ==> !there[k],
            None => forall|k: int| from <= k < there.len() ==> !there[k],
        },
    decreases there.len() - from,
{
    if from < there.len() && !there[from] {
        law_the_first_place_is_taken(there, from + 1);
    }
}

/// A lock belongs to an extraction that died once it is more than five minutes old, and not
/// before.
pub proof fn law_a_lock_dies_after_five_minutes(age: u64)
    ensures
        lock_is_stale_at(age) <==> age >= 5 * 60 + 1,
        has_stale_lock(ArchiveState { there: true, lock_age: Some(age) }) <==> age >= 5 * 60 + 1,
        !has_stale_lock(ArchiveState { there: true, lock_age: None }),
{
}

/// The confs are unpacked one at a time, and after a failure not again for five minutes.
pub proof fn law_confs_are_unpacked_one_at_a_time(s: DosmetaState, now: u64)
    ensures
        s.in_flight ==> !may_extract(s, now),
        !s.in_flight && s.failed_at is None ==> may_extract(s, now),
        !s.in_flight ==> (s.failed_at matches Some(t) ==> (may_extract(s, now) <==> now >= t + 5
            * 60)),
{
}

} // verus!
