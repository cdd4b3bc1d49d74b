//! Taking a game off the disk, and putting it back to how it came.

use crate::collections::{collection_rel_game_dir, collection_rel_zip};
use crate::fspath::{join_path, parent_of};
use crate::install::{find_there, source_text, top_directory};
use crate::library::{archive_name_of, contains_index};
use crate::models::{Game, TorrentIndex};
use crate::scan::RowFlags;
use crate::text;
use crate::text::{
    borrow, cat, cat3, chars_of, copy, decimal_of, rcut_once, string_of,
};
use vstd::prelude::*;

verus! {

/// Where a game's directory goes when the game is uninstalled, below the root: a
/// shelf beside it, so that the variants of a game keep apart.
pub open spec fn rel_save(
    source: Seq<char>,
    shortcode: Seq<char>,
    app_path: Option<Seq<char>>,
) -> Seq<char> {
    match text::rsplit_once(crate::collections::rel_game_dir(source, shortcode, app_path), '/') {
        Some((parent, _)) => parent + "/!save/"@ + shortcode,
        None => "!save/"@ + shortcode,
    }
}

/// Where a game's directory goes when the game is uninstalled.
pub fn rel_save_dir(source: &str, shortcode: &str, app_path: Option<&str>) -> (r: String)
    ensures
        r@ == rel_save(source@, shortcode@, text::opt_ref(app_path)),
{
    let rel = collection_rel_game_dir(source, shortcode, app_path);
    let chars = chars_of(rel.as_str());
    match rcut_once(chars.as_slice(), '/') {
        Some((parent, leaf)) => cat3(string_of(parent).as_str(), "/!save/", shortcode),
        None => cat("!save/", shortcode),
    }
}

/// What an uninstall works on. Only what belongs to this variant of the game is
/// touched.
pub struct UninstallPlan {
    /// The game's directory.
    pub game_dir: String,
    /// Where the directory goes.
    pub save_dir: String,
    /// The archive, below the root.
    pub rel_zip: String,
    /// The archive.
    pub zip: String,
}

/// The parts of a game, as texts.
pub struct Parts {
    pub game_dir: Seq<char>,
    pub save_dir: Seq<char>,
    pub rel_zip: Seq<char>,
    pub zip: Seq<char>,
}

impl View for UninstallPlan {
    type V = Parts;

    open spec fn view(&self) -> Parts {
        Parts {
            game_dir: self.game_dir@,
            save_dir: self.save_dir@,
            rel_zip: self.rel_zip@,
            zip: self.zip@,
        }
    }
}

/// Where the parts of a game with this shortcode lie.
pub open spec fn parts_of_game(root: Seq<char>, game: Game, shortcode: Seq<char>) -> Parts {
    let source = crate::install::source_of(game);
    let app_path = text::opt(game.application_path);
    let rel_zip = crate::collections::rel_zip(source, crate::library::archive_name(game), app_path);
    Parts {
        game_dir: crate::fspath::joined(
            root,
            crate::collections::rel_game_dir(source, shortcode, app_path),
        ),
        save_dir: crate::fspath::joined(root, rel_save(source, shortcode, app_path)),
        rel_zip,
        zip: crate::fspath::joined(root, rel_zip),
    }
}

fn plan_parts(root: &str, game: &Game, shortcode: &str) -> (r: UninstallPlan)
    ensures
        r@ == parts_of_game(root@, *game, shortcode@),
{
    let source = source_text(game);
    let name = archive_name_of(game);
    let app_path = borrow(&game.application_path);
    let rel = collection_rel_game_dir(source.as_str(), shortcode, app_path);
    let rel_save = rel_save_dir(source.as_str(), shortcode, app_path);
    let rel_zip = collection_rel_zip(source.as_str(), name.as_str(), app_path);
    let zip = join_path(root, rel_zip.as_str());
    UninstallPlan {
        game_dir: join_path(root, rel.as_str()),
        save_dir: join_path(root, rel_save.as_str()),
        rel_zip,
        zip,
    }
}

/// What to uninstall. A game that runs is left alone, and so is one without a
/// shortcode.
pub fn uninstall_game(game: &Game, torrent_root: &str, running: bool) -> (r: Result<
    UninstallPlan,
    String,
>)
    ensures
        match r {
            Ok(plan) => {
                &&& !running
                &&& game.shortcode is Some
                &&& plan@ == parts_of_game(torrent_root@, *game, text::opt(game.shortcode)->0)
            },
            Err(message) => if running {
                message@ == "'"@ + game.title@
                    + "' is currently running - quit DOSBox before uninstalling."@
            } else {
                game.shortcode is None && message@ == "Game has no shortcode"@
            },
        },
        running ==> r is Err,
        !running && game.shortcode is Some ==> r is Ok,
{
    if running {
        return Err(
            cat3(
                "'",
                game.title.as_str(),
                "' is currently running - quit DOSBox before uninstalling.",
            ),
        );
    }
    match &game.shortcode {
        Some(shortcode) => Ok(plan_parts(torrent_root, game, shortcode.as_str())),
        None => Err(copy("Game has no shortcode")),
    }
}

/// What an uninstall comes to.
pub struct UninstallEnd {
    /// What is said of it.
    pub message: String,
    /// What the catalogue says of the game from then on.
    pub flags: RowFlags,
}

/// What an uninstall comes to once the files were seen to: the game is neither
/// installed nor in the library, whatever it was before.
pub fn uninstall_outcome(game: &Game) -> (r: UninstallEnd)
    ensures
        r.message@ == "Uninstalled: "@ + game.title@,
        !r.flags.installed,
        !r.flags.in_library,
{
    UninstallEnd {
        message: cat("Uninstalled: ", game.title.as_str()),
        flags: RowFlags { installed: false, in_library: false },
    }
}

// ── The backup ───────────────────────────────────────────────────────────────

/// What to do next about a game's directory.
#[derive(Clone, Copy, PartialEq, Eq, Structural)]
pub enum BackupStep {
    /// Delete an older backup, and rename the directory.
    Rename,
    /// Copy the directory.
    Copy,
    /// Delete the directory.
    Delete,
    /// Nothing is left to do.
    Done,
    /// The directory could not be backed up, and stays.
    Keep,
}

/// How far a backup has come.
#[derive(Clone, Copy, PartialEq, Eq, Structural)]
pub enum BackupState {
    /// Nothing was tried yet.
    Start { there: bool },
    Renamed { ok: bool },
    Copied { ok: bool },
    Deleted,
}

/// What to do next about a game's directory: a rename, and where that fails a copy
/// with the original deleted behind it.
pub fn backup_step(state: BackupState) -> (r: BackupStep)
    ensures
        r == (match state {
            BackupState::Start { there } => if there {
                BackupStep::Rename
            } else {
                BackupStep::Done
            },
            BackupState::Renamed { ok } => if ok {
                BackupStep::Done
            } else {
                BackupStep::Copy
            },
            BackupState::Copied { ok } => if ok {
                BackupStep::Delete
            } else {
                BackupStep::Keep
            },
            BackupState::Deleted => BackupStep::Done,
        }),
        r == BackupStep::Delete ==> state == (BackupState::Copied { ok: true }),
        r == BackupStep::Copy ==> state == (BackupState::Renamed { ok: false }),
        state == (BackupState::Copied { ok: false }) ==> r == BackupStep::Keep,
        state == (BackupState::Start { there: true }) ==> r == BackupStep::Rename,
{
    match state {
        BackupState::Start { there } => if there {
            BackupStep::Rename
        } else {
            BackupStep::Done
        },
        BackupState::Renamed { ok } => if ok {
            BackupStep::Done
        } else {
            BackupStep::Copy
        },
        BackupState::Copied { ok } => if ok {
            BackupStep::Delete
        } else {
            BackupStep::Keep
        },
        BackupState::Deleted => BackupStep::Done,
    }
}

/// How a copy of a directory came out. One that missed anything has failed, so that
/// nothing is deleted behind it. `failures` says what went wrong, one text for each
/// thing that was missed.
pub fn copy_outcome(from: &str, failures: &Vec<String>) -> (r: Result<(), String>)
    ensures
        match r {
            Ok(_) => failures@.len() == 0,
            Err(message) => failures@.len() > 0 && message@ == text::decimal(failures@.len())
                + " item(s) failed while copying "@ + from@ + " (first: "@ + failures@[0]@ + ")"@,
        },
{
    if failures.len() == 0 {
        return Ok(());
    }
    let n = decimal_of(failures.len() as u64);
    let head = cat3(n.as_str(), " item(s) failed while copying ", from);
    let first = cat3(" (first: ", failures[0].as_str(), ")");
    let message = cat(head.as_str(), first.as_str());
    assert(message@ =~= n@ + " item(s) failed while copying "@ + from@ + " (first: "@
        + failures@[0]@ + ")"@);
    Err(message)
}

// ── The torrents ─────────────────────────────────────────────────────────────

/// What a torrent has to do once files are gone.
pub enum LedgerStep {
    /// Forget the pieces of the deleted files, and no longer want the dropped ones.
    Invalidate { dropped: Vec<usize>, deleted: Vec<usize> },
    /// No longer want these files.
    Deselect { dropped: Vec<usize> },
    Nothing,
}

/// Where files with the first `n` of these paths stand in a torrent.
pub open spec fn found_indices(index: TorrentIndex, rels: Seq<Seq<char>>, n: int) -> Seq<usize>
    decreases n,
{
    if n <= 0 {
        Seq::<usize>::empty()
    } else {
        match crate::models::path_from(index.files@, rels[n - 1], 0) {
            Some(i) => found_indices(index, rels, n - 1).push(index.files@[i].index),
            None => found_indices(index, rels, n - 1),
        }
    }
}

/// The list, with an index that it does not hold yet.
pub open spec fn with_index(list: Seq<usize>, index: Option<usize>) -> Seq<usize> {
    match index {
        Some(i) => if list.contains(i) {
            list
        } else {
            list.push(i)
        },
        None => list,
    }
}

/// What a torrent no longer wants: the files that are gone, and in the game's own
/// torrent the game's archive and the extras that no other game needs.
pub open spec fn dropped_indices(
    deleted: Seq<usize>,
    is_source: bool,
    game_index: Option<usize>,
    extras: Option<usize>,
) -> Seq<usize> {
    if is_source {
        with_index(with_index(deleted, game_index), extras)
    } else {
        deleted
    }
}

fn push_index(list: &mut Vec<usize>, index: Option<usize>)
    ensures
        final(list)@ == with_index(old(list)@, index),
{
    if let Some(i) = index {
        if !contains_index(list, i) {
            list.push(i);
        }
    }
}

/// What a torrent has to do after an uninstall. `deleted_rels` are the files that
/// are really gone: only their pieces are forgotten. The extras stay on disk, so
/// they are at most no longer wanted.
pub fn ledger_step(
    index: &TorrentIndex,
    is_source: bool,
    deleted_rels: &Vec<String>,
    game_index: Option<usize>,
    extras: Option<usize>,
) -> (r: LedgerStep)
    ensures
        ({
            let gone = found_indices(*index, text::texts(deleted_rels@), deleted_rels@.len() as int);
            match r {
                LedgerStep::Invalidate { dropped, deleted } => {
                    &&& gone.len() > 0
                    &&& deleted@ == gone
                    &&& dropped@ == dropped_indices(gone, is_source, game_index, extras)
                },
                LedgerStep::Deselect { dropped } => {
                    &&& gone.len() == 0
                    &&& is_source
                    &&& dropped@ == dropped_indices(gone, is_source, game_index, extras)
                },
                LedgerStep::Nothing => gone.len() == 0 && !is_source,
            }
        }),
{
    let mut deleted: Vec<usize> = Vec::new();
    let mut dropped: Vec<usize> = Vec::new();
    let mut i: usize = 0;
    while i < deleted_rels.len()
        invariant
            i <= deleted_rels@.len(),
            deleted@ == found_indices(*index, text::texts(deleted_rels@), i as int),
            dropped@ == deleted@,
        decreases deleted_rels@.len() - i,
    {
        assert(text::texts(deleted_rels@)[i as int] == deleted_rels@[i as int]@);
        if let Some(f) = index.find_by_path(deleted_rels[i].as_str()) {
            let at: usize = f.index;
            deleted.push(at);
            dropped.push(at);
        }
        i += 1;
    }
    if is_source {
        push_index(&mut dropped, game_index);
        push_index(&mut dropped, extras);
    }
    if deleted.len() > 0 {
        LedgerStep::Invalidate { dropped, deleted }
    } else if is_source {
        LedgerStep::Deselect { dropped }
    } else {
        LedgerStep::Nothing
    }
}

// ── Bringing saves back ──────────────────────────────────────────────────────

/// Where the backup of a game that is unpacked into `dest` may lie: beside it, or one
/// level up.
pub open spec fn save_places(dest: Seq<char>, code: Seq<char>) -> Seq<Seq<char>> {
    seq![
        crate::fspath::joined(dest, "!save/"@ + code),
        match crate::fspath::parent(dest) {
            Some(up) => crate::fspath::joined(up, "!save/"@ + code),
            None => Seq::<char>::empty(),
        },
    ]
}

/// What is brought back once an archive was unpacked.
pub struct RestorePlan {
    /// The directory that the archive holds.
    pub game_dir: String,
    /// Where a backup of it may lie, the best place first.
    pub saves: Vec<String>,
}

/// What is brought back once an archive was unpacked into `dest`. `names` are the
/// entries of the archive, as far as they can be read.
pub fn restore_plan(dest: &str, names: &Vec<Option<String>>) -> (r: Option<RestorePlan>)
    ensures
        match (r, crate::install::first_dir(names@, 0)) {
            (Some(plan), Some(code)) => {
                &&& plan.game_dir@ == crate::fspath::joined(dest@, code)
                &&& text::texts(plan.saves@) == save_places(dest@, code)
            },
            (None, None) => true,
            _ => false,
        },
{
    let code = match top_directory(names) {
        Some(code) => code,
        None => {
            return None;
        },
    };
    let rel = cat("!save/", code.as_str());
    let mut saves: Vec<String> = Vec::new();
    saves.push(join_path(dest, rel.as_str()));
    let above = match parent_of(dest) {
        Some(up) => join_path(up.as_str(), rel.as_str()),
        None => String::new(),
    };
    saves.push(above);
    assert(text::texts(saves@) =~= save_places(dest@, code@));
    Some(RestorePlan { game_dir: join_path(dest, code.as_str()), saves })
}

/// Which backup is brought back: the first that is there, if the game is.
pub fn restored_save(game_there: bool, saves_there: &Vec<bool>) -> (r: Option<usize>)
    ensures
        match r {
            Some(i) => game_there && crate::install::first_there(saves_there@, 0) == Some(i as int),
            None => !game_there || crate::install::first_there(saves_there@, 0) is None,
        },
{
    if game_there {
        find_there(saves_there)
    } else {
        None
    }
}

// ── Reset ────────────────────────────────────────────────────────────────────

/// What a reset works on.
pub struct ResetPlan {
    pub zip: String,
    pub game_dir: String,
    /// The backup, which goes too: unpacking would restore it.
    pub save_dir: String,
    /// The English game to lay down first.
    pub base_dir: Option<String>,
    /// Where the archive is unpacked.
    pub dest: String,
}

/// The English game that a translation needs, as a reset finds it.
pub struct ResetBase {
    pub title: String,
    /// Its directory, if it is unpacked.
    pub dir: Option<String>,
}

/// What to reset. A game that runs is left alone, and so is a translation whose
/// English game is gone: its archive alone would leave a patch.
pub fn reset_game_data(game: &Game, torrent_root: &str, running: bool, base: &Option<ResetBase>) -> (r:
    Result<ResetPlan, String>)
    ensures
        match r {
            Ok(plan) => {
                &&& !running
                &&& game.shortcode is Some
                &&& base is Some ==> base->0.dir is Some
                &&& ({
                    let p = parts_of_game(torrent_root@, *game, text::opt(game.shortcode)->0);
                    &&& plan.zip@ == p.zip
                    &&& plan.game_dir@ == p.game_dir
                    &&& plan.save_dir@ == p.save_dir
                    &&& plan.dest@ == match crate::fspath::parent(p.game_dir) {
                        Some(dir) => dir,
                        None => torrent_root@,
                    }
                })
                &&& text::opt(plan.base_dir) == match base {
                    Some(b) => text::opt(b.dir),
                    None => None,
                }
            },
            Err(message) => if running {
                message@ == "'"@ + game.title@
                    + "' is currently running - quit the emulator before resetting it."@
            } else if game.shortcode is None {
                message@ == "Game has no shortcode"@
            } else {
                &&& base is Some
                &&& base->0.dir is None
                &&& message@ == "'"@ + game.title@ + "' is a translation of '"@ + base->0.title@
                    + "', which is not installed any more - reinstall the English version first."@
            },
        },
{
    if running {
        return Err(
            cat3(
                "'",
                game.title.as_str(),
                "' is currently running - quit the emulator before resetting it.",
            ),
        );
    }
    let shortcode = match borrow(&game.shortcode) {
        Some(s) => s,
        None => {
            return Err(copy("Game has no shortcode"));
        },
    };
    let base_dir = match base {
        Some(b) => match &b.dir {
            Some(dir) => Some(copy(dir.as_str())),
            None => {
                let head = cat3("'", game.title.as_str(), "' is a translation of '");
                return Err(
                    cat3(
                        head.as_str(),
                        b.title.as_str(),
                        "', which is not installed any more - reinstall the English version first.",
                    ),
                );
            },
        },
        None => None,
    };
    let parts = plan_parts(torrent_root, game, shortcode);
    let dest = match parent_of(parts.game_dir.as_str()) {
        Some(dir) => dir,
        None => copy(torrent_root),
    };
    Ok(
        ResetPlan {
            zip: parts.zip,
            game_dir: parts.game_dir,
            save_dir: parts.save_dir,
            base_dir,
            dest,
        },
    )
}

/// Why a reset stopped.
pub enum ResetFailure {
    /// The archive is not on disk.
    NoArchive,
    /// The archive does not open.
    BadArchive,
    /// The game's directory could not be removed.
    Remove(String),
    /// The English game could not be laid down.
    Base(String),
    /// The archive could not be unpacked.
    Unpack(String),
}

/// What to say of a reset that stopped.
pub fn reset_failure(title: &str, game_dir: &str, failure: &ResetFailure) -> (r: String)
    ensures
        r@ == (match failure {
            ResetFailure::NoArchive => "The ZIP for '"@ + title@
                + "' is not on disk, so there is nothing to restore from. Re-download the game instead."@,
            ResetFailure::BadArchive => "The ZIP for '"@ + title@
                + "' is incomplete or corrupted (torrent placeholder), so there is nothing to restore from. Re-download the game instead."@,
            ResetFailure::Remove(e) => "Failed to remove "@ + game_dir@ + ": "@ + e@,
            ResetFailure::Base(e) => "Could not restore the English base at "@ + game_dir@ + ": "@
                + e@,
            ResetFailure::Unpack(e) => e@,
        }),
{
    match failure {
        ResetFailure::NoArchive => cat3(
            "The ZIP for '",
            title,
            "' is not on disk, so there is nothing to restore from. Re-download the game instead.",
        ),
        ResetFailure::BadArchive => cat3(
            "The ZIP for '",
            title,
            "' is incomplete or corrupted (torrent placeholder), so there is nothing to restore from. Re-download the game instead.",
        ),
        ResetFailure::Remove(e) => {
            let head = cat3("Failed to remove ", game_dir, ": ");
            cat(head.as_str(), e.as_str())
        },
        ResetFailure::Base(e) => {
            let head = cat3("Could not restore the English base at ", game_dir, ": ");
            cat(head.as_str(), e.as_str())
        },
        ResetFailure::Unpack(e) => copy(e.as_str()),
    }
}

/// How the archive opened, before anything was removed.
#[derive(Clone, Copy, PartialEq, Eq, Structural)]
pub enum Opening {
    /// There is no file.
    Missing,
    /// The directory of the archive does not read: it is a placeholder or a fragment.
    Broken,
    Whole,
}

/// What to do next in a reset.
#[derive(Clone, Copy, PartialEq, Eq, Structural)]
pub enum ResetStep {
    /// Open the archive, before anything is removed.
    OpenArchive,
    /// Remove the game's directory, where there is one.
    RemoveGame,
    /// Remove the backup, where there is one. A failure does not count.
    RemoveBackup,
    /// Lay the English game down.
    LayBase,
    Unpack,
    /// The game counts as installed. A failure does not count.
    MarkInstalled,
    Done,
}

/// How far a reset has come.
pub enum ResetState {
    /// Nothing was tried yet.
    Start,
    Opened(Opening),
    GameRemoved(Result<(), String>),
    BackupRemoved,
    BaseLaid(Result<(), String>),
    Unpacked(Result<(), String>),
    Marked,
}

/// What a reset does next, or why it stops. A failure to open the archive ends it
/// before anything goes, and the backup goes before the archive is unpacked.
pub open spec fn next_of_reset(state: ResetState, has_base: bool) -> Result<
    ResetStep,
    ResetFailure,
> {
    match state {
        ResetState::Start => Ok(ResetStep::OpenArchive),
        ResetState::Opened(Opening::Missing) => Err(ResetFailure::NoArchive),
        ResetState::Opened(Opening::Broken) => Err(ResetFailure::BadArchive),
        ResetState::Opened(Opening::Whole) => Ok(ResetStep::RemoveGame),
        ResetState::GameRemoved(Ok(_)) => Ok(ResetStep::RemoveBackup),
        ResetState::GameRemoved(Err(e)) => Err(ResetFailure::Remove(e)),
        ResetState::BackupRemoved => if has_base {
            Ok(ResetStep::LayBase)
        } else {
            Ok(ResetStep::Unpack)
        },
        ResetState::BaseLaid(Ok(_)) => Ok(ResetStep::Unpack),
        ResetState::BaseLaid(Err(e)) => Err(ResetFailure::Base(e)),
        ResetState::Unpacked(Ok(_)) => Ok(ResetStep::MarkInstalled),
        ResetState::Unpacked(Err(e)) => Err(ResetFailure::Unpack(e)),
        ResetState::Marked => Ok(ResetStep::Done),
    }
}

/// What a reset does next, or why it stops. `has_base` tells of an English game that
/// is laid down first.
pub fn reset_next(state: ResetState, has_base: bool) -> (r: Result<ResetStep, ResetFailure>)
    ensures
        r == next_of_reset(state, has_base),
        r matches Ok(step) && step == ResetStep::RemoveGame ==> state == ResetState::Opened(
            Opening::Whole,
        ),
        r matches Ok(step) && step == ResetStep::RemoveBackup ==> state is GameRemoved,
{
    match state {
        ResetState::Start => Ok(ResetStep::OpenArchive),
        ResetState::Opened(opening) => match opening {
            Opening::Missing => Err(ResetFailure::NoArchive),
            Opening::Broken => Err(ResetFailure::BadArchive),
            Opening::Whole => Ok(ResetStep::RemoveGame),
        },
        ResetState::GameRemoved(removed) => match removed {
            Ok(_) => Ok(ResetStep::RemoveBackup),
            Err(e) => Err(ResetFailure::Remove(e)),
        },
        ResetState::BackupRemoved => if has_base {
            Ok(ResetStep::LayBase)
        } else {
            Ok(ResetStep::Unpack)
        },
        ResetState::BaseLaid(laid) => match laid {
            Ok(_) => Ok(ResetStep::Unpack),
            Err(e) => Err(ResetFailure::Base(e)),
        },
        ResetState::Unpacked(unpacked) => match unpacked {
            Ok(_) => Ok(ResetStep::MarkInstalled),
            Err(e) => Err(ResetFailure::Unpack(e)),
        },
        ResetState::Marked => Ok(ResetStep::Done),
    }
}

/// What to say once a game is reset.
pub fn reset_message(game: &Game) -> (r: String)
    ensures
        r@ == "Reset "@ + game.title@ + " to its original state"@,
{
    cat3("Reset ", game.title.as_str(), " to its original state")
}

// ── Laws ─────────────────────────────────────────────────────────────────────

/// The backup of a game lies on a shelf beside the game's directory, under the
/// same name, where the shortcode is a plain name.
pub proof fn law_backup_lies_beside_the_game(
    source: Seq<char>,
    shortcode: Seq<char>,
    app_path: Option<Seq<char>>,
)
    requires
        !shortcode.contains('/'),
    ensures
        ({
            let shelf = crate::collections::shelf_of(source, app_path);
            &&& crate::collections::rel_game_dir(source, shortcode, app_path) == shelf + "/"@
                + shortcode
            &&& rel_save(source, shortcode, app_path) == shelf + "/!save/"@ + shortcode
        }),
{
    let shelf = crate::collections::shelf_of(source, app_path);
    let rel = crate::collections::rel_game_dir(source, shortcode, app_path);
    reveal_strlit("/");
    assert(rel == shelf + "/"@ + shortcode);
    lemma_last_slash(shelf, shortcode);
    assert((shelf + "/"@ + shortcode).take(shelf.len() as int) =~= shelf);
}

proof fn lemma_last_slash(shelf: Seq<char>, leaf: Seq<char>)
    requires
        !leaf.contains('/'),
    ensures
        text::last_char(shelf + "/"@ + leaf, '/') == Some(shelf.len() as int),
    decreases leaf.len(),
{
    reveal_strlit("/");
    let s = shelf + "/"@ + leaf;
    if leaf.len() > 0 {
        let shorter = leaf.drop_last();
        assert(s.drop_last() =~= shelf + "/"@ + shorter);
        assert(s.last() == leaf.last());
        assert(leaf.contains(leaf.last()));
        assert(!shorter.contains('/')) by {
            if shorter.contains('/') {
                let w = choose|w: int| 0 <= w < shorter.len() && shorter[w] == '/';
                assert(leaf[w] == '/');
            }
        }
        lemma_last_slash(shelf, shorter);
    } else {
        assert(s.last() == '/');
        assert(s.len() == shelf.len() + 1);
    }
}

/// How the steps of a reset come out.
pub struct ResetOutcomes {
    pub opened: Opening,
    pub game_removed: Result<(), String>,
    pub base_laid: Result<(), String>,
    pub unpacked: Result<(), String>,
}

/// How far a reset has come after a step.
pub open spec fn after_step(step: ResetStep, outcomes: ResetOutcomes) -> ResetState {
    match step {
        ResetStep::OpenArchive => ResetState::Opened(outcomes.opened),
        ResetStep::RemoveGame => ResetState::GameRemoved(outcomes.game_removed),
        ResetStep::RemoveBackup => ResetState::BackupRemoved,
        ResetStep::LayBase => ResetState::BaseLaid(outcomes.base_laid),
        ResetStep::Unpack => ResetState::Unpacked(outcomes.unpacked),
        ResetStep::MarkInstalled => ResetState::Marked,
        ResetStep::Done => ResetState::Marked,
    }
}

/// The steps that a reset takes from a state on, and why it stopped, if it did. At most
/// `fuel` steps are followed.
pub open spec fn reset_run(
    state: ResetState,
    has_base: bool,
    outcomes: ResetOutcomes,
    fuel: nat,
) -> (Seq<ResetStep>, Option<ResetFailure>)
    decreases fuel,
{
    match next_of_reset(state, has_base) {
        Err(failure) => (Seq::<ResetStep>::empty(), Some(failure)),
        Ok(step) => if step == ResetStep::Done || fuel == 0 {
            (Seq::<ResetStep>::empty(), None)
        } else {
            let (steps, failure) = reset_run(
                after_step(step, outcomes),
                has_base,
                outcomes,
                (fuel - 1) as nat,
            );
            (seq![step] + steps, failure)
        },
    }
}

/// A reset opens the archive before anything is removed: where the archive is missing
/// or does not open, the reset fails, and the game and its backup stay as they are.
pub proof fn law_a_reset_without_an_archive_removes_nothing(
    has_base: bool,
    outcomes: ResetOutcomes,
    fuel: nat,
)
    requires
        fuel > 0,
        outcomes.opened != Opening::Whole,
    ensures
        reset_run(ResetState::Start, has_base, outcomes, fuel) == (
            seq![ResetStep::OpenArchive],
            Some(
                if outcomes.opened == Opening::Missing {
                    ResetFailure::NoArchive
                } else {
                    ResetFailure::BadArchive
                },
            ),
        ),
{
    reveal_with_fuel(reset_run, 2);
    assert(seq![ResetStep::OpenArchive] + Seq::<ResetStep>::empty() =~= seq![
        ResetStep::OpenArchive,
    ]);
}

/// A reset in which nothing fails removes the game and its backup, lays the English game
/// down where there is one, unpacks the archive and marks the game, in this order.
pub proof fn law_a_reset_starts_over(has_base: bool, outcomes: ResetOutcomes, fuel: nat)
    requires
        fuel >= 6,
        outcomes.opened == Opening::Whole,
        outcomes.game_removed is Ok,
        outcomes.base_laid is Ok,
        outcomes.unpacked is Ok,
    ensures
        reset_run(ResetState::Start, has_base, outcomes, fuel) == (
            seq![ResetStep::OpenArchive, ResetStep::RemoveGame, ResetStep::RemoveBackup] + (
            if has_base {
                seq![ResetStep::LayBase]
            } else {
                Seq::<ResetStep>::empty()
            }) + seq![ResetStep::Unpack, ResetStep::MarkInstalled],
            None::<ResetFailure>,
        ),
{
    reveal_with_fuel(reset_run, 7);
    let (steps, failure) = reset_run(ResetState::Start, has_base, outcomes, fuel);
    assert(failure is None);
    assert(steps =~= seq![
        ResetStep::OpenArchive,
        ResetStep::RemoveGame,
        ResetStep::RemoveBackup,
    ] + (if has_base {
        seq![ResetStep::LayBase]
    } else {
        Seq::<ResetStep>::empty()
    }) + seq![ResetStep::Unpack, ResetStep::MarkInstalled]);
}

/// A torrent forgets the pieces of a file only where the file is really gone: the
/// extras that stay on disk keep theirs.
pub proof fn law_only_deleted_files_are_forgotten(
    index: TorrentIndex,
    rels: Seq<Seq<char>>,
    n: int,
    at: usize,
)
    requires
        0 <= n <= rels.len(),
        found_indices(index, rels, n).contains(at),
    ensures
        exists|k: int|
            0 <= k < index.files@.len() && (#[trigger] index.files@[k]).index == at
                && rels.contains(index.files@[k].path@),
    decreases n,
{
    if n > 0 {
        let before = found_indices(index, rels, n - 1);
        let now = found_indices(index, rels, n);
        if before.contains(at) {
            law_only_deleted_files_are_forgotten(index, rels, n - 1, at);
        } else {
            lemma_path_found(index, rels[n - 1], 0);
            let i = crate::models::path_from(index.files@, rels[n - 1], 0);
            assert(i is Some);
            let w = choose|w: int| 0 <= w < now.len() && now[w] == at;
            if w < before.len() {
                assert(before[w] == at);
            }
            assert(index.files@[i->0].index == at);
            assert(rels.contains(rels[n - 1]));
        }
    }
}

proof fn lemma_path_found(index: TorrentIndex, path: Seq<char>, i: int)
    requires
        0 <= i,
    ensures
        match crate::models::path_from(index.files@, path, i) {
            Some(k) => i <= k < index.files@.len() && index.files@[k].path@ == path,
            None => true,
        },
    decreases index.files@.len() - i,
{
    if i < index.files@.len() && index.files@[i].path@ != path {
        lemma_path_found(index, path, i + 1);
    }
}

/// What an uninstall backs up, unpacking the game's archive on its shelf brings back:
/// it looks there first.
pub proof fn law_a_reinstall_finds_the_saves(
    root: Seq<char>,
    source: Seq<char>,
    shortcode: Seq<char>,
    app_path: Option<Seq<char>>,
)
    requires
        !shortcode.contains('/'),
    ensures
        ({
            let dest = crate::fspath::joined(root, crate::collections::shelf_of(source, app_path));
            save_places(dest, shortcode)[0] == crate::fspath::joined(
                root,
                rel_save(source, shortcode, app_path),
            )
        }),
{
    let shelf = crate::collections::shelf_of(source, app_path);
    crate::collections::lemma_shelf_is_plain(source, app_path);
    law_backup_lies_beside_the_game(source, shortcode, app_path);
    reveal_strlit("/");
    reveal_strlit("!save/");
    reveal_strlit("/!save/");
    let dest = crate::fspath::joined(root, shelf);
    let rel = rel_save(source, shortcode, app_path);
    assert(rel[0] == shelf[0]);
    assert(dest.last() == shelf.last());
    assert("/"@ + ("!save/"@ + shortcode) =~= "/!save/"@ + shortcode);
    assert(crate::fspath::joined(dest, "!save/"@ + shortcode) =~= dest + "/"@ + ("!save/"@
        + shortcode));
    if root.len() == 0 || root.last() == '/' {
        assert(dest + "/"@ + ("!save/"@ + shortcode) =~= root + rel);
    } else {
        assert(dest + "/"@ + ("!save/"@ + shortcode) =~= root + "/"@ + rel);
    }
}

/// What an uninstall and a reset work on lies where the games of the collection lie: a DOS
/// game's directory by its shortcode, its backup on the shelf beside it, and its archive by
/// the name of its launcher. A translation's lie in the directory of its language.
pub proof fn law_only_this_variant_is_touched(root: Seq<char>, game: Game, code: Seq<char>)
    requires
        !code.contains('/'),
        game.torrent_source is Some,
    ensures
        ({
            let p = parts_of_game(root, game, code);
            let source = (game.torrent_source->0)@;
            let name = crate::library::archive_name(game);
            &&& source == "eXoDOS"@ ==> {
                &&& p.game_dir == crate::fspath::joined(root, "eXo/eXoDOS/"@ + code)
                &&& p.save_dir == crate::fspath::joined(root, "eXo/eXoDOS/!save/"@ + code)
                &&& p.rel_zip == "eXo/eXoDOS/"@ + name + ".zip"@
                &&& p.zip == crate::fspath::joined(root, p.rel_zip)
            }
            &&& source == "eXoDOS_GLP"@ ==> {
                &&& p.game_dir == crate::fspath::joined(root, "eXo/eXoDOS/!german/"@ + code)
                &&& p.save_dir == crate::fspath::joined(root, "eXo/eXoDOS/!german/!save/"@ + code)
                &&& p.rel_zip == "eXo/eXoDOS/!german/"@ + name + ".zip"@
                &&& p.zip == crate::fspath::joined(root, p.rel_zip)
            }
        }),
{
    let source = (game.torrent_source->0)@;
    let app_path = text::opt(game.application_path);
    let name = crate::library::archive_name(game);
    reveal_strlit("/");
    reveal_strlit("/!save/");
    reveal_strlit("eXo/eXoDOS/");
    reveal_strlit("eXo/eXoDOS/!save/");
    reveal_strlit("eXo/eXoDOS/!german/");
    reveal_strlit("eXo/eXoDOS/!german/!save/");
    crate::collections::law_where_the_games_lie(code, app_path);
    crate::collections::law_where_the_games_lie(name, app_path);
    crate::collections::law_zip_beside_dir(source, name, app_path);
    law_backup_lies_beside_the_game(source, code, app_path);
    let shelf = crate::collections::shelf_of(source, app_path);
    if source == "eXoDOS"@ {
        assert((shelf + "/"@ + code).take((shelf + "/"@).len() as int) =~= shelf + "/"@);
        assert(("eXo/eXoDOS/"@ + code).take((shelf + "/"@).len() as int) =~= shelf + "/"@);
        assert((shelf + "/"@).len() == 11) by {
            assert((shelf + "/"@ + code).len() == ("eXo/eXoDOS/"@ + code).len());
        }
        assert(shelf + "/"@ =~= "eXo/eXoDOS/"@);
        assert("eXo/eXoDOS/!save/"@ =~= "eXo/eXoDOS/"@ + "!save/"@) by {
            reveal_strlit("!save/");
        }
        assert(shelf + "/!save/"@ + code =~= "eXo/eXoDOS/!save/"@ + code) by {
            reveal_strlit("!save/");
            assert(shelf + "/!save/"@ =~= (shelf + "/"@) + "!save/"@);
        }
    }
    if source == "eXoDOS_GLP"@ {
        assert((shelf + "/"@).len() == 19) by {
            assert((shelf + "/"@ + code).len() == ("eXo/eXoDOS/!german/"@ + code).len());
        }
        assert((shelf + "/"@ + code).take(19) =~= shelf + "/"@);
        assert(("eXo/eXoDOS/!german/"@ + code).take(19) =~= "eXo/eXoDOS/!german/"@);
        assert(shelf + "/"@ =~= "eXo/eXoDOS/!german/"@);
        assert(shelf + "/!save/"@ + code =~= "eXo/eXoDOS/!german/!save/"@ + code) by {
            reveal_strlit("!save/");
            assert(shelf + "/!save/"@ =~= (shelf + "/"@) + "!save/"@);
            assert("eXo/eXoDOS/!german/!save/"@ =~= "eXo/eXoDOS/!german/"@ + "!save/"@);
        }
    }
}

/// A reset that fails on the way does nothing more: not after the game's directory could not
/// be removed, and a game that was not unpacked is not marked.
pub proof fn law_a_failed_reset_goes_no_further(
    has_base: bool,
    outcomes: ResetOutcomes,
    fuel: nat,
    e: String,
)
    requires
        fuel >= 6,
        outcomes.opened == Opening::Whole,
    ensures
        outcomes.game_removed == Err::<(), String>(e) ==> reset_run(
            ResetState::Start,
            has_base,
            outcomes,
            fuel,
        ) == (
            seq![ResetStep::OpenArchive, ResetStep::RemoveGame],
            Some(ResetFailure::Remove(e)),
        ),
        outcomes.game_removed is Ok && outcomes.base_laid is Ok && outcomes.unpacked == Err::<
            (),
            String,
        >(e) ==> {
            let (steps, failure) = reset_run(ResetState::Start, has_base, outcomes, fuel);
            failure == Some(ResetFailure::Unpack(e)) && steps.last() == ResetStep::Unpack
                && !steps.contains(ResetStep::MarkInstalled)
        },
        has_base && outcomes.game_removed is Ok && outcomes.base_laid == Err::<(), String>(e) ==> {
            let (steps, failure) = reset_run(ResetState::Start, has_base, outcomes, fuel);
            failure == Some(ResetFailure::Base(e)) && !steps.contains(ResetStep::Unpack)
        },
{
    reveal_with_fuel(reset_run, 7);
    let (steps, failure) = reset_run(ResetState::Start, has_base, outcomes, fuel);
    if outcomes.game_removed == Err::<(), String>(e) {
        assert(steps =~= seq![ResetStep::OpenArchive, ResetStep::RemoveGame]);
    } else if outcomes.game_removed is Ok {
        let front = seq![ResetStep::OpenArchive, ResetStep::RemoveGame, ResetStep::RemoveBackup];
        if has_base && outcomes.base_laid == Err::<(), String>(e) {
            assert(steps =~= front + seq![ResetStep::LayBase]);
        } else if outcomes.base_laid is Ok && outcomes.unpacked == Err::<(), String>(e) {
            if has_base {
                assert(steps =~= front + seq![ResetStep::LayBase, ResetStep::Unpack]);
            } else {
                assert(steps =~= front + seq![ResetStep::Unpack]);
            }
        }
    }
}

/// What a torrent drops after an uninstall: all files that are gone, and in the game's own
/// torrent the game's archive and its extras; elsewhere nothing else.
pub proof fn law_what_a_torrent_drops(
    deleted: Seq<usize>,
    is_source: bool,
    game_index: Option<usize>,
    extras: Option<usize>,
    x: usize,
)
    ensures
        dropped_indices(deleted, is_source, game_index, extras).contains(x) <==> deleted.contains(x)
            || (is_source && (game_index == Some(x) || extras == Some(x))),
{
    lemma_with_index(deleted, game_index, x);
    lemma_with_index(with_index(deleted, game_index), extras, x);
}

proof fn lemma_with_index(list: Seq<usize>, index: Option<usize>, x: usize)
    ensures
        with_index(list, index).contains(x) <==> list.contains(x) || index == Some(x),
{
    if let Some(i) = index {
        if !list.contains(i) {
            let more = list.push(i);
            assert(more[list.len() as int] == i);
            if list.contains(x) {
                let w = choose|w: int| 0 <= w < list.len() && list[w] == x;
                assert(more[w] == x);
            }
            if more.contains(x) {
                let w = choose|w: int| 0 <= w < more.len() && more[w] == x;
                if w < list.len() {
                    assert(list[w] == x);
                }
            }
        }
    }
}

} // verus!
