//! Which games are installed, read off the disk.

use crate::collections::{collection_def, collection_lang_dir, collection_map, is_year_name};
use crate::fspath::{extension_of, file_stem_of};
use crate::library::{archive_name_of, collateral_file_indices, contains_index};
use crate::models::{Game, TorrentFileEntry, TorrentIndex};
use crate::text;
use crate::text::{
    after_prefix, cat, cat3, chars_of, has_prefix, is_one_of, same, same_chars, string_of,
    swap_chars, to_lower,
};
use vstd::prelude::*;

verus! {

/// A file in a directory of games.
pub struct ShelfFile {
    pub name: String,
    pub len: u64,
    /// The seconds since it was written, where they are known.
    pub age: Option<u64>,
}

/// A directory that games lie in.
pub struct Shelf {
    /// Its path below the game root.
    pub path: String,
    /// The names of the directories in it.
    pub dirs: Vec<String>,
    pub files: Vec<ShelfFile>,
}

/// A file below the game root.
pub struct ArchiveOnDisk {
    pub path: String,
    pub len: u64,
}

/// What is on disk below the game root.
pub struct Disk {
    /// The directories that games lie in: those of the collections, and in them
    /// those of languages and of years.
    pub shelves: Vec<Shelf>,
    /// The archives of the torrents, by path.
    pub archives: Vec<ArchiveOnDisk>,
    /// The paths that are there of those that unpacked support files leave.
    pub traces: Vec<String>,
}

/// A collection's torrent.
pub struct CollectionTorrent {
    pub id: String,
    pub index: TorrentIndex,
}

/// All that a scan goes by.
pub struct ScanInput {
    pub rows: Vec<Game>,
    pub disk: Disk,
    /// The torrents of the base collections.
    pub torrents: Vec<CollectionTorrent>,
    /// A bare archive makes a library entry. Only a scan that was asked for does
    /// that.
    pub adopt: bool,
    /// The library was imported: the disk is the library.
    pub disk_is_library: bool,
    /// The archives that are still being downloaded, by path. They reach their
    /// full length long before they are complete.
    pub in_flight: Vec<String>,
}

/// What a scan finds out about a row.
#[derive(Clone, Copy, Debug, PartialEq, Eq, Structural)]
pub struct RowFlags {
    pub installed: bool,
    pub in_library: bool,
}

/// What a scan comes to.
pub struct ScanOutcome {
    pub flags: Vec<RowFlags>,
    /// How many games were found.
    pub found: usize,
    /// The locks of extractions that died, to be removed.
    pub stale_locks: Vec<String>,
}

// ── Directories ──────────────────────────────────────────────────────────────

pub open spec fn has_shelf(disk: Disk, path: Seq<char>) -> bool {
    exists|k: int| 0 <= k < disk.shelves@.len() && (#[trigger] disk.shelves@[k]).path@ == path
}

/// A directory by this name may be a game's; those of eXo itself begin with `!`.
pub open spec fn is_game_dir_name(name: Seq<char>) -> bool {
    !"!"@.is_prefix_of(name) && !"."@.is_prefix_of(name)
}

/// `path` is a directory by year below `prefix`.
pub open spec fn is_year_shelf(path: Seq<char>, prefix: Seq<char>) -> bool {
    match text::strip_prefix(path, prefix + "/"@) {
        Some(year) => crate::collections::is_year(year),
        None => false,
    }
}

/// The shelf is one on which the games of `c` lie.
pub open spec fn is_shelf_of(disk: Disk, c: crate::collections::Collection, path: Seq<char>) -> bool {
    match c.lang_dir {
        Some(lang) => path == c.game_prefix + "/"@ + lang,
        None => if c.year_subdirs {
            has_shelf(disk, c.game_prefix) && is_year_shelf(path, c.game_prefix)
        } else {
            path == c.game_prefix
        },
    }
}

/// The game `name` of collection `c` lies unpacked on disk.
pub open spec fn is_unpacked(disk: Disk, c: crate::collections::Collection, name: Seq<char>) -> bool {
    is_game_dir_name(name) && exists|k: int|
        0 <= k < disk.shelves@.len() && is_shelf_of(disk, c, (#[trigger] disk.shelves@[k]).path@)
            && text::texts(disk.shelves@[k].dirs@).contains(name)
}

/// The row's game lies unpacked on disk.
pub open spec fn row_unpacked(s: ScanInput, row: Game) -> bool {
    match (row.torrent_source, row.shortcode) {
        (Some(source), Some(code)) => match crate::collections::def_of(source@) {
            Some(c) => is_unpacked(s.disk, c, code@),
            None => false,
        },
        _ => false,
    }
}

// ── Collateral ───────────────────────────────────────────────────────────────

/// An index of a row as an index of a file.
pub open spec fn as_index(i: Option<i64>) -> Seq<usize> {
    match i {
        Some(x) if 0 <= x <= usize::MAX => seq![x as usize],
        _ => Seq::<usize>::empty(),
    }
}

/// The row belongs to collection `id`.
pub open spec fn is_from(row: Game, id: Seq<char>) -> bool {
    match row.torrent_source {
        Some(source) => source@ == id,
        None => false,
    }
}

/// The files that the unpacked games among the first `n` rows asked for.
pub open spec fn requested_by_rows(s: ScanInput, id: Seq<char>, n: int) -> Seq<usize>
    decreases n,
{
    if n <= 0 {
        Seq::<usize>::empty()
    } else {
        let before = requested_by_rows(s, id, n - 1);
        let row = s.rows@[n - 1];
        if row_unpacked(s, row) && is_from(row, id) {
            before + as_index(row.game_torrent_index) + as_index(row.gamedata_torrent_index)
        } else {
            before
        }
    }
}

/// Some of the file is on disk.
pub open spec fn is_started(disk: Disk, path: Seq<char>) -> bool {
    exists|k: int|
        0 <= k < disk.archives@.len() && (#[trigger] disk.archives@[k]).path@ == path
            && disk.archives@[k].len > 0
}

/// All of the file is on disk, going by its length.
pub open spec fn is_whole(disk: Disk, f: TorrentFileEntry) -> bool {
    exists|k: int|
        0 <= k < disk.archives@.len() && (#[trigger] disk.archives@[k]).path@ == f.path@
            && disk.archives@[k].len == f.size
}

/// A support archive, if it is being fetched or was unpacked.
pub open spec fn support_file(
    s: ScanInput,
    index: TorrentIndex,
    suffix: Seq<char>,
    trace: Seq<char>,
) -> Seq<usize> {
    match crate::models::suffix_from(index.files@, suffix, 0) {
        Some(i) if is_started(s.disk, index.files@[i].path@) || text::texts(s.disk.traces@).contains(
            trace,
        ) => seq![index.files@[i].index],
        _ => Seq::<usize>::empty(),
    }
}

/// The files of a torrent that were asked for: those of unpacked games, and the
/// support archives.
pub open spec fn requested_files(s: ScanInput, t: CollectionTorrent) -> Seq<usize> {
    requested_by_rows(s, t.id@, s.rows@.len() as int) + support_file(
        s,
        t.index,
        "util/util.zip"@,
        "eXo/mt32"@,
    ) + support_file(s, t.index, "!DOSmetadata.zip"@, "eXo/eXoDOS/!dos"@) + support_file(
        s,
        t.index,
        "util/utilWin9x.zip"@,
        "eXo/emulators/86Box98"@,
    )
}

/// The row's archive is in torrent `t`, is whole, and only came along.
pub open spec fn came_along(s: ScanInput, t: CollectionTorrent, row: Game) -> bool {
    match row.game_torrent_index {
        Some(x) => {
            &&& is_from(row, t.id@)
            &&& 0 <= x < t.index.files@.len()
            &&& crate::library::collateral(t.index, requested_files(s, t)).contains(x as usize)
            &&& is_whole(s.disk, t.index.files@[x as int])
        },
        None => false,
    }
}

/// The row's archive only came along with others.
pub open spec fn is_stray(s: ScanInput, row: Game) -> bool {
    exists|k: int| 0 <= k < s.torrents@.len() && came_along(s, #[trigger] s.torrents@[k], row)
}

/// The row stays in the library, unless its archive only came along. A scan that
/// adopts, and an imported library, drop nothing.
pub open spec fn stays(s: ScanInput, row: Game) -> bool {
    row.in_library && (s.adopt || s.disk_is_library || row_unpacked(s, row) || !is_stray(s, row))
}

// ── Archives ─────────────────────────────────────────────────────────────────

/// The length of the last file, among the first `n`, with this path.
pub open spec fn len_in(files: Seq<TorrentFileEntry>, path: Seq<char>, n: int) -> Option<u64>
    decreases n,
{
    if n <= 0 {
        None
    } else if files[n - 1].path@ == path {
        Some(files[n - 1].size)
    } else {
        len_in(files, path, n - 1)
    }
}

/// The length that a file has by the last of the first `n` torrents that has it.
pub open spec fn expected_len(torrents: Seq<CollectionTorrent>, path: Seq<char>, n: int) -> Option<u64>
    decreases n,
{
    if n <= 0 {
        None
    } else {
        let files = torrents[n - 1].index.files@;
        match len_in(files, path, files.len() as int) {
            Some(len) => Some(len),
            None => expected_len(torrents, path, n - 1),
        }
    }
}

/// Some torrent says how long its files are.
pub open spec fn sizes_known(torrents: Seq<CollectionTorrent>) -> bool {
    exists|k: int| 0 <= k < torrents.len() && (#[trigger] torrents[k]).index.files@.len() > 0
}

/// Lengths cannot decide: an adopted tree may hold repacked archives, and without
/// a torrent there is nothing to measure by.
pub open spec fn is_lenient(s: ScanInput) -> bool {
    s.adopt || !sizes_known(s.torrents@)
}

/// The file is a whole archive: as long as the torrent says, and no download in
/// flight.
pub open spec fn is_whole_zip(s: ScanInput, shelf: Shelf, f: ShelfFile) -> bool {
    let rel = text::swap_char(shelf.path@ + "/"@ + f.name@, '\\', '/');
    &&& match crate::fspath::extension(f.name@) {
        Some(e) => text::lower(e) == text::lower("zip"@),
        None => false,
    }
    &&& if is_lenient(s) {
        f.len >= 1024
    } else {
        !text::texts(s.in_flight@).contains(rel) && expected_len(
            s.torrents@,
            rel,
            s.torrents@.len() as int,
        ) == Some(f.len)
    }
}

/// The file is the lock of an extraction that died.
pub open spec fn is_stale_lock(f: ShelfFile) -> bool {
    crate::fspath::extension(f.name@) == Some("extracting"@) && match f.age {
        Some(a) => a > 300,
        None => false,
    }
}

/// An archive on disk may make the row's game installed: it is no language
/// pack's, and where the scan does not adopt, it is in the library.
pub open spec fn is_eligible(s: ScanInput, row: Game) -> bool {
    &&& !row_unpacked(s, row)
    &&& s.adopt || stays(s, row)
    &&& match row.torrent_source {
        Some(source) => crate::collections::lang_of(source@) is None,
        None => false,
    }
}

/// The last row, among the first `n`, whose archive has this name.
pub open spec fn row_named(s: ScanInput, name: Seq<char>, n: int) -> Option<i64>
    decreases n,
{
    if n <= 0 {
        None
    } else if is_eligible(s, s.rows@[n - 1]) && crate::library::archive_name(s.rows@[n - 1]) == name {
        Some(s.rows@[n - 1].id)
    } else {
        row_named(s, name, n - 1)
    }
}

/// The row that a file of a shelf belongs to, by the file's stem.
pub open spec fn owner(s: ScanInput, f: ShelfFile) -> Option<i64> {
    match crate::fspath::file_stem(f.name@) {
        Some(stem) => row_named(s, stem, s.rows@.len() as int),
        None => None,
    }
}

/// Some collection keeps its games by year, and this is one of its years.
pub open spec fn is_any_year_shelf(path: Seq<char>) -> bool {
    exists|i: int|
        0 <= i < crate::collections::collections().len() && (
        #[trigger] crate::collections::collections()[i]).year_subdirs && is_year_shelf(
            path,
            crate::collections::collections()[i].game_prefix,
        )
}

/// Archives are looked for on this shelf.
pub open spec fn is_searched(s: ScanInput, shelf: Shelf) -> bool {
    has_shelf(s.disk, "eXo/eXoDOS"@) && (shelf.path@ == "eXo/eXoDOS"@ || is_any_year_shelf(
        shelf.path@,
    ))
}

/// A whole archive on a searched shelf belongs to row `id`.
pub open spec fn has_zip(s: ScanInput, id: i64) -> bool {
    exists|k: int, j: int|
        0 <= k < s.disk.shelves@.len() && 0 <= j < s.disk.shelves@[k].files@.len() && is_searched(
            s,
            s.disk.shelves@[k],
        ) && is_whole_zip(s, s.disk.shelves@[k], #[trigger] s.disk.shelves@[k].files@[j]) && owner(
            s,
            s.disk.shelves@[k].files@[j],
        ) == Some(id)
}

/// An extraction of row `id` died.
pub open spec fn has_crashed(s: ScanInput, id: i64) -> bool {
    exists|k: int, j: int|
        0 <= k < s.disk.shelves@.len() && 0 <= j < s.disk.shelves@[k].files@.len() && is_searched(
            s,
            s.disk.shelves@[k],
        ) && is_stale_lock(#[trigger] s.disk.shelves@[k].files@[j]) && owner(
            s,
            s.disk.shelves@[k].files@[j],
        ) == Some(id)
}

/// The names of the archives whose extraction died, among the first `n` files of a
/// shelf.
pub open spec fn dead_on(shelf: Shelf, n: int) -> Seq<Seq<char>>
    decreases n,
{
    if n <= 0 {
        Seq::<Seq<char>>::empty()
    } else {
        match crate::fspath::file_stem(shelf.files@[n - 1].name@) {
            Some(stem) if is_stale_lock(shelf.files@[n - 1]) => dead_on(shelf, n - 1).push(stem),
            _ => dead_on(shelf, n - 1),
        }
    }
}

/// The names of the archives whose extraction died, on the searched ones of the first
/// `n` shelves.
pub open spec fn dead_archives(s: ScanInput, n: int) -> Seq<Seq<char>>
    decreases n,
{
    if n <= 0 {
        Seq::<Seq<char>>::empty()
    } else {
        let shelf = s.disk.shelves@[n - 1];
        if is_searched(s, shelf) {
            dead_archives(s, n - 1) + dead_on(shelf, shelf.files@.len() as int)
        } else {
            dead_archives(s, n - 1)
        }
    }
}

/// The row's directory is there, but its extraction died half way. A language pack's
/// archives lie elsewhere.
pub open spec fn is_half_unpacked(s: ScanInput, row: Game) -> bool {
    &&& row_unpacked(s, row)
    &&& match row.torrent_source {
        Some(source) => crate::collections::lang_of(source@) is None,
        None => false,
    }
    &&& dead_archives(s, s.disk.shelves@.len() as int).contains(
        crate::library::archive_name(row),
    )
}

// ── The scan ─────────────────────────────────────────────────────────────────

/// What the scan says of a row. One whose extraction died is not installed, whatever it
/// left on disk: it is unpacked again.
pub open spec fn row_flags(s: ScanInput, row: Game) -> RowFlags {
    let zip = has_zip(s, row.id) && !has_crashed(s, row.id);
    RowFlags {
        installed: !has_crashed(s, row.id) && !is_half_unpacked(s, row) && (row_unpacked(s, row)
            || has_zip(s, row.id)),
        in_library: stays(s, row) || row_unpacked(s, row) || zip,
    }
}

/// How many games the scan finds among the first `n` rows: unpacked ones, and
/// ones in archives.
pub open spec fn found_among(s: ScanInput, n: int) -> int
    decreases n,
{
    if n <= 0 {
        0
    } else {
        let row = s.rows@[n - 1];
        found_among(s, n - 1) + (if row_unpacked(s, row) {
            1int
        } else {
            0
        }) + (if has_zip(s, row.id) && !has_crashed(s, row.id) {
            1int
        } else {
            0
        })
    }
}

/// The stale locks among the first `n` files of a shelf.
pub open spec fn locks_on(shelf: Shelf, n: int) -> Seq<Seq<char>>
    decreases n,
{
    if n <= 0 {
        Seq::<Seq<char>>::empty()
    } else if is_stale_lock(shelf.files@[n - 1]) {
        locks_on(shelf, n - 1).push(shelf.path@ + "/"@ + shelf.files@[n - 1].name@)
    } else {
        locks_on(shelf, n - 1)
    }
}

/// The stale locks on the searched ones of the first `n` shelves.
pub open spec fn stale_locks(s: ScanInput, n: int) -> Seq<Seq<char>>
    decreases n,
{
    if n <= 0 {
        Seq::<Seq<char>>::empty()
    } else {
        let shelf = s.disk.shelves@[n - 1];
        if is_searched(s, shelf) {
            stale_locks(s, n - 1) + locks_on(shelf, shelf.files@.len() as int)
        } else {
            stale_locks(s, n - 1)
        }
    }
}

/// Some collection's games are on disk at all. Without that a scan would report
/// the whole library gone.
pub open spec fn has_any_tree(disk: Disk) -> bool {
    exists|i: int|
        0 <= i < crate::collections::collections().len() && has_shelf(
            disk,
            (#[trigger] crate::collections::collections()[i]).game_prefix,
        )
}

/// The files of every torrent lie within what 64 bits count.
pub open spec fn torrents_fit(torrents: Seq<CollectionTorrent>) -> bool {
    forall|k: int, i: int|
        0 <= k < torrents.len() && 0 <= i < torrents[k].index.files@.len()
            ==> crate::library::fits(#[trigger] torrents[k].index.files@[i])
}

fn shelf_present(disk: &Disk, path: &str) -> (r: bool)
    ensures
        r == has_shelf(*disk, path@),
{
    let mut i: usize = 0;
    while i < disk.shelves.len()
        invariant
            i <= disk.shelves@.len(),
            forall|k: int| 0 <= k < i ==> (#[trigger] disk.shelves@[k]).path@ != path@,
        decreases disk.shelves@.len() - i,
    {
        if same(disk.shelves[i].path.as_str(), path) {
            assert(disk.shelves@[i as int].path@ == path@);
            return true;
        }
        i += 1;
    }
    false
}

fn year_shelf(path: &str, prefix: &str) -> (r: bool)
    ensures
        r == is_year_shelf(path@, prefix@),
{
    let chars = chars_of(path);
    match after_prefix(chars.as_slice(), cat(prefix, "/").as_str()) {
        Some(year) => is_year_name(year),
        None => false,
    }
}

fn shelf_of(disk: &Disk, c: &crate::collections::CollectionDef, path: &str) -> (r: bool)
    ensures
        r == is_shelf_of(*disk, c@, path@),
{
    match c.lang_dir {
        Some(lang) => same(path, cat3(c.game_prefix, "/", lang).as_str()),
        None => if c.year_subdirs {
            shelf_present(disk, c.game_prefix) && year_shelf(path, c.game_prefix)
        } else {
            same(path, c.game_prefix)
        },
    }
}

fn unpacked(disk: &Disk, c: &crate::collections::CollectionDef, name: &str) -> (r: bool)
    ensures
        r == is_unpacked(*disk, c@, name@),
{
    let chars = chars_of(name);
    if has_prefix(chars.as_slice(), "!") || has_prefix(chars.as_slice(), ".") {
        return false;
    }
    let mut i: usize = 0;
    while i < disk.shelves.len()
        invariant
            i <= disk.shelves@.len(),
            is_game_dir_name(name@),
            forall|k: int|
                0 <= k < i ==> !(is_shelf_of(*disk, c@, (#[trigger] disk.shelves@[k]).path@)
                    && text::texts(disk.shelves@[k].dirs@).contains(name@)),
        decreases disk.shelves@.len() - i,
    {
        let shelf = &disk.shelves[i];
        if shelf_of(disk, c, shelf.path.as_str()) && is_one_of(&shelf.dirs, name) {
            assert(is_shelf_of(*disk, c@, disk.shelves@[i as int].path@));
            return true;
        }
        i += 1;
    }
    false
}

fn row_is_unpacked(s: &ScanInput, row: &Game) -> (r: bool)
    ensures
        r == row_unpacked(*s, *row),
{
    match (&row.torrent_source, &row.shortcode) {
        (Some(source), Some(code)) => match collection_def(source.as_str()) {
            Some(c) => unpacked(&s.disk, &c, code.as_str()),
            None => false,
        },
        _ => false,
    }
}

/// Which rows' games lie unpacked on disk.
fn unpacked_rows(s: &ScanInput) -> (r: Vec<bool>)
    ensures
        r@.len() == s.rows@.len(),
        forall|i: int| 0 <= i < r@.len() ==> #[trigger] r@[i] == row_unpacked(*s, s.rows@[i]),
{
    let mut out: Vec<bool> = Vec::new();
    let mut i: usize = 0;
    while i < s.rows.len()
        invariant
            i <= s.rows@.len(),
            out@.len() == i,
            forall|k: int| 0 <= k < i ==> #[trigger] out@[k] == row_unpacked(*s, s.rows@[k]),
        decreases s.rows@.len() - i,
    {
        out.push(row_is_unpacked(s, &s.rows[i]));
        i += 1;
    }
    out
}

fn push_index(out: &mut Vec<usize>, i: Option<i64>)
    ensures
        final(out)@ == old(out)@ + as_index(i),
{
    let ghost before = out@;
    if let Some(x) = i {
        if x >= 0 && x as u64 <= usize::MAX as u64 {
            out.push(x as usize);
            assert(out@ =~= before + seq![x as usize]);
        }
    }
    assert(out@ =~= before + as_index(i));
}

fn from_collection(row: &Game, id: &str) -> (r: bool)
    ensures
        r == is_from(*row, id@),
{
    match &row.torrent_source {
        Some(source) => same(source.as_str(), id),
        None => false,
    }
}

fn started(disk: &Disk, path: &str) -> (r: bool)
    ensures
        r == is_started(*disk, path@),
{
    let mut i: usize = 0;
    while i < disk.archives.len()
        invariant
            i <= disk.archives@.len(),
            forall|k: int|
                0 <= k < i ==> !((#[trigger] disk.archives@[k]).path@ == path@
                    && disk.archives@[k].len > 0),
        decreases disk.archives@.len() - i,
    {
        if disk.archives[i].len > 0 && same(disk.archives[i].path.as_str(), path) {
            assert(disk.archives@[i as int].path@ == path@);
            return true;
        }
        i += 1;
    }
    false
}

fn whole(disk: &Disk, f: &TorrentFileEntry) -> (r: bool)
    ensures
        r == is_whole(*disk, *f),
{
    let mut i: usize = 0;
    while i < disk.archives.len()
        invariant
            i <= disk.archives@.len(),
            forall|k: int|
                0 <= k < i ==> !((#[trigger] disk.archives@[k]).path@ == f.path@
                    && disk.archives@[k].len == f.size),
        decreases disk.archives@.len() - i,
    {
        if disk.archives[i].len == f.size && same(
            disk.archives[i].path.as_str(),
            f.path.as_str(),
        ) {
            assert(disk.archives@[i as int].path@ == f.path@);
            return true;
        }
        i += 1;
    }
    false
}

fn push_support(
    out: &mut Vec<usize>,
    s: &ScanInput,
    index: &TorrentIndex,
    suffix: &str,
    trace: &str,
)
    ensures
        final(out)@ == old(out)@ + support_file(*s, *index, suffix@, trace@),
{
    let ghost before = out@;
    match index.find_by_suffix(suffix) {
        Some(f) => {
            if started(&s.disk, f.path.as_str()) || is_one_of(&s.disk.traces, trace) {
                out.push(f.index);
                assert(out@ =~= before + support_file(*s, *index, suffix@, trace@));
            } else {
                assert(out@ =~= before + support_file(*s, *index, suffix@, trace@));
            }
        },
        None => {
            assert(out@ =~= before + support_file(*s, *index, suffix@, trace@));
        },
    }
}

fn requested_of(s: &ScanInput, t: &CollectionTorrent, on_disk: &Vec<bool>) -> (r: Vec<usize>)
    requires
        on_disk@.len() == s.rows@.len(),
        forall|i: int| 0 <= i < on_disk@.len() ==> #[trigger] on_disk@[i] == row_unpacked(
            *s,
            s.rows@[i],
        ),
    ensures
        r@ == requested_files(*s, *t),
{
    let mut out: Vec<usize> = Vec::new();
    let mut i: usize = 0;
    while i < s.rows.len()
        invariant
            i <= s.rows@.len(),
            on_disk@.len() == s.rows@.len(),
            forall|k: int| 0 <= k < on_disk@.len() ==> #[trigger] on_disk@[k] == row_unpacked(
                *s,
                s.rows@[k],
            ),
            out@ == requested_by_rows(*s, t.id@, i as int),
        decreases s.rows@.len() - i,
    {
        let row = &s.rows[i];
        assert(on_disk@[i as int] == row_unpacked(*s, s.rows@[i as int]));
        if on_disk[i] && from_collection(row, t.id.as_str()) {
            push_index(&mut out, row.game_torrent_index);
            push_index(&mut out, row.gamedata_torrent_index);
        }
        i += 1;
    }
    push_support(&mut out, s, &t.index, "util/util.zip", "eXo/mt32");
    push_support(&mut out, s, &t.index, "!DOSmetadata.zip", "eXo/eXoDOS/!dos");
    push_support(&mut out, s, &t.index, "util/utilWin9x.zip", "eXo/emulators/86Box98");
    out
}

/// The collateral files of each torrent.
fn collateral_of_all(s: &ScanInput, on_disk: &Vec<bool>) -> (r: Vec<Vec<usize>>)
    requires
        on_disk@.len() == s.rows@.len(),
        forall|i: int| 0 <= i < on_disk@.len() ==> #[trigger] on_disk@[i] == row_unpacked(
            *s,
            s.rows@[i],
        ),
        torrents_fit(s.torrents@),
    ensures
        r@.len() == s.torrents@.len(),
        forall|k: int| 0 <= k < r@.len() ==> (#[trigger] r@[k])@ == crate::library::collateral(
            s.torrents@[k].index,
            requested_files(*s, s.torrents@[k]),
        ),
{
    let mut out: Vec<Vec<usize>> = Vec::new();
    let mut i: usize = 0;
    while i < s.torrents.len()
        invariant
            i <= s.torrents@.len(),
            on_disk@.len() == s.rows@.len(),
            forall|k: int| 0 <= k < on_disk@.len() ==> #[trigger] on_disk@[k] == row_unpacked(
                *s,
                s.rows@[k],
            ),
            torrents_fit(s.torrents@),
            out@.len() == i,
            forall|k: int| 0 <= k < i ==> (#[trigger] out@[k])@ == crate::library::collateral(
                s.torrents@[k].index,
                requested_files(*s, s.torrents@[k]),
            ),
        decreases s.torrents@.len() - i,
    {
        let t = &s.torrents[i];
        let requested = requested_of(s, t, on_disk);
        out.push(collateral_file_indices(&t.index, &requested));
        i += 1;
    }
    out
}

fn stray(s: &ScanInput, strays: &Vec<Vec<usize>>, row: &Game) -> (r: bool)
    requires
        strays@.len() == s.torrents@.len(),
        forall|k: int| 0 <= k < strays@.len() ==> (#[trigger] strays@[k])@
            == crate::library::collateral(
            s.torrents@[k].index,
            requested_files(*s, s.torrents@[k]),
        ),
    ensures
        r == is_stray(*s, *row),
{
    let x: i64 = match row.game_torrent_index {
        Some(x) => x,
        None => {
            return false;
        },
    };
    let mut i: usize = 0;
    while i < s.torrents.len()
        invariant
            i <= s.torrents@.len(),
            row.game_torrent_index == Some(x),
            strays@.len() == s.torrents@.len(),
            forall|k: int| 0 <= k < strays@.len() ==> (#[trigger] strays@[k])@
                == crate::library::collateral(
                s.torrents@[k].index,
                requested_files(*s, s.torrents@[k]),
            ),
            forall|k: int| 0 <= k < i ==> !came_along(*s, #[trigger] s.torrents@[k], *row),
        decreases s.torrents@.len() - i,
    {
        let t = &s.torrents[i];
        assert(strays@[i as int]@ == crate::library::collateral(
            s.torrents@[i as int].index,
            requested_files(*s, s.torrents@[i as int]),
        ));
        if x >= 0 && (x as u64) < t.index.files.len() as u64 {
            let at: usize = x as usize;
            if from_collection(row, t.id.as_str()) && contains_index(&strays[i], at) && whole(
                &s.disk,
                &t.index.files[at],
            ) {
                assert(came_along(*s, s.torrents@[i as int], *row));
                return true;
            }
        }
        i += 1;
    }
    false
}

fn len_of(s: &ScanInput, path: &str) -> (r: Option<u64>)
    ensures
        r == expected_len(s.torrents@, path@, s.torrents@.len() as int),
{
    let mut n: usize = s.torrents.len();
    while n > 0
        invariant
            n <= s.torrents@.len(),
            expected_len(s.torrents@, path@, n as int) == expected_len(
                s.torrents@,
                path@,
                s.torrents@.len() as int,
            ),
        decreases n,
    {
        let index = &s.torrents[n - 1].index;
        let mut m: usize = index.files.len();
        while m > 0
            invariant
                0 < n <= s.torrents@.len(),
                index == s.torrents@[n - 1].index,
                m <= index.files@.len(),
                len_in(index.files@, path@, m as int) == len_in(
                    index.files@,
                    path@,
                    index.files@.len() as int,
                ),
                expected_len(s.torrents@, path@, n as int) == expected_len(
                    s.torrents@,
                    path@,
                    s.torrents@.len() as int,
                ),
            decreases m,
        {
            if same(index.files[m - 1].path.as_str(), path) {
                return Some(index.files[m - 1].size);
            }
            m -= 1;
        }
        n -= 1;
    }
    None
}

fn lenient(s: &ScanInput) -> (r: bool)
    ensures
        r == is_lenient(*s),
{
    if s.adopt {
        return true;
    }
    let mut i: usize = 0;
    while i < s.torrents.len()
        invariant
            i <= s.torrents@.len(),
            forall|k: int| 0 <= k < i ==> (#[trigger] s.torrents@[k]).index.files@.len() == 0,
            !s.adopt,
        decreases s.torrents@.len() - i,
    {
        if s.torrents[i].index.files.len() > 0 {
            assert(s.torrents@[i as int].index.files@.len() > 0);
            return false;
        }
        i += 1;
    }
    true
}

fn whole_zip(s: &ScanInput, easy: bool, shelf: &Shelf, f: &ShelfFile) -> (r: bool)
    requires
        easy == is_lenient(*s),
    ensures
        r == is_whole_zip(*s, *shelf, *f),
{
    let zip = to_lower(chars_of("zip").as_slice());
    let named = match extension_of(f.name.as_str()) {
        Some(e) => same_chars(
            to_lower(chars_of(e.as_str()).as_slice()).as_slice(),
            zip.as_slice(),
        ),
        None => false,
    };
    if !named {
        return false;
    }
    if easy {
        return f.len >= 1024;
    }
    let path = cat3(shelf.path.as_str(), "/", f.name.as_str());
    let rel = string_of(swap_chars(chars_of(path.as_str()).as_slice(), '\\', '/').as_slice());
    if is_one_of(&s.in_flight, rel.as_str()) {
        return false;
    }
    match len_of(s, rel.as_str()) {
        Some(len) => len == f.len,
        None => false,
    }
}

fn stale_lock(f: &ShelfFile) -> (r: bool)
    ensures
        r == is_stale_lock(*f),
{
    let lock = match extension_of(f.name.as_str()) {
        Some(e) => same(e.as_str(), "extracting"),
        None => false,
    };
    lock && match f.age {
        Some(a) => a > 300,
        None => false,
    }
}

fn any_year_shelf(path: &str) -> (r: bool)
    ensures
        r == is_any_year_shelf(path@),
{
    let all = collection_map();
    let ghost want = crate::collections::collections();
    let mut i: usize = 0;
    while i < all.len()
        invariant
            i <= all@.len(),
            want == crate::collections::collections(),
            all@.len() == want.len(),
            forall|k: int| 0 <= k < all@.len() ==> (#[trigger] all@[k])@ == want[k],
            forall|k: int|
                0 <= k < i ==> !((#[trigger] want[k]).year_subdirs && is_year_shelf(
                    path@,
                    want[k].game_prefix,
                )),
        decreases all@.len() - i,
    {
        assert(all@[i as int]@ == want[i as int]);
        if all[i].year_subdirs && year_shelf(path, all[i].game_prefix) {
            assert(want[i as int].year_subdirs);
            return true;
        }
        i += 1;
    }
    false
}

/// What is known of each row before archives are looked for.
struct Sifted {
    unpacked: Vec<bool>,
    stays: Vec<bool>,
    eligible: Vec<bool>,
    names: Vec<String>,
}

impl Sifted {
    spec fn of(self, s: ScanInput) -> bool {
        &&& self.unpacked@.len() == s.rows@.len()
        &&& self.stays@.len() == s.rows@.len()
        &&& self.eligible@.len() == s.rows@.len()
        &&& self.names@.len() == s.rows@.len()
        &&& forall|i: int|
            0 <= i < s.rows@.len() ==> #[trigger] self.unpacked@[i] == row_unpacked(s, s.rows@[i])
        &&& forall|i: int| 0 <= i < s.rows@.len() ==> #[trigger] self.stays@[i] == stays(s, s.rows@[i])
        &&& forall|i: int|
            0 <= i < s.rows@.len() ==> #[trigger] self.eligible@[i] == is_eligible(s, s.rows@[i])
        &&& forall|i: int|
            0 <= i < s.rows@.len() ==> (#[trigger] self.names@[i])@ == crate::library::archive_name(
                s.rows@[i],
            )
    }
}

fn sift(s: &ScanInput) -> (r: Sifted)
    requires
        torrents_fit(s.torrents@),
    ensures
        r.of(*s),
{
    let unpacked = unpacked_rows(s);
    let strays = collateral_of_all(s, &unpacked);
    let mut kept: Vec<bool> = Vec::new();
    let mut eligible: Vec<bool> = Vec::new();
    let mut names: Vec<String> = Vec::new();
    let mut i: usize = 0;
    while i < s.rows.len()
        invariant
            i <= s.rows@.len(),
            unpacked@.len() == s.rows@.len(),
            forall|k: int| 0 <= k < unpacked@.len() ==> #[trigger] unpacked@[k] == row_unpacked(
                *s,
                s.rows@[k],
            ),
            strays@.len() == s.torrents@.len(),
            forall|k: int| 0 <= k < strays@.len() ==> (#[trigger] strays@[k])@
                == crate::library::collateral(
                s.torrents@[k].index,
                requested_files(*s, s.torrents@[k]),
            ),
            kept@.len() == i,
            eligible@.len() == i,
            names@.len() == i,
            forall|k: int| 0 <= k < i ==> #[trigger] kept@[k] == stays(*s, s.rows@[k]),
            forall|k: int| 0 <= k < i ==> #[trigger] eligible@[k] == is_eligible(*s, s.rows@[k]),
            forall|k: int| 0 <= k < i ==> (#[trigger] names@[k])@ == crate::library::archive_name(
                s.rows@[k],
            ),
        decreases s.rows@.len() - i,
    {
        let row = &s.rows[i];
        assert(unpacked@[i as int] == row_unpacked(*s, s.rows@[i as int]));
        let keep = row.in_library && (s.adopt || s.disk_is_library || unpacked[i] || !stray(
            s,
            &strays,
            row,
        ));
        let base = match &row.torrent_source {
            Some(source) => crate::collections::collection_lang_dir(source.as_str()).is_none(),
            None => false,
        };
        kept.push(keep);
        eligible.push(!unpacked[i] && (s.adopt || keep) && base);
        names.push(archive_name_of(row));
        i += 1;
    }
    Sifted { unpacked, stays: kept, eligible, names }
}

fn owner_of(s: &ScanInput, rows: &Sifted, f: &ShelfFile) -> (r: Option<i64>)
    requires
        rows.of(*s),
    ensures
        r == owner(*s, *f),
{
    let stem = match file_stem_of(f.name.as_str()) {
        Some(x) => x,
        None => {
            return None;
        },
    };
    let mut n: usize = s.rows.len();
    while n > 0
        invariant
            n <= s.rows@.len(),
            rows.of(*s),
            crate::fspath::file_stem(f.name@) == Some(stem@),
            row_named(*s, stem@, n as int) == row_named(*s, stem@, s.rows@.len() as int),
        decreases n,
    {
        assert(rows.eligible@[n - 1] == is_eligible(*s, s.rows@[n - 1]));
        assert(rows.names@[n - 1]@ == crate::library::archive_name(s.rows@[n - 1]));
        if rows.eligible[n - 1] && same(rows.names[n - 1].as_str(), stem.as_str()) {
            return Some(s.rows[n - 1].id);
        }
        n -= 1;
    }
    None
}

/// What the searched shelves hold.
struct Found {
    zips: Vec<i64>,
    crashed: Vec<i64>,
    locks: Vec<String>,
}

/// The archive on shelf `k` at place `j` belongs to row `id`.
spec fn zip_at(s: ScanInput, k: int, j: int, id: i64) -> bool {
    &&& is_searched(s, s.disk.shelves@[k])
    &&& is_whole_zip(s, s.disk.shelves@[k], s.disk.shelves@[k].files@[j])
    &&& owner(s, s.disk.shelves@[k].files@[j]) == Some(id)
}

/// The lock on shelf `k` at place `j` belongs to row `id`.
spec fn lock_at(s: ScanInput, k: int, j: int, id: i64) -> bool {
    &&& is_searched(s, s.disk.shelves@[k])
    &&& is_stale_lock(s.disk.shelves@[k].files@[j])
    &&& owner(s, s.disk.shelves@[k].files@[j]) == Some(id)
}

/// Place `j` of shelf `k` comes before place `m` of shelf `n`.
spec fn seen(s: ScanInput, k: int, j: int, n: int, m: int) -> bool {
    &&& 0 <= k < s.disk.shelves@.len()
    &&& 0 <= j < s.disk.shelves@[k].files@.len()
    &&& k < n || (k == n && j < m)
}

spec fn zips_seen(s: ScanInput, n: int, m: int, ids: Seq<i64>) -> bool {
    forall|id: i64| #[trigger]
        ids.contains(id) <==> exists|k: int, j: int|
            #![trigger s.disk.shelves@[k].files@[j]]
            seen(s, k, j, n, m) && zip_at(s, k, j, id)
}

spec fn locks_seen(s: ScanInput, n: int, m: int, ids: Seq<i64>) -> bool {
    forall|id: i64| #[trigger]
        ids.contains(id) <==> exists|k: int, j: int|
            #![trigger s.disk.shelves@[k].files@[j]]
            seen(s, k, j, n, m) && lock_at(s, k, j, id)
}

proof fn lemma_push_contains(ids: Seq<i64>, x: i64)
    ensures
        forall|id: i64| #[trigger] ids.push(x).contains(id) <==> ids.contains(id) || id == x,
{
    assert forall|id: i64| #[trigger] ids.push(x).contains(id) <==> ids.contains(id) || id == x by {
        if ids.contains(id) {
            let i = choose|i: int| 0 <= i < ids.len() && ids[i] == id;
            assert(ids.push(x)[i] == id);
        }
        if id == x {
            assert(ids.push(x)[ids.len() as int] == x);
        }
        if ids.push(x).contains(id) {
            let i = choose|i: int| 0 <= i < ids.push(x).len() && ids.push(x)[i] == id;
            if i < ids.len() {
                assert(ids[i] == id);
            }
        }
    }
}

proof fn lemma_seen_step(s: ScanInput, n: int, m: int)
    requires
        0 <= n < s.disk.shelves@.len(),
        0 <= m < s.disk.shelves@[n].files@.len(),
    ensures
        forall|k: int, j: int| #[trigger]
            seen(s, k, j, n, m + 1) <==> seen(s, k, j, n, m) || (k == n && j == m),
{
}

fn search(s: &ScanInput, rows: &Sifted) -> (r: Found)
    requires
        rows.of(*s),
    ensures
        forall|id: i64| #[trigger] r.zips@.contains(id) <==> has_zip(*s, id),
        forall|id: i64| #[trigger] r.crashed@.contains(id) <==> has_crashed(*s, id),
        text::texts(r.locks@) == stale_locks(*s, s.disk.shelves@.len() as int),
{
    let base = shelf_present(&s.disk, "eXo/eXoDOS");
    let easy = lenient(s);
    let mut zips: Vec<i64> = Vec::new();
    let mut crashed: Vec<i64> = Vec::new();
    let mut locks: Vec<String> = Vec::new();
    let mut n: usize = 0;
    assert(text::texts(locks@) =~= stale_locks(*s, 0));
    while n < s.disk.shelves.len()
        invariant
            n <= s.disk.shelves@.len(),
            rows.of(*s),
            base == has_shelf(s.disk, "eXo/eXoDOS"@),
            easy == is_lenient(*s),
            zips_seen(*s, n as int, 0, zips@),
            locks_seen(*s, n as int, 0, crashed@),
            text::texts(locks@) == stale_locks(*s, n as int),
        decreases s.disk.shelves@.len() - n,
    {
        let shelf = &s.disk.shelves[n];
        let searched = base && (same(shelf.path.as_str(), "eXo/eXoDOS") || any_year_shelf(
            shelf.path.as_str(),
        ));
        let ghost before = text::texts(locks@);
        if searched {
            let mut m: usize = 0;
            assert(text::texts(locks@) =~= before + locks_on(*shelf, 0));
            while m < shelf.files.len()
                invariant
                    n < s.disk.shelves@.len(),
                    *shelf == s.disk.shelves@[n as int],
                    m <= shelf.files@.len(),
                    rows.of(*s),
                    easy == is_lenient(*s),
                    is_searched(*s, s.disk.shelves@[n as int]),
                    zips_seen(*s, n as int, m as int, zips@),
                    locks_seen(*s, n as int, m as int, crashed@),
                    text::texts(locks@) == before + locks_on(*shelf, m as int),
                decreases shelf.files@.len() - m,
            {
                let f = &shelf.files[m];
                let ghost file = s.disk.shelves@[n as int].files@[m as int];
                assert(*f == file);
                proof {
                    lemma_seen_step(*s, n as int, m as int);
                }
                let zip = whole_zip(s, easy, shelf, f);
                let lock = stale_lock(f);
                let ghost old_zips = zips@;
                let ghost old_crashed = crashed@;
                if zip || lock {
                    if let Some(id) = owner_of(s, rows, f) {
                        if zip {
                            zips.push(id);
                            proof {
                                lemma_push_contains(old_zips, id);
                            }
                        }
                        if lock {
                            crashed.push(id);
                            proof {
                                lemma_push_contains(old_crashed, id);
                            }
                        }
                    }
                }
                if lock {
                    let ghost done = text::texts(locks@);
                    let path = cat3(shelf.path.as_str(), "/", f.name.as_str());
                    let ghost p = path@;
                    locks.push(path);
                    assert(text::texts(locks@) =~= done.push(p));
                    assert(text::texts(locks@) =~= before + locks_on(*shelf, m + 1));
                }
                assert(zips_seen(*s, n as int, m + 1, zips@)) by {
                    assert forall|id: i64| #[trigger]
                        zips@.contains(id) <==> exists|k: int, j: int|
                            #![trigger s.disk.shelves@[k].files@[j]]
                            seen(*s, k, j, n as int, m + 1) && zip_at(*s, k, j, id) by {
                        if zip_at(*s, n as int, m as int, id) {
                            assert(seen(*s, n as int, m as int, n as int, m + 1));
                            assert(s.disk.shelves@[n as int].files@[m as int] == file);
                        }
                        if old_zips.contains(id) {
                            let (k, j) = choose|k: int, j: int|
                                #![trigger s.disk.shelves@[k].files@[j]]
                                seen(*s, k, j, n as int, m as int) && zip_at(*s, k, j, id);
                            assert(seen(*s, k, j, n as int, m + 1));
                        }
                        if exists|k: int, j: int|
                            #![trigger s.disk.shelves@[k].files@[j]]
                            seen(*s, k, j, n as int, m + 1) && zip_at(*s, k, j, id) {
                            let (k, j) = choose|k: int, j: int|
                                #![trigger s.disk.shelves@[k].files@[j]]
                                seen(*s, k, j, n as int, m + 1) && zip_at(*s, k, j, id);
                            assert(seen(*s, k, j, n as int, m as int) || (k == n && j == m));
                        }
                    }
                }
                assert(locks_seen(*s, n as int, m + 1, crashed@)) by {
                    assert forall|id: i64| #[trigger]
                        crashed@.contains(id) <==> exists|k: int, j: int|
                            #![trigger s.disk.shelves@[k].files@[j]]
                            seen(*s, k, j, n as int, m + 1) && lock_at(*s, k, j, id) by {
                        if lock_at(*s, n as int, m as int, id) {
                            assert(seen(*s, n as int, m as int, n as int, m + 1));
                            assert(s.disk.shelves@[n as int].files@[m as int] == file);
                        }
                        if old_crashed.contains(id) {
                            let (k, j) = choose|k: int, j: int|
                                #![trigger s.disk.shelves@[k].files@[j]]
                                seen(*s, k, j, n as int, m as int) && lock_at(*s, k, j, id);
                            assert(seen(*s, k, j, n as int, m + 1));
                        }
                        if exists|k: int, j: int|
                            #![trigger s.disk.shelves@[k].files@[j]]
                            seen(*s, k, j, n as int, m + 1) && lock_at(*s, k, j, id) {
                            let (k, j) = choose|k: int, j: int|
                                #![trigger s.disk.shelves@[k].files@[j]]
                                seen(*s, k, j, n as int, m + 1) && lock_at(*s, k, j, id);
                            assert(seen(*s, k, j, n as int, m as int) || (k == n && j == m));
                        }
                    }
                }
                m += 1;
            }
            assert(forall|k: int, j: int| #[trigger]
                seen(*s, k, j, n + 1, 0) <==> seen(*s, k, j, n as int, shelf.files@.len() as int));
        } else {
            assert(forall|id: i64, j: int| !zip_at(*s, n as int, j, id));
            assert(forall|id: i64, j: int| !lock_at(*s, n as int, j, id));
            assert(forall|k: int, j: int| #[trigger]
                seen(*s, k, j, n + 1, 0) <==> seen(*s, k, j, n as int, 0) || (k == n && 0 <= j
                    < s.disk.shelves@[n as int].files@.len()));
        }
        proof {
            lemma_next_shelf(*s, n as int, searched, zips@, crashed@);
        }
        n += 1;
    }
    proof {
        lemma_all_seen(*s, zips@, crashed@);
    }
    Found { zips, crashed, locks }
}

proof fn lemma_next_shelf(s: ScanInput, n: int, searched: bool, zips: Seq<i64>, crashed: Seq<i64>)
    requires
        0 <= n < s.disk.shelves@.len(),
        searched == is_searched(s, s.disk.shelves@[n]),
        searched ==> zips_seen(s, n, s.disk.shelves@[n].files@.len() as int, zips),
        searched ==> locks_seen(s, n, s.disk.shelves@[n].files@.len() as int, crashed),
        !searched ==> zips_seen(s, n, 0, zips),
        !searched ==> locks_seen(s, n, 0, crashed),
    ensures
        zips_seen(s, n + 1, 0, zips),
        locks_seen(s, n + 1, 0, crashed),
{
    let m = if searched {
        s.disk.shelves@[n].files@.len() as int
    } else {
        0
    };
    assert forall|id: i64| #[trigger]
        zips.contains(id) <==> exists|k: int, j: int|
            #![trigger s.disk.shelves@[k].files@[j]]
            seen(s, k, j, n + 1, 0) && zip_at(s, k, j, id) by {
        if zips.contains(id) {
            let (k, j) = choose|k: int, j: int|
                #![trigger s.disk.shelves@[k].files@[j]]
                seen(s, k, j, n, m) && zip_at(s, k, j, id);
            assert(seen(s, k, j, n + 1, 0));
        }
        if exists|k: int, j: int|
            #![trigger s.disk.shelves@[k].files@[j]]
            seen(s, k, j, n + 1, 0) && zip_at(s, k, j, id) {
            let (k, j) = choose|k: int, j: int|
                #![trigger s.disk.shelves@[k].files@[j]]
                seen(s, k, j, n + 1, 0) && zip_at(s, k, j, id);
            assert(seen(s, k, j, n, m));
        }
    }
    assert forall|id: i64| #[trigger]
        crashed.contains(id) <==> exists|k: int, j: int|
            #![trigger s.disk.shelves@[k].files@[j]]
            seen(s, k, j, n + 1, 0) && lock_at(s, k, j, id) by {
        if crashed.contains(id) {
            let (k, j) = choose|k: int, j: int|
                #![trigger s.disk.shelves@[k].files@[j]]
                seen(s, k, j, n, m) && lock_at(s, k, j, id);
            assert(seen(s, k, j, n + 1, 0));
        }
        if exists|k: int, j: int|
            #![trigger s.disk.shelves@[k].files@[j]]
            seen(s, k, j, n + 1, 0) && lock_at(s, k, j, id) {
            let (k, j) = choose|k: int, j: int|
                #![trigger s.disk.shelves@[k].files@[j]]
                seen(s, k, j, n + 1, 0) && lock_at(s, k, j, id);
            assert(seen(s, k, j, n, m));
        }
    }
}

proof fn lemma_all_seen(s: ScanInput, zips: Seq<i64>, crashed: Seq<i64>)
    requires
        zips_seen(s, s.disk.shelves@.len() as int, 0, zips),
        locks_seen(s, s.disk.shelves@.len() as int, 0, crashed),
    ensures
        forall|id: i64| #[trigger] zips.contains(id) <==> has_zip(s, id),
        forall|id: i64| #[trigger] crashed.contains(id) <==> has_crashed(s, id),
{
    let n = s.disk.shelves@.len() as int;
    assert forall|id: i64| #[trigger] zips.contains(id) <==> has_zip(s, id) by {
        if zips.contains(id) {
            let (k, j) = choose|k: int, j: int|
                #![trigger s.disk.shelves@[k].files@[j]]
                seen(s, k, j, n, 0) && zip_at(s, k, j, id);
            assert(has_zip(s, id));
        }
        if has_zip(s, id) {
            let (k, j) = choose|k: int, j: int|
                0 <= k < s.disk.shelves@.len() && 0 <= j < s.disk.shelves@[k].files@.len()
                    && is_searched(s, s.disk.shelves@[k]) && is_whole_zip(
                    s,
                    s.disk.shelves@[k],
                    #[trigger] s.disk.shelves@[k].files@[j],
                ) && owner(s, s.disk.shelves@[k].files@[j]) == Some(id);
            assert(seen(s, k, j, n, 0) && zip_at(s, k, j, id));
        }
    }
    assert forall|id: i64| #[trigger] crashed.contains(id) <==> has_crashed(s, id) by {
        if crashed.contains(id) {
            let (k, j) = choose|k: int, j: int|
                #![trigger s.disk.shelves@[k].files@[j]]
                seen(s, k, j, n, 0) && lock_at(s, k, j, id);
            assert(has_crashed(s, id));
        }
        if has_crashed(s, id) {
            let (k, j) = choose|k: int, j: int|
                0 <= k < s.disk.shelves@.len() && 0 <= j < s.disk.shelves@[k].files@.len()
                    && is_searched(s, s.disk.shelves@[k]) && is_stale_lock(
                    #[trigger] s.disk.shelves@[k].files@[j],
                ) && owner(s, s.disk.shelves@[k].files@[j]) == Some(id);
            assert(seen(s, k, j, n, 0) && lock_at(s, k, j, id));
        }
    }
}

fn dead_archives_of(s: &ScanInput) -> (r: Vec<String>)
    ensures
        text::texts(r@) == dead_archives(*s, s.disk.shelves@.len() as int),
{
    let base = shelf_present(&s.disk, "eXo/eXoDOS");
    let mut out: Vec<String> = Vec::new();
    let mut n: usize = 0;
    assert(text::texts(out@) =~= dead_archives(*s, 0));
    while n < s.disk.shelves.len()
        invariant
            n <= s.disk.shelves@.len(),
            base == has_shelf(s.disk, "eXo/eXoDOS"@),
            text::texts(out@) == dead_archives(*s, n as int),
        decreases s.disk.shelves@.len() - n,
    {
        let shelf = &s.disk.shelves[n];
        let searched = base && (same(shelf.path.as_str(), "eXo/eXoDOS") || any_year_shelf(
            shelf.path.as_str(),
        ));
        let ghost before = text::texts(out@);
        if searched {
            let mut m: usize = 0;
            assert(before + dead_on(*shelf, 0) =~= before);
            while m < shelf.files.len()
                invariant
                    m <= shelf.files@.len(),
                    text::texts(out@) == before + dead_on(*shelf, m as int),
                decreases shelf.files@.len() - m,
            {
                let ghost done = text::texts(out@);
                if stale_lock(&shelf.files[m]) {
                    if let Some(stem) = file_stem_of(shelf.files[m].name.as_str()) {
                        let ghost name = stem@;
                        out.push(stem);
                        assert(text::texts(out@) =~= done.push(name));
                        assert(done.push(name) =~= before + dead_on(*shelf, m as int).push(name));
                    }
                }
                m += 1;
            }
        }
        n += 1;
    }
    out
}

fn contains_id(list: &Vec<i64>, x: i64) -> (r: bool)
    ensures
        r == list@.contains(x),
{
    let mut i: usize = 0;
    while i < list.len()
        invariant
            i <= list@.len(),
            forall|k: int| 0 <= k < i ==> list@[k] != x,
        decreases list@.len() - i,
    {
        if list[i] == x {
            return true;
        }
        i += 1;
    }
    false
}

fn any_tree(disk: &Disk) -> (r: bool)
    ensures
        r == has_any_tree(*disk),
{
    let all = collection_map();
    let ghost want = crate::collections::collections();
    let mut i: usize = 0;
    while i < all.len()
        invariant
            i <= all@.len(),
            want == crate::collections::collections(),
            all@.len() == want.len(),
            forall|k: int| 0 <= k < all@.len() ==> (#[trigger] all@[k])@ == want[k],
            forall|k: int| 0 <= k < i ==> !has_shelf(*disk, (#[trigger] want[k]).game_prefix),
        decreases all@.len() - i,
    {
        assert(all@[i as int]@ == want[i as int]);
        if shelf_present(disk, all[i].game_prefix) {
            assert(has_shelf(*disk, want[i as int].game_prefix));
            return true;
        }
        i += 1;
    }
    false
}

/// Says of every row whether its game is installed and in the library, going by
/// what is on disk: a game is installed where its directory lies unpacked, or
/// where a whole archive of a library entry lies on a searched shelf. An error
/// where no collection's directory is there at all, which means that the drive
/// is not, rather than that every game is gone.
pub fn scan_installed_games_with_db(s: &ScanInput, data_dir: &str) -> (r: Result<ScanOutcome, String>)
    requires
        torrents_fit(s.torrents@),
        s.rows@.len() <= usize::MAX / 2,
    ensures
        match r {
            Ok(o) => {
                &&& has_any_tree(s.disk)
                &&& o.flags@ == Seq::new(s.rows@.len(), |i: int| row_flags(*s, s.rows@[i]))
                &&& o.found == found_among(*s, s.rows@.len() as int)
                &&& text::texts(o.stale_locks@) == stale_locks(*s, s.disk.shelves@.len() as int)
            },
            Err(e) => !has_any_tree(s.disk) && e@ == "No game folders found under "@ + data_dir@
                + ". Check the data directory in Settings."@,
        },
{
    if !any_tree(&s.disk) {
        return Err(
            cat3(
                "No game folders found under ",
                data_dir,
                ". Check the data directory in Settings.",
            ),
        );
    }
    let rows = sift(s);
    let found = search(s, &rows);
    let dead = dead_archives_of(s);
    let mut flags: Vec<RowFlags> = Vec::new();
    let mut count: usize = 0;
    let mut i: usize = 0;
    while i < s.rows.len()
        invariant
            i <= s.rows@.len(),
            s.rows@.len() <= usize::MAX / 2,
            rows.of(*s),
            forall|id: i64| #[trigger] found.zips@.contains(id) <==> has_zip(*s, id),
            forall|id: i64| #[trigger] found.crashed@.contains(id) <==> has_crashed(*s, id),
            text::texts(dead@) == dead_archives(*s, s.disk.shelves@.len() as int),
            flags@.len() == i,
            forall|k: int| 0 <= k < i ==> #[trigger] flags@[k] == row_flags(*s, s.rows@[k]),
            count == found_among(*s, i as int),
            count <= 2 * i,
        decreases s.rows@.len() - i,
    {
        let id: i64 = s.rows[i].id;
        assert(rows.unpacked@[i as int] == row_unpacked(*s, s.rows@[i as int]));
        assert(rows.stays@[i as int] == stays(*s, s.rows@[i as int]));
        let crash = contains_id(&found.crashed, id);
        let zip = contains_id(&found.zips, id);
        if rows.unpacked[i] {
            count += 1;
        }
        if zip && !crash {
            count += 1;
        }
        let plain = match &s.rows[i].torrent_source {
            Some(source) => collection_lang_dir(source.as_str()).is_none(),
            None => false,
        };
        let half = rows.unpacked[i] && plain && is_one_of(
            &dead,
            archive_name_of(&s.rows[i]).as_str(),
        );
        flags.push(
            RowFlags {
                installed: !crash && !half && (rows.unpacked[i] || zip),
                in_library: rows.stays[i] || rows.unpacked[i] || (zip && !crash),
            },
        );
        i += 1;
    }
    assert(flags@ =~= Seq::new(s.rows@.len(), |k: int| row_flags(*s, s.rows@[k])));
    Ok(ScanOutcome { flags, found: count, stale_locks: found.locks })
}

// ── Laws ─────────────────────────────────────────────────────────────────────

/// An installed game is in the library.
pub proof fn law_installed_is_in_library(s: ScanInput, row: Game)
    ensures
        row_flags(s, row).installed ==> row_flags(s, row).in_library,
{
}

/// A scan that was asked for, and a scan of an imported library, drop nothing.
pub proof fn law_adopting_drops_nothing(s: ScanInput, row: Game)
    requires
        s.adopt || s.disk_is_library,
        row.in_library,
    ensures
        row_flags(s, row).in_library,
{
}

/// A scan that was not asked for adds a row to the library only where its game
/// lies unpacked on disk.
pub proof fn law_startup_scan_adopts_nothing(s: ScanInput, i: int)
    requires
        !s.adopt,
        0 <= i < s.rows@.len(),
        ids_distinct(s.rows@),
        !s.rows@[i].in_library,
        !row_unpacked(s, s.rows@[i]),
    ensures
        !row_flags(s, s.rows@[i]).in_library,
        !row_flags(s, s.rows@[i]).installed,
{
    let id = s.rows@[i].id;
    if has_zip(s, id) {
        lemma_zip_owner_eligible(s, i);
    }
}

/// No two rows share an id.
pub open spec fn ids_distinct(rows: Seq<Game>) -> bool {
    forall|i: int, j: int|
        0 <= i < rows.len() && 0 <= j < rows.len() && (#[trigger] rows[i]).id == (
        #[trigger] rows[j]).id ==> i == j
}

/// `t` is the scan that follows `s`: nothing changed but the flags that `s` set.
pub open spec fn follows(s: ScanInput, t: ScanInput) -> bool {
    &&& t.disk == s.disk
    &&& t.torrents == s.torrents
    &&& t.adopt == s.adopt
    &&& t.disk_is_library == s.disk_is_library
    &&& t.in_flight == s.in_flight
    &&& t.rows@.len() == s.rows@.len()
    &&& forall|i: int|
        0 <= i < s.rows@.len() ==> #[trigger] t.rows@[i] == (Game {
            installed: row_flags(s, s.rows@[i]).installed,
            in_library: row_flags(s, s.rows@[i]).in_library,
            ..s.rows@[i]
        })
}

proof fn lemma_row_named(s: ScanInput, name: Seq<char>, n: int) -> (j: int)
    requires
        0 <= n <= s.rows@.len(),
        row_named(s, name, n) is Some,
    ensures
        0 <= j < n,
        is_eligible(s, s.rows@[j]),
        row_named(s, name, n) == Some(s.rows@[j].id),
    decreases n,
{
    if is_eligible(s, s.rows@[n - 1]) && crate::library::archive_name(s.rows@[n - 1]) == name {
        n - 1
    } else {
        lemma_row_named(s, name, n - 1)
    }
}

proof fn lemma_zip_owner_eligible(s: ScanInput, i: int)
    requires
        0 <= i < s.rows@.len(),
        ids_distinct(s.rows@),
        has_zip(s, s.rows@[i].id),
    ensures
        is_eligible(s, s.rows@[i]),
{
    let id = s.rows@[i].id;
    let (k, j) = choose|k: int, j: int|
        0 <= k < s.disk.shelves@.len() && 0 <= j < s.disk.shelves@[k].files@.len() && is_searched(
            s,
            s.disk.shelves@[k],
        ) && is_whole_zip(s, s.disk.shelves@[k], #[trigger] s.disk.shelves@[k].files@[j]) && owner(
            s,
            s.disk.shelves@[k].files@[j],
        ) == Some(id);
    let stem = crate::fspath::file_stem(s.disk.shelves@[k].files@[j].name@)->0;
    let r = lemma_row_named(s, stem, s.rows@.len() as int);
    assert(s.rows@[r].id == s.rows@[i].id);
}

proof fn lemma_same_requests(s: ScanInput, t: ScanInput, id: Seq<char>, n: int)
    requires
        follows(s, t),
        0 <= n <= s.rows@.len(),
    ensures
        requested_by_rows(t, id, n) == requested_by_rows(s, id, n),
    decreases n,
{
    if n > 0 {
        lemma_same_requests(s, t, id, n - 1);
        assert(t.rows@[n - 1].torrent_source == s.rows@[n - 1].torrent_source);
    }
}

proof fn lemma_same_eligible(s: ScanInput, t: ScanInput, i: int)
    requires
        follows(s, t),
        ids_distinct(s.rows@),
        0 <= i < s.rows@.len(),
    ensures
        row_unpacked(t, t.rows@[i]) == row_unpacked(s, s.rows@[i]),
        is_stray(t, t.rows@[i]) == is_stray(s, s.rows@[i]),
        is_eligible(t, t.rows@[i]) == is_eligible(s, s.rows@[i]),
        stays(s, s.rows@[i]) ==> stays(t, t.rows@[i]),
{
    let a = s.rows@[i];
    let b = t.rows@[i];
    assert forall|k: int| 0 <= k < s.torrents@.len() implies came_along(
        t,
        #[trigger] t.torrents@[k],
        b,
    ) == came_along(s, s.torrents@[k], a) by {
        lemma_same_requests(s, t, s.torrents@[k].id@, s.rows@.len() as int);
    }
    if is_stray(s, a) {
        let k = choose|k: int| 0 <= k < s.torrents@.len() && came_along(
            s,
            #[trigger] s.torrents@[k],
            a,
        );
        assert(came_along(t, t.torrents@[k], b));
    }
    if is_stray(t, b) {
        let k = choose|k: int| 0 <= k < t.torrents@.len() && came_along(
            t,
            #[trigger] t.torrents@[k],
            b,
        );
        assert(came_along(s, s.torrents@[k], a));
    }
    if has_zip(s, a.id) {
        lemma_zip_owner_eligible(s, i);
    }
}

proof fn lemma_same_named(s: ScanInput, t: ScanInput, name: Seq<char>, n: int)
    requires
        follows(s, t),
        ids_distinct(s.rows@),
        0 <= n <= s.rows@.len(),
    ensures
        row_named(t, name, n) == row_named(s, name, n),
    decreases n,
{
    if n > 0 {
        lemma_same_eligible(s, t, n - 1);
        lemma_same_named(s, t, name, n - 1);
    }
}

/// A second scan of an unchanged disk says what the first one said, of every row and in
/// all.
pub proof fn law_rescanning_is_idempotent(s: ScanInput, t: ScanInput, i: int)
    requires
        follows(s, t),
        ids_distinct(s.rows@),
        0 <= i < s.rows@.len(),
    ensures
        row_flags(t, t.rows@[i]) == row_flags(s, s.rows@[i]),
        found_among(t, t.rows@.len() as int) == found_among(s, s.rows@.len() as int),
        stale_locks(t, t.disk.shelves@.len() as int) == stale_locks(
            s,
            s.disk.shelves@.len() as int,
        ),
{
    lemma_same_row(s, t, i);
    lemma_same_found(s, t, s.rows@.len() as int);
    lemma_same_shelves(s, t, s.disk.shelves@.len() as int);
}

proof fn lemma_same_shelves(s: ScanInput, t: ScanInput, n: int)
    requires
        follows(s, t),
        0 <= n <= s.disk.shelves@.len(),
    ensures
        stale_locks(t, n) == stale_locks(s, n),
        dead_archives(t, n) == dead_archives(s, n),
    decreases n,
{
    if n > 0 {
        lemma_same_shelves(s, t, n - 1);
        assert(is_searched(t, t.disk.shelves@[n - 1]) == is_searched(s, s.disk.shelves@[n - 1]));
    }
}

proof fn lemma_same_found(s: ScanInput, t: ScanInput, n: int)
    requires
        follows(s, t),
        ids_distinct(s.rows@),
        0 <= n <= s.rows@.len(),
    ensures
        found_among(t, n) == found_among(s, n),
    decreases n,
{
    if n > 0 {
        lemma_same_found(s, t, n - 1);
        lemma_same_row(s, t, n - 1);
    }
}

proof fn lemma_same_row(s: ScanInput, t: ScanInput, i: int)
    requires
        follows(s, t),
        ids_distinct(s.rows@),
        0 <= i < s.rows@.len(),
    ensures
        row_flags(t, t.rows@[i]) == row_flags(s, s.rows@[i]),
        row_unpacked(t, t.rows@[i]) == row_unpacked(s, s.rows@[i]),
        t.rows@[i].id == s.rows@[i].id,
        has_zip(t, t.rows@[i].id) == has_zip(s, s.rows@[i].id),
        has_crashed(t, t.rows@[i].id) == has_crashed(s, s.rows@[i].id),
{
    lemma_same_shelves(s, t, s.disk.shelves@.len() as int);
    assert(crate::library::archive_name(t.rows@[i]) == crate::library::archive_name(s.rows@[i]));
    assert forall|f: ShelfFile| #[trigger] owner(t, f) == owner(s, f) by {
        if let Some(stem) = crate::fspath::file_stem(f.name@) {
            lemma_same_named(s, t, stem, s.rows@.len() as int);
        }
    }
    let id = s.rows@[i].id;
    assert(is_lenient(t) == is_lenient(s));
    assert(has_zip(t, id) == has_zip(s, id));
    assert(has_crashed(t, id) == has_crashed(s, id));
    lemma_same_eligible(s, t, i);
}

// Where a game has to lie to count

/// A directory on disk by this path, as far as a scan sees it.
pub open spec fn has_dir(disk: Disk, shelf: Seq<char>, name: Seq<char>) -> bool {
    exists|k: int|
        0 <= k < disk.shelves@.len() && (#[trigger] disk.shelves@[k]).path@ == shelf && text::texts(
            disk.shelves@[k].dirs@,
        ).contains(name)
}

/// The row is of a collection with this id.
pub open spec fn is_of(row: Game, id: Seq<char>) -> bool {
    row.torrent_source is Some && (row.torrent_source->0)@ == id
}

/// Rows of a language pack are never found in archives, and no lock is theirs.
proof fn lemma_pack_row(s: ScanInput, i: int)
    requires
        0 <= i < s.rows@.len(),
        ids_distinct(s.rows@),
        s.rows@[i].torrent_source is Some,
        crate::collections::lang_of((s.rows@[i].torrent_source->0)@) is Some,
    ensures
        !has_zip(s, s.rows@[i].id),
        !has_crashed(s, s.rows@[i].id),
        !is_half_unpacked(s, s.rows@[i]),
{
    let id = s.rows@[i].id;
    if has_zip(s, id) {
        lemma_zip_owner_eligible(s, i);
    }
    if has_crashed(s, id) {
        lemma_crash_owner_eligible(s, i);
    }
}

proof fn lemma_crash_owner_eligible(s: ScanInput, i: int)
    requires
        0 <= i < s.rows@.len(),
        ids_distinct(s.rows@),
        has_crashed(s, s.rows@[i].id),
    ensures
        is_eligible(s, s.rows@[i]),
{
    let id = s.rows@[i].id;
    let (k, j) = choose|k: int, j: int|
        0 <= k < s.disk.shelves@.len() && 0 <= j < s.disk.shelves@[k].files@.len() && is_searched(
            s,
            s.disk.shelves@[k],
        ) && is_stale_lock(#[trigger] s.disk.shelves@[k].files@[j]) && owner(
            s,
            s.disk.shelves@[k].files@[j],
        ) == Some(id);
    let stem = crate::fspath::file_stem(s.disk.shelves@[k].files@[j].name@)->0;
    let r = lemma_row_named(s, stem, s.rows@.len() as int);
    assert(s.rows@[r].id == s.rows@[i].id);
}

/// A game of a language pack is installed where, and only where, a directory by its
/// shortcode lies in the language's directory of the collection that the pack is laid over.
/// One that lies beside the English games does not count, and neither does an archive.
pub proof fn law_a_translation_lies_in_its_language(
    s: ScanInput,
    i: int,
    c: crate::collections::Collection,
    lang: Seq<char>,
)
    requires
        0 <= i < s.rows@.len(),
        ids_distinct(s.rows@),
        s.rows@[i].torrent_source is Some,
        s.rows@[i].shortcode is Some,
        crate::collections::def_of((s.rows@[i].torrent_source->0)@) == Some(c),
        c.lang_dir == Some(lang),
    ensures
        ({
            let code = (s.rows@[i].shortcode->0)@;
            let there = has_dir(s.disk, c.game_prefix + "/"@ + lang, code) && !"!"@.is_prefix_of(
                code,
            ) && !"."@.is_prefix_of(code);
            &&& row_flags(s, s.rows@[i]).installed == there
            &&& there ==> row_flags(s, s.rows@[i]).in_library
        }),
{
    let row = s.rows@[i];
    let code = (row.shortcode->0)@;
    lemma_lang_of((row.torrent_source->0)@);
    lemma_pack_row(s, i);
    if is_unpacked(s.disk, c, code) {
        let k = choose|k: int|
            0 <= k < s.disk.shelves@.len() && is_shelf_of(
                s.disk,
                c,
                (#[trigger] s.disk.shelves@[k]).path@,
            ) && text::texts(s.disk.shelves@[k].dirs@).contains(code);
        assert(has_dir(s.disk, c.game_prefix + "/"@ + lang, code)) by {
            assert(s.disk.shelves@[k].path@ == c.game_prefix + "/"@ + lang);
        }
    }
    if has_dir(s.disk, c.game_prefix + "/"@ + lang, code) {
        let k = choose|k: int|
            0 <= k < s.disk.shelves@.len() && (#[trigger] s.disk.shelves@[k]).path@ == c.game_prefix
                + "/"@ + lang && text::texts(s.disk.shelves@[k].dirs@).contains(code);
        assert(is_shelf_of(s.disk, c, s.disk.shelves@[k].path@));
    }
}

proof fn lemma_lang_of(source: Seq<char>)
    ensures
        crate::collections::def_of(source) matches Some(c) ==> crate::collections::lang_of(source)
            == c.lang_dir,
{
}

/// The German, Polish and Spanish games lie in the directories of their languages among the
/// DOS games.
pub proof fn law_the_languages_of_dos(s: ScanInput, i: int)
    requires
        0 <= i < s.rows@.len(),
        ids_distinct(s.rows@),
        s.rows@[i].shortcode is Some,
        !"!"@.is_prefix_of((s.rows@[i].shortcode->0)@),
        !"."@.is_prefix_of((s.rows@[i].shortcode->0)@),
    ensures
        ({
            let row = s.rows@[i];
            let code = (row.shortcode->0)@;
            let installed = row_flags(s, row).installed;
            &&& is_of(row, "eXoDOS_GLP"@) ==> installed == has_dir(
                s.disk,
                "eXo/eXoDOS/!german"@,
                code,
            )
            &&& is_of(row, "eXoDOS_PLP"@) ==> installed == has_dir(
                s.disk,
                "eXo/eXoDOS/!polish"@,
                code,
            )
            &&& is_of(row, "eXoDOS_SLP"@) ==> installed == has_dir(
                s.disk,
                "eXo/eXoDOS/!spanish"@,
                code,
            )
        }),
{
    let row = s.rows@[i];
    lemma_pack_ids();
    if is_of(row, "eXoDOS_GLP"@) {
        law_a_translation_lies_in_its_language(s, i, crate::collections::glp(), "!german"@);
    }
    if is_of(row, "eXoDOS_PLP"@) {
        law_a_translation_lies_in_its_language(s, i, crate::collections::plp(), "!polish"@);
    }
    if is_of(row, "eXoDOS_SLP"@) {
        law_a_translation_lies_in_its_language(s, i, crate::collections::slp(), "!spanish"@);
    }
}

proof fn lemma_pack_ids()
    ensures
        crate::collections::def_of("eXoDOS_GLP"@) == Some(crate::collections::glp()),
        crate::collections::def_of("eXoDOS_PLP"@) == Some(crate::collections::plp()),
        crate::collections::def_of("eXoDOS_SLP"@) == Some(crate::collections::slp()),
        crate::collections::glp().game_prefix + "/"@ + "!german"@ == "eXo/eXoDOS/!german"@,
        crate::collections::plp().game_prefix + "/"@ + "!polish"@ == "eXo/eXoDOS/!polish"@,
        crate::collections::slp().game_prefix + "/"@ + "!spanish"@ == "eXo/eXoDOS/!spanish"@,
{
    reveal_strlit("eXoDOS_GLP");
    reveal_strlit("eXoDOS_PLP");
    reveal_strlit("eXoDOS_SLP");
    reveal_strlit("eXo/eXoDOS");
    reveal_strlit("/");
    reveal_strlit("!german");
    reveal_strlit("!polish");
    reveal_strlit("!spanish");
    reveal_strlit("eXo/eXoDOS/!german");
    reveal_strlit("eXo/eXoDOS/!polish");
    reveal_strlit("eXo/eXoDOS/!spanish");
    let all = crate::collections::collections();
    assert(all[0] == crate::collections::glp());
    assert(all[1] == crate::collections::plp());
    assert(all[2] == crate::collections::slp());
    assert("eXoDOS_GLP"@[7] == 'G' && "eXoDOS_PLP"@[7] == 'P' && "eXoDOS_SLP"@[7] == 'S');
    reveal_with_fuel(crate::collections::def_from, 4);
    assert(crate::collections::glp().game_prefix + "/"@ + "!german"@ =~= "eXo/eXoDOS/!german"@);
    assert(crate::collections::plp().game_prefix + "/"@ + "!polish"@ =~= "eXo/eXoDOS/!polish"@);
    assert(crate::collections::slp().game_prefix + "/"@ + "!spanish"@ =~= "eXo/eXoDOS/!spanish"@);
}

/// A directory by four digits in that of the Windows 9x games.
pub open spec fn is_win9x_year(path: Seq<char>) -> bool {
    exists|year: Seq<char>|
        path == "eXo/eXoWin9x/"@ + year && year.len() == 4 && forall|i: int|
            0 <= i < 4 ==> '0' <= #[trigger] year[i] <= '9'
}

/// The file is an archive by this name.
pub open spec fn is_zip_of(f: ShelfFile, name: Seq<char>) -> bool {
    &&& crate::fspath::file_stem(f.name@) == Some(name)
    &&& crate::fspath::extension(f.name@) matches Some(e) && text::lower(e) == "zip"@
}

/// The file is the lock of an extraction by this name.
pub open spec fn is_lock_of(f: ShelfFile, name: Seq<char>) -> bool {
    crate::fspath::file_stem(f.name@) == Some(name) && crate::fspath::extension(f.name@) == Some(
        "extracting"@,
    )
}

/// A torrent has a file by this path and of this length.
pub open spec fn is_in_a_torrent(
    torrents: Seq<CollectionTorrent>,
    path: Seq<char>,
    len: u64,
) -> bool {
    exists|t: int, i: int|
        0 <= t < torrents.len() && 0 <= i < torrents[t].index.files@.len() && (
        #[trigger] torrents[t].index.files@[i]).path@ == path && torrents[t].index.files@[i].size
            == len
}

/// Some torrent is known with its files.
pub open spec fn knows_files(torrents: Seq<CollectionTorrent>) -> bool {
    exists|t: int| 0 <= t < torrents.len() && (#[trigger] torrents[t]).index.files@.len() > 0
}

/// Archives lie on this shelf: among the DOS games, or in a year of the Windows 9x games.
pub open spec fn holds_archives(path: Seq<char>) -> bool {
    path == "eXo/eXoDOS"@ || is_win9x_year(path)
}

proof fn lemma_holds_archives(path: Seq<char>)
    requires
        path == "eXo/eXoDOS"@ || is_any_year_shelf(path),
    ensures
        holds_archives(path),
{
    if is_any_year_shelf(path) {
        let all = crate::collections::collections();
        let i = choose|i: int|
            0 <= i < all.len() && (#[trigger] all[i]).year_subdirs && is_year_shelf(
                path,
                all[i].game_prefix,
            );
        assert(all[0] == crate::collections::glp() && all[1] == crate::collections::plp() && all[2]
            == crate::collections::slp() && all[3] == crate::collections::dos() && all[4]
            == crate::collections::win3x() && all[5] == crate::collections::win9x() && all[6]
            == crate::collections::scummvm());
        assert(i == 5);
        reveal_strlit("eXo/eXoWin9x");
        reveal_strlit("eXo/eXoWin9x/");
        reveal_strlit("/");
        let prefix = "eXo/eXoWin9x"@ + "/"@;
        assert(prefix =~= "eXo/eXoWin9x/"@);
        let year = path.skip(prefix.len() as int);
        assert(path.take(prefix.len() as int) == prefix);
        assert(path =~= "eXo/eXoWin9x/"@ + year);
        assert(is_win9x_year(path));
    }
}

proof fn lemma_len_in(files: Seq<TorrentFileEntry>, path: Seq<char>, n: int) -> (i: int)
    requires
        0 <= n <= files.len(),
        len_in(files, path, n) is Some,
    ensures
        0 <= i < n,
        files[i].path@ == path,
        len_in(files, path, n) == Some(files[i].size),
    decreases n,
{
    if files[n - 1].path@ == path {
        n - 1
    } else {
        lemma_len_in(files, path, n - 1)
    }
}

proof fn lemma_expected_len(torrents: Seq<CollectionTorrent>, path: Seq<char>, n: int)
    requires
        0 <= n <= torrents.len(),
        expected_len(torrents, path, n) is Some,
    ensures
        is_in_a_torrent(torrents, path, expected_len(torrents, path, n)->0),
    decreases n,
{
    let files = torrents[n - 1].index.files@;
    if len_in(files, path, files.len() as int) is Some {
        let i = lemma_len_in(files, path, files.len() as int);
        assert(torrents[n - 1].index.files@[i].path@ == path);
    } else {
        lemma_expected_len(torrents, path, n - 1);
    }
}

/// The row has an archive on disk: whole by its torrent and no download in flight, or, in a
/// scan that was asked for or without a torrent, no mere stub.
pub open spec fn lies_in_an_archive(s: ScanInput, row: Game) -> bool {
    exists|k: int, j: int|
        0 <= k < s.disk.shelves@.len() && 0 <= j < s.disk.shelves@[k].files@.len() && holds_archives(
            s.disk.shelves@[k].path@,
        ) && is_zip_of(
            #[trigger] s.disk.shelves@[k].files@[j],
            crate::library::archive_name(row),
        ) && {
            let f = s.disk.shelves@[k].files@[j];
            let rel = text::swap_char(s.disk.shelves@[k].path@ + "/"@ + f.name@, '\\', '/');
            if s.adopt || !knows_files(s.torrents@) {
                f.len >= 1024
            } else {
                !text::texts(s.in_flight@).contains(rel) && is_in_a_torrent(
                    s.torrents@,
                    rel,
                    f.len,
                )
            }
        }
}

/// The row's directory lies on a shelf of its collection.
pub open spec fn lies_unpacked(s: ScanInput, row: Game) -> bool {
    match (row.torrent_source, row.shortcode) {
        (Some(source), Some(code)) => match crate::collections::def_of(source@) {
            Some(c) => !"!"@.is_prefix_of(code@) && !"."@.is_prefix_of(code@) && match c.lang_dir {
                Some(lang) => has_dir(s.disk, c.game_prefix + "/"@ + lang, code@),
                None => if c.year_subdirs {
                    exists|path: Seq<char>|
                        is_win9x_year(path) && #[trigger] has_dir(s.disk, path, code@)
                } else {
                    has_dir(s.disk, c.game_prefix, code@)
                },
            },
            None => false,
        },
        _ => false,
    }
}

proof fn lemma_lies_unpacked(s: ScanInput, row: Game)
    requires
        row_unpacked(s, row),
    ensures
        lies_unpacked(s, row),
{
    let code = (row.shortcode->0)@;
    let c = crate::collections::def_of((row.torrent_source->0)@)->0;
    let k = choose|k: int|
        0 <= k < s.disk.shelves@.len() && is_shelf_of(
            s.disk,
            c,
            (#[trigger] s.disk.shelves@[k]).path@,
        ) && text::texts(s.disk.shelves@[k].dirs@).contains(code);
    let path = s.disk.shelves@[k].path@;
    assert(has_dir(s.disk, path, code));
    if c.lang_dir is None && c.year_subdirs {
        lemma_def_is_one((row.torrent_source->0)@, 0);
        let all = crate::collections::collections();
        let i = choose|i: int| 0 <= i < all.len() && #[trigger] all[i] == c;
        assert(is_any_year_shelf(path)) by {
            assert(all[i].year_subdirs);
        }
        lemma_holds_archives(path);
        reveal_strlit("eXo/eXoDOS");
        reveal_strlit("/");
        assert(path != "eXo/eXoDOS"@) by {
            lemma_year_shelf_is_no_dos(path);
        }
    }
}

proof fn lemma_year_shelf_is_no_dos(path: Seq<char>)
    requires
        is_any_year_shelf(path),
    ensures
        path != "eXo/eXoDOS"@,
{
    let all = crate::collections::collections();
    let i = choose|i: int|
        0 <= i < all.len() && (#[trigger] all[i]).year_subdirs && is_year_shelf(
            path,
            all[i].game_prefix,
        );
    assert(all[0] == crate::collections::glp() && all[1] == crate::collections::plp() && all[2]
        == crate::collections::slp() && all[3] == crate::collections::dos() && all[4]
        == crate::collections::win3x() && all[5] == crate::collections::win9x() && all[6]
        == crate::collections::scummvm());
    assert(i == 5);
    reveal_strlit("eXo/eXoWin9x");
    reveal_strlit("/");
    reveal_strlit("eXo/eXoDOS");
    assert(path.len() == 17 && "eXo/eXoDOS"@.len() == 10);
}

proof fn lemma_def_is_one(id: Seq<char>, i: int)
    requires
        0 <= i,
        crate::collections::def_from(id, i) is Some,
    ensures
        exists|k: int|
            0 <= k < crate::collections::collections().len()
                && #[trigger] crate::collections::collections()[k] == crate::collections::def_from(
                id,
                i,
            )->0,
    decreases crate::collections::collections().len() - i,
{
    let all = crate::collections::collections();
    if i < all.len() && all[i].id != id {
        lemma_def_is_one(id, i + 1);
    }
}

/// A game that a scan calls installed lies on disk: its directory on a shelf of its
/// collection, or an archive that counts, which is never one of a language pack's; and where
/// the scan was not asked for, an archive counts only for a game of the library.
pub proof fn law_an_installed_game_lies_on_disk(s: ScanInput, i: int)
    requires
        0 <= i < s.rows@.len(),
        ids_distinct(s.rows@),
        row_flags(s, s.rows@[i]).installed,
    ensures
        lies_unpacked(s, s.rows@[i]) || (lies_in_an_archive(s, s.rows@[i]) && (s.adopt
            || s.rows@[i].in_library) && s.rows@[i].torrent_source is Some
            && crate::collections::lang_of((s.rows@[i].torrent_source->0)@) is None),
{
    let row = s.rows@[i];
    if row_unpacked(s, row) {
        lemma_lies_unpacked(s, row);
    } else {
        let id = row.id;
        assert(has_zip(s, id));
        lemma_zip_owner_eligible(s, i);
        let (k, j) = choose|k: int, j: int|
            0 <= k < s.disk.shelves@.len() && 0 <= j < s.disk.shelves@[k].files@.len()
                && is_searched(s, s.disk.shelves@[k]) && is_whole_zip(
                s,
                s.disk.shelves@[k],
                #[trigger] s.disk.shelves@[k].files@[j],
            ) && owner(s, s.disk.shelves@[k].files@[j]) == Some(id);
        let shelf = s.disk.shelves@[k];
        let f = shelf.files@[j];
        lemma_holds_archives(shelf.path@);
        let stem = crate::fspath::file_stem(f.name@)->0;
        let r = lemma_named_row(s, stem, s.rows@.len() as int);
        assert(s.rows@[r].id == s.rows@[i].id);
        assert(r == i);
        reveal_strlit("zip");
        assert(text::lower("zip"@) =~= "zip"@);
        let rel = text::swap_char(shelf.path@ + "/"@ + f.name@, '\\', '/');
        if !is_lenient(s) {
            lemma_expected_len(s.torrents@, rel, s.torrents@.len() as int);
        }
        assert(sizes_known(s.torrents@) == knows_files(s.torrents@));
        assert(is_zip_of(s.disk.shelves@[k].files@[j], crate::library::archive_name(row)));
        assert(lies_in_an_archive(s, row));
    }
}

proof fn lemma_named_row(s: ScanInput, name: Seq<char>, n: int) -> (j: int)
    requires
        0 <= n <= s.rows@.len(),
        row_named(s, name, n) is Some,
    ensures
        0 <= j < n,
        crate::library::archive_name(s.rows@[j]) == name,
        row_named(s, name, n) == Some(s.rows@[j].id),
    decreases n,
{
    if is_eligible(s, s.rows@[n - 1]) && crate::library::archive_name(s.rows@[n - 1]) == name {
        n - 1
    } else {
        lemma_named_row(s, name, n - 1)
    }
}

/// No extraction is under way or died.
pub open spec fn has_no_locks(disk: Disk) -> bool {
    forall|k: int, j: int|
        0 <= k < disk.shelves@.len() && 0 <= j < disk.shelves@[k].files@.len()
            ==> crate::fspath::extension((#[trigger] disk.shelves@[k].files@[j]).name@) != Some(
            "extracting"@,
        )
}

proof fn lemma_no_locks(s: ScanInput, id: i64)
    requires
        has_no_locks(s.disk),
    ensures
        !has_crashed(s, id),
        dead_archives(s, s.disk.shelves@.len() as int).len() == 0,
{
    lemma_none_dead(s, s.disk.shelves@.len() as int);
}

proof fn lemma_none_dead(s: ScanInput, n: int)
    requires
        has_no_locks(s.disk),
        0 <= n <= s.disk.shelves@.len(),
    ensures
        dead_archives(s, n).len() == 0,
    decreases n,
{
    if n > 0 {
        lemma_none_dead(s, n - 1);
        lemma_none_dead_on(s, n - 1, s.disk.shelves@[n - 1].files@.len() as int);
    }
}

proof fn lemma_none_dead_on(s: ScanInput, k: int, n: int)
    requires
        has_no_locks(s.disk),
        0 <= k < s.disk.shelves@.len(),
        0 <= n <= s.disk.shelves@[k].files@.len(),
    ensures
        dead_on(s.disk.shelves@[k], n).len() == 0,
    decreases n,
{
    if n > 0 {
        lemma_none_dead_on(s, k, n - 1);
        assert(!is_stale_lock(s.disk.shelves@[k].files@[n - 1]));
    }
}

/// A game whose directory lies where the games of its collection lie is installed, and in
/// the library, where no extraction died.
pub proof fn law_an_unpacked_game_is_installed(
    s: ScanInput,
    row: Game,
    c: crate::collections::Collection,
    shelf: Seq<char>,
)
    requires
        has_no_locks(s.disk),
        row.torrent_source is Some,
        row.shortcode is Some,
        crate::collections::def_of((row.torrent_source->0)@) == Some(c),
        !"!"@.is_prefix_of((row.shortcode->0)@),
        !"."@.is_prefix_of((row.shortcode->0)@),
        has_dir(s.disk, shelf, (row.shortcode->0)@),
        match c.lang_dir {
            Some(lang) => shelf == c.game_prefix + "/"@ + lang,
            None => if c.year_subdirs {
                exists|year: Seq<char>|
                    shelf == c.game_prefix + "/"@ + year && year.len() == 4 && forall|i: int|
                        0 <= i < 4 ==> '0' <= #[trigger] year[i] <= '9'
            } else {
                shelf == c.game_prefix
            },
        },
        c.year_subdirs ==> exists|k: int|
            0 <= k < s.disk.shelves@.len() && (#[trigger] s.disk.shelves@[k]).path@
                == c.game_prefix,
    ensures
        row_flags(s, row).installed,
        row_flags(s, row).in_library,
{
    lemma_no_locks(s, row.id);
    let code = (row.shortcode->0)@;
    let k = choose|k: int|
        0 <= k < s.disk.shelves@.len() && (#[trigger] s.disk.shelves@[k]).path@ == shelf
            && text::texts(s.disk.shelves@[k].dirs@).contains(code);
    if c.lang_dir is None && c.year_subdirs {
        let year = choose|year: Seq<char>|
            shelf == c.game_prefix + "/"@ + year && year.len() == 4 && forall|i: int|
                0 <= i < 4 ==> '0' <= #[trigger] year[i] <= '9';
        let prefix = c.game_prefix + "/"@;
        assert(shelf.take(prefix.len() as int) =~= prefix);
        assert(shelf.skip(prefix.len() as int) =~= year);
        assert(is_year_shelf(shelf, c.game_prefix));
    }
    assert(is_shelf_of(s.disk, c, s.disk.shelves@[k].path@));
    assert(is_unpacked(s.disk, c, code));
}

/// The last row by this name is the only one.
proof fn lemma_only_row(s: ScanInput, name: Seq<char>, i: int, n: int)
    requires
        0 <= i < n <= s.rows@.len(),
        is_eligible(s, s.rows@[i]),
        crate::library::archive_name(s.rows@[i]) == name,
        forall|r: int|
            0 <= r < s.rows@.len() && r != i ==> crate::library::archive_name(#[trigger] s.rows@[r])
                != name,
    ensures
        row_named(s, name, n) == Some(s.rows@[i].id),
    decreases n,
{
    if n - 1 > i {
        lemma_only_row(s, name, i, n - 1);
    }
}

/// In a scan that was asked for, an archive among the DOS games that is no mere stub makes
/// its game installed and puts it into the library, where no extraction died. It does so of
/// itself: the game was not in the library before. A language pack's game is not found so.
pub proof fn law_an_archive_is_adopted(s: ScanInput, i: int, k: int, j: int)
    requires
        s.adopt,
        has_no_locks(s.disk),
        0 <= i < s.rows@.len(),
        s.rows@[i].torrent_source is Some,
        crate::collections::lang_of((s.rows@[i].torrent_source->0)@) is None,
        0 <= k < s.disk.shelves@.len(),
        0 <= j < s.disk.shelves@[k].files@.len(),
        s.disk.shelves@[k].path@ == "eXo/eXoDOS"@,
        is_zip_of(s.disk.shelves@[k].files@[j], crate::library::archive_name(s.rows@[i])),
        s.disk.shelves@[k].files@[j].len >= 1024,
        forall|r: int|
            0 <= r < s.rows@.len() && r != i ==> crate::library::archive_name(#[trigger] s.rows@[r])
                != crate::library::archive_name(s.rows@[i]),
    ensures
        row_flags(s, s.rows@[i]).installed,
        row_flags(s, s.rows@[i]).in_library,
{
    let row = s.rows@[i];
    lemma_no_locks(s, row.id);
    if !row_unpacked(s, row) {
        let f = s.disk.shelves@[k].files@[j];
        lemma_only_row(s, crate::library::archive_name(row), i, s.rows@.len() as int);
        reveal_strlit("zip");
        assert(text::lower("zip"@) =~= "zip"@);
        assert(is_searched(s, s.disk.shelves@[k])) by {
            assert(has_shelf(s.disk, "eXo/eXoDOS"@));
        }
        assert(is_whole_zip(s, s.disk.shelves@[k], f));
        assert(owner(s, f) == Some(row.id));
        assert(has_zip(s, row.id));
    }
}

/// A game whose extraction died is not installed, whatever it left on disk: a lock by the
/// name of its archive has lain among the DOS games for more than five minutes.
pub proof fn law_a_dead_extraction_is_no_install(s: ScanInput, i: int, k: int, j: int)
    requires
        0 <= i < s.rows@.len(),
        ids_distinct(s.rows@),
        s.rows@[i].torrent_source is Some,
        crate::collections::lang_of((s.rows@[i].torrent_source->0)@) is None,
        0 <= k < s.disk.shelves@.len(),
        0 <= j < s.disk.shelves@[k].files@.len(),
        s.disk.shelves@[k].path@ == "eXo/eXoDOS"@,
        is_lock_of(s.disk.shelves@[k].files@[j], crate::library::archive_name(s.rows@[i])),
        s.disk.shelves@[k].files@[j].age matches Some(age) && age > 300,
        forall|r: int|
            0 <= r < s.rows@.len() && r != i ==> crate::library::archive_name(#[trigger] s.rows@[r])
                != crate::library::archive_name(s.rows@[i]),
    ensures
        !row_flags(s, s.rows@[i]).installed,
        stale_locks(s, s.disk.shelves@.len() as int).contains(
            "eXo/eXoDOS/"@ + s.disk.shelves@[k].files@[j].name@,
        ),
{
    let row = s.rows@[i];
    let shelf = s.disk.shelves@[k];
    let f = shelf.files@[j];
    let name = crate::library::archive_name(row);
    assert(is_stale_lock(f));
    assert(is_searched(s, shelf)) by {
        assert(has_shelf(s.disk, "eXo/eXoDOS"@));
    }
    if row_unpacked(s, row) {
        lemma_dead_on(shelf, j, shelf.files@.len() as int);
        lemma_dead_on_shelf(s, k, s.disk.shelves@.len() as int, name);
    } else if is_eligible(s, row) {
        lemma_only_row(s, name, i, s.rows@.len() as int);
        assert(owner(s, f) == Some(row.id));
        assert(has_crashed(s, row.id));
    } else if has_zip(s, row.id) {
        lemma_zip_owner_eligible(s, i);
    }
    let path = shelf.path@ + "/"@ + f.name@;
    reveal_strlit("eXo/eXoDOS");
    reveal_strlit("eXo/eXoDOS/");
    reveal_strlit("/");
    assert(path =~= "eXo/eXoDOS/"@ + f.name@);
    lemma_lock_on(shelf, j, shelf.files@.len() as int);
    lemma_lock_on_shelf(s, k, s.disk.shelves@.len() as int, path);
}

proof fn lemma_dead_on(shelf: Shelf, j: int, n: int)
    requires
        0 <= j < n <= shelf.files@.len(),
        is_stale_lock(shelf.files@[j]),
        crate::fspath::file_stem(shelf.files@[j].name@) is Some,
    ensures
        dead_on(shelf, n).contains(crate::fspath::file_stem(shelf.files@[j].name@)->0),
    decreases n,
{
    let stem = crate::fspath::file_stem(shelf.files@[j].name@)->0;
    let before = dead_on(shelf, n - 1);
    let now = dead_on(shelf, n);
    if j < n - 1 {
        lemma_dead_on(shelf, j, n - 1);
        let w = choose|w: int| 0 <= w < before.len() && before[w] == stem;
        assert(now[w] == stem);
    } else {
        assert(now[before.len() as int] == stem);
    }
}

proof fn lemma_dead_on_shelf(s: ScanInput, k: int, n: int, name: Seq<char>)
    requires
        0 <= k < n <= s.disk.shelves@.len(),
        is_searched(s, s.disk.shelves@[k]),
        dead_on(s.disk.shelves@[k], s.disk.shelves@[k].files@.len() as int).contains(name),
    ensures
        dead_archives(s, n).contains(name),
    decreases n,
{
    let before = dead_archives(s, n - 1);
    let now = dead_archives(s, n);
    if k < n - 1 {
        lemma_dead_on_shelf(s, k, n - 1, name);
        let w = choose|w: int| 0 <= w < before.len() && before[w] == name;
        assert(now[w] == name);
    } else {
        let own = dead_on(s.disk.shelves@[k], s.disk.shelves@[k].files@.len() as int);
        let w = choose|w: int| 0 <= w < own.len() && own[w] == name;
        assert(now[before.len() + w] == name);
    }
}

proof fn lemma_lock_on(shelf: Shelf, j: int, n: int)
    requires
        0 <= j < n <= shelf.files@.len(),
        is_stale_lock(shelf.files@[j]),
    ensures
        locks_on(shelf, n).contains(shelf.path@ + "/"@ + shelf.files@[j].name@),
    decreases n,
{
    let path = shelf.path@ + "/"@ + shelf.files@[j].name@;
    let before = locks_on(shelf, n - 1);
    let now = locks_on(shelf, n);
    if j < n - 1 {
        lemma_lock_on(shelf, j, n - 1);
        let w = choose|w: int| 0 <= w < before.len() && before[w] == path;
        assert(now[w] == path);
    } else {
        assert(now[before.len() as int] == path);
    }
}

proof fn lemma_lock_on_shelf(s: ScanInput, k: int, n: int, path: Seq<char>)
    requires
        0 <= k < n <= s.disk.shelves@.len(),
        is_searched(s, s.disk.shelves@[k]),
        locks_on(s.disk.shelves@[k], s.disk.shelves@[k].files@.len() as int).contains(path),
    ensures
        stale_locks(s, n).contains(path),
    decreases n,
{
    let before = stale_locks(s, n - 1);
    let now = stale_locks(s, n);
    if k < n - 1 {
        lemma_lock_on_shelf(s, k, n - 1, path);
        let w = choose|w: int| 0 <= w < before.len() && before[w] == path;
        assert(now[w] == path);
    } else {
        let own = locks_on(s.disk.shelves@[k], s.disk.shelves@[k].files@.len() as int);
        let w = choose|w: int| 0 <= w < own.len() && own[w] == path;
        assert(now[before.len() + w] == path);
    }
}

/// Only the locks of dead extractions are removed: files that end in `extracting` and were
/// written more than five minutes ago. One that is younger may be at work.
pub proof fn law_a_lock_at_work_stays(s: ScanInput, n: int, path: Seq<char>)
    requires
        0 <= n <= s.disk.shelves@.len(),
        stale_locks(s, n).contains(path),
    ensures
        exists|k: int, j: int|
            0 <= k < n && 0 <= j < s.disk.shelves@[k].files@.len() && path == s.disk.shelves@[k].path@
                + "/"@ + (#[trigger] s.disk.shelves@[k].files@[j]).name@ && crate::fspath::extension(
                s.disk.shelves@[k].files@[j].name@,
            ) == Some("extracting"@) && s.disk.shelves@[k].files@[j].age is Some
                && s.disk.shelves@[k].files@[j].age->0 > 300,
    decreases n,
{
    let now = stale_locks(s, n);
    if n > 0 {
        let before = stale_locks(s, n - 1);
        let w = choose|w: int| 0 <= w < now.len() && now[w] == path;
        if w < before.len() {
            assert(before[w] == path);
            law_a_lock_at_work_stays(s, n - 1, path);
        } else {
            let shelf = s.disk.shelves@[n - 1];
            let own = locks_on(shelf, shelf.files@.len() as int);
            assert(own[w - before.len()] == path);
            let j = lemma_lock_from(shelf, shelf.files@.len() as int, path);
            assert(is_stale_lock(s.disk.shelves@[n - 1].files@[j]));
        }
    }
}

proof fn lemma_lock_from(shelf: Shelf, n: int, path: Seq<char>) -> (j: int)
    requires
        0 <= n <= shelf.files@.len(),
        locks_on(shelf, n).contains(path),
    ensures
        0 <= j < n,
        is_stale_lock(shelf.files@[j]),
        path == shelf.path@ + "/"@ + shelf.files@[j].name@,
    decreases n,
{
    let now = locks_on(shelf, n);
    let w = choose|w: int| 0 <= w < now.len() && now[w] == path;
    let before = locks_on(shelf, n - 1);
    if n > 0 && w < before.len() {
        assert(before[w] == path);
        lemma_lock_from(shelf, n - 1, path)
    } else {
        n - 1
    }
}

/// How many of the first `n` rows are installed.
pub open spec fn installed_among(s: ScanInput, n: int) -> int
    decreases n,
{
    if n <= 0 {
        0
    } else {
        installed_among(s, n - 1) + (if row_flags(s, s.rows@[n - 1]).installed {
            1int
        } else {
            0
        })
    }
}

/// Where no extraction died, a scan finds as many games as it calls installed.
pub proof fn law_found_games_are_installed(s: ScanInput, n: int)
    requires
        has_no_locks(s.disk),
        ids_distinct(s.rows@),
        0 <= n <= s.rows@.len(),
    ensures
        found_among(s, n) == installed_among(s, n),
    decreases n,
{
    if n > 0 {
        law_found_games_are_installed(s, n - 1);
        lemma_no_locks(s, s.rows@[n - 1].id);
        if has_zip(s, s.rows@[n - 1].id) {
            lemma_zip_owner_eligible(s, n - 1);
        }
    }
}

/// A disk on which no collection has a directory is no empty library but a missing drive.
/// The directory of any one collection is enough for a scan.
pub proof fn law_a_missing_drive_is_told(disk: Disk, k: int)
    requires
        0 <= k < disk.shelves@.len(),
    ensures
        has_any_tree(disk) ==> exists|h: int|
            0 <= h < disk.shelves@.len() && seq![
                "eXo/eXoDOS"@,
                "eXo/eXoWin3x"@,
                "eXo/eXoWin9x"@,
                "eXo/eXoScummVM"@,
            ].contains((#[trigger] disk.shelves@[h]).path@),
        seq!["eXo/eXoDOS"@, "eXo/eXoWin3x"@, "eXo/eXoWin9x"@, "eXo/eXoScummVM"@].contains(
            disk.shelves@[k].path@,
        ) ==> has_any_tree(disk),
{
    let all = crate::collections::collections();
    let list = seq!["eXo/eXoDOS"@, "eXo/eXoWin3x"@, "eXo/eXoWin9x"@, "eXo/eXoScummVM"@];
    assert(all[0] == crate::collections::glp() && all[1] == crate::collections::plp() && all[2]
        == crate::collections::slp() && all[3] == crate::collections::dos() && all[4]
        == crate::collections::win3x() && all[5] == crate::collections::win9x() && all[6]
        == crate::collections::scummvm());
    assert(list[0] == "eXo/eXoDOS"@ && list[1] == "eXo/eXoWin3x"@ && list[2] == "eXo/eXoWin9x"@
        && list[3] == "eXo/eXoScummVM"@);
    if has_any_tree(disk) {
        let i = choose|i: int|
            0 <= i < all.len() && has_shelf(disk, (#[trigger] all[i]).game_prefix);
        let h = choose|h: int|
            0 <= h < disk.shelves@.len() && (#[trigger] disk.shelves@[h]).path@
                == all[i].game_prefix;
        assert(i == 0 || i == 1 || i == 2 || i == 3 || i == 4 || i == 5 || i == 6);
        assert(list.contains(disk.shelves@[h].path@));
    }
    let path = disk.shelves@[k].path@;
    if list.contains(path) {
        let w = choose|w: int| 0 <= w < list.len() && list[w] == path;
        assert(has_shelf(disk, all[3 + w].game_prefix));
    }
}

/// A scan that was not asked for puts a game into the library only where its directory lies
/// on a shelf of its collection; and it takes one out only where no directory of it does.
pub proof fn law_a_startup_scan_goes_by_directories(s: ScanInput, i: int)
    requires
        !s.adopt,
        0 <= i < s.rows@.len(),
        ids_distinct(s.rows@),
    ensures
        !s.rows@[i].in_library && row_flags(s, s.rows@[i]).in_library ==> lies_unpacked(
            s,
            s.rows@[i],
        ),
        s.rows@[i].in_library && !row_flags(s, s.rows@[i]).in_library ==> !s.disk_is_library
            && s.rows@[i].game_torrent_index is Some && exists|t: int, f: int, a: int|
            0 <= t < s.torrents@.len() && is_of(s.rows@[i], s.torrents@[t].id@) && f
                == s.rows@[i].game_torrent_index->0 && 0 <= f < s.torrents@[t].index.files@.len() && 0
                <= a < s.disk.archives@.len() && (#[trigger] s.disk.archives@[a]).path@ == (
            #[trigger] s.torrents@[t].index.files@[f]).path@ && s.disk.archives@[a].len
                == s.torrents@[t].index.files@[f].size,
{
    let row = s.rows@[i];
    if row_unpacked(s, row) {
        lemma_lies_unpacked(s, row);
    } else {
        if has_zip(s, row.id) {
            lemma_zip_owner_eligible(s, i);
        }
        if row.in_library && !row_flags(s, row).in_library {
            assert(is_stray(s, row));
            let t = choose|t: int| 0 <= t < s.torrents@.len() && came_along(
                s,
                #[trigger] s.torrents@[t],
                row,
            );
            let f = row.game_torrent_index->0 as int;
            let entry = s.torrents@[t].index.files@[f];
            let a = choose|a: int|
                0 <= a < s.disk.archives@.len() && (#[trigger] s.disk.archives@[a]).path@
                    == entry.path@ && s.disk.archives@[a].len == entry.size;
            assert(s.torrents@[t].index.files@[f].path@ == s.disk.archives@[a].path@);
        }
    }
}

/// The files of games that lie unpacked were asked for, and so were the support archives that
/// are being fetched or were unpacked: what shares their pieces came along with them.
pub proof fn law_what_was_asked_for(s: ScanInput, t: CollectionTorrent, i: int, f: int)
    requires
        0 <= i < s.rows@.len(),
        0 <= f < t.index.files@.len(),
    ensures
        row_unpacked(s, s.rows@[i]) && is_of(s.rows@[i], t.id@) ==> {
            &&& s.rows@[i].game_torrent_index matches Some(x) ==> 0 <= x <= usize::MAX
                ==> requested_files(s, t).contains(x as usize)
            &&& s.rows@[i].gamedata_torrent_index matches Some(x) ==> 0 <= x <= usize::MAX
                ==> requested_files(s, t).contains(x as usize)
        },
        is_first_with(t.index, f, "util/util.zip"@) && (is_started(
            s.disk,
            t.index.files@[f].path@,
        ) || text::texts(s.disk.traces@).contains("eXo/mt32"@)) ==> requested_files(s, t).contains(
            t.index.files@[f].index,
        ),
        is_first_with(t.index, f, "!DOSmetadata.zip"@) && (is_started(
            s.disk,
            t.index.files@[f].path@,
        ) || text::texts(s.disk.traces@).contains("eXo/eXoDOS/!dos"@)) ==> requested_files(
            s,
            t,
        ).contains(t.index.files@[f].index),
        is_first_with(t.index, f, "util/utilWin9x.zip"@) && (is_started(
            s.disk,
            t.index.files@[f].path@,
        ) || text::texts(s.disk.traces@).contains("eXo/emulators/86Box98"@)) ==> requested_files(
            s,
            t,
        ).contains(t.index.files@[f].index),
{
    let rows = requested_by_rows(s, t.id@, s.rows@.len() as int);
    let a = support_file(s, t.index, "util/util.zip"@, "eXo/mt32"@);
    let b = support_file(s, t.index, "!DOSmetadata.zip"@, "eXo/eXoDOS/!dos"@);
    let c = support_file(s, t.index, "util/utilWin9x.zip"@, "eXo/emulators/86Box98"@);
    let all = requested_files(s, t);
    assert(all == rows + a + b + c);
    if row_unpacked(s, s.rows@[i]) && is_of(s.rows@[i], t.id@) {
        if let Some(x) = s.rows@[i].game_torrent_index {
            if 0 <= x <= usize::MAX {
                lemma_row_asked(s, t.id@, i, s.rows@.len() as int, x as usize);
                let w = choose|w: int| 0 <= w < rows.len() && rows[w] == x as usize;
                assert(all[w] == x as usize);
            }
        }
        if let Some(x) = s.rows@[i].gamedata_torrent_index {
            if 0 <= x <= usize::MAX {
                lemma_row_asked(s, t.id@, i, s.rows@.len() as int, x as usize);
                let w = choose|w: int| 0 <= w < rows.len() && rows[w] == x as usize;
                assert(all[w] == x as usize);
            }
        }
    }
    let n = rows.len() as int;
    if is_first_with(t.index, f, "util/util.zip"@) {
        lemma_first_with(t.index, f, "util/util.zip"@, 0);
        if a.len() > 0 {
            assert(all[n] == a[0]);
        }
    }
    if is_first_with(t.index, f, "!DOSmetadata.zip"@) {
        lemma_first_with(t.index, f, "!DOSmetadata.zip"@, 0);
        if b.len() > 0 {
            assert(all[n + a.len()] == b[0]);
        }
    }
    if is_first_with(t.index, f, "util/utilWin9x.zip"@) {
        lemma_first_with(t.index, f, "util/utilWin9x.zip"@, 0);
        if c.len() > 0 {
            assert(all[n + a.len() + b.len()] == c[0]);
        }
    }
}

/// File `f` is the first of a torrent whose path ends so.
pub open spec fn is_first_with(index: TorrentIndex, f: int, suffix: Seq<char>) -> bool {
    &&& suffix.is_suffix_of(index.files@[f].path@)
    &&& forall|k: int| 0 <= k < f ==> !suffix.is_suffix_of((#[trigger] index.files@[k]).path@)
}

proof fn lemma_first_with(index: TorrentIndex, f: int, suffix: Seq<char>, from: int)
    requires
        0 <= from <= f < index.files@.len(),
        is_first_with(index, f, suffix),
    ensures
        crate::models::suffix_from(index.files@, suffix, from) == Some(f),
    decreases f - from,
{
    if from < f {
        assert(!suffix.is_suffix_of(index.files@[from].path@));
        lemma_first_with(index, f, suffix, from + 1);
    }
}

proof fn lemma_row_asked(s: ScanInput, id: Seq<char>, i: int, n: int, x: usize)
    requires
        0 <= i < n <= s.rows@.len(),
        row_unpacked(s, s.rows@[i]),
        is_of(s.rows@[i], id),
        as_index(s.rows@[i].game_torrent_index).contains(x) || as_index(
            s.rows@[i].gamedata_torrent_index,
        ).contains(x) || s.rows@[i].game_torrent_index == Some(x as i64) && x <= i64::MAX
            || s.rows@[i].gamedata_torrent_index == Some(x as i64) && x <= i64::MAX,
    ensures
        requested_by_rows(s, id, n).contains(x),
    decreases n,
{
    let before = requested_by_rows(s, id, n - 1);
    let now = requested_by_rows(s, id, n);
    if i < n - 1 {
        lemma_row_asked(s, id, i, n - 1, x);
        let w = choose|w: int| 0 <= w < before.len() && before[w] == x;
        assert(now[w] == x);
    } else {
        let a = as_index(s.rows@[i].game_torrent_index);
        let b = as_index(s.rows@[i].gamedata_torrent_index);
        assert(is_from(s.rows@[i], id));
        assert(now == before + a + b);
        if a.contains(x) || (s.rows@[i].game_torrent_index == Some(x as i64) && x <= i64::MAX) {
            assert(a[0] == x);
            assert(now[before.len() as int] == x);
        } else {
            assert(b[0] == x);
            assert(now[(before.len() + a.len()) as int] == x);
        }
    }
}

} // verus!
