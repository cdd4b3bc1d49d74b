//! Preview videos and theme tracks: where they are kept, when they are fetched and
//! what is said of them.

use crate::cache::{CacheFile, Pruner};
use crate::collections::collection_base_id;
use crate::fspath::{extension_of, file_stem_of, join_path};
use crate::install::source_text;
use crate::models::{Game, TorrentIndex};
use crate::paths::{path_lies_below, path_to_fwd_slash};
use crate::scummvm::Os;
use crate::table::Table;
use crate::text;
use crate::text::{
    cat, cat3, chars_of, copy, copy_opt, decimal_of, has_str, is_one_of, is_str, number_of,
    rcut_once, same, string_of, to_lower,
};
use vstd::prelude::*;

verus! {

/// What is said of an archive that could not be asked for want of a session. It is
/// told apart from an archive that holds nothing, which is remembered.
pub const OFFLINE_TOKEN: &'static str = "offline";

/// What a cache of videos may take.
pub const VIDEO_CACHE_MAX_BYTES: u64 = 1_073_741_824;

/// What a cache of tracks may take.
pub const MUSIC_CACHE_MAX_BYTES: u64 = 1_073_741_824;

/// What is taken out of an archive.
#[derive(Clone, Copy, PartialEq, Eq, Structural)]
pub enum MediaKind {
    Video,
    Music,
}

/// The path of a cache entry: the collection and the archive's index, and an
/// extension.
pub open spec fn entry_place(
    kind: MediaKind,
    data_dir: Seq<char>,
    collection: Seq<char>,
    index: nat,
    ext: Seq<char>,
) -> Seq<char> {
    crate::fspath::joined(
        kind.place(data_dir),
        collection + "_"@ + text::decimal(index) + "."@ + ext,
    )
}

/// A track's extension.
pub open spec fn is_track(ext: Seq<char>) -> bool {
    text::lower(ext) == "mp3"@ || text::lower(ext) == "ogg"@
}

impl MediaKind {
    /// The name of the kind.
    pub fn label(self) -> (r: &'static str)
        ensures
            r@ == (match self {
                MediaKind::Video => "video"@,
                MediaKind::Music => "music"@,
            }),
    {
        match self {
            MediaKind::Video => "video",
            MediaKind::Music => "music",
        }
    }

    /// The directory of the cache.
    pub open spec fn place(self, data_dir: Seq<char>) -> Seq<char> {
        crate::fspath::joined(
            crate::fspath::joined(data_dir, "content"@),
            match self {
                MediaKind::Video => "videocache"@,
                MediaKind::Music => "musiccache"@,
            },
        )
    }

    /// The directory of the cache.
    pub fn cache_dir(self, data_dir: &str) -> (r: String)
        ensures
            r@ == self.place(data_dir@),
    {
        let name = match self {
            MediaKind::Video => "videocache",
            MediaKind::Music => "musiccache",
        };
        join_path(join_path(data_dir, "content").as_str(), name)
    }

    fn entry(self, data_dir: &str, collection: &str, file_index: usize, ext: &str) -> (r: String)
        ensures
            r@ == entry_place(self, data_dir@, collection@, file_index as nat, ext@),
    {
        let number = decimal_of(file_index as u64);
        let stem = cat3(collection, "_", number.as_str());
        let name = cat3(stem.as_str(), ".", ext);
        join_path(self.cache_dir(data_dir).as_str(), name.as_str())
    }

    /// The mark of an archive that holds nothing of the kind.
    pub open spec fn marker_ext(self) -> Seq<char> {
        match self {
            MediaKind::Video => "novideo"@,
            MediaKind::Music => "nomusic"@,
        }
    }

    /// The mark of an archive that holds nothing of the kind. The answer costs a
    /// download, so it is asked for once.
    pub fn marker(self, data_dir: &str, collection: &str, file_index: usize) -> (r: String)
        ensures
            r@ == entry_place(
                self,
                data_dir@,
                collection@,
                file_index as nat,
                self.marker_ext(),
            ),
    {
        let ext = match self {
            MediaKind::Video => "novideo",
            MediaKind::Music => "nomusic",
        };
        self.entry(data_dir, collection, file_index, ext)
    }

    /// The extension that an entry is kept under. A track keeps its own.
    pub open spec fn kept_ext(self, entry_name: Seq<char>) -> Seq<char> {
        match self {
            MediaKind::Video => "mp4"@,
            MediaKind::Music => match crate::fspath::extension(entry_name) {
                Some(ext) => text::lower(ext),
                None => "mp3"@,
            },
        }
    }

    /// Where an entry is kept.
    pub fn cache_file(
        self,
        data_dir: &str,
        collection: &str,
        file_index: usize,
        entry_name: &str,
    ) -> (r: String)
        ensures
            r@ == entry_place(
                self,
                data_dir@,
                collection@,
                file_index as nat,
                self.kept_ext(entry_name@),
            ),
    {
        let ext = match self {
            MediaKind::Video => copy("mp4"),
            MediaKind::Music => match extension_of(entry_name) {
                Some(ext) => string_of(to_lower(chars_of(ext.as_str()).as_slice()).as_slice()),
                None => copy("mp3"),
            },
        };
        self.entry(data_dir, collection, file_index, ext.as_str())
    }

    /// A file of the cache is an entry, and neither a mark nor half written.
    pub open spec fn holds(self, path: Seq<char>) -> bool {
        match crate::fspath::extension(path) {
            Some(ext) => match self {
                MediaKind::Video => ext == "mp4"@,
                MediaKind::Music => is_track(ext),
            },
            None => false,
        }
    }

    /// Whether a file of the cache is an entry.
    pub fn is_payload(self, path: &str) -> (r: bool)
        ensures
            r == self.holds(path@),
    {
        match extension_of(path) {
            Some(ext) => match self {
                MediaKind::Video => same(ext.as_str(), "mp4"),
                MediaKind::Music => {
                    let low = to_lower(chars_of(ext.as_str()).as_slice());
                    is_str(low.as_slice(), "mp3") || is_str(low.as_slice(), "ogg")
                },
            },
            None => false,
        }
    }

    /// The first path, `i` or later, that holds the entry of an archive.
    pub open spec fn found_from(
        self,
        paths: Seq<Seq<char>>,
        stem: Seq<char>,
        i: int,
    ) -> Option<Seq<char>>
        decreases paths.len() - i,
    {
        if i >= paths.len() {
            None
        } else if crate::fspath::file_stem(paths[i]) == Some(stem) && self.holds(paths[i]) {
            Some(paths[i])
        } else {
            self.found_from(paths, stem, i + 1)
        }
    }

    /// The entry that was kept of an archive.
    pub open spec fn kept(
        self,
        data_dir: Seq<char>,
        collection: Seq<char>,
        index: nat,
        files: Seq<Seq<char>>,
    ) -> Option<Seq<char>> {
        match self {
            MediaKind::Video => {
                let path = entry_place(self, data_dir, collection, index, "mp4"@);
                if files.contains(path) {
                    Some(path)
                } else {
                    None
                }
            },
            MediaKind::Music => self.found_from(files, collection + "_"@ + text::decimal(index), 0),
        }
    }

    /// The entry that was kept of an archive. `files` lists the files of the cache.
    /// A track keeps its own extension, so it is found by the rest of its name.
    pub fn cached(self, data_dir: &str, collection: &str, file_index: usize, files: &Vec<String>) -> (r:
        Option<String>)
        ensures
            text::opt(r) == self.kept(data_dir@, collection@, file_index as nat, text::texts(files@)),
    {
        if let MediaKind::Video = self {
            let path = self.entry(data_dir, collection, file_index, "mp4");
            if is_one_of(files, path.as_str()) {
                return Some(path);
            }
            return None;
        }
        let number = decimal_of(file_index as u64);
        let stem = cat3(collection, "_", number.as_str());
        let ghost all = text::texts(files@);
        let mut i: usize = 0;
        while i < files.len()
            invariant
                i <= files@.len(),
                all == text::texts(files@),
                self == MediaKind::Music,
                stem@ == collection@ + "_"@ + text::decimal(file_index as nat),
                self.found_from(all, stem@, i as int) == self.found_from(all, stem@, 0),
            decreases files@.len() - i,
        {
            let path = files[i].as_str();
            assert(all[i as int] == path@);
            let named = match file_stem_of(path) {
                Some(s) => same(s.as_str(), stem.as_str()),
                None => false,
            };
            if named && self.is_payload(path) {
                return Some(copy(path));
            }
            i += 1;
        }
        None
    }
}

// ── Pruning ──────────────────────────────────────────────────────────────────

/// A file of a cache, with its path.
pub struct CachedFile {
    pub path: String,
    pub len: u64,
    pub modified: i128,
}

/// A cache that is being pruned: what can go, and where it stands among the files.
pub struct MediaPruner {
    /// The places of the entries among the files of the cache.
    pub places: Vec<usize>,
    pub pruner: Pruner,
}

/// Places of the entries among the first `n` files.
pub open spec fn payload_places(kind: MediaKind, files: Seq<CachedFile>, n: int) -> Seq<usize>
    decreases n,
{
    if n <= 0 {
        Seq::<usize>::empty()
    } else if kind.holds(files[n - 1].path@) {
        payload_places(kind, files, n - 1).push((n - 1) as usize)
    } else {
        payload_places(kind, files, n - 1)
    }
}

/// The files at these places.
pub open spec fn files_at(files: Seq<CachedFile>, places: Seq<usize>) -> Seq<CacheFile> {
    Seq::new(
        places.len(),
        |i: int|
            CacheFile {
                len: files[places[i] as int].len,
                modified: files[places[i] as int].modified,
            },
    )
}

/// Looks at a cache of media. Only the entries can go: a mark takes nothing, and
/// saves a download.
pub fn prune_media_cache(kind: MediaKind, files: &Vec<CachedFile>, max_bytes: u64) -> (r: MediaPruner)
    ensures
        r.places@ == payload_places(kind, files@, files@.len() as int),
        r.pruner.wf(),
        r.pruner.files@ == files_at(files@, r.places@),
        r.pruner.freed == 0,
        r.pruner.target == crate::cache::target_of(max_bytes),
        r.pruner.total <= max_bytes ==> r.pruner.next == r.pruner.order@.len(),
        r.pruner.total > max_bytes ==> r.pruner.next == 0,
{
    let mut places: Vec<usize> = Vec::new();
    let mut kept: Vec<CacheFile> = Vec::new();
    let mut i: usize = 0;
    assert(kept@ =~= files_at(files@, places@));
    while i < files.len()
        invariant
            i <= files@.len(),
            places@ == payload_places(kind, files@, i as int),
            kept@ == files_at(files@, places@),
        decreases files@.len() - i,
    {
        if kind.is_payload(files[i].path.as_str()) {
            places.push(i);
            kept.push(CacheFile { len: files[i].len, modified: files[i].modified });
            assert(kept@ =~= files_at(files@, places@));
        }
        i += 1;
    }
    let pruner = Pruner::begin(kept, max_bytes);
    MediaPruner { places, pruner }
}

/// Looks at the cache of videos.
pub fn prune_video_cache(files: &Vec<CachedFile>) -> (r: MediaPruner)
    ensures
        r.places@ == payload_places(MediaKind::Video, files@, files@.len() as int),
        r.pruner.wf(),
        r.pruner.files@ == files_at(files@, r.places@),
        r.pruner.freed == 0,
        r.pruner.target == crate::cache::target_of(VIDEO_CACHE_MAX_BYTES),
        r.pruner.total <= VIDEO_CACHE_MAX_BYTES ==> r.pruner.next == r.pruner.order@.len(),
        r.pruner.total > VIDEO_CACHE_MAX_BYTES ==> r.pruner.next == 0,
        r.pruner.total <= 1024 * 1024 * 1024 ==> r.pruner.next == r.pruner.order@.len(),
        r.pruner.total > 1024 * 1024 * 1024 ==> r.pruner.next == 0,
{
    prune_media_cache(MediaKind::Video, files, VIDEO_CACHE_MAX_BYTES)
}

/// Looks at the cache of tracks.
pub fn prune_music_cache(files: &Vec<CachedFile>) -> (r: MediaPruner)
    ensures
        r.places@ == payload_places(MediaKind::Music, files@, files@.len() as int),
        r.pruner.wf(),
        r.pruner.files@ == files_at(files@, r.places@),
        r.pruner.freed == 0,
        r.pruner.target == crate::cache::target_of(MUSIC_CACHE_MAX_BYTES),
        r.pruner.total <= MUSIC_CACHE_MAX_BYTES ==> r.pruner.next == r.pruner.order@.len(),
        r.pruner.total > MUSIC_CACHE_MAX_BYTES ==> r.pruner.next == 0,
        r.pruner.total <= 1024 * 1024 * 1024 ==> r.pruner.next == r.pruner.order@.len(),
        r.pruner.total > 1024 * 1024 * 1024 ==> r.pruner.next == 0,
{
    prune_media_cache(MediaKind::Music, files, MUSIC_CACHE_MAX_BYTES)
}

// ── Which archive ────────────────────────────────────────────────────────────

/// A row has the extras of a shortcode in a collection.
pub open spec fn has_extras(row: Game, shortcode: Seq<char>, base: Seq<char>) -> bool {
    &&& text::opt(row.shortcode) == Some(shortcode)
    &&& row.gamedata_torrent_index is Some
    &&& crate::install::source_of(row) == base
}

/// The first row, `i` or later, with the extras; an English one where `english`.
pub open spec fn extras_from(
    rows: Seq<Game>,
    shortcode: Seq<char>,
    base: Seq<char>,
    english: bool,
    i: int,
) -> Option<int>
    decreases rows.len() - i,
{
    if i >= rows.len() {
        None
    } else if has_extras(rows[i], shortcode, base) && (!english || rows[i].language@ == "EN"@) {
        Some(i)
    } else {
        extras_from(rows, shortcode, base, english, i + 1)
    }
}

/// The row that lends a game its extras: an English row of the base collection, or
/// any other row of it.
pub open spec fn lender(rows: Seq<Game>, game: Game) -> Option<int> {
    match game.shortcode {
        Some(code) => {
            let base = crate::collections::base_of(crate::install::source_of(game));
            match extras_from(rows, code@, base, true, 0) {
                Some(i) => Some(i),
                None => extras_from(rows, code@, base, false, 0),
            }
        },
        None => None,
    }
}

/// The archive of a game's extras, and the collection that it belongs to.
pub open spec fn extras_of(rows: Seq<Game>, game: Game) -> (Option<i64>, Seq<char>) {
    match game.gamedata_torrent_index {
        Some(i) => (Some(i), crate::install::source_of(game)),
        None => match lender(rows, game) {
            Some(k) => (rows[k].gamedata_torrent_index, crate::install::source_of(rows[k])),
            None => (None, "eXoDOS"@),
        },
    }
}

fn find_extras(rows: &Vec<Game>, shortcode: &str, base: &str, english: bool) -> (r: Option<usize>)
    ensures
        match r {
            Some(i) => i < rows@.len() && extras_from(rows@, shortcode@, base@, english, 0) == Some(
                i as int,
            ),
            None => extras_from(rows@, shortcode@, base@, english, 0) is None,
        },
{
    let mut i: usize = 0;
    while i < rows.len()
        invariant
            i <= rows@.len(),
            extras_from(rows@, shortcode@, base@, english, i as int) == extras_from(
                rows@,
                shortcode@,
                base@,
                english,
                0,
            ),
        decreases rows@.len() - i,
    {
        let row = &rows[i];
        let coded = match &row.shortcode {
            Some(s) => same(s.as_str(), shortcode),
            None => false,
        };
        let source = source_text(row);
        let fits = coded && row.gamedata_torrent_index.is_some() && same(source.as_str(), base);
        if fits && (!english || same(row.language.as_str(), "EN")) {
            return Some(i);
        }
        i += 1;
    }
    None
}

/// The archive of a game's extras, by its index, and the collection that it belongs
/// to. Only English archives hold extras: another row borrows those of its game
/// within its family of collections, and never those of a game that merely has the
/// same code.
pub fn resolve_gamedata(rows: &Vec<Game>, game: &Game) -> (r: (Option<i64>, String))
    ensures
        (r.0, r.1@) == extras_of(rows@, *game),
{
    if let Some(i) = game.gamedata_torrent_index {
        return (Some(i), source_text(game));
    }
    let source = source_text(game);
    let base = collection_base_id(source.as_str());
    if let Some(code) = &game.shortcode {
        let found = match find_extras(rows, code.as_str(), base, true) {
            Some(i) => Some(i),
            None => find_extras(rows, code.as_str(), base, false),
        };
        if let Some(i) = found {
            return (rows[i].gamedata_torrent_index, source_text(&rows[i]));
        }
    }
    (None, copy("eXoDOS"))
}

// ── Status ───────────────────────────────────────────────────────────────────

/// What is known of a fetch.
pub struct VideoStatus {
    /// `probing`, `fetching`, `ready`, `none` or `error`.
    pub phase: String,
    /// How much has come.
    pub done_bytes: u64,
    pub total_bytes: u64,
    pub path: Option<String>,
    pub error: Option<String>,
}

/// The view of a status.
pub struct Status {
    pub phase: Seq<char>,
    pub done_bytes: u64,
    pub total_bytes: u64,
    pub path: Option<Seq<char>>,
    pub error: Option<Seq<char>>,
}

impl View for VideoStatus {
    type V = Status;

    open spec fn view(&self) -> Status {
        Status {
            phase: self.phase@,
            done_bytes: self.done_bytes,
            total_bytes: self.total_bytes,
            path: text::opt(self.path),
            error: text::opt(self.error),
        }
    }
}

/// A status with nothing but its phase.
pub open spec fn bare_status(phase: Seq<char>) -> Status {
    Status { phase, done_bytes: 0, total_bytes: 0, path: None, error: None }
}

impl VideoStatus {
    /// A status with nothing but its phase.
    pub fn phase(phase: &str) -> (r: VideoStatus)
        ensures
            r@ == bare_status(phase@),
    {
        VideoStatus { phase: copy(phase), done_bytes: 0, total_bytes: 0, path: None, error: None }
    }

    /// There is no session to ask. The phase is that of an archive that holds
    /// nothing, and the mark tells the two apart.
    pub fn offline() -> (r: VideoStatus)
        ensures
            r@ == (Status { error: Some(OFFLINE_TOKEN@), ..bare_status("none"@) }),
    {
        let mut status = VideoStatus::phase("none");
        status.error = Some(copy(OFFLINE_TOKEN));
        status
    }

    /// The entry is there.
    pub fn ready(path: &str) -> (r: VideoStatus)
        ensures
            r@ == (Status { path: Some(path@), ..bare_status("ready"@) }),
    {
        let mut status = VideoStatus::phase("ready");
        status.path = Some(copy(path));
        status
    }

    /// A copy.
    pub fn duplicate(&self) -> (r: VideoStatus)
        ensures
            r@ == self@,
    {
        VideoStatus {
            phase: copy(self.phase.as_str()),
            done_bytes: self.done_bytes,
            total_bytes: self.total_bytes,
            path: copy_opt(&self.path),
            error: copy_opt(&self.error),
        }
    }
}

/// What a fetch works on.
pub struct FetchTarget {
    pub gamedata_idx: usize,
    /// The archive, where it is on disk.
    pub local_archive: String,
    pub archive_len: u64,
    pub archive_path: String,
    /// The mark to write where the archive holds nothing.
    pub marker: String,
}

/// What becomes of a request for an entry.
pub enum MediaStart {
    /// The answer is known.
    Known(VideoStatus),
    /// Fetch the entry.
    Fetch(FetchTarget),
}

/// What is known of a request before anything is fetched.
pub struct MediaFacts {
    /// The archive was asked before and holds nothing.
    pub marked: bool,
    /// The entry that was kept.
    pub cached: Option<String>,
    /// A fetch for the game, if there is one.
    pub job: Option<VideoStatus>,
    /// The torrent, if it is in the session.
    pub index: Option<TorrentIndex>,
}

/// A fetch that is going on.
pub open spec fn is_going_on(job: Option<VideoStatus>) -> bool {
    match job {
        Some(status) => status.phase@ == "probing"@ || status.phase@ == "fetching"@,
        None => false,
    }
}

/// What is answered without a fetch.
pub open spec fn known_answer(gamedata: Option<i64>, facts: MediaFacts) -> Option<Status> {
    if gamedata is None || facts.marked {
        Some(bare_status("none"@))
    } else if facts.cached is Some {
        Some(
            Status {
                path: Some(text::swap_char(text::opt(facts.cached)->0, '\\', '/')),
                ..bare_status("ready"@)
            },
        )
    } else if is_going_on(facts.job) {
        Some(facts.job->0@)
    } else if facts.index is None {
        Some(Status { error: Some(OFFLINE_TOKEN@), ..bare_status("none"@) })
    } else {
        None
    }
}

/// What becomes of a request for a game's video or track: the answer that is known
/// already, or a fetch. `gamedata` is the archive's index and its collection.
pub fn start_media(
    kind: MediaKind,
    gamedata: (Option<i64>, &str),
    data_dir: &str,
    root: &str,
    facts: &MediaFacts,
) -> (r: Result<MediaStart, String>)
    ensures
        match r {
            Ok(MediaStart::Known(status)) => known_answer(gamedata.0, *facts) == Some(status@),
            Ok(MediaStart::Fetch(target)) => {
                let files = facts.index->0.files@;
                let i = (gamedata.0->0 as usize) as int;
                &&& known_answer(gamedata.0, *facts) is None
                &&& i < files.len()
                &&& target.gamedata_idx == i
                &&& target.archive_len == files[i].size
                &&& target.archive_path@ == files[i].path@
                &&& target.local_archive@ == crate::fspath::joined(root@, files[i].path@)
                &&& target.marker@ == entry_place(
                    kind,
                    data_dir@,
                    gamedata.1@,
                    i as nat,
                    kind.marker_ext(),
                )
            },
            Err(message) => {
                &&& known_answer(gamedata.0, *facts) is None
                &&& gamedata.0->0 as usize >= facts.index->0.files@.len()
                &&& message@ == "GameData index "@ + text::decimal(
                    (gamedata.0->0 as usize) as nat,
                ) + " out of range"@
            },
        },
{
    let at: usize = match gamedata.0 {
        Some(i) => i as usize,
        None => {
            return Ok(MediaStart::Known(VideoStatus::phase("none")));
        },
    };
    if facts.marked {
        return Ok(MediaStart::Known(VideoStatus::phase("none")));
    }
    if let Some(path) = &facts.cached {
        let shown = path_to_fwd_slash(path.as_str());
        return Ok(MediaStart::Known(VideoStatus::ready(shown.as_str())));
    }
    if let Some(job) = &facts.job {
        if same(job.phase.as_str(), "probing") || same(job.phase.as_str(), "fetching") {
            return Ok(MediaStart::Known(job.duplicate()));
        }
    }
    match &facts.index {
        None => Ok(MediaStart::Known(VideoStatus::offline())),
        Some(index) => if at >= index.files.len() {
            Err(cat3("GameData index ", decimal_of(at as u64).as_str(), " out of range"))
        } else {
            let file = &index.files[at];
            Ok(
                MediaStart::Fetch(
                    FetchTarget {
                        gamedata_idx: at,
                        local_archive: join_path(root, file.path.as_str()),
                        archive_len: file.size,
                        archive_path: copy(file.path.as_str()),
                        marker: kind.marker(data_dir, gamedata.1, at),
                    },
                ),
            )
        },
    }
}

/// How a fetch ended.
pub enum FetchResult {
    /// The entry is kept at a path.
    Found(String),
    /// The archive holds nothing of the kind.
    Nothing,
    Failed(String),
}

/// What is left of a fetch once it has ended.
pub struct Settled {
    /// The status. A fetch that was broken off leaves none.
    pub status: Option<VideoStatus>,
    /// Whether to remember that the archive holds nothing.
    pub mark: bool,
}

/// What is left of a fetch once it has ended. Only a read that came through and
/// found nothing is remembered; a failure says nothing of the archive.
pub fn settle_media(status: &VideoStatus, result: &FetchResult) -> (r: Settled)
    ensures
        r.mark == (result is Nothing),
        match result {
            FetchResult::Found(path) => r.status is Some && r.status->0@ == (Status {
                phase: "ready"@,
                path: Some(path@),
                done_bytes: status.total_bytes,
                ..status@
            }),
            FetchResult::Nothing => r.status is Some && r.status->0@ == (Status {
                phase: "none"@,
                ..status@
            }),
            FetchResult::Failed(e) => if e@ == "cancelled"@ {
                r.status is None
            } else {
                r.status is Some && r.status->0@ == (Status {
                    phase: "error"@,
                    error: Some(e@),
                    ..status@
                })
            },
        },
{
    let mut left = status.duplicate();
    match result {
        FetchResult::Found(path) => {
            left.phase = copy("ready");
            left.path = Some(copy(path.as_str()));
            left.done_bytes = left.total_bytes;
            Settled { status: Some(left), mark: false }
        },
        FetchResult::Nothing => {
            left.phase = copy("none");
            Settled { status: Some(left), mark: true }
        },
        FetchResult::Failed(e) => if same(e.as_str(), "cancelled") {
            Settled { status: None, mark: false }
        } else {
            left.phase = copy("error");
            left.error = Some(copy(e.as_str()));
            Settled { status: Some(left), mark: false }
        },
    }
}

/// What a failed read is reported as: that it was broken off where its words say so,
/// and its own words otherwise.
pub open spec fn read_text(error: Seq<char>) -> Seq<char> {
    if text::has(error, "cancelled"@) {
        "cancelled"@
    } else {
        error
    }
}

/// What a failed read is reported as.
pub fn read_failure(error: &str) -> (r: String)
    ensures
        r@ == read_text(error@),
{
    if has_str(chars_of(error).as_slice(), "cancelled") {
        copy("cancelled")
    } else {
        copy(error)
    }
}

/// What a read that took too long is reported as.
pub open spec fn timeout_text(kind: MediaKind) -> Seq<char> {
    "timed out fetching the "@ + (match kind {
        MediaKind::Video => "video"@,
        MediaKind::Music => "music"@,
    })
}

/// What a read that took too long is reported as.
pub fn timeout_failure(kind: MediaKind) -> (r: String)
    ensures
        r@ == timeout_text(kind),
{
    cat("timed out fetching the ", kind.label())
}

/// How far a fetch has come that the session reports on: it is counted from the first
/// report, since an archive may have pieces from before.
pub struct FetchTicker {
    pub baseline: Option<u64>,
}

/// How much of a fetch has come since the first report, short of the whole until it is
/// done.
pub open spec fn come_since(baseline: u64, downloaded: u64, total: u64) -> int {
    let got = if downloaded > baseline {
        downloaded - baseline
    } else {
        0
    };
    let most = total * 99 / 100;
    if got < most {
        got
    } else {
        most
    }
}

impl FetchTicker {
    /// Nothing was reported yet.
    pub fn new() -> (r: FetchTicker)
        ensures
            r.baseline is None,
    {
        FetchTicker { baseline: None }
    }

    /// What is counted from, once `downloaded` is reported.
    pub open spec fn base(&self, downloaded: u64) -> u64 {
        match self.baseline {
            Some(n) => n,
            None => downloaded,
        }
    }

    /// Takes in a report of the session. What a fetch shows never falls, and a fetch
    /// that is not going on, or whose size is not known, shows nothing new.
    pub fn tick(&mut self, status: &mut VideoStatus, downloaded: u64)
        ensures
            final(self).baseline == Some(old(self).base(downloaded)),
            final(status).done_bytes >= old(status).done_bytes,
            final(status)@ == (if old(status).phase@ == "fetching"@ && old(status).total_bytes > 0 {
                let come = come_since(
                    old(self).base(downloaded),
                    downloaded,
                    old(status).total_bytes,
                );
                Status {
                    done_bytes: if come > old(status).done_bytes {
                        come as u64
                    } else {
                        old(status).done_bytes
                    },
                    ..old(status)@
                }
            } else {
                old(status)@
            }),
    {
        let base: u64 = match self.baseline {
            Some(n) => n,
            None => downloaded,
        };
        self.baseline = Some(base);
        if !same(status.phase.as_str(), "fetching") || status.total_bytes == 0 {
            return;
        }
        let got: u64 = if downloaded > base {
            downloaded - base
        } else {
            0
        };
        let most: u64 = (status.total_bytes as u128 * 99 / 100) as u64;
        let come: u64 = if got < most {
            got
        } else {
            most
        };
        if come > status.done_bytes {
            status.done_bytes = come;
        }
    }
}

// ── Fetches ──────────────────────────────────────────────────────────────────

/// Why a read that has a deadline brought nothing.
pub enum ReadFault {
    TimedOut,
    Failed(String),
}

/// What is said of an archive's directory that could not be read.
pub open spec fn directory_fault_text(fault: ReadFault) -> Seq<char> {
    match fault {
        ReadFault::TimedOut => "timed out reading the archive index"@,
        ReadFault::Failed(e) => e@,
    }
}

/// What is said of an archive's directory that could not be read.
pub fn directory_fault(fault: &ReadFault) -> (r: String)
    ensures
        r@ == directory_fault_text(*fault),
{
    match fault {
        ReadFault::TimedOut => copy("timed out reading the archive index"),
        ReadFault::Failed(e) => copy(e.as_str()),
    }
}

/// What is said of an entry that could not be read.
pub open spec fn entry_fault_text(kind: MediaKind, fault: ReadFault) -> Seq<char> {
    match fault {
        ReadFault::TimedOut => timeout_text(kind),
        ReadFault::Failed(e) => read_text(e@),
    }
}

/// A fetch of an entry: what it is for, and whether it reads the archive on disk or
/// the torrent.
pub struct MediaFetch {
    pub kind: MediaKind,
    pub data_dir: String,
    pub collection: String,
    pub gamedata_idx: usize,
    pub local: bool,
}

/// What has happened.
pub enum FetchEvent {
    /// The archive on disk was opened.
    LocalOpened,
    /// There is no archive on disk that opens.
    LocalAbsent,
    StreamOpened,
    StreamFailed { failure: String },
    /// The directory was read. The size is that of the entry, where there is one.
    DirectoryRead { entry: Option<u64> },
    DirectoryFault { fault: ReadFault },
    EntryRead { name: String },
    EntryFault { fault: ReadFault },
    Stored { path: String },
    StoreFailed { failure: String },
}

/// What to do next.
pub enum FetchAction {
    OpenStream,
    ReadDirectory,
    /// The entry is there: say so, and read it.
    ReadEntry { total_bytes: u64 },
    /// Write the entry to a path.
    Store { path: String },
    End(FetchResult),
}

/// A fetch has come to an end with this failure.
pub open spec fn ends_with(action: FetchAction, failure: Seq<char>) -> bool {
    action matches FetchAction::End(FetchResult::Failed(e)) && e@ == failure
}

/// What a failed read leads to: where the archive on disk failed the torrent is
/// read, unless the fetch was broken off.
pub open spec fn after_fault(local: bool, failure: Seq<char>, action: FetchAction) -> bool {
    if local && failure != "cancelled"@ {
        action is OpenStream
    } else {
        ends_with(action, failure)
    }
}

impl MediaFetch {
    /// Where the fetch writes an entry.
    pub open spec fn place(&self, name: Seq<char>) -> Seq<char> {
        entry_place(
            self.kind,
            self.data_dir@,
            self.collection@,
            self.gamedata_idx as nat,
            self.kind.kept_ext(name),
        )
    }

    /// What follows on an event.
    pub open spec fn follows(&self, event: FetchEvent, cancelled: bool, action: FetchAction) -> bool {
        match event {
            FetchEvent::LocalAbsent => action is OpenStream,
            FetchEvent::LocalOpened | FetchEvent::StreamOpened => if cancelled {
                ends_with(action, "cancelled"@)
            } else {
                action is ReadDirectory
            },
            FetchEvent::StreamFailed { failure } => ends_with(
                action,
                "Could not open the archive stream: "@ + failure@,
            ),
            FetchEvent::DirectoryFault { fault } => after_fault(
                self.local,
                directory_fault_text(fault),
                action,
            ),
            FetchEvent::DirectoryRead { entry } => if cancelled {
                ends_with(action, "cancelled"@)
            } else {
                match entry {
                    Some(size) => action == (FetchAction::ReadEntry { total_bytes: size }),
                    None => action == FetchAction::End(FetchResult::Nothing),
                }
            },
            FetchEvent::EntryFault { fault } => after_fault(
                self.local,
                entry_fault_text(self.kind, fault),
                action,
            ),
            FetchEvent::EntryRead { name } => action matches FetchAction::Store { path } && path@
                == self.place(name@),
            FetchEvent::Stored { path } => action matches FetchAction::End(FetchResult::Found(p))
                && p@ == text::swap_char(path@, '\\', '/'),
            FetchEvent::StoreFailed { failure } => ends_with(action, failure@),
        }
    }

    /// The fetch reads the archive on disk after an event.
    pub open spec fn local_after(&self, event: FetchEvent) -> bool {
        match event {
            FetchEvent::LocalOpened => true,
            FetchEvent::StreamOpened => false,
            _ => self.local,
        }
    }

    /// Takes in what has happened and says what to do next. The archive on disk costs
    /// nothing and is read first.
    pub fn fetch_entry(&mut self, event: &FetchEvent, cancelled: bool) -> (r: FetchAction)
        ensures
            old(self).follows(*event, cancelled, r),
            *final(self) == (MediaFetch { local: old(self).local_after(*event), ..*old(self) }),
    {
        match event {
            FetchEvent::LocalAbsent => FetchAction::OpenStream,
            FetchEvent::LocalOpened => {
                self.local = true;
                opened(cancelled)
            },
            FetchEvent::StreamOpened => {
                self.local = false;
                opened(cancelled)
            },
            FetchEvent::StreamFailed { failure } => FetchAction::End(
                FetchResult::Failed(cat("Could not open the archive stream: ", failure.as_str())),
            ),
            FetchEvent::DirectoryFault { fault } => failed(self.local, directory_fault(fault)),
            FetchEvent::DirectoryRead { entry } => if cancelled {
                FetchAction::End(FetchResult::Failed(copy("cancelled")))
            } else {
                match entry {
                    Some(size) => FetchAction::ReadEntry { total_bytes: *size },
                    None => FetchAction::End(FetchResult::Nothing),
                }
            },
            FetchEvent::EntryFault { fault } => {
                let failure = match fault {
                    ReadFault::TimedOut => timeout_failure(self.kind),
                    ReadFault::Failed(e) => read_failure(e.as_str()),
                };
                failed(self.local, failure)
            },
            FetchEvent::EntryRead { name } => FetchAction::Store {
                path: self.kind.cache_file(
                    self.data_dir.as_str(),
                    self.collection.as_str(),
                    self.gamedata_idx,
                    name.as_str(),
                ),
            },
            FetchEvent::Stored { path } => FetchAction::End(
                FetchResult::Found(path_to_fwd_slash(path.as_str())),
            ),
            FetchEvent::StoreFailed { failure } => FetchAction::End(
                FetchResult::Failed(copy(failure.as_str())),
            ),
        }
    }
}

fn opened(cancelled: bool) -> (r: FetchAction)
    ensures
        if cancelled {
            ends_with(r, "cancelled"@)
        } else {
            r is ReadDirectory
        },
{
    if cancelled {
        FetchAction::End(FetchResult::Failed(copy("cancelled")))
    } else {
        FetchAction::ReadDirectory
    }
}

fn failed(local: bool, failure: String) -> (r: FetchAction)
    ensures
        after_fault(local, failure@, r),
{
    if local && !same(failure.as_str(), "cancelled") {
        FetchAction::OpenStream
    } else {
        FetchAction::End(FetchResult::Failed(failure))
    }
}

// ── Music ────────────────────────────────────────────────────────────────────

/// A game whose archive is said to hold a track.
pub struct MusicCandidate {
    pub id: i64,
    pub title: String,
    pub torrent_source: Option<String>,
    pub thumbnail_key: Option<String>,
    pub music_file: String,
}

/// How many games are asked for: at least one, and no more than a hundred.
pub open spec fn shuffle_size(count: u32) -> int {
    if count < 1 {
        1
    } else if count > 100 {
        100
    } else {
        count as int
    }
}

/// How many games are drawn: twice as many as are asked for, as some drop out.
pub fn shuffle_draw(count: u32) -> (r: usize)
    ensures
        r == 2 * shuffle_size(count),
{
    2 * shuffle_count(count)
}

fn shuffle_count(count: u32) -> (r: usize)
    ensures
        r == shuffle_size(count),
{
    if count < 1 {
        1
    } else if count > 100 {
        100
    } else {
        count as usize
    }
}

/// The places of the first `n` games whose archive was not found empty, up to a
/// number of them.
pub open spec fn picked_places(empty: Seq<bool>, size: int, n: int) -> Seq<usize>
    decreases n,
{
    if n <= 0 {
        Seq::<usize>::empty()
    } else {
        let before = picked_places(empty, size, n - 1);
        if !empty[n - 1] && before.len() < size {
            before.push((n - 1) as usize)
        } else {
            before
        }
    }
}

/// Which of the games that were drawn are played, by place. `empty` says for each
/// whether its archive is marked as holding no track.
pub fn music_shuffle_candidates(count: u32, empty: &Vec<bool>) -> (r: Vec<usize>)
    ensures
        r@ == picked_places(empty@, shuffle_size(count), empty@.len() as int),
{
    let size: usize = shuffle_count(count);
    let mut out: Vec<usize> = Vec::new();
    let mut i: usize = 0;
    while i < empty.len()
        invariant
            i <= empty@.len(),
            size == shuffle_size(count),
            out@ == picked_places(empty@, size as int, i as int),
        decreases empty@.len() - i,
    {
        if !empty[i] && out.len() < size {
            out.push(i);
        }
        i += 1;
    }
    out
}

/// What a file of the cache answers for: a collection, and an archive of it.
pub struct CacheKey {
    pub collection: String,
    pub index: i64,
}

/// The views of keys.
pub open spec fn keys_of(v: Seq<CacheKey>) -> Seq<(Seq<char>, i64)> {
    Seq::new(v.len(), |i: int| (v[i].collection@, v[i].index))
}

/// What the name of a file says: the number behind the last underscore, and what
/// stands before it.
pub open spec fn key_of_path(path: Seq<char>) -> Option<(Seq<char>, i64)> {
    match crate::fspath::file_stem(path) {
        Some(stem) => match text::rsplit_once(stem, '_') {
            Some((collection, digits)) => match text::number(digits) {
                Some(i) => Some((collection, i)),
                None => None,
            },
            None => None,
        },
        None => None,
    }
}

/// What the tracks among the first `n` files answer for; or, where `marks`, what the
/// marks among them do.
pub open spec fn keys_among(paths: Seq<Seq<char>>, marks: bool, n: int) -> Seq<(Seq<char>, i64)>
    decreases n,
{
    if n <= 0 {
        Seq::<(Seq<char>, i64)>::empty()
    } else {
        let path = paths[n - 1];
        let before = keys_among(paths, marks, n - 1);
        let is_mark = crate::fspath::extension(path) == Some("nomusic"@);
        if key_of_path(path) is Some && (if marks {
            is_mark
        } else {
            !is_mark && MediaKind::Music.holds(path)
        }) {
            before.push(key_of_path(path)->0)
        } else {
            before
        }
    }
}

fn parse_key(path: &str) -> (r: Option<CacheKey>)
    ensures
        match r {
            Some(k) => key_of_path(path@) == Some((k.collection@, k.index)),
            None => key_of_path(path@) is None,
        },
{
    match file_stem_of(path) {
        Some(stem) => {
            let chars = chars_of(stem.as_str());
            match rcut_once(chars.as_slice(), '_') {
                Some((collection, digits)) => match number_of(digits) {
                    Some(index) => Some(CacheKey { collection: string_of(collection), index }),
                    None => None,
                },
                None => None,
            }
        },
        None => None,
    }
}

/// What a cache of tracks answers for: the tracks it holds, and the archives that it
/// knows to be empty. A half written file answers nothing.
pub fn scan_music_cache(paths: &Vec<String>) -> (r: (Vec<CacheKey>, Vec<CacheKey>))
    ensures
        keys_of(r.0@) == keys_among(text::texts(paths@), false, paths@.len() as int),
        keys_of(r.1@) == keys_among(text::texts(paths@), true, paths@.len() as int),
{
    let mut cached: Vec<CacheKey> = Vec::new();
    let mut none: Vec<CacheKey> = Vec::new();
    let mut i: usize = 0;
    let ghost all = text::texts(paths@);
    assert(keys_of(cached@) =~= keys_among(all, false, 0));
    assert(keys_of(none@) =~= keys_among(all, true, 0));
    while i < paths.len()
        invariant
            i <= paths@.len(),
            all == text::texts(paths@),
            keys_of(cached@) == keys_among(all, false, i as int),
            keys_of(none@) == keys_among(all, true, i as int),
        decreases paths@.len() - i,
    {
        let path = paths[i].as_str();
        assert(all[i as int] == path@);
        if let Some(key) = parse_key(path) {
            let ghost view = (key.collection@, key.index);
            let is_mark = match extension_of(path) {
                Some(ext) => same(ext.as_str(), "nomusic"),
                None => false,
            };
            if is_mark {
                let ghost done = keys_of(none@);
                none.push(key);
                assert(keys_of(none@) =~= done.push(view));
            } else if MediaKind::Music.is_payload(path) {
                let ghost done = keys_of(cached@);
                cached.push(key);
                assert(keys_of(cached@) =~= done.push(view));
            }
        }
        i += 1;
    }
    (cached, none)
}

/// A game that an archive belongs to.
pub struct MusicRow {
    pub id: i64,
    pub torrent_source: Option<String>,
    pub gamedata_torrent_index: i64,
}

/// What a row's archive is kept under.
pub open spec fn row_key(row: MusicRow) -> (Seq<char>, i64) {
    (
        match row.torrent_source {
            Some(s) => s@,
            None => "eXoDOS"@,
        },
        row.gamedata_torrent_index,
    )
}

/// The last of the first `n` rows with this key.
pub open spec fn row_for(rows: Seq<MusicRow>, key: (Seq<char>, i64), n: int) -> Option<i64>
    decreases n,
{
    if n <= 0 {
        None
    } else if row_key(rows[n - 1]) == key {
        Some(rows[n - 1].id)
    } else {
        row_for(rows, key, n - 1)
    }
}

/// The games of the first `n` keys.
pub open spec fn games_for(rows: Seq<MusicRow>, keys: Seq<(Seq<char>, i64)>, n: int) -> Seq<i64>
    decreases n,
{
    if n <= 0 {
        Seq::<i64>::empty()
    } else {
        match row_for(rows, keys[n - 1], rows.len() as int) {
            Some(id) => games_for(rows, keys, n - 1).push(id),
            None => games_for(rows, keys, n - 1),
        }
    }
}

/// Which games a cache answers for.
pub struct MusicCacheIndex {
    /// Games whose track is there.
    pub cached: Vec<i64>,
    /// Games whose archive was read and held no track.
    pub none: Vec<i64>,
}

fn find_row(rows: &Vec<MusicRow>, key: &CacheKey) -> (r: Option<i64>)
    ensures
        r == row_for(rows@, (key.collection@, key.index), rows@.len() as int),
{
    let ghost k = (key.collection@, key.index);
    let mut n: usize = rows.len();
    while n > 0
        invariant
            n <= rows@.len(),
            k == (key.collection@, key.index),
            row_for(rows@, k, n as int) == row_for(rows@, k, rows@.len() as int),
        decreases n,
    {
        let row = &rows[n - 1];
        let named = match &row.torrent_source {
            Some(s) => same(s.as_str(), key.collection.as_str()),
            None => same("eXoDOS", key.collection.as_str()),
        };
        if named && row.gamedata_torrent_index == key.index {
            return Some(row.id);
        }
        n = n - 1;
    }
    None
}

fn find_rows(rows: &Vec<MusicRow>, keys: &Vec<CacheKey>) -> (r: Vec<i64>)
    ensures
        r@ == games_for(rows@, keys_of(keys@), keys@.len() as int),
{
    let mut out: Vec<i64> = Vec::new();
    let mut i: usize = 0;
    while i < keys.len()
        invariant
            i <= keys@.len(),
            out@ == games_for(rows@, keys_of(keys@), i as int),
        decreases keys@.len() - i,
    {
        assert(keys_of(keys@)[i as int] == (keys@[i as int].collection@, keys@[i as int].index));
        if let Some(id) = find_row(rows, &keys[i]) {
            out.push(id);
        }
        i += 1;
    }
    out
}

/// Which games a cache of tracks answers for. `paths` lists the files of the cache.
pub fn music_cache_index(rows: &Vec<MusicRow>, paths: &Vec<String>) -> (r: MusicCacheIndex)
    ensures
        ({
            let held = keys_among(text::texts(paths@), false, paths@.len() as int);
            let empty = keys_among(text::texts(paths@), true, paths@.len() as int);
            &&& r.cached@ == games_for(rows@, held, held.len() as int)
            &&& r.none@ == games_for(rows@, empty, empty.len() as int)
        }),
{
    let (cached, none) = scan_music_cache(paths);
    assert(keys_of(cached@).len() == cached@.len());
    assert(keys_of(none@).len() == none@.len());
    MusicCacheIndex { cached: find_rows(rows, &cached), none: find_rows(rows, &none) }
}

// ── Playback ─────────────────────────────────────────────────────────────────

/// Which tracks can be played.
#[derive(Clone, Copy, PartialEq, Eq, Structural)]
pub struct MusicSupport {
    pub mp3: bool,
    pub ogg: bool,
}

/// What a search for a GStreamer element found: for each name whether the inspector
/// knows it, or nothing where the inspector did not run.
pub open spec fn some_known(asked: Seq<Option<bool>>, n: int) -> bool {
    exists|i: int| 0 <= i < n && #[trigger] asked[i] == Some(true)
}

/// The inspector ran at least once.
pub open spec fn some_asked(asked: Seq<Option<bool>>, n: int) -> bool {
    exists|i: int| 0 <= i < n && #[trigger] asked[i] is Some
}

/// Whether GStreamer has one of some elements. Where the inspector is not there, the
/// plugin's file decides; where it is and knows none, none is there.
pub fn gst_has_any(asked: &Vec<Option<bool>>, plugin_there: bool) -> (r: bool)
    ensures
        r == (some_known(asked@, asked@.len() as int) || (!some_asked(
            asked@,
            asked@.len() as int,
        ) && plugin_there)),
{
    let mut ran = false;
    let mut i: usize = 0;
    while i < asked.len()
        invariant
            i <= asked@.len(),
            !some_known(asked@, i as int),
            ran == some_asked(asked@, i as int),
        decreases asked@.len() - i,
    {
        if let Some(known) = asked[i] {
            assert(asked@[i as int] is Some);
            if known {
                assert(asked@[i as int] == Some(true));
                return true;
            }
            ran = true;
        }
        i += 1;
    }
    !ran && plugin_there
}

/// Whether videos can be played with these plugins: a sound output, without which
/// the player hangs, and a decoder, without which the picture stays black.
fn bundled_video_support(plugins: &Vec<String>) -> (r: bool)
    ensures
        ({
            let p = text::texts(plugins@);
            r == (p.contains("libgstautodetect.so"@) && (p.contains("libgstlibav.so"@)
                || p.contains("libgstopenh264.so"@)))
        }),
{
    is_one_of(plugins, "libgstautodetect.so") && (is_one_of(plugins, "libgstlibav.so") || is_one_of(
        plugins,
        "libgstopenh264.so",
    ))
}

/// Which tracks can be played with these plugins. A decoder needs its parser, and
/// all need a sound output.
fn bundled_music_support(plugins: &Vec<String>) -> (r: MusicSupport)
    ensures
        ({
            let p = text::texts(plugins@);
            let audio = p.contains("libgstautodetect.so"@);
            &&& r.mp3 == (audio && (p.contains("libgstmpg123.so"@) || p.contains(
                "libgstlibav.so"@,
            )) && p.contains("libgstaudioparsers.so"@))
            &&& r.ogg == (audio && p.contains("libgstogg.so"@) && p.contains("libgstvorbis.so"@))
        }),
{
    let audio = is_one_of(plugins, "libgstautodetect.so");
    let decoder = is_one_of(plugins, "libgstmpg123.so") || is_one_of(plugins, "libgstlibav.so");
    let mp3 = decoder && is_one_of(plugins, "libgstaudioparsers.so");
    let ogg = is_one_of(plugins, "libgstogg.so") && is_one_of(plugins, "libgstvorbis.so");
    MusicSupport { mp3: audio && mp3, ogg: audio && ogg }
}

/// What playing media takes.
#[derive(Clone, Copy, PartialEq, Eq, Structural)]
pub enum GstNeed {
    AudioSink,
    H264Decoder,
    Mp3Decoder,
    Mp3Parser,
    OggDemuxer,
    VorbisDecoder,
}

/// The elements any one of which meets a need.
pub open spec fn elements_for(need: GstNeed) -> Seq<Seq<char>> {
    match need {
        GstNeed::AudioSink => seq!["autoaudiosink"@],
        GstNeed::H264Decoder => seq!["avdec_h264"@, "openh264dec"@, "vah264dec"@, "nvh264dec"@],
        GstNeed::Mp3Decoder => seq!["mpg123audiodec"@, "avdec_mp3"@],
        GstNeed::Mp3Parser => seq!["mpegaudioparse"@],
        GstNeed::OggDemuxer => seq!["oggdemux"@],
        GstNeed::VorbisDecoder => seq!["vorbisdec"@],
    }
}

/// The files of plugins any one of which meets a need.
pub open spec fn plugin_files_for(need: GstNeed) -> Seq<Seq<char>> {
    match need {
        GstNeed::AudioSink => seq!["libgstautodetect.so"@],
        GstNeed::H264Decoder => seq!["libgstlibav.so"@, "libgstopenh264.so"@],
        GstNeed::Mp3Decoder => seq!["libgstmpg123.so"@, "libgstlibav.so"@],
        GstNeed::Mp3Parser => seq!["libgstaudioparsers.so"@],
        GstNeed::OggDemuxer => seq!["libgstogg.so"@],
        GstNeed::VorbisDecoder => seq!["libgstvorbis.so"@],
    }
}

/// The elements any one of which meets a need.
pub fn gst_elements(need: GstNeed) -> (r: Vec<&'static str>)
    ensures
        text::strs(r@) == elements_for(need),
{
    let list = match need {
        GstNeed::AudioSink => vec!["autoaudiosink"],
        GstNeed::H264Decoder => vec!["avdec_h264", "openh264dec", "vah264dec", "nvh264dec"],
        GstNeed::Mp3Decoder => vec!["mpg123audiodec", "avdec_mp3"],
        GstNeed::Mp3Parser => vec!["mpegaudioparse"],
        GstNeed::OggDemuxer => vec!["oggdemux"],
        GstNeed::VorbisDecoder => vec!["vorbisdec"],
    };
    assert(text::strs(list@) =~= elements_for(need));
    list
}

/// The files of plugins any one of which meets a need.
pub fn gst_plugin_files(need: GstNeed) -> (r: Vec<&'static str>)
    ensures
        text::strs(r@) == plugin_files_for(need),
{
    let list = match need {
        GstNeed::AudioSink => vec!["libgstautodetect.so"],
        GstNeed::H264Decoder => vec!["libgstlibav.so", "libgstopenh264.so"],
        GstNeed::Mp3Decoder => vec!["libgstmpg123.so", "libgstlibav.so"],
        GstNeed::Mp3Parser => vec!["libgstaudioparsers.so"],
        GstNeed::OggDemuxer => vec!["libgstogg.so"],
        GstNeed::VorbisDecoder => vec!["libgstvorbis.so"],
    };
    assert(text::strs(list@) =~= plugin_files_for(need));
    list
}

/// The directories in which a system keeps its plugins.
pub fn gst_plugin_dirs() -> (r: Vec<&'static str>)
    ensures
        text::strs(r@) == seq![
            "/usr/lib/x86_64-linux-gnu/gstreamer-1.0"@,
            "/usr/lib/aarch64-linux-gnu/gstreamer-1.0"@,
            "/usr/lib64/gstreamer-1.0"@,
            "/usr/lib/gstreamer-1.0"@,
        ],
{
    let list = vec![
        "/usr/lib/x86_64-linux-gnu/gstreamer-1.0",
        "/usr/lib/aarch64-linux-gnu/gstreamer-1.0",
        "/usr/lib64/gstreamer-1.0",
        "/usr/lib/gstreamer-1.0",
    ];
    assert(text::strs(list@) =~= seq![
        "/usr/lib/x86_64-linux-gnu/gstreamer-1.0"@,
        "/usr/lib/aarch64-linux-gnu/gstreamer-1.0"@,
        "/usr/lib64/gstreamer-1.0"@,
        "/usr/lib/gstreamer-1.0"@,
    ]);
    list
}

/// What is known of the system's GStreamer.
pub struct HostGst {
    /// The elements that the inspector was asked for, as far as it ran.
    pub asked: Vec<String>,
    /// Those of them that it knows.
    pub known: Vec<String>,
    /// The names of the files in the directories of plugins.
    pub files: Vec<String>,
}

/// Some text of the first `n` is in the list.
pub open spec fn any_of(wanted: Seq<Seq<char>>, list: Seq<Seq<char>>, n: int) -> bool {
    exists|i: int| 0 <= i < n && list.contains(#[trigger] wanted[i])
}

/// The system's GStreamer meets a need. Where the inspector did not run, the files of
/// the plugins decide.
pub open spec fn host_meets(gst: HostGst, need: GstNeed) -> bool {
    let elements = elements_for(need);
    let files = plugin_files_for(need);
    let n = elements.len() as int;
    if any_of(elements, text::texts(gst.asked@), n) {
        exists|i: int|
            0 <= i < n && text::texts(gst.asked@).contains(#[trigger] elements[i]) && text::texts(
                gst.known@,
            ).contains(elements[i])
    } else {
        any_of(files, text::texts(gst.files@), files.len() as int)
    }
}

fn has_any_of(wanted: &Vec<&'static str>, list: &Vec<String>) -> (r: bool)
    ensures
        r == any_of(text::strs(wanted@), text::texts(list@), wanted@.len() as int),
{
    let ghost names = text::strs(wanted@);
    let mut i: usize = 0;
    while i < wanted.len()
        invariant
            i <= wanted@.len(),
            names == text::strs(wanted@),
            !any_of(names, text::texts(list@), i as int),
        decreases wanted@.len() - i,
    {
        assert(names[i as int] == wanted@[i as int]@);
        if is_one_of(list, wanted[i]) {
            return true;
        }
        i += 1;
    }
    false
}

/// Whether the system's GStreamer meets a need.
pub fn host_has(gst: &HostGst, need: GstNeed) -> (r: bool)
    ensures
        r == host_meets(*gst, need),
{
    let elements = gst_elements(need);
    let ghost names = elements_for(need);
    let ghost asked_all = text::texts(gst.asked@);
    let ghost known_all = text::texts(gst.known@);
    let mut asked: Vec<Option<bool>> = Vec::new();
    let mut i: usize = 0;
    while i < elements.len()
        invariant
            i <= elements@.len(),
            names == text::strs(elements@),
            asked_all == text::texts(gst.asked@),
            known_all == text::texts(gst.known@),
            asked@.len() == i,
            forall|k: int|
                0 <= k < i ==> (#[trigger] asked@[k]) == (if asked_all.contains(names[k]) {
                    Some(known_all.contains(names[k]))
                } else {
                    None
                }),
        decreases elements@.len() - i,
    {
        assert(names[i as int] == elements@[i as int]@);
        if is_one_of(&gst.asked, elements[i]) {
            asked.push(Some(is_one_of(&gst.known, elements[i])));
        } else {
            asked.push(None);
        }
        i += 1;
    }
    let there = has_any_of(&gst_plugin_files(need), &gst.files);
    proof {
        let n = names.len() as int;
        assert(some_asked(asked@, n) == any_of(names, asked_all, n)) by {
            if some_asked(asked@, n) {
                let w = choose|w: int| 0 <= w < n && #[trigger] asked@[w] is Some;
                assert(asked_all.contains(names[w]));
            }
            if any_of(names, asked_all, n) {
                let w = choose|w: int| 0 <= w < n && asked_all.contains(#[trigger] names[w]);
                assert(asked@[w] is Some);
            }
        }
        if some_known(asked@, n) {
            let w = choose|w: int| 0 <= w < n && #[trigger] asked@[w] == Some(true);
            assert(asked@[w] is Some);
            assert(asked_all.contains(names[w]) && known_all.contains(names[w]));
        } else {
            assert forall|k: int| 0 <= k < n && asked_all.contains(#[trigger] names[k]) implies
                !known_all.contains(names[k]) by {
                assert(asked@[k] != Some(true));
            }
        }
    }
    gst_has_any(&asked, there)
}

/// What plays media.
pub enum Player {
    /// GStreamer as it came with the program, with these plugins. Those of the system do
    /// not count then.
    Bundled(Vec<String>),
    /// The system's GStreamer.
    Host(HostGst),
    /// The system itself, which plays everything.
    Native,
}

/// Whether it is safe to play videos: there is a sound output, without which the player
/// hangs, and a decoder, without which the picture stays black.
pub fn video_playback_supported(player: &Player) -> (r: bool)
    ensures
        r == (match player {
            Player::Bundled(plugins) => {
                let p = text::texts(plugins@);
                p.contains("libgstautodetect.so"@) && (p.contains("libgstlibav.so"@) || p.contains(
                    "libgstopenh264.so"@,
                ))
            },
            Player::Host(gst) => host_meets(*gst, GstNeed::AudioSink) && host_meets(
                *gst,
                GstNeed::H264Decoder,
            ),
            Player::Native => true,
        }),
{
    match player {
        Player::Bundled(plugins) => bundled_video_support(plugins),
        Player::Host(gst) => host_has(gst, GstNeed::AudioSink) && host_has(
            gst,
            GstNeed::H264Decoder,
        ),
        Player::Native => true,
    }
}

/// Which tracks can be played.
pub fn music_playback_supported(player: &Player) -> (r: MusicSupport)
    ensures
        match player {
            Player::Bundled(plugins) => {
                let p = text::texts(plugins@);
                let audio = p.contains("libgstautodetect.so"@);
                &&& r.mp3 == (audio && (p.contains("libgstmpg123.so"@) || p.contains(
                    "libgstlibav.so"@,
                )) && p.contains("libgstaudioparsers.so"@))
                &&& r.ogg == (audio && p.contains("libgstogg.so"@) && p.contains(
                    "libgstvorbis.so"@,
                ))
            },
            Player::Host(gst) => {
                let audio = host_meets(*gst, GstNeed::AudioSink);
                &&& r.mp3 == (audio && host_meets(*gst, GstNeed::Mp3Decoder) && host_meets(
                    *gst,
                    GstNeed::Mp3Parser,
                ))
                &&& r.ogg == (audio && host_meets(*gst, GstNeed::OggDemuxer) && host_meets(
                    *gst,
                    GstNeed::VorbisDecoder,
                ))
            },
            Player::Native => r.mp3 && r.ogg,
        },
{
    match player {
        Player::Bundled(plugins) => bundled_music_support(plugins),
        Player::Host(gst) => {
            let audio = host_has(gst, GstNeed::AudioSink);
            let mp3 = host_has(gst, GstNeed::Mp3Decoder) && host_has(gst, GstNeed::Mp3Parser);
            let ogg = host_has(gst, GstNeed::OggDemuxer) && host_has(gst, GstNeed::VorbisDecoder);
            MusicSupport { mp3: audio && mp3, ogg: audio && ogg }
        },
        Player::Native => MusicSupport { mp3: true, ogg: true },
    }
}

// ── The media server ─────────────────────────────────────────────────────────

/// The files that the media server hands out, by token.
pub struct MediaServerState {
    /// The port that the server listens on, once it runs.
    pub port: Option<u16>,
    pub tokens: Table<String>,
}

impl MediaServerState {
    pub open spec fn wf(&self) -> bool {
        self.tokens.wf()
    }

    /// The file behind a token.
    pub open spec fn file(&self, token: Seq<char>) -> Option<Seq<char>> {
        if self.tokens@.contains_key(token) {
            Some(self.tokens@[token]@)
        } else {
            None
        }
    }

    /// The server does not run, and hands out nothing.
    pub fn new() -> (r: MediaServerState)
        ensures
            r.wf(),
            r.port is None,
            forall|token: Seq<char>| #[trigger] r.file(token) is None,
    {
        MediaServerState { port: None, tokens: Table::new() }
    }

    /// The file behind a token. An unknown token stands for none.
    pub fn lookup(&self, token: &str) -> (r: Option<&str>)
        requires
            self.wf(),
        ensures
            text::opt_ref(r) == self.file(token@),
    {
        match self.tokens.get(token) {
            Some(path) => Some(path.as_str()),
            None => None,
        }
    }

    /// Lets the server hand out a file, and gives the address. Both paths are the
    /// real ones. What lies outside the data directory, or is no file, is refused.
    pub fn media_url(
        &mut self,
        os: Os,
        file: &str,
        root: &str,
        is_file: bool,
        port: u16,
        token: &str,
    ) -> (r: Result<String, String>)
        requires
            old(self).wf(),
        ensures
            final(self).wf(),
            match r {
                Ok(url) => {
                    &&& crate::paths::lies_below(os, file@, root@)
                    &&& is_file
                    &&& url@ == "http://127.0.0.1:"@ + text::decimal(port as nat) + "/m/"@ + token@
                    &&& final(self).port == Some(port)
                    &&& forall|t: Seq<char>| #[trigger]
                        final(self).file(t) == if t == token@ {
                            Some(file@)
                        } else {
                            old(self).file(t)
                        }
                },
                Err(message) => {
                    &&& *final(self) == *old(self)
                    &&& if !crate::paths::lies_below(os, file@, root@) {
                        message@ == file@ + " is outside the data directory"@
                    } else {
                        !is_file && message@ == file@ + " is not a file"@
                    }
                },
            },
    {
        if !path_lies_below(os, file, root) {
            return Err(cat(file, " is outside the data directory"));
        }
        if !is_file {
            return Err(cat(file, " is not a file"));
        }
        self.port = Some(port);
        self.tokens.insert(token, copy(file));
        let number = decimal_of(port as u64);
        let head = cat3("http://127.0.0.1:", number.as_str(), "/m/");
        Ok(cat(head.as_str(), token))
    }
}

// ── Laws ─────────────────────────────────────────────────────────────────────

/// An answer for want of a session is told apart from that of an archive that holds
/// nothing, though the phase is the same.
pub proof fn law_offline_is_told_apart(gamedata: Option<i64>, facts: MediaFacts)
    requires
        gamedata is Some,
        !facts.marked,
        facts.cached is None,
        !is_going_on(facts.job),
        facts.index is None,
    ensures
        known_answer(gamedata, facts)->0.phase == bare_status("none"@).phase,
        known_answer(gamedata, facts)->0 != bare_status("none"@),
{
}

/// A game borrows extras only from a row of its own shortcode, in the base
/// collection of its own family.
pub proof fn law_extras_stay_in_the_family(rows: Seq<Game>, game: Game)
    requires
        lender(rows, game) is Some,
    ensures
        ({
            let k = lender(rows, game)->0;
            &&& 0 <= k < rows.len()
            &&& text::opt(rows[k].shortcode) == text::opt(game.shortcode)
            &&& crate::install::source_of(rows[k]) == crate::collections::base_of(
                crate::install::source_of(game),
            )
        }),
{
    let base = crate::collections::base_of(crate::install::source_of(game));
    lemma_extras_found(rows, text::opt(game.shortcode)->0, base, true, 0);
    lemma_extras_found(rows, text::opt(game.shortcode)->0, base, false, 0);
}

proof fn lemma_extras_found(
    rows: Seq<Game>,
    shortcode: Seq<char>,
    base: Seq<char>,
    english: bool,
    i: int,
)
    requires
        0 <= i,
    ensures
        match extras_from(rows, shortcode, base, english, i) {
            Some(k) => i <= k < rows.len() && has_extras(rows[k], shortcode, base),
            None => true,
        },
    decreases rows.len() - i,
{
    if i < rows.len() {
        lemma_extras_found(rows, shortcode, base, english, i + 1);
    }
}

/// Pruning a cache never deletes the mark of an archive that holds nothing.
pub proof fn law_marks_are_never_pruned(kind: MediaKind, files: Seq<CachedFile>, n: int, i: int)
    requires
        0 <= n <= files.len(),
        n <= usize::MAX,
        0 <= i < payload_places(kind, files, n).len(),
    ensures
        payload_places(kind, files, n)[i] < n,
        kind.holds(files[payload_places(kind, files, n)[i] as int].path@),
        crate::fspath::extension(files[payload_places(kind, files, n)[i] as int].path@) != Some(
            kind.marker_ext(),
        ),
    decreases n,
{
    if n > 0 {
        let before = payload_places(kind, files, n - 1);
        if i < before.len() {
            law_marks_are_never_pruned(kind, files, n - 1, i);
        } else {
            lemma_marks_are_no_payload(kind, files[n - 1].path@);
        }
    }
}

proof fn lemma_marks_are_no_payload(kind: MediaKind, path: Seq<char>)
    requires
        kind.holds(path),
    ensures
        crate::fspath::extension(path) != Some(kind.marker_ext()),
{
    reveal_strlit("mp4");
    reveal_strlit("mp3");
    reveal_strlit("ogg");
    reveal_strlit("novideo");
    reveal_strlit("nomusic");
    let ext = crate::fspath::extension(path)->0;
    assert(text::lower(ext).len() == ext.len());
}

/// An archive is said to hold nothing of a kind only where its directory was read to
/// the end: neither a fault nor a fetch that was broken off says so.
pub proof fn law_only_a_whole_read_finds_nothing(
    fetch: MediaFetch,
    event: FetchEvent,
    cancelled: bool,
    action: FetchAction,
)
    requires
        fetch.follows(event, cancelled, action),
    ensures
        action == FetchAction::End(FetchResult::Nothing) <==> !cancelled && event
            == (FetchEvent::DirectoryRead { entry: None }),
{
}

/// A fetch that was broken off before it began reads nothing, and what fails at the
/// torrent ends the fetch.
pub proof fn law_a_fetch_ends(
    fetch: MediaFetch,
    event: FetchEvent,
    cancelled: bool,
    action: FetchAction,
)
    requires
        fetch.follows(event, cancelled, action),
    ensures
        cancelled && (event is LocalOpened || event is StreamOpened) ==> ends_with(
            action,
            "cancelled"@,
        ),
        !fetch.local && (event is StreamFailed || event is DirectoryFault || event is EntryFault
            || event is StoreFailed) ==> action matches FetchAction::End(FetchResult::Failed(_)),
{
}

/// A fetch begins only where there is something to fetch and nothing is known yet: an archive
/// with extras that is not marked as empty, nothing in the cache, no fetch that is going on and
/// a session. What is in the cache is shown without one.
pub proof fn law_when_a_fetch_begins(gamedata: Option<i64>, facts: MediaFacts)
    ensures
        known_answer(gamedata, facts) is None <==> gamedata is Some && !facts.marked && facts.cached
            is None && facts.index is Some && !(facts.job matches Some(job) && (job.phase@
            == "probing"@ || job.phase@ == "fetching"@)),
        gamedata is Some && !facts.marked && facts.cached is Some ==> (known_answer(gamedata, facts)
            matches Some(status) && status.phase == "ready"@ && status.path == Some(
            text::swap_char((facts.cached->0)@, '\\', '/'),
        )),
        gamedata is None || facts.marked ==> (known_answer(gamedata, facts) matches Some(status)
            && status.phase == "none"@ && status.error is None),
{
}

/// A game without extras of its own borrows those of its English counterpart: a row with the
/// same shortcode, of the collection that its own is laid over, and an English one where there
/// is one.
pub proof fn law_extras_are_borrowed_in_english(rows: Seq<Game>, game: Game, code: String, i: int)
    requires
        game.gamedata_torrent_index is None,
        game.shortcode == Some(code),
        0 <= i < rows.len(),
        rows[i].shortcode is Some,
        (rows[i].shortcode->0)@ == code@,
        rows[i].gamedata_torrent_index is Some,
        crate::install::source_of(rows[i]) == crate::collections::base_of(
            crate::install::source_of(game),
        ),
        rows[i].language@ == "EN"@,
    ensures
        exists|k: int|
            0 <= k < rows.len() && (#[trigger] rows[k]).language@ == "EN"@ && text::opt(
                rows[k].shortcode,
            ) == Some(code@) && extras_of(rows, game) == (
                rows[k].gamedata_torrent_index,
                crate::install::source_of(rows[k]),
            ) && rows[k].gamedata_torrent_index is Some,
{
    let base = crate::collections::base_of(crate::install::source_of(game));
    lemma_lender(rows, code@, base, 0, i);
    let k = extras_from(rows, code@, base, true, 0)->0;
    assert(rows[k].language@ == "EN"@);
}

proof fn lemma_lender(rows: Seq<Game>, code: Seq<char>, base: Seq<char>, from: int, i: int)
    requires
        0 <= from <= i < rows.len(),
        has_extras(rows[i], code, base),
        rows[i].language@ == "EN"@,
    ensures
        extras_from(rows, code, base, true, from) matches Some(k) && from <= k <= i && has_extras(
            rows[k],
            code,
            base,
        ) && rows[k].language@ == "EN"@,
    decreases i - from,
{
    if !(has_extras(rows[from], code, base) && rows[from].language@ == "EN"@) {
        lemma_lender(rows, code, base, from + 1, i);
    }
}

/// A video that was kept is found again, under the name of its collection and its archive, and
/// a track by its name and the ending of a track.
pub proof fn law_what_was_kept_is_found(
    data_dir: Seq<char>,
    collection: Seq<char>,
    index: nat,
    files: Seq<Seq<char>>,
)
    ensures
        ({
            let path = crate::fspath::joined(
                crate::fspath::joined(crate::fspath::joined(data_dir, "content"@), "videocache"@),
                collection + "_"@ + text::decimal(index) + "."@ + "mp4"@,
            );
            MediaKind::Video.kept(data_dir, collection, index, files) == (if files.contains(path) {
                Some(path)
            } else {
                None
            })
        }),
        MediaKind::Music.kept(data_dir, collection, index, files) matches Some(path)
            ==> files.contains(path) && crate::fspath::file_stem(path) == Some(
            collection + "_"@ + text::decimal(index),
        ) && (crate::fspath::extension(path) matches Some(ext) && (text::lower(ext) == "mp3"@
            || text::lower(ext) == "ogg"@)),
{
    lemma_found_track(files, collection + "_"@ + text::decimal(index), 0);
}

proof fn lemma_found_track(files: Seq<Seq<char>>, stem: Seq<char>, from: int)
    requires
        0 <= from,
    ensures
        MediaKind::Music.found_from(files, stem, from) matches Some(path) ==> files.contains(path)
            && crate::fspath::file_stem(path) == Some(stem) && MediaKind::Music.holds(path),
    decreases files.len() - from,
{
    if from < files.len() {
        if crate::fspath::file_stem(files[from]) == Some(stem) && MediaKind::Music.holds(
            files[from],
        ) {
            assert(files.contains(files[from]));
        } else {
            lemma_found_track(files, stem, from + 1);
        }
    }
}

/// What a fetch shows of its progress is what came since its first report, and never all of it
/// before the fetch is done.
pub proof fn law_progress_is_never_complete(baseline: u64, downloaded: u64, total: u64)
    ensures
        0 <= come_since(baseline, downloaded, total) <= total * 99 / 100,
        downloaded <= baseline ==> come_since(baseline, downloaded, total) == 0,
        baseline <= downloaded && downloaded - baseline <= total * 99 / 100 ==> come_since(
            baseline,
            downloaded,
            total,
        ) == downloaded - baseline,
{
}

/// A fetch that is broken off says so and asks nothing more of the torrent; an archive on disk
/// that does not read is read from the torrent instead; and only where the directory was read
/// is an archive said to hold nothing.
pub proof fn law_how_a_fetch_goes_on(
    fetch: MediaFetch,
    event: FetchEvent,
    cancelled: bool,
    action: FetchAction,
)
    requires
        fetch.follows(event, cancelled, action),
    ensures
        cancelled && (event is LocalOpened || event is StreamOpened || event is DirectoryRead) ==> (
        action matches FetchAction::End(FetchResult::Failed(e)) && e@ == "cancelled"@),
        event is LocalAbsent ==> action is OpenStream,
        action == FetchAction::End(FetchResult::Nothing) ==> (event matches FetchEvent::DirectoryRead {
            entry,
        } && entry is None) && !cancelled,
        event matches FetchEvent::DirectoryFault { fault } && fault is TimedOut && fetch.local
            ==> action is OpenStream,
        event matches FetchEvent::DirectoryFault { fault } && fault is TimedOut && !fetch.local ==> (
        action matches FetchAction::End(FetchResult::Failed(_))),
        event matches FetchEvent::Stored { path } ==> (action matches FetchAction::End(
            FetchResult::Found(p),
        ) && p@ == text::swap_char(path@, '\\', '/')),
{
    reveal_strlit("timed out reading the archive index");
    reveal_strlit("cancelled");
    assert("timed out reading the archive index"@.len() != "cancelled"@.len());
}

} // verus!
