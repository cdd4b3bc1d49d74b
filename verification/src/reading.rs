//! The reading room: magazines and books, one issue at a time.

use crate::fspath::{extension_of, file_stem_of, join_path};
use crate::layout::capped_sum;
use crate::media::{read_failure, ReadFault, VideoStatus, OFFLINE_TOKEN};
use crate::outside::{default_hash, hex_of, parse_json_pairs, sha256};
use crate::paths::{path_lies_below, path_to_fwd_slash};
use crate::scummvm::Os;
use crate::table::Table;
use crate::text;
use crate::text::{
    after_prefix, cat, cat3, chars_of, copy, copy_texts, drop_back, find_char, has_str,
    has_suffix, is_one_of, is_str, rcut_once, replace_all, same, split_on, string_of, to_lower,
    trim_of,
};
use vstd::prelude::*;

verus! {

/// What a fetch that was broken off is reported as.
pub const CANCELLED: &'static str = "cancelled";

/// An issue of a publication.
pub struct Issue {
    pub key: String,
    pub publication: String,
    pub title: String,
    /// The torrent that holds the issue.
    pub source: String,
    /// The archive among the files of the torrent.
    pub zip_file: String,
    /// The archive inside that archive, where there is one.
    pub inner_zip: Option<String>,
    /// The document in the archive. A disk magazine has none.
    pub entry_path: Option<String>,
    pub size_bytes: i64,
    /// The issue is a disk magazine, and is run.
    pub runnable: bool,
    /// The directory that a disk magazine is run from.
    pub launch_dir: Option<String>,
    /// The directory of the issue alone, where its series shares the other one.
    pub issue_dir: Option<String>,
    pub launch_bat: Option<String>,
    /// What is filled into the launcher.
    pub substitutions: Option<String>,
    pub installed: bool,
}

// ── The cache ────────────────────────────────────────────────────────────────

/// Where documents are kept.
pub open spec fn cache_place(data_dir: Seq<char>) -> Seq<char> {
    crate::fspath::joined(crate::fspath::joined(data_dir, "content"@), "magazinecache"@)
}

/// Where documents are kept.
pub fn cache_dir(data_dir: &str) -> (r: String)
    ensures
        r@ == cache_place(data_dir@),
{
    join_path(join_path(data_dir, "content").as_str(), "magazinecache")
}

/// The name that a digest stands for: its first eight bytes in hexadecimal.
pub fn digest_stem(digest: &Vec<u8>) -> (r: String)
    requires
        digest@.len() >= 8,
    ensures
        r@ == crate::outside::hex(digest@.take(8)),
        r@.len() == 16,
{
    hex_of(digest.as_slice(), 8)
}

/// The name that an issue is kept under.
pub open spec fn stem_of(key: Seq<char>) -> Seq<char> {
    crate::outside::hex(crate::outside::sha256_of(vstd::utf8::encode_utf8(key)).take(8))
}

/// The name that an issue is kept under. It outlives the program, so it is made with
/// a digest whose algorithm is fixed.
pub fn cache_stem(key: &str) -> (r: String)
    ensures
        r@ == stem_of(key@),
        r@.len() == 16,
{
    let digest = sha256(key.as_bytes());
    digest_stem(&digest)
}

/// The extension that a document is kept under: its own, in small letters.
pub open spec fn kept_ext(issue: Issue) -> Seq<char> {
    match issue.entry_path {
        Some(p) => match crate::fspath::extension(p@) {
            Some(ext) => text::lower(ext),
            None => "pdf"@,
        },
        None => "pdf"@,
    }
}

/// Where a document is kept.
pub open spec fn document_place(data_dir: Seq<char>, issue: Issue) -> Seq<char> {
    crate::fspath::joined(
        cache_place(data_dir),
        stem_of(issue.key@) + "."@ + kept_ext(issue),
    )
}

/// Where a document is kept.
pub fn cache_file(data_dir: &str, issue: &Issue) -> (r: String)
    ensures
        r@ == document_place(data_dir@, *issue),
{
    let ext = match &issue.entry_path {
        Some(p) => match extension_of(p.as_str()) {
            Some(ext) => string_of(to_lower(chars_of(ext.as_str()).as_slice()).as_slice()),
            None => copy("pdf"),
        },
        None => copy("pdf"),
    };
    let stem = cache_stem(issue.key.as_str());
    let name = cat3(stem.as_str(), ".", ext.as_str());
    join_path(cache_dir(data_dir).as_str(), name.as_str())
}

/// A file is half written.
pub open spec fn is_part(path: Seq<char>) -> bool {
    crate::fspath::extension(path) == Some("part"@)
}

/// Whether a file is half written.
pub fn is_partial(path: &str) -> (r: bool)
    ensures
        r == is_part(path@),
{
    match extension_of(path) {
        Some(ext) => same(ext.as_str(), "part"),
        None => false,
    }
}

/// The files that a start clears out of the cache, and out of the magazines in the
/// game root.
pub open spec fn partial_files(
    cached: Seq<Seq<char>>,
    magazines: Seq<Seq<char>>,
) -> Seq<Seq<char>> {
    cached.filter(|path: Seq<char>| is_part(path)) + magazines.filter(
        |path: Seq<char>| ".exodium-part"@.is_suffix_of(path),
    )
}

/// The files that a start clears: what a fetch that was killed left half written. A
/// document that came whole stays until the user removes it.
pub fn sweep_partial_downloads(cached: &Vec<String>, magazines: &Vec<String>) -> (r: Vec<String>)
    ensures
        text::texts(r@) == partial_files(text::texts(cached@), text::texts(magazines@)),
{
    let ghost parts = |path: Seq<char>| is_part(path);
    let ghost shards = |path: Seq<char>| ".exodium-part"@.is_suffix_of(path);
    let ghost all = text::texts(cached@);
    let ghost more = text::texts(magazines@);
    let mut out: Vec<String> = Vec::new();
    let mut i: usize = 0;
    proof {
        reveal(Seq::filter);
        assert(text::texts(out@) =~= all.take(0).filter(parts));
    }
    while i < cached.len()
        invariant
            i <= cached@.len(),
            all == text::texts(cached@),
            parts == (|path: Seq<char>| is_part(path)),
            text::texts(out@) == all.take(i as int).filter(parts),
        decreases cached@.len() - i,
    {
        let ghost done = text::texts(out@);
        let ghost here = all.take(i + 1);
        proof {
            reveal(Seq::filter);
            assert(here.drop_last() =~= all.take(i as int));
            assert(here.last() == cached@[i as int]@);
        }
        if is_partial(cached[i].as_str()) {
            out.push(copy(cached[i].as_str()));
            assert(text::texts(out@) =~= done.push(cached@[i as int]@));
        }
        i += 1;
    }
    assert(all.take(all.len() as int) =~= all);
    let ghost first = text::texts(out@);
    let mut k: usize = 0;
    proof {
        reveal(Seq::filter);
        assert(more.take(0).filter(shards) =~= Seq::<Seq<char>>::empty());
        assert(text::texts(out@) =~= first + more.take(0).filter(shards));
    }
    while k < magazines.len()
        invariant
            k <= magazines@.len(),
            more == text::texts(magazines@),
            shards == (|path: Seq<char>| ".exodium-part"@.is_suffix_of(path)),
            text::texts(out@) == first + more.take(k as int).filter(shards),
        decreases magazines@.len() - k,
    {
        let ghost done = text::texts(out@);
        let ghost here = more.take(k + 1);
        proof {
            reveal(Seq::filter);
            assert(here.drop_last() =~= more.take(k as int));
            assert(here.last() == magazines@[k as int]@);
        }
        if has_suffix(chars_of(magazines[k].as_str()).as_slice(), ".exodium-part") {
            out.push(copy(magazines[k].as_str()));
            assert(text::texts(out@) =~= done.push(magazines@[k as int]@));
            assert(text::texts(out@) =~= first + here.filter(shards));
        }
        k += 1;
    }
    assert(more.take(more.len() as int) =~= more);
    out
}

/// What an issue takes up on disk: its document, or the directory of a disk
/// magazine. What its series shares is left standing.
pub open spec fn issue_place(data_dir: Seq<char>, root: Seq<char>, issue: Issue) -> Option<Seq<char>> {
    if issue.runnable {
        match (issue.launch_dir, issue.issue_dir) {
            (Some(_), Some(own)) => Some(crate::fspath::joined(root, own@)),
            (Some(dir), None) => Some(crate::fspath::joined(root, dir@)),
            (None, _) => None,
        }
    } else {
        Some(document_place(data_dir, issue))
    }
}

/// What an issue takes up on disk.
pub fn issue_target(data_dir: &str, root: &str, issue: &Issue) -> (r: Option<String>)
    ensures
        text::opt(r) == issue_place(data_dir@, root@, *issue),
{
    if issue.runnable {
        match (&issue.launch_dir, &issue.issue_dir) {
            (Some(_), Some(own)) => Some(join_path(root, own.as_str())),
            (Some(dir), None) => Some(join_path(root, dir.as_str())),
            (None, _) => None,
        }
    } else {
        Some(cache_file(data_dir, issue))
    }
}

/// The real paths of what is to be removed and of the data directory.
pub struct RealPaths {
    pub target: String,
    pub data_dir: String,
}

/// Why something on disk is not removed: it lies outside the data directory, or its
/// real path is not known.
pub fn removal_refusal(os: Os, target: &str, paths: &Option<RealPaths>) -> (r: Option<String>)
    ensures
        text::opt(r) == match paths {
            Some(p) if crate::paths::lies_below(os, p.target@, p.data_dir@) => None,
            _ => Some("Refusing to remove a path outside the data directory: "@ + target@),
        },
{
    let inside = match paths {
        Some(p) => path_lies_below(os, p.target.as_str(), p.data_dir.as_str()),
        None => false,
    };
    if inside {
        None
    } else {
        Some(cat("Refusing to remove a path outside the data directory: ", target))
    }
}

/// The stems of the first `n` files that are not half written.
pub open spec fn kept_stems(paths: Seq<Seq<char>>, n: int) -> Seq<Seq<char>>
    decreases n,
{
    if n <= 0 {
        Seq::<Seq<char>>::empty()
    } else {
        match crate::fspath::file_stem(paths[n - 1]) {
            Some(stem) if !is_part(paths[n - 1]) => kept_stems(paths, n - 1).push(stem),
            _ => kept_stems(paths, n - 1),
        }
    }
}

/// The keys whose document is kept.
pub open spec fn kept_keys(keys: Seq<Seq<char>>, stems: Seq<Seq<char>>) -> Seq<Seq<char>> {
    keys.filter(|key: Seq<char>| stems.contains(stem_of(key)))
}

fn stems_of(paths: &Vec<String>) -> (r: Vec<String>)
    ensures
        text::texts(r@) == kept_stems(text::texts(paths@), paths@.len() as int),
{
    let mut out: Vec<String> = Vec::new();
    let ghost all = text::texts(paths@);
    let mut i: usize = 0;
    assert(text::texts(out@) =~= kept_stems(all, 0));
    while i < paths.len()
        invariant
            i <= paths@.len(),
            all == text::texts(paths@),
            text::texts(out@) == kept_stems(all, i as int),
        decreases paths@.len() - i,
    {
        assert(all[i as int] == paths@[i as int]@);
        let part = is_partial(paths[i].as_str());
        if let Some(stem) = file_stem_of(paths[i].as_str()) {
            if !part {
                let ghost done = text::texts(out@);
                let ghost s = stem@;
                out.push(stem);
                assert(text::texts(out@) =~= done.push(s));
            }
        }
        i += 1;
    }
    out
}

/// Which issues are on disk. `paths` lists the files of the cache.
pub fn reading_cache_index(keys: &Vec<String>, paths: &Vec<String>) -> (r: Vec<String>)
    ensures
        text::texts(r@) == kept_keys(
            text::texts(keys@),
            kept_stems(text::texts(paths@), paths@.len() as int),
        ),
{
    let stems = stems_of(paths);
    let ghost known = text::texts(stems@);
    let ghost wanted = |key: Seq<char>| known.contains(stem_of(key));
    let ghost all = text::texts(keys@);
    let mut out: Vec<String> = Vec::new();
    let mut i: usize = 0;
    proof {
        reveal(Seq::filter);
        assert(text::texts(out@) =~= all.take(0).filter(wanted));
    }
    while i < keys.len()
        invariant
            i <= keys@.len(),
            all == text::texts(keys@),
            known == text::texts(stems@),
            wanted == (|key: Seq<char>| known.contains(stem_of(key))),
            text::texts(out@) == all.take(i as int).filter(wanted),
        decreases keys@.len() - i,
    {
        let ghost done = text::texts(out@);
        let ghost here = all.take(i + 1);
        proof {
            reveal(Seq::filter);
            assert(here.drop_last() =~= all.take(i as int));
            assert(here.last() == keys@[i as int]@);
        }
        let stem = cache_stem(keys[i].as_str());
        if is_one_of(&stems, stem.as_str()) {
            out.push(copy(keys[i].as_str()));
            assert(text::texts(out@) =~= done.push(keys@[i as int]@));
        }
        i += 1;
    }
    assert(all.take(all.len() as int) =~= all);
    out
}

/// What the reading room takes up.
pub struct ReadingUsage {
    pub issues: u64,
    pub bytes: u64,
}

/// A file of the cache.
pub struct KeptFile {
    pub path: String,
    pub len: u64,
}

/// How many of the first `n` files came whole.
pub open spec fn whole_files(files: Seq<KeptFile>, n: int) -> nat
    decreases n,
{
    if n <= 0 {
        0
    } else {
        whole_files(files, n - 1) + if is_part(files[n - 1].path@) {
            0nat
        } else {
            1
        }
    }
}

/// What those of the first `n` files take that came whole.
pub open spec fn whole_bytes(files: Seq<KeptFile>, n: int) -> nat
    decreases n,
{
    if n <= 0 {
        0
    } else {
        whole_bytes(files, n - 1) + if is_part(files[n - 1].path@) {
            0nat
        } else {
            files[n - 1].len as nat
        }
    }
}

/// A number that is not negative.
pub open spec fn at_least_zero(n: i64) -> nat {
    if n < 0 {
        0
    } else {
        n as nat
    }
}

fn not_negative(n: i64) -> (r: u64)
    ensures
        r == at_least_zero(n),
{
    if n < 0 {
        0
    } else {
        n as u64
    }
}

/// What the reading room takes up: the disk magazines by what the catalogue says of
/// them, and the documents by what they take. Numbers that do not fit are cut to the
/// largest one.
pub fn reading_storage_usage(installed: i64, installed_bytes: i64, files: &Vec<KeptFile>) -> (r:
    ReadingUsage)
    ensures
        r.issues == crate::layout::capped(
            at_least_zero(installed) + whole_files(files@, files@.len() as int),
        ),
        r.bytes == crate::layout::capped(
            at_least_zero(installed_bytes) + whole_bytes(files@, files@.len() as int),
        ),
{
    let mut issues: u64 = not_negative(installed);
    let mut bytes: u64 = not_negative(installed_bytes);
    let mut i: usize = 0;
    while i < files.len()
        invariant
            i <= files@.len(),
            issues == crate::layout::capped(
                at_least_zero(installed) + whole_files(files@, i as int),
            ),
            bytes == crate::layout::capped(
                at_least_zero(installed_bytes) + whole_bytes(files@, i as int),
            ),
        decreases files@.len() - i,
    {
        if !is_partial(files[i].path.as_str()) {
            issues = capped_sum(issues, 1);
            bytes = capped_sum(bytes, files[i].len);
        }
        i += 1;
    }
    ReadingUsage { issues, bytes }
}

// ── Where an issue comes from ────────────────────────────────────────────────

/// The torrent of an issue, as the session has it.
#[derive(Clone, Copy, PartialEq, Eq, Structural)]
pub enum SourceState {
    Ready,
    /// There is no session.
    Offline,
    /// The collection is not enabled.
    Missing,
}

/// How the session has the torrent of an issue. A media source joins the session
/// when it is wanted; a collection is in it or is not enabled, and only a session
/// without any torrent is offline.
pub fn source_state(is_media: bool, joined: bool, any: bool, enabled: bool) -> (r: SourceState)
    ensures
        r == (if is_media {
            if joined {
                SourceState::Ready
            } else {
                SourceState::Offline
            }
        } else if !any {
            SourceState::Offline
        } else if enabled {
            SourceState::Ready
        } else {
            SourceState::Missing
        }),
{
    if is_media {
        if joined {
            SourceState::Ready
        } else {
            SourceState::Offline
        }
    } else if !any {
        SourceState::Offline
    } else if enabled {
        SourceState::Ready
    } else {
        SourceState::Missing
    }
}

/// What is said of an issue whose collection is not enabled.
pub open spec fn missing_text(issue: Issue) -> Seq<char> {
    issue.title@ + " is in the "@ + issue.source@ + " torrent, which this install has not enabled"@
}

/// What is said of an issue whose collection is not enabled.
pub fn missing_source(issue: &Issue) -> (r: String)
    ensures
        r@ == missing_text(*issue),
{
    let head = cat3(issue.title.as_str(), " is in the ", issue.source.as_str());
    cat(head.as_str(), " torrent, which this install has not enabled")
}

/// What is said of an issue whose archive its torrent does not have.
pub open spec fn absent_text(issue: Issue) -> Seq<char> {
    issue.zip_file@ + " is not in the "@ + issue.source@ + " torrent"@
}

fn absent_archive(issue: &Issue) -> (r: String)
    ensures
        r@ == absent_text(*issue),
{
    let head = cat3(issue.zip_file.as_str(), " is not in the ", issue.source.as_str());
    cat(head.as_str(), " torrent")
}

/// What is known when an issue is asked for.
pub struct IssueFacts {
    /// What was fetched before is on disk.
    pub there: bool,
    pub source: SourceState,
    /// The archive is among the files of the torrent.
    pub archive_known: bool,
    /// How much of the disk is free, where that is known.
    pub free: Option<u64>,
}

/// What becomes of a request for an issue.
pub enum IssueStart {
    /// The answer is known.
    Known(VideoStatus),
    /// There is too little space. The sizes are for the message.
    NoSpace { needed: u64, free: u64 },
    /// Fetch it. The number is what it comes to.
    Fetch { total_bytes: u64 },
}

/// The space that a document needs: it is written whole before it is shown.
pub open spec fn document_space(issue: Issue) -> nat {
    at_least_zero(issue.size_bytes) + 268435456
}

/// The space that a disk magazine needs: a fifth more than its size.
pub open spec fn magazine_space(issue: Issue) -> nat {
    at_least_zero(issue.size_bytes) * 6 / 5
}

/// What becomes of a request, once it is known what is asked for: what is on disk
/// is shown, and the rest is fetched where its torrent has it and it fits.
pub open spec fn request_answer(
    issue: Issue,
    facts: IssueFacts,
    place: Seq<char>,
    needed: nat,
    r: Result<IssueStart, String>,
) -> bool {
    if facts.there {
        r matches Ok(IssueStart::Known(status)) && status@ == (crate::media::Status {
            path: Some(text::swap_char(place, '\\', '/')),
            ..crate::media::bare_status("ready"@)
        })
    } else if facts.source == SourceState::Offline {
        r matches Ok(IssueStart::Known(status)) && status@ == (crate::media::Status {
            error: Some(OFFLINE_TOKEN@),
            ..crate::media::bare_status("none"@)
        })
    } else if facts.source == SourceState::Missing {
        r matches Err(message) && message@ == missing_text(issue)
    } else if !facts.archive_known {
        r matches Err(message) && message@ == absent_text(issue)
    } else if facts.free is Some && facts.free->0 < needed {
        r matches Ok(IssueStart::NoSpace { needed: n, free }) && n == needed && free
            == facts.free->0
    } else {
        r matches Ok(IssueStart::Fetch { total_bytes }) && total_bytes == at_least_zero(
            issue.size_bytes,
        )
    }
}

fn answer_request(issue: &Issue, facts: &IssueFacts, place: &str, needed: u64) -> (r: Result<
    IssueStart,
    String,
>)
    ensures
        request_answer(*issue, *facts, place@, needed as nat, r),
{
    if facts.there {
        let shown = path_to_fwd_slash(place);
        return Ok(IssueStart::Known(VideoStatus::ready(shown.as_str())));
    }
    match facts.source {
        SourceState::Offline => {
            return Ok(IssueStart::Known(VideoStatus::offline()));
        },
        SourceState::Missing => {
            return Err(missing_source(issue));
        },
        SourceState::Ready => {},
    }
    if !facts.archive_known {
        return Err(absent_archive(issue));
    }
    if let Some(free) = facts.free {
        if free < needed {
            return Ok(IssueStart::NoSpace { needed, free });
        }
    }
    Ok(IssueStart::Fetch { total_bytes: not_negative(issue.size_bytes) })
}

/// What becomes of a request to read an issue. A disk magazine is run, and not read.
pub fn open_issue(data_dir: &str, issue: &Issue, facts: &IssueFacts) -> (r: Result<
    IssueStart,
    String,
>)
    ensures
        if issue.entry_path is None {
            r matches Err(message) && message@ == issue.title@
                + " is a runnable issue, not a document"@
        } else {
            request_answer(
                *issue,
                *facts,
                document_place(data_dir@, *issue),
                document_space(*issue),
                r,
            )
        },
{
    if issue.entry_path.is_none() {
        return Err(cat(issue.title.as_str(), " is a runnable issue, not a document"));
    }
    let place = cache_file(data_dir, issue);
    let needed: u64 = not_negative(issue.size_bytes) + 268435456;
    answer_request(issue, facts, place.as_str(), needed)
}

// ── Disk magazines ───────────────────────────────────────────────────────────

/// What is said of an issue that cannot be run.
pub open spec fn unrunnable_text(issue: Issue) -> Seq<char> {
    if !issue.runnable {
        issue.title@ + " is a document, not a disk magazine"@
    } else {
        issue.title@ + " has no launcher directory"@
    }
}

/// The directory that a disk magazine is run from.
pub fn runnable_launch_dir(issue: &Issue) -> (r: Result<String, String>)
    ensures
        match r {
            Ok(dir) => issue.runnable && text::opt(issue.launch_dir) == Some(dir@),
            Err(message) => !(issue.runnable && issue.launch_dir is Some) && message@
                == unrunnable_text(*issue),
        },
{
    if !issue.runnable {
        return Err(cat(issue.title.as_str(), " is a document, not a disk magazine"));
    }
    match &issue.launch_dir {
        Some(dir) => Ok(copy(dir.as_str())),
        None => Err(cat(issue.title.as_str(), " has no launcher directory")),
    }
}

/// What is taken out of the archive for a disk magazine.
pub struct MagazineParts {
    /// The directory that is taken whole.
    pub own_dir: String,
    /// The directories of which only the files directly inside are taken.
    pub shallow: Vec<String>,
    /// The files that are taken by name.
    pub files: Vec<String>,
}

/// The directory of the issue alone.
pub open spec fn own_dir_of(issue: Issue, launch_dir: Seq<char>) -> Seq<char> {
    match issue.issue_dir {
        Some(dir) => dir@,
        None => launch_dir,
    }
}

/// The launcher of a series, which stands above the directory of the series.
pub open spec fn series_launcher(issue: Issue, launch_dir: Seq<char>) -> Seq<Seq<char>> {
    match (issue.launch_bat, text::rsplit_once(launch_dir, '/')) {
        (Some(bat), Some((parent, _))) => if "/Magazines"@.is_suffix_of(parent) || parent
            == "eXo/Magazines"@ {
            seq![parent + "/"@ + bat@]
        } else {
            Seq::<Seq<char>>::empty()
        },
        _ => Seq::<Seq<char>>::empty(),
    }
}

/// What is taken out of the archive for a disk magazine: its own directory, the files
/// that its series shares, and the launcher of the series; never another issue.
pub fn magazine_parts(issue: &Issue, launch_dir: &str) -> (r: MagazineParts)
    ensures
        r.own_dir@ == own_dir_of(*issue, launch_dir@),
        text::texts(r.shallow@) == (if own_dir_of(*issue, launch_dir@) == launch_dir@ {
            Seq::<Seq<char>>::empty()
        } else {
            seq![launch_dir@]
        }),
        text::texts(r.files@) == series_launcher(*issue, launch_dir@),
{
    let own_dir = match &issue.issue_dir {
        Some(dir) => copy(dir.as_str()),
        None => copy(launch_dir),
    };
    let mut shallow: Vec<String> = Vec::new();
    if !same(own_dir.as_str(), launch_dir) {
        shallow.push(copy(launch_dir));
        assert(text::texts(shallow@) =~= seq![launch_dir@]);
    } else {
        assert(text::texts(shallow@) =~= Seq::<Seq<char>>::empty());
    }
    let mut files: Vec<String> = Vec::new();
    assert(text::texts(files@) =~= Seq::<Seq<char>>::empty());
    let chars = chars_of(launch_dir);
    if let Some(bat) = &issue.launch_bat {
        if let Some((parent, _)) = rcut_once(chars.as_slice(), '/') {
            if has_suffix(parent, "/Magazines") || is_str(parent, "eXo/Magazines") {
                let path = cat3(string_of(parent).as_str(), "/", bat.as_str());
                let ghost p = path@;
                files.push(path);
                assert(text::texts(files@) =~= seq![p]);
            }
        }
    }
    MagazineParts { own_dir, shallow, files }
}

/// What becomes of a request to install a disk magazine. `facts.there` says whether
/// its conf is on disk, which counts where the issue is recorded as installed.
pub fn install_issue(root: &str, issue: &Issue, facts: &IssueFacts) -> (r: Result<IssueStart, String>)
    ensures
        if !(issue.runnable && issue.launch_dir is Some) {
            r matches Err(message) && message@ == unrunnable_text(*issue)
        } else {
            request_answer(
                *issue,
                IssueFacts { there: issue.installed && facts.there, ..*facts },
                crate::fspath::joined(root@, text::opt(issue.launch_dir)->0),
                magazine_space(*issue),
                r,
            )
        },
{
    let launch_dir = match runnable_launch_dir(issue) {
        Ok(dir) => dir,
        Err(message) => {
            return Err(message);
        },
    };
    let place = join_path(root, launch_dir.as_str());
    let size: u64 = not_negative(issue.size_bytes);
    let needed: u64 = ((size as u128) * 6 / 5) as u64;
    let known = IssueFacts {
        there: issue.installed && facts.there,
        source: facts.source,
        archive_known: facts.archive_known,
        free: facts.free,
    };
    answer_request(issue, &known, place.as_str(), needed)
}

/// How a disk magazine is run.
pub struct IssueLaunch {
    /// The directory of the series.
    pub dir: String,
    pub conf: String,
    /// The directory that the emulator is started in.
    pub working_dir: String,
    /// What the running guard knows the series by.
    pub run_key: String,
}

/// What the running guard knows a series by. Its launcher is one file, so two issues
/// of a series cannot run at once.
pub open spec fn run_key_of(launch_dir: Seq<char>) -> Seq<char> {
    "issue:"@ + launch_dir
}

/// What the running guard knows a series by.
pub fn issue_run_key(launch_dir: &str) -> (r: String)
    ensures
        r@ == run_key_of(launch_dir@),
{
    cat("issue:", launch_dir)
}

/// The conf of a series.
pub open spec fn conf_place(root: Seq<char>, launch_dir: Seq<char>) -> Seq<char> {
    crate::fspath::joined(crate::fspath::joined(root, launch_dir), "dosbox.conf"@)
}

/// How to run a disk magazine, or why it is not run: it is a document, or not
/// installed, or incomplete, or another issue of its series runs.
pub fn launch_issue(root: &str, issue: &Issue, conf_there: bool, running: bool) -> (r: Result<
    IssueLaunch,
    String,
>)
    ensures
        match r {
            Ok(launch) => {
                let dir = text::opt(issue.launch_dir)->0;
                &&& issue.runnable && issue.launch_dir is Some
                &&& issue.installed && conf_there && !running
                &&& launch.dir@ == crate::fspath::joined(root@, dir)
                &&& launch.conf@ == conf_place(root@, dir)
                &&& launch.working_dir@ == crate::fspath::joined(root@, text::split(dir, '/')[0])
                &&& launch.run_key@ == run_key_of(dir)
            },
            Err(message) => if !(issue.runnable && issue.launch_dir is Some) {
                message@ == unrunnable_text(*issue)
            } else if !issue.installed {
                message@ == issue.title@ + " is not installed. Download it first."@
            } else if !conf_there {
                message@ == issue.title@ + " is incomplete: "@ + conf_place(
                    root@,
                    text::opt(issue.launch_dir)->0,
                ) + " is missing. Download it again."@
            } else {
                running && message@ == "Another issue of '"@ + issue.publication@
                    + "' is already running. Close it first."@
            },
        },
{
    let launch_dir = match runnable_launch_dir(issue) {
        Ok(dir) => dir,
        Err(message) => {
            return Err(message);
        },
    };
    if !issue.installed {
        return Err(cat(issue.title.as_str(), " is not installed. Download it first."));
    }
    let dir = join_path(root, launch_dir.as_str());
    let conf = join_path(dir.as_str(), "dosbox.conf");
    if !conf_there {
        let head = cat3(issue.title.as_str(), " is incomplete: ", conf.as_str());
        return Err(cat(head.as_str(), " is missing. Download it again."));
    }
    if running {
        return Err(
            cat3(
                "Another issue of '",
                issue.publication.as_str(),
                "' is already running. Close it first.",
            ),
        );
    }
    let pieces = split_on(chars_of(launch_dir.as_str()).as_slice(), '/');
    proof {
        text::lemma_split_some(launch_dir@, '/');
        assert(text::texts(pieces@)[0] == pieces@[0]@);
    }
    let working_dir = join_path(root, pieces[0].as_str());
    let run_key = issue_run_key(launch_dir.as_str());
    Ok(IssueLaunch { dir, conf, working_dir, run_key })
}

/// The id that a running issue goes by: the lower 31 bits of a hash, below zero.
pub open spec fn run_id(hash: u64) -> int {
    -((hash % 0x8000_0000) as int) - 1
}

/// The id that a running issue goes by, from the hash of its key.
pub fn run_id_of_hash(hash: u64) -> (r: i64)
    ensures
        r == run_id(hash),
        -0x8000_0000 <= r < 0,
{
    -((hash % 0x8000_0000) as i64) - 1
}

/// The id that a running issue goes by. It is negative, so it is the id of no game.
pub fn issue_run_id(key: &str) -> (r: i64)
    ensures
        -0x8000_0000 <= r < 0,
{
    run_id_of_hash(default_hash(key))
}

// ── The launcher ─────────────────────────────────────────────────────────────

/// A text with placeholders filled in, one after the other.
pub open spec fn filled(t: Seq<char>, subs: Seq<(Seq<char>, Seq<char>)>, n: int) -> Seq<char>
    decreases n,
{
    if n <= 0 {
        t
    } else {
        text::replace(filled(t, subs, n - 1), subs[n - 1].0, subs[n - 1].1)
    }
}

/// A launcher with its placeholders filled in, one after the other.
pub fn fill_placeholders(template: &str, subs: &Vec<(String, String)>) -> (r: String)
    ensures
        r@ == filled(template@, crate::outside::pairs(subs@), subs@.len() as int),
{
    let mut now: Vec<char> = chars_of(template);
    let mut i: usize = 0;
    while i < subs.len()
        invariant
            i <= subs@.len(),
            now@ == filled(template@, crate::outside::pairs(subs@), i as int),
        decreases subs@.len() - i,
    {
        assert(crate::outside::pairs(subs@)[i as int] == (subs@[i as int].0@, subs@[i as int].1@));
        now = replace_all(now.as_slice(), subs[i].0.as_str(), subs[i].1.as_str());
        i += 1;
    }
    string_of(now.as_slice())
}

/// What is filled into the launcher of an issue, in the order of the placeholders. An
/// issue without any leaves its launcher alone.
pub fn launcher_substitutions(raw: Option<&str>) -> (r: Result<Vec<(String, String)>, String>)
    ensures
        match raw {
            Some(t) if text::trim(t@).len() > 0 => match crate::outside::json_pairs(t@) {
                Ok(subs) => r matches Ok(v) && crate::outside::pairs(v@) == subs,
                Err(e) => r matches Err(message) && message@
                    == "Unreadable launcher substitutions: "@ + e,
            },
            _ => r matches Ok(v) && v@.len() == 0,
        },
{
    let t = match raw {
        Some(t) => t,
        None => {
            return Ok(Vec::new());
        },
    };
    if trim_of(chars_of(t).as_slice()).len() == 0 {
        return Ok(Vec::new());
    }
    match parse_json_pairs(t) {
        Ok(subs) => Ok(subs),
        Err(e) => Err(cat("Unreadable launcher substitutions: ", e.as_str())),
    }
}

/// What a launch writes: the launcher, and the text that it was made from where that is
/// not kept yet.
pub struct LauncherWrite {
    pub bat: String,
    pub keep: Option<String>,
}

/// What the launcher of a series is made from: the text that was kept of it, or else
/// the launcher itself, which nothing was filled into yet.
pub open spec fn pristine(bat: Seq<char>, template: Option<Seq<char>>) -> Seq<char> {
    match template {
        Some(t) => t,
        None => bat,
    }
}

/// The launcher of a series and the text that is kept of it, once an issue was
/// launched.
pub open spec fn after_launch(
    bat: Seq<char>,
    template: Option<Seq<char>>,
    subs: Seq<(Seq<char>, Seq<char>)>,
) -> (Seq<char>, Option<Seq<char>>) {
    if subs.len() == 0 {
        (bat, template)
    } else {
        (
            filled(pristine(bat, template), subs, subs.len() as int),
            Some(pristine(bat, template)),
        )
    }
}

/// What a launch leaves on disk, from what it writes.
pub open spec fn written(
    bat: Seq<char>,
    template: Option<Seq<char>>,
    write: Option<LauncherWrite>,
) -> (Seq<char>, Option<Seq<char>>) {
    match write {
        None => (bat, template),
        Some(w) => (
            w.bat@,
            match w.keep {
                Some(t) => Some(t@),
                None => template,
            },
        ),
    }
}

/// What a launch writes, for what is filled in. Nothing where nothing is.
pub fn launcher_write(bat: &str, template: Option<&str>, subs: &Vec<(String, String)>) -> (r: Option<
    LauncherWrite,
>)
    ensures
        r is None <==> subs@.len() == 0,
        r matches Some(w) ==> (w.keep is Some <==> template is None),
        written(bat@, text::opt_ref(template), r) == after_launch(
            bat@,
            text::opt_ref(template),
            crate::outside::pairs(subs@),
        ),
{
    if subs.len() == 0 {
        return None;
    }
    match template {
        Some(t) => Some(LauncherWrite { bat: fill_placeholders(t, subs), keep: None }),
        None => Some(LauncherWrite { bat: fill_placeholders(bat, subs), keep: Some(copy(bat)) }),
    }
}

/// What a launch of an issue writes. `bat` is the launcher of its series and `template`
/// the text that was kept of it, `raw` what the catalogue says is filled in.
pub fn write_issue_launcher(bat: &str, template: Option<&str>, raw: Option<&str>) -> (r: Result<
    Option<LauncherWrite>,
    String,
>)
    ensures
        match raw {
            Some(t) if text::trim(t@).len() > 0 => match crate::outside::json_pairs(t@) {
                Ok(subs) => r matches Ok(w) && {
                    &&& w is None <==> subs.len() == 0
                    &&& w matches Some(w) ==> (w.keep is Some <==> template is None)
                    &&& written(bat@, text::opt_ref(template), w) == after_launch(
                        bat@,
                        text::opt_ref(template),
                        subs,
                    )
                },
                Err(e) => r matches Err(message) && message@
                    == "Unreadable launcher substitutions: "@ + e,
            },
            _ => r == Ok::<Option<LauncherWrite>, String>(None),
        },
{
    match launcher_substitutions(raw) {
        Ok(subs) => Ok(launcher_write(bat, template, &subs)),
        Err(e) => Err(e),
    }
}

// ── Jobs ─────────────────────────────────────────────────────────────────────

/// Stops a fetch that was broken off.
pub fn check_cancelled(cancel: bool) -> (r: Result<(), String>)
    ensures
        match r {
            Ok(_) => !cancel,
            Err(message) => cancel && message@ == CANCELLED@,
        },
{
    if cancel {
        Err(copy(CANCELLED))
    } else {
        Ok(())
    }
}

/// The fetches, by the key of their issue.
pub struct ReadingState {
    pub jobs: Table<VideoStatus>,
}

impl ReadingState {
    pub open spec fn wf(&self) -> bool {
        self.jobs.wf()
    }

    /// The fetch of an issue.
    pub open spec fn job(&self, key: Seq<char>) -> Option<crate::media::Status> {
        if self.jobs@.contains_key(key) {
            Some(self.jobs@[key]@)
        } else {
            None
        }
    }

    /// Nothing is being fetched.
    pub fn new() -> (r: ReadingState)
        ensures
            r.wf(),
            forall|key: Seq<char>| #[trigger] r.job(key) is None,
    {
        ReadingState { jobs: Table::new() }
    }

    /// The fetch of an issue.
    pub fn status(&self, key: &str) -> (r: Option<&VideoStatus>)
        requires
            self.wf(),
        ensures
            match r {
                Some(status) => self.job(key@) == Some(status@),
                None => self.job(key@) is None,
            },
    {
        self.jobs.get(key)
    }

    /// Begins a fetch. Where one is going on for the issue, that one is joined and no
    /// other begun: two would write the same file. The flag says whether a fetch was
    /// begun.
    pub fn spawn_job(&mut self, key: &str, total_bytes: u64) -> (r: (VideoStatus, bool))
        requires
            old(self).wf(),
        ensures
            final(self).wf(),
            match old(self).job(key@) {
                Some(job) if job.phase == "fetching"@ => {
                    &&& !r.1
                    &&& r.0@ == job
                    &&& *final(self) == *old(self)
                },
                _ => {
                    &&& r.1
                    &&& r.0@ == (crate::media::Status {
                        total_bytes,
                        ..crate::media::bare_status("fetching"@)
                    })
                    &&& forall|k: Seq<char>| #[trigger]
                        final(self).job(k) == if k == key@ {
                            Some(r.0@)
                        } else {
                            old(self).job(k)
                        }
                },
            },
    {
        if let Some(job) = self.jobs.get(key) {
            if same(job.phase.as_str(), "fetching") {
                return (job.duplicate(), false);
            }
        }
        let mut status = VideoStatus::phase("fetching");
        status.total_bytes = total_bytes;
        self.jobs.insert(key, status.duplicate());
        (status, true)
    }

    /// Takes in how a fetch ended: the document's path, or an error. One that was
    /// broken off is forgotten, and so is one that was forgotten meanwhile.
    pub fn settle(&mut self, key: &str, result: &Result<String, String>)
        requires
            old(self).wf(),
        ensures
            final(self).wf(),
            forall|k: Seq<char>| #[trigger]
                final(self).job(k) == match (old(self).job(k), result) {
                    (Some(job), Ok(path)) if k == key@ => Some(
                        crate::media::Status {
                            path: Some(path@),
                            ..crate::media::bare_status("ready"@)
                        },
                    ),
                    (Some(job), Err(e)) if k == key@ => if e@ == CANCELLED@ {
                        None
                    } else {
                        Some(crate::media::Status { phase: "error"@, error: Some(e@), ..job })
                    },
                    (other, _) => other,
                },
    {
        let ghost was = self.jobs@;
        if let Some(mut job) = self.jobs.remove(key) {
            match result {
                Ok(path) => {
                    self.jobs.insert(key, VideoStatus::ready(path.as_str()));
                },
                Err(e) => if !same(e.as_str(), CANCELLED) {
                    job.phase = copy("error");
                    job.error = Some(copy(e.as_str()));
                    self.jobs.insert(key, job);
                },
            }
        }
        assert(forall|k: Seq<char>| k != key@ ==> (#[trigger] self.jobs@.contains_key(k)
            <==> was.contains_key(k)));
    }

    /// Forgets a fetch.
    pub fn forget(&mut self, key: &str)
        requires
            old(self).wf(),
        ensures
            final(self).wf(),
            forall|k: Seq<char>| #[trigger]
                final(self).job(k) == if k == key@ {
                    None
                } else {
                    old(self).job(k)
                },
    {
        let ghost was = self.jobs@;
        self.jobs.remove(key);
        assert(forall|k: Seq<char>| k != key@ ==> (#[trigger] self.jobs@.contains_key(k)
            <==> was.contains_key(k)));
    }
}

// ── Archives ─────────────────────────────────────────────────────────────────

/// An entry of an archive's directory.
pub struct ZipEntry {
    pub name: String,
    pub compressed_size: u64,
    pub uncompressed_size: u64,
    pub method: u16,
    pub local_header_offset: u64,
}

/// The first entry with this name, at `i` or later.
pub open spec fn entry_from(entries: Seq<ZipEntry>, name: Seq<char>, i: int) -> Option<int>
    decreases entries.len() - i,
{
    if i >= entries.len() {
        None
    } else if entries[i].name@ == name {
        Some(i)
    } else {
        entry_from(entries, name, i + 1)
    }
}

fn find_entry(entries: &Vec<ZipEntry>, name: &str) -> (r: Option<usize>)
    ensures
        match r {
            Some(i) => i < entries@.len() && entry_from(entries@, name@, 0) == Some(i as int),
            None => entry_from(entries@, name@, 0) is None,
        },
{
    let mut i: usize = 0;
    while i < entries.len()
        invariant
            i <= entries@.len(),
            entry_from(entries@, name@, i as int) == entry_from(entries@, name@, 0),
        decreases entries@.len() - i,
    {
        if same(entries[i].name.as_str(), name) {
            return Some(i);
        }
        i += 1;
    }
    None
}

/// The document's entry in its archive.
pub fn document_entry<'a>(entries: &'a Vec<ZipEntry>, entry_path: &str, archive_path: &str) -> (r:
    Result<&'a ZipEntry, String>)
    ensures
        match r {
            Ok(e) => entry_from(entries@, entry_path@, 0) is Some && *e == entries@[entry_from(
                entries@,
                entry_path@,
                0,
            )->0],
            Err(message) => entry_from(entries@, entry_path@, 0) is None && message@ == entry_path@
                + " is not in "@ + archive_path@,
        },
{
    match find_entry(entries, entry_path) {
        Some(i) => Ok(&entries[i]),
        None => Err(cat3(entry_path, " is not in ", archive_path)),
    }
}

/// The entry that an archive inside an archive is read through. Only an entry that
/// is stored as it is can be read in place.
pub fn inner_window<'a>(outer: &'a Vec<ZipEntry>, name: &str) -> (r: Result<&'a ZipEntry, String>)
    ensures
        match r {
            Ok(e) => {
                &&& entry_from(outer@, name@, 0) is Some
                &&& *e == outer@[entry_from(outer@, name@, 0)->0]
                &&& e.method == 0
            },
            Err(message) => match entry_from(outer@, name@, 0) {
                Some(i) => outer@[i].method != 0 && message@ == name@
                    + " is not stored and cannot be read as a window"@,
                None => message@ == name@ + " is not in the archive"@,
            },
        },
{
    match find_entry(outer, name) {
        Some(i) => if outer[i].method == 0 {
            Ok(&outer[i])
        } else {
            Err(cat(name, " is not stored and cannot be read as a window"))
        },
        None => Err(cat(name, " is not in the archive")),
    }
}

/// What an archive's directory is remembered under.
pub open spec fn directory_key_of(archive_path: Seq<char>, inner: Option<Seq<char>>) -> Seq<char> {
    match inner {
        Some(name) => archive_path + "#"@ + name,
        None => archive_path,
    }
}

/// What an archive's directory is remembered under.
pub fn directory_key(archive_path: &str, inner: Option<&str>) -> (r: String)
    ensures
        r@ == directory_key_of(archive_path@, text::opt_ref(inner)),
{
    match inner {
        Some(name) => cat3(archive_path, "#", name),
        None => copy(archive_path),
    }
}

/// A name lies directly in a directory.
pub open spec fn lies_directly(name: Seq<char>, dir: Seq<char>) -> bool {
    match text::strip_prefix(name, text::strip_back(dir, '/') + "/"@) {
        Some(rest) => rest.len() > 0 && !rest.contains('/'),
        None => false,
    }
}

/// The names of the first `n` entries that lie directly in a directory.
pub open spec fn direct_names(entries: Seq<ZipEntry>, dir: Seq<char>, n: int) -> Seq<Seq<char>>
    decreases n,
{
    if n <= 0 {
        Seq::<Seq<char>>::empty()
    } else if lies_directly(entries[n - 1].name@, dir) {
        direct_names(entries, dir, n - 1).push(entries[n - 1].name@)
    } else {
        direct_names(entries, dir, n - 1)
    }
}

/// The names of entries that lie directly in the first `n` directories.
pub open spec fn shallow_names(entries: Seq<ZipEntry>, dirs: Seq<Seq<char>>, n: int) -> Seq<Seq<char>>
    decreases n,
{
    if n <= 0 {
        Seq::<Seq<char>>::empty()
    } else {
        shallow_names(entries, dirs, n - 1) + direct_names(
            entries,
            dirs[n - 1],
            entries.len() as int,
        )
    }
}

fn has_slash(s: &[char]) -> (r: bool)
    ensures
        r == s@.contains('/'),
{
    match find_char(s, '/', 0) {
        Some(i) => {
            proof {
                text::lemma_char_from(s@, '/', 0);
            }
            true
        },
        None => {
            proof {
                text::lemma_char_from(s@, '/', 0);
            }
            false
        },
    }
}

fn push_direct(out: &mut Vec<String>, entries: &Vec<ZipEntry>, dir: &str)
    ensures
        text::texts(final(out)@) == text::texts(old(out)@) + direct_names(
            entries@,
            dir@,
            entries@.len() as int,
        ),
{
    let ghost before = text::texts(out@);
    let chars = chars_of(dir);
    let prefix = cat(string_of(drop_back(chars.as_slice(), '/')).as_str(), "/");
    let mut i: usize = 0;
    assert(text::texts(out@) =~= before + direct_names(entries@, dir@, 0));
    while i < entries.len()
        invariant
            i <= entries@.len(),
            prefix@ == text::strip_back(dir@, '/') + "/"@,
            text::texts(out@) == before + direct_names(entries@, dir@, i as int),
        decreases entries@.len() - i,
    {
        let name = chars_of(entries[i].name.as_str());
        let direct = match after_prefix(name.as_slice(), prefix.as_str()) {
            Some(rest) => rest.len() > 0 && !has_slash(rest),
            None => false,
        };
        assert(direct == lies_directly(entries@[i as int].name@, dir@));
        if direct {
            let ghost done = text::texts(out@);
            out.push(copy(entries[i].name.as_str()));
            assert(text::texts(out@) =~= done.push(entries@[i as int].name@));
            assert(text::texts(out@) =~= before + direct_names(entries@, dir@, i + 1));
        }
        i += 1;
    }
}

/// The files that are taken by name: those that were asked for, and those that lie
/// directly in the shared directories.
pub fn subtree_files(entries: &Vec<ZipEntry>, files: &Vec<String>, shallow: &Vec<String>) -> (r: Vec<
    String,
>)
    ensures
        text::texts(r@) == text::texts(files@) + shallow_names(
            entries@,
            text::texts(shallow@),
            shallow@.len() as int,
        ),
{
    let mut out = copy_texts(files);
    let ghost dirs = text::texts(shallow@);
    let mut i: usize = 0;
    assert(text::texts(out@) =~= text::texts(files@) + shallow_names(entries@, dirs, 0));
    while i < shallow.len()
        invariant
            i <= shallow@.len(),
            dirs == text::texts(shallow@),
            text::texts(out@) == text::texts(files@) + shallow_names(entries@, dirs, i as int),
        decreases shallow@.len() - i,
    {
        assert(dirs[i as int] == shallow@[i as int]@);
        push_direct(&mut out, entries, shallow[i].as_str());
        assert(text::texts(out@) =~= text::texts(files@) + shallow_names(entries@, dirs, i + 1));
        i += 1;
    }
    out
}

/// What to do when an archive cannot be opened for reading.
pub enum StreamStep {
    /// The torrent has only just joined the session: try again.
    Wait,
    Fail(String),
}

/// What to do when an archive cannot be opened for reading. A torrent that has just
/// joined the session is given some time.
pub fn stream_step(error: &str, in_time: bool) -> (r: StreamStep)
    ensures
        match r {
            StreamStep::Wait => text::has(error@, "initializing"@) && in_time,
            StreamStep::Fail(message) => !(text::has(error@, "initializing"@) && in_time) && message@
                == "Could not open the archive stream: "@ + error@,
        },
{
    if has_str(chars_of(error).as_slice(), "initializing") && in_time {
        StreamStep::Wait
    } else {
        StreamStep::Fail(cat("Could not open the archive stream: ", error))
    }
}

/// An archive's directory, and where in the file its bytes lie.
pub struct ArchiveDirectory {
    pub entries: Vec<ZipEntry>,
    pub base: u64,
    pub len: u64,
}

/// What is needed before the entries of an archive can be read.
pub enum DirectoryNeed {
    /// Nothing: its directory is known.
    Known,
    /// The directory of the outer archive.
    Outer,
    /// Where the bytes of the entry at a place begin.
    Offset(int),
    /// The directory of the archive in a window.
    Inner { base: int, len: int },
    /// The archive cannot be read.
    Refused(Seq<char>),
}

/// What is needed before the entries of an archive can be read.
pub open spec fn directory_need(
    known: Map<Seq<char>, ArchiveDirectory>,
    archive_path: Seq<char>,
    inner: Option<Seq<char>>,
    base: Option<u64>,
) -> DirectoryNeed {
    if known.contains_key(directory_key_of(archive_path, inner)) {
        DirectoryNeed::Known
    } else if inner is None || !known.contains_key(archive_path) {
        DirectoryNeed::Outer
    } else {
        let entries = known[archive_path].entries@;
        match entry_from(entries, inner->0, 0) {
            Some(i) => if entries[i].method != 0 {
                DirectoryNeed::Refused(inner->0 + " is not stored and cannot be read as a window"@)
            } else if base is None {
                DirectoryNeed::Offset(i)
            } else {
                DirectoryNeed::Inner { base: base->0 as int, len: entries[i].uncompressed_size as int }
            },
            None => DirectoryNeed::Refused(inner->0 + " is not in the archive"@),
        }
    }
}

/// What to read next of an archive.
pub enum DirectoryStep {
    /// Its directory is known.
    Ready,
    /// The directory of the outer archive.
    ReadOuter,
    /// Where the bytes of this entry of the outer archive begin.
    Locate { place: usize },
    /// The directory of the archive in this window.
    ReadInner { base: u64, len: u64 },
}

/// The archives' directories that were read, by what they are remembered under.
pub struct DirectoryCache {
    pub directories: Table<ArchiveDirectory>,
}

impl DirectoryCache {
    pub open spec fn wf(&self) -> bool {
        self.directories.wf()
    }

    /// No directory was read.
    pub fn new() -> (r: DirectoryCache)
        ensures
            r.wf(),
            r.directories@ == Map::<Seq<char>, ArchiveDirectory>::empty(),
    {
        DirectoryCache { directories: Table::new() }
    }

    /// The directory of an archive.
    pub fn directory(&self, archive_path: &str, inner: Option<&str>) -> (r: Option<
        &ArchiveDirectory,
    >)
        requires
            self.wf(),
        ensures
            match r {
                Some(dir) => {
                    let key = directory_key_of(archive_path@, text::opt_ref(inner));
                    self.directories@.contains_key(key) && *dir == self.directories@[key]
                },
                None => !self.directories@.contains_key(
                    directory_key_of(archive_path@, text::opt_ref(inner)),
                ),
            },
    {
        let key = directory_key(archive_path, inner);
        self.directories.get(key.as_str())
    }

    /// What to read next of an archive. A directory is read once: that of the outer
    /// archive serves every archive inside it. `base` says where the bytes of the
    /// inner archive begin, once that is known.
    pub fn archive_directory(&self, archive_path: &str, inner: Option<&str>, base: Option<u64>) -> (r:
        Result<DirectoryStep, String>)
        requires
            self.wf(),
        ensures
            match (
                directory_need(self.directories@, archive_path@, text::opt_ref(inner), base),
                r,
            ) {
                (DirectoryNeed::Known, Ok(DirectoryStep::Ready)) => true,
                (DirectoryNeed::Outer, Ok(DirectoryStep::ReadOuter)) => true,
                (DirectoryNeed::Offset(i), Ok(DirectoryStep::Locate { place })) => place == i,
                (
                    DirectoryNeed::Inner { base: b, len: n },
                    Ok(DirectoryStep::ReadInner { base, len }),
                ) => base == b && len == n,
                (DirectoryNeed::Refused(said), Err(message)) => message@ == said,
                _ => false,
            },
    {
        if self.directory(archive_path, inner).is_some() {
            return Ok(DirectoryStep::Ready);
        }
        let name = match inner {
            Some(name) => name,
            None => {
                return Ok(DirectoryStep::ReadOuter);
            },
        };
        let outer = match self.directory(archive_path, None) {
            Some(outer) => outer,
            None => {
                return Ok(DirectoryStep::ReadOuter);
            },
        };
        let window = inner_window(&outer.entries, name)?;
        match base {
            Some(base) => Ok(DirectoryStep::ReadInner { base, len: window.uncompressed_size }),
            None => match find_entry(&outer.entries, name) {
                Some(place) => Ok(DirectoryStep::Locate { place }),
                None => Err(cat(name, " is not in the archive")),
            },
        }
    }

    /// Keeps the directory of an outer archive. Its bytes are the whole file.
    pub fn keep_outer(&mut self, archive_path: &str, entries: Vec<ZipEntry>, size: u64)
        requires
            old(self).wf(),
        ensures
            final(self).wf(),
            final(self).directories@ == old(self).directories@.insert(
                archive_path@,
                ArchiveDirectory { entries, base: 0, len: size },
            ),
    {
        self.directories.insert(archive_path, ArchiveDirectory { entries, base: 0, len: size });
    }

    /// Keeps the directory of an archive inside another one, which was read in a
    /// window.
    pub fn keep_inner(
        &mut self,
        archive_path: &str,
        name: &str,
        entries: Vec<ZipEntry>,
        base: u64,
        len: u64,
    )
        requires
            old(self).wf(),
        ensures
            final(self).wf(),
            final(self).directories@ == old(self).directories@.insert(
                directory_key_of(archive_path@, Some(name@)),
                ArchiveDirectory { entries, base, len },
            ),
    {
        let key = directory_key(archive_path, Some(name));
        self.directories.insert(key.as_str(), ArchiveDirectory { entries, base, len });
    }
}

/// What is said of an inner archive whose bytes were not found.
pub fn locate_fault(name: &str, fault: &ReadFault) -> (r: String)
    ensures
        r@ == match fault {
            ReadFault::TimedOut => "timed out locating "@ + name@,
            ReadFault::Failed(e) => e@,
        },
{
    match fault {
        ReadFault::TimedOut => cat("timed out locating ", name),
        ReadFault::Failed(e) => copy(e.as_str()),
    }
}

/// What is said of an issue that was not fetched.
pub fn issue_fault(fault: &ReadFault) -> (r: String)
    ensures
        r@ == match fault {
            ReadFault::TimedOut => "timed out fetching the issue"@,
            ReadFault::Failed(e) => crate::media::read_text(e@),
        },
{
    match fault {
        ReadFault::TimedOut => copy("timed out fetching the issue"),
        ReadFault::Failed(e) => read_failure(e.as_str()),
    }
}

/// What an install that was broken off is to take back.
pub struct PartialInstall {
    /// The directories of the issue alone.
    pub dirs: Vec<String>,
    /// What is half written beside the files of the series.
    pub files: Vec<String>,
}

/// What an install that was broken off is to take back: the issue's own directories,
/// and of what its series shares only what is half written. `series_files` lists the
/// files of the series' directories.
pub fn discard_partial_subtree(
    root: &str,
    issue_dirs: &Vec<String>,
    series_files: &Vec<String>,
) -> (r: PartialInstall)
    ensures
        text::texts(r.dirs@) == Seq::new(
            issue_dirs@.len(),
            |i: int| crate::fspath::joined(root@, issue_dirs@[i]@),
        ),
        text::texts(r.files@) == text::texts(series_files@).filter(
            |path: Seq<char>| ".exodium-part"@.is_suffix_of(path),
        ),
{
    let ghost shards = |path: Seq<char>| ".exodium-part"@.is_suffix_of(path);
    let ghost all = text::texts(series_files@);
    let mut dirs: Vec<String> = Vec::new();
    let mut i: usize = 0;
    while i < issue_dirs.len()
        invariant
            i <= issue_dirs@.len(),
            text::texts(dirs@) =~= Seq::new(
                i as nat,
                |k: int| crate::fspath::joined(root@, issue_dirs@[k]@),
            ),
        decreases issue_dirs@.len() - i,
    {
        let ghost done = text::texts(dirs@);
        let place = join_path(root, issue_dirs[i].as_str());
        let ghost p = place@;
        dirs.push(place);
        assert(text::texts(dirs@) =~= done.push(p));
        i += 1;
    }
    let mut files: Vec<String> = Vec::new();
    let mut k: usize = 0;
    proof {
        reveal(Seq::filter);
        assert(text::texts(files@) =~= all.take(0).filter(shards));
    }
    while k < series_files.len()
        invariant
            k <= series_files@.len(),
            all == text::texts(series_files@),
            shards == (|path: Seq<char>| ".exodium-part"@.is_suffix_of(path)),
            text::texts(files@) == all.take(k as int).filter(shards),
        decreases series_files@.len() - k,
    {
        let ghost done = text::texts(files@);
        let ghost here = all.take(k + 1);
        proof {
            reveal(Seq::filter);
            assert(here.drop_last() =~= all.take(k as int));
            assert(here.last() == series_files@[k as int]@);
        }
        if has_suffix(chars_of(series_files[k].as_str()).as_slice(), ".exodium-part") {
            files.push(copy(series_files[k].as_str()));
            assert(text::texts(files@) =~= done.push(series_files@[k as int]@));
        }
        k += 1;
    }
    assert(all.take(all.len() as int) =~= all);
    PartialInstall { dirs, files }
}

// ── Laws ─────────────────────────────────────────────────────────────────────

/// The directory of an archive inside an archive is remembered apart from that of
/// the outer one.
pub proof fn law_nested_directories_are_kept_apart(archive: Seq<char>, inner: Seq<char>)
    ensures
        directory_key_of(archive, Some(inner)) != directory_key_of(archive, None),
{
    reveal_strlit("#");
    assert(directory_key_of(archive, Some(inner)).len() > archive.len());
}

/// The running guard tells two series apart, and two issues of one series not.
pub proof fn law_running_guard_goes_by_series(a: Seq<char>, b: Seq<char>)
    ensures
        run_key_of(a) == run_key_of(b) <==> a == b,
{
    let n = "issue:"@.len() as int;
    assert(run_key_of(a).skip(n) =~= a);
    assert(run_key_of(b).skip(n) =~= b);
}

/// Every launch starts from the text as it came: after an issue was launched, the next
/// one finds nothing of it in the launcher, and one that nothing is filled in for leaves
/// the launcher alone.
pub proof fn law_every_launch_starts_from_the_template(
    bat: Seq<char>,
    template: Option<Seq<char>>,
    first: Seq<(Seq<char>, Seq<char>)>,
    second: Seq<(Seq<char>, Seq<char>)>,
)
    requires
        first.len() > 0,
    ensures
        ({
            let (now, kept) = after_launch(bat, template, first);
            let came = pristine(bat, template);
            &&& kept == Some(came)
            &&& after_launch(now, kept, second) == (if second.len() == 0 {
                (now, kept)
            } else {
                (filled(came, second, second.len() as int), Some(came))
            })
        }),
{
}

/// A directory that was kept is not read again, and keeping that of an inner archive
/// leaves that of the outer one known.
pub proof fn law_a_directory_is_read_once(
    known: Map<Seq<char>, ArchiveDirectory>,
    archive: Seq<char>,
    inner: Option<Seq<char>>,
    dir: ArchiveDirectory,
    base: Option<u64>,
)
    ensures
        directory_need(known.insert(directory_key_of(archive, inner), dir), archive, inner, base)
            is Known,
        directory_need(known, archive, None, base) is Known ==> directory_need(
            known.insert(directory_key_of(archive, inner), dir),
            archive,
            None,
            base,
        ) is Known,
{
}

/// An archive inside an archive is only ever read through an entry that is stored as
/// it is, and in a window of that entry's size.
pub proof fn law_windows_are_stored_entries(
    known: Map<Seq<char>, ArchiveDirectory>,
    archive: Seq<char>,
    inner: Seq<char>,
    base: Option<u64>,
)
    ensures
        match directory_need(known, archive, Some(inner), base) {
            DirectoryNeed::Inner { len, .. } => exists|i: int|
                {
                    &&& 0 <= i < known[archive].entries@.len()
                    &&& (#[trigger] known[archive].entries@[i]).name@ == inner
                    &&& known[archive].entries@[i].method == 0
                    &&& known[archive].entries@[i].uncompressed_size == len
                },
            _ => true,
        },
{
    lemma_entry_from(known[archive].entries@, inner, 0);
}

proof fn lemma_entry_from(entries: Seq<ZipEntry>, name: Seq<char>, i: int)
    requires
        0 <= i,
    ensures
        entry_from(entries, name, i) matches Some(k) ==> i <= k < entries.len()
            && entries[k].name@ == name,
    decreases entries.len() - i,
{
    if i < entries.len() && entries[i].name@ != name {
        lemma_entry_from(entries, name, i + 1);
    }
}

/// A placeholder of a launcher is filled in where it stands, and all around it stays.
pub proof fn law_placeholders_are_filled(
    before: Seq<char>,
    name: Seq<char>,
    behind: Seq<char>,
    value: Seq<char>,
)
    requires
        name.len() > 0,
        !text::has(behind, name),
        forall|k: int|
            0 <= k < before.len() ==> !text::occurs_at(before + name + behind, name, k),
    ensures
        filled(before + name + behind, seq![(name, value)], 1) == before + value + behind,
{
    let t = before + name + behind;
    text::lemma_replace_first(before, name, behind, value);
    text::lemma_replace_none(behind, name, value);
    reveal_with_fuel(filled, 2);
}

/// A launcher without placeholders stays as it is.
pub proof fn law_a_launcher_without_placeholders_stays(
    t: Seq<char>,
    subs: Seq<(Seq<char>, Seq<char>)>,
    n: int,
)
    requires
        0 <= n <= subs.len(),
        forall|i: int|
            0 <= i < subs.len() ==> (#[trigger] subs[i]).0.len() > 0 && !text::has(t, subs[i].0),
    ensures
        filled(t, subs, n) == t,
    decreases n,
{
    if n > 0 {
        law_a_launcher_without_placeholders_stays(t, subs, n - 1);
        assert(subs[n - 1].0.len() > 0 && !text::has(t, subs[n - 1].0));
        text::lemma_replace_none(t, subs[n - 1].0, subs[n - 1].1);
    }
}

/// Removing an issue of a series takes the directory of the issue alone, and never that of the
/// series, which its other issues need; removing a document takes its file in the cache.
pub proof fn law_a_series_outlives_its_issues(data_dir: Seq<char>, root: Seq<char>, issue: Issue)
    ensures
        issue.runnable && issue.launch_dir is Some && issue.issue_dir is Some ==> issue_place(
            data_dir,
            root,
            issue,
        ) == Some(crate::fspath::joined(root, (issue.issue_dir->0)@)),
        issue.runnable && issue.launch_dir is None ==> issue_place(data_dir, root, issue) is None,
        !issue.runnable ==> issue_place(data_dir, root, issue) == Some(
            crate::fspath::joined(
                crate::fspath::joined(crate::fspath::joined(data_dir, "content"@), "magazinecache"@),
                stem_of(issue.key@) + "."@ + kept_ext(issue),
            ),
        ),
{
}

/// A start clears exactly what was left half written: of the cache the files that end in
/// `part`, and of the magazines those that end in `.exodium-part`.
pub proof fn law_only_half_written_files_go(
    cached: Seq<Seq<char>>,
    magazines: Seq<Seq<char>>,
    path: Seq<char>,
)
    ensures
        partial_files(cached, magazines).contains(path) <==> (cached.contains(path)
            && crate::fspath::extension(path) == Some("part"@)) || (magazines.contains(path)
            && ".exodium-part"@.is_suffix_of(path)),
{
    let parts = |p: Seq<char>| is_part(p);
    let shards = |p: Seq<char>| ".exodium-part"@.is_suffix_of(p);
    lemma_filtered(cached, parts, path);
    lemma_filtered(magazines, shards, path);
    let a = cached.filter(parts);
    let b = magazines.filter(shards);
    let all = a + b;
    if a.contains(path) {
        let w = choose|w: int| 0 <= w < a.len() && a[w] == path;
        assert(all[w] == path);
    }
    if b.contains(path) {
        let w = choose|w: int| 0 <= w < b.len() && b[w] == path;
        assert(all[a.len() + w] == path);
    }
    if all.contains(path) {
        let w = choose|w: int| 0 <= w < all.len() && all[w] == path;
        if w < a.len() {
            assert(a[w] == path);
        } else {
            assert(b[w - a.len()] == path);
        }
    }
}

proof fn lemma_filtered(list: Seq<Seq<char>>, keep: spec_fn(Seq<char>) -> bool, x: Seq<char>)
    ensures
        list.filter(keep).contains(x) <==> list.contains(x) && keep(x),
    decreases list.len(),
{
    reveal(Seq::filter);
    if list.len() > 0 {
        let less = list.drop_last();
        lemma_filtered(less, keep, x);
        let before = less.filter(keep);
        let now = list.filter(keep);
        assert(list.contains(x) <==> less.contains(x) || x == list.last()) by {
            if list.contains(x) {
                let w = choose|w: int| 0 <= w < list.len() && list[w] == x;
                if w < less.len() {
                    assert(less[w] == x);
                }
            }
            if less.contains(x) {
                let w = choose|w: int| 0 <= w < less.len() && less[w] == x;
                assert(list[w] == x);
            }
            assert(list[list.len() - 1] == list.last());
        }
        if keep(list.last()) {
            assert(now == before.push(list.last()));
            if before.contains(x) {
                let w = choose|w: int| 0 <= w < before.len() && before[w] == x;
                assert(now[w] == x);
            }
            assert(now[before.len() as int] == list.last());
            if now.contains(x) {
                let w = choose|w: int| 0 <= w < now.len() && now[w] == x;
                if w < before.len() {
                    assert(before[w] == x);
                }
            }
        }
    }
}

/// An issue that is on disk is shown, also offline; without a session that is told apart from
/// an error; and an issue is fetched only where its torrent has it and the disk has room.
pub proof fn law_when_an_issue_is_fetched(
    issue: Issue,
    facts: IssueFacts,
    place: Seq<char>,
    needed: nat,
    r: Result<IssueStart, String>,
)
    requires
        request_answer(issue, facts, place, needed, r),
    ensures
        facts.there ==> (r matches Ok(IssueStart::Known(status)) && status@.phase == "ready"@
            && status@.path == Some(text::swap_char(place, '\\', '/'))),
        r matches Ok(IssueStart::Fetch { .. }) ==> !facts.there && facts.source
            == SourceState::Ready && facts.archive_known && (facts.free matches Some(free)
            ==> free >= needed),
        !facts.there && facts.source == SourceState::Ready && facts.archive_known && (facts.free
            matches Some(free) ==> free >= needed) ==> r matches Ok(IssueStart::Fetch { .. }),
        !facts.there && facts.source == SourceState::Missing ==> r is Err,
{
}

} // verus!
