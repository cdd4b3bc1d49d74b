//! Running the games of eXoScummVM: which build a game is pinned to, which of its
//! versions is run, and with which options.

use crate::fspath::join_path;
use crate::games::{config_value, ConfigEntry};
use crate::order::order_of_texts;
use crate::text;
use crate::text::{
    borrow, cat, cat3, chars_of, copy, copy_texts, cut_once, drop_back, find_char, has_prefix,
    head, is_one_of, join_texts, lines_of, rcut_once, same, same_chars, split_on, string_of,
    to_lower, to_small, trim_of, words_of,
};
use vstd::prelude::*;

verus! {

// ── Builds ───────────────────────────────────────────────────────────────────

/// A build that games are pinned to: the name of its directory, and its version.
pub struct Build {
    pub slug: &'static str,
    pub version: &'static str,
}

/// The builds, as texts.
pub open spec fn all_builds() -> Seq<(Seq<char>, Seq<char>)> {
    seq![
        ("default"@, "2.8.0"@),
        ("2.5"@, "2.5.0"@),
        ("2.9.0"@, "2.9.0"@),
        ("2026.1.0"@, "2026.1.0"@),
        ("svn2.3_18903"@, "2.3.0git18903-g313a824fb9"@),
        ("svn2.8_9335"@, "2.8.0git9335-g00e72a17004"@),
        ("svn3.0.0git19492"@, "3.0.0git20192-g3ca9da6a1c3"@),
    ]
}

/// The builds. The plain one has no directory of its own.
pub fn builds() -> (r: Vec<Build>)
    ensures
        r@.len() == all_builds().len(),
        forall|i: int|
            0 <= i < r@.len() ==> ((#[trigger] r@[i]).slug@, r@[i].version@) == all_builds()[i],
{
    vec![
        Build { slug: "default", version: "2.8.0" },
        Build { slug: "2.5", version: "2.5.0" },
        Build { slug: "2.9.0", version: "2.9.0" },
        Build { slug: "2026.1.0", version: "2026.1.0" },
        Build { slug: "svn2.3_18903", version: "2.3.0git18903-g313a824fb9" },
        Build { slug: "svn2.8_9335", version: "2.8.0git9335-g00e72a17004" },
        Build { slug: "svn3.0.0git19492", version: "3.0.0git20192-g3ca9da6a1c3" },
    ]
}

/// The version of the first build, `i` or later, with this slug.
pub open spec fn version_from(slug: Seq<char>, i: int) -> Seq<char>
    decreases all_builds().len() - i,
{
    if i >= all_builds().len() {
        "unknown"@
    } else if all_builds()[i].0 == slug {
        all_builds()[i].1
    } else {
        version_from(slug, i + 1)
    }
}

/// The version that a build holds.
pub fn build_version(slug: &str) -> (r: &'static str)
    ensures
        r@ == version_from(slug@, 0),
{
    let list = builds();
    let mut i: usize = 0;
    while i < list.len()
        invariant
            i <= list@.len(),
            list@.len() == all_builds().len(),
            forall|k: int|
                0 <= k < list@.len() ==> ((#[trigger] list@[k]).slug@, list@[k].version@)
                    == all_builds()[k],
            version_from(slug@, i as int) == version_from(slug@, 0),
        decreases list@.len() - i,
    {
        assert((list@[i as int].slug@, list@[i as int].version@) == all_builds()[i as int]);
        if same(list[i].slug, slug) {
            return list[i].version;
        }
        i += 1;
    }
    "unknown"
}

/// A version that there is a pack for.
pub open spec fn is_release(version: Seq<char>) -> bool {
    version == "2.5.0"@ || version == "2.8.0"@ || version == "2.9.0"@ || version == "2026.1.0"@
}

/// The pack that serves a build: that of its own version, or of the nearest release
/// for a snapshot.
pub open spec fn pack_version_of(slug: Seq<char>) -> Seq<char> {
    if slug == "svn2.3_18903"@ {
        "2.5.0"@
    } else if slug == "svn2.8_9335"@ {
        "2.8.0"@
    } else if slug == "svn3.0.0git19492"@ {
        "2026.1.0"@
    } else if is_release(version_from(slug, 0)) {
        version_from(slug, 0)
    } else {
        "2.9.0"@
    }
}

/// The version of the pack that serves a build.
pub fn pack_version(slug: &str) -> (r: &'static str)
    ensures
        r@ == pack_version_of(slug@),
        is_release(r@),
{
    if same(slug, "svn2.3_18903") {
        "2.5.0"
    } else if same(slug, "svn2.8_9335") {
        "2.8.0"
    } else if same(slug, "svn3.0.0git19492") {
        "2026.1.0"
    } else {
        let v = build_version(slug);
        if same(v, "2.5.0") || same(v, "2.8.0") || same(v, "2.9.0") || same(v, "2026.1.0") {
            v
        } else {
            "2.9.0"
        }
    }
}

/// The id of the pack that serves a build.
pub fn pack_id(slug: &str) -> (r: String)
    ensures
        r@ == "scummvm-"@ + pack_version_of(slug@),
{
    cat("scummvm-", pack_version(slug))
}

// ── The index ────────────────────────────────────────────────────────────────

/// A line of the launch index.
pub struct IndexEntry {
    /// The directory that the game runs from.
    pub dir: String,
    pub game_id: String,
    /// The slug of the build.
    pub build: String,
}

/// What a line of the index says: a directory, a game and a program, between
/// semicolons.
pub open spec fn index_line(line: Seq<char>) -> Option<(Seq<char>, Seq<char>, Seq<char>)> {
    match text::split_once(text::strip_back(line, '\r'), ';') {
        None => None,
        Some((dir, rest)) => match text::split_once(rest, ';') {
            None => None,
            Some((game_id, exe)) => if text::trim(dir).len() == 0 || text::trim(game_id).len() == 0 {
                None
            } else {
                Some(
                    (
                        text::trim(dir),
                        text::trim(game_id),
                        match text::rsplit_once(text::trim(exe), '\\') {
                            Some((build, _)) => build,
                            None => "default"@,
                        },
                    ),
                )
            },
        },
    }
}

/// What the first `n` lines of the index say.
pub open spec fn index_lines(list: Seq<Seq<char>>, n: int) -> Seq<(Seq<char>, Seq<char>, Seq<char>)>
    decreases n,
{
    if n <= 0 {
        Seq::<(Seq<char>, Seq<char>, Seq<char>)>::empty()
    } else {
        match index_line(list[n - 1]) {
            Some(e) => index_lines(list, n - 1).push(e),
            None => index_lines(list, n - 1),
        }
    }
}

/// The views of entries.
pub open spec fn entry_views(v: Seq<IndexEntry>) -> Seq<(Seq<char>, Seq<char>, Seq<char>)> {
    Seq::new(v.len(), |i: int| (v[i].dir@, v[i].game_id@, v[i].build@))
}

fn parse_line(line: &str) -> (r: Option<IndexEntry>)
    ensures
        match r {
            Some(e) => index_line(line@) == Some((e.dir@, e.game_id@, e.build@)),
            None => index_line(line@) is None,
        },
{
    let chars = chars_of(line);
    let whole = drop_back(chars.as_slice(), '\r');
    let (dir, rest) = match cut_once(whole, ';') {
        Some(p) => p,
        None => {
            return None;
        },
    };
    let (game_id, exe) = match cut_once(rest, ';') {
        Some(p) => p,
        None => {
            return None;
        },
    };
    let dir = trim_of(dir);
    let game_id = trim_of(game_id);
    if dir.len() == 0 || game_id.len() == 0 {
        return None;
    }
    let build = match rcut_once(trim_of(exe), '\\') {
        Some((d, _)) => string_of(d),
        None => copy("default"),
    };
    Some(IndexEntry { dir: string_of(dir), game_id: string_of(game_id), build })
}

/// Reads the launch index. A line that does not name a directory, a game and a program
/// says nothing.
pub fn parse_index(content: &str) -> (r: Vec<IndexEntry>)
    ensures
        entry_views(r@) == index_lines(text::lines(content@), text::lines(content@).len() as int),
{
    let list = lines_of(content);
    let ghost all = text::texts(list@);
    let mut out: Vec<IndexEntry> = Vec::new();
    let mut i: usize = 0;
    assert(entry_views(out@) =~= index_lines(all, 0));
    while i < list.len()
        invariant
            i <= list@.len(),
            all == text::texts(list@),
            entry_views(out@) == index_lines(all, i as int),
        decreases list@.len() - i,
    {
        assert(all[i as int] == list@[i as int]@);
        if let Some(e) = parse_line(list[i].as_str()) {
            let ghost done = entry_views(out@);
            let ghost view = (e.dir@, e.game_id@, e.build@);
            out.push(e);
            assert(entry_views(out@) =~= done.push(view));
        }
        i += 1;
    }
    assert(all.len() == list@.len());
    out
}

/// A directory of the index is this name, capitals aside; or merely begins with it.
pub open spec fn dir_fits(dir: Seq<char>, name: Seq<char>, whole: bool) -> bool {
    if whole {
        text::lower(dir) == text::lower(name)
    } else {
        name.len() <= dir.len() && text::lower(dir.take(name.len() as int)) == text::lower(name)
    }
}

/// The first entry, `i` or later, that fits a name.
pub open spec fn fitting_from(
    index: Seq<IndexEntry>,
    name: Seq<char>,
    whole: bool,
    i: int,
) -> Option<int>
    decreases index.len() - i,
{
    if i >= index.len() {
        None
    } else if dir_fits(index[i].dir@, name, whole) {
        Some(i)
    } else {
        fitting_from(index, name, whole, i + 1)
    }
}

/// The entry for the first of some names, `k` or later, that has one.
pub open spec fn named_from(
    index: Seq<IndexEntry>,
    names: Seq<Seq<char>>,
    whole: bool,
    k: int,
) -> Option<int>
    decreases names.len() - k,
{
    if k >= names.len() {
        None
    } else {
        match fitting_from(index, names[k], whole, 0) {
            Some(i) => Some(i),
            None => named_from(index, names, whole, k + 1),
        }
    }
}

/// The entry for a game: that of the first name that is a directory of the index, and
/// else that of the first name that a directory begins with.
pub open spec fn entry_for(index: Seq<IndexEntry>, names: Seq<Seq<char>>) -> Option<int> {
    match named_from(index, names, true, 0) {
        Some(i) => Some(i),
        None => named_from(index, names, false, 0),
    }
}

fn fits(dir: &str, name: &str, whole: bool) -> (r: bool)
    ensures
        r == dir_fits(dir@, name@, whole),
{
    let d = chars_of(dir);
    let n = chars_of(name);
    let low = to_lower(n.as_slice());
    if whole {
        let all = to_lower(d.as_slice());
        same_chars(all.as_slice(), low.as_slice())
    } else if n.len() <= d.len() {
        let front = to_lower(head(d.as_slice(), n.len()));
        same_chars(front.as_slice(), low.as_slice())
    } else {
        false
    }
}

fn find_fitting(index: &Vec<IndexEntry>, name: &str, whole: bool) -> (r: Option<usize>)
    ensures
        match r {
            Some(i) => i < index@.len() && fitting_from(index@, name@, whole, 0) == Some(i as int),
            None => fitting_from(index@, name@, whole, 0) is None,
        },
{
    let mut i: usize = 0;
    while i < index.len()
        invariant
            i <= index@.len(),
            fitting_from(index@, name@, whole, i as int) == fitting_from(index@, name@, whole, 0),
        decreases index@.len() - i,
    {
        if fits(index[i].dir.as_str(), name, whole) {
            return Some(i);
        }
        i += 1;
    }
    None
}

fn find_named(index: &Vec<IndexEntry>, names: &Vec<String>, whole: bool) -> (r: Option<usize>)
    ensures
        match r {
            Some(i) => i < index@.len() && named_from(index@, text::texts(names@), whole, 0) == Some(
                i as int,
            ),
            None => named_from(index@, text::texts(names@), whole, 0) is None,
        },
{
    let ghost all = text::texts(names@);
    let mut k: usize = 0;
    while k < names.len()
        invariant
            k <= names@.len(),
            all == text::texts(names@),
            named_from(index@, all, whole, k as int) == named_from(index@, all, whole, 0),
        decreases names@.len() - k,
    {
        assert(all[k as int] == names@[k as int]@);
        if let Some(i) = find_fitting(index, names[k].as_str(), whole) {
            return Some(i);
        }
        k += 1;
    }
    None
}

/// The entry of the index for a game. `names` are the directories that were chosen, the
/// innermost first.
pub fn lookup<'a>(index: &'a Vec<IndexEntry>, names: &Vec<String>) -> (r: Option<&'a IndexEntry>)
    ensures
        match (r, entry_for(index@, text::texts(names@))) {
            (Some(e), Some(i)) => 0 <= i < index@.len() && *e == index@[i],
            (None, None) => true,
            _ => false,
        },
{
    if let Some(i) = find_named(index, names, true) {
        return Some(&index[i]);
    }
    match find_named(index, names, false) {
        Some(i) => Some(&index[i]),
        None => None,
    }
}

/// What is said of a game that the index does not have.
pub fn not_indexed(title: &str, names: &Vec<String>) -> (r: String)
    ensures
        r@ == "'"@ + title@ + "' is not in eXo's ScummVM launch index ("@ + text::join(
            text::texts(names@),
            " / "@,
        ) + ")."@,
{
    let head = cat3("'", title, "' is not in eXo's ScummVM launch index (");
    cat3(head.as_str(), join_texts(names, " / ").as_str(), ").")
}

// ── Platforms ────────────────────────────────────────────────────────────────

/// ScummVM's code for a platform that a control file names in small letters.
pub open spec fn code_of(name: Seq<char>) -> Option<Seq<char>> {
    if name == "dos"@ || name == "pc"@ {
        Some("pc"@)
    } else if name == "amiga"@ {
        Some("amiga"@)
    } else if name == "atari"@ || name == "st"@ || name == "atari-st"@ || name == "atarist"@ {
        Some("atari"@)
    } else if name == "c64"@ {
        Some("c64"@)
    } else if name == "nes"@ {
        Some("nes"@)
    } else if name == "sp48"@ || name == "spectrum"@ || name == "zx"@ || name == "zxspectrum"@ {
        Some("zx"@)
    } else if name == "mac"@ || name == "macintosh"@ {
        Some("macintosh"@)
    } else if name == "win"@ || name == "windows"@ {
        Some("windows"@)
    } else if name == "fmtowns"@ || name == "towns"@ {
        Some("fmtowns"@)
    } else if name == "pc98"@ {
        Some("pc98"@)
    } else if name == "pce"@ || name == "pcengine"@ {
        Some("pce"@)
    } else if name == "segacd"@ || name == "sega"@ {
        Some("segacd"@)
    } else if name == "3do"@ {
        Some("3do"@)
    } else if name == "cdi"@ {
        Some("cdi"@)
    } else if name == "apple2"@ {
        Some("apple2"@)
    } else if name == "apple2gs"@ || name == "2gs"@ {
        Some("2gs"@)
    } else if name == "psx"@ || name == "playstation"@ {
        Some("playstation"@)
    } else if name == "linux"@ {
        Some("linux"@)
    } else if name == "os2"@ {
        Some("os2"@)
    } else {
        None
    }
}

/// ScummVM's code for a platform that a control file names. ScummVM refuses a code that
/// it does not know, so an unknown name stands for none.
pub fn scummvm_platform_code(exo: &str) -> (r: Option<&'static str>)
    ensures
        text::opt_ref(r) == code_of(text::lower(text::trim(exo@))),
{
    let chars = chars_of(exo);
    let low = to_lower(trim_of(chars.as_slice()));
    let name = string_of(low.as_slice());
    let n = name.as_str();
    if same(n, "dos") || same(n, "pc") {
        Some("pc")
    } else if same(n, "amiga") {
        Some("amiga")
    } else if same(n, "atari") || same(n, "st") || same(n, "atari-st") || same(n, "atarist") {
        Some("atari")
    } else if same(n, "c64") {
        Some("c64")
    } else if same(n, "nes") {
        Some("nes")
    } else if same(n, "sp48") || same(n, "spectrum") || same(n, "zx") || same(n, "zxspectrum") {
        Some("zx")
    } else if same(n, "mac") || same(n, "macintosh") {
        Some("macintosh")
    } else if same(n, "win") || same(n, "windows") {
        Some("windows")
    } else if same(n, "fmtowns") || same(n, "towns") {
        Some("fmtowns")
    } else if same(n, "pc98") {
        Some("pc98")
    } else if same(n, "pce") || same(n, "pcengine") {
        Some("pce")
    } else if same(n, "segacd") || same(n, "sega") {
        Some("segacd")
    } else if same(n, "3do") {
        Some("3do")
    } else if same(n, "cdi") {
        Some("cdi")
    } else if same(n, "apple2") {
        Some("apple2")
    } else if same(n, "apple2gs") || same(n, "2gs") {
        Some("2gs")
    } else if same(n, "psx") || same(n, "playstation") {
        Some("playstation")
    } else if same(n, "linux") {
        Some("linux")
    } else if same(n, "os2") {
        Some("os2")
    } else {
        None
    }
}

// ── Which ScummVM ────────────────────────────────────────────────────────────

/// The upstream Flatpak.
pub const FLATPAK_ID: &'static str = "org.scummvm.ScummVM";

/// What the program runs on.
#[derive(Clone, Copy, PartialEq, Eq, Structural)]
pub enum Os {
    Windows,
    Mac,
    Linux,
}

/// Where a ScummVM was found.
#[derive(Clone, Copy, PartialEq, Eq, Structural)]
pub enum EngineSource {
    /// The build that comes with the collection.
    Exo,
    /// The pack for the build.
    Pack,
    /// One on the search path, of whatever version.
    Path,
    /// The upstream Flatpak.
    Flatpak,
}

/// What is there of the builds.
pub struct EngineFacts {
    /// The build that comes with the collection.
    pub exe_there: bool,
    /// The pack of the very version.
    pub own_pack: bool,
    /// The pack that serves the build.
    pub serving_pack: bool,
    /// The pack that serves the build can be installed.
    pub installable: bool,
    pub on_path: bool,
    pub flatpak: bool,
}

/// Which ScummVM runs games of a build.
pub open spec fn engine_of(os: Os, facts: EngineFacts) -> Option<EngineSource> {
    if os == Os::Windows && facts.exe_there {
        Some(EngineSource::Exo)
    } else if os != Os::Windows && (facts.own_pack || facts.serving_pack) {
        Some(EngineSource::Pack)
    } else if facts.installable {
        None
    } else if facts.on_path {
        Some(EngineSource::Path)
    } else if os == Os::Linux && facts.flatpak {
        Some(EngineSource::Flatpak)
    } else {
        None
    }
}

/// Where the build lies that comes with the collection.
pub fn exo_binary(root: &str, slug: &str) -> (r: String)
    ensures
        r@ == ({
            let base = crate::fspath::joined(root@, "eXo/emulators/scmvm"@);
            if slug@ == "default"@ {
                crate::fspath::joined(base, "scummvm.exe"@)
            } else {
                crate::fspath::joined(crate::fspath::joined(base, slug@), "scummvm.exe"@)
            }
        }),
{
    let base = join_path(root, "eXo/emulators/scmvm");
    if same(slug, "default") {
        join_path(base.as_str(), "scummvm.exe")
    } else {
        join_path(join_path(base.as_str(), slug).as_str(), "scummvm.exe")
    }
}

/// Where the program lies in the pack of a version, below the emulators.
pub fn pack_binary(os: Os, version: &str) -> (r: Option<String>)
    ensures
        text::opt(r) == (match os {
            Os::Mac => Some(
                "scummvm-"@ + version@ + "/ScummVM.app/Contents/MacOS/scummvm"@,
            ),
            Os::Linux => Some("scummvm-"@ + version@ + "/ScummVM.AppImage"@),
            Os::Windows => None,
        }),
{
    match os {
        Os::Mac => Some(cat3("scummvm-", version, "/ScummVM.app/Contents/MacOS/scummvm")),
        Os::Linux => Some(cat3("scummvm-", version, "/ScummVM.AppImage")),
        Os::Windows => None,
    }
}

/// Which ScummVM runs games of a build, the most faithful first. A copy that the system
/// has is taken only where there is no pack to install.
pub fn resolve_scummvm(os: Os, facts: &EngineFacts) -> (r: Option<EngineSource>)
    ensures
        r == engine_of(os, *facts),
{
    match os {
        Os::Windows => if facts.exe_there {
            return Some(EngineSource::Exo);
        },
        _ => if facts.own_pack || facts.serving_pack {
            return Some(EngineSource::Pack);
        },
    }
    if facts.installable {
        return None;
    }
    if facts.on_path {
        return Some(EngineSource::Path);
    }
    match os {
        Os::Linux => if facts.flatpak {
            Some(EngineSource::Flatpak)
        } else {
            None
        },
        _ => None,
    }
}

/// What is said where no engine is found.
pub open spec fn engine_missing_text(os: Os, slug: Seq<char>) -> Seq<char> {
    match os {
        Os::Windows => "ScummVM "@ + version_from(slug, 0)
            + " was not found in the ScummVM support files (eXo\\emulators\\scmvm). Download any ScummVM game to fetch them, then try again."@,
        Os::Linux => "ScummVM was not found. Install ScummVM from scummvm.org (or the Flatpak org.scummvm.ScummVM) and try again."@,
        Os::Mac => "ScummVM was not found. Install ScummVM from scummvm.org and try again."@,
    }
}

/// What is said where no ScummVM was found.
pub fn engine_missing(os: Os, slug: &str) -> (r: String)
    ensures
        r@ == engine_missing_text(os, slug@),
{
    match os {
        Os::Windows => cat3(
            "ScummVM ",
            build_version(slug),
            " was not found in the ScummVM support files (eXo\\emulators\\scmvm). Download any ScummVM game to fetch them, then try again.",
        ),
        Os::Linux => copy(
            "ScummVM was not found. Install ScummVM from scummvm.org (or the Flatpak org.scummvm.ScummVM) and try again.",
        ),
        Os::Mac => copy("ScummVM was not found. Install ScummVM from scummvm.org and try again."),
    }
}

/// What is shown next to a game.
pub struct ScummVmEngineInfo {
    pub available: bool,
    /// The version that the game is pinned to.
    pub pinned_version: String,
    /// Where the program comes from that would run.
    pub source: Option<EngineSource>,
    /// The pack that would bring the build.
    pub pack_id: Option<String>,
}

/// What is shown next to a game that is pinned to a build. `engine` is what a launch
/// would run; without a data directory there is none.
pub fn scummvm_engine_info(variant: Option<&str>, os: Os, engine: Option<EngineSource>) -> (r:
    ScummVmEngineInfo)
    ensures
        ({
            let slug = match variant {
                Some(v) => v@,
                None => "default"@,
            };
            &&& r.available == engine is Some
            &&& r.pinned_version@ == version_from(slug, 0)
            &&& r.source == engine
            &&& text::opt(r.pack_id) == (if os == Os::Windows {
                None
            } else {
                Some("scummvm-"@ + pack_version_of(slug))
            })
        }),
{
    let slug = match variant {
        Some(v) => v,
        None => "default",
    };
    let pack = match os {
        Os::Windows => None,
        _ => Some(pack_id(slug)),
    };
    ScummVmEngineInfo {
        available: engine.is_some(),
        pinned_version: copy(build_version(slug)),
        source: engine,
        pack_id: pack,
    }
}

/// Where the settings of a build are kept.
pub fn config_path(data_dir: &str, slug: &str) -> (r: String)
    ensures
        r@ == crate::fspath::joined(
            crate::fspath::joined(data_dir@, "content/scummvm"@),
            slug@ + ".ini"@,
        ),
{
    join_path(join_path(data_dir, "content/scummvm").as_str(), cat(slug, ".ini").as_str())
}

// ── Control files ────────────────────────────────────────────────────────────

/// A file of a game's directory.
pub struct ControlFile {
    pub name: String,
    /// What it says, where it can be read.
    pub content: Option<String>,
}

/// A directory of a game.
pub struct SvmDir {
    pub name: String,
    pub files: Vec<ControlFile>,
    pub dirs: Vec<SvmDir>,
}

/// The first file, `i` or later, with this name.
pub open spec fn file_from(files: Seq<ControlFile>, name: Seq<char>, i: int) -> Option<int>
    decreases files.len() - i,
{
    if i >= files.len() {
        None
    } else if files[i].name@ == name {
        Some(i)
    } else {
        file_from(files, name, i + 1)
    }
}

/// The directory has this file.
pub open spec fn has_file(dir: SvmDir, name: Seq<char>) -> bool {
    file_from(dir.files@, name, 0) is Some
}

/// What the file of this name says, if it is there and can be read.
pub open spec fn content_of(dir: SvmDir, name: Seq<char>) -> Option<Seq<char>> {
    match file_from(dir.files@, name, 0) {
        Some(i) => text::opt(dir.files@[i].content),
        None => None,
    }
}

fn find_file(dir: &SvmDir, name: &str) -> (r: Option<usize>)
    ensures
        match r {
            Some(i) => i < dir.files@.len() && file_from(dir.files@, name@, 0) == Some(i as int),
            None => file_from(dir.files@, name@, 0) is None,
        },
{
    let mut i: usize = 0;
    while i < dir.files.len()
        invariant
            i <= dir.files@.len(),
            file_from(dir.files@, name@, i as int) == file_from(dir.files@, name@, 0),
        decreases dir.files@.len() - i,
    {
        if same(dir.files[i].name.as_str(), name) {
            return Some(i);
        }
        i += 1;
    }
    None
}

fn read_file<'a>(dir: &'a SvmDir, name: &str) -> (r: Option<&'a str>)
    ensures
        text::opt_ref(r) == content_of(*dir, name@),
{
    match find_file(dir, name) {
        Some(i) => borrow(&dir.files[i].content),
        None => None,
    }
}

/// What the first control file says that is found, first in the directory that runs
/// and then in the one of the platform.
pub open spec fn probed(run: SvmDir, outer: SvmDir, name: Seq<char>) -> Option<Seq<char>> {
    if has_file(run, name) {
        content_of(run, name)
    } else {
        content_of(outer, name)
    }
}

fn probe<'a>(run: &'a SvmDir, outer: &'a SvmDir, name: &str) -> (r: Option<&'a str>)
    ensures
        text::opt_ref(r) == probed(*run, *outer, name@),
{
    if find_file(run, name).is_some() {
        read_file(run, name)
    } else {
        read_file(outer, name)
    }
}

/// The first line of a text, without the ends of lines.
pub open spec fn first_line(t: Seq<char>) -> Option<Seq<char>> {
    if text::lines(t).len() > 0 {
        Some(text::strip_back(text::lines(t)[0], '\r'))
    } else {
        None
    }
}

fn first_line_of(t: &str) -> (r: Option<String>)
    ensures
        text::opt(r) == first_line(t@),
{
    let list = lines_of(t);
    if list.len() > 0 {
        assert(text::texts(list@)[0] == list@[0]@);
        let chars = chars_of(list[0].as_str());
        Some(string_of(drop_back(chars.as_slice(), '\r')))
    } else {
        assert(text::texts(list@).len() == 0);
        None
    }
}

/// The first field of a control file: what stands before the first colon of its first
/// line.
pub open spec fn first_field(t: Seq<char>) -> Option<Seq<char>> {
    match first_line(t) {
        Some(line) => {
            let field = text::trim(text::split(line, ':')[0]);
            if field.len() > 0 {
                Some(field)
            } else {
                None
            }
        },
        None => None,
    }
}

/// The first field of a control file that says this.
pub fn first_field_of(t: &str) -> (r: Option<String>)
    ensures
        text::opt(r) == first_field(t@),
{
    match first_line_of(t) {
        Some(line) => {
            let chars = chars_of(line.as_str());
            let pieces = split_on(chars.as_slice(), ':');
            proof {
                text::lemma_split_some(line@, ':');
                assert(text::texts(pieces@)[0] == pieces@[0]@);
            }
            let first = chars_of(pieces[0].as_str());
            let field = trim_of(first.as_slice());
            if field.len() > 0 {
                Some(string_of(field))
            } else {
                None
            }
        },
        None => None,
    }
}

/// The first field of the control file that is found.
pub open spec fn field_of(run: SvmDir, outer: SvmDir, name: Seq<char>) -> Option<Seq<char>> {
    match probed(run, outer, name) {
        Some(t) => first_field(t),
        None => None,
    }
}

fn probe_field(run: &SvmDir, outer: &SvmDir, name: &str) -> (r: Option<String>)
    ensures
        text::opt(r) == field_of(*run, *outer, name@),
{
    match probe(run, outer, name) {
        Some(t) => first_field_of(t),
        None => None,
    }
}

/// The pieces, among the first `n`, that say something.
pub open spec fn said_pieces(pieces: Seq<Seq<char>>, n: int) -> Seq<Seq<char>>
    decreases n,
{
    if n <= 0 {
        Seq::<Seq<char>>::empty()
    } else if text::trim(pieces[n - 1]).len() > 0 {
        said_pieces(pieces, n - 1).push(text::trim(pieces[n - 1]))
    } else {
        said_pieces(pieces, n - 1)
    }
}

/// The entries of a menu: what stands between the colons of its first line.
pub open spec fn menu_of(t: Option<Seq<char>>) -> Seq<Seq<char>> {
    match t {
        Some(x) => {
            let line = if text::lines(x).len() > 0 {
                text::lines(x)[0]
            } else {
                Seq::<char>::empty()
            };
            said_pieces(text::split(line, ':'), text::split(line, ':').len() as int)
        },
        None => Seq::<Seq<char>>::empty(),
    }
}

/// The entries of a menu.
pub fn sound_menu(t: Option<&str>) -> (r: Vec<String>)
    ensures
        text::texts(r@) == menu_of(text::opt_ref(t)),
{
    let mut out: Vec<String> = Vec::new();
    assert(text::texts(out@) =~= Seq::<Seq<char>>::empty());
    let t = match t {
        Some(x) => x,
        None => {
            return out;
        },
    };
    let list = lines_of(t);
    let line: Vec<char> = if list.len() > 0 {
        assert(text::texts(list@)[0] == list@[0]@);
        chars_of(list[0].as_str())
    } else {
        assert(text::texts(list@).len() == 0);
        let none: Vec<char> = Vec::new();
        assert(none@ =~= Seq::<char>::empty());
        none
    };
    let pieces = split_on(line.as_slice(), ':');
    let ghost all = text::texts(pieces@);
    let mut i: usize = 0;
    while i < pieces.len()
        invariant
            i <= pieces@.len(),
            all == text::texts(pieces@),
            text::texts(out@) == said_pieces(all, i as int),
        decreases pieces@.len() - i,
    {
        assert(all[i as int] == pieces@[i as int]@);
        let chars = chars_of(pieces[i].as_str());
        let said = trim_of(chars.as_slice());
        if said.len() > 0 {
            let ghost done = text::texts(out@);
            out.push(string_of(said));
            assert(text::texts(out@) =~= done.push(said@));
        }
        i += 1;
    }
    assert(all.len() == pieces@.len());
    out
}

// ── The menus ────────────────────────────────────────────────────────────────

/// A directory counts for the menus: its name begins with neither a dot nor an
/// exclamation mark.
pub open spec fn counts(name: Seq<char>) -> bool {
    !"."@.is_prefix_of(name) && !"!"@.is_prefix_of(name)
}

/// The names of directories that count, among the first `n`.
pub open spec fn counted(dirs: Seq<SvmDir>, n: int) -> Seq<Seq<char>>
    decreases n,
{
    if n <= 0 {
        Seq::<Seq<char>>::empty()
    } else if counts(dirs[n - 1].name@) {
        counted(dirs, n - 1).push(dirs[n - 1].name@)
    } else {
        counted(dirs, n - 1)
    }
}

/// Names in small letters.
pub open spec fn lowered(names: Seq<Seq<char>>) -> Seq<Seq<char>> {
    names.map_values(|n: Seq<char>| text::small(n))
}

/// The names of the directories that count, in the order of a menu: alphabetically,
/// capitals aside.
pub open spec fn menu(dirs: Seq<SvmDir>) -> Seq<Seq<char>> {
    choose|m: Seq<Seq<char>>| is_menu(dirs, m)
}

/// `menu` lists the names of the directories that count, in the order of a menu.
pub open spec fn is_menu(dirs: Seq<SvmDir>, menu: Seq<Seq<char>>) -> bool {
    let names = counted(dirs, dirs.len() as int);
    exists|order: Seq<usize>| #[trigger]
        crate::order::orders_texts(lowered(names), order) && menu == crate::order::picked(
            names,
            order,
        )
}

/// The names of the directories that count, in the order of a menu.
pub fn subdirs(dirs: &Vec<SvmDir>) -> (r: Vec<String>)
    ensures
        text::texts(r@) == menu(dirs@),
        is_menu(dirs@, text::texts(r@)),
{
    let mut names: Vec<String> = Vec::new();
    let mut keys: Vec<String> = Vec::new();
    let mut i: usize = 0;
    assert(text::texts(names@) =~= counted(dirs@, 0));
    assert(text::texts(keys@) =~= lowered(counted(dirs@, 0)));
    while i < dirs.len()
        invariant
            i <= dirs@.len(),
            text::texts(names@) == counted(dirs@, i as int),
            text::texts(keys@) == lowered(counted(dirs@, i as int)),
        decreases dirs@.len() - i,
    {
        let name = dirs[i].name.as_str();
        let chars = chars_of(name);
        if !has_prefix(chars.as_slice(), ".") && !has_prefix(chars.as_slice(), "!") {
            let ghost done = text::texts(names@);
            let ghost low = text::texts(keys@);
            names.push(copy(name));
            keys.push(to_small(name));
            assert(text::texts(names@) =~= done.push(name@));
            assert(text::texts(keys@) =~= low.push(text::small(name@)));
            assert(text::texts(keys@) =~= lowered(counted(dirs@, i + 1)));
        }
        i += 1;
    }
    let order = order_of_texts(&keys);
    let ghost all = counted(dirs@, dirs@.len() as int);
    assert(all.len() == names@.len() && lowered(all).len() == names@.len());
    let mut out: Vec<String> = Vec::new();
    let mut n: usize = 0;
    while n < order.len()
        invariant
            n <= order@.len(),
            text::texts(names@) == all,
            all.len() == names@.len(),
            lowered(all).len() == names@.len(),
            crate::order::orders_texts(lowered(all), order@),
            text::texts(out@) == crate::order::picked(all, order@).take(n as int),
        decreases order@.len() - n,
    {
        let ghost done = text::texts(out@);
        let at: usize = order[n];
        out.push(copy(names[at].as_str()));
        assert(text::texts(names@)[at as int] == names@[at as int]@);
        assert(text::texts(out@) =~= done.push(all[at as int]));
        n += 1;
        assert(text::texts(out@) =~= crate::order::picked(all, order@).take(n as int));
    }
    assert(text::texts(out@) =~= crate::order::picked(all, order@));
    proof {
        lemma_one_menu(dirs@, text::texts(out@));
    }
    out
}

proof fn lemma_one_menu(dirs: Seq<SvmDir>, m: Seq<Seq<char>>)
    requires
        is_menu(dirs, m),
    ensures
        m == menu(dirs),
{
    let names = counted(dirs, dirs.len() as int);
    let other = menu(dirs);
    assert(is_menu(dirs, other));
    let a = choose|order: Seq<usize>| #[trigger]
        crate::order::orders_texts(lowered(names), order) && m == crate::order::picked(names, order);
    let b = choose|order: Seq<usize>| #[trigger]
        crate::order::orders_texts(lowered(names), order) && other == crate::order::picked(
            names,
            order,
        );
    crate::order::law_order_is_unique(lowered(names), a, b);
}

proof fn lemma_menu_names(dirs: Seq<SvmDir>, m: Seq<Seq<char>>, i: int)
    requires
        is_menu(dirs, m),
        0 <= i < m.len(),
    ensures
        dir_from(dirs, m[i], 0) is Some,
        0 <= dir_from(dirs, m[i], 0)->0 < dirs.len(),
        dirs[dir_from(dirs, m[i], 0)->0].name@ == m[i],
{
    let names = counted(dirs, dirs.len() as int);
    let order = choose|order: Seq<usize>| #[trigger]
        crate::order::orders_texts(lowered(names), order) && m == crate::order::picked(names, order);
    assert(order[i] < lowered(names).len());
    let k = lemma_counted(dirs, dirs.len() as int, order[i] as int);
    lemma_dir_from(dirs, m[i], 0, k);
}

proof fn lemma_counted(dirs: Seq<SvmDir>, n: int, i: int) -> (k: int)
    requires
        0 <= n <= dirs.len(),
        0 <= i < counted(dirs, n).len(),
    ensures
        0 <= k < n,
        dirs[k].name@ == counted(dirs, n)[i],
    decreases n,
{
    if i < counted(dirs, n - 1).len() {
        lemma_counted(dirs, n - 1, i)
    } else {
        n - 1
    }
}

proof fn lemma_dir_from(dirs: Seq<SvmDir>, name: Seq<char>, i: int, k: int)
    requires
        0 <= i <= k < dirs.len(),
        dirs[k].name@ == name,
    ensures
        dir_from(dirs, name, i) is Some,
        i <= dir_from(dirs, name, i)->0 <= k,
        dirs[dir_from(dirs, name, i)->0].name@ == name,
    decreases k - i,
{
    if dirs[i].name@ != name {
        lemma_dir_from(dirs, name, i + 1, k);
    }
}

/// The choice from a menu: the stored one where the menu has it, and otherwise the
/// given one.
pub open spec fn chosen(menu: Seq<Seq<char>>, wanted: Option<Seq<char>>, default: Seq<char>) -> Seq<
    char,
> {
    match wanted {
        Some(w) => if menu.contains(w) {
            w
        } else {
            default
        },
        None => default,
    }
}

fn choice(menu: &Vec<String>, wanted: &Option<String>, default: &str) -> (r: String)
    ensures
        r@ == chosen(text::texts(menu@), text::opt(*wanted), default@),
{
    match wanted {
        Some(w) => if is_one_of(menu, w.as_str()) {
            copy(w.as_str())
        } else {
            copy(default)
        },
        None => copy(default),
    }
}

/// The first entry, `i` or later, that is a version. The other languages are a menu of
/// their own.
pub open spec fn version_entry(menu: Seq<Seq<char>>, i: int) -> Option<Seq<char>>
    decreases menu.len() - i,
{
    if i >= menu.len() {
        None
    } else if menu[i] != "Other Languages"@ {
        Some(menu[i])
    } else {
        version_entry(menu, i + 1)
    }
}

/// What a menu of versions preselects.
pub open spec fn preselected(menu: Seq<Seq<char>>) -> Seq<char> {
    match version_entry(menu, 0) {
        Some(name) => name,
        None => menu[0],
    }
}

fn preselect(menu: &Vec<String>) -> (r: String)
    requires
        menu@.len() > 0,
    ensures
        r@ == preselected(text::texts(menu@)),
{
    let ghost all = text::texts(menu@);
    let mut i: usize = 0;
    while i < menu.len()
        invariant
            i <= menu@.len(),
            all == text::texts(menu@),
            version_entry(all, i as int) == version_entry(all, 0),
        decreases menu@.len() - i,
    {
        assert(all[i as int] == menu@[i as int]@);
        if !same(menu[i].as_str(), "Other Languages") {
            return copy(menu[i].as_str());
        }
        i += 1;
    }
    assert(all[0] == menu@[0]@);
    copy(menu[0].as_str())
}

/// The first directory, `i` or later, with this name.
pub open spec fn dir_from(dirs: Seq<SvmDir>, name: Seq<char>, i: int) -> Option<int>
    decreases dirs.len() - i,
{
    if i >= dirs.len() {
        None
    } else if dirs[i].name@ == name {
        Some(i)
    } else {
        dir_from(dirs, name, i + 1)
    }
}

fn find_dir(dirs: &Vec<SvmDir>, name: &str) -> (r: Option<usize>)
    ensures
        match r {
            Some(i) => i < dirs@.len() && dir_from(dirs@, name@, 0) == Some(i as int),
            None => dir_from(dirs@, name@, 0) is None,
        },
{
    let mut i: usize = 0;
    while i < dirs.len()
        invariant
            i <= dirs@.len(),
            dir_from(dirs@, name@, i as int) == dir_from(dirs@, name@, 0),
        decreases dirs@.len() - i,
    {
        if same(dirs[i].name.as_str(), name) {
            return Some(i);
        }
        i += 1;
    }
    None
}

// ── The variant that is run ──────────────────────────────────────────────────

/// The variant of a game that is run, and its options.
pub struct Variant {
    pub run_dir: String,
    /// The directories that were chosen, the innermost first.
    pub names: Vec<String>,
    pub platform: Option<String>,
    pub extra_args: Vec<String>,
    pub note: Option<String>,
}

/// The view of a variant.
pub struct VariantView {
    pub run_dir: Seq<char>,
    pub names: Seq<Seq<char>>,
    pub platform: Option<Seq<char>>,
    pub extra_args: Seq<Seq<char>>,
    pub note: Option<Seq<char>>,
}

impl View for Variant {
    type V = VariantView;

    open spec fn view(&self) -> VariantView {
        VariantView {
            run_dir: self.run_dir@,
            names: text::texts(self.names@),
            platform: text::opt(self.platform),
            extra_args: text::texts(self.extra_args@),
            note: text::opt(self.note),
        }
    }
}

/// What a game can play its music with.
pub struct MusicFiles {
    /// The directory of the MT-32 ROMs is there.
    pub roms: bool,
    /// The SoundFont of the Sound Canvas is there.
    pub soundfont: bool,
}

/// The platform's directory that is chosen.
pub open spec fn outer_name(tree: SvmDir, cfg: Seq<ConfigEntry>) -> Seq<char> {
    chosen(
        menu(tree.dirs@),
        crate::games::setting(cfg, "svm_variant"@),
        preselected(menu(tree.dirs@)),
    )
}

/// The platform's directory that is chosen.
pub open spec fn outer_dir(tree: SvmDir, cfg: Seq<ConfigEntry>) -> SvmDir {
    tree.dirs@[dir_from(tree.dirs@, outer_name(tree, cfg), 0)->0]
}

/// The version below it that is chosen.
pub open spec fn inner_name(outer: SvmDir, cfg: Seq<ConfigEntry>) -> Seq<char> {
    chosen(
        menu(outer.dirs@),
        crate::games::setting(cfg, "svm_sub"@),
        menu(outer.dirs@)[0],
    )
}

/// The directory that is run: a version where the platform has a menu of them, and
/// otherwise the platform's own.
pub open spec fn run_dir_of(outer: SvmDir, cfg: Seq<ConfigEntry>) -> SvmDir {
    if has_file(outer, "menu.txt"@) {
        outer.dirs@[dir_from(outer.dirs@, inner_name(outer, cfg), 0)->0]
    } else {
        outer
    }
}

/// The options that every choice of sound has.
pub open spec fn base_flags() -> Seq<Seq<char>> {
    seq!["--opl-driver=nuked"@, "--output-rate=44100"@]
}

/// The options of a choice of sound, and what the name of its options file begins
/// with. What needs files that are not there falls back to the Sound Blaster.
pub open spec fn sound_flags(
    pick: Seq<char>,
    mt32: Seq<char>,
    music: MusicFiles,
    rev0: bool,
) -> (Seq<char>, Seq<Seq<char>>) {
    if pick == "Tandy"@ {
        ("T_"@, seq!["--opl-driver=nuked"@, "-epcjr"@, "--output-rate=44100"@])
    } else if pick == "Creative Music System (CMS)"@ {
        ("CMS_"@, seq!["--opl-driver=nuked"@, "-ecms"@, "--output-rate=44100"@])
    } else if pick == "Roland MT32"@ && music.roms {
        (
            "mt32_"@,
            seq![
                "--opl-driver=nuked"@,
                "-emt32"@,
                "--multi-midi"@,
                "--extrapath="@ + (if rev0 {
                    crate::fspath::joined(mt32, "rev0"@)
                } else {
                    mt32
                }),
                "--output-rate=44100"@,
            ],
        )
    } else if pick == "Sound Canvas"@ && music.soundfont {
        (
            "sc_"@,
            seq![
                "--opl-driver=nuked"@,
                "-efluidsynth"@,
                "--multi-midi"@,
                "--soundfont="@ + crate::fspath::joined(mt32, "SoundCanvas.sf2"@),
                "--output-rate=44100"@,
            ],
        )
    } else if pick == "James Woodcock's Enhanced Music"@ {
        ("eh_"@, base_flags())
    } else {
        ("sb_"@, base_flags())
    }
}

fn pick_sound(pick: &str, mt32: &str, music: &MusicFiles, rev0: bool) -> (r: (
    &'static str,
    Vec<String>,
))
    ensures
        (r.0@, text::texts(r.1@)) == sound_flags(pick@, mt32@, *music, rev0),
{
    let mut flags: Vec<String> = Vec::new();
    flags.push(copy("--opl-driver=nuked"));
    let prefix = if same(pick, "Tandy") {
        flags.push(copy("-epcjr"));
        "T_"
    } else if same(pick, "Creative Music System (CMS)") {
        flags.push(copy("-ecms"));
        "CMS_"
    } else if same(pick, "Roland MT32") && music.roms {
        flags.push(copy("-emt32"));
        flags.push(copy("--multi-midi"));
        let roms = if rev0 {
            join_path(mt32, "rev0")
        } else {
            copy(mt32)
        };
        flags.push(cat("--extrapath=", roms.as_str()));
        "mt32_"
    } else if same(pick, "Sound Canvas") && music.soundfont {
        flags.push(copy("-efluidsynth"));
        flags.push(copy("--multi-midi"));
        flags.push(cat("--soundfont=", join_path(mt32, "SoundCanvas.sf2").as_str()));
        "sc_"
    } else if same(pick, "James Woodcock's Enhanced Music") {
        "eh_"
    } else {
        "sb_"
    };
    flags.push(copy("--output-rate=44100"));
    assert(text::texts(flags@) =~= sound_flags(pick@, mt32@, *music, rev0).1);
    (prefix, flags)
}

/// The options that a control file asks for.
pub open spec fn args_of(field: Option<Seq<char>>) -> Seq<Seq<char>> {
    match field {
        Some(t) => text::words(t),
        None => Seq::<Seq<char>>::empty(),
    }
}

/// One of the two directories has the file.
pub open spec fn is_probed(run: SvmDir, outer: SvmDir, name: Seq<char>) -> bool {
    has_file(run, name) || has_file(outer, name)
}

/// The options for the sound, and what the name of the options file begins with.
pub open spec fn sound_of(
    run: SvmDir,
    outer: SvmDir,
    cfg: Seq<ConfigEntry>,
    mt32: Seq<char>,
    music: MusicFiles,
) -> (Seq<char>, Seq<Seq<char>>) {
    let entries = menu_of(probed(run, outer, "sound.txt"@));
    if entries.len() == 0 {
        (Seq::<char>::empty(), base_flags())
    } else {
        sound_flags(
            chosen(entries, crate::games::setting(cfg, "svm_sound"@), entries[0]),
            mt32,
            music,
            is_probed(run, outer, "mt32_rev0.txt"@),
        )
    }
}

/// The options that the control files ask for.
pub open spec fn extra_of(
    run: SvmDir,
    outer: SvmDir,
    cfg: Seq<ConfigEntry>,
    mt32: Seq<char>,
    music: MusicFiles,
) -> Seq<Seq<char>> {
    let (prefix, flags) = sound_of(run, outer, cfg, mt32, music);
    let own = prefix + "audio.txt"@;
    let audio = if prefix.len() > 0 && is_probed(run, outer, own) {
        field_of(run, outer, own)
    } else {
        field_of(run, outer, "audio.txt"@)
    };
    let subtitles = if crate::games::setting(cfg, "svm_subtitles"@) == Some("true"@) {
        args_of(field_of(run, outer, "subtitle.txt"@))
    } else {
        Seq::<Seq<char>>::empty()
    };
    flags + args_of(audio) + args_of(field_of(run, outer, "video.txt"@)) + subtitles
}

/// What the collection notes of a game.
pub open spec fn note_of(tree: SvmDir) -> Option<Seq<char>> {
    match content_of(tree, "note.txt"@) {
        Some(t) => if text::trim(t).len() > 0 {
            Some(text::trim(t))
        } else {
            None
        },
        None => None,
    }
}

/// Why a game cannot be run.
pub open spec fn variant_refusal(
    game_dir: Seq<char>,
    tree: SvmDir,
    cfg: Seq<ConfigEntry>,
) -> Option<Seq<char>> {
    if menu(tree.dirs@).len() == 0 {
        Some(game_dir + " holds no game folder - the archive may be incomplete."@)
    } else if has_file(outer_dir(tree, cfg), "menu.txt"@) && menu(
        outer_dir(tree, cfg).dirs@,
    ).len() == 0 {
        Some(
            crate::fspath::joined(game_dir, outer_name(tree, cfg))
                + " lists a sub-menu but holds no versions."@,
        )
    } else {
        None
    }
}

/// The variant of a game that is run.
pub open spec fn variant_view(
    game_dir: Seq<char>,
    tree: SvmDir,
    root: Seq<char>,
    music: MusicFiles,
    cfg: Seq<ConfigEntry>,
) -> VariantView {
    let outer = outer_dir(tree, cfg);
    let run = run_dir_of(outer, cfg);
    let place = crate::fspath::joined(game_dir, outer_name(tree, cfg));
    let nested = has_file(outer, "menu.txt"@);
    VariantView {
        run_dir: if nested {
            crate::fspath::joined(place, inner_name(outer, cfg))
        } else {
            place
        },
        names: if nested {
            seq![inner_name(outer, cfg), outer_name(tree, cfg)]
        } else {
            seq![outer_name(tree, cfg)]
        },
        platform: match field_of(run, outer, "platform.txt"@) {
            Some(p) => code_of(text::lower(text::trim(p))),
            None => None,
        },
        extra_args: extra_of(
            run,
            outer,
            cfg,
            crate::fspath::joined(root, "eXo/mt32"@),
            music,
        ),
        note: note_of(tree),
    }
}

fn push_args(out: &mut Vec<String>, field: &Option<String>)
    ensures
        text::texts(final(out)@) == text::texts(old(out)@) + args_of(text::opt(*field)),
{
    let ghost before = text::texts(out@);
    match field {
        Some(t) => {
            let mut more = words_of(chars_of(t.as_str()).as_slice());
            let ghost new = more@;
            let ghost old_out = out@;
            out.append(&mut more);
            assert(text::texts(out@) =~= before + text::texts(new));
        },
        None => {
            assert(before =~= before + Seq::<Seq<char>>::empty());
        },
    }
}

fn extra_args(
    run: &SvmDir,
    outer: &SvmDir,
    cfg: &Vec<ConfigEntry>,
    mt32: &str,
    music: &MusicFiles,
) -> (r: Vec<String>)
    ensures
        text::texts(r@) == extra_of(*run, *outer, cfg@, mt32@, *music),
{
    let entries = sound_menu(probe(run, outer, "sound.txt"));
    let ghost all = text::texts(entries@);
    let mut prefix = "";
    proof {
        reveal_strlit("");
    }
    assert(prefix@ =~= Seq::<char>::empty());
    let mut extra: Vec<String> = Vec::new();
    if entries.len() == 0 {
        extra.push(copy("--opl-driver=nuked"));
        extra.push(copy("--output-rate=44100"));
        assert(text::texts(extra@) =~= base_flags());
    } else {
        assert(all[0] == entries@[0]@);
        let wanted = config_value(cfg, "svm_sound");
        let pick = choice(&entries, &wanted, entries[0].as_str());
        let rev0 = find_file(run, "mt32_rev0.txt").is_some() || find_file(
            outer,
            "mt32_rev0.txt",
        ).is_some();
        let (p, flags) = pick_sound(pick.as_str(), mt32, music, rev0);
        prefix = p;
        extra = flags;
    }
    assert((prefix@, text::texts(extra@)) == sound_of(*run, *outer, cfg@, mt32@, *music));
    let own = cat(prefix, "audio.txt");
    let has_own = !same(prefix, "") && (find_file(run, own.as_str()).is_some() || find_file(
        outer,
        own.as_str(),
    ).is_some());
    assert((prefix@ == ""@) == (prefix@.len() == 0)) by {
        if prefix@.len() == 0 {
            assert(prefix@ =~= ""@);
        }
    }
    let audio = if has_own {
        probe_field(run, outer, own.as_str())
    } else {
        probe_field(run, outer, "audio.txt")
    };
    push_args(&mut extra, &audio);
    let video = probe_field(run, outer, "video.txt");
    push_args(&mut extra, &video);
    let subtitled = match config_value(cfg, "svm_subtitles") {
        Some(v) => same(v.as_str(), "true"),
        None => false,
    };
    if subtitled {
        let subtitle = probe_field(run, outer, "subtitle.txt");
        push_args(&mut extra, &subtitle);
    } else {
        assert(text::texts(extra@) =~= text::texts(extra@) + Seq::<Seq<char>>::empty());
    }
    extra
}

fn read_note(tree: &SvmDir) -> (r: Option<String>)
    ensures
        text::opt(r) == note_of(*tree),
{
    match read_file(tree, "note.txt") {
        Some(t) => {
            let chars = chars_of(t);
            let said = trim_of(chars.as_slice());
            if said.len() > 0 {
                Some(string_of(said))
            } else {
                None
            }
        },
        None => None,
    }
}

proof fn lemma_version_entry(m: Seq<Seq<char>>, i: int)
    requires
        0 <= i,
    ensures
        match version_entry(m, i) {
            Some(name) => m.contains(name),
            None => true,
        },
    decreases m.len() - i,
{
    if i < m.len() && m[i] == "Other Languages"@ {
        lemma_version_entry(m, i + 1);
    }
}

/// The variant of a game that is run: the stored choices where the menus have them, and
/// otherwise what the menus preselect; with the options that its control files ask for.
/// `tree` is what is on disk below `game_dir`.
pub fn select_variant(
    game_dir: &str,
    tree: &SvmDir,
    torrent_root: &str,
    music: &MusicFiles,
    cfg: &Vec<ConfigEntry>,
) -> (r: Result<Variant, String>)
    ensures
        match r {
            Ok(v) => {
                &&& variant_refusal(game_dir@, *tree, cfg@) is None
                &&& v@ == variant_view(game_dir@, *tree, torrent_root@, *music, cfg@)
            },
            Err(message) => variant_refusal(game_dir@, *tree, cfg@) == Some(message@),
        },
{
    let level1 = subdirs(&tree.dirs);
    let ghost m1 = text::texts(level1@);
    if level1.len() == 0 {
        assert(m1.len() == 0);
        return Err(
            cat(game_dir, " holds no game folder - the archive may be incomplete."),
        );
    }
    let wanted1 = config_value(cfg, "svm_variant");
    let default1 = preselect(&level1);
    let pick1 = choice(&level1, &wanted1, default1.as_str());
    proof {
        lemma_version_entry(m1, 0);
        assert(m1.contains(m1[0]));
        assert(m1.contains(pick1@));
        let k = choose|k: int| 0 <= k < m1.len() && m1[k] == pick1@;
        lemma_menu_names(tree.dirs@, m1, k);
    }
    let at1: usize = match find_dir(&tree.dirs, pick1.as_str()) {
        Some(i) => i,
        None => {
            assert(false);
            0
        },
    };
    let outer = &tree.dirs[at1];
    assert(*outer == outer_dir(*tree, cfg@));
    let place = join_path(game_dir, pick1.as_str());
    let mt32 = join_path(torrent_root, "eXo/mt32");
    let nested = find_file(outer, "menu.txt").is_some();
    let mut names: Vec<String> = Vec::new();
    let mut run = outer;
    let mut run_dir = copy(place.as_str());
    if nested {
        let level2 = subdirs(&outer.dirs);
        let ghost m2 = text::texts(level2@);
        if level2.len() == 0 {
            assert(m2.len() == 0);
            return Err(cat(place.as_str(), " lists a sub-menu but holds no versions."));
        }
        let wanted2 = config_value(cfg, "svm_sub");
        assert(m2[0] == level2@[0]@);
        let pick2 = choice(&level2, &wanted2, level2[0].as_str());
        proof {
            assert(m2.contains(m2[0]));
            assert(m2.contains(pick2@));
            let k = choose|k: int| 0 <= k < m2.len() && m2[k] == pick2@;
            lemma_menu_names(outer.dirs@, m2, k);
        }
        let at2: usize = match find_dir(&outer.dirs, pick2.as_str()) {
            Some(i) => i,
            None => {
                assert(false);
                0
            },
        };
        run = &outer.dirs[at2];
        run_dir = join_path(place.as_str(), pick2.as_str());
        names.push(pick2);
    }
    names.push(copy(pick1.as_str()));
    assert(*run == run_dir_of(*outer, cfg@));
    let platform = match probe_field(run, outer, "platform.txt") {
        Some(p) => match scummvm_platform_code(p.as_str()) {
            Some(code) => Some(copy(code)),
            None => None,
        },
        None => None,
    };
    let extra = extra_args(run, outer, cfg, mt32.as_str(), music);
    let note = read_note(tree);
    let v = Variant { run_dir, names, platform, extra_args: extra, note };
    assert(text::texts(v.names@) =~= variant_view(
        game_dir@,
        *tree,
        torrent_root@,
        *music,
        cfg@,
    ).names);
    Ok(v)
}

// ── All variants ─────────────────────────────────────────────────────────────

/// A version below a platform.
pub struct SvmSub {
    pub name: String,
    pub sounds: Vec<String>,
    pub has_subtitles: bool,
}

/// A platform that a game can be run on.
pub struct SvmVariant {
    pub name: String,
    pub platform: Option<String>,
    pub subs: Vec<SvmSub>,
    /// The menu of sounds. That of a version goes before it.
    pub sounds: Vec<String>,
    pub has_subtitles: bool,
}

/// The view of a version.
pub struct SubView {
    pub name: Seq<char>,
    pub sounds: Seq<Seq<char>>,
    pub has_subtitles: bool,
}

/// The view of a platform.
pub struct PlatformView {
    pub name: Seq<char>,
    pub platform: Option<Seq<char>>,
    pub subs: Seq<SubView>,
    pub sounds: Seq<Seq<char>>,
    pub has_subtitles: bool,
}

impl View for SvmSub {
    type V = SubView;

    open spec fn view(&self) -> SubView {
        SubView {
            name: self.name@,
            sounds: text::texts(self.sounds@),
            has_subtitles: self.has_subtitles,
        }
    }
}

/// The views of versions.
pub open spec fn sub_views(v: Seq<SvmSub>) -> Seq<SubView> {
    Seq::new(v.len(), |i: int| v[i]@)
}

impl View for SvmVariant {
    type V = PlatformView;

    open spec fn view(&self) -> PlatformView {
        PlatformView {
            name: self.name@,
            platform: text::opt(self.platform),
            subs: sub_views(self.subs@),
            sounds: text::texts(self.sounds@),
            has_subtitles: self.has_subtitles,
        }
    }
}

/// The views of platforms.
pub open spec fn platform_views(v: Seq<SvmVariant>) -> Seq<PlatformView> {
    Seq::new(v.len(), |i: int| v[i]@)
}

/// The directory of this name.
pub open spec fn dir_named(dirs: Seq<SvmDir>, name: Seq<char>) -> SvmDir {
    dirs[dir_from(dirs, name, 0)->0]
}

/// A version, as its directory describes it.
pub open spec fn sub_of(dir: SvmDir, name: Seq<char>) -> SubView {
    SubView {
        name,
        sounds: menu_of(content_of(dir, "sound.txt"@)),
        has_subtitles: has_file(dir, "subtitle.txt"@),
    }
}

/// The versions of a platform, as their directories describe them.
pub open spec fn subs_of(dir: SvmDir) -> Seq<SubView> {
    if has_file(dir, "menu.txt"@) {
        menu(dir.dirs@).map_values(|name: Seq<char>| sub_of(dir_named(dir.dirs@, name), name))
    } else {
        Seq::<SubView>::empty()
    }
}

/// A platform, as its directory describes it.
pub open spec fn platform_view(dir: SvmDir, name: Seq<char>) -> PlatformView {
    PlatformView {
        name,
        platform: match content_of(dir, "platform.txt"@) {
            Some(t) => first_field(t),
            None => None,
        },
        subs: subs_of(dir),
        sounds: menu_of(content_of(dir, "sound.txt"@)),
        has_subtitles: has_file(dir, "subtitle.txt"@),
    }
}

/// All platforms of a game, as their directories describe them.
pub open spec fn platforms_of(tree: SvmDir) -> Seq<PlatformView> {
    menu(tree.dirs@).map_values(
        |name: Seq<char>| platform_view(dir_named(tree.dirs@, name), name),
    )
}

fn list_subs(dir: &SvmDir) -> (r: Vec<SvmSub>)
    ensures
        sub_views(r@) == subs_of(*dir),
{
    let mut out: Vec<SvmSub> = Vec::new();
    if find_file(dir, "menu.txt").is_none() {
        assert(sub_views(out@) =~= subs_of(*dir));
        return out;
    }
    let names = subdirs(&dir.dirs);
    let ghost m = text::texts(names@);
    let ghost all = subs_of(*dir);
    let mut i: usize = 0;
    while i < names.len()
        invariant
            i <= names@.len(),
            m == text::texts(names@),
            m == menu(dir.dirs@),
            is_menu(dir.dirs@, m),
            all == m.map_values(|name: Seq<char>| sub_of(dir_named(dir.dirs@, name), name)),
            sub_views(out@) == all.take(i as int),
        decreases names@.len() - i,
    {
        assert(m[i as int] == names@[i as int]@);
        proof {
            lemma_menu_names(dir.dirs@, m, i as int);
        }
        if let Some(k) = find_dir(&dir.dirs, names[i].as_str()) {
            let d = &dir.dirs[k];
            let sub = SvmSub {
                sounds: sound_menu(read_file(d, "sound.txt")),
                has_subtitles: find_file(d, "subtitle.txt").is_some(),
                name: copy(names[i].as_str()),
            };
            let ghost done = sub_views(out@);
            let ghost view = sub@;
            out.push(sub);
            assert(sub_views(out@) =~= done.push(view));
        }
        i += 1;
        assert(sub_views(out@) =~= all.take(i as int));
    }
    assert(all.take(all.len() as int) =~= all);
    out
}

/// All variants of a game: the levels of the menus that a launch walks.
pub fn list_variants(tree: &SvmDir) -> (r: Vec<SvmVariant>)
    ensures
        platform_views(r@) == platforms_of(*tree),
{
    let names = subdirs(&tree.dirs);
    let ghost m = text::texts(names@);
    let ghost all = platforms_of(*tree);
    let mut out: Vec<SvmVariant> = Vec::new();
    let mut i: usize = 0;
    while i < names.len()
        invariant
            i <= names@.len(),
            m == text::texts(names@),
            m == menu(tree.dirs@),
            is_menu(tree.dirs@, m),
            all == m.map_values(
                |name: Seq<char>| platform_view(dir_named(tree.dirs@, name), name),
            ),
            platform_views(out@) == all.take(i as int),
        decreases names@.len() - i,
    {
        assert(m[i as int] == names@[i as int]@);
        proof {
            lemma_menu_names(tree.dirs@, m, i as int);
        }
        if let Some(k) = find_dir(&tree.dirs, names[i].as_str()) {
            let d = &tree.dirs[k];
            let platform = match read_file(d, "platform.txt") {
                Some(t) => first_field_of(t),
                None => None,
            };
            let variant = SvmVariant {
                platform,
                sounds: sound_menu(read_file(d, "sound.txt")),
                has_subtitles: find_file(d, "subtitle.txt").is_some(),
                subs: list_subs(d),
                name: copy(names[i].as_str()),
            };
            let ghost done = platform_views(out@);
            let ghost view = variant@;
            out.push(variant);
            assert(platform_views(out@) =~= done.push(view));
        }
        i += 1;
        assert(platform_views(out@) =~= all.take(i as int));
    }
    assert(all.take(all.len() as int) =~= all);
    out
}

/// What a launch would use: the stored choices, with what the menus preselect filled
/// in.
pub struct SvmSelection {
    pub variant: Option<String>,
    pub sub: Option<String>,
    pub sound: Option<String>,
    pub subtitles: bool,
    pub aspect: bool,
}

/// The variants of a game, and the one that a launch would use.
pub struct ScummVmVariants {
    pub variants: Vec<SvmVariant>,
    /// What the collection notes of the game.
    pub note: Option<String>,
    pub selected: SvmSelection,
}

/// The first platform, `i` or later, with this name.
pub open spec fn platform_from(list: Seq<SvmVariant>, name: Seq<char>, i: int) -> Option<int>
    decreases list.len() - i,
{
    if i >= list.len() {
        None
    } else if list[i].name@ == name {
        Some(i)
    } else {
        platform_from(list, name, i + 1)
    }
}

/// The first version, `i` or later, with this name.
pub open spec fn sub_from(list: Seq<SvmSub>, name: Seq<char>, i: int) -> Option<int>
    decreases list.len() - i,
{
    if i >= list.len() {
        None
    } else if list[i].name@ == name {
        Some(i)
    } else {
        sub_from(list, name, i + 1)
    }
}

/// The menu of sounds of a choice: that of its version, and else that of its platform.
pub open spec fn sounds_of(
    list: Seq<SvmVariant>,
    variant: Option<Seq<char>>,
    sub: Option<Seq<char>>,
) -> Seq<Seq<char>> {
    match variant {
        None => Seq::<Seq<char>>::empty(),
        Some(name) => match platform_from(list, name, 0) {
            None => Seq::<Seq<char>>::empty(),
            Some(i) => match sub {
                Some(s) => match sub_from(list[i].subs@, s, 0) {
                    Some(k) => if list[i].subs@[k].sounds@.len() > 0 {
                        text::texts(list[i].subs@[k].sounds@)
                    } else {
                        text::texts(list[i].sounds@)
                    },
                    None => text::texts(list[i].sounds@),
                },
                None => text::texts(list[i].sounds@),
            },
        },
    }
}

fn find_sub(list: &Vec<SvmSub>, name: &str) -> (r: Option<usize>)
    ensures
        match r {
            Some(i) => i < list@.len() && sub_from(list@, name@, 0) == Some(i as int),
            None => sub_from(list@, name@, 0) is None,
        },
{
    let mut i: usize = 0;
    while i < list.len()
        invariant
            i <= list@.len(),
            sub_from(list@, name@, i as int) == sub_from(list@, name@, 0),
        decreases list@.len() - i,
    {
        if same(list[i].name.as_str(), name) {
            return Some(i);
        }
        i += 1;
    }
    None
}

fn sounds_for(list: &Vec<SvmVariant>, variant: &Option<String>, sub: &Option<String>) -> (r: Vec<
    String,
>)
    ensures
        text::texts(r@) == sounds_of(list@, text::opt(*variant), text::opt(*sub)),
{
    let none: Vec<String> = Vec::new();
    assert(text::texts(none@) =~= Seq::<Seq<char>>::empty());
    let name = match borrow(variant) {
        Some(n) => n,
        None => {
            return none;
        },
    };
    let mut i: usize = 0;
    while i < list.len()
        invariant
            i <= list@.len(),
            text::texts(none@) == Seq::<Seq<char>>::empty(),
            text::opt(*variant) == Some(name@),
            platform_from(list@, name@, i as int) == platform_from(list@, name@, 0),
        decreases list@.len() - i,
    {
        if same(list[i].name.as_str(), name) {
            if let Some(s) = borrow(sub) {
                if let Some(k) = find_sub(&list[i].subs, s) {
                    if list[i].subs[k].sounds.len() > 0 {
                        return copy_texts(&list[i].subs[k].sounds);
                    }
                }
            }
            return copy_texts(&list[i].sounds);
        }
        i += 1;
    }
    none
}

/// The choice of platform and of version that names stand for.
pub open spec fn choice_of(names: Seq<Seq<char>>) -> (Option<Seq<char>>, Option<Seq<char>>) {
    if names.len() == 2 {
        (Some(names[1]), Some(names[0]))
    } else if names.len() == 1 {
        (Some(names[0]), None)
    } else {
        (None, None)
    }
}

/// The choice of sound that is shown.
pub open spec fn shown_sound(sounds: Seq<Seq<char>>, wanted: Option<Seq<char>>) -> Option<Seq<char>> {
    if sounds.len() == 0 {
        None
    } else {
        Some(chosen(sounds, wanted, sounds[0]))
    }
}

/// The variants of a game and what a launch would use, as long as it can be run.
pub fn scummvm_variants(
    game_dir: &str,
    tree: &SvmDir,
    torrent_root: &str,
    music: &MusicFiles,
    cfg: &Vec<ConfigEntry>,
) -> (r: Option<ScummVmVariants>)
    ensures
        r is Some <==> variant_refusal(game_dir@, *tree, cfg@) is None,
        match r {
            Some(v) => {
                let names = variant_view(game_dir@, *tree, torrent_root@, *music, cfg@).names;
                &&& platform_views(v.variants@) == platforms_of(*tree)
                &&& text::opt(v.note) == note_of(*tree)
                &&& text::opt(v.selected.variant) == choice_of(names).0
                &&& text::opt(v.selected.sub) == choice_of(names).1
                &&& text::opt(v.selected.sound) == shown_sound(
                    sounds_of(v.variants@, choice_of(names).0, choice_of(names).1),
                    crate::games::setting(cfg@, "svm_sound"@),
                )
                &&& v.selected.subtitles == (crate::games::setting(cfg@, "svm_subtitles"@) == Some(
                    "true"@,
                ))
                &&& v.selected.aspect == (crate::games::setting(cfg@, "svm_aspect"@) != Some(
                    "false"@,
                ))
            },
            None => true,
        },
{
    let variants = list_variants(tree);
    let chosen_variant = match select_variant(game_dir, tree, torrent_root, music, cfg) {
        Ok(v) => v,
        Err(_) => {
            return None;
        },
    };
    let names = &chosen_variant.names;
    let ghost all = text::texts(names@);
    let (variant, sub) = if names.len() == 2 {
        assert(all[0] == names@[0]@ && all[1] == names@[1]@);
        (Some(copy(names[1].as_str())), Some(copy(names[0].as_str())))
    } else if names.len() == 1 {
        assert(all[0] == names@[0]@);
        (Some(copy(names[0].as_str())), None)
    } else {
        (None, None)
    };
    let sounds = sounds_for(&variants, &variant, &sub);
    let wanted = config_value(cfg, "svm_sound");
    let sound = if sounds.len() == 0 {
        None
    } else {
        assert(text::texts(sounds@)[0] == sounds@[0]@);
        Some(choice(&sounds, &wanted, sounds[0].as_str()))
    };
    let subtitles = match config_value(cfg, "svm_subtitles") {
        Some(v) => same(v.as_str(), "true"),
        None => false,
    };
    let aspect = match config_value(cfg, "svm_aspect") {
        Some(v) => !same(v.as_str(), "false"),
        None => true,
    };
    Some(
        ScummVmVariants {
            variants,
            note: chosen_variant.note,
            selected: SvmSelection { variant, sub, sound, subtitles, aspect },
        },
    )
}

// ── Options ──────────────────────────────────────────────────────────────────

/// All choices for a game. What is not set is cleared.
pub struct SvmOptions {
    pub variant: Option<String>,
    pub sub: Option<String>,
    pub sound: Option<String>,
    pub subtitles: Option<bool>,
    pub aspect: Option<bool>,
}

/// A setting to store, or to clear where it has no value.
pub struct OptionChange {
    pub key: &'static str,
    pub value: Option<String>,
}

/// The value that is stored of a choice: without the blanks around it, and none that is
/// blank.
pub open spec fn stored_value(value: Option<Seq<char>>) -> Option<Seq<char>> {
    match value {
        Some(v) => if text::trim(v).len() > 0 {
            Some(text::trim(v))
        } else {
            None
        },
        None => None,
    }
}

fn keep_value(value: &Option<String>) -> (r: Option<String>)
    ensures
        text::opt(r) == stored_value(text::opt(*value)),
{
    match value {
        Some(v) => {
            let chars = chars_of(v.as_str());
            let kept = trim_of(chars.as_slice());
            if kept.len() > 0 {
                Some(string_of(kept))
            } else {
                None
            }
        },
        None => None,
    }
}

/// What is stored of the choices for a game. Subtitles are stored where they are on,
/// and the aspect ratio where it is off.
pub fn set_scummvm_options(options: &SvmOptions) -> (r: Vec<OptionChange>)
    ensures
        r@.len() == 5,
        r@[0].key@ == "svm_variant"@ && text::opt(r@[0].value) == stored_value(text::opt(options.variant)),
        r@[1].key@ == "svm_sub"@ && text::opt(r@[1].value) == stored_value(text::opt(options.sub)),
        r@[2].key@ == "svm_sound"@ && text::opt(r@[2].value) == stored_value(text::opt(options.sound)),
        r@[3].key@ == "svm_subtitles"@ && text::opt(r@[3].value) == (if options.subtitles == Some(true) {
            Some("true"@)
        } else {
            None
        }),
        r@[4].key@ == "svm_aspect"@ && text::opt(r@[4].value) == (if options.aspect == Some(false) {
            Some("false"@)
        } else {
            None
        }),
{
    let subtitles = match options.subtitles {
        Some(true) => Some(copy("true")),
        _ => None,
    };
    let aspect = match options.aspect {
        Some(false) => Some(copy("false")),
        _ => None,
    };
    vec![
        OptionChange { key: "svm_variant", value: keep_value(&options.variant) },
        OptionChange { key: "svm_sub", value: keep_value(&options.sub) },
        OptionChange { key: "svm_sound", value: keep_value(&options.sound) },
        OptionChange { key: "svm_subtitles", value: subtitles },
        OptionChange { key: "svm_aspect", value: aspect },
    ]
}

// ── Detecting and launching ──────────────────────────────────────────────────

/// The rows of a table, below the rule at `i` or later, that say something.
pub open spec fn rows_below(list: Seq<Seq<char>>, from: int, n: int) -> Seq<Seq<char>>
    decreases n - from,
{
    if n <= from {
        Seq::<Seq<char>>::empty()
    } else if text::trim(list[n - 1]).len() > 0 {
        rows_below(list, from, n - 1).push(list[n - 1])
    } else {
        rows_below(list, from, n - 1)
    }
}

/// The first rule of a table, at `i` or later.
pub open spec fn rule_from(list: Seq<Seq<char>>, i: int) -> Option<int>
    decreases list.len() - i,
{
    if i >= list.len() {
        None
    } else if "---"@.is_prefix_of(list[i]) {
        Some(i)
    } else {
        rule_from(list, i + 1)
    }
}

/// The games that ScummVM lists.
pub open spec fn listed_rows(output: Seq<char>) -> Seq<Seq<char>> {
    match rule_from(text::lines(output), 0) {
        Some(i) => rows_below(text::lines(output), i + 1, text::lines(output).len() as int),
        None => Seq::<Seq<char>>::empty(),
    }
}

/// ScummVM knows the game data. A target that has a name of its own cannot be told by
/// it, so any row counts for one.
pub open spec fn knows_game(output: Seq<char>, game_id: Seq<char>) -> bool {
    let rows = listed_rows(output);
    if game_id.contains(':') {
        exists|i: int|
            0 <= i < rows.len() && text::words(#[trigger] rows[i]).len() > 0 && text::words(rows[i])[0]
                == game_id
    } else {
        rows.len() > 0
    }
}

fn read_rows(output: &str) -> (r: Vec<String>)
    ensures
        text::texts(r@) == listed_rows(output@),
{
    let list = lines_of(output);
    let ghost all = text::texts(list@);
    let mut out: Vec<String> = Vec::new();
    assert(text::texts(out@) =~= Seq::<Seq<char>>::empty());
    let mut i: usize = 0;
    while i < list.len() && !has_prefix(chars_of(list[i].as_str()).as_slice(), "---")
        invariant
            i <= list@.len(),
            all == text::texts(list@),
            rule_from(all, i as int) == rule_from(all, 0),
        decreases list@.len() - i,
    {
        assert(all[i as int] == list@[i as int]@);
        i += 1;
    }
    if i >= list.len() {
        assert(rule_from(all, 0) is None);
        return out;
    }
    assert(all[i as int] == list@[i as int]@);
    let mut n: usize = i + 1;
    let from: usize = i + 1;
    while n < list.len()
        invariant
            from <= n <= list@.len(),
            all == text::texts(list@),
            text::texts(out@) == rows_below(all, from as int, n as int),
        decreases list@.len() - n,
    {
        assert(all[n as int] == list@[n as int]@);
        let chars = chars_of(list[n].as_str());
        if trim_of(chars.as_slice()).len() > 0 {
            let ghost done = text::texts(out@);
            out.push(copy(list[n].as_str()));
            assert(text::texts(out@) =~= done.push(all[n as int]));
        }
        n += 1;
    }
    out
}

/// Whether ScummVM knows the game data: what it lists below the rule of its table.
pub fn detects(output: &str, game_id: &str) -> (r: bool)
    ensures
        r == knows_game(output@, game_id@),
{
    let rows = read_rows(output);
    let ghost all = text::texts(rows@);
    let id = chars_of(game_id);
    let exact = match find_char(id.as_slice(), ':', 0) {
        Some(_) => true,
        None => false,
    };
    proof {
        text::lemma_char_from(game_id@, ':', 0);
    }
    assert(exact == game_id@.contains(':'));
    assert(all.len() == rows@.len());
    if !exact {
        return rows.len() > 0;
    }
    let mut i: usize = 0;
    while i < rows.len()
        invariant
            i <= rows@.len(),
            all == text::texts(rows@),
            all == listed_rows(output@),
            game_id@.contains(':'),
            forall|k: int|
                0 <= k < i ==> !(text::words(#[trigger] all[k]).len() > 0 && text::words(all[k])[0] == game_id@),
        decreases rows@.len() - i,
    {
        assert(all[i as int] == rows@[i as int]@);
        let chars = chars_of(rows[i].as_str());
        let cells = words_of(chars.as_slice());
        if cells.len() > 0 {
            assert(text::texts(cells@)[0] == cells@[0]@);
            if same(cells[0].as_str(), game_id) {
                return true;
            }
        } else {
            assert(text::texts(cells@).len() == 0);
        }
        i += 1;
    }
    false
}

/// What is said where ScummVM does not know the game data.
pub fn undetected(run_dir: &str, game_id: &str) -> (r: String)
    ensures
        r@ == "ScummVM does not recognise the game data in "@ + run_dir@ + " (expected "@ + game_id@
            + "). The download may be incomplete - try re-downloading the game."@,
{
    let head = cat3("ScummVM does not recognise the game data in ", run_dir, " (expected ");
    cat3(
        head.as_str(),
        game_id,
        "). The download may be incomplete - try re-downloading the game.",
    )
}

/// Whether a game fills the screen: what is stored for it, and else what is set for all.
pub open spec fn fills_screen(cfg: Seq<ConfigEntry>, fullscreen: bool) -> bool {
    if crate::games::setting(cfg, "fullscreen"@) == Some("true"@) {
        true
    } else if crate::games::setting(cfg, "fullscreen"@) == Some("false"@) {
        false
    } else {
        fullscreen
    }
}

/// The arguments that ScummVM is started with.
pub open spec fn launch_line(
    os: Os,
    fullscreen: bool,
    cfg: Seq<ConfigEntry>,
    ini: Seq<char>,
    v: VariantView,
    save_dir: Seq<char>,
    game_id: Seq<char>,
) -> Seq<Seq<char>> {
    (if os == Os::Windows {
        seq!["--no-console"@]
    } else {
        Seq::<Seq<char>>::empty()
    }) + (if fills_screen(cfg, fullscreen) {
        seq!["-f"@]
    } else {
        seq!["-F"@]
    }) + (if crate::games::setting(cfg, "svm_aspect"@) != Some("false"@) {
        seq!["--aspect-ratio"@]
    } else {
        Seq::<Seq<char>>::empty()
    }) + seq!["--stretch-mode=pixel-perfect"@, "--config="@ + ini] + v.extra_args + (match v.platform {
        Some(p) => seq!["--platform="@ + p],
        None => Seq::<Seq<char>>::empty(),
    }) + seq!["--savepath="@ + save_dir, "--path="@ + v.run_dir, game_id]
}

/// The arguments that ScummVM is started with.
pub fn launch_args(
    os: Os,
    fullscreen: bool,
    cfg: &Vec<ConfigEntry>,
    ini: &str,
    variant: &Variant,
    save_dir: &str,
    game_id: &str,
) -> (r: Vec<String>)
    ensures
        text::texts(r@) == launch_line(os, fullscreen, cfg@, ini@, variant@, save_dir@, game_id@),
{
    let mut out: Vec<String> = Vec::new();
    if let Os::Windows = os {
        out.push(copy("--no-console"));
    }
    let full = match config_value(cfg, "fullscreen") {
        Some(v) => if same(v.as_str(), "true") {
            true
        } else if same(v.as_str(), "false") {
            false
        } else {
            fullscreen
        },
        None => fullscreen,
    };
    if full {
        out.push(copy("-f"));
    } else {
        out.push(copy("-F"));
    }
    let aspect = match config_value(cfg, "svm_aspect") {
        Some(v) => !same(v.as_str(), "false"),
        None => true,
    };
    if aspect {
        out.push(copy("--aspect-ratio"));
    }
    out.push(copy("--stretch-mode=pixel-perfect"));
    out.push(cat("--config=", ini));
    let mut more = copy_texts(&variant.extra_args);
    let ghost front = out@;
    let ghost mid = more@;
    out.append(&mut more);
    assert(text::texts(out@) =~= text::texts(front) + text::texts(mid));
    if let Some(p) = borrow(&variant.platform) {
        out.push(cat("--platform=", p));
    }
    out.push(cat("--savepath=", save_dir));
    out.push(cat("--path=", variant.run_dir.as_str()));
    out.push(copy(game_id));
    assert(text::texts(out@) =~= launch_line(
        os,
        fullscreen,
        cfg@,
        ini@,
        variant@,
        save_dir@,
        game_id@,
    ));
    out
}

// ── Launching ────────────────────────────────────────────────────────────────

/// The names that a game is looked up by: the directories that were chosen, and
/// behind them that of the game.
pub open spec fn launch_names(names: Seq<Seq<char>>, shortcode: Option<Seq<char>>) -> Seq<
    Seq<char>,
> {
    names.push(
        match shortcode {
            Some(code) => code,
            None => Seq::<char>::empty(),
        },
    )
}

/// The entry of the index that a game is launched by.
pub fn launch_entry<'a>(
    index: &'a Vec<IndexEntry>,
    title: &str,
    shortcode: Option<&str>,
    variant: &Variant,
) -> (r: Result<&'a IndexEntry, String>)
    ensures
        ({
            let names = launch_names(variant@.names, text::opt_ref(shortcode));
            match (r, entry_for(index@, names)) {
                (Ok(e), Some(i)) => 0 <= i < index@.len() && *e == index@[i],
                (Err(message), None) => message@ == "'"@ + title@
                    + "' is not in eXo's ScummVM launch index ("@ + text::join(names, " / "@) + ")."@,
                _ => false,
            }
        }),
{
    let mut names = copy_texts(&variant.names);
    let ghost chosen = text::texts(names@);
    let last = match shortcode {
        Some(code) => copy(code),
        None => copy(""),
    };
    proof {
        reveal_strlit("");
    }
    assert(last@ =~= match shortcode {
        Some(code) => code@,
        None => Seq::<char>::empty(),
    });
    let ghost code = last@;
    names.push(last);
    assert(text::texts(names@) =~= chosen.push(code));
    match lookup(index, &names) {
        Some(e) => Ok(e),
        None => Err(not_indexed(title, &names)),
    }
}

/// The engine that a game of this build is launched by.
pub fn launch_engine(os: Os, slug: &str, facts: &EngineFacts) -> (r: Result<EngineSource, String>)
    ensures
        match r {
            Ok(source) => engine_of(os, *facts) == Some(source),
            Err(message) => engine_of(os, *facts) is None && message@ == engine_missing_text(
                os,
                slug@,
            ),
        },
{
    match resolve_scummvm(os, facts) {
        Some(source) => Ok(source),
        None => Err(engine_missing(os, slug)),
    }
}

/// Where a game keeps its saves: with the game, so that they are backed up and reset
/// with it.
pub fn save_dir(game_dir: &str) -> (r: String)
    ensures
        r@ == crate::fspath::joined(game_dir@, "!saves"@),
{
    join_path(game_dir, "!saves")
}

/// Whether the engine knows the game's data, by what it printed. It would open its
/// own window for data that it does not know.
pub fn check_detection(output: &str, run_dir: &str, game_id: &str) -> (r: Result<(), String>)
    ensures
        match r {
            Ok(_) => knows_game(output@, game_id@),
            Err(message) => !knows_game(output@, game_id@) && message@
                == "ScummVM does not recognise the game data in "@ + run_dir@ + " (expected "@
                + game_id@
                + "). The download may be incomplete - try re-downloading the game."@,
        },
{
    if detects(output, game_id) {
        Ok(())
    } else {
        Err(undetected(run_dir, game_id))
    }
}

// ── Laws ─────────────────────────────────────────────────────────────────────

/// Whatever build a game is pinned to, the pack that serves it is one of the releases.
pub proof fn law_packs_are_releases(slug: Seq<char>)
    ensures
        is_release(pack_version_of(slug)),
{
}

/// A name that is a directory of the index is never taken for one that a directory
/// merely begins with.
pub proof fn law_exact_entries_go_first(index: Seq<IndexEntry>, names: Seq<Seq<char>>, k: int, i: int)
    requires
        0 <= k < names.len(),
        0 <= i < index.len(),
        text::lower(index[i].dir@) == text::lower(names[k]),
    ensures
        entry_for(index, names) is Some,
        entry_for(index, names) == named_from(index, names, true, 0),
{
    lemma_fitting(index, names[k], true, 0, i);
    lemma_named(index, names, true, 0, k);
}

proof fn lemma_fitting(index: Seq<IndexEntry>, name: Seq<char>, whole: bool, from: int, i: int)
    requires
        0 <= from <= i < index.len(),
        dir_fits(index[i].dir@, name, whole),
    ensures
        fitting_from(index, name, whole, from) is Some,
    decreases i - from,
{
    if from < i {
        lemma_fitting(index, name, whole, from + 1, i);
    }
}

proof fn lemma_named(
    index: Seq<IndexEntry>,
    names: Seq<Seq<char>>,
    whole: bool,
    from: int,
    k: int,
)
    requires
        0 <= from <= k < names.len(),
        fitting_from(index, names[k], whole, 0) is Some,
    ensures
        named_from(index, names, whole, from) is Some,
    decreases k - from,
{
    if from < k {
        lemma_named(index, names, whole, from + 1, k);
    }
}

/// A stored choice as far as it names an entry.
pub open spec fn standing(wanted: Option<Seq<char>>, entries: Seq<Seq<char>>) -> Option<Seq<char>> {
    match wanted {
        Some(w) if entries.contains(w) => Some(w),
        _ => None,
    }
}

/// Stored choices that name no entry change nothing: a game runs as it does where they
/// are left out, and two configurations whose other choices agree run it alike.
pub proof fn law_stray_choices_change_nothing(
    game_dir: Seq<char>,
    tree: SvmDir,
    root: Seq<char>,
    music: MusicFiles,
    a: Seq<ConfigEntry>,
    b: Seq<ConfigEntry>,
)
    requires
        standing(crate::games::setting(a, "svm_variant"@), menu(tree.dirs@)) == standing(
            crate::games::setting(b, "svm_variant"@),
            menu(tree.dirs@),
        ),
        standing(crate::games::setting(a, "svm_sub"@), menu(outer_dir(tree, a).dirs@)) == standing(
            crate::games::setting(b, "svm_sub"@),
            menu(outer_dir(tree, a).dirs@),
        ),
        ({
            let outer = outer_dir(tree, a);
            let sounds = menu_of(probed(run_dir_of(outer, a), outer, "sound.txt"@));
            standing(crate::games::setting(a, "svm_sound"@), sounds) == standing(
                crate::games::setting(b, "svm_sound"@),
                sounds,
            )
        }),
        crate::games::setting(a, "svm_subtitles"@) == crate::games::setting(b, "svm_subtitles"@),
    ensures
        variant_refusal(game_dir, tree, a) == variant_refusal(game_dir, tree, b),
        variant_view(game_dir, tree, root, music, a) == variant_view(
            game_dir,
            tree,
            root,
            music,
            b,
        ),
{
    assert(outer_name(tree, a) == outer_name(tree, b));
    let outer = outer_dir(tree, a);
    assert(inner_name(outer, a) == inner_name(outer, b));
    let run = run_dir_of(outer, a);
    assert(run == run_dir_of(outer, b));
    let mt32 = crate::fspath::joined(root, "eXo/mt32"@);
    assert(sound_of(run, outer, a, mt32, music) == sound_of(run, outer, b, mt32, music));
}

/// A game runs from the directories that its names tell, the innermost name first.
pub proof fn law_run_dir_follows_the_names(
    game_dir: Seq<char>,
    tree: SvmDir,
    root: Seq<char>,
    music: MusicFiles,
    cfg: Seq<ConfigEntry>,
)
    ensures
        ({
            let v = variant_view(game_dir, tree, root, music, cfg);
            &&& 1 <= v.names.len() <= 2
            &&& v.run_dir == if v.names.len() == 2 {
                crate::fspath::joined(crate::fspath::joined(game_dir, v.names[1]), v.names[0])
            } else {
                crate::fspath::joined(game_dir, v.names[0])
            }
        }),
{
}

/// Without a choice the first entry of each menu is run, past the other languages
/// where there is anything else.
pub proof fn law_first_entries_are_the_default(tree: SvmDir, cfg: Seq<ConfigEntry>, i: int)
    requires
        crate::games::setting(cfg, "svm_variant"@) is None,
        crate::games::setting(cfg, "svm_sub"@) is None,
        0 <= i < menu(tree.dirs@).len(),
        menu(tree.dirs@)[i] != "Other Languages"@,
        forall|k: int| 0 <= k < i ==> #[trigger] menu(tree.dirs@)[k] == "Other Languages"@,
    ensures
        outer_name(tree, cfg) == menu(tree.dirs@)[i],
        inner_name(outer_dir(tree, cfg), cfg) == menu(outer_dir(tree, cfg).dirs@)[0],
{
    lemma_first_version(menu(tree.dirs@), 0, i);
}

proof fn lemma_first_version(m: Seq<Seq<char>>, from: int, i: int)
    requires
        0 <= from <= i < m.len(),
        m[i] != "Other Languages"@,
        forall|k: int| from <= k < i ==> #[trigger] m[k] == "Other Languages"@,
    ensures
        version_entry(m, from) == Some(m[i]),
    decreases i - from,
{
    if from < i {
        assert(m[from] == "Other Languages"@);
        lemma_first_version(m, from + 1, i);
    }
}

/// A stored choice that the menu still has is the one that is run.
pub proof fn law_stored_choice_is_run(tree: SvmDir, cfg: Seq<ConfigEntry>, name: Seq<char>)
    requires
        crate::games::setting(cfg, "svm_variant"@) == Some(name),
        menu(tree.dirs@).contains(name),
    ensures
        outer_name(tree, cfg) == name,
{
}

// What a game is run with

/// `i` is the place of the first file of this name.
pub open spec fn is_file_at(dir: SvmDir, name: Seq<char>, i: int) -> bool {
    &&& 0 <= i < dir.files@.len()
    &&& dir.files@[i].name@ == name
    &&& forall|k: int| 0 <= k < i ==> (#[trigger] dir.files@[k]).name@ != name
}

/// No file of the directory has this name.
pub open spec fn lacks(dir: SvmDir, name: Seq<char>) -> bool {
    forall|k: int| 0 <= k < dir.files@.len() ==> (#[trigger] dir.files@[k]).name@ != name
}

/// The control file of this name says `says`: that of the directory that is run, and where it
/// has none that of the platform's.
pub open spec fn control_says(run: SvmDir, outer: SvmDir, name: Seq<char>, says: Seq<char>) -> bool {
    ||| exists|i: int| #[trigger]
        is_file_at(run, name, i) && run.files@[i].content is Some && (run.files@[i].content->0)@
            == says
    ||| lacks(run, name) && exists|i: int| #[trigger]
        is_file_at(outer, name, i) && outer.files@[i].content is Some && (
        outer.files@[i].content->0)@ == says
}

/// Neither directory has a control file of this name.
pub open spec fn control_lacks(run: SvmDir, outer: SvmDir, name: Seq<char>) -> bool {
    lacks(run, name) && lacks(outer, name)
}

/// The settings say `value` of `key`.
pub open spec fn is_set(cfg: Seq<ConfigEntry>, key: Seq<char>, value: Seq<char>) -> bool {
    exists|i: int|
        0 <= i < cfg.len() && (#[trigger] cfg[i]).key@ == key && cfg[i].value@ == value && forall|
            k: int,
        |
            0 <= k < i ==> (#[trigger] cfg[k]).key@ != key
}

/// The settings say nothing of `key`.
pub open spec fn is_unset(cfg: Seq<ConfigEntry>, key: Seq<char>) -> bool {
    forall|i: int| 0 <= i < cfg.len() ==> (#[trigger] cfg[i]).key@ != key
}

/// The menu that a text gives has this entry: it stands between colons of the first line.
pub open spec fn offers(menu_text: Seq<char>, entry: Seq<char>) -> bool {
    text::lines(menu_text).len() > 0 && exists|i: int|
        0 <= i < text::split(text::lines(menu_text)[0], ':').len() && text::trim(
            #[trigger] text::split(text::lines(menu_text)[0], ':')[i],
        ) == entry
}

/// `run` is the directory that a game is run from and `outer` that of its platform, as the
/// names of the variant tell.
pub open spec fn runs_in(v: VariantView, tree: SvmDir, outer: SvmDir, run: SvmDir) -> bool {
    &&& v.names.len() > 0
    &&& is_dir_of(tree.dirs@, v.names.last(), outer)
    &&& if v.names.len() == 1 {
        run == outer
    } else {
        is_dir_of(outer.dirs@, v.names[0], run)
    }
}

/// `dir` is the first directory of this name.
pub open spec fn is_dir_of(dirs: Seq<SvmDir>, name: Seq<char>, dir: SvmDir) -> bool {
    exists|i: int|
        0 <= i < dirs.len() && #[trigger] dirs[i] == dir && dirs[i].name@ == name && forall|k: int|
            0 <= k < i ==> (#[trigger] dirs[k]).name@ != name
}

proof fn lemma_file_at(dir: SvmDir, name: Seq<char>, i: int, from: int)
    requires
        is_file_at(dir, name, i),
        0 <= from <= i,
    ensures
        file_from(dir.files@, name, from) == Some(i),
    decreases i - from,
{
    if from < i {
        lemma_file_at(dir, name, i, from + 1);
    }
}

proof fn lemma_lacks(dir: SvmDir, name: Seq<char>, from: int)
    requires
        lacks(dir, name),
        0 <= from,
    ensures
        file_from(dir.files@, name, from) is None,
    decreases dir.files@.len() - from,
{
    if from < dir.files@.len() {
        lemma_lacks(dir, name, from + 1);
    }
}

proof fn lemma_control_says(run: SvmDir, outer: SvmDir, name: Seq<char>, says: Seq<char>)
    requires
        control_says(run, outer, name, says),
    ensures
        probed(run, outer, name) == Some(says),
        is_probed(run, outer, name),
{
    if exists|i: int| #[trigger]
        is_file_at(run, name, i) && run.files@[i].content is Some && (run.files@[i].content->0)@
            == says {
        let i = choose|i: int| #[trigger]
            is_file_at(run, name, i) && run.files@[i].content is Some && (
            run.files@[i].content->0)@ == says;
        lemma_file_at(run, name, i, 0);
    } else {
        lemma_lacks(run, name, 0);
        let i = choose|i: int| #[trigger]
            is_file_at(outer, name, i) && outer.files@[i].content is Some && (
            outer.files@[i].content->0)@ == says;
        lemma_file_at(outer, name, i, 0);
    }
}

proof fn lemma_control_lacks(run: SvmDir, outer: SvmDir, name: Seq<char>)
    requires
        control_lacks(run, outer, name),
    ensures
        probed(run, outer, name) is None,
        !is_probed(run, outer, name),
{
    lemma_lacks(run, name, 0);
    lemma_lacks(outer, name, 0);
}

proof fn lemma_is_set(cfg: Seq<ConfigEntry>, key: Seq<char>, value: Seq<char>)
    requires
        is_set(cfg, key, value),
    ensures
        crate::games::setting(cfg, key) == Some(value),
{
    let i = choose|i: int|
        0 <= i < cfg.len() && (#[trigger] cfg[i]).key@ == key && cfg[i].value@ == value && forall|
            k: int,
        |
            0 <= k < i ==> (#[trigger] cfg[k]).key@ != key;
    lemma_setting_at(cfg, key, i, 0);
}

proof fn lemma_setting_at(cfg: Seq<ConfigEntry>, key: Seq<char>, i: int, from: int)
    requires
        0 <= from <= i < cfg.len(),
        cfg[i].key@ == key,
        forall|k: int| 0 <= k < i ==> (#[trigger] cfg[k]).key@ != key,
    ensures
        crate::games::setting_from(cfg, key, from) == Some(cfg[i].value@),
    decreases i - from,
{
    if from < i {
        lemma_setting_at(cfg, key, i, from + 1);
    }
}

proof fn lemma_is_unset(cfg: Seq<ConfigEntry>, key: Seq<char>, from: int)
    requires
        is_unset(cfg, key),
        0 <= from,
    ensures
        crate::games::setting_from(cfg, key, from) is None,
    decreases cfg.len() - from,
{
    if from < cfg.len() {
        lemma_is_unset(cfg, key, from + 1);
    }
}

proof fn lemma_said(pieces: Seq<Seq<char>>, i: int, n: int)
    requires
        0 <= i < n <= pieces.len(),
        text::trim(pieces[i]).len() > 0,
    ensures
        said_pieces(pieces, n).contains(text::trim(pieces[i])),
    decreases n,
{
    let now = said_pieces(pieces, n);
    let before = said_pieces(pieces, n - 1);
    let entry = text::trim(pieces[i]);
    if i < n - 1 {
        lemma_said(pieces, i, n - 1);
        let w = choose|w: int| 0 <= w < before.len() && before[w] == entry;
        assert(now[w] == entry);
    } else {
        assert(now[before.len() as int] == entry);
    }
}

proof fn lemma_offers(menu_text: Seq<char>, entry: Seq<char>)
    requires
        offers(menu_text, entry),
        entry.len() > 0,
    ensures
        menu_of(Some(menu_text)).contains(entry),
{
    let pieces = text::split(text::lines(menu_text)[0], ':');
    let i = choose|i: int| 0 <= i < pieces.len() && text::trim(#[trigger] pieces[i]) == entry;
    lemma_said(pieces, i, pieces.len() as int);
}

proof fn lemma_first_dir(dirs: Seq<SvmDir>, name: Seq<char>, dir: SvmDir)
    requires
        is_dir_of(dirs, name, dir),
    ensures
        dir_from(dirs, name, 0) is Some,
        dirs[dir_from(dirs, name, 0)->0] == dir,
{
    let i = choose|i: int|
        0 <= i < dirs.len() && #[trigger] dirs[i] == dir && dirs[i].name@ == name && forall|k: int|
            0 <= k < i ==> (#[trigger] dirs[k]).name@ != name;
    lemma_dir_from(dirs, name, 0, i);
    let j = dir_from(dirs, name, 0)->0;
    assert(dirs[j].name@ == name);
}

proof fn lemma_runs_in(
    game_dir: Seq<char>,
    tree: SvmDir,
    root: Seq<char>,
    music: MusicFiles,
    cfg: Seq<ConfigEntry>,
    outer: SvmDir,
    run: SvmDir,
)
    requires
        runs_in(variant_view(game_dir, tree, root, music, cfg), tree, outer, run),
    ensures
        outer == outer_dir(tree, cfg),
        run == run_dir_of(outer, cfg),
{
    let v = variant_view(game_dir, tree, root, music, cfg);
    assert(v.names.last() == outer_name(tree, cfg));
    lemma_first_dir(tree.dirs@, v.names.last(), outer);
    if v.names.len() == 2 {
        assert(v.names[0] == inner_name(outer, cfg));
        lemma_first_dir(outer.dirs@, v.names[0], run);
    }
}

/// The options of a variant begin with these.
pub open spec fn begins_with_options(v: VariantView, options: Seq<Seq<char>>) -> bool {
    options.is_prefix_of(v.extra_args)
}

/// A sound that the game's menu offers and that was chosen is what the game is played with:
/// the Sound Canvas with its SoundFont, the MT-32 with its ROMs, the Tandy and the CMS with
/// their drivers. Where the files of the first two are not there, it is played as with a
/// Sound Blaster.
pub proof fn law_the_chosen_sound_is_played(
    game_dir: Seq<char>,
    tree: SvmDir,
    root: Seq<char>,
    music: MusicFiles,
    cfg: Seq<ConfigEntry>,
    outer: SvmDir,
    run: SvmDir,
    menu_text: Seq<char>,
    sound: Seq<char>,
)
    requires
        runs_in(variant_view(game_dir, tree, root, music, cfg), tree, outer, run),
        control_says(run, outer, "sound.txt"@, menu_text),
        offers(menu_text, sound),
        sound.len() > 0,
        is_set(cfg, "svm_sound"@, sound),
    ensures
        ({
            let v = variant_view(game_dir, tree, root, music, cfg);
            let mt32 = crate::fspath::joined(root, "eXo/mt32"@);
            &&& sound == "Sound Canvas"@ && music.soundfont ==> begins_with_options(
                v,
                seq![
                    "--opl-driver=nuked"@,
                    "-efluidsynth"@,
                    "--multi-midi"@,
                    "--soundfont="@ + crate::fspath::joined(mt32, "SoundCanvas.sf2"@),
                    "--output-rate=44100"@,
                ],
            )
            &&& sound == "Roland MT32"@ && music.roms && control_lacks(run, outer, "mt32_rev0.txt"@)
                ==> begins_with_options(
                v,
                seq![
                    "--opl-driver=nuked"@,
                    "-emt32"@,
                    "--multi-midi"@,
                    "--extrapath="@ + mt32,
                    "--output-rate=44100"@,
                ],
            )
            &&& sound == "Roland MT32"@ && music.roms && !control_lacks(
                run,
                outer,
                "mt32_rev0.txt"@,
            ) ==> begins_with_options(
                v,
                seq![
                    "--opl-driver=nuked"@,
                    "-emt32"@,
                    "--multi-midi"@,
                    "--extrapath="@ + crate::fspath::joined(mt32, "rev0"@),
                    "--output-rate=44100"@,
                ],
            )
            &&& sound == "Tandy"@ ==> begins_with_options(
                v,
                seq!["--opl-driver=nuked"@, "-epcjr"@, "--output-rate=44100"@],
            )
            &&& sound == "Creative Music System (CMS)"@ ==> begins_with_options(
                v,
                seq!["--opl-driver=nuked"@, "-ecms"@, "--output-rate=44100"@],
            )
            &&& (sound == "Sound Canvas"@ && !music.soundfont) || (sound == "Roland MT32"@
                && !music.roms) || sound == "Sound Blaster"@ || sound
                == "James Woodcock's Enhanced Music"@ ==> begins_with_options(
                v,
                seq!["--opl-driver=nuked"@, "--output-rate=44100"@],
            )
        }),
{
    let v = variant_view(game_dir, tree, root, music, cfg);
    let mt32 = crate::fspath::joined(root, "eXo/mt32"@);
    lemma_runs_in(game_dir, tree, root, music, cfg, outer, run);
    lemma_control_says(run, outer, "sound.txt"@, menu_text);
    lemma_offers(menu_text, sound);
    lemma_is_set(cfg, "svm_sound"@, sound);
    let entries = menu_of(Some(menu_text));
    assert(entries.len() > 0);
    assert(chosen(entries, Some(sound), entries[0]) == sound);
    let rev0 = is_probed(run, outer, "mt32_rev0.txt"@);
    lemma_probed_iff(run, outer, "mt32_rev0.txt"@);
    let (prefix, flags) = sound_of(run, outer, cfg, mt32, music);
    assert((prefix, flags) == sound_flags(sound, mt32, music, rev0));
    assert(flags.is_prefix_of(v.extra_args)) by {
        assert(v.extra_args == extra_of(run, outer, cfg, mt32, music));
        assert(v.extra_args.take(flags.len() as int) =~= flags);
    }
    lemma_sound_names();
}

proof fn lemma_sound_names()
    ensures
        "Sound Canvas"@ != "Tandy"@,
        "Sound Canvas"@ != "Creative Music System (CMS)"@,
        "Sound Canvas"@ != "Roland MT32"@,
        "Sound Canvas"@ != "James Woodcock's Enhanced Music"@,
        "Roland MT32"@ != "Tandy"@,
        "Roland MT32"@ != "Creative Music System (CMS)"@,
        "Roland MT32"@ != "James Woodcock's Enhanced Music"@,
        "Creative Music System (CMS)"@ != "Tandy"@,
        "Sound Blaster"@ != "Tandy"@,
        "Sound Blaster"@ != "Creative Music System (CMS)"@,
        "Sound Blaster"@ != "Roland MT32"@,
        "Sound Blaster"@ != "Sound Canvas"@,
        "James Woodcock's Enhanced Music"@ != "Tandy"@,
        "James Woodcock's Enhanced Music"@ != "Creative Music System (CMS)"@,
{
    reveal_strlit("Sound Canvas");
    reveal_strlit("Tandy");
    reveal_strlit("Creative Music System (CMS)");
    reveal_strlit("Roland MT32");
    reveal_strlit("James Woodcock's Enhanced Music");
    reveal_strlit("Sound Blaster");
    assert("Sound Canvas"@.len() == 12 && "Tandy"@.len() == 5 && "Roland MT32"@.len() == 11);
    assert("Creative Music System (CMS)"@.len() == 27 && "Sound Blaster"@.len() == 13);
    assert("James Woodcock's Enhanced Music"@.len() == 31);
}

proof fn lemma_probed_iff(run: SvmDir, outer: SvmDir, name: Seq<char>)
    ensures
        is_probed(run, outer, name) == !control_lacks(run, outer, name),
{
    lemma_has_file(run, name, 0);
    lemma_has_file(outer, name, 0);
    if lacks(run, name) {
        lemma_lacks(run, name, 0);
    }
    if lacks(outer, name) {
        lemma_lacks(outer, name, 0);
    }
}

proof fn lemma_has_file(dir: SvmDir, name: Seq<char>, from: int)
    requires
        0 <= from,
    ensures
        file_from(dir.files@, name, from) matches Some(i) ==> from <= i < dir.files@.len()
            && dir.files@[i].name@ == name,
        file_from(dir.files@, name, from) is None ==> forall|k: int|
            from <= k < dir.files@.len() ==> (#[trigger] dir.files@[k]).name@ != name,
    decreases dir.files@.len() - from,
{
    if from < dir.files@.len() && dir.files@[from].name@ != name {
        lemma_has_file(dir, name, from + 1);
    }
}

/// Without a menu of sounds a game is played with the plain options, and without a choice
/// with the first sound of its menu.
pub proof fn law_the_first_sound_is_the_default(
    game_dir: Seq<char>,
    tree: SvmDir,
    root: Seq<char>,
    music: MusicFiles,
    cfg: Seq<ConfigEntry>,
    choosing: Seq<ConfigEntry>,
    outer: SvmDir,
    run: SvmDir,
    menu_text: Seq<char>,
    first: Seq<char>,
)
    requires
        runs_in(variant_view(game_dir, tree, root, music, cfg), tree, outer, run),
    ensures
        control_lacks(run, outer, "sound.txt"@) ==> begins_with_options(
            variant_view(game_dir, tree, root, music, cfg),
            seq!["--opl-driver=nuked"@, "--output-rate=44100"@],
        ),
        control_says(run, outer, "sound.txt"@, menu_text) && text::lines(menu_text).len() > 0
            && first.len() > 0 && text::trim(text::split(text::lines(menu_text)[0], ':')[0])
            == first && is_unset(cfg, "svm_sound"@) && is_set(choosing, "svm_sound"@, first)
            && agree(cfg, choosing) ==> variant_view(game_dir, tree, root, music, cfg)
            == variant_view(game_dir, tree, root, music, choosing),
{
    let v = variant_view(game_dir, tree, root, music, cfg);
    let mt32 = crate::fspath::joined(root, "eXo/mt32"@);
    lemma_runs_in(game_dir, tree, root, music, cfg, outer, run);
    if control_lacks(run, outer, "sound.txt"@) {
        lemma_control_lacks(run, outer, "sound.txt"@);
        let (prefix, flags) = sound_of(run, outer, cfg, mt32, music);
        assert(v.extra_args.take(flags.len() as int) =~= flags);
    }
    if control_says(run, outer, "sound.txt"@, menu_text) && text::lines(menu_text).len() > 0
        && first.len() > 0 && text::trim(text::split(text::lines(menu_text)[0], ':')[0]) == first
        && is_unset(cfg, "svm_sound"@) && is_set(choosing, "svm_sound"@, first) && agree(
        cfg,
        choosing,
    ) {
        lemma_control_says(run, outer, "sound.txt"@, menu_text);
        let pieces = text::split(text::lines(menu_text)[0], ':');
        text::lemma_split_some(text::lines(menu_text)[0], ':');
        lemma_first_said(pieces, pieces.len() as int);
        lemma_is_unset(cfg, "svm_sound"@, 0);
        lemma_is_set(choosing, "svm_sound"@, first);
        let entries = menu_of(Some(menu_text));
        assert(entries[0] == first);
        assert(entries.contains(first));
        assert(sound_of(run, outer, cfg, mt32, music) == sound_of(run, outer, choosing, mt32, music));
    }
}

/// The settings choose the same variant, the same version and the same subtitles.
pub open spec fn agree(a: Seq<ConfigEntry>, b: Seq<ConfigEntry>) -> bool {
    &&& crate::games::setting(a, "svm_variant"@) == crate::games::setting(b, "svm_variant"@)
    &&& crate::games::setting(a, "svm_sub"@) == crate::games::setting(b, "svm_sub"@)
    &&& crate::games::setting(a, "svm_subtitles"@) == crate::games::setting(b, "svm_subtitles"@)
}

proof fn lemma_first_said(pieces: Seq<Seq<char>>, n: int)
    requires
        0 < n <= pieces.len(),
        text::trim(pieces[0]).len() > 0,
    ensures
        said_pieces(pieces, n).len() > 0,
        said_pieces(pieces, n)[0] == text::trim(pieces[0]),
    decreases n,
{
    if n > 1 {
        lemma_first_said(pieces, n - 1);
    } else {
        assert(said_pieces(pieces, 0).len() == 0);
    }
}

/// What a control file asks for: the words before the first colon of its first line.
pub open spec fn asked_for(says: Seq<char>) -> Seq<Seq<char>> {
    if text::lines(says).len() == 0 {
        Seq::<Seq<char>>::empty()
    } else {
        text::words(
            text::trim(text::split(text::strip_back(text::lines(says)[0], '\r'), ':')[0]),
        )
    }
}

proof fn lemma_asked_for(run: SvmDir, outer: SvmDir, name: Seq<char>, says: Seq<char>)
    requires
        control_says(run, outer, name, says),
    ensures
        args_of(field_of(run, outer, name)) == asked_for(says),
{
    lemma_control_says(run, outer, name, says);
    if text::lines(says).len() > 0 {
        let field = text::trim(text::split(text::strip_back(text::lines(says)[0], '\r'), ':')[0]);
        if field.len() == 0 {
            assert(text::words(field) =~= Seq::<Seq<char>>::empty());
        }
    }
}

/// `part` stands somewhere in `all`, in one piece.
pub open spec fn stands_in(all: Seq<Seq<char>>, part: Seq<Seq<char>>) -> bool {
    exists|at: int|
        0 <= at && at + part.len() <= all.len() && #[trigger] all.subrange(at, at + part.len())
            == part
}

/// What the files for the video and, where they were chosen, for the subtitles ask for is
/// passed on.
pub proof fn law_control_files_are_passed_on(
    game_dir: Seq<char>,
    tree: SvmDir,
    root: Seq<char>,
    music: MusicFiles,
    cfg: Seq<ConfigEntry>,
    outer: SvmDir,
    run: SvmDir,
    says: Seq<char>,
)
    requires
        runs_in(variant_view(game_dir, tree, root, music, cfg), tree, outer, run),
    ensures
        ({
            let args = variant_view(game_dir, tree, root, music, cfg).extra_args;
            &&& control_says(run, outer, "video.txt"@, says) ==> stands_in(args, asked_for(says))
            &&& control_says(run, outer, "subtitle.txt"@, says) && is_set(
                cfg,
                "svm_subtitles"@,
                "true"@,
            ) ==> stands_in(args, asked_for(says))
            &&& control_says(run, outer, "audio.txt"@, says) && control_lacks(
                run,
                outer,
                "sound.txt"@,
            ) ==> stands_in(args, asked_for(says))
        }),
{
    let mt32 = crate::fspath::joined(root, "eXo/mt32"@);
    lemma_runs_in(game_dir, tree, root, music, cfg, outer, run);
    let args = extra_of(run, outer, cfg, mt32, music);
    let (prefix, flags) = sound_of(run, outer, cfg, mt32, music);
    let own = prefix + "audio.txt"@;
    let audio = if prefix.len() > 0 && is_probed(run, outer, own) {
        field_of(run, outer, own)
    } else {
        field_of(run, outer, "audio.txt"@)
    };
    let a = flags.len() as int;
    let b = a + args_of(audio).len();
    let video = args_of(field_of(run, outer, "video.txt"@));
    if control_says(run, outer, "video.txt"@, says) {
        lemma_asked_for(run, outer, "video.txt"@, says);
        assert(args.subrange(b, b + video.len()) =~= video);
    }
    if control_says(run, outer, "subtitle.txt"@, says) && is_set(cfg, "svm_subtitles"@, "true"@) {
        lemma_asked_for(run, outer, "subtitle.txt"@, says);
        lemma_is_set(cfg, "svm_subtitles"@, "true"@);
        let c = b + video.len();
        let subtitles = args_of(field_of(run, outer, "subtitle.txt"@));
        assert(args.subrange(c, c + subtitles.len()) =~= subtitles);
    }
    if control_says(run, outer, "audio.txt"@, says) && control_lacks(run, outer, "sound.txt"@) {
        lemma_asked_for(run, outer, "audio.txt"@, says);
        lemma_control_lacks(run, outer, "sound.txt"@);
        assert(args.subrange(a, b) =~= args_of(audio));
    }
}

/// What the options file of a sound begins with.
pub open spec fn sound_files() -> Seq<(Seq<char>, Seq<char>)> {
    seq![
        ("Tandy"@, "T_audio.txt"@),
        ("Creative Music System (CMS)"@, "CMS_audio.txt"@),
        ("Roland MT32"@, "mt32_audio.txt"@),
        ("Sound Canvas"@, "sc_audio.txt"@),
        ("James Woodcock's Enhanced Music"@, "eh_audio.txt"@),
        ("Sound Blaster"@, "sb_audio.txt"@),
    ]
}

/// A sound that was chosen brings the options of its own file along, where the files that it
/// needs are there; and without a file of its own those of the plain one.
pub proof fn law_a_sound_brings_its_options(
    game_dir: Seq<char>,
    tree: SvmDir,
    root: Seq<char>,
    music: MusicFiles,
    cfg: Seq<ConfigEntry>,
    outer: SvmDir,
    run: SvmDir,
    menu_text: Seq<char>,
    k: int,
    says: Seq<char>,
)
    requires
        runs_in(variant_view(game_dir, tree, root, music, cfg), tree, outer, run),
        control_says(run, outer, "sound.txt"@, menu_text),
        0 <= k < sound_files().len(),
        offers(menu_text, sound_files()[k].0),
        is_set(cfg, "svm_sound"@, sound_files()[k].0),
        music.roms,
        music.soundfont,
    ensures
        ({
            let args = variant_view(game_dir, tree, root, music, cfg).extra_args;
            &&& control_says(run, outer, sound_files()[k].1, says) ==> stands_in(
                args,
                asked_for(says),
            )
            &&& control_lacks(run, outer, sound_files()[k].1) && control_says(
                run,
                outer,
                "audio.txt"@,
                says,
            ) ==> stands_in(args, asked_for(says))
        }),
{
    let mt32 = crate::fspath::joined(root, "eXo/mt32"@);
    let sound = sound_files()[k].0;
    let file = sound_files()[k].1;
    lemma_sound_names();
    lemma_sound_files();
    lemma_runs_in(game_dir, tree, root, music, cfg, outer, run);
    lemma_control_says(run, outer, "sound.txt"@, menu_text);
    lemma_offers(menu_text, sound);
    lemma_is_set(cfg, "svm_sound"@, sound);
    let entries = menu_of(Some(menu_text));
    assert(chosen(entries, Some(sound), entries[0]) == sound);
    let args = extra_of(run, outer, cfg, mt32, music);
    let (prefix, flags) = sound_of(run, outer, cfg, mt32, music);
    assert(prefix + "audio.txt"@ == file && prefix.len() > 0);
    let audio = if prefix.len() > 0 && is_probed(run, outer, file) {
        field_of(run, outer, file)
    } else {
        field_of(run, outer, "audio.txt"@)
    };
    let a = flags.len() as int;
    let b = a + args_of(audio).len();
    if control_says(run, outer, file, says) {
        lemma_asked_for(run, outer, file, says);
        lemma_control_says(run, outer, file, says);
        assert(args.subrange(a, b) =~= args_of(audio));
    }
    if control_lacks(run, outer, file) && control_says(run, outer, "audio.txt"@, says) {
        lemma_control_lacks(run, outer, file);
        lemma_asked_for(run, outer, "audio.txt"@, says);
        assert(args.subrange(a, b) =~= args_of(audio));
    }
}

proof fn lemma_sound_files()
    ensures
        "T_"@ + "audio.txt"@ == "T_audio.txt"@,
        "CMS_"@ + "audio.txt"@ == "CMS_audio.txt"@,
        "mt32_"@ + "audio.txt"@ == "mt32_audio.txt"@,
        "sc_"@ + "audio.txt"@ == "sc_audio.txt"@,
        "eh_"@ + "audio.txt"@ == "eh_audio.txt"@,
        "sb_"@ + "audio.txt"@ == "sb_audio.txt"@,
        "T_"@.len() > 0,
        "CMS_"@.len() > 0,
        "mt32_"@.len() > 0,
        "sc_"@.len() > 0,
        "eh_"@.len() > 0,
        "sb_"@.len() > 0,
        "Sound Canvas"@.len() > 0,
        "Tandy"@.len() > 0,
        "Creative Music System (CMS)"@.len() > 0,
        "Roland MT32"@.len() > 0,
        "James Woodcock's Enhanced Music"@.len() > 0,
        "Sound Blaster"@.len() > 0,
        "Sound Blaster"@ != "James Woodcock's Enhanced Music"@,
{
    reveal_strlit("audio.txt");
    reveal_strlit("T_");
    reveal_strlit("CMS_");
    reveal_strlit("mt32_");
    reveal_strlit("sc_");
    reveal_strlit("eh_");
    reveal_strlit("sb_");
    reveal_strlit("T_audio.txt");
    reveal_strlit("CMS_audio.txt");
    reveal_strlit("mt32_audio.txt");
    reveal_strlit("sc_audio.txt");
    reveal_strlit("eh_audio.txt");
    reveal_strlit("sb_audio.txt");
    reveal_strlit("Sound Canvas");
    reveal_strlit("Tandy");
    reveal_strlit("Creative Music System (CMS)");
    reveal_strlit("Roland MT32");
    reveal_strlit("James Woodcock's Enhanced Music");
    reveal_strlit("Sound Blaster");
    assert("T_"@ + "audio.txt"@ =~= "T_audio.txt"@);
    assert("CMS_"@ + "audio.txt"@ =~= "CMS_audio.txt"@);
    assert("mt32_"@ + "audio.txt"@ =~= "mt32_audio.txt"@);
    assert("sc_"@ + "audio.txt"@ =~= "sc_audio.txt"@);
    assert("eh_"@ + "audio.txt"@ =~= "eh_audio.txt"@);
    assert("sb_"@ + "audio.txt"@ =~= "sb_audio.txt"@);
    assert("Sound Blaster"@.len() == 13 && "James Woodcock's Enhanced Music"@.len() == 31);
}

/// A menu has the names of all directories that do not begin with a dot or an exclamation
/// mark, and no other, in alphabetical order, capitals aside.
pub proof fn law_a_menu_has_the_directories(dirs: Seq<SvmDir>, m: Seq<Seq<char>>, name: Seq<char>)
    requires
        is_menu(dirs, m),
        dirs.len() <= usize::MAX,
    ensures
        m == menu(dirs),
        m.contains(name) <==> (exists|k: int|
            0 <= k < dirs.len() && (#[trigger] dirs[k]).name@ == name) && !"."@.is_prefix_of(name)
            && !"!"@.is_prefix_of(name),
        forall|i: int, j: int|
            0 <= i < j < m.len() ==> !crate::order::text_before(
                text::small(#[trigger] m[j]),
                text::small(#[trigger] m[i]),
            ),
{
    lemma_one_menu(dirs, m);
    let names = counted(dirs, dirs.len() as int);
    let low = lowered(names);
    let order = choose|order: Seq<usize>| #[trigger]
        crate::order::orders_texts(low, order) && m == crate::order::picked(names, order);
    if m.contains(name) {
        let i = choose|i: int| 0 <= i < m.len() && m[i] == name;
        assert(order[i] < low.len());
        let k = lemma_counted(dirs, dirs.len() as int, order[i] as int);
        lemma_counted_counts(dirs, dirs.len() as int, order[i] as int);
        assert(dirs[k].name@ == name);
    }
    if (exists|k: int| 0 <= k < dirs.len() && (#[trigger] dirs[k]).name@ == name)
        && !"."@.is_prefix_of(name) && !"!"@.is_prefix_of(name) {
        let k = choose|k: int| 0 <= k < dirs.len() && (#[trigger] dirs[k]).name@ == name;
        let c = lemma_counts_in(dirs, dirs.len() as int, k);
        lemma_counted_len(dirs, dirs.len() as int);
        assert(order.contains(c as usize));
        let w = choose|w: int| 0 <= w < order.len() && order[w] == c as usize;
        assert(m[w] == name);
    }
    assert forall|i: int, j: int| 0 <= i < j < m.len() implies !crate::order::text_before(
        text::small(#[trigger] m[j]),
        text::small(#[trigger] m[i]),
    ) by {
        assert(order[i] < low.len() && order[j] < low.len());
        let a = low[order[i] as int];
        let b = low[order[j] as int];
        assert(crate::order::text_goes_before(low, order[i] as int, order[j] as int));
        crate::order::law_text_order(a, b, a);
        assert(low[order[i] as int] == text::small(m[i]));
        assert(low[order[j] as int] == text::small(m[j]));
    }
}

proof fn lemma_counted_len(dirs: Seq<SvmDir>, n: int)
    requires
        0 <= n <= dirs.len(),
    ensures
        counted(dirs, n).len() <= n,
    decreases n,
{
    if n > 0 {
        lemma_counted_len(dirs, n - 1);
    }
}

proof fn lemma_counted_counts(dirs: Seq<SvmDir>, n: int, i: int)
    requires
        0 <= n <= dirs.len(),
        0 <= i < counted(dirs, n).len(),
    ensures
        counts(counted(dirs, n)[i]),
    decreases n,
{
    if i < counted(dirs, n - 1).len() {
        lemma_counted_counts(dirs, n - 1, i);
    }
}

proof fn lemma_counts_in(dirs: Seq<SvmDir>, n: int, k: int) -> (c: int)
    requires
        0 <= k < n <= dirs.len(),
        counts(dirs[k].name@),
    ensures
        0 <= c < counted(dirs, n).len(),
        counted(dirs, n)[c] == dirs[k].name@,
    decreases n,
{
    if k < n - 1 {
        lemma_counts_in(dirs, n - 1, k)
    } else {
        counted(dirs, n - 1).len() as int
    }
}

/// The variant that was chosen is the one that is run: its directory, and where that has a
/// menu of versions the version that was chosen in it. Without a choice the first of the menu
/// is run, and of the platforms not the one that holds the other languages.
pub proof fn law_the_chosen_variant_is_run(
    game_dir: Seq<char>,
    tree: SvmDir,
    root: Seq<char>,
    music: MusicFiles,
    cfg: Seq<ConfigEntry>,
    m: Seq<Seq<char>>,
    w: Seq<char>,
    outer: SvmDir,
    inner: Seq<Seq<char>>,
    v: Seq<char>,
)
    requires
        is_menu(tree.dirs@, m),
        m.contains(w),
        is_set(cfg, "svm_variant"@, w) || (is_unset(cfg, "svm_variant"@) && m[0] == w && w
            != "Other Languages"@),
        is_dir_of(tree.dirs@, w, outer),
    ensures
        ({
            let variant = variant_view(game_dir, tree, root, music, cfg);
            &&& lacks(outer, "menu.txt"@) ==> variant.names == seq![w] && variant.run_dir
                == crate::fspath::joined(game_dir, w)
            &&& !lacks(outer, "menu.txt"@) && is_menu(outer.dirs@, inner) && inner.contains(v) && (
            is_set(cfg, "svm_sub"@, v) || (is_unset(cfg, "svm_sub"@) && inner[0] == v))
                ==> variant.names == seq![v, w] && variant.run_dir == crate::fspath::joined(
                crate::fspath::joined(game_dir, w),
                v,
            )
        }),
{
    let variant = variant_view(game_dir, tree, root, music, cfg);
    lemma_one_menu(tree.dirs@, m);
    if is_set(cfg, "svm_variant"@, w) {
        lemma_is_set(cfg, "svm_variant"@, w);
    } else {
        lemma_is_unset(cfg, "svm_variant"@, 0);
    }
    assert(outer_name(tree, cfg) == w);
    lemma_first_dir(tree.dirs@, w, outer);
    assert(outer_dir(tree, cfg) == outer);
    lemma_has_file(outer, "menu.txt"@, 0);
    if lacks(outer, "menu.txt"@) {
        lemma_lacks(outer, "menu.txt"@, 0);
        assert(variant.names =~= seq![w]);
    } else if is_menu(outer.dirs@, inner) && inner.contains(v) && (is_set(cfg, "svm_sub"@, v) || (
    is_unset(cfg, "svm_sub"@) && inner[0] == v)) {
        lemma_one_menu(outer.dirs@, inner);
        if is_set(cfg, "svm_sub"@, v) {
            lemma_is_set(cfg, "svm_sub"@, v);
        } else {
            lemma_is_unset(cfg, "svm_sub"@, 0);
        }
        assert(inner_name(outer, cfg) == v);
        assert(variant.names =~= seq![v, w]);
    }
}

/// ScummVM is told where the game, its saves and its settings lie, which platform it is for
/// and which game it is, and every option of the variant. It fills the screen where that is
/// stored for the game or, where nothing is, set for all.
pub proof fn law_scummvm_is_told_everything(
    os: Os,
    fullscreen: bool,
    cfg: Seq<ConfigEntry>,
    ini: Seq<char>,
    v: VariantView,
    save_dir: Seq<char>,
    game_id: Seq<char>,
)
    ensures
        ({
            let args = launch_line(os, fullscreen, cfg, ini, v, save_dir, game_id);
            &&& args.len() > 2
            &&& args.last() == game_id
            &&& args[args.len() - 2] == "--path="@ + v.run_dir
            &&& args[args.len() - 3] == "--savepath="@ + save_dir
            &&& args.contains("--config="@ + ini)
            &&& stands_in(args, v.extra_args)
            &&& v.platform matches Some(p) ==> args[args.len() - 4] == "--platform="@ + p
            &&& args[0] == "--no-console"@ <==> os == Os::Windows
            &&& is_set(cfg, "fullscreen"@, "true"@) || (is_unset(cfg, "fullscreen"@) && fullscreen)
                ==> (args[0] == "-f"@ || args[1] == "-f"@)
            &&& is_set(cfg, "fullscreen"@, "false"@) || (is_unset(cfg, "fullscreen"@)
                && !fullscreen) ==> (args[0] == "-F"@ || args[1] == "-F"@)
            &&& !is_set(cfg, "svm_aspect"@, "false"@) ==> args.contains("--aspect-ratio"@)
        }),
{
    let args = launch_line(os, fullscreen, cfg, ini, v, save_dir, game_id);
    reveal_strlit("--no-console");
    reveal_strlit("-f");
    reveal_strlit("-F");
    reveal_strlit("true");
    reveal_strlit("false");
    assert("true"@.len() == 4 && "false"@.len() == 5);
    assert("--no-console"@.len() == 12 && "-f"@.len() == 2 && "-F"@.len() == 2);
    let w = if os == Os::Windows {
        1int
    } else {
        0
    };
    let aspect = crate::games::setting(cfg, "svm_aspect"@) != Some("false"@);
    let a = w + 1 + (if aspect {
        1int
    } else {
        0
    });
    assert(args[a + 1] == "--config="@ + ini);
    let e = a + 2;
    assert(args.subrange(e, e + v.extra_args.len()) =~= v.extra_args);
    if is_set(cfg, "fullscreen"@, "true"@) {
        lemma_is_set(cfg, "fullscreen"@, "true"@);
    }
    if is_set(cfg, "fullscreen"@, "false"@) {
        lemma_is_set(cfg, "fullscreen"@, "false"@);
    }
    if is_unset(cfg, "fullscreen"@) {
        lemma_is_unset(cfg, "fullscreen"@, 0);
    }
    assert(args[w] == if fills_screen(cfg, fullscreen) {
        "-f"@
    } else {
        "-F"@
    });
    if !is_set(cfg, "svm_aspect"@, "false"@) {
        if !aspect {
            lemma_setting_found(cfg, "svm_aspect"@, 0);
            assert(is_set(cfg, "svm_aspect"@, "false"@));
        }
        assert(args[w + 1] == "--aspect-ratio"@);
    }
}

proof fn lemma_setting_found(cfg: Seq<ConfigEntry>, key: Seq<char>, from: int)
    requires
        0 <= from,
        crate::games::setting_from(cfg, key, from) is Some,
        forall|k: int| 0 <= k < from ==> (#[trigger] cfg[k]).key@ != key,
        from <= cfg.len(),
    ensures
        is_set(cfg, key, crate::games::setting_from(cfg, key, from)->0),
    decreases cfg.len() - from,
{
    if cfg[from].key@ != key {
        lemma_setting_found(cfg, key, from + 1);
    }
}

/// A game is found in the index by the name of the directory that it is run from before any
/// other name, and by a whole name before the beginning of one.
pub proof fn law_the_index_goes_by_whole_names(
    index: Seq<IndexEntry>,
    names: Seq<Seq<char>>,
    k: int,
    i: int,
)
    requires
        0 <= k < names.len(),
        0 <= i < index.len(),
        text::lower(index[i].dir@) == text::lower(names[k]),
        forall|a: int, b: int|
            0 <= a < k && 0 <= b < index.len() ==> text::lower((#[trigger] index[b]).dir@)
                != text::lower(#[trigger] names[a]),
    ensures
        entry_for(index, names) matches Some(e) && 0 <= e <= i && text::lower(index[e].dir@)
            == text::lower(names[k]),
{
    lemma_whole_name(index, names, k, i, 0);
}

proof fn lemma_whole_name(
    index: Seq<IndexEntry>,
    names: Seq<Seq<char>>,
    k: int,
    i: int,
    from: int,
)
    requires
        0 <= from <= k < names.len(),
        0 <= i < index.len(),
        text::lower(index[i].dir@) == text::lower(names[k]),
        forall|a: int, b: int|
            0 <= a < k && 0 <= b < index.len() ==> text::lower((#[trigger] index[b]).dir@)
                != text::lower(#[trigger] names[a]),
    ensures
        named_from(index, names, true, from) matches Some(e) && 0 <= e <= i && text::lower(
            index[e].dir@,
        ) == text::lower(names[k]),
    decreases k - from,
{
    lemma_fitting_entry(index, names[from], true, 0);
    if from < k {
        if let Some(e) = fitting_from(index, names[from], true, 0) {
            assert(text::lower(index[e].dir@) != text::lower(names[from]));
        }
        lemma_whole_name(index, names, k, i, from + 1);
    } else {
        lemma_first_fitting(index, names[k], 0, i);
    }
}

proof fn lemma_fitting_entry(index: Seq<IndexEntry>, name: Seq<char>, whole: bool, from: int)
    requires
        0 <= from,
    ensures
        fitting_from(index, name, whole, from) matches Some(e) ==> from <= e < index.len()
            && dir_fits(index[e].dir@, name, whole),
    decreases index.len() - from,
{
    if from < index.len() && !dir_fits(index[from].dir@, name, whole) {
        lemma_fitting_entry(index, name, whole, from + 1);
    }
}

proof fn lemma_first_fitting(index: Seq<IndexEntry>, name: Seq<char>, from: int, i: int)
    requires
        0 <= from <= i < index.len(),
        text::lower(index[i].dir@) == text::lower(name),
    ensures
        fitting_from(index, name, true, from) matches Some(e) && from <= e <= i && text::lower(
            index[e].dir@,
        ) == text::lower(name),
    decreases i - from,
{
    if text::lower(index[from].dir@) != text::lower(name) {
        lemma_first_fitting(index, name, from + 1, i);
    }
}

/// An entry that is found is one of a name: its directory is the name or begins with it,
/// capitals aside. Where a directory begins with a name, there is an entry.
pub proof fn law_an_entry_fits_a_name(
    index: Seq<IndexEntry>,
    names: Seq<Seq<char>>,
    k: int,
    i: int,
)
    requires
        0 <= k < names.len(),
        0 <= i < index.len(),
    ensures
        entry_for(index, names) matches Some(e) ==> 0 <= e < index.len() && exists|n: int|
            0 <= n < names.len() && text::lower(#[trigger] names[n]).is_prefix_of(
                text::lower(index[e].dir@),
            ),
        text::lower(names[k]).is_prefix_of(text::lower(index[i].dir@)) ==> entry_for(index, names)
            is Some,
{
    if entry_for(index, names) is Some {
        if named_from(index, names, true, 0) is Some {
            lemma_named_fits(index, names, true, 0);
        } else {
            lemma_named_fits(index, names, false, 0);
        }
    }
    if text::lower(names[k]).is_prefix_of(text::lower(index[i].dir@)) {
        let d = index[i].dir@;
        let n = names[k].len() as int;
        assert(text::lower(d.take(n)) =~= text::lower(d).take(n));
        assert(dir_fits(d, names[k], false));
        lemma_fitting(index, names[k], false, 0, i);
        lemma_named(index, names, false, 0, k);
    }
}

proof fn lemma_named_fits(index: Seq<IndexEntry>, names: Seq<Seq<char>>, whole: bool, from: int)
    requires
        0 <= from,
        named_from(index, names, whole, from) is Some,
    ensures
        ({
            let e = named_from(index, names, whole, from)->0;
            &&& 0 <= e < index.len()
            &&& exists|n: int|
                0 <= n < names.len() && text::lower(#[trigger] names[n]).is_prefix_of(
                    text::lower(index[e].dir@),
                )
        }),
    decreases names.len() - from,
{
    lemma_fitting_entry(index, names[from], whole, 0);
    match fitting_from(index, names[from], whole, 0) {
        Some(e) => {
            let d = index[e].dir@;
            let n = names[from].len() as int;
            if whole {
                assert(text::lower(d).take(text::lower(d).len() as int) =~= text::lower(d));
            } else {
                assert(text::lower(d.take(n)) =~= text::lower(d).take(n));
            }
            assert(text::lower(names[from]).is_prefix_of(text::lower(index[e].dir@)));
        },
        None => {
            lemma_named_fits(index, names, whole, from + 1);
        },
    }
}

/// A game runs on the build that it is pinned to before any other: on Windows on the one of
/// the collection, elsewhere on a pack. A pack that can be installed keeps other copies out,
/// and what the system has is taken last.
pub proof fn law_the_pinned_build_goes_first(os: Os, facts: EngineFacts)
    ensures
        os == Os::Windows && facts.exe_there ==> engine_of(os, facts) == Some(EngineSource::Exo),
        os != Os::Windows && (facts.own_pack || facts.serving_pack) ==> engine_of(os, facts) == Some(
            EngineSource::Pack,
        ),
        engine_of(os, facts) == Some(EngineSource::Exo) ==> os == Os::Windows && facts.exe_there,
        engine_of(os, facts) == Some(EngineSource::Pack) ==> os != Os::Windows,
        engine_of(os, facts) == Some(EngineSource::Path) ==> facts.on_path && !facts.installable,
        engine_of(os, facts) == Some(EngineSource::Flatpak) ==> facts.flatpak && !facts.on_path
            && os == Os::Linux && !facts.installable,
        (facts.on_path || (os == Os::Linux && facts.flatpak)) && !facts.installable ==> engine_of(
            os,
            facts,
        ) is Some,
{
}

/// ScummVM knows a game where a row below the rule of its table begins with the game's id; and
/// where its table has no row, it knows none.
pub proof fn law_a_listed_game_is_known(output: Seq<char>, game_id: Seq<char>, r: int, i: int)
    requires
        0 <= r < i < text::lines(output).len(),
        "---"@.is_prefix_of(text::lines(output)[r]),
    ensures
        text::words(text::lines(output)[i]).len() > 0 && text::words(text::lines(output)[i])[0]
            == game_id ==> knows_game(output, game_id),
        (forall|k: int|
            0 <= k < text::lines(output).len() ==> (k < r && !"---"@.is_prefix_of(
                #[trigger] text::lines(output)[k],
            )) || k == r || (k > r && text::trim(text::lines(output)[k]).len() == 0)) ==> !knows_game(
            output,
            game_id,
        ),
{
    let ls = text::lines(output);
    let n = ls.len() as int;
    lemma_rule(ls, 0, r);
    let rule = rule_from(ls, 0)->0;
    if text::words(ls[i]).len() > 0 && text::words(ls[i])[0] == game_id {
        lemma_words_said(ls[i]);
        lemma_row_below(ls, rule + 1, n, i);
        let rows = listed_rows(output);
        let w = choose|w: int| 0 <= w < rows.len() && rows[w] == ls[i];
        assert(text::words(rows[w])[0] == game_id);
    }
    if forall|k: int|
        0 <= k < ls.len() ==> (k < r && !"---"@.is_prefix_of(#[trigger] ls[k])) || k == r || (k > r
            && text::trim(ls[k]).len() == 0) {
        lemma_rule_found(ls, 0);
        assert(rule == r);
        lemma_no_rows(ls, r + 1, n);
    }
}

proof fn lemma_rule_found(ls: Seq<Seq<char>>, from: int)
    requires
        0 <= from,
    ensures
        rule_from(ls, from) matches Some(k) ==> from <= k < ls.len() && "---"@.is_prefix_of(ls[k]),
    decreases ls.len() - from,
{
    if from < ls.len() && !"---"@.is_prefix_of(ls[from]) {
        lemma_rule_found(ls, from + 1);
    }
}

proof fn lemma_rule(ls: Seq<Seq<char>>, from: int, r: int)
    requires
        0 <= from <= r < ls.len(),
        "---"@.is_prefix_of(ls[r]),
    ensures
        rule_from(ls, from) matches Some(k) && from <= k <= r,
    decreases r - from,
{
    if !"---"@.is_prefix_of(ls[from]) {
        lemma_rule(ls, from + 1, r);
    }
}

proof fn lemma_words_said(s: Seq<char>)
    requires
        text::words(s).len() > 0,
    ensures
        text::trim(s).len() > 0,
{
    if text::trim(s).len() == 0 {
        lemma_blank_has_no_words(s);
    }
}

proof fn lemma_blank_has_no_words(s: Seq<char>)
    requires
        text::trim(s).len() == 0,
    ensures
        text::words(s).len() == 0,
{
    lemma_all_blank(s);
    lemma_no_words(s);
}

proof fn lemma_all_blank(s: Seq<char>)
    requires
        text::trim(s).len() == 0,
    ensures
        forall|i: int| 0 <= i < s.len() ==> text::is_space(#[trigger] s[i]),
    decreases s.len(),
{
    if s.len() > 0 {
        if text::is_space(s[0]) {
            assert(text::trim(s) == text::trim(s.skip(1)));
            lemma_all_blank(s.skip(1));
            assert forall|i: int| 0 <= i < s.len() implies text::is_space(#[trigger] s[i]) by {
                if i > 0 {
                    assert(s.skip(1)[i - 1] == s[i]);
                }
            }
        } else {
            lemma_keeps_first(s);
        }
    }
}

proof fn lemma_keeps_first(s: Seq<char>)
    requires
        s.len() > 0,
        !text::is_space(s[0]),
    ensures
        text::trim_end(s).len() > 0,
    decreases s.len(),
{
    if text::is_space(s.last()) {
        lemma_keeps_first(s.drop_last());
    }
}

proof fn lemma_no_words(s: Seq<char>)
    requires
        forall|i: int| 0 <= i < s.len() ==> text::is_space(#[trigger] s[i]),
    ensures
        text::words(s).len() == 0,
    decreases s.len(),
{
    if s.len() > 0 {
        assert(text::is_space(s.last()));
        lemma_no_words(s.drop_last());
    }
}

proof fn lemma_row_below(ls: Seq<Seq<char>>, from: int, n: int, i: int)
    requires
        0 <= from <= i < n <= ls.len(),
        text::trim(ls[i]).len() > 0,
    ensures
        rows_below(ls, from, n).contains(ls[i]),
    decreases n - from,
{
    let now = rows_below(ls, from, n);
    let before = rows_below(ls, from, n - 1);
    if i < n - 1 {
        lemma_row_below(ls, from, n - 1, i);
        let w = choose|w: int| 0 <= w < before.len() && before[w] == ls[i];
        assert(now[w] == ls[i]);
    } else {
        assert(now[before.len() as int] == ls[i]);
    }
}

proof fn lemma_no_rows(ls: Seq<Seq<char>>, from: int, n: int)
    requires
        0 <= from <= n <= ls.len(),
        forall|k: int| from <= k < ls.len() ==> text::trim(#[trigger] ls[k]).len() == 0,
    ensures
        rows_below(ls, from, n).len() == 0,
    decreases n - from,
{
    if n > from {
        lemma_no_rows(ls, from, n - 1);
        assert(text::trim(ls[n - 1]).len() == 0);
    }
}

/// A line of the index gives the directory, the game and the build of the program, which is the
/// directory that the program stands in.
#[verifier::rlimit(60)]
pub proof fn law_an_index_line_names_game_and_build(
    dir: Seq<char>,
    game_id: Seq<char>,
    build: Seq<char>,
    program: Seq<char>,
)
    requires
        dir.len() > 0,
        game_id.len() > 0,
        text::trim(dir) == dir,
        text::trim(game_id) == game_id,
        text::trim(build + "\\"@ + program) == build + "\\"@ + program,
        !dir.contains(';'),
        !game_id.contains(';'),
        program.len() > 0,
        program.last() != '\r',
        !program.contains('\\'),
    ensures
        index_line(dir + ";"@ + game_id + ";"@ + build + "\\"@ + program) == Some(
            (dir, game_id, build),
        ),
{
    reveal_strlit(";");
    reveal_strlit("\\");
    let exe = build + "\\"@ + program;
    let rest = game_id + ";"@ + exe;
    let line = dir + ";"@ + game_id + ";"@ + build + "\\"@ + program;
    assert(line =~= dir + ";"@ + rest);
    assert(line.last() == program.last());
    assert(text::strip_back(line, '\r') == line);
    text::lemma_char_from(line, ';', 0);
    let n = dir.len() as int;
    assert(line[n] == ';');
    assert forall|k: int| 0 <= k < n implies #[trigger] line[k] != ';' by {
        assert(dir.contains(dir[k]));
    }
    assert(text::char_from(line, ';', 0) == Some(n));
    assert(line.take(n) =~= dir);
    assert(line.skip(n + 1) =~= rest);
    assert(text::split_once(line, ';') == Some((dir, rest)));
    text::lemma_char_from(rest, ';', 0);
    let m = game_id.len() as int;
    assert(rest[m] == ';');
    assert forall|k: int| 0 <= k < m implies #[trigger] rest[k] != ';' by {
        assert(game_id.contains(game_id[k]));
    }
    assert(text::char_from(rest, ';', 0) == Some(m));
    assert(rest.take(m) =~= game_id);
    assert(rest.skip(m + 1) =~= exe);
    assert(text::split_once(rest, ';') == Some((game_id, exe)));
    text::lemma_last_char(exe, '\\');
    let b = build.len() as int;
    assert(exe[b] == '\\');
    assert forall|k: int| b < k < exe.len() implies #[trigger] exe[k] != '\\' by {
        assert(program.contains(program[k - b - 1]));
    }
    assert(text::last_char(exe, '\\') == Some(b));
    assert(exe.take(b) =~= build);
}

/// What tells the names of platforms apart: their lengths and first characters.
spec fn beginning(name: Seq<char>) -> (nat, char, char, char) {
    (name.len(), name[0], name[1], name[2])
}

/// ScummVM knows each platform by one code, whatever eXo calls it.
pub proof fn law_every_platform_has_its_code(name: Seq<char>)
    ensures
        (name == "dos"@ || name == "pc"@) ==> code_of(name) == Some("pc"@),
        name == "amiga"@ ==> code_of(name) == Some("amiga"@),
        (name == "atari"@ || name == "st"@ || name == "atari-st"@ || name == "atarist"@) ==> code_of(name) == Some("atari"@),
        name == "c64"@ ==> code_of(name) == Some("c64"@),
        name == "nes"@ ==> code_of(name) == Some("nes"@),
        (name == "sp48"@ || name == "spectrum"@ || name == "zx"@ || name == "zxspectrum"@) ==> code_of(name) == Some("zx"@),
        (name == "mac"@ || name == "macintosh"@) ==> code_of(name) == Some("macintosh"@),
        (name == "win"@ || name == "windows"@) ==> code_of(name) == Some("windows"@),
        (name == "fmtowns"@ || name == "towns"@) ==> code_of(name) == Some("fmtowns"@),
        name == "pc98"@ ==> code_of(name) == Some("pc98"@),
        (name == "pce"@ || name == "pcengine"@) ==> code_of(name) == Some("pce"@),
        (name == "segacd"@ || name == "sega"@) ==> code_of(name) == Some("segacd"@),
        name == "3do"@ ==> code_of(name) == Some("3do"@),
        name == "cdi"@ ==> code_of(name) == Some("cdi"@),
        name == "apple2"@ ==> code_of(name) == Some("apple2"@),
        (name == "apple2gs"@ || name == "2gs"@) ==> code_of(name) == Some("2gs"@),
        (name == "psx"@ || name == "playstation"@) ==> code_of(name) == Some("playstation"@),
        name == "linux"@ ==> code_of(name) == Some("linux"@),
        name == "os2"@ ==> code_of(name) == Some("os2"@),
        code_of(name) is Some ==> {
            ||| name == "dos"@
            ||| name == "pc"@
            ||| name == "amiga"@
            ||| name == "atari"@
            ||| name == "st"@
            ||| name == "atari-st"@
            ||| name == "atarist"@
            ||| name == "c64"@
            ||| name == "nes"@
            ||| name == "sp48"@
            ||| name == "spectrum"@
            ||| name == "zx"@
            ||| name == "zxspectrum"@
            ||| name == "mac"@
            ||| name == "macintosh"@
            ||| name == "win"@
            ||| name == "windows"@
            ||| name == "fmtowns"@
            ||| name == "towns"@
            ||| name == "pc98"@
            ||| name == "pce"@
            ||| name == "pcengine"@
            ||| name == "segacd"@
            ||| name == "sega"@
            ||| name == "3do"@
            ||| name == "cdi"@
            ||| name == "apple2"@
            ||| name == "apple2gs"@
            ||| name == "2gs"@
            ||| name == "psx"@
            ||| name == "playstation"@
            ||| name == "linux"@
            ||| name == "os2"@
        },
{
    reveal_strlit("dos");
    reveal_strlit("pc");
    reveal_strlit("amiga");
    reveal_strlit("atari");
    reveal_strlit("st");
    reveal_strlit("atari-st");
    reveal_strlit("atarist");
    reveal_strlit("c64");
    reveal_strlit("nes");
    reveal_strlit("sp48");
    reveal_strlit("spectrum");
    reveal_strlit("zx");
    reveal_strlit("zxspectrum");
    reveal_strlit("mac");
    reveal_strlit("macintosh");
    reveal_strlit("win");
    reveal_strlit("windows");
    reveal_strlit("fmtowns");
    reveal_strlit("towns");
    reveal_strlit("pc98");
    reveal_strlit("pce");
    reveal_strlit("pcengine");
    reveal_strlit("segacd");
    reveal_strlit("sega");
    reveal_strlit("3do");
    reveal_strlit("cdi");
    reveal_strlit("apple2");
    reveal_strlit("apple2gs");
    reveal_strlit("2gs");
    reveal_strlit("psx");
    reveal_strlit("playstation");
    reveal_strlit("linux");
    reveal_strlit("os2");
    assert(beginning("dos"@) == (3nat, 'd', 'o', 's'));
    assert("pc"@[0] == 'p' && beginning("pc"@).0 == 2);
    assert(beginning("amiga"@) == (5nat, 'a', 'm', 'i'));
    assert(beginning("atari"@) == (5nat, 'a', 't', 'a'));
    assert("st"@[0] == 's' && beginning("st"@).0 == 2);
    assert(beginning("atari-st"@) == (8nat, 'a', 't', 'a'));
    assert(beginning("atarist"@) == (7nat, 'a', 't', 'a'));
    assert(beginning("c64"@) == (3nat, 'c', '6', '4'));
    assert(beginning("nes"@) == (3nat, 'n', 'e', 's'));
    assert(beginning("sp48"@) == (4nat, 's', 'p', '4'));
    assert(beginning("spectrum"@) == (8nat, 's', 'p', 'e'));
    assert("zx"@[0] == 'z' && beginning("zx"@).0 == 2);
    assert(beginning("zxspectrum"@) == (10nat, 'z', 'x', 's'));
    assert(beginning("mac"@) == (3nat, 'm', 'a', 'c'));
    assert(beginning("macintosh"@) == (9nat, 'm', 'a', 'c'));
    assert(beginning("win"@) == (3nat, 'w', 'i', 'n'));
    assert(beginning("windows"@) == (7nat, 'w', 'i', 'n'));
    assert(beginning("fmtowns"@) == (7nat, 'f', 'm', 't'));
    assert(beginning("towns"@) == (5nat, 't', 'o', 'w'));
    assert(beginning("pc98"@) == (4nat, 'p', 'c', '9'));
    assert(beginning("pce"@) == (3nat, 'p', 'c', 'e'));
    assert(beginning("pcengine"@) == (8nat, 'p', 'c', 'e'));
    assert(beginning("segacd"@) == (6nat, 's', 'e', 'g'));
    assert(beginning("sega"@) == (4nat, 's', 'e', 'g'));
    assert(beginning("3do"@) == (3nat, '3', 'd', 'o'));
    assert(beginning("cdi"@) == (3nat, 'c', 'd', 'i'));
    assert(beginning("apple2"@) == (6nat, 'a', 'p', 'p'));
    assert(beginning("apple2gs"@) == (8nat, 'a', 'p', 'p'));
    assert(beginning("2gs"@) == (3nat, '2', 'g', 's'));
    assert(beginning("psx"@) == (3nat, 'p', 's', 'x'));
    assert(beginning("playstation"@) == (11nat, 'p', 'l', 'a'));
    assert(beginning("linux"@) == (5nat, 'l', 'i', 'n'));
    assert(beginning("os2"@) == (3nat, 'o', 's', '2'));
}

} // verus!
