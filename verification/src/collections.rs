//! The eXo collections, and the paths that follow from where each keeps its
//! games.

use crate::text;
use crate::text::{
    cat, cat3, chars_of, cut_once, find_pattern, is_digit_char, same, string_of, swap_chars,
    tail,
};
use vstd::prelude::*;

verus! {

/// The emulator that a collection's games go through.
#[derive(Clone, Copy, Debug, PartialEq, Eq, Structural)]
pub enum Launcher {
    /// DOSBox, driven by a conf per game.
    DosBox,
    /// DOSBox-X or 86Box, booting a Windows 9x disk image.
    Win9x,
    /// ScummVM, started with a game id and no conf.
    ScummVm,
}

/// One eXo collection, with everything that its paths follow from.
#[derive(Clone, Copy, Debug)]
pub struct CollectionDef {
    /// The collection's id, such as `eXoDOS`.
    pub id: &'static str,
    /// The name that is shown.
    pub display_name: &'static str,
    /// The bundled metadata file.
    pub metadata_file: &'static str,
    /// The bundled torrent.
    pub torrent_file: &'static str,
    /// The bundled archive of emulator confs, if there is one.
    pub configs_zip: Option<&'static str>,
    /// The folder that the torrent makes.
    pub inner_folder: &'static str,
    /// The path from that folder to the games.
    pub game_prefix: &'static str,
    /// The segment of an application path behind which the shortcode stands.
    pub shortcode_segment: &'static str,
    /// The directory of a language pack's games. A base collection has none.
    pub lang_dir: Option<&'static str>,
    /// LaunchBox's name of the platform.
    pub platform: &'static str,
    /// The games lie in directories by year and are keyed by title.
    pub year_subdirs: bool,
    /// What runs the games.
    pub launcher: Launcher,
}

/// A collection as contracts speak of it.
pub struct Collection {
    pub id: Seq<char>,
    pub display_name: Seq<char>,
    pub metadata_file: Seq<char>,
    pub torrent_file: Seq<char>,
    pub configs_zip: Option<Seq<char>>,
    pub inner_folder: Seq<char>,
    pub game_prefix: Seq<char>,
    pub shortcode_segment: Seq<char>,
    pub lang_dir: Option<Seq<char>>,
    pub platform: Seq<char>,
    pub year_subdirs: bool,
    pub launcher: Launcher,
}

pub open spec fn opt_str(o: Option<&'static str>) -> Option<Seq<char>> {
    match o {
        Some(s) => Some(s@),
        None => None,
    }
}

impl View for CollectionDef {
    type V = Collection;

    open spec fn view(&self) -> Collection {
        Collection {
            id: self.id@,
            display_name: self.display_name@,
            metadata_file: self.metadata_file@,
            torrent_file: self.torrent_file@,
            configs_zip: opt_str(self.configs_zip),
            inner_folder: self.inner_folder@,
            game_prefix: self.game_prefix@,
            shortcode_segment: self.shortcode_segment@,
            lang_dir: opt_str(self.lang_dir),
            platform: self.platform@,
            year_subdirs: self.year_subdirs,
            launcher: self.launcher,
        }
    }
}

/// The German language pack.
pub open spec fn glp() -> Collection {
    Collection {
        id: "eXoDOS_GLP"@,
        display_name: "German Language Pack"@,
        metadata_file: "GLP.xml.gz"@,
        torrent_file: "eXoDOS_GLP.torrent"@,
        configs_zip: Some("GLP_configs.zip"@),
        inner_folder: "eXoDOS"@,
        game_prefix: "eXo/eXoDOS"@,
        shortcode_segment: "!dos"@,
        lang_dir: Some("!german"@),
        platform: "MS-DOS"@,
        year_subdirs: false,
        launcher: Launcher::DosBox,
    }
}

/// The Polish language pack.
pub open spec fn plp() -> Collection {
    Collection {
        id: "eXoDOS_PLP"@,
        display_name: "Polish Language Pack"@,
        metadata_file: "PLP.xml.gz"@,
        torrent_file: "eXoDOS_PLP.torrent"@,
        configs_zip: Some("PLP_configs.zip"@),
        inner_folder: "eXoDOS"@,
        game_prefix: "eXo/eXoDOS"@,
        shortcode_segment: "!dos"@,
        lang_dir: Some("!polish"@),
        platform: "MS-DOS"@,
        year_subdirs: false,
        launcher: Launcher::DosBox,
    }
}

/// The Spanish language pack.
pub open spec fn slp() -> Collection {
    Collection {
        id: "eXoDOS_SLP"@,
        display_name: "Spanish Language Pack"@,
        metadata_file: "SLP.xml.gz"@,
        torrent_file: "eXoDOS_SLP.torrent"@,
        configs_zip: Some("SLP_configs.zip"@),
        inner_folder: "eXoDOS"@,
        game_prefix: "eXo/eXoDOS"@,
        shortcode_segment: "!dos"@,
        lang_dir: Some("!spanish"@),
        platform: "MS-DOS"@,
        year_subdirs: false,
        launcher: Launcher::DosBox,
    }
}

/// The DOS games, which the language packs are laid over.
pub open spec fn dos() -> Collection {
    Collection {
        id: "eXoDOS"@,
        display_name: "eXoDOS"@,
        metadata_file: "MS-DOS.xml.gz"@,
        torrent_file: "eXoDOS.torrent"@,
        configs_zip: Some("eXoDOS_configs.zip"@),
        inner_folder: "eXoDOS"@,
        game_prefix: "eXo/eXoDOS"@,
        shortcode_segment: "!dos"@,
        lang_dir: None,
        platform: "MS-DOS"@,
        year_subdirs: false,
        launcher: Launcher::DosBox,
    }
}

/// The Windows 3 games, the first with a torrent folder of their own.
pub open spec fn win3x() -> Collection {
    Collection {
        id: "eXoWin3x"@,
        display_name: "eXoWin3x"@,
        metadata_file: "Win3x.xml.gz"@,
        torrent_file: "eXoWin3x.torrent"@,
        configs_zip: Some("Win3x_configs.zip"@),
        inner_folder: "eXoWin3x"@,
        game_prefix: "eXo/eXoWin3x"@,
        shortcode_segment: "!win3x"@,
        lang_dir: None,
        platform: "Windows 3x"@,
        year_subdirs: false,
        launcher: Launcher::DosBox,
    }
}

/// The Windows 9x games, which lie in directories by year and are keyed by title.
pub open spec fn win9x() -> Collection {
    Collection {
        id: "eXoWin9x"@,
        display_name: "eXoWin9x"@,
        metadata_file: "Win9x.xml.gz"@,
        torrent_file: "eXoWin9x.torrent"@,
        configs_zip: Some("Win9x_configs.zip"@),
        inner_folder: "eXoWin9x"@,
        game_prefix: "eXo/eXoWin9x"@,
        shortcode_segment: "!win9x"@,
        lang_dir: None,
        platform: "Windows 9x"@,
        year_subdirs: true,
        launcher: Launcher::Win9x,
    }
}

/// The ScummVM games, which have no confs: the whole launch is a command line.
pub open spec fn scummvm() -> Collection {
    Collection {
        id: "eXoScummVM"@,
        display_name: "eXoScummVM"@,
        metadata_file: "ScummVM.xml.gz"@,
        torrent_file: "eXoScummVM.torrent"@,
        configs_zip: None,
        inner_folder: "eXoScummVM"@,
        game_prefix: "eXo/eXoScummVM"@,
        shortcode_segment: "!ScummVM"@,
        lang_dir: None,
        platform: "ScummVM"@,
        year_subdirs: false,
        launcher: Launcher::ScummVm,
    }
}

/// All collections. The language packs come first, so that their games are
/// matched before eXoDOS can claim a translation of the same title.
pub open spec fn collections() -> Seq<Collection> {
    seq![glp(), plp(), slp(), dos(), win3x(), win9x(), scummvm()]
}

/// The first collection, `i` or later, with this id.
pub open spec fn def_from(id: Seq<char>, i: int) -> Option<Collection>
    decreases collections().len() - i,
{
    if i >= collections().len() {
        None
    } else if collections()[i].id == id {
        Some(collections()[i])
    } else {
        def_from(id, i + 1)
    }
}

/// The collection with this id.
pub open spec fn def_of(id: Seq<char>) -> Option<Collection> {
    def_from(id, 0)
}

/// The first base collection, `i` or later, whose games lie at `prefix`.
pub open spec fn base_from(prefix: Seq<char>, i: int) -> Option<Collection>
    decreases collections().len() - i,
{
    if i >= collections().len() {
        None
    } else if collections()[i].lang_dir is None && collections()[i].game_prefix == prefix {
        Some(collections()[i])
    } else {
        base_from(prefix, i + 1)
    }
}

/// The base collection that a source belongs to: for a language pack the one
/// that it is laid over, for a collection with games of its own that collection,
/// and for an unknown source eXoDOS.
pub open spec fn base_of(source: Seq<char>) -> Seq<char> {
    match def_of(source) {
        None => "eXoDOS"@,
        Some(d) => if d.lang_dir is None {
            d.id
        } else {
            match base_from(d.game_prefix, 0) {
                Some(b) => b.id,
                None => "eXoDOS"@,
            }
        },
    }
}

/// All known collections.
pub fn collection_map() -> (r: Vec<CollectionDef>)
    ensures
        r@.len() == collections().len(),
        forall|i: int| 0 <= i < r@.len() ==> (#[trigger] r@[i])@ == collections()[i],
{
    vec![
        CollectionDef {
            id: "eXoDOS_GLP",
            display_name: "German Language Pack",
            metadata_file: "GLP.xml.gz",
            torrent_file: "eXoDOS_GLP.torrent",
            configs_zip: Some("GLP_configs.zip"),
            inner_folder: "eXoDOS",
            game_prefix: "eXo/eXoDOS",
            shortcode_segment: "!dos",
            lang_dir: Some("!german"),
            platform: "MS-DOS",
            year_subdirs: false,
            launcher: Launcher::DosBox,
        },
        CollectionDef {
            id: "eXoDOS_PLP",
            display_name: "Polish Language Pack",
            metadata_file: "PLP.xml.gz",
            torrent_file: "eXoDOS_PLP.torrent",
            configs_zip: Some("PLP_configs.zip"),
            inner_folder: "eXoDOS",
            game_prefix: "eXo/eXoDOS",
            shortcode_segment: "!dos",
            lang_dir: Some("!polish"),
            platform: "MS-DOS",
            year_subdirs: false,
            launcher: Launcher::DosBox,
        },
        CollectionDef {
            id: "eXoDOS_SLP",
            display_name: "Spanish Language Pack",
            metadata_file: "SLP.xml.gz",
            torrent_file: "eXoDOS_SLP.torrent",
            configs_zip: Some("SLP_configs.zip"),
            inner_folder: "eXoDOS",
            game_prefix: "eXo/eXoDOS",
            shortcode_segment: "!dos",
            lang_dir: Some("!spanish"),
            platform: "MS-DOS",
            year_subdirs: false,
            launcher: Launcher::DosBox,
        },
        CollectionDef {
            id: "eXoDOS",
            display_name: "eXoDOS",
            metadata_file: "MS-DOS.xml.gz",
            torrent_file: "eXoDOS.torrent",
            configs_zip: Some("eXoDOS_configs.zip"),
            inner_folder: "eXoDOS",
            game_prefix: "eXo/eXoDOS",
            shortcode_segment: "!dos",
            lang_dir: None,
            platform: "MS-DOS",
            year_subdirs: false,
            launcher: Launcher::DosBox,
        },
        CollectionDef {
            id: "eXoWin3x",
            display_name: "eXoWin3x",
            metadata_file: "Win3x.xml.gz",
            torrent_file: "eXoWin3x.torrent",
            configs_zip: Some("Win3x_configs.zip"),
            inner_folder: "eXoWin3x",
            game_prefix: "eXo/eXoWin3x",
            shortcode_segment: "!win3x",
            lang_dir: None,
            platform: "Windows 3x",
            year_subdirs: false,
            launcher: Launcher::DosBox,
        },
        CollectionDef {
            id: "eXoWin9x",
            display_name: "eXoWin9x",
            metadata_file: "Win9x.xml.gz",
            torrent_file: "eXoWin9x.torrent",
            configs_zip: Some("Win9x_configs.zip"),
            inner_folder: "eXoWin9x",
            game_prefix: "eXo/eXoWin9x",
            shortcode_segment: "!win9x",
            lang_dir: None,
            platform: "Windows 9x",
            year_subdirs: true,
            launcher: Launcher::Win9x,
        },
        CollectionDef {
            id: "eXoScummVM",
            display_name: "eXoScummVM",
            metadata_file: "ScummVM.xml.gz",
            torrent_file: "eXoScummVM.torrent",
            configs_zip: None,
            inner_folder: "eXoScummVM",
            game_prefix: "eXo/eXoScummVM",
            shortcode_segment: "!ScummVM",
            lang_dir: None,
            platform: "ScummVM",
            year_subdirs: false,
            launcher: Launcher::ScummVm,
        },
    ]
}

/// The definition of a collection. None for an unknown id.
pub fn collection_def(id: &str) -> (r: Option<CollectionDef>)
    ensures
        match r {
            Some(c) => def_of(id@) == Some(c@),
            None => def_of(id@) is None,
        },
{
    let all = collection_map();
    let mut i: usize = 0;
    while i < all.len()
        invariant
            i <= all@.len(),
            all@.len() == collections().len(),
            forall|k: int| 0 <= k < all@.len() ==> (#[trigger] all@[k])@ == collections()[k],
            def_from(id@, i as int) == def_of(id@),
        decreases all@.len() - i,
    {
        assert(all@[i as int]@ == collections()[i as int]);
        if same(all[i].id, id) {
            return Some(all[i]);
        }
        i += 1;
    }
    None
}

/// The base collection that a source belongs to.
pub fn collection_base_id(source: &str) -> (r: &'static str)
    ensures
        r@ == base_of(source@),
{
    let def = match collection_def(source) {
        Some(d) => d,
        None => {
            return "eXoDOS";
        },
    };
    if def.lang_dir.is_none() {
        return def.id;
    }
    let all = collection_map();
    let mut i: usize = 0;
    while i < all.len()
        invariant
            i <= all@.len(),
            all@.len() == collections().len(),
            forall|k: int| 0 <= k < all@.len() ==> (#[trigger] all@[k])@ == collections()[k],
            def_of(source@) == Some(def@),
            def.lang_dir is Some,
            base_from(def.game_prefix@, i as int) == base_from(def.game_prefix@, 0),
        decreases all@.len() - i,
    {
        assert(all@[i as int]@ == collections()[i as int]);
        if all[i].lang_dir.is_none() && same(all[i].game_prefix, def.game_prefix) {
            return all[i].id;
        }
        i += 1;
    }
    "eXoDOS"
}

/// The collection whose art and manuals stand in where `collection` has none of
/// its own: the base of a language pack. A collection with games of its own
/// borrows nothing.
pub fn asset_fallback(collection: &str) -> (r: Option<&'static str>)
    ensures
        match r {
            Some(base) => base@ == base_of(collection@) && base@ != collection@,
            None => base_of(collection@) == collection@,
        },
{
    let base = collection_base_id(collection);
    if same(base, collection) {
        None
    } else {
        Some(base)
    }
}

proof fn lemma_ids()
    ensures
        forall|id: Seq<char>| #[trigger]
            def_of(id) == (if id == glp().id {
                Some(glp())
            } else if id == plp().id {
                Some(plp())
            } else if id == slp().id {
                Some(slp())
            } else if id == dos().id {
                Some(dos())
            } else if id == win3x().id {
                Some(win3x())
            } else if id == win9x().id {
                Some(win9x())
            } else if id == scummvm().id {
                Some(scummvm())
            } else {
                None
            }),
        base_from(dos().game_prefix, 0) == Some(dos()),
{
    reveal_with_fuel(def_from, 8);
    reveal_with_fuel(base_from, 8);
}

/// No two collections share an id.
pub proof fn law_ids_distinct(i: int, j: int)
    requires
        0 <= i < j < collections().len(),
    ensures
        collections()[i].id != collections()[j].id,
{
    reveal_strlit("eXoDOS_GLP");
    reveal_strlit("eXoDOS_PLP");
    reveal_strlit("eXoDOS_SLP");
    reveal_strlit("eXoDOS");
    reveal_strlit("eXoWin3x");
    reveal_strlit("eXoWin9x");
    reveal_strlit("eXoScummVM");
    reveal_strlit("eXo/eXoDOS");
    reveal_strlit("eXo/eXoScummVM");
    reveal_strlit("eXo/eXoWin3x");
    reveal_strlit("eXo/eXoWin9x");
    let a = collections()[i].id;
    let b = collections()[j].id;
    assert(a.len() != b.len() || a[3] != b[3] || a[7] != b[7] || a[6] != b[6]);
}

/// A base collection is its own base.
pub proof fn law_base_idempotent(source: Seq<char>)
    ensures
        base_of(base_of(source)) == base_of(source),
        def_of(base_of(source)) is Some,
        def_of(base_of(source))->0.lang_dir is None,
{
    lemma_ids();
    reveal_strlit("eXoDOS_GLP");
    reveal_strlit("eXoDOS_PLP");
    reveal_strlit("eXoDOS_SLP");
    reveal_strlit("eXoDOS");
    reveal_strlit("eXoWin3x");
    reveal_strlit("eXoWin9x");
    reveal_strlit("eXoScummVM");
    reveal_strlit("eXo/eXoDOS");
    reveal_strlit("eXo/eXoScummVM");
    reveal_strlit("eXo/eXoWin3x");
    reveal_strlit("eXo/eXoWin9x");
    assert forall|i: int, j: int| 0 <= i < j < collections().len() implies collections()[i].id
        != collections()[j].id by {
        law_ids_distinct(i, j);
    }
    assert(collections()[0] == glp() && collections()[1] == plp() && collections()[2] == slp()
        && collections()[3] == dos() && collections()[4] == win3x() && collections()[5] == win9x()
        && collections()[6] == scummvm());
}

/// A pack borrows from the base whose games it is laid over: they lie at the
/// same place.
pub proof fn law_base_shares_games(source: Seq<char>)
    requires
        def_of(source) is Some,
    ensures
        def_of(base_of(source)) is Some,
        def_of(base_of(source))->0.game_prefix == def_of(source)->0.game_prefix,
{
    lemma_ids();
    law_base_idempotent(source);
    reveal_strlit("eXoDOS_GLP");
    reveal_strlit("eXoDOS_PLP");
    reveal_strlit("eXoDOS_SLP");
    reveal_strlit("eXoDOS");
    reveal_strlit("eXoWin3x");
    reveal_strlit("eXoWin9x");
    reveal_strlit("eXoScummVM");
    reveal_strlit("eXo/eXoDOS");
    reveal_strlit("eXo/eXoScummVM");
    reveal_strlit("eXo/eXoWin3x");
    reveal_strlit("eXo/eXoWin9x");
    assert forall|i: int, j: int| 0 <= i < j < collections().len() implies collections()[i].id
        != collections()[j].id by {
        law_ids_distinct(i, j);
    }
    assert(collections()[0] == glp() && collections()[1] == plp() && collections()[2] == slp()
        && collections()[3] == dos() && collections()[4] == win3x() && collections()[5] == win9x()
        && collections()[6] == scummvm());
}

// ── Paths ────────────────────────────────────────────────────────────────────

/// The path from the torrent's folder to the games of a source.
pub open spec fn prefix_of(source: Seq<char>) -> Seq<char> {
    match def_of(source) {
        Some(d) => d.game_prefix,
        None => "eXo/eXoDOS"@,
    }
}

/// The language directory of a source.
pub open spec fn lang_of(source: Seq<char>) -> Option<Seq<char>> {
    match def_of(source) {
        Some(d) => d.lang_dir,
        None => None,
    }
}

/// A name of four digits.
pub open spec fn is_year(name: Seq<char>) -> bool {
    name.len() == 4 && forall|i: int| 0 <= i < 4 ==> text::is_digit(#[trigger] name[i])
}

/// What stands between `needle`'s first occurrence and the next slash.
pub open spec fn segment_after(path: Seq<char>, needle: Seq<char>) -> Option<Seq<char>> {
    match text::find(path, needle) {
        Some(i) => {
            let behind = path.skip(i + needle.len());
            match text::split_once(behind, '/') {
                Some((first, _)) => Some(first),
                None => Some(behind),
            }
        },
        None => None,
    }
}

/// The directory by year that a game lies in, which only a collection that has
/// such directories says, in the application path.
pub open spec fn year_of(source: Seq<char>, app_path: Option<Seq<char>>) -> Option<Seq<char>> {
    match (def_of(source), app_path) {
        (Some(d), Some(path)) if d.year_subdirs => match segment_after(
            text::swap_char(path, '\\', '/'),
            "/"@ + d.shortcode_segment + "/"@,
        ) {
            Some(year) if is_year(year) => Some(year),
            _ => None,
        },
        _ => None,
    }
}

/// The directory that holds what `source` names `name`: by year, by language, or
/// the one of all games.
pub open spec fn shelf_of(source: Seq<char>, app_path: Option<Seq<char>>) -> Seq<char> {
    match year_of(source, app_path) {
        Some(year) => prefix_of(source) + "/"@ + year,
        None => match lang_of(source) {
            Some(lang) => prefix_of(source) + "/"@ + lang,
            None => prefix_of(source),
        },
    }
}

/// The directory of a game, below the torrent's folder.
pub open spec fn rel_game_dir(
    source: Seq<char>,
    shortcode: Seq<char>,
    app_path: Option<Seq<char>>,
) -> Seq<char> {
    shelf_of(source, app_path) + "/"@ + shortcode
}

/// The archive of a game, below the torrent's folder.
pub open spec fn rel_zip(
    source: Seq<char>,
    game_name: Seq<char>,
    app_path: Option<Seq<char>>,
) -> Seq<char> {
    shelf_of(source, app_path) + "/"@ + game_name + ".zip"@
}

/// The path from the torrent's folder to the games of a source.
pub fn collection_game_prefix(source: &str) -> (r: &'static str)
    ensures
        r@ == prefix_of(source@),
{
    match collection_def(source) {
        Some(d) => d.game_prefix,
        None => "eXo/eXoDOS",
    }
}

/// The language directory of a source.
pub fn collection_lang_dir(source: &str) -> (r: Option<&'static str>)
    ensures
        opt_str(r) == lang_of(source@),
{
    match collection_def(source) {
        Some(d) => d.lang_dir,
        None => None,
    }
}

/// Whether a name is four digits.
pub fn is_year_name(name: &[char]) -> (r: bool)
    ensures
        r == is_year(name@),
{
    if name.len() != 4 {
        return false;
    }
    let yes = is_digit_char(name[0]) && is_digit_char(name[1]) && is_digit_char(name[2])
        && is_digit_char(name[3]);
    assert(yes == is_year(name@)) by {
        if yes {
            assert forall|i: int| 0 <= i < 4 implies text::is_digit(#[trigger] name@[i]) by {
                assert(i == 0 || i == 1 || i == 2 || i == 3);
            }
        }
    }
    yes
}

/// The directory by year that a game lies in.
pub fn collection_year_dir(source: &str, app_path: Option<&str>) -> (r: Option<String>)
    ensures
        text::opt(r) == year_of(source@, text::opt_ref(app_path)),
{
    let def = match collection_def(source) {
        Some(d) => d,
        None => {
            return None;
        },
    };
    if !def.year_subdirs {
        return None;
    }
    let path = match app_path {
        Some(p) => p,
        None => {
            return None;
        },
    };
    let normal = swap_chars(chars_of(path).as_slice(), '\\', '/');
    let needle = chars_of(cat3("/", def.shortcode_segment, "/").as_str());
    let n: usize = normal.len();
    proof {
        text::lemma_find_from(normal@, needle@, 0);
    }
    match find_pattern(normal.as_slice(), needle.as_slice(), 0) {
        Some(i) => {
            let behind = tail(normal.as_slice(), i + needle.len());
            let year = match cut_once(behind, '/') {
                Some((first, rest)) => first,
                None => behind,
            };
            if is_year_name(year) {
                Some(string_of(year))
            } else {
                None
            }
        },
        None => None,
    }
}

/// The directory that holds a source's games.
fn shelf(source: &str, app_path: Option<&str>) -> (r: String)
    ensures
        r@ == shelf_of(source@, text::opt_ref(app_path)),
{
    let prefix = collection_game_prefix(source);
    match collection_year_dir(source, app_path) {
        Some(year) => cat3(prefix, "/", year.as_str()),
        None => match collection_lang_dir(source) {
            Some(lang) => cat3(prefix, "/", lang),
            None => string_of(chars_of(prefix).as_slice()),
        },
    }
}

/// The directory of a game, below the torrent's folder: by year, by language, or
/// with all games.
pub fn collection_rel_game_dir(source: &str, shortcode: &str, app_path: Option<&str>) -> (r: String)
    ensures
        r@ == rel_game_dir(source@, shortcode@, text::opt_ref(app_path)),
{
    cat3(shelf(source, app_path).as_str(), "/", shortcode)
}

/// The archive of a game, below the torrent's folder.
pub fn collection_rel_zip(source: &str, game_name: &str, app_path: Option<&str>) -> (r: String)
    ensures
        r@ == rel_zip(source@, game_name@, text::opt_ref(app_path)),
{
    let stem = cat3(shelf(source, app_path).as_str(), "/", game_name);
    cat(stem.as_str(), ".zip")
}

/// A game's archive lies beside the directory that it is unpacked into.
pub proof fn law_zip_beside_dir(source: Seq<char>, name: Seq<char>, app_path: Option<Seq<char>>)
    ensures
        rel_zip(source, name, app_path) == rel_game_dir(source, name, app_path) + ".zip"@,
{
}

/// Where the path does not say the year, a game lies with all games.
pub proof fn law_malformed_path_is_flat(source: Seq<char>, name: Seq<char>)
    ensures
        year_of(source, None) is None,
        lang_of(source) is None ==> rel_game_dir(source, name, None) == prefix_of(source) + "/"@
            + name,
{
}

/// A shelf is a path below the game root, with no slash at either end.
pub proof fn lemma_shelf_is_plain(source: Seq<char>, app_path: Option<Seq<char>>)
    ensures
        shelf_of(source, app_path).len() > 0,
        shelf_of(source, app_path)[0] != '/',
        shelf_of(source, app_path).last() != '/',
{
    lemma_ids();
    reveal_strlit("eXo/eXoDOS");
    reveal_strlit("eXo/eXoScummVM");
    reveal_strlit("eXo/eXoWin3x");
    reveal_strlit("eXo/eXoWin9x");
    reveal_strlit("!german");
    reveal_strlit("!polish");
    reveal_strlit("!spanish");
    let prefix = prefix_of(source);
    let shelf = shelf_of(source, app_path);
    assert(prefix.len() > 0 && prefix[0] == 'e' && prefix.last() != '/');
    match year_of(source, app_path) {
        Some(year) => {
            assert(text::is_digit(year[3]));
            assert(shelf.last() == year[3]);
        },
        None => if let Some(lang) = lang_of(source) {
            assert(lang.len() > 0 && lang.last() != '/');
            assert(shelf.last() == lang.last());
        },
    }
}

proof fn lemma_sources()
    ensures
        def_of("eXoDOS_GLP"@) == Some(glp()),
        def_of("eXoDOS_PLP"@) == Some(plp()),
        def_of("eXoDOS_SLP"@) == Some(slp()),
        def_of("eXoDOS"@) == Some(dos()),
        def_of("eXoWin3x"@) == Some(win3x()),
        def_of("eXoWin9x"@) == Some(win9x()),
        def_of("eXoScummVM"@) == Some(scummvm()),
{
    lemma_ids();
    let all = collections();
    assert(all[0] == glp() && all[1] == plp() && all[2] == slp() && all[3] == dos() && all[4]
        == win3x() && all[5] == win9x() && all[6] == scummvm());
    assert forall|i: int, j: int| 0 <= i < j < 7 implies #[trigger] all[i].id
        != #[trigger] all[j].id by {
        law_ids_distinct(i, j);
    }
    assert(all[0].id == "eXoDOS_GLP"@ && all[1].id == "eXoDOS_PLP"@ && all[2].id == "eXoDOS_SLP"@
        && all[3].id == "eXoDOS"@ && all[4].id == "eXoWin3x"@ && all[5].id == "eXoWin9x"@
        && all[6].id == "eXoScummVM"@);
}

/// The games of each collection lie in a directory of their own: those of the language packs
/// in the directories of their languages among the DOS games, and those of Windows 9x by
/// year, where the path of their launcher says it.
pub proof fn law_where_the_games_lie(code: Seq<char>, app_path: Option<Seq<char>>)
    ensures
        rel_game_dir("eXoDOS"@, code, app_path) == "eXo/eXoDOS/"@ + code,
        rel_game_dir("eXoWin3x"@, code, app_path) == "eXo/eXoWin3x/"@ + code,
        rel_game_dir("eXoScummVM"@, code, app_path) == "eXo/eXoScummVM/"@ + code,
        rel_game_dir("eXoDOS_GLP"@, code, app_path) == "eXo/eXoDOS/!german/"@ + code,
        rel_game_dir("eXoDOS_PLP"@, code, app_path) == "eXo/eXoDOS/!polish/"@ + code,
        rel_game_dir("eXoDOS_SLP"@, code, app_path) == "eXo/eXoDOS/!spanish/"@ + code,
        rel_game_dir("eXoWin9x"@, code, None) == "eXo/eXoWin9x/"@ + code,
{
    lemma_sources();
    reveal_strlit("/");
    reveal_strlit("eXo/eXoDOS");
    reveal_strlit("eXo/eXoDOS/");
    reveal_strlit("eXo/eXoWin3x");
    reveal_strlit("eXo/eXoWin3x/");
    reveal_strlit("eXo/eXoScummVM");
    reveal_strlit("eXo/eXoScummVM/");
    reveal_strlit("eXo/eXoWin9x");
    reveal_strlit("eXo/eXoWin9x/");
    reveal_strlit("!german");
    reveal_strlit("!polish");
    reveal_strlit("!spanish");
    reveal_strlit("eXo/eXoDOS/!german/");
    reveal_strlit("eXo/eXoDOS/!polish/");
    reveal_strlit("eXo/eXoDOS/!spanish/");
    assert(rel_game_dir("eXoDOS"@, code, app_path) =~= "eXo/eXoDOS/"@ + code);
    assert(rel_game_dir("eXoWin3x"@, code, app_path) =~= "eXo/eXoWin3x/"@ + code);
    assert(rel_game_dir("eXoScummVM"@, code, app_path) =~= "eXo/eXoScummVM/"@ + code);
    assert(rel_game_dir("eXoDOS_GLP"@, code, app_path) =~= "eXo/eXoDOS/!german/"@ + code);
    assert(rel_game_dir("eXoDOS_PLP"@, code, app_path) =~= "eXo/eXoDOS/!polish/"@ + code);
    assert(rel_game_dir("eXoDOS_SLP"@, code, app_path) =~= "eXo/eXoDOS/!spanish/"@ + code);
    assert(rel_game_dir("eXoWin9x"@, code, None) =~= "eXo/eXoWin9x/"@ + code);
}

/// A game of Windows 9x lies in the directory of the year that the path of its launcher names
/// behind `!win9x`.
pub proof fn law_windows_games_lie_by_year(
    code: Seq<char>,
    before: Seq<char>,
    year: Seq<char>,
    behind: Seq<char>,
)
    requires
        !text::has(text::swap_char(before, '\\', '/'), "/!win9x/"@),
        !before.contains('!'),
        year.len() == 4,
        forall|i: int| 0 <= i < 4 ==> '0' <= #[trigger] year[i] <= '9',
    ensures
        rel_game_dir("eXoWin9x"@, code, Some(before + "\\!win9x\\"@ + year + "\\"@ + behind))
            == "eXo/eXoWin9x/"@ + year + "/"@ + code,
{
    lemma_sources();
    reveal_strlit("/");
    reveal_strlit("\\");
    reveal_strlit("\\!win9x\\");
    reveal_strlit("!win9x");
    reveal_strlit("/!win9x/");
    reveal_strlit("eXo/eXoWin9x");
    reveal_strlit("eXo/eXoWin9x/");
    let path = before + "\\!win9x\\"@ + year + "\\"@ + behind;
    let normal = text::swap_char(path, '\\', '/');
    let needle = "/"@ + "!win9x"@ + "/"@;
    assert(needle =~= "/!win9x/"@);
    let n = before.len() as int;
    assert(normal.subrange(n, n + 8) =~= needle);
    assert forall|k: int| 0 <= k < n implies !text::occurs_at(normal, needle, k) by {
        if text::occurs_at(normal, needle, k) {
            assert(normal.subrange(k, k + 8)[1] == normal[k + 1]);
            if k + 1 < n {
                assert(before[k + 1] == '!');
                assert(before.contains('!'));
            } else {
                assert(normal[n] == '/');
            }
        }
    }
    text::lemma_find_from(normal, needle, 0);
    assert(text::occurs_at(normal, needle, n));
    assert(text::find(normal, needle) == Some(n));
    let rest = normal.skip(n + 8);
    assert(rest[4] == '/');
    assert forall|i: int| 0 <= i < 4 implies #[trigger] rest[i] == year[i] by {
        assert(path[n + 8 + i] == year[i]);
    }
    text::lemma_char_from(rest, '/', 0);
    assert(text::char_from(rest, '/', 0) == Some(4int)) by {
        let f = text::char_from(rest, '/', 0)->0;
        if f < 4 {
            assert(rest[f] == year[f]);
        }
    }
    assert(rest.take(4) =~= year);
    assert(is_year(year));
    assert(year_of("eXoWin9x"@, Some(path)) == Some(year));
    assert(rel_game_dir("eXoWin9x"@, code, Some(path)) =~= "eXo/eXoWin9x/"@ + year + "/"@ + code);
}

/// What runs the games of each collection.
pub proof fn law_launchers()
    ensures
        def_of("eXoWin9x"@) matches Some(c) && c.launcher == Launcher::Win9x,
        def_of("eXoScummVM"@) matches Some(c) && c.launcher == Launcher::ScummVm,
        def_of("eXoDOS"@) matches Some(c) && c.launcher == Launcher::DosBox,
        def_of("eXoWin3x"@) matches Some(c) && c.launcher == Launcher::DosBox,
        def_of("eXoDOS_GLP"@) matches Some(c) && c.launcher == Launcher::DosBox,
        def_of("eXoDOS_PLP"@) matches Some(c) && c.launcher == Launcher::DosBox,
        def_of("eXoDOS_SLP"@) matches Some(c) && c.launcher == Launcher::DosBox,
{
    lemma_sources();
}

/// The language packs are laid over the DOS games: their games lie below the same directory,
/// each in that of its language, and the other collections have no language.
pub proof fn law_the_language_packs_share_the_dos_games()
    ensures
        prefix_of("eXoDOS"@) == "eXo/eXoDOS"@,
        prefix_of("eXoDOS_GLP"@) == "eXo/eXoDOS"@,
        prefix_of("eXoDOS_PLP"@) == "eXo/eXoDOS"@,
        prefix_of("eXoDOS_SLP"@) == "eXo/eXoDOS"@,
        lang_of("eXoDOS_GLP"@) == Some("!german"@),
        lang_of("eXoDOS_PLP"@) == Some("!polish"@),
        lang_of("eXoDOS_SLP"@) == Some("!spanish"@),
        lang_of("eXoDOS"@) is None,
        lang_of("eXoWin3x"@) is None,
        lang_of("eXoWin9x"@) is None,
        lang_of("eXoScummVM"@) is None,
        base_of("eXoDOS_GLP"@) == "eXoDOS"@,
        base_of("eXoDOS_PLP"@) == "eXoDOS"@,
        base_of("eXoDOS_SLP"@) == "eXoDOS"@,
{
    lemma_sources();
    lemma_ids();
}

/// Only the known collections say what runs their games.
pub proof fn law_other_sources(source: Seq<char>)
    ensures
        def_of(source) matches Some(c) ==> (c.launcher == Launcher::Win9x <==> source
            == "eXoWin9x"@) && (c.launcher == Launcher::ScummVm <==> source == "eXoScummVM"@),
{
    lemma_ids();
    lemma_sources();
}

/// The torrent of a collection bears the collection's name.
pub proof fn law_torrents_are_named_after_collections(i: int)
    requires
        0 <= i < collections().len(),
    ensures
        collections()[i].torrent_file == collections()[i].id + ".torrent"@,
{
    reveal_strlit(".torrent");
    reveal_strlit("eXoDOS_GLP");
    reveal_strlit("eXoDOS_PLP");
    reveal_strlit("eXoDOS_SLP");
    reveal_strlit("eXoDOS");
    reveal_strlit("eXoWin3x");
    reveal_strlit("eXoWin9x");
    reveal_strlit("eXoScummVM");
    reveal_strlit("eXoDOS_GLP.torrent");
    reveal_strlit("eXoDOS_PLP.torrent");
    reveal_strlit("eXoDOS_SLP.torrent");
    reveal_strlit("eXoDOS.torrent");
    reveal_strlit("eXoWin3x.torrent");
    reveal_strlit("eXoWin9x.torrent");
    reveal_strlit("eXoScummVM.torrent");
    assert(glp().torrent_file =~= glp().id + ".torrent"@);
    assert(plp().torrent_file =~= plp().id + ".torrent"@);
    assert(slp().torrent_file =~= slp().id + ".torrent"@);
    assert(dos().torrent_file =~= dos().id + ".torrent"@);
    assert(win3x().torrent_file =~= win3x().id + ".torrent"@);
    assert(win9x().torrent_file =~= win9x().id + ".torrent"@);
    assert(scummvm().torrent_file =~= scummvm().id + ".torrent"@);
}

/// The games and the settings of a language pack lie in files that bear the pack's own name, and
/// those of the Windows collections in files that bear the system's.
pub proof fn law_metadata_is_named_after_collections(i: int)
    requires
        0 <= i < collections().len(),
    ensures
        ({
            let c = collections()[i];
            &&& c.lang_dir is Some ==> c.metadata_file == c.id.skip(7) + ".xml.gz"@
                && c.configs_zip == Some(c.id.skip(7) + "_configs.zip"@)
            &&& c.year_subdirs ==> c.metadata_file == c.id.skip(3) + ".xml.gz"@ && c.configs_zip
                == Some(c.id.skip(3) + "_configs.zip"@)
            &&& c.id == "eXoScummVM"@ ==> c.metadata_file == c.id.skip(3) + ".xml.gz"@
                && c.configs_zip is None
            &&& c.id == "eXoDOS"@ ==> c.metadata_file == "MS-DOS.xml.gz"@ && c.configs_zip == Some(
                c.id + "_configs.zip"@,
            )
            &&& c.configs_zip is None ==> c.launcher == Launcher::ScummVm
        }),
{
    reveal_strlit(".xml.gz");
    reveal_strlit("_configs.zip");
    reveal_strlit("eXoDOS_GLP");
    reveal_strlit("eXoDOS_PLP");
    reveal_strlit("eXoDOS_SLP");
    reveal_strlit("eXoDOS");
    reveal_strlit("eXoWin3x");
    reveal_strlit("eXoWin9x");
    reveal_strlit("eXoScummVM");
    reveal_strlit("GLP.xml.gz");
    reveal_strlit("PLP.xml.gz");
    reveal_strlit("SLP.xml.gz");
    reveal_strlit("Win3x.xml.gz");
    reveal_strlit("Win9x.xml.gz");
    reveal_strlit("ScummVM.xml.gz");
    reveal_strlit("GLP_configs.zip");
    reveal_strlit("PLP_configs.zip");
    reveal_strlit("SLP_configs.zip");
    reveal_strlit("eXoDOS_configs.zip");
    reveal_strlit("Win3x_configs.zip");
    reveal_strlit("Win9x_configs.zip");
    assert(glp().metadata_file =~= glp().id.skip(7) + ".xml.gz"@);
    assert(glp().configs_zip->0 =~= glp().id.skip(7) + "_configs.zip"@);
    assert(plp().metadata_file =~= plp().id.skip(7) + ".xml.gz"@);
    assert(plp().configs_zip->0 =~= plp().id.skip(7) + "_configs.zip"@);
    assert(slp().metadata_file =~= slp().id.skip(7) + ".xml.gz"@);
    assert(slp().configs_zip->0 =~= slp().id.skip(7) + "_configs.zip"@);
    assert(dos().configs_zip->0 =~= dos().id + "_configs.zip"@);
    assert(win3x().metadata_file =~= win3x().id.skip(3) + ".xml.gz"@);
    assert(win3x().configs_zip->0 =~= win3x().id.skip(3) + "_configs.zip"@);
    assert(win9x().metadata_file =~= win9x().id.skip(3) + ".xml.gz"@);
    assert(win9x().configs_zip->0 =~= win9x().id.skip(3) + "_configs.zip"@);
    assert(scummvm().metadata_file =~= scummvm().id.skip(3) + ".xml.gz"@);
    lemma_place_of(i);
}

proof fn lemma_place_of(i: int)
    requires
        0 <= i < collections().len(),
    ensures
        collections()[i].id == "eXoScummVM"@ ==> i == 6,
        collections()[i].id == "eXoDOS"@ ==> i == 3,
{
    if i < 6 {
        law_ids_distinct(i, 6);
    }
    if i < 3 {
        law_ids_distinct(i, 3);
    }
    if i > 3 {
        law_ids_distinct(3, i);
    }
}

} // verus!
