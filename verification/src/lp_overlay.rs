//! Language packs that are patches: an archive that holds only translated files
//! and needs the English game underneath.

use crate::collections::{collection_def, collection_rel_game_dir};
use crate::fspath::join_path;
use crate::models::Game;
use crate::text;
use crate::text::{
    borrow, is_one_of, same,
};
use vstd::prelude::*;

verus! {

/// The sizes of a collection's archives, in the order of its torrent.
pub struct ArchiveSizes {
    pub collection: String,
    pub sizes: Vec<u64>,
}

/// The first entry for a collection, at `i` or later.
pub open spec fn sizes_from(all: Seq<ArchiveSizes>, collection: Seq<char>, i: int) -> Option<int>
    decreases all.len() - i,
{
    if i >= all.len() {
        None
    } else if all[i].collection@ == collection {
        Some(i)
    } else {
        sizes_from(all, collection, i + 1)
    }
}

/// The size of the archive at an index of a collection's torrent.
pub open spec fn size_of(all: Seq<ArchiveSizes>, collection: Seq<char>, index: int) -> Option<u64> {
    match sizes_from(all, collection, 0) {
        Some(i) => if 0 <= index < all[i].sizes@.len() {
            Some(all[i].sizes@[index])
        } else {
            None
        },
        None => None,
    }
}

/// The size of the archive at an index of a collection's torrent.
pub fn archive_size(all: &Vec<ArchiveSizes>, collection: &str, index: i64) -> (r: Option<u64>)
    ensures
        r == size_of(all@, collection@, index as int),
{
    let mut i: usize = 0;
    while i < all.len()
        invariant
            i <= all@.len(),
            sizes_from(all@, collection@, i as int) == sizes_from(all@, collection@, 0),
        decreases all@.len() - i,
    {
        if same(all[i].collection.as_str(), collection) {
            let sizes = &all[i].sizes;
            if index >= 0 && (index as u64) < (sizes.len() as u64) {
                return Some(sizes[index as usize]);
            }
            return None;
        }
        i += 1;
    }
    None
}

/// An archive so small beside its English counterpart carries no game: it is less
/// than a twentieth of it.
pub open spec fn overlays(size: int, base_size: int) -> bool {
    base_size > 0 && 20 * size < base_size
}

/// Whether an archive is a patch to its English counterpart.
pub fn is_overlay(size: u64, base_size: u64) -> (r: bool)
    ensures
        r == overlays(size as int, base_size as int),
{
    base_size > 0 && 20 * (size as u128) < base_size as u128
}

/// The first English row, at `i` or later.
pub open spec fn english_from(rows: Seq<Game>, i: int) -> Option<int>
    decreases rows.len() - i,
{
    if i >= rows.len() {
        None
    } else if rows[i].language@ == "EN"@ {
        Some(i)
    } else {
        english_from(rows, i + 1)
    }
}

/// The size of a game's archive.
pub open spec fn game_size(all: Seq<ArchiveSizes>, game: Game) -> Option<u64> {
    match (game.torrent_source, game.game_torrent_index) {
        (Some(source), Some(index)) => size_of(all, source@, index as int),
        _ => None,
    }
}

/// A game of a language pack that a shortcode names.
pub open spec fn is_translation(game: Game) -> bool {
    &&& game.language@ != "EN"@
    &&& game.shortcode is Some
    &&& match game.torrent_source {
        Some(source) => match crate::collections::def_of(source@) {
            Some(c) => c.lang_dir is Some,
            None => false,
        },
        None => false,
    }
}

/// The English row that a translation needs underneath it, among the rows of its
/// shortcode.
pub open spec fn base_of(all: Seq<ArchiveSizes>, rows: Seq<Game>, game: Game) -> Option<int> {
    match (game_size(all, game), english_from(rows, 0)) {
        (Some(size), Some(i)) => match game_size(all, rows[i]) {
            Some(base_size) => if is_translation(game) && overlays(size as int, base_size as int) {
                Some(i)
            } else {
                None
            },
            None => None,
        },
        _ => None,
    }
}

fn size_of_game(all: &Vec<ArchiveSizes>, game: &Game) -> (r: Option<u64>)
    ensures
        r == game_size(all@, *game),
{
    match (&game.torrent_source, game.game_torrent_index) {
        (Some(source), Some(index)) => archive_size(all, source.as_str(), index),
        _ => None,
    }
}

/// The English row that a variant needs underneath it, or none where it stands on
/// its own. `rows` are the variants of its shortcode.
pub fn base_for<'a>(all: &Vec<ArchiveSizes>, rows: &'a Vec<Game>, game: &Game) -> (r: Option<
    &'a Game,
>)
    ensures
        match (r, base_of(all@, rows@, *game)) {
            (Some(base), Some(i)) => 0 <= i < rows@.len() && *base == rows@[i],
            (None, None) => true,
            _ => false,
        },
{
    if same(game.language.as_str(), "EN") || game.shortcode.is_none() {
        return None;
    }
    let packed = match &game.torrent_source {
        Some(source) => match collection_def(source.as_str()) {
            Some(c) => c.lang_dir.is_some(),
            None => false,
        },
        None => false,
    };
    if !packed {
        return None;
    }
    let size: u64 = match size_of_game(all, game) {
        Some(n) => n,
        None => {
            return None;
        },
    };
    let mut i: usize = 0;
    while i < rows.len()
        invariant
            i <= rows@.len(),
            english_from(rows@, i as int) == english_from(rows@, 0),
            is_translation(*game),
            game_size(all@, *game) == Some(size),
        decreases rows@.len() - i,
    {
        if same(rows[i].language.as_str(), "EN") {
            return match size_of_game(all, &rows[i]) {
                Some(base_size) => if is_overlay(size, base_size) {
                    Some(&rows[i])
                } else {
                    None
                },
                None => None,
            };
        }
        i += 1;
    }
    None
}

/// The size of the archive of the English game that a variant needs.
pub fn base_archive_size(all: &Vec<ArchiveSizes>, rows: &Vec<Game>, game: &Game) -> (r: Option<u64>)
    ensures
        r == (match base_of(all@, rows@, *game) {
            Some(i) => game_size(all@, rows@[i]),
            None => None,
        }),
{
    match base_for(all, rows, game) {
        Some(base) => size_of_game(all, base),
        None => None,
    }
}

/// The directory of an English game.
pub open spec fn base_dir(root: Seq<char>, base: Game) -> Option<Seq<char>> {
    match (base.torrent_source, base.shortcode) {
        (Some(source), Some(shortcode)) => Some(
            crate::fspath::joined(
                root,
                crate::collections::rel_game_dir(
                    source@,
                    shortcode@,
                    text::opt(base.application_path),
                ),
            ),
        ),
        _ => None,
    }
}

/// The directory of an English game, if it is unpacked. `dirs` lists the
/// directories that are on disk.
pub fn base_game_dir(torrent_root: &str, base: &Game, dirs: &Vec<String>) -> (r: Option<String>)
    ensures
        text::opt(r) == (match base_dir(torrent_root@, *base) {
            Some(dir) => if text::texts(dirs@).contains(dir) {
                Some(dir)
            } else {
                None
            },
            None => None,
        }),
{
    match (&base.torrent_source, &base.shortcode) {
        (Some(source), Some(shortcode)) => {
            let rel = collection_rel_game_dir(
                source.as_str(),
                shortcode.as_str(),
                borrow(&base.application_path),
            );
            let dir = join_path(torrent_root, rel.as_str());
            if is_one_of(dirs, dir.as_str()) {
                Some(dir)
            } else {
                None
            }
        },
        _ => None,
    }
}

/// Only a language pack's game has a game underneath it, which is an English row
/// whose archive is more than twenty times as large.
pub proof fn law_only_translations_have_a_base(all: Seq<ArchiveSizes>, rows: Seq<Game>, game: Game)
    requires
        base_of(all, rows, game) is Some,
    ensures
        is_translation(game),
        ({
            let i = base_of(all, rows, game)->0;
            &&& 0 <= i < rows.len()
            &&& rows[i].language@ == "EN"@
            &&& game_size(all, rows[i])->0 > 20 * game_size(all, game)->0
        }),
{
    lemma_english_row(rows, 0);
}

proof fn lemma_english_row(rows: Seq<Game>, i: int)
    requires
        0 <= i,
    ensures
        match english_from(rows, i) {
            Some(k) => i <= k < rows.len() && rows[k].language@ == "EN"@,
            None => true,
        },
    decreases rows.len() - i,
{
    if i < rows.len() && rows[i].language@ != "EN"@ {
        lemma_english_row(rows, i + 1);
    }
}

/// The game that a translation is laid over is the English one, and it is more than twenty
/// times as large: a translation that carries a game of its own is laid over none.
pub proof fn law_a_base_is_english_and_large(all: Seq<ArchiveSizes>, rows: Seq<Game>, game: Game)
    requires
        base_of(all, rows, game) is Some,
    ensures
        ({
            let i = base_of(all, rows, game)->0;
            &&& 0 <= i < rows.len()
            &&& rows[i].language@ == "EN"@
            &&& game.language@ != "EN"@
            &&& game_size(all, game) is Some
            &&& game_size(all, rows[i]) is Some
            &&& 20 * (game_size(all, game)->0) < game_size(all, rows[i])->0
        }),
{
    lemma_english(rows, 0);
}

proof fn lemma_english(rows: Seq<Game>, from: int)
    requires
        0 <= from,
    ensures
        english_from(rows, from) matches Some(i) ==> from <= i < rows.len() && rows[i].language@
            == "EN"@,
    decreases rows.len() - from,
{
    if from < rows.len() && rows[from].language@ != "EN"@ {
        lemma_english(rows, from + 1);
    }
}

} // verus!
