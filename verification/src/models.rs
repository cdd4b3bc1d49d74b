//! Rows of the catalogue and files of a torrent.

use crate::text::{
    chars_of, has_suffix, same,
};
use vstd::prelude::*;

verus! {

/// A game of the catalogue: one row per game and language.
pub struct Game {
    pub id: i64,
    pub title: String,
    pub language: String,
    pub year: Option<i64>,
    pub shortcode: Option<String>,
    /// The id of the collection that the row belongs to.
    pub torrent_source: Option<String>,
    /// The path of the game's launcher, as LaunchBox writes it.
    pub application_path: Option<String>,
    pub dosbox_conf: Option<String>,
    pub dosbox_variant: Option<String>,
    /// The game's archive among the files of its torrent.
    pub game_torrent_index: Option<i64>,
    /// The archive of the game's extras among the files of its torrent.
    pub gamedata_torrent_index: Option<i64>,
    pub download_size: Option<i64>,
    pub installed: bool,
    pub in_library: bool,
}

/// A file of a torrent.
pub struct TorrentFileEntry {
    pub index: usize,
    pub path: String,
    pub size: u64,
    /// Where the file begins among the bytes of all files.
    pub offset: u64,
}

/// The files of a torrent.
pub struct TorrentIndex {
    pub name: String,
    pub files: Vec<TorrentFileEntry>,
    pub total_size: u64,
    pub piece_length: u64,
}

/// The first file, `i` or later, with this path.
pub open spec fn path_from(files: Seq<TorrentFileEntry>, path: Seq<char>, i: int) -> Option<int>
    decreases files.len() - i,
{
    if i >= files.len() {
        None
    } else if files[i].path@ == path {
        Some(i)
    } else {
        path_from(files, path, i + 1)
    }
}

/// The first file, `i` or later, whose path ends in `suffix`.
pub open spec fn suffix_from(files: Seq<TorrentFileEntry>, suffix: Seq<char>, i: int) -> Option<int>
    decreases files.len() - i,
{
    if i >= files.len() {
        None
    } else if suffix.is_suffix_of(files[i].path@) {
        Some(i)
    } else {
        suffix_from(files, suffix, i + 1)
    }
}

impl TorrentIndex {
    /// The file with this path.
    pub fn find_by_path(&self, path: &str) -> (r: Option<&TorrentFileEntry>)
        ensures
            match (r, path_from(self.files@, path@, 0)) {
                (Some(f), Some(i)) => 0 <= i < self.files@.len() && *f == self.files@[i],
                (None, None) => true,
                _ => false,
            },
    {
        let mut i: usize = 0;
        while i < self.files.len()
            invariant
                i <= self.files@.len(),
                path_from(self.files@, path@, i as int) == path_from(self.files@, path@, 0),
            decreases self.files@.len() - i,
        {
            if same(self.files[i].path.as_str(), path) {
                return Some(&self.files[i]);
            }
            i += 1;
        }
        None
    }

    /// The first file whose path ends in `suffix`.
    pub fn find_by_suffix(&self, suffix: &str) -> (r: Option<&TorrentFileEntry>)
        ensures
            match (r, suffix_from(self.files@, suffix@, 0)) {
                (Some(f), Some(i)) => 0 <= i < self.files@.len() && *f == self.files@[i],
                (None, None) => true,
                _ => false,
            },
    {
        let mut i: usize = 0;
        while i < self.files.len()
            invariant
                i <= self.files@.len(),
                suffix_from(self.files@, suffix@, i as int) == suffix_from(self.files@, suffix@, 0),
            decreases self.files@.len() - i,
        {
            if has_suffix(chars_of(self.files[i].path.as_str()).as_slice(), suffix) {
                return Some(&self.files[i]);
            }
            i += 1;
        }
        None
    }
}

} // verus!
