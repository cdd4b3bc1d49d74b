//! What the user owns: which files of a torrent belong to a row of the
//! catalogue, and which files only came along with others.

use crate::models::{Game, TorrentFileEntry, TorrentIndex};
use crate::text;
use crate::text::{
    before_suffix, cat, cat3, chars_of, copy, rcut_once, signed_of, string_of, swap_chars,
};
use vstd::prelude::*;

verus! {

// ── Names ────────────────────────────────────────────────────────────────────

/// The name of a game with its year, which the file name of its launcher is.
pub open spec fn app_path_name(app_path: Seq<char>) -> Option<Seq<char>> {
    let normal = text::swap_char(app_path, '\\', '/');
    let file = match text::rsplit_once(normal, '/') {
        Some((_, f)) => f,
        None => normal,
    };
    text::strip_suffix(file, ".bat"@)
}

/// The name of a game with its year, out of the path of its launcher.
pub fn game_name_from_app_path(app_path: &str) -> (r: Option<String>)
    ensures
        text::opt(r) == app_path_name(app_path@),
{
    let normal = swap_chars(chars_of(app_path).as_slice(), '\\', '/');
    let file = match rcut_once(normal.as_slice(), '/') {
        Some((dir, f)) => f,
        None => normal.as_slice(),
    };
    match before_suffix(file, ".bat") {
        Some(name) => Some(string_of(name)),
        None => None,
    }
}

/// The names under which a game's archive is looked for, the best one first: the
/// launcher's, and without it the title with its year and the title alone.
pub open spec fn search_names(
    title: Seq<char>,
    app_path: Option<Seq<char>>,
    year: Option<i64>,
) -> Seq<Seq<char>> {
    let from_path = match app_path {
        Some(p) => app_path_name(p),
        None => None,
    };
    match (from_path, year) {
        (Some(name), _) => seq![name],
        (None, Some(y)) => seq![title + " ("@ + text::signed(y as int) + ")"@, title],
        (None, None) => seq![title],
    }
}

/// The names under which a game's archive is looked for, the best one first.
pub fn torrent_search_names(title: &str, app_path: Option<&str>, year: Option<i64>) -> (r: Vec<
    String,
>)
    ensures
        text::texts(r@) == search_names(title@, text::opt_ref(app_path), year),
{
    let from_path = match app_path {
        Some(p) => game_name_from_app_path(p),
        None => None,
    };
    let mut names: Vec<String> = Vec::new();
    match from_path {
        Some(name) => {
            names.push(name);
        },
        None => {
            if let Some(y) = year {
                let dated = cat3(title, " (", signed_of(y).as_str());
                names.push(cat(dated.as_str(), ")"));
            }
            names.push(copy(title));
        },
    }
    assert(text::texts(names@) =~= search_names(title@, text::opt_ref(app_path), year));
    names
}

/// The name under which a row's archive lies on disk.
pub open spec fn archive_name(game: Game) -> Seq<char> {
    match game.application_path {
        Some(p) => match app_path_name(p@) {
            Some(name) => name,
            None => game.title@,
        },
        None => game.title@,
    }
}

/// The name under which a row's archive lies on disk.
pub fn archive_name_of(game: &Game) -> (r: String)
    ensures
        r@ == archive_name(*game),
{
    match &game.application_path {
        Some(p) => match game_name_from_app_path(p.as_str()) {
            Some(name) => name,
            None => copy(game.title.as_str()),
        },
        None => copy(game.title.as_str()),
    }
}

// ── Rows and files of a torrent ──────────────────────────────────────────────

/// The files that a torrent has under one name: the game's archive, and that of
/// its extras.
pub struct FoundFiles {
    pub game: Option<TorrentFileEntry>,
    pub gamedata: Option<TorrentFileEntry>,
}

/// What is recorded of a row that was found in a torrent.
pub struct TorrentMatch {
    pub game_index: usize,
    pub gamedata_index: Option<usize>,
    pub size: i64,
}

/// The first name, `i` or later, under which the torrent has a game.
pub open spec fn first_game(found: Seq<FoundFiles>, i: int) -> Option<int>
    decreases found.len() - i,
{
    if i >= found.len() {
        None
    } else if found[i].game is Some {
        Some(i)
    } else {
        first_game(found, i + 1)
    }
}

/// The bytes of both archives, as the catalogue counts them.
pub open spec fn both_sizes(f: FoundFiles) -> int {
    (match f.game {
        Some(g) => (g.size as i64) as int,
        None => 0,
    }) + (match f.gamedata {
        Some(g) => (g.size as i64) as int,
        None => 0,
    })
}

/// What is recorded of a row, given what the torrent has under each of its
/// names: the first name with a game counts.
pub fn match_torrent_indices(found: &Vec<FoundFiles>) -> (r: Option<TorrentMatch>)
    requires
        first_game(found@, 0) matches Some(i) ==> i64::MIN <= both_sizes(found@[i]) <= i64::MAX,
    ensures
        match (r, first_game(found@, 0)) {
            (Some(m), Some(i)) => {
                &&& 0 <= i < found@.len()
                &&& m.game_index == found@[i].game->0.index
                &&& m.gamedata_index == (match found@[i].gamedata {
                    Some(g) => Some(g.index),
                    None => None,
                })
                &&& m.size == both_sizes(found@[i])
            },
            (None, None) => true,
            _ => false,
        },
{
    let mut i: usize = 0;
    while i < found.len()
        invariant
            i <= found@.len(),
            first_game(found@, i as int) == first_game(found@, 0),
            first_game(found@, 0) matches Some(k) ==> i64::MIN <= both_sizes(found@[k])
                <= i64::MAX,
        decreases found@.len() - i,
    {
        let f = &found[i];
        if let Some(game) = &f.game {
            let (gamedata_index, extra): (Option<usize>, i64) = match &f.gamedata {
                Some(g) => (Some(g.index), g.size as i64),
                None => (None, 0),
            };
            return Some(
                TorrentMatch {
                    game_index: game.index,
                    gamedata_index,
                    size: game.size as i64 + extra,
                },
            );
        }
        i += 1;
    }
    None
}

// ── Collateral ───────────────────────────────────────────────────────────────

/// The first piece that a file occupies.
pub open spec fn first_piece(f: TorrentFileEntry, piece: u64) -> int {
    f.offset as int / piece as int
}

/// The last piece that a file occupies. An empty file counts as one byte.
pub open spec fn last_piece(f: TorrentFileEntry, piece: u64) -> int {
    (f.offset + (if f.size > 0 {
        f.size - 1
    } else {
        0
    })) / piece as int
}

/// The file lies within the bytes that 64 bits count.
pub open spec fn fits(f: TorrentFileEntry) -> bool {
    f.offset + f.size <= u64::MAX
}

/// Some requested file occupies piece `p`.
pub open spec fn covered(index: TorrentIndex, requested: Seq<usize>, p: int) -> bool {
    exists|r: int|
        #![trigger requested[r]]
        0 <= r < requested.len() && requested[r] < index.files@.len() && first_piece(
            index.files@[requested[r] as int],
            index.piece_length,
        ) <= p <= last_piece(index.files@[requested[r] as int], index.piece_length)
}

/// The file was not requested, and requested files occupy every piece of it.
pub open spec fn is_collateral(index: TorrentIndex, requested: Seq<usize>, i: int) -> bool {
    let f = index.files@[i];
    &&& index.piece_length > 0
    &&& !requested.contains(f.index)
    &&& f.size > 0
    &&& forall|p: int|
        first_piece(f, index.piece_length) <= p <= last_piece(f, index.piece_length)
            ==> #[trigger] covered(index, requested, p)
}

/// The indices of the collateral files among the first `n`.
pub open spec fn collateral_upto(index: TorrentIndex, requested: Seq<usize>, n: int) -> Seq<usize>
    decreases n,
{
    if n <= 0 {
        Seq::<usize>::empty()
    } else if is_collateral(index, requested, n - 1) {
        collateral_upto(index, requested, n - 1).push(index.files@[n - 1].index)
    } else {
        collateral_upto(index, requested, n - 1)
    }
}

/// The files that can only have come along with the requested ones, because they
/// have no piece of their own.
pub open spec fn collateral(index: TorrentIndex, requested: Seq<usize>) -> Seq<usize> {
    collateral_upto(index, requested, index.files@.len() as int)
}

pub fn contains_index(list: &Vec<usize>, x: usize) -> (r: bool)
    ensures
        r == list@.contains(x),
{
    let mut i: usize = 0;
    while i < list.len()
        invariant
            i <= list@.len(),
            forall|k: int| 0 <= k < i ==> list@[k] != x,
        decreases list@.len() - i,
    {
        if list[i] == x {
            return true;
        }
        i += 1;
    }
    false
}

fn pieces_of(f: &TorrentFileEntry, piece: u64) -> (r: (u64, u64))
    requires
        piece > 0,
        fits(*f),
    ensures
        r.0 == first_piece(*f, piece),
        r.1 == last_piece(*f, piece),
        r.0 <= r.1,
{
    let last: u64 = if f.size > 0 {
        f.offset + (f.size - 1)
    } else {
        f.offset
    };
    proof {
        vstd::arithmetic::div_mod::lemma_div_is_ordered(f.offset as int, last as int, piece as int);
    }
    (f.offset / piece, last / piece)
}

/// The last piece, from `p` on, up to which some one requested file reaches; none
/// where no requested file occupies `p`.
fn reach_of(index: &TorrentIndex, requested: &Vec<usize>, p: u64) -> (r: Option<u64>)
    requires
        index.piece_length > 0,
        forall|i: int| 0 <= i < index.files@.len() ==> fits(#[trigger] index.files@[i]),
    ensures
        match r {
            Some(q) => p <= q && forall|k: int| p <= k <= q ==> #[trigger] covered(*index, requested@, k),
            None => !covered(*index, requested@, p as int),
        },
{
    let mut i: usize = 0;
    while i < requested.len()
        invariant
            i <= requested@.len(),
            index.piece_length > 0,
            forall|k: int| 0 <= k < index.files@.len() ==> fits(#[trigger] index.files@[k]),
            forall|k: int|
                0 <= k < i && (#[trigger] requested@[k]) < index.files@.len() ==> !(first_piece(
                    index.files@[requested@[k] as int],
                    index.piece_length,
                ) <= p <= last_piece(index.files@[requested@[k] as int], index.piece_length)),
        decreases requested@.len() - i,
    {
        let x: usize = requested[i];
        if x < index.files.len() {
            assert(fits(index.files@[x as int]));
            let (first, last) = pieces_of(&index.files[x], index.piece_length);
            if first <= p && p <= last {
                assert forall|k: int| p <= k <= last implies #[trigger] covered(
                    *index,
                    requested@,
                    k,
                ) by {
                    assert(requested@[i as int] == x);
                }
                return Some(last);
            }
        }
        i += 1;
    }
    None
}

/// Whether requested files occupy every piece of file `i`.
fn all_covered(index: &TorrentIndex, requested: &Vec<usize>, i: usize) -> (r: bool)
    requires
        index.piece_length > 0,
        i < index.files@.len(),
        forall|k: int| 0 <= k < index.files@.len() ==> fits(#[trigger] index.files@[k]),
    ensures
        r == forall|p: int|
            first_piece(index.files@[i as int], index.piece_length) <= p <= last_piece(
                index.files@[i as int],
                index.piece_length,
            ) ==> #[trigger] covered(*index, requested@, p),
{
    assert(fits(index.files@[i as int]));
    let (first, last) = pieces_of(&index.files[i], index.piece_length);
    let mut p: u64 = first;
    loop
        invariant
            index.piece_length > 0,
            i < index.files@.len(),
            forall|k: int| 0 <= k < index.files@.len() ==> fits(#[trigger] index.files@[k]),
            first == first_piece(index.files@[i as int], index.piece_length),
            last == last_piece(index.files@[i as int], index.piece_length),
            first <= p <= last,
            forall|k: int| first <= k < p ==> #[trigger] covered(*index, requested@, k),
        decreases last - p,
    {
        match reach_of(index, requested, p) {
            None => {
                assert(!covered(*index, requested@, p as int));
                return false;
            },
            Some(q) => {
                if q >= last {
                    return true;
                }
                p = q + 1;
            },
        }
    }
}

/// The indices of the files that can only have come along with the requested
/// ones: every piece they occupy belongs to a requested file too. A file with a
/// piece of its own was downloaded on purpose.
pub fn collateral_file_indices(index: &TorrentIndex, requested: &Vec<usize>) -> (r: Vec<usize>)
    requires
        forall|i: int| 0 <= i < index.files@.len() ==> fits(#[trigger] index.files@[i]),
    ensures
        r@ == collateral(*index, requested@),
{
    let mut out: Vec<usize> = Vec::new();
    let mut i: usize = 0;
    while i < index.files.len()
        invariant
            i <= index.files@.len(),
            forall|k: int| 0 <= k < index.files@.len() ==> fits(#[trigger] index.files@[k]),
            out@ == collateral_upto(*index, requested@, i as int),
        decreases index.files@.len() - i,
    {
        let f = &index.files[i];
        if index.piece_length > 0 && !contains_index(requested, f.index) && f.size > 0
            && all_covered(index, requested, i) {
            out.push(f.index);
        }
        i += 1;
    }
    out
}

proof fn lemma_collateral_upto(index: TorrentIndex, requested: Seq<usize>, n: int, x: usize)
    requires
        0 <= n <= index.files@.len(),
        collateral_upto(index, requested, n).contains(x),
    ensures
        exists|i: int| 0 <= i < n && #[trigger] is_collateral(index, requested, i)
            && index.files@[i].index == x,
    decreases n,
{
    if n > 0 {
        let before = collateral_upto(index, requested, n - 1);
        let k = choose|k: int| 0 <= k < collateral_upto(index, requested, n).len()
            && collateral_upto(index, requested, n)[k] == x;
        if is_collateral(index, requested, n - 1) && k == before.len() {
            assert(is_collateral(index, requested, n - 1));
        } else {
            assert(before[k] == x);
            lemma_collateral_upto(index, requested, n - 1, x);
        }
    }
}

/// What was requested is never collateral.
pub proof fn law_requested_never_collateral(index: TorrentIndex, requested: Seq<usize>, x: usize)
    requires
        requested.contains(x),
    ensures
        !collateral(index, requested).contains(x),
{
    if collateral(index, requested).contains(x) {
        lemma_collateral_upto(index, requested, index.files@.len() as int, x);
    }
}

/// Where nothing was requested, nothing is collateral: an empty library does not
/// wipe itself.
pub proof fn law_nothing_requested_nothing_collateral(index: TorrentIndex)
    ensures
        collateral(index, Seq::<usize>::empty()).len() == 0,
{
    lemma_none_collateral(index, index.files@.len() as int);
}

proof fn lemma_none_collateral(index: TorrentIndex, n: int)
    requires
        n <= index.files@.len(),
    ensures
        collateral_upto(index, Seq::<usize>::empty(), n).len() == 0,
    decreases n,
{
    if n > 0 {
        lemma_none_collateral(index, n - 1);
        let none = Seq::<usize>::empty();
        if is_collateral(index, none, n - 1) {
            let f = index.files@[n - 1];
            let p = first_piece(f, index.piece_length);
            vstd::arithmetic::div_mod::lemma_div_is_ordered(
                f.offset as int,
                f.offset + f.size - 1,
                index.piece_length as int,
            );
            assert(covered(index, none, p));
        }
    }
}

/// A file with a piece that no requested file occupies was asked for.
pub proof fn law_own_piece_not_collateral(
    index: TorrentIndex,
    requested: Seq<usize>,
    i: int,
    p: int,
)
    requires
        0 <= i < index.files@.len(),
        first_piece(index.files@[i], index.piece_length) <= p <= last_piece(
            index.files@[i],
            index.piece_length,
        ),
        !covered(index, requested, p),
    ensures
        !is_collateral(index, requested, i),
{
}

/// A game's archive is named after the file of its launcher, without the ending; a row
/// without a launcher after its title.
pub proof fn law_archives_are_named_after_launchers(dir: Seq<char>, name: Seq<char>, game: Game)
    requires
        !name.contains('/'),
        !name.contains('\\'),
    ensures
        app_path_name(dir + "\\"@ + name + ".bat"@) == Some(name),
        game.application_path is None ==> archive_name(game) == game.title@,
        game.application_path is Some && (game.application_path->0)@ == dir + "\\"@ + name
            + ".bat"@ ==> archive_name(game) == name,
{
    reveal_strlit("\\");
    reveal_strlit(".bat");
    let path = dir + "\\"@ + name + ".bat"@;
    let normal = text::swap_char(path, '\\', '/');
    let n = dir.len() as int;
    text::lemma_last_char(normal, '/');
    assert(normal[n] == '/');
    let file = name + ".bat"@;
    assert forall|k: int| n < k < normal.len() implies #[trigger] normal[k] != '/' by {
        assert(path[k] == file[k - n - 1]);
        if k - n - 1 < name.len() {
            assert(name.contains(name[k - n - 1]));
        }
    }
    assert(text::last_char(normal, '/') == Some(n));
    assert(normal.skip(n + 1) =~= file) by {
        assert forall|k: int| 0 <= k < file.len() implies #[trigger] normal.skip(n + 1)[k]
            == file[k] by {
            assert(path[n + 1 + k] == file[k]);
            if k < name.len() {
                assert(name.contains(name[k]));
            }
        }
    }
    assert(file.subrange(name.len() as int, file.len() as int) =~= ".bat"@);
    assert(file.take(name.len() as int) =~= name);
}

/// A file of a torrent is collateral only where it was not asked for and shares every byte's
/// piece with files that were: its first and its last byte lie in pieces of files that were
/// asked for.
pub proof fn law_collateral_shares_its_pieces(index: TorrentIndex, requested: Seq<usize>, i: int)
    requires
        0 <= i < index.files@.len(),
        is_collateral(index, requested, i),
    ensures
        !requested.contains(index.files@[i].index),
        index.piece_length > 0,
        exists|r: int|
            0 <= r < requested.len() && requested[r] < index.files@.len() && {
                let f = index.files@[(#[trigger] requested[r]) as int];
                let p = index.files@[i].offset as int / index.piece_length as int;
                f.offset as int / index.piece_length as int <= p && p <= (f.offset + (if f.size > 0 {
                    f.size - 1
                } else {
                    0
                })) / index.piece_length as int
            },
{
    let f = index.files@[i];
    let p = first_piece(f, index.piece_length);
    assert(p <= last_piece(f, index.piece_length)) by (nonlinear_arith)
        requires
            p == f.offset as int / index.piece_length as int,
            last_piece(f, index.piece_length) == (f.offset + (if f.size > 0 {
                f.size - 1
            } else {
                0
            })) / index.piece_length as int,
            index.piece_length > 0,
    ;
    assert(covered(index, requested, p));
}

} // verus!
