//! Folding installs that keep a root per torrent into the one game root.

use crate::collections::collection_map;
use crate::fspath::{file_name_of, join_path, parent_of, parts_of};
use crate::order::distinct_paths;
use crate::paths::is_os_metadata;
use crate::text;
use crate::text::{
    borrow, cat, cat3, copy, is_one_of, same,
};
use vstd::prelude::*;

verus! {

/// Roots beside the real one, to be merged where the user agrees.
pub struct LayoutMigration {
    /// The names of the folders that still hold games.
    pub folders: Vec<String>,
    /// Roughly how much is to be moved.
    pub bytes: u64,
    /// Whether to ask at the start. Once declined, the folders are only listed.
    pub prompt: bool,
}

/// What a merge did.
#[derive(Clone, Copy)]
pub struct MergeTally {
    /// Entries that were carried across.
    pub moved: usize,
    /// Duplicates of which the smaller copy was deleted.
    pub deduped: usize,
    /// A directory facing a file, or the reverse.
    pub skipped: usize,
}

impl MergeTally {
    /// Nothing was done yet.
    pub fn new() -> (r: MergeTally)
        ensures
            r == (MergeTally { moved: 0, deduped: 0, skipped: 0 }),
    {
        MergeTally { moved: 0, deduped: 0, skipped: 0 }
    }

    /// Takes in what another merge did.
    pub fn add(&mut self, other: MergeTally)
        requires
            old(self).moved + other.moved <= usize::MAX,
            old(self).deduped + other.deduped <= usize::MAX,
            old(self).skipped + other.skipped <= usize::MAX,
        ensures
            final(self).moved == old(self).moved + other.moved,
            final(self).deduped == old(self).deduped + other.deduped,
            final(self).skipped == old(self).skipped + other.skipped,
    {
        self.moved = self.moved + other.moved;
        self.deduped = self.deduped + other.deduped;
        self.skipped = self.skipped + other.skipped;
    }
}

// ── Which folders are roots of their own ─────────────────────────────────────

/// Where a collection's own root may stand: beside the game root, inside it, and
/// beside the data directory where that is the game root.
pub open spec fn candidates(data_dir: Seq<char>, root: Seq<char>, folder: Seq<char>) -> Seq<
    Seq<char>,
> {
    seq![crate::fspath::joined(data_dir, folder), crate::fspath::joined(root, folder)] + (if same_path(
        root,
        data_dir,
    ) && crate::fspath::parent(data_dir) is Some {
        seq![crate::fspath::joined(crate::fspath::parent(data_dir)->0, folder)]
    } else {
        Seq::<Seq<char>>::empty()
    })
}

/// Two texts name one path.
pub open spec fn same_path(a: Seq<char>, b: Seq<char>) -> bool {
    crate::fspath::parts(a) == crate::fspath::parts(b)
}

/// Where the roots of the first `n` collections may stand.
pub open spec fn all_candidates(data_dir: Seq<char>, root: Seq<char>, n: int) -> Seq<Seq<char>>
    decreases n,
{
    if n <= 0 {
        Seq::<Seq<char>>::empty()
    } else {
        all_candidates(data_dir, root, n - 1) + candidates(
            data_dir,
            root,
            crate::collections::collections()[n - 1].inner_folder,
        )
    }
}

/// A path is a root of its own: it holds `eXo`, and it is not the game root.
pub open spec fn is_stray(root: Seq<char>, dirs: Seq<Seq<char>>, path: Seq<char>) -> bool {
    !same_path(path, root) && dirs.contains(crate::fspath::joined(path, "eXo"@))
}

fn is_same_path(a: &str, b: &str) -> (r: bool)
    ensures
        r == same_path(a@, b@),
{
    let x = parts_of(a);
    let y = parts_of(b);
    if x.len() != y.len() {
        assert(text::texts(x@).len() != text::texts(y@).len());
        return false;
    }
    let mut i: usize = 0;
    while i < x.len()
        invariant
            i <= x@.len(),
            x@.len() == y@.len(),
            text::texts(x@) == crate::fspath::parts(a@),
            text::texts(y@) == crate::fspath::parts(b@),
            forall|k: int| 0 <= k < i ==> text::texts(x@)[k] == text::texts(y@)[k],
        decreases x@.len() - i,
    {
        assert(text::texts(x@)[i as int] == x@[i as int]@ && text::texts(y@)[i as int] == y@[i as int]@);
        if !same(x[i].as_str(), y[i].as_str()) {
            return false;
        }
        i += 1;
    }
    assert(text::texts(x@) =~= text::texts(y@));
    true
}

/// The stray ones among paths.
pub open spec fn strays_of(root: Seq<char>, dirs: Seq<Seq<char>>, paths: Seq<Seq<char>>) -> Seq<
    Seq<char>,
> {
    paths.filter(|path: Seq<char>| is_stray(root, dirs, path))
}

fn push_stray(out: &mut Vec<String>, root: &str, dirs: &Vec<String>, path: String)
    ensures
        is_stray(root@, text::texts(dirs@), path@) ==> text::texts(final(out)@) == text::texts(old(out)@).push(path@),
        !is_stray(root@, text::texts(dirs@), path@) ==> text::texts(final(out)@) == text::texts(old(out)@),
{
    let inside = join_path(path.as_str(), "eXo");
    if !is_same_path(path.as_str(), root) && is_one_of(dirs, inside.as_str()) {
        let ghost before = text::texts(out@);
        out.push(path);
        assert(text::texts(out@) =~= before.push(path@));
    }
}

proof fn lemma_strays_push(
    root: Seq<char>,
    dirs: Seq<Seq<char>>,
    paths: Seq<Seq<char>>,
    path: Seq<char>,
)
    ensures
        strays_of(root, dirs, paths.push(path)) == (if is_stray(root, dirs, path) {
            strays_of(root, dirs, paths).push(path)
        } else {
            strays_of(root, dirs, paths)
        }),
{
    reveal(Seq::filter);
    assert(paths.push(path).drop_last() =~= paths);
}

/// The roots of collections that stand beside the game root or inside it. `dirs`
/// lists the directories that are on disk.
pub fn stray_roots(data_dir: &str, root: &str, dirs: &Vec<String>) -> (r: Vec<String>)
    ensures
        crate::order::lists_paths(
            strays_of(
                root@,
                text::texts(dirs@),
                all_candidates(data_dir@, root@, crate::collections::collections().len() as int),
            ),
            text::texts(r@),
        ),
{
    let map = collection_map();
    let beside = if is_same_path(root, data_dir) {
        parent_of(data_dir)
    } else {
        None
    };
    let mut found: Vec<String> = Vec::new();
    let mut i: usize = 0;
    let ghost on_disk = text::texts(dirs@);
    proof {
        reveal(Seq::filter);
        assert(text::texts(found@) =~= strays_of(root@, on_disk, all_candidates(data_dir@, root@, 0)));
    }
    while i < map.len()
        invariant
            i <= map@.len(),
            on_disk == text::texts(dirs@),
            map@.len() == crate::collections::collections().len(),
            forall|k: int|
                0 <= k < map@.len() ==> (#[trigger] map@[k])@ == crate::collections::collections()[k],
            text::opt(beside) == (if same_path(root@, data_dir@) {
                crate::fspath::parent(data_dir@)
            } else {
                None
            }),
            text::texts(found@) == strays_of(root@, on_disk, all_candidates(data_dir@, root@, i as int)),
        decreases map@.len() - i,
    {
        let folder = map[i].inner_folder;
        let ghost done = all_candidates(data_dir@, root@, i as int);
        assert(folder@ == crate::collections::collections()[i as int].inner_folder);
        let first = join_path(data_dir, folder);
        let second = join_path(root, folder);
        let ghost one = done.push(first@);
        let ghost two = one.push(second@);
        push_stray(&mut found, root, dirs, first);
        push_stray(&mut found, root, dirs, second);
        proof {
            lemma_strays_push(root@, on_disk, done, first@);
            lemma_strays_push(root@, on_disk, one, second@);
        }
        if let Some(dir) = borrow(&beside) {
            let third = join_path(dir, folder);
            proof {
                lemma_strays_push(root@, on_disk, two, third@);
                assert(two.push(third@) =~= done + candidates(data_dir@, root@, folder@));
            }
            push_stray(&mut found, root, dirs, third);
        } else {
            assert(two =~= done + candidates(data_dir@, root@, folder@));
        }
        i += 1;
    }
    distinct_paths(&found)
}

// ── What is pending ──────────────────────────────────────────────────────────

/// A root of its own, and roughly how much lies in it.
pub struct StrayRoot {
    pub path: String,
    pub bytes: u64,
}

/// The names that paths end in.
pub open spec fn folder_names(strays: Seq<StrayRoot>, n: int) -> Seq<Seq<char>>
    decreases n,
{
    if n <= 0 {
        Seq::<Seq<char>>::empty()
    } else {
        match crate::fspath::file_name(strays[n - 1].path@) {
            Some(name) => folder_names(strays, n - 1).push(name),
            None => folder_names(strays, n - 1),
        }
    }
}

/// How much lies in the first `n`.
pub open spec fn stray_bytes(strays: Seq<StrayRoot>, n: int) -> nat
    decreases n,
{
    if n <= 0 {
        0
    } else {
        stray_bytes(strays, n - 1) + strays[n - 1].bytes as nat
    }
}

/// A number, or the largest that fits.
pub open spec fn capped(n: nat) -> nat {
    if n <= u64::MAX {
        n
    } else {
        u64::MAX as nat
    }
}

/// The sum, or the largest number that fits.
pub fn capped_sum(a: u64, b: u64) -> (r: u64)
    ensures
        r == capped((a + b) as nat),
{
    if a <= u64::MAX - b {
        a + b
    } else {
        u64::MAX
    }
}

/// What is to be merged: nothing without a data directory or a stray root, and no
/// question once the user has declined.
pub fn pending_layout_migration(
    data_dir: Option<&str>,
    strays: &Vec<StrayRoot>,
    asked: Option<&str>,
) -> (r: Option<LayoutMigration>)
    ensures
        r is Some <==> data_dir is Some && strays@.len() > 0,
        match r {
            Some(m) => {
                &&& text::texts(m.folders@) == folder_names(strays@, strays@.len() as int)
                &&& m.bytes == capped(stray_bytes(strays@, strays@.len() as int))
                &&& m.prompt == (text::opt_ref(asked) != Some("skip"@))
            },
            None => true,
        },
{
    if data_dir.is_none() || strays.len() == 0 {
        return None;
    }
    let mut folders: Vec<String> = Vec::new();
    let mut bytes: u64 = 0;
    let mut i: usize = 0;
    assert(text::texts(folders@) =~= folder_names(strays@, 0));
    while i < strays.len()
        invariant
            i <= strays@.len(),
            text::texts(folders@) == folder_names(strays@, i as int),
            bytes == capped(stray_bytes(strays@, i as int)),
        decreases strays@.len() - i,
    {
        if let Some(name) = file_name_of(strays[i].path.as_str()) {
            let ghost done = text::texts(folders@);
            let ghost n = name@;
            folders.push(name);
            assert(text::texts(folders@) =~= done.push(n));
        }
        bytes = capped_sum(bytes, strays[i].bytes);
        i += 1;
    }
    let prompt = match asked {
        Some(a) => !same(a, "skip"),
        None => true,
    };
    Some(LayoutMigration { folders, bytes, prompt })
}

// ── Trees ────────────────────────────────────────────────────────────────────

/// What an entry of a directory is.
pub enum Node {
    File {
        len: u64,
        /// The file is named `.zip` and its central directory reads.
        opens: bool,
    },
    Dir { entries: Vec<Entry> },
    /// Neither a file nor a directory.
    Other,
}

/// An entry of a directory.
pub struct Entry {
    pub name: String,
    pub node: Node,
}

/// How much the files of the first `n` entries take, down to the third level
/// below.
pub open spec fn shallow_size(entries: Seq<Entry>, depth: nat, n: int) -> nat
    decreases entries, n,
{
    if depth > 3 || n <= 0 || n > entries.len() {
        0
    } else {
        shallow_size(entries, depth, n - 1) + node_size(entries[n - 1].node, depth)
    }
}

/// How much an entry at this depth takes.
pub open spec fn node_size(node: Node, depth: nat) -> nat
    decreases node, 0int,
{
    match node {
        Node::File { len, opens } => len as nat,
        Node::Dir { entries } => shallow_size(entries@, depth + 1, entries@.len() as int),
        Node::Other => 0,
    }
}

/// Roughly how much lies in a directory: the files down to the third level below
/// it, or the largest number that fits.
pub fn dir_size_shallow(entries: &Vec<Entry>) -> (r: u64)
    ensures
        r == capped(shallow_size(entries@, 0, entries@.len() as int)),
{
    size_at(entries, 0)
}

fn size_at(entries: &Vec<Entry>, depth: u8) -> (r: u64)
    requires
        depth <= 4,
    ensures
        r == capped(shallow_size(entries@, depth as nat, entries@.len() as int)),
    decreases 4 - depth,
{
    if depth > 3 {
        return 0;
    }
    let mut total: u64 = 0;
    let mut i: usize = 0;
    while i < entries.len()
        invariant
            i <= entries@.len(),
            depth <= 3,
            total == capped(shallow_size(entries@, depth as nat, i as int)),
        decreases entries@.len() - i,
    {
        let size: u64 = match &entries[i].node {
            Node::File { len, opens } => *len,
            Node::Dir { entries: below } => size_at(below, depth + 1),
            Node::Other => 0,
        };
        assert(size == capped(node_size(entries@[i as int].node, depth as nat)));
        total = capped_sum(total, size);
        i += 1;
    }
    total
}

// ── Merging ──────────────────────────────────────────────────────────────────

/// What a path is.
pub enum Kind {
    File {
        len: u64,
        /// The file is named `.zip` and its central directory reads.
        opens: bool,
    },
    Dir,
    /// Neither a file nor a directory.
    Other,
}

/// An entry of the tree that is merged, and what faces it.
pub struct MergeEntry {
    pub name: String,
    pub from: Kind,
    /// What stands at the same place of the other tree, if anything does.
    pub to: Option<Kind>,
    /// The entries below, where a directory faces a directory.
    pub children: Vec<MergeEntry>,
}

/// A step of a merge.
pub enum MergeStep {
    /// Nothing stood there: carry the entry across.
    Move { from: String, to: String },
    /// Delete what stood there, and carry the file across.
    Replace { from: String, to: String },
    /// Delete the file.
    Drop { from: String },
    /// The two are different kinds of entry: leave both alone.
    Leave { from: String, to: String },
    /// Delete the directory if it is empty.
    Clear { dir: String },
}

/// The view of a step.
pub enum Step {
    Move { from: Seq<char>, to: Seq<char> },
    Replace { from: Seq<char>, to: Seq<char> },
    Drop { from: Seq<char> },
    Leave { from: Seq<char>, to: Seq<char> },
    Clear { dir: Seq<char> },
}

impl View for MergeStep {
    type V = Step;

    open spec fn view(&self) -> Step {
        match self {
            MergeStep::Move { from, to } => Step::Move { from: from@, to: to@ },
            MergeStep::Replace { from, to } => Step::Replace { from: from@, to: to@ },
            MergeStep::Drop { from } => Step::Drop { from: from@ },
            MergeStep::Leave { from, to } => Step::Leave { from: from@, to: to@ },
            MergeStep::Clear { dir } => Step::Clear { dir: dir@ },
        }
    }
}

/// The views of steps.
pub open spec fn steps(v: Seq<MergeStep>) -> Seq<Step> {
    Seq::new(v.len(), |i: int| v[i]@)
}

/// The file that is carried across wins over the one that stands there: it is
/// larger, or as long, and it alone opens as an archive. Of one length a file may
/// still be a download that was never finished.
pub open spec fn wins(len: u64, opens: bool, there_len: u64, there_opens: bool) -> bool {
    len > there_len || (len == there_len && len > 0 && opens && !there_opens)
}

/// The steps for one entry.
pub open spec fn entry_steps(e: MergeEntry, from: Seq<char>, to: Seq<char>) -> Seq<Step>
    decreases e, 0int,
{
    let f = crate::fspath::joined(from, e.name@);
    let t = crate::fspath::joined(to, e.name@);
    if crate::paths::os_metadata(f) {
        Seq::<Step>::empty()
    } else {
        match (e.from, e.to) {
            (_, None) => seq![Step::Move { from: f, to: t }],
            (Kind::Dir, Some(Kind::Dir)) => merge_steps(
                e.children@,
                f,
                t,
                e.children@.len() as int,
            ).push(Step::Clear { dir: f }),
            (
                Kind::File { len, opens },
                Some(Kind::File { len: there_len, opens: there_opens }),
            ) => if wins(len, opens, there_len, there_opens) {
                seq![Step::Replace { from: f, to: t }]
            } else {
                seq![Step::Drop { from: f }]
            },
            _ => seq![Step::Leave { from: f, to: t }],
        }
    }
}

/// The steps for the first `n` entries of a directory.
pub open spec fn merge_steps(
    entries: Seq<MergeEntry>,
    from: Seq<char>,
    to: Seq<char>,
    n: int,
) -> Seq<Step>
    decreases entries, n,
{
    if n <= 0 || n > entries.len() {
        Seq::<Step>::empty()
    } else {
        merge_steps(entries, from, to, n - 1) + entry_steps(entries[n - 1], from, to)
    }
}

fn append_steps(out: &mut Vec<MergeStep>, more: Vec<MergeStep>)
    ensures
        steps(final(out)@) == steps(old(out)@) + steps(more@),
{
    let ghost before = out@;
    let ghost new = more@;
    let mut rest = more;
    out.append(&mut rest);
    assert(steps(out@) =~= steps(before) + steps(new));
}

fn one_step(step: MergeStep) -> (r: Vec<MergeStep>)
    ensures
        steps(r@) == seq![step@],
{
    let mut out: Vec<MergeStep> = Vec::new();
    out.push(step);
    assert(steps(out@) =~= seq![step@]);
    out
}

fn merge_entry(e: &MergeEntry, from: &str, to: &str) -> (r: Vec<MergeStep>)
    ensures
        steps(r@) == entry_steps(*e, from@, to@),
    decreases e, 0int,
{
    let f = join_path(from, e.name.as_str());
    let t = join_path(to, e.name.as_str());
    if is_os_metadata(f.as_str()) {
        let none: Vec<MergeStep> = Vec::new();
        assert(steps(none@) =~= Seq::<Step>::empty());
        return none;
    }
    match (&e.from, &e.to) {
        (_, None) => one_step(MergeStep::Move { from: f, to: t }),
        (Kind::Dir, Some(Kind::Dir)) => {
            let mut out = merge_tree(&e.children, f.as_str(), t.as_str());
            let ghost below = steps(out@);
            out.push(MergeStep::Clear { dir: f });
            assert(steps(out@) =~= below.push(Step::Clear { dir: f@ }));
            out
        },
        (Kind::File { len, opens }, Some(Kind::File { len: there_len, opens: there_opens })) => {
            if *len > *there_len || (*len == *there_len && *len > 0 && *opens && !*there_opens) {
                one_step(MergeStep::Replace { from: f, to: t })
            } else {
                one_step(MergeStep::Drop { from: f })
            }
        },
        _ => one_step(MergeStep::Leave { from: f, to: t }),
    }
}

/// How to merge the directory `from` into the directory `to`.
pub fn merge_tree(entries: &Vec<MergeEntry>, from: &str, to: &str) -> (r: Vec<MergeStep>)
    ensures
        steps(r@) == merge_steps(entries@, from@, to@, entries@.len() as int),
    decreases entries@, entries@.len(),
{
    let mut out: Vec<MergeStep> = Vec::new();
    let mut i: usize = 0;
    assert(steps(out@) =~= merge_steps(entries@, from@, to@, 0));
    while i < entries.len()
        invariant
            i <= entries@.len(),
            steps(out@) == merge_steps(entries@, from@, to@, i as int),
        decreases entries@.len() - i,
    {
        let more = merge_entry(&entries[i], from, to);
        append_steps(&mut out, more);
        i += 1;
    }
    out
}

/// How many of the first `n` steps carry an entry across.
pub open spec fn moves(s: Seq<Step>, n: int) -> nat
    decreases n,
{
    if n <= 0 {
        0
    } else {
        moves(s, n - 1) + if s[n - 1] is Move || s[n - 1] is Replace {
            1nat
        } else {
            0
        }
    }
}

/// How many of the first `n` steps delete a duplicate.
pub open spec fn drops(s: Seq<Step>, n: int) -> nat
    decreases n,
{
    if n <= 0 {
        0
    } else {
        drops(s, n - 1) + if s[n - 1] is Drop {
            1nat
        } else {
            0
        }
    }
}

/// How many of the first `n` steps leave two entries alone.
pub open spec fn leaves(s: Seq<Step>, n: int) -> nat
    decreases n,
{
    if n <= 0 {
        0
    } else {
        leaves(s, n - 1) + if s[n - 1] is Leave {
            1nat
        } else {
            0
        }
    }
}

/// What the steps of a merge come to.
pub fn tally_of(list: &Vec<MergeStep>) -> (r: MergeTally)
    ensures
        r.moved == moves(steps(list@), list@.len() as int),
        r.deduped == drops(steps(list@), list@.len() as int),
        r.skipped == leaves(steps(list@), list@.len() as int),
{
    let mut tally = MergeTally::new();
    let mut i: usize = 0;
    let ghost all = steps(list@);
    let n: usize = list.len();
    while i < n
        invariant
            i <= n,
            n == list@.len(),
            all == steps(list@),
            tally.moved == moves(all, i as int),
            tally.deduped == drops(all, i as int),
            tally.skipped == leaves(all, i as int),
            tally.moved <= i,
            tally.deduped <= i,
            tally.skipped <= i,
        decreases n - i,
    {
        assert(all[i as int] == list@[i as int]@);
        match &list[i] {
            MergeStep::Move { from, to } => {
                tally.moved = tally.moved + 1;
            },
            MergeStep::Replace { from, to } => {
                tally.moved = tally.moved + 1;
            },
            MergeStep::Drop { from } => {
                tally.deduped = tally.deduped + 1;
            },
            MergeStep::Leave { from, to } => {
                tally.skipped = tally.skipped + 1;
            },
            MergeStep::Clear { dir } => {},
        }
        i += 1;
    }
    tally
}

/// What to say of a step that failed. A directory that could not be deleted is no
/// failure.
pub fn merge_failure(step: &MergeStep, error: &str) -> (r: Option<String>)
    ensures
        text::opt(r) == (match step@ {
            Step::Move { from, to } => Some("moving "@ + from + " to "@ + to + ": "@ + error@),
            Step::Replace { from, to } => Some("replacing "@ + to + ": "@ + error@),
            Step::Drop { from } => Some("removing duplicate "@ + from + ": "@ + error@),
            _ => None,
        }),
{
    match step {
        MergeStep::Move { from, to } => {
            let head = cat3("moving ", from.as_str(), " to ");
            let whole = cat3(head.as_str(), to.as_str(), ": ");
            Some(cat(whole.as_str(), error))
        },
        MergeStep::Replace { from, to } => {
            let head = cat3("replacing ", to.as_str(), ": ");
            Some(cat(head.as_str(), error))
        },
        MergeStep::Drop { from } => {
            let head = cat3("removing duplicate ", from.as_str(), ": ");
            Some(cat(head.as_str(), error))
        },
        _ => None,
    }
}

// ── Clearing up ──────────────────────────────────────────────────────────────

/// Nothing is among the first `n` entries but directories of which this holds too
/// and files that an operating system left.
pub open spec fn is_bare(dir: Seq<char>, entries: Seq<Entry>, n: int) -> bool
    decreases entries, n,
{
    n <= 0 || n > entries.len() || (is_bare(dir, entries, n - 1) && is_bare_entry(
        dir,
        entries[n - 1],
    ))
}

/// The entry is a bare directory, or a file that an operating system left.
pub open spec fn is_bare_entry(dir: Seq<char>, e: Entry) -> bool
    decreases e, 0int,
{
    let path = crate::fspath::joined(dir, e.name@);
    match e.node {
        Node::Dir { entries } => is_bare(path, entries@, entries@.len() as int),
        _ => crate::paths::os_metadata(path),
    }
}

/// The steps that clear the first `n` entries.
pub open spec fn clear_entries(dir: Seq<char>, entries: Seq<Entry>, n: int) -> Seq<Step>
    decreases entries, n,
{
    if n <= 0 || n > entries.len() {
        Seq::<Step>::empty()
    } else {
        clear_entries(dir, entries, n - 1) + clear_entry(dir, entries[n - 1])
    }
}

/// The steps that clear one entry.
pub open spec fn clear_entry(dir: Seq<char>, e: Entry) -> Seq<Step>
    decreases e, 0int,
{
    let path = crate::fspath::joined(dir, e.name@);
    match e.node {
        Node::Dir { entries } => clear_entries(path, entries@, entries@.len() as int) + (if is_bare(
            path,
            entries@,
            entries@.len() as int,
        ) {
            seq![Step::Clear { dir: path }]
        } else {
            Seq::<Step>::empty()
        }),
        _ => if crate::paths::os_metadata(path) {
            seq![Step::Drop { from: path }]
        } else {
            Seq::<Step>::empty()
        },
    }
}

fn clear_node(dir: &str, e: &Entry) -> (r: (Vec<MergeStep>, bool))
    ensures
        steps(r.0@) == clear_entry(dir@, *e),
        r.1 == is_bare_entry(dir@, *e),
    decreases e, 0int,
{
    let path = join_path(dir, e.name.as_str());
    match &e.node {
        Node::Dir { entries } => {
            let (list, bare) = remove_empty_tree(path.as_str(), entries);
            (list, bare)
        },
        _ => if is_os_metadata(path.as_str()) {
            (one_step(MergeStep::Drop { from: path }), true)
        } else {
            let none: Vec<MergeStep> = Vec::new();
            assert(steps(none@) =~= Seq::<Step>::empty());
            (none, false)
        },
    }
}

/// How to delete a directory that holds only directories and what an operating
/// system left; and whether it goes. A directory that holds anything else stays.
pub fn remove_empty_tree(dir: &str, entries: &Vec<Entry>) -> (r: (Vec<MergeStep>, bool))
    ensures
        r.1 == is_bare(dir@, entries@, entries@.len() as int),
        steps(r.0@) == clear_entries(dir@, entries@, entries@.len() as int) + (if r.1 {
            seq![Step::Clear { dir: dir@ }]
        } else {
            Seq::<Step>::empty()
        }),
    decreases entries@, entries@.len(),
{
    let mut out: Vec<MergeStep> = Vec::new();
    let mut bare = true;
    let mut i: usize = 0;
    assert(steps(out@) =~= clear_entries(dir@, entries@, 0));
    while i < entries.len()
        invariant
            i <= entries@.len(),
            steps(out@) == clear_entries(dir@, entries@, i as int),
            bare == is_bare(dir@, entries@, i as int),
        decreases entries@.len() - i,
    {
        let (more, gone) = clear_node(dir, &entries[i]);
        append_steps(&mut out, more);
        bare = bare && gone;
        i += 1;
    }
    let ghost below = steps(out@);
    if bare {
        out.push(MergeStep::Clear { dir: copy(dir) });
        assert(steps(out@) =~= below + seq![Step::Clear { dir: dir@ }]);
    } else {
        assert(steps(out@) =~= below + Seq::<Step>::empty());
    }
    (out, bare)
}

// ── Laws ─────────────────────────────────────────────────────────────────────

/// Where two files face each other, the one that stays is at least as long as the
/// one that goes; an empty placeholder never wins over data, and loses to it.
pub proof fn law_larger_copy_stays(len: u64, opens: bool, there_len: u64, there_opens: bool)
    ensures
        wins(len, opens, there_len, there_opens) ==> len >= there_len,
        !wins(len, opens, there_len, there_opens) ==> there_len >= len,
        len == 0 ==> !wins(len, opens, there_len, there_opens),
        len > 0 && there_len == 0 ==> wins(len, opens, there_len, there_opens),
{
}

/// A tie goes to the archive that opens; without a verdict, what stood there
/// stays.
pub proof fn law_tie_goes_to_the_archive_that_opens(len: u64, opens: bool, there_opens: bool)
    requires
        len > 0,
    ensures
        wins(len, opens, len, there_opens) <==> opens && !there_opens,
{
}

/// An entry stays where it is for good: it faces another kind of entry, or an
/// entry below it does.
pub open spec fn stays(e: MergeEntry, from: Seq<char>) -> bool
    decreases e, 0int,
{
    let f = crate::fspath::joined(from, e.name@);
    !crate::paths::os_metadata(f) && match (e.from, e.to) {
        (_, None) => false,
        (Kind::Dir, Some(Kind::Dir)) => some_stays(e.children@, f, e.children@.len() as int),
        (Kind::File { len, opens }, Some(Kind::File { len: l, opens: o })) => false,
        _ => true,
    }
}

/// One of the first `n` entries stays for good.
pub open spec fn some_stays(entries: Seq<MergeEntry>, from: Seq<char>, n: int) -> bool
    decreases entries, n,
{
    0 < n <= entries.len() && (some_stays(entries, from, n - 1) || stays(entries[n - 1], from))
}

proof fn lemma_leaves_split(a: Seq<Step>, b: Seq<Step>, n: int)
    requires
        0 <= n <= b.len(),
    ensures
        leaves(a + b, a.len() + n) == leaves(a, a.len() as int) + leaves(b, n),
    decreases n,
{
    if n == 0 {
        lemma_leaves_prefix(a, b, a.len() as int);
    } else {
        lemma_leaves_split(a, b, n - 1);
        assert((a + b)[a.len() + n - 1] == b[n - 1]);
    }
}

proof fn lemma_leaves_prefix(a: Seq<Step>, b: Seq<Step>, n: int)
    requires
        0 <= n <= a.len(),
    ensures
        leaves(a + b, n) == leaves(a, n),
    decreases n,
{
    if n > 0 {
        lemma_leaves_prefix(a, b, n - 1);
        assert((a + b)[n - 1] == a[n - 1]);
    }
}

proof fn lemma_entry_leaves(e: MergeEntry, from: Seq<char>, to: Seq<char>)
    ensures
        stays(e, from) <==> leaves(
            entry_steps(e, from, to),
            entry_steps(e, from, to).len() as int,
        ) > 0,
    decreases e, 0int,
{
    let f = crate::fspath::joined(from, e.name@);
    let t = crate::fspath::joined(to, e.name@);
    let s = entry_steps(e, from, to);
    reveal_with_fuel(leaves, 2);
    if !crate::paths::os_metadata(f) {
        match (e.from, e.to) {
            (Kind::Dir, Some(Kind::Dir)) => {
                law_skipped_tells_what_stays(e.children@, f, t, e.children@.len() as int);
                let below = merge_steps(e.children@, f, t, e.children@.len() as int);
                assert(s =~= below + seq![Step::Clear { dir: f }]);
                lemma_leaves_split(below, seq![Step::Clear { dir: f }], 1);
            },
            _ => {},
        }
    }
}

/// A merge counts a skipped entry exactly where something stays behind for good;
/// otherwise nothing is left of the old tree but directories and what an
/// operating system put there.
pub proof fn law_skipped_tells_what_stays(
    entries: Seq<MergeEntry>,
    from: Seq<char>,
    to: Seq<char>,
    n: int,
)
    requires
        0 <= n <= entries.len(),
    ensures
        some_stays(entries, from, n) <==> leaves(
            merge_steps(entries, from, to, n),
            merge_steps(entries, from, to, n).len() as int,
        ) > 0,
    decreases entries, n,
{
    if n > 0 {
        law_skipped_tells_what_stays(entries, from, to, n - 1);
        lemma_entry_leaves(entries[n - 1], from, to);
        let a = merge_steps(entries, from, to, n - 1);
        let b = entry_steps(entries[n - 1], from, to);
        lemma_leaves_split(a, b, b.len() as int);
    }
}

/// Merging two trees loses no file: a file goes only where one that is as long or longer, or
/// that opens where it does not, lies in its place; a file that nothing lies in the way of
/// moves, and a file that faces a directory stays.
pub proof fn law_merging_loses_no_file(e: MergeEntry, from: Seq<char>, to: Seq<char>)
    requires
        !crate::paths::os_metadata(crate::fspath::joined(from, e.name@)),
    ensures
        ({
            let f = crate::fspath::joined(from, e.name@);
            let t = crate::fspath::joined(to, e.name@);
            let steps = entry_steps(e, from, to);
            &&& e.to is None ==> steps == seq![Step::Move { from: f, to: t }]
            &&& e.from is Dir && e.to is Some && (e.to->0) is File ==> steps == seq![
                Step::Leave { from: f, to: t },
            ]
            &&& e.from is File && e.to is Some && (e.to->0) is Dir ==> steps == seq![
                Step::Leave { from: f, to: t },
            ]
            &&& match (e.from, e.to) {
                (
                    Kind::File { len, opens },
                    Some(Kind::File { len: there_len, opens: there_opens }),
                ) => {
                    &&& len > there_len ==> steps == seq![Step::Replace { from: f, to: t }]
                    &&& len < there_len ==> steps == seq![Step::Drop { from: f }]
                    &&& len == there_len && there_opens ==> steps == seq![Step::Drop { from: f }]
                    &&& len == there_len && len > 0 && opens && !there_opens ==> steps == seq![
                        Step::Replace { from: f, to: t },
                    ]
                },
                _ => true,
            }
        }),
{
}

} // verus!
