//! Paths as texts with forward slashes.

use crate::text;
use crate::text::{
    cat, cat3, chars_of, copy, drop_back, is_str, rcut_once, same, split_on, string_of,
};
use vstd::prelude::*;

verus! {

/// `rel` below `base`. An absolute `rel` stands for itself, and an empty base
/// for nothing.
pub open spec fn joined(base: Seq<char>, rel: Seq<char>) -> Seq<char> {
    if rel.len() > 0 && rel[0] == '/' {
        rel
    } else if base.len() == 0 || base.last() == '/' {
        base + rel
    } else {
        base + "/"@ + rel
    }
}

/// `rel` below `base`.
pub fn join_path(base: &str, rel: &str) -> (r: String)
    ensures
        r@ == joined(base@, rel@),
{
    let b = chars_of(base);
    let c = chars_of(rel);
    if c.len() > 0 && c[0] == '/' {
        string_of(c.as_slice())
    } else if b.len() == 0 || b[b.len() - 1] == '/' {
        cat(base, rel)
    } else {
        cat3(base, "/", rel)
    }
}

/// The pieces among the first `n` that name something: neither empty nor `.`.
pub open spec fn named_pieces(pieces: Seq<Seq<char>>, n: int) -> Seq<Seq<char>>
    decreases n,
{
    if n <= 0 {
        Seq::<Seq<char>>::empty()
    } else if pieces[n - 1].len() == 0 || pieces[n - 1] == "."@ {
        named_pieces(pieces, n - 1)
    } else {
        named_pieces(pieces, n - 1).push(pieces[n - 1])
    }
}

/// The names along a path.
pub open spec fn components(path: Seq<char>) -> Seq<Seq<char>> {
    named_pieces(text::split(path, '/'), text::split(path, '/').len() as int)
}

/// The name that a path ends in, if it ends in one.
pub open spec fn file_name(path: Seq<char>) -> Option<Seq<char>> {
    let names = components(path);
    if names.len() == 0 || names.last() == ".."@ {
        None
    } else {
        Some(names.last())
    }
}

/// The name of the directory that a path lies in, if the path says it.
pub open spec fn parent_name(path: Seq<char>) -> Option<Seq<char>> {
    let names = components(path);
    if names.len() < 2 || names[names.len() - 2] == ".."@ {
        None
    } else {
        Some(names[names.len() - 2])
    }
}

/// A name up to its last dot. A dot at the front separates nothing.
pub open spec fn name_stem(name: Seq<char>) -> Seq<char> {
    match text::rsplit_once(name, '.') {
        Some((before, _)) if before.len() > 0 => before,
        _ => name,
    }
}

/// What follows the last dot of a name. A dot at the front separates nothing.
pub open spec fn name_extension(name: Seq<char>) -> Option<Seq<char>> {
    match text::rsplit_once(name, '.') {
        Some((before, after)) if before.len() > 0 => Some(after),
        _ => None,
    }
}

/// The extension of the file that a path names.
pub open spec fn extension(path: Seq<char>) -> Option<Seq<char>> {
    match file_name(path) {
        Some(name) => name_extension(name),
        None => None,
    }
}

/// The stem of the file that a path names.
pub open spec fn file_stem(path: Seq<char>) -> Option<Seq<char>> {
    match file_name(path) {
        Some(name) => Some(name_stem(name)),
        None => None,
    }
}

/// The names along a path.
pub fn components_of(path: &str) -> (r: Vec<String>)
    ensures
        text::texts(r@) == components(path@),
{
    let chars = chars_of(path);
    let pieces = split_on(chars.as_slice(), '/');
    let ghost all = text::split(path@, '/');
    let mut out: Vec<String> = Vec::new();
    let mut i: usize = 0;
    assert(text::texts(out@) =~= named_pieces(all, 0));
    while i < pieces.len()
        invariant
            i <= pieces@.len(),
            text::texts(pieces@) == all,
            text::texts(out@) == named_pieces(all, i as int),
        decreases pieces@.len() - i,
    {
        let piece = chars_of(pieces[i].as_str());
        assert(piece@ == all[i as int]);
        if piece.len() > 0 && !is_str(piece.as_slice(), ".") {
            let ghost done = text::texts(out@);
            let name = string_of(piece.as_slice());
            out.push(name);
            assert(text::texts(out@) =~= done.push(all[i as int]));
        }
        i += 1;
    }
    out
}

/// The name that a path ends in.
pub fn file_name_of(path: &str) -> (r: Option<String>)
    ensures
        text::opt(r) == file_name(path@),
{
    let names = components_of(path);
    let ghost all = components(path@);
    if names.len() == 0 {
        return None;
    }
    let last = names[names.len() - 1].as_str();
    assert(last@ == all.last());
    if same(last, "..") {
        None
    } else {
        Some(string_of(chars_of(last).as_slice()))
    }
}

/// The name of the directory that a path lies in.
pub fn parent_name_of(path: &str) -> (r: Option<String>)
    ensures
        text::opt(r) == parent_name(path@),
{
    let names = components_of(path);
    let ghost all = components(path@);
    if names.len() < 2 {
        return None;
    }
    let dir = names[names.len() - 2].as_str();
    assert(dir@ == all[all.len() - 2]);
    if same(dir, "..") {
        None
    } else {
        Some(string_of(chars_of(dir).as_slice()))
    }
}

/// A name up to its last dot.
pub fn name_stem_of(name: &[char]) -> (r: &[char])
    ensures
        r@ == name_stem(name@),
{
    match rcut_once(name, '.') {
        Some((before, after)) => if before.len() > 0 {
            before
        } else {
            name
        },
        None => name,
    }
}

/// What follows the last dot of a name.
pub fn name_extension_of(name: &[char]) -> (r: Option<&[char]>)
    ensures
        match r {
            Some(e) => name_extension(name@) == Some(e@),
            None => name_extension(name@) is None,
        },
{
    match rcut_once(name, '.') {
        Some((before, after)) => if before.len() > 0 {
            Some(after)
        } else {
            None
        },
        None => None,
    }
}

/// The extension of the file that a path names.
pub fn extension_of(path: &str) -> (r: Option<String>)
    ensures
        text::opt(r) == extension(path@),
{
    match file_name_of(path) {
        Some(name) => {
            let chars = chars_of(name.as_str());
            match name_extension_of(chars.as_slice()) {
                Some(e) => Some(string_of(e)),
                None => None,
            }
        },
        None => None,
    }
}

/// The stem of the file that a path names.
pub fn file_stem_of(path: &str) -> (r: Option<String>)
    ensures
        text::opt(r) == file_stem(path@),
{
    match file_name_of(path) {
        Some(name) => {
            let chars = chars_of(name.as_str());
            Some(string_of(name_stem_of(chars.as_slice())))
        },
        None => None,
    }
}

/// What a path is made of: its root, or the `.` it begins with, and its names.
pub open spec fn parts(path: Seq<char>) -> Seq<Seq<char>> {
    (if path.len() > 0 && path[0] == '/' {
        seq!["/"@]
    } else if text::split(path, '/')[0] == "."@ {
        seq!["."@]
    } else {
        Seq::<Seq<char>>::empty()
    }) + components(path)
}

/// `path` is `dir` or lies below it. A path that merely begins with the same
/// characters does not.
pub open spec fn lies_in(path: Seq<char>, dir: Seq<char>) -> bool {
    parts(dir).is_prefix_of(parts(path))
}

/// The directory that a path lies in, as a text. A root and an empty path lie in
/// none.
pub open spec fn parent(path: Seq<char>) -> Option<Seq<char>> {
    let p = text::strip_back(path, '/');
    if p.len() == 0 {
        None
    } else {
        match text::rsplit_once(p, '/') {
            None => Some(Seq::<char>::empty()),
            Some((before, _)) => if text::strip_back(before, '/').len() == 0 {
                Some("/"@)
            } else {
                Some(text::strip_back(before, '/'))
            },
        }
    }
}

/// What a path is made of.
pub fn parts_of(path: &str) -> (r: Vec<String>)
    ensures
        text::texts(r@) == parts(path@),
{
    let chars = chars_of(path);
    let pieces = split_on(chars.as_slice(), '/');
    let ghost all = text::split(path@, '/');
    proof {
        text::lemma_split_some(path@, '/');
    }
    assert(all[0] == pieces@[0]@);
    let mut out: Vec<String> = Vec::new();
    if chars.len() > 0 && chars[0] == '/' {
        out.push(copy("/"));
        assert(text::texts(out@) =~= seq!["/"@]);
    } else if same(pieces[0].as_str(), ".") {
        out.push(copy("."));
        assert(text::texts(out@) =~= seq!["."@]);
    } else {
        assert(text::texts(out@) =~= Seq::<Seq<char>>::empty());
    }
    let names = components_of(path);
    let ghost lead = text::texts(out@);
    let mut i: usize = 0;
    while i < names.len()
        invariant
            i <= names@.len(),
            text::texts(out@) == lead + text::texts(names@).take(i as int),
        decreases names@.len() - i,
    {
        let ghost done = text::texts(out@);
        out.push(copy(names[i].as_str()));
        assert(text::texts(out@) =~= done.push(names@[i as int]@));
        i += 1;
        assert(text::texts(out@) =~= lead + text::texts(names@).take(i as int));
    }
    assert(text::texts(names@).take(names@.len() as int) =~= text::texts(names@));
    out
}

/// Whether `path` is `dir` or lies below it.
pub fn path_lies_in(path: &str, dir: &str) -> (r: bool)
    ensures
        r == lies_in(path@, dir@),
{
    let d = parts_of(dir);
    let p = parts_of(path);
    if d.len() > p.len() {
        return false;
    }
    let mut i: usize = 0;
    while i < d.len()
        invariant
            i <= d@.len(),
            d@.len() <= p@.len(),
            text::texts(d@) == parts(dir@),
            text::texts(p@) == parts(path@),
            forall|k: int| 0 <= k < i ==> text::texts(d@)[k] == text::texts(p@)[k],
        decreases d@.len() - i,
    {
        assert(text::texts(d@)[i as int] == d@[i as int]@ && text::texts(p@)[i as int] == p@[i as int]@);
        if !same(d[i].as_str(), p[i].as_str()) {
            assert(parts(path@).subrange(0, parts(dir@).len() as int)[i as int] != parts(
                dir@,
            )[i as int]);
            return false;
        }
        i += 1;
    }
    assert(parts(path@).subrange(0, parts(dir@).len() as int) =~= parts(dir@));
    true
}

/// The directory that a path lies in.
pub fn parent_of(path: &str) -> (r: Option<String>)
    ensures
        text::opt(r) == parent(path@),
{
    let chars = chars_of(path);
    let p = drop_back(chars.as_slice(), '/');
    if p.len() == 0 {
        return None;
    }
    match rcut_once(p, '/') {
        None => {
            let empty = String::new();
            assert(empty@ =~= Seq::<char>::empty());
            Some(empty)
        },
        Some((before, last)) => {
            let b = drop_back(before, '/');
            if b.len() == 0 {
                Some(copy("/"))
            } else {
                Some(string_of(b))
            }
        },
    }
}

// ── Laws ─────────────────────────────────────────────────────────────────────

proof fn lemma_split_joins(a: Seq<char>, b: Seq<char>)
    ensures
        text::split(a.push('/') + b, '/') == text::split(a, '/') + text::split(b, '/'),
    decreases b.len(),
{
    let s = a.push('/') + b;
    if b.len() == 0 {
        assert(s =~= a.push('/'));
        assert(s.drop_last() =~= a);
        assert(text::split(s, '/') =~= text::split(a, '/') + text::split(b, '/'));
    } else {
        let shorter = b.drop_last();
        lemma_split_joins(a, shorter);
        text::lemma_split_some(shorter, '/');
        assert(s.drop_last() =~= a.push('/') + shorter);
        assert(s.last() == b.last());
        assert(text::split(s, '/') =~= text::split(a, '/') + text::split(b, '/'));
    }
}

proof fn lemma_named_joins(x: Seq<Seq<char>>, y: Seq<Seq<char>>, n: int)
    requires
        0 <= n <= y.len(),
    ensures
        named_pieces(x + y, x.len() + n) == named_pieces(x, x.len() as int) + named_pieces(y, n),
    decreases n,
{
    if n == 0 {
        lemma_named_front(x, y, x.len() as int);
        assert(named_pieces(x, x.len() as int) + named_pieces(y, 0) =~= named_pieces(
            x,
            x.len() as int,
        ));
    } else {
        lemma_named_joins(x, y, n - 1);
        assert((x + y)[x.len() + n - 1] == y[n - 1]);
        assert(named_pieces(x + y, x.len() + n) =~= named_pieces(x, x.len() as int)
            + named_pieces(y, n));
    }
}

proof fn lemma_named_front(x: Seq<Seq<char>>, y: Seq<Seq<char>>, n: int)
    requires
        0 <= n <= x.len(),
    ensures
        named_pieces(x + y, n) == named_pieces(x, n),
    decreases n,
{
    if n > 0 {
        lemma_named_front(x, y, n - 1);
        assert((x + y)[n - 1] == x[n - 1]);
    }
}

proof fn lemma_components_join(a: Seq<char>, b: Seq<char>)
    ensures
        components(a.push('/') + b) == components(a) + components(b),
        text::split(a.push('/') + b, '/')[0] == text::split(a, '/')[0],
{
    lemma_split_joins(a, b);
    text::lemma_split_some(a, '/');
    lemma_named_joins(text::split(a, '/'), text::split(b, '/'), text::split(b, '/').len() as int);
}

/// What is joined to a directory lies below it, unless it is absolute; the names
/// along it are those of the directory and then its own.
pub proof fn law_joined_lies_below(base: Seq<char>, rel: Seq<char>)
    requires
        rel.len() > 0 ==> rel[0] != '/',
    ensures
        lies_in(joined(base, rel), base),
        components(joined(base, rel)) == components(base) + components(rel),
{
    reveal_strlit("/");
    reveal_strlit(".");
    let path = joined(base, rel);
    let nothing = Seq::<char>::empty();
    lemma_empty_path();
    if base.len() == 0 {
        assert(path =~= rel);
        assert(base =~= nothing);
        assert(components(path) =~= components(base) + components(rel));
        assert(parts(base) =~= Seq::<Seq<char>>::empty());
        assert(parts(path).subrange(0, 0) =~= parts(base));
    } else {
        let stem = if base.last() == '/' {
            base.drop_last()
        } else {
            base
        };
        lemma_components_join(stem, rel);
        lemma_components_join(stem, nothing);
        if base.last() == '/' {
            assert(base =~= stem.push('/') + nothing);
            assert(path =~= stem.push('/') + rel);
            assert(components(base) =~= components(stem));
        } else {
            assert(path =~= stem.push('/') + rel);
        }
        assert(components(path) =~= components(base) + components(rel));
        assert(text::split(path, '/')[0] == text::split(base, '/')[0]);
        assert(path[0] == base[0]);
        assert(parts(path).subrange(0, parts(base).len() as int) =~= parts(base));
    }
}

proof fn lemma_empty_path()
    ensures
        components(Seq::<char>::empty()) == Seq::<Seq<char>>::empty(),
        text::split(Seq::<char>::empty(), '/') == seq![Seq::<char>::empty()],
{
    let s = text::split(Seq::<char>::empty(), '/');
    assert(s.len() == 1);
    assert(named_pieces(s, 0) =~= Seq::<Seq<char>>::empty());
    assert(named_pieces(s, 1) == named_pieces(s, 0));
}

} // verus!
