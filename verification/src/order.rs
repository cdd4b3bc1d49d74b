//! Orders: of numbers, of texts and of paths, and sorting by them.

use crate::fspath::parts_of;
use crate::text;
use crate::text::{
    chars_of, copy, same,
};
use vstd::prelude::*;

verus! {

/// Values that can be ranked. Two values of which neither precedes the other
/// rank alike.
pub trait Ranked: Sized {
    /// This value comes before the other.
    spec fn precedes(&self, other: &Self) -> bool;

    /// Nothing precedes itself, what precedes a value precedes all that the value
    /// precedes, and ranking alike carries over from one value to the next.
    proof fn law_ranking(a: &Self, b: &Self, c: &Self)
        ensures
            !a.precedes(a),
            a.precedes(b) && b.precedes(c) ==> a.precedes(c),
            !a.precedes(b) && !b.precedes(c) ==> !a.precedes(c),
    ;

    /// Whether this value comes before the other.
    fn comes_before(&self, other: &Self) -> (r: bool)
        ensures
            r == self.precedes(other),
    ;
}

impl Ranked for i128 {
    open spec fn precedes(&self, other: &i128) -> bool {
        *self < *other
    }

    proof fn law_ranking(a: &i128, b: &i128, c: &i128) {
    }

    fn comes_before(&self, other: &i128) -> (r: bool) {
        *self < *other
    }
}

// ── Texts ────────────────────────────────────────────────────────────────────

/// `a` comes before `b`: at the first difference its character is the smaller
/// one, or it ends first.
pub open spec fn text_before(a: Seq<char>, b: Seq<char>) -> bool
    decreases a.len(),
{
    if b.len() == 0 {
        false
    } else if a.len() == 0 {
        true
    } else if a[0] != b[0] {
        a[0] < b[0]
    } else {
        text_before(a.skip(1), b.skip(1))
    }
}

/// Whether `a` comes before `b`.
pub fn is_before(a: &str, b: &str) -> (r: bool)
    ensures
        r == text_before(a@, b@),
{
    let x = chars_of(a);
    let y = chars_of(b);
    let mut i: usize = 0;
    assert(x@.skip(0) =~= x@);
    assert(y@.skip(0) =~= y@);
    loop
        invariant
            x@ == a@,
            y@ == b@,
            i <= x@.len(),
            i <= y@.len(),
            text_before(x@.skip(i as int), y@.skip(i as int)) == text_before(a@, b@),
        decreases x@.len() - i,
    {
        if i >= y.len() {
            return false;
        }
        if i >= x.len() {
            return true;
        }
        let p: char = x[i];
        let q: char = y[i];
        if p != q {
            return p < q;
        }
        assert(x@.skip(i as int).skip(1) =~= x@.skip(i + 1));
        assert(y@.skip(i as int).skip(1) =~= y@.skip(i + 1));
        i += 1;
    }
}

/// The order of texts is total: no text comes before itself, of two different
/// texts one comes before the other and not the other way round, and what comes
/// before a text comes before all that the text comes before.
pub proof fn law_text_order(a: Seq<char>, b: Seq<char>, c: Seq<char>)
    ensures
        !text_before(a, a),
        a != b ==> text_before(a, b) || text_before(b, a),
        text_before(a, b) ==> !text_before(b, a),
        text_before(a, b) && text_before(b, c) ==> text_before(a, c),
    decreases a.len() + b.len() + c.len(),
{
    if a.len() > 0 && b.len() > 0 {
        if c.len() > 0 {
            law_text_order(a.skip(1), b.skip(1), c.skip(1));
        } else {
            law_text_order(a.skip(1), b.skip(1), c);
        }
        assert(a =~= seq![a[0]] + a.skip(1));
        assert(b =~= seq![b[0]] + b.skip(1));
    } else if a.len() > 0 {
        law_text_order(a.skip(1), b, c);
    } else if b.len() == 0 {
        assert(a =~= b);
    }
}

impl Ranked for String {
    open spec fn precedes(&self, other: &String) -> bool {
        text_before(self@, other@)
    }

    proof fn law_ranking(a: &String, b: &String, c: &String) {
        law_text_order(a@, b@, c@);
        law_text_order(b@, c@, a@);
        law_text_order(c@, b@, a@);
        law_text_order(a@, c@, b@);
        law_text_order(c@, a@, b@);
    }

    fn comes_before(&self, other: &String) -> (r: bool) {
        is_before(self.as_str(), other.as_str())
    }
}

// ── Paths ────────────────────────────────────────────────────────────────────

/// What a part of a path is: the root, the place it begins at, a step up, or a
/// name.
pub open spec fn part_kind(part: Seq<char>) -> int {
    if part == "/"@ {
        0
    } else if part == "."@ {
        1
    } else if part == ".."@ {
        2
    } else {
        3
    }
}

/// A part of a path comes before another: by what it is, then as a text.
pub open spec fn part_before(a: Seq<char>, b: Seq<char>) -> bool {
    part_kind(a) < part_kind(b) || (part_kind(a) == part_kind(b) && text_before(a, b))
}

/// The parts `a` come before the parts `b`: at the first difference, or because
/// they end first.
pub open spec fn parts_before(a: Seq<Seq<char>>, b: Seq<Seq<char>>) -> bool
    decreases a.len(),
{
    if b.len() == 0 {
        false
    } else if a.len() == 0 {
        true
    } else if a[0] != b[0] {
        part_before(a[0], b[0])
    } else {
        parts_before(a.skip(1), b.skip(1))
    }
}

/// The order of paths is total over their parts.
pub proof fn law_path_order(a: Seq<Seq<char>>, b: Seq<Seq<char>>, c: Seq<Seq<char>>)
    ensures
        !parts_before(a, a),
        a != b ==> parts_before(a, b) || parts_before(b, a),
        parts_before(a, b) ==> !parts_before(b, a),
        parts_before(a, b) && parts_before(b, c) ==> parts_before(a, c),
    decreases a.len() + b.len() + c.len(),
{
    if a.len() > 0 && b.len() > 0 {
        if c.len() > 0 {
            law_path_order(a.skip(1), b.skip(1), c.skip(1));
            law_text_order(a[0], b[0], c[0]);
        } else {
            law_path_order(a.skip(1), b.skip(1), c);
            law_text_order(a[0], b[0], b[0]);
        }
        assert(a =~= seq![a[0]] + a.skip(1));
        assert(b =~= seq![b[0]] + b.skip(1));
    } else if a.len() > 0 {
        law_path_order(a.skip(1), b, c);
    } else if b.len() == 0 {
        assert(a =~= b);
    }
}

/// A path, taken apart.
pub struct PathKey {
    pub parts: Vec<String>,
}

/// The path, taken apart.
pub fn path_key(path: &str) -> (r: PathKey)
    ensures
        text::texts(r.parts@) == crate::fspath::parts(path@),
{
    PathKey { parts: parts_of(path) }
}

fn kind_of(part: &str) -> (r: u8)
    ensures
        r == part_kind(part@),
{
    if same(part, "/") {
        0
    } else if same(part, ".") {
        1
    } else if same(part, "..") {
        2
    } else {
        3
    }
}

impl Ranked for PathKey {
    open spec fn precedes(&self, other: &PathKey) -> bool {
        parts_before(text::texts(self.parts@), text::texts(other.parts@))
    }

    proof fn law_ranking(a: &PathKey, b: &PathKey, c: &PathKey) {
        let (x, y, z) = (text::texts(a.parts@), text::texts(b.parts@), text::texts(c.parts@));
        law_path_order(x, y, z);
        law_path_order(y, z, x);
        law_path_order(z, y, x);
        law_path_order(x, z, y);
        law_path_order(z, x, y);
    }

    fn comes_before(&self, other: &PathKey) -> (r: bool) {
        let ghost a = text::texts(self.parts@);
        let ghost b = text::texts(other.parts@);
        let mut i: usize = 0;
        assert(a.skip(0) =~= a);
        assert(b.skip(0) =~= b);
        loop
            invariant
                a == text::texts(self.parts@),
                b == text::texts(other.parts@),
                i <= a.len(),
                i <= b.len(),
                parts_before(a.skip(i as int), b.skip(i as int)) == parts_before(a, b),
            decreases a.len() - i,
        {
            if i >= other.parts.len() {
                return false;
            }
            if i >= self.parts.len() {
                return true;
            }
            let p = self.parts[i].as_str();
            let q = other.parts[i].as_str();
            assert(a[i as int] == p@ && b[i as int] == q@);
            if !same(p, q) {
                let j: u8 = kind_of(p);
                let k: u8 = kind_of(q);
                return j < k || (j == k && is_before(p, q));
            }
            assert(a.skip(i as int).skip(1) =~= a.skip(i + 1));
            assert(b.skip(i as int).skip(1) =~= b.skip(i + 1));
            i += 1;
        }
    }
}

// ── Sorting ──────────────────────────────────────────────────────────────────

/// The key at `a` goes before the key at `b`: it ranks first, or both rank alike
/// and it stands first.
pub open spec fn goes_before<K: Ranked>(keys: Seq<K>, a: int, b: int) -> bool {
    keys[a].precedes(&keys[b]) || (!keys[b].precedes(&keys[a]) && a < b)
}

/// `order` lists the places of the first `n` keys, each once, in their order.
pub open spec fn orders_first<K: Ranked>(keys: Seq<K>, order: Seq<usize>, n: int) -> bool {
    &&& order.len() == n
    &&& forall|i: int| 0 <= i < order.len() ==> #[trigger] order[i] < n
    &&& forall|k: usize| k < n ==> #[trigger] order.contains(k)
    &&& forall|i: int, j: int|
        0 <= i < j < order.len() ==> goes_before(
            keys,
            #[trigger] order[i] as int,
            #[trigger] order[j] as int,
        )
}

/// `order` lists the places of all keys, each once, in their order.
pub open spec fn is_order_of<K: Ranked>(keys: Seq<K>, order: Seq<usize>) -> bool {
    orders_first(keys, order, keys.len() as int)
}

/// Puts the place of the next key into the order of those before it.
fn insert_place<K: Ranked>(keys: &Vec<K>, order: &mut Vec<usize>, n: usize)
    requires
        n < keys@.len(),
        orders_first(keys@, old(order)@, n as int),
    ensures
        orders_first(keys@, final(order)@, n + 1),
{
    let ghost start = order@;
    let mut i: usize = 0;
    while i < order.len() && !keys[n].comes_before(&keys[order[i]])
        invariant
            n < keys@.len(),
            order@ == start,
            orders_first(keys@, start, n as int),
            i <= start.len(),
            forall|k: int|
                0 <= k < i ==> !keys@[n as int].precedes(&keys@[#[trigger] start[k] as int]),
        decreases start.len() - i,
    {
        i += 1;
    }
    order.insert(i, n);
    let ghost end = order@;
    proof {
        assert(end =~= start.insert(i as int, n));
        assert forall|k: usize| k < n + 1 implies #[trigger] end.contains(k) by {
            if k == n {
                assert(end[i as int] == k);
            } else {
                assert(start.contains(k));
                let w = choose|w: int| 0 <= w < start.len() && start[w] == k;
                if w < i {
                    assert(end[w] == k);
                } else {
                    assert(end[w + 1] == k);
                }
            }
        }
        assert forall|a: int, b: int| 0 <= a < b < end.len() implies goes_before(
            keys@,
            #[trigger] end[a] as int,
            #[trigger] end[b] as int,
        ) by {
            if a < i && b < i {
                assert(end[a] == start[a] && end[b] == start[b]);
            } else if a < i && b == i {
                assert(end[a] == start[a]);
            } else if a < i {
                assert(end[a] == start[a] && end[b] == start[b - 1]);
            } else if a == i {
                assert(end[b] == start[b - 1]);
                let first = keys@[start[i as int] as int];
                let here = keys@[n as int];
                let there = keys@[start[b - 1] as int];
                if b - 1 > i {
                    assert(goes_before(keys@, start[i as int] as int, start[b - 1] as int));
                    K::law_ranking(&here, &first, &there);
                    K::law_ranking(&here, &there, &first);
                    K::law_ranking(&there, &first, &there);
                }
            } else {
                assert(end[a] == start[a - 1] && end[b] == start[b - 1]);
            }
        }
    }
}

/// The order of the keys, as their places. Keys that rank alike keep the order
/// that they stand in.
pub fn order_of<K: Ranked>(keys: &Vec<K>) -> (r: Vec<usize>)
    ensures
        is_order_of(keys@, r@),
{
    let mut order: Vec<usize> = Vec::new();
    let mut n: usize = 0;
    while n < keys.len()
        invariant
            n <= keys@.len(),
            orders_first(keys@, order@, n as int),
        decreases keys@.len() - n,
    {
        insert_place(keys, &mut order, n);
        n += 1;
    }
    order
}

/// `order` lists the places of all texts, each once, in their order. Texts that
/// occur twice keep the order that they stand in.
pub open spec fn orders_texts(list: Seq<Seq<char>>, order: Seq<usize>) -> bool {
    &&& order.len() == list.len()
    &&& forall|i: int| 0 <= i < order.len() ==> #[trigger] order[i] < list.len()
    &&& forall|k: usize| k < list.len() ==> #[trigger] order.contains(k)
    &&& forall|i: int, j: int|
        0 <= i < j < order.len() ==> text_goes_before(
            list,
            #[trigger] order[i] as int,
            #[trigger] order[j] as int,
        )
}

/// The text at `a` goes before the text at `b`.
pub open spec fn text_goes_before(list: Seq<Seq<char>>, a: int, b: int) -> bool {
    text_before(list[a], list[b]) || (!text_before(list[b], list[a]) && a < b)
}

/// The order of texts, as their places.
pub fn order_of_texts(list: &Vec<String>) -> (r: Vec<usize>)
    ensures
        orders_texts(text::texts(list@), r@),
{
    let order = order_of(list);
    proof {
        let t = text::texts(list@);
        assert forall|i: int, j: int| 0 <= i < j < order@.len() implies text_goes_before(
            t,
            #[trigger] order@[i] as int,
            #[trigger] order@[j] as int,
        ) by {
            assert(goes_before(list@, order@[i] as int, order@[j] as int));
        }
    }
    order
}

/// Texts have one order only.
pub proof fn law_order_is_unique(list: Seq<Seq<char>>, a: Seq<usize>, b: Seq<usize>)
    requires
        orders_texts(list, a),
        orders_texts(list, b),
    ensures
        a == b,
{
    assert forall|i: int| 0 <= i < a.len() implies a[i] == b[i] by {
        lemma_same_place(list, a, b, i);
    }
    assert(a =~= b);
}

proof fn lemma_same_place(list: Seq<Seq<char>>, a: Seq<usize>, b: Seq<usize>, i: int)
    requires
        orders_texts(list, a),
        orders_texts(list, b),
        0 <= i < a.len(),
    ensures
        a[i] == b[i],
    decreases i,
{
    assert forall|k: int| 0 <= k < i implies a[k] == b[k] by {
        lemma_same_place(list, a, b, k);
    }
    if a[i] != b[i] {
        assert(a.contains(b[i]));
        assert(b.contains(a[i]));
        let p = choose|p: int| 0 <= p < a.len() && a[p] == b[i];
        let q = choose|q: int| 0 <= q < b.len() && b[q] == a[i];
        if p < i {
            assert(text_goes_before(list, b[p] as int, b[i] as int));
        }
        if q < i {
            assert(text_goes_before(list, a[q] as int, a[i] as int));
        }
        law_text_order(list[a[i] as int], list[b[i] as int], list[a[i] as int]);
        law_text_order(list[b[i] as int], list[a[i] as int], list[b[i] as int]);
        assert(p > i && q > i);
        assert(text_goes_before(list, a[i] as int, a[p] as int));
        assert(text_goes_before(list, b[i] as int, b[q] as int));
    }
}

/// The texts that the places `order` pick.
pub open spec fn picked(list: Seq<Seq<char>>, order: Seq<usize>) -> Seq<Seq<char>> {
    Seq::new(order.len(), |i: int| list[order[i] as int])
}

/// `paths` are the paths of `list`, each once, in order.
pub open spec fn lists_paths(list: Seq<Seq<char>>, paths: Seq<Seq<char>>) -> bool {
    &&& forall|i: int, j: int|
        0 <= i < j < paths.len() ==> parts_before(
            crate::fspath::parts(#[trigger] paths[i]),
            crate::fspath::parts(#[trigger] paths[j]),
        )
    &&& forall|i: int| 0 <= i < paths.len() ==> list.contains(#[trigger] paths[i])
    &&& forall|k: int| 0 <= k < list.len() ==> has_path(paths, #[trigger] list[k])
}

/// A path of the list is this one, however it is written.
pub open spec fn has_path(paths: Seq<Seq<char>>, path: Seq<char>) -> bool {
    exists|i: int|
        0 <= i < paths.len() && crate::fspath::parts(#[trigger] paths[i]) == crate::fspath::parts(
            path,
        )
}

/// The paths of a list, each once, in order.
pub fn distinct_paths(list: &Vec<String>) -> (r: Vec<String>)
    ensures
        lists_paths(text::texts(list@), text::texts(r@)),
{
    let mut keys: Vec<PathKey> = Vec::new();
    let mut i: usize = 0;
    while i < list.len()
        invariant
            i <= list@.len(),
            keys@.len() == i,
            forall|k: int|
                0 <= k < i ==> text::texts((#[trigger] keys@[k]).parts@) == crate::fspath::parts(
                    list@[k]@,
                ),
        decreases list@.len() - i,
    {
        keys.push(path_key(list[i].as_str()));
        i += 1;
    }
    let order = order_of(&keys);
    let mut out: Vec<String> = Vec::new();
    let ghost all = text::texts(list@);
    let mut n: usize = 0;
    while n < order.len()
        invariant
            n <= order@.len(),
            all == text::texts(list@),
            keys@.len() == list@.len(),
            forall|k: int|
                0 <= k < keys@.len() ==> text::texts((#[trigger] keys@[k]).parts@)
                    == crate::fspath::parts(list@[k]@),
            is_order_of(keys@, order@),
            n == 0 ==> out@.len() == 0,
            n > 0 ==> out@.len() > 0 && crate::fspath::parts(text::texts(out@).last())
                == crate::fspath::parts(all[order@[n - 1] as int]),
            forall|a: int, b: int|
                0 <= a < b < text::texts(out@).len() ==> parts_before(
                    crate::fspath::parts(#[trigger] text::texts(out@)[a]),
                    crate::fspath::parts(#[trigger] text::texts(out@)[b]),
                ),
            forall|a: int| 0 <= a < text::texts(out@).len() ==> all.contains(#[trigger] text::texts(out@)[a]),
            forall|k: int| 0 <= k < n ==> has_path(text::texts(out@), all[#[trigger] order@[k] as int]),
        decreases order@.len() - n,
    {
        let at: usize = order[n];
        let ghost before = text::texts(out@);
        let ghost here = crate::fspath::parts(all[at as int]);
        let fresh = if n == 0 {
            true
        } else {
            let last: usize = order[n - 1];
            keys[last].comes_before(&keys[at])
        };
        proof {
            assert(all[at as int] == list@[at as int]@);
            if n > 0 {
                let last = order@[n - 1] as int;
                assert(all[last] == list@[last]@);
                assert(goes_before(keys@, last, at as int));
                law_path_order(crate::fspath::parts(all[last]), here, here);
            }
        }
        if fresh {
            out.push(copy(list[at].as_str()));
            let ghost now = text::texts(out@);
            proof {
                assert(now =~= before.push(all[at as int]));
                assert forall|a: int, b: int| 0 <= a < b < now.len() implies parts_before(
                    crate::fspath::parts(#[trigger] now[a]),
                    crate::fspath::parts(#[trigger] now[b]),
                ) by {
                    if b < before.len() {
                        assert(now[a] == before[a] && now[b] == before[b]);
                    } else {
                        assert(now[a] == before[a]);
                        law_path_order(
                            crate::fspath::parts(before[a]),
                            crate::fspath::parts(before.last()),
                            here,
                        );
                    }
                }
                assert forall|k: int| 0 <= k < n + 1 implies has_path(
                    now,
                    all[#[trigger] order@[k] as int],
                ) by {
                    if k < n {
                        assert(has_path(before, all[order@[k] as int]));
                        let w = choose|w: int|
                            0 <= w < before.len() && crate::fspath::parts(#[trigger] before[w])
                                == crate::fspath::parts(all[order@[k] as int]);
                        assert(now[w] == before[w]);
                    } else {
                        assert(now[before.len() as int] == all[at as int]);
                    }
                }
            }
        } else {
            assert(crate::fspath::parts(before[before.len() - 1]) == here);
        }
        n += 1;
    }
    proof {
        let paths = text::texts(out@);
        assert forall|k: int| 0 <= k < all.len() implies has_path(paths, #[trigger] all[k]) by {
            assert(order@.contains(k as usize));
            let w = choose|w: int| 0 <= w < order@.len() && order@[w] == k as usize;
            assert(has_path(paths, all[order@[w] as int]));
        }
    }
    out
}

} // verus!
