//! Keeping a cache below its cap: the oldest files go first.

use crate::order::order_of;
use vstd::prelude::*;

verus! {

/// A file of a cache.
#[derive(Clone, Copy)]
pub struct CacheFile {
    pub len: u64,
    /// When the file was last written.
    pub modified: i128,
}

/// What the first `n` files take.
pub open spec fn total_of(files: Seq<CacheFile>, n: int) -> nat
    decreases n,
{
    if n <= 0 {
        0
    } else {
        total_of(files, n - 1) + files[n - 1].len as nat
    }
}

/// When the files were last written.
pub open spec fn times(files: Seq<CacheFile>) -> Seq<i128> {
    Seq::new(files.len(), |i: int| files[i].modified)
}

/// What a cache is brought down to: four fifths of its cap, so that the next file
/// does not start all over.
pub open spec fn target_of(max_bytes: u64) -> nat {
    (max_bytes / 5 * 4) as nat
}

/// A cache that is being brought below its cap.
pub struct Pruner {
    pub files: Vec<CacheFile>,
    /// The files, oldest first.
    pub order: Vec<usize>,
    /// How many of them were tried.
    pub next: usize,
    pub total: u128,
    /// What the files took that are gone.
    pub freed: u128,
    pub target: u64,
}

impl Pruner {
    pub open spec fn wf(&self) -> bool {
        &&& crate::order::is_order_of(times(self.files@), self.order@)
        &&& self.next <= self.order@.len()
        &&& self.total == total_of(self.files@, self.files@.len() as int)
        &&& self.freed <= self.next * u64::MAX
    }

    /// What is left in the cache.
    pub open spec fn left(&self) -> int {
        self.total - self.freed
    }

    /// The file to delete next: the oldest that was not tried, as long as too much
    /// is left.
    pub open spec fn victim(&self) -> Option<usize> {
        if self.next < self.order@.len() && self.left() > self.target {
            Some(self.order@[self.next as int])
        } else {
            None
        }
    }

    /// Looks at a cache. Nothing is deleted from one that is not above its cap.
    pub fn begin(files: Vec<CacheFile>, max_bytes: u64) -> (r: Pruner)
        ensures
            r.wf(),
            r.files@ == files@,
            r.freed == 0,
            r.target == target_of(max_bytes),
            total_of(files@, files@.len() as int) <= max_bytes ==> r.next == r.order@.len(),
            total_of(files@, files@.len() as int) > max_bytes ==> r.next == 0,
    {
        let mut total: u128 = 0;
        let mut keys: Vec<i128> = Vec::new();
        let mut i: usize = 0;
        let n: usize = files.len();
        while i < n
            invariant
                i <= n,
                n == files@.len(),
                total == total_of(files@, i as int),
                total <= i * u64::MAX,
                keys@ == times(files@).take(i as int),
            decreases n - i,
        {
            total = total + files[i].len as u128;
            keys.push(files[i].modified);
            i += 1;
            assert(keys@ =~= times(files@).take(i as int));
        }
        assert(keys@ =~= times(files@));
        let order = order_of(&keys);
        let next: usize = if total <= max_bytes as u128 {
            order.len()
        } else {
            0
        };
        Pruner { files, order, next, total, freed: 0, target: max_bytes / 5 * 4 }
    }

    /// The file to delete next, by its place. What became of it is handed in with
    /// the next call.
    pub fn step(&mut self) -> (r: Option<usize>)
        requires
            old(self).wf(),
        ensures
            r == old(self).victim(),
            r is Some ==> r->0 < old(self).files@.len(),
            *final(self) == (Pruner {
                next: if r is Some {
                    (old(self).next + 1) as usize
                } else {
                    old(self).next
                },
                ..*old(self)
            }),
            final(self).wf(),
    {
        let n: usize = self.order.len();
        if self.next < n && self.freed + (self.target as u128) < self.total {
            let place: usize = self.order[self.next];
            self.next = self.next + 1;
            Some(place)
        } else {
            None
        }
    }

    /// Takes in whether the file that was last named is gone. One that could not be
    /// deleted frees nothing, and is not tried again.
    pub fn report(&mut self, gone: bool)
        requires
            old(self).wf(),
            old(self).next > 0,
            old(self).freed <= (old(self).next - 1) * u64::MAX,
        ensures
            final(self).wf(),
            *final(self) == (Pruner {
                freed: if gone {
                    (old(self).freed + old(self).files@[old(self).order@[old(self).next
                        - 1] as int].len) as u128
                } else {
                    old(self).freed
                },
                ..*old(self)
            }),
    {
        if gone {
            let place: usize = self.order[self.next - 1];
            self.freed = self.freed + self.files[place].len as u128;
        }
    }
}

// ── A whole run ──────────────────────────────────────────────────────────────

/// What the files take that the first `n` places of `order` name.
pub open spec fn ordered_total(files: Seq<CacheFile>, order: Seq<usize>, n: int) -> nat
    decreases n,
{
    if n <= 0 {
        0
    } else {
        ordered_total(files, order, n - 1) + files[order[n - 1] as int].len as nat
    }
}

/// How many files go, from the place `next` on, where every file can be deleted.
pub open spec fn last_victim(
    files: Seq<CacheFile>,
    order: Seq<usize>,
    total: int,
    target: int,
    next: int,
) -> int
    decreases order.len() - next,
{
    if next < order.len() && total - ordered_total(files, order, next) > target {
        last_victim(files, order, total, target, next + 1)
    } else {
        next
    }
}

proof fn lemma_total_without(
    files: Seq<CacheFile>,
    order: Seq<usize>,
    p: int,
    n: int,
)
    requires
        0 <= p < n <= order.len(),
    ensures
        ordered_total(files, order, n) == ordered_total(files, order.remove(p), n - 1)
            + files[order[p] as int].len,
    decreases n,
{
    let shorter = order.remove(p);
    if n - 1 == p {
        lemma_same_front(files, order, shorter, p);
    } else {
        lemma_total_without(files, order, p, n - 1);
        assert(shorter[n - 2] == order[n - 1]);
    }
}

proof fn lemma_same_front(files: Seq<CacheFile>, a: Seq<usize>, b: Seq<usize>, n: int)
    requires
        0 <= n <= a.len(),
        n <= b.len(),
        forall|i: int| 0 <= i < n ==> a[i] == b[i],
    ensures
        ordered_total(files, a, n) == ordered_total(files, b, n),
    decreases n,
{
    if n > 0 {
        lemma_same_front(files, a, b, n - 1);
    }
}

/// The files take the same in any order.
proof fn lemma_ordered_total(files: Seq<CacheFile>, order: Seq<usize>, n: int)
    requires
        0 <= n <= files.len(),
        n <= usize::MAX,
        order.len() == n,
        forall|i: int| 0 <= i < order.len() ==> #[trigger] order[i] < n,
        forall|i: int, j: int| 0 <= i < j < order.len() ==> order[i] != order[j],
        forall|k: usize| k < n ==> #[trigger] order.contains(k),
    ensures
        ordered_total(files, order, n) == total_of(files, n),
    decreases n,
{
    if n > 0 {
        let top = (n - 1) as usize;
        assert(order.contains(top));
        let p = choose|p: int| 0 <= p < order.len() && order[p] == top;
        let shorter = order.remove(p);
        assert forall|i: int| 0 <= i < shorter.len() implies #[trigger] shorter[i] < n - 1 by {
            if i < p {
                assert(shorter[i] == order[i]);
                assert(order[i] != order[p]);
            } else {
                assert(shorter[i] == order[i + 1]);
                assert(order[p] != order[i + 1]);
            }
        }
        assert forall|i: int, j: int| 0 <= i < j < shorter.len() implies shorter[i] != shorter[j] by {
            let x = if i < p { i } else { i + 1 };
            let y = if j < p { j } else { j + 1 };
            assert(shorter[i] == order[x] && shorter[j] == order[y]);
        }
        assert forall|k: usize| k < n - 1 implies #[trigger] shorter.contains(k) by {
            assert(order.contains(k));
            let w = choose|w: int| 0 <= w < order.len() && order[w] == k;
            if w < p {
                assert(shorter[w] == k);
            } else {
                assert(shorter[w - 1] == k);
            }
        }
        lemma_ordered_total(files, shorter, n - 1);
        lemma_total_without(files, order, p, n);
    }
}

proof fn lemma_last_victim(
    files: Seq<CacheFile>,
    order: Seq<usize>,
    total: int,
    target: int,
    next: int,
)
    requires
        0 <= next <= order.len(),
        0 <= target,
        ordered_total(files, order, order.len() as int) == total,
    ensures
        ({
            let end = last_victim(files, order, total, target, next);
            &&& next <= end <= order.len()
            &&& total - ordered_total(files, order, end) <= target
            &&& forall|k: int|
                next <= k < end ==> total - #[trigger] ordered_total(files, order, k) > target
        }),
    decreases order.len() - next,
{
    if next < order.len() && total - ordered_total(files, order, next) > target {
        lemma_last_victim(files, order, total, target, next + 1);
    }
}

/// Where every file can be deleted, pruning ends with no more than the target left,
/// and it never deletes a file once that is reached.
pub proof fn law_pruning_reaches_its_target(pruner: Pruner, target: int)
    requires
        pruner.wf(),
        pruner.files@.len() <= usize::MAX,
        0 <= target,
    ensures
        ({
            let end = last_victim(pruner.files@, pruner.order@, pruner.total as int, target, 0);
            &&& 0 <= end <= pruner.order@.len()
            &&& pruner.total - ordered_total(pruner.files@, pruner.order@, end) <= target
            &&& forall|k: int|
                0 <= k < end ==> pruner.total - #[trigger] ordered_total(
                    pruner.files@,
                    pruner.order@,
                    k,
                ) > target
        }),
{
    let keys = times(pruner.files@);
    assert forall|i: int, j: int| 0 <= i < j < pruner.order@.len() implies pruner.order@[i]
        != pruner.order@[j] by {
        assert(crate::order::goes_before(keys, pruner.order@[i] as int, pruner.order@[j] as int));
    }
    lemma_ordered_total(pruner.files@, pruner.order@, pruner.files@.len() as int);
    lemma_last_victim(pruner.files@, pruner.order@, pruner.total as int, target, 0);
}

/// A file goes only after every file that is older.
pub proof fn law_oldest_files_go_first(pruner: Pruner, a: int, b: int)
    requires
        pruner.wf(),
        0 <= a < b < pruner.order@.len(),
    ensures
        pruner.files@[pruner.order@[a] as int].modified
            <= pruner.files@[pruner.order@[b] as int].modified,
{
    let keys = times(pruner.files@);
    assert(crate::order::goes_before(keys, pruner.order@[a] as int, pruner.order@[b] as int));
}

/// Pruning leaves room: it brings a cache down to four fifths of its cap, give or take the few
/// bytes that the cap is over a multiple of five.
pub proof fn law_pruning_leaves_room(max_bytes: u64)
    ensures
        5 * target_of(max_bytes) <= 4 * max_bytes,
        4 * max_bytes < 5 * target_of(max_bytes) + 20,
{
}

} // verus!
