//! Content packs: which there are, which are installed, and the rules of
//! installing one.

use crate::conf::is_letter_char;
use crate::fspath::{file_name_of, join_path, path_lies_in};
use crate::order::order_of_texts;
use crate::outside::{hex_of, sha256};
use crate::paths::is_os_metadata;
use crate::scummvm::Os;
use crate::table::Table;
use crate::text;
use crate::text::{
    borrow, cat, cat3, chars_of, copy, copy_texts, decimal_of, has_prefix, has_str, has_suffix,
    same, string_of, swap_chars, tail, to_lower_char,
};
use vstd::prelude::*;

verus! {

/// What the manifest says of a pack.
pub struct ContentPackInfo {
    pub display_name: String,
    pub description: String,
    pub url: String,
    /// The digest of the download, in hexadecimal.
    pub sha256: String,
    /// The pack among the files of its collection's torrent.
    pub torrent_file_path: Option<String>,
    pub size_bytes: u64,
    pub version: u32,
    /// Where the pack goes, below the data directory.
    pub install_path: String,
    /// The packs that this one replaces.
    pub supersedes: Vec<String>,
    /// The oldest version that still works.
    pub min_compatible_version: u32,
}

/// A pack of a collection.
pub struct PackEntry {
    pub id: String,
    pub info: ContentPackInfo,
    /// The pack as this platform has it, if it has it.
    pub here: Option<ContentPackInfo>,
}

/// A pack that is installed.
pub struct InstalledPack {
    pub version: u32,
    pub size_bytes: u64,
    pub installed_at: String,
}

/// The first pack with this id, at `i` or later.
pub open spec fn pack_from(packs: Seq<PackEntry>, id: Seq<char>, i: int) -> Option<int>
    decreases packs.len() - i,
{
    if i >= packs.len() {
        None
    } else if packs[i].id@ == id {
        Some(i)
    } else {
        pack_from(packs, id, i + 1)
    }
}

fn find_pack(packs: &Vec<PackEntry>, id: &str) -> (r: Option<usize>)
    ensures
        match r {
            Some(i) => i < packs@.len() && pack_from(packs@, id@, 0) == Some(i as int),
            None => pack_from(packs@, id@, 0) is None,
        },
{
    let mut i: usize = 0;
    while i < packs.len()
        invariant
            i <= packs@.len(),
            pack_from(packs@, id@, i as int) == pack_from(packs@, id@, 0),
        decreases packs@.len() - i,
    {
        if same(packs[i].id.as_str(), id) {
            return Some(i);
        }
        i += 1;
    }
    None
}

// ── The ledger ───────────────────────────────────────────────────────────────

/// The installed packs, by collection and id.
pub struct Ledger {
    pub collections: Table<Table<InstalledPack>>,
}

impl Ledger {
    /// The tables are sound, and no collection stands there without a pack.
    pub open spec fn wf(&self) -> bool {
        &&& self.collections.wf()
        &&& forall|c: Seq<char>| #[trigger]
            self.collections@.contains_key(c) ==> self.collections@[c].wf()
                && self.collections@[c]@ != Map::<Seq<char>, InstalledPack>::empty()
    }

    /// What is recorded of a pack.
    pub open spec fn recorded(&self, collection: Seq<char>, id: Seq<char>) -> Option<InstalledPack> {
        if self.collections@.contains_key(collection) && self.collections@[collection]@.contains_key(
            id,
        ) {
            Some(self.collections@[collection]@[id])
        } else {
            None
        }
    }

    /// Nothing is installed.
    pub fn new() -> (r: Ledger)
        ensures
            r.wf(),
            forall|c: Seq<char>, id: Seq<char>| #[trigger] r.recorded(c, id) is None,
    {
        Ledger { collections: Table::new() }
    }

    /// What is recorded of a pack.
    pub fn get(&self, collection: &str, id: &str) -> (r: Option<&InstalledPack>)
        requires
            self.wf(),
        ensures
            match r {
                Some(p) => self.recorded(collection@, id@) == Some(*p),
                None => self.recorded(collection@, id@) is None,
            },
    {
        match self.collections.get(collection) {
            Some(packs) => packs.get(id),
            None => None,
        }
    }

    /// Records a pack.
    pub fn record(&mut self, collection: &str, id: &str, pack: InstalledPack)
        requires
            old(self).wf(),
        ensures
            final(self).wf(),
            forall|c: Seq<char>, i: Seq<char>| #[trigger]
                final(self).recorded(c, i) == if c == collection@ && i == id@ {
                    Some(pack)
                } else {
                    old(self).recorded(c, i)
                },
    {
        let ghost was = self.collections@;
        let mut packs = match self.collections.remove(collection) {
            Some(packs) => packs,
            None => Table::new(),
        };
        packs.insert(id, pack);
        assert(packs@.contains_key(id@));
        self.collections.insert(collection, packs);
        assert(forall|c: Seq<char>| c != collection@ ==> (#[trigger] self.collections@.contains_key(c)
            <==> was.contains_key(c)));
    }

    /// Forgets a pack.
    pub fn forget(&mut self, collection: &str, id: &str)
        requires
            old(self).wf(),
        ensures
            final(self).wf(),
            forall|c: Seq<char>, i: Seq<char>| #[trigger]
                final(self).recorded(c, i) == if c == collection@ && i == id@ {
                    None
                } else {
                    old(self).recorded(c, i)
                },
    {
        let ghost was = self.collections@;
        if let Some(mut packs) = self.collections.remove(collection) {
            packs.remove(id);
            if !packs.is_empty() {
                self.collections.insert(collection, packs);
            } else {
                assert forall|c: Seq<char>, i: Seq<char>| #[trigger]
                    self.recorded(c, i) == if c == collection@ && i == id@ {
                        None
                    } else {
                        old(self).recorded(c, i)
                    } by {
                    if c == collection@ && i != id@ {
                        assert(!packs@.contains_key(i));
                        assert(was[collection@]@.remove(id@).contains_key(i)
                            == was[collection@]@.contains_key(i));
                    }
                }
            }
        }
        assert(forall|c: Seq<char>| c != collection@ ==> (#[trigger] self.collections@.contains_key(c)
            <==> was.contains_key(c)));
    }
}

/// Records that a pack was installed.
pub fn mark_pack_installed(
    ledger: &mut Ledger,
    collection: &str,
    pack_id: &str,
    version: u32,
    size_bytes: u64,
    now: &str,
)
    requires
        old(ledger).wf(),
    ensures
        final(ledger).wf(),
        match final(ledger).recorded(collection@, pack_id@) {
            Some(p) => p.version == version && p.size_bytes == size_bytes && p.installed_at@ == now@,
            None => false,
        },
        forall|c: Seq<char>, i: Seq<char>|
            c != collection@ || i != pack_id@ ==> #[trigger] final(ledger).recorded(c, i)
                == old(ledger).recorded(c, i),
{
    ledger.record(
        collection,
        pack_id,
        InstalledPack { version, size_bytes, installed_at: copy(now) },
    );
}

/// Records that a pack is gone.
pub fn mark_pack_uninstalled(ledger: &mut Ledger, collection: &str, pack_id: &str)
    requires
        old(ledger).wf(),
    ensures
        final(ledger).wf(),
        final(ledger).recorded(collection@, pack_id@) is None,
        forall|c: Seq<char>, i: Seq<char>|
            c != collection@ || i != pack_id@ ==> #[trigger] final(ledger).recorded(c, i)
                == old(ledger).recorded(c, i),
{
    ledger.forget(collection, pack_id);
}

// ── What is on disk ──────────────────────────────────────────────────────────

/// No two packs have one id.
pub open spec fn distinct_ids(packs: Seq<PackEntry>) -> bool {
    forall|i: int, j: int|
        0 <= i < j < packs.len() ==> (#[trigger] packs[i]).id@ != (#[trigger] packs[j]).id@
}

/// One of the first `n` packs has this id and exists on this platform.
pub open spec fn is_visible(packs: Seq<PackEntry>, id: Seq<char>, n: int) -> bool {
    exists|i: int|
        0 <= i < n && (#[trigger] packs[i]).id@ == id && packs[i].here is Some
}

/// The pack as it is recorded when it is found on disk.
pub open spec fn is_adoption(pack: InstalledPack, info: ContentPackInfo, now: Seq<char>) -> bool {
    pack.version == info.version && pack.size_bytes == info.size_bytes && pack.installed_at@ == now
}

/// What the record of a pack becomes: the disk decides whether there is one, and
/// one that was there stays as it was.
pub open spec fn settled(
    before: Option<InstalledPack>,
    after: Option<InstalledPack>,
    info: ContentPackInfo,
    present: bool,
    now: Seq<char>,
) -> bool {
    if !present {
        after is None
    } else if before is Some {
        after == before
    } else {
        after is Some && is_adoption(after->0, info, now)
    }
}

/// The ids of packs, among the first `n`, that are on disk and not recorded.
pub open spec fn adopted_ids(
    ledger: Ledger,
    collection: Seq<char>,
    packs: Seq<PackEntry>,
    present: Seq<bool>,
    n: int,
) -> Seq<Seq<char>>
    decreases n,
{
    if n <= 0 {
        Seq::<Seq<char>>::empty()
    } else {
        let before = adopted_ids(ledger, collection, packs, present, n - 1);
        if packs[n - 1].here is Some && present[n - 1] && ledger.recorded(
            collection,
            packs[n - 1].id@,
        ) is None {
            before.push(packs[n - 1].id@)
        } else {
            before
        }
    }
}

/// The ids of packs, among the first `n`, that are recorded and not on disk.
pub open spec fn vanished_ids(
    ledger: Ledger,
    collection: Seq<char>,
    packs: Seq<PackEntry>,
    present: Seq<bool>,
    n: int,
) -> Seq<Seq<char>>
    decreases n,
{
    if n <= 0 {
        Seq::<Seq<char>>::empty()
    } else {
        let before = vanished_ids(ledger, collection, packs, present, n - 1);
        if packs[n - 1].here is Some && !present[n - 1] && ledger.recorded(
            collection,
            packs[n - 1].id@,
        ) is Some {
            before.push(packs[n - 1].id@)
        } else {
            before
        }
    }
}

/// What a look at the disk changed in the ledger.
pub struct Adoption {
    /// Packs that were on disk and not recorded.
    pub adopted: Vec<String>,
    /// Packs that were recorded and are gone.
    pub vanished: Vec<String>,
}

/// Brings the records of a collection in line with the disk: a pack that is there
/// is recorded at the manifest's version, and one that is not is forgotten. A pack
/// that this platform does not have is left alone. `present` says for each pack
/// whether its directory is there and not empty.
pub fn adopt_packs_on_disk(
    ledger: &mut Ledger,
    collection: &str,
    packs: &Vec<PackEntry>,
    present: &Vec<bool>,
    now: &str,
) -> (r: Adoption)
    requires
        old(ledger).wf(),
        distinct_ids(packs@),
        present@.len() == packs@.len(),
    ensures
        final(ledger).wf(),
        forall|i: int|
            0 <= i < packs@.len() && (#[trigger] packs@[i]).here is Some ==> settled(
                old(ledger).recorded(collection@, packs@[i].id@),
                final(ledger).recorded(collection@, packs@[i].id@),
                packs@[i].here->0,
                present@[i],
                now@,
            ),
        forall|c: Seq<char>, id: Seq<char>|
            c != collection@ || !is_visible(packs@, id, packs@.len() as int)
                ==> #[trigger] final(ledger).recorded(c, id) == old(ledger).recorded(c, id),
        text::texts(r.adopted@) == adopted_ids(
            *old(ledger),
            collection@,
            packs@,
            present@,
            packs@.len() as int,
        ),
        text::texts(r.vanished@) == vanished_ids(
            *old(ledger),
            collection@,
            packs@,
            present@,
            packs@.len() as int,
        ),
{
    let ghost start = *ledger;
    let mut adopted: Vec<String> = Vec::new();
    let mut vanished: Vec<String> = Vec::new();
    let mut i: usize = 0;
    assert(text::texts(adopted@) =~= adopted_ids(start, collection@, packs@, present@, 0));
    assert(text::texts(vanished@) =~= vanished_ids(start, collection@, packs@, present@, 0));
    while i < packs.len()
        invariant
            i <= packs@.len(),
            ledger.wf(),
            distinct_ids(packs@),
            present@.len() == packs@.len(),
            forall|k: int|
                0 <= k < i && (#[trigger] packs@[k]).here is Some ==> settled(
                    start.recorded(collection@, packs@[k].id@),
                    ledger.recorded(collection@, packs@[k].id@),
                    packs@[k].here->0,
                    present@[k],
                    now@,
                ),
            forall|c: Seq<char>, id: Seq<char>|
                c != collection@ || !is_visible(packs@, id, i as int)
                    ==> #[trigger] ledger.recorded(c, id) == start.recorded(c, id),
            text::texts(adopted@) == adopted_ids(start, collection@, packs@, present@, i as int),
            text::texts(vanished@) == vanished_ids(start, collection@, packs@, present@, i as int),
        decreases packs@.len() - i,
    {
        let ghost before = *ledger;
        let id = packs[i].id.as_str();
        let ghost here = packs@[i as int];
        proof {
            if is_visible(packs@, here.id@, i as int) {
                let w = choose|w: int|
                    0 <= w < i && (#[trigger] packs@[w]).id@ == here.id@ && packs@[w].here is Some;
                assert(packs@[w].id@ != packs@[i as int].id@);
            }
            assert(ledger.recorded(collection@, here.id@) == start.recorded(collection@, here.id@));
        }
        if let Some(info) = &packs[i].here {
            let recorded = ledger.get(collection, id).is_some();
            if present[i] && !recorded {
                ledger.record(
                    collection,
                    id,
                    InstalledPack {
                        version: info.version,
                        size_bytes: info.size_bytes,
                        installed_at: copy(now),
                    },
                );
                let ghost done = text::texts(adopted@);
                adopted.push(copy(id));
                assert(text::texts(adopted@) =~= done.push(here.id@));
            } else if !present[i] && recorded {
                ledger.forget(collection, id);
                let ghost done = text::texts(vanished@);
                vanished.push(copy(id));
                assert(text::texts(vanished@) =~= done.push(here.id@));
            }
        }
        proof {
            assert forall|k: int| 0 <= k < i + 1 && (#[trigger] packs@[k]).here is Some implies settled(
                start.recorded(collection@, packs@[k].id@),
                ledger.recorded(collection@, packs@[k].id@),
                packs@[k].here->0,
                present@[k],
                now@,
            ) by {
                if k < i {
                    assert(packs@[k].id@ != packs@[i as int].id@);
                    assert(before.recorded(collection@, packs@[k].id@) == ledger.recorded(
                        collection@,
                        packs@[k].id@,
                    ));
                }
            }
            assert forall|c: Seq<char>, x: Seq<char>|
                c != collection@ || !is_visible(packs@, x, i + 1) implies #[trigger] ledger.recorded(
                c,
                x,
            ) == start.recorded(c, x) by {
                if c == collection@ {
                    if is_visible(packs@, x, i as int) {
                        let w = choose|w: int|
                            0 <= w < i && (#[trigger] packs@[w]).id@ == x && packs@[w].here is Some;
                        assert(packs@[w].here is Some && 0 <= w < i + 1);
                    }
                    if x == here.id@ && here.here is Some {
                        assert(packs@[i as int].here is Some);
                    }
                }
                assert(before.recorded(c, x) == start.recorded(c, x));
                assert(ledger.recorded(c, x) == before.recorded(c, x));
            }
        }
        i += 1;
    }
    Adoption { adopted, vanished }
}

// ── The list ─────────────────────────────────────────────────────────────────

/// A pack as it is shown.
pub struct ContentPackStatus {
    pub id: String,
    pub display_name: String,
    pub description: String,
    pub size_bytes: u64,
    pub version: u32,
    pub supersedes: Vec<String>,
    /// The pack can be downloaded.
    pub available: bool,
    pub installed: bool,
    pub installed_version: Option<u32>,
}

/// The view of a pack as it is shown.
pub struct PackStatus {
    pub id: Seq<char>,
    pub display_name: Seq<char>,
    pub description: Seq<char>,
    pub size_bytes: u64,
    pub version: u32,
    pub supersedes: Seq<Seq<char>>,
    pub available: bool,
    pub installed: bool,
    pub installed_version: Option<u32>,
}

impl View for ContentPackStatus {
    type V = PackStatus;

    open spec fn view(&self) -> PackStatus {
        PackStatus {
            id: self.id@,
            display_name: self.display_name@,
            description: self.description@,
            size_bytes: self.size_bytes,
            version: self.version,
            supersedes: text::texts(self.supersedes@),
            available: self.available,
            installed: self.installed,
            installed_version: self.installed_version,
        }
    }
}

/// The views of packs as they are shown.
pub open spec fn statuses(v: Seq<ContentPackStatus>) -> Seq<PackStatus> {
    Seq::new(v.len(), |i: int| v[i]@)
}

/// The pack has an address that is no placeholder.
pub open spec fn has_url(info: ContentPackInfo) -> bool {
    info.url@.len() > 0 && !"TODO"@.is_prefix_of(info.url@)
}

fn is_url_set(info: &ContentPackInfo) -> (r: bool)
    ensures
        r == has_url(*info),
{
    let url = chars_of(info.url.as_str());
    url.len() > 0 && !has_prefix(url.as_slice(), "TODO")
}

/// A pack as it is shown.
pub open spec fn status_of(
    ledger: Ledger,
    collection: Seq<char>,
    id: Seq<char>,
    info: ContentPackInfo,
) -> PackStatus {
    let recorded = ledger.recorded(collection, id);
    PackStatus {
        id,
        display_name: info.display_name@,
        description: info.description@,
        size_bytes: info.size_bytes,
        version: info.version,
        supersedes: text::texts(info.supersedes@),
        available: info.torrent_file_path is Some || has_url(info),
        installed: recorded is Some,
        installed_version: match recorded {
            Some(p) => Some(p.version),
            None => None,
        },
    }
}

/// The first `n` packs, as far as this platform has them, as they are shown.
pub open spec fn shown(
    ledger: Ledger,
    collection: Seq<char>,
    packs: Seq<PackEntry>,
    n: int,
) -> Seq<PackStatus>
    decreases n,
{
    if n <= 0 {
        Seq::<PackStatus>::empty()
    } else {
        match packs[n - 1].here {
            Some(info) => shown(ledger, collection, packs, n - 1).push(
                status_of(ledger, collection, packs[n - 1].id@, info),
            ),
            None => shown(ledger, collection, packs, n - 1),
        }
    }
}

/// The ids of packs.
pub open spec fn ids(list: Seq<PackStatus>) -> Seq<Seq<char>> {
    Seq::new(list.len(), |i: int| list[i].id)
}

/// `sorted` are the packs of `list` in the order of their ids.
pub open spec fn sorts_by_id(list: Seq<PackStatus>, sorted: Seq<PackStatus>) -> bool {
    exists|order: Seq<usize>| #[trigger]
        crate::order::orders_texts(ids(list), order) && sorted == Seq::new(
            order.len(),
            |i: int| list[order[i] as int],
        )
}

fn make_status(ledger: &Ledger, collection: &str, id: &str, info: &ContentPackInfo) -> (r:
    ContentPackStatus)
    requires
        ledger.wf(),
    ensures
        r@ == status_of(*ledger, collection@, id@, *info),
{
    let recorded = ledger.get(collection, id);
    let installed_version = match recorded {
        Some(p) => Some(p.version),
        None => None,
    };
    ContentPackStatus {
        id: copy(id),
        display_name: copy(info.display_name.as_str()),
        description: copy(info.description.as_str()),
        size_bytes: info.size_bytes,
        version: info.version,
        supersedes: copy_texts(&info.supersedes),
        available: info.torrent_file_path.is_some() || is_url_set(info),
        installed: recorded.is_some(),
        installed_version,
    }
}

/// The packs of a collection, in the order of their ids. `packs` is what the
/// manifest has for the collection, if it knows it.
pub fn list_content_packs(ledger: &Ledger, collection: &str, packs: Option<&Vec<PackEntry>>) -> (r:
    Result<Vec<ContentPackStatus>, String>)
    requires
        ledger.wf(),
    ensures
        match (r, packs) {
            (Ok(list), Some(p)) => sorts_by_id(
                shown(*ledger, collection@, p@, p@.len() as int),
                statuses(list@),
            ),
            (Err(message), None) => message@ == "Unknown collection '"@ + collection@ + "'"@,
            _ => false,
        },
{
    let packs = match packs {
        Some(p) => p,
        None => {
            return Err(cat3("Unknown collection '", collection, "'"));
        },
    };
    let mut places: Vec<usize> = Vec::new();
    let mut keys: Vec<String> = Vec::new();
    let mut i: usize = 0;
    let ghost all = shown(*ledger, collection@, packs@, packs@.len() as int);
    assert(text::texts(keys@) =~= ids(shown(*ledger, collection@, packs@, 0)));
    while i < packs.len()
        invariant
            i <= packs@.len(),
            places@.len() == keys@.len(),
            text::texts(keys@) == ids(shown(*ledger, collection@, packs@, i as int)),
            forall|k: int|
                0 <= k < places@.len() ==> {
                    &&& (#[trigger] places@[k]) < i
                    &&& packs@[places@[k] as int].here is Some
                    &&& shown(*ledger, collection@, packs@, i as int)[k] == status_of(
                        *ledger,
                        collection@,
                        packs@[places@[k] as int].id@,
                        packs@[places@[k] as int].here->0,
                    )
                },
        decreases packs@.len() - i,
    {
        if packs[i].here.is_some() {
            let ghost done = text::texts(keys@);
            keys.push(copy(packs[i].id.as_str()));
            places.push(i);
            assert(text::texts(keys@) =~= done.push(packs@[i as int].id@));
        }
        i += 1;
        assert(text::texts(keys@) =~= ids(shown(*ledger, collection@, packs@, i as int)));
    }
    let order = order_of_texts(&keys);
    let mut out: Vec<ContentPackStatus> = Vec::new();
    let mut n: usize = 0;
    let ghost wanted = Seq::new(order@.len(), |k: int| all[order@[k] as int]);
    while n < order.len()
        invariant
            n <= order@.len(),
            ledger.wf(),
            places@.len() == keys@.len(),
            text::texts(keys@) == ids(all),
            crate::order::orders_texts(ids(all), order@),
            wanted == Seq::new(order@.len(), |k: int| all[order@[k] as int]),
            forall|k: int|
                0 <= k < places@.len() ==> {
                    &&& (#[trigger] places@[k]) < packs@.len()
                    &&& packs@[places@[k] as int].here is Some
                    &&& all[k] == status_of(
                        *ledger,
                        collection@,
                        packs@[places@[k] as int].id@,
                        packs@[places@[k] as int].here->0,
                    )
                },
            statuses(out@) == wanted.take(n as int),
        decreases order@.len() - n,
    {
        let at: usize = order[n];
        assert(at < ids(all).len());
        let entry = &packs[places[at]];
        if let Some(info) = &entry.here {
            let ghost done = statuses(out@);
            out.push(make_status(ledger, collection, entry.id.as_str(), info));
            assert(statuses(out@) =~= done.push(all[at as int]));
        }
        n += 1;
        assert(statuses(out@) =~= wanted.take(n as int));
    }
    assert(wanted.take(order@.len() as int) =~= wanted);
    Ok(out)
}

// ── Starting an install ──────────────────────────────────────────────────────

/// A pack can be installed: its torrent has it, or its address and its digest are
/// no placeholders.
pub open spec fn is_installable(info: ContentPackInfo) -> bool {
    info.torrent_file_path is Some || (has_url(info) && !"TODO"@.is_prefix_of(info.sha256@))
}

/// The pack with this id, if it can be installed here.
pub fn installable_pack<'a>(packs: &'a Vec<PackEntry>, pack_id: &str) -> (r: Option<
    &'a ContentPackInfo,
>)
    ensures
        match r {
            Some(info) => {
                &&& pack_from(packs@, pack_id@, 0) is Some
                &&& packs@[pack_from(packs@, pack_id@, 0)->0].here == Some(*info)
                &&& is_installable(*info)
            },
            None => match pack_from(packs@, pack_id@, 0) {
                Some(i) => match packs@[i].here {
                    Some(info) => !is_installable(info),
                    None => true,
                },
                None => true,
            },
        },
{
    match find_pack(packs, pack_id) {
        Some(i) => match &packs[i].here {
            Some(info) => {
                let hashed = !has_prefix(chars_of(info.sha256.as_str()).as_slice(), "TODO");
                if info.torrent_file_path.is_some() || (is_url_set(info) && hashed) {
                    Some(info)
                } else {
                    None
                }
            },
            None => None,
        },
        None => None,
    }
}

/// An install, as far as it has come.
pub struct ContentPackJob {
    pub phase: String,
    pub downloaded_bytes: u64,
    pub total_bytes: u64,
    pub finished: bool,
    pub installed: bool,
    pub error: Option<String>,
    /// The install is asked to stop.
    pub cancel: bool,
}

/// The view of an install.
pub struct Job {
    pub phase: Seq<char>,
    pub downloaded_bytes: u64,
    pub total_bytes: u64,
    pub finished: bool,
    pub installed: bool,
    pub error: Option<Seq<char>>,
    pub cancel: bool,
}

impl View for ContentPackJob {
    type V = Job;

    open spec fn view(&self) -> Job {
        Job {
            phase: self.phase@,
            downloaded_bytes: self.downloaded_bytes,
            total_bytes: self.total_bytes,
            finished: self.finished,
            installed: self.installed,
            error: text::opt(self.error),
            cancel: self.cancel,
        }
    }
}

/// The key of an install.
pub open spec fn key_of(collection: Seq<char>, pack_id: Seq<char>) -> Seq<char> {
    collection + ":"@ + pack_id
}

/// The key of an install.
pub fn job_key(collection: &str, pack_id: &str) -> (r: String)
    ensures
        r@ == key_of(collection@, pack_id@),
{
    cat3(collection, ":", pack_id)
}

/// The installs, by key.
pub struct ContentPackState {
    pub jobs: Table<ContentPackJob>,
}

/// An install that has just begun.
pub open spec fn fresh_job(total_bytes: u64) -> Job {
    Job {
        phase: "preparing"@,
        downloaded_bytes: 0,
        total_bytes,
        finished: false,
        installed: false,
        error: None,
        cancel: false,
    }
}

impl ContentPackState {
    pub open spec fn wf(&self) -> bool {
        self.jobs.wf()
    }

    /// The install under a key.
    pub open spec fn job(&self, key: Seq<char>) -> Option<Job> {
        if self.jobs@.contains_key(key) {
            Some(self.jobs@[key]@)
        } else {
            None
        }
    }

    /// An install under the key is going on.
    pub open spec fn is_busy(&self, key: Seq<char>) -> bool {
        match self.job(key) {
            Some(job) => !job.finished,
            None => false,
        }
    }

    /// Nothing is being installed.
    pub fn new() -> (r: ContentPackState)
        ensures
            r.wf(),
            forall|key: Seq<char>| #[trigger] r.job(key) is None,
    {
        ContentPackState { jobs: Table::new() }
    }

    /// The install under a key.
    pub fn get(&self, key: &str) -> (r: Option<&ContentPackJob>)
        requires
            self.wf(),
        ensures
            match r {
                Some(job) => self.job(key@) == Some(job@),
                None => self.job(key@) is None,
            },
    {
        self.jobs.get(key)
    }

    /// Whether an install under the key is going on.
    pub fn busy(&self, key: &str) -> (r: bool)
        requires
            self.wf(),
        ensures
            r == self.is_busy(key@),
    {
        match self.get(key) {
            Some(job) => !job.finished,
            None => false,
        }
    }

    fn put(&mut self, key: &str, job: ContentPackJob)
        requires
            old(self).wf(),
        ensures
            final(self).wf(),
            forall|k: Seq<char>| #[trigger]
                final(self).job(k) == if k == key@ {
                    Some(job@)
                } else {
                    old(self).job(k)
                },
    {
        self.jobs.insert(key, job);
    }

    fn change(&mut self, key: &str, phase: Option<&str>, bytes: Option<(u64, u64)>, cancel: bool)
        requires
            old(self).wf(),
        ensures
            final(self).wf(),
            forall|k: Seq<char>| #[trigger]
                final(self).job(k) == match old(self).job(k) {
                    Some(job) => if k == key@ {
                        Some(
                            Job {
                                phase: match phase {
                                    Some(p) => p@,
                                    None => job.phase,
                                },
                                downloaded_bytes: match bytes {
                                    Some(b) => b.0,
                                    None => job.downloaded_bytes,
                                },
                                total_bytes: match bytes {
                                    Some(b) => b.1,
                                    None => job.total_bytes,
                                },
                                cancel: job.cancel || cancel,
                                ..job
                            },
                        )
                    } else {
                        Some(job)
                    },
                    None => None,
                },
    {
        let ghost was = self.jobs@;
        if let Some(mut job) = self.jobs.remove(key) {
            if let Some(p) = phase {
                job.phase = copy(p);
            }
            if let Some((downloaded, total)) = bytes {
                job.downloaded_bytes = downloaded;
                job.total_bytes = total;
            }
            if cancel {
                job.cancel = true;
            }
            self.jobs.insert(key, job);
        }
        assert(forall|k: Seq<char>| k != key@ ==> (#[trigger] self.jobs@.contains_key(k)
            <==> was.contains_key(k)));
    }

    /// An install enters a phase.
    pub fn set_phase(&mut self, key: &str, phase: &str)
        requires
            old(self).wf(),
        ensures
            final(self).wf(),
            forall|k: Seq<char>| #[trigger]
                final(self).job(k) == match old(self).job(k) {
                    Some(job) if k == key@ => Some(Job { phase: phase@, ..job }),
                    other => other,
                },
    {
        self.change(key, Some(phase), None, false)
    }

    /// An install has come this far.
    pub fn set_progress(&mut self, key: &str, downloaded: u64, total: u64)
        requires
            old(self).wf(),
        ensures
            final(self).wf(),
            forall|k: Seq<char>| #[trigger]
                final(self).job(k) == match old(self).job(k) {
                    Some(job) if k == key@ => Some(
                        Job { downloaded_bytes: downloaded, total_bytes: total, ..job },
                    ),
                    other => other,
                },
    {
        self.change(key, None, Some((downloaded, total)), false)
    }

    /// An install is asked to stop.
    pub fn cancel(&mut self, key: &str)
        requires
            old(self).wf(),
        ensures
            final(self).wf(),
            forall|k: Seq<char>| #[trigger]
                final(self).job(k) == match old(self).job(k) {
                    Some(job) if k == key@ => Some(Job { cancel: true, ..job }),
                    other => other,
                },
    {
        self.change(key, None, None, true)
    }

    /// An install ends, well or with an error.
    pub fn finish(&mut self, key: &str, error: Option<&str>)
        requires
            old(self).wf(),
        ensures
            final(self).wf(),
            forall|k: Seq<char>| #[trigger]
                final(self).job(k) == match old(self).job(k) {
                    Some(job) if k == key@ => Some(
                        match error {
                            None => Job {
                                phase: "installed"@,
                                finished: true,
                                installed: true,
                                ..job
                            },
                            Some(e) => Job {
                                phase: "failed"@,
                                finished: true,
                                error: Some(e@),
                                ..job
                            },
                        },
                    ),
                    other => other,
                },
    {
        let ghost was = self.jobs@;
        if let Some(mut job) = self.jobs.remove(key) {
            job.finished = true;
            match error {
                None => {
                    job.phase = copy("installed");
                    job.installed = true;
                },
                Some(e) => {
                    job.phase = copy("failed");
                    job.error = Some(copy(e));
                },
            }
            self.jobs.insert(key, job);
        }
        assert(forall|k: Seq<char>| k != key@ ==> (#[trigger] self.jobs@.contains_key(k)
            <==> was.contains_key(k)));
    }
}

/// Why an install does not begin.
pub open spec fn start_refusal(
    state: ContentPackState,
    collection: Seq<char>,
    pack_id: Seq<char>,
    packs: Option<Seq<PackEntry>>,
) -> Option<Seq<char>> {
    match packs {
        None => Some("Unknown collection '"@ + collection + "'"@),
        Some(p) => match pack_from(p, pack_id, 0) {
            None => Some("Unknown pack '"@ + pack_id + "' in '"@ + collection + "'"@),
            Some(i) => match p[i].here {
                None => Some("'"@ + pack_id + "' is not available on this platform."@),
                Some(info) => if info.torrent_file_path is None && !has_url(info) {
                    Some("'"@ + info.display_name@ + "' is not yet available for download."@)
                } else if info.torrent_file_path is None && "TODO"@.is_prefix_of(info.sha256@) {
                    Some(
                        "'"@ + info.display_name@
                            + "' has no integrity hash in the manifest; refusing download."@,
                    )
                } else if state.is_busy(key_of(collection, pack_id)) {
                    Some("Install already in progress"@)
                } else {
                    None
                },
            },
        },
    }
}

/// The view of an optional list.
pub open spec fn opt_packs(packs: Option<&Vec<PackEntry>>) -> Option<Seq<PackEntry>> {
    match packs {
        Some(p) => Some(p@),
        None => None,
    }
}

fn find_source<'a>(collection: &str, pack_id: &str, packs: Option<&'a Vec<PackEntry>>) -> (r: Result<
    &'a ContentPackInfo,
    String,
>)
    ensures
        match r {
            Ok(info) => {
                &&& packs is Some
                &&& pack_from(packs->0@, pack_id@, 0) is Some
                &&& packs->0@[pack_from(packs->0@, pack_id@, 0)->0].here == Some(*info)
            },
            Err(message) => match packs {
                None => message@ == "Unknown collection '"@ + collection@ + "'"@,
                Some(p) => match pack_from(p@, pack_id@, 0) {
                    None => message@ == "Unknown pack '"@ + pack_id@ + "' in '"@ + collection@
                        + "'"@,
                    Some(i) => p@[i].here is None && message@ == "'"@ + pack_id@
                        + "' is not available on this platform."@,
                },
            },
        },
{
    let packs = match packs {
        Some(p) => p,
        None => {
            return Err(cat3("Unknown collection '", collection, "'"));
        },
    };
    let at: usize = match find_pack(packs, pack_id) {
        Some(i) => i,
        None => {
            let head = cat3("Unknown pack '", pack_id, "' in '");
            return Err(cat3(head.as_str(), collection, "'"));
        },
    };
    match &packs[at].here {
        Some(info) => Ok(info),
        None => Err(cat3("'", pack_id, "' is not available on this platform.")),
    }
}

/// Begins the install of a pack, or says why it does not: the pack is unknown, or
/// not for this platform, or has no source, or no digest to check a download
/// against, or is being installed.
pub fn start_pack_install<'a>(
    state: &mut ContentPackState,
    collection: &str,
    pack_id: &str,
    packs: Option<&'a Vec<PackEntry>>,
) -> (r: Result<&'a ContentPackInfo, String>)
    requires
        old(state).wf(),
    ensures
        final(state).wf(),
        match r {
            Ok(info) => {
                &&& start_refusal(*old(state), collection@, pack_id@, opt_packs(packs)) is None
                &&& packs->0@[pack_from(packs->0@, pack_id@, 0)->0].here == Some(*info)
                &&& forall|k: Seq<char>| #[trigger]
                    final(state).job(k) == if k == key_of(collection@, pack_id@) {
                        Some(fresh_job(info.size_bytes))
                    } else {
                        old(state).job(k)
                    }
            },
            Err(message) => {
                &&& start_refusal(*old(state), collection@, pack_id@, opt_packs(packs)) == Some(
                    message@,
                )
                &&& *final(state) == *old(state)
            },
        },
{
    let info = match find_source(collection, pack_id, packs) {
        Ok(info) => info,
        Err(message) => {
            return Err(message);
        },
    };
    let name = info.display_name.as_str();
    if info.torrent_file_path.is_none() && !is_url_set(info) {
        return Err(cat3("'", name, "' is not yet available for download."));
    }
    let unhashed = has_prefix(chars_of(info.sha256.as_str()).as_slice(), "TODO");
    if info.torrent_file_path.is_none() && unhashed {
        return Err(
            cat3("'", name, "' has no integrity hash in the manifest; refusing download."),
        );
    }
    let key = job_key(collection, pack_id);
    if state.busy(key.as_str()) {
        return Err(copy("Install already in progress"));
    }
    let job = ContentPackJob {
        phase: copy("preparing"),
        downloaded_bytes: 0,
        total_bytes: info.size_bytes,
        finished: false,
        installed: false,
        error: None,
        cancel: false,
    };
    state.put(key.as_str(), job);
    Ok(info)
}

/// Why a pack is not uninstalled: it is being installed.
pub fn uninstall_refusal(state: &ContentPackState, collection: &str, pack_id: &str) -> (r: Option<
    String,
>)
    requires
        state.wf(),
    ensures
        text::opt(r) == if state.is_busy(key_of(collection@, pack_id@)) {
            Some("Install in progress - cancel it first."@)
        } else {
            None
        },
{
    let key = job_key(collection, pack_id);
    if state.busy(key.as_str()) {
        Some(copy("Install in progress - cancel it first."))
    } else {
        None
    }
}

// ── Where a pack goes ────────────────────────────────────────────────────────

/// A path is refused as it stands: it begins at a root, or it steps up.
pub open spec fn is_refused_path(relative: Seq<char>) -> bool {
    "/"@.is_prefix_of(relative) || "\\"@.is_prefix_of(relative) || text::has(relative, ".."@)
}

/// A path that names a drive. Joined to another one it takes that one's place.
pub open spec fn names_drive(os: Os, path: Seq<char>) -> bool {
    os == Os::Windows && path.len() >= 2 && crate::conf::is_letter(path[0]) && path[1] == ':'
}

/// What a path with a drive says behind the drive, with forward slashes.
pub open spec fn behind_drive(path: Seq<char>) -> Seq<char> {
    text::swap_char(path.skip(2), '\\', '/')
}

/// A path with a drive is `base` or lies below it: both are on the same drive, and the
/// names of the one begin with those of the other. All paths lie below an empty one.
pub open spec fn drive_lies_in(path: Seq<char>, base: Seq<char>) -> bool {
    base.len() == 0 || (names_drive(Os::Windows, base) && text::lower_char(path[0])
        == text::lower_char(base[0]) && crate::fspath::lies_in(
        behind_drive(path),
        behind_drive(base),
    ))
}

/// Why `relative` is not joined to `base`: it is absolute, it steps up, or it leaves
/// `base` by naming a drive.
pub open spec fn join_refusal(os: Os, base: Seq<char>, relative: Seq<char>) -> Option<Seq<char>> {
    if is_refused_path(relative) {
        Some("Invalid path: "@ + relative)
    } else if names_drive(os, relative) && !drive_lies_in(relative, base) {
        Some("Path escapes base directory: "@ + relative)
    } else if names_drive(os, relative) && "/"@.is_prefix_of(behind_drive(relative)) {
        Some("Invalid path: "@ + relative)
    } else {
        None
    }
}

/// `relative` joined to `base`.
pub open spec fn safely_joined(os: Os, base: Seq<char>, relative: Seq<char>) -> Seq<char> {
    if names_drive(os, relative) {
        relative
    } else {
        crate::fspath::joined(base, relative)
    }
}

fn has_drive(os: Os, path: &[char]) -> (r: bool)
    ensures
        r == names_drive(os, path@),
{
    let windows = match os {
        Os::Windows => true,
        _ => false,
    };
    windows && path.len() >= 2 && is_letter_char(path[0]) && path[1] == ':'
}

fn past_drive(path: &[char]) -> (r: String)
    requires
        path@.len() >= 2,
    ensures
        r@ == behind_drive(path@),
{
    string_of(swap_chars(tail(path, 2), '\\', '/').as_slice())
}

fn drive_path_lies_in(path: &[char], base: &[char]) -> (r: bool)
    requires
        path@.len() >= 2,
    ensures
        r == drive_lies_in(path@, base@),
{
    if base.len() == 0 {
        return true;
    }
    has_drive(Os::Windows, base) && to_lower_char(path[0]) == to_lower_char(base[0]) && path_lies_in(
        past_drive(path).as_str(),
        past_drive(base).as_str(),
    )
}

/// `relative` below `base`. What would leave `base` is refused. On Windows a path that
/// names a drive replaces the one that it is joined to, so that it must lie below `base`
/// of its own.
pub fn safe_join(os: Os, base: &str, relative: &str) -> (r: Result<String, String>)
    ensures
        match r {
            Ok(path) => {
                &&& join_refusal(os, base@, relative@) is None
                &&& path@ == safely_joined(os, base@, relative@)
                &&& if names_drive(os, relative@) {
                    drive_lies_in(path@, base@)
                } else {
                    crate::fspath::lies_in(path@, base@)
                }
            },
            Err(message) => join_refusal(os, base@, relative@) == Some(message@),
        },
{
    let chars = chars_of(relative);
    if has_prefix(chars.as_slice(), "/") || has_prefix(chars.as_slice(), "\\") || has_str(
        chars.as_slice(),
        "..",
    ) {
        return Err(cat("Invalid path: ", relative));
    }
    if has_drive(os, chars.as_slice()) {
        if !drive_path_lies_in(chars.as_slice(), chars_of(base).as_slice()) {
            return Err(cat("Path escapes base directory: ", relative));
        }
        let rest = chars_of(past_drive(chars.as_slice()).as_str());
        if has_prefix(rest.as_slice(), "/") {
            return Err(cat("Invalid path: ", relative));
        }
        return Ok(copy(relative));
    }
    proof {
        reveal_strlit("/");
        if relative@.len() > 0 && relative@[0] == '/' {
            assert(relative@.subrange(0, 1) =~= "/"@);
        }
        crate::fspath::law_joined_lies_below(base@, relative@);
    }
    Ok(join_path(base, relative))
}

/// Where a pack goes that the manifest does not place.
pub open spec fn usual_place(data_dir: Seq<char>, collection: Seq<char>, pack_id: Seq<char>) -> Seq<
    char,
> {
    crate::fspath::joined(
        crate::fspath::joined(crate::fspath::joined(data_dir, "content"@), pack_id),
        collection,
    )
}

/// Where a pack goes: where the manifest says, or the usual place.
pub open spec fn pack_place(
    os: Os,
    data_dir: Seq<char>,
    collection: Seq<char>,
    pack_id: Seq<char>,
    packs: Seq<PackEntry>,
) -> Seq<char> {
    match pack_from(packs, pack_id, 0) {
        Some(i) => if join_refusal(os, data_dir, packs[i].info.install_path@) is Some {
            usual_place(data_dir, collection, pack_id)
        } else {
            safely_joined(os, data_dir, packs[i].info.install_path@)
        },
        None => usual_place(data_dir, collection, pack_id),
    }
}

/// Where a pack goes.
pub fn resolve_pack_install_dir(
    os: Os,
    data_dir: &str,
    collection: &str,
    pack_id: &str,
    packs: &Vec<PackEntry>,
) -> (r: String)
    ensures
        r@ == pack_place(os, data_dir@, collection@, pack_id@, packs@),
{
    if let Some(i) = find_pack(packs, pack_id) {
        if let Ok(dir) = safe_join(os, data_dir, packs[i].info.install_path.as_str()) {
            return dir;
        }
    }
    let content = join_path(data_dir, "content");
    join_path(join_path(content.as_str(), pack_id).as_str(), collection)
}

/// Where the packs go that a pack replaces.
pub open spec fn superseded_places(
    os: Os,
    data_dir: Seq<char>,
    collection: Seq<char>,
    supersedes: Seq<Seq<char>>,
    packs: Seq<PackEntry>,
) -> Seq<Seq<char>> {
    supersedes.map_values(|id: Seq<char>| pack_place(os, data_dir, collection, id, packs))
}

/// Where the packs are that a pack replaces, and that go before it is installed.
pub fn superseded_dirs(
    os: Os,
    data_dir: &str,
    collection: &str,
    info: &ContentPackInfo,
    packs: &Vec<PackEntry>,
) -> (r: Vec<String>)
    ensures
        text::texts(r@) == superseded_places(
            os,
            data_dir@,
            collection@,
            text::texts(info.supersedes@),
            packs@,
        ),
{
    let mut out: Vec<String> = Vec::new();
    let mut i: usize = 0;
    let ghost all = superseded_places(
            os,
            data_dir@,
            collection@,
            text::texts(info.supersedes@),
            packs@,
        );
    while i < info.supersedes.len()
        invariant
            i <= info.supersedes@.len(),
            all == superseded_places(
            os,
            data_dir@,
            collection@,
            text::texts(info.supersedes@),
            packs@,
        ),
            text::texts(out@) == all.take(i as int),
        decreases info.supersedes@.len() - i,
    {
        let ghost done = text::texts(out@);
        let dir = resolve_pack_install_dir(
            os,
            data_dir,
            collection,
            info.supersedes[i].as_str(),
            packs,
        );
        let ghost d = dir@;
        out.push(dir);
        assert(text::texts(out@) =~= done.push(d));
        i += 1;
        assert(text::texts(out@) =~= all.take(i as int));
    }
    assert(all.take(all.len() as int) =~= all);
    out
}

/// An entry of a directory.
pub struct StagedEntry {
    pub name: String,
    pub is_dir: bool,
}

/// The entries, among the first `n`, that an operating system did not leave there.
pub open spec fn payload(staging: Seq<char>, entries: Seq<StagedEntry>, n: int) -> Seq<StagedEntry>
    decreases n,
{
    if n <= 0 {
        Seq::<StagedEntry>::empty()
    } else if crate::paths::os_metadata(crate::fspath::joined(staging, entries[n - 1].name@)) {
        payload(staging, entries, n - 1)
    } else {
        payload(staging, entries, n - 1).push(entries[n - 1])
    }
}

/// The directory whose contents are installed: the one that was unpacked into, or
/// the only entry in it where that is a directory with the name of the target.
pub open spec fn pack_source(
    staging: Seq<char>,
    install_dir: Seq<char>,
    entries: Seq<StagedEntry>,
) -> Seq<char> {
    let found = payload(staging, entries, entries.len() as int);
    if found.len() == 1 && found[0].is_dir && crate::fspath::file_name(install_dir) is Some
        && crate::fspath::file_name(crate::fspath::joined(staging, found[0].name@))
        == crate::fspath::file_name(install_dir) {
        crate::fspath::joined(staging, found[0].name@)
    } else {
        staging
    }
}

/// The directory whose contents are installed. `entries` is what was unpacked.
pub fn unwrapped_source(staging_dir: &str, install_dir: &str, entries: &Vec<StagedEntry>) -> (r:
    String)
    ensures
        r@ == pack_source(staging_dir@, install_dir@, entries@),
{
    let target = match file_name_of(install_dir) {
        Some(name) => name,
        None => {
            return copy(staging_dir);
        },
    };
    let mut only: Option<usize> = None;
    let mut i: usize = 0;
    while i < entries.len()
        invariant
            i <= entries@.len(),
            match only {
                None => payload(staging_dir@, entries@, i as int).len() == 0,
                Some(k) => k < i && payload(staging_dir@, entries@, i as int) =~= seq![
                    entries@[k as int],
                ],
            },
        decreases entries@.len() - i,
    {
        let path = join_path(staging_dir, entries[i].name.as_str());
        if !is_os_metadata(path.as_str()) {
            if only.is_some() {
                assert(payload(staging_dir@, entries@, i + 1).len() == 2);
                proof {
                    lemma_payload_grows(staging_dir@, entries@, i + 1, entries@.len() as int);
                }
                return copy(staging_dir);
            }
            only = Some(i);
        }
        i += 1;
    }
    if let Some(k) = only {
        let path = join_path(staging_dir, entries[k].name.as_str());
        if entries[k].is_dir {
            if let Some(name) = file_name_of(path.as_str()) {
                if same(name.as_str(), target.as_str()) {
                    return path;
                }
            }
        }
    }
    copy(staging_dir)
}

proof fn lemma_payload_grows(staging: Seq<char>, entries: Seq<StagedEntry>, a: int, b: int)
    requires
        a <= b,
    ensures
        payload(staging, entries, a).len() <= payload(staging, entries, b).len(),
    decreases b - a,
{
    if a < b {
        lemma_payload_grows(staging, entries, a, b - 1);
    }
}

// ── Sizes ────────────────────────────────────────────────────────────────────

/// The nearest number of tenths of a unit. A number halfway between two goes to
/// the even one.
pub open spec fn tenths(bytes: nat, unit: nat) -> nat {
    let q = 10 * bytes / unit;
    let rest = 10 * bytes % unit;
    if 2 * rest < unit || (2 * rest == unit && q % 2 == 0) {
        q
    } else {
        q + 1
    }
}

/// A size as it is shown.
pub open spec fn size_text(bytes: nat) -> Seq<char> {
    if bytes >= 1073741824 {
        text::decimal(tenths(bytes, 1073741824) / 10) + "."@ + text::decimal(tenths(bytes, 1073741824) % 10)
            + " GB"@
    } else if bytes >= 1048576 {
        text::decimal(tenths(bytes, 1048576) / 10) + "."@ + text::decimal(tenths(bytes, 1048576) % 10) + " MB"@
    } else {
        text::decimal(bytes / 1024) + " KB"@
    }
}

fn tenths_of(bytes: u64, unit: u64) -> (r: u64)
    requires
        unit >= 1024,
    ensures
        r == tenths(bytes as nat, unit as nat),
{
    let n: u128 = 10 * (bytes as u128);
    let u: u128 = unit as u128;
    let q: u128 = n / u;
    let rest: u128 = n % u;
    assert(q <= n / 1024) by (nonlinear_arith)
        requires
            q == n / u,
            u >= 1024,
    ;
    assert(q <= 180143985094819840);
    if 2 * rest < u || (2 * rest == u && q % 2 == 0) {
        q as u64
    } else {
        (q + 1) as u64
    }
}

/// A size as it is shown.
pub fn format_bytes(bytes: u64) -> (r: String)
    ensures
        r@ == size_text(bytes as nat),
{
    if bytes >= 1073741824 {
        let t: u64 = tenths_of(bytes, 1073741824);
        let number = cat3(decimal_of(t / 10).as_str(), ".", decimal_of(t % 10).as_str());
        cat(number.as_str(), " GB")
    } else if bytes >= 1048576 {
        let t: u64 = tenths_of(bytes, 1048576);
        let number = cat3(decimal_of(t / 10).as_str(), ".", decimal_of(t % 10).as_str());
        cat(number.as_str(), " MB")
    } else {
        cat(decimal_of(bytes / 1024).as_str(), " KB")
    }
}

/// The space that an install needs: the download and what it unpacks to, which is
/// eleven fifths of the pack's size. What does not fit into the number is cut to the
/// largest one.
pub open spec fn space_needed(size_bytes: nat) -> nat {
    crate::layout::capped(size_bytes * 11 / 5)
}

/// The space that an install of a pack needs.
pub fn pack_space(size_bytes: u64) -> (r: u64)
    ensures
        r == space_needed(size_bytes as nat),
{
    let needed: u128 = (size_bytes as u128) * 11 / 5;
    if needed <= u64::MAX as u128 {
        needed as u64
    } else {
        u64::MAX
    }
}

/// Why a pack does not fit on the disk.
pub fn space_refusal(size_bytes: u64, available: u64) -> (r: Option<String>)
    ensures
        text::opt(r) == ({
            let needed = space_needed(size_bytes as nat);
            if available < needed {
                Some(
                    "Not enough disk space: need "@ + size_text(needed) + ", available "@
                        + size_text(available as nat),
                )
            } else {
                None
            }
        }),
{
    let needed: u64 = pack_space(size_bytes);
    if available < needed {
        let head = cat3("Not enough disk space: need ", format_bytes(needed).as_str(), ", available ");
        Some(cat(head.as_str(), format_bytes(available).as_str()))
    } else {
        None
    }
}

// ── Downloading ──────────────────────────────────────────────────────────────

/// What is said when a pack is to be fetched while the program is offline.
pub fn offline_refusal() -> (r: String)
    ensures
        r@
            == "Offline mode is on - nothing is downloaded. Switch to online mode in Settings → Network."@,
{
    copy(
        "Offline mode is on - nothing is downloaded. Switch to online mode in Settings → Network.",
    )
}

/// Where a pack is fetched from.
#[derive(Clone, Copy, PartialEq, Eq, Structural)]
pub enum PackRoute {
    Torrent,
    Http,
}

/// Where a pack is fetched from, once it is known to fit: from its collection's torrent
/// where that has it. Nothing is fetched offline, by whatever route.
pub fn preflight(info: &ContentPackInfo, available: u64, offline: bool) -> (r: Result<
    PackRoute,
    String,
>)
    ensures
        match r {
            Ok(route) => {
                &&& available >= space_needed(info.size_bytes as nat)
                &&& !offline
                &&& route == (if info.torrent_file_path is Some {
                    PackRoute::Torrent
                } else {
                    PackRoute::Http
                })
            },
            Err(message) => if available < space_needed(info.size_bytes as nat) {
                message@ == "Not enough disk space: need "@ + size_text(
                    space_needed(info.size_bytes as nat),
                ) + ", available "@ + size_text(available as nat)
            } else {
                offline && message@
                    == "Offline mode is on - nothing is downloaded. Switch to online mode in Settings → Network."@
            },
        },
{
    if let Some(message) = space_refusal(info.size_bytes, available) {
        return Err(message);
    }
    if offline {
        return Err(offline_refusal());
    }
    if info.torrent_file_path.is_some() {
        Ok(PackRoute::Torrent)
    } else {
        Ok(PackRoute::Http)
    }
}

/// The places that a download works in.
pub struct DownloadPlaces {
    pub downloads_dir: String,
    pub tmp_file: String,
    pub staging_dir: String,
}

/// The places that the download under a key works in.
pub fn download_places(data_dir: &str, key: &str) -> (r: DownloadPlaces)
    ensures
        r.downloads_dir@ == crate::fspath::joined(data_dir@, ".content-downloads"@),
        r.tmp_file@ == crate::fspath::joined(
            r.downloads_dir@,
            text::swap_char(key@, ':', '_') + ".tar.gz.tmp"@,
        ),
        r.staging_dir@ == crate::fspath::joined(
            r.downloads_dir@,
            text::swap_char(key@, ':', '_') + ".staging"@,
        ),
{
    let downloads_dir = join_path(data_dir, ".content-downloads");
    let stem = string_of(swap_chars(chars_of(key).as_slice(), ':', '_').as_slice());
    let tmp_file = join_path(downloads_dir.as_str(), cat(stem.as_str(), ".tar.gz.tmp").as_str());
    let staging_dir = join_path(downloads_dir.as_str(), cat(stem.as_str(), ".staging").as_str());
    DownloadPlaces { downloads_dir, tmp_file, staging_dir }
}

/// More came than the manifest promised, with a twentieth on top. A pack without a
/// size has no limit.
pub open spec fn exceeds(downloaded: nat, size_bytes: nat) -> bool {
    size_bytes > 0 && downloaded > size_bytes + size_bytes / 20
}

/// Why a download is broken off: more came than was promised.
pub fn size_refusal(downloaded: u64, size_bytes: u64) -> (r: Option<String>)
    ensures
        text::opt(r) == if exceeds(downloaded as nat, size_bytes as nat) {
            Some(
                "Download exceeded expected size ("@ + size_text(downloaded as nat) + " > "@
                    + size_text(size_bytes as nat) + "); aborting."@,
            )
        } else {
            None
        },
{
    if size_bytes > 0 && downloaded as u128 > size_bytes as u128 + (size_bytes / 20) as u128 {
        let head = cat3(
            "Download exceeded expected size (",
            format_bytes(downloaded).as_str(),
            " > ",
        );
        Some(cat3(head.as_str(), format_bytes(size_bytes).as_str(), "); aborting."))
    } else {
        None
    }
}

/// Whether a chunk of this length is reported: about every 256 KiB, and at the end.
pub fn reports_progress(downloaded: u64, chunk: u64, content_length: u64) -> (r: bool)
    ensures
        r == (downloaded % 262144 < chunk || downloaded >= content_length),
{
    downloaded % 262144 < chunk || downloaded >= content_length
}

/// What is said of a download whose digest is not the manifest's.
pub open spec fn mismatch_text(expected: Seq<char>, digest: Seq<u8>) -> Seq<char> {
    "Checksum mismatch - expected "@ + expected + ", got "@ + crate::outside::hex(digest)
        + ". Download may be corrupted, please retry."@
}

/// Holds the digest of a download against the manifest's.
pub fn check_digest(digest: &Vec<u8>, expected: &str) -> (r: Result<(), String>)
    ensures
        match r {
            Ok(_) => crate::outside::hex(digest@) == expected@,
            Err(message) => crate::outside::hex(digest@) != expected@ && message@ == mismatch_text(
                expected@,
                digest@,
            ),
        },
{
    let got = hex_of(digest.as_slice(), digest.len());
    assert(digest@.take(digest@.len() as int) =~= digest@);
    if same(got.as_str(), expected) {
        Ok(())
    } else {
        let head = cat3("Checksum mismatch - expected ", expected, ", got ");
        Err(cat3(head.as_str(), got.as_str(), ". Download may be corrupted, please retry."))
    }
}

/// Checks a download against the manifest's digest. There is no digest that lets
/// everything pass.
pub fn verify_download(bytes: &[u8], expected: &str) -> (r: Result<(), String>)
    ensures
        match r {
            Ok(_) => crate::outside::hex(crate::outside::sha256_of(bytes@)) == expected@,
            Err(message) => {
                &&& crate::outside::hex(crate::outside::sha256_of(bytes@)) != expected@
                &&& message@ == mismatch_text(expected@, crate::outside::sha256_of(bytes@))
            },
        },
{
    let digest = sha256(bytes);
    check_digest(&digest, expected)
}

// ── Fetching from a torrent ──────────────────────────────────────────────────

/// How much of a file has come.
#[derive(Clone, Copy, PartialEq, Eq, Structural)]
pub struct FileProgress {
    pub downloaded_bytes: u64,
    pub total_bytes: u64,
    pub finished: bool,
}

/// What to do next about a file of a torrent.
#[derive(Clone, Copy, PartialEq, Eq, Structural)]
pub enum PollStep {
    /// Drop the file and give up: the user asked for it.
    Cancelled,
    Wait,
    /// The file is there.
    Arrived,
    /// Give up: the session has lost the file.
    Lost,
}

/// How often in a row the session knew nothing of the file.
pub struct TorrentPoll {
    pub none_streak: u32,
}

impl TorrentPoll {
    pub fn new() -> (r: TorrentPoll)
        ensures
            r.none_streak == 0,
    {
        TorrentPoll { none_streak: 0 }
    }

    /// Takes in what the session says of the file. Ten times nothing in a row means
    /// that the session has lost it.
    pub fn tick(&mut self, cancelled: bool, progress: Option<FileProgress>) -> (r: PollStep)
        requires
            old(self).none_streak < 10,
        ensures
            r == (if cancelled {
                PollStep::Cancelled
            } else {
                match progress {
                    Some(p) => if p.finished {
                        PollStep::Arrived
                    } else {
                        PollStep::Wait
                    },
                    None => if old(self).none_streak + 1 >= 10 {
                        PollStep::Lost
                    } else {
                        PollStep::Wait
                    },
                }
            }),
            final(self).none_streak == (if cancelled {
                old(self).none_streak as int
            } else if progress is Some {
                0
            } else {
                old(self).none_streak + 1
            }),
            r == PollStep::Wait ==> final(self).none_streak < 10,
    {
        if cancelled {
            return PollStep::Cancelled;
        }
        match progress {
            Some(p) => {
                self.none_streak = 0;
                if p.finished {
                    PollStep::Arrived
                } else {
                    PollStep::Wait
                }
            },
            None => {
                self.none_streak = self.none_streak + 1;
                if self.none_streak >= 10 {
                    PollStep::Lost
                } else {
                    PollStep::Wait
                }
            },
        }
    }
}

/// What is said of a file that the session has lost.
pub fn lost_message(info: &ContentPackInfo) -> (r: String)
    ensures
        r@ == "Torrent progress unavailable for '"@ + info.display_name@
            + "' - the download manager lost the file handle. Restart Exodium and retry."@,
{
    cat3(
        "Torrent progress unavailable for '",
        info.display_name.as_str(),
        "' - the download manager lost the file handle. Restart Exodium and retry.",
    )
}

/// Why a pack cannot be fetched from its collection's torrent.
pub open spec fn torrent_refusal(
    info: ContentPackInfo,
    collection: Seq<char>,
    index: Option<crate::models::TorrentIndex>,
) -> Option<Seq<char>> {
    match info.torrent_file_path {
        None => Some("torrent_file_path missing"@),
        Some(path) => match index {
            None => Some("No torrent manager for collection '"@ + collection + "'"@),
            Some(t) => if crate::models::path_from(t.files@, path@, 0) is None {
                Some("File '"@ + path@ + "' not found in "@ + collection + " torrent"@)
            } else {
                None
            },
        },
    }
}

/// Where a pack stands among the files of its collection's torrent. `index` is that
/// torrent, if it is in the session.
pub fn torrent_file(
    info: &ContentPackInfo,
    collection: &str,
    index: &Option<crate::models::TorrentIndex>,
) -> (r: Result<usize, String>)
    ensures
        match r {
            Ok(at) => {
                &&& torrent_refusal(*info, collection@, *index) is None
                &&& at == index->0.files@[crate::models::path_from(
                    index->0.files@,
                    text::opt(info.torrent_file_path)->0,
                    0,
                )->0].index
            },
            Err(message) => torrent_refusal(*info, collection@, *index) == Some(message@),
        },
{
    let path = match borrow(&info.torrent_file_path) {
        Some(p) => p,
        None => {
            return Err(copy("torrent_file_path missing"));
        },
    };
    match index {
        None => Err(cat3("No torrent manager for collection '", collection, "'")),
        Some(t) => match t.find_by_path(path) {
            Some(f) => Ok(f.index),
            None => {
                let head = cat3("File '", path, "' not found in ");
                Err(cat3(head.as_str(), collection, " torrent"))
            },
        },
    }
}

// ── An install, step by step ─────────────────────────────────────────────────

/// How far the install of a pack is.
#[derive(Clone, Copy, PartialEq, Eq, Structural)]
pub enum InstallPhase {
    /// The server was asked.
    Connecting,
    Downloading,
    /// All of it came, and is to be held against the manifest's digest.
    Verifying,
    /// It is being unpacked into the staging directory.
    Extracting,
    /// The staging directory takes the place of the install directory.
    Installing,
    Installed,
    Failed,
}

/// What happened to an install.
pub enum InstallEvent {
    /// The server answered, with its status and the length it announces.
    Answer { ok: bool, status: String, length: Option<u64> },
    NoAnswer { error: String },
    /// A minute went by without data.
    Stalled,
    /// Data came, and was written.
    Chunk { len: u64, cancelled: bool },
    /// The transfer broke off.
    Broken { error: String, cancelled: bool },
    /// Data came, and could not be written.
    Unwritable { error: String },
    /// The transfer is over.
    End,
    /// What was downloaded.
    Content { bytes: Vec<u8> },
    Extracted { failure: Option<String> },
    Committed { failure: Option<String> },
}

/// What to do next about an install.
pub enum InstallAction {
    /// Wait for what comes.
    Wait,
    /// Report how much came, and wait.
    Report,
    /// Read what was downloaded.
    ReadFile,
    Extract,
    Commit,
    /// It is installed. A downloaded archive is removed, a torrent's stays.
    Finish { remove_tmp: bool },
    /// Give up.
    Fail { message: String, remove_tmp: bool },
}

/// What an action comes to.
pub enum Action {
    Wait,
    Report,
    ReadFile,
    Extract,
    Commit,
    Finish { remove_tmp: bool },
    Fail { message: Seq<char>, remove_tmp: bool },
}

impl View for InstallAction {
    type V = Action;

    open spec fn view(&self) -> Action {
        match *self {
            InstallAction::Wait => Action::Wait,
            InstallAction::Report => Action::Report,
            InstallAction::ReadFile => Action::ReadFile,
            InstallAction::Extract => Action::Extract,
            InstallAction::Commit => Action::Commit,
            InstallAction::Finish { remove_tmp } => Action::Finish { remove_tmp },
            InstallAction::Fail { message, remove_tmp } => Action::Fail {
                message: message@,
                remove_tmp,
            },
        }
    }
}

/// The install of a pack.
pub struct PackInstall {
    pub phase: InstallPhase,
    pub size_bytes: u64,
    pub sha256: String,
    pub from_torrent: bool,
    pub downloaded: u64,
    pub content_length: u64,
}

/// What an install comes to.
pub struct Install {
    pub phase: InstallPhase,
    pub size_bytes: nat,
    pub sha256: Seq<char>,
    pub from_torrent: bool,
    pub downloaded: nat,
    pub content_length: nat,
}

impl View for PackInstall {
    type V = Install;

    open spec fn view(&self) -> Install {
        Install {
            phase: self.phase,
            size_bytes: self.size_bytes as nat,
            sha256: self.sha256@,
            from_torrent: self.from_torrent,
            downloaded: self.downloaded as nat,
            content_length: self.content_length as nat,
        }
    }
}

/// An install that has asked the pack's server.
pub open spec fn begun_install(info: ContentPackInfo) -> Install {
    Install {
        phase: InstallPhase::Connecting,
        size_bytes: info.size_bytes as nat,
        sha256: info.sha256@,
        from_torrent: false,
        downloaded: 0,
        content_length: info.size_bytes as nat,
    }
}

/// An install from a torrent's file. Its pieces were checked as they came.
pub open spec fn arrived_install(info: ContentPackInfo) -> Install {
    Install { phase: InstallPhase::Extracting, from_torrent: true, ..begun_install(info) }
}

/// An install that was given up.
pub open spec fn failed(s: Install) -> Install {
    Install { phase: InstallPhase::Failed, ..s }
}

/// An install after an event. An event that does not belong to its phase changes
/// nothing.
pub open spec fn after_event(s: Install, event: InstallEvent) -> Install {
    match (s.phase, event) {
        (InstallPhase::Connecting, InstallEvent::Answer { ok, length, .. }) => if ok {
            Install {
                phase: InstallPhase::Downloading,
                content_length: match length {
                    Some(n) => n as nat,
                    None => s.size_bytes,
                },
                ..s
            }
        } else {
            failed(s)
        },
        (InstallPhase::Connecting, InstallEvent::NoAnswer { .. }) => failed(s),
        (InstallPhase::Downloading, InstallEvent::Stalled) => failed(s),
        (InstallPhase::Downloading, InstallEvent::Chunk { len, cancelled }) => if cancelled {
            failed(s)
        } else {
            let more = Install { downloaded: s.downloaded + len as nat, ..s };
            if exceeds(more.downloaded, s.size_bytes) {
                failed(more)
            } else {
                more
            }
        },
        (InstallPhase::Downloading, InstallEvent::Broken { .. }) => failed(s),
        (InstallPhase::Downloading, InstallEvent::Unwritable { .. }) => failed(s),
        (InstallPhase::Downloading, InstallEvent::End) => Install {
            phase: InstallPhase::Verifying,
            ..s
        },
        (InstallPhase::Verifying, InstallEvent::Content { bytes }) => if crate::outside::hex(
            crate::outside::sha256_of(bytes@),
        ) == s.sha256 {
            Install { phase: InstallPhase::Extracting, ..s }
        } else {
            failed(s)
        },
        (InstallPhase::Extracting, InstallEvent::Extracted { failure }) => if failure is None {
            Install { phase: InstallPhase::Installing, ..s }
        } else {
            failed(s)
        },
        (InstallPhase::Installing, InstallEvent::Committed { failure }) => if failure is None {
            Install { phase: InstallPhase::Installed, ..s }
        } else {
            failed(s)
        },
        _ => s,
    }
}

/// What to do after an event.
pub open spec fn action_on(s: Install, event: InstallEvent) -> Action {
    match (s.phase, event) {
        (InstallPhase::Connecting, InstallEvent::Answer { ok, status, .. }) => if ok {
            Action::Report
        } else {
            Action::Fail { message: "Download returned HTTP "@ + status@, remove_tmp: false }
        },
        (InstallPhase::Connecting, InstallEvent::NoAnswer { error }) => Action::Fail {
            message: "Download failed: "@ + error@,
            remove_tmp: false,
        },
        (InstallPhase::Downloading, InstallEvent::Stalled) => Action::Fail {
            message: "Download stalled: no data received for 60 seconds."@,
            remove_tmp: true,
        },
        (InstallPhase::Downloading, InstallEvent::Chunk { len, cancelled }) => if cancelled {
            Action::Fail { message: "Cancelled"@, remove_tmp: true }
        } else {
            let downloaded = s.downloaded + len as nat;
            if exceeds(downloaded, s.size_bytes) {
                Action::Fail {
                    message: "Download exceeded expected size ("@ + size_text(downloaded) + " > "@
                        + size_text(s.size_bytes) + "); aborting."@,
                    remove_tmp: true,
                }
            } else if downloaded % 262144 < len || downloaded >= s.content_length {
                Action::Report
            } else {
                Action::Wait
            }
        },
        (InstallPhase::Downloading, InstallEvent::Broken { error, cancelled }) => if cancelled {
            Action::Fail { message: "Cancelled"@, remove_tmp: true }
        } else {
            Action::Fail { message: "Download error: "@ + error@, remove_tmp: false }
        },
        (InstallPhase::Downloading, InstallEvent::Unwritable { error }) => Action::Fail {
            message: "Write error: "@ + error@,
            remove_tmp: false,
        },
        (InstallPhase::Downloading, InstallEvent::End) => Action::ReadFile,
        (InstallPhase::Verifying, InstallEvent::Content { bytes }) => if crate::outside::hex(
            crate::outside::sha256_of(bytes@),
        ) == s.sha256 {
            Action::Extract
        } else {
            Action::Fail {
                message: mismatch_text(s.sha256, crate::outside::sha256_of(bytes@)),
                remove_tmp: true,
            }
        },
        (InstallPhase::Extracting, InstallEvent::Extracted { failure }) => match failure {
            None => Action::Commit,
            Some(e) => Action::Fail { message: e@, remove_tmp: false },
        },
        (InstallPhase::Installing, InstallEvent::Committed { failure }) => match failure {
            None => Action::Finish { remove_tmp: !s.from_torrent },
            Some(e) => Action::Fail { message: e@, remove_tmp: false },
        },
        _ => Action::Wait,
    }
}

fn give_up(message: String, remove_tmp: bool) -> (r: InstallAction)
    ensures
        r@ == (Action::Fail { message: message@, remove_tmp }),
{
    InstallAction::Fail { message, remove_tmp }
}

impl PackInstall {
    /// An install that has asked the pack's server.
    pub fn from_net(info: &ContentPackInfo) -> (r: PackInstall)
        ensures
            r@ == begun_install(*info),
    {
        PackInstall {
            phase: InstallPhase::Connecting,
            size_bytes: info.size_bytes,
            sha256: copy(info.sha256.as_str()),
            from_torrent: false,
            downloaded: 0,
            content_length: info.size_bytes,
        }
    }

    /// An install of a file that came by torrent.
    pub fn from_torrent(info: &ContentPackInfo) -> (r: PackInstall)
        ensures
            r@ == arrived_install(*info),
    {
        let mut r = PackInstall::from_net(info);
        r.phase = InstallPhase::Extracting;
        r.from_torrent = true;
        r
    }

    /// Takes in what happened, and says what to do next.
    pub fn do_install(&mut self, event: &InstallEvent) -> (r: InstallAction)
        requires
            *event matches InstallEvent::Chunk { len, .. } ==> old(self).downloaded + len <= u64::MAX,
        ensures
            final(self)@ == after_event(old(self)@, *event),
            r@ == action_on(old(self)@, *event),
    {
        match self.phase {
            InstallPhase::Connecting => self.take_answer(event),
            InstallPhase::Downloading => self.take_data(event),
            InstallPhase::Verifying => match event {
                InstallEvent::Content { bytes } => match verify_download(
                    bytes.as_slice(),
                    self.sha256.as_str(),
                ) {
                    Ok(_) => {
                        self.phase = InstallPhase::Extracting;
                        InstallAction::Extract
                    },
                    Err(message) => {
                        self.phase = InstallPhase::Failed;
                        give_up(message, true)
                    },
                },
                _ => InstallAction::Wait,
            },
            InstallPhase::Extracting => match event {
                InstallEvent::Extracted { failure } => match failure {
                    None => {
                        self.phase = InstallPhase::Installing;
                        InstallAction::Commit
                    },
                    Some(e) => {
                        self.phase = InstallPhase::Failed;
                        give_up(copy(e.as_str()), false)
                    },
                },
                _ => InstallAction::Wait,
            },
            InstallPhase::Installing => match event {
                InstallEvent::Committed { failure } => match failure {
                    None => {
                        self.phase = InstallPhase::Installed;
                        InstallAction::Finish { remove_tmp: !self.from_torrent }
                    },
                    Some(e) => {
                        self.phase = InstallPhase::Failed;
                        give_up(copy(e.as_str()), false)
                    },
                },
                _ => InstallAction::Wait,
            },
            _ => InstallAction::Wait,
        }
    }

    fn take_answer(&mut self, event: &InstallEvent) -> (r: InstallAction)
        requires
            old(self).phase == InstallPhase::Connecting,
        ensures
            final(self)@ == after_event(old(self)@, *event),
            r@ == action_on(old(self)@, *event),
    {
        match event {
            InstallEvent::Answer { ok, status, length } => if *ok {
                self.phase = InstallPhase::Downloading;
                self.content_length = match length {
                    Some(n) => *n,
                    None => self.size_bytes,
                };
                InstallAction::Report
            } else {
                self.phase = InstallPhase::Failed;
                give_up(cat("Download returned HTTP ", status.as_str()), false)
            },
            InstallEvent::NoAnswer { error } => {
                self.phase = InstallPhase::Failed;
                give_up(cat("Download failed: ", error.as_str()), false)
            },
            _ => InstallAction::Wait,
        }
    }

    fn take_data(&mut self, event: &InstallEvent) -> (r: InstallAction)
        requires
            old(self).phase == InstallPhase::Downloading,
            *event matches InstallEvent::Chunk { len, .. } ==> old(self).downloaded + len <= u64::MAX,
        ensures
            final(self)@ == after_event(old(self)@, *event),
            r@ == action_on(old(self)@, *event),
    {
        match event {
            InstallEvent::Stalled => {
                self.phase = InstallPhase::Failed;
                give_up(copy("Download stalled: no data received for 60 seconds."), true)
            },
            InstallEvent::Chunk { len, cancelled } => {
                if *cancelled {
                    self.phase = InstallPhase::Failed;
                    return give_up(copy("Cancelled"), true);
                }
                self.downloaded = self.downloaded + *len;
                match size_refusal(self.downloaded, self.size_bytes) {
                    Some(message) => {
                        self.phase = InstallPhase::Failed;
                        give_up(message, true)
                    },
                    None => if reports_progress(self.downloaded, *len, self.content_length) {
                        InstallAction::Report
                    } else {
                        InstallAction::Wait
                    },
                }
            },
            InstallEvent::Broken { error, cancelled } => {
                self.phase = InstallPhase::Failed;
                if *cancelled {
                    give_up(copy("Cancelled"), true)
                } else {
                    give_up(cat("Download error: ", error.as_str()), false)
                }
            },
            InstallEvent::Unwritable { error } => {
                self.phase = InstallPhase::Failed;
                give_up(cat("Write error: ", error.as_str()), false)
            },
            InstallEvent::End => {
                self.phase = InstallPhase::Verifying;
                InstallAction::ReadFile
            },
            _ => InstallAction::Wait,
        }
    }
}

/// What an install says of itself while it goes on.
pub fn phase_text(phase: InstallPhase) -> (r: &'static str)
    ensures
        r@ == (match phase {
            InstallPhase::Connecting => "downloading"@,
            InstallPhase::Downloading => "downloading"@,
            InstallPhase::Verifying => "verifying"@,
            InstallPhase::Extracting => "extracting"@,
            InstallPhase::Installing => "installing"@,
            InstallPhase::Installed => "installed"@,
            InstallPhase::Failed => "failed"@,
        }),
{
    match phase {
        InstallPhase::Connecting => "downloading",
        InstallPhase::Downloading => "downloading",
        InstallPhase::Verifying => "verifying",
        InstallPhase::Extracting => "extracting",
        InstallPhase::Installing => "installing",
        InstallPhase::Installed => "installed",
        InstallPhase::Failed => "failed",
    }
}

/// An install after the first `n` of some events.
pub open spec fn after_events(s: Install, events: Seq<InstallEvent>, n: int) -> Install
    decreases n,
{
    if n <= 0 {
        s
    } else {
        after_event(after_events(s, events, n - 1), events[n - 1])
    }
}

/// The pack is, or is about to be, unpacked.
pub open spec fn is_unpacked(s: Install) -> bool {
    s.phase == InstallPhase::Extracting || s.phase == InstallPhase::Installing || s.phase
        == InstallPhase::Installed
}

/// The event is the content that the manifest promises.
pub open spec fn is_promised(event: InstallEvent, sha256: Seq<char>) -> bool {
    event matches InstallEvent::Content { bytes } && crate::outside::hex(
        crate::outside::sha256_of(bytes@),
    ) == sha256
}

// ── Clearing up ──────────────────────────────────────────────────────────────

/// A recorded pack no longer works: it is older than the manifest allows.
pub open spec fn is_stale(
    ledger: Ledger,
    manifest: Map<Seq<char>, Vec<PackEntry>>,
    collection: Seq<char>,
    id: Seq<char>,
) -> bool {
    match ledger.recorded(collection, id) {
        Some(pack) => manifest.contains_key(collection) && match pack_from(
            manifest[collection]@,
            id,
            0,
        ) {
            Some(i) => pack.version < manifest[collection]@[i].info.min_compatible_version,
            None => false,
        },
        None => false,
    }
}

/// A pack to remove.
pub struct StalePack {
    pub collection: String,
    pub pack_id: String,
    pub dir: String,
}

/// One of the packs is this one.
pub open spec fn lists_pack(list: Seq<StalePack>, collection: Seq<char>, id: Seq<char>) -> bool {
    exists|k: int|
        0 <= k < list.len() && (#[trigger] list[k]).collection@ == collection && list[k].pack_id@
            == id
}

/// The packs of the list lie where the manifest places them.
pub open spec fn placed(
    os: Os,
    list: Seq<StalePack>,
    manifest: Map<Seq<char>, Vec<PackEntry>>,
    data_dir: Seq<char>,
) -> bool {
    forall|k: int|
        0 <= k < list.len() ==> (#[trigger] list[k]).dir@ == pack_place(
            os,
            data_dir,
            list[k].collection@,
            list[k].pack_id@,
            manifest[list[k].collection@]@,
        )
}

/// No pack of a collection is listed twice.
pub open spec fn listed_once(list: Seq<StalePack>) -> bool {
    forall|j: int, k: int|
        0 <= j < k < list.len() ==> (#[trigger] list[j]).collection@ != (#[trigger] list[k]).collection@
            || list[j].pack_id@ != list[k].pack_id@
}

fn push_stale(
    os: Os,
    out: &mut Vec<StalePack>,
    ledger: &Ledger,
    collection: &str,
    id: &str,
    packs: &Vec<PackEntry>,
    data_dir: &str,
    manifest: &Table<Vec<PackEntry>>,
)
    requires
        ledger.wf(),
        manifest.wf(),
        manifest@.contains_key(collection@),
        manifest@[collection@] == *packs,
        placed(os, old(out)@, manifest@, data_dir@),
        listed_once(old(out)@),
        !lists_pack(old(out)@, collection@, id@),
    ensures
        placed(os, final(out)@, manifest@, data_dir@),
        listed_once(final(out)@),
        forall|c: Seq<char>, i: Seq<char>| #[trigger]
            lists_pack(final(out)@, c, i) <==> lists_pack(old(out)@, c, i) || (c == collection@ && i
                == id@ && is_stale(*ledger, manifest@, c, i)),
{
    let ghost before = out@;
    let stale = match ledger.get(collection, id) {
        Some(pack) => match find_pack(packs, id) {
            Some(i) => pack.version < packs[i].info.min_compatible_version,
            None => false,
        },
        None => false,
    };
    assert(stale == is_stale(*ledger, manifest@, collection@, id@));
    if stale {
        let dir = resolve_pack_install_dir(os, data_dir, collection, id, packs);
        out.push(StalePack { collection: copy(collection), pack_id: copy(id), dir });
        let ghost after = out@;
        assert(after.drop_last() =~= before);
        assert forall|j: int, k: int| 0 <= j < k < after.len() implies (
        #[trigger] after[j]).collection@ != (#[trigger] after[k]).collection@ || after[j].pack_id@
            != after[k].pack_id@ by {
            assert(after[j] == before[j]);
            if k < before.len() {
                assert(after[k] == before[k]);
            } else if before[j].collection@ == collection@ && before[j].pack_id@ == id@ {
                assert(lists_pack(before, collection@, id@));
            }
        }
        assert forall|c: Seq<char>, i: Seq<char>| #[trigger]
            lists_pack(after, c, i) <==> lists_pack(before, c, i) || (c == collection@ && i
                == id@) by {
            if lists_pack(before, c, i) {
                let w = choose|w: int|
                    0 <= w < before.len() && (#[trigger] before[w]).collection@ == c
                        && before[w].pack_id@ == i;
                assert(after[w] == before[w]);
            }
            if c == collection@ && i == id@ {
                assert(after[before.len() as int].pack_id@ == i);
            }
            if lists_pack(after, c, i) {
                let w = choose|w: int|
                    0 <= w < after.len() && (#[trigger] after[w]).collection@ == c
                        && after[w].pack_id@ == i;
                if w < before.len() {
                    assert(before[w] == after[w]);
                }
            }
        }
    }
}

/// The packs to remove at the start: those below the oldest version that still
/// works. A newer version of a pack is an offer, and removes nothing; what the
/// manifest does not know stays.
pub fn cleanup_stale_content_packs(
    os: Os,
    ledger: &Ledger,
    manifest: &Table<Vec<PackEntry>>,
    data_dir: &str,
) -> (r: Vec<StalePack>)
    requires
        ledger.wf(),
        manifest.wf(),
    ensures
        forall|c: Seq<char>, i: Seq<char>| #[trigger]
            lists_pack(r@, c, i) <==> is_stale(*ledger, manifest@, c, i),
        listed_once(r@),
        placed(os, r@, manifest@, data_dir@),
{
    let mut out: Vec<StalePack> = Vec::new();
    let collections = ledger.collections.keys();
    let ghost cols = text::texts(collections@);
    let mut a: usize = 0;
    while a < collections.len()
        invariant
            a <= collections@.len(),
            cols == text::texts(collections@),
            ledger.wf(),
            manifest.wf(),
            forall|c: Seq<char>| #[trigger] cols.contains(c) <==> ledger.collections@.contains_key(c),
            cols.no_duplicates(),
            listed_once(out@),
            placed(os, out@, manifest@, data_dir@),
            forall|c: Seq<char>, i: Seq<char>| #[trigger]
                lists_pack(out@, c, i) <==> cols.take(a as int).contains(c) && is_stale(
                    *ledger,
                    manifest@,
                    c,
                    i,
                ),
        decreases collections@.len() - a,
    {
        let collection = collections[a].as_str();
        assert(cols[a as int] == collection@);
        assert(cols.contains(collection@));
        let ghost start = out@;
        let ghost earlier = cols.take(a as int);
        let ghost now = cols.take(a + 1);
        assert(!earlier.contains(collection@)) by {
            if earlier.contains(collection@) {
                let w = choose|w: int| 0 <= w < a && earlier[w] == collection@;
                assert(cols[w] == cols[a as int]);
            }
        }
        if let Some(packs) = manifest.get(collection) {
            if let Some(recorded) = ledger.collections.get(collection) {
                let ids = recorded.keys();
                let ghost names = text::texts(ids@);
                let mut b: usize = 0;
                while b < ids.len()
                    invariant
                        b <= ids@.len(),
                        names == text::texts(ids@),
                        ledger.wf(),
                        manifest.wf(),
                        manifest@.contains_key(collection@),
                        manifest@[collection@] == *packs,
                        names.no_duplicates(),
                        listed_once(out@),
                        forall|i: Seq<char>| !(#[trigger] lists_pack(start, collection@, i)),
                        placed(os, out@, manifest@, data_dir@),
                        forall|c: Seq<char>, i: Seq<char>| #[trigger]
                            lists_pack(out@, c, i) <==> lists_pack(start, c, i) || (c == collection@
                                && names.take(b as int).contains(i) && is_stale(
                                *ledger,
                                manifest@,
                                c,
                                i,
                            )),
                    decreases ids@.len() - b,
                {
                    let id = ids[b].as_str();
                    assert(names[b as int] == id@);
                    let ghost mid = out@;
                    assert(!names.take(b as int).contains(id@)) by {
                        if names.take(b as int).contains(id@) {
                            let w = choose|w: int| 0 <= w < b && names.take(b as int)[w] == id@;
                            assert(names[w] == names[b as int]);
                        }
                    }
                    push_stale(os, &mut out, ledger, collection, id, packs, data_dir, manifest);
                    assert(names.take(b + 1) =~= names.take(b as int).push(id@));
                    assert forall|i: Seq<char>| #[trigger]
                        names.take(b + 1).contains(i) <==> names.take(b as int).contains(i) || i
                            == id@ by {
                        lemma_push_contains(names.take(b as int), id@, i);
                    }
                    b += 1;
                }
                assert(names.take(names.len() as int) =~= names);
                assert forall|i: Seq<char>| is_stale(
                    *ledger,
                    manifest@,
                    collection@,
                    i,
                ) implies #[trigger] names.contains(i) by {
                    assert(ledger.recorded(collection@, i) is Some);
                }
            }
        }
        assert(now =~= earlier.push(collection@));
        assert forall|c: Seq<char>, i: Seq<char>| #[trigger]
            lists_pack(out@, c, i) <==> now.contains(c) && is_stale(*ledger, manifest@, c, i) by {
            lemma_push_contains(earlier, collection@, c);
        }
        a += 1;
    }
    assert(cols.take(cols.len() as int) =~= cols);
    assert forall|c: Seq<char>, i: Seq<char>| is_stale(
        *ledger,
        manifest@,
        c,
        i,
    ) implies #[trigger] lists_pack(out@, c, i) by {
        assert(ledger.recorded(c, i) is Some);
        assert(cols.contains(c));
    }
    out
}

proof fn lemma_push_contains(list: Seq<Seq<char>>, x: Seq<char>, y: Seq<char>)
    ensures
        list.push(x).contains(y) <==> list.contains(y) || y == x,
{
    let longer = list.push(x);
    if list.contains(y) {
        let w = choose|w: int| 0 <= w < list.len() && list[w] == y;
        assert(longer[w] == y);
    }
    if y == x {
        assert(longer[list.len() as int] == y);
    }
    if longer.contains(y) {
        let w = choose|w: int| 0 <= w < longer.len() && longer[w] == y;
        if w < list.len() {
            assert(list[w] == y);
        }
    }
}

/// Whether a leftover of a download goes at the start: it is a temporary file or a
/// staging directory, and was last touched more than an hour ago.
pub fn is_stale_download(name: &str, age_nanos: Option<u128>) -> (r: bool)
    ensures
        r == ((".tmp"@.is_suffix_of(name@) || ".staging"@.is_suffix_of(name@)) && age_nanos is Some
            && age_nanos->0 > 3_600_000_000_000),
{
    let chars = chars_of(name);
    let leftover = has_suffix(chars.as_slice(), ".tmp") || has_suffix(chars.as_slice(), ".staging");
    match age_nanos {
        Some(age) => leftover && age > 3_600_000_000_000,
        None => false,
    }
}

// ── Laws ─────────────────────────────────────────────────────────────────────

/// A pack that is adopted from the disk is not removed again as too old, as long as
/// the manifest's own version works.
pub proof fn law_adopted_packs_are_not_stale(
    ledger: Ledger,
    manifest: Map<Seq<char>, Vec<PackEntry>>,
    collection: Seq<char>,
    i: int,
    now: Seq<char>,
)
    requires
        manifest.contains_key(collection),
        0 <= i < manifest[collection]@.len(),
        distinct_ids(manifest[collection]@),
        manifest[collection]@[i].here is Some,
        ledger.recorded(collection, manifest[collection]@[i].id@) is Some,
        is_adoption(
            ledger.recorded(collection, manifest[collection]@[i].id@)->0,
            manifest[collection]@[i].here->0,
            now,
        ),
        manifest[collection]@[i].here->0.version
            >= manifest[collection]@[i].info.min_compatible_version,
    ensures
        !is_stale(ledger, manifest, collection, manifest[collection]@[i].id@),
{
    lemma_pack_at(manifest[collection]@, i, 0);
}

proof fn lemma_pack_at(packs: Seq<PackEntry>, i: int, from: int)
    requires
        0 <= from <= i < packs.len(),
        distinct_ids(packs),
    ensures
        pack_from(packs, packs[i].id@, from) == Some(i),
    decreases i - from,
{
    if from < i {
        assert(packs[from].id@ != packs[i].id@);
        lemma_pack_at(packs, i, from + 1);
    }
}

/// A pack that the manifest merely has a newer version of is not removed.
pub proof fn law_outdated_packs_stay(
    ledger: Ledger,
    manifest: Map<Seq<char>, Vec<PackEntry>>,
    collection: Seq<char>,
    id: Seq<char>,
)
    requires
        ledger.recorded(collection, id) is Some,
        manifest.contains_key(collection),
        pack_from(manifest[collection]@, id, 0) is Some,
        ledger.recorded(collection, id)->0.version
            >= manifest[collection]@[pack_from(
            manifest[collection]@,
            id,
            0,
        )->0].info.min_compatible_version,
    ensures
        !is_stale(ledger, manifest, collection, id),
{
}

/// A pack whose source is a placeholder is never installed: what begins to install
/// can be installed.
pub proof fn law_only_installable_packs_begin(
    state: ContentPackState,
    collection: Seq<char>,
    pack_id: Seq<char>,
    packs: Seq<PackEntry>,
)
    requires
        start_refusal(state, collection, pack_id, Some(packs)) is None,
    ensures
        is_installable(packs[pack_from(packs, pack_id, 0)->0].here->0),
{
}

/// Nothing from the net is unpacked, whatever happens on the way, unless its digest
/// is the manifest's.
pub proof fn law_only_promised_packs_are_unpacked(
    info: ContentPackInfo,
    events: Seq<InstallEvent>,
)
    ensures
        is_unpacked(after_events(begun_install(info), events, events.len() as int)) ==> exists|i: int|
            0 <= i < events.len() && is_promised(#[trigger] events[i], info.sha256@),
{
    lemma_promised(info, events, events.len() as int);
}

proof fn lemma_promised(info: ContentPackInfo, events: Seq<InstallEvent>, n: int)
    requires
        0 <= n <= events.len(),
    ensures
        after_events(begun_install(info), events, n).sha256 == info.sha256@,
        is_unpacked(after_events(begun_install(info), events, n)) ==> exists|i: int|
            0 <= i < n && is_promised(#[trigger] events[i], info.sha256@),
    decreases n,
{
    if n > 0 {
        lemma_promised(info, events, n - 1);
        let s = after_events(begun_install(info), events, n - 1);
        if is_unpacked(after_event(s, events[n - 1])) && !is_unpacked(s) {
            assert(is_promised(events[n - 1], info.sha256@));
        }
    }
}

/// An install that was given up, or is done, stays so.
pub proof fn law_an_ended_install_stays(s: Install, event: InstallEvent)
    requires
        s.phase == InstallPhase::Failed || s.phase == InstallPhase::Installed,
    ensures
        after_event(s, event) == s,
        action_on(s, event) == Action::Wait,
{
}

/// While an install is on its way, it is not begun again.
pub proof fn law_one_install_at_a_time(
    state: ContentPackState,
    collection: Seq<char>,
    pack_id: Seq<char>,
    packs: Option<Seq<PackEntry>>,
)
    requires
        state.is_busy(key_of(collection, pack_id)),
    ensures
        start_refusal(state, collection, pack_id, packs) is Some,
{
}

/// A pack needs more room than its download takes: enough for the download and for what it
/// unpacks to.
pub proof fn law_a_pack_needs_room(size_bytes: nat)
    requires
        size_bytes <= u64::MAX,
    ensures
        space_needed(size_bytes) >= size_bytes,
        3 * size_bytes <= u64::MAX ==> 2 * size_bytes <= space_needed(size_bytes) <= 3 * size_bytes,
{
}

/// Whatever happens on the way, a pack from the net is never unpacked, let alone installed,
/// unless what was downloaded has the digest that the manifest names.
pub proof fn law_a_wrong_download_is_never_unpacked(
    info: ContentPackInfo,
    events: Seq<InstallEvent>,
)
    requires
        forall|i: int|
            0 <= i < events.len() ==> match #[trigger] events[i] {
                InstallEvent::Content { bytes } => crate::outside::hex(
                    crate::outside::sha256_of(bytes@),
                ) != info.sha256@,
                _ => true,
            },
    ensures
        ({
            let phase = after_events(begun_install(info), events, events.len() as int).phase;
            phase == InstallPhase::Connecting || phase == InstallPhase::Downloading || phase
                == InstallPhase::Verifying || phase == InstallPhase::Failed
        }),
{
    law_only_promised_packs_are_unpacked(info, events);
    let end = after_events(begun_install(info), events, events.len() as int);
    if is_unpacked(end) {
        let i = choose|i: int|
            0 <= i < events.len() && is_promised(#[trigger] events[i], info.sha256@);
        assert(match events[i] {
            InstallEvent::Content { bytes } => crate::outside::hex(
                crate::outside::sha256_of(bytes@),
            ) != info.sha256@,
            _ => true,
        });
    }
}

/// An install in which nothing goes wrong goes through all its steps: what came is read, held
/// against the digest, unpacked, put in place, and what was downloaded is removed.
pub proof fn law_a_good_install_ends_installed(
    info: ContentPackInfo,
    status: String,
    length: Option<u64>,
    len: u64,
    bytes: Vec<u8>,
)
    requires
        len <= info.size_bytes,
        crate::outside::hex(crate::outside::sha256_of(bytes@)) == info.sha256@,
    ensures
        ({
            let a = after_event(
                begun_install(info),
                InstallEvent::Answer { ok: true, status, length },
            );
            let b = after_event(a, InstallEvent::Chunk { len, cancelled: false });
            let c = after_event(b, InstallEvent::End);
            let d = after_event(c, InstallEvent::Content { bytes });
            let e = after_event(d, InstallEvent::Extracted { failure: None });
            let f = after_event(e, InstallEvent::Committed { failure: None });
            &&& action_on(b, InstallEvent::End) == Action::ReadFile
            &&& action_on(c, InstallEvent::Content { bytes }) == Action::Extract
            &&& action_on(d, InstallEvent::Extracted { failure: None }) == Action::Commit
            &&& action_on(e, InstallEvent::Committed { failure: None }) == (Action::Finish {
                remove_tmp: true,
            })
            &&& f.phase == InstallPhase::Installed
            &&& f.downloaded == len
        }),
{
    assert(!exceeds(len as nat, info.size_bytes as nat)) by {
        lemma_within(len as nat, info.size_bytes as nat);
    }
}

proof fn lemma_within(downloaded: nat, size_bytes: nat)
    requires
        downloaded <= size_bytes,
    ensures
        !exceeds(downloaded, size_bytes),
{
}

/// A download that is cancelled, or grows by more than a twentieth beyond its size, is given
/// up, and what came of it is removed.
pub proof fn law_a_download_out_of_bounds_is_given_up(s: Install, len: u64, cancelled: bool)
    requires
        s.phase == InstallPhase::Downloading,
        cancelled || 20 * (s.downloaded + len) > 21 * s.size_bytes,
        s.size_bytes > 0,
    ensures
        after_event(s, InstallEvent::Chunk { len, cancelled }).phase == InstallPhase::Failed,
        action_on(s, InstallEvent::Chunk { len, cancelled }) matches Action::Fail {
            remove_tmp,
            ..
        } && remove_tmp,
        cancelled ==> action_on(s, InstallEvent::Chunk { len, cancelled }) == (Action::Fail {
            message: "Cancelled"@,
            remove_tmp: true,
        }),
{
    if !cancelled {
        lemma_beyond((s.downloaded + len as nat) as nat, s.size_bytes);
    }
}

proof fn lemma_beyond(downloaded: nat, size_bytes: nat)
    requires
        20 * downloaded > 21 * size_bytes,
        size_bytes > 0,
    ensures
        exceeds(downloaded, size_bytes),
{
}

/// A recorded pack is removed exactly where the manifest knows it and wants at least a newer
/// version of it than the one that was recorded.
pub proof fn law_old_packs_are_removed(
    ledger: Ledger,
    manifest: Map<Seq<char>, Vec<PackEntry>>,
    collection: Seq<char>,
    i: int,
)
    requires
        manifest.contains_key(collection),
        0 <= i < manifest[collection]@.len(),
        forall|k: int|
            0 <= k < i ==> (#[trigger] manifest[collection]@[k]).id@ != manifest[collection]@[i].id@,
    ensures
        ({
            let entry = manifest[collection]@[i];
            is_stale(ledger, manifest, collection, entry.id@) <==> (ledger.recorded(
                collection,
                entry.id@,
            ) matches Some(pack) && pack.version < entry.info.min_compatible_version)
        }),
{
    lemma_first_pack(manifest[collection]@, i, 0);
}

proof fn lemma_first_pack(packs: Seq<PackEntry>, i: int, from: int)
    requires
        0 <= from <= i < packs.len(),
        forall|k: int| 0 <= k < i ==> (#[trigger] packs[k]).id@ != packs[i].id@,
    ensures
        pack_from(packs, packs[i].id@, from) == Some(i),
    decreases i - from,
{
    if from < i {
        lemma_first_pack(packs, i, from + 1);
    }
}

/// A pack goes where the manifest says, below the data directory; one whose place would lie
/// elsewhere, and one that the manifest does not know, goes to the usual place.
pub proof fn law_a_pack_goes_below_the_data_directory(
    os: Os,
    data_dir: Seq<char>,
    collection: Seq<char>,
    packs: Seq<PackEntry>,
    i: int,
)
    requires
        os != Os::Windows,
        0 <= i < packs.len(),
        forall|k: int| 0 <= k < i ==> (#[trigger] packs[k]).id@ != packs[i].id@,
    ensures
        ({
            let path = packs[i].info.install_path@;
            let place = pack_place(os, data_dir, collection, packs[i].id@, packs);
            &&& !"/"@.is_prefix_of(path) && !"\\"@.is_prefix_of(path) && !text::has(path, ".."@)
                ==> place == crate::fspath::joined(data_dir, path)
            &&& "/"@.is_prefix_of(path) || text::has(path, ".."@) ==> place
                == crate::fspath::joined(
                crate::fspath::joined(crate::fspath::joined(data_dir, "content"@), packs[i].id@),
                collection,
            )
        }),
{
    lemma_first_pack(packs, i, 0);
}

} // verus!
