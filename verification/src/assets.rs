//! Art and documents: where covers lie, which images belong to a game, the cache of
//! thumbnails, and manuals.

use crate::cache::{CacheFile, Pruner};
use crate::collections::{asset_fallback, collection_def};
use crate::fspath::{extension_of, file_name_of, file_stem_of, join_path, parent_of};
use crate::order::{is_before, order_of, Ranked};
use crate::outside::{hex_of, sha256};
use crate::paths::{path_to_fwd_slash, Places};
use crate::titles::normalize_alnum;
use crate::text;
use crate::text::{
    borrow, cat, chars_of, copy, drop_front, has_prefix, has_suffix, is_digit_char, is_one_of,
    is_str, join_texts, rcut_once, same, string_of, to_lower, to_small,
};
use vstd::prelude::*;

verus! {

/// What the cache of thumbnails may take.
pub const GALLERY_CACHE_MAX_BYTES: u64 = 262_144_000;

// ── Previews and posters ─────────────────────────────────────────────────────

/// A path below another one, by three names.
pub open spec fn below3(base: Seq<char>, a: Seq<char>, b: Seq<char>, c: Seq<char>) -> Seq<char> {
    crate::fspath::joined(crate::fspath::joined(crate::fspath::joined(base, a), b), c)
}

fn join3(base: &str, a: &str, b: &str, c: &str) -> (r: String)
    ensures
        r@ == below3(base@, a@, b@, c@),
{
    let x = join_path(base, a);
    let y = join_path(x.as_str(), b);
    join_path(y.as_str(), c)
}

/// Where the previews of a collection may lie around the program.
pub open spec fn around_program(exe: Option<Seq<char>>, collection: Seq<char>) -> Seq<Seq<char>> {
    match exe {
        Some(path) => match crate::fspath::parent(path) {
            Some(dir) => seq![
                crate::fspath::joined(crate::fspath::joined(dir, "previews"@), collection),
                below3(dir, "resources"@, "previews"@, collection),
            ] + (match crate::fspath::parent(dir) {
                Some(usr) => seq![
                    crate::fspath::joined(below3(usr, "lib"@, "exodium"@, "previews"@), collection),
                    crate::fspath::joined(
                        below3(usr, "share"@, "exodium"@, "previews"@),
                        collection,
                    ),
                ],
                None => Seq::<Seq<char>>::empty(),
            }),
            None => Seq::<Seq<char>>::empty(),
        },
        None => Seq::<Seq<char>>::empty(),
    }
}

/// Where the previews of a collection may lie.
pub open spec fn preview_places(
    resource_dir: Option<Seq<char>>,
    exe: Option<Seq<char>>,
    collection: Seq<char>,
) -> Seq<Seq<char>> {
    (match resource_dir {
        Some(dir) => seq![
            crate::fspath::joined(crate::fspath::joined(dir, "previews"@), collection),
        ],
        None => Seq::<Seq<char>>::empty(),
    }) + around_program(exe, collection)
}

fn preview_candidates(places: &Places, exe: Option<&str>, collection: &str) -> (r: Vec<String>)
    ensures
        text::texts(r@) == preview_places(text::opt(places.resource_dir), text::opt_ref(exe), collection@),
{
    let mut out: Vec<String> = Vec::new();
    if let Some(dir) = borrow(&places.resource_dir) {
        out.push(join_path(join_path(dir, "previews").as_str(), collection));
    }
    if let Some(path) = exe {
        if let Some(dir) = parent_of(path) {
            out.push(join_path(join_path(dir.as_str(), "previews").as_str(), collection));
            out.push(join3(dir.as_str(), "resources", "previews", collection));
            if let Some(usr) = parent_of(dir.as_str()) {
                let lib = join3(usr.as_str(), "lib", "exodium", "previews");
                let share = join3(usr.as_str(), "share", "exodium", "previews");
                out.push(join_path(lib.as_str(), collection));
                out.push(join_path(share.as_str(), collection));
            }
        }
    }
    assert(text::texts(out@) =~= preview_places(text::opt(places.resource_dir), text::opt_ref(exe), collection@));
    out
}

/// The first of some paths, `i` or later, that is on disk.
pub open spec fn first_present(
    paths: Seq<Seq<char>>,
    present: Seq<Seq<char>>,
    i: int,
) -> Option<Seq<char>>
    decreases paths.len() - i,
{
    if i >= paths.len() {
        None
    } else if present.contains(paths[i]) {
        Some(paths[i])
    } else {
        first_present(paths, present, i + 1)
    }
}

fn find_present(paths: &Vec<String>, present: &Vec<String>) -> (r: Option<String>)
    ensures
        text::opt(r) == first_present(text::texts(paths@), text::texts(present@), 0),
{
    let ghost all = text::texts(paths@);
    let mut i: usize = 0;
    while i < paths.len()
        invariant
            i <= paths@.len(),
            all == text::texts(paths@),
            first_present(all, text::texts(present@), i as int) == first_present(all, text::texts(present@), 0),
        decreases paths@.len() - i,
    {
        assert(all[i as int] == paths@[i as int]@);
        if is_one_of(present, paths[i].as_str()) {
            return Some(copy(paths[i].as_str()));
        }
        i += 1;
    }
    None
}

/// The directory of a collection's own previews, if it is on disk.
pub open spec fn own_previews(
    places: Places,
    manifest_dir: Seq<char>,
    exe: Option<Seq<char>>,
    collection: Seq<char>,
    present: Seq<Seq<char>>,
) -> Option<Seq<char>> {
    let dev = below3(manifest_dir, "resources"@, "previews"@, collection);
    if present.contains(dev) {
        Some(dev)
    } else {
        first_present(preview_places(text::opt(places.resource_dir), exe, collection), present, 0)
    }
}

fn find_previews(
    places: &Places,
    manifest_dir: &str,
    exe: Option<&str>,
    collection: &str,
    present: &Vec<String>,
) -> (r: Option<String>)
    ensures
        text::opt(r) == own_previews(
            *places,
            manifest_dir@,
            text::opt_ref(exe),
            collection@,
            text::texts(present@),
        ),
{
    let dev = join3(manifest_dir, "resources", "previews", collection);
    if is_one_of(present, dev.as_str()) {
        return Some(dev);
    }
    let candidates = preview_candidates(places, exe, collection);
    find_present(&candidates, present)
}

/// The directory of a collection's previews: its own, or that of the collection that
/// it belongs to. `present` lists the paths that are on disk.
pub fn get_preview_dir(
    places: &Places,
    manifest_dir: &str,
    exe: Option<&str>,
    collection: &str,
    present: &Vec<String>,
) -> (r: Result<String, String>)
    ensures
        ({
            let on_disk = text::texts(present@);
            let base = crate::collections::base_of(collection@);
            let own = own_previews(*places, manifest_dir@, text::opt_ref(exe), collection@, on_disk);
            let shared = own_previews(*places, manifest_dir@, text::opt_ref(exe), base, on_disk);
            match r {
                Ok(dir) => if own is Some {
                    dir@ == text::swap_char(own->0, '\\', '/')
                } else {
                    shared is Some && dir@ == text::swap_char(shared->0, '\\', '/')
                },
                Err(message) => {
                    &&& own is None
                    &&& shared is None
                    &&& message@ == "Preview directory not found. Checked: "@ + text::join(
                        preview_places(text::opt(places.resource_dir), text::opt_ref(exe), base),
                        ", "@,
                    )
                },
            }
        }),
{
    if let Some(dir) = find_previews(places, manifest_dir, exe, collection, present) {
        return Ok(path_to_fwd_slash(dir.as_str()));
    }
    let base = match asset_fallback(collection) {
        Some(b) => b,
        None => collection,
    };
    if let Some(dir) = find_previews(places, manifest_dir, exe, base, present) {
        return Ok(path_to_fwd_slash(dir.as_str()));
    }
    let checked = preview_candidates(places, exe, base);
    Err(cat("Preview directory not found. Checked: ", join_texts(&checked, ", ").as_str()))
}

/// Where the posters of a collection lie.
pub open spec fn poster_place(data_dir: Seq<char>, collection: Seq<char>) -> Seq<char> {
    below3(data_dir, "content"@, "posters"@, collection)
}

/// The directory of a collection's posters: its own, or that of the collection that it
/// belongs to. `present` lists the paths that are on disk.
pub fn get_poster_dir(data_dir: &str, collection: &str, present: &Vec<String>) -> (r: Result<
    String,
    String,
>)
    ensures
        ({
            let own = poster_place(data_dir@, collection@);
            let shared = poster_place(data_dir@, crate::collections::base_of(collection@));
            match r {
                Ok(dir) => if text::texts(present@).contains(own) {
                    dir@ == text::swap_char(own, '\\', '/')
                } else {
                    text::texts(present@).contains(shared) && dir@ == text::swap_char(shared, '\\', '/')
                },
                Err(message) => {
                    &&& !text::texts(present@).contains(own)
                    &&& !text::texts(present@).contains(shared)
                    &&& message@ == "Poster directory not found"@
                },
            }
        }),
{
    let own = join3(data_dir, "content", "posters", collection);
    if is_one_of(present, own.as_str()) {
        return Ok(path_to_fwd_slash(own.as_str()));
    }
    if let Some(base) = asset_fallback(collection) {
        let shared = join3(data_dir, "content", "posters", base);
        if is_one_of(present, shared.as_str()) {
            return Ok(path_to_fwd_slash(shared.as_str()));
        }
    }
    Err(copy("Poster directory not found"))
}

// ── The gallery ──────────────────────────────────────────────────────────────

/// A name without the hyphen and digits that it ends in.
pub open spec fn without_suffix_number(stem: Seq<char>) -> Seq<char> {
    match text::rsplit_once(stem, '-') {
        Some((before, digits)) => if digits.len() > 0 && forall|i: int|
            0 <= i < digits.len() ==> text::is_digit(#[trigger] digits[i]) {
            before
        } else {
            stem
        },
        None => stem,
    }
}

/// A name without the hyphen and digits that it ends in, which number the images of a
/// game.
pub fn strip_trailing_suffix_num(stem: &str) -> (r: String)
    ensures
        r@ == without_suffix_number(stem@),
{
    let chars = chars_of(stem);
    if let Some((before, digits)) = rcut_once(chars.as_slice(), '-') {
        let mut all = true;
        let mut i: usize = 0;
        while i < digits.len()
            invariant
                i <= digits@.len(),
                all == (forall|k: int| 0 <= k < i ==> text::is_digit(#[trigger] digits@[k])),
            decreases digits@.len() - i,
        {
            all = all && is_digit_char(digits[i]);
            i += 1;
        }
        if digits.len() > 0 && all {
            return string_of(before);
        }
    }
    copy(stem)
}

/// A file is an image that can be shown.
pub open spec fn is_image(path: Seq<char>) -> bool {
    match crate::fspath::extension(path) {
        Some(ext) => {
            let e = text::lower(ext);
            e == "jpg"@ || e == "jpeg"@ || e == "png"@ || e == "webp"@ || e == "gif"@
        },
        None => false,
    }
}

/// Whether a file is an image that can be shown.
pub fn is_image_file(path: &str) -> (r: bool)
    ensures
        r == is_image(path@),
{
    match extension_of(path) {
        Some(ext) => {
            let e = to_lower(chars_of(ext.as_str()).as_slice());
            let s = e.as_slice();
            is_str(s, "jpg") || is_str(s, "jpeg") || is_str(s, "png") || is_str(s, "webp") || is_str(
                s,
                "gif",
            )
        },
        None => false,
    }
}

/// The name that an image is shown under. A name with dots in front cannot be shown,
/// so they go.
pub fn served_name(name: &str) -> (r: String)
    ensures
        r@ == text::strip_front(name@, '.'),
{
    string_of(drop_front(chars_of(name).as_slice(), '.'))
}

/// The categories of images, best art first.
pub fn image_category_order() -> (r: Vec<&'static str>)
    ensures
        text::strs(r@) == category_order(),
{
    let list = vec![
        "Box - 3D",
        "Box - Front",
        "Box - Back",
        "Box - Spine",
        "Cart - Front",
        "Cart - Back",
        "Disc",
        "Clear Logo",
        "Screenshot - Gameplay",
        "Screenshot - Title",
        "Screenshot - Game Title",
        "Screenshot - Game Select",
        "Screenshot - Game Over",
        "Screenshot - High Scores",
        "Fanart - Box - Front",
        "Fanart - Background",
        "Fanart - Disc",
        "Advertisement Flyer - Front",
        "Advertisement Flyer - Back",
        "Poster",
        "Banner",
        "Arcade - Marquee",
    ];
    assert(text::strs(list@) =~= category_order());
    list
}

/// The categories of images, best art first.
pub open spec fn category_order() -> Seq<Seq<char>> {
    seq![
        "Box - 3D"@,
        "Box - Front"@,
        "Box - Back"@,
        "Box - Spine"@,
        "Cart - Front"@,
        "Cart - Back"@,
        "Disc"@,
        "Clear Logo"@,
        "Screenshot - Gameplay"@,
        "Screenshot - Title"@,
        "Screenshot - Game Title"@,
        "Screenshot - Game Select"@,
        "Screenshot - Game Over"@,
        "Screenshot - High Scores"@,
        "Fanart - Box - Front"@,
        "Fanart - Background"@,
        "Fanart - Disc"@,
        "Advertisement Flyer - Front"@,
        "Advertisement Flyer - Back"@,
        "Poster"@,
        "Banner"@,
        "Arcade - Marquee"@,
    ]
}

/// The place of a category in the order, from `i` on. One that the order does not
/// know comes last.
pub open spec fn rank_from(category: Seq<char>, i: int) -> usize
    decreases category_order().len() - i,
{
    if i >= category_order().len() {
        usize::MAX
    } else if category_order()[i] == category {
        i as usize
    } else {
        rank_from(category, i + 1)
    }
}

/// The place of a category in the order of the gallery.
pub fn category_rank(category: &str) -> (r: usize)
    ensures
        r == rank_from(category@, 0),
{
    let list = image_category_order();
    let mut i: usize = 0;
    while i < list.len()
        invariant
            i <= list@.len(),
            text::strs(list@) == category_order(),
            rank_from(category@, i as int) == rank_from(category@, 0),
        decreases list@.len() - i,
    {
        assert(text::strs(list@)[i as int] == list@[i as int]@);
        if same(list[i], category) {
            return i;
        }
        i += 1;
    }
    assert(list@.len() == category_order().len());
    usize::MAX
}

/// A file below the images of a pack.
pub struct FoundImage {
    /// The directory of the category.
    pub category: String,
    /// How many directories below that the file lies.
    pub depth: usize,
    /// Its path, with forward slashes between the names.
    pub path: String,
    /// There is a file at the path that it is shown under.
    pub there: bool,
}

/// The path that an image is shown under. A name with dots in front cannot be shown, so
/// they go.
pub open spec fn shown_at(path: Seq<char>) -> Seq<char> {
    match (crate::fspath::file_name(path), crate::fspath::parent(path)) {
        (Some(name), Some(dir)) => if "."@.is_prefix_of(name) {
            crate::fspath::joined(dir, text::strip_front(name, '.'))
        } else {
            path
        },
        _ => path,
    }
}

/// The path that an image is shown under.
pub fn shown_path(path: &str) -> (r: String)
    ensures
        r@ == shown_at(path@),
{
    match (file_name_of(path), parent_of(path)) {
        (Some(name), Some(dir)) => if has_prefix(chars_of(name.as_str()).as_slice(), ".") {
            join_path(dir.as_str(), served_name(name.as_str()).as_str())
        } else {
            copy(path)
        },
        _ => copy(path),
    }
}

/// The form in which a picture's name is held against a game's title: the letters and
/// digits of its name, in small letters and without its number.
pub open spec fn picture_form(path: Seq<char>) -> Seq<char> {
    let stem = match crate::fspath::file_stem(path) {
        Some(s) => s,
        None => Seq::<char>::empty(),
    };
    crate::titles::alnum(text::small(without_suffix_number(stem)))
}

/// The form in which a picture's name is held against a game's title.
pub fn image_form(path: &str) -> (r: String)
    ensures
        r@ == picture_form(path@),
{
    let stem = match file_stem_of(path) {
        Some(s) => s,
        None => copy(""),
    };
    proof {
        reveal_strlit("");
    }
    assert(stem@ =~= match crate::fspath::file_stem(path@) {
        Some(s) => s,
        None => Seq::<char>::empty(),
    });
    let bare = strip_trailing_suffix_num(stem.as_str());
    normalize_alnum(bare.as_str())
}

/// An image belongs to a game.
pub open spec fn shows_game(image: FoundImage, normal: Seq<char>) -> bool {
    &&& image.depth <= 3
    &&& is_image(image.path@)
    &&& picture_form(image.path@) == normal
    &&& image.there
}

/// An image of the gallery: the place of its category, and its path.
pub struct ImageKey {
    pub rank: usize,
    pub path: String,
}

impl Ranked for ImageKey {
    open spec fn precedes(&self, other: &ImageKey) -> bool {
        image_before((self.rank, self.path@), (other.rank, other.path@))
    }

    proof fn law_ranking(a: &ImageKey, b: &ImageKey, c: &ImageKey) {
        crate::order::law_text_order(a.path@, b.path@, c.path@);
        crate::order::law_text_order(b.path@, c.path@, a.path@);
        crate::order::law_text_order(c.path@, b.path@, a.path@);
        crate::order::law_text_order(a.path@, c.path@, b.path@);
        crate::order::law_text_order(c.path@, a.path@, b.path@);
    }

    fn comes_before(&self, other: &ImageKey) -> (r: bool) {
        self.rank < other.rank || (self.rank == other.rank && is_before(
            self.path.as_str(),
            other.path.as_str(),
        ))
    }
}

/// An image of the gallery comes before another: by its category, then by its path.
pub open spec fn image_before(a: (usize, Seq<char>), b: (usize, Seq<char>)) -> bool {
    a.0 < b.0 || (a.0 == b.0 && crate::order::text_before(a.1, b.1))
}

/// The images of a game among the first `n` files.
pub open spec fn images_of(images: Seq<FoundImage>, normal: Seq<char>, n: int) -> Seq<
    (usize, Seq<char>),
>
    decreases n,
{
    if n <= 0 {
        Seq::<(usize, Seq<char>)>::empty()
    } else if shows_game(images[n - 1], normal) {
        images_of(images, normal, n - 1).push(
            (
                rank_from(images[n - 1].category@, 0),
                text::swap_char(shown_at(images[n - 1].path@), '\\', '/'),
            ),
        )
    } else {
        images_of(images, normal, n - 1)
    }
}

/// `order` lists the places of all images, each once, in the order of the gallery.
pub open spec fn orders_images(list: Seq<(usize, Seq<char>)>, order: Seq<usize>) -> bool {
    &&& order.len() == list.len()
    &&& forall|i: int| 0 <= i < order.len() ==> #[trigger] order[i] < list.len()
    &&& forall|k: usize| k < list.len() ==> #[trigger] order.contains(k)
    &&& forall|i: int, j: int|
        0 <= i < j < order.len() ==> !image_before(
            list[#[trigger] order[j] as int],
            list[#[trigger] order[i] as int],
        )
}

/// `paths` are the images of `list` in the order of the gallery.
pub open spec fn is_gallery(list: Seq<(usize, Seq<char>)>, paths: Seq<Seq<char>>) -> bool {
    exists|order: Seq<usize>| #[trigger]
        orders_images(list, order) && paths == Seq::new(
            order.len(),
            |i: int| list[order[i] as int].1,
        )
}

/// The images of the first pack, `i` or later, that has any of a game.
pub open spec fn first_images(
    packs: Seq<Vec<FoundImage>>,
    normal: Seq<char>,
    i: int,
) -> Seq<(usize, Seq<char>)>
    decreases packs.len() - i,
{
    if i >= packs.len() {
        Seq::<(usize, Seq<char>)>::empty()
    } else {
        let here = images_of(packs[i]@, normal, packs[i]@.len() as int);
        if here.len() > 0 {
            here
        } else {
            first_images(packs, normal, i + 1)
        }
    }
}

spec fn key_views(keys: Seq<ImageKey>) -> Seq<(usize, Seq<char>)> {
    Seq::new(keys.len(), |i: int| (keys[i].rank, keys[i].path@))
}

fn image_keys(images: &Vec<FoundImage>, normal: &str) -> (r: Vec<ImageKey>)
    ensures
        key_views(r@) == images_of(images@, normal@, images@.len() as int),
{
    let mut out: Vec<ImageKey> = Vec::new();
    let mut i: usize = 0;
    assert(key_views(out@) =~= images_of(images@, normal@, 0));
    while i < images.len()
        invariant
            i <= images@.len(),
            key_views(out@) == images_of(images@, normal@, i as int),
        decreases images@.len() - i,
    {
        let image = &images[i];
        let shows = image.there && image.depth <= 3 && is_image_file(image.path.as_str()) && same(
            image_form(image.path.as_str()).as_str(),
            normal,
        );
        if shows {
            let ghost done = key_views(out@);
            let key = ImageKey {
                rank: category_rank(image.category.as_str()),
                path: path_to_fwd_slash(shown_path(image.path.as_str()).as_str()),
            };
            let ghost view = (key.rank, key.path@);
            out.push(key);
            assert(key_views(out@) =~= done.push(view));
        }
        i += 1;
    }
    out
}

fn gallery_order(keys: &Vec<ImageKey>) -> (r: Vec<String>)
    ensures
        is_gallery(key_views(keys@), text::texts(r@)),
{
    let order = order_of(keys);
    let ghost list = key_views(keys@);
    let ghost wanted = Seq::new(order@.len(), |i: int| list[order@[i] as int].1);
    let mut out: Vec<String> = Vec::new();
    let mut i: usize = 0;
    while i < order.len()
        invariant
            i <= order@.len(),
            list == key_views(keys@),
            crate::order::is_order_of(keys@, order@),
            wanted == Seq::new(order@.len(), |k: int| list[order@[k] as int].1),
            text::texts(out@) == wanted.take(i as int),
        decreases order@.len() - i,
    {
        let ghost done = text::texts(out@);
        out.push(copy(keys[order[i]].path.as_str()));
        assert(text::texts(out@) =~= done.push(wanted[i as int]));
        i += 1;
        assert(text::texts(out@) =~= wanted.take(i as int));
    }
    assert(wanted.take(order@.len() as int) =~= wanted);
    proof {
        assert forall|a: int, b: int| 0 <= a < b < order@.len() implies !image_before(
            list[#[trigger] order@[b] as int],
            list[#[trigger] order@[a] as int],
        ) by {
            assert(crate::order::goes_before(keys@, order@[a] as int, order@[b] as int));
            ImageKey::law_ranking(
                &keys@[order@[a] as int],
                &keys@[order@[b] as int],
                &keys@[order@[a] as int],
            );
        }
        assert(orders_images(list, order@));
    }
    out
}

/// The gallery of a game with this title: its images in the first pack that has any, by
/// category and then by path. `packs` are the game's own pack and then the one that it may
/// borrow from.
pub fn gallery(packs: &Vec<Vec<FoundImage>>, title: &str) -> (r: Vec<String>)
    ensures
        is_gallery(
            first_images(packs@, crate::titles::alnum(text::small(title@)), 0),
            text::texts(r@),
        ),
{
    let form = normalize_alnum(title);
    let normal = form.as_str();
    let mut i: usize = 0;
    while i < packs.len()
        invariant
            i <= packs@.len(),
            normal@ == crate::titles::alnum(text::small(title@)),
            first_images(packs@, normal@, i as int) == first_images(packs@, normal@, 0),
        decreases packs@.len() - i,
    {
        let keys = image_keys(&packs[i], normal);
        assert(key_views(keys@).len() == keys@.len());
        if keys.len() > 0 {
            return gallery_order(&keys);
        }
        i += 1;
    }
    let none: Vec<ImageKey> = Vec::new();
    assert(key_views(none@) =~= Seq::<(usize, Seq<char>)>::empty());
    gallery_order(&none)
}

/// LaunchBox's name of a collection's platform, which its images are filed under.
pub fn platform_of(collection: &str) -> (r: &'static str)
    ensures
        r@ == (match crate::collections::def_of(collection@) {
            Some(c) => c.platform,
            None => "MS-DOS"@,
        }),
{
    match collection_def(collection) {
        Some(c) => c.platform,
        None => "MS-DOS",
    }
}

/// The directories of a collection's images: its own, and then those of the collection
/// that it belongs to.
pub fn image_roots(data_dir: &str, collection: &str) -> (r: Vec<String>)
    ensures
        text::texts(r@) == image_places(data_dir@, collection@),
{
    let platform = platform_of(collection);
    let own = join3(data_dir, "content", "metadata", collection);
    let mut out: Vec<String> = Vec::new();
    out.push(join_path(join_path(own.as_str(), "Images").as_str(), platform));
    if let Some(base) = asset_fallback(collection) {
        let shared = join3(data_dir, "content", "metadata", base);
        out.push(join_path(join_path(shared.as_str(), "Images").as_str(), platform));
    }
    assert(text::texts(out@) =~= image_places(data_dir@, collection@));
    out
}

/// The directory of a collection's images in a pack.
pub open spec fn image_place(data_dir: Seq<char>, pack: Seq<char>, platform: Seq<char>) -> Seq<char> {
    crate::fspath::joined(
        crate::fspath::joined(below3(data_dir, "content"@, "metadata"@, pack), "Images"@),
        platform,
    )
}

/// The directories of a collection's images.
pub open spec fn image_places(data_dir: Seq<char>, collection: Seq<char>) -> Seq<Seq<char>> {
    let platform = match crate::collections::def_of(collection) {
        Some(c) => c.platform,
        None => "MS-DOS"@,
    };
    let base = crate::collections::base_of(collection);
    seq![image_place(data_dir, collection, platform)] + (if base != collection {
        seq![image_place(data_dir, base, platform)]
    } else {
        Seq::<Seq<char>>::empty()
    })
}

// ── Thumbnails ───────────────────────────────────────────────────────────────

/// Where thumbnails are kept.
pub fn gallery_cache_dir(data_dir: &str) -> (r: String)
    ensures
        r@ == crate::fspath::joined(crate::fspath::joined(data_dir@, "content"@), "thumbcache"@),
{
    join_path(join_path(data_dir, "content").as_str(), "thumbcache")
}

/// What the name of a thumbnail is made from: the path of the image, its length and
/// when it was last written.
pub open spec fn thumbnail_source(path: Seq<char>, len: u64, mtime: u64) -> Seq<u8> {
    vstd::utf8::encode_utf8(path) + le_bytes(len) + le_bytes(mtime)
}

/// A number in eight bytes, the lowest first.
pub open spec fn le_bytes(n: u64) -> Seq<u8> {
    Seq::new(8, |i: int| byte_at(n, i))
}

/// The byte of a number at a place, from the lowest on.
pub open spec fn byte_at(n: u64, i: int) -> u8
    decreases i,
{
    if i <= 0 {
        (n % 256) as u8
    } else {
        byte_at(n / 256, i - 1)
    }
}

fn push_le_bytes(out: &mut Vec<u8>, n: u64)
    ensures
        final(out)@ == old(out)@ + le_bytes(n),
{
    let ghost before = out@;
    let mut rest: u64 = n;
    let mut i: usize = 0;
    assert(out@ =~= before + le_bytes(n).take(0));
    while i < 8
        invariant
            i <= 8,
            out@ == before + le_bytes(n).take(i as int),
            forall|k: int| 0 <= k ==> #[trigger] byte_at(rest, k) == byte_at(n, k + i),
        decreases 8 - i,
    {
        assert(byte_at(rest, 0) == byte_at(n, i as int));
        out.push((rest % 256) as u8);
        assert(out@ =~= before + le_bytes(n).take(i + 1));
        assert forall|k: int| 0 <= k implies #[trigger] byte_at(rest / 256, k) == byte_at(
            n,
            k + i + 1,
        ) by {
            assert(byte_at(rest, k + 1) == byte_at(rest / 256, k));
            assert(byte_at(rest, k + 1) == byte_at(n, k + 1 + i));
        }
        rest = rest / 256;
        i += 1;
    }
    assert(le_bytes(n).take(8) =~= le_bytes(n));
}

/// The name that a digest stands for: its first twelve bytes in hexadecimal.
pub fn thumbnail_name(digest: &Vec<u8>) -> (r: String)
    requires
        digest@.len() >= 12,
    ensures
        r@ == crate::outside::hex(digest@.take(12)) + ".jpg"@,
        r@.len() == 28,
{
    proof {
        reveal_strlit(".jpg");
    }
    cat(hex_of(digest.as_slice(), 12).as_str(), ".jpg")
}

/// The name of an image's thumbnail. An image that was changed gets another one.
pub fn gallery_cache_name(path: &str, len: u64, mtime: u64) -> (r: String)
    ensures
        r@ == crate::outside::hex(
            crate::outside::sha256_of(thumbnail_source(path@, len, mtime)).take(12),
        ) + ".jpg"@,
        r@.len() == 28,
{
    let mut bytes: Vec<u8> = Vec::new();
    bytes.extend_from_slice(path.as_bytes());
    assert(bytes@ =~= vstd::utf8::encode_utf8(path@));
    push_le_bytes(&mut bytes, len);
    push_le_bytes(&mut bytes, mtime);
    let digest = sha256(bytes.as_slice());
    thumbnail_name(&digest)
}

/// Looks at the cache of thumbnails. Every file in it can go: what is half written
/// goes too.
pub fn prune_gallery_cache(files: Vec<CacheFile>, max_bytes: u64) -> (r: Pruner)
    ensures
        r.wf(),
        r.files@ == files@,
        r.freed == 0,
        r.target == crate::cache::target_of(max_bytes),
        r.total <= max_bytes ==> r.next == r.order@.len(),
        r.total > max_bytes ==> r.next == 0,
{
    Pruner::begin(files, max_bytes)
}

/// Looks at the cache of thumbnails as the program starts.
pub fn prune_gallery_cache_at_startup(files: Vec<CacheFile>) -> (r: Pruner)
    ensures
        r.wf(),
        r.files@ == files@,
        r.freed == 0,
        r.target == crate::cache::target_of(GALLERY_CACHE_MAX_BYTES),
        r.total <= GALLERY_CACHE_MAX_BYTES ==> r.next == r.order@.len(),
        r.total > GALLERY_CACHE_MAX_BYTES ==> r.next == 0,
{
    prune_gallery_cache(files, GALLERY_CACHE_MAX_BYTES)
}

// ── A game's metadata ────────────────────────────────────────────────────────

/// A game's gallery and its manual.
pub struct GameMetadata {
    pub manual_path: Option<String>,
    pub manual_kind: Option<String>,
    pub images: Vec<String>,
    /// A small copy of each image, or the image itself.
    pub thumbnails: Vec<String>,
}

/// What stands for an image in the strip.
pub open spec fn strip_image(image: Seq<char>, thumb: Option<Seq<char>>) -> Seq<char> {
    match thumb {
        Some(path) => text::swap_char(path, '\\', '/'),
        None => image,
    }
}

/// Puts a game's metadata together. `thumbs` holds for each image its thumbnail, where
/// one could be made; otherwise the image stands for itself.
pub fn game_metadata(images: Vec<String>, thumbs: &Vec<Option<String>>, manual: Option<&str>) -> (r:
    GameMetadata)
    requires
        thumbs@.len() == images@.len(),
    ensures
        r.images@ == images@,
        r.thumbnails@.len() == images@.len(),
        forall|i: int|
            0 <= i < images@.len() ==> (#[trigger] r.thumbnails@[i])@ == strip_image(
                images@[i]@,
                text::opt(thumbs@[i]),
            ),
        match manual {
            Some(path) => {
                &&& text::opt(r.manual_path) == Some(text::swap_char(path@, '\\', '/'))
                &&& text::opt(r.manual_kind) == Some(kind_of_manual(path@))
            },
            None => r.manual_path is None && r.manual_kind is None,
        },
{
    let mut thumbnails: Vec<String> = Vec::new();
    let mut i: usize = 0;
    while i < images.len()
        invariant
            i <= images@.len(),
            thumbs@.len() == images@.len(),
            thumbnails@.len() == i,
            forall|k: int|
                0 <= k < i ==> (#[trigger] thumbnails@[k])@ == strip_image(
                    images@[k]@,
                    text::opt(thumbs@[k]),
                ),
        decreases images@.len() - i,
    {
        let shown = match &thumbs[i] {
            Some(path) => path_to_fwd_slash(path.as_str()),
            None => copy(images[i].as_str()),
        };
        thumbnails.push(shown);
        i += 1;
    }
    let (manual_path, manual_kind) = match manual {
        Some(path) => (
            Some(path_to_fwd_slash(path)),
            Some(copy(manual_kind_from_path(path))),
        ),
        None => (None, None),
    };
    GameMetadata { manual_path, manual_kind, images, thumbnails }
}

// ── Manuals ──────────────────────────────────────────────────────────────────

/// What a manual is shown as.
pub open spec fn kind_of_manual(path: Seq<char>) -> Seq<char> {
    let ext = match crate::fspath::extension(path) {
        Some(e) => text::lower(e),
        None => Seq::<char>::empty(),
    };
    if ext == "txt"@ || ext == "text"@ {
        "txt"@
    } else if ext == "html"@ || ext == "htm"@ {
        "html"@
    } else {
        "pdf"@
    }
}

/// What a manual is shown as.
pub fn manual_kind_from_path(path: &str) -> (r: &'static str)
    ensures
        r@ == kind_of_manual(path@),
{
    let ext = match extension_of(path) {
        Some(e) => to_lower(chars_of(e.as_str()).as_slice()),
        None => {
            let none: Vec<char> = Vec::new();
            assert(none@ =~= Seq::<char>::empty());
            none
        },
    };
    if is_str(ext.as_slice(), "txt") || is_str(ext.as_slice(), "text") {
        "txt"
    } else if is_str(ext.as_slice(), "html") || is_str(ext.as_slice(), "htm") {
        "html"
    } else {
        "pdf"
    }
}

/// Where a manual may lie: in the game root, in the collection's pack, and in the pack
/// of the collection that it belongs to.
pub open spec fn manual_places(
    root: Seq<char>,
    data_dir: Seq<char>,
    collection: Seq<char>,
    manual_path: Seq<char>,
) -> Seq<Seq<char>> {
    let rel = text::swap_char(manual_path, '\\', '/');
    let base = crate::collections::base_of(collection);
    seq![
        crate::fspath::joined(root, rel),
        crate::fspath::joined(below3(data_dir, "content"@, "metadata"@, collection), rel),
    ] + (if base != collection {
        seq![crate::fspath::joined(below3(data_dir, "content"@, "metadata"@, base), rel)]
    } else {
        Seq::<Seq<char>>::empty()
    })
}

/// The manual of a game that is on disk. `files` lists the files that are there.
pub fn find_manual(
    root: &str,
    data_dir: &str,
    collection: &str,
    manual_path: &str,
    files: &Vec<String>,
) -> (r: Option<String>)
    ensures
        text::opt(r) == first_present(
            manual_places(root@, data_dir@, collection@, manual_path@),
            text::texts(files@),
            0,
        ),
{
    let rel = path_to_fwd_slash(manual_path);
    let own = join3(data_dir, "content", "metadata", collection);
    let mut list: Vec<String> = Vec::new();
    list.push(join_path(root, rel.as_str()));
    list.push(join_path(own.as_str(), rel.as_str()));
    if let Some(base) = asset_fallback(collection) {
        let shared = join3(data_dir, "content", "metadata", base);
        list.push(join_path(shared.as_str(), rel.as_str()));
    }
    assert(text::texts(list@) =~= manual_places(root@, data_dir@, collection@, manual_path@));
    find_present(&list, files)
}

/// The directory of the archives that hold a collection's extras. The language packs
/// share that of their base.
pub fn extras_dir(root: &str, collection: &str) -> (r: String)
    ensures
        r@ == below3(
            root@,
            "Content"@,
            "GameData"@,
            if "eXoDOS"@.is_prefix_of(collection@) {
                "eXoDOS"@
            } else {
                collection@
            },
        ),
{
    if has_prefix(chars_of(collection).as_slice(), "eXoDOS") {
        join3(root, "Content", "GameData", "eXoDOS")
    } else {
        join3(root, "Content", "GameData", collection)
    }
}

/// The name of the archive that holds a manual.
pub fn extras_zip_name(manual_rel: &str) -> (r: Result<String, String>)
    ensures
        match r {
            Ok(name) => crate::fspath::file_stem(manual_rel@) is Some && name@
                == crate::fspath::file_stem(manual_rel@)->0 + ".zip"@,
            Err(message) => crate::fspath::file_stem(manual_rel@) is None && message@
                == "Cannot parse manual filename"@,
        },
{
    match file_stem_of(manual_rel) {
        Some(stem) => Ok(cat(stem.as_str(), ".zip")),
        None => Err(copy("Cannot parse manual filename")),
    }
}

/// The first name, `i` or later, that is this one in small letters.
pub open spec fn lowered_from(names: Seq<Seq<char>>, lowered: Seq<char>, i: int) -> Option<Seq<char>>
    decreases names.len() - i,
{
    if i >= names.len() {
        None
    } else if text::small(names[i]) == lowered {
        Some(names[i])
    } else {
        lowered_from(names, lowered, i + 1)
    }
}

/// The archive among the names of a directory: the very name where that is a file, and
/// else the first that differs in capitals alone.
pub fn find_extras_zip(names: &Vec<String>, zip_name: &str, exact_there: bool) -> (r: Option<String>)
    ensures
        text::opt(r) == if exact_there {
            Some(zip_name@)
        } else {
            lowered_from(text::texts(names@), text::small(zip_name@), 0)
        },
{
    if exact_there {
        return Some(copy(zip_name));
    }
    let wanted = to_small(zip_name);
    let ghost all = text::texts(names@);
    let mut i: usize = 0;
    while i < names.len()
        invariant
            i <= names@.len(),
            all == text::texts(names@),
            !exact_there,
            wanted@ == text::small(zip_name@),
            lowered_from(all, wanted@, i as int) == lowered_from(all, wanted@, 0),
        decreases names@.len() - i,
    {
        assert(all[i as int] == names@[i as int]@);
        if same(to_small(names[i].as_str()).as_str(), wanted.as_str()) {
            return Some(copy(names[i].as_str()));
        }
        i += 1;
    }
    None
}

/// An entry of an archive is a manual: it lies in the directory of the manuals, and is
/// no directory. `lowered` is its name in small letters.
pub open spec fn is_manual(lowered: Seq<char>, name: Seq<char>) -> bool {
    "manuals/"@.is_prefix_of(lowered) && !"/"@.is_suffix_of(name)
}

/// Whether an entry of an archive is a manual. `lowered` is its name in small letters.
pub fn is_manual_entry(lowered: &str, name: &str) -> (r: bool)
    ensures
        r == is_manual(lowered@, name@),
{
    has_prefix(chars_of(lowered).as_slice(), "manuals/") && !has_suffix(
        chars_of(name).as_slice(),
        "/",
    )
}

/// The first manual, at `i` or later.
pub open spec fn manual_from(names: Seq<Seq<char>>, i: int) -> Option<Seq<char>>
    decreases names.len() - i,
{
    if i >= names.len() {
        None
    } else if is_manual(text::small(names[i]), names[i]) {
        Some(names[i])
    } else {
        manual_from(names, i + 1)
    }
}

/// The manual among the entries of an archive.
pub fn find_manual_entry(names: &Vec<String>) -> (r: Option<String>)
    ensures
        text::opt(r) == manual_from(text::texts(names@), 0),
{
    let ghost all = text::texts(names@);
    let mut i: usize = 0;
    while i < names.len()
        invariant
            i <= names@.len(),
            all == text::texts(names@),
            manual_from(all, i as int) == manual_from(all, 0),
        decreases names@.len() - i,
    {
        assert(all[i as int] == names@[i as int]@);
        let lowered = to_small(names[i].as_str());
        if is_manual_entry(lowered.as_str(), names[i].as_str()) {
            return Some(copy(names[i].as_str()));
        }
        i += 1;
    }
    None
}

// ── Laws ─────────────────────────────────────────────────────────────────────

/// The images of a better category come first.
pub proof fn law_better_art_comes_first(
    list: Seq<(usize, Seq<char>)>,
    order: Seq<usize>,
    i: int,
    j: int,
)
    requires
        orders_images(list, order),
        0 <= i < j < order.len(),
    ensures
        list[order[i] as int].0 <= list[order[j] as int].0,
{
    assert(!image_before(list[order[j] as int], list[order[i] as int]));
}

/// The numbered images of a game are told from those of another whose title merely
/// begins alike: only the number behind the last hyphen goes.
pub proof fn law_numbers_are_stripped(title: Seq<char>, number: nat)
    ensures
        without_suffix_number(title + "-"@ + text::decimal(number)) == title,
{
    reveal_strlit("-");
    let digits = text::decimal(number);
    text::lemma_decimal_digits(number);
    lemma_last_hyphen(title, digits);
    let s = title + "-"@ + digits;
    assert(s.take(title.len() as int) =~= title);
    assert(s.skip((title.len() + 1) as int) =~= digits);
}

proof fn lemma_last_hyphen(title: Seq<char>, digits: Seq<char>)
    requires
        forall|i: int| 0 <= i < digits.len() ==> text::is_digit(#[trigger] digits[i]),
    ensures
        text::last_char(title + "-"@ + digits, '-') == Some(title.len() as int),
    decreases digits.len(),
{
    reveal_strlit("-");
    let s = title + "-"@ + digits;
    if digits.len() > 0 {
        let shorter = digits.drop_last();
        assert(s.drop_last() =~= title + "-"@ + shorter);
        assert(s.last() == digits.last());
        assert(text::is_digit(digits[digits.len() - 1]));
        assert forall|i: int| 0 <= i < shorter.len() implies text::is_digit(#[trigger] shorter[i]) by {
            assert(shorter[i] == digits[i]);
        }
        lemma_last_hyphen(title, shorter);
    } else {
        assert(s.last() == '-');
        assert(s.len() == title.len() + 1);
    }
}

/// A picture whose length or date has changed is looked for under another digest: what
/// goes into the digest differs.
pub proof fn law_changed_pictures_are_told_apart(
    path: Seq<char>,
    len: u64,
    mtime: u64,
    other_len: u64,
    other_mtime: u64,
)
    requires
        (len, mtime) != (other_len, other_mtime),
    ensures
        thumbnail_source(path, len, mtime) != thumbnail_source(path, other_len, other_mtime),
{
    let name = vstd::utf8::encode_utf8(path);
    let a = thumbnail_source(path, len, mtime);
    let b = thumbnail_source(path, other_len, other_mtime);
    if a == b {
        let n = name.len() as int;
        assert(a.subrange(n, n + 8) =~= le_bytes(len));
        assert(b.subrange(n, n + 8) =~= le_bytes(other_len));
        assert(a.subrange(n + 8, n + 16) =~= le_bytes(mtime));
        assert(b.subrange(n + 8, n + 16) =~= le_bytes(other_mtime));
        lemma_le_bytes(len, other_len);
        lemma_le_bytes(mtime, other_mtime);
    }
}

proof fn lemma_le_bytes(a: u64, b: u64)
    requires
        le_bytes(a) == le_bytes(b),
    ensures
        a == b,
{
    assert forall|i: int| 0 <= i < 8 implies byte_at(a, i) == byte_at(b, i) by {
        assert(le_bytes(a)[i] == byte_at(a, i));
        assert(le_bytes(b)[i] == byte_at(b, i));
    }
    lemma_low_bytes(a, b, 8);
}

/// Numbers of at most `n` bytes that have the same ones are the same.
proof fn lemma_low_bytes(a: u64, b: u64, n: int)
    requires
        0 <= n <= 8,
        n < 8 ==> a < vstd::arithmetic::power::pow(256, n as nat),
        n < 8 ==> b < vstd::arithmetic::power::pow(256, n as nat),
        forall|i: int| 0 <= i < n ==> #[trigger] byte_at(a, i) == byte_at(b, i),
    ensures
        a == b,
    decreases n,
{
    if n > 0 {
        assert(byte_at(a, 0) == byte_at(b, 0));
        assert forall|i: int| 0 <= i < n - 1 implies #[trigger] byte_at(a / 256, i) == byte_at(
            b / 256,
            i,
        ) by {
            assert(byte_at(a, i + 1) == byte_at(b, i + 1));
        }
        vstd::arithmetic::power::lemma_pow_positive(256, (n - 1) as nat);
        reveal(vstd::arithmetic::power::pow);
        if n < 8 {
            assert(vstd::arithmetic::power::pow(256, n as nat) == 256
                * vstd::arithmetic::power::pow(256, (n - 1) as nat));
        } else {
            reveal_with_fuel(vstd::arithmetic::power::pow, 8);
            assert(vstd::arithmetic::power::pow(256, 7) == 72057594037927936);
        }
        lemma_low_bytes(a / 256, b / 256, n - 1);
    } else {
        reveal(vstd::arithmetic::power::pow);
    }
}

/// The first path that is on disk is taken, and one that is on disk is never passed over.
pub proof fn law_the_first_path_on_disk_is_taken(
    paths: Seq<Seq<char>>,
    present: Seq<Seq<char>>,
    k: int,
)
    requires
        0 <= k < paths.len(),
        present.contains(paths[k]),
        forall|i: int| 0 <= i < k ==> !present.contains(#[trigger] paths[i]),
    ensures
        first_present(paths, present, 0) == Some(paths[k]),
{
    lemma_first_present(paths, present, 0, k);
}

proof fn lemma_first_present(paths: Seq<Seq<char>>, present: Seq<Seq<char>>, i: int, k: int)
    requires
        0 <= i <= k < paths.len(),
        present.contains(paths[k]),
        forall|j: int| i <= j < k ==> !present.contains(#[trigger] paths[j]),
    ensures
        first_present(paths, present, i) == Some(paths[k]),
    decreases k - i,
{
    if i < k {
        assert(!present.contains(paths[i]));
        lemma_first_present(paths, present, i + 1, k);
    }
}

/// A manual is looked for in the game root, then in the collection's own pack.
pub proof fn law_a_manual_in_the_game_root_goes_first(
    root: Seq<char>,
    data_dir: Seq<char>,
    collection: Seq<char>,
    manual_path: Seq<char>,
    files: Seq<Seq<char>>,
)
    ensures
        ({
            let rel = text::swap_char(manual_path, '\\', '/');
            let in_root = crate::fspath::joined(root, rel);
            let content = crate::fspath::joined(data_dir, "content"@);
            let metadata = crate::fspath::joined(content, "metadata"@);
            let own = crate::fspath::joined(crate::fspath::joined(metadata, collection), rel);
            let found = first_present(
                manual_places(root, data_dir, collection, manual_path),
                files,
                0,
            );
            &&& files.contains(in_root) ==> found == Some(in_root)
            &&& files.contains(own) && !files.contains(in_root) ==> found == Some(own)
        }),
{
    reveal_with_fuel(first_present, 3);
}

/// A manual that only the English pack has is found for a language pack.
pub proof fn law_language_packs_read_the_english_manual(
    root: Seq<char>,
    data_dir: Seq<char>,
    collection: Seq<char>,
    manual_path: Seq<char>,
    files: Seq<Seq<char>>,
)
    requires
        collection == "eXoDOS_GLP"@ || collection == "eXoDOS_PLP"@ || collection == "eXoDOS_SLP"@,
    ensures
        ({
            let rel = text::swap_char(manual_path, '\\', '/');
            let in_root = crate::fspath::joined(root, rel);
            let content = crate::fspath::joined(data_dir, "content"@);
            let metadata = crate::fspath::joined(content, "metadata"@);
            let own = crate::fspath::joined(crate::fspath::joined(metadata, collection), rel);
            let english = crate::fspath::joined(crate::fspath::joined(metadata, "eXoDOS"@), rel);
            files.contains(english) && !files.contains(in_root) && !files.contains(own)
                ==> first_present(manual_places(root, data_dir, collection, manual_path), files, 0)
                == Some(english)
        }),
{
    crate::collections::law_the_language_packs_share_the_dos_games();
    reveal_strlit("eXoDOS");
    reveal_strlit("eXoDOS_GLP");
    reveal_strlit("eXoDOS_PLP");
    reveal_strlit("eXoDOS_SLP");
    assert(collection.len() != "eXoDOS"@.len());
    reveal_with_fuel(first_present, 4);
}

/// A manual is shown by its extension, whatever its capitals: text as text, a page as a page,
/// and everything else as a PDF.
pub proof fn law_how_a_manual_is_shown(path: Seq<char>)
    ensures
        crate::fspath::extension(path) is None ==> kind_of_manual(path) == "pdf"@,
        crate::fspath::extension(path) matches Some(e) ==> {
            &&& text::lower(e) == "txt"@ || text::lower(e) == "text"@ ==> kind_of_manual(path)
                == "txt"@
            &&& text::lower(e) == "html"@ || text::lower(e) == "htm"@ ==> kind_of_manual(path)
                == "html"@
            &&& text::lower(e) != "txt"@ && text::lower(e) != "text"@ && text::lower(e) != "html"@
                && text::lower(e) != "htm"@ ==> kind_of_manual(path) == "pdf"@
        },
{
    reveal_strlit("txt");
    reveal_strlit("text");
    reveal_strlit("html");
    reveal_strlit("htm");
    assert("htm"@[0] == 'h' && "html"@[0] == 'h' && "txt"@[0] == 't' && "text"@[0] == 't');
    assert(Seq::<char>::empty().len() == 0);
}

/// An archive of extras is found whatever its capitals, and the first such name is taken.
pub proof fn law_an_archive_is_found_in_any_capitals(
    names: Seq<Seq<char>>,
    wanted: Seq<char>,
    from: int,
    k: int,
)
    requires
        0 <= from <= k < names.len(),
        text::small(names[k]) == text::small(wanted),
        forall|i: int| from <= i < k ==> text::small(#[trigger] names[i]) != text::small(wanted),
    ensures
        lowered_from(names, text::small(wanted), from) == Some(names[k]),
    decreases k - from,
{
    if from < k {
        assert(text::small(names[from]) != text::small(wanted));
        law_an_archive_is_found_in_any_capitals(names, wanted, from + 1, k);
    }
}

/// The manual of an archive is its first file below `Manuals`, whatever the capitals; a
/// directory is none.
pub proof fn law_the_first_file_below_manuals_is_the_manual(
    names: Seq<Seq<char>>,
    from: int,
    k: int,
)
    requires
        0 <= from <= k < names.len(),
        "manuals/"@.is_prefix_of(text::small(names[k])),
        names[k].last() != '/',
        forall|i: int|
            from <= i < k ==> !"manuals/"@.is_prefix_of(text::small(#[trigger] names[i]))
                || names[i].len() > 0 && names[i].last() == '/',
    ensures
        manual_from(names, from) == Some(names[k]),
    decreases k - from,
{
    reveal_strlit("/");
    if from < k {
        let name = names[from];
        if name.len() > 0 && name.last() == '/' {
            assert(name.skip(name.len() - 1) =~= "/"@);
            assert("/"@.is_suffix_of(name)) by {
                assert(name.subrange(name.len() - 1, name.len() as int) =~= "/"@);
            }
        }
        law_the_first_file_below_manuals_is_the_manual(names, from + 1, k);
    } else if "/"@.is_suffix_of(names[k]) {
        let name = names[k];
        assert("/"@[0] == name[name.len() - 1]) by {
            assert(name.subrange(name.len() - 1, name.len() as int)[0] == name[name.len() - 1]);
        }
    }
}

/// The previews beside the sources go first, then those of the resources, then those beside the
/// program.
pub proof fn law_which_previews_are_shown(
    places: Places,
    manifest_dir: Seq<char>,
    exe: Option<Seq<char>>,
    collection: Seq<char>,
    present: Seq<Seq<char>>,
)
    ensures
        ({
            let own = own_previews(places, manifest_dir, exe, collection, present);
            let sources = crate::fspath::joined(
                crate::fspath::joined(crate::fspath::joined(manifest_dir, "resources"@), "previews"@),
                collection,
            );
            &&& present.contains(sources) ==> own == Some(sources)
            &&& !present.contains(sources) ==> (text::opt(places.resource_dir) matches Some(dir)
                ==> {
                let bundled = crate::fspath::joined(
                    crate::fspath::joined(dir, "previews"@),
                    collection,
                );
                present.contains(bundled) ==> own == Some(bundled)
            })
            &&& !present.contains(sources) && places.resource_dir is None ==> (match exe {
                Some(path) => match crate::fspath::parent(path) {
                    Some(dir) => {
                        let beside = crate::fspath::joined(
                            crate::fspath::joined(dir, "previews"@),
                            collection,
                        );
                        present.contains(beside) ==> own == Some(beside)
                    },
                    None => own is None,
                },
                None => own is None,
            })
        }),
{
    let paths = preview_places(text::opt(places.resource_dir), exe, collection);
    if text::opt(places.resource_dir) is Some {
        assert(paths[0] == crate::fspath::joined(
            crate::fspath::joined(text::opt(places.resource_dir)->0, "previews"@),
            collection,
        ));
    }
    if places.resource_dir is None {
        assert(paths =~= around_program(exe, collection));
    }
}

/// A file that can be shown.
pub open spec fn can_be_shown(path: Seq<char>) -> bool {
    match crate::fspath::extension(path) {
        Some(e) => text::lower(e) == "jpg"@ || text::lower(e) == "jpeg"@ || text::lower(e) == "png"@
            || text::lower(e) == "webp"@ || text::lower(e) == "gif"@,
        None => false,
    }
}

/// A path is that of one of the first `n` pictures, which is there, can be shown, lies no deeper
/// than three directories and bears the game's name.
pub open spec fn is_one_of_its_pictures(
    images: Seq<FoundImage>,
    normal: Seq<char>,
    n: int,
    shown: Seq<char>,
) -> bool {
    exists|j: int|
        0 <= j < n && (#[trigger] images[j]).there && images[j].depth <= 3 && can_be_shown(
            images[j].path@,
        ) && picture_form(images[j].path@) == normal && shown == text::swap_char(
            shown_at(images[j].path@),
            '\\',
            '/',
        )
}

/// Every picture of a game is in its gallery that is there, can be shown, lies no deeper than
/// three directories and bears the game's name; and the gallery has no other.
pub proof fn law_the_gallery_has_every_picture_of_the_game(
    images: Seq<FoundImage>,
    normal: Seq<char>,
    n: int,
    k: int,
)
    requires
        0 <= k < n <= images.len(),
    ensures
        images[k].there && images[k].depth <= 3 && can_be_shown(images[k].path@) && picture_form(
            images[k].path@,
        ) == normal ==> images_of(images, normal, n).contains(
            (
                rank_from(images[k].category@, 0),
                text::swap_char(shown_at(images[k].path@), '\\', '/'),
            ),
        ),
        forall|i: int|
            0 <= i < images_of(images, normal, n).len() ==> is_one_of_its_pictures(
                images,
                normal,
                n,
                (#[trigger] images_of(images, normal, n)[i]).1,
            ),
    decreases n,
{
    let now = images_of(images, normal, n);
    let before = images_of(images, normal, n - 1);
    let last = images[n - 1];
    assert(is_image(last.path@) == can_be_shown(last.path@));
    assert(is_image(images[k].path@) == can_be_shown(images[k].path@));
    if n - 1 > 0 {
        law_the_gallery_has_every_picture_of_the_game(
            images,
            normal,
            n - 1,
            if k < n - 1 {
                k
            } else {
                0
            },
        );
    }
    let entry = (
        rank_from(images[k].category@, 0),
        text::swap_char(shown_at(images[k].path@), '\\', '/'),
    );
    if k < n - 1 && before.contains(entry) {
        let w = choose|w: int| 0 <= w < before.len() && before[w] == entry;
        assert(now[w] == entry);
    }
    if k == n - 1 && shows_game(last, normal) {
        assert(now[now.len() - 1] == entry);
    }
    assert forall|i: int| 0 <= i < now.len() implies is_one_of_its_pictures(
        images,
        normal,
        n,
        (#[trigger] now[i]).1,
    ) by {
        if i < before.len() {
            assert(now[i] == before[i]);
            assert(is_one_of_its_pictures(images, normal, n - 1, before[i].1));
            let j = choose|j: int|
                0 <= j < n - 1 && (#[trigger] images[j]).there && images[j].depth <= 3
                    && can_be_shown(images[j].path@) && picture_form(images[j].path@) == normal
                    && before[i].1 == text::swap_char(shown_at(images[j].path@), '\\', '/');
            assert(images[j].there);
        } else {
            assert(images[n - 1].there);
        }
    }
}

/// What tells the categories apart: their lengths and some of their characters.
spec fn marks_of(category: Seq<char>) -> (nat, char, char, char) {
    (category.len(), category[0], category[6], category[13])
}

/// The art of the box goes first, then what else was in it, the screens, the fan art, the
/// advertisements and the rest. What the order does not know comes last.
pub proof fn law_boxes_go_before_screens(category: Seq<char>)
    ensures
        category == "Box - 3D"@ ==> rank_from(category, 0) == 0,
        category == "Box - Front"@ ==> rank_from(category, 0) == 1,
        category == "Box - Back"@ ==> rank_from(category, 0) == 2,
        category == "Box - Spine"@ ==> rank_from(category, 0) == 3,
        category == "Cart - Front"@ ==> rank_from(category, 0) == 4,
        category == "Cart - Back"@ ==> rank_from(category, 0) == 5,
        category == "Disc"@ ==> rank_from(category, 0) == 6,
        category == "Clear Logo"@ ==> rank_from(category, 0) == 7,
        category == "Screenshot - Gameplay"@ ==> rank_from(category, 0) == 8,
        category == "Screenshot - Title"@ ==> rank_from(category, 0) == 9,
        category == "Screenshot - Game Title"@ ==> rank_from(category, 0) == 10,
        category == "Screenshot - Game Select"@ ==> rank_from(category, 0) == 11,
        category == "Screenshot - Game Over"@ ==> rank_from(category, 0) == 12,
        category == "Screenshot - High Scores"@ ==> rank_from(category, 0) == 13,
        category == "Fanart - Box - Front"@ ==> rank_from(category, 0) == 14,
        category == "Fanart - Background"@ ==> rank_from(category, 0) == 15,
        category == "Fanart - Disc"@ ==> rank_from(category, 0) == 16,
        category == "Advertisement Flyer - Front"@ ==> rank_from(category, 0) == 17,
        category == "Advertisement Flyer - Back"@ ==> rank_from(category, 0) == 18,
        category == "Poster"@ ==> rank_from(category, 0) == 19,
        category == "Banner"@ ==> rank_from(category, 0) == 20,
        category == "Arcade - Marquee"@ ==> rank_from(category, 0) == 21,
        ({
            &&& category != "Box - 3D"@
            &&& category != "Box - Front"@
            &&& category != "Box - Back"@
            &&& category != "Box - Spine"@
            &&& category != "Cart - Front"@
            &&& category != "Cart - Back"@
            &&& category != "Disc"@
            &&& category != "Clear Logo"@
            &&& category != "Screenshot - Gameplay"@
            &&& category != "Screenshot - Title"@
            &&& category != "Screenshot - Game Title"@
            &&& category != "Screenshot - Game Select"@
            &&& category != "Screenshot - Game Over"@
            &&& category != "Screenshot - High Scores"@
            &&& category != "Fanart - Box - Front"@
            &&& category != "Fanart - Background"@
            &&& category != "Fanart - Disc"@
            &&& category != "Advertisement Flyer - Front"@
            &&& category != "Advertisement Flyer - Back"@
            &&& category != "Poster"@
            &&& category != "Banner"@
            &&& category != "Arcade - Marquee"@
        }) ==> rank_from(category, 0) == usize::MAX,
{
    reveal_strlit("Box - 3D");
    reveal_strlit("Box - Front");
    reveal_strlit("Box - Back");
    reveal_strlit("Box - Spine");
    reveal_strlit("Cart - Front");
    reveal_strlit("Cart - Back");
    reveal_strlit("Disc");
    reveal_strlit("Clear Logo");
    reveal_strlit("Screenshot - Gameplay");
    reveal_strlit("Screenshot - Title");
    reveal_strlit("Screenshot - Game Title");
    reveal_strlit("Screenshot - Game Select");
    reveal_strlit("Screenshot - Game Over");
    reveal_strlit("Screenshot - High Scores");
    reveal_strlit("Fanart - Box - Front");
    reveal_strlit("Fanart - Background");
    reveal_strlit("Fanart - Disc");
    reveal_strlit("Advertisement Flyer - Front");
    reveal_strlit("Advertisement Flyer - Back");
    reveal_strlit("Poster");
    reveal_strlit("Banner");
    reveal_strlit("Arcade - Marquee");
    assert(marks_of("Box - 3D"@).0 == 8);
    assert("Box - 3D"@[0] == 'B');
    assert("Box - 3D"@[6] == '3');
    assert(marks_of("Box - Front"@).0 == 11);
    assert("Box - Front"@[0] == 'B');
    assert("Box - Front"@[6] == 'F');
    assert(marks_of("Box - Back"@).0 == 10);
    assert("Box - Back"@[0] == 'B');
    assert("Box - Back"@[6] == 'B');
    assert(marks_of("Box - Spine"@).0 == 11);
    assert("Box - Spine"@[0] == 'B');
    assert("Box - Spine"@[6] == 'S');
    assert(marks_of("Cart - Front"@).0 == 12);
    assert("Cart - Front"@[0] == 'C');
    assert("Cart - Front"@[6] == ' ');
    assert(marks_of("Cart - Back"@).0 == 11);
    assert("Cart - Back"@[0] == 'C');
    assert("Cart - Back"@[6] == ' ');
    assert(marks_of("Disc"@).0 == 4);
    assert("Disc"@[0] == 'D');
    assert(marks_of("Clear Logo"@).0 == 10);
    assert("Clear Logo"@[0] == 'C');
    assert("Clear Logo"@[6] == 'L');
    assert(marks_of("Screenshot - Gameplay"@).0 == 21);
    assert("Screenshot - Gameplay"@[0] == 'S');
    assert("Screenshot - Gameplay"@[6] == 's');
    assert("Screenshot - Gameplay"@[13] == 'G');
    assert(marks_of("Screenshot - Title"@).0 == 18);
    assert("Screenshot - Title"@[0] == 'S');
    assert("Screenshot - Title"@[6] == 's');
    assert("Screenshot - Title"@[13] == 'T');
    assert(marks_of("Screenshot - Game Title"@).0 == 23);
    assert("Screenshot - Game Title"@[0] == 'S');
    assert("Screenshot - Game Title"@[6] == 's');
    assert("Screenshot - Game Title"@[13] == 'G');
    assert(marks_of("Screenshot - Game Select"@).0 == 24);
    assert("Screenshot - Game Select"@[0] == 'S');
    assert("Screenshot - Game Select"@[6] == 's');
    assert("Screenshot - Game Select"@[13] == 'G');
    assert(marks_of("Screenshot - Game Over"@).0 == 22);
    assert("Screenshot - Game Over"@[0] == 'S');
    assert("Screenshot - Game Over"@[6] == 's');
    assert("Screenshot - Game Over"@[13] == 'G');
    assert(marks_of("Screenshot - High Scores"@).0 == 24);
    assert("Screenshot - High Scores"@[0] == 'S');
    assert("Screenshot - High Scores"@[6] == 's');
    assert("Screenshot - High Scores"@[13] == 'H');
    assert(marks_of("Fanart - Box - Front"@).0 == 20);
    assert("Fanart - Box - Front"@[0] == 'F');
    assert("Fanart - Box - Front"@[6] == ' ');
    assert("Fanart - Box - Front"@[13] == '-');
    assert(marks_of("Fanart - Background"@).0 == 19);
    assert("Fanart - Background"@[0] == 'F');
    assert("Fanart - Background"@[6] == ' ');
    assert("Fanart - Background"@[13] == 'g');
    assert(marks_of("Fanart - Disc"@).0 == 13);
    assert("Fanart - Disc"@[0] == 'F');
    assert("Fanart - Disc"@[6] == ' ');
    assert(marks_of("Advertisement Flyer - Front"@).0 == 27);
    assert("Advertisement Flyer - Front"@[0] == 'A');
    assert("Advertisement Flyer - Front"@[6] == 'i');
    assert("Advertisement Flyer - Front"@[13] == ' ');
    assert(marks_of("Advertisement Flyer - Back"@).0 == 26);
    assert("Advertisement Flyer - Back"@[0] == 'A');
    assert("Advertisement Flyer - Back"@[6] == 'i');
    assert("Advertisement Flyer - Back"@[13] == ' ');
    assert(marks_of("Poster"@).0 == 6);
    assert("Poster"@[0] == 'P');
    assert(marks_of("Banner"@).0 == 6);
    assert("Banner"@[0] == 'B');
    assert(marks_of("Arcade - Marquee"@).0 == 16);
    assert("Arcade - Marquee"@[0] == 'A');
    assert("Arcade - Marquee"@[6] == ' ');
    assert("Arcade - Marquee"@[13] == 'u');
    assert(category_order().len() == 22);
    reveal_with_fuel(rank_from, 23);
}

} // verus!
