use exodium::assets::{
    category_rank, extras_dir, extras_zip_name, find_extras_zip, find_manual, find_manual_entry,
    gallery, gallery_cache_dir, gallery_cache_name, game_metadata, get_poster_dir, get_preview_dir,
    image_category_order, image_form, image_roots, is_image_file, is_manual_entry, manual_kind_from_path,
    platform_of, prune_gallery_cache, prune_gallery_cache_at_startup, served_name, shown_path,
    strip_trailing_suffix_num, thumbnail_name, FoundImage, GALLERY_CACHE_MAX_BYTES,
};
use exodium::cache::CacheFile;
use exodium::outside::hex_of;
use exodium::paths::Places;
use exodium::titles::{
    dosbox_variants, download_size, english_codes, for_title, generate_shortcode,
    generate_shortcodes, keep_alnum, normalize_alnum,
    normalize_lowered, normalize_title, thumbnail_key, variant_line, EnglishTitle,
};

fn s(x: &str) -> String {
    x.to_string()
}

fn texts(xs: &[&str]) -> Vec<String> {
    xs.iter().map(|x| x.to_string()).collect()
}

fn found(category: &str, title: &str, n: u32) -> FoundImage {
    let name = format!("{}-0{}.png", title, n);
    let path = format!("/m/{}/{}", category, name);
    FoundImage {
        category: s(category),
        depth: 0,
        path,
        there: true,
    }
}

#[test]
fn the_gallery_shows_better_art_first() {
    let title = "Magic Carpet Plus";
    let pack = vec![
        found("Screenshot - Gameplay", title, 1),
        found("Clear Logo", title, 1),
        found("Box - 3D", title, 1),
        found("Box - 3D", "Some Other Game", 1),
    ];
    let images = gallery(&vec![Vec::new(), pack], title);
    assert_eq!(images.len(), 3);
    let at = |c: &str| images.iter().position(|p| p.contains(c)).unwrap();
    let mut cats = ["Screenshot - Gameplay", "Clear Logo", "Box - 3D"];
    cats.sort_by_key(|c| category_rank(c));
    assert!(at(cats[0]) < at(cats[1]) && at(cats[1]) < at(cats[2]));
}

#[test]
fn a_game_without_art_returns_empty_arrays() {
    let pack = vec![found("Box - 3D", "Some Other Game", 1)];
    let images = gallery(&vec![pack], "Nothing Here");
    assert!(images.is_empty());
    let meta = game_metadata(images, &Vec::new(), None);
    assert!(meta.images.is_empty());
    assert!(meta.thumbnails.is_empty());
    assert!(meta.manual_path.is_none());
}

#[test]
fn images_are_matched_by_their_own_name() {
    let mut hidden = found("Box - 3D", "King's Quest V", 2);
    hidden.path = s("/m/Box - 3D/..King's Quest V-02.png");
    let mut gone = found("Box - 3D", "Kings Quest V", 3);
    gone.there = false;
    let pack = vec![hidden, gone, found("Box - 3D", "King's Quest VI", 1)];
    let images = gallery(&vec![pack], "KING'S QUEST: V");
    assert_eq!(images, texts(&["/m/Box - 3D/King's Quest V-02.png"]));
    assert_eq!(shown_path("/m/a.png"), "/m/a.png");
    assert_eq!(shown_path("/.a.png"), "/a.png");
    assert_eq!(shown_path(".a.png"), "a.png");
}

#[test]
fn lp_collection_falls_back_to_the_english_pack() {
    let roots = image_roots("/data", "eXoDOS_GLP");
    assert!(roots.iter().any(|r| r.contains("/eXoDOS/")));
    assert_eq!(image_roots("/data", "eXoDOS").len() + 1, roots.len());
    assert_eq!(platform_of("eXoDOS_GLP"), "MS-DOS");
    let images = gallery(&vec![Vec::new(), vec![found("Box - Front", "Das Amt", 1)]], "Das Amt");
    assert_eq!(images.len(), 1);
}

#[test]
fn thumbnails_stay_aligned_and_fall_back() {
    let images = texts(&["/a.png", "/b.png"]);
    let meta = game_metadata(images, &vec![Some(s("/t/a.jpg")), None], Some("m\\x.pdf"));
    assert_eq!(meta.images, texts(&["/a.png", "/b.png"]));
    assert_eq!(meta.thumbnails, texts(&["/t/a.jpg", "/b.png"]));
    assert_eq!(meta.manual_path, Some(s("m/x.pdf")));
    assert_eq!(meta.manual_kind, Some(s("pdf")));
    assert!(!gallery_cache_dir("/data").split('/').any(|p| p.starts_with('.')));
    assert!(gallery_cache_dir("/data").ends_with("/thumbcache"));
}

#[test]
fn a_changed_source_misses_the_cache() {
    let first = gallery_cache_name("/a/img.png", 800, 5);
    assert_eq!(first, gallery_cache_name("/a/img.png", 800, 5));
    assert_ne!(first, gallery_cache_name("/a/img.png", 400, 5));
    assert_ne!(first, gallery_cache_name("/a/img.png", 800, 6));
    assert!(first.ends_with(".jpg"));
    assert_eq!(first.len(), 28);
    let digest: Vec<u8> = (0u8..32).collect();
    assert_eq!(thumbnail_name(&digest), "000102030405060708090a0b.jpg");
    assert_eq!(hex_of(&digest, 3), "000102");
}

fn kib(n: u64) -> u64 {
    n * 1024
}

#[test]
fn pruning_drops_the_oldest_entries_when_over_the_cap() {
    let files: Vec<CacheFile> = (0..5).map(|i| CacheFile { len: kib(10), modified: i }).collect();
    let mut p = prune_gallery_cache(files, kib(30));
    let mut gone = Vec::new();
    while let Some(i) = p.step() {
        gone.push(i);
        p.report(true);
    }
    assert!(gone.contains(&0));
    assert!(gone.contains(&1));
    assert!(!gone.contains(&4));
    let left = (5 - gone.len() as u64) * kib(10);
    assert!(left <= kib(30) / 5 * 4);
}

#[test]
fn pruning_leaves_a_cache_under_the_cap_alone() {
    let mut p = prune_gallery_cache(vec![CacheFile { len: 1024, modified: 0 }], kib(1024));
    assert_eq!(p.step(), None);
    let big = vec![CacheFile { len: GALLERY_CACHE_MAX_BYTES, modified: 0 }];
    assert_eq!(prune_gallery_cache_at_startup(big).step(), None);
    let over = vec![CacheFile { len: GALLERY_CACHE_MAX_BYTES + 1, modified: 0 }];
    assert_eq!(prune_gallery_cache_at_startup(over).step(), Some(0));
}

#[test]
fn a_file_that_stays_frees_nothing() {
    let files = vec![CacheFile { len: 60, modified: 0 }, CacheFile { len: 60, modified: 1 }];
    let mut p = prune_gallery_cache(files, 100);
    assert_eq!(p.step(), Some(0));
    p.report(false);
    assert_eq!(p.step(), Some(1));
    p.report(true);
    assert_eq!(p.step(), None);
}

#[test]
fn numbers_at_the_end_are_stripped() {
    assert_eq!(image_form("/m/Box - 3D/King's Quest V-01.PNG"), "kingsquestv");
    assert_eq!(strip_trailing_suffix_num("Doom-01"), "Doom");
    assert_eq!(strip_trailing_suffix_num("Doom"), "Doom");
    assert_eq!(strip_trailing_suffix_num("X-COM"), "X-COM");
    assert!(is_image_file("a/b.PNG"));
    assert!(!is_image_file("a/b.txt"));
    assert_eq!(served_name(".hidden.png"), "hidden.png");
    assert_eq!(category_rank(image_category_order()[0]), 0);
    assert!(category_rank("unheard of") >= image_category_order().len());
}

#[test]
fn directories_of_art_are_found() {
    let posters = "/data/content/posters/eXoDOS";
    assert_eq!(get_poster_dir("/data", "eXoDOS_GLP", &texts(&[posters])), Ok(s(posters)));
    assert_eq!(
        get_poster_dir("/data", "eXoDOS", &Vec::new()),
        Err(s("Poster directory not found"))
    );
    let err = get_preview_dir(&Places::new(), "/src/app", None, "eXoDOS", &Vec::new()).err().unwrap();
    assert!(err.starts_with("Preview directory not found. Checked: "));
}

#[test]
fn manuals_are_found() {
    assert_eq!(manual_kind_from_path("a/b.PDF"), "pdf");
    assert_eq!(extras_dir("/r", "eXoDOS_GLP"), "/r/Content/GameData/eXoDOS");
    assert_eq!(extras_zip_name("Manuals/Doom (1993).pdf"), Ok(s("Doom (1993).zip")));
    assert_eq!(extras_zip_name(".."), Err(s("Cannot parse manual filename")));
    assert_eq!(find_extras_zip(&texts(&["DOOM.ZIP"]), "Doom.zip", false), Some(s("DOOM.ZIP")));
    assert_eq!(find_extras_zip(&texts(&["DOOM.ZIP"]), "Doom.zip", true), Some(s("Doom.zip")));
    assert_eq!(find_extras_zip(&Vec::new(), "Doom.zip", false), None);
    let names = texts(&["Images/x.png", "Manuals/Doom.pdf"]);
    assert_eq!(find_manual_entry(&names), Some(s("Manuals/Doom.pdf")));
    assert!(is_manual_entry("manuals/doom.pdf", "Manuals/Doom.pdf"));
    assert_eq!(find_manual("/r", "/data", "eXoDOS", "Manuals\\Doom.pdf", &Vec::new()), None);
}

#[test]
fn titles_are_brought_to_one_form() {
    assert_eq!(normalize_title("Doom"), normalize_title("DOOM"));
    assert_eq!(normalize_lowered("doom"), normalize_title("Doom"));
    assert_eq!(normalize_alnum("King's Quest V!"), "kingsquestv");
    assert_eq!(keep_alnum("a-b c1"), "abc1");
    assert_eq!(thumbnail_key("King's Quest V"), thumbnail_key("kings quest v"));
    assert_ne!(thumbnail_key("King's Quest V"), thumbnail_key("King's Quest VI"));
    // The digest of "abc" begins so.
    assert_eq!(thumbnail_key("A-B-C"), "ba7816bf8f01cfea");
}

#[test]
fn new_codes_are_new() {
    let first = generate_shortcode("Kathedrale, Die", &Vec::new());
    assert_eq!(first.len(), 8);
    let second = generate_shortcode("Kathedrale, Die", &vec![first.clone()]);
    assert_ne!(first, second);
    let third = generate_shortcode("Kathedrale, Die", &vec![first.clone(), second.clone()]);
    assert!(third != first && third != second);
    assert_eq!(generate_shortcode("...", &Vec::new()), "game");
    let titles = texts(&["Kathedrale, Die", "Kathedrale, Die", "Doom"]);
    let codes = generate_shortcodes(&titles, vec![s("Doom")]);
    assert_eq!(codes, texts(&["Kathedra", "Kathed2", "Doom2"]));
    let mut taken = vec![s("game")];
    taken.extend((2..=999).map(|i| format!("game{}", i)));
    assert_eq!(generate_shortcode("...", &taken), "g999");
    taken.push(s("g1000"));
    assert_eq!(generate_shortcode("...", &taken), "g999");
    assert_eq!(thumbnail_key("Doom").len(), 16);
}

#[test]
fn trailing_articles_go_first() {
    for (behind, front) in [
        ("Last Express, The", "The Last Express"),
        ("Boy and His Blob, A", "A Boy and His Blob"),
        ("Elder Scrolls, An", "An Elder Scrolls"),
    ] {
        assert_eq!(normalize_title(behind), normalize_title(front));
    }
}

#[test]
fn ambiguous_titles_match_nothing() {
    let row = |normal: &str, code: &str| EnglishTitle { normal: s(normal), shortcode: s(code) };
    let codes = english_codes(&vec![row("doom", "DOOM"), row("hexen", "HEXEN"), row("hexen", "HEXEN2")]);
    assert_eq!(codes.get("doom"), Some(&s("DOOM")));
    assert_eq!(codes.get("hexen"), None);
    assert_eq!(download_size(10, Some(5), None), 15);
    assert_eq!(download_size(10, None, Some(7)), 17);
    assert!(variant_line("").is_none());
    assert_eq!(for_title(&codes, "DOOM"), Some(s("DOOM")));
    assert_eq!(for_title(&codes, "Quake"), None);
}

#[test]
fn the_last_line_for_a_title_counts() {
    let list = "Doom (1993):ece4230\\dosbox.exe\r\n\nno colon\nHexen:dosbox.exe\nDoom:ece4460\\dosbox.exe\n";
    let variants = dosbox_variants(list);
    assert_eq!(for_title(&variants, "Doom"), Some(s("ece4460")));
    assert_eq!(for_title(&variants, "Hexen"), Some(s("dosbox")));
    assert_eq!(for_title(&variants, "Quake"), None);
    assert_eq!(variant_line("X: Y (1990):a\\b\\c.exe"), Some((s("X: Y (1990)"), s("a"))));
}
