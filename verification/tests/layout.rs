use exodium::cache::{CacheFile, Pruner};
use exodium::fspath::{
    components_of, extension_of, file_name_of, file_stem_of, join_path, parent_name_of, parent_of,
    parts_of, path_lies_in,
};
use exodium::layout::{
    capped_sum, dir_size_shallow, merge_failure, merge_tree, pending_layout_migration,
    remove_empty_tree, stray_roots, tally_of, Entry, Kind, MergeEntry, MergeStep, MergeTally, Node,
    StrayRoot,
};
use exodium::order::{distinct_paths, is_before, order_of, order_of_texts, path_key};
use exodium::paths::{
    bundled_metadata_dir, bundled_torrent_path, dev_path, game_root, init_log_dir,
    init_resource_dir, is_os_metadata, load_root_folder, path_to_fwd_slash, remove_conf_files,
    repair_legacy_root, set_root_folder, sweep_legacy_launch_confs, Places, DEFAULT_ROOT_FOLDER,
    ROOT_IS_DATA_DIR,
};
use exodium::playlists::{name_conflict, playlist_name};
use exodium::table::Table;

fn s(x: &str) -> String {
    x.to_string()
}

fn texts(xs: &[&str]) -> Vec<String> {
    xs.iter().map(|x| x.to_string()).collect()
}

#[test]
fn legacy_data_dir_holding_the_games_becomes_the_root() {
    let mut places = Places::new();
    let data = "/home/u/eXoDOS";
    assert_eq!(repair_legacy_root(None, Some(data), true), Some(ROOT_IS_DATA_DIR));
    assert_eq!(load_root_folder(&mut places, None, Some(data), true), Some(ROOT_IS_DATA_DIR));
    assert_eq!(game_root(&places, data), data);
    set_root_folder(&mut places, DEFAULT_ROOT_FOLDER);
    assert_eq!(game_root(&places, data), "/home/u/eXoDOS/eXoDOS");
}

#[test]
fn a_fresh_data_dir_is_not_repaired() {
    let mut places = Places::new();
    assert_eq!(repair_legacy_root(None, Some("/home/u/data"), false), None);
    assert_eq!(load_root_folder(&mut places, None, Some("/home/u/data"), false), None);
    assert_eq!(game_root(&places, "/home/u/data"), "/home/u/data/eXoDOS");
}

#[test]
fn a_stored_root_is_read_back() {
    let mut places = Places::new();
    assert_eq!(load_root_folder(&mut places, Some("Games"), Some("/d"), true), None);
    assert_eq!(game_root(&places, "/d"), "/d/Games");
}

#[test]
fn remove_conf_files_respects_prefix_and_extension() {
    let mut names = texts(&["exodium_a.conf", "global_overrides_7.conf", "dosbox.conf", "notes.txt"]);
    let gone = remove_conf_files(&names, Some("exodium_"));
    assert_eq!(gone, texts(&["exodium_a.conf"]));
    names.retain(|n| !gone.contains(n));
    let gone = remove_conf_files(&names, None);
    assert_eq!(gone.len(), 2);
    names.retain(|n| !gone.contains(n));
    assert_eq!(names, texts(&["notes.txt"]));
    assert_eq!(remove_conf_files(&names, None).len(), 0);
}

#[test]
fn the_sweep_keeps_foreign_files() {
    let names = texts(&["exodium_a.conf", "dosbox.conf", "exodium_b.txt"]);
    assert_eq!(sweep_legacy_launch_confs(&names), texts(&["exodium_a.conf"]));
}

#[test]
fn small_path_facts() {
    assert!(is_os_metadata("/a/.DS_Store"));
    assert!(is_os_metadata("/a/._x"));
    assert!(!is_os_metadata("/a/x"));
    assert_eq!(path_to_fwd_slash("a\\b/c"), "a/b/c");
    assert_eq!(dev_path("/src/app", "metadata"), "/src/metadata");
    let mut places = Places::new();
    init_log_dir(&mut places, "/log");
    assert_eq!(places.log_dir, Some(s("/log")));
    assert!(bundled_metadata_dir(&places, "/src/app", &Vec::new()).is_err());
    init_resource_dir(&mut places, "/res");
    assert_eq!(places.resource_dir, Some(s("/res")));
    let found = bundled_metadata_dir(&places, "/src/app", &texts(&["/src/metadata"]));
    assert_eq!(found, Ok(s("/src/metadata")));
    let torrent = bundled_torrent_path(&places, "/src/app", "x.torrent", &texts(&["/src/torrents/x.torrent"]));
    assert_eq!(torrent, Ok(s("/src/torrents/x.torrent")));
}

fn zip(name: &str, from: u64, to: Option<u64>) -> MergeEntry {
    MergeEntry {
        name: s(name),
        from: Kind::File { len: from, opens: from > 0 },
        to: to.map(|len| Kind::File { len, opens: len > 0 }),
        children: Vec::new(),
    }
}

fn dir(name: &str, children: Vec<MergeEntry>) -> MergeEntry {
    MergeEntry { name: s(name), from: Kind::Dir, to: Some(Kind::Dir), children }
}

#[test]
fn merging_keeps_the_larger_copy_and_clears_the_old_folder() {
    let year = dir(
        "1995",
        vec![zip("Moved.zip", 20, None), zip("Real.zip", 23, Some(0)), zip("Placeholder.zip", 0, Some(18))],
    );
    let tree = vec![
        dir("eXo", vec![dir("eXoWin9x", vec![year])]),
        MergeEntry {
            name: s(".DS_Store"),
            from: Kind::File { len: 11, opens: false },
            to: None,
            children: Vec::new(),
        },
    ];
    let steps = merge_tree(&tree, "/d/eXoWin9x", "/d/eXoDOS");
    let tally = tally_of(&steps);
    assert_eq!(tally.moved, 2);
    assert_eq!(tally.deduped, 1);
    assert_eq!(tally.skipped, 0);
    let to = |f: &str| format!("/d/eXoDOS/eXo/eXoWin9x/1995/{}", f);
    let from = |f: &str| format!("/d/eXoWin9x/eXo/eXoWin9x/1995/{}", f);
    let has = |want: &dyn Fn(&MergeStep) -> bool| steps.iter().any(|x| want(x));
    assert!(has(&|x| matches!(x, MergeStep::Move { from: a, to: b } if *a == from("Moved.zip") && *b == to("Moved.zip"))));
    assert!(has(&|x| matches!(x, MergeStep::Replace { from: a, to: b } if *a == from("Real.zip") && *b == to("Real.zip"))));
    assert!(has(&|x| matches!(x, MergeStep::Drop { from: a } if *a == from("Placeholder.zip"))));
    let rest = vec![Entry { name: s(".DS_Store"), node: Node::File { len: 11, opens: false } }];
    let (_, gone) = remove_empty_tree("/d/eXoWin9x", &rest);
    assert!(gone);
}

#[test]
fn equal_length_tie_goes_to_the_archive_that_opens() {
    let tie = |from: bool, to: bool| {
        let e = MergeEntry {
            name: s("Game.zip"),
            from: Kind::File { len: 120, opens: from },
            to: Some(Kind::File { len: 120, opens: to }),
            children: Vec::new(),
        };
        merge_tree(&vec![e], "/old", "/new")
    };
    assert!(matches!(tie(true, false)[0], MergeStep::Replace { .. }));
    assert!(matches!(tie(true, true)[0], MergeStep::Drop { .. }));
    assert!(matches!(tie(false, true)[0], MergeStep::Drop { .. }));
    assert!(matches!(tie(false, false)[0], MergeStep::Drop { .. }));
}

#[test]
fn a_file_facing_a_directory_is_left_alone() {
    let e = MergeEntry {
        name: s("x"),
        from: Kind::File { len: 5, opens: false },
        to: Some(Kind::Dir),
        children: Vec::new(),
    };
    let d = MergeEntry {
        name: s("y"),
        from: Kind::Dir,
        to: Some(Kind::File { len: 5, opens: false }),
        children: Vec::new(),
    };
    let steps = merge_tree(&vec![e, d], "/old", "/new");
    let tally = tally_of(&steps);
    assert_eq!((tally.moved, tally.deduped, tally.skipped), (0, 0, 2));
    assert!(matches!(steps[0], MergeStep::Leave { .. }));
    assert_eq!(
        merge_failure(&MergeStep::Move { from: s("/a"), to: s("/b") }, "busy"),
        Some(s("moving /a to /b: busy"))
    );
}

#[test]
fn stray_roots_are_offered_once() {
    let strays = stray_roots("/d", "/d/eXoDOS", &texts(&["/d/eXoWin9x/eXo", "/d/eXoDOS/eXo"]));
    assert_eq!(strays, texts(&["/d/eXoWin9x"]));
    let found = vec![StrayRoot { path: s("/d/eXoWin9x"), bytes: 7 }];
    let m = pending_layout_migration(Some("/d"), &found, None).unwrap();
    assert_eq!(m.bytes, 7);
    assert!(m.prompt);
    assert!(pending_layout_migration(Some("/d"), &Vec::new(), None).is_none());
    assert!(pending_layout_migration(None, &found, None).is_none());
    assert!(!pending_layout_migration(Some("/d"), &found, Some("skip")).unwrap().prompt);
    let tree = vec![
        Entry { name: s("a"), node: Node::File { len: 3, opens: false } },
        Entry {
            name: s("b"),
            node: Node::Dir { entries: vec![Entry { name: s("c"), node: Node::File { len: 4, opens: false } }] },
        },
        Entry { name: s("l"), node: Node::Other },
    ];
    assert_eq!(dir_size_shallow(&tree), 7);
    let (_, gone) = remove_empty_tree("/t", &tree);
    assert!(!gone);
    assert_eq!(capped_sum(u64::MAX, 2), u64::MAX);
    let mut t = MergeTally::new();
    t.add(MergeTally { moved: 1, deduped: 2, skipped: 3 });
    assert_eq!((t.moved, t.deduped, t.skipped), (1, 2, 3));
}

#[test]
fn paths_are_taken_apart() {
    assert_eq!(join_path("/a", "b"), "/a/b");
    assert_eq!(join_path("/a/", "b"), "/a/b");
    assert_eq!(join_path("/a", "/b"), "/b");
    assert_eq!(file_name_of("/a/b.tar.gz"), Some(s("b.tar.gz")));
    assert_eq!(file_name_of("/"), None);
    assert_eq!(file_name_of("/a/.."), None);
    assert_eq!(file_stem_of("/a/b.tar.gz"), Some(s("b.tar")));
    assert_eq!(extension_of("/a/b.tar.gz"), Some(s("gz")));
    assert_eq!(extension_of("/a/.conf"), None);
    assert_eq!(parent_of("/a/b"), Some(s("/a")));
    assert_eq!(parent_name_of("/a/b"), Some(s("a")));
    assert_eq!(components_of("a//./b/"), texts(&["a", "b"]));
    assert!(path_lies_in("/a/b/c", "/a/b"));
    assert!(!path_lies_in("/a/bc", "/a/b"));
    assert_eq!(parts_of("/a/b").len(), parts_of("a/b").len() + 1);
}

#[test]
fn paths_are_ordered_part_by_part() {
    assert!(is_before("a", "b"));
    assert!(!is_before("a", "a"));
    assert!(is_before("a", "ab"));
    assert_eq!(order_of_texts(&texts(&["b", "a", "b"])), vec![1, 0, 2]);
    let keys = vec![path_key("a-b"), path_key("a/b"), path_key("a")];
    assert_eq!(order_of(&keys), vec![2, 1, 0]);
    assert_eq!(distinct_paths(&texts(&["b/x", "a", "b/x"])).len(), 2);
}

#[test]
fn pruning_takes_the_oldest_first() {
    let file = |len, modified| CacheFile { len, modified };
    let files = vec![file(50, 3), file(40, 1), file(30, 2)];
    let mut p = Pruner::begin(files, 100);
    let mut gone = Vec::new();
    while let Some(i) = p.step() {
        gone.push(i);
        p.report(true);
    }
    assert_eq!(gone[0], 1);
    let left: u64 = [50, 40, 30].iter().enumerate().filter(|(i, _)| !gone.contains(i)).map(|(_, l)| *l).sum();
    assert!(left <= 100);
    let mut p = Pruner::begin(vec![file(50, 3)], 100);
    assert_eq!(p.step(), None);
}

#[test]
fn playlists_need_a_name() {
    assert_eq!(playlist_name("  Best of 1993 "), Ok(s("Best of 1993")));
    assert_eq!(playlist_name("  "), Err(s("Playlist name cannot be empty")));
    assert!(name_conflict("X", true, "db").contains('X'));
    assert_eq!(name_conflict("X", false, "db"), "db");
}

#[test]
fn tables_keep_the_last_value() {
    let mut t: Table<u8> = Table::new();
    assert!(t.is_empty());
    t.insert("a", 1);
    t.insert("b", 2);
    t.insert("a", 3);
    assert_eq!(t.get("a"), Some(&3));
    assert!(t.has("b"));
    assert_eq!(t.keys().len(), 2);
    assert_eq!(t.remove("a"), Some(3));
    assert_eq!(t.remove("a"), None);
    assert_eq!(t.get("a"), None);
}
