use exodium::archives::{
    archive_usage, game_disk_usage, installed_archives, keep_archives, manifest_path,
    pristine_for, pristine_places, real_archive_bytes, remove_installed_archives, removed_indices,
    unlink_archive, unlink_message, usage_places, zip_path_of, InstalledArchive, PristineSource,
    RealArchive, UnlinkFailure, UnlinkState, UnlinkStep, KEEP_ARCHIVES_KEY,
};
use exodium::collections::{
    asset_fallback, collection_base_id, collection_def, collection_game_prefix,
    collection_lang_dir, collection_map, collection_rel_game_dir, collection_rel_zip,
    collection_year_dir, Launcher,
};
use exodium::content_packs::{ContentPackInfo, PackEntry};
use exodium::install::{
    after_unpacking, cancel_dependents, cancel_download, download_game, download_outcome,
    emulator_pack, extract_before_launch, extract_error, false_installs, game_requests_midi,
    gamedata_drop, get_download_progress, in_flight, install_outcome, launch_places,
    launch_zip_candidates, launcher_for, lock_is_stale, lock_outcome, pending_downloads,
    queue_base_game, refusal_message, report_stuck, settle_progress, should_reassemble,
    top_directory, ArchiveState, BaseState, DosmetaState, DownloadFacts, DownloadFailure,
    DownloadPlan, DownloadRefusal, DownloadStart, ExtractError, Extras, InstallOutcome,
    LaunchError, LaunchStep, LibraryRow, LockAction, PollAction, Progress, RetryState,
    SessionFile, Win9xEngine, ZipFault, MIB,
};
use exodium::library::{
    archive_name_of, collateral_file_indices, game_name_from_app_path, match_torrent_indices,
    torrent_search_names, FoundFiles,
};
use exodium::lp_overlay::{
    archive_size, base_archive_size, base_for, base_game_dir, is_overlay, ArchiveSizes,
};
use exodium::models::{Game, TorrentFileEntry, TorrentIndex};
use exodium::scan::{
    scan_installed_games_with_db, ArchiveOnDisk, CollectionTorrent, Disk, RowFlags, ScanInput,
    Shelf, ShelfFile,
};
use exodium::scummvm::EngineSource;
use exodium::uninstall::{
    backup_step, copy_outcome, ledger_step, rel_save_dir, reset_failure, reset_game_data,
    reset_message, reset_next, restore_plan, restored_save, uninstall_game, uninstall_outcome,
    BackupState, BackupStep, LedgerStep, Opening, ResetBase, ResetFailure, ResetState,
    ResetStep,
};

fn s(x: &str) -> String {
    x.to_string()
}

fn texts(xs: &[&str]) -> Vec<String> {
    xs.iter().map(|x| x.to_string()).collect()
}

fn row(id: i64, title: &str, shortcode: &str, app_path: &str, index: Option<i64>) -> Game {
    Game {
        id,
        title: s(title),
        language: s("EN"),
        year: None,
        shortcode: Some(s(shortcode)),
        torrent_source: Some(s("eXoDOS")),
        application_path: Some(s(app_path)),
        dosbox_conf: None,
        dosbox_variant: None,
        game_torrent_index: index,
        gamedata_torrent_index: None,
        download_size: None,
        installed: false,
        in_library: true,
    }
}

fn file(index: usize, path: &str, size: u64, offset: u64) -> TorrentFileEntry {
    TorrentFileEntry { index, path: s(path), size, offset }
}

const PIECE: u64 = 8 * 1024 * 1024;
const WOLF3D: u64 = 900_000;
const WOLFENDOOM: u64 = 600_000;
const WOLF: u64 = 376_000_000;
const CAPITALISM: u64 = 12_000_000;

/// Two small archives that share the first piece, and two larger ones.
fn torrent() -> CollectionTorrent {
    let start = 2 * PIECE;
    CollectionTorrent {
        id: s("eXoDOS"),
        index: TorrentIndex {
            name: s("eXoDOS"),
            files: vec![
                file(0, "eXo/eXoDOS/Wolfenstein 3D (1992).zip", WOLF3D, 0),
                file(1, "eXo/eXoDOS/Wolfendoom (2000).zip", WOLFENDOOM, WOLF3D),
                file(2, "eXo/eXoDOS/Capitalism (1995).zip", CAPITALISM, start),
                file(3, "eXo/eXoDOS/Wolf (1994).zip", WOLF, start + CAPITALISM),
            ],
            total_size: start + CAPITALISM + WOLF,
            piece_length: PIECE,
        },
    }
}

fn disk(dirs: &[&str], zips: &[(&str, u64)]) -> Disk {
    Disk {
        shelves: vec![Shelf {
            path: s("eXo/eXoDOS"),
            dirs: texts(dirs),
            files: zips
                .iter()
                .map(|(name, len)| ShelfFile { name: s(name), len: *len, age: Some(9) })
                .collect(),
        }],
        archives: zips
            .iter()
            .map(|(name, len)| ArchiveOnDisk { path: format!("eXo/eXoDOS/{}", name), len: *len })
            .collect(),
        traces: Vec::new(),
    }
}

fn input(rows: Vec<Game>, disk: Disk, adopt: bool) -> ScanInput {
    ScanInput {
        rows,
        disk,
        torrents: vec![torrent()],
        adopt,
        disk_is_library: false,
        in_flight: Vec::new(),
    }
}

fn with_flags(rows: Vec<Game>, flags: &[RowFlags]) -> Vec<Game> {
    rows.into_iter()
        .zip(flags)
        .map(|(mut r, f)| {
            r.installed = f.installed;
            r.in_library = f.in_library;
            r
        })
        .collect()
}

#[test]
fn app_path_wins_and_is_the_only_candidate() {
    let names = torrent_search_names(
        "Capitalism",
        Some(r"eXo\eXoDOS\!dos\captlsm\Capitalism (1995).bat"),
        Some(1995),
    );
    assert_eq!(names, vec!["Capitalism (1995)".to_string()]);
}

#[test]
fn pathless_row_reconstructs_the_exo_zip_name_from_title_and_year() {
    let names = torrent_search_names("Kathedrale, Die", None, Some(1991));
    assert_eq!(names[0], "Kathedrale, Die (1991)");
    assert_eq!(names[1], "Kathedrale, Die");
}

#[test]
fn pathless_row_without_a_year_still_tries_the_title() {
    assert_eq!(torrent_search_names("Some Game", None, None), vec!["Some Game".to_string()]);
}

#[test]
fn rescanning_is_idempotent() {
    let rows = || {
        let mut v = vec![
            row(1, "Space Quest V", "SQ5", r"eXo\eXoDOS\!dos\SQ5\Space Quest V.bat", None),
            row(2, "Capitalism", "captlsm", r"eXo\eXoDOS\!dos\captlsm\Capitalism (1995).bat", None),
        ];
        v[0].in_library = false;
        v[1].in_library = false;
        v
    };
    let on_disk = || disk(&["SQ5"], &[("Capitalism (1995).zip", CAPITALISM)]);

    let nothing = Disk { shelves: Vec::new(), archives: Vec::new(), traces: Vec::new() };
    let refused = scan_installed_games_with_db(&input(rows(), nothing, true), "/nonexistent/exodium");
    assert!(refused.err().unwrap().starts_with("No game folders found under /nonexistent/exodium"));

    let first = scan_installed_games_with_db(&input(rows(), on_disk(), true), "/data").unwrap_or_else(|e| panic!("{}", e));
    assert_eq!(first.found, 2);
    let again = with_flags(rows(), &first.flags);
    let second = scan_installed_games_with_db(&input(again, on_disk(), true), "/data").unwrap_or_else(|e| panic!("{}", e));
    assert_eq!(second.found, first.found);
    assert_eq!(second.flags, first.flags);
    assert!(second.flags[1].installed);
}

#[test]
fn only_files_sharing_every_piece_count_as_collateral() {
    let piece = 1000u64;
    let mk = |index: usize, size: u64, offset: u64| TorrentFileEntry {
        index,
        path: format!("f{index}.zip"),
        size,
        offset,
    };
    let index = TorrentIndex {
        name: "t".into(),
        files: vec![mk(0, 500, 0), mk(1, 400, 500), mk(2, 2100, 900)],
        total_size: 3000,
        piece_length: piece,
    };
    let collateral = collateral_file_indices(&index, &vec![0]);
    assert!(collateral.contains(&1));
    assert!(!collateral.contains(&2));
    assert!(collateral_file_indices(&index, &Vec::new()).is_empty());
    assert_eq!(collateral, vec![1]);
}

fn wolves() -> Vec<Game> {
    vec![
        row(
            1,
            "Wolfenstein 3D",
            "WOLF3D",
            r"eXo\eXoDOS\!dos\WOLF3D\Wolfenstein 3D (1992).bat",
            Some(0),
        ),
        row(2, "Wolfendoom", "WOLFDOOM", r"eXo\eXoDOS\!dos\WOLFDOOM\Wolfendoom (2000).bat", Some(1)),
    ]
}

#[test]
fn collateral_neighbours_do_not_enter_the_library() {
    let on_disk = || disk(&["WOLF3D"], &[("Wolfendoom (2000).zip", WOLFENDOOM)]);
    let r = scan_installed_games_with_db(&input(wolves(), on_disk(), false), "/data").unwrap_or_else(|e| panic!("{}", e));
    assert!(!r.flags[1].in_library);
    assert!(!r.flags[1].installed);
    let rows = with_flags(wolves(), &r.flags);
    let r = scan_installed_games_with_db(&input(rows, on_disk(), true), "/data").unwrap_or_else(|e| panic!("{}", e));
    assert!(r.flags[1].installed);
}

#[test]
fn an_imported_library_is_never_treated_as_collateral() {
    let mut i = input(wolves(), disk(&["WOLF3D"], &[("Wolfendoom (2000).zip", WOLFENDOOM)]), false);
    i.disk_is_library = true;
    let r = scan_installed_games_with_db(&i, "/data").unwrap_or_else(|e| panic!("{}", e));
    assert!(r.flags[1].in_library);
    assert!(r.flags[1].installed);
}

fn wolf() -> Vec<Game> {
    vec![row(1, "Wolf", "WOLF", r"eXo\eXoDOS\!dos\WOLF\Wolf (1994).bat", Some(3))]
}

#[test]
fn a_partial_archive_is_not_an_install() {
    let installed_after = |adopt: bool| {
        let i = input(wolf(), disk(&[], &[("Wolf (1994).zip", 8 * 1024 * 1024)]), adopt);
        let r = scan_installed_games_with_db(&i, "/data").unwrap_or_else(|e| panic!("{}", e));
        r.flags[0].installed
    };
    assert!(!installed_after(false));
    assert!(installed_after(true));
}

#[test]
fn an_archive_still_downloading_is_not_an_install() {
    let installed = |in_flight: &[&str]| {
        let mut i = input(wolf(), disk(&[], &[("Wolf (1994).zip", WOLF)]), false);
        i.in_flight = texts(in_flight);
        let r = scan_installed_games_with_db(&i, "/data").unwrap_or_else(|e| panic!("{}", e));
        r.flags[0].installed
    };
    assert!(!installed(&["eXo/eXoDOS/Wolf (1994).zip"]));
    assert!(installed(&[]));
}

#[test]
fn a_dead_extraction_is_no_install() {
    let mut on_disk = disk(&["WOLF"], &[]);
    on_disk.shelves[0].files.push(ShelfFile {
        name: s("Wolf (1994).extracting"),
        len: 0,
        age: Some(301),
    });
    let r = scan_installed_games_with_db(&input(wolf(), on_disk, false), "/data").unwrap_or_else(|e| panic!("{}", e));
    assert_eq!(r.stale_locks.len(), 1);
    assert!(r.stale_locks[0].ends_with("Wolf (1994).extracting"));
    let rows = wolf();
    let at = rows.iter().position(|g| archive_name_of(g) == "Wolf (1994)").unwrap();
    assert!(!r.flags[at].installed && r.flags[at].in_library);
    assert!(lock_is_stale(301));
    assert!(!lock_is_stale(300));
}

#[test]
fn archives_are_named_after_the_batch_file() {
    assert_eq!(
        game_name_from_app_path(r"eXo\eXoDOS\!dos\SQ5\Space Quest V (1993).bat"),
        Some(s("Space Quest V (1993)"))
    );
    let mut g = row(1, "Some Game", "SG", "", None);
    g.application_path = None;
    g.year = Some(1990);
    assert_eq!(archive_name_of(&g), "Some Game");
    assert_eq!(archive_name_of(&sq5()), "Space Quest V (1993)");
    let found = vec![
        FoundFiles { game: None, gamedata: None },
        FoundFiles {
            game: Some(file(7, "a", 10, 0)),
            gamedata: Some(file(9, "b", 5, 10)),
        },
    ];
    let m = match_torrent_indices(&found).unwrap();
    assert_eq!((m.game_index, m.gamedata_index, m.size), (7, Some(9), 15));
    assert!(match_torrent_indices(&Vec::new()).is_none());
}

#[test]
fn torrents_find_their_files() {
    let t = torrent().index;
    assert_eq!(t.find_by_path("eXo/eXoDOS/Wolf (1994).zip").map(|f| f.index), Some(3));
    assert!(t.find_by_path("eXo/eXoDOS/None.zip").is_none());
    assert_eq!(t.find_by_suffix("Wolf (1994).zip").map(|f| f.index), Some(3));
}

#[test]
fn rel_paths_nest_win9x_games_under_their_year_dir() {
    let app = Some(r"eXo\eXoWin9x\!win9x\1995\Connect4 (1995)\Connect4 (1995).bat");
    assert_eq!(
        collection_rel_game_dir("eXoWin9x", "Connect4 (1995)", app),
        "eXo/eXoWin9x/1995/Connect4 (1995)"
    );
    assert_eq!(
        collection_rel_zip("eXoWin9x", "Connect4 (1995)", app),
        "eXo/eXoWin9x/1995/Connect4 (1995).zip"
    );
    assert_eq!(
        collection_rel_game_dir("eXoWin9x", "Connect4 (1995)", None),
        "eXo/eXoWin9x/Connect4 (1995)"
    );
    assert_eq!(collection_year_dir("eXoWin9x", app), Some(s("1995")));
    assert_eq!(collection_year_dir("eXoDOS", app), None);
}

#[test]
fn collections_are_told_apart() {
    let all = collection_map();
    for (i, a) in all.iter().enumerate() {
        for b in &all[i + 1..] {
            assert_ne!(a.id, b.id);
        }
        assert_eq!(collection_base_id(collection_base_id(a.id)), collection_base_id(a.id));
    }
    assert_eq!(collection_def("eXoDOS").unwrap().launcher, Launcher::DosBox);
    assert!(collection_def("nothing").is_none());
    assert_eq!(collection_base_id("eXoDOS_GLP"), "eXoDOS");
    assert_eq!(collection_lang_dir("eXoDOS_GLP"), Some("!german"));
    assert_eq!(collection_lang_dir("eXoDOS"), None);
    assert_eq!(collection_game_prefix("eXoDOS_GLP"), "eXo/eXoDOS");
    assert_eq!(asset_fallback("eXoDOS"), None);
    assert_eq!(asset_fallback("eXoDOS_GLP"), Some("eXoDOS"));
}

#[test]
fn lp_zip_candidates_probe_lang_dir_then_root() {
    let c = launch_zip_candidates("/r", "eXoDOS_GLP", "Das Amt (1994)", None);
    assert_eq!(
        c,
        vec![
            s("/r/eXo/eXoDOS/!german/Das Amt (1994).zip"),
            s("/r/eXo/eXoDOS/Das Amt (1994).zip"),
        ]
    );
    let c = launch_zip_candidates("/r", "eXoDOS", "Doom (1993)", None);
    assert_eq!(c, vec![s("/r/eXo/eXoDOS/Doom (1993).zip")]);
}

fn facts() -> DownloadFacts {
    DownloadFacts {
        manager_ready: true,
        offline: false,
        support_ready: true,
        data_dir_set: true,
        on_disk: 0,
        free: Some(10_000 * MIB),
        base_size: None,
        pack_size: None,
        main_ready: true,
        confs_there: true,
        roms_there: true,
        wants_midi: false,
        windows: false,
        ece_there: false,
    }
}

fn sq5() -> Game {
    let mut g = row(
        5,
        "Space Quest V",
        "SQ5",
        r"eXo\eXoDOS\!dos\SQ5\Space Quest V (1993).bat",
        Some(7),
    );
    g.gamedata_torrent_index = Some(8);
    g.download_size = Some(100 * MIB as i64);
    g
}

fn planned(game: &Game, facts: &DownloadFacts) -> DownloadPlan {
    match download_game(game, facts) {
        Ok(DownloadStart::Queue(plan)) => plan,
        _ => panic!("the download is planned"),
    }
}

#[test]
fn a_game_enters_the_library_once_it_is_queued() {
    let mut g = sq5();
    g.in_library = false;
    let end = download_outcome(&g, download_game(&g, &facts()), &Ok(()));
    assert!(end.in_library);
    assert!(matches!(end.result, Ok(said) if said == "Downloading: Space Quest V"));
    let end = download_outcome(&g, download_game(&g, &facts()), &Err(s("no session")));
    assert!(!end.in_library);
    match end.result {
        Err(DownloadFailure::NotQueued(said)) => {
            assert_eq!(said, "Failed to queue download: no session")
        }
        _ => panic!("nothing was queued"),
    }
    let mut full = facts();
    full.free = Some(0);
    let end = download_outcome(&g, download_game(&g, &full), &Ok(()));
    assert!(!end.in_library);
    assert!(matches!(
        end.result,
        Err(DownloadFailure::Refused(DownloadRefusal::NoSpace { .. }))
    ));
    g.installed = true;
    let end = download_outcome(&g, download_game(&g, &full), &Ok(()));
    assert!(!end.in_library);
    assert!(matches!(end.result, Ok(said) if said == "Space Quest V is already installed"));
}

#[test]
fn downloads_are_planned_and_refused() {
    let plan = planned(&sq5(), &facts());
    assert_eq!(plan.files, vec![7, 8]);
    assert!(!plan.confs && !plan.dos_support && !plan.win9x_support && !plan.scummvm_support);

    let mut f = facts();
    f.confs_there = false;
    f.roms_there = false;
    f.wants_midi = true;
    let plan = planned(&sq5(), &f);
    assert!(plan.confs && plan.dos_support);

    let mut g = sq5();
    g.installed = true;
    assert!(matches!(download_game(&g, &facts()), Ok(DownloadStart::AlreadyThere)));
    let mut g = sq5();
    g.game_torrent_index = None;
    match download_game(&g, &facts()) {
        Err(DownloadRefusal::NoIndex) => {}
        _ => panic!("a game without an index is refused"),
    }
    let mut f = facts();
    f.manager_ready = false;
    match download_game(&sq5(), &f) {
        Err(DownloadRefusal::NoManager) => {}
        _ => panic!("nothing is fetched without a manager"),
    }
    assert_eq!(
        refusal_message(&sq5(), &DownloadRefusal::NoManager, false),
        Some(s("Download manager for 'eXoDOS' not initialized."))
    );
    let mut f = facts();
    f.free = Some(699 * MIB);
    match download_game(&sq5(), &f) {
        Err(DownloadRefusal::NoSpace { needed, free }) => {
            assert_eq!(needed, 700 * MIB);
            assert_eq!(free, 699 * MIB);
        }
        _ => panic!("a full disk is refused"),
    }
    f.free = Some(700 * MIB);
    assert!(download_game(&sq5(), &f).is_ok());
    f.base_size = Some(10 * MIB as i64);
    assert!(download_game(&sq5(), &f).is_err());
    assert_eq!(launcher_for(&sq5()), Some(Launcher::DosBox));
}

#[test]
fn the_emulator_pack_is_counted() {
    let mut f = facts();
    f.base_size = Some(10 * MIB as i64);
    f.pack_size = Some(100 * MIB);
    f.free = Some(0);
    match download_game(&sq5(), &f) {
        Err(DownloadRefusal::NoSpace { needed, .. }) => assert_eq!(needed, 950 * MIB),
        _ => panic!("a full disk is refused"),
    }
    f.pack_size = None;
    f.base_size = Some(-1);
    match download_game(&sq5(), &f) {
        Err(DownloadRefusal::NoSpace { needed, .. }) => assert_eq!(needed, u64::MAX),
        _ => panic!("a size below zero is a large one"),
    }
}

fn packs_of(id: &str, digest: &str) -> Vec<PackEntry> {
    let info = || ContentPackInfo {
        display_name: s(id),
        description: String::new(),
        url: s("https://example.org/p.zip"),
        sha256: s(digest),
        torrent_file_path: None,
        size_bytes: 42,
        version: 1,
        install_path: s("content/emulators"),
        supersedes: Vec::new(),
        min_compatible_version: 0,
    };
    vec![PackEntry { id: s(id), info: info(), here: Some(info()) }]
}

#[test]
fn the_emulator_comes_along() {
    let none = Win9xEngine { pack: None, resolvable: false };
    let mut maniac = sq5();
    maniac.torrent_source = Some(s("eXoScummVM"));
    maniac.dosbox_variant = Some(s("2.5"));
    let packs = packs_of("scummvm-2.5.0", "abc");
    match emulator_pack(&maniac, false, &none, Some(EngineSource::Path), &packs) {
        Some((id, info)) => {
            assert_eq!(id, "scummvm-2.5.0");
            assert_eq!(info.size_bytes, 42);
        }
        None => panic!("a copy of the system does not do"),
    }
    assert!(emulator_pack(&maniac, false, &none, Some(EngineSource::Pack), &packs).is_none());
    assert!(emulator_pack(&maniac, true, &none, None, &packs).is_none());
    let undone = packs_of("scummvm-2.5.0", "TODO");
    assert!(emulator_pack(&maniac, false, &none, None, &undone).is_none());
    assert!(emulator_pack(&sq5(), false, &none, None, &packs).is_none());

    let mut win = sq5();
    win.torrent_source = Some(s("eXoWin9x"));
    let packs = packs_of("86box", "abc");
    let mut engine = Win9xEngine { pack: Some(s("86box")), resolvable: false };
    assert!(emulator_pack(&win, false, &engine, None, &packs).is_some());
    engine.resolvable = true;
    assert!(emulator_pack(&win, false, &engine, None, &packs).is_none());
}

#[test]
fn midi_is_asked_for_in_the_configuration() {
    assert!(game_requests_midi(Some("[midi]\nmididevice = mt32\n")));
    assert!(!game_requests_midi(None));
}

fn library_row(id: i64, installed: bool, complete: bool) -> LibraryRow {
    LibraryRow {
        id,
        title: s("T"),
        torrent_source: s("eXoDOS"),
        thumbnail_key: None,
        installed,
        file: Some(SessionFile { selected: true, complete, path: Some(format!("eXo/eXoDOS/{}.zip", id)) }),
    }
}

#[test]
fn downloads_in_flight_are_no_installs() {
    let mut unselected = library_row(4, false, false);
    unselected.file = Some(SessionFile { selected: false, complete: false, path: None });
    let rows = vec![
        library_row(1, false, false),
        library_row(2, true, false),
        library_row(3, false, true),
        unselected,
    ];
    let pending = pending_downloads(&rows);
    assert_eq!(pending.iter().map(|p| p.id).collect::<Vec<_>>(), vec![1, 2, 3]);
    assert_eq!(false_installs(&pending), vec![2]);
    assert_eq!(in_flight(&pending), texts(&["eXo/eXoDOS/1.zip", "eXo/eXoDOS/2.zip"]));
}

fn progress() -> Progress {
    Progress {
        downloaded_bytes: 90,
        total_bytes: 100,
        finished: false,
        installed: false,
        extras_done: None,
        waiting_for: None,
        error: None,
    }
}

#[test]
fn progress_settles_on_what_the_disk_holds() {
    let p = settle_progress(progress(), false, &Extras::Absent, true, Some(100));
    assert!(p.finished);
    assert_eq!(p.downloaded_bytes, 100);
    let p = settle_progress(progress(), false, &Extras::NotSelected, true, Some(99));
    assert!(!p.finished);
    assert_eq!(p.extras_done, Some(true));
    let extras = Extras::Fetched { finished: false, total: 5, on_disk: Some(4) };
    assert_eq!(settle_progress(progress(), true, &extras, false, None).extras_done, Some(false));
}

#[test]
fn a_download_is_finished_once_its_archive_is_there() {
    let poll = |game: &Game, finished: bool, archive: Option<ArchiveState>, retries: &mut RetryState, now: u64| {
        let mut p = progress();
        p.finished = finished;
        get_download_progress(game, true, Some(p), &Extras::Absent, false, None, &archive, retries, now)
    };
    let mut retries = RetryState::new();
    let there = |lock_age| Some(ArchiveState { there: true, lock_age });
    let missing = || Some(ArchiveState { there: false, lock_age: None });

    let (p, action) = poll(&sq5(), false, missing(), &mut retries, 1_000_000);
    assert!(!p.unwrap().finished);
    assert!(matches!(action, PollAction::Nothing));

    let (p, action) = poll(&sq5(), true, missing(), &mut retries, 1_000_000);
    assert!(!p.unwrap().finished);
    assert!(matches!(action, PollAction::Reassemble));
    let (_, action) = poll(&sq5(), true, missing(), &mut retries, 1_001_000);
    assert!(matches!(action, PollAction::Nothing));

    let (p, action) = poll(&sq5(), true, there(Some(301)), &mut retries, 1_002_000);
    assert!(p.unwrap().finished);
    assert!(matches!(action, PollAction::TakeLock { drop_stale: true }));
    assert_eq!(retries.entries.len(), 0);
    let (_, action) = poll(&sq5(), true, there(Some(300)), &mut retries, 1_002_000);
    assert!(matches!(action, PollAction::TakeLock { drop_stale: false }));

    let mut installed = sq5();
    installed.installed = true;
    let (_, action) = poll(&installed, true, there(None), &mut retries, 1_002_000);
    assert!(matches!(action, PollAction::Nothing));
    let (p, _) = get_download_progress(
        &sq5(), false, Some(progress()), &Extras::Absent, false, None, &None, &mut retries, 1_002_000,
    );
    assert!(p.is_none());

    let mut now = 2_000_000;
    for _ in 0..60 {
        let (p, action) = poll(&sq5(), true, missing(), &mut retries, now);
        assert!(p.unwrap().error.is_none());
        assert!(matches!(action, PollAction::Reassemble));
        now += 5_000;
    }
    let (p, action) = poll(&sq5(), true, missing(), &mut retries, now);
    assert!(p.unwrap().error.unwrap().starts_with("Download stuck"));
    assert!(matches!(action, PollAction::Nothing));
}

#[test]
fn a_lock_is_given_back_where_the_base_is_missing() {
    let base = |unpacked| Some(BaseState { title: s("Doom"), unpacked });
    let (p, action) = lock_outcome(progress(), true, &base(false));
    assert_eq!(p.waiting_for, Some(s("Doom")));
    assert!(matches!(action, LockAction::Release));
    let (p, action) = lock_outcome(progress(), true, &base(true));
    assert_eq!(p.waiting_for, None);
    assert!(matches!(action, LockAction::Unpack { onto_base: true }));
    assert!(matches!(lock_outcome(progress(), true, &None).1, LockAction::Unpack { onto_base: false }));
    assert!(matches!(lock_outcome(progress(), false, &None).1, LockAction::Nothing));
    assert!(matches!(install_outcome(true, &None), InstallOutcome::Installed));
    assert!(matches!(install_outcome(false, &None), InstallOutcome::Gone));
    let broken = Some(ExtractError::NotAnArchive(s("no end record")));
    assert!(matches!(install_outcome(true, &broken), InstallOutcome::Discard));
    let full = Some(ExtractError::Other(s("disk full")));
    assert!(matches!(install_outcome(true, &full), InstallOutcome::Failed));
}

#[test]
fn a_stuck_download_is_retried_and_reported() {
    let mut retries = RetryState::new();
    assert_eq!(retries.tick(1, 1_000_000), (1, true));
    assert_eq!(retries.tick(1, 1_004_999), (1, false));
    assert_eq!(retries.tick(1, 1_005_000), (2, true));
    assert_eq!(retries.tick(2, 1_005_000), (1, true));
    retries.clear(1);
    assert_eq!(retries.tick(1, 1_006_000), (1, true));
    assert_eq!(retries.tick(2, 1_125_000), (1, true));
    assert!(should_reassemble(60, true));
    assert!(!should_reassemble(61, true));
    assert!(!should_reassemble(1, false));
    assert!(report_stuck(progress(), 61).error.is_some());
    assert!(report_stuck(progress(), 60).error.is_none());
}

#[test]
fn metadata_is_unpacked_once_at_a_time() {
    let mut state = DosmetaState::new();
    assert!(state.try_begin(0));
    assert!(!state.try_begin(1));
    state.finish(true, 2);
    assert!(state.try_begin(3));
    state.finish(false, 4);
    assert!(!state.try_begin(303));
    assert!(state.try_begin(304));
}

#[test]
fn shared_extras_stay_until_nobody_wants_them() {
    let mut german = sq5();
    german.id = 6;
    german.installed = true;
    assert_eq!(gamedata_drop(&vec![sq5()], &sq5()), Some(8));
    assert_eq!(gamedata_drop(&vec![sq5(), german], &sq5()), None);
    assert_eq!(queue_base_game(&sq5(), true), Ok(vec![7, 8]));
    assert!(queue_base_game(&sq5(), false).is_err());
    let plan = cancel_download(&vec![sq5()], &sq5());
    assert_eq!(plan.source, "eXoDOS");
    assert_eq!(plan.files, vec![7, 8]);
    let waiting = cancel_dependents(&vec![sq5()]);
    assert_eq!(waiting[0].id, 5);
    assert_eq!(waiting[0].title, "Space Quest V");
}

#[test]
fn a_launch_unpacks_what_is_not_unpacked() {
    let places = launch_places(&sq5(), "eXoDOS", "/r").unwrap_or_else(|e| panic!("{}", e.message()));
    assert_eq!(places.game_dir, "/r/eXo/eXoDOS/SQ5");
    assert_eq!(places.zips, texts(&["/r/eXo/eXoDOS/Space Quest V (1993).zip"]));
    let mut bare = sq5();
    bare.shortcode = None;
    match launch_places(&bare, "eXoDOS", "/r") {
        Err(e) => assert_eq!(e.message(), "'Space Quest V' has no game directory in the catalogue"),
        Ok(_) => panic!("a game without a shortcode has no directory"),
    }
    assert!(matches!(extract_before_launch(&sq5(), true, &vec![], false), Ok(LaunchStep::Run)));
    assert!(matches!(
        extract_before_launch(&sq5(), false, &vec![false, true], false),
        Ok(LaunchStep::Unpack { zip: 1 })
    ));
    assert!(matches!(
        extract_before_launch(&sq5(), false, &vec![true], true),
        Err(LaunchError::StillDownloading { .. })
    ));
    assert!(matches!(
        extract_before_launch(&sq5(), false, &vec![false], false),
        Err(LaunchError::FilesMissing { .. })
    ));
    let placeholder = extract_error(ZipFault::Invalid, "no central directory");
    assert_eq!(placeholder.message(), "no central directory");
    assert!(extract_error(ZipFault::Unsupported, "x").is_not_an_archive());
    assert!(!extract_error(ZipFault::Other, "x").is_not_an_archive());
    assert!(placeholder.is_not_an_archive());
    let (e, reset) = after_unpacking(&sq5(), Some(placeholder), false, "/d");
    assert!(reset);
    assert!(matches!(e, Some(LaunchError::Placeholder { .. })));
    let io = ExtractError::Other(s("no such file"));
    assert!(!io.is_not_an_archive());
    let (e, reset) = after_unpacking(&sq5(), Some(io), true, "/d");
    assert!(!reset);
    assert_eq!(e.unwrap().message(), "Failed to extract game before launch: no such file");
    let (e, _) = after_unpacking(&sq5(), None, false, "/d");
    assert!(matches!(e, Some(LaunchError::Misplaced { .. })));
    assert!(after_unpacking(&sq5(), None, true, "/d").0.is_none());
    assert_eq!(top_directory(&vec![None, Some(s("SQ5/SQ5.EXE"))]), Some(s("SQ5")));
}

#[test]
fn uninstalling_keeps_the_saves() {
    assert_eq!(rel_save_dir("eXoDOS", "SQ5", None), "eXo/eXoDOS/!save/SQ5");
    let plan = uninstall_game(&sq5(), "/r", false).unwrap_or_else(|e| panic!("{}", e));
    assert_eq!(plan.game_dir, "/r/eXo/eXoDOS/SQ5");
    assert_eq!(plan.save_dir, "/r/eXo/eXoDOS/!save/SQ5");
    assert_eq!(plan.rel_zip, "eXo/eXoDOS/Space Quest V (1993).zip");
    assert_eq!(plan.zip, "/r/eXo/eXoDOS/Space Quest V (1993).zip");
    assert!(uninstall_game(&sq5(), "/r", true).is_err());
    let mut there = sq5();
    there.installed = true;
    there.in_library = true;
    let end = uninstall_outcome(&there);
    assert_eq!(end.message, "Uninstalled: Space Quest V");
    assert!(!end.flags.installed && !end.flags.in_library);
    assert!(matches!(backup_step(BackupState::Start { there: true }), BackupStep::Rename));
    assert!(matches!(backup_step(BackupState::Start { there: false }), BackupStep::Done));
    assert!(matches!(backup_step(BackupState::Renamed { ok: false }), BackupStep::Copy));
    assert!(matches!(backup_step(BackupState::Copied { ok: true }), BackupStep::Delete));
    assert!(matches!(backup_step(BackupState::Copied { ok: false }), BackupStep::Keep));
    assert_eq!(copy_outcome("/g", &Vec::new()), Ok(()));
    assert_eq!(
        copy_outcome("/g", &texts(&["Failed to copy a", "Failed to copy b"])),
        Err(s("2 item(s) failed while copying /g (first: Failed to copy a)"))
    );
}

#[test]
fn a_reinstall_finds_the_saves() {
    let kept = uninstall_game(&sq5(), "/r", false).unwrap_or_else(|e| panic!("{}", e));
    let names = vec![Some(s("SQ5/")), Some(s("SQ5/SQ5.EXE"))];
    let plan = restore_plan("/r/eXo/eXoDOS", &names).unwrap();
    assert_eq!(plan.game_dir, "/r/eXo/eXoDOS/SQ5");
    assert_eq!(plan.saves, texts(&["/r/eXo/eXoDOS/!save/SQ5", "/r/eXo/!save/SQ5"]));
    assert_eq!(plan.saves[0], kept.save_dir);
    assert!(restore_plan("/r/eXo/eXoDOS", &Vec::new()).is_none());
    assert_eq!(restored_save(true, &vec![true, true]), Some(0));
    assert_eq!(restored_save(true, &vec![false, true]), Some(1));
    assert_eq!(restored_save(true, &vec![false, false]), None);
    assert_eq!(restored_save(false, &vec![true, true]), None);
}

#[test]
fn only_deleted_files_are_forgotten() {
    let t = torrent().index;
    match ledger_step(&t, true, &texts(&["eXo/eXoDOS/Wolf (1994).zip"]), Some(3), Some(9)) {
        LedgerStep::Invalidate { dropped, deleted } => {
            assert_eq!(deleted, vec![3]);
            assert_eq!(dropped, vec![3, 9]);
        }
        _ => panic!("a deleted archive is forgotten"),
    }
    match ledger_step(&t, true, &Vec::new(), Some(3), None) {
        LedgerStep::Deselect { dropped } => assert_eq!(dropped, vec![3]),
        _ => panic!("a kept archive is deselected"),
    }
    assert!(matches!(ledger_step(&t, false, &Vec::new(), Some(3), None), LedgerStep::Nothing));
}

#[test]
fn a_reset_unpacks_again() {
    let plan = reset_game_data(&sq5(), "/r", false, &None).unwrap_or_else(|e| panic!("{}", e));
    assert_eq!(plan.game_dir, "/r/eXo/eXoDOS/SQ5");
    assert_eq!(plan.base_dir, None);
    assert!(reset_game_data(&sq5(), "/r", true, &None).is_err());
    let missing = Some(ResetBase { title: s("Base"), dir: None });
    assert!(reset_game_data(&sq5(), "/r", false, &missing).is_err());
    let base = Some(ResetBase { title: s("Base"), dir: Some(s("/b")) });
    let plan = reset_game_data(&sq5(), "/r", false, &base).unwrap_or_else(|e| panic!("{}", e));
    assert_eq!(plan.base_dir, Some(s("/b")));
    assert!(reset_message(&sq5()).contains("Space Quest V"));
    assert_ne!(
        reset_failure("T", "/d", &ResetFailure::NoArchive),
        reset_failure("T", "/d", &ResetFailure::BadArchive)
    );
}

/// The steps that a reset takes, and the text that it ends with where it fails.
fn reset_run(has_base: bool, opened: Opening, fails: Option<ResetStep>) -> (Vec<ResetStep>, String) {
    let mut steps = Vec::new();
    let mut state = ResetState::Start;
    loop {
        let step = match reset_next(state, has_base) {
            Ok(ResetStep::Done) => return (steps, String::new()),
            Ok(step) => step,
            Err(f) => return (steps, reset_failure("T", "/d", &f)),
        };
        let outcome = if fails == Some(step) { Err(s("no")) } else { Ok(()) };
        steps.push(step);
        state = match step {
            ResetStep::OpenArchive => ResetState::Opened(opened),
            ResetStep::RemoveGame => ResetState::GameRemoved(outcome),
            ResetStep::RemoveBackup => ResetState::BackupRemoved,
            ResetStep::LayBase => ResetState::BaseLaid(outcome),
            ResetStep::Unpack => ResetState::Unpacked(outcome),
            _ => ResetState::Marked,
        };
    }
}

#[test]
fn a_reset_without_an_archive_removes_nothing() {
    let (steps, said) = reset_run(false, Opening::Missing, None);
    assert!(steps == [ResetStep::OpenArchive]);
    assert!(said.contains("is not on disk"));
    let (steps, said) = reset_run(true, Opening::Broken, None);
    assert!(steps == [ResetStep::OpenArchive]);
    assert!(said.contains("incomplete or corrupted"));
    let (steps, said) = reset_run(true, Opening::Whole, None);
    assert!(steps[..3] == [ResetStep::OpenArchive, ResetStep::RemoveGame, ResetStep::RemoveBackup]);
    assert!(steps[3..] == [ResetStep::LayBase, ResetStep::Unpack, ResetStep::MarkInstalled]);
    assert_eq!(said, "");
    let (steps, _) = reset_run(false, Opening::Whole, None);
    assert!(!steps.contains(&ResetStep::LayBase));
    let (steps, said) = reset_run(false, Opening::Whole, Some(ResetStep::RemoveGame));
    assert!(steps == [ResetStep::OpenArchive, ResetStep::RemoveGame]);
    assert_eq!(said, "Failed to remove /d: no");
    let (steps, said) = reset_run(true, Opening::Whole, Some(ResetStep::LayBase));
    assert_eq!(steps.len(), 4);
    assert_eq!(said, "Could not restore the English base at /d: no");
    let (steps, said) = reset_run(false, Opening::Whole, Some(ResetStep::Unpack));
    assert!(!steps.contains(&ResetStep::MarkInstalled));
    assert_eq!(said, "no");
}

#[test]
fn pristine_falls_back_to_the_manifest_when_the_archive_is_gone() {
    let places = pristine_places("/data", "/data/eXoDOS", &sq5());
    assert_eq!(places.zip, zip_path_of("/data/eXoDOS", &sq5()));
    assert_eq!(places.manifest, Some(manifest_path("/data", "eXoDOS", 7)));
    assert_eq!(manifest_path("/data", "eXoDOS", 7), "/data/content/pristine/eXoDOS_7.idx");
    assert!(matches!(pristine_for(true, false), Some(PristineSource::Archive)));
    assert!(matches!(pristine_for(true, true), Some(PristineSource::Archive)));
    assert!(matches!(pristine_for(false, true), Some(PristineSource::Manifest)));
    assert!(pristine_for(false, false).is_none());
}

#[test]
fn archives_are_counted_and_removed() {
    assert_eq!(KEEP_ARCHIVES_KEY, "keep_archives");
    assert!(keep_archives(None) && keep_archives(Some("1")));
    assert!(!keep_archives(Some("0")));
    let zip = "/r/eXo/eXoDOS/Space Quest V (1993).zip";
    let zips = vec![RealArchive { path: s(zip), bytes: 40 }];
    assert_eq!(real_archive_bytes(&zips, zip), Some(40));
    assert_eq!(real_archive_bytes(&zips, "/x.zip"), None);
    let dirs = texts(&["/r/eXo/eXoDOS/SQ5"]);
    assert_eq!(installed_archives(&vec![sq5()], "/r", &dirs, &zips).len(), 0);
    let mut there = sq5();
    there.installed = true;
    let there = vec![there];
    let list = installed_archives(&there, "/r", &dirs, &zips);
    assert_eq!(list.len(), 1);
    assert_eq!(list[0].file_index, 7);
    assert_eq!(installed_archives(&there, "/r", &Vec::new(), &zips).len(), 0);
    let usage = archive_usage(&list);
    assert_eq!((usage.count, usage.bytes), (1, 40));
    let managers = texts(&["eXoDOS"]);
    assert_eq!(remove_installed_archives(&list, &managers, &Vec::new()), Ok(vec![0]));
    assert_eq!(remove_installed_archives(&list, &managers, &vec![5]), Ok(vec![]));
    assert_eq!(remove_installed_archives(&list, &texts(&["eXoWin3x"]), &Vec::new()), Ok(vec![]));
    assert!(remove_installed_archives(&list, &Vec::new(), &Vec::new()).is_err());
    assert_eq!(removed_indices(&list, "eXoDOS"), vec![7]);
    assert_eq!(removed_indices(&list, "eXoWin3x"), Vec::<usize>::new());
    assert_eq!(unlink_message("/z", "/m", &UnlinkFailure::NotAnArchive), "/z is not an archive");
    assert_eq!(unlink_message("/z", "/m", &UnlinkFailure::Manifest(s("full"))), "cannot write /m: full");
    assert_eq!(unlink_message("/z", "/m", &UnlinkFailure::Remove(s("busy"))), "cannot remove /z: busy");
    let dropping = |state: UnlinkState| unlink_archive("/z", "/m", &state);
    assert!(matches!(dropping(UnlinkState::Start { reads: true }), UnlinkStep::List));
    assert!(matches!(dropping(UnlinkState::Listed { failure: None }), UnlinkStep::Remove));
    assert!(matches!(dropping(UnlinkState::Removed { failure: None }), UnlinkStep::Done));
    for (state, said) in [
        (UnlinkState::Start { reads: false }, "/z is not an archive"),
        (UnlinkState::Listed { failure: Some(s("full")) }, "cannot write /m: full"),
        (UnlinkState::Removed { failure: Some(s("busy")) }, "cannot remove /z: busy"),
    ] {
        match dropping(state) {
            UnlinkStep::Fail(message) => assert_eq!(message, said),
            _ => panic!("the archive stays"),
        }
    }
    let places = usage_places("/r", &sq5()).unwrap();
    assert_eq!(places.save_dir, "/r/eXo/eXoDOS/!save/SQ5");
    let usage = game_disk_usage(Some(1), None, Some(3));
    assert_eq!((usage.game_bytes, usage.archive_bytes, usage.save_bytes), (1, 0, 3));
    let many = vec![
        InstalledArchive { id: 1, source: s("a"), file_index: 0, zip: s("z"), bytes: u64::MAX },
        InstalledArchive { id: 2, source: s("a"), file_index: 1, zip: s("y"), bytes: 1 },
    ];
    assert_eq!(archive_usage(&many).bytes, u64::MAX);
}

#[test]
fn the_ratio_separates_a_patch_from_a_full_translation() {
    assert!(is_overlay(1_168, 476_214_170));
    assert!(!is_overlay(474_082_680, 476_214_170));
}

#[test]
fn only_translations_have_a_base() {
    let mut en = sq5();
    en.installed = true;
    let mut de = sq5();
    de.id = 6;
    de.language = s("DE");
    de.torrent_source = Some(s("eXoDOS_GLP"));
    de.game_torrent_index = Some(0);
    let sizes = |de: u64| {
        vec![
            ArchiveSizes { collection: s("eXoDOS"), sizes: vec![0, 0, 0, 0, 0, 0, 0, 476_214_170] },
            ArchiveSizes { collection: s("eXoDOS_GLP"), sizes: vec![de] },
        ]
    };
    let rows = vec![sq5(), de];
    assert_eq!(base_for(&sizes(1_168), &rows, &rows[1]).map(|g| g.id), Some(5));
    assert!(base_for(&sizes(474_082_680), &rows, &rows[1]).is_none());
    assert!(base_for(&sizes(1_168), &rows, &rows[0]).is_none());
    assert_eq!(base_archive_size(&sizes(1_168), &rows, &rows[1]), Some(476_214_170));
    assert_eq!(archive_size(&sizes(5), "eXoDOS_GLP", 0), Some(5));
    assert_eq!(archive_size(&sizes(5), "eXoDOS_GLP", 1), None);
    assert_eq!(archive_size(&sizes(5), "eXoDOS_GLP", -1), None);
    assert_eq!(
        base_game_dir("/r", &rows[0], &texts(&["/r/eXo/eXoDOS/SQ5"])),
        Some(s("/r/eXo/eXoDOS/SQ5"))
    );
    assert_eq!(base_game_dir("/r", &rows[0], &Vec::new()), None);
}
