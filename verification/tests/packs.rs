use exodium::content_packs::{
    adopt_packs_on_disk, check_digest, cleanup_stale_content_packs, download_places, format_bytes,
    installable_pack, is_stale_download, job_key, list_content_packs, lost_message,
    mark_pack_installed, mark_pack_uninstalled, offline_refusal, phase_text, preflight, reports_progress,
    resolve_pack_install_dir, safe_join, size_refusal, space_refusal, start_pack_install,
    superseded_dirs, torrent_file, uninstall_refusal, unwrapped_source, verify_download,
    ContentPackInfo, ContentPackState, FileProgress, InstallAction, InstallEvent, Ledger,
    PackEntry, PackInstall, PackRoute, PollStep, StagedEntry, TorrentPoll,
};
use exodium::models::{TorrentFileEntry, TorrentIndex};
use exodium::scummvm::Os;
use exodium::table::Table;

fn s(x: &str) -> String {
    x.to_string()
}

fn pack(install_path: &str) -> ContentPackInfo {
    ContentPackInfo {
        display_name: s("Box Art"),
        description: String::new(),
        url: String::new(),
        sha256: String::new(),
        torrent_file_path: None,
        size_bytes: 42,
        version: 3,
        install_path: s(install_path),
        supersedes: Vec::new(),
        min_compatible_version: 0,
    }
}

fn entry(id: &str, install_path: &str) -> PackEntry {
    PackEntry { id: s(id), info: pack(install_path), here: Some(pack(install_path)) }
}

const POSTERS: &str = "content/posters/eXoDOS";
const NOW: &str = "2024-05-01T00:00:00Z";

#[test]
fn does_not_adopt_a_pack_for_another_platform() {
    let mut ledger = Ledger::new();
    let mut p = entry("dosbox-x", "content/emulators/dosbox-x");
    p.here = None;
    let r = adopt_packs_on_disk(&mut ledger, "eXoWin9x", &vec![p], &vec![true], NOW);
    assert!(r.adopted.is_empty());
    assert!(ledger.get("eXoWin9x", "dosbox-x").is_none());
}

#[test]
fn adopts_a_pack_directory_the_ledger_forgot() {
    let mut ledger = Ledger::new();
    let r = adopt_packs_on_disk(&mut ledger, "eXoDOS", &vec![entry("posters", POSTERS)], &vec![true], NOW);
    assert_eq!(r.adopted, vec![s("posters")]);
    let adopted = ledger.get("eXoDOS", "posters").expect("adopted");
    assert_eq!(adopted.version, 3);
    assert_eq!(adopted.installed_at, NOW);
}

fn scenario(installed_version: u32, floor: u32) -> (usize, Ledger) {
    let mut ledger = Ledger::new();
    mark_pack_installed(&mut ledger, "eXoDOS", "posters", installed_version, 1, NOW);
    let mut p = entry("posters", POSTERS);
    p.info.version = 5;
    p.info.min_compatible_version = floor;
    p.here = Some(pack(POSTERS));
    p.here.as_mut().unwrap().version = 5;
    p.here.as_mut().unwrap().min_compatible_version = floor;
    let mut manifest: Table<Vec<PackEntry>> = Table::new();
    manifest.insert("eXoDOS", vec![p]);
    let stale = cleanup_stale_content_packs(Os::Linux, &ledger, &manifest, "/data");
    for p in &stale {
        assert_eq!(p.dir, "/data/content/posters/eXoDOS");
        mark_pack_uninstalled(&mut ledger, &p.collection, &p.pack_id);
    }
    (stale.len(), ledger)
}

#[test]
fn keeps_an_outdated_but_compatible_pack() {
    let (gone, ledger) = scenario(3, 3);
    assert_eq!(gone, 0);
    assert!(ledger.get("eXoDOS", "posters").is_some());
}

#[test]
fn removes_a_pack_below_the_compatibility_floor() {
    let (gone, ledger) = scenario(2, 3);
    assert_eq!(gone, 1);
    assert!(ledger.get("eXoDOS", "posters").is_none());
}

#[test]
fn ignores_a_missing_or_empty_directory() {
    let mut ledger = Ledger::new();
    let r = adopt_packs_on_disk(&mut ledger, "eXoDOS", &vec![entry("posters", POSTERS)], &vec![false], NOW);
    assert!(r.adopted.is_empty());
    assert!(ledger.get("eXoDOS", "posters").is_none());
}

#[test]
fn forgets_a_pack_whose_directory_is_gone() {
    let mut ledger = Ledger::new();
    mark_pack_installed(&mut ledger, "eXoDOS", "posters", 5, 1, NOW);
    let r = adopt_packs_on_disk(&mut ledger, "eXoDOS", &vec![entry("posters", POSTERS)], &vec![false], NOW);
    assert_eq!(r.vanished, vec![s("posters")]);
    assert!(ledger.get("eXoDOS", "posters").is_none());
}

fn staging_with(entries: &[(&str, bool)]) -> Vec<StagedEntry> {
    entries.iter().map(|(name, is_dir)| StagedEntry { name: s(name), is_dir: *is_dir }).collect()
}

#[test]
fn unwraps_an_archive_that_repeats_the_target_directory() {
    let staging = staging_with(&[("eXoDOS", true)]);
    assert_eq!(unwrapped_source("/staging", "/data/content/posters/eXoDOS", &staging), "/staging/eXoDOS");
}

#[test]
fn unwraps_past_the_appledouble_sidecar_of_the_wrapper() {
    let staging = staging_with(&[("._eXoDOS", false), ("eXoDOS", true), (".DS_Store", false)]);
    assert_eq!(unwrapped_source("/staging", "/data/content/posters/eXoDOS", &staging), "/staging/eXoDOS");
}

#[test]
fn leaves_a_flat_archive_alone() {
    let staging = staging_with(&[("a.jpg", false), ("b.jpg", false)]);
    assert_eq!(unwrapped_source("/staging", "/data/content/posters/eXoWin9x", &staging), "/staging");
}

#[test]
fn keeps_a_lone_directory_that_is_not_the_wrapper() {
    let staging = staging_with(&[("Images", true)]);
    assert_eq!(unwrapped_source("/staging", "/data/content/metadata/eXoWin9x", &staging), "/staging");
}

#[test]
fn adopted_packs_are_not_stale() {
    let mut ledger = Ledger::new();
    let packs = || {
        let mut p = entry("posters", POSTERS);
        p.info.min_compatible_version = 3;
        p.here.as_mut().unwrap().min_compatible_version = 3;
        vec![p]
    };
    adopt_packs_on_disk(&mut ledger, "eXoDOS", &packs(), &vec![true], NOW);
    let mut manifest: Table<Vec<PackEntry>> = Table::new();
    manifest.insert("eXoDOS", packs());
    assert_eq!(cleanup_stale_content_packs(Os::Linux, &ledger, &manifest, "/data").len(), 0);
}

#[test]
fn packs_are_listed_by_id() {
    let mut ledger = Ledger::new();
    mark_pack_installed(&mut ledger, "eXoDOS", "b", 2, 1, NOW);
    let mut hidden = entry("c", "content/c");
    hidden.here = None;
    let packs = vec![entry("b", "content/b"), hidden, entry("a", "content/a")];
    let list = list_content_packs(&ledger, "eXoDOS", Some(&packs)).unwrap_or_else(|e| panic!("{}", e));
    assert_eq!(list.iter().map(|p| p.id.as_str()).collect::<Vec<_>>(), vec!["a", "b"]);
    assert!(!list[0].installed);
    assert!(list[1].installed);
    assert_eq!(list[1].installed_version, Some(2));
    match list_content_packs(&ledger, "nothing", None) {
        Err(e) => assert_eq!(e, "Unknown collection 'nothing'"),
        Ok(_) => panic!("an unknown collection is refused"),
    }
}

#[test]
fn one_install_at_a_time() {
    let mut state = ContentPackState::new();
    let mut p = entry("posters", POSTERS);
    p.info.url = s("https://example.org/p.tar.gz");
    p.here.as_mut().unwrap().url = s("https://example.org/p.tar.gz");
    let packs = vec![p];
    assert!(installable_pack(&packs, "posters").is_some());
    assert!(installable_pack(&packs, "music").is_none());
    assert!(start_pack_install(&mut state, "eXoDOS", "posters", Some(&packs)).is_ok());
    assert!(start_pack_install(&mut state, "eXoDOS", "posters", Some(&packs)).is_err());
    assert!(start_pack_install(&mut state, "eXoDOS", "music", Some(&packs)).is_err());
    assert!(start_pack_install(&mut state, "eXoDOS", "posters", None).is_err());
    let key = job_key("eXoDOS", "posters");
    assert!(state.busy(&key));
    assert_eq!(
        uninstall_refusal(&state, "eXoDOS", "posters"),
        Some(s("Install in progress - cancel it first."))
    );
    state.set_phase(&key, "extracting");
    state.set_progress(&key, 3, 42);
    let job = state.get(&key).unwrap();
    assert_eq!((job.phase.as_str(), job.downloaded_bytes, job.total_bytes), ("extracting", 3, 42));
    state.cancel(&key);
    assert!(state.get(&key).unwrap().cancel);
    state.finish(&key, Some("cancelled"));
    assert!(!state.busy(&key));
    assert!(uninstall_refusal(&state, "eXoDOS", "posters").is_none());
    assert!(start_pack_install(&mut state, "eXoDOS", "posters", Some(&packs)).is_ok());
    state.finish(&key, None);
    let job = state.get(&key).unwrap();
    assert!(job.finished && job.installed);
    assert_eq!(job.error, None);
}

#[test]
fn joined_paths_stay_below_their_base() {
    let join = |base: &str, rel: &str| safe_join(Os::Linux, base, rel);
    assert_eq!(join("/data", "content/a"), Ok(s("/data/content/a")));
    assert_eq!(join("/data", "../a"), Err(s("Invalid path: ../a")));
    assert_eq!(join("/data", "a/../../b"), Err(s("Invalid path: a/../../b")));
    assert_eq!(join("/data", "/etc"), Err(s("Invalid path: /etc")));
    assert_eq!(join("/data", "C:x"), Ok(s("/data/C:x")));
    let join = |base: &str, rel: &str| safe_join(Os::Windows, base, rel);
    assert_eq!(join(r"C:\data", "content/a"), Ok(s(r"C:\data/content/a")));
    assert_eq!(join(r"C:\data", "C:x"), Err(s("Path escapes base directory: C:x")));
    assert_eq!(join(r"C:\data", "d:/x"), Err(s("Path escapes base directory: d:/x")));
    assert_eq!(join(r"C:\data", r"C:\data\x"), Err(s(r"Invalid path: C:\data\x")));
    assert_eq!(join("C:data", "c:data/x"), Ok(s("c:data/x")));
    let placed = resolve_pack_install_dir(
        Os::Windows,
        "C:/data",
        "eXoDOS",
        "posters",
        &vec![entry("posters", "D:posters")],
    );
    assert_eq!(placed, "C:/data/content/posters/eXoDOS");
    assert_eq!(
        resolve_pack_install_dir(Os::Linux, "/data", "eXoDOS", "posters", &vec![entry("posters", POSTERS)]),
        "/data/content/posters/eXoDOS"
    );
    let mut newer = pack("content/new");
    newer.supersedes = vec![s("posters")];
    assert_eq!(
        superseded_dirs(Os::Linux, "/data", "eXoDOS", &newer, &vec![entry("posters", POSTERS)]),
        vec![s("/data/content/posters/eXoDOS")]
    );
}

#[test]
fn sizes_are_told_in_round_numbers() {
    assert_eq!(format_bytes(1_073_741_824), "1.0 GB");
    assert_eq!(format_bytes(1_610_612_736), "1.5 GB");
    assert_eq!(format_bytes(1_048_576), "1.0 MB");
    assert_eq!(format_bytes(1_048_575), "1023 KB");
    assert_eq!(format_bytes(500 * 1_048_576 + 943_718), "500.9 MB");
    for bytes in [0, 1023, 1024, 1_100_000, 1_153_434, 1_258_291, 5_000_000_000, 7_777_777_777, 1_207_959_552] {
        let plain = if bytes >= 1_073_741_824 {
            format!("{:.1} GB", bytes as f64 / 1_073_741_824.0)
        } else if bytes >= 1_048_576 {
            format!("{:.1} MB", bytes as f64 / 1_048_576.0)
        } else {
            format!("{} KB", bytes / 1024)
        };
        assert_eq!(format_bytes(bytes), plain);
    }
}

#[test]
fn space_is_checked_before_a_download() {
    assert_eq!(space_refusal(10_000_000, 22_000_000), None);
    assert_eq!(
        space_refusal(10_485_760, 1_048_576),
        Some(s("Not enough disk space: need 22.0 MB, available 1.0 MB"))
    );
    let mut info = pack(POSTERS);
    info.size_bytes = 100;
    info.url = s("https://example.org/p.tar.gz");
    assert!(matches!(preflight(&info, 1_000, false), Ok(PackRoute::Http)));
    assert!(preflight(&info, 1, false).is_err());
    assert_eq!(preflight(&info, 1_000, true).err(), Some(offline_refusal()));
    info.torrent_file_path = Some(s("Content/posters.tar.gz"));
    info.url = String::new();
    assert!(matches!(preflight(&info, 1_000, false), Ok(PackRoute::Torrent)));
    assert!(size_refusal(100, 100).is_none());
    assert!(size_refusal(u64::MAX, 100).is_some());
    assert!(reports_progress(262_144, 1, 900_000));
    assert!(!reports_progress(300_000, 1, 900_000));
    assert!(reports_progress(900_000, 1, 900_000));
    let places = download_places("/data", "eXoDOS:posters");
    assert_eq!(places.tmp_file, "/data/.content-downloads/eXoDOS_posters.tar.gz.tmp");
    assert_eq!(places.staging_dir, "/data/.content-downloads/eXoDOS_posters.staging");
    assert!(is_stale_download("a.tar.gz.tmp", Some(3_600_000_000_001)));
    assert!(!is_stale_download("a.tar.gz.tmp", Some(3_600_000_000_000)));
    assert!(!is_stale_download("a.tar.gz", Some(9_600_000_000_001)));
}

#[test]
fn a_download_is_what_its_digest_says() {
    let abc = "ba7816bf8f01cfea414140de5dae2223b00361a396177a9cb410ff61f20015ad";
    assert_eq!(verify_download(b"abc", abc), Ok(()));
    let wrong = verify_download(b"abd", abc).err().unwrap();
    assert!(wrong.contains(abc));
    assert_eq!(check_digest(&vec![0x0a, 0xff], "0aff"), Ok(()));
    assert!(check_digest(&vec![0x0a, 0xff], "0AFF").is_err());
}

#[test]
fn a_lost_torrent_is_given_up() {
    let mut poll = TorrentPoll::new();
    for _ in 0..9 {
        assert!(matches!(poll.tick(false, None), PollStep::Wait));
    }
    let running = FileProgress { downloaded_bytes: 1, total_bytes: 2, finished: false };
    assert!(matches!(poll.tick(false, Some(running)), PollStep::Wait));
    for _ in 0..9 {
        assert!(matches!(poll.tick(false, None), PollStep::Wait));
    }
    assert!(matches!(poll.tick(false, None), PollStep::Lost));
    let mut poll = TorrentPoll::new();
    assert!(matches!(poll.tick(true, None), PollStep::Cancelled));
    let done = FileProgress { downloaded_bytes: 2, total_bytes: 2, finished: true };
    assert!(matches!(poll.tick(false, Some(done)), PollStep::Arrived));
    assert!(lost_message(&pack(POSTERS)).starts_with("Torrent progress unavailable for 'Box Art'"));

    let mut info = pack(POSTERS);
    info.torrent_file_path = Some(s("Content/p.tar.gz"));
    let index = Some(TorrentIndex {
        name: s("t"),
        files: vec![TorrentFileEntry { index: 4, path: s("Content/p.tar.gz"), size: 1, offset: 0 }],
        total_size: 1,
        piece_length: 1,
    });
    assert_eq!(torrent_file(&info, "eXoDOS", &index), Ok(4));
    assert!(torrent_file(&info, "eXoDOS", &None).is_err());
    info.torrent_file_path = Some(s("Content/q.tar.gz"));
    assert!(torrent_file(&info, "eXoDOS", &index).is_err());
}

fn chunk(len: u64) -> InstallEvent {
    InstallEvent::Chunk { len, cancelled: false }
}

fn answer() -> InstallEvent {
    InstallEvent::Answer { ok: true, status: s("200 OK"), length: Some(3) }
}

const ABC: &str = "ba7816bf8f01cfea414140de5dae2223b00361a396177a9cb410ff61f20015ad";

fn abc_pack() -> ContentPackInfo {
    let mut info = pack(POSTERS);
    info.size_bytes = 3;
    info.sha256 = s(ABC);
    info
}

#[test]
fn an_install_goes_through_its_phases() {
    let mut i = PackInstall::from_net(&abc_pack());
    assert_eq!(phase_text(i.phase), "downloading");
    assert!(matches!(i.do_install(&answer()), InstallAction::Report));
    assert!(matches!(i.do_install(&chunk(3)), InstallAction::Report));
    assert!(matches!(i.do_install(&InstallEvent::End), InstallAction::ReadFile));
    assert_eq!(phase_text(i.phase), "verifying");
    let content = InstallEvent::Content { bytes: b"abc".to_vec() };
    assert!(matches!(i.do_install(&content), InstallAction::Extract));
    assert!(matches!(i.do_install(&InstallEvent::Extracted { failure: None }), InstallAction::Commit));
    assert!(matches!(
        i.do_install(&InstallEvent::Committed { failure: None }),
        InstallAction::Finish { remove_tmp: true }
    ));
    assert_eq!(phase_text(i.phase), "installed");
    assert!(matches!(i.do_install(&InstallEvent::Stalled), InstallAction::Wait));

    let mut t = PackInstall::from_torrent(&abc_pack());
    assert_eq!(phase_text(t.phase), "extracting");
    t.do_install(&InstallEvent::Extracted { failure: None });
    assert!(matches!(
        t.do_install(&InstallEvent::Committed { failure: None }),
        InstallAction::Finish { remove_tmp: false }
    ));
}

#[test]
fn an_install_fails_closed() {
    let fail = |events: Vec<InstallEvent>| {
        let mut i = PackInstall::from_net(&abc_pack());
        let mut last = InstallAction::Wait;
        for e in &events {
            last = i.do_install(e);
        }
        match last {
            InstallAction::Fail { message, remove_tmp } => {
                assert_eq!(phase_text(i.phase), "failed");
                (message, remove_tmp)
            }
            _ => panic!("the install goes on"),
        }
    };
    let refused = InstallEvent::Answer { ok: false, status: s("404 Not Found"), length: None };
    assert_eq!(fail(vec![refused]), (s("Download returned HTTP 404 Not Found"), false));
    assert_eq!(
        fail(vec![InstallEvent::NoAnswer { error: s("refused") }]),
        (s("Download failed: refused"), false)
    );
    assert_eq!(
        fail(vec![answer(), InstallEvent::Stalled]),
        (s("Download stalled: no data received for 60 seconds."), true)
    );
    assert_eq!(
        fail(vec![answer(), InstallEvent::Chunk { len: 1, cancelled: true }]),
        (s("Cancelled"), true)
    );
    assert_eq!(
        fail(vec![answer(), InstallEvent::Broken { error: s("reset"), cancelled: false }]),
        (s("Download error: reset"), false)
    );
    assert_eq!(
        fail(vec![answer(), InstallEvent::Broken { error: s("reset"), cancelled: true }]),
        (s("Cancelled"), true)
    );
    assert_eq!(
        fail(vec![answer(), InstallEvent::Unwritable { error: s("full") }]),
        (s("Write error: full"), false)
    );
    assert_eq!(
        fail(vec![answer(), chunk(4)]),
        (s("Download exceeded expected size (0 KB > 0 KB); aborting."), true)
    );
    let other = InstallEvent::Content { bytes: b"abd".to_vec() };
    let (message, remove) = fail(vec![answer(), chunk(3), InstallEvent::End, other]);
    assert!(message.starts_with("Checksum mismatch - expected ba7816bf"));
    assert!(remove);
    let content = InstallEvent::Content { bytes: b"abc".to_vec() };
    assert_eq!(
        fail(vec![answer(), chunk(3), InstallEvent::End, content, InstallEvent::Extracted { failure: Some(s("bad tar")) }]),
        (s("bad tar"), false)
    );
}
