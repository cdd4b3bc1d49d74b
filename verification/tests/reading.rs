use exodium::fspath::path_lies_in;
use exodium::media::{ReadFault, VideoStatus};
use exodium::reading::{
    cache_dir, cache_file, cache_stem, check_cancelled, digest_stem, directory_key,
    discard_partial_subtree, document_entry, fill_placeholders, inner_window, install_issue,
    is_partial, issue_fault, issue_run_id, issue_run_key, issue_target, launch_issue,
    launcher_substitutions, launcher_write, locate_fault, magazine_parts, missing_source,
    open_issue, reading_cache_index, reading_storage_usage, removal_refusal, run_id_of_hash,
    runnable_launch_dir, source_state, stream_step, subtree_files, sweep_partial_downloads,
    write_issue_launcher, DirectoryCache, DirectoryStep, Issue, IssueFacts, IssueStart,
    KeptFile, ReadingState, RealPaths, SourceState, StreamStep, ZipEntry, CANCELLED,
};
use exodium::scummvm::Os;

fn s(x: &str) -> String {
    x.to_string()
}

fn texts(xs: &[&str]) -> Vec<String> {
    xs.iter().map(|x| x.to_string()).collect()
}

fn zip_entry(name: &str, method: u16) -> ZipEntry {
    ZipEntry {
        name: name.into(),
        compressed_size: 10,
        uncompressed_size: 10,
        method,
        local_header_offset: 0,
    }
}

#[test]
fn a_window_needs_a_stored_entry_that_exists() {
    let entries = vec![zip_entry("Content/inner.zip", 0), zip_entry("Content/packed.zip", 8)];
    match inner_window(&entries, "Content/inner.zip") {
        Ok(e) => assert_eq!(e.name, "Content/inner.zip"),
        Err(e) => panic!("{}", e),
    }
    let deflated = inner_window(&entries, "Content/packed.zip").err().unwrap();
    assert!(deflated.contains("not stored"), "{deflated}");
    let missing = inner_window(&entries, "Content/absent.zip").err().unwrap();
    assert!(missing.contains("Content/absent.zip"), "{missing}");
}

#[test]
fn a_nested_directory_is_keyed_apart_from_its_outer_one() {
    let outer = directory_key("Content/a.zip", None);
    let inner = directory_key("Content/a.zip", Some("Content/inner.zip"));
    assert_eq!(outer, "Content/a.zip");
    assert_ne!(outer, inner);
    assert_eq!(inner, directory_key("Content/a.zip", Some("Content/inner.zip")));
}

#[test]
fn a_directory_is_read_once() {
    let mut known = DirectoryCache::new();
    let inner = Some("Content/inner.zip");
    assert!(matches!(known.archive_directory("a.zip", inner, None), Ok(DirectoryStep::ReadOuter)));
    let mut window = zip_entry("Content/inner.zip", 0);
    window.uncompressed_size = 900;
    let entries = vec![zip_entry("Content/packed.zip", 8), window];
    known.keep_outer("a.zip", entries, 5000);
    assert!(matches!(known.archive_directory("a.zip", None, None), Ok(DirectoryStep::Ready)));
    match known.directory("a.zip", None) {
        Some(dir) => assert_eq!((dir.base, dir.len), (0, 5000)),
        None => panic!("the outer directory is kept"),
    }
    match known.archive_directory("a.zip", inner, None) {
        Ok(DirectoryStep::Locate { place }) => assert_eq!(place, 1),
        _ => panic!("the window has to be found"),
    }
    match known.archive_directory("a.zip", inner, Some(64)) {
        Ok(DirectoryStep::ReadInner { base, len }) => assert_eq!((base, len), (64, 900)),
        _ => panic!("the window is known"),
    }
    let packed = known.archive_directory("a.zip", Some("Content/packed.zip"), None);
    assert!(packed.err().unwrap().contains("not stored"));
    let absent = known.archive_directory("a.zip", Some("absent.zip"), None);
    assert_eq!(absent.err().unwrap(), "absent.zip is not in the archive");
    known.keep_inner("a.zip", "Content/inner.zip", Vec::new(), 64, 900);
    assert!(matches!(known.archive_directory("a.zip", inner, None), Ok(DirectoryStep::Ready)));
    assert!(matches!(known.archive_directory("a.zip", None, None), Ok(DirectoryStep::Ready)));
}

#[test]
fn faults_are_told_apart() {
    assert_eq!(locate_fault("x.zip", &ReadFault::TimedOut), "timed out locating x.zip");
    assert_eq!(locate_fault("x.zip", &ReadFault::Failed(s("io"))), "io");
    assert_eq!(issue_fault(&ReadFault::TimedOut), "timed out fetching the issue");
    assert_eq!(issue_fault(&ReadFault::Failed(s("was cancelled"))), CANCELLED);
    assert_eq!(issue_fault(&ReadFault::Failed(s("io"))), "io");
}

#[test]
fn a_broken_install_leaves_the_siblings() {
    let left = discard_partial_subtree(
        "/r",
        &texts(&["eXo/Magazines/BBD/BBD01"]),
        &texts(&["/r/eXo/Magazines/BBD/run.bat", "/r/eXo/Magazines/BBD/a.exe.exodium-part"]),
    );
    assert_eq!(left.dirs, texts(&["/r/eXo/Magazines/BBD/BBD01"]));
    assert_eq!(left.files, texts(&["/r/eXo/Magazines/BBD/a.exe.exodium-part"]));
}

fn issue(key: &str) -> Issue {
    Issue {
        key: key.into(),
        publication: "Big Blue Disk".into(),
        title: key.into(),
        source: "eXoMedia".into(),
        zip_file: "Content/DOSMagazines.zip".into(),
        inner_zip: None,
        entry_path: Some("eXo/Magazines/BBD/x.pdf".into()),
        size_bytes: 10,
        runnable: false,
        launch_dir: None,
        issue_dir: None,
        launch_bat: None,
        substitutions: None,
        installed: false,
    }
}

fn disk_issue() -> Issue {
    let mut bbd = issue("mag:bbd#004");
    bbd.runnable = true;
    bbd.entry_path = None;
    bbd.launch_dir = Some("eXo/Magazines/BBD".into());
    bbd.issue_dir = Some("eXo/Magazines/BBD/004".into());
    bbd
}

#[test]
fn cache_file_keeps_the_entrys_extension() {
    let mut i = issue("mag:a");
    i.publication = "PC Gamer".into();
    i.title = "PC Gamer 1995-02".into();
    i.entry_path = Some("eXo/Magazines/PCGamerUS/PCGamer_1995_02.PDF".into());
    let path = cache_file("/data", &i);
    assert!(path.ends_with(".pdf"));
    assert!(path.starts_with("/data/content/magazinecache/"));
    let stem = path.rsplit('/').next().unwrap().split('.').next().unwrap().to_string();
    assert_eq!(stem, cache_stem("mag:a"));
}

/// A launch on what lies in the directory: `run.bat`, and `run.exotpl` where there is
/// one.
fn launch(disk: &mut (String, Option<String>), raw: Option<&str>) {
    let write = write_issue_launcher(&disk.0, disk.1.as_deref(), raw);
    if let Some(write) = write.unwrap_or_else(|e| panic!("{}", e)) {
        if write.keep.is_some() {
            disk.1 = write.keep;
        }
        disk.0 = write.bat;
    }
}

#[test]
fn every_launch_rewrites_run_bat_from_the_template() {
    let template = "imgmount a disk\\XXX\\d1.img\nset OPT=YYY\n";
    let mut disk = (s(template), None);
    launch(&mut disk, Some(r#"{"XXX":"004","YYY":"OFF"}"#));
    assert_eq!(disk.0, "imgmount a disk\\004\\d1.img\nset OPT=OFF\n");
    launch(&mut disk, Some(r#"{"XXX":"119","YYY":"ON"}"#));
    assert_eq!(disk.0, "imgmount a disk\\119\\d1.img\nset OPT=ON\n");
    assert!(disk.1.as_deref().unwrap().contains("XXX"));
    launch(&mut disk, None);
    assert_eq!(disk.0, "imgmount a disk\\119\\d1.img\nset OPT=ON\n");
    assert_eq!(disk.1.as_deref(), Some(template));
    assert!(launcher_substitutions(Some("not json")).is_err());
    assert!(write_issue_launcher("x", None, Some("not json")).is_err());
    assert!(launcher_write("x", None, &Vec::new()).is_none());
    let subs = vec![(s("XXX"), s("7"))];
    assert_eq!(fill_placeholders("a XXX", &subs), "a 7");
    let kept = launcher_write("a XXX", None, &subs).unwrap();
    assert_eq!((kept.bat, kept.keep), (s("a 7"), Some(s("a XXX"))));
}

#[test]
fn the_startup_sweep_takes_partials_and_nothing_else() {
    let cached = texts(&["/c/one.pdf", "/c/two.pdf", "/c/half.part"]);
    assert_eq!(sweep_partial_downloads(&cached, &Vec::new()), texts(&["/c/half.part"]));
    assert!(is_partial("/c/half.part"));
    assert!(!is_partial("/c/one.pdf"));
}

#[test]
fn removing_a_document_takes_its_cache_file_alone() {
    let (a, b) = (issue("mag:a"), issue("mag:b"));
    assert_eq!(issue_target("/data", "/data/eXoDOS", &a), Some(cache_file("/data", &a)));
    assert_ne!(cache_file("/data", &a), cache_file("/data", &b));
}

#[test]
fn removing_a_series_issue_keeps_the_series_launcher() {
    let target = issue_target("/data", "/data/eXoDOS", &disk_issue()).unwrap();
    assert_eq!(target, "/data/eXoDOS/eXo/Magazines/BBD/004");
    assert!(path_lies_in("/data/eXoDOS/eXo/Magazines/BBD/004/d1.img", &target));
    assert!(!path_lies_in("/data/eXoDOS/eXo/Magazines/BBD/dosbox.conf", &target));
    let real = Some(RealPaths { target: target.clone(), data_dir: s("/data") });
    assert!(removal_refusal(Os::Linux, &target, &real).is_none());
}

#[test]
fn the_cache_stem_is_a_stable_digest() {
    assert_eq!(cache_stem("mag:pcgamer#1995-02"), "1c3a6db6c201a03a");
    assert_eq!(cache_stem("mag:a").len(), 16);
    assert_ne!(cache_stem("mag:a"), cache_stem("mag:b"));
    assert_eq!(digest_stem(&vec![0, 1, 2, 3, 4, 5, 6, 255, 9]), "00010203040506ff");
}

#[test]
fn the_startup_sweep_also_takes_extraction_shards() {
    let shards = texts(&["/r/BBD/004/d1.img.exodium-part", "/r/BBD/004/d1.img"]);
    assert_eq!(
        sweep_partial_downloads(&Vec::new(), &shards),
        texts(&["/r/BBD/004/d1.img.exodium-part"])
    );
}

#[test]
fn the_running_guard_is_keyed_on_the_series() {
    assert_eq!(issue_run_key("eXo/Magazines/BBD"), issue_run_key("eXo/Magazines/BBD"));
    assert_ne!(issue_run_key("eXo/Magazines/BBD"), issue_run_key("eXo/Magazines/GameBytes"));
}

#[test]
fn a_second_call_joins_the_fetch_in_flight() {
    let mut jobs = ReadingState::new();
    let (first, begun) = jobs.spawn_job("mag:a", 10);
    assert!(begun);
    assert_eq!(first.phase, "fetching");
    let (second, begun) = jobs.spawn_job("mag:a", 10);
    assert!(!begun);
    assert_eq!(second.phase, "fetching");
    jobs.settle("mag:a", &Ok(s("/cache/a.pdf")));
    let done = jobs.status("mag:a").unwrap();
    assert_eq!(done.phase, "ready");
    assert_eq!(done.path, Some(s("/cache/a.pdf")));
    assert!(jobs.spawn_job("mag:a", 10).1);
}

#[test]
fn a_cancelled_job_is_forgotten() {
    let mut jobs = ReadingState::new();
    jobs.spawn_job("mag:b", 10);
    jobs.settle("mag:b", &Err(CANCELLED.to_string()));
    assert!(jobs.status("mag:b").is_none());
    jobs.spawn_job("mag:b", 10);
    jobs.settle("mag:b", &Err(s("io")));
    assert_eq!(jobs.status("mag:b").unwrap().error, Some(s("io")));
    jobs.forget("mag:b");
    assert!(jobs.status("mag:b").is_none());
    assert_eq!(check_cancelled(true), Err(s("cancelled")));
    assert_eq!(check_cancelled(false), Ok(()));
}

#[test]
fn a_path_outside_the_data_dir_is_refused() {
    let mut escaping = issue("mag:evil");
    escaping.runnable = true;
    escaping.entry_path = None;
    escaping.launch_dir = Some(s("/tmp/outside"));
    let target = issue_target("/tmp/data", "/tmp/data/eXoDOS", &escaping).unwrap();
    assert_eq!(target, "/tmp/outside");
    let paths = RealPaths { target: target.clone(), data_dir: s("/tmp/data") };
    let err = removal_refusal(Os::Linux, &target, &Some(paths)).unwrap();
    assert!(err.contains("outside the data directory"), "{err}");
    let inside = RealPaths { target: s("/tmp/data/x"), data_dir: s("/tmp/data") };
    assert!(removal_refusal(Os::Linux, "/tmp/data/x", &Some(inside)).is_none());
    assert!(removal_refusal(Os::Linux, "/tmp/data/x", &None).is_some());
    let native = || RealPaths { target: s(r"C:\data\x"), data_dir: s(r"C:\data") };
    assert!(removal_refusal(Os::Windows, "x", &Some(native())).is_none());
    assert!(removal_refusal(Os::Linux, "x", &Some(native())).is_some());
}

fn facts() -> IssueFacts {
    IssueFacts { there: false, source: SourceState::Ready, archive_known: true, free: None }
}

fn phase(r: Result<IssueStart, String>) -> VideoStatus {
    match r {
        Ok(IssueStart::Known(status)) => status,
        _ => panic!("an answer at once"),
    }
}

#[test]
fn issues_are_opened_from_the_cache_or_fetched() {
    let mut f = facts();
    f.there = true;
    assert_eq!(phase(open_issue("/data", &issue("mag:a"), &f)).phase, "ready");
    match open_issue("/data", &issue("mag:a"), &facts()) {
        Ok(IssueStart::Fetch { total_bytes }) => assert_eq!(total_bytes, 10),
        _ => panic!("a fetch begins"),
    }
    let mut f = facts();
    f.source = SourceState::Offline;
    assert_eq!(phase(open_issue("/data", &issue("mag:a"), &f)).error.as_deref(), Some("offline"));
    let mut f = facts();
    f.free = Some(1);
    assert!(matches!(open_issue("/data", &issue("mag:a"), &f), Ok(IssueStart::NoSpace { .. })));
    let err = open_issue("/data", &disk_issue(), &facts()).err().unwrap();
    assert_eq!(err, "mag:bbd#004 is a runnable issue, not a document");
    let mut f = facts();
    f.archive_known = false;
    assert!(open_issue("/data", &issue("mag:a"), &f).is_err());
    assert!(missing_source(&issue("mag:a")).len() > 0);
}

#[test]
fn disk_magazines_are_installed_and_run() {
    match install_issue("/r", &disk_issue(), &facts()) {
        Ok(IssueStart::Fetch { .. }) => {}
        _ => panic!("a fetch begins"),
    }
    assert!(install_issue("/r", &issue("mag:a"), &facts()).is_err());
    match runnable_launch_dir(&disk_issue()) {
        Ok(dir) => assert_eq!(dir, "eXo/Magazines/BBD"),
        Err(e) => panic!("{}", e),
    }
    let parts = magazine_parts(&disk_issue(), "eXo/Magazines/BBD");
    assert_eq!(parts.own_dir, "eXo/Magazines/BBD/004");
    assert_eq!(parts.shallow, texts(&["eXo/Magazines/BBD"]));

    let mut there = disk_issue();
    there.installed = true;
    match launch_issue("/r", &there, true, false) {
        Ok(l) => {
            assert_eq!(l.dir, "/r/eXo/Magazines/BBD");
            assert_eq!(l.working_dir, "/r/eXo");
            assert_eq!(l.conf, "/r/eXo/Magazines/BBD/dosbox.conf");
        }
        Err(e) => panic!("{}", e),
    }
    assert_eq!(
        launch_issue("/r", &there, true, true).err(),
        Some(s("Another issue of 'Big Blue Disk' is already running. Close it first."))
    );
    assert_eq!(
        launch_issue("/r", &disk_issue(), true, false).err(),
        Some(s("mag:bbd#004 is not installed. Download it first."))
    );
    assert!(launch_issue("/r", &there, false, false).err().unwrap().contains("is incomplete"));
    assert!(issue_run_id("mag:a") < 0);
    assert_eq!(issue_run_id("mag:a"), issue_run_id("mag:a"));
    assert_ne!(issue_run_id("mag:a"), issue_run_id("mag:b"));
    assert!(run_id_of_hash(0) < 0);
    assert!(run_id_of_hash(u64::MAX) < 0);
}

#[test]
fn kept_files_are_counted() {
    let stem = cache_stem("mag:a");
    let paths = vec![format!("{}/{}.pdf", cache_dir("/data"), stem)];
    assert_eq!(reading_cache_index(&texts(&["mag:a", "mag:b"]), &paths), texts(&["mag:a"]));
    let files = vec![
        KeptFile { path: s("/c/a.pdf"), len: 5 },
        KeptFile { path: s("/c/b.part"), len: 9 },
    ];
    let usage = reading_storage_usage(2, 100, &files);
    assert_eq!((usage.issues, usage.bytes), (3, 105));
    let usage = reading_storage_usage(-1, -5, &Vec::new());
    assert_eq!((usage.issues, usage.bytes), (0, 0));
}

#[test]
fn sources_are_told_apart() {
    assert!(matches!(source_state(true, true, false, false), SourceState::Ready));
    assert!(matches!(source_state(true, false, true, true), SourceState::Offline));
    assert!(matches!(source_state(false, false, false, true), SourceState::Offline));
    assert!(matches!(source_state(false, false, true, false), SourceState::Missing));
    assert!(matches!(stream_step("still initializing", true), StreamStep::Wait));
    match stream_step("still initializing", false) {
        StreamStep::Fail(e) => assert_eq!(e, "Could not open the archive stream: still initializing"),
        StreamStep::Wait => panic!("out of time"),
    }
    let entries = vec![zip_entry("a/x.pdf", 8), zip_entry("a/b/y.pdf", 8)];
    match document_entry(&entries, "a/x.pdf", "z.zip") {
        Ok(e) => assert_eq!(e.name, "a/x.pdf"),
        Err(e) => panic!("{}", e),
    }
    assert_eq!(document_entry(&entries, "q", "z.zip").err(), Some(s("q is not in z.zip")));
    assert_eq!(
        subtree_files(&entries, &texts(&["f"]), &texts(&["a"])),
        texts(&["f", "a/x.pdf"])
    );
}
