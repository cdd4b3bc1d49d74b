use exodium::media::{
    directory_fault, gst_elements, gst_has_any, gst_plugin_dirs, gst_plugin_files, host_has,
    music_cache_index, music_playback_supported, music_shuffle_candidates, prune_media_cache,
    prune_music_cache, prune_video_cache, read_failure, resolve_gamedata, scan_music_cache,
    settle_media, shuffle_draw, start_media, timeout_failure, video_playback_supported,
    CachedFile, FetchAction, FetchEvent, FetchResult, FetchTicker, GstNeed, HostGst, MediaFacts,
    MediaFetch, MediaKind, MediaPruner, MediaServerState, MediaStart, MusicRow, Player,
    ReadFault, VideoStatus, OFFLINE_TOKEN,
};
use exodium::scummvm::Os;
use exodium::models::{Game, TorrentFileEntry, TorrentIndex};

fn s(x: &str) -> String {
    x.to_string()
}

fn texts(xs: &[&str]) -> Vec<String> {
    xs.iter().map(|x| x.to_string()).collect()
}

fn cached(paths: &[&str], len: u64) -> Vec<CachedFile> {
    paths
        .iter()
        .enumerate()
        .map(|(i, p)| CachedFile { path: s(p), len, modified: i as i128 })
        .collect()
}

/// The files that a pruning takes away.
fn pruned(mut p: MediaPruner, files: &[CachedFile]) -> Vec<String> {
    let mut gone = Vec::new();
    while let Some(i) = p.pruner.step() {
        gone.push(files[p.places[i]].path.clone());
        p.pruner.report(true);
    }
    gone
}

#[test]
fn offline_is_a_none_that_carries_a_token() {
    let offline = VideoStatus::offline();
    let empty = VideoStatus::phase("none");
    assert_eq!(offline.phase, empty.phase);
    assert_eq!(offline.error.as_deref(), Some("offline"));
    assert_eq!(empty.error, None);
    assert_eq!(OFFLINE_TOKEN, "offline");
}

#[test]
fn pruning_keeps_the_no_video_markers() {
    let files = cached(
        &["/c/eXoDOS_1.novideo", "/c/eXoDOS_10.mp4", "/c/eXoDOS_11.mp4", "/c/eXoDOS_12.mp4"],
        4096,
    );
    assert_eq!(pruned(prune_video_cache(&files), &files).len(), 0);
    let gone = pruned(prune_media_cache(MediaKind::Video, &files, 0), &files);
    assert_eq!(gone, texts(&["/c/eXoDOS_10.mp4", "/c/eXoDOS_11.mp4", "/c/eXoDOS_12.mp4"]));
}

#[test]
fn pruning_keeps_the_no_music_markers() {
    let files = cached(
        &["/c/eXoDOS_1.nomusic", "/c/eXoDOS_2.mp3", "/c/eXoDOS_3.ogg", "/c/eXoDOS_4.part"],
        4096,
    );
    let gone = pruned(prune_media_cache(MediaKind::Music, &files, 0), &files);
    assert_eq!(gone, texts(&["/c/eXoDOS_2.mp3", "/c/eXoDOS_3.ogg"]));
    assert_eq!(pruned(prune_music_cache(&files), &files).len(), 0);
}

#[test]
fn cached_music_matches_any_playable_extension() {
    let in_cache = |names: &[&str]| -> Vec<String> {
        names.iter().map(|n| format!("/data/content/musiccache/{}", n)).collect()
    };
    assert!(MediaKind::Music.cached("/data", "eXoDOS", 7, &in_cache(&[])).is_none());
    let marks = in_cache(&["eXoDOS_7.nomusic", "eXoDOS_7.part"]);
    assert!(MediaKind::Music.cached("/data", "eXoDOS", 7, &marks).is_none());
    let track = in_cache(&["eXoDOS_7.nomusic", "eXoDOS_7.part", "eXoDOS_7.ogg"]);
    assert_eq!(
        MediaKind::Music.cached("/data", "eXoDOS", 7, &track),
        Some(s("/data/content/musiccache/eXoDOS_7.ogg"))
    );
    assert!(MediaKind::Music.cached("/data", "eXoDOS", 77, &track).is_none());
    assert_eq!(
        MediaKind::Music.cache_file("/data", "eXoDOS", 8, "Music/MS-DOS/X (1990).MP3"),
        "/data/content/musiccache/eXoDOS_8.mp3"
    );
}

#[test]
fn music_cache_stems_split_at_the_last_underscore() {
    let paths = texts(&["/c/eXoDOS_8.mp3", "/c/eXoDOS_9.nomusic", "/c/eXoDOS_GLP_3.ogg", "/c/eXoDOS_4.part"]);
    let (cached, none) = scan_music_cache(&paths);
    let mut cached: Vec<(String, i64)> = cached.into_iter().map(|k| (k.collection, k.index)).collect();
    cached.sort();
    assert_eq!(cached, vec![(s("eXoDOS"), 8), (s("eXoDOS_GLP"), 3)]);
    let none: Vec<(String, i64)> = none.into_iter().map(|k| (k.collection, k.index)).collect();
    assert_eq!(none, vec![(s("eXoDOS"), 9)]);
    let (cached, none) = scan_music_cache(&Vec::new());
    assert!(cached.is_empty() && none.is_empty());
}

fn game(id: i64, title: &str, lang: &str, code: &str, source: &str, gd: Option<i64>) -> Game {
    Game {
        id,
        title: s(title),
        language: s(lang),
        year: None,
        shortcode: Some(s(code)),
        torrent_source: Some(s(source)),
        application_path: None,
        dosbox_conf: None,
        dosbox_variant: None,
        game_torrent_index: None,
        gamedata_torrent_index: gd,
        download_size: None,
        installed: false,
        in_library: false,
    }
}

#[test]
fn resolve_gamedata_borrows_the_english_archive_within_the_family() {
    let rows = vec![
        game(1, "Earthquest", "EN", "EarthQue", "eXoDOS", Some(41)),
        game(2, "Earthquest DE", "DE", "EarthQue", "eXoDOS_GLP", None),
        game(3, "Earth Quest VR", "EN", "EarthQue", "eXoWin3x", Some(9)),
        game(4, "Lonely", "EN", "Lonely", "eXoWin3x", None),
    ];
    assert_eq!(resolve_gamedata(&rows, &rows[1]), (Some(41), "eXoDOS".to_string()));
    assert_eq!(resolve_gamedata(&rows, &rows[3]), (None, "eXoDOS".to_string()));
    assert_eq!(resolve_gamedata(&rows, &rows[2]), (Some(9), "eXoWin3x".to_string()));
}

fn facts(index: Option<TorrentIndex>) -> MediaFacts {
    MediaFacts { marked: false, cached: None, job: None, index }
}

fn torrent() -> TorrentIndex {
    TorrentIndex {
        name: s("t"),
        files: vec![TorrentFileEntry { index: 0, path: s("eXo/a.zip"), size: 9, offset: 0 }],
        total_size: 9,
        piece_length: 1,
    }
}

#[test]
fn media_is_fetched_when_nothing_is_known() {
    match start_media(MediaKind::Video, (Some(0), "eXoDOS"), "/data", "/root", &facts(Some(torrent()))) {
        Ok(MediaStart::Fetch(t)) => {
            assert_eq!(t.gamedata_idx, 0);
            assert_eq!(t.archive_len, 9);
            assert_eq!(t.local_archive, "/root/eXo/a.zip");
            assert_eq!(t.marker, "/data/content/videocache/eXoDOS_0.novideo");
        }
        _ => panic!("a fetch begins"),
    }
    match start_media(MediaKind::Video, (Some(5), "eXoDOS"), "/data", "/root", &facts(Some(torrent()))) {
        Err(e) => assert_eq!(e, "GameData index 5 out of range"),
        Ok(_) => panic!("an index beyond the torrent is refused"),
    }
    let mut marked = facts(Some(torrent()));
    marked.marked = true;
    match start_media(MediaKind::Video, (Some(0), "eXoDOS"), "/data", "/root", &marked) {
        Ok(MediaStart::Known(status)) => assert_eq!((status.phase.as_str(), status.error), ("none", None)),
        _ => panic!("a marked game has none"),
    }
    match start_media(MediaKind::Video, (None, "eXoDOS"), "/data", "/root", &facts(None)) {
        Ok(MediaStart::Known(status)) => assert_eq!(status.phase, "none"),
        _ => panic!("a game without extras has none"),
    }
    let mut there = facts(None);
    there.cached = Some(s("/data/v.mp4"));
    match start_media(MediaKind::Video, (Some(0), "eXoDOS"), "/data", "/root", &there) {
        Ok(MediaStart::Known(status)) => {
            assert_eq!(status.phase, "ready");
            assert_eq!(status.path, Some(s("/data/v.mp4")));
        }
        _ => panic!("a cached file is ready"),
    }
    match start_media(MediaKind::Video, (Some(0), "eXoDOS"), "/data", "/root", &facts(None)) {
        Ok(MediaStart::Known(status)) => assert_eq!(status.error.as_deref(), Some(OFFLINE_TOKEN)),
        _ => panic!("nothing is fetched offline"),
    }
}

#[test]
fn a_fetch_settles() {
    let fetching = VideoStatus::phase("fetching");
    let ready = settle_media(&fetching, &FetchResult::Found(s("/v.mp4")));
    assert_eq!(ready.status.unwrap().path, Some(s("/v.mp4")));
    assert!(!ready.mark);
    let none = settle_media(&fetching, &FetchResult::Nothing);
    assert!(none.mark);
    assert_eq!(none.status.unwrap().phase, "none");
    let failed = settle_media(&fetching, &FetchResult::Failed(s("timed out")));
    assert!(!failed.mark);
    assert_eq!(failed.status.unwrap().error, Some(s("timed out")));
    assert!(settle_media(&fetching, &FetchResult::Failed(s("cancelled"))).status.is_none());
    assert_eq!(read_failure("io: cancelled by user"), "cancelled");
    assert_eq!(read_failure("io"), "io");
    assert_eq!(timeout_failure(MediaKind::Music), "timed out fetching the music");
    assert_eq!(timeout_failure(MediaKind::Video), "timed out fetching the video");
    assert_eq!(VideoStatus::ready("/v").phase, "ready");
    assert_eq!(fetching.duplicate().phase, "fetching");
    assert_eq!(MediaKind::Video.label(), "video");
    assert!(MediaKind::Video.is_payload("a.mp4"));
    assert!(!MediaKind::Video.is_payload("a.novideo"));
}

fn fetch(local: bool) -> MediaFetch {
    MediaFetch {
        kind: MediaKind::Video,
        data_dir: s("/data"),
        collection: s("eXoDOS"),
        gamedata_idx: 7,
        local,
    }
}

fn ended(action: FetchAction) -> String {
    match action {
        FetchAction::End(FetchResult::Failed(e)) => e,
        _ => panic!("the fetch goes on"),
    }
}

#[test]
fn a_stalled_stream_gives_up_instead_of_holding_the_slot() {
    let mut job = fetch(false);
    assert!(matches!(
        job.fetch_entry(&FetchEvent::StreamOpened, false),
        FetchAction::ReadDirectory
    ));
    let stalled = FetchEvent::DirectoryFault { fault: ReadFault::TimedOut };
    let err = ended(job.fetch_entry(&stalled, false));
    assert!(err.contains("timed out"), "unexpected error: {}", err);
}

#[test]
fn cancelling_is_reported_as_such_not_as_a_failure() {
    let mut job = fetch(false);
    let err = ended(job.fetch_entry(&FetchEvent::StreamOpened, true));
    assert_eq!(err, "cancelled");
}

#[test]
fn a_fetch_reads_the_disk_first() {
    let mut job = fetch(false);
    assert!(matches!(
        job.fetch_entry(&FetchEvent::LocalOpened, false),
        FetchAction::ReadDirectory
    ));
    assert!(job.local);
    let torn = FetchEvent::DirectoryFault { fault: ReadFault::Failed(s("no directory")) };
    assert!(matches!(job.fetch_entry(&torn, false), FetchAction::OpenStream));
    assert!(matches!(
        job.fetch_entry(&FetchEvent::StreamOpened, false),
        FetchAction::ReadDirectory
    ));
    assert!(!job.local);
    match job.fetch_entry(&FetchEvent::DirectoryRead { entry: Some(42) }, false) {
        FetchAction::ReadEntry { total_bytes } => assert_eq!(total_bytes, 42),
        _ => panic!("the entry is there"),
    }
    match job.fetch_entry(&FetchEvent::EntryRead { name: s("Videos/x.MP4") }, false) {
        FetchAction::Store { path } => assert_eq!(
            path,
            MediaKind::Video.cache_file("/data", "eXoDOS", 7, "Videos/x.MP4")
        ),
        _ => panic!("the entry is kept"),
    }
    match job.fetch_entry(&FetchEvent::Stored { path: s("C:\\v.mp4") }, false) {
        FetchAction::End(FetchResult::Found(path)) => assert_eq!(path, "C:/v.mp4"),
        _ => panic!("the fetch is done"),
    }
}

#[test]
fn a_fetch_says_how_it_failed() {
    let mut job = fetch(true);
    assert!(matches!(
        job.fetch_entry(&FetchEvent::DirectoryRead { entry: None }, false),
        FetchAction::End(FetchResult::Nothing)
    ));
    let read = FetchEvent::DirectoryRead { entry: None };
    assert_eq!(ended(job.fetch_entry(&read, true)), "cancelled");
    let stopped = FetchEvent::EntryFault { fault: ReadFault::Failed(s("read cancelled")) };
    assert_eq!(ended(job.fetch_entry(&stopped, false)), "cancelled");
    let slow = FetchEvent::EntryFault { fault: ReadFault::TimedOut };
    assert!(matches!(job.fetch_entry(&slow, false), FetchAction::OpenStream));
    assert!(matches!(job.fetch_entry(&FetchEvent::LocalAbsent, false), FetchAction::OpenStream));
    job.local = false;
    assert_eq!(ended(job.fetch_entry(&slow, false)), "timed out fetching the video");
    let shut = FetchEvent::StreamFailed { failure: s("gone") };
    assert_eq!(ended(job.fetch_entry(&shut, false)), "Could not open the archive stream: gone");
    let full = FetchEvent::StoreFailed { failure: s("disk full") };
    assert_eq!(ended(job.fetch_entry(&full, false)), "disk full");
    assert_eq!(directory_fault(&ReadFault::Failed(s("io"))), "io");
}

#[test]
fn a_shuffle_draws_twice_what_it_needs() {
    assert_eq!(shuffle_draw(5), 10);
    assert_eq!(music_shuffle_candidates(2, &vec![true, false, false, false]), vec![1, 2]);
    assert_eq!(music_shuffle_candidates(1, &vec![true, true]), Vec::<usize>::new());
    let rows = vec![
        MusicRow { id: 1, torrent_source: Some(s("eXoDOS")), gamedata_torrent_index: 8 },
        MusicRow { id: 2, torrent_source: Some(s("eXoDOS")), gamedata_torrent_index: 9 },
    ];
    let index = music_cache_index(&rows, &texts(&["/c/eXoDOS_8.mp3", "/c/eXoDOS_9.nomusic"]));
    assert_eq!(index.cached, vec![1]);
    assert_eq!(index.none, vec![2]);
}

#[test]
fn decoders_are_counted() {
    assert!(gst_has_any(&vec![Some(false), Some(true)], false));
    assert!(!gst_has_any(&vec![Some(false)], true));
    assert!(gst_has_any(&vec![None], true));
    assert!(!gst_has_any(&vec![None], false));
    let bundled = |xs: &[&str]| Player::Bundled(texts(xs));
    assert!(video_playback_supported(&bundled(&["libgstautodetect.so", "libgstlibav.so"])));
    assert!(!video_playback_supported(&bundled(&["libgstlibav.so"])));
    let m = music_playback_supported(&bundled(&[
        "libgstautodetect.so",
        "libgstogg.so",
        "libgstvorbis.so",
    ]));
    assert!(m.ogg && !m.mp3);
    assert!(video_playback_supported(&Player::Native));
    let m = music_playback_supported(&Player::Native);
    assert!(m.ogg && m.mp3);
}

#[test]
fn the_inspector_goes_before_the_files() {
    let asked = texts(&["autoaudiosink", "avdec_h264", "openh264dec", "mpg123audiodec", "mpegaudioparse"]);
    let known = texts(&["autoaudiosink", "openh264dec", "mpg123audiodec", "mpegaudioparse"]);
    let host = Player::Host(HostGst { asked: asked.clone(), known, files: Vec::new() });
    assert!(video_playback_supported(&host));
    let m = music_playback_supported(&host);
    assert!(m.mp3 && !m.ogg);
    let files = texts(&["libgstautodetect.so", "libgstlibav.so", "libgstogg.so", "libgstvorbis.so"]);
    let host = Player::Host(HostGst { asked, known: texts(&["autoaudiosink"]), files: files.clone() });
    assert!(!video_playback_supported(&host));
    assert!(music_playback_supported(&host).ogg);
    let host = HostGst { asked: Vec::new(), known: Vec::new(), files };
    assert!(host_has(&host, GstNeed::H264Decoder) && !host_has(&host, GstNeed::Mp3Parser));
    assert_eq!(gst_elements(GstNeed::Mp3Decoder), vec!["mpg123audiodec", "avdec_mp3"]);
    assert_eq!(gst_plugin_files(GstNeed::VorbisDecoder), vec!["libgstvorbis.so"]);
    assert_eq!(gst_plugin_dirs().len(), 4);
}

#[test]
fn the_media_server_hands_out_tokens() {
    let mut server = MediaServerState::new();
    assert_eq!(
        server.media_url(Os::Linux, "/data/v.mp4", "/data", true, 4000, "tok"),
        Ok(s("http://127.0.0.1:4000/m/tok"))
    );
    assert_eq!(server.lookup("tok"), Some("/data/v.mp4"));
    assert_eq!(server.lookup("other"), None);
    assert_eq!(
        server.media_url(Os::Linux, "/etc/x", "/data", true, 4000, "t2"),
        Err(s("/etc/x is outside the data directory"))
    );
    assert_eq!(
        server.media_url(Os::Linux, "/data/d", "/data", false, 4000, "t2"),
        Err(s("/data/d is not a file"))
    );
    assert_eq!(server.lookup("t2"), None);
    let url = server.media_url(Os::Windows, r"C:\data\v.mp4", r"C:\data", true, 4000, "t3");
    assert_eq!(url, Ok(s("http://127.0.0.1:4000/m/t3")));
}

#[test]
fn progress_counts_from_the_first_report() {
    let mut ticker = FetchTicker::new();
    let mut status = VideoStatus::phase("fetching");
    status.total_bytes = 1000;
    ticker.tick(&mut status, 500);
    assert_eq!((ticker.baseline, status.done_bytes), (Some(500), 0));
    ticker.tick(&mut status, 800);
    assert_eq!(status.done_bytes, 300);
    ticker.tick(&mut status, 600);
    assert_eq!(status.done_bytes, 300);
    ticker.tick(&mut status, 9000);
    assert_eq!(status.done_bytes, 990);
    let mut idle = VideoStatus::phase("probing");
    idle.total_bytes = 1000;
    ticker.tick(&mut idle, 900);
    assert_eq!(idle.done_bytes, 0);
    let done = settle_media(&status, &FetchResult::Found(s("/v.mp4")));
    assert_eq!(done.status.unwrap().done_bytes, 1000);
}
