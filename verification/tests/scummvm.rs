use exodium::games::ConfigEntry;
use exodium::scummvm::{
    build_version, builds, check_detection, config_path, detects, engine_missing, exo_binary, first_field_of,
    launch_args, launch_engine, launch_entry, list_variants, lookup, not_indexed, pack_binary, pack_id, pack_version,
    parse_index, resolve_scummvm, save_dir, scummvm_engine_info, scummvm_platform_code, scummvm_variants,
    select_variant, set_scummvm_options, sound_menu, subdirs, undetected, ControlFile, EngineFacts,
    EngineSource, MusicFiles, Os, SvmDir, SvmOptions, Variant, FLATPAK_ID,
};

fn s(x: &str) -> String {
    x.to_string()
}

fn texts(xs: &[&str]) -> Vec<String> {
    xs.iter().map(|x| x.to_string()).collect()
}

fn file(name: &str, content: &str) -> ControlFile {
    ControlFile { name: s(name), content: Some(s(content)) }
}

fn dir(name: &str, files: Vec<ControlFile>, dirs: Vec<SvmDir>) -> SvmDir {
    SvmDir { name: s(name), files, dirs }
}

fn setting(key: &str, value: &str) -> ConfigEntry {
    ConfigEntry { key: s(key), value: s(value) }
}

const NO_MUSIC: MusicFiles = MusicFiles { roms: false, soundfont: false };

fn selected(game: &str, tree: &SvmDir, music: &MusicFiles, cfg: &Vec<ConfigEntry>) -> Variant {
    match select_variant(game, tree, "/root", music, cfg) {
        Ok(v) => v,
        Err(e) => panic!("{}", e),
    }
}

#[test]
fn stray_choices_change_nothing() {
    let tree = dir(
        "g",
        vec![],
        vec![dir("Other Languages", vec![], vec![]), dir("v (DOS)", vec![], vec![])],
    );
    let plain = selected("/g", &tree, &NO_MUSIC, &vec![]);
    let stray = vec![
        setting("svm_variant", "gone"),
        setting("svm_sub", "gone"),
        setting("svm_sound", "gone"),
    ];
    let same = selected("/g", &tree, &NO_MUSIC, &stray);
    assert_eq!(plain.names, texts(&["v (DOS)"]));
    assert_eq!(plain.run_dir, "/g/v (DOS)");
    assert_eq!((same.names, same.run_dir, same.extra_args), (plain.names, plain.run_dir, plain.extra_args));
}

#[test]
fn exo_platform_names_become_scummvm_codes() {
    assert_eq!(scummvm_platform_code("sp48"), Some("zx"));
    assert_eq!(scummvm_platform_code("st"), Some("atari"));
    assert_eq!(scummvm_platform_code("DOS"), Some("pc"));
    assert_eq!(scummvm_platform_code("martian"), None);
}

#[test]
fn variant_selection_walks_menu_levels_and_control_files() {
    let tree = dir(
        "Maniac Mansion (Multi-Platform)",
        vec![file("note.txt", "Audio is off in this port.\n")],
        vec![
            dir("Maniac Mansion (Amiga)", vec![file("platform.txt", "amiga\n")], vec![]),
            dir(
                "Maniac Mansion (DOS v1)",
                vec![file("menu.txt", "")],
                vec![
                    dir("Maniac Mansion CGA", vec![file("video.txt", "--render-mode=CGA\n")], vec![]),
                    dir("Maniac Mansion EGA", vec![file(".keep", "")], vec![]),
                ],
            ),
            dir("Maniac Mansion (NES, English, USA)", vec![file("platform.txt", "nes\n")], vec![]),
        ],
    );
    let game = "/g/Maniac Mansion (Multi-Platform)";

    let v = selected(game, &tree, &NO_MUSIC, &Vec::new());
    assert_eq!(v.run_dir, format!("{}/Maniac Mansion (Amiga)", game));
    assert_eq!(v.platform.as_deref(), Some("amiga"));
    assert_eq!(v.names, vec!["Maniac Mansion (Amiga)".to_string()]);
    assert_eq!(v.note.as_deref(), Some("Audio is off in this port."));
    assert!(v.extra_args.contains(&"--opl-driver=nuked".to_string()));

    let mut cfg = vec![setting("svm_variant", "Maniac Mansion (DOS v1)")];
    let v = selected(game, &tree, &NO_MUSIC, &cfg);
    assert_eq!(v.run_dir, format!("{}/Maniac Mansion (DOS v1)/Maniac Mansion CGA", game));
    assert_eq!(v.names[0], "Maniac Mansion CGA");
    assert_eq!(v.names[1], "Maniac Mansion (DOS v1)");
    assert!(v.extra_args.contains(&"--render-mode=CGA".to_string()));
    assert!(v.platform.is_none());

    cfg.push(setting("svm_sub", "Maniac Mansion EGA"));
    let v = selected(game, &tree, &NO_MUSIC, &cfg);
    assert_eq!(v.run_dir, format!("{}/Maniac Mansion (DOS v1)/Maniac Mansion EGA", game));
    assert!(!v.extra_args.iter().any(|a| a.starts_with("--render-mode")));
}

#[test]
fn sound_menu_picks_driver_flags() {
    let tree = dir(
        "Out of this World (Multi-Platform)",
        vec![],
        vec![dir(
            "Out of this World (DOS)",
            vec![
                file("sound.txt", "Sound Blaster:Roland MT32\n"),
                file("mt32_audio.txt", "--midi-gain=50\n"),
            ],
            vec![],
        )],
    );
    let game = "/g/Out of this World (Multi-Platform)";
    let v = selected(game, &tree, &NO_MUSIC, &Vec::new());
    assert!(!v.extra_args.contains(&"-emt32".to_string()));
    let cfg = vec![setting("svm_sound", "Roland MT32")];
    let v = selected(game, &tree, &NO_MUSIC, &cfg);
    assert!(!v.extra_args.contains(&"-emt32".to_string()));
    let v = selected(game, &tree, &MusicFiles { roms: true, soundfont: false }, &cfg);
    assert!(v.extra_args.contains(&"-emt32".to_string()));
    assert!(v.extra_args.iter().any(|a| a.starts_with("--extrapath=")));
    assert!(v.extra_args.contains(&"--midi-gain=50".to_string()));
    assert_eq!(sound_menu(Some("Sound Blaster:Roland MT32\n")), texts(&["Sound Blaster", "Roland MT32"]));
    assert_eq!(sound_menu(None).len(), 0);
}

#[test]
fn index_lookup_prefers_exact_over_prefix() {
    let index = parse_index(
        "Maniac Mansion (Amiga);scumm:maniac;scummvm.exe\r\n\
         Maniac Mansion (DOS v1) Plus;scumm:other;2.5\\scummvm.exe\r\n\
         Maniac Mansion (DOS v1);scumm:maniac;2.9.0\\scummvm.exe\r\n\
         a line of no use\r\n\
         Arthur - The Quest for Excalibur (DOS);glk:arthur;svn2.8_9335\\scummvm.exe\r\n",
    );
    let find = |names: &[&str]| lookup(&index, &texts(names)).expect("indexed");
    let e = find(&["Maniac Mansion EGA", "Maniac Mansion (DOS v1)", "Maniac Mansion (Multi-Platform)"]);
    assert_eq!(e.game_id, "scumm:maniac");
    assert_eq!(e.build, "2.9.0");
    let e = find(&["Maniac Mansion"]);
    assert!(e.dir.starts_with("Maniac Mansion"));
    assert_eq!(e.build, "default");
    let e = find(&["Arthur - The Quest for Excalibur (DOS)"]);
    assert_eq!(e.build, "svn2.8_9335");
    assert_eq!(build_version(&e.build), "2.8.0git9335-g00e72a17004");
    assert!(lookup(&index, &texts(&["Zak"])).is_none());
    assert_eq!(
        not_indexed("Zak", &texts(&["a", "b"])),
        "'Zak' is not in eXo's ScummVM launch index (a / b)."
    );
}

#[test]
fn snapshots_fall_back_to_the_nearest_release_pack() {
    assert_eq!(pack_id("default"), "scummvm-2.8.0");
    assert_eq!(pack_id("2.5"), "scummvm-2.5.0");
    assert_eq!(pack_id("2026.1.0"), "scummvm-2026.1.0");
    assert_eq!(pack_id("svn2.8_9335"), "scummvm-2.8.0");
    assert_eq!(pack_id("svn3.0.0git19492"), "scummvm-2026.1.0");
    assert_eq!(pack_id("svn2.3_18903"), "scummvm-2.5.0");
}

#[test]
fn every_build_has_a_release_pack() {
    let packs = ["2.5.0", "2.8.0", "2.9.0", "2026.1.0"];
    for b in builds() {
        assert!(packs.contains(&pack_version(b.slug)), "{}", b.slug);
        assert_eq!(build_version(b.slug), b.version);
    }
}

#[test]
fn list_variants_reads_every_level() {
    let tree = dir(
        "Maniac Mansion (Multi-Platform)",
        vec![],
        vec![
            dir("Maniac Mansion (Amiga)", vec![file("platform.txt", "amiga\n")], vec![]),
            dir(
                "Maniac Mansion (DOS v1)",
                vec![file("menu.txt", "")],
                vec![
                    dir("Maniac Mansion CGA", vec![file("video.txt", "--render-mode=CGA\n")], vec![]),
                    dir(
                        "Maniac Mansion EGA",
                        vec![file("sound.txt", "Sound Blaster:Tandy\n"), file("subtitle.txt", "--subtitles\n")],
                        vec![],
                    ),
                ],
            ),
            dir(
                "Maniac Mansion (NES)",
                vec![file("platform.txt", "nes\n"), file("sound.txt", "Sound Blaster:Roland MT32\n")],
                vec![],
            ),
        ],
    );
    let v = list_variants(&tree);
    let names: Vec<&str> = v.iter().map(|x| x.name.as_str()).collect();
    assert_eq!(names, ["Maniac Mansion (Amiga)", "Maniac Mansion (DOS v1)", "Maniac Mansion (NES)"]);
    assert_eq!(v[0].platform.as_deref(), Some("amiga"));
    assert!(v[0].subs.is_empty() && v[0].sounds.is_empty());
    let dos = &v[1];
    assert_eq!(dos.subs.len(), 2);
    assert!(dos.subs[0].sounds.is_empty());
    assert_eq!(dos.subs[1].sounds, ["Sound Blaster", "Tandy"]);
    assert!(dos.subs[1].has_subtitles);
    assert_eq!(v[2].sounds, ["Sound Blaster", "Roland MT32"]);

    let shown = scummvm_variants("/g", &tree, "/root", &NO_MUSIC, &Vec::new()).unwrap();
    assert_eq!(shown.variants.len(), 3);
    assert_eq!(shown.selected.variant.as_deref(), Some("Maniac Mansion (Amiga)"));
    assert_eq!(shown.note, None);
    assert_eq!(subdirs(&tree.dirs).len(), 3);
}

fn facts() -> EngineFacts {
    EngineFacts {
        exe_there: false,
        own_pack: false,
        serving_pack: false,
        installable: false,
        on_path: true,
        flatpak: true,
    }
}

#[test]
fn engines_are_tried_in_order() {
    let mut f = facts();
    f.exe_there = true;
    assert_eq!(resolve_scummvm(Os::Windows, &f) == Some(EngineSource::Exo), true);
    let mut f = facts();
    f.own_pack = true;
    assert_eq!(resolve_scummvm(Os::Linux, &f) == Some(EngineSource::Pack), true);
    let mut f = facts();
    f.on_path = false;
    f.flatpak = false;
    assert!(resolve_scummvm(Os::Linux, &f).is_none());
    assert!(resolve_scummvm(Os::Linux, &facts()).is_some());
    assert_eq!(exo_binary("/r", "default"), "/r/eXo/emulators/scmvm/scummvm.exe");
    assert_eq!(exo_binary("/r", "2.9.0"), "/r/eXo/emulators/scmvm/2.9.0/scummvm.exe");
    assert_eq!(pack_binary(Os::Linux, "2.9.0"), Some(s("scummvm-2.9.0/ScummVM.AppImage")));
    assert_eq!(pack_binary(Os::Windows, "2.9.0"), None);
    assert!(engine_missing(Os::Linux, "default").contains(FLATPAK_ID));
    let info = scummvm_engine_info(Some("2.5"), Os::Linux, None);
    assert!(!info.available);
    assert_eq!(info.pack_id, Some(s("scummvm-2.5.0")));
    assert_eq!(scummvm_engine_info(None, Os::Windows, None).pack_id, None);
    assert_eq!(config_path("/data", "2.5"), "/data/content/scummvm/2.5.ini");
}

#[test]
fn options_are_stored_and_passed_on() {
    let changes = set_scummvm_options(&SvmOptions {
        variant: Some(s("A")),
        sub: None,
        sound: Some(s("")),
        subtitles: Some(true),
        aspect: Some(true),
    });
    assert_eq!(changes[0].value, Some(s("A")));
    assert_eq!(changes[1].value, None);
    assert_eq!(changes[2].value, None);
    assert_eq!(changes[3].value, Some(s("true")));
    assert_eq!(changes[4].value, None);
    let v = Variant {
        run_dir: s("/run"),
        names: texts(&["A"]),
        platform: Some(s("amiga")),
        extra_args: texts(&["--x"]),
        note: None,
    };
    let args = launch_args(Os::Linux, true, &Vec::new(), "/c.ini", &v, "/save", "scumm:maniac");
    assert_eq!(args.last().map(|a| a.as_str()), Some("scumm:maniac"));
    assert!(args.contains(&s("--x")));
    assert!(args.iter().any(|a| a.contains("/save")));
    assert!(args.iter().any(|a| a.contains("/run")));
    assert_eq!(
        args,
        texts(&[
            "-f",
            "--aspect-ratio",
            "--stretch-mode=pixel-perfect",
            "--config=/c.ini",
            "--x",
            "--platform=amiga",
            "--savepath=/save",
            "--path=/run",
            "scumm:maniac",
        ])
    );
    assert_eq!(save_dir("/g/MM"), "/g/MM/!saves");
    assert_eq!(check_detection("", "/run", "scumm:maniac"), Err(undetected("/run", "scumm:maniac")));
    let index = parse_index("Maniac Mansion;scumm:maniac;2.9.0\\scummvm.exe\n");
    match launch_entry(&index, "Maniac", Some("Maniac Mansion"), &v) {
        Ok(e) => assert_eq!(e.game_id, "scumm:maniac"),
        Err(e) => panic!("{}", e),
    }
    assert_eq!(
        launch_entry(&index, "Zak", Some("Zak"), &v).err(),
        Some(s("'Zak' is not in eXo's ScummVM launch index (A / Zak)."))
    );
    assert!(launch_engine(Os::Linux, "default", &facts()).is_ok());
    let mut none = facts();
    none.on_path = false;
    none.flatpak = false;
    assert_eq!(launch_engine(Os::Mac, "default", &none).err(), Some(engine_missing(Os::Mac, "default")));
    assert_eq!(first_field_of("  amiga \nmore"), Some(s("amiga")));
    assert!(!detects("", "scumm:maniac"));
    assert!(detects("GameID   Description   Full Path\n------\nscumm:maniac   Maniac Mansion   /run\n", "scumm:maniac"));
}
