use exodium::conf::{
    autoexec_has_launch_cmd, conf_requests_printer, host_candidate, host_paths, launch_conf_path,
    on_mount_line, patch_dosbox_conf, paths_to_resolve, resolve_host_path, resolve_overlay_path,
    rewrite_host_paths, staged_candidate, trim_trailing_sep, LaunchCommand, LpPatch,
};
use exodium::emulator::{
    emulator_log, ensure_dosbox_shaders, open_manual_refusal, resolve_dosbox, sanitize_appimage_env,
    spawn_failure, stop_failure, update_check_supported, user_shader_dir, EnvVar, RunningPids,
};
use exodium::games::{
    appimage_only_vars, appimage_prefixed_path_vars, config_value, crt_enabled,
    fullscreen_enabled, game_engine_info, game_overrides, game_printing_unavailable,
    get_game_settings, get_game_variants, get_transfer_stats, global_overrides, launch_confs,
    launch_dirs, launch_game, launch_refusal_message, launch_site, page_size, platform_overrides,
    rate_limit_text, resolve_ece_binary, resolve_engine, resolve_game_conf, running_game_key,
    seeding_text, set_game_settings, strip_appdir_entries, ConfigEntry, GameSettings,
    LaunchRefusal, RunningGames, TransferStats,
};
use exodium::lp_launch::{
    find_lp_launch, lp_autoexec_compatible, lp_autoexec_plan, overlay_dir, overlay_entries,
    LaunchDir, LaunchFile,
};
use exodium::models::Game;
use exodium::scummvm::Os;
use exodium::staging::{find_ide_flag, translate_ide_for_staging, translate_midi_for_staging};

fn s(x: &str) -> String {
    x.to_string()
}

fn texts(xs: &[&str]) -> Vec<String> {
    xs.iter().map(|x| x.to_string()).collect()
}

/// Whether a path names a file or a directory of `disk`, a directory being
/// anything above a listed path.
fn is_there(disk: &[String], path: &str) -> bool {
    let bare = path.trim_end_matches('/');
    disk.iter().any(|p| p == bare || p.starts_with(&format!("{}/", bare)))
}

/// Whether the game directory answers what the English section asks for.
fn lp_compatible(conf: &str, shortcode: &str, lp: &str, root: &str, disk: &[String]) -> bool {
    lp_autoexec_compatible(conf, shortcode, lp, root, &listing(disk))
}

/// The files of `disk`, and the directories above them.
fn listing(disk: &[String]) -> Vec<String> {
    let mut out: Vec<String> = disk.to_vec();
    for path in disk {
        for (i, _) in path.match_indices('/') {
            if i > 0 {
                out.push(path[..i].to_string());
            }
        }
    }
    out
}

/// Patches a configuration for a game without a language pack, on a disk that
/// holds `disk` below the working directory.
fn patched(conf: &str, working: &str, disk: &[&str], staging: bool) -> String {
    let disk: Vec<String> = disk.iter().map(|p| format!("{}/{}", working, p)).collect();
    let with: Vec<String> = paths_to_resolve(conf, &None)
        .iter()
        .map(|body| {
            let there = is_there(&disk, &host_candidate(working, body));
            resolve_host_path(working, body, there)
        })
        .collect();
    patch_dosbox_conf(conf, &None, &None, &with, staging)
}

/// Patches a configuration for a language pack in `eXoDOS/<lang>/<shortcode>`,
/// as the launch does: through the overlay where the English section still
/// fits, else with a section of its own.
fn patched_lp(conf: &str, working: &str, lang: &str, shortcode: &str, files: &[&str]) -> String {
    let lp_dir = format!("{}/eXoDOS/{}/{}", working, lang, shortcode);
    let disk: Vec<String> = files.iter().map(|f| format!("{}/{}", lp_dir, f)).collect();
    if lp_compatible(conf, shortcode, &lp_dir, working, &disk) {
        let staging = overlay_dir(working, lang, shortcode);
        let lp = Some(LpPatch::Overlay { shortcode: s(shortcode) });
        let with: Vec<String> = paths_to_resolve(conf, &lp)
            .iter()
            .map(|body| {
                let staged = match staged_candidate(&staging, "eXoDOS", body) {
                    Some(c) => {
                        let bare = c.trim_end_matches('/');
                        bare == staging || bare == format!("{}/{}", staging, shortcode)
                    }
                    None => false,
                };
                let there = is_there(&disk, &host_candidate(working, body));
                resolve_overlay_path(&staging, "eXoDOS", working, body, staged, there)
            })
            .collect();
        patch_dosbox_conf(conf, &lp, &None, &with, true)
    } else {
        let launch = find_lp_launch(&vec![dir_of(shortcode, files)], Some(conf));
        let lp = Some(LpPatch::Custom { game_dir: lp_dir });
        let with: Vec<String> = paths_to_resolve(conf, &lp)
            .iter()
            .map(|body| resolve_host_path(working, body, is_there(&disk, &host_candidate(working, body))))
            .collect();
        patch_dosbox_conf(conf, &lp, &launch, &with, true)
    }
}

fn dir_of(name: &str, files: &[&str]) -> LaunchDir {
    LaunchDir {
        subdir: s(""),
        name: s(name),
        files: files.iter().map(|f| LaunchFile { name: s(f), text: None }).collect(),
        run_bat: None,
    }
}

const ROOT: &str = "/data/eXo";

#[test]
fn lp_probe_follows_the_mount_target_into_a_subdirectory() {
    let lp = "/data/!german/AlienOdy";
    let disk = texts(&["/data/!german/AlienOdy/ODYSSEY/run.bat"]);
    let conf = "[autoexec]\ncd ..\ncd ..\nmount c .\\eXoDOS\\AlienOdy\nc:\n@cd odyssey\n@call run\nexit\n";
    assert!(lp_compatible(conf, "AlienOdy", lp, "/data", &disk));
    let plan = lp_autoexec_plan(conf, "AlienOdy", lp, "/data").unwrap();
    assert_eq!(plan.dirs, texts(&["/data/!german/AlienOdy/odyssey"]));
    assert_eq!(plan.program, Some((s("/data/!german/AlienOdy/odyssey"), s("run"))));
}

#[test]
fn capitals_of_the_files_do_not_count() {
    let conf = "[autoexec]\nmount c .\\eXoDOS\\AlienOdy\nc:\n@cd Odyssey\n@call RUN\nexit\n";
    for file in ["ODYSSEY/run.bat", "odyssey/RUN.BAT", "Odyssey/Run.exe"] {
        let disk = vec![format!("/data/!german/AlienOdy/{}", file)];
        assert!(lp_compatible(conf, "AlienOdy", "/data/!german/AlienOdy", "/data", &disk));
    }
}

#[test]
fn lp_probe_still_rejects_a_launch_command_the_variant_lacks() {
    let lp = "/data/!german/AlienOdy";
    let disk = texts(&["/data/!german/AlienOdy/ODYSSEY"]);
    let conf = "[autoexec]\nmount c .\\eXoDOS\\AlienOdy\nc:\n@cd odyssey\n@call run\nexit\n";
    assert!(!lp_compatible(conf, "AlienOdy", lp, "/data", &disk));
}

#[test]
fn lp_probe_rejects_a_missing_directory() {
    let lp = "/data/!german/AlienOdy";
    let disk = texts(&["/data/!german/AlienOdy/run.bat"]);
    let conf = "[autoexec]\nmount c .\\eXoDOS\\AlienOdy\nc:\n@cd odyssey\n@call run\nexit\n";
    assert!(!lp_compatible(conf, "AlienOdy", lp, "/data", &disk));
}

#[test]
fn appimage_cleanup_drops_the_library_overrides_but_keeps_path() {
    assert!(appimage_only_vars().contains(&"LD_LIBRARY_PATH"));
    assert!(appimage_only_vars().contains(&"GIO_EXTRA_MODULES"));
    assert!(appimage_only_vars().contains(&"GST_PLUGIN_SYSTEM_PATH_1_0"));
    assert!(!appimage_only_vars().contains(&"PATH"));
    assert!(appimage_prefixed_path_vars().contains(&"PATH"));
}

#[test]
fn strip_appdir_entries_keeps_the_host_half() {
    assert_eq!(
        strip_appdir_entries("/tmp/.mount_x/usr/share/:/usr/share:/usr/local/share", "/tmp/.mount_x"),
        Some("/usr/share:/usr/local/share".to_string())
    );
    assert_eq!(
        strip_appdir_entries("/tmp/.mount_xy/usr/bin:/usr/bin", "/tmp/.mount_x"),
        Some("/tmp/.mount_xy/usr/bin:/usr/bin".to_string())
    );
    assert_eq!(strip_appdir_entries("/tmp/.mount_x/usr/bin:", "/tmp/.mount_x"), None);
}

#[test]
fn midi_translate_converts_ece_keys_to_staging_sections() {
    let conf = "[sdl]\nfullscreen = true\n\
                [midi]\nmididevice = mt32\nmpu401 = intelligent\n\
                mt32.romdir = /data/eXo/mt32\n\
                fluid.soundfont = /data/eXo/mt32/SoundCanvas.sf2\n\
                fluid.gain = 0.4\n\
                [autoexec]\nmount c /data/eXo/eXoDOS/SQ5\n";
    let out = translate_midi_for_staging(conf);
    assert!(!out.contains("mt32.romdir"));
    assert!(!out.contains("fluid.soundfont"));
    assert!(!out.contains("fluid.gain"));
    assert!(out.contains("mididevice = mt32"));
    assert!(out.contains("mpu401 = intelligent"));
    assert!(out.contains("[mt32]\nromdir = /data/eXo/mt32"));
    assert!(out.contains("[fluidsynth]\nsoundfont = /data/eXo/mt32/SoundCanvas.sf2"));
    assert!(out.contains("mount c /data/eXo/eXoDOS/SQ5"));
}

#[test]
fn midi_translate_maps_default_device_to_auto() {
    let conf = "[midi]\nmididevice = default\nmt32.romdir = /x/mt32\n";
    let out = translate_midi_for_staging(conf);
    assert!(out.contains("mididevice = auto"));
    assert!(!out.contains("default"));
}

#[test]
fn midi_translate_leaves_staging_native_configs_alone() {
    let conf = "[midi]\nmididevice = auto\n\
                [mt32]\nromdir = /data/eXo/mt32\n\
                [fluidsynth]\nsoundfont = /data/eXo/mt32/SoundCanvas.sf2\n";
    let out = translate_midi_for_staging(conf);
    assert_eq!(out.matches("[mt32]").count(), 1);
    assert_eq!(out.matches("[fluidsynth]").count(), 1);
    assert!(out.contains("romdir = /data/eXo/mt32"));
}

#[test]
fn midi_translate_no_midi_config_is_passthrough() {
    let conf = "[sdl]\nfullscreen = true\n[autoexec]\nrunme.exe\n";
    assert_eq!(translate_midi_for_staging(conf), conf);
}

#[test]
fn patch_dosbox_conf_keeps_guest_dos_paths() {
    let conf = "[autoexec]\nmount c .\\eXoWin3x\\20k3x\n\
         imgmount d .\\eXoWin3x\\20k3x\\cd\\cd.cue -t cdrom\nc:\n\
         path=C:\\;z:\\;c:\\windows\\\n@cd 20000\n@win runexit 20000\nexit\n";
    let out = patched(conf, ROOT, &["eXoWin3x/20k3x/cd/cd.cue"], true);
    assert!(out.contains("path=C:\\;z:\\;c:\\windows\\"), "{}", out);
    assert!(out.contains("@win runexit 20000"), "{}", out);
    assert!(out.contains("mount c /data/eXo/eXoWin3x/20k3x"), "{}", out);
    assert!(out.contains("/data/eXo/eXoWin3x/20k3x/cd/cd.cue -t cdrom"), "{}", out);
}

#[test]
fn patch_dosbox_conf_keeps_guest_imgmount_paths() {
    let conf = "[autoexec]\necho off\nmount c .\\eXoDOS\\11thHour\nc:\n\
         imgmount d \".\\cd\\11HDISK1.cue\" -t iso\ngame.exe /9 .\\ .\\\n@call run\nexit\n";
    let out = patched(conf, ROOT, &["eXoDOS/11thHour/cd/11HDISK1.cue"], true);
    assert!(out.contains("mount c /data/eXo/eXoDOS/11thHour"), "{}", out);
    assert!(out.contains("imgmount d \".\\cd\\11HDISK1.cue\" -t iso"), "{}", out);
    assert!(out.contains("game.exe /9 .\\ .\\"), "{}", out);
}

#[test]
fn ide_translate_adds_flag_to_cd_imgmounts() {
    let conf = "[dosbox]\nmemsize=32\n[ide, primary] \nenable=true \n\
         [ide, secondary] \nenable=true \n[autoexec]\n@echo off\n\
         imgmount c game/i100_203.img\nimgmount d game/cd/cd.cue -t cdrom \n\
         boot -l c\nexit\n";
    let out = translate_ide_for_staging(conf);
    assert!(out.contains("imgmount d game/cd/cd.cue -t cdrom -ide"), "{}", out);
    assert!(out.contains("imgmount c game/i100_203.img\n"), "{}", out);
}

#[test]
fn ide_translate_normalizes_dosbox_x_slot_argument() {
    let conf = "[ide, secondary]\nenable=true\n[autoexec]\n\
         imgmount d \"game/cd/A Title (Pub).ISO\" -t iso -fs iso -ide 2m\nboot -l c\n";
    let out = translate_ide_for_staging(conf);
    assert!(
        out.contains("imgmount d \"game/cd/A Title (Pub).ISO\" -t iso -fs iso -ide\n"),
        "{}",
        out
    );
    assert!(!out.contains("-ide 2m"), "{}", out);
}

#[test]
fn ide_translate_leaves_non_ide_configs_alone() {
    let conf = "[dosbox]\nmemsize=32\n[autoexec]\n\
         imgmount d game/cd/cd.cue -t cdrom\nwin runexit GAME\n";
    assert_eq!(translate_ide_for_staging(conf), conf);
    let commented = "[dosbox]\n# [ide, primary] docs only\n[autoexec]\n\
         imgmount d game/cd/cd.cue -t cdrom\n";
    assert_eq!(translate_ide_for_staging(commented), commented);
}

#[test]
fn ide_translate_ignores_ide_inside_paths() {
    let conf = "[ide, primary]\nenable=true\n[autoexec]\n\
         imgmount d /mnt/games-ide/eXoWin3x/T-IDE.iso -t iso\nboot -l c\n";
    let out = translate_ide_for_staging(conf);
    assert!(
        out.contains("imgmount d /mnt/games-ide/eXoWin3x/T-IDE.iso -t iso -ide\n"),
        "{}",
        out
    );
    let spaced = "[ide, primary]\nenable=true\n[autoexec]\n\
         imgmount d game/cd.cue -t  cdrom\n";
    assert!(translate_ide_for_staging(spaced).contains("-t  cdrom -ide\n"));
}

#[test]
fn the_ide_flag_stands_alone() {
    assert_eq!(find_ide_flag("-t iso -ide"), Some(7));
    assert_eq!(find_ide_flag("-t iso -ide 2m"), Some(7));
    assert_eq!(find_ide_flag("/mnt/games-ide/x.iso"), None);
    assert_eq!(find_ide_flag("-ident"), None);
    assert_eq!(find_ide_flag("-ide"), None);
    assert_eq!(find_ide_flag("é -ide"), Some(3));
}

#[test]
fn translating_twice_is_translating_once() {
    let midi = "[midi]\nmididevice = default\nmt32.romdir = /x/mt32\nfluid.gain = 1\n[autoexec]\n";
    let once = translate_midi_for_staging(midi);
    assert_ne!(once, midi);
    assert_eq!(translate_midi_for_staging(&once), once);
    let ide = "[ide, primary]\n[autoexec]\nimgmount d x.iso -t iso\nimgmount e y.iso -t iso -ide 2m\n";
    let once = translate_ide_for_staging(ide);
    assert_eq!(
        once,
        "[ide, primary]\n[autoexec]\nimgmount d x.iso -t iso -ide\nimgmount e y.iso -t iso -ide\n"
    );
    assert_eq!(translate_ide_for_staging(&once), once);
}

#[test]
fn resolve_game_conf_probe_order() {
    let rel = "eXo/eXoWin3x/!win3x/GeoGeo/dosbox.conf";
    let places = resolve_game_conf("/data/exodium", rel);
    let first = |disk: &[&str], places: &Vec<String>| {
        let disk: Vec<String> = disk.iter().map(|p| p.to_string()).collect();
        places.iter().find(|p| is_there(&disk, p)).cloned()
    };
    assert_eq!(first(&[], &places), None);
    let conf = "/data/exodium/eXo/eXoWin3x/!win3x/GeoGeo/dosbox.conf";
    assert_eq!(first(&[conf], &places), Some(s(conf)));

    let lang = "/data/exodium/eXo/eXoDOS/!dos/!german/DasAmt/dosbox.conf";
    let places = resolve_game_conf("/data/exodium", "eXo/eXoDOS/!dos/DasAmt/dosbox.conf");
    assert_eq!(first(&[lang], &places), Some(s(lang)));
}

#[test]
fn printer_detection_matches_enabled_not_documentation() {
    assert!(conf_requests_printer("[parallel]\nparallel1=printer\n[printer]\nprinter=true\nprintoutput=printer\n"));
    assert!(!conf_requests_printer(
        "[parallel]\nparallel1=disabled\nparallel2=disabled\n\
         # parallel1: parallel1-3 -- set type of device connected to lpt port.\n\
         #               printer (virtual dot-matrix printer, see [printer] section)\n"
    ));
}

#[test]
fn patch_dosbox_conf_converts_windows_paths() {
    let conf = "[sdl]\nfullscreen=false\n[autoexec]\n@mount c .\\eXoDOS\\SQ5\nc:\nSQ5.bat\nexit\n";
    let out = patched(conf, ROOT, &["eXoDOS/SQ5/SQ5.bat"], true);
    assert!(!out.contains('\\'), "{}", out);
    assert!(out.contains("/data/eXo/"), "{}", out);
}

#[test]
fn mount_targets_keep_no_trailing_separator() {
    let conf = "[autoexec]\nmount c .\\eXoDOS\\\nc:\n@cd DOOMII\n@call run\nexit\n";
    let out = patched(conf, ROOT, &["eXoDOS/DOOMII"], true);
    let mount = out.lines().find(|l| l.contains("mount c ")).unwrap();
    assert!(!mount.trim_end().ends_with('/'), "{}", mount);
    assert!(mount.contains("/data/eXo/eXoDOS"), "{}", mount);
}

#[test]
fn a_data_dir_with_spaces_gets_the_mount_argument_quoted() {
    let conf =
        "[midi]\nfluid.soundfont=.\\mt32\\SoundCanvas.sf2\n[autoexec]\n@mount c .\\eXoDOS\\SQ5\nc:\nSQ5.bat\nexit\n";
    let out = patched(conf, "/data/My Games/eXo", &["eXoDOS/SQ5", "mt32/SoundCanvas.sf2"], false);
    let mount = out.lines().find(|l| l.contains("mount c ")).unwrap();
    assert!(mount.contains('"') && mount.trim_end().ends_with('"'), "{}", mount);
    let sf = out.lines().find(|l| l.starts_with("fluid.soundfont=")).unwrap();
    assert!(!sf.contains('"'), "{}", sf);
}

#[test]
fn patch_dosbox_conf_lp_overlay_direct_mount() {
    let conf = "[autoexec]\n@mount c .\\eXoDOS\\SQ5\nc:\nSQ5.bat\nexit\n";
    let out = patched_lp(conf, ROOT, "!german", "SQ5", &["SQ5.BAT"]);
    assert!(out.contains(".exodium_lp/german_SQ5"), "{}", out);
    assert!(out.contains("SQ5.bat"), "{}", out);
    assert_eq!(overlay_dir(ROOT, "!german", "SQ5"), "/data/eXo/.exodium_lp/german_SQ5");
    assert_eq!(overlay_entries(conf, "eXoDOS", "SQ5").len(), 0);
    let second = "[autoexec]\nmount c .\\eXoDOS\\SQ5\nimgmount d .\\eXoDOS\\Extra\\cd.cue\n";
    assert_eq!(overlay_entries(second, "eXoDOS", "SQ5"), texts(&["Extra"]));
}

#[test]
fn patch_dosbox_conf_lp_overlay_root_mount_cd() {
    let conf = "[autoexec]\n@mount c .\\eXoDOS\\\nc:\ncls\ncd cobmiss\n@cm\nexit\n";
    let out = patched_lp(conf, ROOT, "!spanish", "cobmiss", &["CM.EXE"]);
    assert!(out.contains(".exodium_lp/spanish_cobmiss"), "{}", out);
    assert!(out.contains("cd cobmiss"), "{}", out);
    assert!(out.contains("@cm"), "{}", out);
}

#[test]
fn patch_dosbox_conf_lp_falls_back_when_exe_renamed() {
    let conf = "[autoexec]\n@mount c .\\eXoDOS\\\nc:\ncd cobmiss\n@cm\nexit\n";
    let out = patched_lp(conf, ROOT, "!spanish", "cobmiss", &["JUEGO.EXE"]);
    assert!(out.to_ascii_lowercase().contains("juego.exe"), "{}", out);
    assert!(out.contains("!spanish/cobmiss"), "{}", out);
}

#[test]
fn find_lp_launch_parses_run_bat() {
    let mut dir = dir_of("game", &["sq5.exe", "run.bat"]);
    dir.files[1].text = Some(s("@call sq5.exe\n"));
    dir.run_bat = Some(s("@call sq5.exe\n"));
    let r = find_lp_launch(&vec![dir], None).unwrap();
    assert_eq!(r.subdir, "");
    assert_eq!(r.command, "sq5.exe");
}

#[test]
fn find_lp_launch_finds_com_file_fallback() {
    let r = find_lp_launch(&vec![dir_of("game", &["game.com"])], None).unwrap();
    assert!(r.command.to_lowercase().ends_with(".com"));
}

#[test]
fn find_lp_launch_returns_none_for_empty_dir() {
    assert!(find_lp_launch(&vec![dir_of("game", &[])], None).is_none());
}

#[test]
fn find_lp_launch_uses_en_autoexec_command() {
    let conf = "[sdl]\nfullscreen=false\n[autoexec]\n\
                @mount c .\\eXoDOS\\\nc:\ncls\ncd cobmiss\n@cm\nexit\n";
    let dir = dir_of("cobmiss", &["CM.EXE", "INSTALL.EXE", "DAT.VOL"]);
    let r = find_lp_launch(&vec![dir], Some(conf)).unwrap();
    assert_eq!(r.subdir, "");
    assert_eq!(r.command, "cm");
}

#[test]
fn find_lp_launch_falls_back_to_root_exe() {
    let r = find_lp_launch(&vec![dir_of("cobmiss", &["CM.EXE", "INSTALL.EXE"])], None).unwrap();
    assert_eq!(r.subdir, "");
    assert_eq!(r.command.to_ascii_lowercase(), "cm.exe");
}

#[test]
fn find_lp_launch_en_hint_ignores_missing_program() {
    let conf = "[autoexec]\nmount c .\\eXoDOS\\\nc:\ncd foo\n@other\nexit\n";
    let r = find_lp_launch(&vec![dir_of("foo", &["game.com"])], Some(conf)).unwrap();
    assert_eq!(r.command.to_ascii_lowercase(), "game.com");
}

#[test]
fn a_patched_section_of_its_own_mounts_the_variant() {
    let lp = Some(LpPatch::Custom { game_dir: s("/data/eXo/eXoDOS/!german/SQ5") });
    let launch = Some(LaunchCommand { subdir: s("BIN"), command: s("sq5.exe") });
    let conf = "[sdl]\nfullscreen=false\n[autoexec]\n@mount c .\\eXoDOS\\SQ5\nc:\nSQ5.bat\nexit\n";
    assert_eq!(paths_to_resolve(conf, &lp).len(), 0);
    let out = patch_dosbox_conf(conf, &lp, &launch, &Vec::new(), true);
    assert!(out.starts_with("[sdl]\nfullscreen=false\n"), "{}", out);
    assert!(out.contains("/data/eXo/eXoDOS/!german/SQ5"), "{}", out);
    assert!(out.contains("sq5.exe"), "{}", out);
    assert!(!out.contains("SQ5.bat"), "{}", out);
}

#[test]
fn host_paths_are_found_and_replaced_in_order() {
    let conf = "a=.\\one\\x\nmount c .\\two\n";
    let found = host_paths(conf);
    assert_eq!(found.len(), 2);
    let out = rewrite_host_paths(conf, &texts(&["/1", "/2"]));
    assert_eq!(out, "a=/1\nmount c /2\n");
    assert!(on_mount_line("mount c .\\two", 8));
    assert!(!on_mount_line("a=.\\one", 2));
    assert_eq!(trim_trailing_sep("/x/y/"), "/x/y");
    assert_eq!(staged_candidate("/o", "eXoDOS", "eXoDOS\\SQ5"), Some(s("/o/SQ5")));
    assert_eq!(staged_candidate("/o", "eXoDOS", "mt32\\x"), None);
}

#[test]
fn a_launch_command_is_told_from_housekeeping() {
    assert!(autoexec_has_launch_cmd("[autoexec]\nmount c x\nc:\ngame.exe\nexit\n"));
    assert!(!autoexec_has_launch_cmd("[autoexec]\nmount c x\nc:\nexit\n"));
    assert!(!autoexec_has_launch_cmd("[autoexec]\n@mount c /data/eXoDOS/SQ5\nc:\nexit\n"));
    assert!(!autoexec_has_launch_cmd("[autoexec]\n@ imgmount d x.iso\ncd SQ5\n@echo off\n@c:\n@rem x\n"));
    assert!(autoexec_has_launch_cmd("[autoexec]\n@mount c x\n@call run\n"));
    assert!(!autoexec_has_launch_cmd("[autoexec]\n@echo:\n@ECHOfoo\n"));
    assert!(autoexec_has_launch_cmd("[autoexec]\nechofoo\n"));
    let conf = launch_conf_path("/data/eXo", "/data/eXo/eXoDOS/!dos/SQ5/dosbox.conf");
    assert!(conf.starts_with("/data/eXo/"));
    assert!(conf.ends_with(".conf"));
    assert_ne!(conf, launch_conf_path("/data/eXo", "/data/eXo/eXoDOS/!dos/SQ4/dosbox.conf"));
}

fn game(id: i64) -> Game {
    Game {
        id,
        title: s("Space Quest V"),
        language: s("EN"),
        year: Some(1993),
        shortcode: Some(s("SQ5")),
        torrent_source: Some(s("eXoDOS")),
        application_path: None,
        dosbox_conf: Some(s("eXo\\eXoDOS\\!dos\\SQ5\\dosbox.conf")),
        dosbox_variant: None,
        game_torrent_index: Some(3),
        gamedata_torrent_index: None,
        download_size: Some(100),
        installed: true,
        in_library: true,
    }
}

#[test]
fn a_game_launches_once() {
    let g = game(1);
    let mut running = RunningGames::new();
    assert!(launch_game(&g, &running).is_ok());
    running.started(&running_game_key(&g));
    assert!(running.is_running(&running_game_key(&g)));
    match launch_game(&g, &running) {
        Err(LaunchRefusal::Running) => {}
        _ => panic!("a running game is refused"),
    }
    assert_eq!(
        launch_refusal_message(&g, &LaunchRefusal::Running),
        Some(s("'Space Quest V' is already running."))
    );
    running.ended(&running_game_key(&g));
    assert!(launch_game(&g, &running).is_ok());

    let mut absent = game(1);
    absent.installed = false;
    match launch_game(&absent, &running) {
        Err(LaunchRefusal::NotInstalled) => {}
        _ => panic!("a game that is not installed is refused"),
    }
    assert_eq!(
        launch_refusal_message(&absent, &LaunchRefusal::NotInstalled),
        Some(s("Space Quest V is not installed. Download it first."))
    );
    let mut bare = game(1);
    bare.dosbox_conf = None;
    match launch_game(&bare, &running) {
        Err(LaunchRefusal::NoConf) => {}
        _ => panic!("a game without a configuration is refused"),
    }
    assert_eq!(launch_refusal_message(&bare, &LaunchRefusal::NoConf), None);
}

#[test]
fn languages_of_one_game_run_apart() {
    let mut german = game(2);
    german.language = s("DE");
    german.torrent_source = Some(s("eXoDOS_GLP"));
    let mut running = RunningGames::new();
    running.started(&running_game_key(&game(1)));
    assert!(!running.is_running(&running_game_key(&german)));
}

#[test]
fn settings_are_read_back() {
    let none = GameSettings {
        engine: None,
        glshader: None,
        fullscreen: None,
        cycles: None,
        custom_conf: None,
    };
    let wanted = GameSettings {
        engine: Some(s("ece")),
        glshader: Some(s("none")),
        fullscreen: Some(s("on")),
        cycles: Some(s("max")),
        custom_conf: Some(s("[cpu]\ncore=auto\n")),
    };
    let cfg = set_game_settings(Vec::new(), &wanted);
    let back = get_game_settings(&cfg);
    assert_eq!(back.cycles, Some(s("max")));
    assert_eq!(back.custom_conf, Some(s("[cpu]\ncore=auto\n")));
    let gone = get_game_settings(&set_game_settings(cfg, &none));
    assert_eq!(gone.cycles, None);
    assert_eq!(gone.engine, None);
    let entry = ConfigEntry { key: s("k"), value: s("v") };
    assert_eq!(config_value(&vec![entry], "k"), Some(s("v")));
    assert_eq!(config_value(&Vec::new(), "k"), None);
}

#[test]
fn overrides_follow_the_engine() {
    assert_eq!(global_overrides(true, true, false), "[sdl]\nfullscreen = false\n");
    assert_eq!(
        global_overrides(false, true, true),
        "[sdl]\nfullscreen = true\n[render]\nglshader = crt-auto\n"
    );
    assert_eq!(
        global_overrides(false, false, true),
        "[sdl]\nfullscreen = true\n[render]\nglshader = sharp\n"
    );
    assert_eq!(game_overrides(&Vec::new(), false), "");
    let cfg = vec![
        ConfigEntry { key: s("cycles"), value: s("max") },
        ConfigEntry { key: s("glshader"), value: s("none") },
        ConfigEntry { key: s("custom_conf"), value: s("  [mixer]\nrate=44100 ") },
    ];
    assert_eq!(
        game_overrides(&cfg, false),
        "[render]\nglshader = none\n[cpu]\ncycles = max\n\n[mixer]\nrate=44100\n"
    );
    assert_eq!(game_overrides(&cfg, true), "[cpu]\ncycles = max\n\n[mixer]\nrate=44100\n");
}

#[test]
fn the_display_follows_the_settings() {
    assert!(crt_enabled(None) && crt_enabled(Some("crt-auto")) && !crt_enabled(Some("sharp")));
    assert!(fullscreen_enabled(Some("fullscreen")));
    assert!(!fullscreen_enabled(None) && !fullscreen_enabled(Some("window")));
    assert_eq!(platform_overrides(Os::Mac, false), Some("[sdl]\noutput = texture\n"));
    assert_eq!(platform_overrides(Os::Mac, true), None);
    assert_eq!(platform_overrides(Os::Linux, false), None);
}

#[test]
fn configurations_are_handed_over_in_order() {
    assert_eq!(
        launch_confs("/p.conf", Some("/o.conf"), None, "/g.conf", Some("/x.conf")),
        texts(&["/p.conf", "/o.conf", "/g.conf", "/x.conf"])
    );
    assert_eq!(
        launch_confs("/p.conf", None, Some("/l.conf"), "/g.conf", None),
        texts(&["/p.conf", "/l.conf", "/g.conf"])
    );
    let dirs = launch_dirs("eXoDOS");
    assert_eq!(dirs.folder, "eXoDOS");
    assert_eq!(dirs.working, "eXo");
}

#[test]
fn engines_are_found_where_they_lie() {
    assert_eq!(resolve_ece_binary(None, "/data", true).len(), 0);
    assert_eq!(resolve_ece_binary(Some("ece4460"), "/data", false).len(), 0);
    assert_eq!(
        resolve_ece_binary(Some("ece4460"), "/data", true),
        texts(&[
            "/data/eXo/emulators/dosbox/ece4460/DOSBox.exe",
            "/data/eXo/emulators/dosbox/ece4230/DOSBox.exe",
        ])
    );
    assert_eq!(resolve_engine(&vec![true], Some("staging")), None);
    assert!(game_engine_info(&vec![true], Some("staging")).ece_available);
    assert!(!game_engine_info(&vec![true], Some("staging")).uses_ece);
    assert_eq!(resolve_engine(&vec![false, false], None), None);
    assert_eq!(resolve_engine(&vec![false, true], None), Some(1));
    assert!(!game_engine_info(&Vec::new(), None).ece_available);
    assert!(!game_engine_info(&Vec::new(), None).uses_ece);
    let printer = "[parallel]\nparallel1=printer\n";
    assert!(game_printing_unavailable(Some(printer), false));
    assert!(!game_printing_unavailable(Some(printer), true));
    assert!(!game_printing_unavailable(None, false));
}

#[test]
fn small_texts_and_numbers() {
    assert_eq!(page_size(None), 50);
    assert_eq!(page_size(Some(7)), 7);
    assert_eq!(page_size(Some(20000)), 10000);
    assert_eq!(rate_limit_text(Some(0)), "0");
    assert_eq!(rate_limit_text(Some(1200)), "1200");
    assert_eq!(rate_limit_text(None), "");
    assert_ne!(seeding_text(true), seeding_text(false));
    let stats = TransferStats {
        download_bps: 5,
        upload_bps: 6,
        uploaded_bytes: 7,
        peers: 0,
        active: false,
    };
    let r = get_transfer_stats(stats, &vec![false, true]);
    assert!(r.active);
    assert_eq!(r.download_bps, 5);
    assert!(!get_transfer_stats(stats, &vec![false]).active);
}

#[test]
fn variants_count_the_base_they_need() {
    let games = vec![game(1), game(2)];
    let r = get_game_variants(&games, &vec![None, Some(50)], &vec![Vec::new(), texts(&["x"])]);
    assert_eq!(r[0].download_size, Some(100));
    assert!(!r[0].requires_base);
    assert_eq!(r[1].download_size, Some(150));
    assert!(r[1].requires_base);
}

#[test]
fn the_emulator_is_looked_up_in_order() {
    let none = Vec::new();
    assert_eq!(resolve_dosbox(true, None, None, &none, &none), "dosbox-staging.exe");
    assert_eq!(resolve_dosbox(false, None, None, &none, &none), "dosbox-staging");
    let bundled = texts(&["/res/dosbox-bin/dosbox-staging", "/opt/dosbox-staging"]);
    assert_eq!(
        resolve_dosbox(false, Some("/res"), Some("/opt/exodium"), &bundled, &none),
        "/res/dosbox-bin/dosbox-staging"
    );
    assert_eq!(
        resolve_dosbox(false, None, Some("/opt/exodium"), &bundled, &none),
        "/opt/dosbox-staging"
    );
    assert_eq!(emulator_log("/log", 7), "/log/dosbox-7.log");
    assert!(spawn_failure("dosbox", "gone") == "Failed to launch emulator (dosbox): gone");
    assert_eq!(stop_failure(9, Some("denied")), "Could not stop the emulator (pid 9): denied");
    assert_eq!(stop_failure(9, None), "Could not stop the emulator (pid 9)");
    assert!(update_check_supported(Os::Windows, false));
    assert!(update_check_supported(Os::Linux, true));
    assert!(!update_check_supported(Os::Linux, false));
}

#[test]
fn shaders_go_where_the_emulator_looks() {
    assert_eq!(
        user_shader_dir(Os::Linux, None, Some("/home/u"), None),
        Some(s("/home/u/.config/dosbox/glshaders"))
    );
    assert_eq!(user_shader_dir(Os::Linux, None, None, None), None);
    assert_eq!(
        user_shader_dir(Os::Linux, Some("/cfg"), Some("/home/u"), None),
        Some(s("/cfg/dosbox/glshaders"))
    );
    let marked = texts(&["/res/dosbox-glshaders/interpolation/bilinear.glsl"]);
    assert_eq!(ensure_dosbox_shaders("/u/glshaders", "/res", &Vec::new()), None);
    assert_eq!(
        ensure_dosbox_shaders("/u/glshaders", "/res", &marked),
        Some(s("/res/dosbox-glshaders"))
    );
    let there = texts(&[
        "/res/dosbox-glshaders/interpolation/bilinear.glsl",
        "/u/glshaders/interpolation/bilinear.glsl",
    ]);
    assert_eq!(ensure_dosbox_shaders("/u/glshaders", "/res", &there), None);
}

#[test]
fn an_appimage_environment_is_cleaned() {
    let env = vec![
        EnvVar { name: s("APPIMAGE"), value: s("/home/u/x.AppImage") },
        EnvVar { name: s("APPDIR"), value: s("/tmp/.mount_x") },
        EnvVar { name: s("LD_LIBRARY_PATH"), value: s("/tmp/.mount_x/usr/lib") },
        EnvVar { name: s("PATH"), value: s("/tmp/.mount_x/usr/bin:/usr/bin") },
    ];
    let changes = sanitize_appimage_env(&env);
    let of = |n: &str| changes.iter().find(|c| c.name == n).map(|c| c.value.clone());
    assert_eq!(of("LD_LIBRARY_PATH"), Some(None));
    assert_eq!(of("PATH"), Some(Some(s("/usr/bin"))));
    assert_eq!(sanitize_appimage_env(&Vec::new()).len(), 0);
}

#[test]
fn a_stopped_game_is_one_that_runs() {
    let mut pids = RunningPids::new();
    assert!(pids.stop_game(4).is_err());
    pids.started(4, 77);
    assert_eq!(pids.stop_game(4), Ok(77));
    pids.started(4, 78);
    assert_eq!(pids.stop_game(4), Ok(78));
    pids.ended(4);
    assert!(pids.stop_game(4).is_err());
}

#[test]
fn manuals_outside_the_data_directory_stay_shut() {
    assert!(open_manual_refusal(Os::Linux, "x", "/etc/passwd", "/data").is_some());
    assert!(open_manual_refusal(Os::Linux, "x", "/data/manuals/x.pdf", "/data").is_none());
    let (file, dir) = (r"\\?\C:\data\manuals\x.pdf", r"\\?\C:\data");
    assert!(open_manual_refusal(Os::Windows, "x", file, dir).is_none());
    assert!(open_manual_refusal(Os::Windows, "x", r"\\?\C:\database\x.pdf", dir).is_some());
    assert!(open_manual_refusal(Os::Linux, "x", r"/data\x.pdf", "/data").is_some());
}

#[test]
fn a_launch_finds_its_site() {
    let mut g = game(1);
    g.torrent_source = Some(s("eXoDOS_GLP"));
    let conf = "eXo\\eXoDOS\\!dos\\SQ5\\dosbox.conf";
    let places = resolve_game_conf("/r", conf);
    let there: Vec<bool> = places.iter().map(|p| p.contains("!german")).collect();
    let site = launch_site(&g, "/r", conf, &there, true).unwrap_or_else(|e| panic!("{}", e));
    assert_eq!(site.conf, "/r/eXo/eXoDOS/!dos/!german/SQ5/dosbox.conf");
    assert_eq!(site.working_dir, "/r/eXo");
    assert_eq!(site.options_conf, "/r/eXo/emulators/dosbox/options.conf");
    assert!(site.unpack);
    let lp = site.lp.unwrap();
    assert_eq!((lp.shortcode.as_str(), lp.lang_dir.as_str(), lp.folder.as_str()), ("SQ5", "!german", "eXoDOS"));
    assert_eq!(lp.dir, "/r/eXo/eXoDOS/!german/SQ5");

    let none: Vec<bool> = places.iter().map(|_| false).collect();
    assert_eq!(
        launch_site(&g, "/r", conf, &none, true).err(),
        Some(s("Game config not found: /r/eXo/eXoDOS/!dos/SQ5/dosbox.conf\nMake sure the game is fully downloaded and extracted."))
    );
    assert_eq!(
        launch_site(&g, "/r", conf, &there, false).err(),
        Some(s("Working directory not found: /r/eXo"))
    );
    assert!(launch_site(&game(1), "/r", conf, &there, true).unwrap_or_else(|e| panic!("{}", e)).lp.is_none());
}
