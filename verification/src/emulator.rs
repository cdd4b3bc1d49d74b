//! The emulator as a program: where it is found, what it is started with, and what
//! is known of it while it runs.

use crate::fspath::{join_path, parent_of};
use crate::paths::path_lies_below;
use crate::games::{appimage_only_vars, appimage_prefixed_path_vars, strip_appdir_entries};
use crate::scummvm::Os;
use crate::text;
use crate::text::{
    cat, cat3, chars_of, copy, decimal_of, has_prefix, is_one_of, same, signed_of,
};
use vstd::prelude::*;

verus! {

// ── Finding it ───────────────────────────────────────────────────────────────

/// The name of the program.
pub open spec fn program_name(windows: bool) -> Seq<char> {
    if windows {
        "dosbox-staging.exe"@
    } else {
        "dosbox-staging"@
    }
}

/// Where the program may lie: in the resources, beside the program that starts it, and
/// where older packages put it.
pub open spec fn program_places(
    windows: bool,
    resource_dir: Option<Seq<char>>,
    exe: Option<Seq<char>>,
) -> Seq<Seq<char>> {
    let bin = program_name(windows);
    (match resource_dir {
        Some(dir) => seq![
            crate::fspath::joined(crate::fspath::joined(dir, "dosbox-bin"@), bin),
            crate::fspath::joined(crate::fspath::joined(dir, "resources/dosbox-bin"@), bin),
        ],
        None => Seq::<Seq<char>>::empty(),
    }) + (match exe {
        Some(path) => match crate::fspath::parent(path) {
            Some(dir) => seq![crate::fspath::joined(dir, bin)],
            None => Seq::<Seq<char>>::empty(),
        },
        None => Seq::<Seq<char>>::empty(),
    }) + (match resource_dir {
        Some(dir) => seq![crate::fspath::joined(dir, bin)],
        None => Seq::<Seq<char>>::empty(),
    })
}

fn dosbox_places(windows: bool, resource_dir: Option<&str>, exe: Option<&str>) -> (r: Vec<String>)
    ensures
        text::texts(r@) == program_places(windows, text::opt_ref(resource_dir), text::opt_ref(exe)),
{
    let bin = if windows {
        "dosbox-staging.exe"
    } else {
        "dosbox-staging"
    };
    let mut out: Vec<String> = Vec::new();
    if let Some(dir) = resource_dir {
        out.push(join_path(join_path(dir, "dosbox-bin").as_str(), bin));
        out.push(join_path(join_path(dir, "resources/dosbox-bin").as_str(), bin));
    }
    if let Some(path) = exe {
        if let Some(dir) = parent_of(path) {
            out.push(join_path(dir.as_str(), bin));
        }
    }
    if let Some(dir) = resource_dir {
        out.push(join_path(dir, bin));
    }
    assert(text::texts(out@) =~= program_places(windows, text::opt_ref(resource_dir), text::opt_ref(exe)));
    out
}

/// The first name, `i` or later, of a build for this machine.
pub open spec fn dev_from(names: Seq<Seq<char>>, i: int) -> Option<Seq<char>>
    decreases names.len() - i,
{
    if i >= names.len() {
        None
    } else if "dosbox-staging"@.is_prefix_of(names[i]) {
        Some(names[i])
    } else {
        dev_from(names, i + 1)
    }
}

/// The program that is started: the first that is there of the places where it may
/// lie, else a build beside the sources, else whatever the search path has.
pub open spec fn program_of(
    windows: bool,
    resource_dir: Option<Seq<char>>,
    exe: Option<Seq<char>>,
    present: Seq<Seq<char>>,
    binaries: Seq<Seq<char>>,
) -> Seq<char> {
    match crate::assets::first_present(program_places(windows, resource_dir, exe), present, 0) {
        Some(path) => path,
        None => match (resource_dir, dev_from(binaries, 0)) {
            (Some(dir), Some(name)) => crate::fspath::joined(
                crate::fspath::joined(dir, "binaries"@),
                name,
            ),
            _ => program_name(windows),
        },
    }
}

/// The program that is started. `present` lists the files that are on disk, and
/// `binaries` the names beside the sources.
pub fn resolve_dosbox(
    windows: bool,
    resource_dir: Option<&str>,
    exe: Option<&str>,
    present: &Vec<String>,
    binaries: &Vec<String>,
) -> (r: String)
    ensures
        r@ == program_of(
            windows,
            text::opt_ref(resource_dir),
            text::opt_ref(exe),
            text::texts(present@),
            text::texts(binaries@),
        ),
{
    let places = dosbox_places(windows, resource_dir, exe);
    let ghost all = text::texts(places@);
    let ghost on_disk = text::texts(present@);
    let mut i: usize = 0;
    while i < places.len()
        invariant
            i <= places@.len(),
            all == text::texts(places@),
            all == program_places(windows, text::opt_ref(resource_dir), text::opt_ref(exe)),
            on_disk == text::texts(present@),
            crate::assets::first_present(all, on_disk, i as int) == crate::assets::first_present(
                all,
                on_disk,
                0,
            ),
        decreases places@.len() - i,
    {
        assert(all[i as int] == places@[i as int]@);
        if is_one_of(present, places[i].as_str()) {
            return copy(places[i].as_str());
        }
        i += 1;
    }
    let ghost names = text::texts(binaries@);
    if let Some(dir) = resource_dir {
        let mut k: usize = 0;
        while k < binaries.len()
            invariant
                k <= binaries@.len(),
                names == text::texts(binaries@),
                text::opt_ref(resource_dir) == Some(dir@),
                all == program_places(windows, text::opt_ref(resource_dir), text::opt_ref(exe)),
                on_disk == text::texts(present@),
                crate::assets::first_present(all, on_disk, 0) is None,
                dev_from(names, k as int) == dev_from(names, 0),
            decreases binaries@.len() - k,
        {
            assert(names[k as int] == binaries@[k as int]@);
            if has_prefix(chars_of(binaries[k].as_str()).as_slice(), "dosbox-staging") {
                return join_path(join_path(dir, "binaries").as_str(), binaries[k].as_str());
            }
            k += 1;
        }
    }
    if windows {
        copy("dosbox-staging.exe")
    } else {
        copy("dosbox-staging")
    }
}

// ── Shaders ──────────────────────────────────────────────────────────────────

/// Where the emulator looks for a user's shaders.
pub open spec fn shader_place(
    os: Os,
    xdg: Option<Seq<char>>,
    home: Option<Seq<char>>,
    local_app_data: Option<Seq<char>>,
) -> Option<Seq<char>> {
    match os {
        Os::Linux => match (xdg, home) {
            (Some(base), _) => Some(
                crate::fspath::joined(crate::fspath::joined(base, "dosbox"@), "glshaders"@),
            ),
            (None, Some(h)) => Some(
                crate::fspath::joined(
                    crate::fspath::joined(crate::fspath::joined(h, ".config"@), "dosbox"@),
                    "glshaders"@,
                ),
            ),
            (None, None) => None,
        },
        Os::Windows => match local_app_data {
            Some(p) => Some(
                crate::fspath::joined(crate::fspath::joined(p, "DOSBox"@), "glshaders"@),
            ),
            None => None,
        },
        Os::Mac => match home {
            Some(h) => Some(
                crate::fspath::joined(
                    crate::assets::below3(h, "Library"@, "Preferences"@, "DOSBox"@),
                    "glshaders"@,
                ),
            ),
            None => None,
        },
    }
}

/// Where the emulator looks for a user's shaders.
pub fn user_shader_dir(
    os: Os,
    xdg: Option<&str>,
    home: Option<&str>,
    local_app_data: Option<&str>,
) -> (r: Option<String>)
    ensures
        text::opt(r) == shader_place(os, text::opt_ref(xdg), text::opt_ref(home), text::opt_ref(local_app_data)),
{
    match os {
        Os::Linux => match (xdg, home) {
            (Some(base), _) => Some(
                join_path(join_path(base, "dosbox").as_str(), "glshaders"),
            ),
            (None, Some(h)) => {
                let config = join_path(h, ".config");
                Some(join_path(join_path(config.as_str(), "dosbox").as_str(), "glshaders"))
            },
            (None, None) => None,
        },
        Os::Windows => match local_app_data {
            Some(p) => Some(join_path(join_path(p, "DOSBox").as_str(), "glshaders")),
            None => None,
        },
        Os::Mac => match home {
            Some(h) => {
                let library = join_path(h, "Library");
                let preferences = join_path(library.as_str(), "Preferences");
                let dosbox = join_path(preferences.as_str(), "DOSBox");
                Some(join_path(dosbox.as_str(), "glshaders"))
            },
            None => None,
        },
    }
}

/// The file that shows that shaders lie in a directory.
pub open spec fn shader_mark(dir: Seq<char>) -> Seq<char> {
    crate::fspath::joined(crate::fspath::joined(dir, "interpolation"@), "bilinear.glsl"@)
}

/// Where the shaders may lie that come with the program.
pub open spec fn bundled_shader_places(resource_dir: Seq<char>) -> Seq<Seq<char>> {
    seq![
        crate::fspath::joined(resource_dir, "glshaders"@),
        crate::fspath::joined(resource_dir, "dosbox-glshaders"@),
        crate::fspath::joined(resource_dir, "resources/dosbox-glshaders"@),
    ]
}

/// The first place, `i` or later, that shaders lie in.
pub open spec fn marked_from(
    dirs: Seq<Seq<char>>,
    files: Seq<Seq<char>>,
    i: int,
) -> Option<Seq<char>>
    decreases dirs.len() - i,
{
    if i >= dirs.len() {
        None
    } else if files.contains(shader_mark(dirs[i])) {
        Some(dirs[i])
    } else {
        marked_from(dirs, files, i + 1)
    }
}

fn has_shaders(dir: &str, files: &Vec<String>) -> (r: bool)
    ensures
        r == text::texts(files@).contains(shader_mark(dir@)),
{
    let mark = join_path(join_path(dir, "interpolation").as_str(), "bilinear.glsl");
    is_one_of(files, mark.as_str())
}

/// The shaders to copy to a user's directory: those that come with the program, unless
/// the user's directory has shaders. `files` lists the files that are on disk.
pub fn ensure_dosbox_shaders(user_dir: &str, resource_dir: &str, files: &Vec<String>) -> (r: Option<
    String,
>)
    ensures
        text::opt(r) == if text::texts(files@).contains(shader_mark(user_dir@)) {
            None
        } else {
            marked_from(bundled_shader_places(resource_dir@), text::texts(files@), 0)
        },
{
    if has_shaders(user_dir, files) {
        return None;
    }
    let mut dirs: Vec<String> = Vec::new();
    dirs.push(join_path(resource_dir, "glshaders"));
    dirs.push(join_path(resource_dir, "dosbox-glshaders"));
    dirs.push(join_path(resource_dir, "resources/dosbox-glshaders"));
    let ghost all = text::texts(dirs@);
    assert(all =~= bundled_shader_places(resource_dir@));
    let mut i: usize = 0;
    while i < dirs.len()
        invariant
            i <= dirs@.len(),
            all == text::texts(dirs@),
            all == bundled_shader_places(resource_dir@),
            !text::texts(files@).contains(shader_mark(user_dir@)),
            marked_from(all, text::texts(files@), i as int) == marked_from(all, text::texts(files@), 0),
        decreases dirs@.len() - i,
    {
        assert(all[i as int] == dirs@[i as int]@);
        if has_shaders(dirs[i].as_str(), files) {
            return Some(copy(dirs[i].as_str()));
        }
        i += 1;
    }
    None
}

// ── Its environment ──────────────────────────────────────────────────────────

/// A variable of the environment.
pub struct EnvVar {
    pub name: String,
    pub value: String,
}

/// A change to the environment of the emulator.
pub struct EnvChange {
    pub name: &'static str,
    /// The new value. The variable goes where there is none.
    pub value: Option<String>,
}

/// The value of the first variable, `i` or later, with this name.
pub open spec fn env_from(env: Seq<EnvVar>, name: Seq<char>, i: int) -> Option<Seq<char>>
    decreases env.len() - i,
{
    if i >= env.len() {
        None
    } else if env[i].name@ == name {
        Some(env[i].value@)
    } else {
        env_from(env, name, i + 1)
    }
}

fn env_value<'a>(env: &'a Vec<EnvVar>, name: &str) -> (r: Option<&'a str>)
    ensures
        text::opt_ref(r) == env_from(env@, name@, 0),
{
    let mut i: usize = 0;
    while i < env.len()
        invariant
            i <= env@.len(),
            env_from(env@, name@, i as int) == env_from(env@, name@, 0),
        decreases env@.len() - i,
    {
        if same(env[i].name.as_str(), name) {
            return Some(env[i].value.as_str());
        }
        i += 1;
    }
    None
}

/// The views of changes.
pub open spec fn changes(v: Seq<EnvChange>) -> Seq<(Seq<char>, Option<Seq<char>>)> {
    Seq::new(v.len(), |i: int| (v[i].name@, text::opt(v[i].value)))
}

/// The first `n` variables go.
pub open spec fn dropped_vars(names: Seq<Seq<char>>, n: int) -> Seq<(Seq<char>, Option<Seq<char>>)>
    decreases n,
{
    if n <= 0 {
        Seq::<(Seq<char>, Option<Seq<char>>)>::empty()
    } else {
        dropped_vars(names, n - 1).push((names[n - 1], None))
    }
}

/// Those of the first `n` variables that are set lose the AppImage's entries.
pub open spec fn stripped_vars(
    names: Seq<Seq<char>>,
    env: Seq<EnvVar>,
    appdir: Seq<char>,
    n: int,
) -> Seq<(Seq<char>, Option<Seq<char>>)>
    decreases n,
{
    if n <= 0 {
        Seq::<(Seq<char>, Option<Seq<char>>)>::empty()
    } else {
        match env_from(env, names[n - 1], 0) {
            Some(value) => stripped_vars(names, env, appdir, n - 1).push(
                (names[n - 1], crate::games::host_half(value, appdir)),
            ),
            None => stripped_vars(names, env, appdir, n - 1),
        }
    }
}

/// What changes in the environment of an emulator that an AppImage starts.
pub open spec fn env_changes(env: Seq<EnvVar>) -> Seq<(Seq<char>, Option<Seq<char>>)> {
    let only = crate::games::appimage_only();
    let prefixed = crate::games::appimage_prefixed();
    if env_from(env, "APPIMAGE"@, 0) is None {
        Seq::<(Seq<char>, Option<Seq<char>>)>::empty()
    } else {
        dropped_vars(only, only.len() as int) + (match env_from(env, "APPDIR"@, 0) {
            Some(appdir) if appdir.len() > 0 => stripped_vars(
                prefixed,
                env,
                appdir,
                prefixed.len() as int,
            ),
            _ => Seq::<(Seq<char>, Option<Seq<char>>)>::empty(),
        })
    }
}

/// What changes in the environment of an emulator that an AppImage starts: the
/// AppImage's own libraries and paths would break a program of the system.
pub fn sanitize_appimage_env(env: &Vec<EnvVar>) -> (r: Vec<EnvChange>)
    ensures
        changes(r@) == env_changes(env@),
{
    let mut out: Vec<EnvChange> = Vec::new();
    if env_value(env, "APPIMAGE").is_none() {
        assert(changes(out@) =~= env_changes(env@));
        return out;
    }
    let only = appimage_only_vars();
    let ghost names = text::strs(only@);
    let mut i: usize = 0;
    assert(changes(out@) =~= dropped_vars(names, 0));
    while i < only.len()
        invariant
            i <= only@.len(),
            names == text::strs(only@),
            changes(out@) == dropped_vars(names, i as int),
        decreases only@.len() - i,
    {
        let ghost done = changes(out@);
        out.push(EnvChange { name: only[i], value: None });
        assert(names[i as int] == only@[i as int]@);
        assert(changes(out@) =~= done.push((names[i as int], None)));
        i += 1;
    }
    let ghost first = changes(out@);
    let appdir = match env_value(env, "APPDIR") {
        Some(d) if chars_of(d).len() > 0 => d,
        _ => {
            assert(changes(out@) =~= env_changes(env@));
            return out;
        },
    };
    let prefixed = appimage_prefixed_path_vars();
    let ghost paths = text::strs(prefixed@);
    let mut k: usize = 0;
    assert(changes(out@) =~= first + stripped_vars(paths, env@, appdir@, 0));
    while k < prefixed.len()
        invariant
            k <= prefixed@.len(),
            paths == text::strs(prefixed@),
            changes(out@) == first + stripped_vars(paths, env@, appdir@, k as int),
        decreases prefixed@.len() - k,
    {
        assert(paths[k as int] == prefixed@[k as int]@);
        if let Some(value) = env_value(env, prefixed[k]) {
            let ghost done = changes(out@);
            let kept = strip_appdir_entries(value, appdir);
            let ghost view = (prefixed@[k as int]@, text::opt(kept));
            out.push(EnvChange { name: prefixed[k], value: kept });
            assert(changes(out@) =~= done.push(view));
            assert(changes(out@) =~= first + stripped_vars(paths, env@, appdir@, k + 1));
        }
        k += 1;
    }
    out
}

// ── While it runs ────────────────────────────────────────────────────────────

/// The file that an emulator's output goes to.
pub fn emulator_log(log_dir: &str, id: i64) -> (r: String)
    ensures
        r@ == crate::fspath::joined(log_dir@, "dosbox-"@ + text::signed(id as int) + ".log"@),
{
    let name = cat3("dosbox-", signed_of(id).as_str(), ".log");
    join_path(log_dir, name.as_str())
}

/// The emulators that run, by game.
pub struct RunningPids {
    pub rows: Vec<(i64, u32)>,
}

/// The process of the first row, `i` or later, for a game.
pub open spec fn pid_from(rows: Seq<(i64, u32)>, id: i64, i: int) -> Option<u32>
    decreases rows.len() - i,
{
    if i >= rows.len() {
        None
    } else if rows[i].0 == id {
        Some(rows[i].1)
    } else {
        pid_from(rows, id, i + 1)
    }
}

impl RunningPids {
    /// No game has two emulators.
    pub open spec fn wf(&self) -> bool {
        forall|i: int, j: int|
            0 <= i < j < self.rows@.len() ==> (#[trigger] self.rows@[i]).0 != (
            #[trigger] self.rows@[j]).0
    }

    /// The process of a game's emulator.
    pub open spec fn pid(&self, id: i64) -> Option<u32> {
        pid_from(self.rows@, id, 0)
    }

    /// Nothing runs.
    pub fn new() -> (r: RunningPids)
        ensures
            r.wf(),
            forall|id: i64| #[trigger] r.pid(id) is None,
    {
        RunningPids { rows: Vec::new() }
    }

    fn place(&self, id: i64) -> (r: Option<usize>)
        ensures
            match r {
                Some(i) => i < self.rows@.len() && self.rows@[i as int].0 == id && self.pid(id)
                    == Some(self.rows@[i as int].1),
                None => self.pid(id) is None && forall|k: int|
                    0 <= k < self.rows@.len() ==> (#[trigger] self.rows@[k]).0 != id,
            },
    {
        let mut i: usize = 0;
        while i < self.rows.len()
            invariant
                i <= self.rows@.len(),
                pid_from(self.rows@, id, i as int) == pid_from(self.rows@, id, 0),
                forall|k: int| 0 <= k < i ==> (#[trigger] self.rows@[k]).0 != id,
            decreases self.rows@.len() - i,
        {
            if self.rows[i].0 == id {
                return Some(i);
            }
            i += 1;
        }
        None
    }

    /// A game's emulator has started.
    pub fn started(&mut self, id: i64, pid: u32)
        requires
            old(self).wf(),
        ensures
            final(self).wf(),
            forall|k: i64| #[trigger]
                final(self).pid(k) == if k == id {
                    Some(pid)
                } else {
                    old(self).pid(k)
                },
    {
        let ghost before = self.rows@;
        match self.place(id) {
            Some(i) => {
                self.rows.set(i, (id, pid));
                proof {
                    assert forall|k: i64| #[trigger]
                        pid_from(self.rows@, k, 0) == if k == id {
                            Some(pid)
                        } else {
                            pid_from(before, k, 0)
                        } by {
                        lemma_pid_set(before, i as int, id, pid, k, 0);
                    }
                }
            },
            None => {
                self.rows.push((id, pid));
                proof {
                    assert forall|k: i64| #[trigger]
                        pid_from(self.rows@, k, 0) == if k == id {
                            Some(pid)
                        } else {
                            pid_from(before, k, 0)
                        } by {
                        lemma_pid_push(before, id, pid, k, 0);
                    }
                }
            },
        }
    }

    /// A game's emulator has ended.
    pub fn ended(&mut self, id: i64)
        requires
            old(self).wf(),
        ensures
            final(self).wf(),
            forall|k: i64| #[trigger]
                final(self).pid(k) == if k == id {
                    None
                } else {
                    old(self).pid(k)
                },
    {
        let ghost before = self.rows@;
        if let Some(i) = self.place(id) {
            self.rows.remove(i);
            proof {
                let after = self.rows@;
                assert(after =~= before.remove(i as int));
                assert forall|a: int, b: int| 0 <= a < b < after.len() implies (
                #[trigger] after[a]).0 != (#[trigger] after[b]).0 by {
                    let x = if a < i { a } else { a + 1 };
                    let y = if b < i { b } else { b + 1 };
                    assert(after[a] == before[x] && after[b] == before[y]);
                }
                assert forall|k: i64| #[trigger]
                    pid_from(after, k, 0) == if k == id {
                        None
                    } else {
                        pid_from(before, k, 0)
                    } by {
                    lemma_pid_remove(before, i as int, k, 0);
                }
            }
        }
    }

    /// The process to stop for a game.
    pub fn stop_game(&self, id: i64) -> (r: Result<u32, String>)
        ensures
            match r {
                Ok(pid) => self.pid(id) == Some(pid),
                Err(message) => self.pid(id) is None && message@ == "Game is not running"@,
            },
    {
        match self.place(id) {
            Some(i) => Ok(self.rows[i].1),
            None => Err(copy("Game is not running")),
        }
    }
}

proof fn lemma_pid_set(rows: Seq<(i64, u32)>, at: int, id: i64, pid: u32, k: i64, i: int)
    requires
        0 <= i <= rows.len(),
        0 <= at < rows.len(),
        rows[at].0 == id,
        forall|a: int, b: int|
            0 <= a < b < rows.len() ==> (#[trigger] rows[a]).0 != (#[trigger] rows[b]).0,
    ensures
        pid_from(rows.update(at, (id, pid)), k, i) == (if k == id && i <= at {
            Some(pid)
        } else {
            pid_from(rows, k, i)
        }),
    decreases rows.len() - i,
{
    let now = rows.update(at, (id, pid));
    if i < rows.len() {
        lemma_pid_set(rows, at, id, pid, k, i + 1);
        if i < at {
            assert(rows[i].0 != rows[at].0);
        }
        if i > at {
            assert(rows[at].0 != rows[i].0);
        }
    }
}

proof fn lemma_pid_push(rows: Seq<(i64, u32)>, id: i64, pid: u32, k: i64, i: int)
    requires
        0 <= i <= rows.len(),
        forall|a: int| 0 <= a < rows.len() ==> (#[trigger] rows[a]).0 != id,
    ensures
        pid_from(rows.push((id, pid)), k, i) == (if k == id {
            Some(pid)
        } else {
            pid_from(rows, k, i)
        }),
    decreases rows.len() - i,
{
    reveal_with_fuel(pid_from, 2);
    let now = rows.push((id, pid));
    if i < rows.len() {
        lemma_pid_push(rows, id, pid, k, i + 1);
        assert(now[i] == rows[i]);
    } else {
        assert(now[i] == (id, pid));
    }
}

proof fn lemma_pid_remove(rows: Seq<(i64, u32)>, at: int, k: i64, i: int)
    requires
        0 <= i < rows.len(),
        0 <= at < rows.len(),
        i <= at,
        forall|a: int, b: int|
            0 <= a < b < rows.len() ==> (#[trigger] rows[a]).0 != (#[trigger] rows[b]).0,
    ensures
        pid_from(rows.remove(at), k, i) == (if k == rows[at].0 {
            None
        } else {
            pid_from(rows, k, i)
        }),
    decreases at - i,
{
    let now = rows.remove(at);
    if i < at {
        assert(now[i] == rows[i]);
        assert(rows[i].0 != rows[at].0);
        lemma_pid_remove(rows, at, k, i + 1);
    } else {
        lemma_pid_tail(rows, at, k, at);
    }
}

proof fn lemma_pid_tail(rows: Seq<(i64, u32)>, at: int, k: i64, i: int)
    requires
        0 <= at <= i,
        at < rows.len(),
        i <= rows.len() - 1,
        forall|a: int, b: int|
            0 <= a < b < rows.len() ==> (#[trigger] rows[a]).0 != (#[trigger] rows[b]).0,
    ensures
        pid_from(rows.remove(at), k, i) == pid_from(rows, k, i + 1),
        k == rows[at].0 ==> pid_from(rows, k, i + 1) is None,
    decreases rows.len() - i,
{
    let now = rows.remove(at);
    if i < now.len() {
        assert(now[i] == rows[i + 1]);
        assert(rows[at].0 != rows[i + 1].0);
        lemma_pid_tail(rows, at, k, i + 1);
    }
}

/// What is said of an emulator that could not be stopped.
pub fn stop_failure(pid: u32, error: Option<&str>) -> (r: String)
    ensures
        r@ == "Could not stop the emulator (pid "@ + text::decimal(pid as nat) + ")"@ + (match error {
            Some(e) => ": "@ + e@,
            None => Seq::<char>::empty(),
        }),
{
    let head = cat3("Could not stop the emulator (pid ", decimal_of(pid as u64).as_str(), ")");
    match error {
        Some(e) => {
            let whole = cat3(head.as_str(), ": ", e);
            assert(whole@ =~= head@ + (": "@ + e@));
            whole
        },
        None => {
            assert(head@ =~= head@ + Seq::<char>::empty());
            head
        },
    }
}

/// What is said of an emulator that could not be started.
pub fn spawn_failure(program: &str, error: &str) -> (r: String)
    ensures
        r@ == "Failed to launch emulator ("@ + program@ + "): "@ + error@,
{
    let head = cat3("Failed to launch emulator (", program, "): ");
    cat(head.as_str(), error)
}

/// Why a manual is not opened: its real path lies outside the data directory.
pub fn open_manual_refusal(os: Os, path: &str, actual: &str, data_dir: &str) -> (r: Option<String>)
    ensures
        text::opt(r) == if crate::paths::lies_below(os, actual@, data_dir@) {
            None
        } else {
            Some("Refusing to open path outside the data directory: "@ + path@)
        },
{
    if path_lies_below(os, actual, data_dir) {
        None
    } else {
        Some(cat("Refusing to open path outside the data directory: ", path))
    }
}

/// Whether the program looks for updates of itself. On Linux only an AppImage does.
pub fn update_check_supported(os: Os, appimage: bool) -> (r: bool)
    ensures
        r == (os != Os::Linux || appimage),
{
    match os {
        Os::Linux => appimage,
        _ => true,
    }
}

/// The program of the resources goes first, then that of the packed resources, then the one
/// beside the program that starts it. Without any, the search path decides.
pub proof fn law_which_dosbox_is_started(
    dir: Seq<char>,
    exe: Option<Seq<char>>,
    present: Seq<Seq<char>>,
    binaries: Seq<Seq<char>>,
)
    ensures
        ({
            let bin = "dosbox-staging"@;
            let a = crate::fspath::joined(crate::fspath::joined(dir, "dosbox-bin"@), bin);
            let b = crate::fspath::joined(crate::fspath::joined(dir, "resources/dosbox-bin"@), bin);
            let started = program_of(false, Some(dir), exe, present, binaries);
            &&& present.contains(a) ==> started == a
            &&& present.contains(b) && !present.contains(a) ==> started == b
            &&& !present.contains(a) && !present.contains(b) ==> (exe matches Some(path)
                ==> crate::fspath::parent(path) matches Some(beside) ==> present.contains(
                crate::fspath::joined(beside, bin),
            ) ==> started == crate::fspath::joined(beside, bin))
        }),
        present.len() == 0 && binaries.len() == 0 ==> program_of(
            false,
            Some(dir),
            exe,
            present,
            binaries,
        ) == "dosbox-staging"@ && program_of(true, Some(dir), exe, present, binaries)
            == "dosbox-staging.exe"@,
{
    let places = program_places(false, Some(dir), exe);
    let bin = "dosbox-staging"@;
    assert(places[0] == crate::fspath::joined(crate::fspath::joined(dir, "dosbox-bin"@), bin));
    assert(places[1] == crate::fspath::joined(
        crate::fspath::joined(dir, "resources/dosbox-bin"@),
        bin,
    ));
    reveal_with_fuel(crate::assets::first_present, 6);
    if exe is Some && crate::fspath::parent(exe->0) is Some {
        assert(places[2] == crate::fspath::joined(crate::fspath::parent(exe->0)->0, bin));
    }
}

/// Outside an AppImage the environment of an emulator stays as it is.
pub proof fn law_outside_an_appimage_nothing_changes(env: Seq<EnvVar>)
    requires
        forall|i: int| 0 <= i < env.len() ==> (#[trigger] env[i]).name@ != "APPIMAGE"@,
    ensures
        env_changes(env).len() == 0,
{
    lemma_no_variable(env, "APPIMAGE"@, 0);
}

proof fn lemma_no_variable(env: Seq<EnvVar>, name: Seq<char>, i: int)
    requires
        0 <= i <= env.len(),
        forall|k: int| 0 <= k < env.len() ==> (#[trigger] env[k]).name@ != name,
    ensures
        env_from(env, name, i) is None,
    decreases env.len() - i,
{
    if i < env.len() {
        assert(env[i].name@ != name);
        lemma_no_variable(env, name, i + 1);
    }
}

proof fn lemma_a_variable(env: Seq<EnvVar>, name: Seq<char>, i: int, k: int)
    requires
        0 <= i <= k < env.len(),
        env[k].name@ == name,
    ensures
        env_from(env, name, i) is Some,
    decreases k - i,
{
    if i < k {
        lemma_a_variable(env, name, i + 1, k);
    }
}

/// Inside an AppImage an emulator gets neither the AppImage's libraries nor what it preloads,
/// nor the variables that name the AppImage.
pub proof fn law_the_appimages_libraries_go(env: Seq<EnvVar>, k: int)
    requires
        0 <= k < env.len(),
        env[k].name@ == "APPIMAGE"@,
    ensures
        env_changes(env).contains(("LD_LIBRARY_PATH"@, None)),
        env_changes(env).contains(("LD_PRELOAD"@, None)),
        env_changes(env).contains(("APPDIR"@, None)),
        env_changes(env).contains(("APPIMAGE"@, None)),
        env_changes(env).contains(("OWD"@, None)),
        env_changes(env).contains(("ARGV0"@, None)),
        env_changes(env).contains(("PYTHONHOME"@, None)),
        env_changes(env).contains(("GTK_PATH"@, None)),
        env_changes(env).contains(("GTK_IM_MODULE_FILE"@, None)),
        env_changes(env).contains(("GDK_PIXBUF_MODULE_FILE"@, None)),
        env_changes(env).contains(("GIO_EXTRA_MODULES"@, None)),
        env_changes(env).contains(("GSETTINGS_SCHEMA_DIR"@, None)),
{
    lemma_a_variable(env, "APPIMAGE"@, 0, k);
    let only = crate::games::appimage_only();
    let all = env_changes(env);
    lemma_dropped(only, only.len() as int);
    assert forall|i: int| 0 <= i < only.len() implies all[i] == (
        #[trigger] only[i],
        None::<Seq<char>>,
    ) by {
        assert(dropped_vars(only, only.len() as int)[i] == (only[i], None::<Seq<char>>));
    }
    assert(only[0] == "LD_LIBRARY_PATH"@);
    assert(only[1] == "LD_PRELOAD"@);
    assert(only[2] == "APPDIR"@);
    assert(only[3] == "APPIMAGE"@);
    assert(only[4] == "OWD"@);
    assert(only[5] == "ARGV0"@);
    assert(only[6] == "PYTHONHOME"@);
    assert(only[11] == "GTK_PATH"@);
    assert(only[12] == "GTK_IM_MODULE_FILE"@);
    assert(only[13] == "GDK_PIXBUF_MODULE_FILE"@);
    assert(only[14] == "GIO_EXTRA_MODULES"@);
    assert(only[15] == "GSETTINGS_SCHEMA_DIR"@);
    assert(all[0] == (only[0], None::<Seq<char>>));
    assert(all[1] == (only[1], None::<Seq<char>>));
    assert(all[2] == (only[2], None::<Seq<char>>));
    assert(all[3] == (only[3], None::<Seq<char>>));
    assert(all[4] == (only[4], None::<Seq<char>>));
    assert(all[5] == (only[5], None::<Seq<char>>));
    assert(all[6] == (only[6], None::<Seq<char>>));
    assert(all[11] == (only[11], None::<Seq<char>>));
    assert(all[12] == (only[12], None::<Seq<char>>));
    assert(all[13] == (only[13], None::<Seq<char>>));
    assert(all[14] == (only[14], None::<Seq<char>>));
    assert(all[15] == (only[15], None::<Seq<char>>));
}

proof fn lemma_dropped(names: Seq<Seq<char>>, n: int)
    requires
        0 <= n <= names.len(),
    ensures
        dropped_vars(names, n).len() == n,
        forall|i: int|
            0 <= i < n ==> #[trigger] dropped_vars(names, n)[i] == (names[i], None::<Seq<char>>),
    decreases n,
{
    if n > 0 {
        lemma_dropped(names, n - 1);
        let before = dropped_vars(names, n - 1);
        assert forall|i: int| 0 <= i < n implies #[trigger] dropped_vars(names, n)[i] == (
            names[i],
            None::<Seq<char>>,
        ) by {
            if i < n - 1 {
                assert(dropped_vars(names, n)[i] == before[i]);
            }
        }
    }
}

/// A user's shaders lie where the emulator's settings do: on Linux below the directory of the
/// settings, which the user may have moved, and elsewhere where the system keeps them.
pub proof fn law_where_shaders_go(
    xdg: Option<Seq<char>>,
    home: Option<Seq<char>>,
    local_app_data: Option<Seq<char>>,
)
    ensures
        xdg matches Some(base) ==> shader_place(Os::Linux, xdg, home, local_app_data) == Some(
            crate::fspath::joined(crate::fspath::joined(base, "dosbox"@), "glshaders"@),
        ),
        home matches Some(h) ==> {
            let config = crate::fspath::joined(h, ".config"@);
            let library = crate::fspath::joined(h, "Library"@);
            let preferences = crate::fspath::joined(library, "Preferences"@);
            &&& xdg is None ==> shader_place(Os::Linux, xdg, home, local_app_data) == Some(
                crate::fspath::joined(crate::fspath::joined(config, "dosbox"@), "glshaders"@),
            )
            &&& shader_place(Os::Mac, xdg, home, local_app_data) == Some(
                crate::fspath::joined(crate::fspath::joined(preferences, "DOSBox"@), "glshaders"@),
            )
        },
        local_app_data matches Some(p) ==> shader_place(Os::Windows, xdg, home, local_app_data)
            == Some(crate::fspath::joined(crate::fspath::joined(p, "DOSBox"@), "glshaders"@)),
        local_app_data is None ==> shader_place(Os::Windows, xdg, home, local_app_data) is None,
        home is None ==> shader_place(Os::Mac, xdg, home, local_app_data) is None,
        home is None && xdg is None ==> shader_place(Os::Linux, xdg, home, local_app_data) is None,
{
}

} // verus!
