//! Starting the game of a language pack, whose files are laid out differently
//! from the English game's: what the English autoexec section would run there,
//! and what else could be run.

use crate::conf::{is_letter_char, LaunchCommand};
use crate::fspath::join_path;
use crate::text;
use crate::text::{
    after_prefix, cat, cat3, chars_of, drop_back, drop_front, find_char, find_pattern,
    has_prefix, has_str, has_suffix, is_str, lines_of, part, past_mark, rcut_once, same,
    same_chars, string_of, swap_chars, to_lower, to_small, trim_of, words_of,
};
use vstd::prelude::*;

verus! {

// ── The English autoexec section, run against the pack's directory ───────────

/// A line of the autoexec section without its white space and its `@`.
pub open spec fn bare_line(line: Seq<char>) -> Seq<char> {
    let t = text::trim(line);
    text::trim(
        match text::strip_prefix(t, "@"@) {
            Some(behind) => behind,
            None => t,
        },
    )
}

/// A switch to a drive, such as `c:`.
pub open spec fn switches_drive(l: Seq<char>) -> bool {
    l.len() == 2 && l[1] == ':' && crate::conf::is_letter(l[0])
}

/// `s` without the quotes around it.
pub open spec fn unquoted(s: Seq<char>) -> Seq<char> {
    text::strip_back(text::strip_front(s, '"'), '"')
}

/// What a line does, as far as the directory it leaves the guest in.
pub enum LpLine {
    /// Nothing that matters.
    Nothing,
    /// Back to the root of the mount.
    ToRoot,
    /// Into a directory, which `absolute` says is one of the root.
    Into { target: Seq<char>, absolute: bool },
    /// A mount of drive C, of the game's own directory or of another one.
    MountC { own: bool },
    /// A launch that cannot be looked up and is taken at its word.
    Trusted,
    /// A launch of a program that has to be there.
    Program { name: Seq<char> },
}

/// The first word that is no option, or all of `s`.
pub open spec fn first_plain_word(ws: Seq<Seq<char>>, i: int, s: Seq<char>) -> Seq<char>
    decreases ws.len() - i,
{
    if i >= ws.len() {
        s
    } else if "-"@.is_prefix_of(ws[i]) {
        first_plain_word(ws, i + 1, s)
    } else {
        ws[i]
    }
}

/// The program that a launch line names.
pub open spec fn program_of(t: Seq<char>) -> Seq<char> {
    let base = match text::strip_prefix(t, "call "@) {
        Some(b) => b,
        None => match text::strip_prefix(t, "CALL "@) {
            Some(b) => b,
            None => match text::strip_prefix(t, "loadfix "@) {
                Some(b) => b,
                None => t,
            },
        },
    };
    first_plain_word(text::words(base), 0, base)
}

/// A line that prints, mounts, sets or leaves, and starts nothing.
pub open spec fn keeps_house(l: Seq<char>) -> bool {
    ||| switches_drive(l)
    ||| "mount "@.is_prefix_of(l)
    ||| "imgmount "@.is_prefix_of(l)
    ||| "echo "@.is_prefix_of(l)
    ||| "rem "@.is_prefix_of(l)
    ||| "set "@.is_prefix_of(l)
    ||| "config "@.is_prefix_of(l)
    ||| l == "cls"@
    ||| l == "exit"@
    ||| l == "pause"@
    ||| l == "echo"@
    ||| l == "echo."@
}

/// What `cd` to `r` does.
pub open spec fn cd_line_of(r: Seq<char>, absolute: bool) -> LpLine {
    let target = unquoted(text::trim(r));
    if target.len() == 0 || target == "\\"@ || target == "/"@ || target == ".."@ {
        LpLine::ToRoot
    } else {
        LpLine::Into { target, absolute }
    }
}

/// The directory that a mount of drive C names last.
pub open spec fn mounted_leaf(r: Seq<char>) -> Seq<char> {
    let target = text::strip_back(text::swap_char(unquoted(text::trim(r)), '\\', '/'), '/');
    match text::rsplit_once(target, '/') {
        Some((_, leaf)) => leaf,
        None => target,
    }
}

/// What a line of the autoexec section does.
pub open spec fn lp_line(line: Seq<char>, shortcode: Seq<char>) -> LpLine {
    let t = bare_line(line);
    let l = text::lower(t);
    if t.len() == 0 || "#"@.is_prefix_of(t) || l == "cd"@ || l == "cd."@ || l == "cd.."@ {
        LpLine::Nothing
    } else if text::strip_prefix(l, "cd "@) is Some {
        cd_line_of(text::strip_prefix(l, "cd "@)->0, false)
    } else if text::strip_prefix(l, "cd\\"@) is Some {
        cd_line_of(text::strip_prefix(l, "cd\\"@)->0, true)
    } else if text::strip_prefix(l, "mount c "@) is Some {
        LpLine::MountC {
            own: text::lower(mounted_leaf(text::strip_prefix(l, "mount c "@)->0)) == text::lower(shortcode),
        }
    } else if keeps_house(l) {
        LpLine::Nothing
    } else if l == "boot"@ || "boot "@.is_prefix_of(l) {
        LpLine::Trusted
    } else {
        let name = program_of(t);
        if name.contains(':') || name.contains('\\') || name.contains('/') {
            LpLine::Trusted
        } else {
            LpLine::Program { name }
        }
    }
}

/// What has to be there for the English autoexec section to run: directories,
/// and a program in one of them.
pub struct LpNeeds {
    pub dirs: Seq<Seq<char>>,
    pub program: Option<(Seq<char>, Seq<char>)>,
}

/// What the lines from `i` on need, where the guest stands in `cwd` (or in the
/// root of the mount) and the root is `root` (or the overlay).
pub open spec fn needs_from(
    ls: Seq<Seq<char>>,
    i: int,
    cwd: Option<Seq<char>>,
    root: Option<Seq<char>>,
    shortcode: Seq<char>,
    lp_dir: Seq<char>,
    real_root: Seq<char>,
) -> LpNeeds
    decreases ls.len() - i,
{
    if i >= ls.len() {
        LpNeeds { dirs: Seq::<Seq<char>>::empty(), program: None }
    } else {
        match lp_line(ls[i], shortcode) {
            LpLine::Nothing => needs_from(ls, i + 1, cwd, root, shortcode, lp_dir, real_root),
            LpLine::ToRoot => needs_from(ls, i + 1, None, root, shortcode, lp_dir, real_root),
            LpLine::MountC { own } => needs_from(
                ls,
                i + 1,
                None,
                if own {
                    Some(lp_dir)
                } else {
                    root
                },
                shortcode,
                lp_dir,
                real_root,
            ),
            LpLine::Into { target, absolute } => {
                let next = cd_target(cwd, root, target, absolute, shortcode, lp_dir, real_root);
                let rest = needs_from(
                    ls,
                    i + 1,
                    Some(next),
                    root,
                    shortcode,
                    lp_dir,
                    real_root,
                );
                LpNeeds { dirs: seq![next] + rest.dirs, program: rest.program }
            },
            LpLine::Trusted => LpNeeds { dirs: Seq::<Seq<char>>::empty(), program: None },
            LpLine::Program { name } => LpNeeds {
                dirs: Seq::<Seq<char>>::empty(),
                program: match (cwd, root) {
                    (Some(d), _) => Some((d, text::lower(name))),
                    (None, Some(r)) => Some((r, text::lower(name))),
                    (None, None) => None,
                },
            },
        }
    }
}

/// The directory that `cd` to `target` enters.
pub open spec fn cd_target(
    cwd: Option<Seq<char>>,
    root: Option<Seq<char>>,
    target: Seq<char>,
    absolute: bool,
    shortcode: Seq<char>,
    lp_dir: Seq<char>,
    real_root: Seq<char>,
) -> Seq<char> {
    match (
        if absolute {
            None
        } else {
            cwd
        },
        root,
    ) {
        (Some(dir), _) => crate::fspath::joined(dir, target),
        (None, Some(r)) => crate::fspath::joined(r, target),
        (None, None) => if text::lower(target) == text::lower(shortcode) {
            lp_dir
        } else {
            crate::fspath::joined(real_root, target)
        },
    }
}

/// What the autoexec section of `conf` needs, if `conf` has one.
pub open spec fn autoexec_needs(
    conf: Seq<char>,
    shortcode: Seq<char>,
    lp_dir: Seq<char>,
    real_root: Seq<char>,
) -> Option<LpNeeds> {
    match text::after_mark(conf, "[autoexec]"@) {
        None => None,
        Some(section) => Some(
            needs_from(text::lines(section), 0, None, None, shortcode, lp_dir, real_root),
        ),
    }
}

/// What has to be there for the English autoexec section to run against the
/// pack's directory: every directory of `dirs`, and `program`, in small letters,
/// in the directory beside it.
pub struct LpPlan {
    pub dirs: Vec<String>,
    pub program: Option<(String, String)>,
}

impl LpPlan {
    pub open spec fn needs(self) -> LpNeeds {
        LpNeeds {
            dirs: text::texts(self.dirs@),
            program: match self.program {
                Some((d, p)) => Some((d@, p@)),
                None => None,
            },
        }
    }
}

fn strip_at(t: &[char]) -> (r: &[char])
    ensures
        r@ == match text::strip_prefix(t@, "@"@) {
            Some(b) => b,
            None => t@,
        },
{
    match after_prefix(t, "@") {
        Some(b) => b,
        None => t,
    }
}

fn bare_line_of(line: &[char]) -> (r: &[char])
    ensures
        r@ == bare_line(line@),
{
    trim_of(strip_at(trim_of(line)))
}

fn switches_drive_line(l: &[char]) -> (r: bool)
    ensures
        r == switches_drive(l@),
{
    l.len() == 2 && l[1] == ':' && is_letter_char(l[0])
}

fn keeps_house_line(l: &[char]) -> (r: bool)
    ensures
        r == keeps_house(l@),
{
    switches_drive_line(l) || has_prefix(l, "mount ") || has_prefix(l, "imgmount ") || has_prefix(
        l,
        "echo ",
    ) || has_prefix(l, "rem ") || has_prefix(l, "set ") || has_prefix(l, "config ") || is_str(
        l,
        "cls",
    ) || is_str(l, "exit") || is_str(l, "pause") || is_str(l, "echo") || is_str(l, "echo.")
}

fn program_name(t: &[char]) -> (r: Vec<char>)
    ensures
        r@ == program_of(t@),
{
    let base = match after_prefix(t, "call ") {
        Some(b) => b,
        None => match after_prefix(t, "CALL ") {
            Some(b) => b,
            None => match after_prefix(t, "loadfix ") {
                Some(b) => b,
                None => t,
            },
        },
    };
    let ws = words_of(base);
    let ghost all = text::words(base@);
    let mut i: usize = 0;
    while i < ws.len()
        invariant
            i <= ws@.len(),
            text::texts(ws@) == all,
            all == text::words(base@),
            first_plain_word(all, i as int, base@) == first_plain_word(all, 0, base@),
            program_of(t@) == first_plain_word(all, 0, base@),
        decreases ws@.len() - i,
    {
        let w = chars_of(ws[i].as_str());
        assert(w@ == all[i as int]);
        if !has_prefix(w.as_slice(), "-") {
            return w;
        }
        i += 1;
    }
    part(base, 0, base.len())
}

fn has_char(s: &[char], c: char) -> (r: bool)
    ensures
        r == s@.contains(c),
{
    proof {
        text::lemma_char_from(s@, c, 0);
    }
    find_char(s, c, 0).is_some()
}

fn unquoted_of(s: &[char]) -> (r: &[char])
    ensures
        r@ == unquoted(s@),
{
    drop_back(drop_front(s, '"'), '"')
}

fn leaf_of(r0: &[char]) -> (r: Vec<char>)
    ensures
        r@ == mounted_leaf(r0@),
{
    let swapped = swap_chars(unquoted_of(trim_of(r0)), '\\', '/');
    let target = drop_back(swapped.as_slice(), '/');
    match rcut_once(target, '/') {
        Some((before, leaf)) => part(leaf, 0, leaf.len()),
        None => part(target, 0, target.len()),
    }
}

fn same_ignoring_case(a: &[char], b: &[char]) -> (r: bool)
    ensures
        r == (text::lower(a@) == text::lower(b@)),
{
    same_chars(to_lower(a).as_slice(), to_lower(b).as_slice())
}

/// What the English autoexec section needs in order to run against the pack's
/// directory through the overlay: follows its `cd`s and mounts up to the first
/// line that starts something. Nothing where `en_conf` has no such section.
pub fn lp_autoexec_plan(en_conf: &str, shortcode: &str, lp_dir: &str, real_root: &str) -> (r: Option<
    LpPlan,
>)
    ensures
        match r {
            Some(plan) => autoexec_needs(en_conf@, shortcode@, lp_dir@, real_root@) == Some(
                plan.needs(),
            ),
            None => autoexec_needs(en_conf@, shortcode@, lp_dir@, real_root@) is None,
        },
{
    let conf = chars_of(en_conf);
    let sc = chars_of(shortcode);
    let section = match past_mark(conf.as_slice(), "[autoexec]") {
        None => {
            return None;
        },
        Some(s) => s,
    };
    let ls = lines_of(string_of(section).as_str());
    let ghost all = text::lines(section@);
    let ghost want = needs_from(all, 0, None, None, shortcode@, lp_dir@, real_root@);
    let mut dirs: Vec<String> = Vec::new();
    let mut cwd: Option<String> = None;
    let mut root: Option<String> = None;
    let mut i: usize = 0;
    let ghost mut rest = want;
    assert(text::texts(dirs@) + want.dirs =~= want.dirs);
    while i < ls.len()
        invariant
            i <= ls@.len(),
            text::texts(ls@) == all,
            sc@ == shortcode@,
            rest == needs_from(
                all,
                i as int,
                text::opt(cwd),
                text::opt(root),
                shortcode@,
                lp_dir@,
                real_root@,
            ),
            text::texts(dirs@) + rest.dirs == want.dirs,
            rest.program == want.program,
            autoexec_needs(en_conf@, shortcode@, lp_dir@, real_root@) == Some(want),
        decreases ls@.len() - i,
    {
        let line = chars_of(ls[i].as_str());
        assert(line@ == all[i as int]);
        let ghost kind = lp_line(all[i as int], shortcode@);
        let t = bare_line_of(line.as_slice());
        let low = to_lower(t);
        let l = low.as_slice();
        i += 1;
        if t.len() == 0 || has_prefix(t, "#") || is_str(l, "cd") || is_str(l, "cd.") || is_str(
            l,
            "cd..",
        ) {
            assert(kind is Nothing);
            continue ;
        }
        let plain = after_prefix(l, "cd ");
        let absolute = plain.is_none();
        let cd = match plain {
            Some(x) => Some(x),
            None => after_prefix(l, "cd\\"),
        };
        if let Some(x) = cd {
            let target = unquoted_of(trim_of(x));
            if target.len() == 0 || is_str(target, "\\") || is_str(target, "/") || is_str(
                target,
                "..",
            ) {
                assert(kind is ToRoot);
                cwd = None;
                continue ;
            }
            assert(kind == LpLine::Into { target: target@, absolute });
            let text = string_of(target);
            let from = if absolute {
                None
            } else {
                cwd
            };
            let next = match (&from, &root) {
                (Some(d), _) => join_path(d.as_str(), text.as_str()),
                (None, Some(r)) => join_path(r.as_str(), text.as_str()),
                (None, None) => if same_ignoring_case(target, sc.as_slice()) {
                    string_of(chars_of(lp_dir).as_slice())
                } else {
                    join_path(real_root, text.as_str())
                },
            };
            let ghost done = text::texts(dirs@);
            let entry = string_of(chars_of(next.as_str()).as_slice());
            dirs.push(entry);
            assert(text::texts(dirs@) =~= done.push(next@));
            cwd = Some(next);
            proof {
                let inner = needs_from(
                    all,
                    i as int,
                    text::opt(cwd),
                    text::opt(root),
                    shortcode@,
                    lp_dir@,
                    real_root@,
                );
                assert(rest.dirs == seq![next@] + inner.dirs);
                assert(text::texts(dirs@) + inner.dirs =~= done + rest.dirs);
                rest = inner;
            }
            continue ;
        }
        if let Some(x) = after_prefix(l, "mount c ") {
            let leaf = leaf_of(x);
            if same_ignoring_case(leaf.as_slice(), sc.as_slice()) {
                root = Some(string_of(chars_of(lp_dir).as_slice()));
            }
            cwd = None;
            continue ;
        }
        if keeps_house_line(l) {
            assert(kind is Nothing);
            continue ;
        }
        if is_str(l, "boot") || has_prefix(l, "boot ") {
            assert(kind is Trusted);
            assert(text::texts(dirs@) =~= want.dirs);
            return Some(LpPlan { dirs, program: None });
        }
        let name = program_name(t);
        let n = name.as_slice();
        if has_char(n, ':') || has_char(n, '\\') || has_char(n, '/') {
            assert(kind is Trusted);
            assert(text::texts(dirs@) =~= want.dirs);
            return Some(LpPlan { dirs, program: None });
        }
        assert(kind == LpLine::Program { name: name@ });
        assert(text::texts(dirs@) =~= want.dirs);
        let small = string_of(to_lower(n).as_slice());
        let program = match (cwd, root) {
            (Some(d), _) => Some((d, small)),
            (None, Some(r)) => Some((r, small)),
            (None, None) => None,
        };
        return Some(LpPlan { dirs, program });
    }
    assert(text::texts(dirs@) =~= want.dirs);
    Some(LpPlan { dirs, program: None })
}

/// A name up to its last dot, or all of it.
pub open spec fn bare_stem(name: Seq<char>) -> Seq<char> {
    match text::rsplit_once(name, '.') {
        Some((before, _)) => before,
        None => name,
    }
}

/// A file of a directory: `name` is a program called `program`, with or without
/// its extension, in whatever case.
pub open spec fn answers_to(name: Seq<char>, program: Seq<char>) -> bool {
    text::lower(name) == program || bare_stem(text::lower(name)) == program
}

/// A path without regard to capitals and to separators at its end.
pub open spec fn folded(path: Seq<char>) -> Seq<char> {
    text::strip_back(text::lower(path), '/')
}

/// A file or directory at this path is among `listing`, capitals aside.
pub open spec fn is_listed(listing: Seq<Seq<char>>, path: Seq<char>) -> bool {
    exists|i: int| 0 <= i < listing.len() && folded(#[trigger] listing[i]) == folded(path)
}

/// The file at `path` lies directly in `dir`, capitals aside, and is a program called
/// `program`.
pub open spec fn is_program_at(path: Seq<char>, dir: Seq<char>, program: Seq<char>) -> bool {
    match text::rsplit_once(folded(path), '/') {
        Some((at, name)) => at == folded(dir) && (name == program || bare_stem(name) == program),
        None => false,
    }
}

/// The needs of the autoexec section are met by the files and directories that
/// `listing` names: each directory is there, and so is the program. Names are compared
/// as the guest does, capitals aside.
pub open spec fn needs_met(needs: LpNeeds, listing: Seq<Seq<char>>) -> bool {
    &&& forall|i: int| 0 <= i < needs.dirs.len() ==> is_listed(listing, #[trigger] needs.dirs[i])
    &&& needs.program matches Some((dir, program)) ==> exists|i: int|
        0 <= i < listing.len() && is_program_at(#[trigger] listing[i], dir, program)
}

/// The autoexec section of `conf` runs against what `listing` names.
pub open spec fn autoexec_runs(
    conf: Seq<char>,
    shortcode: Seq<char>,
    lp_dir: Seq<char>,
    real_root: Seq<char>,
    listing: Seq<Seq<char>>,
) -> bool {
    match autoexec_needs(conf, shortcode, lp_dir, real_root) {
        Some(needs) => needs_met(needs, listing),
        None => false,
    }
}

fn bare_stem_of(name: &[char]) -> (r: &[char])
    ensures
        r@ == bare_stem(name@),
{
    match rcut_once(name, '.') {
        Some((before, after)) => before,
        None => name,
    }
}

fn answers(name: &str, program: &str) -> (r: bool)
    ensures
        r == answers_to(name@, program@),
{
    let low = to_lower(chars_of(name).as_slice());
    is_str(low.as_slice(), program) || is_str(bare_stem_of(low.as_slice()), program)
}

fn folded_of(path: &str) -> (r: Vec<char>)
    ensures
        r@ == folded(path@),
{
    let low = to_lower(chars_of(path).as_slice());
    let bare = drop_back(low.as_slice(), '/');
    part(bare, 0, bare.len())
}

fn lists(listing: &Vec<String>, path: &str) -> (r: bool)
    ensures
        r == is_listed(text::texts(listing@), path@),
{
    let ghost all = text::texts(listing@);
    let wanted = folded_of(path);
    let mut i: usize = 0;
    while i < listing.len()
        invariant
            i <= listing@.len(),
            all == text::texts(listing@),
            wanted@ == folded(path@),
            forall|k: int| 0 <= k < i ==> folded(#[trigger] all[k]) != folded(path@),
        decreases listing@.len() - i,
    {
        assert(all[i as int] == listing@[i as int]@);
        if same_chars(folded_of(listing[i].as_str()).as_slice(), wanted.as_slice()) {
            return true;
        }
        i += 1;
    }
    false
}

fn lists_program(listing: &Vec<String>, dir: &str, program: &str) -> (r: bool)
    ensures
        r == exists|i: int|
            0 <= i < listing@.len() && is_program_at(
                #[trigger] text::texts(listing@)[i],
                dir@,
                program@,
            ),
{
    let ghost all = text::texts(listing@);
    let place = folded_of(dir);
    let mut i: usize = 0;
    while i < listing.len()
        invariant
            i <= listing@.len(),
            all == text::texts(listing@),
            place@ == folded(dir@),
            forall|k: int| 0 <= k < i ==> !is_program_at(#[trigger] all[k], dir@, program@),
        decreases listing@.len() - i,
    {
        assert(all[i as int] == listing@[i as int]@);
        let path = folded_of(listing[i].as_str());
        if let Some((at, name)) = rcut_once(path.as_slice(), '/') {
            if same_chars(at, place.as_slice()) && (is_str(name, program) || is_str(
                bare_stem_of(name),
                program,
            )) {
                return true;
            }
        }
        i += 1;
    }
    false
}

/// Whether the English autoexec section can run against the pack's directory through
/// the overlay. `listing` names the files and directories of the pack's directory and
/// of the game folder, as far as the plan asks for them.
pub fn lp_autoexec_compatible(
    en_conf: &str,
    shortcode: &str,
    lp_dir: &str,
    real_root: &str,
    listing: &Vec<String>,
) -> (r: bool)
    ensures
        r == autoexec_runs(en_conf@, shortcode@, lp_dir@, real_root@, text::texts(listing@)),
{
    let plan = match lp_autoexec_plan(en_conf, shortcode, lp_dir, real_root) {
        Some(plan) => plan,
        None => {
            return false;
        },
    };
    let ghost needs = plan.needs();
    let ghost all = text::texts(listing@);
    let mut i: usize = 0;
    while i < plan.dirs.len()
        invariant
            i <= plan.dirs@.len(),
            needs == plan.needs(),
            autoexec_needs(en_conf@, shortcode@, lp_dir@, real_root@) == Some(needs),
            all == text::texts(listing@),
            forall|k: int| 0 <= k < i ==> is_listed(all, #[trigger] needs.dirs[k]),
        decreases plan.dirs@.len() - i,
    {
        assert(needs.dirs[i as int] == plan.dirs@[i as int]@);
        if !lists(listing, plan.dirs[i].as_str()) {
            return false;
        }
        i += 1;
    }
    match &plan.program {
        None => true,
        Some(p) => lists_program(listing, p.0.as_str(), p.1.as_str()),
    }
}

/// How the files of a pack are spelled does not count: listings that differ in capitals
/// alone are answered alike.
pub proof fn law_capitals_do_not_count(
    conf: Seq<char>,
    shortcode: Seq<char>,
    lp_dir: Seq<char>,
    real_root: Seq<char>,
    a: Seq<Seq<char>>,
    b: Seq<Seq<char>>,
)
    requires
        a.len() == b.len(),
        forall|i: int| 0 <= i < a.len() ==> text::lower(#[trigger] a[i]) == text::lower(b[i]),
    ensures
        autoexec_runs(conf, shortcode, lp_dir, real_root, a) == autoexec_runs(
            conf,
            shortcode,
            lp_dir,
            real_root,
            b,
        ),
{
    if let Some(needs) = autoexec_needs(conf, shortcode, lp_dir, real_root) {
        if needs_met(needs, a) {
            lemma_capitals(needs, a, b);
        }
        if needs_met(needs, b) {
            lemma_capitals(needs, b, a);
        }
    }
}

proof fn lemma_capitals(needs: LpNeeds, a: Seq<Seq<char>>, b: Seq<Seq<char>>)
    requires
        a.len() == b.len(),
        forall|i: int| 0 <= i < a.len() ==> text::lower(#[trigger] a[i]) == text::lower(b[i]),
        needs_met(needs, a),
    ensures
        needs_met(needs, b),
{
    assert forall|i: int| 0 <= i < needs.dirs.len() implies is_listed(b, #[trigger] needs.dirs[i]) by {
        assert(is_listed(a, needs.dirs[i]));
        let k = choose|k: int| 0 <= k < a.len() && folded(#[trigger] a[k]) == folded(needs.dirs[i]);
        assert(folded(b[k]) == folded(a[k]));
    }
    if let Some((dir, program)) = needs.program {
        let k = choose|k: int| 0 <= k < a.len() && is_program_at(#[trigger] a[k], dir, program);
        assert(folded(b[k]) == folded(a[k]));
        assert(is_program_at(b[k], dir, program));
    }
}

// ── The overlay of links ─────────────────────────────────────────────────────

/// A character that ends a name in a path of the guest.
pub open spec fn ends_name(c: char) -> bool {
    c == '\\' || c == '/' || c == '"' || c == ' ' || c == '\t' || c == '\r' || c == '\n'
}

/// Where the name that begins at `from` ends.
pub open spec fn name_end(s: Seq<char>, from: int) -> int
    decreases s.len() - from,
{
    if from >= s.len() {
        s.len() as int
    } else if ends_name(s[from]) {
        from
    } else {
        name_end(s, from + 1)
    }
}

/// The names that stand behind a `needle` at `from` or later, except empty ones
/// and the game's own.
pub open spec fn names_behind(
    s: Seq<char>,
    needle: Seq<char>,
    from: int,
    shortcode: Seq<char>,
) -> Seq<Seq<char>>
    decreases s.len() - from,
        when 0 <= from <= s.len() && needle.len() > 0
{
    match text::find_from(s, needle, from) {
        None => Seq::<Seq<char>>::empty(),
        Some(at) => {
            proof {
                text::lemma_find_from(s, needle, from);
            }
            let begin = at + needle.len();
            let name = s.subrange(begin, name_end(s, begin));
            let rest = names_behind(s, needle, begin, shortcode);
            if name.len() == 0 || text::lower(name) == text::lower(shortcode) {
                rest
            } else {
                seq![name] + rest
            }
        },
    }
}

/// The entries of the game folder, other than the game's own, that the autoexec
/// section of `conf` names.
pub open spec fn linked_entries(
    conf: Seq<char>,
    game_folder: Seq<char>,
    shortcode: Seq<char>,
) -> Seq<Seq<char>> {
    match text::after_mark(conf, "[autoexec]"@) {
        None => Seq::<Seq<char>>::empty(),
        Some(section) => names_behind(section, game_folder + "\\"@, 0, shortcode),
    }
}

/// The directory that the overlay of a pack's game is built in.
pub open spec fn overlay_dir_of(
    working_dir: Seq<char>,
    lang_dir: Seq<char>,
    shortcode: Seq<char>,
) -> Seq<char> {
    crate::fspath::joined(
        crate::fspath::joined(working_dir, ".exodium_lp"@),
        text::strip_front(lang_dir, '!') + "_"@ + shortcode,
    )
}

/// The directory that the overlay of a pack's game is built in.
pub fn overlay_dir(working_dir: &str, lang_dir: &str, shortcode: &str) -> (r: String)
    ensures
        r@ == overlay_dir_of(working_dir@, lang_dir@, shortcode@),
{
    let lang = chars_of(lang_dir);
    let plain = string_of(drop_front(lang.as_slice(), '!'));
    join_path(
        join_path(working_dir, ".exodium_lp").as_str(),
        cat3(plain.as_str(), "_", shortcode).as_str(),
    )
}

fn name_end_of(s: &[char], from: usize) -> (r: usize)
    requires
        from <= s@.len(),
    ensures
        r == name_end(s@, from as int),
        from <= r <= s@.len(),
{
    let n: usize = s.len();
    let mut i: usize = from;
    while i < n
        invariant
            n == s@.len(),
            from <= i <= n,
            name_end(s@, i as int) == name_end(s@, from as int),
        decreases n - i,
    {
        let c = s[i];
        if c == '\\' || c == '/' || c == '"' || c == ' ' || c == '\t' || c == '\r' || c == '\n' {
            return i;
        }
        i += 1;
    }
    n
}

/// The entries of the game folder that have to be linked into the overlay beside
/// the game itself.
pub fn overlay_entries(en_conf: &str, game_folder: &str, shortcode: &str) -> (r: Vec<String>)
    ensures
        text::texts(r@) == linked_entries(en_conf@, game_folder@, shortcode@),
{
    let conf = chars_of(en_conf);
    let sc = chars_of(shortcode);
    let mut out: Vec<String> = Vec::new();
    assert(text::texts(out@) =~= Seq::<Seq<char>>::empty());
    let s = match past_mark(conf.as_slice(), "[autoexec]") {
        None => {
            return out;
        },
        Some(section) => section,
    };
    let needle = chars_of(cat(game_folder, "\\").as_str());
    proof {
        reveal_strlit("\\");
    }
    let n: usize = s.len();
    let ghost nd = game_folder@ + "\\"@;
    let mut from: usize = 0;
    assert(text::texts(out@) + names_behind(s@, nd, 0, shortcode@) =~= names_behind(
        s@,
        nd,
        0,
        shortcode@,
    ));
    loop
        invariant
            n == s@.len(),
            from <= n,
            needle@ == nd,
            nd.len() > 0,
            sc@ == shortcode@,
            text::texts(out@) + names_behind(s@, nd, from as int, shortcode@) == names_behind(
                s@,
                nd,
                0,
                shortcode@,
            ),
            linked_entries(en_conf@, game_folder@, shortcode@) == names_behind(
                s@,
                nd,
                0,
                shortcode@,
            ),
        decreases n - from,
    {
        proof {
            text::lemma_find_from(s@, nd, from as int);
        }
        match find_pattern(s, needle.as_slice(), from) {
            None => {
                assert(text::texts(out@) =~= names_behind(s@, nd, 0, shortcode@));
                return out;
            },
            Some(at) => {
                let begin: usize = at + needle.len();
                let end: usize = name_end_of(s, begin);
                let name = part(s, begin, end);
                let ghost done = text::texts(out@);
                let ghost rest = names_behind(s@, nd, begin as int, shortcode@);
                if name.len() > 0 && !same_ignoring_case(name.as_slice(), sc.as_slice()) {
                    out.push(string_of(name.as_slice()));
                    assert(text::texts(out@) =~= done.push(name@));
                    assert(done.push(name@) + rest =~= done + (seq![name@] + rest));
                }
                from = begin;
            },
        }
    }
}

// ── A command for a directory that the English one does not fit ──────────────

/// A file of a directory. `text` is what it holds, where it could be read as
/// text; only that of batch files is asked for.
pub struct LaunchFile {
    pub name: String,
    pub text: Option<String>,
}

/// A directory that may hold the game: the pack's own, whose `subdir` is empty,
/// or one in it.
pub struct LaunchDir {
    pub subdir: String,
    /// The last name of the directory's path.
    pub name: String,
    pub files: Vec<LaunchFile>,
    /// What its `run.bat` holds, if there is one.
    pub run_bat: Option<String>,
}

/// A line of the autoexec section without its white space, its `@` and its
/// `call`.
pub open spec fn called_line(line: Seq<char>) -> Seq<char> {
    let t = bare_line(line);
    text::trim(
        match text::strip_prefix(t, "call "@) {
            Some(b) => b,
            None => match text::strip_prefix(t, "CALL "@) {
                Some(b) => b,
                None => t,
            },
        },
    )
}

/// A line that prepares or cleans up.
pub open spec fn prepares(l: Seq<char>) -> bool {
    ||| switches_drive(l)
    ||| "#"@.is_prefix_of(l)
    ||| "mount "@.is_prefix_of(l)
    ||| "imgmount "@.is_prefix_of(l)
    ||| "echo "@.is_prefix_of(l)
    ||| "rem "@.is_prefix_of(l)
    ||| "cd "@.is_prefix_of(l)
    ||| "cd\\"@.is_prefix_of(l)
    ||| "set "@.is_prefix_of(l)
    ||| l == "cls"@
    ||| l == "cd"@
    ||| l == "exit"@
    ||| l == "pause"@
    ||| l == "echo"@
    ||| l == "echo."@
}

/// The first command from line `i` on that starts something.
pub open spec fn first_command(ls: Seq<Seq<char>>, i: int) -> Option<Seq<char>>
    decreases ls.len() - i,
{
    if i >= ls.len() {
        None
    } else {
        let t = called_line(ls[i]);
        if t.len() == 0 || prepares(text::lower(t)) {
            first_command(ls, i + 1)
        } else {
            Some(t)
        }
    }
}

/// The first word of a command, or all of it.
pub open spec fn command_word(t: Seq<char>) -> Seq<char> {
    let ws = text::words(t);
    if ws.len() > 0 {
        ws[0]
    } else {
        t
    }
}

/// A program that DOS runs, by its name.
pub open spec fn is_runnable(name: Seq<char>) -> bool {
    let l = text::lower(name);
    ".exe"@.is_suffix_of(l) || ".com"@.is_suffix_of(l) || ".bat"@.is_suffix_of(l)
}

/// Some file answers to `program`; where `runnable` asks for it, one that DOS runs.
pub open spec fn holds_program(files: Seq<LaunchFile>, program: Seq<char>, runnable: bool) -> bool {
    exists|i: int|
        0 <= i < files.len() && answers_to(#[trigger] files[i].name@, program) && (runnable
            ==> is_runnable(files[i].name@))
}

/// The command of the English autoexec section, if the directory holds its
/// program.
pub open spec fn english_command(files: Seq<LaunchFile>, conf: Option<Seq<char>>) -> Option<
    Seq<char>,
> {
    match conf {
        None => None,
        Some(c) => match text::after_mark(c, "[autoexec]"@) {
            None => None,
            Some(section) => match first_command(text::lines(section), 0) {
                Some(t) if holds_program(files, text::lower(command_word(t)), true) => Some(t),
                _ => None,
            },
        },
    }
}

/// A line of `run.bat` without its white space, its `@` and its `call`.
pub open spec fn batch_command(line: Seq<char>) -> Seq<char> {
    let t = text::trim(line);
    text::trim(
        match text::strip_prefix(t, "@call "@) {
            Some(b) => b,
            None => match text::strip_prefix(t, "@CALL "@) {
                Some(b) => b,
                None => match text::strip_prefix(t, "@"@) {
                    Some(b) => b,
                    None => t,
                },
            },
        },
    )
}

/// A line of `run.bat` that controls it rather than starting a program.
pub open spec fn controls(l: Seq<char>) -> bool {
    ||| ":"@.is_prefix_of(l)
    ||| "echo"@.is_prefix_of(l)
    ||| "cls"@.is_prefix_of(l)
    ||| "copy"@.is_prefix_of(l)
    ||| "config"@.is_prefix_of(l)
    ||| "choice"@.is_prefix_of(l)
    ||| "if "@.is_prefix_of(l)
    ||| "goto"@.is_prefix_of(l)
    ||| "exit"@.is_prefix_of(l)
    ||| "rem "@.is_prefix_of(l)
    ||| "set "@.is_prefix_of(l)
    ||| "pause"@.is_prefix_of(l)
}

/// The first program, from line `i` of `run.bat` on, that the directory holds.
pub open spec fn batch_program(ls: Seq<Seq<char>>, i: int, files: Seq<LaunchFile>) -> Option<
    Seq<char>,
>
    decreases ls.len() - i,
{
    if i >= ls.len() {
        None
    } else {
        let cmd = batch_command(ls[i]);
        let word = command_word(cmd);
        if cmd.len() > 0 && !controls(text::lower(cmd)) && holds_program(files, text::lower(word), false) {
            Some(word)
        } else {
            batch_program(ls, i + 1, files)
        }
    }
}

/// A batch file that is no help text, installer or the like.
pub open spec fn is_launcher_bat(n: Seq<char>) -> bool {
    &&& ".bat"@.is_suffix_of(n)
    &&& n != "run.bat"@
    &&& !"anleit"@.is_prefix_of(n)
    &&& !"readme"@.is_prefix_of(n)
    &&& !"install"@.is_prefix_of(n)
    &&& !"setup"@.is_prefix_of(n)
    &&& !"help"@.is_prefix_of(n)
    &&& !"manual"@.is_prefix_of(n)
    &&& !"problem"@.is_prefix_of(n)
    &&& !"config"@.is_prefix_of(n)
    &&& !"uninstal"@.is_prefix_of(n)
    &&& !"uninst"@.is_prefix_of(n)
}

/// A program that is no installer, utility or extender.
pub open spec fn is_game_exe(n: Seq<char>) -> bool {
    &&& ".exe"@.is_suffix_of(n)
    &&& !"install"@.is_prefix_of(n)
    &&& !"setup"@.is_prefix_of(n)
    &&& !"uninst"@.is_prefix_of(n)
    &&& !"config"@.is_prefix_of(n)
    &&& !"cdtest"@.is_prefix_of(n)
    &&& !"showtext"@.is_prefix_of(n)
    &&& !"rtm"@.is_prefix_of(n)
    &&& !"dos4gw"@.is_prefix_of(n)
    &&& !"dpmi"@.is_prefix_of(n)
    &&& !"cwsdpmi"@.is_prefix_of(n)
}

/// One line of a batch file names a program.
pub open spec fn names_program(line: Seq<char>) -> bool {
    let l = text::lower(text::trim(line));
    l.len() > 0 && !":"@.is_prefix_of(l) && !"rem "@.is_prefix_of(l) && (text::has(l, ".exe"@) || text::has(
        l,
        ".com"@,
    ))
}

/// A batch file starts a program.
pub open spec fn starts_program(text: Seq<char>) -> bool {
    exists|i: int| 0 <= i < text::lines(text).len() && names_program(#[trigger] text::lines(text)[i])
}

/// What is looked for in a directory.
pub enum Wanted {
    /// A batch file that starts a program; `like_dir` says whether it is named
    /// like its directory.
    Bat { like_dir: bool },
    /// A `.com` program that is no mouse driver.
    Com,
    /// An `.exe` program; `like_dir` says whether it is named like its directory.
    Exe { like_dir: bool },
}

/// The file is named like its directory.
pub open spec fn named_like(dir: LaunchDir, name: Seq<char>) -> bool {
    text::small(bare_stem(name)) == text::small(dir.name@)
}

/// The file is what is looked for.
pub open spec fn is_wanted(dir: LaunchDir, file: LaunchFile, w: Wanted) -> bool {
    let n = text::small(file.name@);
    match w {
        Wanted::Bat { like_dir } => is_launcher_bat(n) && named_like(dir, file.name@) == like_dir
            && (match file.text {
            Some(t) => starts_program(t@),
            None => false,
        }),
        Wanted::Com => ".com"@.is_suffix_of(n) && !text::has(n, "mouse"@),
        Wanted::Exe { like_dir } => is_game_exe(n) && named_like(dir, file.name@) == like_dir,
    }
}

/// The first file, `i` or later, that is looked for.
pub open spec fn first_wanted(dir: LaunchDir, w: Wanted, i: int) -> Option<Seq<char>>
    decreases dir.files@.len() - i,
{
    if i >= dir.files@.len() {
        None
    } else if is_wanted(dir, dir.files@[i], w) {
        Some(dir.files@[i].name@)
    } else {
        first_wanted(dir, w, i + 1)
    }
}

/// `a`, or `b` where there is no `a`.
pub open spec fn either(a: Option<Seq<char>>, b: Option<Seq<char>>) -> Option<Seq<char>> {
    match a {
        Some(x) => Some(x),
        None => b,
    }
}

/// How a command is looked for.
pub enum Search {
    /// What `run.bat` starts.
    RunBat,
    /// A batch file, best one named like its directory.
    Bat,
    /// A `.com` program.
    Com,
    /// An `.exe` program, best one named like its directory.
    Exe,
}

/// Which directories are looked into.
pub enum Place {
    Everywhere,
    Below,
    Top,
}

/// The command that a search finds in a directory.
pub open spec fn found_in(dir: LaunchDir, search: Search) -> Option<Seq<char>> {
    match search {
        Search::RunBat => match dir.run_bat {
            Some(t) => batch_program(text::lines(t@), 0, dir.files@),
            None => None,
        },
        Search::Bat => either(
            first_wanted(dir, Wanted::Bat { like_dir: true }, 0),
            first_wanted(dir, Wanted::Bat { like_dir: false }, 0),
        ),
        Search::Com => first_wanted(dir, Wanted::Com, 0),
        Search::Exe => either(
            first_wanted(dir, Wanted::Exe { like_dir: true }, 0),
            first_wanted(dir, Wanted::Exe { like_dir: false }, 0),
        ),
    }
}

pub open spec fn in_place(dir: LaunchDir, place: Place) -> bool {
    match place {
        Place::Everywhere => true,
        Place::Below => dir.subdir@.len() > 0,
        Place::Top => dir.subdir@.len() == 0,
    }
}

/// The first directory, `i` or later, in which a search finds something, and
/// what it finds.
pub open spec fn search_from(dirs: Seq<LaunchDir>, search: Search, place: Place, i: int) -> Option<
    (Seq<char>, Seq<char>),
>
    decreases dirs.len() - i,
{
    if i >= dirs.len() {
        None
    } else if in_place(dirs[i], place) && found_in(dirs[i], search) is Some {
        Some((dirs[i].subdir@, found_in(dirs[i], search)->0))
    } else {
        search_from(dirs, search, place, i + 1)
    }
}

/// The command that starts the game of a pack: the English one where its program
/// is at the top; else what `run.bat` starts, a batch file, a `.com` program, an
/// `.exe` program below and one at the top, in this order.
pub open spec fn lp_launch(dirs: Seq<LaunchDir>, conf: Option<Seq<char>>) -> Option<
    (Seq<char>, Seq<char>),
> {
    let english = if dirs.len() > 0 {
        english_command(dirs[0].files@, conf)
    } else {
        None
    };
    let run_bat = search_from(dirs, Search::RunBat, Place::Everywhere, 0);
    let bat = search_from(dirs, Search::Bat, Place::Everywhere, 0);
    let com = search_from(dirs, Search::Com, Place::Everywhere, 0);
    let below = search_from(dirs, Search::Exe, Place::Below, 0);
    let top = search_from(dirs, Search::Exe, Place::Top, 0);
    if english is Some {
        Some((Seq::<char>::empty(), english->0))
    } else if run_bat is Some {
        run_bat
    } else if bat is Some {
        bat
    } else if com is Some {
        com
    } else if below is Some {
        below
    } else {
        top
    }
}

fn called_line_of(line: &[char]) -> (r: &[char])
    ensures
        r@ == called_line(line@),
{
    let t = bare_line_of(line);
    trim_of(
        match after_prefix(t, "call ") {
            Some(b) => b,
            None => match after_prefix(t, "CALL ") {
                Some(b) => b,
                None => t,
            },
        },
    )
}

fn prepares_line(l: &[char]) -> (r: bool)
    ensures
        r == prepares(l@),
{
    switches_drive_line(l) || has_prefix(l, "#") || has_prefix(l, "mount ") || has_prefix(
        l,
        "imgmount ",
    ) || has_prefix(l, "echo ") || has_prefix(l, "rem ") || has_prefix(l, "cd ") || has_prefix(
        l,
        "cd\\",
    ) || has_prefix(l, "set ") || is_str(l, "cls") || is_str(l, "cd") || is_str(l, "exit")
        || is_str(l, "pause") || is_str(l, "echo") || is_str(l, "echo.")
}

fn first_command_of(ls: &Vec<String>) -> (r: Option<String>)
    ensures
        text::opt(r) == first_command(text::texts(ls@), 0),
{
    let ghost all = text::texts(ls@);
    let mut i: usize = 0;
    while i < ls.len()
        invariant
            i <= ls@.len(),
            all == text::texts(ls@),
            first_command(all, i as int) == first_command(all, 0),
        decreases ls@.len() - i,
    {
        let line = chars_of(ls[i].as_str());
        assert(line@ == all[i as int]);
        let t = called_line_of(line.as_slice());
        if t.len() > 0 && !prepares_line(to_lower(t).as_slice()) {
            return Some(string_of(t));
        }
        i += 1;
    }
    None
}

fn command_word_of(t: &[char]) -> (r: String)
    ensures
        r@ == command_word(t@),
{
    let ws = words_of(t);
    let ghost all = text::words(t@);
    if ws.len() > 0 {
        assert(all[0] == ws@[0]@);
        string_of(chars_of(ws[0].as_str()).as_slice())
    } else {
        string_of(t)
    }
}

fn is_runnable_name(name: &str) -> (r: bool)
    ensures
        r == is_runnable(name@),
{
    let l = to_lower(chars_of(name).as_slice());
    has_suffix(l.as_slice(), ".exe") || has_suffix(l.as_slice(), ".com") || has_suffix(
        l.as_slice(),
        ".bat",
    )
}

fn holds(files: &Vec<LaunchFile>, program: &str, runnable: bool) -> (r: bool)
    ensures
        r == holds_program(files@, program@, runnable),
{
    let mut i: usize = 0;
    while i < files.len()
        invariant
            i <= files@.len(),
            forall|k: int|
                0 <= k < i ==> !(answers_to(#[trigger] files@[k].name@, program@) && (runnable
                    ==> is_runnable(files@[k].name@))),
        decreases files@.len() - i,
    {
        let name = files[i].name.as_str();
        if answers(name, program) && (!runnable || is_runnable_name(name)) {
            assert(answers_to(files@[i as int].name@, program@));
            return true;
        }
        i += 1;
    }
    false
}

fn english_command_of(files: &Vec<LaunchFile>, conf: Option<&str>) -> (r: Option<String>)
    ensures
        text::opt(r) == english_command(
            files@,
            match conf {
                Some(c) => Some(c@),
                None => None,
            },
        ),
{
    let c = match conf {
        Some(c) => chars_of(c),
        None => {
            return None;
        },
    };
    let section = match past_mark(c.as_slice(), "[autoexec]") {
        Some(s) => s,
        None => {
            return None;
        },
    };
    let ls = lines_of(string_of(section).as_str());
    match first_command_of(&ls) {
        Some(t) => {
            let word = command_word_of(chars_of(t.as_str()).as_slice());
            let small = string_of(to_lower(chars_of(word.as_str()).as_slice()).as_slice());
            if holds(files, small.as_str(), true) {
                Some(t)
            } else {
                None
            }
        },
        None => None,
    }
}

fn batch_command_of(line: &[char]) -> (r: &[char])
    ensures
        r@ == batch_command(line@),
{
    let t = trim_of(line);
    trim_of(
        match after_prefix(t, "@call ") {
            Some(b) => b,
            None => match after_prefix(t, "@CALL ") {
                Some(b) => b,
                None => match after_prefix(t, "@") {
                    Some(b) => b,
                    None => t,
                },
            },
        },
    )
}

fn controls_line(l: &[char]) -> (r: bool)
    ensures
        r == controls(l@),
{
    has_prefix(l, ":") || has_prefix(l, "echo") || has_prefix(l, "cls") || has_prefix(l, "copy")
        || has_prefix(l, "config") || has_prefix(l, "choice") || has_prefix(l, "if ") || has_prefix(
        l,
        "goto",
    ) || has_prefix(l, "exit") || has_prefix(l, "rem ") || has_prefix(l, "set ") || has_prefix(
        l,
        "pause",
    )
}

fn batch_program_of(text: &str, files: &Vec<LaunchFile>) -> (r: Option<String>)
    ensures
        text::opt(r) == batch_program(text::lines(text@), 0, files@),
{
    let ls = lines_of(text);
    let ghost all = text::lines(text@);
    let mut i: usize = 0;
    while i < ls.len()
        invariant
            i <= ls@.len(),
            all == text::texts(ls@),
            all == text::lines(text@),
            batch_program(all, i as int, files@) == batch_program(all, 0, files@),
        decreases ls@.len() - i,
    {
        let line = chars_of(ls[i].as_str());
        assert(line@ == all[i as int]);
        let cmd = batch_command_of(line.as_slice());
        if cmd.len() > 0 && !controls_line(to_lower(cmd).as_slice()) {
            let word = command_word_of(cmd);
            let small = string_of(to_lower(chars_of(word.as_str()).as_slice()).as_slice());
            if holds(files, small.as_str(), false) {
                return Some(word);
            }
        }
        i += 1;
    }
    None
}

fn starts_program_text(text: &str) -> (r: bool)
    ensures
        r == starts_program(text@),
{
    let ls = lines_of(text);
    let ghost all = text::lines(text@);
    let mut i: usize = 0;
    while i < ls.len()
        invariant
            i <= ls@.len(),
            all == text::texts(ls@),
            all == text::lines(text@),
            forall|k: int| 0 <= k < i ==> !names_program(#[trigger] all[k]),
        decreases ls@.len() - i,
    {
        let line = chars_of(ls[i].as_str());
        assert(line@ == all[i as int]);
        let low = to_lower(trim_of(line.as_slice()));
        let l = low.as_slice();
        if l.len() > 0 && !has_prefix(l, ":") && !has_prefix(l, "rem ") && (has_str(l, ".exe")
            || has_str(l, ".com")) {
            return true;
        }
        i += 1;
    }
    false
}

fn is_launcher_bat_name(n: &[char]) -> (r: bool)
    ensures
        r == is_launcher_bat(n@),
{
    has_suffix(n, ".bat") && !is_str(n, "run.bat") && !(has_prefix(n, "anleit") || has_prefix(
        n,
        "readme",
    ) || has_prefix(n, "install") || has_prefix(n, "setup") || has_prefix(n, "help") || has_prefix(
        n,
        "manual",
    ) || has_prefix(n, "problem") || has_prefix(n, "config") || has_prefix(n, "uninstal")
        || has_prefix(n, "uninst"))
}

fn is_game_exe_name(n: &[char]) -> (r: bool)
    ensures
        r == is_game_exe(n@),
{
    has_suffix(n, ".exe") && !(has_prefix(n, "install") || has_prefix(n, "setup") || has_prefix(
        n,
        "uninst",
    ) || has_prefix(n, "config") || has_prefix(n, "cdtest") || has_prefix(n, "showtext")
        || has_prefix(n, "rtm") || has_prefix(n, "dos4gw") || has_prefix(n, "dpmi") || has_prefix(
        n,
        "cwsdpmi",
    ))
}

fn named_like_dir(dir: &LaunchDir, name: &str) -> (r: bool)
    ensures
        r == named_like(*dir, name@),
{
    let chars = chars_of(name);
    let stem = string_of(bare_stem_of(chars.as_slice()));
    same(to_small(stem.as_str()).as_str(), to_small(dir.name.as_str()).as_str())
}

fn wants(dir: &LaunchDir, file: &LaunchFile, w: &Wanted) -> (r: bool)
    ensures
        r == is_wanted(*dir, *file, *w),
{
    let low = chars_of(to_small(file.name.as_str()).as_str());
    let n = low.as_slice();
    match w {
        Wanted::Bat { like_dir } => is_launcher_bat_name(n) && named_like_dir(
            dir,
            file.name.as_str(),
        ) == *like_dir && (match &file.text {
            Some(t) => starts_program_text(t.as_str()),
            None => false,
        }),
        Wanted::Com => has_suffix(n, ".com") && !has_str(n, "mouse"),
        Wanted::Exe { like_dir } => is_game_exe_name(n) && named_like_dir(dir, file.name.as_str())
            == *like_dir,
    }
}

fn pick(dir: &LaunchDir, w: &Wanted) -> (r: Option<String>)
    ensures
        text::opt(r) == first_wanted(*dir, *w, 0),
{
    let mut i: usize = 0;
    while i < dir.files.len()
        invariant
            i <= dir.files@.len(),
            first_wanted(*dir, *w, i as int) == first_wanted(*dir, *w, 0),
        decreases dir.files@.len() - i,
    {
        if wants(dir, &dir.files[i], w) {
            return Some(string_of(chars_of(dir.files[i].name.as_str()).as_slice()));
        }
        i += 1;
    }
    None
}

fn find_in(dir: &LaunchDir, search: &Search) -> (r: Option<String>)
    ensures
        text::opt(r) == found_in(*dir, *search),
{
    match search {
        Search::RunBat => match &dir.run_bat {
            Some(t) => batch_program_of(t.as_str(), &dir.files),
            None => None,
        },
        Search::Bat => match pick(dir, &Wanted::Bat { like_dir: true }) {
            Some(x) => Some(x),
            None => pick(dir, &Wanted::Bat { like_dir: false }),
        },
        Search::Com => pick(dir, &Wanted::Com),
        Search::Exe => match pick(dir, &Wanted::Exe { like_dir: true }) {
            Some(x) => Some(x),
            None => pick(dir, &Wanted::Exe { like_dir: false }),
        },
    }
}

/// The view of a launch command.
pub open spec fn command_view(c: Option<LaunchCommand>) -> Option<(Seq<char>, Seq<char>)> {
    match c {
        Some(l) => Some((l.subdir@, l.command@)),
        None => None,
    }
}

fn search_dirs(dirs: &Vec<LaunchDir>, search: &Search, place: &Place) -> (r: Option<LaunchCommand>)
    ensures
        command_view(r) == search_from(dirs@, *search, *place, 0),
{
    let mut i: usize = 0;
    while i < dirs.len()
        invariant
            i <= dirs@.len(),
            search_from(dirs@, *search, *place, i as int) == search_from(
                dirs@,
                *search,
                *place,
                0,
            ),
        decreases dirs@.len() - i,
    {
        let dir = &dirs[i];
        let empty = chars_of(dir.subdir.as_str()).len() == 0;
        let here = match place {
            Place::Everywhere => true,
            Place::Below => !empty,
            Place::Top => empty,
        };
        if here {
            if let Some(command) = find_in(dir, search) {
                let subdir = string_of(chars_of(dir.subdir.as_str()).as_slice());
                return Some(LaunchCommand { subdir, command });
            }
        }
        i += 1;
    }
    None
}

/// The command that starts the game of a language pack whose files lie
/// otherwise than the English ones, and the directory it starts in. `dirs` is
/// the pack's own directory, first, and those in it.
pub fn find_lp_launch(dirs: &Vec<LaunchDir>, en_conf: Option<&str>) -> (r: Option<LaunchCommand>)
    ensures
        command_view(r) == lp_launch(
            dirs@,
            match en_conf {
                Some(c) => Some(c@),
                None => None,
            },
        ),
{
    if dirs.len() > 0 {
        if let Some(command) = english_command_of(&dirs[0].files, en_conf) {
            return Some(LaunchCommand { subdir: String::new(), command });
        }
    }
    if let Some(l) = search_dirs(dirs, &Search::RunBat, &Place::Everywhere) {
        return Some(l);
    }
    if let Some(l) = search_dirs(dirs, &Search::Bat, &Place::Everywhere) {
        return Some(l);
    }
    if let Some(l) = search_dirs(dirs, &Search::Com, &Place::Everywhere) {
        return Some(l);
    }
    if let Some(l) = search_dirs(dirs, &Search::Exe, &Place::Below) {
        return Some(l);
    }
    search_dirs(dirs, &Search::Exe, &Place::Top)
}

// ── Laws ─────────────────────────────────────────────────────────────────────

/// A file of this name is what a command starts.
pub open spec fn is_started_by(name: Seq<char>, command: Seq<char>) -> bool {
    ||| name == command
    ||| answers_to(name, text::lower(command))
    ||| answers_to(name, text::lower(command_word(command)))
}

/// The command that is found for a pack starts a file that is there, in the directory
/// that it is found with.
pub proof fn law_a_found_command_is_there(dirs: Seq<LaunchDir>, conf: Option<Seq<char>>)
    requires
        dirs.len() > 0 ==> dirs[0].subdir@.len() == 0,
        lp_launch(dirs, conf) is Some,
    ensures
        exists|d: int, f: int|
            0 <= d < dirs.len() && 0 <= f < dirs[d].files@.len() && dirs[d].subdir@ == (lp_launch(
                dirs,
                conf,
            )->0).0 && is_started_by(
                (#[trigger] dirs[d].files@[f]).name@,
                (lp_launch(dirs, conf)->0).1,
            ),
{
    let (subdir, command) = lp_launch(dirs, conf)->0;
    if dirs.len() > 0 && english_command(dirs[0].files@, conf) is Some {
        let files = dirs[0].files@;
        let program = text::lower(command_word(command));
        assert(holds_program(files, program, true));
        let f = choose|f: int|
            0 <= f < files.len() && answers_to(#[trigger] files[f].name@, program) && is_runnable(
                files[f].name@,
            );
        assert(dirs[0].subdir@ =~= subdir);
        assert(is_started_by(dirs[0].files@[f].name@, command));
    } else if search_from(dirs, Search::RunBat, Place::Everywhere, 0) is Some {
        lemma_search(dirs, Search::RunBat, Place::Everywhere, 0);
    } else if search_from(dirs, Search::Bat, Place::Everywhere, 0) is Some {
        lemma_search(dirs, Search::Bat, Place::Everywhere, 0);
    } else if search_from(dirs, Search::Com, Place::Everywhere, 0) is Some {
        lemma_search(dirs, Search::Com, Place::Everywhere, 0);
    } else if search_from(dirs, Search::Exe, Place::Below, 0) is Some {
        lemma_search(dirs, Search::Exe, Place::Below, 0);
    } else {
        lemma_search(dirs, Search::Exe, Place::Top, 0);
    }
}

proof fn lemma_search(dirs: Seq<LaunchDir>, search: Search, place: Place, i: int)
    requires
        0 <= i,
        search_from(dirs, search, place, i) is Some,
    ensures
        exists|d: int, f: int|
            0 <= d < dirs.len() && 0 <= f < dirs[d].files@.len() && dirs[d].subdir@ == (search_from(
                dirs,
                search,
                place,
                i,
            )->0).0 && is_started_by(
                (#[trigger] dirs[d].files@[f]).name@,
                (search_from(dirs, search, place, i)->0).1,
            ),
    decreases dirs.len() - i,
{
    if in_place(dirs[i], place) && found_in(dirs[i], search) is Some {
        let f = lemma_found(dirs[i], search);
        assert(is_started_by(dirs[i].files@[f].name@, found_in(dirs[i], search)->0));
    } else {
        lemma_search(dirs, search, place, i + 1);
    }
}

proof fn lemma_found(dir: LaunchDir, search: Search) -> (f: int)
    requires
        found_in(dir, search) is Some,
    ensures
        0 <= f < dir.files@.len(),
        is_started_by(dir.files@[f].name@, found_in(dir, search)->0),
{
    match search {
        Search::RunBat => lemma_batch(text::lines((dir.run_bat->0)@), 0, dir.files@),
        Search::Bat => if first_wanted(dir, Wanted::Bat { like_dir: true }, 0) is Some {
            lemma_wanted(dir, Wanted::Bat { like_dir: true }, 0)
        } else {
            lemma_wanted(dir, Wanted::Bat { like_dir: false }, 0)
        },
        Search::Com => lemma_wanted(dir, Wanted::Com, 0),
        Search::Exe => if first_wanted(dir, Wanted::Exe { like_dir: true }, 0) is Some {
            lemma_wanted(dir, Wanted::Exe { like_dir: true }, 0)
        } else {
            lemma_wanted(dir, Wanted::Exe { like_dir: false }, 0)
        },
    }
}

proof fn lemma_wanted(dir: LaunchDir, w: Wanted, i: int) -> (f: int)
    requires
        0 <= i,
        first_wanted(dir, w, i) is Some,
    ensures
        0 <= f < dir.files@.len(),
        first_wanted(dir, w, i) == Some(dir.files@[f].name@),
    decreases dir.files@.len() - i,
{
    if is_wanted(dir, dir.files@[i], w) {
        i
    } else {
        lemma_wanted(dir, w, i + 1)
    }
}

proof fn lemma_batch(ls: Seq<Seq<char>>, i: int, files: Seq<LaunchFile>) -> (f: int)
    requires
        0 <= i,
        batch_program(ls, i, files) is Some,
    ensures
        0 <= f < files.len(),
        answers_to(files[f].name@, text::lower(batch_program(ls, i, files)->0)),
    decreases ls.len() - i,
{
    let cmd = batch_command(ls[i]);
    let program = text::lower(command_word(cmd));
    if cmd.len() > 0 && !controls(text::lower(cmd)) && holds_program(files, program, false) {
        choose|f: int| 0 <= f < files.len() && answers_to(#[trigger] files[f].name@, program)
    } else {
        lemma_batch(ls, i + 1, files)
    }
}

// What may start a pack's game

/// A text begins with one of these.
pub open spec fn begins_with_any(s: Seq<char>, starts: Seq<Seq<char>>) -> bool {
    exists|i: int| 0 <= i < starts.len() && (#[trigger] starts[i]).is_prefix_of(s)
}

/// What the names of installers, utilities and extenders begin with.
pub open spec fn utility_names() -> Seq<Seq<char>> {
    seq![
        "install"@,
        "setup"@,
        "uninst"@,
        "config"@,
        "cdtest"@,
        "showtext"@,
        "rtm"@,
        "dos4gw"@,
        "dpmi"@,
        "cwsdpmi"@,
    ]
}

/// What the names of help texts and installers begin with.
pub open spec fn help_names() -> Seq<Seq<char>> {
    seq![
        "anleit"@,
        "readme"@,
        "install"@,
        "setup"@,
        "help"@,
        "manual"@,
        "problem"@,
        "config"@,
        "uninst"@,
    ]
}

/// A program that is no utility.
pub open spec fn is_a_program(file: LaunchFile) -> bool {
    let n = text::small(file.name@);
    ".exe"@.is_suffix_of(n) && !begins_with_any(n, utility_names())
}

/// A `.com` file that is no mouse driver.
pub open spec fn is_a_com(file: LaunchFile) -> bool {
    let n = text::small(file.name@);
    ".com"@.is_suffix_of(n) && !text::has(n, "mouse"@)
}

/// A line of a batch file names a program, and is neither a label nor a comment.
pub open spec fn mentions_a_program(line: Seq<char>) -> bool {
    let l = text::lower(text::trim(line));
    (text::has(l, ".exe"@) || text::has(l, ".com"@)) && !begins_with_any(l, seq![":"@, "rem "@])
}

/// A batch file that is no help text and starts a program.
pub open spec fn is_a_batch(file: LaunchFile) -> bool {
    let n = text::small(file.name@);
    &&& ".bat"@.is_suffix_of(n)
    &&& n != "run.bat"@
    &&& !begins_with_any(n, help_names())
    &&& match file.text {
        Some(t) => exists|i: int|
            0 <= i < text::lines(t@).len() && mentions_a_program(#[trigger] text::lines(t@)[i]),
        None => false,
    }
}

/// The file may be the game.
pub open spec fn may_be_the_game(file: LaunchFile) -> bool {
    is_a_program(file) || is_a_com(file) || is_a_batch(file)
}

/// The directories as they would be without their `run.bat`.
pub open spec fn without_run_bats(dirs: Seq<LaunchDir>) -> Seq<LaunchDir> {
    Seq::new(dirs.len(), |i: int| LaunchDir { run_bat: None, ..dirs[i] })
}

/// Where neither the English section nor a `run.bat` says how the game is started, what is
/// started is a file of the directory that it is started in, under its own name, and one
/// that may be the game. An installer is never started, wherever it stands in the listing.
pub proof fn law_no_utility_is_started(dirs: Seq<LaunchDir>)
    requires
        forall|d: int| 0 <= d < dirs.len() ==> (#[trigger] dirs[d]).run_bat is None,
        lp_launch(dirs, None) is Some,
    ensures
        exists|d: int, f: int|
            0 <= d < dirs.len() && 0 <= f < dirs[d].files@.len() && dirs[d].subdir@ == (lp_launch(
                dirs,
                None,
            )->0).0 && (#[trigger] dirs[d].files@[f]).name@ == (lp_launch(dirs, None)->0).1
                && may_be_the_game(dirs[d].files@[f]),
{
    lemma_no_run_bat(dirs, 0);
    if search_from(dirs, Search::Bat, Place::Everywhere, 0) is Some {
        lemma_searched(dirs, Search::Bat, Place::Everywhere, 0);
    } else if search_from(dirs, Search::Com, Place::Everywhere, 0) is Some {
        lemma_searched(dirs, Search::Com, Place::Everywhere, 0);
    } else if search_from(dirs, Search::Exe, Place::Below, 0) is Some {
        lemma_searched(dirs, Search::Exe, Place::Below, 0);
    } else {
        lemma_searched(dirs, Search::Exe, Place::Top, 0);
    }
}

proof fn lemma_no_run_bat(dirs: Seq<LaunchDir>, i: int)
    requires
        0 <= i,
        forall|d: int| 0 <= d < dirs.len() ==> (#[trigger] dirs[d]).run_bat is None,
    ensures
        search_from(dirs, Search::RunBat, Place::Everywhere, i) is None,
    decreases dirs.len() - i,
{
    if i < dirs.len() {
        assert(dirs[i].run_bat is None);
        lemma_no_run_bat(dirs, i + 1);
    }
}

proof fn lemma_searched(dirs: Seq<LaunchDir>, search: Search, place: Place, i: int)
    requires
        0 <= i,
        !(search is RunBat),
        search_from(dirs, search, place, i) is Some,
    ensures
        exists|d: int, f: int|
            0 <= d < dirs.len() && 0 <= f < dirs[d].files@.len() && dirs[d].subdir@ == (search_from(
                dirs,
                search,
                place,
                i,
            )->0).0 && (#[trigger] dirs[d].files@[f]).name@ == (search_from(
                dirs,
                search,
                place,
                i,
            )->0).1 && may_be_the_game(dirs[d].files@[f]),
    decreases dirs.len() - i,
{
    if in_place(dirs[i], place) && found_in(dirs[i], search) is Some {
        let dir = dirs[i];
        let w = match search {
            Search::Bat => if first_wanted(dir, Wanted::Bat { like_dir: true }, 0) is Some {
                Wanted::Bat { like_dir: true }
            } else {
                Wanted::Bat { like_dir: false }
            },
            Search::Com => Wanted::Com,
            _ => if first_wanted(dir, Wanted::Exe { like_dir: true }, 0) is Some {
                Wanted::Exe { like_dir: true }
            } else {
                Wanted::Exe { like_dir: false }
            },
        };
        let f = lemma_first_wanted(dir, w, 0);
        lemma_wanted_may_be(dir, dir.files@[f], w);
        assert(dirs[i].files@[f].name@ == (search_from(dirs, search, place, i)->0).1);
    } else {
        lemma_searched(dirs, search, place, i + 1);
    }
}

proof fn lemma_first_wanted(dir: LaunchDir, w: Wanted, i: int) -> (f: int)
    requires
        0 <= i,
        first_wanted(dir, w, i) is Some,
    ensures
        i <= f < dir.files@.len(),
        is_wanted(dir, dir.files@[f], w),
        first_wanted(dir, w, i) == Some(dir.files@[f].name@),
    decreases dir.files@.len() - i,
{
    if is_wanted(dir, dir.files@[i], w) {
        i
    } else {
        lemma_first_wanted(dir, w, i + 1)
    }
}

proof fn lemma_wanted_may_be(dir: LaunchDir, file: LaunchFile, w: Wanted)
    ensures
        is_wanted(dir, file, w) == (match w {
            Wanted::Bat { like_dir } => is_a_batch(file) && named_like(dir, file.name@) == like_dir,
            Wanted::Com => is_a_com(file),
            Wanted::Exe { like_dir } => is_a_program(file) && named_like(dir, file.name@)
                == like_dir,
        }),
{
    let n = text::small(file.name@);
    lemma_utility(n);
    lemma_help(n);
    if let Some(t) = file.text {
        let ls = text::lines(t@);
        assert forall|i: int| 0 <= i < ls.len() implies names_program(#[trigger] ls[i])
            == mentions_a_program(ls[i]) by {
            lemma_mentions(ls[i]);
        }
        if starts_program(t@) {
            let i = choose|i: int| 0 <= i < ls.len() && names_program(#[trigger] ls[i]);
            assert(mentions_a_program(ls[i]));
        }
        if exists|i: int| 0 <= i < ls.len() && mentions_a_program(#[trigger] ls[i]) {
            let i = choose|i: int| 0 <= i < ls.len() && mentions_a_program(#[trigger] ls[i]);
            assert(names_program(ls[i]));
        }
    }
}

proof fn lemma_mentions(line: Seq<char>)
    ensures
        names_program(line) == mentions_a_program(line),
{
    let l = text::lower(text::trim(line));
    let list = seq![":"@, "rem "@];
    reveal_strlit(".exe");
    reveal_strlit(".com");
    text::lemma_find_from(l, ".exe"@, 0);
    text::lemma_find_from(l, ".com"@, 0);
    assert(list[0] == ":"@ && list[1] == "rem "@);
    if begins_with_any(l, list) {
        let i = choose|i: int| 0 <= i < list.len() && (#[trigger] list[i]).is_prefix_of(l);
        assert(i == 0 || i == 1);
    }
    assert(":"@.is_prefix_of(l) ==> list[0].is_prefix_of(l));
    assert("rem "@.is_prefix_of(l) ==> list[1].is_prefix_of(l));
}

proof fn lemma_utility(n: Seq<char>)
    ensures
        is_game_exe(n) == (".exe"@.is_suffix_of(n) && !begins_with_any(n, utility_names())),
{
    let list = utility_names();
    assert(list[0] == "install"@ && list[1] == "setup"@ && list[2] == "uninst"@ && list[3]
        == "config"@ && list[4] == "cdtest"@ && list[5] == "showtext"@ && list[6] == "rtm"@
        && list[7] == "dos4gw"@ && list[8] == "dpmi"@ && list[9] == "cwsdpmi"@);
    if begins_with_any(n, list) {
        let i = choose|i: int| 0 <= i < list.len() && (#[trigger] list[i]).is_prefix_of(n);
        assert(i == 0 || i == 1 || i == 2 || i == 3 || i == 4 || i == 5 || i == 6 || i == 7 || i
            == 8 || i == 9);
    } else {
        assert forall|i: int| 0 <= i < list.len() implies !(#[trigger] list[i]).is_prefix_of(
            n,
        ) by {}
        assert(!list[0].is_prefix_of(n) && !list[1].is_prefix_of(n) && !list[2].is_prefix_of(n));
        assert(!list[3].is_prefix_of(n) && !list[4].is_prefix_of(n) && !list[5].is_prefix_of(n));
        assert(!list[6].is_prefix_of(n) && !list[7].is_prefix_of(n) && !list[8].is_prefix_of(n));
        assert(!list[9].is_prefix_of(n));
    }
}

proof fn lemma_help(n: Seq<char>)
    ensures
        is_launcher_bat(n) == (".bat"@.is_suffix_of(n) && n != "run.bat"@ && !begins_with_any(
            n,
            help_names(),
        )),
{
    let list = help_names();
    assert(list[0] == "anleit"@ && list[1] == "readme"@ && list[2] == "install"@ && list[3]
        == "setup"@ && list[4] == "help"@ && list[5] == "manual"@ && list[6] == "problem"@
        && list[7] == "config"@ && list[8] == "uninst"@);
    reveal_strlit("uninstal");
    reveal_strlit("uninst");
    if "uninstal"@.is_prefix_of(n) {
        assert(n.take(6) =~= n.take(8).take(6));
        assert("uninstal"@.take(6) =~= "uninst"@);
    }
    if begins_with_any(n, list) {
        let i = choose|i: int| 0 <= i < list.len() && (#[trigger] list[i]).is_prefix_of(n);
        assert(i == 0 || i == 1 || i == 2 || i == 3 || i == 4 || i == 5 || i == 6 || i == 7 || i
            == 8);
    } else {
        assert(!list[0].is_prefix_of(n) && !list[1].is_prefix_of(n) && !list[2].is_prefix_of(n));
        assert(!list[3].is_prefix_of(n) && !list[4].is_prefix_of(n) && !list[5].is_prefix_of(n));
        assert(!list[6].is_prefix_of(n) && !list[7].is_prefix_of(n) && !list[8].is_prefix_of(n));
    }
}

/// A file named like its directory is taken before others.
pub open spec fn is_named_like(dir: LaunchDir, file: LaunchFile) -> bool {
    let n = file.name@;
    let stem = match text::rsplit_once(n, '.') {
        Some((before, _)) => before,
        None => n,
    };
    text::small(stem) == text::small(dir.name@)
}

proof fn lemma_not_wanted(dir: LaunchDir, w: Wanted, i: int, f: int)
    requires
        0 <= i <= f < dir.files@.len(),
        first_wanted(dir, w, i) is None,
    ensures
        !is_wanted(dir, dir.files@[f], w),
    decreases f - i,
{
    if i < f {
        lemma_not_wanted(dir, w, i + 1, f);
    }
}

/// Nothing that a search finds means that no directory has what it looks for.
proof fn lemma_nothing_found(
    dirs: Seq<LaunchDir>,
    search: Search,
    place: Place,
    i: int,
    d: int,
    f: int,
)
    requires
        0 <= i <= d < dirs.len(),
        0 <= f < dirs[d].files@.len(),
        in_place(dirs[d], place),
        search_from(dirs, search, place, i) is None,
    ensures
        match search {
            Search::RunBat => true,
            Search::Bat => !is_a_batch(dirs[d].files@[f]),
            Search::Com => !is_a_com(dirs[d].files@[f]),
            Search::Exe => !is_a_program(dirs[d].files@[f]),
        },
    decreases d - i,
{
    if i < d {
        lemma_nothing_found(dirs, search, place, i + 1, d, f);
    } else {
        let dir = dirs[d];
        let file = dir.files@[f];
        match search {
            Search::RunBat => {},
            Search::Bat => {
                lemma_not_wanted(dir, Wanted::Bat { like_dir: true }, 0, f);
                lemma_not_wanted(dir, Wanted::Bat { like_dir: false }, 0, f);
                lemma_wanted_may_be(dir, file, Wanted::Bat { like_dir: true });
                lemma_wanted_may_be(dir, file, Wanted::Bat { like_dir: false });
            },
            Search::Com => {
                lemma_not_wanted(dir, Wanted::Com, 0, f);
                lemma_wanted_may_be(dir, file, Wanted::Com);
            },
            Search::Exe => {
                lemma_not_wanted(dir, Wanted::Exe { like_dir: true }, 0, f);
                lemma_not_wanted(dir, Wanted::Exe { like_dir: false }, 0, f);
                lemma_wanted_may_be(dir, file, Wanted::Exe { like_dir: true });
                lemma_wanted_may_be(dir, file, Wanted::Exe { like_dir: false });
            },
        }
    }
}

/// A pack that holds a file that may be the game is started, whatever else says how.
pub proof fn law_a_game_that_is_there_is_started(
    dirs: Seq<LaunchDir>,
    conf: Option<Seq<char>>,
    d: int,
    f: int,
)
    requires
        0 <= d < dirs.len(),
        0 <= f < dirs[d].files@.len(),
        may_be_the_game(dirs[d].files@[f]),
    ensures
        lp_launch(dirs, conf) is Some,
{
    if lp_launch(dirs, conf) is None {
        lemma_nothing_found(dirs, Search::Bat, Place::Everywhere, 0, d, f);
        lemma_nothing_found(dirs, Search::Com, Place::Everywhere, 0, d, f);
        if dirs[d].subdir@.len() > 0 {
            lemma_nothing_found(dirs, Search::Exe, Place::Below, 0, d, f);
        } else {
            lemma_nothing_found(dirs, Search::Exe, Place::Top, 0, d, f);
        }
    }
}

/// What is started goes by this order, where neither the English section nor a `run.bat`
/// says it: a batch file, a `.com` file, a program in a directory below, and a program at
/// the top.
pub proof fn law_the_better_file_is_started(dirs: Seq<LaunchDir>, d: int, f: int)
    requires
        forall|k: int| 0 <= k < dirs.len() ==> (#[trigger] dirs[k]).run_bat is None,
        0 <= d < dirs.len(),
        0 <= f < dirs[d].files@.len(),
    ensures
        lp_launch(dirs, None) matches Some((subdir, command)) ==> {
            let n = text::small(command);
            &&& is_a_batch(dirs[d].files@[f]) ==> ".bat"@.is_suffix_of(n)
            &&& is_a_com(dirs[d].files@[f]) ==> ".bat"@.is_suffix_of(n) || ".com"@.is_suffix_of(n)
            &&& is_a_program(dirs[d].files@[f]) && dirs[d].subdir@.len() > 0 ==> ".bat"@.is_suffix_of(
                n,
            ) || ".com"@.is_suffix_of(n) || subdir.len() > 0
        },
{
    lemma_no_run_bat(dirs, 0);
    if lp_launch(dirs, None) is Some {
        if search_from(dirs, Search::Bat, Place::Everywhere, 0) is Some {
            lemma_kind_found(dirs, Search::Bat, Place::Everywhere, 0);
        } else {
            lemma_nothing_found(dirs, Search::Bat, Place::Everywhere, 0, d, f);
            if search_from(dirs, Search::Com, Place::Everywhere, 0) is Some {
                lemma_kind_found(dirs, Search::Com, Place::Everywhere, 0);
            } else {
                lemma_nothing_found(dirs, Search::Com, Place::Everywhere, 0, d, f);
                if search_from(dirs, Search::Exe, Place::Below, 0) is Some {
                    lemma_kind_found(dirs, Search::Exe, Place::Below, 0);
                } else if dirs[d].subdir@.len() > 0 {
                    lemma_nothing_found(dirs, Search::Exe, Place::Below, 0, d, f);
                }
            }
        }
    }
}

proof fn lemma_kind_found(dirs: Seq<LaunchDir>, search: Search, place: Place, i: int)
    requires
        0 <= i,
        !(search is RunBat),
        search_from(dirs, search, place, i) is Some,
    ensures
        ({
            let (subdir, command) = search_from(dirs, search, place, i)->0;
            let n = text::small(command);
            &&& search is Bat ==> ".bat"@.is_suffix_of(n)
            &&& search is Com ==> ".com"@.is_suffix_of(n)
            &&& search is Exe ==> ".exe"@.is_suffix_of(n)
            &&& place is Below ==> subdir.len() > 0
            &&& place is Top ==> subdir.len() == 0
        }),
    decreases dirs.len() - i,
{
    if in_place(dirs[i], place) && found_in(dirs[i], search) is Some {
        let dir = dirs[i];
        let w = match search {
            Search::Bat => if first_wanted(dir, Wanted::Bat { like_dir: true }, 0) is Some {
                Wanted::Bat { like_dir: true }
            } else {
                Wanted::Bat { like_dir: false }
            },
            Search::Com => Wanted::Com,
            _ => if first_wanted(dir, Wanted::Exe { like_dir: true }, 0) is Some {
                Wanted::Exe { like_dir: true }
            } else {
                Wanted::Exe { like_dir: false }
            },
        };
        let f = lemma_first_wanted(dir, w, 0);
    } else {
        lemma_kind_found(dirs, search, place, i + 1);
    }
}

/// In a directory of its own, a program that is named like the directory is started before
/// any other.
pub proof fn law_the_namesake_is_started(dir: LaunchDir, f: int)
    requires
        dir.run_bat is None,
        0 <= f < dir.files@.len(),
        is_a_program(dir.files@[f]),
        is_named_like(dir, dir.files@[f]),
        forall|k: int|
            0 <= k < dir.files@.len() ==> !is_a_batch(#[trigger] dir.files@[k]) && !is_a_com(
                dir.files@[k],
            ),
    ensures
        lp_launch(seq![dir], None) is Some,
        exists|k: int|
            0 <= k < dir.files@.len() && (#[trigger] dir.files@[k]).name@ == (lp_launch(
                seq![dir],
                None,
            )->0).1 && is_named_like(dir, dir.files@[k]) && is_a_program(dir.files@[k]),
{
    let dirs = seq![dir];
    assert(dirs[0] == dir);
    lemma_no_run_bat(dirs, 0);
    law_a_game_that_is_there_is_started(dirs, None, 0, f);
    lemma_named(dir, dir.files@[f].name@);
    let w = Wanted::Exe { like_dir: true };
    lemma_wanted_may_be(dir, dir.files@[f], w);
    if first_wanted(dir, w, 0) is None {
        lemma_not_wanted(dir, w, 0, f);
    }
    let k = lemma_first_wanted(dir, w, 0);
    lemma_wanted_may_be(dir, dir.files@[k], w);
    lemma_named(dir, dir.files@[k].name@);
    assert(found_in(dir, Search::Bat) is None) by {
        if found_in(dir, Search::Bat) is Some {
            lemma_bat_found(dir);
        }
    }
    assert(found_in(dir, Search::Com) is None) by {
        if found_in(dir, Search::Com) is Some {
            let c = lemma_first_wanted(dir, Wanted::Com, 0);
            lemma_wanted_may_be(dir, dir.files@[c], Wanted::Com);
            assert(!is_a_com(dir.files@[c]));
        }
    }
    reveal_with_fuel(search_from, 3);
    assert(found_in(dir, Search::Exe) == Some(dir.files@[k].name@));
    assert((lp_launch(dirs, None)->0).1 == dir.files@[k].name@);
}

proof fn lemma_bat_found(dir: LaunchDir)
    requires
        found_in(dir, Search::Bat) is Some,
    ensures
        exists|k: int| 0 <= k < dir.files@.len() && is_a_batch(#[trigger] dir.files@[k]),
{
    let w = if first_wanted(dir, Wanted::Bat { like_dir: true }, 0) is Some {
        Wanted::Bat { like_dir: true }
    } else {
        Wanted::Bat { like_dir: false }
    };
    let k = lemma_first_wanted(dir, w, 0);
    lemma_wanted_may_be(dir, dir.files@[k], w);
    assert(is_a_batch(dir.files@[k]));
}

proof fn lemma_named(dir: LaunchDir, name: Seq<char>)
    ensures
        named_like(dir, name) == (text::small(
            match text::rsplit_once(name, '.') {
                Some((before, _)) => before,
                None => name,
            },
        ) == text::small(dir.name@)),
{
}

/// The file is the one that a word of a command names: by its name, or by its name without
/// the ending, capitals aside.
pub open spec fn is_meant_by(file: LaunchFile, word: Seq<char>) -> bool {
    let n = text::lower(file.name@);
    n == text::lower(word) || match text::rsplit_once(n, '.') {
        Some((before, _)) => before == text::lower(word),
        None => false,
    }
}

/// A file that DOS runs.
pub open spec fn is_run_by_dos(file: LaunchFile) -> bool {
    let n = text::lower(file.name@);
    ".exe"@.is_suffix_of(n) || ".com"@.is_suffix_of(n) || ".bat"@.is_suffix_of(n)
}

proof fn lemma_meant(file: LaunchFile, word: Seq<char>)
    ensures
        answers_to(file.name@, text::lower(word)) == is_meant_by(file, word),
        is_runnable(file.name@) == is_run_by_dos(file),
{
}

/// A command is taken from the English section only where it stands there and a file of the
/// pack's own directory is meant by it that DOS runs; from a `run.bat` only where it stands
/// there and a file beside it is meant by it. Otherwise the files alone decide.
pub proof fn law_where_a_command_comes_from(dirs: Seq<LaunchDir>, conf: Option<Seq<char>>)
    requires
        lp_launch(dirs, conf) is Some,
    ensures
        ({
            let (subdir, command) = lp_launch(dirs, conf)->0;
            ||| lp_launch(without_run_bats(dirs), None) == Some((subdir, command))
            ||| exists|d: int, i: int, f: int|
                0 <= d < dirs.len() && dirs[d].subdir@ == subdir && dirs[d].run_bat is Some && 0 <= i
                    < text::lines((dirs[d].run_bat->0)@).len() && text::has(
                    #[trigger] text::lines((dirs[d].run_bat->0)@)[i],
                    command,
                ) && 0 <= f < dirs[d].files@.len() && is_meant_by(
                    #[trigger] dirs[d].files@[f],
                    command,
                )
            ||| subdir.len() == 0 && dirs.len() > 0 && conf is Some && exists|f: int, i: int|
                0 <= f < dirs[0].files@.len() && 0 <= i < text::lines(
                    text::after_mark(conf->0, "[autoexec]"@)->0,
                ).len() && text::has(
                    #[trigger] text::lines(text::after_mark(conf->0, "[autoexec]"@)->0)[i],
                    command,
                ) && text::words(command).len() > 0 && is_meant_by(
                    #[trigger] dirs[0].files@[f],
                    text::words(command)[0],
                ) && is_run_by_dos(dirs[0].files@[f])
        }),
{
    let (subdir, command) = lp_launch(dirs, conf)->0;
    if dirs.len() > 0 && english_command(dirs[0].files@, conf) is Some {
        let section = text::after_mark(conf->0, "[autoexec]"@)->0;
        let ls = text::lines(section);
        let i = lemma_first_command(ls, 0);
        let program = text::lower(command_word(command));
        let files = dirs[0].files@;
        let f = choose|f: int|
            0 <= f < files.len() && answers_to(#[trigger] files[f].name@, program) && is_runnable(
                files[f].name@,
            );
        lemma_meant(files[f], command_word(command));
        lemma_called_has_words(ls[i]);
        assert(text::has(ls[i], command));
        assert(is_meant_by(dirs[0].files@[f], text::words(command)[0]));
    } else if search_from(dirs, Search::RunBat, Place::Everywhere, 0) is Some {
        let d = lemma_run_bat_dir(dirs, 0);
        let t = (dirs[d].run_bat->0)@;
        let (i, f) = lemma_batch_line(text::lines(t), 0, dirs[d].files@);
        assert(text::has(text::lines((dirs[d].run_bat->0)@)[i], command));
        assert(is_meant_by(dirs[d].files@[f], command));
    } else {
        let bare = without_run_bats(dirs);
        lemma_no_run_bat(bare, 0);
        lemma_bare_search(dirs, Search::Bat, Place::Everywhere, 0);
        lemma_bare_search(dirs, Search::Com, Place::Everywhere, 0);
        lemma_bare_search(dirs, Search::Exe, Place::Below, 0);
        lemma_bare_search(dirs, Search::Exe, Place::Top, 0);
    }
}

proof fn lemma_bare_search(dirs: Seq<LaunchDir>, search: Search, place: Place, i: int)
    requires
        0 <= i,
        !(search is RunBat),
    ensures
        search_from(without_run_bats(dirs), search, place, i) == search_from(
            dirs,
            search,
            place,
            i,
        ),
    decreases dirs.len() - i,
{
    let bare = without_run_bats(dirs);
    if i < dirs.len() {
        assert(bare[i].files@ == dirs[i].files@);
        lemma_bare_wanted(dirs[i], bare[i], Wanted::Bat { like_dir: true }, 0);
        lemma_bare_wanted(dirs[i], bare[i], Wanted::Bat { like_dir: false }, 0);
        lemma_bare_wanted(dirs[i], bare[i], Wanted::Com, 0);
        lemma_bare_wanted(dirs[i], bare[i], Wanted::Exe { like_dir: true }, 0);
        lemma_bare_wanted(dirs[i], bare[i], Wanted::Exe { like_dir: false }, 0);
        lemma_bare_search(dirs, search, place, i + 1);
    }
}

proof fn lemma_bare_wanted(a: LaunchDir, b: LaunchDir, w: Wanted, i: int)
    requires
        0 <= i,
        a.files == b.files,
        a.name == b.name,
    ensures
        first_wanted(a, w, i) == first_wanted(b, w, i),
    decreases a.files@.len() - i,
{
    if i < a.files@.len() {
        lemma_bare_wanted(a, b, w, i + 1);
    }
}

proof fn lemma_run_bat_dir(dirs: Seq<LaunchDir>, i: int) -> (d: int)
    requires
        0 <= i,
        search_from(dirs, Search::RunBat, Place::Everywhere, i) is Some,
    ensures
        i <= d < dirs.len(),
        dirs[d].run_bat is Some,
        search_from(dirs, Search::RunBat, Place::Everywhere, i) == Some(
            (
                dirs[d].subdir@,
                batch_program(text::lines((dirs[d].run_bat->0)@), 0, dirs[d].files@)->0,
            ),
        ),
        batch_program(text::lines((dirs[d].run_bat->0)@), 0, dirs[d].files@) is Some,
    decreases dirs.len() - i,
{
    if in_place(dirs[i], Place::Everywhere) && found_in(dirs[i], Search::RunBat) is Some {
        i
    } else {
        lemma_run_bat_dir(dirs, i + 1)
    }
}

proof fn lemma_batch_line(ls: Seq<Seq<char>>, i: int, files: Seq<LaunchFile>) -> (r: (int, int))
    requires
        0 <= i,
        batch_program(ls, i, files) is Some,
    ensures
        i <= r.0 < ls.len(),
        0 <= r.1 < files.len(),
        text::has(ls[r.0], batch_program(ls, i, files)->0),
        is_meant_by(files[r.1], batch_program(ls, i, files)->0),
    decreases ls.len() - i,
{
    let cmd = batch_command(ls[i]);
    let word = command_word(cmd);
    let program = text::lower(word);
    if cmd.len() > 0 && !controls(text::lower(cmd)) && holds_program(files, program, false) {
        let f = choose|f: int| 0 <= f < files.len() && answers_to(#[trigger] files[f].name@, program);
        lemma_meant(files[f], word);
        lemma_batch_part(ls[i]);
        (i, f)
    } else {
        lemma_batch_line(ls, i + 1, files)
    }
}

proof fn lemma_first_command(ls: Seq<Seq<char>>, i: int) -> (k: int)
    requires
        0 <= i,
        first_command(ls, i) is Some,
    ensures
        i <= k < ls.len(),
        first_command(ls, i) == Some(called_line(ls[k])),
        called_line(ls[k]).len() > 0,
    decreases ls.len() - i,
{
    let t = called_line(ls[i]);
    if t.len() == 0 || prepares(text::lower(t)) {
        lemma_first_command(ls, i + 1)
    } else {
        i
    }
}

/// What is left of a text behind a prefix stands in the text.
proof fn lemma_behind_prefix(s: Seq<char>, prefix: Seq<char>)
    requires
        prefix.is_prefix_of(s),
    ensures
        text::occurs_at(s, s.skip(prefix.len() as int), prefix.len() as int),
{
    assert(s.subrange(prefix.len() as int, s.len() as int) =~= s.skip(prefix.len() as int));
}

proof fn lemma_self(s: Seq<char>)
    ensures
        text::has(s, s),
{
    assert(s.subrange(0, s.len() as int) =~= s);
    text::lemma_has(s, s, 0);
}

proof fn lemma_trimmed_has(s: Seq<char>, inner: Seq<char>)
    requires
        text::has(text::trim(s), inner),
    ensures
        text::has(s, inner),
{
    let at = text::lemma_trim_part(s);
    text::lemma_has_part(s, text::trim(s), at, inner);
}

proof fn lemma_bare_part(line: Seq<char>, inner: Seq<char>)
    requires
        text::has(bare_line(line), inner),
    ensures
        text::has(line, inner),
{
    let t = text::trim(line);
    match text::strip_prefix(t, "@"@) {
        Some(behind) => {
            lemma_trimmed_has(behind, inner);
            lemma_behind_prefix(t, "@"@);
            text::lemma_has_part(t, behind, "@"@.len() as int, inner);
        },
        None => {
            lemma_trimmed_has(t, inner);
        },
    }
    lemma_trimmed_has(line, inner);
}

proof fn lemma_called_has_words(line: Seq<char>)
    requires
        called_line(line).len() > 0,
    ensures
        text::has(line, called_line(line)),
        text::words(called_line(line)).len() > 0,
        command_word(called_line(line)) == text::words(called_line(line))[0],
{
    let t = bare_line(line);
    let c = called_line(line);
    lemma_self(c);
    if "call "@.is_prefix_of(t) {
        let b = t.skip("call "@.len() as int);
        lemma_trimmed_has(b, c);
        lemma_behind_prefix(t, "call "@);
        text::lemma_has_part(t, b, "call "@.len() as int, c);
    } else if "CALL "@.is_prefix_of(t) {
        let b = t.skip("CALL "@.len() as int);
        lemma_trimmed_has(b, c);
        lemma_behind_prefix(t, "CALL "@);
        text::lemma_has_part(t, b, "CALL "@.len() as int, c);
    } else {
        lemma_trimmed_has(t, c);
    }
    lemma_bare_part(line, c);
    let inner = if "call "@.is_prefix_of(t) {
        t.skip("call "@.len() as int)
    } else if "CALL "@.is_prefix_of(t) {
        t.skip("CALL "@.len() as int)
    } else {
        t
    };
    lemma_trim_has_words(inner);
}

/// What is left of a trimmed text has a word.
proof fn lemma_trim_has_words(s: Seq<char>)
    requires
        text::trim(s).len() > 0,
    ensures
        text::words(text::trim(s)).len() > 0,
{
    let t = text::trim(s);
    lemma_trim_ends(text::trim_start(s));
    lemma_last_makes_word(t);
}

proof fn lemma_trim_ends(s: Seq<char>)
    ensures
        text::trim_end(s).len() > 0 ==> !text::is_space(text::trim_end(s).last()),
    decreases s.len(),
{
    if s.len() > 0 && text::is_space(s.last()) {
        lemma_trim_ends(s.drop_last());
    }
}

proof fn lemma_last_makes_word(s: Seq<char>)
    requires
        s.len() > 0,
        !text::is_space(s.last()),
    ensures
        text::words(s).len() > 0,
{
}

proof fn lemma_batch_part(line: Seq<char>)
    requires
        batch_command(line).len() > 0,
    ensures
        text::has(line, command_word(batch_command(line))),
{
    let t = text::trim(line);
    let cmd = batch_command(line);
    let word = command_word(cmd);
    lemma_word_part(cmd);
    let b = match text::strip_prefix(t, "@call "@) {
        Some(b) => b,
        None => match text::strip_prefix(t, "@CALL "@) {
            Some(b) => b,
            None => match text::strip_prefix(t, "@"@) {
                Some(b) => b,
                None => t,
            },
        },
    };
    lemma_trimmed_has(b, word);
    if "@call "@.is_prefix_of(t) {
        lemma_behind_prefix(t, "@call "@);
        text::lemma_has_part(t, b, "@call "@.len() as int, word);
    } else if "@CALL "@.is_prefix_of(t) {
        lemma_behind_prefix(t, "@CALL "@);
        text::lemma_has_part(t, b, "@CALL "@.len() as int, word);
    } else if "@"@.is_prefix_of(t) {
        lemma_behind_prefix(t, "@"@);
        text::lemma_has_part(t, b, "@"@.len() as int, word);
    }
    lemma_trimmed_has(line, word);
}

proof fn lemma_word_part(s: Seq<char>)
    ensures
        text::has(s, command_word(s)),
    decreases s.len(),
{
    let ws = text::words(s);
    if ws.len() == 0 {
        lemma_self(s);
    } else {
        let at = text::lemma_word_part(s, 0);
        text::lemma_has(s, ws[0], at);
    }
}

/// The command that a line gives, bare of its blanks, of the `@` that keeps it from being
/// echoed and of `call`.
pub open spec fn gives(line: Seq<char>, command: Seq<char>) -> bool {
    let t = text::trim(line);
    &&& t == command || t == "@"@ + command || t == "call "@ + command || t == "@call "@ + command
    &&& command.len() > 0
    &&& text::trim(command) == command
    &&& command[0] != '@'
    &&& !"call "@.is_prefix_of(command)
    &&& !"CALL "@.is_prefix_of(command)
}

/// A command, in small letters, that starts nothing: a comment, a mount, an echo, a change of
/// the directory or the drive, a setting, or one that clears, waits or leaves.
pub open spec fn starts_nothing(l: Seq<char>) -> bool {
    ||| begins_with_any(
        l,
        seq!["#"@, "mount "@, "imgmount "@, "echo "@, "rem "@, "cd "@, "cd\\"@, "set "@],
    )
    ||| seq!["cls"@, "cd"@, "exit"@, "pause"@, "echo"@, "echo."@].contains(l)
    ||| l.len() == 2 && l[1] == ':' && ('a' <= l[0] <= 'z' || 'A' <= l[0] <= 'Z')
}

proof fn lemma_starts_nothing(l: Seq<char>)
    ensures
        prepares(l) == starts_nothing(l),
{
    let list = seq!["#"@, "mount "@, "imgmount "@, "echo "@, "rem "@, "cd "@, "cd\\"@, "set "@];
    let words = seq!["cls"@, "cd"@, "exit"@, "pause"@, "echo"@, "echo."@];
    assert(list[0] == "#"@ && list[1] == "mount "@ && list[2] == "imgmount "@ && list[3] == "echo "@
        && list[4] == "rem "@ && list[5] == "cd "@ && list[6] == "cd\\"@ && list[7] == "set "@);
    assert(words[0] == "cls"@ && words[1] == "cd"@ && words[2] == "exit"@ && words[3] == "pause"@
        && words[4] == "echo"@ && words[5] == "echo."@);
    if begins_with_any(l, list) {
        let i = choose|i: int| 0 <= i < list.len() && (#[trigger] list[i]).is_prefix_of(l);
        assert(i == 0 || i == 1 || i == 2 || i == 3 || i == 4 || i == 5 || i == 6 || i == 7);
    } else {
        assert(!list[0].is_prefix_of(l) && !list[1].is_prefix_of(l) && !list[2].is_prefix_of(l)
            && !list[3].is_prefix_of(l));
        assert(!list[4].is_prefix_of(l) && !list[5].is_prefix_of(l) && !list[6].is_prefix_of(l)
            && !list[7].is_prefix_of(l));
    }
    if words.contains(l) {
        let i = choose|i: int| 0 <= i < words.len() && words[i] == l;
        assert(i == 0 || i == 1 || i == 2 || i == 3 || i == 4 || i == 5);
    }
}

/// A text that begins and ends in no blank is as it is when it is trimmed.
proof fn lemma_trim_keeps(s: Seq<char>)
    requires
        s.len() > 0,
        !text::is_space(s[0]),
        !text::is_space(s.last()),
    ensures
        text::trim(s) == s,
{
}

proof fn lemma_trimmed_ends(s: Seq<char>)
    requires
        s.len() > 0,
        text::trim(s) == s,
    ensures
        !text::is_space(s[0]),
        !text::is_space(s.last()),
{
    lemma_trim_ends(text::trim_start(s));
    if text::is_space(s[0]) {
        lemma_start_shrinks(s.skip(1));
        text::lemma_trim_part(text::trim_start(s));
        lemma_end_shrinks(text::trim_start(s));
    }
}

proof fn lemma_start_shrinks(s: Seq<char>)
    ensures
        text::trim_start(s).len() <= s.len(),
    decreases s.len(),
{
    if s.len() > 0 && text::is_space(s[0]) {
        lemma_start_shrinks(s.skip(1));
    }
}

proof fn lemma_end_shrinks(s: Seq<char>)
    ensures
        text::trim_end(s).len() <= s.len(),
    decreases s.len(),
{
    if s.len() > 0 && text::is_space(s.last()) {
        lemma_end_shrinks(s.drop_last());
    }
}

proof fn lemma_gives(line: Seq<char>, command: Seq<char>)
    requires
        gives(line, command),
    ensures
        called_line(line) == command,
{
    reveal_strlit("@");
    reveal_strlit("call ");
    reveal_strlit("CALL ");
    reveal_strlit("@call ");
    lemma_trimmed_ends(command);
    let t = text::trim(line);
    let called = "call "@ + command;
    assert(called[0] == 'c' && called.last() == command.last());
    assert(!text::is_space('c'));
    lemma_trim_keeps(called);
    assert(called.skip(5) =~= command);
    assert(called.take(5) =~= "call "@);
    if t == command {
        if "@"@.is_prefix_of(t) {
            assert(t.take(1)[0] == '@');
        }
    } else if t == "@"@ + command {
        assert(t.skip(1) =~= command);
        assert(t.take(1) =~= "@"@);
    } else if t == called {
        if "@"@.is_prefix_of(t) {
            assert(t.take(1)[0] == '@');
        }
        assert(bare_line(line) == called);
    } else {
        assert(t.skip(1) =~= called);
        assert(t.take(1) =~= "@"@);
        assert(bare_line(line) == called);
    }
}

proof fn lemma_command_at(ls: Seq<Seq<char>>, i: int, k: int, t: Seq<char>)
    requires
        0 <= i <= k < ls.len(),
        forall|j: int|
            i <= j < k ==> text::trim(#[trigger] ls[j]).len() == 0 || exists|c: Seq<char>| #[trigger]
                gives(ls[j], c) && starts_nothing(text::lower(c)),
        gives(ls[k], t),
        !starts_nothing(text::lower(t)),
    ensures
        first_command(ls, i) == Some(t),
    decreases k - i,
{
    if i == k {
        lemma_gives(ls[k], t);
        lemma_starts_nothing(text::lower(t));
    } else {
        if text::trim(ls[i]).len() == 0 {
            lemma_blank_calls_nothing(ls[i]);
        } else {
            let c = choose|c: Seq<char>| #[trigger]
                gives(ls[i], c) && starts_nothing(text::lower(c));
            lemma_gives(ls[i], c);
            lemma_starts_nothing(text::lower(c));
        }
        lemma_command_at(ls, i + 1, k, t);
    }
}

proof fn lemma_blank_calls_nothing(line: Seq<char>)
    requires
        text::trim(line).len() == 0,
    ensures
        called_line(line).len() == 0,
        batch_command(line).len() == 0,
{
    reveal_strlit("@");
    reveal_strlit("call ");
    reveal_strlit("CALL ");
    reveal_strlit("@call ");
    reveal_strlit("@CALL ");
    let none = Seq::<char>::empty();
    assert(text::trim(line) =~= none);
    assert(text::trim(none) =~= none);
    assert(bare_line(line) == none);
}

/// The first command of the English section that starts something is what starts the pack's
/// game, where DOS runs a file of the pack's directory that is meant by it.
pub proof fn law_the_english_command_goes_first(
    dirs: Seq<LaunchDir>,
    conf: Seq<char>,
    section: Seq<char>,
    k: int,
    t: Seq<char>,
    f: int,
)
    requires
        dirs.len() > 0,
        text::after_mark(conf, "[autoexec]"@) == Some(section),
        0 <= k < text::lines(section).len(),
        forall|j: int|
            0 <= j < k ==> text::trim(#[trigger] text::lines(section)[j]).len() == 0 || exists|
                c: Seq<char>,
            | #[trigger]
                gives(text::lines(section)[j], c) && starts_nothing(text::lower(c)),
        gives(text::lines(section)[k], t),
        !starts_nothing(text::lower(t)),
        text::words(t).len() > 0,
        0 <= f < dirs[0].files@.len(),
        is_run_by_dos(dirs[0].files@[f]),
        is_meant_by(dirs[0].files@[f], text::words(t)[0]),
    ensures
        lp_launch(dirs, Some(conf)) == Some((Seq::<char>::empty(), t)),
{
    lemma_command_at(text::lines(section), 0, k, t);
    let files = dirs[0].files@;
    lemma_meant(files[f], text::words(t)[0]);
    assert(holds_program(files, text::lower(command_word(t)), true));
}

/// A line of a batch file, in small letters, that controls it: a label, an echo, a copy, a
/// choice, a jump and the like.
pub open spec fn controls_a_batch(l: Seq<char>) -> bool {
    begins_with_any(
        l,
        seq![
            ":"@,
            "echo"@,
            "cls"@,
            "copy"@,
            "config"@,
            "choice"@,
            "if "@,
            "goto"@,
            "exit"@,
            "rem "@,
            "set "@,
            "pause"@,
        ],
    )
}

proof fn lemma_controls(l: Seq<char>)
    ensures
        controls(l) == controls_a_batch(l),
{
    let list = seq![
        ":"@,
        "echo"@,
        "cls"@,
        "copy"@,
        "config"@,
        "choice"@,
        "if "@,
        "goto"@,
        "exit"@,
        "rem "@,
        "set "@,
        "pause"@,
    ];
    assert(list[0] == ":"@ && list[1] == "echo"@ && list[2] == "cls"@ && list[3] == "copy"@ && list[4]
        == "config"@ && list[5] == "choice"@ && list[6] == "if "@ && list[7] == "goto"@ && list[8]
        == "exit"@ && list[9] == "rem "@ && list[10] == "set "@ && list[11] == "pause"@);
    if begins_with_any(l, list) {
        let i = choose|i: int| 0 <= i < list.len() && (#[trigger] list[i]).is_prefix_of(l);
        assert(i == 0 || i == 1 || i == 2 || i == 3 || i == 4 || i == 5 || i == 6 || i == 7 || i
            == 8 || i == 9 || i == 10 || i == 11);
    } else {
        assert(!list[0].is_prefix_of(l) && !list[1].is_prefix_of(l) && !list[2].is_prefix_of(l)
            && !list[3].is_prefix_of(l) && !list[4].is_prefix_of(l) && !list[5].is_prefix_of(l));
        assert(!list[6].is_prefix_of(l) && !list[7].is_prefix_of(l) && !list[8].is_prefix_of(l)
            && !list[9].is_prefix_of(l) && !list[10].is_prefix_of(l) && !list[11].is_prefix_of(l));
    }
}

/// The command that a line of a batch file gives, bare of its blanks, of its `@` and of
/// `@call`.
pub open spec fn batch_gives(line: Seq<char>, command: Seq<char>) -> bool {
    let t = text::trim(line);
    &&& t == command || t == "@"@ + command || t == "@call "@ + command
    &&& command.len() > 0
    &&& text::trim(command) == command
    &&& command[0] != '@'
    &&& t == "@"@ + command ==> !"call "@.is_prefix_of(command) && !"CALL "@.is_prefix_of(command)
}

proof fn lemma_batch_gives(line: Seq<char>, command: Seq<char>)
    requires
        batch_gives(line, command),
    ensures
        batch_command(line) == command,
{
    reveal_strlit("@");
    reveal_strlit("call ");
    reveal_strlit("CALL ");
    reveal_strlit("@call ");
    reveal_strlit("@CALL ");
    let t = text::trim(line);
    if t == command {
        if "@"@.is_prefix_of(t) {
            assert(t.take(1)[0] == '@');
        }
        if "@call "@.is_prefix_of(t) {
            assert(t.take(6)[0] == '@');
        }
        if "@CALL "@.is_prefix_of(t) {
            assert(t.take(6)[0] == '@');
        }
    } else if t == "@"@ + command {
        assert(t.skip(1) =~= command);
        assert(t.take(1) =~= "@"@);
        if "@call "@.is_prefix_of(t) {
            assert(t.take(6).skip(1) =~= command.take(5));
            assert("@call "@.skip(1) =~= "call "@);
        }
        if "@CALL "@.is_prefix_of(t) {
            assert(t.take(6).skip(1) =~= command.take(5));
            assert("@CALL "@.skip(1) =~= "CALL "@);
        }
    } else {
        assert(t.skip(6) =~= command);
        assert(t.take(6) =~= "@call "@);
    }
}

proof fn lemma_batch_at(
    ls: Seq<Seq<char>>,
    i: int,
    k: int,
    t: Seq<char>,
    files: Seq<LaunchFile>,
    f: int,
)
    requires
        0 <= i <= k < ls.len(),
        forall|j: int|
            i <= j < k ==> text::trim(#[trigger] ls[j]).len() == 0 || exists|c: Seq<char>| #[trigger]
                batch_gives(ls[j], c) && controls_a_batch(text::lower(c)),
        batch_gives(ls[k], t),
        !controls_a_batch(text::lower(t)),
        text::words(t).len() > 0,
        0 <= f < files.len(),
        is_meant_by(files[f], text::words(t)[0]),
    ensures
        batch_program(ls, i, files) == Some(text::words(t)[0]),
    decreases k - i,
{
    if i == k {
        lemma_batch_gives(ls[k], t);
        lemma_controls(text::lower(t));
        lemma_meant(files[f], text::words(t)[0]);
        assert(holds_program(files, text::lower(command_word(t)), false));
    } else {
        if text::trim(ls[i]).len() == 0 {
            lemma_blank_calls_nothing(ls[i]);
        } else {
            let c = choose|c: Seq<char>| #[trigger]
                batch_gives(ls[i], c) && controls_a_batch(text::lower(c));
            lemma_batch_gives(ls[i], c);
            lemma_controls(text::lower(c));
        }
        lemma_batch_at(ls, i + 1, k, t, files, f);
    }
}

/// Without an English section the `run.bat` of the pack's directory says what is started: the
/// first word that it runs and that a file of the directory is meant by.
pub proof fn law_run_bat_goes_before_the_files(
    dirs: Seq<LaunchDir>,
    k: int,
    t: Seq<char>,
    f: int,
)
    requires
        dirs.len() > 0,
        dirs[0].run_bat is Some,
        0 <= k < text::lines((dirs[0].run_bat->0)@).len(),
        forall|j: int|
            0 <= j < k ==> text::trim(#[trigger] text::lines((dirs[0].run_bat->0)@)[j]).len() == 0
                || exists|c: Seq<char>| #[trigger]
                batch_gives(text::lines((dirs[0].run_bat->0)@)[j], c) && controls_a_batch(
                    text::lower(c),
                ),
        batch_gives(text::lines((dirs[0].run_bat->0)@)[k], t),
        !controls_a_batch(text::lower(t)),
        text::words(t).len() > 0,
        0 <= f < dirs[0].files@.len(),
        is_meant_by(dirs[0].files@[f], text::words(t)[0]),
    ensures
        lp_launch(dirs, None) == Some((dirs[0].subdir@, text::words(t)[0])),
{
    lemma_batch_at(text::lines((dirs[0].run_bat->0)@), 0, k, t, dirs[0].files@, f);
    assert(found_in(dirs[0], Search::RunBat) == Some(text::words(t)[0]));
}

// Where the English section looks for its program

/// The command that stands on a line, bare of its blanks and of the `@` in front of it.
pub open spec fn stands_on(line: Seq<char>, command: Seq<char>) -> bool {
    &&& text::trim(line) == command || text::trim(line) == "@"@ + command
    &&& command.len() > 0
    &&& text::trim(command) == command
    &&& command[0] != '@'
}

proof fn lemma_stands_on(line: Seq<char>, command: Seq<char>)
    requires
        stands_on(line, command),
    ensures
        bare_line(line) == command,
{
    reveal_strlit("@");
    let t = text::trim(line);
    if t == command {
        if "@"@.is_prefix_of(t) {
            assert(t.take(1)[0] == '@');
        }
    } else {
        assert(t.skip(1) =~= command);
        assert(t.take(1) =~= "@"@);
    }
}

/// A line that leaves the guest where it is: blank, a comment, a switch to a drive, an echo, a
/// setting or the like, or a mount of another drive than C.
pub open spec fn stays_put(line: Seq<char>) -> bool {
    text::trim(line).len() == 0 || exists|c: Seq<char>| #[trigger]
        stands_on(line, c) && starts_nothing(text::lower(c)) && !begins_with_any(
            text::lower(c),
            seq!["cd"@, "mount c "@],
        )
}

proof fn lemma_stays_put(line: Seq<char>, shortcode: Seq<char>)
    requires
        stays_put(line),
    ensures
        lp_line(line, shortcode) is Nothing,
{
    if text::trim(line).len() == 0 {
        reveal_strlit("@");
        let none = Seq::<char>::empty();
        assert(text::trim(line) =~= none);
        assert(text::trim(none) =~= none);
        assert(bare_line(line) == none);
    } else {
        let c = choose|c: Seq<char>| #[trigger]
            stands_on(line, c) && starts_nothing(text::lower(c)) && !begins_with_any(
                text::lower(c),
                seq!["cd"@, "mount c "@],
            );
        lemma_stands_on(line, c);
        let l = text::lower(c);
        lemma_starts_nothing(l);
        let no = seq!["cd"@, "mount c "@];
        assert(no[0] == "cd"@ && no[1] == "mount c "@);
        assert(!no[0].is_prefix_of(l) && !no[1].is_prefix_of(l));
        reveal_strlit("cd");
        reveal_strlit("cd ");
        reveal_strlit("cd\\");
        reveal_strlit("#");
        if "cd "@.is_prefix_of(l) {
            assert(l.take(3).take(2) =~= l.take(2));
            assert("cd "@.take(2) =~= "cd"@);
        }
        if "cd\\"@.is_prefix_of(l) {
            assert(l.take(3).take(2) =~= l.take(2));
            assert("cd\\"@.take(2) =~= "cd"@);
        }
        assert("cd"@.take(2) =~= "cd"@);
        if "#"@.is_prefix_of(l) {
            assert(l.take(1)[0] == '#');
            assert(l[0] == text::lower_char(c[0]));
            assert(c.take(1) =~= "#"@);
        }
    }
}

proof fn lemma_skip_idle(
    ls: Seq<Seq<char>>,
    i: int,
    j: int,
    cwd: Option<Seq<char>>,
    root: Option<Seq<char>>,
    shortcode: Seq<char>,
    lp_dir: Seq<char>,
    real_root: Seq<char>,
)
    requires
        0 <= i <= j <= ls.len(),
        forall|k: int| i <= k < j ==> stays_put(#[trigger] ls[k]),
    ensures
        needs_from(ls, i, cwd, root, shortcode, lp_dir, real_root) == needs_from(
            ls,
            j,
            cwd,
            root,
            shortcode,
            lp_dir,
            real_root,
        ),
    decreases j - i,
{
    if i < j {
        lemma_stays_put(ls[i], shortcode);
        lemma_skip_idle(ls, i + 1, j, cwd, root, shortcode, lp_dir, real_root);
    }
}

/// A plain name of a program: no path, no option, no command of DOSBox that starts nothing.
pub open spec fn is_program_name(name: Seq<char>) -> bool {
    &&& name.len() > 0
    &&& forall|i: int|
        0 <= i < name.len() ==> !text::is_space(#[trigger] name[i]) && name[i] != ':' && name[i]
            != '\\' && name[i] != '/'
    &&& name[0] != '@'
    &&& name[0] != '-'
    &&& !starts_nothing(text::lower(name))
    &&& !seq!["cd."@, "cd.."@, "boot"@].contains(text::lower(name))
}

/// A line that starts the program, by itself or with `call`.
pub open spec fn calls(line: Seq<char>, name: Seq<char>) -> bool {
    stands_on(line, name) || stands_on(line, "call "@ + name)
}

proof fn lemma_calls(line: Seq<char>, name: Seq<char>, shortcode: Seq<char>)
    requires
        calls(line, name),
        is_program_name(name),
    ensures
        lp_line(line, shortcode) == (LpLine::Program { name }),
{
    reveal_strlit("call ");
    reveal_strlit("CALL ");
    reveal_strlit("loadfix ");
    reveal_strlit("-");
    reveal_strlit("#");
    reveal_strlit("cd");
    reveal_strlit("cd.");
    reveal_strlit("cd..");
    reveal_strlit("cd ");
    reveal_strlit("cd\\");
    reveal_strlit("mount c ");
    reveal_strlit("mount ");
    reveal_strlit("imgmount ");
    reveal_strlit("echo ");
    reveal_strlit("rem ");
    reveal_strlit("set ");
    reveal_strlit("config ");
    reveal_strlit("cls");
    reveal_strlit("exit");
    reveal_strlit("pause");
    reveal_strlit("echo");
    reveal_strlit("echo.");
    reveal_strlit("boot");
    reveal_strlit("boot ");
    let low = text::lower(name);
    text::lemma_single_word(name);
    assert(text::is_space(' '));
    assert forall|i: int| 0 <= i < low.len() implies #[trigger] low[i] != ' ' by {
        assert(low[i] == text::lower_char(name[i]));
        assert(!text::is_space(name[i]));
    }
    if "-"@.is_prefix_of(name) {
        assert(name.take(1)[0] == '-');
    }
    let list = seq!["cd."@, "cd.."@, "boot"@];
    assert(list[0] == "cd."@ && list[1] == "cd.."@ && list[2] == "boot"@);
    assert(low != "cd."@ && low != "cd.."@ && low != "boot"@) by {
        if low == "cd."@ {
            assert(list.contains(low));
        }
        if low == "cd.."@ {
            assert(list.contains(low));
        }
        if low == "boot"@ {
            assert(list.contains(low));
        }
    }
    lemma_starts_nothing(low);
    assert(!name.contains(':') && !name.contains('\\') && !name.contains('/'));
    let called = "call "@ + name;
    if stands_on(line, name) {
        lemma_stands_on(line, name);
        lemma_no_blank_prefix(low, "cd "@, 2);
        lemma_no_blank_prefix(low, "mount c "@, 5);
        lemma_no_blank_prefix(low, "mount "@, 5);
        lemma_no_blank_prefix(low, "imgmount "@, 8);
        lemma_no_blank_prefix(low, "echo "@, 4);
        lemma_no_blank_prefix(low, "rem "@, 3);
        lemma_no_blank_prefix(low, "set "@, 3);
        lemma_no_blank_prefix(low, "config "@, 6);
        lemma_no_blank_prefix(low, "boot "@, 4);
        assert forall|i: int| 0 <= i < name.len() implies #[trigger] name[i] != ' ' by {
            assert(!text::is_space(name[i]));
        }
        lemma_no_blank_prefix(name, "call "@, 4);
        lemma_no_blank_prefix(name, "CALL "@, 4);
        lemma_no_blank_prefix(name, "loadfix "@, 7);
        if "#"@.is_prefix_of(name) {
            assert(name.take(1)[0] == '#');
            assert(low[0] == '#');
            assert(low.take(1) =~= "#"@);
        }
        assert(program_of(name) == name);
    } else {
        lemma_stands_on(line, called);
        let l = text::lower(called);
        assert(l[0] == 'c' && l[1] == 'a' && l[2] == 'l' && l[3] == 'l' && l[4] == ' ');
        assert(called.len() >= 6);
        assert(called.skip(5) =~= name);
        assert(called.take(5) =~= "call "@);
        lemma_other_letter(l, "cd "@, 1);
        lemma_other_letter(l, "cd\\"@, 1);
        lemma_other_letter(l, "mount c "@, 0);
        lemma_other_letter(l, "mount "@, 0);
        lemma_other_letter(l, "imgmount "@, 0);
        lemma_other_letter(l, "echo "@, 0);
        lemma_other_letter(l, "rem "@, 0);
        lemma_other_letter(l, "set "@, 0);
        lemma_other_letter(l, "config "@, 1);
        lemma_other_letter(l, "boot "@, 0);
        if "#"@.is_prefix_of(called) {
            assert(called.take(1)[0] == '#');
        }
        assert(l.len() > 5);
        assert(program_of(called) == name);
    }
}

proof fn lemma_no_blank_prefix(s: Seq<char>, prefix: Seq<char>, at: int)
    requires
        forall|i: int| 0 <= i < s.len() ==> #[trigger] s[i] != ' ',
        0 <= at < prefix.len(),
        prefix[at] == ' ',
    ensures
        !prefix.is_prefix_of(s),
{
    if prefix.is_prefix_of(s) {
        assert(s.take(prefix.len() as int)[at] == s[at]);
    }
}

proof fn lemma_other_letter(s: Seq<char>, prefix: Seq<char>, at: int)
    requires
        0 <= at < prefix.len(),
        at < s.len(),
        prefix[at] != s[at],
    ensures
        !prefix.is_prefix_of(s),
{
    if prefix.is_prefix_of(s) {
        assert(s.take(prefix.len() as int)[at] == s[at]);
    }
}

/// A line that mounts a directory of this name as drive C, given by a path of the host.
pub open spec fn mounts_as_c(line: Seq<char>, above: Seq<char>, leaf: Seq<char>) -> bool {
    &&& stands_on(line, "mount c "@ + above + "\\"@ + leaf)
    &&& above.len() > 0
    &&& !text::is_space(above[0])
    &&& above[0] != '"'
    &&& leaf.len() > 0
    &&& forall|i: int|
        0 <= i < leaf.len() ==> !text::is_space(#[trigger] leaf[i]) && leaf[i] != '\\' && leaf[i]
            != '/' && leaf[i] != '"'
}

proof fn lemma_mounts_as_c(line: Seq<char>, above: Seq<char>, leaf: Seq<char>, shortcode: Seq<char>)
    requires
        mounts_as_c(line, above, leaf),
    ensures
        lp_line(line, shortcode) == (LpLine::MountC {
            own: text::lower(leaf) == text::lower(shortcode),
        }),
{
    reveal_strlit("mount c ");
    reveal_strlit("\\");
    reveal_strlit("#");
    reveal_strlit("cd");
    reveal_strlit("cd.");
    reveal_strlit("cd..");
    reveal_strlit("cd ");
    reveal_strlit("cd\\");
    let c = "mount c "@ + above + "\\"@ + leaf;
    lemma_stands_on(line, c);
    let l = text::lower(c);
    let arg = above + "\\"@ + leaf;
    let low = text::lower(arg);
    assert(c =~= "mount c "@ + arg);
    assert(l[0] == 'm' && l.len() > 8);
    assert(l.take(8) =~= "mount c "@);
    assert(l.skip(8) =~= low);
    lemma_other_letter(l, "cd "@, 0);
    lemma_other_letter(l, "cd\\"@, 0);
    if "#"@.is_prefix_of(c) {
        assert(c.take(1)[0] == '#');
    }
    // the last name of what is mounted
    let n = above.len() as int;
    assert(low[0] == text::lower_char(above[0]));
    assert(low.last() == text::lower_char(leaf.last()));
    lemma_small_is_plain(above[0]);
    lemma_small_is_plain(leaf.last());
    lemma_trim_keeps(low);
    assert(unquoted(low) == low);
    let t = text::swap_char(low, '\\', '/');
    assert(t.last() == low.last());
    assert(text::strip_back(t, '/') == t);
    text::lemma_last_char(t, '/');
    assert(t[n] == '/');
    assert forall|k: int| n < k < t.len() implies #[trigger] t[k] != '/' by {
        lemma_small_is_plain(leaf[k - n - 1]);
        assert(low[k] == text::lower_char(leaf[k - n - 1]));
    }
    assert(text::last_char(t, '/') == Some(n));
    assert(t.skip(n + 1) =~= text::lower(leaf)) by {
        assert forall|k: int| 0 <= k < leaf.len() implies #[trigger] t.skip(n + 1)[k]
            == text::lower(leaf)[k] by {
            lemma_small_is_plain(leaf[k]);
            assert(low[n + 1 + k] == text::lower_char(leaf[k]));
        }
    }
    assert(mounted_leaf(low) == text::lower(leaf));
    assert(text::lower(text::lower(leaf)) =~= text::lower(leaf)) by {
        assert forall|k: int| 0 <= k < leaf.len() implies #[trigger] text::lower(
            text::lower(leaf),
        )[k] == text::lower(leaf)[k] by {
            lemma_small_is_plain(leaf[k]);
        }
    }
}

proof fn lemma_small_is_plain(c: char)
    ensures
        text::lower_char(text::lower_char(c)) == text::lower_char(c),
        text::is_space(text::lower_char(c)) == text::is_space(c),
        text::lower_char(c) == '/' <==> c == '/',
        text::lower_char(c) == '\\' <==> c == '\\',
        text::lower_char(c) == '"' <==> c == '"',
{
}

/// A file of `listing` lies directly in `dir` and is meant by `name`, capitals aside.
pub open spec fn is_in_listing(listing: Seq<Seq<char>>, dir: Seq<char>, name: Seq<char>) -> bool {
    exists|i: int|
        0 <= i < listing.len() && match text::rsplit_once(
            text::strip_back(text::lower(#[trigger] listing[i]), '/'),
            '/',
        ) {
            Some((above, leaf)) => above == text::strip_back(text::lower(dir), '/') && (leaf
                == text::lower(name) || match text::rsplit_once(leaf, '.') {
                Some((stem, _)) => stem == text::lower(name),
                None => false,
            }),
            None => false,
        }
}

proof fn lemma_in_listing(listing: Seq<Seq<char>>, dir: Seq<char>, name: Seq<char>)
    ensures
        is_in_listing(listing, dir, name) == exists|i: int|
            0 <= i < listing.len() && is_program_at(#[trigger] listing[i], dir, text::lower(name)),
{
    assert forall|i: int| 0 <= i < listing.len() implies is_program_at(
        #[trigger] listing[i],
        dir,
        text::lower(name),
    ) == (match text::rsplit_once(text::strip_back(text::lower(listing[i]), '/'), '/') {
        Some((above, leaf)) => above == text::strip_back(text::lower(dir), '/') && (leaf
            == text::lower(name) || match text::rsplit_once(leaf, '.') {
            Some((stem, _)) => stem == text::lower(name),
            None => false,
        }),
        None => false,
    }) by {}
    if is_in_listing(listing, dir, name) {
        let i = choose|i: int|
            0 <= i < listing.len() && match text::rsplit_once(
                text::strip_back(text::lower(#[trigger] listing[i]), '/'),
                '/',
            ) {
                Some((above, leaf)) => above == text::strip_back(text::lower(dir), '/') && (leaf
                    == text::lower(name) || match text::rsplit_once(leaf, '.') {
                    Some((stem, _)) => stem == text::lower(name),
                    None => false,
                }),
                None => false,
            };
        assert(is_program_at(listing[i], dir, text::lower(name)));
    }
    if exists|i: int|
        0 <= i < listing.len() && is_program_at(#[trigger] listing[i], dir, text::lower(name)) {
        let i = choose|i: int|
            0 <= i < listing.len() && is_program_at(#[trigger] listing[i], dir, text::lower(name));
        assert(is_in_listing(listing, dir, name));
    }
}

/// A directory is named by `listing`, capitals and a slash at the end aside.
pub open spec fn is_dir_in_listing(listing: Seq<Seq<char>>, dir: Seq<char>) -> bool {
    exists|i: int|
        0 <= i < listing.len() && text::strip_back(text::lower(#[trigger] listing[i]), '/')
            == text::strip_back(text::lower(dir), '/')
}

/// An English section that mounts the game's own directory and starts a program runs against
/// a pack if, and only if, the pack's directory holds that program.
pub proof fn law_the_program_must_be_in_the_pack(
    conf: Seq<char>,
    section: Seq<char>,
    shortcode: Seq<char>,
    lp_dir: Seq<char>,
    real_root: Seq<char>,
    listing: Seq<Seq<char>>,
    m: int,
    k: int,
    above: Seq<char>,
    leaf: Seq<char>,
    name: Seq<char>,
)
    requires
        text::after_mark(conf, "[autoexec]"@) == Some(section),
        0 <= m < k < text::lines(section).len(),
        forall|i: int| 0 <= i < m ==> stays_put(#[trigger] text::lines(section)[i]),
        forall|i: int| m < i < k ==> stays_put(#[trigger] text::lines(section)[i]),
        mounts_as_c(text::lines(section)[m], above, leaf),
        text::lower(leaf) == text::lower(shortcode),
        calls(text::lines(section)[k], name),
        is_program_name(name),
    ensures
        autoexec_runs(conf, shortcode, lp_dir, real_root, listing) == is_in_listing(
            listing,
            lp_dir,
            name,
        ),
{
    let ls = text::lines(section);
    lemma_skip_idle(ls, 0, m, None, None, shortcode, lp_dir, real_root);
    lemma_mounts_as_c(ls[m], above, leaf, shortcode);
    lemma_skip_idle(ls, m + 1, k, None, Some(lp_dir), shortcode, lp_dir, real_root);
    lemma_calls(ls[k], name, shortcode);
    lemma_in_listing(listing, lp_dir, name);
}

/// A line that changes into a directory of this name.
pub open spec fn changes_into(line: Seq<char>, dir: Seq<char>) -> bool {
    &&& stands_on(line, "cd "@ + dir)
    &&& dir.len() > 0
    &&& forall|i: int|
        0 <= i < dir.len() ==> !text::is_space(#[trigger] dir[i]) && dir[i] != '\\' && dir[i] != '/'
            && dir[i] != '"' && dir[i] != '.'
}

proof fn lemma_changes_into(line: Seq<char>, dir: Seq<char>, shortcode: Seq<char>)
    requires
        changes_into(line, dir),
    ensures
        lp_line(line, shortcode) == (LpLine::Into { target: text::lower(dir), absolute: false }),
{
    reveal_strlit("#");
    reveal_strlit("cd");
    reveal_strlit("cd.");
    reveal_strlit("cd..");
    reveal_strlit("cd ");
    reveal_strlit("\\");
    reveal_strlit("/");
    reveal_strlit("..");
    let c = "cd "@ + dir;
    lemma_stands_on(line, c);
    let l = text::lower(c);
    let low = text::lower(dir);
    assert(l[0] == 'c' && l[1] == 'd' && l[2] == ' ' && l.len() > 3);
    assert(l.take(3) =~= "cd "@);
    assert(l.skip(3) =~= low);
    if "#"@.is_prefix_of(c) {
        assert(c.take(1)[0] == '#');
    }
    lemma_small_is_plain(dir[0]);
    lemma_small_is_plain(dir.last());
    assert(low[0] == text::lower_char(dir[0]) && low.last() == text::lower_char(dir.last()));
    lemma_trim_keeps(low);
    assert(unquoted(low) == low);
    assert(low[0] != '.') by {
        assert(dir[0] != '.');
    }
}

/// Where the English section mounts the folder of all games and changes into the game's
/// directory, the pack's directory stands in for it: it has to be there, and to hold the
/// program.
pub proof fn law_the_pack_stands_in_for_the_game(
    conf: Seq<char>,
    section: Seq<char>,
    shortcode: Seq<char>,
    lp_dir: Seq<char>,
    real_root: Seq<char>,
    listing: Seq<Seq<char>>,
    d: int,
    k: int,
    dir: Seq<char>,
    name: Seq<char>,
)
    requires
        text::after_mark(conf, "[autoexec]"@) == Some(section),
        0 <= d < k < text::lines(section).len(),
        forall|i: int| 0 <= i < d ==> stays_put(#[trigger] text::lines(section)[i]),
        forall|i: int| d < i < k ==> stays_put(#[trigger] text::lines(section)[i]),
        changes_into(text::lines(section)[d], dir),
        text::lower(dir) == text::lower(shortcode),
        calls(text::lines(section)[k], name),
        is_program_name(name),
    ensures
        autoexec_runs(conf, shortcode, lp_dir, real_root, listing) == (is_dir_in_listing(
            listing,
            lp_dir,
        ) && is_in_listing(listing, lp_dir, name)),
{
    let ls = text::lines(section);
    lemma_skip_idle(ls, 0, d, None, None, shortcode, lp_dir, real_root);
    lemma_changes_into(ls[d], dir, shortcode);
    lemma_lower_again(dir);
    lemma_skip_idle(ls, d + 1, k, Some(lp_dir), None, shortcode, lp_dir, real_root);
    lemma_calls(ls[k], name, shortcode);
    lemma_in_listing(listing, lp_dir, name);
    let needs = autoexec_needs(conf, shortcode, lp_dir, real_root)->0;
    assert(needs.dirs =~= seq![lp_dir]);
    lemma_dir_listed(listing, lp_dir);
    if is_listed(listing, lp_dir) {
        assert forall|i: int| 0 <= i < needs.dirs.len() implies is_listed(
            listing,
            #[trigger] needs.dirs[i],
        ) by {}
    } else {
        assert(!is_listed(listing, needs.dirs[0]));
    }
}

proof fn lemma_lower_again(s: Seq<char>)
    ensures
        text::lower(text::lower(s)) == text::lower(s),
{
    assert forall|k: int| 0 <= k < s.len() implies #[trigger] text::lower(text::lower(s))[k]
        == text::lower(s)[k] by {
        lemma_small_is_plain(s[k]);
    }
    assert(text::lower(text::lower(s)) =~= text::lower(s));
}

proof fn lemma_dir_listed(listing: Seq<Seq<char>>, dir: Seq<char>)
    ensures
        is_listed(listing, dir) == is_dir_in_listing(listing, dir),
{
    if is_listed(listing, dir) {
        let i = choose|i: int|
            0 <= i < listing.len() && folded(#[trigger] listing[i]) == folded(dir);
        assert(is_dir_in_listing(listing, dir));
    }
    if is_dir_in_listing(listing, dir) {
        let i = choose|i: int|
            0 <= i < listing.len() && text::strip_back(text::lower(#[trigger] listing[i]), '/')
                == text::strip_back(text::lower(dir), '/');
        assert(folded(listing[i]) == folded(dir));
    }
}

/// Where the English section mounts the game's own directory and changes into one below it,
/// the program is looked for there, and the directory has to be there.
pub proof fn law_the_program_is_looked_for_below(
    conf: Seq<char>,
    section: Seq<char>,
    shortcode: Seq<char>,
    lp_dir: Seq<char>,
    real_root: Seq<char>,
    listing: Seq<Seq<char>>,
    m: int,
    d: int,
    k: int,
    above: Seq<char>,
    leaf: Seq<char>,
    dir: Seq<char>,
    name: Seq<char>,
)
    requires
        text::after_mark(conf, "[autoexec]"@) == Some(section),
        0 <= m < d < k < text::lines(section).len(),
        forall|i: int| 0 <= i < m ==> stays_put(#[trigger] text::lines(section)[i]),
        forall|i: int| m < i < d ==> stays_put(#[trigger] text::lines(section)[i]),
        forall|i: int| d < i < k ==> stays_put(#[trigger] text::lines(section)[i]),
        mounts_as_c(text::lines(section)[m], above, leaf),
        text::lower(leaf) == text::lower(shortcode),
        changes_into(text::lines(section)[d], dir),
        calls(text::lines(section)[k], name),
        is_program_name(name),
    ensures
        autoexec_runs(conf, shortcode, lp_dir, real_root, listing) == (is_dir_in_listing(
            listing,
            crate::fspath::joined(lp_dir, text::lower(dir)),
        ) && is_in_listing(listing, crate::fspath::joined(lp_dir, text::lower(dir)), name)),
{
    let ls = text::lines(section);
    let there = crate::fspath::joined(lp_dir, text::lower(dir));
    lemma_skip_idle(ls, 0, m, None, None, shortcode, lp_dir, real_root);
    lemma_mounts_as_c(ls[m], above, leaf, shortcode);
    lemma_skip_idle(ls, m + 1, d, None, Some(lp_dir), shortcode, lp_dir, real_root);
    lemma_changes_into(ls[d], dir, shortcode);
    lemma_skip_idle(ls, d + 1, k, Some(there), Some(lp_dir), shortcode, lp_dir, real_root);
    lemma_calls(ls[k], name, shortcode);
    lemma_in_listing(listing, there, name);
    let needs = autoexec_needs(conf, shortcode, lp_dir, real_root)->0;
    assert(needs.dirs =~= seq![there]);
    lemma_dir_listed(listing, there);
    if is_listed(listing, there) {
        assert forall|i: int| 0 <= i < needs.dirs.len() implies is_listed(
            listing,
            #[trigger] needs.dirs[i],
        ) by {}
    } else {
        assert(!is_listed(listing, needs.dirs[0]));
    }
}

/// Without an autoexec section nothing runs.
pub proof fn law_without_a_section_nothing_runs(
    conf: Seq<char>,
    shortcode: Seq<char>,
    lp_dir: Seq<char>,
    real_root: Seq<char>,
    listing: Seq<Seq<char>>,
)
    requires
        !text::has(conf, "[autoexec]"@),
    ensures
        !autoexec_runs(conf, shortcode, lp_dir, real_root, listing),
{
}

/// A line that changes into a directory of the root, whatever directory the guest stands in.
pub open spec fn changes_from_the_root(line: Seq<char>, dir: Seq<char>) -> bool {
    &&& stands_on(line, "cd\\"@ + dir)
    &&& dir.len() > 0
    &&& forall|i: int|
        0 <= i < dir.len() ==> !text::is_space(#[trigger] dir[i]) && dir[i] != '\\' && dir[i] != '/'
            && dir[i] != '"' && dir[i] != '.'
}

proof fn lemma_changes_from_the_root(line: Seq<char>, dir: Seq<char>, shortcode: Seq<char>)
    requires
        changes_from_the_root(line, dir),
    ensures
        lp_line(line, shortcode) == (LpLine::Into { target: text::lower(dir), absolute: true }),
{
    reveal_strlit("#");
    reveal_strlit("cd");
    reveal_strlit("cd.");
    reveal_strlit("cd..");
    reveal_strlit("cd ");
    reveal_strlit("cd\\");
    reveal_strlit("\\");
    reveal_strlit("/");
    reveal_strlit("..");
    let c = "cd\\"@ + dir;
    lemma_stands_on(line, c);
    let l = text::lower(c);
    let low = text::lower(dir);
    assert(l[0] == 'c' && l[1] == 'd' && l[2] == '\\' && l.len() > 3);
    assert(l.take(3) =~= "cd\\"@);
    assert(l.skip(3) =~= low);
    lemma_other_letter(l, "cd "@, 2);
    if "#"@.is_prefix_of(c) {
        assert(c.take(1)[0] == '#');
    }
    lemma_small_is_plain(dir[0]);
    lemma_small_is_plain(dir.last());
    assert(low[0] == text::lower_char(dir[0]) && low.last() == text::lower_char(dir.last()));
    lemma_trim_keeps(low);
    assert(unquoted(low) == low);
    assert(low[0] != '.') by {
        assert(dir[0] != '.');
    }
}

/// What a section with a mount, two changes and a program needs.
proof fn lemma_two_changes(
    ls: Seq<Seq<char>>,
    shortcode: Seq<char>,
    lp_dir: Seq<char>,
    real_root: Seq<char>,
    m: int,
    d: int,
    e: int,
    k: int,
    first: Seq<char>,
    second: Seq<char>,
    name: Seq<char>,
)
    requires
        0 <= m < d < e < k < ls.len(),
        forall|i: int| 0 <= i < k && i != m && i != d && i != e ==> stays_put(#[trigger] ls[i]),
        lp_line(ls[m], shortcode) == (LpLine::MountC { own: true }),
        lp_line(ls[d], shortcode) == (LpLine::Into { target: first, absolute: false }),
        lp_line(ls[e], shortcode) == (LpLine::Into { target: second, absolute: true }),
        lp_line(ls[k], shortcode) == (LpLine::Program { name }),
    ensures
        needs_from(ls, 0, None, None, shortcode, lp_dir, real_root).dirs == seq![
            crate::fspath::joined(lp_dir, first),
            crate::fspath::joined(lp_dir, second),
        ],
        needs_from(ls, 0, None, None, shortcode, lp_dir, real_root).program == Some(
            (crate::fspath::joined(lp_dir, second), text::lower(name)),
        ),
{
    let a = crate::fspath::joined(lp_dir, first);
    let b = crate::fspath::joined(lp_dir, second);
    let r = Some(lp_dir);
    lemma_skip_idle(ls, 0, m, None, None, shortcode, lp_dir, real_root);
    lemma_skip_idle(ls, m + 1, d, None, r, shortcode, lp_dir, real_root);
    lemma_skip_idle(ls, d + 1, e, Some(a), r, shortcode, lp_dir, real_root);
    lemma_skip_idle(ls, e + 1, k, Some(b), r, shortcode, lp_dir, real_root);
    let last = needs_from(ls, k, Some(b), r, shortcode, lp_dir, real_root);
    assert(last.dirs =~= Seq::<Seq<char>>::empty());
    let then_b = needs_from(ls, e, Some(a), r, shortcode, lp_dir, real_root);
    assert(then_b.dirs =~= seq![b]);
    let then_a = needs_from(ls, d, None, r, shortcode, lp_dir, real_root);
    assert(then_a.dirs =~= seq![a, b]);
}

/// A change from the root leads below what is mounted, and not below where the guest stands:
/// both directories have to be there, and the program is looked for in the last one.
pub proof fn law_a_change_from_the_root_starts_over(
    conf: Seq<char>,
    section: Seq<char>,
    shortcode: Seq<char>,
    lp_dir: Seq<char>,
    real_root: Seq<char>,
    listing: Seq<Seq<char>>,
    m: int,
    d: int,
    e: int,
    k: int,
    above: Seq<char>,
    leaf: Seq<char>,
    dir: Seq<char>,
    other: Seq<char>,
    name: Seq<char>,
)
    requires
        text::after_mark(conf, "[autoexec]"@) == Some(section),
        0 <= m < d < e < k < text::lines(section).len(),
        forall|i: int| 0 <= i < m ==> stays_put(#[trigger] text::lines(section)[i]),
        forall|i: int| m < i < d ==> stays_put(#[trigger] text::lines(section)[i]),
        forall|i: int| d < i < e ==> stays_put(#[trigger] text::lines(section)[i]),
        forall|i: int| e < i < k ==> stays_put(#[trigger] text::lines(section)[i]),
        mounts_as_c(text::lines(section)[m], above, leaf),
        text::lower(leaf) == text::lower(shortcode),
        changes_into(text::lines(section)[d], dir),
        changes_from_the_root(text::lines(section)[e], other),
        calls(text::lines(section)[k], name),
        is_program_name(name),
    ensures
        autoexec_runs(conf, shortcode, lp_dir, real_root, listing) == (is_dir_in_listing(
            listing,
            crate::fspath::joined(lp_dir, text::lower(dir)),
        ) && is_dir_in_listing(listing, crate::fspath::joined(lp_dir, text::lower(other)))
            && is_in_listing(listing, crate::fspath::joined(lp_dir, text::lower(other)), name)),
{
    let ls = text::lines(section);
    let a = crate::fspath::joined(lp_dir, text::lower(dir));
    let b = crate::fspath::joined(lp_dir, text::lower(other));
    lemma_mounts_as_c(ls[m], above, leaf, shortcode);
    lemma_changes_into(ls[d], dir, shortcode);
    lemma_changes_from_the_root(ls[e], other, shortcode);
    lemma_calls(ls[k], name, shortcode);
    lemma_two_changes(
        ls,
        shortcode,
        lp_dir,
        real_root,
        m,
        d,
        e,
        k,
        text::lower(dir),
        text::lower(other),
        name,
    );
    lemma_in_listing(listing, b, name);
    let needs = autoexec_needs(conf, shortcode, lp_dir, real_root)->0;
    assert(needs.dirs == seq![a, b]);
    assert(needs.dirs[0] == a && needs.dirs[1] == b);
    lemma_dir_listed(listing, a);
    lemma_dir_listed(listing, b);
    if is_listed(listing, a) && is_listed(listing, b) {
        assert forall|i: int| 0 <= i < needs.dirs.len() implies is_listed(
            listing,
            #[trigger] needs.dirs[i],
        ) by {}
    } else {
        assert(!is_listed(listing, needs.dirs[0]) || !is_listed(listing, needs.dirs[1]));
    }
}

/// The program that `loadfix` starts is the word behind its options.
pub proof fn law_loadfix_starts_a_program(option: Seq<char>, name: Seq<char>)
    requires
        is_program_name(name),
        forall|i: int| 0 <= i < option.len() ==> !text::is_space(#[trigger] option[i]),
    ensures
        program_of("loadfix -"@ + option + " "@ + name) == name,
{
    reveal_strlit("loadfix -");
    reveal_strlit("loadfix ");
    reveal_strlit("call ");
    reveal_strlit("CALL ");
    reveal_strlit(" ");
    reveal_strlit("-");
    let t = "loadfix -"@ + option + " "@ + name;
    let base = seq!['-'] + option + " "@ + name;
    assert(t =~= "loadfix "@ + base);
    assert(t.take(8) =~= "loadfix "@);
    assert(t.skip(8) =~= base);
    lemma_other_letter(t, "call "@, 0);
    lemma_other_letter(t, "CALL "@, 0);
    let flag = seq!['-'] + option;
    assert(!text::is_space('-') && text::is_space(' '));
    assert forall|i: int| 0 <= i < flag.len() implies !text::is_space(#[trigger] flag[i]) by {
        if i > 0 {
            assert(flag[i] == option[i - 1]);
        }
    }
    text::lemma_single_word(flag);
    let front = flag + " "@;
    assert(front.last() == ' ' && front.drop_last() =~= flag);
    assert(text::words(front) == seq![flag]);
    assert forall|i: int| 0 <= i < name.len() implies !text::is_space(#[trigger] name[i]) by {}
    text::lemma_words_push(front, name);
    assert(base =~= front + name);
    let ws = text::words(base);
    assert(ws =~= seq![flag, name]);
    assert(flag.take(1) =~= "-"@);
    if "-"@.is_prefix_of(name) {
        assert(name.take(1)[0] == '-');
    }
    reveal_with_fuel(first_plain_word, 3);
}

} // verus!
