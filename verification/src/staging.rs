//! Turning the confs that eXo writes for DOSBox ECE and DOSBox-X into ones that
//! DOSBox Staging understands.

use crate::text;
use crate::text::{
    chars_of, cut_once, drop_front, find_pattern, first_run_len, has_prefix, has_str, head,
    is_digit_char, is_str, join_texts, lines_of, same, string_of, tail, to_lower, trim_end_of,
    trim_of, trim_start_of, words_of,
};
use vstd::prelude::*;

verus! {

// ── MIDI ─────────────────────────────────────────────────────────────────────

/// What becomes of one line of a conf.
pub enum MidiLine {
    /// It stays as it is.
    Kept,
    /// It names the directory of the MT-32 ROMs and goes.
    RomDir(Seq<char>),
    /// It names the soundfont and goes.
    SoundFont(Seq<char>),
    /// It tunes something that Staging has no key for and goes.
    Dropped,
    /// It asks for the default device, which Staging calls `auto`.
    AutoDevice,
}

/// A section header: a line whose first visible character is `[`.
pub open spec fn is_header(line: Seq<char>) -> bool {
    "["@.is_prefix_of(text::trim(line))
}

/// What becomes of `line` in the section with header `section`.
pub open spec fn midi_line(section: Seq<char>, line: Seq<char>) -> MidiLine {
    let t = text::trim(line);
    if is_header(line) || section != "[midi]"@ || "#"@.is_prefix_of(t) {
        MidiLine::Kept
    } else {
        match text::split_once(t, '=') {
            None => MidiLine::Kept,
            Some((k, v)) => {
                let key = text::lower(text::trim(k));
                let value = text::trim(v);
                if key == "mt32.romdir"@ {
                    MidiLine::RomDir(value)
                } else if key == "fluid.soundfont"@ {
                    MidiLine::SoundFont(value)
                } else if "mt32."@.is_prefix_of(key) || "fluid."@.is_prefix_of(key) {
                    MidiLine::Dropped
                } else if key == "mididevice"@ && text::lower(value) == text::lower("default"@) {
                    MidiLine::AutoDevice
                } else {
                    MidiLine::Kept
                }
            },
        }
    }
}

/// The header in force after the first `n` lines: the last one among them, in
/// small letters, or nothing.
pub open spec fn section_after(ls: Seq<Seq<char>>, n: int) -> Seq<char>
    decreases n,
{
    if n <= 0 {
        Seq::<char>::empty()
    } else if is_header(ls[n - 1]) {
        text::lower(text::trim(ls[n - 1]))
    } else {
        section_after(ls, n - 1)
    }
}

/// What becomes of line `i`.
pub open spec fn midi_at(ls: Seq<Seq<char>>, i: int) -> MidiLine {
    midi_line(section_after(ls, i), ls[i])
}

/// The lines that the first `n` lines leave behind.
pub open spec fn midi_kept(ls: Seq<Seq<char>>, n: int) -> Seq<Seq<char>>
    decreases n,
{
    if n <= 0 {
        Seq::<Seq<char>>::empty()
    } else {
        let before = midi_kept(ls, n - 1);
        match midi_at(ls, n - 1) {
            MidiLine::Kept => before.push(ls[n - 1]),
            MidiLine::AutoDevice => before.push("mididevice = auto"@),
            _ => before,
        }
    }
}

/// The ROM directory that the last line naming one, among the first `n`, names.
pub open spec fn rom_dir(ls: Seq<Seq<char>>, n: int) -> Option<Seq<char>>
    decreases n,
{
    if n <= 0 {
        None
    } else {
        match midi_at(ls, n - 1) {
            MidiLine::RomDir(d) => Some(d),
            _ => rom_dir(ls, n - 1),
        }
    }
}

/// The soundfont that the last line naming one, among the first `n`, names.
pub open spec fn sound_font(ls: Seq<Seq<char>>, n: int) -> Option<Seq<char>>
    decreases n,
{
    if n <= 0 {
        None
    } else {
        match midi_at(ls, n - 1) {
            MidiLine::SoundFont(f) => Some(f),
            _ => sound_font(ls, n - 1),
        }
    }
}

/// Some line of `conf` is the header `header`, in whatever case.
pub open spec fn has_section(conf: Seq<char>, header: Seq<char>) -> bool {
    exists|i: int|
        0 <= i < text::lines(text::lower(conf)).len() && text::trim(#[trigger] text::lines(text::lower(conf))[i]) == header
}

/// A section of its own for a value that was found, unless `present`.
pub open spec fn own_section(
    present: bool,
    header: Seq<char>,
    key: Seq<char>,
    value: Option<Seq<char>>,
) -> Seq<Seq<char>> {
    match value {
        Some(v) if !present => seq![Seq::<char>::empty(), header, key + v],
        _ => Seq::<Seq<char>>::empty(),
    }
}

/// The conf holds a key that ECE knows and Staging does not, or names a device.
pub open spec fn needs_midi(conf: Seq<char>) -> bool {
    text::has(text::lower(conf), "mt32."@) || text::has(text::lower(conf), "fluid."@) || text::has(text::lower(conf), "mididevice"@)
}

/// The lines of a conf with ECE's MIDI keys as Staging's sections.
pub open spec fn midi_lines(conf: Seq<char>) -> Seq<Seq<char>> {
    let ls = text::lines(conf);
    let n = ls.len() as int;
    midi_kept(ls, n) + own_section(
        has_section(conf, "[mt32]"@),
        "[mt32]"@,
        "romdir = "@,
        rom_dir(ls, n),
    ) + own_section(
        has_section(conf, "[fluidsynth]"@),
        "[fluidsynth]"@,
        "soundfont = "@,
        sound_font(ls, n),
    )
}

/// The conf with ECE's MIDI keys as Staging's sections.
pub open spec fn midi_translated(conf: Seq<char>) -> Seq<char> {
    if !needs_midi(conf) {
        conf
    } else {
        text::join(midi_lines(conf), "\n"@) + "\n"@
    }
}

/// Whether some line of `conf` is the header `header`, in whatever case.
fn section_present(conf: &[char], header: &str) -> (r: bool)
    ensures
        r == has_section(conf@, header@),
{
    let low = to_lower(conf);
    let ls = lines_of(string_of(low.as_slice()).as_str());
    let ghost all = text::lines(text::lower(conf@));
    let mut i: usize = 0;
    while i < ls.len()
        invariant
            i <= ls@.len(),
            text::texts(ls@) == all,
            all == text::lines(text::lower(conf@)),
            forall|k: int| 0 <= k < i ==> text::trim(#[trigger] all[k]) != header@,
        decreases ls@.len() - i,
    {
        let line = chars_of(ls[i].as_str());
        assert(line@ == all[i as int]);
        if is_str(trim_of(line.as_slice()), header) {
            return true;
        }
        i += 1;
    }
    false
}

/// Adds a section of its own for a value that was found, unless `present`.
fn add_section(out: &mut Vec<String>, present: bool, header: &str, key: &str, value: &Option<String>)
    ensures
        text::texts(final(out)@) == text::texts(old(out)@) + own_section(
            present,
            header@,
            key@,
            match *value {
                Some(v) => Some(v@),
                None => None,
            },
        ),
{
    let ghost before = text::texts(out@);
    if !present {
        if let Some(v) = value {
            out.push(String::new());
            out.push(string_of(chars_of(header).as_slice()));
            out.push(text::cat(key, v.as_str()));
            assert(text::texts(out@) =~= before + seq![Seq::<char>::empty(), header@, key@ + v@]);
        }
    }
    assert(text::texts(out@) =~= before + own_section(
        present,
        header@,
        key@,
        match *value {
            Some(v) => Some(v@),
            None => None,
        },
    ));
}

/// ECE's dotted `[midi]` keys become Staging's `[mt32]` and `[fluidsynth]`
/// sections, and the default device becomes `auto`. A conf that holds none of
/// these comes back as it is, and a section that is there already is not added
/// again.
pub fn translate_midi_for_staging(conf: &str) -> (r: String)
    ensures
        r@ == midi_translated(conf@),
{
    let chars = chars_of(conf);
    let low = to_lower(chars.as_slice());
    let ece = has_str(low.as_slice(), "mt32.") || has_str(low.as_slice(), "fluid.");
    if !ece && !has_str(low.as_slice(), "mididevice") {
        return string_of(chars.as_slice());
    }
    let has_mt32 = section_present(chars.as_slice(), "[mt32]");
    let has_fluid = section_present(chars.as_slice(), "[fluidsynth]");
    let ls = lines_of(conf);
    let ghost all = text::lines(conf@);
    let mut romdir: Option<String> = None;
    let mut soundfont: Option<String> = None;
    let mut out: Vec<String> = Vec::new();
    let mut section: String = String::new();
    let mut i: usize = 0;
    assert(text::texts(out@) =~= midi_kept(all, 0));
    while i < ls.len()
        invariant
            i <= ls@.len(),
            text::texts(ls@) == all,
            text::texts(out@) == midi_kept(all, i as int),
            section@ == section_after(all, i as int),
            text::opt(romdir) == rom_dir(all, i as int),
            text::opt(soundfont) == sound_font(all, i as int),
        decreases ls@.len() - i,
    {
        let ghost done = text::texts(out@);
        let line = chars_of(ls[i].as_str());
        assert(line@ == all[i as int]);
        let ghost kind = midi_at(all, i as int);
        let trimmed = trim_of(line.as_slice());
        let mut keep: bool = true;
        if has_prefix(trimmed, "[") {
            section = string_of(to_lower(trimmed).as_slice());
        } else if same(section.as_str(), "[midi]") && !has_prefix(trimmed, "#") {
            if let Some((k, v)) = cut_once(trimmed, '=') {
                let key = to_lower(trim_of(k));
                let value = trim_of(v);
                let default = chars_of("default");
                if is_str(key.as_slice(), "mt32.romdir") {
                    romdir = Some(string_of(value));
                    keep = false;
                } else if is_str(key.as_slice(), "fluid.soundfont") {
                    soundfont = Some(string_of(value));
                    keep = false;
                } else if has_prefix(key.as_slice(), "mt32.") || has_prefix(
                    key.as_slice(),
                    "fluid.",
                ) {
                    keep = false;
                } else if is_str(key.as_slice(), "mididevice") && text::same_chars(
                    to_lower(value).as_slice(),
                    to_lower(default.as_slice()).as_slice(),
                ) {
                    let auto_line = string_of(chars_of("mididevice = auto").as_slice());
                    out.push(auto_line);
                    assert(text::texts(out@) =~= done.push("mididevice = auto"@));
                    keep = false;
                }
            }
        }
        if keep {
            let copy = string_of(line.as_slice());
            out.push(copy);
            assert(text::texts(out@) =~= done.push(all[i as int]));
        }
        i += 1;
    }
    add_section(&mut out, has_mt32, "[mt32]", "romdir = ", &romdir);
    add_section(&mut out, has_fluid, "[fluidsynth]", "soundfont = ", &soundfont);
    text::cat(join_texts(&out, "\n").as_str(), "\n")
}

// ── CD drives ────────────────────────────────────────────────────────────────

/// ASCII white space.
pub open spec fn is_ascii_space(c: char) -> bool {
    c == ' ' || c == '\t' || c == '\n' || c == '\x0c' || c == '\r'
}

fn is_ascii_space_char(c: char) -> (r: bool)
    ensures
        r == is_ascii_space(c),
{
    c == ' ' || c == '\t' || c == '\n' || c == '\x0c' || c == '\r'
}

/// Position `at` of `line` begins a flag of `flag`'s length that stands alone:
/// white space before it, and white space or the end behind it.
pub open spec fn stands_alone(line: Seq<char>, flag: Seq<char>, at: int) -> bool {
    &&& at > 0
    &&& is_ascii_space(line[at - 1])
    &&& at + flag.len() >= line.len() || is_ascii_space(line[at + flag.len()])
}

/// The first `flag` at `from` or later that stands alone, looking past each
/// occurrence that does not.
pub open spec fn flag_from(line: Seq<char>, flag: Seq<char>, from: int) -> Option<int>
    decreases line.len() - from,
{
    match text::find_from(line, flag, from) {
        None => None,
        Some(at) => if stands_alone(line, flag, at) {
            Some(at)
        } else if at < from || flag.len() == 0 || at + flag.len() > line.len() {
            None
        } else {
            flag_from(line, flag, at + flag.len())
        },
    }
}

/// Where the flag `-ide` stands alone in a line.
pub open spec fn ide_flag(line: Seq<char>) -> Option<int> {
    flag_from(line, "-ide"@, 0)
}

/// Two words one behind the other say that an image is a CD.
pub open spec fn names_cd(ws: Seq<Seq<char>>) -> bool {
    exists|i: int|
        0 <= i < ws.len() - 1 && #[trigger] ws[i] == "-t"@ && (ws[i + 1] == "cdrom"@ || ws[i + 1]
            == "iso"@)
}

/// The command on a line, without the `@`s that keep it from being echoed.
pub open spec fn quiet_command(line: Seq<char>) -> Seq<char> {
    text::strip_front(text::trim_start(line), '@')
}

/// The line mounts a CD image.
pub open spec fn mounts_cd(line: Seq<char>) -> bool {
    let cmd = quiet_command(text::lower(line));
    "imgmount"@.is_prefix_of(cmd) && names_cd(text::words(cmd))
}

/// A slot argument of DOSBox-X, such as `2m`: one or two ASCII characters, a
/// digit first.
pub open spec fn is_slot(word: Seq<char>) -> bool {
    &&& 1 <= word.len() <= 2
    &&& text::is_digit(word[0])
    &&& word.len() == 2 ==> (word[1] as u32) < 0x80
}

/// A line that mounts a CD, with the flag and without its slot.
pub open spec fn with_ide(line: Seq<char>) -> Seq<char> {
    match ide_flag(text::lower(line)) {
        None => text::trim_end(line) + " -ide"@,
        Some(at) => {
            let end = at + "-ide"@.len();
            let behind = text::trim_start(line.skip(end));
            let word = text::first_run(behind);
            if is_slot(word) {
                line.take(end) + behind.skip(word.len() as int)
            } else {
                line
            }
        },
    }
}

/// One line of a conf for Staging.
pub open spec fn ide_line(line: Seq<char>) -> Seq<char> {
    if mounts_cd(line) {
        with_ide(line)
    } else {
        line
    }
}

/// A line, not a comment, opens an `[ide…]` section.
pub open spec fn opens_ide(line: Seq<char>) -> bool {
    let t = text::trim(line);
    !("#"@.is_prefix_of(t)) && "[ide"@.is_prefix_of(text::lower(t))
}

/// The conf describes an IDE controller.
pub open spec fn has_ide_section(conf: Seq<char>) -> bool {
    exists|i: int| 0 <= i < text::lines(conf).len() && opens_ide(#[trigger] text::lines(conf)[i])
}

/// The conf with the IDE controller as a flag on every CD mount.
pub open spec fn ide_translated(conf: Seq<char>) -> Seq<char> {
    if !has_ide_section(conf) {
        conf
    } else {
        text::join(Seq::new(text::lines(conf).len(), |i: int| ide_line(text::lines(conf)[i])), "\n"@) + "\n"@
    }
}

/// Where `-ide` stands alone in a line, in bytes: not inside a path or a file name.
pub fn find_ide_flag(lower: &str) -> (r: Option<usize>)
    ensures
        match (r, ide_flag(lower@)) {
            (Some(offset), Some(i)) => offset == vstd::utf8::encode_utf8(lower@.take(i)).len(),
            (None, None) => true,
            _ => false,
        },
{
    let line = chars_of(lower);
    match ide_flag_of(line.as_slice()) {
        Some(i) => {
            let before = string_of(head(line.as_slice(), i));
            Some(before.as_str().as_bytes().len())
        },
        None => None,
    }
}

fn ide_flag_of(line: &[char]) -> (r: Option<usize>)
    ensures
        match r {
            Some(i) => ide_flag(line@) == Some(i as int) && i + 4 <= line@.len(),
            None => ide_flag(line@) is None,
        },
{
    let flag = chars_of("-ide");
    proof {
        reveal_strlit("-ide");
    }
    let n: usize = line.len();
    let mut start: usize = 0;
    loop
        invariant
            n == line@.len(),
            start <= n,
            flag@ == "-ide"@,
            flag@.len() == 4,
            flag_from(line@, "-ide"@, start as int) == ide_flag(line@),
        decreases n - start,
    {
        proof {
            text::lemma_find_from(line@, "-ide"@, start as int);
        }
        match find_pattern(line, flag.as_slice(), start) {
            None => {
                return None;
            },
            Some(at) => {
                let end: usize = at + 4;
                let before_ok = at > 0 && is_ascii_space_char(line[at - 1]);
                let after_ok = end >= n || is_ascii_space_char(line[end]);
                if before_ok && after_ok {
                    return Some(at);
                }
                start = end;
            },
        }
    }
}

fn cd_words(ws: &Vec<String>) -> (r: bool)
    ensures
        r == names_cd(text::texts(ws@)),
{
    let ghost all = text::texts(ws@);
    let mut i: usize = 0;
    let n: usize = ws.len();
    while n >= 1 && i < n - 1
        invariant
            n == ws@.len(),
            i <= n,
            all == text::texts(ws@),
            forall|k: int|
                0 <= k < i && k + 1 < all.len() ==> !(#[trigger] all[k] == "-t"@ && (all[k + 1]
                    == "cdrom"@ || all[k + 1] == "iso"@)),
        decreases ws@.len() - i,
    {
        let second = ws[i + 1].as_str();
        assert(all[i as int] == ws@[i as int]@ && all[i + 1] == ws@[i + 1]@);
        if same(ws[i].as_str(), "-t") && (same(second, "cdrom") || same(second, "iso")) {
            return true;
        }
        i += 1;
    }
    false
}

fn translate_ide_line(line: &[char]) -> (r: Vec<char>)
    ensures
        r@ == ide_line(line@),
{
    let low = to_lower(line);
    let cmd = drop_front(trim_start_of(low.as_slice()), '@');
    let cd = has_prefix(cmd, "imgmount") && cd_words(&words_of(cmd));
    if !cd {
        return text::part(line, 0, line.len());
    }
    proof {
        reveal_strlit("-ide");
    }
    let n: usize = line.len();
    assert(n == low@.len());
    match ide_flag_of(low.as_slice()) {
        None => {
            let stripped = trim_end_of(line);
            let mut out = text::part(stripped, 0, stripped.len());
            let flag = chars_of(" -ide");
            text::append_chars(&mut out, &flag);
            out
        },
        Some(at) => {
            let end: usize = at + 4;
            let behind = trim_start_of(tail(line, end));
            let run: usize = first_run_len(behind);
            let ghost word = text::first_run(behind@);
            assert(word == behind@.take(run as int));
            let slot = (run == 1 || run == 2) && is_digit_char(behind[0]) && (run == 1 || (
            behind[1] as u32) < 0x80);
            if slot {
                let mut out = text::part(line, 0, end);
                let rest = text::part(behind, run, behind.len());
                text::append_chars(&mut out, &rest);
                assert(out@ =~= line@.take(end as int) + behind@.skip(run as int));
                out
            } else {
                text::part(line, 0, line.len())
            }
        },
    }
}

/// DOSBox-X's `[ide]` section becomes Staging's `-ide` flag on the commands that
/// mount a CD image; a slot behind a flag that is there already goes. A conf
/// without such a section comes back as it is.
pub fn translate_ide_for_staging(conf: &str) -> (r: String)
    ensures
        r@ == ide_translated(conf@),
{
    let ls = lines_of(conf);
    let ghost all = text::lines(conf@);
    let mut found: bool = false;
    let mut i: usize = 0;
    while i < ls.len() && !found
        invariant
            i <= ls@.len(),
            text::texts(ls@) == all,
            all == text::lines(conf@),
            found ==> has_ide_section(conf@),
            !found ==> forall|k: int| 0 <= k < i ==> !opens_ide(#[trigger] all[k]),
        decreases ls@.len() - i,
    {
        let line = chars_of(ls[i].as_str());
        assert(line@ == all[i as int]);
        let t = trim_of(line.as_slice());
        if !has_prefix(t, "#") && has_prefix(to_lower(t).as_slice(), "[ide") {
            found = true;
        }
        i += 1;
    }
    if !found {
        return string_of(chars_of(conf).as_slice());
    }
    let mut out: Vec<String> = Vec::new();
    let ghost want = Seq::new(text::lines(conf@).len(), |k: int| ide_line(text::lines(conf@)[k]));
    let mut j: usize = 0;
    while j < ls.len()
        invariant
            j <= ls@.len(),
            text::texts(ls@) == all,
            all == text::lines(conf@),
            want == Seq::new(text::lines(conf@).len(), |k: int| ide_line(text::lines(conf@)[k])),
            text::texts(out@) == want.take(j as int),
        decreases ls@.len() - j,
    {
        let line = chars_of(ls[j].as_str());
        assert(line@ == all[j as int]);
        let ghost done = text::texts(out@);
        let new_line = string_of(translate_ide_line(line.as_slice()).as_slice());
        let ghost w = new_line@;
        out.push(new_line);
        assert(text::texts(out@) =~= done.push(w));
        j += 1;
        assert(text::texts(out@) =~= want.take(j as int));
    }
    assert(want.take(want.len() as int) =~= want);
    text::cat(join_texts(&out, "\n").as_str(), "\n")
}

// ── Laws ─────────────────────────────────────────────────────────────────────

/// A conf without MIDI keys, and one without an IDE controller, comes back as it is.
pub proof fn law_other_confs_stay(conf: Seq<char>)
    ensures
        !needs_midi(conf) ==> midi_translated(conf) == conf,
        !has_ide_section(conf) ==> ide_translated(conf) == conf,
{
}

/// No line of a translated conf is a key that ECE alone knows, or asks for the default
/// device: translated again, each line would stay.
pub proof fn law_ece_keys_are_gone(conf: Seq<char>, i: int)
    requires
        0 <= i < midi_lines(conf).len(),
    ensures
        midi_at(midi_lines(conf), i) == MidiLine::Kept,
{
    let ls = text::lines(conf);
    let n = ls.len() as int;
    let kept = midi_kept(ls, n);
    lemma_kept_stays(ls, n);
    let mt32 = own_section(has_section(conf, "[mt32]"@), "[mt32]"@, "romdir = "@, rom_dir(ls, n));
    let fluid = own_section(
        has_section(conf, "[fluidsynth]"@),
        "[fluidsynth]"@,
        "soundfont = "@,
        sound_font(ls, n),
    );
    reveal_strlit("[mt32]");
    reveal_strlit("[fluidsynth]");
    lemma_section_stays(kept, "[mt32]"@, mt32);
    lemma_section_stays(kept + mt32, "[fluidsynth]"@, fluid);
    assert(midi_lines(conf) =~= kept + mt32 + fluid);
}

/// Every line stays.
pub open spec fn all_stay(ls: Seq<Seq<char>>) -> bool {
    forall|i: int| 0 <= i < ls.len() ==> #[trigger] midi_at(ls, i) == MidiLine::Kept
}

proof fn lemma_section_of_push(ls: Seq<Seq<char>>, line: Seq<char>, n: int)
    requires
        0 <= n <= ls.len(),
    ensures
        section_after(ls.push(line), n) == section_after(ls, n),
    decreases n,
{
    if n > 0 {
        lemma_section_of_push(ls, line, n - 1);
        assert(ls.push(line)[n - 1] == ls[n - 1]);
    }
}

proof fn lemma_push_stays(ls: Seq<Seq<char>>, line: Seq<char>)
    requires
        all_stay(ls),
        midi_line(section_after(ls, ls.len() as int), line) == MidiLine::Kept,
    ensures
        all_stay(ls.push(line)),
        section_after(ls.push(line), ls.len() as int + 1) == (if is_header(line) {
            text::lower(text::trim(line))
        } else {
            section_after(ls, ls.len() as int)
        }),
{
    let more = ls.push(line);
    lemma_section_of_push(ls, line, ls.len() as int);
    assert(more[ls.len() as int] == line);
    assert forall|i: int| 0 <= i < more.len() implies #[trigger] midi_at(more, i)
        == MidiLine::Kept by {
        lemma_section_of_push(ls, line, i);
        if i < ls.len() {
            assert(more[i] == ls[i]);
            assert(midi_at(ls, i) == MidiLine::Kept);
        }
    }
}

proof fn lemma_auto_stays(section: Seq<char>)
    ensures
        midi_line(section, "mididevice = auto"@) == MidiLine::Kept,
        !is_header("mididevice = auto"@),
{
    let line = "mididevice = auto"@;
    reveal_strlit("mididevice = auto");
    reveal_strlit("[");
    reveal_strlit("mt32.romdir");
    reveal_strlit("fluid.soundfont");
    reveal_strlit("mt32.");
    reveal_strlit("fluid.");
    reveal_strlit("default");
    reveal_with_fuel(text::drop_leading, 2);
    reveal_with_fuel(text::drop_trailing, 2);
    assert(text::trim(line) == line);
    text::lemma_char_from(line, '=', 0);
    assert(line[11] == '=');
    let (k, v) = text::split_once(line, '=')->0;
    assert(k == line.take(11));
    assert(v == line.skip(12));
    assert(k.drop_last() =~= line.take(10));
    assert(text::trim_start(k) == k);
    assert(text::trim(k) == line.take(10));
    assert(v.skip(1) =~= line.skip(13));
    assert(text::trim_start(v) == line.skip(13));
    assert(text::trim(v) == line.skip(13));
    let key = text::lower(text::trim(k));
    assert(key[0] == 'm' && key[1] == 'i');
    assert("mt32.romdir"@[1] == 't' && "fluid.soundfont"@[0] == 'f');
    if "mt32."@.is_prefix_of(key) {
        assert("mt32."@[1] == key.subrange(0, 5)[1]);
    }
    if "fluid."@.is_prefix_of(key) {
        assert("fluid."@[0] == key.subrange(0, 6)[0]);
    }
    assert(text::lower(text::trim(v)).len() == 4);
    assert(text::lower("default"@).len() == 7);
}

proof fn lemma_kept_stays(ls: Seq<Seq<char>>, n: int)
    requires
        0 <= n <= ls.len(),
    ensures
        all_stay(midi_kept(ls, n)),
        section_after(midi_kept(ls, n), midi_kept(ls, n).len() as int) == section_after(ls, n),
    decreases n,
{
    if n > 0 {
        lemma_kept_stays(ls, n - 1);
        let before = midi_kept(ls, n - 1);
        match midi_at(ls, n - 1) {
            MidiLine::Kept => {
                lemma_push_stays(before, ls[n - 1]);
            },
            MidiLine::AutoDevice => {
                lemma_auto_stays(section_after(ls, n - 1));
                lemma_push_stays(before, "mididevice = auto"@);
            },
            _ => {},
        }
    }
}

proof fn lemma_section_stays(ls: Seq<Seq<char>>, header: Seq<char>, own: Seq<Seq<char>>)
    requires
        all_stay(ls),
        header == "[mt32]"@ || header == "[fluidsynth]"@,
        own.len() == 0 || (own.len() == 3 && own[0].len() == 0 && own[1] == header),
    ensures
        all_stay(ls + own),
{
    if own.len() == 0 {
        assert(ls + own =~= ls);
    } else {
        reveal_strlit("[");
        reveal_strlit("#");
        reveal_strlit("[mt32]");
        reveal_strlit("[fluidsynth]");
        reveal_strlit("[midi]");
        reveal_with_fuel(text::drop_leading, 2);
        reveal_with_fuel(text::drop_trailing, 2);
        assert(text::trim(own[0]) =~= Seq::<char>::empty());
        text::lemma_char_from(text::trim(own[0]), '=', 0);
        assert(midi_line(section_after(ls, ls.len() as int), own[0]) == MidiLine::Kept);
        lemma_push_stays(ls, own[0]);
        let one = ls.push(own[0]);
        assert(text::trim(header) == header);
        assert(is_header(header));
        lemma_push_stays(one, header);
        let two = one.push(header);
        assert(text::lower(header)[1] == header[1] && text::lower(header)[2] == header[2]);
        assert("[midi]"@[1] == 'm' && "[midi]"@[2] == 'i');
        assert(text::lower(header) != "[midi]"@);
        lemma_push_stays(two, own[2]);
        assert(ls + own =~= two.push(own[2]));
    }
}

/// What stands behind the slot of a flag, if anything does, is a blank, a tab or the
/// like.
pub open spec fn slot_ends_plainly(line: Seq<char>) -> bool {
    match ide_flag(text::lower(line)) {
        Some(at) => {
            let behind = text::trim_start(line.skip(at + "-ide"@.len()));
            let word = text::first_run(behind);
            is_slot(word) && word.len() < behind.len() ==> is_ascii_space(behind[word.len() as int])
        },
        None => true,
    }
}

/// Every line that mounts a CD has the flag once it is translated, so that the guest
/// finds its drive.
pub proof fn law_every_cd_mount_has_the_flag(line: Seq<char>)
    requires
        mounts_cd(line),
        slot_ends_plainly(line),
    ensures
        ide_flag(text::lower(ide_line(line))) is Some,
{
    reveal_strlit("-ide");
    reveal_strlit(" -ide");
    let flag = "-ide"@;
    let out = ide_line(line);
    let low = text::lower(out);
    match ide_flag(text::lower(line)) {
        None => {
            let p = text::trim_end(line).len() as int + 1;
            assert(out.len() == p + 4);
            assert(out[p - 1] == ' ');
            assert(low[p - 1] == ' ');
            assert(low[p] == '-' && low[p + 1] == 'i' && low[p + 2] == 'd' && low[p + 3] == 'e');
            assert(low.subrange(p, p + 4) =~= flag);
            lemma_flag_found(low, p, 0);
        },
        Some(at) => {
            lemma_flag_stands(text::lower(line), 0);
            let end = at + 4;
            let behind = text::trim_start(line.skip(end));
            let word = text::first_run(behind);
            if is_slot(word) {
                lemma_first_run(behind);
                assert(out == line.take(end) + behind.skip(word.len() as int));
                let was = text::lower(line);
                assert(was.subrange(at, end) =~= flag);
                assert forall|i: int| 0 <= i < end implies #[trigger] low[i] == was[i] by {
                    assert(out[i] == line[i]);
                }
                assert(low.subrange(at, end) =~= flag);
                if end < low.len() {
                    assert(out[end] == behind[word.len() as int]);
                    assert(low[end] == out[end]);
                }
                lemma_flag_found(low, at, 0);
            }
        },
    }
}

proof fn lemma_first_run(s: Seq<char>)
    ensures
        text::first_run(s).len() <= s.len(),
    decreases s.len(),
{
    if s.len() > 0 && !text::is_space(s[0]) {
        lemma_first_run(s.skip(1));
    }
}

proof fn lemma_flag_stands(line: Seq<char>, from: int)
    requires
        0 <= from,
    ensures
        flag_from(line, "-ide"@, from) matches Some(at) ==> from <= at && text::occurs_at(
            line,
            "-ide"@,
            at,
        ) && stands_alone(line, "-ide"@, at),
    decreases line.len() - from,
{
    reveal_strlit("-ide");
    text::lemma_find_from(line, "-ide"@, from);
    if let Some(at) = text::find_from(line, "-ide"@, from) {
        if !stands_alone(line, "-ide"@, at) && at + 4 <= line.len() {
            lemma_flag_stands(line, at + 4);
        }
    }
}

proof fn lemma_flag_found(line: Seq<char>, p: int, from: int)
    requires
        0 <= from <= p,
        text::occurs_at(line, "-ide"@, p),
        stands_alone(line, "-ide"@, p),
    ensures
        flag_from(line, "-ide"@, from) is Some,
    decreases line.len() - from,
{
    reveal_strlit("-ide");
    let flag = "-ide"@;
    text::lemma_find_from(line, flag, from);
    let at = text::find_from(line, flag, from)->0;
    if !stands_alone(line, flag, at) {
        assert(line.subrange(p, p + 4)[0] == '-');
        assert(line.subrange(at, at + 4)[0] == '-');
        assert(line.subrange(at, at + 4)[1] == 'i');
        assert(line.subrange(at, at + 4)[2] == 'd');
        assert(line.subrange(at, at + 4)[3] == 'e');
        assert(line[p] == '-' && line[at + 1] == 'i' && line[at + 2] == 'd' && line[at + 3] == 'e');
        lemma_flag_found(line, p, at + 4);
    }
}

/// Translating the MIDI keys twice is translating them once. The conf has no carriage
/// returns: one at the end of a last line without a line feed goes the second time.
pub proof fn law_midi_translation_is_idempotent(conf: Seq<char>)
    requires
        !conf.contains('\r'),
    ensures
        midi_translated(midi_translated(conf)) == midi_translated(conf),
{
    if needs_midi(conf) {
        let ls = midi_lines(conf);
        let out = midi_translated(conf);
        lemma_midi_lines_plain(conf);
        text::lemma_lines_of_join(ls);
        assert(text::lines(out) == ls);
        assert forall|i: int| 0 <= i < ls.len() implies #[trigger] midi_at(ls, i)
            == MidiLine::Kept by {
            law_ece_keys_are_gone(conf, i);
        }
        lemma_all_kept(ls, ls.len() as int);
        assert(ls.take(ls.len() as int) =~= ls);
        assert(midi_lines(out) =~= ls);
    }
}

proof fn lemma_all_kept(ls: Seq<Seq<char>>, n: int)
    requires
        all_stay(ls),
        0 <= n <= ls.len(),
    ensures
        midi_kept(ls, n) == ls.take(n),
        rom_dir(ls, n) is None,
        sound_font(ls, n) is None,
    decreases n,
{
    if n > 0 {
        lemma_all_kept(ls, n - 1);
        assert(midi_at(ls, n - 1) == MidiLine::Kept);
        assert(ls.take(n - 1).push(ls[n - 1]) =~= ls.take(n));
    } else {
        assert(ls.take(0) =~= Seq::<Seq<char>>::empty());
    }
}

proof fn lemma_value_plain(section: Seq<char>, line: Seq<char>)
    requires
        text::is_plain_line(line),
    ensures
        midi_line(section, line) matches MidiLine::RomDir(v) ==> text::is_plain_line(v),
        midi_line(section, line) matches MidiLine::SoundFont(v) ==> text::is_plain_line(v),
{
    let t = text::trim(line);
    text::lemma_trim_plain(line);
    text::lemma_char_from(t, '=', 0);
    if let Some(i) = text::char_from(t, '=', 0) {
        let v = t.skip(i + 1);
        text::lemma_part_plain(t, i + 1, t.len() as int);
        assert(v =~= t.subrange(i + 1, t.len() as int));
        text::lemma_trim_plain(v);
    }
}

proof fn lemma_midi_kept_plain(ls: Seq<Seq<char>>, n: int)
    requires
        0 <= n <= ls.len(),
        forall|i: int| 0 <= i < ls.len() ==> text::is_plain_line(#[trigger] ls[i]),
    ensures
        forall|i: int|
            0 <= i < midi_kept(ls, n).len() ==> text::is_plain_line(#[trigger] midi_kept(ls, n)[i]),
        n > 0 ==> midi_kept(ls, n).len() > 0,
        rom_dir(ls, n) matches Some(v) ==> text::is_plain_line(v),
        sound_font(ls, n) matches Some(v) ==> text::is_plain_line(v),
    decreases n,
{
    if n > 0 {
        lemma_midi_kept_plain(ls, n - 1);
        assert(text::is_plain_line(ls[n - 1]));
        lemma_value_plain(section_after(ls, n - 1), ls[n - 1]);
        reveal_strlit("mididevice = auto");
        reveal_strlit("[midi]");
        assert(text::is_plain_line("mididevice = auto"@));
        if n == 1 {
            assert(section_after(ls, 0).len() == 0 && "[midi]"@.len() == 6);
            assert(midi_at(ls, 0) == MidiLine::Kept);
        }
    }
}

proof fn lemma_midi_lines_plain(conf: Seq<char>)
    requires
        needs_midi(conf),
        !conf.contains('\r'),
    ensures
        midi_lines(conf).len() > 0,
        forall|i: int|
            0 <= i < midi_lines(conf).len() ==> text::is_plain_line(#[trigger] midi_lines(conf)[i]),
{
    let ls = text::lines(conf);
    let n = ls.len() as int;
    text::lemma_lines_plain(conf);
    lemma_midi_kept_plain(ls, n);
    lemma_some_line(conf);
    let kept = midi_kept(ls, n);
    let mt32 = own_section(has_section(conf, "[mt32]"@), "[mt32]"@, "romdir = "@, rom_dir(ls, n));
    let fluid = own_section(
        has_section(conf, "[fluidsynth]"@),
        "[fluidsynth]"@,
        "soundfont = "@,
        sound_font(ls, n),
    );
    reveal_strlit("[mt32]");
    reveal_strlit("[fluidsynth]");
    reveal_strlit("romdir = ");
    reveal_strlit("soundfont = ");
    assert(text::is_plain_line("[mt32]"@) && text::is_plain_line("[fluidsynth]"@));
    assert(text::is_plain_line("romdir = "@) && text::is_plain_line("soundfont = "@));
    if let Some(v) = rom_dir(ls, n) {
        text::lemma_add_plain("romdir = "@, v);
    }
    if let Some(v) = sound_font(ls, n) {
        text::lemma_add_plain("soundfont = "@, v);
    }
    let all = kept + mt32 + fluid;
    assert(midi_lines(conf) == all);
    assert forall|i: int| 0 <= i < all.len() implies text::is_plain_line(#[trigger] all[i]) by {
        if i < kept.len() {
            assert(all[i] == kept[i]);
        } else if i < kept.len() + mt32.len() {
            assert(all[i] == mt32[i - kept.len()]);
        } else {
            assert(all[i] == fluid[i - kept.len() - mt32.len()]);
        }
    }
}

/// A conf that holds a MIDI key has a line.
proof fn lemma_some_line(conf: Seq<char>)
    requires
        needs_midi(conf),
    ensures
        text::lines(conf).len() > 0,
{
    reveal_strlit("mt32.");
    reveal_strlit("fluid.");
    reveal_strlit("mididevice");
    if conf.len() == 0 {
        let low = text::lower(conf);
        text::lemma_find_from(low, "mt32."@, 0);
        text::lemma_find_from(low, "fluid."@, 0);
        text::lemma_find_from(low, "mididevice"@, 0);
        assert(false);
    }
    text::lemma_split_some(conf.drop_last(), '\n');
}

/// A slot stands behind the first slot of a flag, or something that is no ASCII white
/// space ends it.
pub open spec fn has_odd_slot(line: Seq<char>) -> bool {
    match ide_flag(text::lower(line)) {
        Some(at) => {
            let behind = text::trim_start(line.skip(at + "-ide"@.len()));
            let word = text::first_run(behind);
            let rest = behind.skip(word.len() as int);
            is_slot(word) && (!slot_ends_plainly(line) || is_slot(
                text::first_run(text::trim_start(rest)),
            ))
        },
        None => false,
    }
}

/// Translating the IDE controller twice is translating it once: the flag is never added
/// twice. The conf has no carriage returns, and no flag of a line that mounts a CD has a
/// second slot, of which one would go each time, or a slot that something other than
/// ASCII white space ends.
pub proof fn law_ide_translation_is_idempotent(conf: Seq<char>)
    requires
        !conf.contains('\r'),
        forall|i: int|
            0 <= i < text::lines(conf).len() && mounts_cd(#[trigger] text::lines(conf)[i])
                ==> !has_odd_slot(text::lines(conf)[i]),
    ensures
        ide_translated(ide_translated(conf)) == ide_translated(conf),
{
    if has_ide_section(conf) {
        let ls = text::lines(conf);
        let new = Seq::new(ls.len(), |i: int| ide_line(ls[i]));
        let out = ide_translated(conf);
        text::lemma_lines_plain(conf);
        assert forall|i: int| 0 <= i < new.len() implies text::is_plain_line(#[trigger] new[i])
            && ide_line(new[i]) == new[i] by {
            assert(text::is_plain_line(ls[i]));
            lemma_ide_line_plain(ls[i]);
            lemma_ide_line_once(ls[i]);
        }
        text::lemma_lines_of_join(new);
        assert(text::lines(out) == new);
        assert(Seq::new(new.len(), |i: int| ide_line(new[i])) =~= new);
        assert(Seq::new(
            text::lines(out).len(),
            |i: int| ide_line(text::lines(out)[i]),
        ) =~= new);
    }
}

proof fn lemma_ide_line_plain(line: Seq<char>)
    requires
        text::is_plain_line(line),
    ensures
        text::is_plain_line(ide_line(line)),
{
    reveal_strlit("-ide");
    reveal_strlit(" -ide");
    lemma_flag_stands(text::lower(line), 0);
    match ide_flag(text::lower(line)) {
        None => {
            text::lemma_trim_plain(line);
            assert(text::is_plain_line(" -ide"@));
            text::lemma_add_plain(text::trim_end(line), " -ide"@);
        },
        Some(at) => {
            let end = at + 4;
            text::lemma_part_plain(line, 0, end);
            assert(line.take(end) =~= line.subrange(0, end));
            text::lemma_part_plain(line, end, line.len() as int);
            assert(line.skip(end) =~= line.subrange(end, line.len() as int));
            text::lemma_trim_plain(line.skip(end));
            let behind = text::trim_start(line.skip(end));
            let word = text::first_run(behind);
            lemma_first_run(behind);
            text::lemma_part_plain(behind, word.len() as int, behind.len() as int);
            assert(behind.skip(word.len() as int) =~= behind.subrange(
                word.len() as int,
                behind.len() as int,
            ));
            text::lemma_add_plain(line.take(end), behind.skip(word.len() as int));
        },
    }
}

/// A flag that stands alone in both lines is the first one in both, where the lines are
/// the same up to its end.
proof fn lemma_same_flag(a: Seq<char>, b: Seq<char>, at: int, from: int)
    requires
        0 <= from,
        flag_from(a, "-ide"@, from) == Some(at),
        at + 4 <= a.len(),
        at + 4 <= b.len(),
        forall|i: int| 0 <= i < at + 4 ==> #[trigger] a[i] == b[i],
        stands_alone(b, "-ide"@, at),
    ensures
        flag_from(b, "-ide"@, from) == Some(at),
    decreases a.len() - from,
{
    reveal_strlit("-ide");
    let flag = "-ide"@;
    text::lemma_find_from(a, flag, from);
    text::lemma_find_from(b, flag, from);
    lemma_flag_stands(a, from);
    let x = text::find_from(a, flag, from)->0;
    assert forall|k: int| 0 <= k <= at implies text::occurs_at(a, flag, k) == text::occurs_at(
        b,
        flag,
        k,
    ) by {
        assert(a.subrange(k, k + 4) =~= b.subrange(k, k + 4));
    }
    assert(text::occurs_at(b, flag, at));
    if x < at {
        if !stands_alone(a, flag, x) {
            lemma_flag_stands(a, x + 4);
            assert(x + 4 <= at);
            assert(text::find_from(b, flag, from) == Some(x));
            assert(!stands_alone(b, flag, x));
            lemma_same_flag(a, b, at, x + 4);
        }
    } else {
        assert(x == at) by {
            if x > at {
                assert(!text::occurs_at(a, flag, at));
            }
        }
        assert(text::find_from(b, flag, from) == Some(at));
    }
}

proof fn lemma_ide_line_once(line: Seq<char>)
    requires
        mounts_cd(line) ==> !has_odd_slot(line),
    ensures
        ide_line(ide_line(line)) == ide_line(line),
{
    reveal_strlit("-ide");
    reveal_strlit(" -ide");
    let flag = "-ide"@;
    let out = ide_line(line);
    if mounts_cd(line) && mounts_cd(out) {
        let was = text::lower(line);
        let low = text::lower(out);
        match ide_flag(was) {
            None => {
                let short = text::trim_end(line);
                lemma_trimmed(line, |c: char| text::is_space(c));
                let p = short.len() as int + 1;
                assert(out[p - 1] == ' ');
                assert(low[p - 1] == ' ');
                assert(low[p] == '-' && low[p + 1] == 'i' && low[p + 2] == 'd' && low[p + 3] == 'e');
                assert(low.subrange(p, p + 4) =~= flag);
                lemma_flag_found(low, p, 0);
                lemma_flag_stands(low, 0);
                let at = ide_flag(low)->0;
                let behind = text::trim_start(out.skip(at + 4));
                let word = text::first_run(behind);
                if at == p {
                    assert(out.skip(at + 4) =~= Seq::<char>::empty());
                    assert(behind =~= Seq::<char>::empty());
                } else {
                    assert(low.subrange(at, at + 4)[0] == '-');
                    assert(low.subrange(at, at + 4)[1] == 'i');
                    assert(low.subrange(at, at + 4)[2] == 'd');
                    assert(low.subrange(at, at + 4)[3] == 'e');
                    assert(low[at] == '-' && low[at + 1] == 'i' && low[at + 2] == 'd' && low[at + 3]
                        == 'e');
                    assert(at + 4 <= p - 1);
                    assert forall|i: int| 0 <= i < short.len() implies #[trigger] low[i]
                        == was[i] by {
                        assert(out[i] == short[i]);
                    }
                    assert(was.subrange(at, at + 4) =~= flag);
                    if at + 4 < short.len() {
                        assert(stands_alone(was, flag, at));
                        lemma_flag_found(was, at, 0);
                        assert(false);
                    }
                    let rest = out.skip(at + 4);
                    assert(rest =~= " -ide"@);
                    assert(rest.skip(1) =~= flag);
                    reveal_with_fuel(text::drop_leading, 3);
                    assert(text::is_space(' ') && !text::is_space('-'));
                    assert(behind =~= flag);
                    reveal_with_fuel(text::first_run, 5);
                    assert(word.len() >= 3) by {
                        assert(!text::is_space('i') && !text::is_space('d') && !text::is_space('e'));
                        assert(flag.skip(1)[0] == 'i');
                        assert(flag.skip(1).skip(1)[0] == 'd');
                    }
                }
                assert(!is_slot(word));
            },
            Some(at) => {
                lemma_flag_stands(was, 0);
                let end = at + 4;
                let behind = text::trim_start(line.skip(end));
                let word = text::first_run(behind);
                if is_slot(word) {
                    lemma_first_run(behind);
                    let rest = behind.skip(word.len() as int);
                    assert(out == line.take(end) + rest);
                    assert forall|i: int| 0 <= i < end implies #[trigger] was[i] == low[i] by {
                        assert(out[i] == line[i]);
                    }
                    if end < low.len() {
                        assert(out[end] == behind[word.len() as int]);
                        assert(low[end] == out[end]);
                    }
                    lemma_same_flag(was, low, at, 0);
                    assert(out.skip(end) =~= rest);
                }
            },
        }
    }
}

proof fn lemma_trimmed(s: Seq<char>, set: spec_fn(char) -> bool)
    ensures
        text::drop_trailing(s, set).len() <= s.len(),
        forall|i: int|
            0 <= i < text::drop_trailing(s, set).len() ==> #[trigger] text::drop_trailing(s, set)[i]
                == s[i],
    decreases s.len(),
{
    if s.len() > 0 && set(s.last()) {
        lemma_trimmed(s.drop_last(), set);
    }
}

// What Staging reads of a translated conf

/// Line `i` stands in the section whose header is line `h`.
pub open spec fn stands_under(ls: Seq<Seq<char>>, h: int, i: int) -> bool {
    &&& 0 <= h < i < ls.len()
    &&& "["@.is_prefix_of(text::trim(ls[h]))
    &&& forall|k: int| h < k <= i ==> !"["@.is_prefix_of(text::trim(#[trigger] ls[k]))
}

/// Line `i` stands in a `[midi]` section, capitals aside.
pub open spec fn under_midi(ls: Seq<Seq<char>>, i: int) -> bool {
    exists|h: int| #[trigger]
        stands_under(ls, h, i) && text::lower(text::trim(ls[h])) == "[midi]"@
}

/// The key that a line sets, in small letters, and the value that it sets it to.
pub open spec fn key_and_value(line: Seq<char>) -> Option<(Seq<char>, Seq<char>)> {
    match text::split_once(text::trim(line), '=') {
        Some((k, v)) => Some((text::lower(text::trim(k)), text::trim(v))),
        None => None,
    }
}

/// In every conf that Staging is given, no line of a `[midi]` section sets a key of
/// ECE's, and none asks for the device `default`, which Staging does not know.
pub proof fn law_staging_knows_every_midi_key(conf: Seq<char>, i: int)
    requires
        under_midi(text::lines(midi_translated(conf)), i),
    ensures
        key_and_value(text::lines(midi_translated(conf))[i]) matches Some((key, value)) ==> {
            &&& !"mt32."@.is_prefix_of(key)
            &&& !"fluid."@.is_prefix_of(key)
            &&& !(key == "mididevice"@ && text::lower(value) == "default"@)
        },
{
    let ls = text::lines(midi_translated(conf));
    lemma_default_is_small();
    if key_and_value(ls[i]) is Some {
        let (key, value) = key_and_value(ls[i])->0;
        if needs_midi(conf) {
            let out = midi_lines(conf);
            lemma_midi_lines_feed(conf);
            text::lemma_lines_of_joined(out);
            assert(ls == Seq::new(out.len(), |k: int| text::strip_cr(out[k])));
            assert forall|k: int| 0 <= k < ls.len() implies text::trim(#[trigger] ls[k])
                == text::trim(out[k]) by {
                text::lemma_trim_cr(out[k]);
            }
            let h = choose|h: int| #[trigger]
                stands_under(ls, h, i) && text::lower(text::trim(ls[h])) == "[midi]"@;
            assert(stands_under(out, h, i)) by {
                assert(text::trim(ls[h]) == text::trim(out[h]));
                assert forall|k: int| h < k <= i implies !"["@.is_prefix_of(
                    text::trim(#[trigger] out[k]),
                ) by {
                    assert(!"["@.is_prefix_of(text::trim(ls[k])));
                }
            }
            lemma_section_under(out, h, i);
            law_ece_keys_are_gone(conf, i);
            if "#"@.is_prefix_of(text::trim(out[i])) {
                lemma_comment_key(out[i]);
            }
            assert(text::trim(ls[i]) == text::trim(out[i]));
            assert(!"["@.is_prefix_of(text::trim(out[i])));
        } else {
            lemma_key_in_conf(conf, i);
            reveal_strlit("mididevice");
            if "mt32."@.is_prefix_of(key) {
                assert(key.subrange(0, "mt32."@.len() as int) =~= "mt32."@);
                text::lemma_has(key, "mt32."@, 0);
            }
            if "fluid."@.is_prefix_of(key) {
                assert(key.subrange(0, "fluid."@.len() as int) =~= "fluid."@);
                text::lemma_has(key, "fluid."@, 0);
            }
            if key == "mididevice"@ {
                assert(key.subrange(0, key.len() as int) =~= "mididevice"@);
                text::lemma_has(key, "mididevice"@, 0);
            }
        }
    }
}

proof fn lemma_default_is_small()
    ensures
        text::lower("default"@) == "default"@,
{
    reveal_strlit("default");
    assert(text::lower("default"@) =~= "default"@);
}

/// The header in force at a line is the one that the line stands under.
proof fn lemma_section_under(ls: Seq<Seq<char>>, h: int, i: int)
    requires
        stands_under(ls, h, i),
    ensures
        section_after(ls, i) == text::lower(text::trim(ls[h])),
    decreases i - h,
{
    if i > h + 1 {
        assert(!"["@.is_prefix_of(text::trim(ls[i - 1])));
        assert(stands_under(ls, h, i - 1)) by {
            assert forall|k: int| h < k <= i - 1 implies !"["@.is_prefix_of(
                text::trim(#[trigger] ls[k]),
            ) by {}
        }
        lemma_section_under(ls, h, i - 1);
    }
}

/// A line in no section that has the header, or in one that has it, as `section_after`
/// says.
proof fn lemma_header_found(ls: Seq<Seq<char>>, n: int) -> (h: int)
    requires
        0 <= n <= ls.len(),
        section_after(ls, n).len() > 0,
    ensures
        0 <= h < n,
        "["@.is_prefix_of(text::trim(ls[h])),
        section_after(ls, n) == text::lower(text::trim(ls[h])),
        forall|k: int| h < k < n ==> !"["@.is_prefix_of(text::trim(#[trigger] ls[k])),
    decreases n,
{
    if is_header(ls[n - 1]) {
        n - 1
    } else {
        lemma_header_found(ls, n - 1)
    }
}

/// A line that begins with `#` sets a key that begins with it.
proof fn lemma_comment_key(line: Seq<char>)
    requires
        "#"@.is_prefix_of(text::trim(line)),
    ensures
        key_and_value(line) matches Some((key, value)) ==> !"mt32."@.is_prefix_of(key)
            && !"fluid."@.is_prefix_of(key) && key != "mididevice"@,
{
    reveal_strlit("#");
    reveal_strlit("mt32.");
    reveal_strlit("fluid.");
    reveal_strlit("mididevice");
    let t = text::trim(line);
    assert(t[0] == "#"@[0]);
    text::lemma_char_from(t, '=', 0);
    if let Some(p) = text::char_from(t, '=', 0) {
        let k = t.take(p);
        assert(p > 0);
        assert(k[0] == '#');
        assert(!text::is_space('#'));
        assert(text::trim_start(k) == k);
        lemma_trimmed(k, |c: char| text::is_space(c));
        lemma_first_stays(k);
        let key = text::lower(text::trim(k));
        assert(key[0] == '#');
        if "mt32."@.is_prefix_of(key) {
            assert(key.take(5)[0] == "mt32."@[0]);
        }
        if "fluid."@.is_prefix_of(key) {
            assert(key.take(6)[0] == "fluid."@[0]);
        }
    }
}

proof fn lemma_first_stays(s: Seq<char>)
    requires
        s.len() > 0,
        !text::is_space(s[0]),
    ensures
        text::trim_end(s).len() > 0,
    decreases s.len(),
{
    if text::is_space(s.last()) {
        lemma_first_stays(s.drop_last());
    }
}

/// What a key of a conf has, the conf has in small letters.
proof fn lemma_key_in_conf(conf: Seq<char>, i: int)
    requires
        0 <= i < text::lines(conf).len(),
        key_and_value(text::lines(conf)[i]) is Some,
    ensures
        forall|pattern: Seq<char>| #[trigger]
            text::has((key_and_value(text::lines(conf)[i])->0).0, pattern) ==> text::has(
                text::lower(conf),
                pattern,
            ),
{
    let line = text::lines(conf)[i];
    let t = text::trim(line);
    text::lemma_char_from(t, '=', 0);
    let p = text::char_from(t, '=', 0)->0;
    let k = t.take(p);
    let bare = text::trim(k);
    let key = text::lower(bare);
    let a = text::lemma_line_part(conf, i);
    let b = text::lemma_trim_part(line);
    let c = text::lemma_trim_part(k);
    assert(text::occurs_at(t, k, 0)) by {
        assert(t.subrange(0, p) =~= k);
    }
    assert forall|pattern: Seq<char>| #[trigger] text::has(key, pattern) implies text::has(
        text::lower(conf),
        pattern,
    ) by {
        text::lemma_lower_part(k, bare, c);
        text::lemma_has_part(text::lower(k), key, c, pattern);
        text::lemma_lower_part(t, k, 0);
        text::lemma_has_part(text::lower(t), text::lower(k), 0, pattern);
        text::lemma_lower_part(line, t, b);
        text::lemma_has_part(text::lower(line), text::lower(t), b, pattern);
        text::lemma_lower_part(conf, line, a);
        text::lemma_has_part(text::lower(conf), text::lower(line), a, pattern);
    }
}

/// The value that a line sets has no line feed.
proof fn lemma_value_feed(line: Seq<char>)
    requires
        !line.contains('\n'),
    ensures
        key_and_value(line) matches Some((key, value)) ==> !value.contains('\n'),
{
    let t = text::trim(line);
    text::lemma_char_from(t, '=', 0);
    if let Some(p) = text::char_from(t, '=', 0) {
        let v = t.skip(p + 1);
        let value = text::trim(v);
        let a = text::lemma_trim_part(line);
        let b = text::lemma_trim_part(v);
        if value.contains('\n') {
            let k = choose|k: int| 0 <= k < value.len() && value[k] == '\n';
            assert(v.subrange(b, b + value.len())[k] == v[b + k]);
            assert(line.subrange(a, a + t.len())[p + 1 + b + k] == line[a + p + 1 + b + k]);
            assert(line[a + p + 1 + b + k] == '\n');
        }
    }
}

proof fn lemma_midi_kept_feed(ls: Seq<Seq<char>>, n: int)
    requires
        0 <= n <= ls.len(),
        forall|i: int| 0 <= i < ls.len() ==> !(#[trigger] ls[i]).contains('\n'),
    ensures
        forall|i: int|
            0 <= i < midi_kept(ls, n).len() ==> !(#[trigger] midi_kept(ls, n)[i]).contains('\n'),
        n > 0 ==> midi_kept(ls, n).len() > 0,
        rom_dir(ls, n) matches Some(v) ==> !v.contains('\n'),
        sound_font(ls, n) matches Some(v) ==> !v.contains('\n'),
    decreases n,
{
    if n > 0 {
        lemma_midi_kept_feed(ls, n - 1);
        assert(!ls[n - 1].contains('\n'));
        lemma_value_feed(ls[n - 1]);
        reveal_strlit("mididevice = auto");
        reveal_strlit("[midi]");
        assert(!"mididevice = auto"@.contains('\n'));
        if n == 1 {
            assert(section_after(ls, 0).len() == 0 && "[midi]"@.len() == 6);
            assert(midi_at(ls, 0) == MidiLine::Kept);
        }
    }
}

proof fn lemma_added_feed(key: Seq<char>, v: Seq<char>)
    requires
        !key.contains('\n'),
        !v.contains('\n'),
    ensures
        !(key + v).contains('\n'),
{
    let s = key + v;
    if s.contains('\n') {
        let k = choose|k: int| 0 <= k < s.len() && s[k] == '\n';
        if k < key.len() {
            assert(key[k] == '\n');
        } else {
            assert(v[k - key.len()] == '\n');
        }
    }
}

/// The lines of a translated conf have no line feeds, and there is one.
proof fn lemma_midi_lines_feed(conf: Seq<char>)
    requires
        needs_midi(conf),
    ensures
        midi_lines(conf).len() > 0,
        forall|i: int|
            0 <= i < midi_lines(conf).len() ==> !(#[trigger] midi_lines(conf)[i]).contains('\n'),
{
    let ls = text::lines(conf);
    let n = ls.len() as int;
    text::lemma_lines_have_no_feed(conf);
    lemma_midi_kept_feed(ls, n);
    lemma_some_line(conf);
    let kept = midi_kept(ls, n);
    let mt32 = own_section(has_section(conf, "[mt32]"@), "[mt32]"@, "romdir = "@, rom_dir(ls, n));
    let fluid = own_section(
        has_section(conf, "[fluidsynth]"@),
        "[fluidsynth]"@,
        "soundfont = "@,
        sound_font(ls, n),
    );
    reveal_strlit("[mt32]");
    reveal_strlit("[fluidsynth]");
    reveal_strlit("romdir = ");
    reveal_strlit("soundfont = ");
    assert(!"[mt32]"@.contains('\n') && !"[fluidsynth]"@.contains('\n'));
    assert(!"romdir = "@.contains('\n') && !"soundfont = "@.contains('\n'));
    if let Some(v) = rom_dir(ls, n) {
        lemma_added_feed("romdir = "@, v);
    }
    if let Some(v) = sound_font(ls, n) {
        lemma_added_feed("soundfont = "@, v);
    }
    let all = kept + mt32 + fluid;
    assert(midi_lines(conf) == all);
    assert forall|i: int| 0 <= i < all.len() implies !(#[trigger] all[i]).contains('\n') by {
        if i < kept.len() {
            assert(all[i] == kept[i]);
        } else if i < kept.len() + mt32.len() {
            assert(all[i] == mt32[i - kept.len()]);
        } else {
            assert(all[i] == fluid[i - kept.len() - mt32.len()]);
        }
    }
}

/// Line `i` sets something that Staging does not know: a key of ECE's, or the device
/// `default`.
pub open spec fn is_ece_line(ls: Seq<Seq<char>>, i: int) -> bool {
    under_midi(ls, i) && match key_and_value(ls[i]) {
        Some((key, value)) => "mt32."@.is_prefix_of(key) || "fluid."@.is_prefix_of(key) || (key
            == "mididevice"@ && text::lower(value) == "default"@),
        None => false,
    }
}

/// What becomes of a line in a `[midi]` section.
proof fn lemma_under_midi(ls: Seq<Seq<char>>, i: int)
    requires
        under_midi(ls, i),
    ensures
        section_after(ls, i) == "[midi]"@,
        !is_header(ls[i]),
        is_ece_line(ls, i) ==> !"#"@.is_prefix_of(text::trim(ls[i])),
{
    let h = choose|h: int| #[trigger]
        stands_under(ls, h, i) && text::lower(text::trim(ls[h])) == "[midi]"@;
    lemma_section_under(ls, h, i);
    assert(!"["@.is_prefix_of(text::trim(ls[i])));
    if "#"@.is_prefix_of(text::trim(ls[i])) {
        lemma_comment_key(ls[i]);
    }
}

/// A line that Staging knows stays.
proof fn lemma_known_stays(ls: Seq<Seq<char>>, i: int)
    requires
        0 <= i < ls.len(),
        !is_ece_line(ls, i),
    ensures
        midi_at(ls, i) == MidiLine::Kept,
{
    if midi_at(ls, i) != MidiLine::Kept {
        lemma_default_is_small();
        reveal_strlit("[midi]");
        assert(section_after(ls, i) == "[midi]"@);
        let h = lemma_header_found(ls, i);
        assert(stands_under(ls, h, i)) by {
            assert forall|k: int| h < k <= i implies !"["@.is_prefix_of(
                text::trim(#[trigger] ls[k]),
            ) by {
                assert(!is_header(ls[i]));
            }
        }
        assert(under_midi(ls, i));
        let (key, value) = key_and_value(ls[i])->0;
        reveal_strlit("mt32.");
        reveal_strlit("mt32.romdir");
        reveal_strlit("fluid.");
        reveal_strlit("fluid.soundfont");
        if key == "mt32.romdir"@ {
            assert("mt32.romdir"@.take(5) =~= "mt32."@);
        }
        if key == "fluid.soundfont"@ {
            assert("fluid.soundfont"@.take(6) =~= "fluid."@);
        }
        assert(is_ece_line(ls, i));
    }
}

proof fn lemma_kept_place(ls: Seq<Seq<char>>, i: int, n: int)
    requires
        0 <= i < n <= ls.len(),
        midi_at(ls, i) is Kept || midi_at(ls, i) is AutoDevice,
    ensures
        midi_kept(ls, i).len() < midi_kept(ls, n).len(),
        midi_kept(ls, n)[midi_kept(ls, i).len() as int] == (if midi_at(ls, i) is Kept {
            ls[i]
        } else {
            "mididevice = auto"@
        }),
    decreases n,
{
    if i < n - 1 {
        lemma_kept_place(ls, i, n - 1);
    }
}

proof fn lemma_kept_grows(ls: Seq<Seq<char>>, i: int, n: int)
    requires
        0 <= i <= n <= ls.len(),
    ensures
        midi_kept(ls, i).len() <= midi_kept(ls, n).len(),
    decreases n,
{
    if i < n {
        lemma_kept_grows(ls, i, n - 1);
    }
}

/// The lines of a translated conf, where it has no carriage returns.
proof fn lemma_translated_lines(conf: Seq<char>)
    requires
        needs_midi(conf),
        !conf.contains('\r'),
    ensures
        text::lines(midi_translated(conf)) == midi_lines(conf),
{
    lemma_midi_lines_plain(conf);
    text::lemma_lines_of_join(midi_lines(conf));
}

/// Without a word of MIDI no line is translated.
proof fn lemma_no_ece_line(conf: Seq<char>, i: int)
    requires
        !needs_midi(conf),
        0 <= i < text::lines(conf).len(),
    ensures
        !is_ece_line(text::lines(conf), i),
{
    if is_ece_line(text::lines(conf), i) {
        law_staging_knows_every_midi_key(conf, i);
    }
}

/// All other lines stay, in their order: settings that Staging knows, other sections,
/// the commands of the autoexec section.
pub proof fn law_lines_that_staging_knows_stay(conf: Seq<char>, i: int, j: int)
    requires
        !conf.contains('\r'),
        0 <= i < j < text::lines(conf).len(),
        !is_ece_line(text::lines(conf), i),
        !is_ece_line(text::lines(conf), j),
    ensures
        exists|a: int, b: int|
            0 <= a < b < text::lines(midi_translated(conf)).len() && #[trigger] text::lines(
                midi_translated(conf),
            )[a] == text::lines(conf)[i] && #[trigger] text::lines(midi_translated(conf))[b]
                == text::lines(conf)[j],
{
    let ls = text::lines(conf);
    let out = text::lines(midi_translated(conf));
    if needs_midi(conf) {
        let n = ls.len() as int;
        lemma_translated_lines(conf);
        lemma_known_stays(ls, i);
        lemma_known_stays(ls, j);
        lemma_kept_place(ls, i, n);
        lemma_kept_place(ls, j, n);
        lemma_kept_place(ls, i, i + 1);
        lemma_kept_grows(ls, i + 1, j);
        let a = midi_kept(ls, i).len() as int;
        let b = midi_kept(ls, j).len() as int;
        assert(out[a] == ls[i]);
        assert(out[b] == ls[j]);
    } else {
        assert(out[i] == ls[i] && out[j] == ls[j]);
    }
}

/// Where a conf asks for the default device, the translated one asks for `auto`.
pub proof fn law_the_default_device_becomes_auto(conf: Seq<char>, i: int)
    requires
        !conf.contains('\r'),
        under_midi(text::lines(conf), i),
        key_and_value(text::lines(conf)[i]) matches Some((key, value)) && key == "mididevice"@
            && text::lower(value) == "default"@,
    ensures
        text::lines(midi_translated(conf)).contains("mididevice = auto"@),
{
    let ls = text::lines(conf);
    assert(is_ece_line(ls, i));
    if !needs_midi(conf) {
        lemma_no_ece_line(conf, i);
    }
    lemma_translated_lines(conf);
    lemma_under_midi(ls, i);
    lemma_default_is_small();
    reveal_strlit("mididevice");
    reveal_strlit("mt32.");
    reveal_strlit("fluid.");
    reveal_strlit("mt32.romdir");
    reveal_strlit("fluid.soundfont");
    let key = "mididevice"@;
    if "mt32."@.is_prefix_of(key) {
        assert(key.take(5)[1] == "mt32."@[1]);
    }
    if "fluid."@.is_prefix_of(key) {
        assert(key.take(6)[0] == "fluid."@[0]);
    }
    assert(key[0] == 'm' && "mt32.romdir"@[1] == 't' && "fluid.soundfont"@[0] == 'f');
    assert(midi_at(ls, i) is AutoDevice);
    lemma_kept_place(ls, i, ls.len() as int);
    let a = midi_kept(ls, i).len() as int;
    assert(text::lines(midi_translated(conf))[a] == "mididevice = auto"@);
}

/// Line `i` is the last one of the `[midi]` sections that sets `key`.
pub open spec fn sets_last(ls: Seq<Seq<char>>, i: int, key: Seq<char>) -> bool {
    &&& under_midi(ls, i)
    &&& key_and_value(ls[i]) is Some
    &&& (key_and_value(ls[i])->0).0 == key
    &&& forall|j: int| #![trigger ls[j]]
        i < j < ls.len() && under_midi(ls, j) && key_and_value(ls[j]) is Some ==> (key_and_value(
            ls[j],
        )->0).0 != key
}

/// The MT-32 ROMs that a conf names, Staging finds: their directory stands in a section
/// of its own.
pub proof fn law_the_roms_are_found(conf: Seq<char>, i: int)
    requires
        !conf.contains('\r'),
        sets_last(text::lines(conf), i, "mt32.romdir"@),
        forall|k: int|
            0 <= k < text::lines(conf).len() ==> text::lower(
                text::trim(#[trigger] text::lines(conf)[k]),
            ) != "[mt32]"@,
    ensures
        exists|a: int|
            0 <= a < text::lines(midi_translated(conf)).len() - 1 && #[trigger] text::lines(
                midi_translated(conf),
            )[a] == "[mt32]"@ && text::lines(midi_translated(conf))[a + 1] == "romdir = "@ + (
            key_and_value(text::lines(conf)[i])->0).1,
{
    let ls = text::lines(conf);
    let n = ls.len() as int;
    let key = "mt32.romdir"@;
    reveal_strlit("mt32.");
    reveal_strlit("mt32.romdir");
    assert(key.take(5) =~= "mt32."@);
    assert("mt32."@.is_prefix_of(key));
    assert(is_ece_line(ls, i));
    if !needs_midi(conf) {
        lemma_no_ece_line(conf, i);
    }
    lemma_translated_lines(conf);
    lemma_under_midi(ls, i);
    lemma_no_section(conf, "[mt32]"@);
    let v = (key_and_value(ls[i])->0).1;
    lemma_last_rom_dir(ls, i, n);
    let kept = midi_kept(ls, n);
    let a = kept.len() as int + 1;
    let out = text::lines(midi_translated(conf));
    assert(out[a] == "[mt32]"@);
    assert(out[a + 1] == "romdir = "@ + v);
}

/// The soundfont that a conf names, Staging finds: it stands in a section of its own.
pub proof fn law_the_soundfont_is_found(conf: Seq<char>, i: int)
    requires
        !conf.contains('\r'),
        sets_last(text::lines(conf), i, "fluid.soundfont"@),
        forall|k: int|
            0 <= k < text::lines(conf).len() ==> text::lower(
                text::trim(#[trigger] text::lines(conf)[k]),
            ) != "[fluidsynth]"@,
    ensures
        exists|a: int|
            0 <= a < text::lines(midi_translated(conf)).len() - 1 && #[trigger] text::lines(
                midi_translated(conf),
            )[a] == "[fluidsynth]"@ && text::lines(midi_translated(conf))[a + 1] == "soundfont = "@
                + (key_and_value(text::lines(conf)[i])->0).1,
{
    let ls = text::lines(conf);
    let n = ls.len() as int;
    let key = "fluid.soundfont"@;
    reveal_strlit("fluid.");
    reveal_strlit("fluid.soundfont");
    assert(key.take(6) =~= "fluid."@);
    assert("fluid."@.is_prefix_of(key));
    assert(is_ece_line(ls, i));
    if !needs_midi(conf) {
        lemma_no_ece_line(conf, i);
    }
    lemma_translated_lines(conf);
    lemma_under_midi(ls, i);
    lemma_no_section(conf, "[fluidsynth]"@);
    let v = (key_and_value(ls[i])->0).1;
    lemma_last_sound_font(ls, i, n);
    let out = text::lines(midi_translated(conf));
    let a = out.len() - 2;
    assert(out[a] == "[fluidsynth]"@);
    assert(out[a + 1] == "soundfont = "@ + v);
}

proof fn lemma_no_section(conf: Seq<char>, header: Seq<char>)
    requires
        forall|k: int|
            0 <= k < text::lines(conf).len() ==> text::lower(
                text::trim(#[trigger] text::lines(conf)[k]),
            ) != header,
    ensures
        !has_section(conf, header),
{
    text::lemma_lines_lower(conf);
    assert forall|i: int| 0 <= i < text::lines(text::lower(conf)).len() implies text::trim(
        #[trigger] text::lines(text::lower(conf))[i],
    ) != header by {
        text::lemma_trim_lower(text::lines(conf)[i]);
        assert(text::lower(text::trim(text::lines(conf)[i])) != header);
    }
}

proof fn lemma_last_rom_dir(ls: Seq<Seq<char>>, i: int, n: int)
    requires
        i < n <= ls.len(),
        sets_last(ls, i, "mt32.romdir"@),
    ensures
        rom_dir(ls, n) == Some((key_and_value(ls[i])->0).1),
    decreases n,
{
    reveal_strlit("mt32.");
    reveal_strlit("mt32.romdir");
    assert("mt32.romdir"@.take(5) =~= "mt32."@);
    lemma_under_midi(ls, i);
    if n - 1 > i {
        lemma_last_rom_dir(ls, i, n - 1);
        if midi_at(ls, n - 1) is RomDir {
            lemma_ece_under(ls, n - 1);
            assert((key_and_value(ls[n - 1])->0).0 == "mt32.romdir"@);
        }
    }
}

proof fn lemma_last_sound_font(ls: Seq<Seq<char>>, i: int, n: int)
    requires
        i < n <= ls.len(),
        sets_last(ls, i, "fluid.soundfont"@),
    ensures
        sound_font(ls, n) == Some((key_and_value(ls[i])->0).1),
    decreases n,
{
    reveal_strlit("fluid.");
    reveal_strlit("fluid.soundfont");
    reveal_strlit("mt32.romdir");
    assert("fluid.soundfont"@.take(6) =~= "fluid."@);
    assert("fluid.soundfont"@[0] == 'f' && "mt32.romdir"@[0] == 'm');
    lemma_under_midi(ls, i);
    if n - 1 > i {
        lemma_last_sound_font(ls, i, n - 1);
        if midi_at(ls, n - 1) is SoundFont {
            lemma_ece_under(ls, n - 1);
            assert((key_and_value(ls[n - 1])->0).0 == "fluid.soundfont"@);
        }
    }
}

/// A line that is translated stands in a `[midi]` section.
proof fn lemma_ece_under(ls: Seq<Seq<char>>, i: int)
    requires
        0 <= i < ls.len(),
        midi_at(ls, i) != MidiLine::Kept,
    ensures
        under_midi(ls, i),
        key_and_value(ls[i]) is Some,
{
    if !is_ece_line(ls, i) {
        lemma_known_stays(ls, i);
    }
}

/// A translated conf has the lines of the conf, the device `auto`, and for what Staging
/// keeps in sections of its own those sections, where the conf has none of them.
pub proof fn law_nothing_else_is_added(conf: Seq<char>, a: int)
    requires
        !conf.contains('\r'),
        0 <= a < text::lines(midi_translated(conf)).len(),
    ensures
        ({
            let ls = text::lines(conf);
            let line = text::lines(midi_translated(conf))[a];
            ||| ls.contains(line)
            ||| line == "mididevice = auto"@
            ||| line.len() == 0
            ||| (line == "[mt32]"@ || "romdir = "@.is_prefix_of(line)) && forall|k: int|
                0 <= k < ls.len() ==> text::lower(text::trim(#[trigger] ls[k])) != "[mt32]"@
            ||| (line == "[fluidsynth]"@ || "soundfont = "@.is_prefix_of(line)) && forall|k: int|
                0 <= k < ls.len() ==> text::lower(text::trim(#[trigger] ls[k])) != "[fluidsynth]"@
        }),
{
    let ls = text::lines(conf);
    let n = ls.len() as int;
    if needs_midi(conf) {
        lemma_translated_lines(conf);
        let kept = midi_kept(ls, n);
        let out = midi_lines(conf);
        lemma_kept_from(ls, n);
        lemma_section_seen(conf, "[mt32]"@);
        lemma_section_seen(conf, "[fluidsynth]"@);
        let mt32 = own_section(
            has_section(conf, "[mt32]"@),
            "[mt32]"@,
            "romdir = "@,
            rom_dir(ls, n),
        );
        if a < kept.len() {
            assert(out[a] == kept[a]);
        } else if a < kept.len() + mt32.len() {
            assert(out[a] == mt32[a - kept.len()]);
            let v = rom_dir(ls, n)->0;
            assert(("romdir = "@ + v).take("romdir = "@.len() as int) =~= "romdir = "@);
        } else {
            let v = sound_font(ls, n)->0;
            assert(("soundfont = "@ + v).take("soundfont = "@.len() as int) =~= "soundfont = "@);
        }
    } else {
        assert(text::lines(conf).contains(text::lines(conf)[a]));
    }
}

proof fn lemma_kept_from(ls: Seq<Seq<char>>, n: int)
    requires
        0 <= n <= ls.len(),
    ensures
        forall|a: int|
            0 <= a < midi_kept(ls, n).len() ==> ls.contains(#[trigger] midi_kept(ls, n)[a])
                || midi_kept(ls, n)[a] == "mididevice = auto"@,
    decreases n,
{
    if n > 0 {
        lemma_kept_from(ls, n - 1);
        let before = midi_kept(ls, n - 1);
        let now = midi_kept(ls, n);
        assert forall|a: int| 0 <= a < now.len() implies ls.contains(#[trigger] now[a]) || now[a]
            == "mididevice = auto"@ by {
            if a < before.len() {
                assert(now[a] == before[a]);
            } else {
                assert(ls.contains(ls[n - 1]));
            }
        }
    }
}

proof fn lemma_section_seen(conf: Seq<char>, header: Seq<char>)
    ensures
        !has_section(conf, header) ==> forall|k: int|
            0 <= k < text::lines(conf).len() ==> text::lower(
                text::trim(#[trigger] text::lines(conf)[k]),
            ) != header,
{
    text::lemma_lines_lower(conf);
    assert forall|k: int|
        0 <= k < text::lines(conf).len() && !has_section(conf, header) implies text::lower(
        text::trim(#[trigger] text::lines(conf)[k]),
    ) != header by {
        text::lemma_trim_lower(text::lines(conf)[k]);
        assert(text::lines(text::lower(conf))[k] == text::lower(text::lines(conf)[k]));
    }
}

/// A line that opens a section for an IDE controller, and is no comment.
pub open spec fn is_controller_line(line: Seq<char>) -> bool {
    "[ide"@.is_prefix_of(text::lower(text::trim(line)))
}

/// The command on a line, in small letters and without the `@`s in front of it.
pub open spec fn plain_command(line: Seq<char>) -> Seq<char> {
    text::strip_front(text::trim_start(text::lower(line)), '@')
}

/// Line `i` mounts an image, and its word `w` and the next say that the image is a CD.
pub open spec fn is_cd_line(line: Seq<char>, w: int) -> bool {
    let ws = text::words(plain_command(line));
    &&& "imgmount"@.is_prefix_of(plain_command(line))
    &&& 0 <= w < ws.len() - 1
    &&& ws[w] == "-t"@
    &&& ws[w + 1] == "cdrom"@ || ws[w + 1] == "iso"@
}

proof fn lemma_ide_lines(conf: Seq<char>)
    requires
        !conf.contains('\r'),
        has_ide_section(conf),
    ensures
        text::lines(ide_translated(conf)).len() == text::lines(conf).len(),
        forall|i: int|
            0 <= i < text::lines(conf).len() ==> #[trigger] text::lines(ide_translated(conf))[i]
                == ide_line(text::lines(conf)[i]),
{
    let ls = text::lines(conf);
    let new = Seq::new(ls.len(), |i: int| ide_line(ls[i]));
    text::lemma_lines_plain(conf);
    assert forall|i: int| 0 <= i < new.len() implies text::is_plain_line(#[trigger] new[i]) by {
        assert(text::is_plain_line(ls[i]));
        lemma_ide_line_plain(ls[i]);
    }
    text::lemma_lines_of_join(new);
}

proof fn lemma_controller(conf: Seq<char>)
    ensures
        has_ide_section(conf) <==> exists|k: int|
            0 <= k < text::lines(conf).len() && is_controller_line(#[trigger] text::lines(conf)[k]),
{
    let ls = text::lines(conf);
    reveal_strlit("[ide");
    reveal_strlit("#");
    assert forall|k: int| 0 <= k < ls.len() implies opens_ide(#[trigger] ls[k])
        == is_controller_line(ls[k]) by {
        let t = text::trim(ls[k]);
        if is_controller_line(ls[k]) && "#"@.is_prefix_of(t) {
            assert(text::lower(t).take(4)[0] == '[');
            assert(t.take(1)[0] == '#');
            assert(text::lower(t)[0] == text::lower_char(t[0]));
        }
    }
    if has_ide_section(conf) {
        let k = choose|k: int| 0 <= k < ls.len() && opens_ide(#[trigger] ls[k]);
        assert(is_controller_line(ls[k]));
    }
    if exists|k: int| 0 <= k < ls.len() && is_controller_line(#[trigger] ls[k]) {
        let k = choose|k: int| 0 <= k < ls.len() && is_controller_line(#[trigger] ls[k]);
        assert(opens_ide(ls[k]));
    }
}

/// Where a conf has an IDE controller, every command that mounts a CD has the word
/// `-ide` once the conf is translated: the guest reaches its drive.
pub proof fn law_every_cd_is_on_the_controller(conf: Seq<char>, k: int, i: int, w: int)
    requires
        !conf.contains('\r'),
        0 <= k < text::lines(conf).len(),
        is_controller_line(text::lines(conf)[k]),
        0 <= i < text::lines(conf).len(),
        is_cd_line(text::lines(conf)[i], w),
    ensures
        i < text::lines(ide_translated(conf)).len(),
        text::words(text::lower(text::lines(ide_translated(conf))[i])).contains("-ide"@),
{
    let line = text::lines(conf)[i];
    lemma_controller(conf);
    assert(has_ide_section(conf));
    lemma_ide_lines(conf);
    let cmd = plain_command(line);
    assert(names_cd(text::words(cmd)));
    assert(mounts_cd(line));
    lemma_cd_line_has_flag(line);
}

proof fn lemma_flag_is_word(s: Seq<char>, p: int)
    requires
        text::occurs_at(s, "-ide"@, p),
        p > 0,
        text::is_space(s[p - 1]),
        p + 4 == s.len() || text::is_space(s[p + 4]),
    ensures
        text::words(s).contains("-ide"@),
{
    reveal_strlit("-ide");
    assert(!text::is_space('-') && !text::is_space('i') && !text::is_space('d') && !text::is_space(
        'e',
    ));
    text::lemma_word(s, "-ide"@, p);
}

proof fn lemma_cd_line_has_flag(line: Seq<char>)
    requires
        mounts_cd(line),
    ensures
        text::words(text::lower(ide_line(line))).contains("-ide"@),
        ide_flag(text::lower(line)) is Some ==> text::words(text::lower(line)).contains("-ide"@),
{
    reveal_strlit("-ide");
    reveal_strlit(" -ide");
    let flag = "-ide"@;
    let out = ide_line(line);
    let low = text::lower(out);
    let was = text::lower(line);
    match ide_flag(was) {
        None => {
            let p = text::trim_end(line).len() as int + 1;
            assert(out.len() == p + 4);
            assert(out[p - 1] == ' ');
            assert(low[p - 1] == ' ');
            assert(low[p] == '-' && low[p + 1] == 'i' && low[p + 2] == 'd' && low[p + 3] == 'e');
            assert(low.subrange(p, p + 4) =~= flag);
            lemma_flag_is_word(low, p);
        },
        Some(at) => {
            lemma_flag_stands(was, 0);
            lemma_flag_is_word(was, at);
            let end = at + 4;
            let behind = text::trim_start(line.skip(end));
            let word = text::first_run(behind);
            if is_slot(word) {
                lemma_first_run(behind);
                lemma_run_ends(behind);
                assert(out == line.take(end) + behind.skip(word.len() as int));
                assert(was.subrange(at, end) =~= flag);
                assert forall|i: int| 0 <= i < end implies #[trigger] low[i] == was[i] by {
                    assert(out[i] == line[i]);
                }
                assert(low.subrange(at, end) =~= flag);
                if end < low.len() {
                    assert(out[end] == behind[word.len() as int]);
                    assert(low[end] == out[end]);
                }
                lemma_flag_is_word(low, at);
            }
        },
    }
}

proof fn lemma_run_ends(s: Seq<char>)
    ensures
        text::first_run(s).len() <= s.len(),
        text::first_run(s).len() < s.len() ==> text::is_space(
            s[text::first_run(s).len() as int],
        ),
    decreases s.len(),
{
    if s.len() > 0 && !text::is_space(s[0]) {
        lemma_run_ends(s.skip(1));
        let n = text::first_run(s.skip(1)).len() as int;
        if n < s.len() - 1 {
            assert(s.skip(1)[n] == s[n + 1]);
        }
    }
}

/// A CD mount that has no flag gets one behind it, and is otherwise as it was. What mounts
/// no image stays as it is, and so does a whole conf without a controller.
pub proof fn law_the_flag_is_all_that_is_added(conf: Seq<char>, i: int)
    requires
        !conf.contains('\r'),
        0 <= i < text::lines(conf).len(),
    ensures
        i < text::lines(ide_translated(conf)).len(),
        text::lines(ide_translated(conf)).len() == text::lines(conf).len(),
        !"imgmount"@.is_prefix_of(plain_command(text::lines(conf)[i])) ==> text::lines(
            ide_translated(conf),
        )[i] == text::lines(conf)[i],
        !text::words(text::lower(text::lines(conf)[i])).contains("-ide"@) ==> (text::lines(
            ide_translated(conf),
        )[i] == text::lines(conf)[i] || text::lines(ide_translated(conf))[i] == text::trim_end(
            text::lines(conf)[i],
        ) + " -ide"@),
        (forall|k: int|
            0 <= k < text::lines(conf).len() ==> !is_controller_line(#[trigger] text::lines(conf)[k]))
            ==> ide_translated(conf) == conf,
{
    lemma_controller(conf);
    let line = text::lines(conf)[i];
    if has_ide_section(conf) {
        lemma_ide_lines(conf);
        if mounts_cd(line) {
            lemma_cd_line_has_flag(line);
        }
    }
}

/// The words of a line that mounts something else than a CD stay as they are.
pub proof fn law_other_mounts_stay(conf: Seq<char>, i: int)
    requires
        !conf.contains('\r'),
        0 <= i < text::lines(conf).len(),
        forall|w: int| !(#[trigger] is_cd_line(text::lines(conf)[i], w)),
    ensures
        text::lines(ide_translated(conf))[i] == text::lines(conf)[i],
{
    let line = text::lines(conf)[i];
    if has_ide_section(conf) {
        lemma_ide_lines(conf);
        let ws = text::words(plain_command(line));
        if mounts_cd(line) {
            let w = choose|w: int|
                0 <= w < ws.len() - 1 && #[trigger] ws[w] == "-t"@ && (ws[w + 1] == "cdrom"@
                    || ws[w + 1] == "iso"@);
            assert(is_cd_line(line, w));
        }
    }
}

/// A slot of DOSBox-X, such as `2m`, behind the flag of a CD mount goes, and nothing else
/// of the line does.
pub proof fn law_slots_go(
    conf: Seq<char>,
    k: int,
    i: int,
    w: int,
    before: Seq<char>,
    slot: Seq<char>,
    behind: Seq<char>,
)
    requires
        !conf.contains('\r'),
        0 <= k < text::lines(conf).len(),
        is_controller_line(text::lines(conf)[k]),
        0 <= i < text::lines(conf).len(),
        is_cd_line(text::lines(conf)[i], w),
        text::lines(conf)[i] == before + " -ide "@ + slot + behind,
        !text::has(text::lower(before), "-ide"@),
        1 <= slot.len() <= 2,
        '0' <= slot[0] <= '9',
        slot.len() == 2 ==> 'a' <= slot[1] <= 'z',
        behind.len() == 0 || text::is_space(behind[0]),
    ensures
        text::lines(ide_translated(conf))[i] == before + " -ide"@ + behind,
{
    reveal_strlit("-ide");
    reveal_strlit(" -ide");
    reveal_strlit(" -ide ");
    let line = text::lines(conf)[i];
    lemma_controller(conf);
    assert(has_ide_section(conf));
    lemma_ide_lines(conf);
    assert(names_cd(text::words(plain_command(line))));
    assert(mounts_cd(line));
    let low = text::lower(line);
    let p = before.len() as int + 1;
    assert(line[p - 1] == ' ' && line[p] == '-' && line[p + 1] == 'i' && line[p + 2] == 'd'
        && line[p + 3] == 'e' && line[p + 4] == ' ');
    assert(low[p - 1] == ' ' && low[p + 4] == ' ');
    assert(low.subrange(p, p + 4) =~= "-ide"@);
    text::lemma_find_from(low, "-ide"@, 0);
    assert forall|q: int| 0 <= q < p implies !text::occurs_at(low, "-ide"@, q) by {
        if text::occurs_at(low, "-ide"@, q) {
            let part = low.subrange(q, q + 4);
            if q + 4 <= before.len() {
                assert(text::lower(before).subrange(q, q + 4) =~= part);
                text::lemma_has(text::lower(before), "-ide"@, q);
            } else {
                assert(part[p - 1 - q] == low[p - 1]);
                assert("-ide"@[p - 1 - q] != ' ');
            }
        }
    }
    let at = text::find_from(low, "-ide"@, 0)->0;
    assert(text::occurs_at(low, "-ide"@, p));
    assert(at == p);
    assert(stands_alone(low, "-ide"@, p));
    assert(ide_flag(low) == Some(p));
    let rest = line.skip(p + 4);
    assert(rest =~= " "@ + slot + behind) by {
        reveal_strlit(" ");
    }
    let tail = slot + behind;
    assert(text::is_space(' '));
    assert(rest.skip(1) =~= tail);
    assert(rest[0] == ' ');
    assert(!text::is_space(slot[0]));
    assert(tail[0] == slot[0]);
    reveal_with_fuel(text::drop_leading, 3);
    assert(text::trim_start(rest) == tail);
    assert(text::first_run(tail) == slot) by {
        reveal_with_fuel(text::first_run, 4);
        if slot.len() == 1 {
            assert(tail.skip(1) =~= behind);
            assert(text::first_run(behind) =~= Seq::<char>::empty());
            assert(text::first_run(tail) =~= slot);
        } else {
            assert(!text::is_space(slot[1]));
            assert(tail.skip(1)[0] == slot[1]);
            assert(tail.skip(1).skip(1) =~= behind);
            assert(text::first_run(behind) =~= Seq::<char>::empty());
            assert(text::first_run(tail) =~= slot);
        }
    }
    assert(is_slot(slot));
    assert(tail.skip(slot.len() as int) =~= behind);
    assert(line.take(p + 4) =~= before + " -ide"@);
    assert(ide_line(line) =~= before + " -ide"@ + behind);
}

// What stays of a section that was written for a game

/// A line that no translation touches: it opens a section, sets nothing or begins with a
/// character that no key of MIDI begins with; and it mounts no image.
pub open spec fn is_left_alone(line: Seq<char>) -> bool {
    &&& text::is_plain_line(line)
    &&& !"imgmount"@.is_prefix_of(plain_command(line))
    &&& "["@.is_prefix_of(text::trim(line)) || !line.contains('=') || (line.len() > 0
        && !text::is_space(line[0]) && text::lower_char(line[0]) != 'm' && text::lower_char(
        line[0],
    ) != 'f')
}

proof fn lemma_left_alone(section: Seq<char>, line: Seq<char>)
    requires
        is_left_alone(line),
    ensures
        midi_line(section, line) == MidiLine::Kept,
        ide_line(line) == line,
        text::strip_cr(line) == line,
{
    if line.len() > 0 {
        assert(line.contains(line.last()));
    }
    let t = text::trim(line);
    text::lemma_char_from(t, '=', 0);
    if let Some(p) = text::char_from(t, '=', 0) {
        let at = text::lemma_trim_part(line);
        assert(line.subrange(at, at + t.len())[p] == line[at + p]);
        assert(line.contains('='));
        if !is_header(line) {
            assert(text::trim_start(line) == line);
            lemma_trimmed(line, |c: char| text::is_space(c));
            assert(t[0] == line[0]);
            let k = t.take(p);
            reveal_strlit("mt32.");
            reveal_strlit("mt32.romdir");
            reveal_strlit("fluid.");
            reveal_strlit("fluid.soundfont");
            reveal_strlit("mididevice");
            let key = text::lower(text::trim(k));
            if p > 0 {
                assert(k[0] == line[0]);
                assert(text::trim_start(k) == k);
                lemma_first_stays(k);
                lemma_trimmed(k, |c: char| text::is_space(c));
                assert(key[0] == text::lower_char(line[0]));
            } else {
                assert(k =~= Seq::<char>::empty());
                assert(text::trim(k) =~= Seq::<char>::empty());
            }
            if "mt32."@.is_prefix_of(key) {
                assert(key.take(5)[0] == "mt32."@[0]);
            }
            if "fluid."@.is_prefix_of(key) {
                assert(key.take(6)[0] == "fluid."@[0]);
            }
        }
    }
}

proof fn lemma_block_kept(ls: Seq<Seq<char>>, at: int, block: Seq<Seq<char>>, n: int)
    requires
        crate::conf::stand_at(ls, at, block),
        forall|k: int| 0 <= k < block.len() ==> is_left_alone(#[trigger] block[k]),
        0 <= n <= block.len(),
    ensures
        midi_kept(ls, at + n) == midi_kept(ls, at) + block.take(n),
    decreases n,
{
    if n == 0 {
        assert(midi_kept(ls, at) + block.take(0) =~= midi_kept(ls, at));
    } else {
        lemma_block_kept(ls, at, block, n - 1);
        assert(ls[at + (n - 1)] == block[n - 1]);
        lemma_left_alone(section_after(ls, at + n - 1), block[n - 1]);
        assert((midi_kept(ls, at) + block.take(n - 1)).push(block[n - 1]) =~= midi_kept(ls, at)
            + block.take(n));
    }
}

proof fn lemma_kept_prefix(ls: Seq<Seq<char>>, i: int, n: int)
    requires
        0 <= i <= n <= ls.len(),
    ensures
        midi_kept(ls, i).is_prefix_of(midi_kept(ls, n)),
    decreases n,
{
    let a = midi_kept(ls, i);
    if i < n {
        lemma_kept_prefix(ls, i, n - 1);
        let b = midi_kept(ls, n - 1);
        let c = midi_kept(ls, n);
        assert(c.take(a.len() as int) =~= b.take(a.len() as int));
    } else {
        assert(a.take(a.len() as int) =~= a);
    }
}

/// Lines that no translation touches stand in the conf for Staging as they stood in the
/// conf.
pub proof fn law_what_sets_nothing_stays(conf: Seq<char>, at: int, block: Seq<Seq<char>>)
    requires
        crate::conf::stand_at(text::lines(conf), at, block),
        block.len() > 0,
        forall|k: int| 0 <= k < block.len() ==> is_left_alone(#[trigger] block[k]),
    ensures
        exists|to: int| #[trigger]
            crate::conf::stand_at(
                text::lines(ide_translated(midi_translated(conf))),
                to,
                block,
            ),
{
    let mid = midi_translated(conf);
    let to = lemma_block_in_midi(conf, at, block);
    let ls = text::lines(mid);
    if has_ide_section(mid) {
        let new = Seq::new(ls.len(), |i: int| ide_line(ls[i]));
        text::lemma_lines_have_no_feed(mid);
        assert forall|i: int| 0 <= i < new.len() implies !(#[trigger] new[i]).contains('\n') by {
            assert(!ls[i].contains('\n'));
            lemma_ide_line_feed(ls[i]);
        }
        text::lemma_lines_of_joined(new);
        let out = text::lines(ide_translated(mid));
        assert forall|k: int| 0 <= k < block.len() implies out[to + k] == #[trigger] block[k] by {
            lemma_left_alone(Seq::<char>::empty(), block[k]);
            assert(ls[to + k] == block[k]);
            assert(new[to + k] == block[k]);
        }
        assert(crate::conf::stand_at(out, to, block));
    } else {
        assert(crate::conf::stand_at(text::lines(ide_translated(mid)), to, block));
    }
}

proof fn lemma_block_in_midi(conf: Seq<char>, at: int, block: Seq<Seq<char>>) -> (to: int)
    requires
        crate::conf::stand_at(text::lines(conf), at, block),
        block.len() > 0,
        forall|k: int| 0 <= k < block.len() ==> is_left_alone(#[trigger] block[k]),
    ensures
        crate::conf::stand_at(text::lines(midi_translated(conf)), to, block),
{
    let ls = text::lines(conf);
    if needs_midi(conf) {
        let n = ls.len() as int;
        let m = block.len() as int;
        let all = midi_lines(conf);
        let to = midi_kept(ls, at).len() as int;
        lemma_block_kept(ls, at, block, m);
        lemma_kept_prefix(ls, at + m, n);
        lemma_midi_lines_feed(conf);
        text::lemma_lines_of_joined(all);
        let kept = midi_kept(ls, n);
        let some = midi_kept(ls, at + m);
        assert(some.len() == to + m);
        let out = text::lines(midi_translated(conf));
        assert forall|k: int| 0 <= k < m implies out[to + k] == #[trigger] block[k] by {
            lemma_left_alone(Seq::<char>::empty(), block[k]);
            assert(some[to + k] == block[k]);
            assert(kept.take(some.len() as int)[to + k] == kept[to + k]);
            assert(all[to + k] == kept[to + k]);
        }
        to
    } else {
        at
    }
}

proof fn lemma_ide_line_feed(line: Seq<char>)
    requires
        !line.contains('\n'),
    ensures
        !ide_line(line).contains('\n'),
{
    reveal_strlit("-ide");
    reveal_strlit(" -ide");
    let out = ide_line(line);
    if mounts_cd(line) && out.contains('\n') {
        let k = choose|k: int| 0 <= k < out.len() && out[k] == '\n';
        lemma_flag_stands(text::lower(line), 0);
        match ide_flag(text::lower(line)) {
            None => {
                lemma_trimmed(line, |c: char| text::is_space(c));
                if k < text::trim_end(line).len() {
                    assert(line[k] == '\n');
                } else {
                    assert(" -ide"@[k - text::trim_end(line).len()] == '\n');
                }
            },
            Some(at) => {
                let end = at + 4;
                let rest = line.skip(end);
                let behind = text::trim_start(rest);
                let word = text::first_run(behind);
                lemma_first_run(behind);
                if is_slot(word) {
                    if k < end {
                        assert(line[k] == '\n');
                    } else {
                        let j = k - end + word.len();
                        assert(behind[j] == '\n');
                        lemma_start_part(rest);
                        assert(rest[rest.len() - behind.len() + j] == '\n');
                        assert(line[end + (rest.len() - behind.len() + j)] == '\n');
                    }
                } else {
                    assert(line[k] == '\n');
                }
            },
        }
    }
}

proof fn lemma_start_part(s: Seq<char>)
    ensures
        text::trim_start(s).len() <= s.len(),
        forall|j: int|
            0 <= j < text::trim_start(s).len() ==> #[trigger] text::trim_start(s)[j] == s[s.len()
                - text::trim_start(s).len() + j],
    decreases s.len(),
{
    if s.len() > 0 && text::is_space(s[0]) {
        lemma_start_part(s.skip(1));
        let t = text::trim_start(s);
        assert(t == text::trim_start(s.skip(1)));
        assert forall|j: int| 0 <= j < t.len() implies #[trigger] t[j] == s[s.len() - t.len()
            + j] by {
            assert(t[j] == s.skip(1)[s.len() - 1 - t.len() + j]);
        }
    }
}

} // verus!
