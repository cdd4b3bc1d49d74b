//! DOSBox confs: what they ask for, which of their paths are the host's, and
//! the text that a launch writes in their place.

use crate::text;
use crate::text::{
    after_prefix, append_chars, cat, cat3, chars_of, cut_once, drop_back, drop_front, find_char,
    find_last, find_pattern, has_prefix, has_suffix, head, is_space_char, is_str, lines_of,
    part, past_mark, same_chars, string_of, swap_chars, tail, to_lower, trim_end_of, trim_of,
    trim_start_of, up_to_mark, words_of,
};
use vstd::prelude::*;

verus! {

// ── Printers ─────────────────────────────────────────────────────────────────

/// One line enables eXo's virtual printer. A comment enables nothing.
pub open spec fn enables_printer(line: Seq<char>) -> bool {
    let t = text::trim(line);
    if "#"@.is_prefix_of(t) {
        false
    } else {
        match text::split_once(text::lower(t), '=') {
            None => false,
            Some((k, v)) => {
                let key = text::trim(k);
                let value = text::trim(v);
                ||| key == "printer"@ && value == "true"@
                ||| "parallel"@.is_prefix_of(key) && "printer"@.is_prefix_of(value)
            },
        }
    }
}

/// Whether the conf enables eXo's virtual printer, as `printer=true` or as a
/// printer on a parallel port.
pub fn conf_requests_printer(text: &str) -> (r: bool)
    ensures
        r == exists|i: int|
            0 <= i < text::lines(text@).len() && enables_printer(#[trigger] text::lines(text@)[i]),
{
    let ls = lines_of(text);
    let ghost all = text::lines(text@);
    let mut i: usize = 0;
    while i < ls.len()
        invariant
            i <= ls@.len(),
            text::texts(ls@) == all,
            all == text::lines(text@),
            forall|k: int| 0 <= k < i ==> !enables_printer(#[trigger] all[k]),
        decreases ls@.len() - i,
    {
        let line = chars_of(ls[i].as_str());
        assert(line@ == all[i as int]);
        let t = trim_of(line.as_slice());
        if !has_prefix(t, "#") {
            let low = to_lower(t);
            if let Some((k, v)) = cut_once(low.as_slice(), '=') {
                let key = trim_of(k);
                let value = trim_of(v);
                if (is_str(key, "printer") && is_str(value, "true")) || (has_prefix(key, "parallel")
                    && has_prefix(value, "printer")) {
                    return true;
                }
            }
        }
        i += 1;
    }
    false
}

// ── Host paths ───────────────────────────────────────────────────────────────

/// The path that begins at `at` stands in quotes.
pub open spec fn in_quotes(s: Seq<char>, at: int) -> bool {
    at > 0 && s[at - 1] == '"'
}

/// Where the path whose body begins at `from` ends: at the closing quote, at the
/// first white space where it is not quoted, or with the text.
pub open spec fn path_end(s: Seq<char>, from: int, quoted: bool) -> int
    decreases s.len() - from,
{
    if from >= s.len() {
        s.len() as int
    } else if (quoted && s[from] == '"') || (!quoted && text::is_space(s[from])) {
        from
    } else {
        path_end(s, from + 1, quoted)
    }
}

/// The paths that follow a `.\` at `from` or later, without the `.\`.
pub open spec fn paths_from(s: Seq<char>, from: int) -> Seq<Seq<char>>
    decreases s.len() - from,
        when 0 <= from <= s.len()
{
    match text::find_from(s, ".\\"@, from) {
        None => Seq::<Seq<char>>::empty(),
        Some(at) => {
            proof {
                lemma_path_found(s, from);
            }
            let body = at + ".\\"@.len();
            let end = path_end(s, body, in_quotes(s, at));
            seq![s.subrange(body, end)] + paths_from(s, end)
        },
    }
}

/// The command on the line of `pos`, up to `pos`, mounts something.
pub open spec fn mounting_at(s: Seq<char>, pos: int) -> bool {
    let before = s.take(pos);
    let line = match text::last_char(before, '\n') {
        Some(i) => before.skip(i + 1),
        None => before,
    };
    let ws = text::words(text::strip_front(text::trim_start(line), '@'));
    ws.len() > 0 && (text::lower(ws[0]) == text::lower("mount"@) || text::lower(ws[0]) == text::lower("imgmount"@))
}

/// A replacement as it is written at `at`: in quotes where it holds a space and
/// is an argument of a mount command that is not quoted already.
pub open spec fn placed(s: Seq<char>, at: int, replacement: Seq<char>) -> Seq<char> {
    if !in_quotes(s, at) && replacement.contains(' ') && mounting_at(s, at) {
        "\""@ + replacement + "\""@
    } else {
        replacement
    }
}

/// `s` from `from` on, with each `.\` path replaced by the next of `with`.
pub open spec fn rewritten_from(s: Seq<char>, from: int, with: Seq<Seq<char>>) -> Seq<char>
    decreases s.len() - from,
        when 0 <= from <= s.len()
{
    match text::find_from(s, ".\\"@, from) {
        None => s.skip(from),
        Some(at) => {
            proof {
                lemma_path_found(s, from);
            }
            let body = at + ".\\"@.len();
            let end = path_end(s, body, in_quotes(s, at));
            s.subrange(from, at) + placed(s, at, with[0]) + rewritten_from(s, end, with.skip(1))
        },
    }
}

/// The paths that follow a `.\` in `s`, in order.
pub open spec fn host_bodies(s: Seq<char>) -> Seq<Seq<char>> {
    paths_from(s, 0)
}

/// `s` with its `.\` paths replaced, in order, by `with`.
pub open spec fn rewritten(s: Seq<char>, with: Seq<Seq<char>>) -> Seq<char> {
    rewritten_from(s, 0, with)
}

/// A path that is found lies in the text, and ends behind where the search began.
pub proof fn lemma_path_found(s: Seq<char>, from: int)
    requires
        0 <= from <= s.len(),
    ensures
        match text::find_from(s, ".\\"@, from) {
            Some(at) => {
                let end = path_end(s, at + ".\\"@.len(), in_quotes(s, at));
                from <= at && at + 2 <= end <= s.len() && ".\\"@.len() == 2
            },
            None => true,
        },
{
    reveal_strlit(".\\");
    text::lemma_find_from(s, ".\\"@, from);
    if let Some(at) = text::find_from(s, ".\\"@, from) {
        lemma_path_end(s, at + 2, in_quotes(s, at));
    }
}

pub proof fn lemma_path_end(s: Seq<char>, from: int, quoted: bool)
    requires
        0 <= from <= s.len(),
    ensures
        from <= path_end(s, from, quoted) <= s.len(),
    decreases s.len() - from,
{
    if from < s.len() {
        lemma_path_end(s, from + 1, quoted);
    }
}

fn path_end_of(s: &[char], from: usize, quoted: bool) -> (r: usize)
    requires
        from <= s@.len(),
    ensures
        r == path_end(s@, from as int, quoted),
{
    let n: usize = s.len();
    let mut i: usize = from;
    while i < n
        invariant
            n == s@.len(),
            from <= i <= n,
            path_end(s@, i as int, quoted) == path_end(s@, from as int, quoted),
        decreases n - i,
    {
        if (quoted && s[i] == '"') || (!quoted && is_space_char(s[i])) {
            return i;
        }
        i += 1;
    }
    n
}

/// Whether the token at `pos` is an argument of a `mount` or `imgmount` command.
/// Those split their arguments at white space; everything else in a conf takes
/// its value as it stands.
pub fn on_mount_line(text: &str, pos: usize) -> (r: bool)
    requires
        pos <= text@.len(),
    ensures
        r == mounting_at(text@, pos as int),
{
    let s = chars_of(text);
    mounting_at_of(s.as_slice(), pos)
}

fn mounting_at_of(s: &[char], pos: usize) -> (r: bool)
    requires
        pos <= s@.len(),
    ensures
        r == mounting_at(s@, pos as int),
{
    let before = head(s, pos);
    proof {
        text::lemma_last_char(before@, '\n');
    }
    let line = match find_last(before, '\n') {
        Some(i) => tail(before, i + 1),
        None => before,
    };
    let ws = words_of(drop_front(trim_start_of(line), '@'));
    if ws.len() == 0 {
        return false;
    }
    let ghost all = text::texts(ws@);
    assert(all[0] == ws@[0]@);
    let first = to_lower(chars_of(ws[0].as_str()).as_slice());
    let mount = to_lower(chars_of("mount").as_slice());
    let imgmount = to_lower(chars_of("imgmount").as_slice());
    same_chars(first.as_slice(), mount.as_slice()) || same_chars(
        first.as_slice(),
        imgmount.as_slice(),
    )
}

fn has_blank(s: &[char]) -> (r: bool)
    ensures
        r == s@.contains(' '),
{
    proof {
        text::lemma_char_from(s@, ' ', 0);
    }
    find_char(s, ' ', 0).is_some()
}

/// The paths that follow a `.\` in `text`, in order, without the `.\`. A quoted
/// one runs to the closing quote, another one to the next white space.
pub fn host_paths(text: &str) -> (r: Vec<String>)
    ensures
        text::texts(r@) == host_bodies(text@),
{
    let s = chars_of(text);
    let n: usize = s.len();
    let mark = chars_of(".\\");
    proof {
        reveal_strlit(".\\");
    }
    let mut out: Vec<String> = Vec::new();
    let mut from: usize = 0;
    assert(text::texts(out@) + paths_from(s@, 0) =~= paths_from(s@, 0));
    loop
        invariant
            n == s@.len(),
            s@ == text@,
            mark@ == ".\\"@,
            mark@.len() == 2,
            from <= n,
            text::texts(out@) + paths_from(s@, from as int) == host_bodies(s@),
        decreases n - from,
    {
        proof {
            text::lemma_find_from(s@, ".\\"@, from as int);
        }
        match find_pattern(s.as_slice(), mark.as_slice(), from) {
            None => {
                assert(text::texts(out@) =~= host_bodies(s@));
                return out;
            },
            Some(at) => {
                let quoted = at > 0 && s[at - 1] == '"';
                proof {
                    lemma_path_end(s@, at + 2, quoted);
                }
                let end: usize = path_end_of(s.as_slice(), at + 2, quoted);
                let body = string_of(part(s.as_slice(), at + 2, end).as_slice());
                let ghost done = text::texts(out@);
                let ghost b = body@;
                out.push(body);
                assert(text::texts(out@) =~= done.push(b));
                assert(text::texts(out@) + paths_from(s@, end as int) =~= done + (seq![b] + paths_from(
                    s@,
                    end as int,
                )));
                from = end;
            },
        }
    }
}

/// Replaces the `.\` paths of `text`, in order, by `with`, and nothing else.
/// What is not a `.\` path belongs to the guest and stays as authored.
pub fn rewrite_host_paths(text: &str, with: &Vec<String>) -> (r: String)
    requires
        with@.len() == host_bodies(text@).len(),
    ensures
        r@ == rewritten(text@, text::texts(with@)),
{
    let s = chars_of(text);
    let n: usize = s.len();
    let mark = chars_of(".\\");
    proof {
        reveal_strlit(".\\");
        reveal_strlit("\"");
    }
    let m: usize = with.len();
    let ghost all = text::texts(with@);
    let mut out: Vec<char> = Vec::new();
    let mut from: usize = 0;
    let mut k: usize = 0;
    assert(all.skip(0) =~= all);
    assert(out@ + rewritten_from(s@, 0, all.skip(0)) =~= rewritten(s@, all));
    loop
        invariant
            n == s@.len(),
            s@ == text@,
            mark@ == ".\\"@,
            mark@.len() == 2,
            "\""@ == seq!['"'],
            from <= n,
            k <= m,
            m == with@.len(),
            all == text::texts(with@),
            paths_from(s@, from as int).len() == with@.len() - k,
            out@ + rewritten_from(s@, from as int, all.skip(k as int)) == rewritten(s@, all),
        decreases n - from,
    {
        proof {
            text::lemma_find_from(s@, ".\\"@, from as int);
        }
        match find_pattern(s.as_slice(), mark.as_slice(), from) {
            None => {
                let rest = part(s.as_slice(), from, n);
                assert(rest@ =~= s@.skip(from as int));
                append_chars(&mut out, &rest);
                assert(out@ =~= rewritten(s@, all));
                return string_of(out.as_slice());
            },
            Some(at) => {
                let quoted = at > 0 && s[at - 1] == '"';
                proof {
                    lemma_path_end(s@, at + 2, quoted);
                }
                let end: usize = path_end_of(s.as_slice(), at + 2, quoted);
                let ghost done = out@;
                let before = part(s.as_slice(), from, at);
                append_chars(&mut out, &before);
                let replacement = chars_of(with[k].as_str());
                assert(replacement@ == all.skip(k as int)[0]);
                if !quoted && has_blank(replacement.as_slice()) && mounting_at_of(s.as_slice(), at) {
                    out.push('"');
                    append_chars(&mut out, &replacement);
                    out.push('"');
                    assert(out@ =~= done + s@.subrange(from as int, at as int) + ("\""@
                        + replacement@ + "\""@));
                } else {
                    append_chars(&mut out, &replacement);
                    assert(out@ =~= done + s@.subrange(from as int, at as int) + replacement@);
                }
                assert(all.skip(k as int).skip(1) =~= all.skip(k + 1));
                assert(out@ + rewritten_from(s@, end as int, all.skip(k + 1)) =~= done
                    + rewritten_from(s@, from as int, all.skip(k as int)));
                from = end;
                k += 1;
            },
        }
    }
}

/// Text without a `.\` belongs to the guest alone: rewriting leaves it as it is.
pub proof fn law_guest_text_untouched(s: Seq<char>, with: Seq<Seq<char>>)
    requires
        !text::has(s, ".\\"@),
    ensures
        host_bodies(s).len() == 0,
        rewritten(s, with) == s,
{
    assert(s.skip(0) =~= s);
}

/// Where each path is replaced by the `.\` and body that it had, the text stays
/// as it is.
pub open spec fn own_paths(bodies: Seq<Seq<char>>) -> Seq<Seq<char>> {
    Seq::new(bodies.len(), |i: int| ".\\"@ + bodies[i])
}

/// A host path without the separators at its end. Nothing is taken from a root:
/// `/` and `G:/` stay.
pub open spec fn without_trailing_sep(path: Seq<char>) -> Seq<char> {
    let short = text::strip_back(path, '/');
    if short.len() == 0 || short.last() == ':' {
        path
    } else {
        short
    }
}

/// Drops the separators at the end of a host path, except from a root.
pub fn trim_trailing_sep(path: &str) -> (r: String)
    ensures
        r@ == without_trailing_sep(path@),
{
    let s = chars_of(path);
    let short = drop_back(s.as_slice(), '/');
    if short.len() == 0 || short[short.len() - 1] == ':' {
        string_of(s.as_slice())
    } else {
        string_of(short)
    }
}

/// Where a path of the conf lies if it is the host's: below the working
/// directory, with forward slashes.
pub open spec fn host_candidate_of(working_dir: Seq<char>, body: Seq<char>) -> Seq<char> {
    text::swap_char(working_dir + "/"@, '\\', '/') + text::swap_char(body, '\\', '/')
}

/// What a path of the conf becomes: the host path where that exists, and
/// otherwise what the conf said. A bare `.\` is the guest's current directory.
pub open spec fn host_path_of(working_dir: Seq<char>, body: Seq<char>, exists_there: bool) -> Seq<char> {
    if body.len() == 0 {
        ".\\"@
    } else if exists_there {
        without_trailing_sep(host_candidate_of(working_dir, body))
    } else {
        ".\\"@ + body
    }
}

/// Where `body` lies below the working directory, if it is a host path.
pub fn host_candidate(working_dir: &str, body: &str) -> (r: String)
    ensures
        r@ == host_candidate_of(working_dir@, body@),
{
    let prefix = cat(working_dir, "/");
    let a = swap_chars(chars_of(prefix.as_str()).as_slice(), '\\', '/');
    let b = swap_chars(chars_of(body).as_slice(), '\\', '/');
    cat(string_of(a.as_slice()).as_str(), string_of(b.as_slice()).as_str())
}

/// What `body` becomes, given whether its candidate exists.
pub fn resolve_host_path(working_dir: &str, body: &str, exists_there: bool) -> (r: String)
    ensures
        r@ == host_path_of(working_dir@, body@, exists_there),
{
    if chars_of(body).len() == 0 {
        string_of(chars_of(".\\").as_slice())
    } else if exists_there {
        trim_trailing_sep(host_candidate(working_dir, body).as_str())
    } else {
        cat(".\\", body)
    }
}

/// Where a path of the conf lies in the overlay, if it names the game folder.
pub open spec fn staged_candidate_of(
    staging: Seq<char>,
    game_folder: Seq<char>,
    body: Seq<char>,
) -> Option<Seq<char>> {
    match text::strip_prefix(text::swap_char(body, '\\', '/'), game_folder) {
        Some(behind) => Some(text::swap_char(staging, '\\', '/') + behind),
        None => None,
    }
}

/// What a path of the conf becomes through the overlay: the staged path where
/// there is one, and otherwise what it becomes without an overlay.
pub open spec fn overlay_path_of(
    staging: Seq<char>,
    game_folder: Seq<char>,
    working_dir: Seq<char>,
    body: Seq<char>,
    staged_exists: bool,
    exists_there: bool,
) -> Seq<char> {
    match staged_candidate_of(staging, game_folder, body) {
        Some(staged) if staged_exists => without_trailing_sep(staged),
        _ => host_path_of(working_dir, body, exists_there),
    }
}

/// Where `body` lies in the overlay, if it names the game folder.
pub fn staged_candidate(staging: &str, game_folder: &str, body: &str) -> (r: Option<String>)
    ensures
        text::opt(r) == staged_candidate_of(staging@, game_folder@, body@),
{
    let b = swap_chars(chars_of(body).as_slice(), '\\', '/');
    match after_prefix(b.as_slice(), game_folder) {
        Some(behind) => {
            let st = swap_chars(chars_of(staging).as_slice(), '\\', '/');
            Some(cat(string_of(st.as_slice()).as_str(), string_of(behind).as_str()))
        },
        None => None,
    }
}

/// What `body` becomes through the overlay, given which of its candidates exist.
pub fn resolve_overlay_path(
    staging: &str,
    game_folder: &str,
    working_dir: &str,
    body: &str,
    staged_exists: bool,
    exists_there: bool,
) -> (r: String)
    ensures
        r@ == overlay_path_of(
            staging@,
            game_folder@,
            working_dir@,
            body@,
            staged_exists,
            exists_there,
        ),
{
    if staged_exists {
        if let Some(staged) = staged_candidate(staging, game_folder, body) {
            return trim_trailing_sep(staged.as_str());
        }
    }
    resolve_host_path(working_dir, body, exists_there)
}

/// No character of an unquoted path is a blank.
proof fn lemma_path_solid(s: Seq<char>, from: int, quoted: bool)
    requires
        0 <= from <= s.len(),
    ensures
        forall|k: int|
            from <= k < path_end(s, from, quoted) ==> !((quoted && #[trigger] s[k] == '"') || (
            !quoted && text::is_space(s[k]))),
    decreases s.len() - from,
{
    if from < s.len() {
        lemma_path_solid(s, from + 1, quoted);
    }
}

proof fn lemma_own_paths(s: Seq<char>, from: int)
    requires
        0 <= from <= s.len(),
    ensures
        rewritten_from(s, from, own_paths(paths_from(s, from))) == s.skip(from),
    decreases s.len() - from,
{
    reveal_strlit(".\\");
    lemma_path_found(s, from);
    text::lemma_find_from(s, ".\\"@, from);
    if let Some(at) = text::find_from(s, ".\\"@, from) {
        let quoted = in_quotes(s, at);
        let end = path_end(s, at + 2, quoted);
        let body = s.subrange(at + 2, end);
        let own = own_paths(paths_from(s, from));
        lemma_path_solid(s, at + 2, quoted);
        lemma_own_paths(s, end);
        assert(paths_from(s, from) == seq![body] + paths_from(s, end));
        assert(own.skip(1) =~= own_paths(paths_from(s, end)));
        assert(own[0] =~= s.subrange(at, end)) by {
            assert(s.subrange(at, at + 2) == ".\\"@);
            assert(s.subrange(at, end) =~= s.subrange(at, at + 2) + body);
        }
        if !quoted && own[0].contains(' ') {
            let k = choose|k: int| 0 <= k < own[0].len() && own[0][k] == ' ';
            if k >= 2 {
                assert(text::is_space(s[at + k]));
            }
        }
        assert(placed(s, at, own[0]) == own[0]);
        assert(s.subrange(from, at) + s.subrange(at, end) + s.skip(end) =~= s.skip(from));
    }
}

/// Where each path is replaced by what it was, the text stays as it is.
pub proof fn law_own_paths_untouched(s: Seq<char>)
    ensures
        rewritten(s, own_paths(host_bodies(s))) == s,
{
    lemma_own_paths(s, 0);
    assert(s.skip(0) =~= s);
}

// ── The autoexec section ─────────────────────────────────────────────────────

pub open spec fn is_letter(c: char) -> bool {
    'a' <= c <= 'z' || 'A' <= c <= 'Z'
}

/// A command in small letters that prepares or cleans up: it changes directories,
/// prints, sets, waits, clears or leaves.
pub open spec fn keeps_house(l: Seq<char>) -> bool {
    ||| l == "cd"@ || "cd "@.is_prefix_of(l) || "cd\\"@.is_prefix_of(l) || "cd."@.is_prefix_of(l)
    ||| l == "echo"@ || "echo "@.is_prefix_of(l) || "echo."@.is_prefix_of(l)
    ||| l == "pause"@
    ||| "set "@.is_prefix_of(l)
    ||| "config "@.is_prefix_of(l)
    ||| "cls"@.is_prefix_of(l)
    ||| "exit"@.is_prefix_of(l)
}

/// A line of the autoexec section that may start a game: no comment, no switch
/// to a drive, nothing that mounts and no housekeeping. An `@` in front only keeps
/// a line from being echoed. Whatever begins with `@echo` prints.
pub open spec fn may_launch(line: Seq<char>) -> bool {
    let l = text::lower(text::trim(text::strip_front(text::trim(line), '@')));
    &&& !"@echo"@.is_prefix_of(text::lower(text::trim(line)))
    &&& l.len() > 0
    &&& !"#"@.is_prefix_of(l)
    &&& l != "rem"@
    &&& !"rem "@.is_prefix_of(l)
    &&& !(l.len() >= 2 && l[1] == ':' && is_letter(l[0]))
    &&& l != "mount"@
    &&& !"mount "@.is_prefix_of(l)
    &&& !"imgmount"@.is_prefix_of(l)
    &&& !keeps_house(l)
}

/// Some line of an autoexec section may start a game.
pub open spec fn section_launches(section: Seq<char>) -> bool {
    exists|i: int|
        0 <= i < text::lines(section).len() && may_launch(#[trigger] text::lines(section)[i])
}

/// The autoexec section of `conf` holds a line that may start a game.
pub open spec fn launches(conf: Seq<char>) -> bool {
    match text::after_mark(conf, "[autoexec]"@) {
        None => false,
        Some(section) => section_launches(section),
    }
}

pub fn is_letter_char(c: char) -> (r: bool)
    ensures
        r == is_letter(c),
{
    ('a' <= c && c <= 'z') || ('A' <= c && c <= 'Z')
}

fn keeps_house_line(l: &[char]) -> (r: bool)
    ensures
        r == keeps_house(l@),
{
    is_str(l, "cd") || has_prefix(l, "cd ") || has_prefix(l, "cd\\") || has_prefix(l, "cd.")
        || is_str(l, "echo") || has_prefix(l, "echo ") || has_prefix(l, "echo.") || is_str(
        l,
        "pause",
    ) || has_prefix(l, "set ") || has_prefix(l, "config ") || has_prefix(l, "cls") || has_prefix(
        l,
        "exit",
    )
}

fn may_launch_line(line: &[char]) -> (r: bool)
    ensures
        r == may_launch(line@),
{
    let whole = to_lower(trim_of(line));
    if has_prefix(whole.as_slice(), "@echo") {
        return false;
    }
    let low = to_lower(trim_of(drop_front(trim_of(line), '@')));
    let l = low.as_slice();
    if l.len() == 0 || has_prefix(l, "#") || is_str(l, "rem") || has_prefix(l, "rem ") {
        return false;
    }
    if l.len() >= 2 && l[1] == ':' && is_letter_char(l[0]) {
        return false;
    }
    !(is_str(l, "mount") || has_prefix(l, "mount ") || has_prefix(l, "imgmount")
        || keeps_house_line(l))
}

/// Whether the autoexec section of a conf holds a line that starts a game, as
/// opposed to mounts, drive switches, comments and the like.
pub fn autoexec_has_launch_cmd(conf: &str) -> (r: bool)
    ensures
        r == launches(conf@),
{
    let chars = chars_of(conf);
    match past_mark(chars.as_slice(), "[autoexec]") {
        None => false,
        Some(section) => {
            let ls = lines_of(string_of(section).as_str());
            let ghost all = text::lines(section@);
            let mut i: usize = 0;
            while i < ls.len()
                invariant
                    i <= ls@.len(),
                    text::texts(ls@) == all,
                    text::after_mark(conf@, "[autoexec]"@) == Some(section@),
                    all == text::lines(section@),
                    forall|k: int| 0 <= k < i ==> !may_launch(#[trigger] all[k]),
                decreases ls@.len() - i,
            {
                let line = chars_of(ls[i].as_str());
                assert(line@ == all[i as int]);
                if may_launch_line(line.as_slice()) {
                    assert(section_launches(section@));
                    return true;
                }
                i += 1;
            }
            false
        },
    }
}

// ── The conf that a launch runs ──────────────────────────────────────────────

/// How the game of a language pack is reached.
pub enum LpPatch {
    /// The English autoexec runs against an overlay of links.
    Overlay { shortcode: String },
    /// A section of its own mounts the game's directory.
    Custom { game_dir: String },
}

/// A directory below the one that is mounted, and the command that starts the
/// game in it.
pub struct LaunchCommand {
    pub subdir: String,
    pub command: String,
}

pub open spec fn cd_line(dir: Seq<char>) -> Seq<char> {
    "cd "@ + dir + "\n"@
}

/// The lines that start a game.
pub open spec fn launch_lines(launch: LaunchCommand) -> Seq<char> {
    (if launch.subdir@.len() > 0 {
        cd_line(launch.subdir@)
    } else {
        Seq::<char>::empty()
    }) + "cls\n"@ + launch.command@ + "\n"@
}

/// `s` without an `exit` at its end, so that what is added behind it is reached.
pub open spec fn without_exit(s: Seq<char>) -> Seq<char> {
    let t = text::trim_end(s);
    if "exit"@.is_suffix_of(text::lower(t)) {
        s.take(t.len() - "exit"@.len()) + "\n"@
    } else {
        s
    }
}

/// The part of a conf whose paths are rewritten: its settings where the autoexec
/// section is replaced, and all of it otherwise.
pub open spec fn rewritten_part(conf: Seq<char>, lp: Option<LpPatch>) -> Seq<char> {
    match lp {
        Some(LpPatch::Custom { .. }) => text::before_mark(conf, "[autoexec]"@),
        _ => conf,
    }
}

/// The conf that a launch runs, before it is translated.
pub open spec fn launch_text(
    conf: Seq<char>,
    lp: Option<LpPatch>,
    launch: Option<LaunchCommand>,
    with: Seq<Seq<char>>,
) -> Seq<char> {
    let base = rewritten(rewritten_part(conf, lp), with);
    match lp {
        None => base,
        Some(LpPatch::Overlay { shortcode }) => match launch {
            Some(l) if !launches(base) => without_exit(base) + cd_line(shortcode@) + launch_lines(l)
                + "exit\n"@,
            _ => base,
        },
        Some(LpPatch::Custom { game_dir }) => base + "[autoexec]\n"@ + ("@mount c \""@ + game_dir@
            + "\"\n"@) + "c:\n"@ + (match launch {
            Some(l) => launch_lines(l),
            None => Seq::<char>::empty(),
        }) + "exit\n"@,
    }
}

/// The conf that a launch runs.
pub open spec fn patched_text(
    conf: Seq<char>,
    lp: Option<LpPatch>,
    launch: Option<LaunchCommand>,
    with: Seq<Seq<char>>,
    for_staging: bool,
) -> Seq<char> {
    let base = launch_text(conf, lp, launch, with);
    if for_staging {
        crate::staging::ide_translated(crate::staging::midi_translated(base))
    } else {
        base
    }
}

/// The paths that a launch has to resolve before the conf can be written.
pub fn paths_to_resolve(conf: &str, lp: &Option<LpPatch>) -> (r: Vec<String>)
    ensures
        text::texts(r@) == host_bodies(rewritten_part(conf@, *lp)),
{
    let chars = chars_of(conf);
    match lp {
        Some(LpPatch::Custom { game_dir }) => host_paths(
            string_of(up_to_mark(chars.as_slice(), "[autoexec]")).as_str(),
        ),
        _ => host_paths(conf),
    }
}

fn append_launch(out: &mut String, launch: &LaunchCommand)
    ensures
        final(out)@ == old(out)@ + launch_lines(*launch),
{
    let ghost before = out@;
    if chars_of(launch.subdir.as_str()).len() > 0 {
        out.append("cd ");
        out.append(launch.subdir.as_str());
        out.append("\n");
    }
    out.append("cls\n");
    out.append(launch.command.as_str());
    out.append("\n");
    assert(out@ =~= before + launch_lines(*launch));
}

proof fn lemma_trim_end_prefix(s: Seq<char>)
    ensures
        text::trim_end(s).len() <= s.len(),
        text::trim_end(s) == s.take(text::trim_end(s).len() as int),
    decreases s.len(),
{
    if s.len() > 0 && text::is_space(s.last()) {
        lemma_trim_end_prefix(s.drop_last());
        assert(text::trim_end(s) == text::trim_end(s.drop_last()));
        assert(s.drop_last().take(text::trim_end(s).len() as int) =~= s.take(text::trim_end(s).len() as int));
    } else {
        assert(s.take(s.len() as int) =~= s);
    }
}

fn drop_exit(s: &str) -> (r: String)
    ensures
        r@ == without_exit(s@),
{
    let chars = chars_of(s);
    let t = trim_end_of(chars.as_slice());
    proof {
        reveal_strlit("exit");
        lemma_trim_end_prefix(s@);
    }
    if has_suffix(to_lower(t).as_slice(), "exit") {
        let short = string_of(head(chars.as_slice(), t.len() - 4));
        cat(short.as_str(), "\n")
    } else {
        string_of(chars.as_slice())
    }
}

/// The text of the conf that a launch runs. `with` gives, for each path of
/// `paths_to_resolve`, what it becomes. `launch` is what was found in a language
/// pack's directory; an overlay uses it only where the autoexec section starts
/// nothing. ECE reads the conf as it is, Staging a translated one.
pub fn patch_dosbox_conf(
    conf: &str,
    lp: &Option<LpPatch>,
    launch: &Option<LaunchCommand>,
    with: &Vec<String>,
    translate_for_staging: bool,
) -> (r: String)
    requires
        with@.len() == host_bodies(rewritten_part(conf@, *lp)).len(),
    ensures
        r@ == patched_text(conf@, *lp, *launch, text::texts(with@), translate_for_staging),
{
    let ghost want = launch_text(conf@, *lp, *launch, text::texts(with@));
    let chars = chars_of(conf);
    let base = match lp {
        None => rewrite_host_paths(conf, with),
        Some(LpPatch::Overlay { shortcode }) => {
            let result = rewrite_host_paths(conf, with);
            if autoexec_has_launch_cmd(result.as_str()) {
                result
            } else {
                match launch {
                    Some(l) => {
                        let mut out = drop_exit(result.as_str());
                        let ghost start = out@;
                        out.append("cd ");
                        out.append(shortcode.as_str());
                        out.append("\n");
                        assert(out@ =~= start + cd_line(shortcode@));
                        append_launch(&mut out, l);
                        out.append("exit\n");
                        out
                    },
                    None => result,
                }
            }
        },
        Some(LpPatch::Custom { game_dir }) => {
            let settings = string_of(up_to_mark(chars.as_slice(), "[autoexec]"));
            let mut out = rewrite_host_paths(settings.as_str(), with);
            let ghost start = out@;
            out.append("[autoexec]\n");
            out.append("@mount c \"");
            out.append(game_dir.as_str());
            out.append("\"\n");
            out.append("c:\n");
            assert(out@ =~= start + "[autoexec]\n"@ + ("@mount c \""@ + game_dir@ + "\"\n"@)
                + "c:\n"@);
            if let Some(l) = launch {
                append_launch(&mut out, l);
            } else {
                assert(out@ =~= out@ + Seq::<char>::empty());
            }
            out.append("exit\n");
            out
        },
    };
    assert(base@ == want);
    if translate_for_staging {
        let midi = crate::staging::translate_midi_for_staging(base.as_str());
        crate::staging::translate_ide_for_staging(midi.as_str())
    } else {
        base
    }
}

/// The file that a launch writes its conf to: beside the games, named after the
/// directory of the game's own conf, so that two games never share one.
pub open spec fn launch_conf_path_of(working_dir: Seq<char>, conf_path: Seq<char>) -> Seq<char> {
    let tag = match crate::fspath::parent_name(conf_path) {
        Some(name) => name,
        None => "conf"@,
    };
    crate::fspath::joined(working_dir, ".exodium_launch_"@ + tag + ".conf"@)
}

/// The file that a launch writes its conf to.
pub fn launch_conf_path(working_dir: &str, conf_path: &str) -> (r: String)
    ensures
        r@ == launch_conf_path_of(working_dir@, conf_path@),
{
    let tag = match crate::fspath::parent_name_of(conf_path) {
        Some(name) => name,
        None => string_of(chars_of("conf").as_slice()),
    };
    crate::fspath::join_path(
        working_dir,
        cat3(".exodium_launch_", tag.as_str(), ".conf").as_str(),
    )
}

// ── Laws ─────────────────────────────────────────────────────────────────────

/// The lines of `list` stand one behind the other from line `at` on.
pub open spec fn stand_at(all: Seq<Seq<char>>, at: int, list: Seq<Seq<char>>) -> bool {
    &&& 0 <= at
    &&& at + list.len() <= all.len()
    &&& forall|k: int| 0 <= k < list.len() ==> all[at + k] == #[trigger] list[k]
}

/// Whole lines that are added to a text stand at its end.
proof fn lemma_lines_added(a: Seq<char>, list: Seq<Seq<char>>, n: int)
    requires
        a.len() == 0 || a.last() == '\n',
        0 <= n <= list.len(),
        forall|k: int| 0 <= k < list.len() ==> text::is_plain_line(#[trigger] list[k]),
    ensures
        text::lines(a + ended(list, n)) == text::lines(a) + list.take(n),
        (a + ended(list, n)).len() == 0 || (a + ended(list, n)).last() == '\n',
    decreases n,
{
    reveal_strlit("\n");
    if n == 0 {
        assert(a + ended(list, n) =~= a);
        assert(text::lines(a) + list.take(0) =~= text::lines(a));
    } else {
        lemma_lines_added(a, list, n - 1);
        let before = a + ended(list, n - 1);
        text::lemma_lines_add(before, list[n - 1]);
        assert(a + ended(list, n) =~= before + list[n - 1] + "\n"@);
        assert(text::lines(a) + list.take(n) =~= (text::lines(a) + list.take(n - 1)).push(
            list[n - 1],
        ));
    }
}

/// The first `n` lines of a list, each with a line feed behind it.
pub open spec fn ended(list: Seq<Seq<char>>, n: int) -> Seq<char>
    decreases n,
{
    if n <= 0 {
        Seq::<char>::empty()
    } else {
        ended(list, n - 1) + list[n - 1] + "\n"@
    }
}

/// A command that stays as it is when a conf is translated: it sets nothing and mounts no
/// image.
pub open spec fn is_plain_command(command: Seq<char>) -> bool {
    &&& text::is_plain_line(command)
    &&& !command.contains('=')
    &&& !"imgmount"@.is_prefix_of(crate::staging::plain_command(command))
}

/// From line `m` on a conf mounts `game_dir` as drive C and switches to it, and with line
/// `n` it starts the game: between the two it changes into the game's directory, if it
/// needs one, and clears the screen. Then it leaves.
pub open spec fn starts_on_its_drive(
    ls: Seq<Seq<char>>,
    m: int,
    n: int,
    game_dir: Seq<char>,
    subdir: Seq<char>,
    command: Seq<char>,
) -> bool {
    &&& 0 <= m
    &&& m + 1 < n < ls.len() - 1
    &&& ls[m] == "@mount c \""@ + game_dir + "\""@
    &&& ls[m + 1] == "c:"@
    &&& forall|k: int| m + 1 < k < n ==> #[trigger] ls[k] == "cls"@ || (subdir.len() > 0 && ls[k]
        == "cd "@ + subdir)
    &&& subdir.len() > 0 ==> exists|k: int| m + 1 < k < n && #[trigger] ls[k] == "cd "@ + subdir
    &&& ls[n] == command
    &&& ls[n + 1] == "exit"@
}

/// In the section that is written for a language pack's game, the switch to drive C stands
/// behind the mount of the game's directory and before everything that needs it: when the
/// command is reached, the current drive is the mounted one. That holds of the conf as it
/// is written and of the one that is translated for Staging.
pub proof fn law_a_game_starts_on_its_own_drive(
    conf: Seq<char>,
    game_dir: String,
    launch: LaunchCommand,
    with: Seq<Seq<char>>,
    for_staging: bool,
)
    requires
        text::is_plain_line(game_dir@),
        text::is_plain_line(launch.subdir@),
        is_plain_command(launch.command@),
    ensures
        exists|m: int, n: int| #[trigger]
            starts_on_its_drive(
                text::lines(
                    patched_text(
                        conf,
                        Some(LpPatch::Custom { game_dir }),
                        Some(launch),
                        with,
                        for_staging,
                    ),
                ),
                m,
                n,
                game_dir@,
                launch.subdir@,
                launch.command@,
            ),
{
    let lp = Some(LpPatch::Custom { game_dir });
    let base = launch_text(conf, lp, Some(launch), with);
    let ls = text::lines(base);
    let mount = "@mount c \""@ + game_dir@ + "\""@;
    let cd = if launch.subdir@.len() > 0 {
        seq!["cd "@ + launch.subdir@]
    } else {
        Seq::<Seq<char>>::empty()
    };
    let block = seq![mount, "c:"@] + cd + seq!["cls"@, launch.command@, "exit"@];
    lemma_own_lines(game_dir@, launch.subdir@);
    assert forall|k: int| 0 <= k < block.len() implies crate::staging::is_left_alone(
        #[trigger] block[k],
    ) by {
        if k >= 2 && k < 2 + cd.len() {
            assert(block[k] == "cd "@ + launch.subdir@);
        }
    }
    let at = lemma_own_section(conf, game_dir, launch, with, block);
    let out = text::lines(patched_text(conf, lp, Some(launch), with, for_staging));
    let to = if for_staging {
        crate::staging::law_what_sets_nothing_stays(base, at, block);
        choose|to: int| #[trigger] stand_at(out, to, block)
    } else {
        at
    };
    assert(stand_at(out, to, block));
    let c = cd.len() as int;
    let n = to + 3 + c;
    assert(out[to + 0] == block[0]);
    assert(out[to + 1] == block[1]);
    assert(out[to + (3 + c)] == block[3 + c]);
    assert(out[to + (4 + c)] == block[4 + c]);
    assert forall|k: int| to + 1 < k < n implies #[trigger] out[k] == "cls"@ || (
    launch.subdir@.len() > 0 && out[k] == "cd "@ + launch.subdir@) by {
        assert(out[to + (k - to)] == block[k - to]);
    }
    if launch.subdir@.len() > 0 {
        assert(out[to + 2] == block[2]);
        assert(block[2] == cd[0]);
    }
    assert(starts_on_its_drive(out, to, n, game_dir@, launch.subdir@, launch.command@));
}

/// The lines that are written are ones that no translation touches.
proof fn lemma_own_lines(game_dir: Seq<char>, subdir: Seq<char>)
    requires
        text::is_plain_line(game_dir),
        text::is_plain_line(subdir),
    ensures
        crate::staging::is_left_alone("@mount c \""@ + game_dir + "\""@),
        crate::staging::is_left_alone("c:"@),
        crate::staging::is_left_alone("cd "@ + subdir),
        crate::staging::is_left_alone("cls"@),
        crate::staging::is_left_alone("exit"@),
{
    reveal_strlit("@mount c \"");
    reveal_strlit("\"");
    reveal_strlit("c:");
    reveal_strlit("cd ");
    reveal_strlit("cls");
    reveal_strlit("exit");
    reveal_strlit("imgmount");
    let mount = "@mount c \""@ + game_dir + "\""@;
    assert(text::is_plain_line("@mount c \""@) && text::is_plain_line("\""@));
    text::lemma_add_plain("@mount c \""@, game_dir);
    text::lemma_add_plain("@mount c \""@ + game_dir, "\""@);
    assert(text::is_plain_line("cd "@));
    text::lemma_add_plain("cd "@, subdir);
    assert(text::is_plain_line("c:"@) && text::is_plain_line("cls"@) && text::is_plain_line(
        "exit"@,
    ));
    assert(!text::is_space('c') && !text::is_space('e') && !text::is_space('@'));
    lemma_no_image("c:"@);
    lemma_no_image("cd "@ + subdir);
    lemma_no_image("cls"@);
    lemma_no_image("exit"@);
    let low = text::lower(mount);
    assert(mount[0] == '@' && mount[1] == 'm');
    assert(low[0] == '@' && low[1] == 'm');
    assert(text::trim_start(low) == low);
    assert(text::strip_front(low, '@') == text::strip_front(low.skip(1), '@'));
    assert(low.skip(1)[0] == 'm');
    let cmd = crate::staging::plain_command(mount);
    assert(cmd == low.skip(1));
    if "imgmount"@.is_prefix_of(cmd) {
        assert(cmd.take(8)[0] == "imgmount"@[0]);
    }
}

proof fn lemma_no_image(line: Seq<char>)
    requires
        line.len() > 0,
        line[0] == 'c' || line[0] == 'e',
    ensures
        !"imgmount"@.is_prefix_of(crate::staging::plain_command(line)),
{
    reveal_strlit("imgmount");
    let low = text::lower(line);
    assert(low[0] == line[0]);
    assert(!text::is_space(low[0]));
    assert(text::trim_start(low) == low);
    assert(crate::staging::plain_command(line) == low);
    if "imgmount"@.is_prefix_of(low) {
        assert(low.take(8)[0] == "imgmount"@[0]);
    }
}

proof fn lemma_own_section(
    conf: Seq<char>,
    game_dir: String,
    launch: LaunchCommand,
    with: Seq<Seq<char>>,
    block: Seq<Seq<char>>,
) -> (at: int)
    requires
        block == seq!["@mount c \""@ + game_dir@ + "\""@, "c:"@] + (if launch.subdir@.len() > 0 {
            seq!["cd "@ + launch.subdir@]
        } else {
            Seq::<Seq<char>>::empty()
        }) + seq!["cls"@, launch.command@, "exit"@],
        forall|k: int| 0 <= k < block.len() ==> text::is_plain_line(#[trigger] block[k]),
    ensures
        stand_at(
            text::lines(
                launch_text(conf, Some(LpPatch::Custom { game_dir }), Some(launch), with),
            ),
            at,
            block,
        ),
{
    let lp = Some(LpPatch::Custom { game_dir });
    let ls = text::lines(launch_text(conf, lp, Some(launch), with));
    let start = rewritten(text::before_mark(conf, "[autoexec]"@), with) + "[autoexec]\n"@;
    lemma_own_text(conf, game_dir, launch, with, block);
    let at = text::lines(start).len() as int;
    assert(stand_at(ls, at, block));
    at
}

/// The English section does not run where a pack's game has a section of its own: before it
/// stand the settings of the conf, and behind it nothing does.
pub proof fn law_a_section_of_its_own_replaces_the_english_one(
    conf: Seq<char>,
    game_dir: String,
    launch: LaunchCommand,
    with: Seq<Seq<char>>,
)
    requires
        text::is_plain_line(game_dir@),
        text::is_plain_line(launch.subdir@),
        text::is_plain_line(launch.command@),
        ({
            let settings = rewritten(text::before_mark(conf, "[autoexec]"@), with);
            settings.len() == 0 || settings.last() == '\n'
        }),
    ensures
        ({
            let settings = rewritten(text::before_mark(conf, "[autoexec]"@), with);
            let out = text::lines(
                patched_text(
                    conf,
                    Some(LpPatch::Custom { game_dir }),
                    Some(launch),
                    with,
                    false,
                ),
            );
            let n = text::lines(settings).len() as int;
            &&& out.take(n) == text::lines(settings)
            &&& out[n] == "[autoexec]"@
            &&& starts_on_its_drive(
                out,
                n + 1,
                out.len() - 2,
                game_dir@,
                launch.subdir@,
                launch.command@,
            )
        }),
{
    let lp = Some(LpPatch::Custom { game_dir });
    let base = launch_text(conf, lp, Some(launch), with);
    let settings = rewritten(text::before_mark(conf, "[autoexec]"@), with);
    let cd = if launch.subdir@.len() > 0 {
        seq!["cd "@ + launch.subdir@]
    } else {
        Seq::<Seq<char>>::empty()
    };
    let block = seq!["@mount c \""@ + game_dir@ + "\""@, "c:"@] + cd + seq![
        "cls"@,
        launch.command@,
        "exit"@,
    ];
    lemma_own_lines(game_dir@, launch.subdir@);
    assert forall|k: int| 0 <= k < block.len() implies text::is_plain_line(#[trigger] block[k]) by {
        if k >= 2 && k < 2 + cd.len() {
            assert(block[k] == "cd "@ + launch.subdir@);
        }
    }
    lemma_own_text(conf, game_dir, launch, with, block);
    let start = settings + "[autoexec]\n"@;
    reveal_strlit("[autoexec]\n");
    reveal_strlit("[autoexec]");
    reveal_strlit("\n");
    assert(text::is_plain_line("[autoexec]"@));
    text::lemma_lines_add(settings, "[autoexec]"@);
    assert("[autoexec]\n"@ =~= "[autoexec]"@ + "\n"@);
    assert(start =~= settings + "[autoexec]"@ + "\n"@);
    let out = text::lines(base);
    let n = text::lines(settings).len() as int;
    assert(out == text::lines(settings).push("[autoexec]"@) + block);
    assert(out.take(n) =~= text::lines(settings));
    let c = cd.len() as int;
    assert(out.len() == n + 6 + c);
    assert(out[n + 1] == block[0] && out[n + 2] == block[1]);
    assert(out[n + 4 + c] == block[3 + c]);
    assert(out[n + 5 + c] == block[4 + c]);
    assert forall|k: int| n + 2 < k < n + 4 + c implies #[trigger] out[k] == "cls"@ || (
    launch.subdir@.len() > 0 && out[k] == "cd "@ + launch.subdir@) by {
        assert(out[k] == block[k - n - 1]);
    }
    if launch.subdir@.len() > 0 {
        assert(out[n + 3] == block[2]);
        assert(block[2] == cd[0]);
    }
}

proof fn lemma_own_text(
    conf: Seq<char>,
    game_dir: String,
    launch: LaunchCommand,
    with: Seq<Seq<char>>,
    block: Seq<Seq<char>>,
)
    requires
        block == seq!["@mount c \""@ + game_dir@ + "\""@, "c:"@] + (if launch.subdir@.len() > 0 {
            seq!["cd "@ + launch.subdir@]
        } else {
            Seq::<Seq<char>>::empty()
        }) + seq!["cls"@, launch.command@, "exit"@],
        forall|k: int| 0 <= k < block.len() ==> text::is_plain_line(#[trigger] block[k]),
    ensures
        text::lines(launch_text(conf, Some(LpPatch::Custom { game_dir }), Some(launch), with))
            == text::lines(
            rewritten(text::before_mark(conf, "[autoexec]"@), with) + "[autoexec]\n"@,
        ) + block,
{
    let lp = Some(LpPatch::Custom { game_dir });
    let base = launch_text(conf, lp, Some(launch), with);
    let start = rewritten(text::before_mark(conf, "[autoexec]"@), with) + "[autoexec]\n"@;
    reveal_strlit("[autoexec]\n");
    reveal_strlit("@mount c \"");
    reveal_strlit("\"\n");
    reveal_strlit("\"");
    reveal_strlit("\n");
    reveal_strlit("c:\n");
    reveal_strlit("c:");
    reveal_strlit("cls\n");
    reveal_strlit("cls");
    reveal_strlit("exit\n");
    reveal_strlit("exit");
    let n = block.len() as int;
    assert(start.last() == '\n');
    lemma_lines_added(start, block, n);
    reveal_with_fuel(ended, 7);
    assert("\"\n"@ =~= "\""@ + "\n"@);
    assert("c:\n"@ =~= "c:"@ + "\n"@);
    assert("cls\n"@ =~= "cls"@ + "\n"@);
    assert("exit\n"@ =~= "exit"@ + "\n"@);
    if launch.subdir@.len() > 0 {
        assert(base =~= start + ended(block, n));
    } else {
        assert(base =~= start + ended(block, n));
    }
    assert(block.take(n) =~= block);
}

/// The lines that start a game and leave.
proof fn lemma_written(launch: LaunchCommand, block: Seq<Seq<char>>)
    requires
        block =~= (if launch.subdir@.len() > 0 {
            seq!["cd "@ + launch.subdir@]
        } else {
            Seq::<Seq<char>>::empty()
        }) + seq!["cls"@, launch.command@, "exit"@],
    ensures
        launch_lines(launch) + "exit\n"@ == ended(block, block.len() as int),
{
    reveal_strlit("\n");
    reveal_strlit("cls\n");
    reveal_strlit("cls");
    reveal_strlit("exit\n");
    reveal_strlit("exit");
    reveal_with_fuel(ended, 5);
    assert("cls\n"@ =~= "cls"@ + "\n"@);
    assert("exit\n"@ =~= "exit"@ + "\n"@);
    if launch.subdir@.len() > 0 {
        assert(launch_lines(launch) + "exit\n"@ =~= ended(block, block.len() as int));
    } else {
        assert(launch_lines(launch) + "exit\n"@ =~= ended(block, block.len() as int));
    }
}

/// Where the English section of an overlay starts nothing and ends in an `exit`, the command
/// that was found is reached: the `exit` goes, and behind the section the guest changes into
/// the game's directory, starts the game and then leaves.
pub proof fn law_a_command_behind_an_exit_is_reached(
    conf: Seq<char>,
    shortcode: String,
    launch: LaunchCommand,
    with: Seq<Seq<char>>,
    before: Seq<char>,
)
    requires
        rewritten(conf, with) == before + "exit\n"@,
        before.len() > 0 && before.last() == '\n',
        !launches(rewritten(conf, with)),
        text::is_plain_line(shortcode@),
        text::is_plain_line(launch.subdir@),
        text::is_plain_line(launch.command@),
    ensures
        ({
            let out = text::lines(
                patched_text(
                    conf,
                    Some(LpPatch::Overlay { shortcode }),
                    Some(launch),
                    with,
                    false,
                ),
            );
            let n = text::lines(before).len() as int;
            &&& out.take(n) == text::lines(before)
            &&& out[n].len() == 0
            &&& out[n + 1] == "cd "@ + shortcode@
            &&& launch.subdir@.len() > 0 ==> out[n + 2] == "cd "@ + launch.subdir@
            &&& out.len() == n + 5 + (if launch.subdir@.len() > 0 {
                1int
            } else {
                0
            })
            &&& out[out.len() - 3] == "cls"@
            &&& out[out.len() - 2] == launch.command@
            &&& out[out.len() - 1] == "exit"@
        }),
{
    let lp = Some(LpPatch::Overlay { shortcode });
    let text = launch_text(conf, lp, Some(launch), with);
    let base = before + "exit\n"@;
    reveal_strlit("exit\n");
    reveal_strlit("exit");
    reveal_strlit("\n");
    let t = text::trim_end(base);
    assert(base.last() == '\n' && text::is_space('\n') && !text::is_space('t'));
    let short = base.drop_last();
    assert(short =~= before + "exit"@);
    assert(short.last() == 't');
    reveal_with_fuel(text::drop_trailing, 3);
    assert(t == short);
    assert(text::lower(t).subrange(t.len() - 4, t.len() as int) =~= "exit"@) by {
        assert(t[t.len() - 4] == 'e' && t[t.len() - 3] == 'x' && t[t.len() - 2] == 'i'
            && t[t.len() - 1] == 't');
    }
    assert(base.take(t.len() - 4) =~= before);
    assert(without_exit(base) == before + "\n"@);
    let cd = if launch.subdir@.len() > 0 {
        seq!["cd "@ + launch.subdir@]
    } else {
        Seq::<Seq<char>>::empty()
    };
    let tail = cd + seq!["cls"@, launch.command@, "exit"@];
    lemma_written(launch, tail);
    let block = seq!["cd "@ + shortcode@] + tail;
    lemma_own_lines(shortcode@, launch.subdir@);
    reveal_strlit("cd ");
    assert(text::is_plain_line("cd "@));
    text::lemma_add_plain("cd "@, shortcode@);
    assert forall|k: int| 0 <= k < block.len() implies text::is_plain_line(#[trigger] block[k]) by {
        if k >= 1 && k < 1 + cd.len() {
            assert(block[k] == "cd "@ + launch.subdir@);
        }
    }
    let none = Seq::<char>::empty();
    text::lemma_lines_add(before, none);
    assert(before + none + "\n"@ =~= before + "\n"@);
    let start = before + "\n"@;
    let n = block.len() as int;
    lemma_lines_added(start, block, n);
    assert(block.take(n) =~= block);
    assert(text =~= start + ended(block, n)) by {
        lemma_ended_first("cd "@ + shortcode@, tail, tail.len() as int);
        assert(cd_line(shortcode@) =~= "cd "@ + shortcode@ + "\n"@);
        assert(ended(block, n) =~= cd_line(shortcode@) + ended(tail, tail.len() as int));
    }
    let out = text::lines(text);
    assert(out == text::lines(before).push(none) + block);
    assert(out.take(text::lines(before).len() as int) =~= text::lines(before));
}

proof fn lemma_ended_first(first: Seq<char>, list: Seq<Seq<char>>, n: int)
    requires
        0 <= n <= list.len(),
    ensures
        ended(seq![first] + list, n + 1) == first + "\n"@ + ended(list, n),
    decreases n,
{
    let all = seq![first] + list;
    if n == 0 {
        reveal_with_fuel(ended, 2);
        assert(ended(all, 1) =~= first + "\n"@ + ended(list, 0));
    } else {
        lemma_ended_first(first, list, n - 1);
        assert(all[n] == list[n - 1]);
        assert(ended(all, n + 1) =~= first + "\n"@ + ended(list, n));
    }
}

/// Where the English section starts something, an overlay runs it as it is, and so does a
/// game without a language pack: no line is added.
pub proof fn law_a_section_that_starts_something_is_run_as_it_is(
    conf: Seq<char>,
    shortcode: String,
    launch: Option<LaunchCommand>,
    with: Seq<Seq<char>>,
)
    requires
        launches(rewritten(conf, with)),
    ensures
        patched_text(conf, Some(LpPatch::Overlay { shortcode }), launch, with, false) == rewritten(
            conf,
            with,
        ),
        patched_text(conf, None, launch, with, false) == rewritten(conf, with),
{
}

/// A command, in small letters, that starts no game, by what it begins with.
pub open spec fn begins_idly(l: Seq<char>) -> bool {
    let starts = seq![
        "#"@,
        "rem "@,
        "mount "@,
        "imgmount"@,
        "echo "@,
        "cd "@,
        "cd\\"@,
        "set "@,
        "config "@,
        "cls"@,
        "exit"@,
    ];
    exists|i: int| 0 <= i < starts.len() && (#[trigger] starts[i]).is_prefix_of(l)
}

proof fn lemma_idle(l: Seq<char>)
    requires
        begins_idly(l),
    ensures
        "#"@.is_prefix_of(l) || "rem "@.is_prefix_of(l) || "mount "@.is_prefix_of(l)
            || "imgmount"@.is_prefix_of(l) || keeps_house(l),
{
    let starts = seq![
        "#"@,
        "rem "@,
        "mount "@,
        "imgmount"@,
        "echo "@,
        "cd "@,
        "cd\\"@,
        "set "@,
        "config "@,
        "cls"@,
        "exit"@,
    ];
    let i = choose|i: int| 0 <= i < starts.len() && (#[trigger] starts[i]).is_prefix_of(l);
    assert(starts[0] == "#"@ && starts[1] == "rem "@ && starts[2] == "mount "@ && starts[3]
        == "imgmount"@ && starts[4] == "echo "@ && starts[5] == "cd "@ && starts[6] == "cd\\"@
        && starts[7] == "set "@ && starts[8] == "config "@ && starts[9] == "cls"@ && starts[10]
        == "exit"@);
    assert(i == 0 || i == 1 || i == 2 || i == 3 || i == 4 || i == 5 || i == 6 || i == 7 || i == 8 || i
        == 9 || i == 10);
}

/// A line is blank, or gives a command that starts no game: a comment, a mount, a switch to a
/// drive or housekeeping.
pub open spec fn is_idle_line(line: Seq<char>) -> bool {
    let t = text::trim(line);
    let l = text::lower(if t.len() > 0 && t[0] == '@' {
        text::trim(t.skip(1))
    } else {
        t
    });
    &&& t.len() > 0 && t[0] == '@' ==> (t.len() > 1 && t[1] != '@')
    &&& l.len() == 0 || begins_idly(l) || (l.len() >= 2 && l[1] == ':' && 'a' <= l[0] <= 'z')
}

/// A section whose lines are all idle starts no game, and with any other command it does.
pub proof fn law_only_commands_start_a_game(conf: Seq<char>, section: Seq<char>)
    requires
        text::after_mark(conf, "[autoexec]"@) == Some(section),
        forall|i: int|
            0 <= i < text::lines(section).len() ==> is_idle_line(#[trigger] text::lines(section)[i]),
    ensures
        !launches(conf),
{
    let ls = text::lines(section);
    assert forall|i: int| 0 <= i < ls.len() implies !may_launch(#[trigger] ls[i]) by {
        let line = ls[i];
        assert(is_idle_line(line));
        let t = text::trim(line);
        if t.len() > 0 && t[0] == '@' {
            assert(text::strip_front(t, '@') == text::strip_front(t.skip(1), '@'));
            assert(t.skip(1)[0] == t[1]);
            assert(text::strip_front(t.skip(1), '@') == t.skip(1));
            let l = text::lower(text::trim(t.skip(1)));
            if l.len() > 0 && begins_idly(l) {
                lemma_idle(l);
            }
        } else {
            assert(text::strip_front(t, '@') == t);
            text::lemma_trim_again(line);
            let l = text::lower(t);
            if l.len() > 0 && begins_idly(l) {
                lemma_idle(l);
            }
        }
    }
}

/// A line that gives a command of no idle kind starts a game.
pub proof fn law_a_command_starts_a_game(
    conf: Seq<char>,
    section: Seq<char>,
    i: int,
    command: Seq<char>,
)
    requires
        text::after_mark(conf, "[autoexec]"@) == Some(section),
        0 <= i < text::lines(section).len(),
        text::trim(text::lines(section)[i]) == command || text::trim(text::lines(section)[i]) == "@"@
            + command,
        command.len() > 2,
        text::trim(command) == command,
        command[0] != '@',
        command[1] != ':',
        !begins_idly(text::lower(command)),
        !"rem"@.is_prefix_of(text::lower(command)),
        !"cd"@.is_prefix_of(text::lower(command)),
        !"echo"@.is_prefix_of(text::lower(command)),
        !"mount"@.is_prefix_of(text::lower(command)),
        !"pause"@.is_prefix_of(text::lower(command)),
    ensures
        launches(conf),
{
    let line = text::lines(section)[i];
    let t = text::trim(line);
    let l = text::lower(command);
    reveal_strlit("@");
    reveal_strlit("@echo");
    reveal_strlit("echo");
    if t == "@"@ + command {
        assert(t[0] == '@');
        assert(t.skip(1) =~= command);
        assert(text::strip_front(t, '@') == text::strip_front(command, '@'));
        if "@echo"@.is_prefix_of(text::lower(t)) {
            assert(text::lower(t).take(5).skip(1) =~= l.take(4));
            assert("@echo"@.skip(1) =~= "echo"@);
        }
    } else {
        if "@echo"@.is_prefix_of(text::lower(t)) {
            assert(text::lower(t).take(5)[0] == '@');
            assert(text::lower(t)[0] == text::lower_char(t[0]));
        }
    }
    assert(text::strip_front(command, '@') == command);
    lemma_not_idle(l);
    assert(may_launch(line));
    assert(section_launches(section));
}

proof fn lemma_not_idle(l: Seq<char>)
    requires
        !begins_idly(l),
        !"rem"@.is_prefix_of(l),
        !"cd"@.is_prefix_of(l),
        !"echo"@.is_prefix_of(l),
        !"mount"@.is_prefix_of(l),
        !"pause"@.is_prefix_of(l),
    ensures
        !keeps_house(l),
        !"#"@.is_prefix_of(l),
        l != "rem"@,
        !"rem "@.is_prefix_of(l),
        l != "mount"@,
        !"mount "@.is_prefix_of(l),
        !"imgmount"@.is_prefix_of(l),
{
    let starts = seq![
        "#"@,
        "rem "@,
        "mount "@,
        "imgmount"@,
        "echo "@,
        "cd "@,
        "cd\\"@,
        "set "@,
        "config "@,
        "cls"@,
        "exit"@,
    ];
    assert(starts[0] == "#"@ && starts[1] == "rem "@ && starts[2] == "mount "@ && starts[3]
        == "imgmount"@ && starts[4] == "echo "@ && starts[5] == "cd "@ && starts[6] == "cd\\"@
        && starts[7] == "set "@ && starts[8] == "config "@ && starts[9] == "cls"@ && starts[10]
        == "exit"@);
    assert(!starts[0].is_prefix_of(l) && !starts[1].is_prefix_of(l) && !starts[2].is_prefix_of(l)
        && !starts[3].is_prefix_of(l) && !starts[4].is_prefix_of(l) && !starts[5].is_prefix_of(l));
    assert(!starts[6].is_prefix_of(l) && !starts[7].is_prefix_of(l) && !starts[8].is_prefix_of(l)
        && !starts[9].is_prefix_of(l) && !starts[10].is_prefix_of(l));
    assert("rem"@.take("rem"@.len() as int) =~= "rem"@);
    assert("cd"@.take("cd"@.len() as int) =~= "cd"@);
    assert("echo"@.take("echo"@.len() as int) =~= "echo"@);
    assert("mount"@.take("mount"@.len() as int) =~= "mount"@);
    assert("pause"@.take("pause"@.len() as int) =~= "pause"@);
    reveal_strlit("cd");
    reveal_strlit("cd.");
    reveal_strlit("echo");
    reveal_strlit("echo.");
    if "cd."@.is_prefix_of(l) {
        assert(l.take(2) =~= l.take(3).take(2));
        assert("cd."@.take(2) =~= "cd"@);
    }
    if "echo."@.is_prefix_of(l) {
        assert(l.take(4) =~= l.take(5).take(4));
        assert("echo."@.take(4) =~= "echo"@);
    }
}

/// A line up to a path mounts something: its first word, bare of the `@`s in front of it, is
/// `mount` or `imgmount`, capitals aside.
pub open spec fn begins_a_mount(line: Seq<char>) -> bool {
    let ws = text::words(text::strip_front(text::trim_start(line), '@'));
    ws.len() > 0 && (text::lower(ws[0]) == "mount"@ || text::lower(ws[0]) == "imgmount"@)
}

proof fn lemma_path_runs(s: Seq<char>, from: int, end: int, quoted: bool)
    requires
        0 <= from <= end <= s.len(),
        forall|i: int|
            from <= i < end ==> !((quoted && #[trigger] s[i] == '"') || (!quoted && text::is_space(
                s[i],
            ))),
        end == s.len() || (quoted && s[end] == '"') || (!quoted && text::is_space(s[end])),
    ensures
        path_end(s, from, quoted) == end,
    decreases end - from,
{
    if from < end {
        assert(!((quoted && s[from] == '"') || (!quoted && text::is_space(s[from]))));
        lemma_path_runs(s, from + 1, end, quoted);
    }
}

proof fn lemma_one_path(a: Seq<char>, body: Seq<char>, b: Seq<char>, r: Seq<char>, quoted: bool)
    requires
        !text::has(a, ".\\"@),
        !text::has(b, ".\\"@),
        quoted == (a.len() > 0 && a.last() == '"'),
        forall|i: int|
            0 <= i < body.len() ==> !((quoted && #[trigger] body[i] == '"') || (!quoted
                && text::is_space(body[i]))),
        b.len() == 0 || (quoted && b[0] == '"') || (!quoted && text::is_space(b[0])),
    ensures
        host_bodies(a + ".\\"@ + body + b) == seq![body],
        rewritten(a + ".\\"@ + body + b, seq![r]) == a + placed(
            a + ".\\"@ + body + b,
            a.len() as int,
            r,
        ) + b,
        in_quotes(a + ".\\"@ + body + b, a.len() as int) == quoted,
{
    reveal_strlit(".\\");
    let dot = ".\\"@;
    let s = a + dot + body + b;
    let at = a.len() as int;
    let end = at + 2 + body.len();
    assert(s.subrange(at, at + 2) =~= dot);
    assert forall|k: int| 0 <= k < at implies !text::occurs_at(s, dot, k) by {
        if text::occurs_at(s, dot, k) {
            assert(s.subrange(k, k + 2)[1] == s[k + 1]);
            if k + 2 <= at {
                assert(a.subrange(k, k + 2) =~= s.subrange(k, k + 2));
                text::lemma_has(a, dot, k);
            } else {
                assert(s[k + 1] == '.');
            }
        }
    }
    text::lemma_find_from(s, dot, 0);
    assert(text::occurs_at(s, dot, at));
    assert(text::find_from(s, dot, 0) == Some(at));
    assert(in_quotes(s, at) == quoted);
    assert forall|i: int| at + 2 <= i < end implies !((quoted && #[trigger] s[i] == '"') || (!quoted
        && text::is_space(s[i]))) by {
        assert(s[i] == body[i - at - 2]);
    }
    if b.len() > 0 {
        assert(s[end] == b[0]);
    }
    lemma_path_runs(s, at + 2, end, quoted);
    text::lemma_find_from(s, dot, end);
    if let Some(k) = text::find_from(s, dot, end) {
        assert(b.subrange(k - end, k - end + 2) =~= s.subrange(k, k + 2));
        text::lemma_has(b, dot, k - end);
    }
    assert(s.subrange(at + 2, end) =~= body);
    assert(s.skip(end) =~= b);
    assert(s.subrange(0, at) =~= a);
    assert(paths_from(s, end) =~= Seq::<Seq<char>>::empty());
    assert(host_bodies(s) =~= seq![body]);
    let with = seq![r];
    assert(with[0] == r);
    assert(rewritten_from(s, end, with.skip(1)) == s.skip(end));
    assert(rewritten(s, with) == s.subrange(0, at) + placed(s, at, with[0]) + rewritten_from(
        s,
        end,
        with.skip(1),
    ));
}

/// A path of the host that a conf names is replaced, and all around it stays: in an argument
/// of a mount it is quoted where it has a blank, and elsewhere it never is.
pub proof fn law_a_host_path_is_replaced(
    before: Seq<char>,
    line: Seq<char>,
    body: Seq<char>,
    behind: Seq<char>,
    with: Seq<char>,
)
    requires
        before.len() == 0 || before.last() == '\n',
        !line.contains('\n'),
        !text::has(before + line, ".\\"@),
        !text::has(behind, ".\\"@),
        line.len() == 0 || line.last() != '"',
        forall|i: int| 0 <= i < body.len() ==> !text::is_space(#[trigger] body[i]),
        behind.len() == 0 || text::is_space(behind[0]),
    ensures
        host_bodies(before + line + ".\\"@ + body + behind) == seq![body],
        rewritten(before + line + ".\\"@ + body + behind, seq![with]) == before + line + (
        if with.contains(' ') && begins_a_mount(line) {
            "\""@ + with + "\""@
        } else {
            with
        }) + behind,
{
    let a = before + line;
    let s = a + ".\\"@ + body + behind;
    assert(a.len() > 0 && line.len() == 0 ==> a.last() == '\n');
    lemma_one_path(a, body, behind, with, false);
    reveal_strlit("mount");
    reveal_strlit("imgmount");
    assert(text::lower("mount"@) =~= "mount"@);
    assert(text::lower("imgmount"@) =~= "imgmount"@);
    assert(s.take(a.len() as int) =~= a);
    text::lemma_last_char(a, '\n');
    let found = match text::last_char(a, '\n') {
        Some(i) => a.skip(i + 1),
        None => a,
    };
    assert(found =~= line) by {
        if let Some(i) = text::last_char(a, '\n') {
            if i >= before.len() {
                assert(line[i - before.len()] == '\n');
                assert(line.contains('\n'));
            } else if i < before.len() - 1 {
                assert(a[before.len() - 1] == '\n');
            }
        } else if before.len() > 0 {
            assert(a[before.len() - 1] == '\n');
        }
    }
    assert(mounting_at(s, a.len() as int) == begins_a_mount(line));
}

/// A quoted path of the host is replaced between its quotes, with its blanks.
pub proof fn law_a_quoted_path_stays_quoted(
    before: Seq<char>,
    body: Seq<char>,
    behind: Seq<char>,
    with: Seq<char>,
)
    requires
        !text::has(before, ".\\"@),
        !text::has(behind, ".\\"@),
        !body.contains('"'),
    ensures
        host_bodies(before + "\".\\"@ + body + "\""@ + behind) == seq![body],
        rewritten(before + "\".\\"@ + body + "\""@ + behind, seq![with]) == before + "\""@ + with
            + "\""@ + behind,
{
    reveal_strlit("\".\\");
    reveal_strlit("\"");
    reveal_strlit(".\\");
    let dot = ".\\"@;
    let a = before + "\""@;
    let b = "\""@ + behind;
    if text::has(a, dot) {
        text::lemma_find_from(a, dot, 0);
        let k = text::find(a, dot)->0;
        assert(a.subrange(k, k + 2)[1] == a[k + 1]);
        assert(k + 1 < before.len());
        assert(before.subrange(k, k + 2) =~= a.subrange(k, k + 2));
        text::lemma_has(before, dot, k);
    }
    if text::has(b, dot) {
        text::lemma_find_from(b, dot, 0);
        let k = text::find(b, dot)->0;
        assert(b.subrange(k, k + 2)[0] == b[k]);
        assert(k > 0);
        assert(behind.subrange(k - 1, k + 1) =~= b.subrange(k, k + 2));
        text::lemma_has(behind, dot, k - 1);
    }
    assert forall|i: int| 0 <= i < body.len() implies #[trigger] body[i] != '"' by {
        assert(body.contains(body[i]));
    }
    lemma_one_path(a, body, b, with, true);
    assert(before + "\".\\"@ + body + "\""@ + behind =~= a + dot + body + b);
    assert(a + with + b =~= before + "\""@ + with + "\""@ + behind);
}

/// What exists below the working directory becomes a path of the host, with forward slashes
/// and without separators at its end; what does not stays the guest's.
pub proof fn law_host_paths_exist(working_dir: Seq<char>, body: Seq<char>)
    requires
        body.len() > 0,
        !working_dir.contains('\\'),
        body.last() != '\\',
        body.last() != '/',
        body.last() != ':',
    ensures
        host_path_of(working_dir, body, true) == working_dir + "/"@ + text::swap_char(
            body,
            '\\',
            '/',
        ),
        host_path_of(working_dir, body, false) == ".\\"@ + body,
        !host_path_of(working_dir, body, true).contains('\\'),
{
    reveal_strlit("/");
    let wd = working_dir + "/"@;
    let b = text::swap_char(body, '\\', '/');
    assert(text::swap_char(wd, '\\', '/') =~= wd) by {
        assert forall|i: int| 0 <= i < wd.len() implies #[trigger] wd[i] != '\\' by {
            if i < working_dir.len() {
                assert(working_dir.contains(working_dir[i]));
            }
        }
    }
    let whole = wd + b;
    assert(whole.last() == b.last() && b.last() == body.last());
    assert(text::strip_back(whole, '/') == whole);
    assert(working_dir + "/"@ + b =~= whole);
    assert(!whole.contains('\\')) by {
        assert forall|i: int| 0 <= i < whole.len() implies #[trigger] whole[i] != '\\' by {
            if i < wd.len() {
                if i < working_dir.len() {
                    assert(working_dir.contains(working_dir[i]));
                }
            } else {
                assert(whole[i] == b[i - wd.len()]);
            }
        }
    }
}

/// Separators at the end of a path do not count.
pub proof fn law_trailing_separators_go(working_dir: Seq<char>, body: Seq<char>)
    requires
        body.len() > 0,
        body.last() != '\\',
        body.last() != '/',
        body.last() != ':',
    ensures
        host_path_of(working_dir, body.push('\\'), true) == host_path_of(working_dir, body, true),
{
    let more = body.push('\\');
    let a = host_candidate_of(working_dir, body);
    let b = host_candidate_of(working_dir, more);
    assert(b =~= a.push('/'));
    assert(b.drop_last() =~= a);
    assert(a.last() == body.last());
    assert(text::strip_back(a, '/') == a);
    assert(text::strip_back(b, '/') == text::strip_back(a, '/'));
}

/// Through an overlay a path of the game folder leads into the overlay where that has it, and
/// any other path where it leads without an overlay.
pub proof fn law_the_overlay_shadows_the_game_folder(
    staging: Seq<char>,
    game_folder: Seq<char>,
    working_dir: Seq<char>,
    rest: Seq<char>,
    body: Seq<char>,
    there: bool,
)
    requires
        !staging.contains('\\'),
        !game_folder.contains('\\'),
        rest.len() > 0,
        rest.last() != '\\',
        rest.last() != '/',
        rest.last() != ':',
    ensures
        overlay_path_of(staging, game_folder, working_dir, game_folder + rest, true, there)
            == staging + text::swap_char(rest, '\\', '/'),
        overlay_path_of(staging, game_folder, working_dir, body, false, there) == host_path_of(
            working_dir,
            body,
            there,
        ),
        !game_folder.is_prefix_of(text::swap_char(body, '\\', '/')) ==> overlay_path_of(
            staging,
            game_folder,
            working_dir,
            body,
            true,
            there,
        ) == host_path_of(working_dir, body, there),
{
    let path = game_folder + rest;
    let b = text::swap_char(path, '\\', '/');
    let r = text::swap_char(rest, '\\', '/');
    lemma_swap_plain(game_folder);
    lemma_swap_plain(staging);
    assert(b =~= game_folder + r) by {
        assert forall|i: int| 0 <= i < b.len() implies #[trigger] b[i] == (game_folder + r)[i] by {
            if i < game_folder.len() {
                assert(game_folder.contains(game_folder[i]));
                assert(path[i] == game_folder[i]);
            } else {
                assert(path[i] == rest[i - game_folder.len()]);
            }
        }
    }
    assert(b.take(game_folder.len() as int) =~= game_folder);
    assert(b.skip(game_folder.len() as int) =~= r);
    let whole = staging + r;
    assert(whole.last() == r.last() && r.last() == rest.last());
    assert(text::strip_back(whole, '/') == whole);
}

proof fn lemma_swap_plain(s: Seq<char>)
    requires
        !s.contains('\\'),
    ensures
        text::swap_char(s, '\\', '/') == s,
{
    assert forall|i: int| 0 <= i < s.len() implies #[trigger] s[i] != '\\' by {
        assert(s.contains(s[i]));
    }
    assert(text::swap_char(s, '\\', '/') =~= s);
}

/// Two games whose confs lie in directories of different names write their confs to different
/// files of the working directory.
pub proof fn law_no_two_games_share_a_conf(
    working_dir: Seq<char>,
    a: Seq<char>,
    b: Seq<char>,
    name_a: Seq<char>,
    name_b: Seq<char>,
)
    requires
        crate::fspath::parent_name(a) == Some(name_a),
        crate::fspath::parent_name(b) == Some(name_b),
        name_a != name_b,
    ensures
        launch_conf_path_of(working_dir, a) != launch_conf_path_of(working_dir, b),
        launch_conf_path_of(working_dir, a) == crate::fspath::joined(
            working_dir,
            ".exodium_launch_"@ + name_a + ".conf"@,
        ),
{
    reveal_strlit(".exodium_launch_");
    reveal_strlit(".conf");
    reveal_strlit("/");
    let x = ".exodium_launch_"@ + name_a + ".conf"@;
    let y = ".exodium_launch_"@ + name_b + ".conf"@;
    let p = launch_conf_path_of(working_dir, a);
    let q = launch_conf_path_of(working_dir, b);
    if p == q {
        let d = working_dir.len() as int + (if working_dir.len() == 0 || working_dir.last() == '/' {
            0int
        } else {
            1
        });
        assert(p.skip(d) =~= x);
        assert(q.skip(d) =~= y);
        assert(x.subrange(16, x.len() - 5) =~= name_a);
        assert(y.subrange(16, y.len() - 5) =~= name_b);
    }
}

} // verus!
