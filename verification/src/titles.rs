//! Titles of games: how two of them are held against each other, and the keys that
//! are made from them.

use crate::outside::{hex_of, sha256};
use crate::table::Table;
use crate::text;
use crate::text::{
    cat, chars_of, copy, decimal_of, find_char, find_last, has_suffix, head, is_alnum_char,
    is_digit_char, is_one_of, join_texts, lines_of, part, rcut_once, replace_all, string_of,
    tail, to_lowercase, trim_end_of, trim_of, words_of,
};
use vstd::prelude::*;

verus! {

// ── Matching ─────────────────────────────────────────────────────────────────

/// A title with a trailing article put in front.
pub open spec fn article_first(t: Seq<char>) -> Seq<char> {
    if ", the"@.is_suffix_of(t) {
        "the "@ + t.take(t.len() - 5)
    } else if ", a"@.is_suffix_of(t) {
        "a "@ + t.take(t.len() - 3)
    } else if ", an"@.is_suffix_of(t) {
        "an "@ + t.take(t.len() - 4)
    } else {
        t
    }
}

/// A title with its punctuation turned into blanks.
pub open spec fn without_punctuation(t: Seq<char>) -> Seq<char> {
    let a = text::replace(text::replace(text::replace(t, ":"@, " "@), "-"@, " "@), ","@, " "@);
    let b = text::replace(a, "&"@, " and "@);
    text::replace(text::replace(text::replace(b, "'"@, ""@), "!"@, " "@), "."@, " "@)
}

/// A title without the year in brackets that it ends in.
pub open spec fn without_year(t: Seq<char>) -> Seq<char> {
    match text::last_char(t, '(') {
        Some(i) => {
            let suffix = t.skip(i);
            if vstd::utf8::encode_utf8(suffix).len() <= 7 && ")"@.is_suffix_of(suffix) {
                t.take(i)
            } else {
                t
            }
        },
        None => t,
    }
}

/// A text without the digits that it ends in.
pub open spec fn without_digits(t: Seq<char>) -> Seq<char>
    decreases t.len(),
{
    if t.len() > 0 && text::is_digit(t.last()) {
        without_digits(t.drop_last())
    } else {
        t
    }
}

/// A title without the number that it ends in, where a blank stands before it.
pub open spec fn without_number(t: Seq<char>) -> Seq<char> {
    let whole = text::trim_end(t);
    let stripped = without_digits(whole);
    if " "@.is_suffix_of(stripped) {
        text::trim_end(stripped)
    } else {
        whole
    }
}

/// A title without the names of editions.
pub open spec fn without_edition(t: Seq<char>) -> Seq<char> {
    text::replace(
        text::replace(text::replace(t, " deluxe edition"@, ""@), " gold edition"@, ""@),
        " special edition"@,
        ""@,
    )
}

/// The form that a title in small letters is held against others in.
pub open spec fn normal_form(lowered: Seq<char>) -> Seq<char> {
    text::join(
        text::words(
            without_edition(without_number(without_year(without_punctuation(article_first(lowered))))),
        ),
        " "@,
    )
}

fn put_article_first(t: &[char]) -> (r: Vec<char>)
    ensures
        r@ == article_first(t@),
{
    proof {
        reveal_strlit(", the");
        reveal_strlit(", a");
        reveal_strlit(", an");
    }
    let n: usize = t.len();
    if has_suffix(t, ", the") {
        chars_of(cat("the ", string_of(head(t, n - 5)).as_str()).as_str())
    } else if has_suffix(t, ", a") {
        chars_of(cat("a ", string_of(head(t, n - 3)).as_str()).as_str())
    } else if has_suffix(t, ", an") {
        chars_of(cat("an ", string_of(head(t, n - 4)).as_str()).as_str())
    } else {
        part(t, 0, n)
    }
}

fn drop_punctuation(t: &[char]) -> (r: Vec<char>)
    ensures
        r@ == without_punctuation(t@),
{
    let a = replace_all(t, ":", " ");
    let b = replace_all(a.as_slice(), "-", " ");
    let c = replace_all(b.as_slice(), ",", " ");
    let d = replace_all(c.as_slice(), "&", " and ");
    let e = replace_all(d.as_slice(), "'", "");
    let f = replace_all(e.as_slice(), "!", " ");
    replace_all(f.as_slice(), ".", " ")
}

fn drop_year(t: &[char]) -> (r: &[char])
    ensures
        r@ == without_year(t@),
{
    match find_last(t, '(') {
        Some(i) => {
            proof {
                text::lemma_last_char(t@, '(');
            }
            let suffix = tail(t, i);
            let written = string_of(suffix);
            let bytes = written.as_str().as_bytes();
            if bytes.len() <= 7 && has_suffix(suffix, ")") {
                head(t, i)
            } else {
                t
            }
        },
        None => t,
    }
}

fn drop_digits(t: &[char]) -> (r: &[char])
    ensures
        r@ == without_digits(t@),
{
    let mut n: usize = t.len();
    assert(t@.take(n as int) =~= t@);
    while n > 0 && is_digit_char(t[n - 1])
        invariant
            n <= t@.len(),
            without_digits(t@.take(n as int)) == without_digits(t@),
        decreases n,
    {
        assert(t@.take(n as int).drop_last() =~= t@.take(n - 1));
        n = n - 1;
    }
    head(t, n)
}

fn drop_number(t: &[char]) -> (r: &[char])
    ensures
        r@ == without_number(t@),
{
    let whole = trim_end_of(t);
    let stripped = drop_digits(whole);
    if has_suffix(stripped, " ") {
        trim_end_of(stripped)
    } else {
        whole
    }
}

fn drop_edition(t: &[char]) -> (r: Vec<char>)
    ensures
        r@ == without_edition(t@),
{
    let a = replace_all(t, " deluxe edition", "");
    let b = replace_all(a.as_slice(), " gold edition", "");
    replace_all(b.as_slice(), " special edition", "")
}

/// The form that a title in small letters is held against others in: its article in
/// front, without punctuation, year, trailing number or edition, and with single
/// blanks.
pub fn normalize_lowered(lowered: &str) -> (r: String)
    ensures
        r@ == normal_form(lowered@),
{
    let chars = chars_of(lowered);
    let a = put_article_first(chars.as_slice());
    let b = drop_punctuation(a.as_slice());
    let c = drop_year(b.as_slice());
    let d = drop_number(c);
    let e = drop_edition(d);
    let parts = words_of(e.as_slice());
    join_texts(&parts, " ")
}

/// The form that a title is held against others in.
pub fn normalize_title(title: &str) -> (r: String)
    ensures
        r@ == normal_form(text::unicode_lower(title@)),
        text::all_ascii(title@) ==> r@ == normal_form(text::lower(title@)),
{
    let lowered = to_lowercase(title);
    normalize_lowered(lowered.as_str())
}

// ── Keys ─────────────────────────────────────────────────────────────────────

/// The ASCII letters and digits of a text.
pub open spec fn alnum(t: Seq<char>) -> Seq<char> {
    t.filter(|c: char| text::is_alnum_ascii(c))
}

/// The ASCII letters and digits of a text.
pub fn keep_alnum(t: &str) -> (r: String)
    ensures
        r@ == alnum(t@),
{
    let chars = chars_of(t);
    let ghost kept = |c: char| text::is_alnum_ascii(c);
    let mut out: Vec<char> = Vec::new();
    let mut i: usize = 0;
    proof {
        reveal(Seq::filter);
        assert(out@ =~= chars@.take(0).filter(kept));
    }
    while i < chars.len()
        invariant
            i <= chars@.len(),
            kept == (|c: char| text::is_alnum_ascii(c)),
            out@ == chars@.take(i as int).filter(kept),
        decreases chars@.len() - i,
    {
        proof {
            reveal(Seq::filter);
            assert(chars@.take(i + 1).drop_last() =~= chars@.take(i as int));
        }
        if is_alnum_char(chars[i]) {
            out.push(chars[i]);
        }
        i += 1;
    }
    assert(chars@.take(chars@.len() as int) =~= chars@);
    string_of(out.as_slice())
}

/// The letters and digits of a title, in small letters: what is left of it where
/// spacing and punctuation do not count.
pub fn normalize_alnum(title: &str) -> (r: String)
    ensures
        r@ == alnum(text::unicode_lower(title@)),
        text::all_ascii(title@) ==> r@ == alnum(text::lower(title@)),
{
    let lowered = to_lowercase(title);
    keep_alnum(lowered.as_str())
}

/// The key of a title's cover art: the first eight bytes of the digest of its letters
/// and digits, in hexadecimal.
pub fn thumbnail_key(title: &str) -> (r: String)
    ensures
        r@ == crate::outside::hex(
            crate::outside::sha256_of(
                vstd::utf8::encode_utf8(alnum(text::unicode_lower(title@))),
            ).take(8),
        ),
        r@.len() == 16,
{
    let norm = normalize_alnum(title);
    let digest = sha256(norm.as_str().as_bytes());
    hex_of(digest.as_slice(), 8)
}

// ── Shortcodes ───────────────────────────────────────────────────────────────

/// What a title's shortcode begins with: its letters and digits, up to eight.
pub open spec fn code_base(title: Seq<char>) -> Seq<char> {
    let a = alnum(title);
    if a.len() == 0 {
        "game"@
    } else if a.len() <= 8 {
        a
    } else {
        a.take(8)
    }
}

/// The shortcode with a number behind it.
pub open spec fn numbered_code(base: Seq<char>, i: nat) -> Seq<char> {
    (if base.len() <= 6 {
        base
    } else {
        base.take(6)
    }) + text::decimal(i)
}

/// The first numbered code, `i` or later, that is free.
pub open spec fn free_code(
    base: Seq<char>,
    existing: Seq<Seq<char>>,
    i: nat,
) -> Option<Seq<char>>
    decreases 1000 - i,
{
    if i > 999 {
        None
    } else if !existing.contains(numbered_code(base, i)) {
        Some(numbered_code(base, i))
    } else {
        free_code(base, existing, i + 1)
    }
}

/// A code that has nothing of a title.
pub open spec fn plain_code(i: nat) -> Seq<char> {
    "g"@ + text::decimal(i)
}

/// The first such code that is free, counting down from `i`.
pub open spec fn free_plain_code(existing: Seq<Seq<char>>, i: nat) -> Seq<char>
    decreases i,
{
    if i == 0 || !existing.contains(plain_code(i)) {
        plain_code(i)
    } else {
        free_plain_code(existing, (i - 1) as nat)
    }
}

/// The shortcode that a title gets: its letters and digits, with a number behind them
/// where they are taken, and with neither where all those numbers are.
pub open spec fn new_code(title: Seq<char>, existing: Seq<Seq<char>>) -> Seq<char> {
    let base = code_base(title);
    if !existing.contains(base) {
        base
    } else {
        match free_code(base, existing, 2) {
            Some(code) => code,
            None => free_plain_code(existing, existing.len()),
        }
    }
}

/// There are more plain codes up to `n` than codes that exist, so one is free.
proof fn lemma_plain_code_free(existing: Seq<Seq<char>>, n: nat)
    requires
        existing.len() <= n,
    ensures
        !existing.contains(free_plain_code(existing, n)),
{
    if existing.contains(free_plain_code(existing, n)) {
        lemma_all_plain_taken(existing, n);
        let codes = Seq::new((n + 1) as nat, |i: int| plain_code(i as nat));
        assert forall|i: int, j: int| 0 <= i < codes.len() && 0 <= j < codes.len() && i
            != j implies codes[i] != codes[j] by {
            reveal_strlit("g");
            if codes[i] == codes[j] {
                assert(plain_code(i as nat).skip(1) =~= text::decimal(i as nat));
                assert(plain_code(j as nat).skip(1) =~= text::decimal(j as nat));
                text::lemma_decimal_injective(i as nat, j as nat);
            }
        }
        codes.unique_seq_to_set();
        existing.lemma_cardinality_of_set();
        assert(codes.to_set().subset_of(existing.to_set()));
        vstd::set_lib::lemma_len_subset(codes.to_set(), existing.to_set());
    }
}

proof fn lemma_all_plain_taken(existing: Seq<Seq<char>>, n: nat)
    requires
        existing.contains(free_plain_code(existing, n)),
    ensures
        forall|i: nat| i <= n ==> existing.contains(#[trigger] plain_code(i)),
    decreases n,
{
    if n > 0 {
        lemma_all_plain_taken(existing, (n - 1) as nat);
    }
}

/// A text of letters and digits.
pub open spec fn is_alnum_text(s: Seq<char>) -> bool {
    s.len() > 0 && forall|i: int| 0 <= i < s.len() ==> text::is_alnum_ascii(#[trigger] s[i])
}

proof fn lemma_code_base(title: Seq<char>)
    ensures
        is_alnum_text(code_base(title)),
{
    let kept = |c: char| text::is_alnum_ascii(c);
    reveal_strlit("game");
    assert forall|i: int| 0 <= i < alnum(title).len() implies text::is_alnum_ascii(
        #[trigger] alnum(title)[i],
    ) by {
        title.lemma_filter_pred(kept, i);
    }
}

proof fn lemma_new_code(title: Seq<char>, existing: Seq<Seq<char>>)
    ensures
        !existing.contains(new_code(title, existing)),
        is_alnum_text(new_code(title, existing)),
{
    let base = code_base(title);
    lemma_code_base(title);
    lemma_free_code(base, existing, 2);
    lemma_plain_code_free(existing, existing.len());
    lemma_free_plain_code(existing, existing.len());
}

proof fn lemma_free_plain_code(existing: Seq<Seq<char>>, n: nat)
    ensures
        is_alnum_text(free_plain_code(existing, n)),
    decreases n,
{
    reveal_strlit("g");
    text::lemma_decimal_digits(n);
    if n > 0 {
        lemma_free_plain_code(existing, (n - 1) as nat);
    }
}

/// A shortcode for a title that has none, apart from those that exist.
pub fn generate_shortcode(title: &str, existing: &Vec<String>) -> (r: String)
    ensures
        r@ == new_code(title@, text::texts(existing@)),
        !text::texts(existing@).contains(r@),
        is_alnum_text(r@),
{
    proof {
        lemma_new_code(title@, text::texts(existing@));
    }
    let letters = keep_alnum(title);
    let all = chars_of(letters.as_str());
    let base: Vec<char> = if all.len() == 0 {
        chars_of("game")
    } else if all.len() <= 8 {
        chars_of(letters.as_str())
    } else {
        part(all.as_slice(), 0, 8)
    };
    assert(all@.len() > 8 ==> all@.subrange(0, 8) =~= all@.take(8));
    let whole = string_of(base.as_slice());
    if !is_one_of(existing, whole.as_str()) {
        return whole;
    }
    let n: usize = if base.len() <= 6 {
        base.len()
    } else {
        6
    };
    let stem = string_of(head(base.as_slice(), n));
    assert(base@.len() <= 6 ==> base@.take(base@.len() as int) =~= base@);
    let ghost codes = text::texts(existing@);
    let mut i: u64 = 2;
    while i <= 999
        invariant
            2 <= i <= 1000,
            codes == text::texts(existing@),
            base@ == code_base(title@),
            codes.contains(base@),
            stem@ == (if base@.len() <= 6 {
                base@
            } else {
                base@.take(6)
            }),
            free_code(base@, codes, i as nat) == free_code(base@, codes, 2),
        decreases 1000 - i,
    {
        let code = cat(stem.as_str(), decimal_of(i).as_str());
        assert(code@ == numbered_code(base@, i as nat));
        if !is_one_of(existing, code.as_str()) {
            proof {
                lemma_new_code(title@, codes);
            }
            return code;
        }
        i += 1;
    }
    assert(codes.len() == existing@.len());
    let mut k: u64 = existing.len() as u64;
    let mut code = cat("g", decimal_of(k).as_str());
    while k > 0 && is_one_of(existing, code.as_str())
        invariant
            codes == text::texts(existing@),
            code@ == plain_code(k as nat),
            free_plain_code(codes, k as nat) == free_plain_code(codes, codes.len()),
        decreases k,
    {
        k -= 1;
        code = cat("g", decimal_of(k).as_str());
    }
    code
}

/// The codes that exist, with one more.
pub open spec fn with_code(used: Seq<Seq<char>>, code: Seq<char>) -> Seq<Seq<char>> {
    if used.contains(code) {
        used
    } else {
        used.push(code)
    }
}

/// The codes that exist once the first `n` titles have theirs.
pub open spec fn codes_after(
    titles: Seq<Seq<char>>,
    existing: Seq<Seq<char>>,
    n: int,
) -> Seq<Seq<char>>
    decreases n,
{
    if n <= 0 {
        existing
    } else {
        let used = codes_after(titles, existing, n - 1);
        with_code(used, new_code(titles[n - 1], used))
    }
}

/// The codes that titles get, one after the other.
pub open spec fn new_codes(titles: Seq<Seq<char>>, existing: Seq<Seq<char>>) -> Seq<Seq<char>> {
    Seq::new(titles.len(), |i: int| new_code(titles[i], codes_after(titles, existing, i)))
}

/// Shortcodes for titles that have none, apart from those that exist and from each
/// other.
pub fn generate_shortcodes(titles: &Vec<String>, existing: Vec<String>) -> (r: Vec<String>)
    ensures
        text::texts(r@) == new_codes(text::texts(titles@), text::texts(existing@)),
{
    let ghost all = text::texts(titles@);
    let ghost first = text::texts(existing@);
    let mut used = existing;
    let mut out: Vec<String> = Vec::new();
    let mut i: usize = 0;
    while i < titles.len()
        invariant
            i <= titles@.len(),
            all == text::texts(titles@),
            text::texts(used@) == codes_after(all, first, i as int),
            out@.len() == i,
            forall|k: int|
                0 <= k < i ==> (#[trigger] out@[k])@ == new_code(all[k], codes_after(all, first, k)),
        decreases titles@.len() - i,
    {
        assert(all[i as int] == titles@[i as int]@);
        let code = generate_shortcode(titles[i].as_str(), &used);
        if !is_one_of(&used, code.as_str()) {
            let ghost before = text::texts(used@);
            used.push(copy(code.as_str()));
            assert(text::texts(used@) =~= before.push(code@));
        }
        out.push(code);
        i += 1;
    }
    assert(text::texts(out@) =~= new_codes(all, first));
    out
}

// ── English counterparts ─────────────────────────────────────────────────────

/// An English game: the form of its title, and its shortcode.
pub struct EnglishTitle {
    pub normal: String,
    pub shortcode: String,
}

/// How many of the first `n` games have this form.
pub open spec fn times_seen(rows: Seq<EnglishTitle>, normal: Seq<char>, n: int) -> nat
    decreases n,
{
    if n <= 0 {
        0
    } else {
        times_seen(rows, normal, n - 1) + if rows[n - 1].normal@ == normal {
            1nat
        } else {
            0
        }
    }
}

/// The shortcode of the first game, `i` or later, with this form.
pub open spec fn first_code(rows: Seq<EnglishTitle>, normal: Seq<char>, i: int) -> Option<Seq<char>>
    decreases rows.len() - i,
{
    if i >= rows.len() {
        None
    } else if rows[i].normal@ == normal {
        Some(rows[i].shortcode@)
    } else {
        first_code(rows, normal, i + 1)
    }
}

/// The shortcode for a form of title: that of the one English game with this form. A
/// form that several games have stands for none of them.
pub open spec fn code_for(rows: Seq<EnglishTitle>, normal: Seq<char>) -> Option<Seq<char>> {
    if times_seen(rows, normal, rows.len() as int) == 1 {
        first_code(rows, normal, 0)
    } else {
        None
    }
}

proof fn lemma_not_seen(rows: Seq<EnglishTitle>, normal: Seq<char>, i: int, n: int)
    requires
        0 <= i <= n <= rows.len(),
        times_seen(rows, normal, n) == times_seen(rows, normal, i),
    ensures
        forall|k: int| i <= k < n ==> (#[trigger] rows[k]).normal@ != normal,
    decreases n - i,
{
    if i < n {
        lemma_seen_grows(rows, normal, i, n - 1);
        lemma_not_seen(rows, normal, i, n - 1);
    }
}

proof fn lemma_seen_grows(rows: Seq<EnglishTitle>, normal: Seq<char>, i: int, n: int)
    requires
        0 <= i <= n <= rows.len(),
    ensures
        times_seen(rows, normal, i) <= times_seen(rows, normal, n),
    decreases n - i,
{
    if i < n {
        lemma_seen_grows(rows, normal, i, n - 1);
    }
}

proof fn lemma_first_code(rows: Seq<EnglishTitle>, normal: Seq<char>, i: int, at: int)
    requires
        0 <= i <= at < rows.len(),
        rows[at].normal@ == normal,
        forall|k: int| i <= k < at ==> (#[trigger] rows[k]).normal@ != normal,
    ensures
        first_code(rows, normal, i) == Some(rows[at].shortcode@),
    decreases at - i,
{
    if i < at {
        lemma_first_code(rows, normal, i + 1, at);
    }
}

/// The shortcodes of English games, by the form of their titles. A form that several
/// games have is left out.
pub fn english_codes(rows: &Vec<EnglishTitle>) -> (r: Table<String>)
    ensures
        r.wf(),
        forall|normal: Seq<char>| #[trigger]
            r@.contains_key(normal) <==> code_for(rows@, normal) is Some,
        forall|normal: Seq<char>| #[trigger]
            r@.contains_key(normal) ==> code_for(rows@, normal) == Some(r@[normal]@),
{
    let mut lookup: Table<String> = Table::new();
    let mut ambiguous: Table<bool> = Table::new();
    let mut i: usize = 0;
    while i < rows.len()
        invariant
            i <= rows@.len(),
            lookup.wf(),
            ambiguous.wf(),
            forall|normal: Seq<char>| #[trigger]
                lookup@.contains_key(normal) <==> times_seen(rows@, normal, i as int) == 1,
            forall|normal: Seq<char>| #[trigger]
                lookup@.contains_key(normal) ==> first_code(rows@, normal, 0) == Some(
                    lookup@[normal]@,
                ),
            forall|normal: Seq<char>| #[trigger]
                ambiguous@.contains_key(normal) <==> times_seen(rows@, normal, i as int) > 1,
        decreases rows@.len() - i,
    {
        let normal = rows[i].normal.as_str();
        let ghost was = lookup@;
        if ambiguous.has(normal) {
            assert(times_seen(rows@, normal@, i + 1) > 1);
        } else if lookup.has(normal) {
            lookup.remove(normal);
            ambiguous.insert(normal, true);
        } else {
            lookup.insert(normal, copy(rows[i].shortcode.as_str()));
            proof {
                assert(times_seen(rows@, normal@, i as int) == 0);
                lemma_not_seen(rows@, normal@, 0, i as int);
                lemma_first_code(rows@, normal@, 0, i as int);
            }
        }
        assert forall|n: Seq<char>| n != normal@ implies #[trigger] times_seen(rows@, n, i + 1)
            == times_seen(rows@, n, i as int) by {}
        i += 1;
    }
    proof {
        assert forall|normal: Seq<char>| #[trigger]
            lookup@.contains_key(normal) <==> code_for(rows@, normal) is Some by {
            if times_seen(rows@, normal, rows@.len() as int) == 1 {
                assert(lookup@.contains_key(normal));
            }
        }
    }
    lookup
}

// ── The emulator's variants ──────────────────────────────────────────────────

/// What a line of the list of emulators says: a title, and the directory of its
/// emulator.
pub open spec fn variant_of(line: Seq<char>) -> Option<(Seq<char>, Seq<char>)> {
    match text::rsplit_once(text::trim(line), ':') {
        Some((title, path)) => Some(
            (
                title,
                match text::char_from(path, '\\', 0) {
                    Some(i) => path.take(i),
                    None => "dosbox"@,
                },
            ),
        ),
        None => None,
    }
}

/// What a line of the list of emulators says. An emulator that stands in no directory
/// is the plain one.
pub fn variant_line(line: &str) -> (r: Option<(String, String)>)
    ensures
        match r {
            Some((title, slug)) => variant_of(line@) == Some((title@, slug@)),
            None => variant_of(line@) is None,
        },
{
    let chars = chars_of(line);
    let trimmed = trim_of(chars.as_slice());
    match rcut_once(trimmed, ':') {
        Some((title, path)) => {
            let slug = match find_char(path, '\\', 0) {
                Some(i) => {
                    proof {
                        text::lemma_char_from(path@, '\\', 0);
                    }
                    string_of(head(path, i))
                },
                None => copy("dosbox"),
            };
            Some((string_of(title), slug))
        },
        None => None,
    }
}

/// The form that the title of a list's line is held against others in.
pub open spec fn line_form(line: Seq<char>) -> Option<Seq<char>> {
    match variant_of(line) {
        Some((title, _)) => Some(normal_form(text::unicode_lower(title))),
        None => None,
    }
}

/// The emulator for a form of title: what the last of the first `n` lines with this
/// form says.
pub open spec fn variant_upto(lines: Seq<Seq<char>>, normal: Seq<char>, n: int) -> Option<Seq<char>>
    decreases n,
{
    if n <= 0 {
        None
    } else if line_form(lines[n - 1]) == Some(normal) {
        Some((variant_of(lines[n - 1])->0).1)
    } else {
        variant_upto(lines, normal, n - 1)
    }
}

/// The emulators of a list, by the form of the titles. The last line for a form counts.
pub fn dosbox_variants(content: &str) -> (r: Table<String>)
    ensures
        r.wf(),
        forall|normal: Seq<char>| #[trigger]
            r@.contains_key(normal) <==> variant_upto(
                text::lines(content@),
                normal,
                text::lines(content@).len() as int,
            ) is Some,
        forall|normal: Seq<char>| #[trigger]
            r@.contains_key(normal) ==> variant_upto(
                text::lines(content@),
                normal,
                text::lines(content@).len() as int,
            ) == Some(r@[normal]@),
{
    let lines = lines_of(content);
    let ghost all = text::lines(content@);
    let mut out: Table<String> = Table::new();
    let mut i: usize = 0;
    while i < lines.len()
        invariant
            i <= lines@.len(),
            all == text::texts(lines@),
            out.wf(),
            forall|normal: Seq<char>| #[trigger]
                out@.contains_key(normal) <==> variant_upto(all, normal, i as int) is Some,
            forall|normal: Seq<char>| #[trigger]
                out@.contains_key(normal) ==> variant_upto(all, normal, i as int) == Some(
                    out@[normal]@,
                ),
        decreases lines@.len() - i,
    {
        assert(all[i as int] == lines@[i as int]@);
        if let Some((title, slug)) = variant_line(lines[i].as_str()) {
            let normal = normalize_title(title.as_str());
            out.insert(normal.as_str(), slug);
        }
        i += 1;
    }
    out
}

/// What a table holds for a title.
pub fn for_title(table: &Table<String>, title: &str) -> (r: Option<String>)
    requires
        table.wf(),
    ensures
        ({
            let normal = normal_form(text::unicode_lower(title@));
            text::opt(r) == if table@.contains_key(normal) {
                Some(table@[normal]@)
            } else {
                None
            }
        }),
{
    let normal = normalize_title(title);
    match table.get(normal.as_str()) {
        Some(v) => Some(copy(v.as_str())),
        None => None,
    }
}

/// A size, or none at all.
pub open spec fn or_zero(size: Option<i64>) -> int {
    match size {
        Some(n) => n as int,
        None => 0,
    }
}

/// How large a game's download is: its archive, its extras, and those that it shares
/// with the English game.
pub fn download_size(game: i64, extras: Option<i64>, shared: Option<i64>) -> (r: i64)
    requires
        i64::MIN <= game + or_zero(extras) <= i64::MAX,
        i64::MIN <= game + or_zero(extras) + or_zero(shared) <= i64::MAX,
    ensures
        r == game + or_zero(extras) + or_zero(shared),
{
    let mut size: i64 = game;
    if let Some(n) = extras {
        size = size + n;
    }
    if let Some(n) = shared {
        size = size + n;
    }
    size
}

// ── Laws ─────────────────────────────────────────────────────────────────────

/// A new shortcode is one that does not exist, and is made of letters and digits.
pub proof fn law_new_codes_are_new(title: Seq<char>, existing: Seq<Seq<char>>)
    ensures
        !existing.contains(new_code(title, existing)),
        is_alnum_text(new_code(title, existing)),
{
    lemma_new_code(title, existing);
}

proof fn lemma_free_code(base: Seq<char>, existing: Seq<Seq<char>>, i: nat)
    ensures
        free_code(base, existing, i) matches Some(code) ==> !existing.contains(code) && (is_alnum_text(
            base,
        ) ==> is_alnum_text(code)),
    decreases 1000 - i,
{
    text::lemma_decimal_digits(i);
    if i <= 999 {
        lemma_free_code(base, existing, i + 1);
    }
}

/// Titles that get codes one after the other get different ones, and none that
/// existed.
pub proof fn law_generated_codes_are_distinct(
    titles: Seq<Seq<char>>,
    existing: Seq<Seq<char>>,
    i: int,
    j: int,
)
    requires
        0 <= i < j < titles.len(),
    ensures
        new_codes(titles, existing)[i] != new_codes(titles, existing)[j],
        !existing.contains(new_codes(titles, existing)[i]),
        !existing.contains(new_codes(titles, existing)[j]),
{
    let a = codes_after(titles, existing, i);
    let b = codes_after(titles, existing, j);
    law_new_codes_are_new(titles[i], a);
    law_new_codes_are_new(titles[j], b);
    lemma_codes_stay(titles, existing, 0, i);
    lemma_codes_stay(titles, existing, 0, j);
    lemma_codes_stay(titles, existing, i + 1, j);
    let code = new_code(titles[i], a);
    assert(codes_after(titles, existing, i + 1) == a.push(code));
    assert(a.push(code)[a.len() as int] == code);
    assert(codes_after(titles, existing, i + 1).contains(code));
}

proof fn lemma_codes_stay(titles: Seq<Seq<char>>, existing: Seq<Seq<char>>, m: int, n: int)
    requires
        0 <= m <= n,
    ensures
        forall|code: Seq<char>|
            codes_after(titles, existing, m).contains(code) ==> #[trigger] codes_after(
                titles,
                existing,
                n,
            ).contains(code),
    decreases n - m,
{
    if m < n {
        lemma_codes_stay(titles, existing, m, n - 1);
        let used = codes_after(titles, existing, n - 1);
        let code = new_code(titles[n - 1], used);
        assert forall|c: Seq<char>| used.contains(c) implies #[trigger] with_code(used, code).contains(
            c,
        ) by {
            let k = choose|k: int| 0 <= k < used.len() && used[k] == c;
            assert(used.push(code)[k] == c);
        }
    }
}

/// The letters and digits of a title are the same with a blank or a mark put in or
/// left out, so titles that differ in these alone share the key of their cover art.
pub proof fn law_keys_ignore_punctuation(a: Seq<char>, c: char, b: Seq<char>)
    requires
        !text::is_alnum_ascii(c),
    ensures
        alnum(a + seq![c] + b) == alnum(a + b),
{
    let kept = |x: char| text::is_alnum_ascii(x);
    reveal(Seq::filter);
    Seq::filter_distributes_over_add(a + seq![c], b, kept);
    Seq::filter_distributes_over_add(a, seq![c], kept);
    Seq::filter_distributes_over_add(a, b, kept);
    assert(seq![c].drop_last() =~= Seq::<char>::empty());
    assert(Seq::<char>::empty().filter(kept) =~= Seq::<char>::empty());
    assert(seq![c].last() == c && !kept(c));
    assert(seq![c].filter(kept) == seq![c].drop_last().filter(kept));
    assert(a.filter(kept) + Seq::<char>::empty() =~= a.filter(kept));
}

/// A text ends in none of the articles that are put in front.
pub open spec fn ends_in_no_article(t: Seq<char>) -> bool {
    !", the"@.is_suffix_of(t) && !", a"@.is_suffix_of(t) && !", an"@.is_suffix_of(t)
}

/// A title with its article behind it has the form of one with its article in front.
/// The titles are in small letters.
pub proof fn law_trailing_articles_go_first(t: Seq<char>)
    requires
        ends_in_no_article(t),
    ensures
        normal_form(t + ", the"@) == normal_form("the "@ + t),
        normal_form(t + ", a"@) == normal_form("a "@ + t),
        normal_form(t + ", an"@) == normal_form("an "@ + t),
{
    reveal_strlit(", the");
    reveal_strlit(", a");
    reveal_strlit(", an");
    reveal_strlit("the ");
    reveal_strlit("a ");
    reveal_strlit("an ");
    lemma_no_article(t, "the "@);
    lemma_no_article(t, "a "@);
    lemma_no_article(t, "an "@);
    let the = t + ", the"@;
    let a = t + ", a"@;
    let an = t + ", an"@;
    assert(the.skip(the.len() - 5) =~= ", the"@);
    assert(the.take(the.len() - 5) =~= t);
    assert(a.skip(a.len() - 3) =~= ", a"@);
    assert(a.take(a.len() - 3) =~= t);
    assert(an.skip(an.len() - 4) =~= ", an"@);
    assert(an.take(an.len() - 4) =~= t);
    assert(!", the"@.is_suffix_of(a)) by {
        assert(a.last() == 'a' && ", the"@.last() == 'e');
    }
    assert(!", the"@.is_suffix_of(an)) by {
        assert(an.last() == 'n' && ", the"@.last() == 'e');
    }
    assert(!", a"@.is_suffix_of(an)) by {
        assert(an.last() == 'n' && ", a"@.last() == 'a');
    }
}

/// As the law above, of titles in capitals or small letters, which ASCII ones are
/// brought to small letters first.
pub proof fn law_articles_count_in_either_place(title: Seq<char>)
    requires
        ends_in_no_article(text::lower(title)),
    ensures
        normal_form(text::lower(title + ", The"@)) == normal_form(text::lower("The "@ + title)),
        normal_form(text::lower(title + ", A"@)) == normal_form(text::lower("A "@ + title)),
        normal_form(text::lower(title + ", An"@)) == normal_form(text::lower("An "@ + title)),
{
    lemma_article_letters();
    law_trailing_articles_go_first(text::lower(title));
    text::lemma_lower_add(title, ", The"@);
    text::lemma_lower_add(title, ", A"@);
    text::lemma_lower_add(title, ", An"@);
    text::lemma_lower_add("The "@, title);
    text::lemma_lower_add("A "@, title);
    text::lemma_lower_add("An "@, title);
}

proof fn lemma_article_letters()
    ensures
        text::lower(", The"@) == ", the"@,
        text::lower(", A"@) == ", a"@,
        text::lower(", An"@) == ", an"@,
        text::lower("The "@) == "the "@,
        text::lower("A "@) == "a "@,
        text::lower("An "@) == "an "@,
{
    assert(text::lower(", The"@) == ", the"@) by {
        reveal_strlit(", The");
        reveal_strlit(", the");
        assert(text::lower(", The"@) =~= ", the"@);
    }
    assert(text::lower(", A"@) == ", a"@) by {
        reveal_strlit(", A");
        reveal_strlit(", a");
        assert(text::lower(", A"@) =~= ", a"@);
    }
    assert(text::lower(", An"@) == ", an"@) by {
        reveal_strlit(", An");
        reveal_strlit(", an");
        assert(text::lower(", An"@) =~= ", an"@);
    }
    assert(text::lower("The "@) == "the "@) by {
        reveal_strlit("The ");
        reveal_strlit("the ");
        assert(text::lower("The "@) =~= "the "@);
    }
    assert(text::lower("A "@) == "a "@) by {
        reveal_strlit("A ");
        reveal_strlit("a ");
        assert(text::lower("A "@) =~= "a "@);
    }
    assert(text::lower("An "@) == "an "@) by {
        reveal_strlit("An ");
        reveal_strlit("an ");
        assert(text::lower("An "@) =~= "an "@);
    }
}

/// A title that ends in no article still ends in none with one in front of it.
proof fn lemma_no_article(t: Seq<char>, article: Seq<char>)
    requires
        ends_in_no_article(t),
        article == "the "@ || article == "a "@ || article == "an "@,
    ensures
        ends_in_no_article(article + t),
{
    reveal_strlit(", the");
    reveal_strlit(", a");
    reveal_strlit(", an");
    reveal_strlit("the ");
    reveal_strlit("a ");
    reveal_strlit("an ");
    let s = article + t;
    lemma_no_suffix(t, article, ", the"@);
    lemma_no_suffix(t, article, ", a"@);
    lemma_no_suffix(t, article, ", an"@);
}

proof fn lemma_no_suffix(t: Seq<char>, article: Seq<char>, end: Seq<char>)
    requires
        !end.is_suffix_of(t),
        end.len() > 0,
        end[0] == ',',
        !article.contains(','),
    ensures
        !end.is_suffix_of(article + t),
{
    let s = article + t;
    if end.is_suffix_of(s) {
        let at = s.len() - end.len();
        assert(s[at] == s.skip(at)[0]);
        if at < article.len() {
            assert(article[at] == ',');
        } else {
            assert(t.skip(t.len() - end.len()) =~= s.skip(at));
        }
    }
}

/// A form of title that two English games have stands for neither.
pub proof fn law_ambiguous_titles_match_nothing(rows: Seq<EnglishTitle>, i: int, j: int)
    requires
        0 <= i < j < rows.len(),
        rows[i].normal@ == rows[j].normal@,
    ensures
        code_for(rows, rows[i].normal@) is None,
{
    let normal = rows[i].normal@;
    lemma_seen_grows(rows, normal, i + 1, j);
    lemma_seen_grows(rows, normal, j + 1, rows.len() as int);
    lemma_seen_grows(rows, normal, 0, i);
}

proof fn lemma_alnum_of(t: Seq<char>)
    requires
        forall|i: int| 0 <= i < t.len() ==> text::is_alnum_ascii(#[trigger] t[i]),
    ensures
        alnum(t) == t,
    decreases t.len(),
{
    reveal(Seq::filter);
    if t.len() > 0 {
        assert(text::is_alnum_ascii(t.last()));
        let less = t.drop_last();
        assert forall|i: int| 0 <= i < less.len() implies text::is_alnum_ascii(
            #[trigger] less[i],
        ) by {
            assert(less[i] == t[i]);
        }
        lemma_alnum_of(less);
        assert(less.push(t.last()) =~= t);
    } else {
        assert(alnum(t) =~= t);
    }
}

/// A title of up to eight letters and digits is its own shortcode, where that is free; a longer
/// one is cut to eight. Where that is taken, the first free number stands behind its first six.
pub proof fn law_a_title_gives_its_shortcode(t: Seq<char>, existing: Seq<Seq<char>>)
    requires
        t.len() > 0,
        forall|i: int| 0 <= i < t.len() ==> text::is_alnum_ascii(#[trigger] t[i]),
    ensures
        t.len() <= 8 && !existing.contains(t) ==> new_code(t, existing) == t,
        t.len() > 8 && !existing.contains(t.take(8)) ==> new_code(t, existing) == t.take(8),
        t.len() <= 6 && existing.contains(t) && !existing.contains(t + "2"@) ==> new_code(
            t,
            existing,
        ) == t + "2"@,
        6 < t.len() <= 8 && existing.contains(t) && !existing.contains(t.take(6) + "2"@)
            ==> new_code(t, existing) == t.take(6) + "2"@,
{
    lemma_alnum_of(t);
    reveal_strlit("2");
    reveal_with_fuel(text::decimal, 2);
    assert(text::decimal(2) =~= "2"@) by {
        assert(text::digit(2) == '2');
    }
}

/// A title without a letter or a digit gets a shortcode all the same.
pub proof fn law_a_title_without_letters_is_a_game(t: Seq<char>, existing: Seq<Seq<char>>)
    requires
        alnum(t).len() == 0,
        !existing.contains("game"@),
    ensures
        new_code(t, existing) == "game"@,
{
}

/// A title that one English game alone has stands for that game.
pub proof fn law_a_plain_title_stands_for_its_game(
    rows: Seq<EnglishTitle>,
    normal: Seq<char>,
    i: int,
)
    requires
        0 <= i < rows.len(),
        rows[i].normal@ == normal,
        forall|k: int| 0 <= k < rows.len() && k != i ==> (#[trigger] rows[k]).normal@ != normal,
    ensures
        code_for(rows, normal) == Some(rows[i].shortcode@),
{
    lemma_seen_once(rows, normal, i, rows.len() as int);
    lemma_first_of(rows, normal, i, 0);
}

proof fn lemma_seen_once(rows: Seq<EnglishTitle>, normal: Seq<char>, i: int, n: int)
    requires
        0 <= n <= rows.len(),
        0 <= i < rows.len(),
        rows[i].normal@ == normal,
        forall|k: int| 0 <= k < rows.len() && k != i ==> (#[trigger] rows[k]).normal@ != normal,
    ensures
        times_seen(rows, normal, n) == (if i < n {
            1nat
        } else {
            0
        }),
    decreases n,
{
    if n > 0 {
        lemma_seen_once(rows, normal, i, n - 1);
    }
}

proof fn lemma_first_of(rows: Seq<EnglishTitle>, normal: Seq<char>, i: int, from: int)
    requires
        0 <= from <= i < rows.len(),
        rows[i].normal@ == normal,
        forall|k: int| 0 <= k < rows.len() && k != i ==> (#[trigger] rows[k]).normal@ != normal,
    ensures
        first_code(rows, normal, from) == Some(rows[i].shortcode@),
    decreases i - from,
{
    if from < i {
        lemma_first_of(rows, normal, i, from + 1);
    }
}

/// A line of the list of emulators gives a title, and the directory that its emulator stands
/// in.
pub proof fn law_a_line_names_title_and_emulator(
    title: Seq<char>,
    dir: Seq<char>,
    program: Seq<char>,
)
    requires
        text::trim(title + ":"@ + dir + "\\"@ + program) == title + ":"@ + dir + "\\"@ + program,
        !dir.contains(':'),
        !dir.contains('\\'),
        !program.contains(':'),
    ensures
        variant_of(title + ":"@ + dir + "\\"@ + program) == Some((title, dir)),
{
    reveal_strlit(":");
    reveal_strlit("\\");
    let line = title + ":"@ + dir + "\\"@ + program;
    let n = title.len() as int;
    text::lemma_last_char(line, ':');
    assert(line[n] == ':');
    assert forall|k: int| n < k < line.len() implies #[trigger] line[k] != ':' by {
        if k < n + 1 + dir.len() {
            assert(dir.contains(dir[k - n - 1]));
        } else if k > n + 1 + dir.len() {
            assert(program.contains(program[k - n - 2 - dir.len()]));
        }
    }
    assert(text::last_char(line, ':') == Some(n));
    assert(line.take(n) =~= title);
    let path = line.skip(n + 1);
    text::lemma_char_from(path, '\\', 0);
    let m = dir.len() as int;
    assert(path[m] == '\\');
    assert forall|k: int| 0 <= k < m implies #[trigger] path[k] != '\\' by {
        assert(path[k] == dir[k]);
        assert(dir.contains(dir[k]));
    }
    assert(text::char_from(path, '\\', 0) == Some(m));
    assert(path.take(m) =~= dir);
}

/// Where a text that begins with a blank and has no other before its tail ends a title, it
/// stands there alone.
proof fn lemma_stands_once(t: Seq<char>, edition: Seq<char>, blank: int)
    requires
        !text::has(t, edition),
        2 <= blank < edition.len() - 1,
        edition[0] == ' ',
        edition[blank] == ' ',
        edition[1] != edition[blank + 1],
        forall|i: int| 0 < i < edition.len() && i != blank ==> #[trigger] edition[i] != ' ',
    ensures
        text::replace(t + edition, edition, Seq::<char>::empty()) == t,
{
    let none = Seq::<char>::empty();
    let s = t + edition + none;
    assert(s =~= t + edition);
    assert forall|k: int| 0 <= k < t.len() implies !text::occurs_at(s, edition, k) by {
        if text::occurs_at(s, edition, k) {
            let part = s.subrange(k, k + edition.len());
            if k + edition.len() <= t.len() {
                assert(t.subrange(k, k + edition.len()) =~= part);
                text::lemma_has(t, edition, k);
            } else {
                let d = t.len() - k;
                assert(part[d] == s[t.len() as int]);
                assert(s[t.len() as int] == edition[0]);
                assert(part[d] == edition[d]);
                assert(d == blank);
                assert(part[d + 1] == s[(t.len() + 1) as int]);
                assert(s[(t.len() + 1) as int] == edition[1]);
                assert(part[d + 1] == edition[d + 1]);
            }
        }
    }
    text::lemma_replace_first(t, edition, none, none);
    assert(text::replace(none, edition, none) =~= none);
    assert(t + none + none =~= t);
}

/// Behind a title that does not have one edition, another edition brings it in nowhere.
proof fn lemma_stands_nowhere(
    t: Seq<char>,
    edition: Seq<char>,
    blank: int,
    other: Seq<char>,
    other_blank: int,
)
    requires
        !text::has(t, edition),
        2 <= blank < edition.len() - 1,
        edition[0] == ' ',
        forall|i: int| 0 < i < edition.len() && i != blank ==> #[trigger] edition[i] != ' ',
        2 <= other_blank < other.len() - 1,
        other[0] == ' ',
        forall|i: int| 0 < i < other.len() && i != other_blank ==> #[trigger] other[i] != ' ',
        edition[1] != other[1],
        edition[blank + 1] != other[1],
        other.len() - other_blank < edition.len(),
    ensures
        !text::has(t + other, edition),
{
    let s = t + other;
    text::lemma_find_from(s, edition, 0);
    if text::has(s, edition) {
        let k = text::find_from(s, edition, 0)->0;
        let part = s.subrange(k, k + edition.len());
        assert(part == edition);
        assert(part[0] == s[k] && part[1] == s[k + 1]);
        if k + edition.len() <= t.len() {
            assert(t.subrange(k, k + edition.len()) =~= part);
            text::lemma_has(t, edition, k);
        } else if k < t.len() {
            let d = t.len() - k;
            assert(part[d] == s[t.len() as int]);
            assert(s[t.len() as int] == other[0]);
            assert(part[d] == edition[d]);
            assert(d == blank);
            assert(part[d + 1] == s[(t.len() + 1) as int]);
            assert(s[(t.len() + 1) as int] == other[1]);
            assert(part[d + 1] == edition[d + 1]);
        } else {
            assert(s[k] == other[k - t.len()]);
            assert(s[k + 1] == other[k + 1 - t.len()]);
        }
    }
}

/// A deluxe, gold or special edition stands for the game itself.
pub proof fn law_an_edition_is_the_same_game(t: Seq<char>)
    requires
        !text::has(t, " deluxe edition"@),
        !text::has(t, " gold edition"@),
        !text::has(t, " special edition"@),
    ensures
        without_edition(t) == t,
        without_edition(t + " deluxe edition"@) == t,
        without_edition(t + " gold edition"@) == t,
        without_edition(t + " special edition"@) == t,
{
    reveal_strlit("");
    reveal_strlit(" deluxe edition");
    reveal_strlit(" gold edition");
    reveal_strlit(" special edition");
    assert(""@ =~= Seq::<char>::empty());
    text::lemma_replace_none(t, " deluxe edition"@, ""@);
    text::lemma_replace_none(t, " gold edition"@, ""@);
    text::lemma_replace_none(t, " special edition"@, ""@);
    lemma_stands_once(t, " deluxe edition"@, 7);
    lemma_stands_once(t, " gold edition"@, 5);
    lemma_stands_once(t, " special edition"@, 8);
    let gold = t + " gold edition"@;
    lemma_stands_nowhere(t, " deluxe edition"@, 7, " gold edition"@, 5);
    text::lemma_replace_none(gold, " deluxe edition"@, ""@);
    let special = t + " special edition"@;
    lemma_stands_nowhere(t, " deluxe edition"@, 7, " special edition"@, 8);
    lemma_stands_nowhere(t, " gold edition"@, 5, " special edition"@, 8);
    text::lemma_replace_none(special, " deluxe edition"@, ""@);
    text::lemma_replace_none(special, " gold edition"@, ""@);
}

proof fn lemma_digits_go(t: Seq<char>, digits: Seq<char>)
    requires
        forall|i: int| 0 <= i < digits.len() ==> text::is_digit(#[trigger] digits[i]),
        t.len() > 0,
        !text::is_digit(t.last()),
    ensures
        without_digits(t + digits) == t,
    decreases digits.len(),
{
    if digits.len() > 0 {
        let less = digits.drop_last();
        let s = t + digits;
        assert(s.last() == digits[digits.len() - 1]);
        assert(s.drop_last() =~= t + less);
        assert forall|i: int| 0 <= i < less.len() implies text::is_digit(#[trigger] less[i]) by {
            assert(less[i] == digits[i]);
        }
        lemma_digits_go(t, less);
    } else {
        assert(t + digits =~= t);
    }
}

/// The number that a title ends in does not count, where a blank stands before it: a part of a
/// series stands for the series. A number that is grown together with a word stays.
pub proof fn law_trailing_numbers_do_not_count(t: Seq<char>, number: nat)
    requires
        t.len() > 0,
        !text::is_space(t.last()),
    ensures
        without_number(t + " "@ + text::decimal(number)) == t,
        !text::is_digit(t.last()) ==> without_number(t + text::decimal(number)) == t
            + text::decimal(number),
{
    reveal_strlit(" ");
    let digits = text::decimal(number);
    text::lemma_decimal_digits(number);
    assert(text::is_digit(digits[digits.len() - 1]));
    let a = t + " "@;
    let s = a + digits;
    assert(s.last() == digits[digits.len() - 1]);
    assert(text::trim_end(s) == s);
    assert(a.last() == ' ' && !text::is_digit(' ') && text::is_space(' '));
    lemma_digits_go(a, digits);
    assert(" "@.is_suffix_of(a)) by {
        assert(a.subrange(a.len() - 1, a.len() as int) =~= " "@);
        assert(a.skip(a.len() - 1) =~= " "@);
    }
    assert(a.drop_last() =~= t);
    assert(text::trim_end(t) == t);
    assert(text::trim_end(a) == t);
    if !text::is_digit(t.last()) {
        let whole = t + digits;
        assert(whole.last() == digits[digits.len() - 1]);
        assert(text::trim_end(whole) == whole);
        lemma_digits_go(t, digits);
        if " "@.is_suffix_of(t) {
            assert(t.subrange(t.len() - 1, t.len() as int)[0] == t.last());
        }
    }
}

/// The year in brackets that a title ends in does not count.
pub proof fn law_years_do_not_count(t: Seq<char>, year: nat)
    requires
        1000 <= year <= 9999,
    ensures
        without_year(t + "("@ + text::decimal(year) + ")"@) == t,
{
    reveal_strlit("(");
    reveal_strlit(")");
    let digits = text::decimal(year);
    text::lemma_decimal_digits(year);
    reveal_with_fuel(text::decimal, 5);
    assert(digits.len() == 4);
    let s = t + "("@ + digits + ")"@;
    let n = t.len() as int;
    text::lemma_last_char(s, '(');
    assert(s[n] == '(');
    assert forall|k: int| n < k < s.len() implies #[trigger] s[k] != '(' by {
        if k < s.len() - 1 {
            assert(s[k] == digits[k - n - 1]);
            assert(text::is_digit(digits[k - n - 1]));
        }
    }
    assert(text::last_char(s, '(') == Some(n));
    let suffix = s.skip(n);
    assert(suffix.len() == 6);
    assert(vstd::utf8::is_ascii_chars(suffix)) by {
        assert forall|i: int| 0 <= i < suffix.len() implies '\0' <= #[trigger] suffix[i]
            <= '\u{7f}' by {
            if 0 < i < 5 {
                assert(suffix[i] == digits[i - 1]);
                assert(text::is_digit(digits[i - 1]));
            }
        }
    }
    vstd::utf8::is_ascii_chars_encode_utf8(suffix);
    assert(")"@.is_suffix_of(suffix)) by {
        assert(suffix.subrange(5, 6) =~= ")"@);
        assert(suffix.skip(5) =~= ")"@);
    }
    assert(s.take(n) =~= t);
}

/// Replacing a character goes piece by piece.
proof fn lemma_replace_pieces(a: Seq<char>, b: Seq<char>, mark: Seq<char>, to: Seq<char>)
    requires
        mark.len() == 1,
    ensures
        text::replace(a + b, mark, to) == text::replace(a, mark, to) + text::replace(b, mark, to),
    decreases a.len(),
{
    if a.len() == 0 {
        assert(a + b =~= b);
        assert(text::replace(a, mark, to) + text::replace(b, mark, to) =~= text::replace(
            b,
            mark,
            to,
        ));
    } else {
        let s = a + b;
        let rest = a.skip(1);
        assert(s.skip(1) =~= rest + b);
        assert(s.subrange(0, 1) =~= a.subrange(0, 1));
        lemma_replace_pieces(rest, b, mark, to);
        let head = if text::occurs_at(a, mark, 0) {
            to
        } else {
            seq![a[0]]
        };
        assert(head + (text::replace(rest, mark, to) + text::replace(b, mark, to)) =~= (head
            + text::replace(rest, mark, to)) + text::replace(b, mark, to));
    }
}

/// What becomes of one character.
proof fn lemma_replace_char(c: char, mark: Seq<char>, to: Seq<char>)
    requires
        mark.len() == 1,
    ensures
        text::replace(seq![c], mark, to) == (if c == mark[0] {
            to
        } else {
            seq![c]
        }),
{
    let s = seq![c];
    assert(s.skip(1) =~= Seq::<char>::empty());
    assert(s.subrange(0, 1) =~= s);
    assert(text::replace(s.skip(1), mark, to) =~= Seq::<char>::empty());
    if c == mark[0] {
        assert(s =~= mark);
        assert(to + Seq::<char>::empty() =~= to);
    } else {
        assert(s.subrange(0, 1)[0] != mark[0]);
        assert(s + Seq::<char>::empty() =~= s);
    }
}

/// Punctuation is turned into blanks one character at a time: an ampersand into the word, an
/// apostrophe into nothing, and everything that is no punctuation stays.
pub proof fn law_punctuation_does_not_count(t: Seq<char>, c: char)
    ensures
        without_punctuation(t.push(c)) == without_punctuation(t) + (if c == '&' {
            " and "@
        } else if c == '\'' {
            ""@
        } else if c == ':' || c == '-' || c == ',' || c == '!' || c == '.' {
            " "@
        } else {
            seq![c]
        }),
        without_punctuation(""@) == ""@,
{
    reveal_strlit(":");
    reveal_strlit("-");
    reveal_strlit(",");
    reveal_strlit("&");
    reveal_strlit("'");
    reveal_strlit("!");
    reveal_strlit(".");
    reveal_strlit(" ");
    reveal_strlit("");
    reveal_strlit(" and ");
    let one = seq![c];
    assert(t.push(c) =~= t + one);
    let (x1, y1) = (text::replace(t, ":"@, " "@), text::replace(one, ":"@, " "@));
    lemma_replace_pieces(t, one, ":"@, " "@);
    let (x2, y2) = (text::replace(x1, "-"@, " "@), text::replace(y1, "-"@, " "@));
    lemma_replace_pieces(x1, y1, "-"@, " "@);
    let (x3, y3) = (text::replace(x2, ","@, " "@), text::replace(y2, ","@, " "@));
    lemma_replace_pieces(x2, y2, ","@, " "@);
    let (x4, y4) = (text::replace(x3, "&"@, " and "@), text::replace(y3, "&"@, " and "@));
    lemma_replace_pieces(x3, y3, "&"@, " and "@);
    let (x5, y5) = (text::replace(x4, "'"@, ""@), text::replace(y4, "'"@, ""@));
    lemma_replace_pieces(x4, y4, "'"@, ""@);
    let (x6, y6) = (text::replace(x5, "!"@, " "@), text::replace(y5, "!"@, " "@));
    lemma_replace_pieces(x5, y5, "!"@, " "@);
    lemma_replace_pieces(x6, y6, "."@, " "@);
    let blank = " "@;
    assert(blank =~= seq![' ']);
    lemma_replace_char(c, ":"@, " "@);
    lemma_replace_char(c, "-"@, " "@);
    lemma_replace_char(c, ","@, " "@);
    lemma_replace_char(c, "&"@, " and "@);
    lemma_replace_char(c, "'"@, ""@);
    lemma_replace_char(c, "!"@, " "@);
    lemma_replace_char(c, "."@, " "@);
    lemma_replace_char(' ', "-"@, " "@);
    lemma_replace_char(' ', ","@, " "@);
    lemma_replace_char(' ', "&"@, " and "@);
    lemma_replace_char(' ', "'"@, ""@);
    lemma_replace_char(' ', "!"@, " "@);
    lemma_replace_char(' ', "."@, " "@);
    assert(text::replace(""@, "!"@, " "@) =~= ""@);
    assert(text::replace(""@, "."@, " "@) =~= ""@);
    lemma_no_mark(" and "@, "'"@, ""@);
    lemma_no_mark(" and "@, "!"@, " "@);
    lemma_no_mark(" and "@, "."@, " "@);
}

proof fn lemma_no_mark(s: Seq<char>, mark: Seq<char>, to: Seq<char>)
    requires
        mark.len() == 1,
        forall|i: int| 0 <= i < s.len() ==> #[trigger] s[i] != mark[0],
    ensures
        text::replace(s, mark, to) == s,
{
    text::lemma_find_from(s, mark, 0);
    if text::has(s, mark) {
        let k = text::find_from(s, mark, 0)->0;
        assert(s.subrange(k, k + 1)[0] == s[k]);
    }
    text::lemma_replace_none(s, mark, to);
}

} // verus!
