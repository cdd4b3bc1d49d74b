//! Text as sequences of characters: what it means to find, split, trim and
//! rewrite it, and the functions that do.

use vstd::prelude::*;

verus! {

/// `String::push` of the standard library appends one character.
pub assume_specification[ String::push ](s: &mut String, c: char)
    ensures
        final(s)@ == old(s)@.push(c),
;

/// What `str::to_lowercase` of the standard library makes of a text.
pub uninterp spec fn unicode_lower(s: Seq<char>) -> Seq<char>;

/// Every character of `s` is ASCII.
pub open spec fn all_ascii(s: Seq<char>) -> bool {
    forall|i: int| 0 <= i < s.len() ==> (#[trigger] s[i] as u32) < 0x80
}

/// `str::to_lowercase` of the standard library: the small letters of a text, by
/// Unicode's rules. On ASCII text these are the ASCII small letters.
#[verifier::external_body]
pub(crate) fn to_lowercase(s: &str) -> (r: String)
    ensures
        r@ == unicode_lower(s@),
        all_ascii(s@) ==> r@ == lower(s@),
{
    s.to_lowercase()
}

/// The small letters of a text. Those of ASCII text are the ASCII ones.
pub open spec fn small(s: Seq<char>) -> Seq<char> {
    if all_ascii(s) {
        lower(s)
    } else {
        unicode_lower(s)
    }
}

/// The small letters of a text.
pub fn to_small(s: &str) -> (r: String)
    ensures
        r@ == small(s@),
{
    to_lowercase(s)
}

// ── Meaning ──────────────────────────────────────────────────────────────────

/// `pattern` stands at position `at` of `s`.
pub open spec fn occurs_at(s: Seq<char>, pattern: Seq<char>, at: int) -> bool {
    0 <= at && at + pattern.len() <= s.len() && s.subrange(at, at + pattern.len()) == pattern
}

/// The first position, `from` or later, at which `pattern` stands in `s`.
pub open spec fn find_from(s: Seq<char>, pattern: Seq<char>, from: int) -> Option<int>
    decreases s.len() - from + 1,
{
    if from + pattern.len() > s.len() {
        None
    } else if occurs_at(s, pattern, from) {
        Some(from)
    } else {
        find_from(s, pattern, from + 1)
    }
}

/// The first position at which `pattern` stands in `s`.
pub open spec fn find(s: Seq<char>, pattern: Seq<char>) -> Option<int> {
    find_from(s, pattern, 0)
}

/// `pattern` stands somewhere in `s`.
pub open spec fn has(s: Seq<char>, pattern: Seq<char>) -> bool {
    find(s, pattern) is Some
}

/// The first position of the character `c` at `from` or later.
pub open spec fn char_from(s: Seq<char>, c: char, from: int) -> Option<int>
    decreases s.len() - from,
{
    if from >= s.len() {
        None
    } else if s[from] == c {
        Some(from)
    } else {
        char_from(s, c, from + 1)
    }
}

/// The last position of the character `c`.
pub open spec fn last_char(s: Seq<char>, c: char) -> Option<int>
    decreases s.len(),
{
    if s.len() == 0 {
        None
    } else if s.last() == c {
        Some(s.len() - 1)
    } else {
        last_char(s.drop_last(), c)
    }
}

/// The pieces of `s` between the occurrences of `c`; there is always one.
pub open spec fn split(s: Seq<char>, c: char) -> Seq<Seq<char>>
    decreases s.len(),
{
    if s.len() == 0 {
        seq![Seq::<char>::empty()]
    } else {
        let before = split(s.drop_last(), c);
        if s.last() == c {
            before.push(Seq::<char>::empty())
        } else {
            before.drop_last().push(before.last().push(s.last()))
        }
    }
}

/// `parts` with `sep` between each two of them.
pub open spec fn join(parts: Seq<Seq<char>>, sep: Seq<char>) -> Seq<char>
    decreases parts.len(),
{
    if parts.len() == 0 {
        Seq::<char>::empty()
    } else if parts.len() == 1 {
        parts[0]
    } else {
        join(parts.drop_last(), sep) + sep + parts.last()
    }
}

/// `line` without a carriage return at its end.
pub open spec fn strip_cr(line: Seq<char>) -> Seq<char> {
    if line.len() > 0 && line.last() == '\r' {
        line.drop_last()
    } else {
        line
    }
}

/// The lines of `s`. A line ends in a line feed, which a carriage return may
/// precede; neither belongs to the line. What follows the last line feed is a
/// line if it is not empty.
pub open spec fn lines(s: Seq<char>) -> Seq<Seq<char>> {
    let pieces = split(s, '\n');
    let ended = Seq::new((pieces.len() - 1) as nat, |i: int| strip_cr(pieces[i]));
    if pieces.last().len() == 0 {
        ended
    } else {
        ended.push(pieces.last())
    }
}

/// A line without a line feed or a carriage return in it.
pub open spec fn is_plain_line(line: Seq<char>) -> bool {
    !line.contains('\n') && !line.contains('\r')
}

proof fn lemma_split_add(a: Seq<char>, b: Seq<char>, c: char)
    requires
        !b.contains(c),
    ensures
        split(a.push(c) + b, c) == split(a, c).push(b),
    decreases b.len(),
{
    let s = a.push(c) + b;
    if b.len() == 0 {
        assert(s =~= a.push(c));
        assert(s.drop_last() =~= a);
        assert(b =~= Seq::<char>::empty());
    } else {
        let less = b.drop_last();
        assert(b.contains(b.last()));
        assert(!less.contains(c)) by {
            if less.contains(c) {
                let i = choose|i: int| 0 <= i < less.len() && less[i] == c;
                assert(b[i] == c);
            }
        }
        lemma_split_add(a, less, c);
        assert(s.drop_last() =~= a.push(c) + less);
        assert(s.last() == b.last());
        let before = split(a, c).push(less);
        assert(before.drop_last() =~= split(a, c));
        assert(less.push(b.last()) =~= b);
    }
}

proof fn lemma_split_join(ls: Seq<Seq<char>>)
    requires
        ls.len() > 0,
        forall|i: int| 0 <= i < ls.len() ==> is_plain_line(#[trigger] ls[i]),
    ensures
        split(join(ls, "\n"@), '\n') == ls,
    decreases ls.len(),
{
    reveal_strlit("\n");
    assert(is_plain_line(ls.last()));
    if ls.len() == 1 {
        lemma_split_one(ls[0], '\n');
        assert(ls =~= seq![ls[0]]);
    } else {
        let init = ls.drop_last();
        assert forall|i: int| 0 <= i < init.len() implies is_plain_line(#[trigger] init[i]) by {
            assert(init[i] == ls[i]);
        }
        lemma_split_join(init);
        lemma_split_add(join(init, "\n"@), ls.last(), '\n');
        assert(join(ls, "\n"@) =~= join(init, "\n"@).push('\n') + ls.last());
        assert(init.push(ls.last()) =~= ls);
    }
}

proof fn lemma_split_one(s: Seq<char>, c: char)
    requires
        !s.contains(c),
    ensures
        split(s, c) == seq![s],
    decreases s.len(),
{
    if s.len() == 0 {
        assert(s =~= Seq::<char>::empty());
    } else {
        let less = s.drop_last();
        assert(s.contains(s.last()));
        assert(!less.contains(c)) by {
            if less.contains(c) {
                let i = choose|i: int| 0 <= i < less.len() && less[i] == c;
                assert(s[i] == c);
            }
        }
        lemma_split_one(less, c);
        assert(seq![less].drop_last() =~= Seq::<Seq<char>>::empty());
        assert(less.push(s.last()) =~= s);
        assert(split(s, c) =~= seq![s]);
    }
}

/// Plain lines that are joined and ended with line feeds are read back.
pub proof fn lemma_lines_of_join(ls: Seq<Seq<char>>)
    requires
        ls.len() > 0,
        forall|i: int| 0 <= i < ls.len() ==> is_plain_line(#[trigger] ls[i]),
    ensures
        lines(join(ls, "\n"@) + "\n"@) == ls,
{
    reveal_strlit("\n");
    let s = join(ls, "\n"@);
    lemma_split_join(ls);
    lemma_split_add(s, Seq::<char>::empty(), '\n');
    assert(s.push('\n') + Seq::<char>::empty() =~= s + "\n"@);
    let pieces = ls.push(Seq::<char>::empty());
    assert forall|i: int| 0 <= i < ls.len() implies strip_cr(#[trigger] pieces[i]) == ls[i] by {
        assert(is_plain_line(ls[i]));
        if ls[i].len() > 0 {
            assert(ls[i].contains(ls[i].last()));
        }
    }
    assert(lines(s + "\n"@) =~= ls);
}

proof fn lemma_pieces(s: Seq<char>, c: char)
    ensures
        split(s, c).len() > 0,
        forall|i: int, k: int|
            0 <= i < split(s, c).len() && 0 <= k < split(s, c)[i].len() ==> #[trigger] split(
                s,
                c,
            )[i][k] != c && s.contains(split(s, c)[i][k]),
    decreases s.len(),
{
    if s.len() > 0 {
        let less = s.drop_last();
        lemma_pieces(less, c);
        let before = split(less, c);
        let now = split(s, c);
        assert forall|i: int, k: int|
            0 <= i < now.len() && 0 <= k < now[i].len() implies #[trigger] now[i][k] != c
            && s.contains(now[i][k]) by {
            let x = now[i][k];
            assert(s.contains(s.last()));
            if i < before.len() && k < before[i].len() {
                assert(x == before[i][k]);
                assert(less.contains(x));
                let j = choose|j: int| 0 <= j < less.len() && less[j] == x;
                assert(s[j] == x);
            } else {
                assert(x == s.last() && s.last() != c);
            }
        }
    }
}

/// The lines of a text without carriage returns are plain.
pub proof fn lemma_lines_plain(s: Seq<char>)
    requires
        !s.contains('\r'),
    ensures
        forall|i: int| 0 <= i < lines(s).len() ==> is_plain_line(#[trigger] lines(s)[i]),
{
    lemma_pieces(s, '\n');
    let pieces = split(s, '\n');
    assert forall|i: int| 0 <= i < lines(s).len() implies is_plain_line(#[trigger] lines(s)[i]) by {
        let line = lines(s)[i];
        assert(forall|k: int| 0 <= k < line.len() ==> #[trigger] line[k] == pieces[i][k]);
        if line.contains('\n') {
            let k = choose|k: int| 0 <= k < line.len() && line[k] == '\n';
            assert(pieces[i][k] != '\n');
        }
        if line.contains('\r') {
            let k = choose|k: int| 0 <= k < line.len() && line[k] == '\r';
            assert(s.contains(pieces[i][k]));
        }
    }
}

/// A part of a plain line is plain.
pub proof fn lemma_part_plain(line: Seq<char>, from: int, to: int)
    requires
        is_plain_line(line),
        0 <= from <= to <= line.len(),
    ensures
        is_plain_line(line.subrange(from, to)),
{
    let part = line.subrange(from, to);
    if part.contains('\n') {
        let k = choose|k: int| 0 <= k < part.len() && part[k] == '\n';
        assert(line[from + k] == '\n');
    }
    if part.contains('\r') {
        let k = choose|k: int| 0 <= k < part.len() && part[k] == '\r';
        assert(line[from + k] == '\r');
    }
}

/// Two plain lines one behind the other are plain.
pub proof fn lemma_add_plain(a: Seq<char>, b: Seq<char>)
    requires
        is_plain_line(a),
        is_plain_line(b),
    ensures
        is_plain_line(a + b),
{
    let s = a + b;
    assert forall|k: int| 0 <= k < s.len() implies #[trigger] s[k] != '\n' && s[k] != '\r' by {
        if k < a.len() {
            assert(a.contains(a[k]));
        } else {
            assert(b.contains(b[k - a.len()]));
        }
    }
}

proof fn lemma_leading_plain(s: Seq<char>, set: spec_fn(char) -> bool)
    requires
        is_plain_line(s),
    ensures
        is_plain_line(drop_leading(s, set)),
    decreases s.len(),
{
    if s.len() > 0 && set(s[0]) {
        lemma_part_plain(s, 1, s.len() as int);
        assert(s.skip(1) =~= s.subrange(1, s.len() as int));
        lemma_leading_plain(s.skip(1), set);
    }
}

proof fn lemma_trailing_plain(s: Seq<char>, set: spec_fn(char) -> bool)
    requires
        is_plain_line(s),
    ensures
        is_plain_line(drop_trailing(s, set)),
    decreases s.len(),
{
    if s.len() > 0 && set(s.last()) {
        lemma_part_plain(s, 0, s.len() - 1);
        assert(s.drop_last() =~= s.subrange(0, s.len() - 1));
        lemma_trailing_plain(s.drop_last(), set);
    }
}

/// A plain line without the white space around it is plain.
pub proof fn lemma_trim_plain(s: Seq<char>)
    requires
        is_plain_line(s),
    ensures
        is_plain_line(trim(s)),
        is_plain_line(trim_start(s)),
        is_plain_line(trim_end(s)),
{
    lemma_leading_plain(s, |c: char| is_space(c));
    lemma_trailing_plain(s, |c: char| is_space(c));
    lemma_trailing_plain(trim_start(s), |c: char| is_space(c));
}

proof fn lemma_split_joined(ls: Seq<Seq<char>>)
    requires
        ls.len() > 0,
        forall|i: int| 0 <= i < ls.len() ==> !(#[trigger] ls[i]).contains('\n'),
    ensures
        split(join(ls, "\n"@), '\n') == ls,
    decreases ls.len(),
{
    reveal_strlit("\n");
    assert(!ls.last().contains('\n'));
    if ls.len() == 1 {
        lemma_split_one(ls[0], '\n');
        assert(ls =~= seq![ls[0]]);
    } else {
        let init = ls.drop_last();
        assert forall|i: int| 0 <= i < init.len() implies !(#[trigger] init[i]).contains('\n') by {
            assert(init[i] == ls[i]);
        }
        lemma_split_joined(init);
        let a = join(init, "\n"@);
        lemma_split_add(a, ls.last(), '\n');
        assert(a.push('\n') + ls.last() =~= a + "\n"@ + ls.last());
        assert(init.push(ls.last()) =~= ls);
    }
}

/// Lines that are joined and ended with line feeds are read back, but for a carriage
/// return at the end of each.
pub proof fn lemma_lines_of_joined(ls: Seq<Seq<char>>)
    requires
        ls.len() > 0,
        forall|i: int| 0 <= i < ls.len() ==> !(#[trigger] ls[i]).contains('\n'),
    ensures
        lines(join(ls, "\n"@) + "\n"@) == Seq::new(ls.len(), |i: int| strip_cr(ls[i])),
{
    reveal_strlit("\n");
    let s = join(ls, "\n"@);
    lemma_split_joined(ls);
    lemma_split_add(s, Seq::<char>::empty(), '\n');
    assert(s.push('\n') + Seq::<char>::empty() =~= s + "\n"@);
    assert(lines(s + "\n"@) =~= Seq::new(ls.len(), |i: int| strip_cr(ls[i])));
}

/// No line of a text has a line feed.
pub proof fn lemma_lines_have_no_feed(s: Seq<char>)
    ensures
        forall|i: int| 0 <= i < lines(s).len() ==> !(#[trigger] lines(s)[i]).contains('\n'),
{
    lemma_pieces(s, '\n');
    let pieces = split(s, '\n');
    assert forall|i: int| 0 <= i < lines(s).len() implies !(#[trigger] lines(s)[i]).contains(
        '\n',
    ) by {
        let line = lines(s)[i];
        assert(forall|k: int| 0 <= k < line.len() ==> #[trigger] line[k] == pieces[i][k]);
        if line.contains('\n') {
            let k = choose|k: int| 0 <= k < line.len() && line[k] == '\n';
            assert(pieces[i][k] != '\n');
        }
    }
}

/// A line that is added to whole lines is one more line.
pub proof fn lemma_lines_add(a: Seq<char>, line: Seq<char>)
    requires
        a.len() == 0 || a.last() == '\n',
        is_plain_line(line),
    ensures
        lines(a + line + "\n"@) == lines(a).push(line),
{
    reveal_strlit("\n");
    let t = a + line;
    let s = t + "\n"@;
    assert(s.drop_last() =~= t);
    assert(s.last() == '\n');
    if line.len() > 0 {
        assert(line.contains(line.last()));
    }
    assert(strip_cr(line) == line);
    if a.len() == 0 {
        assert(t =~= line);
        lemma_split_one(line, '\n');
        assert(lines(a) =~= Seq::<Seq<char>>::empty());
        assert(lines(s) =~= seq![line]);
        assert(lines(a).push(line) =~= seq![line]);
    } else {
        let a0 = a.drop_last();
        assert(t =~= a0.push('\n') + line);
        lemma_split_add(a0, line, '\n');
        lemma_split_some(a0, '\n');
        assert(lines(s) =~= lines(a).push(line));
    }
}

/// The characters that Unicode calls white space.
pub open spec fn is_space(c: char) -> bool {
    let n = c as u32;
    ||| 0x9 <= n <= 0xd
    ||| n == 0x20
    ||| n == 0x85
    ||| n == 0xa0
    ||| n == 0x1680
    ||| 0x2000 <= n <= 0x200a
    ||| n == 0x2028
    ||| n == 0x2029
    ||| n == 0x202f
    ||| n == 0x205f
    ||| n == 0x3000
}

/// `s` without the leading characters of `set`.
pub open spec fn drop_leading(s: Seq<char>, set: spec_fn(char) -> bool) -> Seq<char>
    decreases s.len(),
{
    if s.len() > 0 && set(s[0]) {
        drop_leading(s.skip(1), set)
    } else {
        s
    }
}

/// `s` without the trailing characters of `set`.
pub open spec fn drop_trailing(s: Seq<char>, set: spec_fn(char) -> bool) -> Seq<char>
    decreases s.len(),
{
    if s.len() > 0 && set(s.last()) {
        drop_trailing(s.drop_last(), set)
    } else {
        s
    }
}

/// `s` without leading white space.
pub open spec fn trim_start(s: Seq<char>) -> Seq<char> {
    drop_leading(s, |c: char| is_space(c))
}

/// `s` without trailing white space.
pub open spec fn trim_end(s: Seq<char>) -> Seq<char> {
    drop_trailing(s, |c: char| is_space(c))
}

/// `s` without the white space around it.
pub open spec fn trim(s: Seq<char>) -> Seq<char> {
    trim_end(trim_start(s))
}

pub open spec fn is_upper_ascii(c: char) -> bool {
    'A' <= c <= 'Z'
}

pub open spec fn is_digit(c: char) -> bool {
    '0' <= c <= '9'
}

pub open spec fn is_alnum_ascii(c: char) -> bool {
    'A' <= c <= 'Z' || 'a' <= c <= 'z' || '0' <= c <= '9'
}

/// An ASCII capital as its small letter, every other character as it is.
pub open spec fn lower_char(c: char) -> char {
    if is_upper_ascii(c) {
        (c as u32 + 32) as char
    } else {
        c
    }
}

/// `s` with its ASCII capitals as small letters.
pub open spec fn lower(s: Seq<char>) -> Seq<char> {
    Seq::new(s.len(), |i: int| lower_char(s[i]))
}

/// Two texts one behind the other, in small letters.
pub proof fn lemma_lower_add(a: Seq<char>, b: Seq<char>)
    ensures
        lower(a + b) == lower(a) + lower(b),
{
    assert(lower(a + b) =~= lower(a) + lower(b));
}

/// `s` with `to` in place of every `from`.
pub open spec fn swap_char(s: Seq<char>, from: char, to: char) -> Seq<char> {
    Seq::new(
        s.len(),
        |i: int|
            if s[i] == from {
                to
            } else {
                s[i]
            },
    )
}

/// `s` with every occurrence of `from`, looked for from left to right, replaced
/// by `to`. An empty `from` stands before every character and at the end.
pub open spec fn replace(s: Seq<char>, from: Seq<char>, to: Seq<char>) -> Seq<char>
    decreases s.len(),
{
    if s.len() == 0 {
        if from.len() == 0 {
            to
        } else {
            s
        }
    } else if from.len() == 0 {
        to + seq![s[0]] + replace(s.skip(1), from, to)
    } else if occurs_at(s, from, 0) {
        to + replace(s.skip(from.len() as int), from, to)
    } else {
        seq![s[0]] + replace(s.skip(1), from, to)
    }
}

/// What stands before and after the first `c`.
pub open spec fn split_once(s: Seq<char>, c: char) -> Option<(Seq<char>, Seq<char>)> {
    match char_from(s, c, 0) {
        Some(i) => Some((s.take(i), s.skip(i + 1))),
        None => None,
    }
}

/// What stands before and after the last `c`.
pub open spec fn rsplit_once(s: Seq<char>, c: char) -> Option<(Seq<char>, Seq<char>)> {
    match last_char(s, c) {
        Some(i) => Some((s.take(i), s.skip(i + 1))),
        None => None,
    }
}

/// What follows `prefix` in a text that begins with it.
pub open spec fn strip_prefix(s: Seq<char>, prefix: Seq<char>) -> Option<Seq<char>> {
    if prefix.is_prefix_of(s) {
        Some(s.skip(prefix.len() as int))
    } else {
        None
    }
}

/// What precedes `suffix` in a text that ends with it.
pub open spec fn strip_suffix(s: Seq<char>, suffix: Seq<char>) -> Option<Seq<char>> {
    if suffix.is_suffix_of(s) {
        Some(s.take(s.len() - suffix.len()))
    } else {
        None
    }
}

/// What stands before the first `mark`, or all of `s`.
pub open spec fn before_mark(s: Seq<char>, mark: Seq<char>) -> Seq<char> {
    match find(s, mark) {
        Some(i) => s.take(i),
        None => s,
    }
}

/// What stands between the first `mark` and the next one, if there is a first.
pub open spec fn after_mark(s: Seq<char>, mark: Seq<char>) -> Option<Seq<char>> {
    match find(s, mark) {
        Some(i) => Some(before_mark(s.skip(i + mark.len()), mark)),
        None => None,
    }
}

/// `s` without the `c`s it begins with.
pub open spec fn strip_front(s: Seq<char>, c: char) -> Seq<char>
    decreases s.len(),
{
    if s.len() > 0 && s[0] == c {
        strip_front(s.skip(1), c)
    } else {
        s
    }
}

/// `s` without the `c`s it ends with.
pub open spec fn strip_back(s: Seq<char>, c: char) -> Seq<char>
    decreases s.len(),
{
    if s.len() > 0 && s.last() == c {
        strip_back(s.drop_last(), c)
    } else {
        s
    }
}

/// The words of `s`: its longest runs of characters that are no white space.
pub open spec fn words(s: Seq<char>) -> Seq<Seq<char>>
    decreases s.len(),
{
    if s.len() == 0 {
        Seq::<Seq<char>>::empty()
    } else {
        let before = words(s.drop_last());
        if is_space(s.last()) {
            before
        } else if s.len() == 1 || is_space(s[s.len() - 2]) {
            before.push(seq![s.last()])
        } else {
            before.drop_last().push(before.last().push(s.last()))
        }
    }
}

/// The part of `s` before its first white space.
pub open spec fn first_run(s: Seq<char>) -> Seq<char>
    decreases s.len(),
{
    if s.len() == 0 || is_space(s[0]) {
        Seq::<char>::empty()
    } else {
        seq![s[0]] + first_run(s.skip(1))
    }
}

/// The decimal digit of value `d`.
pub open spec fn digit(d: nat) -> char {
    ('0' as u32 + d) as char
}

/// `n` in decimal.
pub open spec fn decimal(n: nat) -> Seq<char>
    decreases n,
{
    if n < 10 {
        seq![digit(n)]
    } else {
        decimal(n / 10).push(digit(n % 10))
    }
}

/// A number is written with digits, and with at least one.
pub proof fn lemma_decimal_digits(n: nat)
    ensures
        decimal(n).len() > 0,
        forall|i: int| 0 <= i < decimal(n).len() ==> is_digit(#[trigger] decimal(n)[i]),
    decreases n,
{
    if n >= 10 {
        lemma_decimal_digits(n / 10);
    }
}

/// Two numbers that are written alike are the same.
pub proof fn lemma_decimal_injective(a: nat, b: nat)
    requires
        decimal(a) == decimal(b),
    ensures
        a == b,
    decreases a,
{
    lemma_decimal_digits(a / 10);
    lemma_decimal_digits(b / 10);
    if a < 10 {
        assert(decimal(a).len() == 1);
        assert(b < 10);
        assert(decimal(a)[0] == digit(a) && decimal(b)[0] == digit(b));
        assert(digit(a) as u32 == 48 + a && digit(b) as u32 == 48 + b);
    } else {
        assert(decimal(a).len() > 1);
        assert(b >= 10);
        assert(decimal(a).last() == decimal(b).last());
        assert(digit(a % 10) as u32 == 48 + a % 10 && digit(b % 10) as u32 == 48 + b % 10);
        assert(decimal(a).last() == digit(a % 10) && decimal(b).last() == digit(b % 10));
        assert(decimal(a).drop_last() =~= decimal(a / 10));
        assert(decimal(b).drop_last() =~= decimal(b / 10));
        lemma_decimal_injective(a / 10, b / 10);
        assert(a == 10 * (a / 10) + a % 10 && b == 10 * (b / 10) + b % 10);
    }
}

/// `n` in decimal, with a sign where it is negative.
pub open spec fn signed(n: int) -> Seq<char> {
    if n < 0 {
        "-"@ + decimal((-n) as nat)
    } else {
        decimal(n as nat)
    }
}

/// The views of a list of texts.
pub open spec fn texts(v: Seq<String>) -> Seq<Seq<char>> {
    Seq::new(v.len(), |i: int| v[i]@)
}

/// The views of a list of fixed texts.
pub open spec fn strs(v: Seq<&'static str>) -> Seq<Seq<char>> {
    Seq::new(v.len(), |i: int| v[i]@)
}

/// The view of an optional borrowed text.
pub open spec fn opt_ref(o: Option<&str>) -> Option<Seq<char>> {
    match o {
        Some(s) => Some(s@),
        None => None,
    }
}

/// The view of an optional text.
pub open spec fn opt(o: Option<String>) -> Option<Seq<char>> {
    match o {
        Some(s) => Some(s@),
        None => None,
    }
}

// ── Characters and texts ─────────────────────────────────────────────────────

/// The characters of `s`.
pub fn chars_of(s: &str) -> (r: Vec<char>)
    ensures
        r@ == s@,
{
    let mut out: Vec<char> = Vec::new();
    for c in it: s.chars()
        invariant
            out@ == s@.take(it.index() as int),
            it.seq() == s@,
    {
        out.push(c);
    }
    out
}

/// The text made of the characters of `v`.
pub fn string_of(v: &[char]) -> (r: String)
    ensures
        r@ == v@,
{
    let mut out: String = String::new();
    let mut i: usize = 0;
    while i < v.len()
        invariant
            i <= v@.len(),
            out@ == v@.take(i as int),
        decreases v@.len() - i,
    {
        out.push(v[i]);
        i += 1;
    }
    out
}

/// Whether two texts are the same.
pub fn same(a: &str, b: &str) -> (r: bool)
    ensures
        r == (a@ == b@),
{
    let x = a.as_bytes();
    let y = b.as_bytes();
    proof {
        vstd::utf8::encode_utf8_decode_utf8(a@);
        vstd::utf8::encode_utf8_decode_utf8(b@);
    }
    if x.len() != y.len() {
        return false;
    }
    let mut i: usize = 0;
    while i < x.len()
        invariant
            i <= x@.len(),
            x@.len() == y@.len(),
            x@ == vstd::utf8::encode_utf8(a@),
            y@ == vstd::utf8::encode_utf8(b@),
            forall|k: int| 0 <= k < i ==> x@[k] == y@[k],
        decreases x@.len() - i,
    {
        if x[i] != y[i] {
            return false;
        }
        i += 1;
    }
    assert(x@ =~= y@);
    true
}

pub fn same_chars(x: &[char], y: &[char]) -> (r: bool)
    ensures
        r == (x@ == y@),
{
    if x.len() != y.len() {
        return false;
    }
    let mut i: usize = 0;
    while i < x.len()
        invariant
            i <= x@.len(),
            x@.len() == y@.len(),
            forall|k: int| 0 <= k < i ==> x@[k] == y@[k],
        decreases x@.len() - i,
    {
        if x[i] != y[i] {
            return false;
        }
        i += 1;
    }
    assert(x@ =~= y@);
    true
}

/// Two texts one after the other.
pub fn cat(a: &str, b: &str) -> (r: String)
    ensures
        r@ == a@ + b@,
{
    let mut out: String = String::new();
    out.append(a);
    out.append(b);
    assert(out@ =~= a@ + b@);
    out
}

/// Three texts one after the other.
pub fn cat3(a: &str, b: &str, c: &str) -> (r: String)
    ensures
        r@ == a@ + b@ + c@,
{
    let mut out = cat(a, b);
    out.append(c);
    out
}

/// Whether `t` is one of `list`.
pub fn is_one_of(list: &Vec<String>, t: &str) -> (r: bool)
    ensures
        r == texts(list@).contains(t@),
{
    let mut i: usize = 0;
    while i < list.len()
        invariant
            i <= list@.len(),
            forall|k: int| 0 <= k < i ==> texts(list@)[k] != t@,
        decreases list@.len() - i,
    {
        if same(list[i].as_str(), t) {
            assert(texts(list@)[i as int] == t@);
            return true;
        }
        i += 1;
    }
    false
}

pub fn is_space_char(c: char) -> (r: bool)
    ensures
        r == is_space(c),
{
    let n: u32 = c as u32;
    (0x9 <= n && n <= 0xd) || n == 0x20 || n == 0x85 || n == 0xa0 || n == 0x1680 || (0x2000 <= n && n
        <= 0x200a) || n == 0x2028 || n == 0x2029 || n == 0x202f || n == 0x205f || n == 0x3000
}

pub fn is_digit_char(c: char) -> (r: bool)
    ensures
        r == is_digit(c),
{
    '0' <= c && c <= '9'
}

pub fn is_alnum_char(c: char) -> (r: bool)
    ensures
        r == is_alnum_ascii(c),
{
    ('A' <= c && c <= 'Z') || ('a' <= c && c <= 'z') || ('0' <= c && c <= '9')
}

pub fn to_lower_char(c: char) -> (r: char)
    ensures
        r == lower_char(c),
{
    if 'A' <= c && c <= 'Z' {
        (c as u8 + 32) as char
    } else {
        c
    }
}

/// `s` with its ASCII capitals as small letters.
pub fn to_lower(s: &[char]) -> (r: Vec<char>)
    ensures
        r@ == lower(s@),
{
    let mut out: Vec<char> = Vec::new();
    let mut i: usize = 0;
    while i < s.len()
        invariant
            i <= s@.len(),
            out@ == lower(s@).take(i as int),
        decreases s@.len() - i,
    {
        out.push(to_lower_char(s[i]));
        i += 1;
    }
    assert(lower(s@).take(s@.len() as int) =~= lower(s@));
    out
}

// ── Looking for text ─────────────────────────────────────────────────────────

/// Whether `pattern` stands at `at`.
pub fn stands_at(s: &[char], pattern: &[char], at: usize) -> (r: bool)
    ensures
        r == occurs_at(s@, pattern@, at as int),
{
    let n: usize = s.len();
    if n < pattern.len() || at > n - pattern.len() {
        return false;
    }
    let mut i: usize = 0;
    while i < pattern.len()
        invariant
            i <= pattern@.len(),
            n == s@.len(),
            at + pattern@.len() <= s@.len(),
            forall|k: int| 0 <= k < i ==> s@[at + k] == pattern@[k],
        decreases pattern@.len() - i,
    {
        if s[at + i] != pattern[i] {
            assert(s@.subrange(at as int, at + pattern@.len())[i as int] != pattern@[i as int]);
            return false;
        }
        i += 1;
    }
    assert(s@.subrange(at as int, at + pattern@.len()) =~= pattern@);
    true
}

/// Whether `s` begins with `prefix`.
pub fn has_prefix(s: &[char], prefix: &str) -> (r: bool)
    ensures
        r == prefix@.is_prefix_of(s@),
{
    let p = chars_of(prefix);
    stands_at(s, p.as_slice(), 0)
}

/// Whether `s` ends with `suffix`.
pub fn has_suffix(s: &[char], suffix: &str) -> (r: bool)
    ensures
        r == suffix@.is_suffix_of(s@),
{
    let p = chars_of(suffix);
    if s.len() < p.len() {
        return false;
    }
    stands_at(s, p.as_slice(), s.len() - p.len())
}

/// The first position, `from` or later, of `pattern` in `s`.
pub fn find_pattern(s: &[char], pattern: &[char], from: usize) -> (r: Option<usize>)
    ensures
        match r {
            Some(i) => find_from(s@, pattern@, from as int) == Some(i as int),
            None => find_from(s@, pattern@, from as int) is None,
        },
{
    if s.len() < pattern.len() {
        return None;
    }
    let last: usize = s.len() - pattern.len();
    let mut i: usize = from;
    while i <= last
        invariant
            from <= i,
            last == s@.len() - pattern@.len(),
            find_from(s@, pattern@, i as int) == find_from(s@, pattern@, from as int),
        decreases s@.len() - i,
    {
        if stands_at(s, pattern, i) {
            return Some(i);
        }
        if i == last {
            assert(find_from(s@, pattern@, i + 1) is None);
            return None;
        }
        i += 1;
    }
    None
}

/// The first position of `pattern` in `s`.
pub fn find_str(s: &[char], pattern: &str) -> (r: Option<usize>)
    ensures
        match r {
            Some(i) => find(s@, pattern@) == Some(i as int),
            None => find(s@, pattern@) is None,
        },
{
    let p = chars_of(pattern);
    find_pattern(s, p.as_slice(), 0)
}

/// Whether `pattern` stands somewhere in `s`.
pub fn has_str(s: &[char], pattern: &str) -> (r: bool)
    ensures
        r == has(s@, pattern@),
{
    find_str(s, pattern).is_some()
}

/// The first position of `c`, `from` or later.
pub fn find_char(s: &[char], c: char, from: usize) -> (r: Option<usize>)
    ensures
        match r {
            Some(i) => char_from(s@, c, from as int) == Some(i as int),
            None => char_from(s@, c, from as int) is None,
        },
{
    let mut i: usize = from;
    while i < s.len()
        invariant
            from <= i,
            char_from(s@, c, i as int) == char_from(s@, c, from as int),
        decreases s@.len() - i,
    {
        if s[i] == c {
            return Some(i);
        }
        i += 1;
    }
    None
}

/// The last position of `c`.
pub fn find_last(s: &[char], c: char) -> (r: Option<usize>)
    ensures
        match r {
            Some(i) => last_char(s@, c) == Some(i as int),
            None => last_char(s@, c) is None,
        },
{
    let mut n: usize = s.len();
    assert(s@.take(s@.len() as int) =~= s@);
    while n > 0
        invariant
            n <= s@.len(),
            last_char(s@.take(n as int), c) == last_char(s@, c),
        decreases n,
    {
        assert(s@.take(n as int).drop_last() =~= s@.take(n - 1));
        if s[n - 1] == c {
            return Some(n - 1);
        }
        n -= 1;
    }
    None
}

/// A position that `find_from` gives is an occurrence, and none comes before it.
pub proof fn lemma_find_from(s: Seq<char>, pattern: Seq<char>, from: int)
    requires
        0 <= from,
    ensures
        match find_from(s, pattern, from) {
            Some(i) => from <= i && occurs_at(s, pattern, i) && forall|k: int|
                from <= k < i ==> !occurs_at(s, pattern, k),
            None => forall|k: int| from <= k ==> !occurs_at(s, pattern, k),
        },
    decreases s.len() - from + 1,
{
    if from + pattern.len() <= s.len() && !occurs_at(s, pattern, from) {
        lemma_find_from(s, pattern, from + 1);
    }
}

/// A text that stands somewhere is found.
pub proof fn lemma_has(s: Seq<char>, pattern: Seq<char>, at: int)
    requires
        occurs_at(s, pattern, at),
    ensures
        has(s, pattern),
{
    lemma_find_from(s, pattern, 0);
}

/// What a part of a text has, the text has.
pub proof fn lemma_has_part(s: Seq<char>, part: Seq<char>, at: int, pattern: Seq<char>)
    requires
        occurs_at(s, part, at),
        has(part, pattern),
    ensures
        has(s, pattern),
{
    lemma_find_from(part, pattern, 0);
    let i = find(part, pattern)->0;
    assert(s.subrange(at, at + part.len()) == part);
    assert(part.subrange(i, i + pattern.len()) =~= s.subrange(at + i, at + i + pattern.len()));
    lemma_has(s, pattern, at + i);
}

/// What a part of a text has in small letters, the text has in small letters.
pub proof fn lemma_lower_part(s: Seq<char>, part: Seq<char>, at: int)
    requires
        occurs_at(s, part, at),
    ensures
        occurs_at(lower(s), lower(part), at),
{
    assert(s.subrange(at, at + part.len()) == part);
    assert forall|i: int| 0 <= i < part.len() implies #[trigger] part[i] == s[at + i] by {
        assert(s.subrange(at, at + part.len())[i] == s[at + i]);
    }
    assert(lower(s).subrange(at, at + part.len()) =~= lower(part));
}

/// A piece of a text stands in it, the last one at its end.
pub proof fn lemma_piece_part(s: Seq<char>, c: char, i: int) -> (at: int)
    requires
        0 <= i < split(s, c).len(),
    ensures
        occurs_at(s, split(s, c)[i], at),
        i == split(s, c).len() - 1 ==> at + split(s, c)[i].len() == s.len(),
    decreases s.len(),
{
    if s.len() == 0 {
        assert(s.subrange(0, 0) =~= split(s, c)[i]);
        0
    } else {
        let less = s.drop_last();
        let before = split(less, c);
        lemma_split_some(less, c);
        let now = split(s, c);
        if s.last() == c && i == now.len() - 1 {
            assert(s.subrange(s.len() as int, s.len() as int) =~= now[i]);
            s.len() as int
        } else {
            let at = lemma_piece_part(less, c, i);
            assert(less.subrange(at, at + before[i].len()) == before[i]);
            if i < now.len() - 1 {
                assert(now[i] == before[i]);
                assert(s.subrange(at, at + now[i].len()) =~= less.subrange(
                    at,
                    at + before[i].len(),
                ));
            } else {
                assert(now[i] == before[i].push(s.last()));
                assert(s.subrange(at, at + now[i].len()) =~= less.subrange(
                    at,
                    at + before[i].len(),
                ).push(s.last()));
            }
            at
        }
    }
}

/// A line of a text stands in it.
pub proof fn lemma_line_part(s: Seq<char>, i: int) -> (at: int)
    requires
        0 <= i < lines(s).len(),
    ensures
        occurs_at(s, lines(s)[i], at),
{
    let pieces = split(s, '\n');
    lemma_split_some(s, '\n');
    let at = lemma_piece_part(s, '\n', i);
    let line = lines(s)[i];
    assert(line == pieces[i] || line == strip_cr(pieces[i]));
    assert(s.subrange(at, at + pieces[i].len()) == pieces[i]);
    assert(s.subrange(at, at + line.len()) =~= pieces[i].take(line.len() as int));
    assert(pieces[i].take(line.len() as int) =~= line);
    at
}

proof fn lemma_leading_part(s: Seq<char>, set: spec_fn(char) -> bool)
    ensures
        drop_leading(s, set).len() <= s.len(),
        drop_leading(s, set) == s.skip(s.len() - drop_leading(s, set).len()),
    decreases s.len(),
{
    if s.len() > 0 && set(s[0]) {
        lemma_leading_part(s.skip(1), set);
        let n = drop_leading(s, set).len();
        assert(s.skip(1).skip(s.len() - 1 - n) =~= s.skip(s.len() - n));
    } else {
        assert(s.skip(0) =~= s);
    }
}

proof fn lemma_trailing_part(s: Seq<char>, set: spec_fn(char) -> bool)
    ensures
        drop_trailing(s, set).len() <= s.len(),
        drop_trailing(s, set) == s.take(drop_trailing(s, set).len() as int),
    decreases s.len(),
{
    if s.len() > 0 && set(s.last()) {
        lemma_trailing_part(s.drop_last(), set);
        let n = drop_trailing(s, set).len() as int;
        assert(s.drop_last().take(n) =~= s.take(n));
    } else {
        assert(s.take(s.len() as int) =~= s);
    }
}

/// A text without the white space around it stands in the text.
pub proof fn lemma_trim_part(s: Seq<char>) -> (at: int)
    ensures
        occurs_at(s, trim(s), at),
{
    let set = |c: char| is_space(c);
    lemma_leading_part(s, set);
    let mid = trim_start(s);
    lemma_trailing_part(mid, set);
    let at = s.len() - mid.len();
    assert(s.subrange(at, at + trim(s).len()) =~= mid.take(trim(s).len() as int));
    at
}

/// White space at the end of a text does not count once it is trimmed.
pub proof fn lemma_trim_cr(s: Seq<char>)
    ensures
        trim(strip_cr(s)) == trim(s),
{
    let set = |c: char| is_space(c);
    if s.len() > 0 && s.last() == '\r' {
        assert(set('\r'));
        let less = s.drop_last();
        assert(strip_cr(s) == less);
        lemma_trim_back(less, '\r');
        assert(less.push('\r') =~= s);
    }
}

/// A blank behind a text does not count once it is trimmed.
pub proof fn lemma_trim_back(s: Seq<char>, c: char)
    requires
        is_space(c),
    ensures
        trim(s.push(c)) == trim(s),
    decreases s.len(),
{
    let set = |x: char| is_space(x);
    let more = s.push(c);
    assert(more.last() == c && set(c));
    assert(more.drop_last() =~= s);
    if s.len() > 0 && is_space(s[0]) {
        assert(more[0] == s[0]);
        assert(more.skip(1) =~= s.skip(1).push(c));
        lemma_trim_back(s.skip(1), c);
        assert(set(s[0]) && set(more[0]));
        assert(trim_start(more) == trim_start(more.skip(1)));
        assert(trim_start(s) == trim_start(s.skip(1)));
    } else if s.len() > 0 {
        assert(more[0] == s[0]);
        assert(!set(s[0]));
        assert(trim_start(more) == more);
        assert(trim_start(s) == s);
        assert(trim_end(more) == trim_end(s));
    } else {
        assert(more[0] == c);
        assert(more.skip(1) =~= s);
        assert(trim_start(more) == trim_start(more.skip(1)));
        assert(trim_start(s) == s);
    }
}

/// Small letters and capitals are split alike.
pub proof fn lemma_split_lower(s: Seq<char>, c: char)
    requires
        !is_upper_ascii(c),
        !('a' <= c <= 'z'),
    ensures
        split(lower(s), c).len() == split(s, c).len(),
        forall|i: int|
            0 <= i < split(s, c).len() ==> #[trigger] split(lower(s), c)[i] == lower(split(s, c)[i]),
    decreases s.len(),
{
    if s.len() == 0 {
        assert(lower(s) =~= s);
        assert(lower(split(s, c)[0]) =~= split(s, c)[0]);
    } else {
        let less = s.drop_last();
        lemma_split_lower(less, c);
        lemma_split_some(less, c);
        assert(lower(s).drop_last() =~= lower(less));
        assert(lower(s).last() == lower_char(s.last()));
        assert(lower_char(s.last()) == c <==> s.last() == c) by {
            lemma_lower_char(s.last());
        }
        let before = split(less, c);
        let now = split(s, c);
        let low = split(lower(s), c);
        assert forall|i: int| 0 <= i < now.len() implies #[trigger] low[i] == lower(now[i]) by {
            if i < now.len() - 1 {
                assert(now[i] == before[i]);
            } else if s.last() == c {
                assert(lower(now[i]) =~= low[i]);
            } else {
                assert(now[i] == before.last().push(s.last()));
                assert(lower(now[i]) =~= low[i]);
            }
        }
    }
}

proof fn lemma_lower_char(c: char)
    ensures
        lower_char(c) == c || (is_upper_ascii(c) && 'a' <= lower_char(c) <= 'z'),
        is_space(lower_char(c)) == is_space(c),
{
}

/// Small letters and capitals make the same lines.
pub proof fn lemma_lines_lower(s: Seq<char>)
    ensures
        lines(lower(s)).len() == lines(s).len(),
        forall|i: int| 0 <= i < lines(s).len() ==> #[trigger] lines(lower(s))[i] == lower(lines(s)[i]),
{
    lemma_split_lower(s, '\n');
    lemma_split_some(s, '\n');
    let pieces = split(s, '\n');
    let low = split(lower(s), '\n');
    assert forall|i: int| 0 <= i < pieces.len() implies strip_cr(#[trigger] low[i]) == lower(
        strip_cr(pieces[i]),
    ) by {
        let p = pieces[i];
        assert(low[i] == lower(p));
        if p.len() > 0 {
            lemma_lower_char(p.last());
            assert(low[i].last() == lower_char(p.last()));
            assert(lower(p).drop_last() =~= lower(p.drop_last()));
        }
    }
    assert(low.last() == lower(pieces.last()));
}

/// Small letters and capitals are trimmed alike.
pub proof fn lemma_trim_lower(s: Seq<char>)
    ensures
        trim(lower(s)) == lower(trim(s)),
{
    lemma_leading_lower(s);
    lemma_trailing_lower(trim_start(s));
}

proof fn lemma_leading_lower(s: Seq<char>)
    ensures
        trim_start(lower(s)) == lower(trim_start(s)),
    decreases s.len(),
{
    if s.len() > 0 {
        lemma_lower_char(s[0]);
        assert(lower(s)[0] == lower_char(s[0]));
        if is_space(s[0]) {
            assert(lower(s).skip(1) =~= lower(s.skip(1)));
            lemma_leading_lower(s.skip(1));
        }
    }
}

proof fn lemma_trailing_lower(s: Seq<char>)
    ensures
        trim_end(lower(s)) == lower(trim_end(s)),
    decreases s.len(),
{
    if s.len() > 0 {
        lemma_lower_char(s.last());
        assert(lower(s).last() == lower_char(s.last()));
        if is_space(s.last()) {
            assert(lower(s).drop_last() =~= lower(s.drop_last()));
            lemma_trailing_lower(s.drop_last());
        }
    }
}

/// The words before a blank are the first words.
pub proof fn lemma_words_prefix(s: Seq<char>, m: int)
    requires
        0 <= m <= s.len(),
        m == s.len() || is_space(s[m]),
    ensures
        words(s.take(m)).is_prefix_of(words(s)),
        m < s.len() && !is_space(s.last()) ==> words(s.take(m)).len() < words(s).len(),
    decreases s.len(),
{
    if m == s.len() {
        assert(s.take(m) =~= s);
        assert(words(s).take(words(s).len() as int) =~= words(s));
    } else {
        let less = s.drop_last();
        assert(less.take(m) =~= s.take(m));
        lemma_words_prefix(less, m);
        let first = words(s.take(m));
        let before = words(less);
        if is_space(s.last()) {
        } else if s.len() == 1 || is_space(s[s.len() - 2]) {
            assert(words(s).take(first.len() as int) =~= before.take(first.len() as int));
        } else {
            assert(less.last() == s[s.len() - 2]);
            assert(m < less.len());
            assert(words(s).take(first.len() as int) =~= before.take(first.len() as int));
        }
    }
}

proof fn lemma_last_word(s: Seq<char>, w: Seq<char>)
    requires
        w.len() > 0,
        w.is_suffix_of(s),
        forall|i: int| 0 <= i < w.len() ==> !is_space(#[trigger] w[i]),
        w.len() == s.len() || is_space(s[s.len() - w.len() - 1]),
    ensures
        words(s).len() > 0,
        words(s).last() == w,
    decreases w.len(),
{
    let p = s.len() - w.len();
    assert(s.skip(p) =~= w);
    assert(s.last() == w.last());
    let less = s.drop_last();
    if w.len() == 1 {
        assert(w =~= seq![s.last()]);
    } else {
        let shorter = w.drop_last();
        assert(less.skip(p) =~= shorter);
        assert(less.subrange(less.len() - shorter.len(), less.len() as int) =~= shorter);
        assert forall|i: int| 0 <= i < shorter.len() implies !is_space(#[trigger] shorter[i]) by {
            assert(shorter[i] == w[i]);
        }
        lemma_last_word(less, shorter);
        assert(s[s.len() - 2] == w[w.len() - 2]);
        assert(shorter.push(s.last()) =~= w);
    }
}

/// A run of characters between blanks is a word.
pub proof fn lemma_word(s: Seq<char>, w: Seq<char>, p: int)
    requires
        occurs_at(s, w, p),
        w.len() > 0,
        forall|i: int| 0 <= i < w.len() ==> !is_space(#[trigger] w[i]),
        p == 0 || is_space(s[p - 1]),
        p + w.len() == s.len() || is_space(s[p + w.len()]),
    ensures
        words(s).contains(w),
{
    let m = p + w.len();
    let t = s.take(m);
    assert(s.subrange(p, m) == w);
    assert(t.skip(p) =~= w);
    assert(t.subrange(t.len() - w.len(), t.len() as int) =~= w);
    lemma_last_word(t, w);
    lemma_words_prefix(s, m);
    let n = words(t).len() as int;
    assert(words(s).take(n)[n - 1] == words(t)[n - 1]);
    assert(words(s)[n - 1] == w);
}

/// A word of a text stands in it, the last one at its end where the text ends in no blank.
pub proof fn lemma_word_part(s: Seq<char>, i: int) -> (at: int)
    requires
        0 <= i < words(s).len(),
    ensures
        occurs_at(s, words(s)[i], at),
        i == words(s).len() - 1 && !is_space(s.last()) ==> at + words(s)[i].len() == s.len(),
    decreases s.len(),
{
    let less = s.drop_last();
    let before = words(less);
    let now = words(s);
    if is_space(s.last()) {
        let at = lemma_word_part(less, i);
        assert(s.subrange(at, at + now[i].len()) =~= less.subrange(at, at + now[i].len()));
        at
    } else if s.len() == 1 || is_space(s[s.len() - 2]) {
        if i < before.len() {
            let at = lemma_word_part(less, i);
            assert(s.subrange(at, at + now[i].len()) =~= less.subrange(at, at + now[i].len()));
            at
        } else {
            assert(s.subrange(s.len() - 1, s.len() as int) =~= seq![s.last()]);
            s.len() - 1
        }
    } else {
        assert(less.last() == s[s.len() - 2]);
        lemma_last_in_word(less);
        let at = lemma_word_part(less, i);
        assert(less.subrange(at, at + before[i].len()) == before[i]);
        if i < now.len() - 1 {
            assert(now[i] == before[i]);
            assert(s.subrange(at, at + now[i].len()) =~= less.subrange(at, at + before[i].len()));
        } else {
            assert(now[i] == before[i].push(s.last()));
            assert(s.subrange(at, at + now[i].len()) =~= less.subrange(
                at,
                at + before[i].len(),
            ).push(s.last()));
        }
        at
    }
}

proof fn lemma_last_in_word(s: Seq<char>)
    requires
        s.len() > 0,
        !is_space(s.last()),
    ensures
        words(s).len() > 0,
    decreases s.len(),
{
}

/// Trimming twice is trimming once.
pub proof fn lemma_trim_again(s: Seq<char>)
    ensures
        trim(trim(s)) == trim(s),
{
    let t = trim(s);
    let mid = trim_start(s);
    lemma_starts_bare(s);
    lemma_ends_bare(mid);
    lemma_trailing_part(mid, |c: char| is_space(c));
    if t.len() > 0 {
        assert(t[0] == mid[0]);
        assert(trim_start(t) == t);
        assert(trim_end(t) == t);
    }
}

proof fn lemma_starts_bare(s: Seq<char>)
    ensures
        trim_start(s).len() > 0 ==> !is_space(trim_start(s)[0]),
    decreases s.len(),
{
    if s.len() > 0 && is_space(s[0]) {
        lemma_starts_bare(s.skip(1));
    }
}

proof fn lemma_ends_bare(s: Seq<char>)
    ensures
        trim_end(s).len() > 0 ==> !is_space(trim_end(s).last()),
    decreases s.len(),
{
    if s.len() > 0 && is_space(s.last()) {
        lemma_ends_bare(s.drop_last());
    }
}

/// A text without blanks is one word.
pub proof fn lemma_single_word(s: Seq<char>)
    requires
        s.len() > 0,
        forall|i: int| 0 <= i < s.len() ==> !is_space(#[trigger] s[i]),
    ensures
        words(s) == seq![s],
    decreases s.len(),
{
    let less = s.drop_last();
    assert(!is_space(s.last()));
    if s.len() == 1 {
        assert(words(less) =~= Seq::<Seq<char>>::empty());
        assert(seq![s.last()] =~= s);
        assert(words(s) =~= seq![s]);
    } else {
        assert forall|i: int| 0 <= i < less.len() implies !is_space(#[trigger] less[i]) by {
            assert(less[i] == s[i]);
        }
        lemma_single_word(less);
        assert(!is_space(s[s.len() - 2]));
        assert(less.push(s.last()) =~= s);
        assert(words(s) =~= seq![s]);
    }
}

/// Two pieces with a separator between them are split there.
pub proof fn lemma_split_two(a: Seq<char>, b: Seq<char>, c: char)
    requires
        !a.contains(c),
        !b.contains(c),
    ensures
        split(a.push(c) + b, c) == seq![a, b],
{
    lemma_split_one(a, c);
    lemma_split_add(a, b, c);
    assert(seq![a].push(b) =~= seq![a, b]);
}

/// A text that does not have `from` stays as it is when it is replaced.
pub proof fn lemma_replace_none(s: Seq<char>, from: Seq<char>, to: Seq<char>)
    requires
        from.len() > 0,
        !(has(s, from)),
    ensures
        replace(s, from, to) == s,
    decreases s.len(),
{
    if s.len() > 0 {
        if occurs_at(s, from, 0) {
            lemma_has(s, from, 0);
        }
        let rest = s.skip(1);
        if has(rest, from) {
            assert(s.subrange(1, s.len() as int) =~= rest);
            lemma_has_part(s, rest, 1, from);
        }
        lemma_replace_none(rest, from, to);
        assert(seq![s[0]] + rest =~= s);
    }
}

/// The first occurrence of `from` is replaced, and what stands before it stays.
pub proof fn lemma_replace_first(a: Seq<char>, from: Seq<char>, b: Seq<char>, to: Seq<char>)
    requires
        from.len() > 0,
        forall|k: int| 0 <= k < a.len() ==> !occurs_at(a + from + b, from, k),
    ensures
        replace(a + from + b, from, to) == a + to + replace(b, from, to),
    decreases a.len(),
{
    let s = a + from + b;
    if a.len() == 0 {
        assert(s.subrange(0, from.len() as int) =~= from);
        assert(s.skip(from.len() as int) =~= b);
        assert(a + to + replace(b, from, to) =~= to + replace(b, from, to));
    } else {
        assert(!occurs_at(s, from, 0));
        let less = a.skip(1);
        let t = less + from + b;
        assert(s.skip(1) =~= t);
        assert forall|k: int| 0 <= k < less.len() implies !occurs_at(t, from, k) by {
            if occurs_at(t, from, k) {
                assert(s.subrange(k + 1, k + 1 + from.len()) =~= t.subrange(k, k + from.len()));
                assert(occurs_at(s, from, k + 1));
            }
        }
        lemma_replace_first(less, from, b, to);
        assert(a =~= seq![a[0]] + less);
        assert(a + to + replace(b, from, to) =~= seq![a[0]] + (less + to + replace(b, from, to)));
    }
}

/// A word behind a blank is one word more.
pub proof fn lemma_words_push(s: Seq<char>, w: Seq<char>)
    requires
        w.len() > 0,
        forall|i: int| 0 <= i < w.len() ==> !is_space(#[trigger] w[i]),
        s.len() > 0,
        is_space(s.last()),
    ensures
        words(s + w) == words(s).push(w),
    decreases w.len(),
{
    let t = s + w;
    let less = w.drop_last();
    assert(t.last() == w.last());
    assert(!is_space(w.last()));
    if w.len() == 1 {
        assert(t.drop_last() =~= s);
        assert(t[t.len() - 2] == s.last());
        assert(seq![t.last()] =~= w);
    } else {
        assert forall|i: int| 0 <= i < less.len() implies !is_space(#[trigger] less[i]) by {
            assert(less[i] == w[i]);
        }
        lemma_words_push(s, less);
        assert(t.drop_last() =~= s + less);
        assert(t[t.len() - 2] == w[w.len() - 2]);
        assert(less.push(w.last()) =~= w);
        assert(words(s).push(less).drop_last() =~= words(s));
    }
}

/// A position that `char_from` gives holds the character, and none before it does.
pub proof fn lemma_char_from(s: Seq<char>, c: char, from: int)
    requires
        0 <= from,
    ensures
        match char_from(s, c, from) {
            Some(i) => from <= i < s.len() && s[i] == c && forall|k: int| from <= k < i ==> s[k] != c,
            None => forall|k: int| from <= k < s.len() ==> s[k] != c,
        },
    decreases s.len() - from,
{
    if from < s.len() && s[from] != c {
        lemma_char_from(s, c, from + 1);
    }
}

/// A position that `last_char` gives holds the character, and none after it does.
pub proof fn lemma_last_char(s: Seq<char>, c: char)
    ensures
        match last_char(s, c) {
            Some(i) => 0 <= i < s.len() && s[i] == c && forall|k: int| i < k < s.len() ==> s[k] != c,
            None => forall|k: int| 0 <= k < s.len() ==> s[k] != c,
        },
    decreases s.len(),
{
    if s.len() > 0 && s.last() != c {
        lemma_last_char(s.drop_last(), c);
        assert(forall|k: int| 0 <= k < s.len() - 1 ==> s[k] == s.drop_last()[k]);
    }
}

// ── Taking text apart and together ───────────────────────────────────────────

/// A copy of `s[from..to]`.
pub fn part(s: &[char], from: usize, to: usize) -> (r: Vec<char>)
    requires
        from <= to <= s@.len(),
    ensures
        r@ == s@.subrange(from as int, to as int),
{
    let mut out: Vec<char> = Vec::new();
    let mut i: usize = from;
    while i < to
        invariant
            from <= i <= to <= s@.len(),
            out@ == s@.subrange(from as int, i as int),
        decreases to - i,
    {
        out.push(s[i]);
        i += 1;
        assert(out@ =~= s@.subrange(from as int, i as int));
    }
    out
}

/// Splitting never gives nothing.
pub proof fn lemma_split_some(s: Seq<char>, c: char)
    ensures
        split(s, c).len() >= 1,
    decreases s.len(),
{
    if s.len() > 0 {
        lemma_split_some(s.drop_last(), c);
    }
}

/// The pieces of `s` between the occurrences of `c`.
pub fn split_on(s: &[char], c: char) -> (r: Vec<String>)
    ensures
        texts(r@) == split(s@, c),
{
    let mut out: Vec<String> = Vec::new();
    let mut cur: String = String::new();
    let mut i: usize = 0;
    assert(texts(out@).push(cur@) =~= split(s@.take(0), c));
    while i < s.len()
        invariant
            i <= s@.len(),
            texts(out@).push(cur@) == split(s@.take(i as int), c),
        decreases s@.len() - i,
    {
        let ghost before = texts(out@).push(cur@);
        let ghost here = s@.take(i + 1);
        assert(here.drop_last() =~= s@.take(i as int));
        assert(before.drop_last() =~= texts(out@));
        if s[i] == c {
            out.push(cur);
            cur = String::new();
            assert(texts(out@) =~= before);
        } else {
            cur.push(s[i]);
        }
        assert(texts(out@).push(cur@) =~= split(here, c));
        i += 1;
    }
    assert(s@.take(s@.len() as int) =~= s@);
    let ghost before = texts(out@).push(cur@);
    out.push(cur);
    assert(texts(out@) =~= before);
    out
}

/// The lines of `s`.
pub fn lines_of(s: &str) -> (r: Vec<String>)
    ensures
        texts(r@) == lines(s@),
{
    let chars = chars_of(s);
    let pieces = split_on(chars.as_slice(), '\n');
    proof {
        lemma_split_some(s@, '\n');
    }
    let ghost sp = split(s@, '\n');
    let last: usize = pieces.len() - 1;
    let mut out: Vec<String> = Vec::new();
    let mut i: usize = 0;
    while i < last
        invariant
            i <= last,
            last + 1 == pieces@.len(),
            texts(pieces@) == sp,
            out@.len() == i,
            forall|k: int| 0 <= k < i ==> out@[k]@ == strip_cr(sp[k]),
        decreases last - i,
    {
        let line = chars_of(pieces[i].as_str());
        assert(line@ == texts(pieces@)[i as int]);
        if line.len() > 0 && line[line.len() - 1] == '\r' {
            let short = part(line.as_slice(), 0, line.len() - 1);
            assert(short@ =~= line@.drop_last());
            out.push(string_of(short.as_slice()));
        } else {
            out.push(string_of(line.as_slice()));
        }
        i += 1;
    }
    let tail = chars_of(pieces[last].as_str());
    assert(tail@ == texts(pieces@)[last as int]);
    if tail.len() > 0 {
        out.push(string_of(tail.as_slice()));
    }
    assert(texts(out@) =~= lines(s@));
    out
}

/// `parts` with `sep` between each two of them.
pub fn join_texts(parts: &Vec<String>, sep: &str) -> (r: String)
    ensures
        r@ == join(texts(parts@), sep@),
{
    let mut out: String = String::new();
    let mut i: usize = 0;
    let ghost all = texts(parts@);
    assert(out@ =~= join(all.take(0), sep@));
    while i < parts.len()
        invariant
            i <= parts@.len(),
            all == texts(parts@),
            out@ == join(all.take(i as int), sep@),
        decreases parts@.len() - i,
    {
        let ghost here = all.take(i + 1);
        assert(here.drop_last() =~= all.take(i as int));
        assert(here.last() == parts@[i as int]@);
        if i > 0 {
            out.append(sep);
        }
        out.append(parts[i].as_str());
        assert(out@ =~= join(here, sep@));
        i += 1;
    }
    assert(all.take(all.len() as int) =~= all);
    out
}

/// `s` without leading white space.
pub fn trim_start_of(s: &[char]) -> (r: &[char])
    ensures
        r@ == trim_start(s@),
{
    let mut i: usize = 0;
    assert(s@.skip(0) =~= s@);
    while i < s.len() && is_space_char(s[i])
        invariant
            i <= s@.len(),
            trim_start(s@.skip(i as int)) == trim_start(s@),
        decreases s@.len() - i,
    {
        assert(s@.skip(i as int).skip(1) =~= s@.skip(i + 1));
        i += 1;
    }
    assert(s@.skip(i as int) =~= s@.subrange(i as int, s@.len() as int));
    vstd::slice::slice_subrange(s, i, s.len())
}

/// `s` without trailing white space.
pub fn trim_end_of(s: &[char]) -> (r: &[char])
    ensures
        r@ == trim_end(s@),
{
    let mut n: usize = s.len();
    assert(s@.take(s@.len() as int) =~= s@);
    while n > 0 && is_space_char(s[n - 1])
        invariant
            n <= s@.len(),
            trim_end(s@.take(n as int)) == trim_end(s@),
        decreases n,
    {
        assert(s@.take(n as int).drop_last() =~= s@.take(n - 1));
        n -= 1;
    }
    assert(s@.take(n as int) =~= s@.subrange(0, n as int));
    vstd::slice::slice_subrange(s, 0, n)
}

/// `s` without the white space around it.
pub fn trim_of(s: &[char]) -> (r: &[char])
    ensures
        r@ == trim(s@),
{
    trim_end_of(trim_start_of(s))
}

/// `s` from position `from` on.
pub fn tail(s: &[char], from: usize) -> (r: &[char])
    requires
        from <= s@.len(),
    ensures
        r@ == s@.skip(from as int),
{
    assert(s@.skip(from as int) =~= s@.subrange(from as int, s@.len() as int));
    vstd::slice::slice_subrange(s, from, s.len())
}

/// `s` up to position `to`.
pub fn head(s: &[char], to: usize) -> (r: &[char])
    requires
        to <= s@.len(),
    ensures
        r@ == s@.take(to as int),
{
    assert(s@.take(to as int) =~= s@.subrange(0, to as int));
    vstd::slice::slice_subrange(s, 0, to)
}

/// Whether the characters of `s` spell `t`.
pub fn is_str(s: &[char], t: &str) -> (r: bool)
    ensures
        r == (s@ == t@),
{
    let p = chars_of(t);
    same_chars(s, p.as_slice())
}

/// What stands before and after the first `c`.
pub fn cut_once(s: &[char], c: char) -> (r: Option<(&[char], &[char])>)
    ensures
        match r {
            Some(p) => split_once(s@, c) == Some((p.0@, p.1@)),
            None => split_once(s@, c) is None,
        },
{
    proof {
        lemma_char_from(s@, c, 0);
    }
    let n: usize = s.len();
    assert(n == s@.len());
    match find_char(s, c, 0) {
        Some(i) => Some((head(s, i), tail(s, i + 1))),
        None => None,
    }
}

/// What stands before and after the last `c`.
pub fn rcut_once(s: &[char], c: char) -> (r: Option<(&[char], &[char])>)
    ensures
        match r {
            Some(p) => rsplit_once(s@, c) == Some((p.0@, p.1@)),
            None => rsplit_once(s@, c) is None,
        },
{
    proof {
        lemma_last_char(s@, c);
    }
    let n: usize = s.len();
    assert(n == s@.len());
    match find_last(s, c) {
        Some(i) => Some((head(s, i), tail(s, i + 1))),
        None => None,
    }
}

/// What follows `prefix` in a text that begins with it.
pub fn after_prefix<'a>(s: &'a [char], prefix: &str) -> (r: Option<&'a [char]>)
    ensures
        match r {
            Some(p) => strip_prefix(s@, prefix@) == Some(p@),
            None => strip_prefix(s@, prefix@) is None,
        },
{
    let p = chars_of(prefix);
    if stands_at(s, p.as_slice(), 0) {
        Some(tail(s, p.len()))
    } else {
        None
    }
}

/// What precedes `suffix` in a text that ends with it.
pub fn before_suffix<'a>(s: &'a [char], suffix: &str) -> (r: Option<&'a [char]>)
    ensures
        match r {
            Some(p) => strip_suffix(s@, suffix@) == Some(p@),
            None => strip_suffix(s@, suffix@) is None,
        },
{
    let p = chars_of(suffix);
    if s.len() >= p.len() && stands_at(s, p.as_slice(), s.len() - p.len()) {
        Some(head(s, s.len() - p.len()))
    } else {
        None
    }
}

/// What stands before the first `mark`, or all of `s`.
pub fn up_to_mark<'a>(s: &'a [char], mark: &str) -> (r: &'a [char])
    ensures
        r@ == before_mark(s@, mark@),
{
    proof {
        lemma_find_from(s@, mark@, 0);
    }
    match find_str(s, mark) {
        Some(i) => head(s, i),
        None => s,
    }
}

/// What stands between the first `mark` and the next one, if there is a first.
pub fn past_mark<'a>(s: &'a [char], mark: &str) -> (r: Option<&'a [char]>)
    ensures
        match r {
            Some(p) => after_mark(s@, mark@) == Some(p@),
            None => after_mark(s@, mark@) is None,
        },
{
    proof {
        lemma_find_from(s@, mark@, 0);
    }
    let m = chars_of(mark);
    let n: usize = s.len();
    assert(n == s@.len());
    match find_pattern(s, m.as_slice(), 0) {
        Some(i) => Some(up_to_mark(tail(s, i + m.len()), mark)),
        None => None,
    }
}

/// `s` without the `c`s it begins with.
pub fn drop_front(s: &[char], c: char) -> (r: &[char])
    ensures
        r@ == strip_front(s@, c),
{
    let mut i: usize = 0;
    assert(s@.skip(0) =~= s@);
    while i < s.len() && s[i] == c
        invariant
            i <= s@.len(),
            strip_front(s@.skip(i as int), c) == strip_front(s@, c),
        decreases s@.len() - i,
    {
        assert(s@.skip(i as int).skip(1) =~= s@.skip(i + 1));
        i += 1;
    }
    tail(s, i)
}

/// `s` without the `c`s it ends with.
pub fn drop_back(s: &[char], c: char) -> (r: &[char])
    ensures
        r@ == strip_back(s@, c),
{
    let mut n: usize = s.len();
    assert(s@.take(s@.len() as int) =~= s@);
    while n > 0 && s[n - 1] == c
        invariant
            n <= s@.len(),
            strip_back(s@.take(n as int), c) == strip_back(s@, c),
        decreases n,
    {
        assert(s@.take(n as int).drop_last() =~= s@.take(n - 1));
        n -= 1;
    }
    head(s, n)
}

/// The words of `s`.
pub fn words_of(s: &[char]) -> (r: Vec<String>)
    ensures
        texts(r@) == words(s@),
{
    let mut out: Vec<String> = Vec::new();
    let mut cur: String = String::new();
    let mut open: bool = false;
    let mut i: usize = 0;
    assert(texts(out@) =~= words(s@.take(0)));
    while i < s.len()
        invariant
            i <= s@.len(),
            open == (i > 0 && !is_space(s@[i - 1])),
            open ==> texts(out@).push(cur@) == words(s@.take(i as int)),
            !open ==> texts(out@) == words(s@.take(i as int)) && cur@.len() == 0,
        decreases s@.len() - i,
    {
        let ghost here = s@.take(i + 1);
        assert(here.drop_last() =~= s@.take(i as int));
        let ghost done = texts(out@);
        if is_space_char(s[i]) {
            if open {
                let ghost w = cur@;
                out.push(cur);
                assert(texts(out@) =~= done.push(w));
                cur = String::new();
                open = false;
            }
        } else {
            let ghost w = cur@;
            assert(done.push(w).drop_last() =~= done);
            cur.push(s[i]);
            assert(!open ==> cur@ =~= seq![s@[i as int]]);
            assert(texts(out@).push(cur@) =~= words(here));
            open = true;
        }
        i += 1;
    }
    assert(s@.take(s@.len() as int) =~= s@);
    if open {
        let ghost done = texts(out@);
        let ghost w = cur@;
        out.push(cur);
        assert(texts(out@) =~= done.push(w));
    }
    out
}

/// How many characters of `s` stand before its first white space.
pub fn first_run_len(s: &[char]) -> (r: usize)
    ensures
        r <= s@.len(),
        s@.take(r as int) == first_run(s@),
{
    let mut i: usize = 0;
    assert(s@.skip(0) =~= s@);
    assert(s@.take(0) + first_run(s@.skip(0)) =~= first_run(s@));
    while i < s.len() && !is_space_char(s[i])
        invariant
            i <= s@.len(),
            s@.take(i as int) + first_run(s@.skip(i as int)) == first_run(s@),
        decreases s@.len() - i,
    {
        assert(s@.skip(i as int).skip(1) =~= s@.skip(i + 1));
        assert(s@.take(i + 1) + first_run(s@.skip(i + 1)) =~= s@.take(i as int) + first_run(
            s@.skip(i as int),
        ));
        i += 1;
    }
    assert(s@.take(i as int) =~= first_run(s@));
    i
}

/// `s` with `to` in place of every `from`.
pub fn swap_chars(s: &[char], from: char, to: char) -> (r: Vec<char>)
    ensures
        r@ == swap_char(s@, from, to),
{
    let mut out: Vec<char> = Vec::new();
    let mut i: usize = 0;
    while i < s.len()
        invariant
            i <= s@.len(),
            out@ == swap_char(s@, from, to).take(i as int),
        decreases s@.len() - i,
    {
        if s[i] == from {
            out.push(to);
        } else {
            out.push(s[i]);
        }
        i += 1;
    }
    assert(swap_char(s@, from, to).take(s@.len() as int) =~= swap_char(s@, from, to));
    out
}

/// `s` with every `from` replaced by `to`.
pub fn replace_all(s: &[char], from: &str, to: &str) -> (r: Vec<char>)
    ensures
        r@ == replace(s@, from@, to@),
{
    let f = chars_of(from);
    let t = chars_of(to);
    let mut out: Vec<char> = Vec::new();
    let mut i: usize = 0;
    assert(s@.skip(0) =~= s@);
    assert(out@ + replace(s@.skip(0), from@, to@) =~= replace(s@, from@, to@));
    while i < s.len()
        invariant
            i <= s@.len(),
            f@ == from@,
            t@ == to@,
            out@ + replace(s@.skip(i as int), from@, to@) == replace(s@, from@, to@),
        decreases s@.len() - i,
    {
        let ghost rest = s@.skip(i as int);
        let ghost done = out@;
        assert(rest.skip(1) =~= s@.skip(i + 1));
        assert(occurs_at(rest, from@, 0) == occurs_at(s@, from@, i as int)) by {
            if i + from@.len() <= s@.len() {
                assert(rest.subrange(0, from@.len() as int) =~= s@.subrange(i as int, i + from@.len()));
            }
        }
        if f.len() == 0 {
            append_chars(&mut out, &t);
            out.push(s[i]);
            assert(out@ =~= done + (to@ + seq![rest[0]]));
            i += 1;
        } else if stands_at(s, f.as_slice(), i) {
            assert(rest.skip(from@.len() as int) =~= s@.skip(i + from@.len()));
            append_chars(&mut out, &t);
            i += f.len();
        } else {
            out.push(s[i]);
            assert(out@ =~= done + seq![rest[0]]);
            i += 1;
        }
        assert(out@ + replace(s@.skip(i as int), from@, to@) =~= done + replace(rest, from@, to@));
    }
    assert(s@.skip(s@.len() as int).len() == 0);
    if f.len() == 0 {
        append_chars(&mut out, &t);
    }
    assert(out@ =~= replace(s@, from@, to@));
    out
}

/// `more` added at the end of `out`.
pub fn append_chars(out: &mut Vec<char>, more: &Vec<char>)
    ensures
        final(out)@ == old(out)@ + more@,
{
    let ghost before = out@;
    let mut i: usize = 0;
    while i < more.len()
        invariant
            i <= more@.len(),
            out@ == before + more@.take(i as int),
        decreases more@.len() - i,
    {
        out.push(more[i]);
        i += 1;
        assert(out@ =~= before + more@.take(i as int));
    }
    assert(more@.take(more@.len() as int) =~= more@);
}

/// `n` in decimal.
pub fn decimal_of(n: u64) -> (r: String)
    ensures
        r@ == decimal(n as nat),
    decreases n,
{
    if n < 10 {
        let mut out: String = String::new();
        out.push(digit_char(n));
        assert(out@ =~= decimal(n as nat));
        out
    } else {
        let mut out = decimal_of(n / 10);
        out.push(digit_char(n % 10));
        out
    }
}

/// `n` in decimal, with a sign where it is negative.
pub fn signed_of(n: i64) -> (r: String)
    ensures
        r@ == signed(n as int),
{
    if n < 0 {
        let m: u64 = (-(n as i128)) as u64;
        cat("-", decimal_of(m).as_str())
    } else {
        decimal_of(n as u64)
    }
}

/// A copy of a text.
pub fn copy(s: &str) -> (r: String)
    ensures
        r@ == s@,
{
    string_of(chars_of(s).as_slice())
}

/// Copies of a list of texts.
pub fn copy_texts(list: &Vec<String>) -> (r: Vec<String>)
    ensures
        texts(r@) == texts(list@),
{
    let mut out: Vec<String> = Vec::new();
    let mut i: usize = 0;
    while i < list.len()
        invariant
            i <= list@.len(),
            out@.len() == i,
            forall|k: int| 0 <= k < i ==> (#[trigger] out@[k])@ == list@[k]@,
        decreases list@.len() - i,
    {
        out.push(copy(list[i].as_str()));
        i += 1;
    }
    assert(texts(out@) =~= texts(list@));
    out
}

/// A copy of an optional text.
pub fn copy_opt(o: &Option<String>) -> (r: Option<String>)
    ensures
        opt(r) == opt(*o),
{
    match o {
        Some(s) => Some(copy(s.as_str())),
        None => None,
    }
}

/// The text inside an option, borrowed.
pub fn borrow(o: &Option<String>) -> (r: Option<&str>)
    ensures
        match r {
            Some(s) => opt(*o) == Some(s@),
            None => opt(*o) is None,
        },
{
    match o {
        Some(s) => Some(s.as_str()),
        None => None,
    }
}

pub fn digit_char(d: u64) -> (r: char)
    requires
        d < 10,
    ensures
        r == digit(d as nat),
{
    (48u8 + d as u8) as char
}

/// The number that decimal digits stand for.
pub open spec fn digits_value(s: Seq<char>) -> nat
    decreases s.len(),
{
    if s.len() == 0 {
        0
    } else {
        10 * digits_value(s.drop_last()) + (s.last() as nat - '0' as nat) as nat
    }
}

/// The digits of a number, behind its sign.
pub open spec fn unsigned_part(s: Seq<char>) -> Seq<char> {
    if s.len() > 0 && (s[0] == '-' || s[0] == '+') {
        s.skip(1)
    } else {
        s
    }
}

/// The number that a text writes: decimal digits, at least one, with a sign or
/// without. A number that does not fit is none.
pub open spec fn number(s: Seq<char>) -> Option<i64> {
    let digits = unsigned_part(s);
    let n = digits_value(digits) as int;
    let value = if s.len() > 0 && s[0] == '-' {
        -n
    } else {
        n
    };
    if digits.len() > 0 && (forall|i: int| 0 <= i < digits.len() ==> is_digit(#[trigger] digits[i]))
        && i64::MIN <= value <= i64::MAX {
        Some(value as i64)
    } else {
        None
    }
}

proof fn lemma_digits_grow(s: Seq<char>, n: int)
    requires
        0 <= n <= s.len(),
    ensures
        digits_value(s.take(n)) <= digits_value(s),
    decreases s.len(),
{
    if n == s.len() {
        assert(s.take(n) =~= s);
    } else {
        lemma_digits_grow(s.drop_last(), n);
        assert(s.drop_last().take(n) =~= s.take(n));
    }
}

/// The number that a text writes.
pub fn number_of(s: &[char]) -> (r: Option<i64>)
    ensures
        r == number(s@),
{
    let negative = s.len() > 0 && s[0] == '-';
    let digits = if s.len() > 0 && (s[0] == '-' || s[0] == '+') {
        tail(s, 1)
    } else {
        s
    };
    if digits.len() == 0 {
        return None;
    }
    let mut value: u128 = 0;
    let mut i: usize = 0;
    while i < digits.len()
        invariant
            i <= digits@.len(),
            value == digits_value(digits@.take(i as int)),
            value <= 9223372036854775808,
            forall|k: int| 0 <= k < i ==> is_digit(#[trigger] digits@[k]),
            digits@ == unsigned_part(s@),
            negative == (s@.len() > 0 && s@[0] == '-'),
        decreases digits@.len() - i,
    {
        let c: char = digits[i];
        if !is_digit_char(c) {
            return None;
        }
        assert(digits@.take(i + 1).drop_last() =~= digits@.take(i as int));
        let d: u32 = c as u32;
        value = value * 10 + (d - 48) as u128;
        if value > 9223372036854775808 {
            proof {
                lemma_digits_grow(digits@, i + 1);
            }
            return None;
        }
        i += 1;
    }
    assert(digits@.take(digits@.len() as int) =~= digits@);
    if negative {
        if value == 9223372036854775808 {
            Some(i64::MIN)
        } else {
            Some(-(value as i64))
        }
    } else if value <= i64::MAX as u128 {
        Some(value as i64)
    } else {
        None
    }
}

} // verus!
