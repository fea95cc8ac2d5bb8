//! Text as a sequence of characters: what the string operations mean that the
//! contracts of the library are stated in.
use vstd::prelude::*;

verus! {

// ---------------------------------------------------------------------------
// What the operations mean
// ---------------------------------------------------------------------------

/// What an optional text is.
pub open spec fn opt_view(t: Option<&str>) -> Option<Seq<char>> {
    match t {
        Some(x) => Some(x@),
        None => None,
    }
}

/// A result in which the text stands for itself.
pub open spec fn result_view(r: Result<String, String>) -> Result<Seq<char>, Seq<char>> {
    match r {
        Ok(t) => Ok(t@),
        Err(e) => Err(e@),
    }
}

/// Whether something is refused, and with which message.
pub open spec fn refusal_view(r: Result<(), String>) -> Option<Seq<char>> {
    match r {
        Ok(_) => None,
        Err(e) => Some(e@),
    }
}

/// The characters with the Unicode property White_Space.
pub open spec fn is_white(c: char) -> bool {
    ||| '\u{9}' <= c <= '\u{d}'
    ||| c == ' '
    ||| c == '\u{85}'
    ||| c == '\u{a0}'
    ||| c == '\u{1680}'
    ||| '\u{2000}' <= c <= '\u{200a}'
    ||| c == '\u{2028}'
    ||| c == '\u{2029}'
    ||| c == '\u{202f}'
    ||| c == '\u{205f}'
    ||| c == '\u{3000}'
}

/// `s` without its leading white space.
pub open spec fn trim_start(s: Seq<char>) -> Seq<char>
    decreases s.len(),
{
    if s.len() > 0 && is_white(s[0]) {
        trim_start(s.drop_first())
    } else {
        s
    }
}

/// `s` without its trailing white space.
pub open spec fn trim_end(s: Seq<char>) -> Seq<char>
    decreases s.len(),
{
    if s.len() > 0 && is_white(s.last()) {
        trim_end(s.drop_last())
    } else {
        s
    }
}

/// `s` without the white space around it.
pub open spec fn trim(s: Seq<char>) -> Seq<char> {
    trim_end(trim_start(s))
}

/// `s` without the double quotes at its start.
pub open spec fn unquote_start(s: Seq<char>) -> Seq<char>
    decreases s.len(),
{
    if s.len() > 0 && s[0] == '"' {
        unquote_start(s.drop_first())
    } else {
        s
    }
}

/// `s` without the double quotes at its end.
pub open spec fn unquote_end(s: Seq<char>) -> Seq<char>
    decreases s.len(),
{
    if s.len() > 0 && s.last() == '"' {
        unquote_end(s.drop_last())
    } else {
        s
    }
}

/// `s` without the double quotes around it, however many.
pub open spec fn unquoted(s: Seq<char>) -> Seq<char> {
    unquote_end(unquote_start(s))
}

/// Where `c` first occurs in `s`; the length of `s` if it does not.
pub open spec fn position(s: Seq<char>, c: char) -> int
    decreases s.len(),
{
    if s.len() == 0 || s[0] == c {
        0
    } else {
        1 + position(s.drop_first(), c)
    }
}

pub open spec fn starts_with(s: Seq<char>, prefix: Seq<char>) -> bool {
    &&& prefix.len() <= s.len()
    &&& s.take(prefix.len() as int) == prefix
}

pub open spec fn ends_with(s: Seq<char>, suffix: Seq<char>) -> bool {
    &&& suffix.len() <= s.len()
    &&& s.skip(s.len() - suffix.len()) == suffix
}

/// `part` stands somewhere in `s`.
pub open spec fn contains(s: Seq<char>, part: Seq<char>) -> bool {
    exists|i: int| 0 <= i <= s.len() && starts_with(#[trigger] s.skip(i), part)
}

/// What follows `prefix`, if `s` starts with it.
pub open spec fn strip_prefix(s: Seq<char>, prefix: Seq<char>) -> Option<Seq<char>> {
    if starts_with(s, prefix) {
        Some(s.skip(prefix.len() as int))
    } else {
        None
    }
}

/// What stands before and after the first `c`.
pub open spec fn split_once(s: Seq<char>, c: char) -> Option<(Seq<char>, Seq<char>)> {
    let i = position(s, c);
    if i < s.len() {
        Some((s.take(i), s.skip(i + 1)))
    } else {
        None
    }
}

/// What stands before the first `c`; all of `s` if there is none.
pub open spec fn before(s: Seq<char>, c: char) -> Seq<char> {
    s.take(position(s, c))
}

/// A line without the carriage return that ends it.
pub open spec fn without_cr(s: Seq<char>) -> Seq<char> {
    if s.len() > 0 && s.last() == '\r' {
        s.drop_last()
    } else {
        s
    }
}

/// The lines, each without the carriage return that ends it.
pub open spec fn without_crs(ls: Seq<Seq<char>>) -> Seq<Seq<char>> {
    Seq::new(ls.len(), |i: int| without_cr(ls[i]))
}

/// No line feed in it.
pub open spec fn one_line(s: Seq<char>) -> bool {
    forall|i: int| 0 <= i < s.len() ==> s[i] != '\n'
}

/// The lines of `s`. A line feed, with or without a carriage return before it,
/// ends a line; the last line needs none.
pub open spec fn lines(s: Seq<char>) -> Seq<Seq<char>>
    decreases s.len(),
    via lines_decreases
{
    if s.len() == 0 {
        Seq::empty()
    } else {
        let i = position(s, '\n');
        if i >= s.len() {
            seq![s]
        } else {
            seq![without_cr(s.take(i))] + lines(s.skip(i + 1))
        }
    }
}

#[via_fn]
proof fn lines_decreases(s: Seq<char>) {
    lemma_position_bound(s, '\n');
}

/// Each line followed by a line feed.
pub open spec fn unlines(ls: Seq<Seq<char>>) -> Seq<char>
    decreases ls.len(),
{
    if ls.len() == 0 {
        Seq::empty()
    } else {
        unlines(ls.drop_last()) + ls.last().push('\n')
    }
}

/// The first line of `s`; empty if `s` has none.
pub open spec fn first_line(s: Seq<char>) -> Seq<char> {
    if lines(s).len() > 0 {
        lines(s)[0]
    } else {
        Seq::empty()
    }
}

/// The pieces of `s` between occurrences of `c`.
pub open spec fn split(s: Seq<char>, c: char) -> Seq<Seq<char>>
    decreases s.len(),
    via split_decreases
{
    let i = position(s, c);
    if i >= s.len() {
        seq![s]
    } else {
        seq![s.take(i)] + split(s.skip(i + 1), c)
    }
}

#[via_fn]
proof fn split_decreases(s: Seq<char>, c: char) {
    lemma_position_bound(s, c);
}

/// Where the first white space of `s` stands; the length of `s` if there is none.
pub open spec fn word_end(s: Seq<char>) -> int
    decreases s.len(),
{
    if s.len() == 0 || is_white(s[0]) {
        0
    } else {
        1 + word_end(s.drop_first())
    }
}

/// The words of `s`, which white space parts.
pub open spec fn words(s: Seq<char>) -> Seq<Seq<char>>
    decreases s.len(),
    via words_decreases
{
    let t = trim_start(s);
    if t.len() == 0 {
        Seq::empty()
    } else {
        seq![t.take(word_end(t))] + words(t.skip(word_end(t)))
    }
}

#[via_fn]
proof fn words_decreases(s: Seq<char>) {
    lemma_trim_start_len(s);
    let t = trim_start(s);
    lemma_word_end_bound(t);
    lemma_trim_start_first(s);
}

/// `list` with `sep` between the items.
pub open spec fn join(list: Seq<Seq<char>>, sep: Seq<char>) -> Seq<char>
    decreases list.len(),
{
    if list.len() == 0 {
        Seq::empty()
    } else if list.len() == 1 {
        list[0]
    } else {
        join(list.drop_last(), sep) + sep + list.last()
    }
}

/// The digit for `d`, which is less than ten.
pub open spec fn digit(d: nat) -> char {
    (('0' as nat) + d) as char
}

/// `n` in decimal notation.
pub open spec fn decimal(n: nat) -> Seq<char>
    decreases n,
{
    if n < 10 {
        seq![digit(n)]
    } else {
        decimal(n / 10).push(digit(n % 10))
    }
}

pub open spec fn is_digit(c: char) -> bool {
    '0' <= c <= '9'
}

/// The number that a sequence of digits stands for.
pub open spec fn digits_value(s: Seq<char>) -> nat
    decreases s.len(),
{
    if s.len() == 0 {
        0
    } else {
        (digits_value(s.drop_last()) * 10 + (s.last() as nat - '0' as nat)) as nat
    }
}

/// `s` is a non-empty sequence of digits.
pub open spec fn all_digits(s: Seq<char>) -> bool {
    s.len() > 0 && forall|i: int| 0 <= i < s.len() ==> is_digit(#[trigger] s[i])
}

/// What follows an optional plus sign.
pub open spec fn unsigned(s: Seq<char>) -> Seq<char> {
    if s.len() > 0 && s[0] == '+' {
        s.skip(1)
    } else {
        s
    }
}

/// The number that `s` spells: digits, with an optional plus sign before them.
pub open spec fn parsed(s: Seq<char>) -> Option<nat> {
    let d = unsigned(s);
    if all_digits(d) {
        Some(digits_value(d))
    } else {
        None
    }
}

/// `n` spaces.
pub open spec fn spaces(n: nat) -> Seq<char> {
    Seq::new(n, |i: int| ' ')
}

/// `s`, filled up with spaces to `width` characters.
pub open spec fn padded(s: Seq<char>, width: nat) -> Seq<char> {
    if s.len() < width {
        s + spaces((width - s.len()) as nat)
    } else {
        s
    }
}

/// `s` with `by` in place of each `c`.
pub open spec fn replaced(s: Seq<char>, c: char, by: Seq<char>) -> Seq<char>
    decreases s.len(),
{
    if s.len() == 0 {
        Seq::empty()
    } else {
        replaced(s.drop_last(), c, by) + (if s.last() == c {
            by
        } else {
            seq![s.last()]
        })
    }
}

/// `a` stands before `b` in the order of their characters.
pub open spec fn before_in_order(a: Seq<char>, b: Seq<char>) -> bool
    decreases a.len(),
{
    if b.len() == 0 {
        false
    } else if a.len() == 0 {
        true
    } else if a[0] != b[0] {
        a[0] < b[0]
    } else {
        before_in_order(a.drop_first(), b.drop_first())
    }
}

pub proof fn lemma_position_bound(s: Seq<char>, c: char)
    ensures
        0 <= position(s, c) <= s.len(),
    decreases s.len(),
{
    if s.len() > 0 && s[0] != c {
        lemma_position_bound(s.drop_first(), c);
    }
}

// ---------------------------------------------------------------------------
// Facts about them
// ---------------------------------------------------------------------------

pub proof fn lemma_trim_start_len(s: Seq<char>)
    ensures
        trim_start(s).len() <= s.len(),
    decreases s.len(),
{
    if s.len() > 0 && is_white(s[0]) {
        lemma_trim_start_len(s.drop_first());
    }
}

pub proof fn lemma_trim_start_first(s: Seq<char>)
    ensures
        trim_start(s).len() > 0 ==> !is_white(trim_start(s)[0]),
    decreases s.len(),
{
    if s.len() > 0 && is_white(s[0]) {
        lemma_trim_start_first(s.drop_first());
    }
}

pub proof fn lemma_word_end_bound(s: Seq<char>)
    ensures
        0 <= word_end(s) <= s.len(),
        s.len() > 0 && !is_white(s[0]) ==> word_end(s) > 0,
    decreases s.len(),
{
    if s.len() > 0 && !is_white(s[0]) {
        lemma_word_end_bound(s.drop_first());
    }
}

/// `position` is the only place that has `c` and no `c` before it.
pub proof fn lemma_position_is(s: Seq<char>, c: char, i: int)
    requires
        0 <= i <= s.len(),
        i < s.len() ==> s[i] == c,
        forall|k: int| 0 <= k < i ==> s[k] != c,
    ensures
        position(s, c) == i,
    decreases s.len(),
{
    if i > 0 {
        let t = s.drop_first();
        assert forall|k: int| 0 <= k < i - 1 implies t[k] != c by {
            assert(t[k] == s[k + 1]);
        }
        lemma_position_is(t, c, i - 1);
    }
}

pub proof fn lemma_position(s: Seq<char>, c: char)
    ensures
        0 <= position(s, c) <= s.len(),
        position(s, c) < s.len() ==> s[position(s, c)] == c,
        forall|k: int| 0 <= k < position(s, c) ==> s[k] != c,
    decreases s.len(),
{
    if s.len() > 0 && s[0] != c {
        let t = s.drop_first();
        lemma_position(t, c);
        assert forall|k: int| 0 <= k < position(s, c) implies s[k] != c by {
            if k > 0 {
                assert(s[k] == t[k - 1]);
            }
        }
    }
}

pub proof fn lemma_word_end_is(s: Seq<char>, i: int)
    requires
        0 <= i <= s.len(),
        i < s.len() ==> is_white(s[i]),
        forall|k: int| 0 <= k < i ==> !is_white(s[k]),
    ensures
        word_end(s) == i,
    decreases s.len(),
{
    if i > 0 {
        let t = s.drop_first();
        assert forall|k: int| 0 <= k < i - 1 implies !is_white(t[k]) by {
            assert(t[k] == s[k + 1]);
        }
        lemma_word_end_is(t, i - 1);
    }
}

/// Leading white space, then something else.
pub proof fn lemma_trim_start_is(s: Seq<char>, i: int)
    requires
        0 <= i <= s.len(),
        i < s.len() ==> !is_white(s[i]),
        forall|k: int| 0 <= k < i ==> is_white(s[k]),
    ensures
        trim_start(s) == s.skip(i),
    decreases s.len(),
{
    if i > 0 {
        let t = s.drop_first();
        assert forall|k: int| 0 <= k < i - 1 implies is_white(t[k]) by {
            assert(t[k] == s[k + 1]);
        }
        lemma_trim_start_is(t, i - 1);
        assert(t.skip(i - 1) =~= s.skip(i));
    } else {
        assert(s.skip(0) =~= s);
    }
}

/// Something that does not end in white space, then white space.
pub proof fn lemma_trim_end_is(s: Seq<char>, i: int)
    requires
        0 <= i <= s.len(),
        i > 0 ==> !is_white(s[i - 1]),
        forall|k: int| i <= k < s.len() ==> is_white(s[k]),
    ensures
        trim_end(s) == s.take(i),
    decreases s.len(),
{
    if i < s.len() {
        let t = s.drop_last();
        lemma_trim_end_is(t, i);
        assert(t.take(i) =~= s.take(i));
    } else {
        assert(s.take(i) =~= s);
    }
}

pub proof fn lemma_unquote_start_is(s: Seq<char>, i: int)
    requires
        0 <= i <= s.len(),
        i < s.len() ==> s[i] != '"',
        forall|k: int| 0 <= k < i ==> s[k] == '"',
    ensures
        unquote_start(s) == s.skip(i),
    decreases s.len(),
{
    if i > 0 {
        let t = s.drop_first();
        assert forall|k: int| 0 <= k < i - 1 implies t[k] == '"' by {
            assert(t[k] == s[k + 1]);
        }
        lemma_unquote_start_is(t, i - 1);
        assert(t.skip(i - 1) =~= s.skip(i));
    } else {
        assert(s.skip(0) =~= s);
    }
}

pub proof fn lemma_unquote_end_is(s: Seq<char>, i: int)
    requires
        0 <= i <= s.len(),
        i > 0 ==> s[i - 1] != '"',
        forall|k: int| i <= k < s.len() ==> s[k] == '"',
    ensures
        unquote_end(s) == s.take(i),
    decreases s.len(),
{
    if i < s.len() {
        let t = s.drop_last();
        lemma_unquote_end_is(t, i);
        assert(t.take(i) =~= s.take(i));
    } else {
        assert(s.take(i) =~= s);
    }
}

pub proof fn lemma_order_irreflexive(a: Seq<char>)
    ensures
        !before_in_order(a, a),
    decreases a.len(),
{
    if a.len() > 0 {
        lemma_order_irreflexive(a.drop_first());
    }
}

pub proof fn lemma_order_transitive(a: Seq<char>, b: Seq<char>, c: Seq<char>)
    requires
        before_in_order(a, b),
        before_in_order(b, c),
    ensures
        before_in_order(a, c),
    decreases a.len(),
{
    if a.len() > 0 && a[0] == b[0] && b[0] == c[0] {
        lemma_order_transitive(a.drop_first(), b.drop_first(), c.drop_first());
    }
}

pub proof fn lemma_order_total(a: Seq<char>, b: Seq<char>)
    ensures
        before_in_order(a, b) || a == b || before_in_order(b, a),
    decreases a.len(),
{
    if a.len() > 0 && b.len() > 0 && a[0] == b[0] {
        lemma_order_total(a.drop_first(), b.drop_first());
        if a.drop_first() == b.drop_first() {
            assert(a =~= seq![a[0]] + a.drop_first());
            assert(b =~= seq![b[0]] + b.drop_first());
        }
    } else if a.len() == 0 && b.len() == 0 {
        assert(a =~= b);
    }
}

proof fn lemma_first_line_of(line: Seq<char>, rest: Seq<char>)
    requires
        one_line(line),
    ensures
        lines(line.push('\n') + rest) == seq![without_cr(line)] + lines(rest),
{
    let s = line.push('\n') + rest;
    let n = line.len() as int;
    assert forall|k: int| 0 <= k < n implies s[k] != '\n' by {
        assert(s[k] == line[k]);
    }
    assert(s[n] == '\n');
    lemma_position_is(s, '\n', n);
    assert(s.take(n) =~= line);
    assert(s.skip(n + 1) =~= rest);
}

/// Lines that were written one after the other are read back, but for the
/// carriage returns at their ends.
pub proof fn lemma_lines_of(ls: Seq<Seq<char>>, rest: Seq<char>)
    requires
        forall|i: int| 0 <= i < ls.len() ==> one_line(#[trigger] ls[i]),
    ensures
        lines(unlines(ls) + rest) == without_crs(ls) + lines(rest),
    decreases ls.len(),
{
    if ls.len() == 0 {
        assert(unlines(ls) + rest =~= rest);
        assert(without_crs(ls) + lines(rest) =~= lines(rest));
    } else {
        let shorter = ls.drop_last();
        let last = ls.last();
        assert forall|i: int| 0 <= i < shorter.len() implies one_line(#[trigger] shorter[i]) by {
            assert(shorter[i] == ls[i]);
        }
        assert(one_line(ls[ls.len() - 1]));
        let tail = last.push('\n') + rest;
        lemma_lines_of(shorter, tail);
        lemma_first_line_of(last, rest);
        assert(unlines(ls) + rest =~= unlines(shorter) + tail);
        assert(without_crs(ls) + lines(rest) =~= without_crs(shorter) + (seq![without_cr(last)]
            + lines(rest)));
    }
}

/// No line has a line feed in it.
pub proof fn lemma_lines_one_line(s: Seq<char>)
    ensures
        forall|i: int| 0 <= i < lines(s).len() ==> one_line(#[trigger] lines(s)[i]),
    decreases s.len(),
{
    lemma_position(s, '\n');
    if s.len() > 0 {
        let i = position(s, '\n');
        if i < s.len() {
            lemma_lines_one_line(s.skip(i + 1));
            let rest = lines(s.skip(i + 1));
            assert forall|k: int| 0 <= k < lines(s).len() implies one_line(
                #[trigger] lines(s)[k],
            ) by {
                if k == 0 {
                    assert(lines(s)[0] == without_cr(s.take(i)));
                } else {
                    assert(lines(s)[k] == rest[k - 1]);
                }
            }
        }
    }
}

/// What is left after leading white space starts with something else.
pub proof fn lemma_not_blank(s: Seq<char>)
    requires
        trim_start(s).len() > 0,
    ensures
        exists|k: int| 0 <= k < s.len() && !is_white(#[trigger] s[k]),
    decreases s.len(),
{
    if is_white(s[0]) {
        let t = s.drop_first();
        lemma_not_blank(t);
        let k = choose|k: int| 0 <= k < t.len() && !is_white(#[trigger] t[k]);
        assert(s[k + 1] == t[k]);
    } else {
        assert(!is_white(s[0]));
    }
}

/// Text with something in it that is not white space is not trimmed away.
pub proof fn lemma_trim_not_empty(s: Seq<char>, k: int)
    requires
        0 <= k < s.len(),
        !is_white(s[k]),
    ensures
        trim(s).len() > 0,
    decreases s.len(),
{
    if is_white(s[0]) {
        let t = s.drop_first();
        assert(t[k - 1] == s[k]);
        lemma_trim_not_empty(t, k - 1);
    } else {
        assert(trim_start(s) == s);
        lemma_trim_end_not_empty(s);
    }
}

proof fn lemma_trim_end_not_empty(s: Seq<char>)
    requires
        s.len() > 0,
        !is_white(s[0]),
    ensures
        trim_end(s).len() > 0,
    decreases s.len(),
{
    if is_white(s.last()) {
        let t = s.drop_last();
        assert(t[0] == s[0]);
        lemma_trim_end_not_empty(t);
    }
}

proof fn lemma_trim_start_push(s: Seq<char>, c: char)
    requires
        is_white(c),
    ensures
        trim_start(s.push(c)) == (if trim_start(s).len() == 0 {
            Seq::empty()
        } else {
            trim_start(s).push(c)
        }),
    decreases s.len(),
{
    let longer = s.push(c);
    if s.len() == 0 {
        assert(longer.drop_first() =~= Seq::empty());
        assert(trim_start(longer.drop_first()) =~= Seq::empty());
        assert(longer[0] == c);
    } else {
        assert(longer[0] == s[0]);
        if is_white(s[0]) {
            lemma_trim_start_push(s.drop_first(), c);
            assert(longer.drop_first() =~= s.drop_first().push(c));
        }
    }
}

/// A carriage return at the end is white space like any other.
pub proof fn lemma_trim_without_cr(s: Seq<char>)
    ensures
        trim(without_cr(s)) == trim(s),
{
    if s.len() > 0 && s.last() == '\r' {
        let t = s.drop_last();
        assert(s =~= t.push('\r'));
        lemma_trim_start_push(t, '\r');
        if trim_start(t).len() > 0 {
            assert(trim_start(t).push('\r').drop_last() =~= trim_start(t));
        } else {
            assert(trim_start(t) =~= Seq::empty());
        }
    }
}

/// A text that neither starts nor ends in white space or quotes is itself when
/// trimmed and unquoted.
pub proof fn lemma_bare(s: Seq<char>)
    requires
        s.len() > 0 ==> {
            &&& !is_white(s[0]) && !is_white(s.last())
            &&& s[0] != '"' && s.last() != '"'
        },
    ensures
        unquoted(trim(s)) == s,
{
    lemma_trim_start_is(s, 0);
    assert(s.skip(0) =~= s);
    lemma_trim_end_is(s, s.len() as int);
    assert(s.take(s.len() as int) =~= s);
    lemma_unquote_start_is(s, 0);
    lemma_unquote_end_is(s, s.len() as int);
}

pub proof fn lemma_unlines_joined(a: Seq<Seq<char>>, b: Seq<Seq<char>>)
    ensures
        unlines(a + b) == unlines(a) + unlines(b),
    decreases b.len(),
{
    if b.len() == 0 {
        assert(a + b =~= a);
        assert(unlines(a) + unlines(b) =~= unlines(a));
    } else {
        lemma_unlines_joined(a, b.drop_last());
        assert((a + b).drop_last() =~= a + b.drop_last());
        assert((a + b).last() == b.last());
        assert(unlines(a + b) =~= unlines(a) + unlines(b));
    }
}

/// No word is empty.
pub proof fn lemma_words_not_empty(s: Seq<char>)
    ensures
        forall|i: int| 0 <= i < words(s).len() ==> (#[trigger] words(s)[i]).len() > 0,
    decreases s.len(),
{
    let t = trim_start(s);
    lemma_trim_start_len(s);
    lemma_trim_start_first(s);
    lemma_word_end_bound(t);
    if t.len() > 0 {
        let rest = t.skip(word_end(t));
        lemma_words_not_empty(rest);
        assert forall|i: int| 0 <= i < words(s).len() implies (#[trigger] words(s)[i]).len()
            > 0 by {
            if i > 0 {
                assert(words(s)[i] == words(rest)[i - 1]);
            }
        }
    }
}

// ---------------------------------------------------------------------------
// Laws
// ---------------------------------------------------------------------------

/// Blanks, tabs and line ends are white space; letters, digits and the marks of names and
/// paths are not. All of it are the characters to which Unicode gives that property.
pub proof fn law_white(c: char)
    ensures
        is_white(' ') && is_white('\t') && is_white('\n') && is_white('\r'),
        'a' <= c <= 'z' || 'A' <= c <= 'Z' || '0' <= c <= '9' ==> !is_white(c),
        !is_white('-') && !is_white('_') && !is_white('.') && !is_white('/') && !is_white('='),
        !is_white('#') && !is_white('"') && !is_white(':') && !is_white(','),
        is_white(c) <==> {
            let n = c as int;
            ||| 0x9 <= n <= 0xd
            ||| n == 0x20 || n == 0x85 || n == 0xa0 || n == 0x1680
            ||| 0x2000 <= n <= 0x200a
            ||| n == 0x2028 || n == 0x2029 || n == 0x202f || n == 0x205f || n == 0x3000
        },
{
}

/// Trimming takes away the white space around a text, and nothing of the text.
pub proof fn law_trim(a: Seq<char>, s: Seq<char>, b: Seq<char>)
    requires
        forall|k: int| 0 <= k < a.len() ==> is_white(#[trigger] a[k]),
        forall|k: int| 0 <= k < b.len() ==> is_white(#[trigger] b[k]),
        s.len() > 0 ==> !is_white(s[0]) && !is_white(s.last()),
    ensures
        trim(a + s + b) == s,
{
    let all = a + s + b;
    if s.len() > 0 {
        let n = a.len() as int;
        assert(all[n] == s[0]);
        assert forall|k: int| 0 <= k < n implies is_white(all[k]) by {
            assert(all[k] == a[k]);
        }
        lemma_trim_start_is(all, n);
        let t = all.skip(n);
        let m = s.len() as int;
        assert(t[m - 1] == s.last());
        assert forall|k: int| m <= k < t.len() implies is_white(t[k]) by {
            assert(t[k] == b[k - m]);
        }
        lemma_trim_end_is(t, m);
        assert(t.take(m) =~= s);
    } else {
        assert forall|k: int| 0 <= k < all.len() implies is_white(all[k]) by {
            if k < a.len() {
                assert(all[k] == a[k]);
            } else {
                assert(all[k] == b[k - a.len()]);
            }
        }
        lemma_trim_start_is(all, all.len() as int);
        assert(all.skip(all.len() as int) =~= s);
    }
}

/// The parts between the separators make up the text, and have none of them.
pub proof fn law_split(s: Seq<char>, c: char)
    ensures
        split(s, c).len() > 0,
        join(split(s, c), seq![c]) == s,
        forall|i: int, k: int|
            0 <= i < split(s, c).len() && 0 <= k < split(s, c)[i].len() ==> #[trigger] split(
                s,
                c,
            )[i][k] != c,
    decreases s.len(),
{
    lemma_position(s, c);
    let i = position(s, c);
    let all = split(s, c);
    if i < s.len() {
        let rest = s.skip(i + 1);
        let others = split(rest, c);
        law_split(rest, c);
        lemma_join_first(s.take(i), others, seq![c]);
        assert(all =~= seq![s.take(i)] + others);
        assert(s =~= s.take(i) + seq![c] + rest);
        assert forall|j: int, k: int|
            0 <= j < all.len() && 0 <= k < all[j].len() implies #[trigger] all[j][k] != c by {
            if j > 0 {
                assert(all[j] == others[j - 1]);
                assert(others[j - 1][k] != c);
            } else {
                assert(all[0] == s.take(i));
            }
        }
    }
}

/// The first item of a list stands before the others.
pub proof fn lemma_join_first(head: Seq<char>, list: Seq<Seq<char>>, sep: Seq<char>)
    ensures
        join(seq![head] + list, sep) == if list.len() == 0 {
            head
        } else {
            head + sep + join(list, sep)
        },
    decreases list.len(),
{
    let all = seq![head] + list;
    if list.len() == 0 {
        assert(all[0] == head);
    } else {
        assert(all.drop_last() =~= seq![head] + list.drop_last());
        lemma_join_first(head, list.drop_last(), sep);
        assert(all.last() == list.last());
        if list.len() > 1 {
            assert(join(all, sep) =~= head + sep + join(list, sep));
        }
    }
}

/// Joining puts the separator between the items and nowhere else.
pub proof fn law_join(list: Seq<Seq<char>>, last: Seq<char>, sep: Seq<char>)
    ensures
        join(Seq::<Seq<char>>::empty(), sep) == Seq::<char>::empty(),
        join(seq![last], sep) == last,
        list.len() > 0 ==> join(list.push(last), sep) == join(list, sep) + sep + last,
{
    assert(list.push(last).drop_last() =~= list);
}

/// Words are what white space separates: each stands as it is, and white space around and
/// between them does not matter.
pub proof fn law_words(a: Seq<char>, word: Seq<char>, rest: Seq<char>)
    requires
        forall|k: int| 0 <= k < a.len() ==> is_white(#[trigger] a[k]),
        forall|k: int| 0 <= k < word.len() ==> !is_white(#[trigger] word[k]),
        word.len() > 0,
        rest.len() > 0 ==> is_white(rest[0]),
    ensures
        words(a) == Seq::<Seq<char>>::empty(),
        words(a + word + rest) == seq![word] + words(rest),
{
    let s = a + word + rest;
    let n = a.len() as int;
    lemma_trim_start_is(a, n);
    assert(a.skip(n).len() == 0);
    assert(s[n] == word[0]);
    assert forall|k: int| 0 <= k < n implies is_white(s[k]) by {
        assert(s[k] == a[k]);
    }
    lemma_trim_start_is(s, n);
    let t = s.skip(n);
    let m = word.len() as int;
    assert forall|k: int| 0 <= k < m implies !is_white(t[k]) by {
        assert(t[k] == word[k]);
    }
    if m < t.len() {
        assert(t[m] == rest[0]);
    }
    lemma_word_end_is(t, m);
    assert(t.take(m) =~= word);
    assert(t.skip(m) =~= rest);
}

/// A number that is written is read back.
pub proof fn law_decimal(n: nat)
    ensures
        parsed(decimal(n)) == Some(n),
{
    lemma_decimal_read(n);
    let d = decimal(n);
    assert(is_digit(d[0]));
}

proof fn lemma_decimal_read(n: nat)
    ensures
        all_digits(decimal(n)),
        digits_value(decimal(n)) == n,
    decreases n,
{
    let d = decimal(n);
    if n < 10 {
        assert(d.drop_last() =~= Seq::<char>::empty());
        assert(digits_value(Seq::<char>::empty()) == 0);
        assert(d.last() == digit(n));
    } else {
        lemma_decimal_read(n / 10);
        assert(d.drop_last() =~= decimal(n / 10));
        assert(d.last() == digit(n % 10));
        assert forall|i: int| 0 <= i < d.len() implies is_digit(#[trigger] d[i]) by {
            if i < d.len() - 1 {
                assert(d[i] == decimal(n / 10)[i]);
            }
        }
    }
}

/// Each occurrence of the character is replaced, and all others stay.
pub proof fn law_replaced(a: Seq<char>, b: Seq<char>, c: char, d: char, by: Seq<char>)
    ensures
        replaced(a + b, c, by) == replaced(a, c, by) + replaced(b, c, by),
        replaced(seq![c], c, by) == by,
        d != c ==> replaced(seq![d], c, by) == seq![d],
    decreases b.len(),
{
    reveal_with_fuel(replaced, 2);
    assert(seq![c].drop_last() =~= Seq::<char>::empty());
    assert(seq![d].drop_last() =~= Seq::<char>::empty());
    assert(Seq::<char>::empty() + by =~= by);
    assert(Seq::<char>::empty() + seq![d] =~= seq![d]);
    if b.len() == 0 {
        assert(a + b =~= a);
        assert(replaced(a, c, by) + replaced(b, c, by) =~= replaced(a, c, by));
    } else {
        assert((a + b).drop_last() =~= a + b.drop_last());
        law_replaced(a, b.drop_last(), c, d, by);
        let end = if b.last() == c {
            by
        } else {
            seq![b.last()]
        };
        assert(replaced(a, c, by) + replaced(b.drop_last(), c, by) + end =~= replaced(a, c, by) + (
        replaced(b.drop_last(), c, by) + end));
    }
}

/// Padding fills up with spaces at the end, and cuts nothing off.
pub proof fn law_padded(s: Seq<char>, width: nat)
    ensures
        starts_with(padded(s, width), s),
        padded(s, width).len() == (if s.len() < width {
            width
        } else {
            s.len()
        }),
        forall|i: int| s.len() <= i < padded(s, width).len() ==> padded(s, width)[i] == ' ',
{
    assert(padded(s, width).take(s.len() as int) =~= s);
}

/// A text has a part exactly where it is the part with something before and after it.
pub proof fn law_contains(s: Seq<char>, part: Seq<char>)
    ensures
        contains(s, part) <==> exists|a: Seq<char>, b: Seq<char>| s == #[trigger] (a + part + b),
{
    if contains(s, part) {
        let i = choose|i: int| 0 <= i <= s.len() && starts_with(#[trigger] s.skip(i), part);
        let a = s.take(i);
        let b = s.skip(i).skip(part.len() as int);
        assert(s.skip(i) =~= part + b);
        assert(s =~= a + part + b);
    }
    if exists|a: Seq<char>, b: Seq<char>| s == #[trigger] (a + part + b) {
        let (a, b) = choose|a: Seq<char>, b: Seq<char>| s == #[trigger] (a + part + b);
        let t = s.skip(a.len() as int);
        assert(t.take(part.len() as int) =~= part);
        assert(starts_with(t, part));
    }
}

/// A text starts and ends with what stands at its ends.
pub proof fn law_ends(a: Seq<char>, b: Seq<char>)
    ensures
        starts_with(a + b, a),
        ends_with(a + b, b),
        strip_prefix(a + b, a) == Some(b),
{
    assert((a + b).take(a.len() as int) =~= a);
    assert((a + b).skip(a.len() as int) =~= b);
}

/// A text is split at the first separator.
pub proof fn law_split_once(a: Seq<char>, c: char, b: Seq<char>)
    requires
        forall|k: int| 0 <= k < a.len() ==> a[k] != c,
    ensures
        split_once(a + seq![c] + b, c) == Some((a, b)),
        split_once(a, c) is None,
        before(a + seq![c] + b, c) == a,
        before(a, c) == a,
{
    let s = a + seq![c] + b;
    let n = a.len() as int;
    assert(s[n] == c);
    assert forall|k: int| 0 <= k < n implies s[k] != c by {
        assert(s[k] == a[k]);
    }
    lemma_position_is(s, c, n);
    lemma_position_is(a, c, n);
    assert(s.take(n) =~= a);
    assert(s.skip(n + 1) =~= b);
    assert(a.take(n) =~= a);
}

/// The first difference decides the order, and a text comes before what it is the start
/// of.
pub proof fn law_order_of(p: Seq<char>, x: char, y: char, a: Seq<char>, b: Seq<char>)
    ensures
        x != y ==> (before_in_order(p + seq![x] + a, p + seq![y] + b) <==> x < y),
        before_in_order(p, p + seq![x] + a),
    decreases p.len(),
{
    let s = p + seq![x] + a;
    let t = p + seq![y] + b;
    if p.len() > 0 {
        let q = p.drop_first();
        law_order_of(q, x, y, a, b);
        assert(s.drop_first() =~= q + seq![x] + a);
        assert(t.drop_first() =~= q + seq![y] + b);
    } else {
        assert(s[0] == x && t[0] == y);
    }
}

/// Lines that are written are read back, each without a carriage return at its end.
pub proof fn law_lines(ls: Seq<Seq<char>>)
    requires
        forall|i: int| 0 <= i < ls.len() ==> one_line(#[trigger] ls[i]),
    ensures
        lines(unlines(ls)).len() == ls.len(),
        forall|i: int|
            0 <= i < ls.len() ==> #[trigger] lines(unlines(ls))[i] == (if ls[i].len() > 0
                && ls[i].last() == '\r' {
                ls[i].drop_last()
            } else {
                ls[i]
            }),
{
    let none = Seq::<char>::empty();
    lemma_lines_of(ls, none);
    assert(unlines(ls) + none =~= unlines(ls));
    assert(lines(none) =~= Seq::<Seq<char>>::empty());
    assert(without_crs(ls) + lines(none) =~= without_crs(ls));
}

/// What follows the last line feed is a line too, unless it is empty.
pub proof fn law_last_line(ls: Seq<Seq<char>>, end: Seq<char>)
    requires
        forall|i: int| 0 <= i < ls.len() ==> one_line(#[trigger] ls[i]),
        one_line(end),
        end.len() > 0,
    ensures
        lines(unlines(ls) + end).len() == ls.len() + 1,
        lines(unlines(ls) + end).last() == end,
{
    lemma_lines_of(ls, end);
    lemma_position_is(end, '\n', end.len() as int);
    assert(lines(end) =~= seq![end]);
}

} // verus!
