//! String operations, each exactly the function of the same meaning in
//! [`crate::chars`].
use vstd::prelude::*;
use crate::chars;

verus! {

/// `String::push`: the character is added at the end.
pub assume_specification[ String::push ](s: &mut String, c: char)
    ensures
        final(s)@ == old(s)@.push(c),
;

/// Whether two strings have the same characters.
pub fn same(a: &str, b: &str) -> (r: bool)
    ensures
        r == (a@ == b@),
{
    a.to_owned() == b.to_owned()
}

pub fn chars_of(s: &str) -> (v: Vec<char>)
    ensures
        v@ == s@,
{
    let mut v: Vec<char> = Vec::new();
    for c in it: s.chars()
        invariant
            v@ == it.seq().take(it.index() as int),
            it.seq() == s@,
    {
        v.push(c);
    }
    v
}

/// The characters from `from` up to `to`, as a string.
pub fn slice(v: &Vec<char>, from: usize, to: usize) -> (r: String)
    requires
        from <= to <= v@.len(),
    ensures
        r@ == v@.subrange(from as int, to as int),
{
    let mut r: String = String::new();
    let mut i: usize = from;
    while i < to
        invariant
            from <= i <= to <= v@.len(),
            r@ == v@.subrange(from as int, i as int),
        decreases to - i,
    {
        r.push(v[i]);
        i = i + 1;
    }
    r
}

pub fn cat2(a: &str, b: &str) -> (r: String)
    ensures
        r@ == a@ + b@,
{
    let mut r: String = a.to_owned();
    r.append(b);
    r
}

pub fn cat3(a: &str, b: &str, c: &str) -> (r: String)
    ensures
        r@ == a@ + b@ + c@,
{
    let mut r: String = a.to_owned();
    r.append(b);
    r.append(c);
    r
}

pub fn cat4(a: &str, b: &str, c: &str, d: &str) -> (r: String)
    ensures
        r@ == a@ + b@ + c@ + d@,
{
    let mut r: String = cat3(a, b, c);
    r.append(d);
    r
}

pub fn cat5(a: &str, b: &str, c: &str, d: &str, e: &str) -> (r: String)
    ensures
        r@ == a@ + b@ + c@ + d@ + e@,
{
    let mut r: String = cat4(a, b, c, d);
    r.append(e);
    r
}

pub fn cat6(a: &str, b: &str, c: &str, d: &str, e: &str, f: &str) -> (r: String)
    ensures
        r@ == a@ + b@ + c@ + d@ + e@ + f@,
{
    let mut r: String = cat5(a, b, c, d, e);
    r.append(f);
    r
}

pub fn cat7(a: &str, b: &str, c: &str, d: &str, e: &str, f: &str, g: &str) -> (r: String)
    ensures
        r@ == a@ + b@ + c@ + d@ + e@ + f@ + g@,
{
    let mut r: String = cat6(a, b, c, d, e, f);
    r.append(g);
    r
}

/// Whether `x` is one of the texts.
pub fn has(list: &Vec<String>, x: &str) -> (r: bool)
    ensures
        r == list.deep_view().contains(x@),
{
    let ghost all = list.deep_view();
    let mut i: usize = 0;
    while i < list.len()
        invariant
            i <= list@.len(),
            all == list.deep_view(),
            forall|k: int| 0 <= k < i ==> all[k] != x@,
        decreases list@.len() - i,
    {
        assert(all[i as int] == list@[i as int]@);
        if same(&list[i], x) {
            return true;
        }
        i = i + 1;
    }
    false
}

/// Adds a line.
pub fn add_line(out: &mut Vec<String>, line: String)
    ensures
        final(out).deep_view() == old(out).deep_view() + seq![line@],
{
    let ghost before = out.deep_view();
    let ghost l = line@;
    out.push(line);
    assert(out.deep_view() =~= before + seq![l]);
}

/// The text, if there is one.
pub fn opt_str(s: &Option<String>) -> (r: Option<&str>)
    ensures
        match r {
            Some(t) => s.deep_view() == Some(t@),
            None => s is None,
        },
{
    match s {
        Some(t) => Some(t.as_str()),
        None => None,
    }
}

/// The texts, each as a string of its own.
pub fn owned(list: Vec<&str>) -> (r: Vec<String>)
    ensures
        r.deep_view() == list.deep_view(),
{
    let mut r: Vec<String> = Vec::new();
    let mut i: usize = 0;
    while i < list.len()
        invariant
            i <= list@.len(),
            r@.len() == i,
            forall|k: int| 0 <= k < i ==> #[trigger] r@[k]@ == list@[k]@,
        decreases list@.len() - i,
    {
        r.push(list[i].to_owned());
        i = i + 1;
    }
    assert(r.deep_view() =~= list.deep_view());
    r
}

pub fn is_white(c: char) -> (r: bool)
    ensures
        r == chars::is_white(c),
{
    ('\u{9}' <= c && c <= '\u{d}') || c == ' ' || c == '\u{85}' || c == '\u{a0}' || c == '\u{1680}'
        || ('\u{2000}' <= c && c <= '\u{200a}') || c == '\u{2028}' || c == '\u{2029}' || c
        == '\u{202f}' || c == '\u{205f}' || c == '\u{3000}'
}

pub fn trim_start(s: &str) -> (r: String)
    ensures
        r@ == chars::trim_start(s@),
{
    let v: Vec<char> = chars_of(s);
    let mut i: usize = 0;
    while i < v.len() && is_white(v[i])
        invariant
            i <= v@.len(),
            forall|k: int| 0 <= k < i ==> chars::is_white(v@[k]),
        decreases v@.len() - i,
    {
        i = i + 1;
    }
    proof {
        chars::lemma_trim_start_is(s@, i as int);
        assert(s@.skip(i as int) =~= v@.subrange(i as int, v@.len() as int));
    }
    slice(&v, i, v.len())
}

fn trim_end(s: &str) -> (r: String)
    ensures
        r@ == chars::trim_end(s@),
{
    let v: Vec<char> = chars_of(s);
    let mut i: usize = v.len();
    while i > 0 && is_white(v[i - 1])
        invariant
            i <= v@.len(),
            forall|k: int| i <= k < v@.len() ==> chars::is_white(v@[k]),
        decreases i,
    {
        i = i - 1;
    }
    proof {
        chars::lemma_trim_end_is(s@, i as int);
    }
    slice(&v, 0, i)
}

pub fn trim(s: &str) -> (r: String)
    ensures
        r@ == chars::trim(s@),
{
    let t: String = trim_start(s);
    trim_end(&t)
}

/// Whether nothing but white space stands in `s`.
pub fn is_blank(s: &str) -> (r: bool)
    ensures
        r == (chars::trim(s@).len() == 0),
{
    let t: String = trim(s);
    t.as_str().is_empty()
}

pub fn unquoted(s: &str) -> (r: String)
    ensures
        r@ == chars::unquoted(s@),
{
    let v: Vec<char> = chars_of(s);
    let mut i: usize = 0;
    while i < v.len() && v[i] == '"'
        invariant
            i <= v@.len(),
            forall|k: int| 0 <= k < i ==> v@[k] == '"',
        decreases v@.len() - i,
    {
        i = i + 1;
    }
    let mut j: usize = v.len();
    while j > i && v[j - 1] == '"'
        invariant
            i <= j <= v@.len(),
            forall|k: int| j <= k < v@.len() ==> v@[k] == '"',
        decreases j,
    {
        j = j - 1;
    }
    proof {
        chars::lemma_unquote_start_is(s@, i as int);
        let t = s@.skip(i as int);
        assert forall|k: int| j - i <= k < t.len() implies t[k] == '"' by {
            assert(t[k] == v@[k + i]);
        }
        chars::lemma_unquote_end_is(t, j - i);
        assert(t.take(j - i) =~= v@.subrange(i as int, j as int));
    }
    slice(&v, i, j)
}

/// Whether the characters from `at` on start with `part`.
fn matches_at(v: &Vec<char>, at: usize, part: &Vec<char>) -> (r: bool)
    requires
        at <= v@.len(),
    ensures
        r == chars::starts_with(v@.skip(at as int), part@),
{
    let n: usize = v.len();
    if part.len() > n - at {
        return false;
    }
    let mut i: usize = 0;
    while i < part.len()
        invariant
            n == v@.len(),
            at <= n,
            i <= part@.len() <= n - at,
            forall|k: int| 0 <= k < i ==> v@[at + k] == part@[k],
        decreases part@.len() - i,
    {
        if v[at + i] != part[i] {
            proof {
                assert(v@.skip(at as int).take(part@.len() as int)[i as int] != part@[i as int]);
            }
            return false;
        }
        i = i + 1;
    }
    proof {
        assert(v@.skip(at as int).take(part@.len() as int) =~= part@);
    }
    true
}

pub fn starts_with(s: &str, prefix: &str) -> (r: bool)
    ensures
        r == chars::starts_with(s@, prefix@),
{
    let v: Vec<char> = chars_of(s);
    let p: Vec<char> = chars_of(prefix);
    assert(v@.skip(0) =~= v@);
    matches_at(&v, 0, &p)
}

pub fn ends_with(s: &str, suffix: &str) -> (r: bool)
    ensures
        r == chars::ends_with(s@, suffix@),
{
    let v: Vec<char> = chars_of(s);
    let p: Vec<char> = chars_of(suffix);
    if p.len() > v.len() {
        return false;
    }
    let at: usize = v.len() - p.len();
    proof {
        let t = s@.skip(at as int);
        assert(t.take(p@.len() as int) =~= t);
    }
    matches_at(&v, at, &p)
}

pub fn contains(s: &str, part: &str) -> (r: bool)
    ensures
        r == chars::contains(s@, part@),
{
    let v: Vec<char> = chars_of(s);
    let p: Vec<char> = chars_of(part);
    let mut i: usize = 0;
    while i < v.len()
        invariant
            v@ == s@,
            p@ == part@,
            i <= v@.len(),
            forall|k: int| 0 <= k < i ==> !chars::starts_with(#[trigger] v@.skip(k), p@),
        decreases v@.len() - i,
    {
        if matches_at(&v, i, &p) {
            return true;
        }
        i = i + 1;
    }
    matches_at(&v, i, &p)
}

pub fn strip_prefix(s: &str, prefix: &str) -> (r: Option<String>)
    ensures
        r.deep_view() == chars::strip_prefix(s@, prefix@),
{
    let v: Vec<char> = chars_of(s);
    let p: Vec<char> = chars_of(prefix);
    assert(v@.skip(0) =~= v@);
    if matches_at(&v, 0, &p) {
        proof {
            assert(s@.skip(p@.len() as int) =~= v@.subrange(p@.len() as int, v@.len() as int));
        }
        Some(slice(&v, p.len(), v.len()))
    } else {
        None
    }
}

/// Where `c` first occurs from `from` on; the length of `v` if it does not.
fn position(v: &Vec<char>, from: usize, c: char) -> (i: usize)
    requires
        from <= v@.len(),
    ensures
        from <= i <= v@.len(),
        i - from == chars::position(v@.skip(from as int), c),
        i < v@.len() ==> v@[i as int] == c,
{
    let mut i: usize = from;
    while i < v.len() && v[i] != c
        invariant
            from <= i <= v@.len(),
            forall|k: int| from <= k < i ==> v@[k] != c,
        decreases v@.len() - i,
    {
        i = i + 1;
    }
    proof {
        let t = v@.skip(from as int);
        assert forall|k: int| 0 <= k < i - from implies t[k] != c by {
            assert(t[k] == v@[k + from]);
        }
        chars::lemma_position_is(t, c, i - from);
    }
    i
}

pub fn split_once(s: &str, c: char) -> (r: Option<(String, String)>)
    ensures
        r is Some <==> chars::split_once(s@, c) is Some,
        r matches Some((a, b)) ==> chars::split_once(s@, c) == Some((a@, b@)),
{
    let v: Vec<char> = chars_of(s);
    let i: usize = position(&v, 0, c);
    assert(v@.skip(0) =~= v@);
    if i < v.len() {
        proof {
            assert(s@.take(i as int) =~= v@.subrange(0, i as int));
            assert(s@.skip(i + 1) =~= v@.subrange(i + 1, v@.len() as int));
        }
        Some((slice(&v, 0, i), slice(&v, i + 1, v.len())))
    } else {
        None
    }
}

pub fn before(s: &str, c: char) -> (r: String)
    ensures
        r@ == chars::before(s@, c),
{
    let v: Vec<char> = chars_of(s);
    let i: usize = position(&v, 0, c);
    proof {
        assert(v@.skip(0) =~= v@);
        assert(s@.take(i as int) =~= v@.subrange(0, i as int));
    }
    slice(&v, 0, i)
}

pub fn lines(s: &str) -> (r: Vec<String>)
    ensures
        r.deep_view() == chars::lines(s@),
{
    let v: Vec<char> = chars_of(s);
    let mut out: Vec<String> = Vec::new();
    let mut start: usize = 0;
    proof {
        assert(v@.skip(0) =~= v@);
        assert(out.deep_view() + chars::lines(v@) =~= chars::lines(v@));
    }
    while start < v.len()
        invariant
            v@ == s@,
            start <= v@.len(),
            out.deep_view() + chars::lines(v@.skip(start as int)) == chars::lines(s@),
        decreases v@.len() - start,
    {
        let i: usize = position(&v, start, '\n');
        let ghost rest = v@.skip(start as int);
        let ghost done = out.deep_view();
        if i == v.len() {
            proof {
                assert(v@.subrange(start as int, i as int) =~= rest);
                assert(v@.skip(i as int) =~= Seq::empty());
            }
            out.push(slice(&v, start, i));
            proof {
                assert(out.deep_view() =~= done.push(rest));
                assert(out.deep_view() + chars::lines(v@.skip(i as int)) =~= done
                    + chars::lines(rest));
            }
            start = i;
        } else {
            let end: usize = if i > start && v[i - 1] == '\r' {
                i - 1
            } else {
                i
            };
            proof {
                let line = rest.take(i - start);
                assert(line.len() > 0 ==> line.last() == v@[i - 1]);
                assert(v@.subrange(start as int, end as int) =~= chars::without_cr(line));
                assert(v@.skip(i + 1) =~= rest.skip(i - start + 1));
            }
            out.push(slice(&v, start, end));
            proof {
                assert(out.deep_view() =~= done.push(
                    chars::without_cr(rest.take(i - start)),
                ));
                assert(out.deep_view() + chars::lines(v@.skip(i + 1)) =~= done
                    + chars::lines(rest));
            }
            start = i + 1;
        }
    }
    proof {
        assert(v@.skip(start as int) =~= Seq::empty());
        assert(out.deep_view() + chars::lines(v@.skip(start as int)) =~= out.deep_view());
    }
    out
}

/// Each line followed by a line feed.
pub fn unlines(list: &Vec<String>) -> (r: String)
    ensures
        r@ == chars::unlines(list.deep_view()),
{
    let ghost all = list.deep_view();
    let mut r: String = String::new();
    let mut i: usize = 0;
    assert(r@ =~= chars::unlines(all.take(0)));
    while i < list.len()
        invariant
            i <= list@.len(),
            all == list.deep_view(),
            r@ == chars::unlines(all.take(i as int)),
        decreases list@.len() - i,
    {
        let ghost before = r@;
        proof {
            let t = all.take(i + 1);
            assert(t.drop_last() =~= all.take(i as int));
            assert(t.last() == list@[i as int]@);
        }
        r.append(&list[i]);
        r.push('\n');
        assert(r@ =~= before + list@[i as int]@.push('\n'));
        i = i + 1;
    }
    assert(all.take(i as int) =~= all);
    r
}

pub fn first_line(s: &str) -> (r: String)
    ensures
        r@ == chars::first_line(s@),
{
    let ls: Vec<String> = lines(s);
    if ls.len() > 0 {
        assert(ls.deep_view()[0] == ls@[0]@);
        ls[0].clone()
    } else {
        String::new()
    }
}

pub fn split(s: &str, c: char) -> (r: Vec<String>)
    ensures
        r.deep_view() == chars::split(s@, c),
{
    let v: Vec<char> = chars_of(s);
    let mut out: Vec<String> = Vec::new();
    let mut start: usize = 0;
    proof {
        assert(v@.skip(0) =~= v@);
        assert(out.deep_view() + chars::split(v@, c) =~= chars::split(v@, c));
    }
    loop
        invariant
            v@ == s@,
            start <= v@.len(),
            out.deep_view() + chars::split(v@.skip(start as int), c) == chars::split(s@, c),
        decreases v@.len() - start,
    {
        let i: usize = position(&v, start, c);
        let ghost rest = v@.skip(start as int);
        let ghost done = out.deep_view();
        proof {
            assert(v@.subrange(start as int, i as int) =~= rest.take(i - start));
        }
        out.push(slice(&v, start, i));
        assert(out.deep_view() =~= done.push(rest.take(i - start)));
        if i == v.len() {
            proof {
                assert(rest.take(i - start) =~= rest);
                assert(out.deep_view() =~= done + chars::split(rest, c));
            }
            return out;
        }
        proof {
            assert(v@.skip(i + 1) =~= rest.skip(i - start + 1));
            assert(out.deep_view() + chars::split(v@.skip(i + 1), c) =~= done + chars::split(
                rest,
                c,
            ));
        }
        start = i + 1;
    }
}

pub fn words(s: &str) -> (r: Vec<String>)
    ensures
        r.deep_view() == chars::words(s@),
{
    let v: Vec<char> = chars_of(s);
    let mut out: Vec<String> = Vec::new();
    let mut start: usize = 0;
    proof {
        assert(v@.skip(0) =~= v@);
        assert(out.deep_view() + chars::words(v@) =~= chars::words(v@));
    }
    while start < v.len()
        invariant
            v@ == s@,
            start <= v@.len(),
            out.deep_view() + chars::words(v@.skip(start as int)) == chars::words(s@),
        decreases v@.len() - start,
    {
        let ghost rest = v@.skip(start as int);
        let ghost done = out.deep_view();
        let mut a: usize = start;
        while a < v.len() && is_white(v[a])
            invariant
                start <= a <= v@.len(),
                forall|k: int| start <= k < a ==> chars::is_white(v@[k]),
            decreases v@.len() - a,
        {
            a = a + 1;
        }
        let mut b: usize = a;
        while b < v.len() && !is_white(v[b])
            invariant
                a <= b <= v@.len(),
                forall|k: int| a <= k < b ==> !chars::is_white(v@[k]),
            decreases v@.len() - b,
        {
            b = b + 1;
        }
        let ghost t = v@.skip(a as int);
        proof {
            assert forall|k: int| 0 <= k < a - start implies chars::is_white(rest[k]) by {
                assert(rest[k] == v@[k + start]);
            }
            chars::lemma_trim_start_is(rest, a - start);
            assert(rest.skip(a - start) =~= t);
            assert forall|k: int| 0 <= k < b - a implies !chars::is_white(t[k]) by {
                assert(t[k] == v@[k + a]);
            }
            chars::lemma_word_end_is(t, b - a);
        }
        if a < v.len() {
            proof {
                assert(v@.subrange(a as int, b as int) =~= t.take(b - a));
                assert(v@.skip(b as int) =~= t.skip(b - a));
            }
            out.push(slice(&v, a, b));
            proof {
                assert(out.deep_view() =~= done.push(t.take(b - a)));
                assert(out.deep_view() + chars::words(v@.skip(b as int)) =~= done + chars::words(
                    rest,
                ));
            }
        } else {
            proof {
                let none = v@.skip(b as int);
                assert(none =~= Seq::empty());
                assert(chars::words(none) == Seq::<Seq<char>>::empty());
                assert(chars::words(rest) == Seq::<Seq<char>>::empty());
            }
        }
        start = b;
    }
    proof {
        let none = v@.skip(start as int);
        assert(none =~= Seq::empty());
        assert(chars::words(none) == Seq::<Seq<char>>::empty());
        assert(out.deep_view() + chars::words(none) =~= out.deep_view());
    }
    out
}

pub fn join(list: &Vec<String>, sep: &str) -> (r: String)
    ensures
        r@ == chars::join(list.deep_view(), sep@),
{
    let mut r: String = String::new();
    let ghost all = list.deep_view();
    let mut i: usize = 0;
    while i < list.len()
        invariant
            all == list.deep_view(),
            i <= list@.len(),
            r@ == chars::join(all.take(i as int), sep@),
        decreases list@.len() - i,
    {
        proof {
            assert(all.take(i + 1).drop_last() =~= all.take(i as int));
            assert(all.take(i + 1).last() == list@[i as int]@);
        }
        if i > 0 {
            r.append(sep);
            r.append(&list[i]);
        } else {
            r = list[i].clone();
        }
        i = i + 1;
    }
    proof {
        assert(all.take(i as int) =~= all);
    }
    r
}

fn digit(d: u8) -> (c: char)
    requires
        d < 10,
    ensures
        c == chars::digit(d as nat),
{
    (48u8 + d) as char
}

/// `n` in decimal notation.
pub fn decimal(n: u128) -> (r: String)
    ensures
        r@ == chars::decimal(n as nat),
    decreases n,
{
    if n < 10 {
        let mut r: String = String::new();
        r.push(digit(n as u8));
        assert(r@ =~= seq![chars::digit(n as nat)]);
        r
    } else {
        let mut r: String = decimal(n / 10);
        r.push(digit((n % 10) as u8));
        r
    }
}

/// The number that `s` spells, if it does and the number is no more than `max`.
pub fn parse_up_to(s: &str, max: u64) -> (r: Option<u64>)
    ensures
        r matches Some(n) ==> n <= max && chars::parsed(s@) == Some(n as nat),
        r is None ==> (chars::parsed(s@) matches Some(n) ==> n > max),
{
    let v: Vec<char> = chars_of(s);
    let from: usize = if v.len() > 0 && v[0] == '+' {
        1
    } else {
        0
    };
    let ghost d = v@.skip(from as int);
    proof {
        assert(v@.skip(0) =~= v@);
    }
    if from == v.len() {
        return None;
    }
    let mut n: u64 = 0;
    let mut i: usize = from;
    let mut fits: bool = true;
    while i < v.len()
        invariant
            from <= i <= v@.len(),
            d == v@.skip(from as int),
            forall|k: int| 0 <= k < i - from ==> chars::is_digit(#[trigger] d[k]),
            fits ==> n <= max && n == chars::digits_value(d.take(i - from)),
            !fits ==> chars::digits_value(d.take(i - from)) > max,
            d == chars::unsigned(s@),
            d.len() > 0,
        decreases v@.len() - i,
    {
        let c: char = v[i];
        proof {
            assert(d[i - from] == c);
        }
        if c < '0' || c > '9' {
            return None;
        }
        let k: u64 = (c as u32 - '0' as u32) as u64;
        proof {
            let t = d.take(i - from + 1);
            assert(t.drop_last() =~= d.take(i - from));
            assert(t.last() == c);
        }
        if fits && n <= max / 10 && k <= max - n * 10 {
            n = n * 10 + k;
        } else {
            fits = false;
        }
        i = i + 1;
    }
    proof {
        assert(d.take(i - from) =~= d);
    }
    if fits {
        Some(n)
    } else {
        None
    }
}

pub fn padded(s: &str, width: usize) -> (r: String)
    ensures
        r@ == chars::padded(s@, width as nat),
{
    let mut r: String = s.to_owned();
    let mut n: usize = s.unicode_len();
    let ghost from = n;
    while n < width
        invariant
            from == s@.len(),
            from <= n,
            n <= width || n == from,
            r@ == s@ + chars::spaces((n - from) as nat),
        decreases width - n,
    {
        r.push(' ');
        n = n + 1;
        assert(r@ =~= s@ + chars::spaces((n - from) as nat));
    }
    assert(n == from ==> r@ =~= s@);
    r
}

pub fn replaced(s: &str, c: char, by: &str) -> (r: String)
    ensures
        r@ == chars::replaced(s@, c, by@),
{
    let v: Vec<char> = chars_of(s);
    let mut r: String = String::new();
    let mut i: usize = 0;
    while i < v.len()
        invariant
            v@ == s@,
            i <= v@.len(),
            r@ == chars::replaced(v@.take(i as int), c, by@),
        decreases v@.len() - i,
    {
        proof {
            let t = v@.take(i + 1);
            assert(t.drop_last() =~= v@.take(i as int));
            assert(t.last() == v@[i as int]);
        }
        if v[i] == c {
            r.append(by);
        } else {
            let ghost before = r@;
            r.push(v[i]);
            assert(r@ =~= before + seq![v@[i as int]]);
        }
        i = i + 1;
    }
    proof {
        assert(v@.take(i as int) =~= v@);
    }
    r
}

/// Whether `a` stands before `b` in the order of their characters.
pub fn precedes(a: &str, b: &str) -> (r: bool)
    ensures
        r == chars::before_in_order(a@, b@),
{
    let x: Vec<char> = chars_of(a);
    let y: Vec<char> = chars_of(b);
    let mut i: usize = 0;
    proof {
        assert(x@.skip(0) =~= x@);
        assert(y@.skip(0) =~= y@);
    }
    while i < x.len() && i < y.len() && x[i] == y[i]
        invariant
            i <= x@.len(),
            i <= y@.len(),
            chars::before_in_order(x@.skip(i as int), y@.skip(i as int))
                == chars::before_in_order(a@, b@),
        decreases x@.len() - i,
    {
        proof {
            assert(x@.skip(i as int).drop_first() =~= x@.skip(i + 1));
            assert(y@.skip(i as int).drop_first() =~= y@.skip(i + 1));
        }
        i = i + 1;
    }
    if i == y.len() {
        false
    } else if i == x.len() {
        true
    } else {
        x[i] < y[i]
    }
}

/// The length of `s` in UTF-8.
pub fn byte_len(s: &str) -> (n: usize)
    ensures
        n == vstd::utf8::encode_utf8(s@).len(),
{
    s.as_bytes().len()
}

/// The first `n` characters of `s`; all of it if it has no more.
pub fn first_chars(s: &str, n: usize) -> (r: String)
    ensures
        r@ == (if s@.len() <= n {
            s@
        } else {
            s@.take(n as int)
        }),
{
    let v: Vec<char> = chars_of(s);
    let to: usize = if v.len() <= n {
        v.len()
    } else {
        n
    };
    assert(v@.subrange(0, v@.len() as int) =~= v@);
    slice(&v, 0, to)
}

} // verus!
