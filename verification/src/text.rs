//! Text as sequences of characters: the string operations that the rest of
//! the library is stated and built with.

use vstd::prelude::*;
use vstd::string::*;

verus! {

/// `String::push` appends one character at the end.
pub assume_specification[ String::push ](s: &mut String, c: char)
    ensures
        final(s)@ == old(s)@.push(c),
;

/// What is kept of a list with one item more.
pub proof fn lemma_filter_push<T>(s: Seq<T>, x: T, p: spec_fn(T) -> bool)
    ensures
        s.push(x).filter(p) == if p(x) {
            s.filter(p).push(x)
        } else {
            s.filter(p)
        },
{
    reveal(Seq::filter);
    assert(s.push(x).drop_last() =~= s);
}

/// An item is kept exactly where it is in the list and the condition holds of
/// it.
pub proof fn lemma_filter_contains<T>(s: Seq<T>, p: spec_fn(T) -> bool, x: T)
    ensures
        s.filter(p).contains(x) <==> s.contains(x) && p(x),
    decreases s.len(),
{
    reveal(Seq::filter);
    if s.len() > 0 {
        let head = s.drop_last();
        let kept = head.filter(p);
        lemma_filter_contains(head, p, x);
        assert(s =~= head.push(s.last()));
        assert(head.contains(x) ==> s.contains(x)) by {
            if head.contains(x) {
                assert(s[head.index_of(x)] == x);
            }
        }
        assert(s.contains(x) ==> head.contains(x) || x == s.last()) by {
            if s.contains(x) {
                let i = s.index_of(x);
                if i < head.len() {
                    assert(head[i] == x);
                }
            }
        }
        assert(s[s.len() - 1] == s.last());
        if p(s.last()) {
            let all = kept.push(s.last());
            assert(s.filter(p) =~= all);
            assert(all[kept.len() as int] == s.last());
            if kept.contains(x) {
                assert(all[kept.index_of(x)] == x);
            }
            if all.contains(x) {
                let i = all.index_of(x);
                if i < kept.len() {
                    assert(kept[i] == x);
                }
            }
        }
    } else {
        assert(s.filter(p).len() == 0);
    }
}

/// The characters of `s`, in order.
pub fn chars_of(s: &str) -> (v: Vec<char>)
    ensures
        v@ == s@,
{
    let mut v: Vec<char> = Vec::new();
    for c in it: s.chars()
        invariant
            v@ == it.seq().take(it.index() as int),
            it.seq() == s@,
    {
        v.push(c);
    }
    v
}

/// The string made of the characters `v[from..to]`.
pub fn string_of(v: &[char], from: usize, to: usize) -> (s: String)
    requires
        from <= to <= v@.len(),
    ensures
        s@ == v@.subrange(from as int, to as int),
{
    let mut s = String::new();
    let mut i: usize = from;
    while i < to
        invariant
            from <= i <= to <= v@.len(),
            s@ == v@.subrange(from as int, i as int),
        decreases to - i,
    {
        s.push(v[i]);
        i += 1;
        assert(v@.subrange(from as int, i as int) =~= v@.subrange(from as int, i - 1).push(
            v@[i - 1],
        ));
    }
    s
}

/// Whether `a` and `b` are the same text.
pub fn same(a: &str, b: &str) -> (r: bool)
    ensures
        r == (a@ == b@),
{
    a.to_owned() == b.to_owned()
}

/// The text of each string.
pub open spec fn texts(v: Seq<String>) -> Seq<Seq<char>> {
    v.map_values(|s: String| s@)
}

/// Whether `p` stands in `s` at position `i`.
pub open spec fn occurs_at(s: Seq<char>, p: Seq<char>, i: int) -> bool {
    0 <= i <= s.len() - p.len() && s.subrange(i, i + p.len()) == p
}

/// Whether `p` stands anywhere in `s`.
pub open spec fn contains(s: Seq<char>, p: Seq<char>) -> bool {
    exists|i: int| occurs_at(s, p, i)
}

/// Whether the characters of `p` stand in `s` from position `at` on.
fn stands_at(s: &[char], p: &[char], at: usize) -> (r: bool)
    requires
        at + p@.len() <= s@.len(),
    ensures
        r == occurs_at(s@, p@, at as int),
{
    let n: usize = s.len();
    let mut j: usize = 0;
    while j < p.len()
        invariant
            j <= p@.len(),
            n == s@.len(),
            at + p@.len() <= n,
            forall|k: int| 0 <= k < j ==> s@[at + k] == p@[k],
        decreases p@.len() - j,
    {
        if s[at + j] != p[j] {
            assert(s@.subrange(at as int, at + p@.len())[j as int] != p@[j as int]);
            return false;
        }
        j += 1;
    }
    assert(s@.subrange(at as int, at + p@.len()) =~= p@);
    true
}

/// Whether `needle` stands anywhere in `haystack`.
pub fn has(haystack: &str, needle: &str) -> (r: bool)
    ensures
        r == contains(haystack@, needle@),
{
    let s = chars_of(haystack);
    let p = chars_of(needle);
    if p.len() > s.len() {
        return false;
    }
    let last: usize = s.len() - p.len();
    let mut i: usize = 0;
    while i <= last
        invariant
            i <= last + 1,
            last + p@.len() == s@.len(),
            s@ == haystack@,
            p@ == needle@,
            forall|k: int| 0 <= k < i ==> !occurs_at(haystack@, needle@, k),
        decreases last + 1 - i,
    {
        if stands_at(s.as_slice(), p.as_slice(), i) {
            return true;
        }
        if i == last {
            assert forall|k: int| !occurs_at(haystack@, needle@, k) by {}
            return false;
        }
        i += 1;
    }
    false
}

/// What follows `prefix` in `s`, where `s` begins with it.
pub open spec fn after_prefix(s: Seq<char>, prefix: Seq<char>) -> Option<Seq<char>> {
    if prefix.is_prefix_of(s) {
        Some(s.skip(prefix.len() as int))
    } else {
        None
    }
}

/// What follows `prefix` in `s`, where `s` begins with it.
pub fn strip_prefix(s: &str, prefix: &str) -> (r: Option<String>)
    ensures
        r is Some <==> after_prefix(s@, prefix@) is Some,
        r is Some ==> Some(r->0@) == after_prefix(s@, prefix@),
{
    let c = chars_of(s);
    let p = chars_of(prefix);
    if p.len() <= c.len() && stands_at(c.as_slice(), p.as_slice(), 0) {
        assert(c@.subrange(0, p@.len() as int) =~= c@.take(p@.len() as int));
        let rest = string_of(c.as_slice(), p.len(), c.len());
        assert(rest@ =~= s@.skip(prefix@.len() as int));
        Some(rest)
    } else {
        proof {
            if prefix@.is_prefix_of(s@) {
                assert(s@.subrange(0, prefix@.len() as int) =~= prefix@);
            }
        }
        None
    }
}

/// The position of the first `c` in `s`, or the length of `s` where there is
/// none.
pub open spec fn first_at(s: Seq<char>, c: char) -> int
    decreases s.len(),
{
    if s.len() == 0 || s[0] == c {
        0
    } else {
        1 + first_at(s.skip(1), c)
    }
}

pub proof fn lemma_first_at(s: Seq<char>, c: char)
    ensures
        0 <= first_at(s, c) <= s.len(),
        first_at(s, c) < s.len() ==> s[first_at(s, c)] == c,
        forall|i: int| 0 <= i < first_at(s, c) ==> s[i] != c,
    decreases s.len(),
{
    if s.len() != 0 && s[0] != c {
        lemma_first_at(s.skip(1), c);
        assert forall|i: int| 0 <= i < first_at(s, c) implies s[i] != c by {
            if i > 0 {
                assert(s.skip(1)[i - 1] != c);
            }
        }
    }
}

pub proof fn lemma_first_at_is(s: Seq<char>, c: char, n: int)
    requires
        0 <= n <= s.len(),
        n < s.len() ==> s[n] == c,
        forall|i: int| 0 <= i < n ==> s[i] != c,
    ensures
        first_at(s, c) == n,
{
    lemma_first_at(s, c);
}

/// `s` without one carriage return at its end.
pub open spec fn without_cr(s: Seq<char>) -> Seq<char> {
    if s.len() > 0 && s.last() == '\r' {
        s.drop_last()
    } else {
        s
    }
}

/// The lines of `s`. A line ends at a line feed, which may follow a carriage
/// return; neither belongs to the line. The last line needs no line feed, and
/// a line feed at the very end starts no further line.
pub open spec fn lines(s: Seq<char>) -> Seq<Seq<char>>
    decreases s.len(),
    via lines_shorten
{
    let n = first_at(s, '\n');
    if s.len() == 0 {
        seq![]
    } else if n < s.len() {
        seq![without_cr(s.take(n))] + lines(s.skip(n + 1))
    } else {
        seq![s]
    }
}

#[via_fn]
proof fn lines_shorten(s: Seq<char>) {
    lemma_first_at(s, '\n');
}

/// The lines of `s`.
pub fn lines_of(s: &str) -> (v: Vec<String>)
    ensures
        texts(v@) == lines(s@),
{
    let c = chars_of(s);
    let mut v: Vec<String> = Vec::new();
    let mut start: usize = 0;
    let mut i: usize = 0;
    assert(s@.skip(0) =~= s@);
    assert(texts(v@) =~= seq![]);
    while i < c.len()
        invariant
            start <= i <= c@.len(),
            c@ == s@,
            forall|k: int| start <= k < i ==> c@[k] != '\n',
            texts(v@) + lines(s@.skip(start as int)) == lines(s@),
        decreases c@.len() - i,
    {
        if c[i] == '\n' {
            let end: usize = if i > start && c[i - 1] == '\r' { i - 1 } else { i };
            let line = string_of(c.as_slice(), start, end);
            proof {
                let rest = s@.skip(start as int);
                let n = i - start;
                assert forall|k: int| 0 <= k < n implies rest[k] != '\n' by {}
                assert(rest[n as int] == '\n');
                lemma_first_at_is(rest, '\n', n as int);
                assert(rest.skip(n + 1) =~= s@.skip(i + 1));
                assert(line@ =~= without_cr(rest.take(n as int)));
                assert(texts(v@.push(line)) =~= texts(v@).push(line@));
                assert(texts(v@.push(line)) + lines(s@.skip(i + 1)) =~= texts(v@) + (seq![line@]
                    + lines(s@.skip(i + 1))));
            }
            v.push(line);
            start = i + 1;
        }
        i += 1;
    }
    if start < c.len() {
        let line = string_of(c.as_slice(), start, c.len());
        proof {
            let rest = s@.skip(start as int);
            assert forall|k: int| 0 <= k < rest.len() implies rest[k] != '\n' by {}
            lemma_first_at_is(rest, '\n', rest.len() as int);
            assert(line@ =~= rest);
            assert(texts(v@.push(line)) =~= texts(v@) + seq![rest]);
        }
        v.push(line);
    } else {
        assert(s@.skip(start as int).len() == 0);
        assert(texts(v@) + lines(s@.skip(start as int)) =~= texts(v@));
    }
    v
}

/// The decimal digit for `d`.
pub open spec fn digit(d: int) -> char {
    (48 + d) as char
}

/// `n` written in decimal, without leading zeros.
pub open spec fn decimal(n: nat) -> Seq<char>
    decreases n,
{
    if n < 10 {
        seq![digit(n as int)]
    } else {
        decimal(n / 10).push(digit((n % 10) as int))
    }
}

/// `n` written in decimal, with a minus sign where it is negative.
pub open spec fn signed_decimal(n: int) -> Seq<char> {
    if n < 0 {
        seq!['-'] + decimal((-n) as nat)
    } else {
        decimal(n as nat)
    }
}

fn digit_char(d: u8) -> (c: char)
    requires
        d < 10,
    ensures
        c == digit(d as int),
{
    (48u8 + d) as char
}

/// `n` written in decimal.
pub fn number(n: u128) -> (s: String)
    ensures
        s@ == decimal(n as nat),
    decreases n,
{
    if n < 10 {
        let mut s = String::new();
        s.push(digit_char(n as u8));
        assert(s@ =~= decimal(n as nat));
        s
    } else {
        let mut s = number(n / 10);
        s.push(digit_char((n % 10) as u8));
        s
    }
}

/// `n` written in decimal.
pub fn signed_number(n: i32) -> (s: String)
    ensures
        s@ == signed_decimal(n as int),
{
    if n < 0 {
        let mut s = String::new();
        s.push('-');
        s.append(&number((-(n as i64)) as u128));
        s
    } else {
        number(n as u128)
    }
}

/// The text of each string slice.
pub open spec fn names(v: Seq<&str>) -> Seq<Seq<char>> {
    v.map_values(|s: &str| s@)
}

/// The order of texts: by the first differing character, and a proper prefix
/// before what it is a prefix of.
pub open spec fn precedes(a: Seq<char>, b: Seq<char>) -> bool
    decreases a.len(),
{
    if b.len() == 0 {
        false
    } else if a.len() == 0 {
        true
    } else if a[0] != b[0] {
        (a[0] as int) < (b[0] as int)
    } else {
        precedes(a.skip(1), b.skip(1))
    }
}

/// No text precedes itself, and of two different texts exactly one precedes
/// the other.
pub proof fn lemma_precedes_total(a: Seq<char>, b: Seq<char>)
    ensures
        a == b ==> !precedes(a, b),
        a != b ==> precedes(a, b) != precedes(b, a),
    decreases a.len(),
{
    if a.len() > 0 && b.len() > 0 {
        lemma_precedes_total(a.skip(1), b.skip(1));
        if a[0] == b[0] && a.skip(1) == b.skip(1) {
            assert(a =~= seq![a[0]] + a.skip(1));
            assert(b =~= seq![b[0]] + b.skip(1));
        }
    } else if a.len() == 0 && b.len() == 0 {
        assert(a =~= b);
    }
}

pub proof fn lemma_precedes_transitive(a: Seq<char>, b: Seq<char>, c: Seq<char>)
    requires
        precedes(a, b),
        precedes(b, c),
    ensures
        precedes(a, c),
    decreases a.len(),
{
    if a.len() > 0 && a[0] == b[0] && b[0] == c[0] {
        lemma_precedes_transitive(a.skip(1), b.skip(1), c.skip(1));
    }
}

proof fn lemma_precedes_from(a: Seq<char>, b: Seq<char>, n: int)
    requires
        0 <= n <= a.len(),
        n <= b.len(),
        forall|k: int| 0 <= k < n ==> a[k] == b[k],
    ensures
        precedes(a, b) == precedes(a.skip(n), b.skip(n)),
    decreases n,
{
    if n == 0 {
        assert(a.skip(0) =~= a);
        assert(b.skip(0) =~= b);
    } else {
        lemma_precedes_from(a.skip(1), b.skip(1), n - 1);
        assert(a.skip(1).skip(n - 1) =~= a.skip(n));
        assert(b.skip(1).skip(n - 1) =~= b.skip(n));
    }
}

fn smaller(a: char, b: char) -> (r: bool)
    ensures
        r == ((a as int) < (b as int)),
{
    (a as u32) < (b as u32)
}

/// Whether `a` comes before `b`.
pub fn before(a: &str, b: &str) -> (r: bool)
    ensures
        r == precedes(a@, b@),
{
    let x = chars_of(a);
    let y = chars_of(b);
    let mut i: usize = 0;
    while i < x.len() && i < y.len() && x[i] == y[i]
        invariant
            i <= x@.len(),
            i <= y@.len(),
            forall|k: int| 0 <= k < i ==> x@[k] == y@[k],
        decreases x@.len() - i,
    {
        i += 1;
    }
    proof {
        lemma_precedes_from(x@, y@, i as int);
    }
    if i >= y.len() {
        false
    } else if i >= x.len() {
        true
    } else {
        smaller(x[i], y[i])
    }
}

/// Whether each name precedes every later one.
pub open spec fn ascending(v: Seq<Seq<char>>) -> bool {
    forall|i: int, j: int| 0 <= i < j < v.len() ==> precedes(#[trigger] v[i], #[trigger] v[j])
}

/// Adds `name` to an ascending list of names, unless it is there already.
pub fn insert_name<'a>(v: &mut Vec<&'a str>, name: &'a str)
    requires
        ascending(names(old(v)@)),
    ensures
        ascending(names(final(v)@)),
        forall|s: Seq<char>| #[trigger]
            names(final(v)@).contains(s) <==> names(old(v)@).contains(s) || s == name@,
{
    let mut i: usize = 0;
    let ghost was = names(v@);
    while i < v.len() && before(v[i], name)
        invariant
            i <= v@.len(),
            v@ == old(v)@,
            was == names(v@),
            forall|k: int| 0 <= k < i ==> precedes(#[trigger] was[k], name@),
        decreases v@.len() - i,
    {
        assert(was[i as int] == v@[i as int]@);
        i += 1;
    }
    if i < v.len() && same(v[i], name) {
        assert(was[i as int] == name@);
        return;
    }
    v.insert(i, name);
    proof {
        let now = names(v@);
        assert(now =~= was.insert(i as int, name@));
        assert forall|a: int, b: int| 0 <= a < b < now.len() implies precedes(
            #[trigger] now[a],
            #[trigger] now[b],
        ) by {
            if a == i {
                lemma_precedes_total(was[i as int], name@);
                if b > i + 1 {
                    assert(precedes(was[i as int], was[b - 1]));
                    lemma_precedes_transitive(name@, was[i as int], was[b - 1]);
                }
            } else if a < i && b > i {
                assert(precedes(was[a], was[b - 1]));
            } else if a > i {
                assert(precedes(was[a - 1], was[b - 1]));
            } else if b < i {
                assert(precedes(was[a], was[b]));
            }
        }
        assert forall|s: Seq<char>| #[trigger]
            now.contains(s) <==> was.contains(s) || s == name@ by {
            if was.contains(s) {
                let k = was.index_of(s);
                assert(now[if k < i { k } else { k + 1 }] == s);
            }
            if now.contains(s) {
                let k = now.index_of(s);
                if k < i {
                    assert(was[k] == s);
                } else if k > i {
                    assert(was[k - 1] == s);
                }
            }
            assert(now[i as int] == name@);
        }
    }
}

/// The texts in `parts`, with `sep` between each two.
pub open spec fn join(parts: Seq<Seq<char>>, sep: Seq<char>) -> Seq<char>
    decreases parts.len(),
{
    if parts.len() == 0 {
        seq![]
    } else if parts.len() == 1 {
        parts[0]
    } else {
        join(parts.drop_last(), sep) + sep + parts.last()
    }
}

/// The texts in `parts`, with `sep` between each two.
pub fn joined(parts: &Vec<String>, sep: &str) -> (s: String)
    ensures
        s@ == join(parts.deep_view(), sep@),
{
    let ghost all = parts.deep_view();
    let mut s = String::new();
    let mut i: usize = 0;
    assert(s@ =~= join(all.take(0), sep@));
    while i < parts.len()
        invariant
            i <= parts@.len(),
            all == parts.deep_view(),
            s@ == join(all.take(i as int), sep@),
        decreases parts@.len() - i,
    {
        proof {
            assert(all.take(i + 1).drop_last() =~= all.take(i as int));
            assert(all.take(i + 1).last() == parts@[i as int]@);
        }
        let ghost was = s@;
        if i > 0 {
            s.append(sep);
        }
        s.append(&parts[i]);
        assert(i == 0 ==> s@ =~= all.take(1)[0]);
        i += 1;
    }
    assert(all.take(i as int) =~= all);
    s
}

/// Whether `c` is an ASCII letter or digit.
pub open spec fn alphanumeric(c: char) -> bool {
    ||| '0' <= c <= '9'
    ||| 'A' <= c <= 'Z'
    ||| 'a' <= c <= 'z'
}

/// The ASCII letters and digits of `s`, in order.
pub open spec fn only_alphanumeric(s: Seq<char>) -> Seq<char> {
    s.filter(|c: char| alphanumeric(c))
}

/// The ASCII letters and digits of `s`, in order.
pub fn keep_alphanumeric(s: &str) -> (r: String)
    ensures
        r@ == only_alphanumeric(s@),
{
    let c = chars_of(s);
    let mut r = String::new();
    let mut i: usize = 0;
    assert(only_alphanumeric(c@.take(0)) =~= seq![]) by {
        reveal(Seq::filter);
    }
    while i < c.len()
        invariant
            i <= c@.len(),
            r@ == only_alphanumeric(c@.take(i as int)),
        decreases c@.len() - i,
    {
        let x: char = c[i];
        assert(only_alphanumeric(c@.take(i + 1)) == if alphanumeric(x) {
            only_alphanumeric(c@.take(i as int)).push(x)
        } else {
            only_alphanumeric(c@.take(i as int))
        }) by {
            reveal(Seq::filter);
            assert(c@.take(i + 1).drop_last() =~= c@.take(i as int));
        }
        if ('0' <= x && x <= '9') || ('A' <= x && x <= 'Z') || ('a' <= x && x <= 'z') {
            r.push(x);
        }
        i += 1;
    }
    assert(c@.take(i as int) =~= c@);
    r
}

/// Whether `c` is white space: the characters with Unicode's `White_Space`
/// property.
pub open spec fn white(c: char) -> bool {
    let n = c as int;
    ||| 0x9 <= n <= 0xd
    ||| n == 0x20
    ||| n == 0x85
    ||| n == 0xa0
    ||| n == 0x1680
    ||| 0x2000 <= n <= 0x200a
    ||| n == 0x2028
    ||| n == 0x2029
    ||| n == 0x202f
    ||| n == 0x205f
    ||| n == 0x3000
}

/// Whether `c` is white space.
pub fn is_white(c: char) -> (r: bool)
    ensures
        r == white(c),
{
    let n: u32 = c as u32;
    (0x9 <= n && n <= 0xd) || n == 0x20 || n == 0x85 || n == 0xa0 || n == 0x1680 || (0x2000 <= n
        && n <= 0x200a) || n == 0x2028 || n == 0x2029 || n == 0x202f || n == 0x205f || n == 0x3000
}

/// Whether `s` holds white space.
pub open spec fn has_white(s: Seq<char>) -> bool {
    exists|i: int| 0 <= i < s.len() && white(#[trigger] s[i])
}

/// Whether `s` holds white space.
pub fn contains_white(s: &str) -> (r: bool)
    ensures
        r == has_white(s@),
{
    let c = chars_of(s);
    let mut i: usize = 0;
    while i < c.len()
        invariant
            i <= c@.len(),
            c@ == s@,
            forall|k: int| 0 <= k < i ==> !white(#[trigger] c@[k]),
        decreases c@.len() - i,
    {
        if is_white(c[i]) {
            return true;
        }
        i += 1;
    }
    false
}

/// `s` with every `from` replaced by `to`.
pub open spec fn with_char(s: Seq<char>, from: char, to: char) -> Seq<char> {
    s.map_values(
        |c: char|
            if c == from {
                to
            } else {
                c
            },
    )
}

/// `s` with every `from` replaced by `to`.
pub fn replace_char(s: &str, from: char, to: char) -> (r: String)
    ensures
        r@ == with_char(s@, from, to),
{
    let c = chars_of(s);
    let mut r = String::new();
    let mut i: usize = 0;
    while i < c.len()
        invariant
            i <= c@.len(),
            c@ == s@,
            r@ == with_char(s@.take(i as int), from, to),
        decreases c@.len() - i,
    {
        let x: char = c[i];
        r.push(
            if x == from {
                to
            } else {
                x
            },
        );
        i += 1;
        assert(r@ =~= with_char(s@.take(i as int), from, to));
    }
    assert(s@.take(i as int) =~= s@);
    r
}

/// The number that decimal digits stand for.
pub open spec fn decimal_value(s: Seq<char>) -> int
    decreases s.len(),
{
    if s.len() == 0 {
        0
    } else {
        decimal_value(s.drop_last()) * 10 + (s.last() as int - 48)
    }
}

/// Reading a number back from its decimal digits.
pub proof fn lemma_decimal(n: nat)
    ensures
        decimal_value(decimal(n)) == n,
        decimal(n).len() > 0,
        forall|i: int| 0 <= i < decimal(n).len() ==> 48 <= #[trigger] decimal(n)[i] as int <= 57,
    decreases n,
{
    if n < 10 {
        let s = seq![digit(n as int)];
        assert(s.drop_last() =~= seq![]);
        assert(decimal_value(s.drop_last()) == 0);
    } else {
        lemma_decimal(n / 10);
        let s = decimal(n / 10).push(digit((n % 10) as int));
        assert(s.drop_last() =~= decimal(n / 10));
    }
}

/// A number can be told from its decimal digits where no further digit
/// follows them.
pub proof fn lemma_decimal_prefix(m: nat, n: nat, a: Seq<char>, b: Seq<char>)
    requires
        decimal(m) + a == decimal(n) + b,
        a.len() > 0 ==> a[0] == '_',
        b.len() > 0 ==> b[0] == '_',
    ensures
        m == n,
{
    lemma_decimal(m);
    lemma_decimal(n);
    let x = decimal(m);
    let y = decimal(n);
    let s = x + a;
    if x.len() < y.len() {
        assert(s[x.len() as int] == (y + b)[x.len() as int]);
        assert(s[x.len() as int] == y[x.len() as int]);
        assert(a.len() > 0);
        assert(s[x.len() as int] == a[0]);
    } else if y.len() < x.len() {
        assert(s[y.len() as int] == (y + b)[y.len() as int]);
        assert(s[y.len() as int] == x[y.len() as int]);
        assert(b.len() > 0);
        assert((y + b)[y.len() as int] == b[0]);
    } else {
        assert forall|i: int| 0 <= i < x.len() implies x[i] == y[i] by {
            assert(s[i] == x[i]);
            assert((y + b)[i] == y[i]);
        }
        assert(x =~= y);
    }
}

/// `s` without the white space at its start.
pub open spec fn trim_start(s: Seq<char>) -> Seq<char>
    decreases s.len(),
{
    if s.len() > 0 && white(s[0]) {
        trim_start(s.skip(1))
    } else {
        s
    }
}

/// `s` without the white space at its end.
pub open spec fn trim_end(s: Seq<char>) -> Seq<char>
    decreases s.len(),
{
    if s.len() > 0 && white(s.last()) {
        trim_end(s.drop_last())
    } else {
        s
    }
}

/// `s` without the white space at its start and at its end.
pub open spec fn trim(s: Seq<char>) -> Seq<char> {
    trim_end(trim_start(s))
}

/// `s` without the white space at its start and at its end.
pub fn trimmed(s: &str) -> (r: String)
    ensures
        r@ == trim(s@),
{
    let c = chars_of(s);
    let mut from: usize = 0;
    assert(c@.skip(0) =~= c@);
    while from < c.len() && is_white(c[from])
        invariant
            from <= c@.len(),
            trim_start(c@) == trim_start(c@.skip(from as int)),
        decreases c@.len() - from,
    {
        proof {
            assert(c@.skip(from as int)[0] == c@[from as int]);
            assert(c@.skip(from as int).skip(1) =~= c@.skip(from + 1));
        }
        from += 1;
    }
    let ghost start = c@.skip(from as int);
    proof {
        if from < c@.len() {
            assert(start[0] == c@[from as int]);
        }
        assert(trim_start(c@) == start);
    }
    let mut to: usize = c.len();
    assert(start.take(to - from) =~= start);
    while to > from && is_white(c[to - 1])
        invariant
            from <= to <= c@.len(),
            start == c@.skip(from as int),
            trim_end(start) == trim_end(start.take(to - from)),
        decreases to,
    {
        proof {
            let t = start.take(to - from);
            assert(t.last() == c@[to - 1]);
            assert(t.drop_last() =~= start.take(to - 1 - from));
        }
        to -= 1;
    }
    proof {
        let t = start.take(to - from);
        if to > from {
            assert(t.last() == c@[to - 1]);
        }
        assert(t =~= c@.subrange(from as int, to as int));
    }
    string_of(c.as_slice(), from, to)
}

/// The lines of `s`, each behind two spaces.
pub open spec fn indented(s: Seq<char>) -> Seq<char> {
    join(lines(s).map_values(|l: Seq<char>| "  "@ + l), "\n"@)
}

/// The lines of `s`, each behind two spaces.
pub fn indent(s: &str) -> (r: String)
    ensures
        r@ == indented(s@),
{
    let lines = lines_of(s);
    let mut out: Vec<String> = Vec::new();
    let mut i: usize = 0;
    while i < lines.len()
        invariant
            i <= lines@.len(),
            out@.len() == i,
            forall|k: int| 0 <= k < i ==> (#[trigger] out@[k])@ == "  "@ + lines@[k]@,
        decreases lines@.len() - i,
    {
        let mut line = "  ".to_owned();
        line.append(&lines[i]);
        out.push(line);
        i += 1;
    }
    assert(out.deep_view() =~= texts(lines@).map_values(|l: Seq<char>| "  "@ + l));
    joined(&out, "\n")
}

/// `n` times `c`.
pub open spec fn repeated(c: char, n: int) -> Seq<char> {
    Seq::new(n as nat, |i: int| c)
}

/// `s` behind as many spaces as it takes to reach `width` characters.
pub open spec fn padded(s: Seq<char>, width: int) -> Seq<char> {
    if s.len() < width {
        repeated(' ', width - s.len()) + s
    } else {
        s
    }
}

/// `n` times `c`.
pub fn repeat(c: char, n: usize) -> (s: String)
    ensures
        s@ == repeated(c, n as int),
{
    let mut s = String::new();
    let mut i: usize = 0;
    while i < n
        invariant
            i <= n,
            s@ == repeated(c, i as int),
        decreases n - i,
    {
        s.push(c);
        i += 1;
        assert(s@ =~= repeated(c, i as int));
    }
    s
}

/// `s` behind as many spaces as it takes to reach `width` characters.
pub fn pad(s: &str, width: usize) -> (r: String)
    ensures
        r@ == padded(s@, width as int),
{
    let n: usize = s.unicode_len();
    if n < width {
        let mut r = repeat(' ', width - n);
        r.append(s);
        r
    } else {
        s.to_owned()
    }
}

/// `s` in double quotes, with escapes, as `{:?}` writes it.
pub uninterp spec fn quoted(s: Seq<char>) -> Seq<char>;

/// The debug form of a `str`. It is a function of the text; which characters
/// it escapes is not stated.
#[verifier::external_body]
pub(crate) fn quote(s: &str) -> (r: String)
    ensures
        r@ == quoted(s@),
{
    format!("{s:?}")
}

/// The hexadecimal digit for `d`.
pub open spec fn hex(d: int) -> char {
    if d < 10 {
        digit(d)
    } else {
        (87 + d) as char
    }
}

/// The last `width` hexadecimal digits of `n`.
pub open spec fn hexadecimal(n: nat, width: nat) -> Seq<char>
    decreases width,
{
    if width == 0 {
        seq![]
    } else {
        hexadecimal(n / 16, (width - 1) as nat).push(hex((n % 16) as int))
    }
}

fn hex_char(d: u8) -> (c: char)
    requires
        d < 16,
    ensures
        c == hex(d as int),
{
    if d < 10 {
        digit_char(d)
    } else {
        (87u8 + d) as char
    }
}

/// The last `width` hexadecimal digits of `n`.
pub fn hex_number(n: u64, width: usize) -> (s: String)
    ensures
        s@ == hexadecimal(n as nat, width as nat),
    decreases width,
{
    if width == 0 {
        String::new()
    } else {
        let mut s = hex_number(n / 16, width - 1);
        s.push(hex_char((n % 16) as u8));
        s
    }
}

// ── laws ────────────────────────────────────────────────────────────────────

/// What stands in a part of a text stands in the text.
pub proof fn lemma_contains_within(a: Seq<char>, b: Seq<char>, c: Seq<char>, p: Seq<char>)
    requires
        contains(b, p),
    ensures
        contains(a + b + c, p),
{
    let i = choose|i: int| occurs_at(b, p, i);
    assert(occurs_at(a + b + c, p, a.len() + i)) by {
        assert((a + b + c).subrange(a.len() + i, a.len() + i + p.len()) =~= b.subrange(
            i,
            i + p.len(),
        ));
    }
}

/// A text stands in itself, with whatever in front of it and behind it.
pub proof fn lemma_stands(a: Seq<char>, b: Seq<char>, c: Seq<char>)
    ensures
        contains(a + b + c, b),
        contains(a + b, b),
        contains(b + c, b),
        contains(b, b),
{
    let none: Seq<char> = seq![];
    assert(b.subrange(0, b.len() as int) =~= b);
    assert(occurs_at(b, b, 0));
    lemma_contains_within(a, b, c, b);
    lemma_contains_within(a, b, none, b);
    assert(a + b + none =~= a + b);
    lemma_contains_within(none, b, c, b);
    assert(none + b + c =~= b + c);
}

/// Two texts behind the same one differ where they do.
pub proof fn lemma_same_tail(head: Seq<char>, a: Seq<char>, b: Seq<char>)
    ensures
        head + a == head + b ==> a == b,
{
    if head + a == head + b {
        assert((head + a).skip(head.len() as int) =~= a);
        assert((head + b).skip(head.len() as int) =~= b);
    }
}

/// What is written of two numbers differs where they do.
pub proof fn lemma_signed_differ(a: int, b: int)
    ensures
        signed_decimal(a) == signed_decimal(b) ==> a == b,
{
    law_decimal_read_back(0, a);
    law_decimal_read_back(0, b);
    if signed_decimal(a) == signed_decimal(b) {
        if a >= 0 && b < 0 {
            lemma_decimal(a as nat);
            assert(signed_decimal(a)[0] == '-');
        } else if a < 0 && b >= 0 {
            lemma_decimal(b as nat);
            assert(signed_decimal(b)[0] == '-');
        }
    }
}

/// The parts of a joined text stand in it in order, with the separator between
/// each two: joining is the same in one go and in two.
pub proof fn law_join_in_two_goes(a: Seq<Seq<char>>, b: Seq<Seq<char>>, sep: Seq<char>)
    requires
        a.len() > 0,
        b.len() > 0,
    ensures
        join(a + b, sep) == join(a, sep) + sep + join(b, sep),
        b.len() == 1 ==> join(b, sep) == b[0],
    decreases b.len(),
{
    assert((a + b).last() == b.last());
    if b.len() == 1 {
        assert((a + b).drop_last() =~= a);
    } else {
        law_join_in_two_goes(a, b.drop_last(), sep);
        assert((a + b).drop_last() =~= a + b.drop_last());
        assert(join(a + b, sep) =~= join(a, sep) + sep + join(b, sep));
    }
}

/// Each part stands in the joined text.
pub proof fn law_parts_stand_in_the_join(parts: Seq<Seq<char>>, sep: Seq<char>, i: int)
    requires
        0 <= i < parts.len(),
    ensures
        contains(join(parts, sep), parts[i]),
    decreases parts.len(),
{
    let none: Seq<char> = seq![];
    if parts.len() == 1 {
        assert(parts[0].subrange(0, parts[0].len() as int) =~= parts[0]);
        assert(occurs_at(parts[0], parts[0], 0));
    } else {
        let head = join(parts.drop_last(), sep);
        if i == parts.len() - 1 {
            assert(parts[i].subrange(0, parts[i].len() as int) =~= parts[i]);
            assert(occurs_at(parts[i], parts[i], 0));
            lemma_contains_within(head + sep, parts[i], none, parts[i]);
            assert(head + sep + parts[i] + none =~= head + sep + parts[i]);
        } else {
            law_parts_stand_in_the_join(parts.drop_last(), sep, i);
            assert(parts.drop_last()[i] == parts[i]);
            lemma_contains_within(none, head, sep + parts.last(), parts[i]);
            assert(none + head + (sep + parts.last()) =~= join(parts, sep));
        }
    }
}

/// A line that is put in front of a text, with the line feed that ends it, is
/// the first line of the whole, whether it ends in a carriage return or not;
/// a text without a line feed is one line, unless it is empty. No line holds a
/// line feed.
pub proof fn law_lines(line: Seq<char>, rest: Seq<char>)
    requires
        !line.contains('\n'),
    ensures
        line.len() == 0 || line.last() != '\r' ==> lines(line + seq!['\n'] + rest) == seq![line]
            + lines(rest),
        lines(line + seq!['\r', '\n'] + rest) == seq![line] + lines(rest),
        line.len() > 0 ==> lines(line) == seq![line],
        lines(seq![]) == Seq::<Seq<char>>::empty(),
{
    let n = line.len() as int;
    assert forall|i: int| 0 <= i < n implies line[i] != '\n' by {
        assert(line.contains(line[i]));
    }
    let s = line + seq!['\n'] + rest;
    assert(s[n] == '\n');
    lemma_first_at_is(s, '\n', n);
    assert(s.take(n) =~= line);
    assert(s.skip(n + 1) =~= rest);
    let t = line + seq!['\r', '\n'] + rest;
    assert(t[n] == '\r' && t[n + 1] == '\n');
    lemma_first_at_is(t, '\n', n + 1);
    assert(t.take(n + 1) =~= line.push('\r'));
    assert(line.push('\r').drop_last() =~= line);
    assert(t.skip(n + 2) =~= rest);
    lemma_first_at_is(line, '\n', n);
}

/// What is trimmed away is white space at the start and at the end, and all of
/// it: what is left neither begins nor ends with any.
pub proof fn law_trim(s: Seq<char>)
    ensures
        exists|from: int, to: int|
            0 <= from <= to <= s.len() && trim(s) == #[trigger] s.subrange(from, to) && (forall|i: int|
                0 <= i < from || to <= i < s.len() ==> white(#[trigger] s[i])),
        trim(s).len() > 0 ==> !white(trim(s)[0]) && !white(trim(s).last()),
{
    let t = trim_start(s);
    lemma_trim_start(s);
    lemma_trim_end(t);
    let from = s.len() - t.len();
    let to = from + trim_end(t).len();
    assert(trim(s) =~= s.subrange(from, to));
    assert forall|i: int| 0 <= i < from || to <= i < s.len() implies white(#[trigger] s[i]) by {
        if to <= i < s.len() {
            assert(t[i - from] == s[i]);
        }
    }
    if trim(s).len() > 0 {
        assert(trim(s)[0] == t[0]);
    }
}

proof fn lemma_trim_start(s: Seq<char>)
    ensures
        trim_start(s).len() <= s.len(),
        trim_start(s) == s.skip(s.len() - trim_start(s).len()),
        forall|i: int| 0 <= i < s.len() - trim_start(s).len() ==> white(#[trigger] s[i]),
        trim_start(s).len() > 0 ==> !white(trim_start(s)[0]),
    decreases s.len(),
{
    if s.len() > 0 && white(s[0]) {
        lemma_trim_start(s.skip(1));
        let n = s.len() - trim_start(s).len();
        assert(trim_start(s) =~= s.skip(n));
        assert forall|i: int| 0 <= i < n implies white(#[trigger] s[i]) by {
            if i > 0 {
                assert(s.skip(1)[i - 1] == s[i]);
            }
        }
    } else {
        assert(s.skip(0) =~= s);
    }
}

proof fn lemma_trim_end(s: Seq<char>)
    ensures
        trim_end(s).len() <= s.len(),
        trim_end(s) == s.take(trim_end(s).len() as int),
        forall|i: int| trim_end(s).len() <= i < s.len() ==> white(#[trigger] s[i]),
        trim_end(s).len() > 0 ==> !white(trim_end(s).last()),
    decreases s.len(),
{
    if s.len() > 0 && white(s.last()) {
        let head = s.drop_last();
        lemma_trim_end(head);
        assert(trim_end(s) =~= s.take(trim_end(s).len() as int));
        assert forall|i: int| trim_end(s).len() <= i < s.len() implies white(#[trigger] s[i]) by {
            if i < s.len() - 1 {
                assert(head[i] == s[i]);
            }
        }
    } else {
        assert(s.take(s.len() as int) =~= s);
    }
}

/// A number can be read back from its decimal text, and the sign from the
/// minus in front of it.
pub proof fn law_decimal_read_back(n: nat, k: int)
    ensures
        decimal_value(decimal(n)) == n,
        forall|i: int| 0 <= i < decimal(n).len() ==> '0' <= #[trigger] decimal(n)[i] <= '9',
        decimal(n).len() > 1 ==> decimal(n)[0] != '0',
        k >= 0 ==> decimal_value(signed_decimal(k)) == k,
        k < 0 ==> signed_decimal(k)[0] == '-' && decimal_value(signed_decimal(k).skip(1)) == -k,
    decreases n,
{
    lemma_decimal(n);
    if n >= 10 {
        law_decimal_read_back(n / 10, 0);
        assert(decimal(n)[0] == decimal(n / 10)[0]);
        if n / 10 < 10 {
            let d = (n / 10) as int;
            assert(decimal(n / 10)[0] == digit(d));
            assert(digit(d) as int == 48 + d && d > 0);
        } else {
            lemma_decimal(n / 10 / 10);
        }
    }
    if k >= 0 {
        lemma_decimal(k as nat);
    } else {
        lemma_decimal((-k) as nat);
        assert(signed_decimal(k).skip(1) =~= decimal((-k) as nat));
    }
}

/// The number that a hexadecimal digit stands for.
pub open spec fn hex_digit_value(c: char) -> int {
    if '0' <= c <= '9' {
        c as int - '0' as int
    } else {
        c as int - 'a' as int + 10
    }
}

/// The number that hexadecimal digits stand for.
pub open spec fn hex_value(s: Seq<char>) -> int
    decreases s.len(),
{
    if s.len() == 0 {
        0
    } else {
        hex_value(s.drop_last()) * 16 + hex_digit_value(s.last())
    }
}

/// What a number of hexadecimal digits can hold.
pub open spec fn hex_range(width: nat) -> int
    decreases width,
{
    if width == 0 {
        1
    } else {
        16 * hex_range((width - 1) as nat)
    }
}

/// A number that `width` hexadecimal digits can hold is read back from them,
/// and has no fewer of them.
pub proof fn law_hexadecimal_read_back(n: nat, width: nat)
    requires
        n < hex_range(width),
    ensures
        hexadecimal(n, width).len() == width,
        hex_value(hexadecimal(n, width)) == n,
    decreases width,
{
    if width > 0 {
        let rest = (width - 1) as nat;
        law_hexadecimal_read_back(n / 16, rest);
        let s = hexadecimal(n, width);
        assert(s.drop_last() =~= hexadecimal(n / 16, rest));
        assert(hex_digit_value(s.last()) == n % 16);
    }
}

/// A text that is padded ends in the text itself, has at least the width, and
/// no more where the text has less; what stands in front of it is spaces.
pub proof fn law_padded(s: Seq<char>, width: int)
    ensures
        padded(s, width).len() == if s.len() < width {
            width
        } else {
            s.len() as int
        },
        padded(s, width).skip(padded(s, width).len() - s.len()) == s,
        forall|i: int| 0 <= i < padded(s, width).len() - s.len() ==> #[trigger] padded(s, width)[i] == ' ',
{
    assert(padded(s, width).skip(padded(s, width).len() - s.len()) =~= s);
}

/// An indented text has the lines of the text, in order, each behind two
/// spaces.
pub proof fn law_indented(line: Seq<char>, rest: Seq<char>)
    requires
        !line.contains('\n'),
        line.len() == 0 || line.last() != '\r',
    ensures
        line.len() > 0 ==> indented(line) == seq![' ', ' '] + line,
        rest.len() > 0 ==> indented(line + seq!['\n'] + rest) == seq![' ', ' '] + line + seq!['\n']
            + indented(rest),
{
    reveal_strlit("  ");
    reveal_strlit("\n");
    let two = |l: Seq<char>| "  "@ + l;
    law_lines(line, rest);
    let first = seq![line].map_values(two);
    assert(first =~= seq!["  "@ + line]);
    assert("  "@ =~= seq![' ', ' ']);
    assert("\n"@ =~= seq!['\n']);
    if rest.len() > 0 {
        lemma_first_at(rest, '\n');
        assert(lines(rest).len() > 0);
        assert((seq![line] + lines(rest)).map_values(two) =~= first + lines(rest).map_values(two));
        law_join_in_two_goes(first, lines(rest).map_values(two), "\n"@);
    }
}

/// What follows a prefix is found exactly where the prefix stands in front.
pub proof fn law_prefix(s: Seq<char>, prefix: Seq<char>, rest: Seq<char>)
    ensures
        after_prefix(s, prefix) == Some(rest) <==> s == prefix + rest,
{
    if after_prefix(s, prefix) == Some(rest) {
        assert(s =~= prefix + rest);
    }
    if s == prefix + rest {
        assert(s.skip(prefix.len() as int) =~= rest);
    }
}

/// Replacing a character changes nothing but that character, each time it
/// stands in the text.
pub proof fn law_replaced(s: Seq<char>, from: char, to: char)
    ensures
        with_char(s, from, to).len() == s.len(),
        forall|i: int|
            0 <= i < s.len() ==> #[trigger] with_char(s, from, to)[i] == if s[i] == from {
                to
            } else {
                s[i]
            },
{
}

/// Texts are ordered by the first character in which they differ, and a text
/// stands before every longer one that it begins.
pub proof fn law_order_of_texts(same: Seq<char>, a: Seq<char>, b: Seq<char>)
    ensures
        b.len() > 0 ==> precedes(same, same + b),
        a.len() > 0 && b.len() > 0 && (a[0] as int) < (b[0] as int) ==> precedes(
            same + a,
            same + b,
        ),
        !precedes(same, same),
    decreases same.len(),
{
    if same.len() == 0 {
        assert(same + a =~= a);
        assert(same + b =~= b);
    } else {
        law_order_of_texts(same.skip(1), a, b);
        assert((same + a).skip(1) =~= same.skip(1) + a);
        assert((same + b).skip(1) =~= same.skip(1) + b);
    }
}

/// The characters that are white space in ASCII are, and nothing that is shown
/// in ASCII is.
pub proof fn law_white_space(c: char)
    ensures
        c == ' ' || c == '\t' || c == '\n' || c == '\r' ==> white(c),
        '!' <= c <= '~' ==> !white(c),
{
}

/// What is kept of a text are its ASCII letters and digits, all of them and in
/// order.
pub proof fn law_letters_and_digits(a: Seq<char>, b: Seq<char>, c: char)
    ensures
        only_alphanumeric(a + b) == only_alphanumeric(a) + only_alphanumeric(b),
        only_alphanumeric(seq![c]) == if ('0' <= c <= '9') || ('A' <= c <= 'Z') || ('a' <= c
            <= 'z') {
            seq![c]
        } else {
            seq![]
        },
{
    let keep = |x: char| alphanumeric(x);
    Seq::filter_distributes_over_add(a, b, keep);
    let none: Seq<char> = seq![];
    assert(none.push(c) =~= seq![c]);
    lemma_filter_push(none, c, keep);
    reveal(Seq::filter);
    assert(none.filter(keep) =~= none);
}

} // verus!
