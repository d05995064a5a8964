//! Text helpers shared by the parsers and renderers of the library.
//!
//! Text is modelled as a sequence of characters; every function states its
//! result over that sequence.
use vstd::prelude::*;
use vstd::string::*;

verus! {

/// The characters that carry the Unicode `White_Space` property.
pub open spec fn white_space(c: char) -> bool {
    let n = c as int;
    ||| 0x9 <= n <= 0xD
    ||| n == 0x20
    ||| n == 0x85
    ||| n == 0xA0
    ||| n == 0x1680
    ||| 0x2000 <= n <= 0x200A
    ||| n == 0x2028
    ||| n == 0x2029
    ||| n == 0x202F
    ||| n == 0x205F
    ||| n == 0x3000
}

/// `char::is_whitespace`: true exactly for the characters with the
/// `White_Space` property of the Unicode Character Database.
pub assume_specification[ char::is_whitespace ](c: char) -> (r: bool)
    ensures
        r == white_space(c),
;

/// `String::push`: appends one character.
pub assume_specification[ String::push ](s: &mut String, c: char)
    ensures
        final(s)@ == old(s)@.push(c),
;

/// Equality of two string slices: true exactly when they hold the same
/// characters in the same order.
pub assume_specification[ <str as PartialEq<str>>::eq ](a: &str, b: &str) -> (r: bool)
    ensures
        r == (a@ == b@),
;

pub fn same(a: &str, b: &str) -> (r: bool)
    ensures
        r == (a@ == b@),
{
    *a == *b
}

/// The characters of `s`, in order.
pub fn chars_of(s: &str) -> (v: Vec<char>)
    ensures
        v@ == s@,
{
    let mut v: Vec<char> = Vec::new();
    for c in it: s.chars()
        invariant
            v@ == s@.take(it.index()),
            it.seq() == s@,
    {
        v.push(c);
    }
    v
}

/// The text made of the characters of `v` from `from` up to `to`.
pub fn text_of(v: &Vec<char>, from: usize, to: usize) -> (s: String)
    requires
        from <= to <= v@.len(),
    ensures
        s@ == v@.subrange(from as int, to as int),
{
    let mut s = String::new();
    let mut i: usize = from;
    while i < to
        invariant
            from <= i <= to <= v@.len(),
            s@ == v@.subrange(from as int, i as int),
        decreases to - i,
    {
        s.push(v[i]);
        i += 1;
        assert(v@.subrange(from as int, i as int) =~= v@.subrange(from as int, i - 1).push(v@[i - 1]));
    }
    s
}

/// The texts that a list of strings holds.
pub open spec fn texts(v: Seq<String>) -> Seq<Seq<char>> {
    Seq::new(v.len(), |i: int| v[i]@)
}

/// `s` without its leading white space.
pub open spec fn trim_start(s: Seq<char>) -> Seq<char>
    decreases s.len(),
{
    if s.len() > 0 && white_space(s[0]) {
        trim_start(s.drop_first())
    } else {
        s
    }
}

/// `s` without its trailing white space.
pub open spec fn trim_end(s: Seq<char>) -> Seq<char>
    decreases s.len(),
{
    if s.len() > 0 && white_space(s.last()) {
        trim_end(s.drop_last())
    } else {
        s
    }
}

/// `s` without the white space at both ends.
pub open spec fn trimmed(s: Seq<char>) -> Seq<char> {
    trim_end(trim_start(s))
}

/// `s` without the white space at both ends.
pub fn trim<'a>(s: &'a str) -> (r: &'a str)
    ensures
        r@ == trimmed(s@),
{
    let v = chars_of(s);
    let n: usize = v.len();
    let mut a: usize = 0;
    assert(s@.subrange(0, n as int) =~= s@);
    while a < n && v[a].is_whitespace()
        invariant
            a <= n == v@.len(),
            v@ == s@,
            trim_start(s@) == trim_start(s@.subrange(a as int, n as int)),
        ensures
            a <= n,
            trim_start(s@) == s@.subrange(a as int, n as int),
        decreases n - a,
    {
        assert(s@.subrange(a as int, n as int).drop_first() =~= s@.subrange(a + 1, n as int));
        a += 1;
    }
    let mut b: usize = n;
    while b > a && v[b - 1].is_whitespace()
        invariant
            a <= b <= n == v@.len(),
            v@ == s@,
            trimmed(s@) == trim_end(s@.subrange(a as int, b as int)),
        ensures
            a <= b <= n,
            trimmed(s@) == s@.subrange(a as int, b as int),
        decreases b,
    {
        assert(s@.subrange(a as int, b as int).drop_last() =~= s@.subrange(a as int, b - 1));
        b -= 1;
    }
    s.substring_char(a, b)
}

/// Position of the first white space of `s`, or its length where it has none.
pub open spec fn space_at(s: Seq<char>) -> int
    decreases s.len(),
{
    if s.len() == 0 || white_space(s[0]) {
        0
    } else {
        1 + space_at(s.drop_first())
    }
}

pub proof fn lemma_space_at(s: Seq<char>)
    ensures
        0 <= space_at(s) <= s.len(),
        forall|i: int| 0 <= i < space_at(s) ==> !white_space(#[trigger] s[i]),
        space_at(s) < s.len() ==> white_space(s[space_at(s)]),
    decreases s.len(),
{
    if s.len() == 0 || white_space(s[0]) {
    } else {
        lemma_space_at(s.drop_first());
        assert forall|i: int| 0 <= i < space_at(s) implies !white_space(#[trigger] s[i]) by {
            if i > 0 {
                assert(s[i] == s.drop_first()[i - 1]);
            }
        }
    }
}

/// Position of the first white space of `v` at or after `from`.
fn find_space(v: &Vec<char>, from: usize) -> (k: usize)
    requires
        from <= v@.len(),
    ensures
        from <= k <= v@.len(),
        k == from + space_at(v@.subrange(from as int, v@.len() as int)),
{
    let mut k: usize = from;
    let ghost n = v@.len() as int;
    while k < v.len() && !v[k].is_whitespace()
        invariant
            from <= k <= v@.len() == n,
            from + space_at(v@.subrange(from as int, n)) == k + space_at(v@.subrange(k as int, n)),
        ensures
            from <= k <= v@.len(),
            k == from + space_at(v@.subrange(from as int, n)),
        decreases n - k,
    {
        assert(v@.subrange(k as int, n).drop_first() =~= v@.subrange(k + 1, n));
        k += 1;
    }
    k
}

/// The part of `s` before its first white space: all of it where it has none.
pub open spec fn first_word(s: Seq<char>) -> Seq<char> {
    s.take(space_at(s))
}

/// The part of `s` after its first white space: nothing where it has none.
pub open spec fn after_first_word(s: Seq<char>) -> Seq<char> {
    if space_at(s) < s.len() {
        s.skip(space_at(s) + 1)
    } else {
        Seq::empty()
    }
}

/// Splits `s` at its first white space; without one the second part is empty.
pub fn split_first_word<'a>(s: &'a str) -> (r: (&'a str, &'a str))
    ensures
        r.0@ == first_word(s@),
        r.1@ == after_first_word(s@),
{
    let v = chars_of(s);
    let k = find_space(&v, 0);
    assert(v@.subrange(0, v@.len() as int) =~= s@);
    let n: usize = v.len();
    let head = s.substring_char(0, k);
    assert(s@.subrange(0, k as int) =~= first_word(s@));
    if k < n {
        let rest = s.substring_char(k + 1, n);
        assert(s@.subrange(k + 1, n as int) =~= after_first_word(s@));
        (head, rest)
    } else {
        let rest = s.substring_char(n, n);
        assert(s@.subrange(n as int, n as int) =~= after_first_word(s@));
        (head, rest)
    }
}

pub proof fn lemma_trim_start_len(s: Seq<char>)
    ensures
        trim_start(s).len() <= s.len(),
    decreases s.len(),
{
    if s.len() > 0 && white_space(s[0]) {
        lemma_trim_start_len(s.drop_first());
    }
}

/// The words of `s`: its longest runs without white space, in order.
pub open spec fn words(s: Seq<char>) -> Seq<Seq<char>>
    decreases s.len(),
{
    let t = trim_start(s);
    if t.len() == 0 || t.len() > s.len() || space_at(t) <= 0 || space_at(t) > t.len() {
        Seq::empty()
    } else {
        seq![t.take(space_at(t))] + words(t.skip(space_at(t)))
    }
}

/// The words of `s`, in order.
pub fn split_words(s: &str) -> (r: Vec<String>)
    ensures
        texts(r@) == words(s@),
{
    let v = chars_of(s);
    let n: usize = v.len();
    let mut out: Vec<String> = Vec::new();
    let mut i: usize = 0;
    assert(v@.subrange(0, n as int) =~= s@);
    assert(texts(out@) + words(s@) =~= words(s@));
    while i < n
        invariant
            i <= n == v@.len(),
            v@ == s@,
            texts(out@) + words(v@.subrange(i as int, n as int)) == words(s@),
        decreases n - i,
    {
        let ghost rest = v@.subrange(i as int, n as int);
        if v[i].is_whitespace() {
            proof {
                assert(rest.drop_first() =~= v@.subrange(i + 1, n as int));
                lemma_words_skip_space(rest);
            }
            i += 1;
        } else {
            let k = find_space(&v, i);
            proof {
                lemma_space_at(rest);
                assert(space_at(rest) > 0);
                assert(rest.take(space_at(rest)) =~= v@.subrange(i as int, k as int));
                assert(rest.skip(space_at(rest)) =~= v@.subrange(k as int, n as int));
            }
            let ghost before = out@;
            out.push(text_of(&v, i, k));
            proof {
                assert(texts(out@) =~= texts(before).push(v@.subrange(i as int, k as int)));
                assert(texts(before) + (seq![v@.subrange(i as int, k as int)] + words(v@.subrange(k as int, n as int)))
                    =~= texts(out@) + words(v@.subrange(k as int, n as int)));
            }
            i = k;
        }
    }
    assert(v@.subrange(i as int, n as int) =~= Seq::<char>::empty());
    assert(words(Seq::<char>::empty()) =~= Seq::empty());
    assert(texts(out@) + Seq::empty() =~= texts(out@));
    out
}

proof fn lemma_words_skip_space(s: Seq<char>)
    requires
        s.len() > 0,
        white_space(s[0]),
    ensures
        words(s) == words(s.drop_first()),
{
    lemma_trim_start_len(s.drop_first());
    let t = trim_start(s);
    assert(t == trim_start(s.drop_first()));
    lemma_space_at(t);
}

/// Position of the first `sep` in `s`, or its length where it has none.
pub open spec fn char_at(s: Seq<char>, sep: char) -> int
    decreases s.len(),
{
    if s.len() == 0 || s[0] == sep {
        0
    } else {
        1 + char_at(s.drop_first(), sep)
    }
}

pub proof fn lemma_char_at(s: Seq<char>, sep: char)
    ensures
        0 <= char_at(s, sep) <= s.len(),
        forall|i: int| 0 <= i < char_at(s, sep) ==> #[trigger] s[i] != sep,
        char_at(s, sep) < s.len() ==> s[char_at(s, sep)] == sep,
    decreases s.len(),
{
    if s.len() == 0 || s[0] == sep {
    } else {
        lemma_char_at(s.drop_first(), sep);
        assert forall|i: int| 0 <= i < char_at(s, sep) implies #[trigger] s[i] != sep by {
            if i > 0 {
                assert(s[i] == s.drop_first()[i - 1]);
            }
        }
    }
}

/// Position of the first `sep` of `v` at or after `from`.
pub fn find_char(v: &Vec<char>, from: usize, sep: char) -> (k: usize)
    requires
        from <= v@.len(),
    ensures
        from <= k <= v@.len(),
        k == from + char_at(v@.subrange(from as int, v@.len() as int), sep),
{
    let mut k: usize = from;
    let ghost n = v@.len() as int;
    while k < v.len() && v[k] != sep
        invariant
            from <= k <= v@.len() == n,
            from + char_at(v@.subrange(from as int, n), sep) == k + char_at(v@.subrange(k as int, n), sep),
        ensures
            from <= k <= v@.len(),
            k == from + char_at(v@.subrange(from as int, n), sep),
        decreases n - k,
    {
        assert(v@.subrange(k as int, n).drop_first() =~= v@.subrange(k + 1, n));
        k += 1;
    }
    k
}

/// The pieces of `s` between its separators: one more than it has separators.
pub open spec fn fields(s: Seq<char>, sep: char) -> Seq<Seq<char>>
    decreases s.len(),
{
    if 0 <= char_at(s, sep) < s.len() {
        seq![s.take(char_at(s, sep))] + fields(s.skip(char_at(s, sep) + 1), sep)
    } else {
        seq![s]
    }
}

/// The pieces of `s` between its separators.
pub fn split_fields(s: &str, sep: char) -> (r: Vec<String>)
    ensures
        texts(r@) == fields(s@, sep),
        r@.len() >= 1,
{
    let v = chars_of(s);
    let n: usize = v.len();
    let mut out: Vec<String> = Vec::new();
    let mut i: usize = 0;
    let mut k = find_char(&v, 0, sep);
    proof {
        assert(v@.subrange(0, n as int) =~= s@);
        assert(texts(out@) + fields(s@, sep) =~= fields(s@, sep));
    }
    while k < n
        invariant
            i <= k <= n == v@.len(),
            v@ == s@,
            k == i + char_at(v@.subrange(i as int, n as int), sep),
            texts(out@) + fields(v@.subrange(i as int, n as int), sep) == fields(s@, sep),
        decreases n - k,
    {
        let ghost rest = v@.subrange(i as int, n as int);
        let ghost before = out@;
        out.push(text_of(&v, i, k));
        proof {
            assert(rest.take(char_at(rest, sep)) =~= v@.subrange(i as int, k as int));
            assert(rest.skip(char_at(rest, sep) + 1) =~= v@.subrange(k + 1, n as int));
            assert(texts(out@) =~= texts(before).push(v@.subrange(i as int, k as int)));
            assert(texts(before) + (seq![v@.subrange(i as int, k as int)] + fields(v@.subrange(k + 1, n as int), sep))
                =~= texts(out@) + fields(v@.subrange(k + 1, n as int), sep));
        }
        i = k + 1;
        k = find_char(&v, i, sep);
    }
    let ghost before = out@;
    out.push(text_of(&v, i, n));
    proof {
        let rest = v@.subrange(i as int, n as int);
        assert(texts(out@) =~= texts(before) + seq![rest]);
    }
    out
}

/// The decimal digit of `d`.
pub open spec fn digit(d: int) -> char {
    ('0' as int + d) as char
}

/// `n` in decimal, without leading zeros.
pub open spec fn decimal(n: nat) -> Seq<char>
    decreases n,
{
    if n < 10 {
        seq![digit(n as int)]
    } else {
        decimal(n / 10).push(digit((n % 10) as int))
    }
}

/// `n` in decimal, with a minus sign where it is negative.
pub open spec fn signed_decimal(n: int) -> Seq<char> {
    if n < 0 {
        seq!['-'] + decimal((-n) as nat)
    } else {
        decimal(n as nat)
    }
}

fn digit_char(d: u64) -> (c: char)
    requires
        d < 10,
    ensures
        c == digit(d as int),
{
    if d == 0 { '0' } else if d == 1 { '1' } else if d == 2 { '2' } else if d == 3 { '3' } else if d == 4 {
        '4'
    } else if d == 5 { '5' } else if d == 6 { '6' } else if d == 7 { '7' } else if d == 8 { '8' } else { '9' }
}

/// `n` in decimal.
pub fn decimal_text(n: u64) -> (s: String)
    ensures
        s@ == decimal(n as nat),
    decreases n,
{
    if n < 10 {
        let mut s = String::new();
        s.push(digit_char(n));
        assert(s@ =~= decimal(n as nat));
        s
    } else {
        let mut s = decimal_text(n / 10);
        s.push(digit_char(n % 10));
        s
    }
}

/// `n` in decimal, with a minus sign where it is negative.
pub fn signed_decimal_text(n: i64) -> (s: String)
    ensures
        s@ == signed_decimal(n as int),
{
    if n < 0 {
        let mut s = String::new();
        s.push('-');
        let magnitude: u64 = if n == i64::MIN { 0x8000_0000_0000_0000u64 } else { (-n) as u64 };
        let digits = decimal_text(magnitude);
        s.append(&digits);
        assert(s@ =~= signed_decimal(n as int));
        s
    } else {
        decimal_text(n as u64)
    }
}

/// Whether `c` is an ASCII digit.
pub open spec fn is_digit(c: char) -> bool {
    '0' <= c <= '9'
}

/// Whether `s` is one or more ASCII digits.
pub open spec fn all_digits(s: Seq<char>) -> bool {
    s.len() > 0 && forall|i: int| 0 <= i < s.len() ==> is_digit(#[trigger] s[i])
}

/// The number that the digits of `s` write.
pub open spec fn digits_value(s: Seq<char>) -> nat
    decreases s.len(),
{
    if s.len() == 0 {
        0
    } else {
        (digits_value(s.drop_last()) * 10 + (s.last() as int - '0' as int)) as nat
    }
}

pub proof fn lemma_digits_value_grows(s: Seq<char>, k: int)
    requires
        0 <= k <= s.len(),
        forall|i: int| 0 <= i < s.len() ==> is_digit(#[trigger] s[i]),
    ensures
        digits_value(s.take(k)) <= digits_value(s),
    decreases s.len() - k,
{
    if k < s.len() {
        lemma_digits_value_grows(s, k + 1);
        assert(s.take(k + 1).drop_last() =~= s.take(k));
        assert(s.take(k + 1).last() == s[k]);
        assert(is_digit(s[k]));
    } else {
        assert(s.take(k) =~= s);
    }
}

/// The number that the characters of `v` from `from` up to `to` write, where
/// they are all digits and it is at most `max`.
pub fn parse_digits(v: &Vec<char>, from: usize, to: usize, max: u64) -> (r: Option<u64>)
    requires
        from <= to <= v@.len(),
    ensures
        ({
            let s = v@.subrange(from as int, to as int);
            &&& r is Some <==> all_digits(s) && digits_value(s) <= max
            &&& r is Some ==> r->0 == digits_value(s)
        }),
{
    let ghost s = v@.subrange(from as int, to as int);
    if from == to {
        return None;
    }
    let mut n: u64 = 0;
    let mut i: usize = from;
    while i < to
        invariant
            from <= i <= to <= v@.len(),
            s == v@.subrange(from as int, to as int),
            from < to,
            n == digits_value(s.take(i - from)),
            n <= max,
            forall|j: int| 0 <= j < i - from ==> is_digit(#[trigger] s[j]),
        decreases to - i,
    {
        let c = v[i];
        assert(c == s[i - from]);
        if !('0' <= c && c <= '9') {
            return None;
        }
        let d: u64 = (c as u32 - '0' as u32) as u64;
        proof {
            assert(s.take(i - from + 1).drop_last() =~= s.take(i - from));
            assert(s.take(i - from + 1).last() == c);
            assert(digits_value(s.take(i - from + 1)) == n * 10 + d);
        }
        let scaled = n.checked_mul(10);
        let next: Option<u64> = match scaled {
            Some(m) => m.checked_add(d),
            None => None,
        };
        match next {
            Some(m) if m <= max => {
                n = m;
            },
            _ => {
                proof {
                    if all_digits(s) {
                        lemma_digits_value_grows(s, i - from + 1);
                    }
                }
                return None;
            },
        }
        i += 1;
    }
    assert(s.take(to - from) =~= s);
    Some(n)
}

/// Whether `s` starts with `p`.
pub open spec fn has_prefix(s: Seq<char>, p: Seq<char>) -> bool {
    p.len() <= s.len() && s.take(p.len() as int) == p
}

/// Whether the characters of `v` at `at` start with `p`.
pub fn prefix_at(v: &Vec<char>, at: usize, p: &Vec<char>) -> (r: bool)
    requires
        at <= v@.len(),
    ensures
        r == has_prefix(v@.subrange(at as int, v@.len() as int), p@),
{
    let ghost s = v@.subrange(at as int, v@.len() as int);
    let n: usize = v.len();
    if p.len() > n - at {
        return false;
    }
    let mut i: usize = 0;
    while i < p.len()
        invariant
            i <= p@.len() <= n - at,
            at <= n == v@.len(),
            s == v@.subrange(at as int, v@.len() as int),
            forall|j: int| 0 <= j < i ==> s[j] == p@[j],
        decreases p@.len() - i,
    {
        if v[at + i] != p[i] {
            assert(s[i as int] != p@[i as int]);
            assert(s.take(p@.len() as int)[i as int] == s[i as int]);
            return false;
        }
        i += 1;
    }
    assert(s.take(p@.len() as int) =~= p@);
    true
}

/// Whether `s` starts with `p`.
pub fn starts_with(s: &str, p: &str) -> (r: bool)
    ensures
        r == has_prefix(s@, p@),
{
    let v = chars_of(s);
    let q = chars_of(p);
    assert(v@.subrange(0, v@.len() as int) =~= s@);
    prefix_at(&v, 0, &q)
}

/// `s` with every occurrence of `from`, taken from the left, replaced by `to`.
pub open spec fn replaced(s: Seq<char>, from: Seq<char>, to: Seq<char>) -> Seq<char>
    decreases s.len(),
{
    if s.len() == 0 || from.len() == 0 {
        s
    } else if has_prefix(s, from) {
        to + replaced(s.skip(from.len() as int), from, to)
    } else {
        seq![s[0]] + replaced(s.drop_first(), from, to)
    }
}

/// `s` with every occurrence of `from` replaced by `to`.
pub fn replace_all(s: &str, from: &str, to: &str) -> (r: String)
    requires
        from@.len() > 0,
    ensures
        r@ == replaced(s@, from@, to@),
{
    let v = chars_of(s);
    let p = chars_of(from);
    let n: usize = v.len();
    let mut out = String::new();
    let mut i: usize = 0;
    proof {
        assert(v@.subrange(0, n as int) =~= s@);
        assert(out@ + replaced(s@, from@, to@) =~= replaced(s@, from@, to@));
    }
    while i < n
        invariant
            i <= n == v@.len(),
            v@ == s@,
            p@ == from@,
            from@.len() > 0,
            out@ + replaced(v@.subrange(i as int, n as int), from@, to@) == replaced(s@, from@, to@),
        decreases n - i,
    {
        let ghost rest = v@.subrange(i as int, n as int);
        let ghost before = out@;
        if prefix_at(&v, i, &p) {
            out.append(to);
            proof {
                assert(rest.skip(from@.len() as int) =~= v@.subrange(i + from@.len(), n as int));
                assert(before + (to@ + replaced(v@.subrange(i + from@.len(), n as int), from@, to@))
                    =~= out@ + replaced(v@.subrange(i + from@.len(), n as int), from@, to@));
            }
            i += p.len();
        } else {
            out.push(v[i]);
            proof {
                assert(rest.drop_first() =~= v@.subrange(i + 1, n as int));
                assert(before + (seq![rest[0]] + replaced(v@.subrange(i + 1, n as int), from@, to@))
                    =~= out@ + replaced(v@.subrange(i + 1, n as int), from@, to@));
            }
            i += 1;
        }
    }
    assert(v@.subrange(i as int, n as int) =~= Seq::<char>::empty());
    assert(out@ + Seq::<char>::empty() =~= out@);
    out
}

/// Whether `p` stands in `s` at position `at`.
pub open spec fn occurs_at(s: Seq<char>, p: Seq<char>, at: int) -> bool {
    0 <= at <= s.len() && has_prefix(s.skip(at), p)
}

/// What follows the last occurrence of `p` in `s`; all of `s` where it has
/// none.
pub open spec fn is_after_last(s: Seq<char>, p: Seq<char>, r: Seq<char>) -> bool {
    if exists|at: int| occurs_at(s, p, at) {
        exists|at: int|
            {
                &&& #[trigger] occurs_at(s, p, at)
                &&& forall|b: int| at < b ==> !#[trigger] occurs_at(s, p, b)
                &&& r == s.skip(at + p.len())
            }
    } else {
        r == s
    }
}

/// What follows the last occurrence of `p` in `s`.
pub fn after_last<'a>(s: &'a str, p: &str) -> (r: &'a str)
    ensures
        is_after_last(s@, p@, r@),
{
    let v = chars_of(s);
    let q = chars_of(p);
    let n: usize = v.len();
    let mut k: usize = n;
    loop
        invariant
            k <= n == v@.len(),
            v@ == s@,
            q@ == p@,
            forall|b: int| k < b ==> !#[trigger] occurs_at(s@, p@, b),
        decreases k,
    {
        assert(s@.skip(k as int) =~= v@.subrange(k as int, n as int));
        if prefix_at(&v, k, &q) {
            assert(occurs_at(s@, p@, k as int));
            let r = s.substring_char(k + q.len(), n);
            assert(r@ =~= s@.skip(k + p@.len()));
            return r;
        }
        assert(!occurs_at(s@, p@, k as int));
        if k == 0 {
            assert forall|b: int| !#[trigger] occurs_at(s@, p@, b) by {}
            let r = s.substring_char(0, n);
            assert(r@ =~= s@);
            return r;
        }
        k -= 1;
    }
}

/// The whole number that a text writes: digits, with a sign in front or not.
pub open spec fn whole_number(s: Seq<char>) -> Option<int> {
    if s.len() > 0 && s[0] == '-' {
        if all_digits(s.skip(1)) {
            Some(-(digits_value(s.skip(1)) as int))
        } else {
            None
        }
    } else {
        let t = if s.len() > 0 && s[0] == '+' {
            s.skip(1)
        } else {
            s
        };
        if all_digits(t) {
            Some(digits_value(t) as int)
        } else {
            None
        }
    }
}

/// The number that a text writes, where it is a whole number that fits.
pub fn parse_i64(s: &str) -> (r: Option<i64>)
    ensures
        r is Some <==> whole_number(s@) is Some && i64::MIN <= whole_number(s@)->0 <= i64::MAX,
        r matches Some(n) ==> Some(n as int) == whole_number(s@),
{
    let v = chars_of(s);
    let n: usize = v.len();
    if n > 0 && v[0] == '-' {
        assert(v@.subrange(1, n as int) =~= s@.skip(1));
        match parse_digits(&v, 1, n, 0x8000_0000_0000_0000) {
            Some(m) => {
                if m == 0x8000_0000_0000_0000 {
                    Some(i64::MIN)
                } else {
                    Some(-(m as i64))
                }
            },
            None => None,
        }
    } else {
        let from: usize = if n > 0 && v[0] == '+' { 1 } else { 0 };
        proof {
            if from == 1 {
                assert(v@.subrange(1, n as int) =~= s@.skip(1));
            } else {
                assert(v@.subrange(0, n as int) =~= s@);
            }
        }
        match parse_digits(&v, from, n, 0x7fff_ffff_ffff_ffff) {
            Some(m) => Some(m as i64),
            None => None,
        }
    }
}

} // verus!
