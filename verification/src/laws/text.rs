//! What taking texts apart amounts to.
use vstd::prelude::*;

use super::names::decimals_read_back;
use crate::calendar::{after_digits, leading_number, unit_secs};
use crate::text::{
    char_at, decimal, fields, has_prefix, is_digit, lemma_char_at, lemma_space_at, lemma_trim_start_len, occurs_at,
    replaced, signed_decimal, space_at, trim_end, trim_start, trimmed, white_space, whole_number, words,
};

verus! {

proof fn lemma_start(s: Seq<char>)
    ensures
        ({
            let t = trim_start(s);
            let a = s.len() - t.len();
            &&& 0 <= a
            &&& t == s.skip(a)
            &&& t.len() > 0 ==> !white_space(t[0])
            &&& forall|i: int| 0 <= i < a ==> white_space(#[trigger] s[i])
        }),
    decreases s.len(),
{
    if s.len() > 0 && white_space(s[0]) {
        let r = s.drop_first();
        lemma_start(r);
        let t = trim_start(s);
        assert(s.skip(s.len() - t.len()) =~= r.skip(r.len() - t.len()));
        assert forall|i: int| 0 <= i < s.len() - t.len() implies white_space(#[trigger] s[i]) by {
            if i > 0 {
                assert(s[i] == r[i - 1]);
            }
        }
    } else {
        assert(s.skip(0) =~= s);
    }
}

proof fn lemma_end(s: Seq<char>)
    ensures
        ({
            let t = trim_end(s);
            &&& t.len() <= s.len()
            &&& t == s.take(t.len() as int)
            &&& t.len() > 0 ==> !white_space(t.last())
            &&& forall|i: int| t.len() <= i < s.len() ==> white_space(#[trigger] s[i])
        }),
    decreases s.len(),
{
    if s.len() > 0 && white_space(s.last()) {
        let r = s.drop_last();
        lemma_end(r);
        let t = trim_end(s);
        assert(s.take(t.len() as int) =~= r.take(t.len() as int));
        assert forall|i: int| t.len() <= i < s.len() implies white_space(#[trigger] s[i]) by {
            if i < s.len() - 1 {
                assert(s[i] == r[i]);
            }
        }
    } else {
        assert(s.take(s.len() as int) =~= s);
    }
}

/// What is trimmed off a text is white space, and what is left neither starts nor ends
/// with any.
pub proof fn trimming_takes_white_space_only(s: Seq<char>)
    ensures
        ({
            let t = trimmed(s);
            &&& t.len() > 0 ==> !white_space(t[0]) && !white_space(t.last())
            &&& exists|a: int|
                {
                    &&& 0 <= a <= s.len() - t.len()
                    &&& #[trigger] s.subrange(a, a + t.len()) == t
                    &&& forall|i: int| 0 <= i < a || a + t.len() <= i < s.len() ==> white_space(#[trigger] s[i])
                }
        }),
{
    let r = trim_start(s);
    let t = trimmed(s);
    lemma_start(s);
    lemma_end(r);
    let a = s.len() - r.len();
    assert(s.subrange(a, a + t.len()) =~= t);
    assert forall|i: int| 0 <= i < a || a + t.len() <= i < s.len() implies white_space(#[trigger] s[i]) by {
        if i >= a {
            assert(s[i] == r[i - a]);
        }
    }
}

/// Pieces with a separator between each two.
pub open spec fn joined_by(v: Seq<Seq<char>>, sep: char) -> Seq<char>
    decreases v.len(),
{
    if v.len() == 0 {
        Seq::empty()
    } else if v.len() == 1 {
        v[0]
    } else {
        v[0] + seq![sep] + joined_by(v.drop_first(), sep)
    }
}

/// The pieces of a text hold no separator, and joined by it they are the text.
pub proof fn fields_join_to_the_text(s: Seq<char>, sep: char)
    ensures
        joined_by(fields(s, sep), sep) == s,
        forall|i: int| 0 <= i < fields(s, sep).len() ==> !(#[trigger] fields(s, sep)[i]).contains(sep),
        fields(s, sep).len() > 0,
    decreases s.len(),
{
    lemma_char_at(s, sep);
    let k = char_at(s, sep);
    let v = fields(s, sep);
    if k < s.len() {
        let rest = s.skip(k + 1);
        fields_join_to_the_text(rest, sep);
        assert(v.drop_first() =~= fields(rest, sep));
        assert(v[0] == s.take(k));
        assert(s.take(k) + seq![sep] + rest =~= s);
        assert forall|i: int| 0 <= i < v.len() implies !(#[trigger] v[i]).contains(sep) by {
            if i == 0 {
                assert forall|j: int| 0 <= j < k implies #[trigger] v[0][j] != sep by {
                    assert(s[j] != sep);
                }
            } else {
                assert(v[i] == fields(rest, sep)[i - 1]);
            }
        }
    }
}

/// Pieces one after the other.
pub open spec fn all_of(v: Seq<Seq<char>>) -> Seq<char>
    decreases v.len(),
{
    if v.len() == 0 {
        Seq::empty()
    } else {
        v[0] + all_of(v.drop_first())
    }
}

/// A text without its white space.
pub open spec fn without_space(s: Seq<char>) -> Seq<char>
    decreases s.len(),
{
    if s.len() == 0 {
        s
    } else if white_space(s[0]) {
        without_space(s.drop_first())
    } else {
        seq![s[0]] + without_space(s.drop_first())
    }
}

proof fn lemma_without_start(s: Seq<char>)
    ensures
        without_space(trim_start(s)) == without_space(s),
    decreases s.len(),
{
    if s.len() > 0 && white_space(s[0]) {
        lemma_without_start(s.drop_first());
    }
}

proof fn lemma_without_word(s: Seq<char>, k: int)
    requires
        0 <= k <= s.len(),
        forall|i: int| 0 <= i < k ==> !white_space(#[trigger] s[i]),
    ensures
        without_space(s) == s.take(k) + without_space(s.skip(k)),
    decreases k,
{
    if k > 0 {
        let r = s.drop_first();
        assert(!white_space(s[0]));
        assert forall|i: int| 0 <= i < k - 1 implies !white_space(#[trigger] r[i]) by {
            assert(r[i] == s[i + 1]);
        }
        lemma_without_word(r, k - 1);
        assert(s.take(k) =~= seq![s[0]] + r.take(k - 1));
        assert(s.skip(k) =~= r.skip(k - 1));
        assert(seq![s[0]] + (r.take(k - 1) + without_space(r.skip(k - 1))) =~= s.take(k) + without_space(s.skip(k)));
    } else {
        assert(s.take(0) + without_space(s) =~= without_space(s));
        assert(s.skip(0) =~= s);
    }
}

/// The words of a text are not empty and hold no white space; together they are all of
/// the text that is none.
pub proof fn words_are_all_but_white_space(s: Seq<char>)
    ensures
        all_of(words(s)) == without_space(s),
        forall|i: int| 0 <= i < words(s).len() ==> (#[trigger] words(s)[i]).len() > 0,
        forall|i: int, j: int|
            0 <= i < words(s).len() && 0 <= j < words(s)[i].len() ==> !white_space(#[trigger] words(s)[i][j]),
    decreases s.len(),
{
    let t = trim_start(s);
    lemma_start(s);
    lemma_trim_start_len(s);
    lemma_without_start(s);
    lemma_space_at(t);
    let v = words(s);
    if t.len() > 0 {
        let k = space_at(t);
        assert(k > 0);
        let rest = t.skip(k);
        words_are_all_but_white_space(rest);
        lemma_without_word(t, k);
        assert(v.drop_first() =~= words(rest));
        assert forall|i: int, j: int| 0 <= i < v.len() && 0 <= j < v[i].len() implies !white_space(#[trigger] v[i][j]) by {
            if i == 0 {
                assert(v[0][j] == t[j]);
            } else {
                assert(v[i] == words(rest)[i - 1]);
            }
        }
        assert forall|i: int| 0 <= i < v.len() implies (#[trigger] v[i]).len() > 0 by {
            if i > 0 {
                assert(v[i] == words(rest)[i - 1]);
            }
        }
    }
}

/// Replacing a part by itself leaves a text as it is, and so does replacing one that
/// does not occur in it.
pub proof fn replacing_changes_occurrences_only(s: Seq<char>, from: Seq<char>, to: Seq<char>)
    ensures
        replaced(s, from, from) == s,
        (forall|at: int| !#[trigger] occurs_at(s, from, at)) ==> replaced(s, from, to) == s,
    decreases s.len(),
{
    if s.len() > 0 && from.len() > 0 {
        if has_prefix(s, from) {
            replacing_changes_occurrences_only(s.skip(from.len() as int), from, to);
            assert(from + s.skip(from.len() as int) =~= s);
            assert(s.skip(0) =~= s);
            assert(occurs_at(s, from, 0));
        } else {
            let r = s.drop_first();
            replacing_changes_occurrences_only(r, from, to);
            assert(seq![s[0]] + r =~= s);
            if forall|at: int| !#[trigger] occurs_at(s, from, at) {
                assert forall|at: int| !#[trigger] occurs_at(r, from, at) by {
                    if 0 <= at <= r.len() {
                        assert(r.skip(at) =~= s.skip(at + 1));
                        assert(!occurs_at(s, from, at + 1));
                    }
                }
            }
        }
    }
}


/// A whole number is read back from how it is written, sign and all.
pub proof fn whole_numbers_read_back(n: int)
    ensures
        whole_number(signed_decimal(n)) == Some(n),
{
    let s = signed_decimal(n);
    if n < 0 {
        decimals_read_back((-n) as nat);
        assert(s.skip(1) =~= decimal((-n) as nat));
    } else {
        decimals_read_back(n as nat);
        assert(is_digit(s[0]));
    }
}

proof fn lemma_after_digits(d: Seq<char>, unit: Seq<char>)
    requires
        forall|i: int| 0 <= i < d.len() ==> is_digit(#[trigger] d[i]),
        unit.len() > 0 ==> !is_digit(unit[0]),
    ensures
        after_digits(d + unit) == unit,
    decreases d.len(),
{
    if d.len() > 0 {
        let r = d.drop_first();
        assert(is_digit(d[0]));
        assert forall|i: int| 0 <= i < r.len() implies is_digit(#[trigger] r[i]) by {
            assert(r[i] == d[i + 1]);
        }
        lemma_after_digits(r, unit);
        assert((d + unit).drop_first() =~= r + unit);
    } else {
        assert(d + unit =~= unit);
    }
}

/// A resolution of so many units is as many times as long as one of one unit, and its
/// unit is what is written behind the number.
pub proof fn resolutions_are_multiples_of_their_unit(n: u64, unit: Seq<char>)
    requires
        unit.len() > 0 ==> !is_digit(unit[0]),
    ensures
        ({
            let many = decimal(n as nat) + unit;
            let one = decimal(1) + unit;
            &&& after_digits(many) == unit
            &&& leading_number(many) == n
            &&& leading_number(many) * unit_secs(after_digits(many)) == n * (leading_number(one) * unit_secs(after_digits(one)))
        }),
{
    let (many, one) = (decimal(n as nat) + unit, decimal(1) + unit);
    decimals_read_back(n as nat);
    decimals_read_back(1);
    lemma_after_digits(decimal(n as nat), unit);
    lemma_after_digits(decimal(1), unit);
    assert(many.take(many.len() - unit.len()) =~= decimal(n as nat));
    assert(one.take(one.len() - unit.len()) =~= decimal(1));
    let u = unit_secs(unit);
    assert(1 * u == u);
}

} // verus!
