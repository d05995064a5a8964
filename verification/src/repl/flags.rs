//! The words of a command: durations, flags and arguments.
use vstd::prelude::*;

use crate::text::{
    chars_of, digits_value, has_prefix, is_digit, parse_digits, same, starts_with, text_of, texts, trim, trimmed,
};

verus! {

/// How many digits `s` starts with.
pub open spec fn digits_len(s: Seq<char>) -> int
    decreases s.len(),
{
    if s.len() == 0 || !is_digit(s[0]) {
        0
    } else {
        1 + digits_len(s.drop_first())
    }
}

/// The seconds of a unit of time.
pub open spec fn unit_of(unit: Seq<char>) -> Option<int> {
    if unit == "s"@ || unit == "sec"@ || unit == "secs"@ {
        Some(1)
    } else if unit == "m"@ || unit == "min"@ || unit == "mins"@ {
        Some(60)
    } else if unit == "h"@ || unit == "hr"@ || unit == "hours"@ {
        Some(3600)
    } else if unit == "d"@ || unit == "days"@ {
        Some(86400)
    } else if unit == "w"@ || unit == "weeks"@ {
        Some(604800)
    } else {
        None
    }
}

/// Why a text is no duration.
#[derive(Clone, Copy, Debug, PartialEq, Eq, Structural)]
pub enum DurationError {
    /// There is nothing behind the number.
    MissingUnit,
    /// There is no number.
    MissingNumber,
    /// The number is too large.
    TooLarge,
    /// There is no such unit.
    UnknownUnit,
}

impl DurationError {
    /// What is wrong with `spec`, in words.
    pub open spec fn text(self, spec: Seq<char>) -> Seq<char> {
        match self {
            DurationError::MissingUnit => "duration `"@ + spec + "` missing unit (s|m|h|d|w)"@,
            DurationError::MissingNumber => "cannot parse integer from empty string"@,
            DurationError::TooLarge => "number too large to fit in target type"@,
            DurationError::UnknownUnit => "unknown duration unit `"@ + spec.skip(digits_len(spec)) + "`"@,
        }
    }

    /// What is wrong with `spec`, in words.
    pub fn message(&self, spec: &str) -> (r: String)
        ensures
            r@ == self.text(spec@),
    {
        match self {
            DurationError::MissingUnit => {
                let mut s = "duration `".to_owned();
                s.append(spec);
                s.append("` missing unit (s|m|h|d|w)");
                s
            },
            DurationError::MissingNumber => "cannot parse integer from empty string".to_owned(),
            DurationError::TooLarge => "number too large to fit in target type".to_owned(),
            DurationError::UnknownUnit => {
                let v = chars_of(spec);
                let k = count_digits(&v);
                proof {
                    lemma_digits_len(spec@);
                    assert(v@.subrange(k as int, v@.len() as int) =~= spec@.skip(k as int));
                }
                let unit = text_of(&v, k, v.len());
                let mut s = "unknown duration unit `".to_owned();
                s.append(&unit);
                s.append("`");
                s
            },
        }
    }
}

/// How many digits a text starts with.
fn count_digits(v: &Vec<char>) -> (k: usize)
    ensures
        k == digits_len(v@),
        k <= v@.len(),
{
    let n: usize = v.len();
    let mut k: usize = 0;
    assert(v@.skip(0) =~= v@);
    while k < n && '0' <= v[k] && v[k] <= '9'
        invariant
            k <= n == v@.len(),
            digits_len(v@) == k + digits_len(v@.skip(k as int)),
        ensures
            k <= n,
            digits_len(v@) == k,
        decreases n - k,
    {
        assert(v@.skip(k as int).drop_first() =~= v@.skip(k + 1));
        k += 1;
    }
    k
}

/// What a text says as a duration, in seconds.
pub open spec fn duration_of(spec: Seq<char>) -> Result<int, DurationError> {
    let k = digits_len(spec);
    if k == spec.len() {
        Err(DurationError::MissingUnit)
    } else if k == 0 {
        Err(DurationError::MissingNumber)
    } else if digits_value(spec.take(k)) > i64::MAX {
        Err(DurationError::TooLarge)
    } else {
        match unit_of(spec.skip(k)) {
            None => Err(DurationError::UnknownUnit),
            Some(u) => if digits_value(spec.take(k)) * u > i64::MAX {
                Err(DurationError::TooLarge)
            } else {
                Ok(digits_value(spec.take(k)) * u)
            },
        }
    }
}

proof fn lemma_digits_len(s: Seq<char>)
    ensures
        0 <= digits_len(s) <= s.len(),
        forall|i: int| 0 <= i < digits_len(s) ==> is_digit(#[trigger] s[i]),
    decreases s.len(),
{
    if s.len() > 0 && is_digit(s[0]) {
        lemma_digits_len(s.drop_first());
        assert forall|i: int| 0 <= i < digits_len(s) implies is_digit(#[trigger] s[i]) by {
            if i > 0 {
                assert(s[i] == s.drop_first()[i - 1]);
            }
        }
    }
}

/// Reads a duration such as `30s`, `10m`, `24h`, `7d` or `4w`, in seconds.
pub fn parse_duration(spec: &str) -> (r: Result<i64, DurationError>)
    ensures
        match r {
            Ok(n) => duration_of(spec@) == Ok::<int, DurationError>(n as int),
            Err(e) => duration_of(spec@) == Err::<int, DurationError>(e),
        },
{
    let v = chars_of(spec);
    let n: usize = v.len();
    let k = count_digits(&v);
    if k == n {
        return Err(DurationError::MissingUnit);
    }
    if k == 0 {
        return Err(DurationError::MissingNumber);
    }
    proof {
        lemma_digits_len(spec@);
        assert(v@.subrange(0, k as int) =~= spec@.take(k as int));
        assert(v@.subrange(k as int, n as int) =~= spec@.skip(k as int));
        assert(crate::text::all_digits(spec@.take(k as int)));
    }
    let num: u64 = match parse_digits(&v, 0, k, 0x7fff_ffff_ffff_ffff) {
        Some(m) => m,
        None => {
            return Err(DurationError::TooLarge);
        },
    };
    let unit = text_of(&v, k, n);
    let u: u64 = if same(&unit, "s") || same(&unit, "sec") || same(&unit, "secs") {
        1
    } else if same(&unit, "m") || same(&unit, "min") || same(&unit, "mins") {
        60
    } else if same(&unit, "h") || same(&unit, "hr") || same(&unit, "hours") {
        3600
    } else if same(&unit, "d") || same(&unit, "days") {
        86400
    } else if same(&unit, "w") || same(&unit, "weeks") {
        604800
    } else {
        return Err(DurationError::UnknownUnit);
    };
    assert(unit_of(spec@.skip(k as int)) == Some(u as int));
    let most: u64 = 0x7fff_ffff_ffff_ffff / u;
    assert(num <= most <==> num * u <= 0x7fff_ffff_ffff_ffff) by (nonlinear_arith)
        requires
            most == 0x7fff_ffff_ffff_ffffu64 / u,
            u > 0,
    ;
    if num > most {
        Err(DurationError::TooLarge)
    } else {
        Ok((num * u) as i64)
    }
}

/// A duration is its number times its unit: twice the number is twice the
/// seconds, and the units stand in the ratios of a minute, an hour, a day and a
/// week.
pub proof fn durations_are_linear(spec: Seq<char>, other: Seq<char>)
    requires
        duration_of(spec) is Ok,
        duration_of(other) is Ok,
        spec.skip(digits_len(spec)) == other.skip(digits_len(other)),
        digits_value(other.take(digits_len(other))) == 2 * digits_value(spec.take(digits_len(spec))),
    ensures
        duration_of(other)->Ok_0 == 2 * duration_of(spec)->Ok_0,
        duration_of(spec)->Ok_0 >= 0,
{
    let n = digits_value(spec.take(digits_len(spec)));
    let u = unit_of(spec.skip(digits_len(spec)))->0;
    assert((2 * n) * u == 2 * (n * u)) by (nonlinear_arith);
    assert(n * u >= 0) by (nonlinear_arith)
        requires
            n >= 0,
            u >= 0,
    ;
}

/// A duration is never negative.
pub proof fn durations_are_not_negative(spec: Seq<char>)
    requires
        duration_of(spec) is Ok,
    ensures
        0 <= duration_of(spec)->Ok_0 <= i64::MAX,
{
    let n = digits_value(spec.take(digits_len(spec)));
    let u = unit_of(spec.skip(digits_len(spec)))->0;
    assert(n * u >= 0) by (nonlinear_arith)
        requires
            n >= 0,
            u >= 0,
    ;
}

/// The texts of a list of words.
pub open spec fn word_texts(v: Seq<&str>) -> Seq<Seq<char>> {
    Seq::new(v.len(), |i: int| v[i]@)
}

/// The names and values of a list of flags.
pub open spec fn flag_texts(v: Seq<(&str, &str)>) -> Seq<(Seq<char>, Seq<char>)> {
    Seq::new(v.len(), |i: int| (v[i].0@, v[i].1@))
}

/// The arguments among words: those that are neither a flag nor its value.
pub open spec fn args_of(tokens: Seq<Seq<char>>) -> Seq<Seq<char>>
    decreases tokens.len(),
{
    if tokens.len() == 0 {
        Seq::empty()
    } else if has_prefix(tokens[0], "--"@) {
        if tokens.len() > 1 {
            args_of(tokens.skip(2))
        } else {
            Seq::empty()
        }
    } else {
        seq![tokens[0]] + args_of(tokens.skip(1))
    }
}

/// The flags among words, each with the word behind it; nothing where it is the
/// last.
pub open spec fn flags_of(tokens: Seq<Seq<char>>) -> Seq<(Seq<char>, Seq<char>)>
    decreases tokens.len(),
{
    if tokens.len() == 0 {
        Seq::empty()
    } else if has_prefix(tokens[0], "--"@) {
        let name = tokens[0].skip("--"@.len() as int);
        if tokens.len() > 1 {
            seq![(name, tokens[1])] + flags_of(tokens.skip(2))
        } else {
            seq![(name, Seq::empty())]
        }
    } else {
        flags_of(tokens.skip(1))
    }
}

/// The value of a flag: that of its last mention, where it is not empty.
pub open spec fn flag_value(flags: Seq<(Seq<char>, Seq<char>)>, name: Seq<char>) -> Option<Seq<char>>
    decreases flags.len(),
{
    if flags.len() == 0 {
        None
    } else if flags.last().0 == name {
        if flags.last().1.len() == 0 {
            None
        } else {
            Some(flags.last().1)
        }
    } else {
        flag_value(flags.drop_last(), name)
    }
}

/// The arguments and flags of a command.
#[derive(Debug)]
pub struct Flags<'a> {
    pub args: Vec<&'a str>,
    /// Each flag, without its dashes, and its value.
    pub values: Vec<(&'a str, &'a str)>,
}

impl<'a> Flags<'a> {
    /// Tells arguments and flags apart.
    pub fn parse(tokens: &[&'a str]) -> (r: Flags<'a>)
        ensures
            word_texts(r.args@) == args_of(word_texts(tokens@)),
            flag_texts(r.values@) == flags_of(word_texts(tokens@)),
    {
        let ghost all = word_texts(tokens@);
        let n: usize = tokens.len();
        let mut args: Vec<&'a str> = Vec::new();
        let mut values: Vec<(&'a str, &'a str)> = Vec::new();
        let mut i: usize = 0;
        proof {
            assert(all.skip(0) =~= all);
            assert(word_texts(args@) + args_of(all) =~= args_of(all));
            assert(flag_texts(values@) + flags_of(all) =~= flags_of(all));
        }
        while i < n
            invariant
                n == tokens@.len(),
                i <= n,
                all == word_texts(tokens@),
                word_texts(args@) + args_of(all.skip(i as int)) == args_of(all),
                flag_texts(values@) + flags_of(all.skip(i as int)) == flags_of(all),
            decreases n - i,
        {
            let tok: &'a str = tokens[i];
            let ghost rest = all.skip(i as int);
            let ghost a0 = args@;
            let ghost v0 = values@;
            assert(rest[0] == tok@);
            if starts_with(tok, "--") {
                proof {
                    reveal_strlit("--");
                }
                let len: usize = chars_of(tok).len();
                let name: &'a str = tok.substring_char(2, len);
                assert(name@ =~= tok@.skip("--"@.len() as int));
                if i + 1 < n {
                    let next: &'a str = tokens[i + 1];
                    values.push((name, next));
                    proof {
                        assert(rest[1] == next@);
                        assert(rest.skip(2) =~= all.skip(i + 2));
                        assert(flag_texts(values@) =~= flag_texts(v0).push((name@, next@)));
                        assert(flag_texts(v0) + (seq![(name@, next@)] + flags_of(all.skip(i + 2))) =~= flag_texts(values@)
                            + flags_of(all.skip(i + 2)));
                    }
                    i += 2;
                } else {
                    let none: &'a str = tok.substring_char(len, len);
                    values.push((name, none));
                    proof {
                        assert(none@ =~= Seq::<char>::empty());
                        assert(flag_texts(values@) =~= flag_texts(v0).push((name@, none@)));
                        assert(all.skip(i + 1) =~= Seq::<Seq<char>>::empty());
                        assert(args_of(rest) =~= Seq::<Seq<char>>::empty());
                        assert(args_of(all.skip(i + 1)) =~= Seq::<Seq<char>>::empty());
                        assert(flags_of(all.skip(i + 1)) =~= Seq::<(Seq<char>, Seq<char>)>::empty());
                        assert(flags_of(rest) =~= seq![(name@, none@)]);
                        assert(flag_texts(values@) + flags_of(all.skip(i + 1)) =~= flag_texts(v0) + flags_of(rest));
                    }
                    i += 1;
                }
            } else {
                args.push(tok);
                proof {
                    assert(rest.skip(1) =~= all.skip(i + 1));
                    assert(word_texts(args@) =~= word_texts(a0).push(tok@));
                    assert(word_texts(a0) + (seq![tok@] + args_of(all.skip(i + 1))) =~= word_texts(args@) + args_of(
                        all.skip(i + 1),
                    ));
                }
                i += 1;
            }
        }
        proof {
            assert(all.skip(i as int) =~= Seq::<Seq<char>>::empty());
            assert(word_texts(args@) + Seq::<Seq<char>>::empty() =~= word_texts(args@));
            assert(flag_texts(values@) + Seq::<(Seq<char>, Seq<char>)>::empty() =~= flag_texts(values@));
        }
        Flags { args, values }
    }

    /// The value of a flag, where it has one.
    pub fn get(&self, name: &str) -> (r: Option<&'a str>)
        ensures
            r is Some <==> flag_value(flag_texts(self.values@), name@) is Some,
            r matches Some(v) ==> Some(v@) == flag_value(flag_texts(self.values@), name@),
    {
        let ghost all = flag_texts(self.values@);
        let mut i: usize = self.values.len();
        assert(all.take(all.len() as int) =~= all);
        while i > 0
            invariant
                i <= self.values@.len(),
                all == flag_texts(self.values@),
                flag_value(all, name@) == flag_value(all.take(i as int), name@),
            decreases i,
        {
            i -= 1;
            let (k, v) = self.values[i];
            proof {
                assert(all.take(i + 1).drop_last() =~= all.take(i as int));
                assert(all.take(i + 1).last() == (k@, v@));
            }
            if same(k, name) {
                if crate::repl::is_blank(v) {
                    return None;
                } else {
                    return Some(v);
                }
            }
        }
        None
    }

    /// The text of argument `i`; nothing past the last.
    pub open spec fn arg_text(self, i: int) -> Seq<char> {
        if i < self.args@.len() {
            self.args@[i]@
        } else {
            Seq::empty()
        }
    }

    /// Argument `i`, or an empty text past the last.
    pub fn arg(&self, i: usize) -> (r: &'a str)
        ensures
            r@ == self.arg_text(i as int),
    {
        if i < self.args.len() {
            self.args[i]
        } else {
            proof {
                reveal_strlit("");
                assert(""@ =~= Seq::<char>::empty());
            }
            ""
        }
    }
}

/// The texts as words.
pub fn as_words<'a>(v: &'a Vec<String>) -> (r: Vec<&'a str>)
    ensures
        word_texts(r@) == texts(v@),
{
    let mut out: Vec<&'a str> = Vec::new();
    let mut i: usize = 0;
    let ghost all = texts(v@);
    while i < v.len()
        invariant
            i <= v@.len(),
            all == texts(v@),
            word_texts(out@) == all.take(i as int),
        decreases v@.len() - i,
    {
        let ghost before = out@;
        out.push(v[i].as_str());
        assert(word_texts(out@) =~= word_texts(before).push(v@[i as int]@));
        i += 1;
        assert(all.take(i as int) =~= all.take(i - 1).push(all[i - 1]));
    }
    assert(all.take(i as int) =~= all);
    out
}

/// Why a command cannot be run: its message.
#[derive(Debug)]
pub struct UsageError {
    pub message: String,
}

/// The text without the space around it; an error where nothing is left.
pub fn non_empty<'a>(s: &'a str, msg: &str) -> (r: Result<&'a str, UsageError>)
    ensures
        r is Err <==> trimmed(s@).len() == 0,
        r matches Ok(t) ==> t@ == trimmed(s@),
        r matches Err(e) ==> e.message@ == msg@,
{
    let t = trim(s);
    if crate::repl::is_blank(t) {
        Err(UsageError { message: msg.to_owned() })
    } else {
        Ok(t)
    }
}

/// An argument of a line, or an empty text.
pub open spec fn line_arg(line: Seq<char>, i: int) -> Seq<char> {
    let args = args_of(crate::text::words(line));
    if i < args.len() {
        args[i]
    } else {
        Seq::empty()
    }
}

/// The value of a flag of a line.
pub open spec fn line_flag(line: Seq<char>, name: Seq<char>) -> Option<Seq<char>> {
    flag_value(flags_of(crate::text::words(line)), name)
}

} // verus!
