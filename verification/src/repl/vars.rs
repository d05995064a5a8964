//! The variables of a session, and which of them a piece of code reads.
use vstd::prelude::*;

use super::display::{draw, drawn, row_texts};
use crate::lexical::{ordered, sorted_unique};
use crate::text::{all_digits, chars_of, decimal, decimal_text, has_prefix, prefix_at, same, text_of, texts};

verus! {

/// Whether a character is a letter or a digit of any script.
pub uninterp spec fn alphanumeric(c: char) -> bool;

/// Whether a character is a letter or a digit of any script.
///
/// Calls `char::is_alphanumeric`. Claims that the answer depends on the
/// character alone.
#[verifier::external_body]
fn is_alphanumeric(c: char) -> (r: bool)
    ensures
        r == alphanumeric(c),
{
    c.is_alphanumeric()
}

/// Whether a character is part of a name.
pub open spec fn in_name(c: char) -> bool {
    alphanumeric(c) || c == '_' || c == '@'
}

/// How many characters at the start of `s` are part of a name.
pub open spec fn name_len(s: Seq<char>) -> int
    decreases s.len(),
{
    if s.len() == 0 || !in_name(s[0]) {
        0
    } else {
        1 + name_len(s.drop_first())
    }
}

/// The names of a piece of code: what stands between the characters that are
/// part of no name.
pub open spec fn names(s: Seq<char>) -> Seq<Seq<char>>
    decreases s.len(),
{
    let k = name_len(s);
    if 0 <= k < s.len() {
        seq![s.take(k)] + names(s.skip(k + 1))
    } else {
        seq![s]
    }
}

proof fn lemma_name_len(s: Seq<char>)
    ensures
        0 <= name_len(s) <= s.len(),
    decreases s.len(),
{
    if s.len() > 0 && in_name(s[0]) {
        lemma_name_len(s.drop_first());
    }
}

fn name_end(v: &Vec<char>, from: usize) -> (k: usize)
    requires
        from <= v@.len(),
    ensures
        from <= k <= v@.len(),
        k == from + name_len(v@.subrange(from as int, v@.len() as int)),
{
    let n: usize = v.len();
    let mut k: usize = from;
    while k < n
        invariant
            from <= k <= n == v@.len(),
            from + name_len(v@.subrange(from as int, n as int)) == k + name_len(v@.subrange(k as int, n as int)),
        decreases n - k,
    {
        let c = v[k];
        assert(v@.subrange(k as int, n as int)[0] == c);
        assert(v@.subrange(k as int, n as int).drop_first() =~= v@.subrange(k + 1, n as int));
        if !(is_alphanumeric(c) || c == '_' || c == '@') {
            return k;
        }
        k += 1;
    }
    k
}

/// The names of a piece of code.
pub fn code_names(code: &str) -> (r: Vec<String>)
    ensures
        texts(r@) == names(code@),
{
    let v = chars_of(code);
    let n: usize = v.len();
    let mut out: Vec<String> = Vec::new();
    let mut i: usize = 0;
    let mut k = name_end(&v, 0);
    proof {
        assert(v@.subrange(0, n as int) =~= code@);
        assert(texts(out@) + names(code@) =~= names(code@));
    }
    while k < n
        invariant
            i <= k <= n == v@.len(),
            v@ == code@,
            k == i + name_len(v@.subrange(i as int, n as int)),
            texts(out@) + names(v@.subrange(i as int, n as int)) == names(code@),
        decreases n - k,
    {
        let ghost rest = v@.subrange(i as int, n as int);
        let ghost before = out@;
        out.push(text_of(&v, i, k));
        proof {
            assert(rest.take(name_len(rest)) =~= v@.subrange(i as int, k as int));
            assert(rest.skip(name_len(rest) + 1) =~= v@.subrange(k + 1, n as int));
            assert(texts(out@) =~= texts(before).push(v@.subrange(i as int, k as int)));
            assert(texts(before) + (seq![v@.subrange(i as int, k as int)] + names(v@.subrange(k + 1, n as int)))
                =~= texts(out@) + names(v@.subrange(k + 1, n as int)));
        }
        i = k + 1;
        k = name_end(&v, i);
    }
    let ghost before = out@;
    out.push(text_of(&v, i, n));
    proof {
        let rest = v@.subrange(i as int, n as int);
        assert(texts(out@) =~= texts(before) + seq![rest]);
    }
    out
}

/// The variable that a name stands for: `_df_7` for `@7`, else the name itself.
pub open spec fn variable_of(name: Seq<char>) -> Seq<char> {
    if has_prefix(name, "_df_"@) && all_digits(name.skip("_df_"@.len() as int)) {
        seq!['@'] + name.skip("_df_"@.len() as int)
    } else {
        name
    }
}

/// The variables among the first `n` names, in the order of their first mention.
pub open spec fn variables_to(names: Seq<Seq<char>>, n: nat) -> Seq<Seq<char>>
    decreases n,
{
    if n == 0 {
        Seq::empty()
    } else {
        let before = variables_to(names, (n - 1) as nat);
        let v = variable_of(names[n - 1]);
        if v.len() > 0 && v[0] == '@' && !before.contains(v) {
            before.push(v)
        } else {
            before
        }
    }
}

fn variable(name: &str) -> (r: String)
    ensures
        r@ == variable_of(name@),
{
    let v = chars_of(name);
    let n: usize = v.len();
    let p = chars_of("_df_");
    assert(v@.subrange(0, n as int) =~= name@);
    if prefix_at(&v, 0, &p) {
        let k: usize = p.len();
        assert(name@.skip(k as int) =~= v@.subrange(k as int, n as int));
        let mut i: usize = k;
        let mut digits = k < n;
        while i < n && digits
            invariant
                k <= i <= n == v@.len(),
                k == "_df_"@.len(),
                v@ == name@,
                digits ==> k < n && forall|j: int| k <= j < i ==> crate::text::is_digit(#[trigger] v@[j]),
                !digits ==> !all_digits(name@.skip(k as int)),
            decreases (n - i) + (if digits { 1int } else { 0int }),
        {
            if '0' <= v[i] && v[i] <= '9' {
                i += 1;
            } else {
                assert(name@.skip(k as int)[i - k] == v@[i as int]);
                digits = false;
            }
        }
        if digits {
            assert forall|j: int| 0 <= j < n - k implies crate::text::is_digit(#[trigger] name@.skip(k as int)[j]) by {
                assert(name@.skip(k as int)[j] == v@[k + j]);
            }
            let mut s = String::new();
            s.push('@');
            s.append(&text_of(&v, k, n));
            assert(s@ =~= seq!['@'] + name@.skip(k as int));
            return s;
        }
    }
    name.to_owned()
}

fn holds(v: &Vec<String>, t: &str) -> (r: bool)
    ensures
        r == texts(v@).contains(t@),
{
    let mut i: usize = 0;
    while i < v.len()
        invariant
            i <= v@.len(),
            forall|k: int| 0 <= k < i ==> texts(v@)[k] != t@,
        decreases v@.len() - i,
    {
        assert(texts(v@)[i as int] == v@[i as int]@);
        if same(&v[i], t) {
            return true;
        }
        i += 1;
    }
    false
}

/// The variables among names, in the order of their first mention.
pub fn variables_of(names: &Vec<String>) -> (r: Vec<String>)
    ensures
        texts(r@) == variables_to(texts(names@), names@.len()),
{
    let mut out: Vec<String> = Vec::new();
    let mut i: usize = 0;
    let ghost all = texts(names@);
    assert(texts(out@) =~= variables_to(all, 0));
    while i < names.len()
        invariant
            i <= names@.len(),
            all == texts(names@),
            texts(out@) == variables_to(all, i as nat),
        decreases names@.len() - i,
    {
        assert(all[i as int] == names@[i as int]@);
        let v = variable(&names[i]);
        let ghost before = out@;
        let c = chars_of(&v);
        if c.len() > 0 && c[0] == '@' && !holds(&out, &v) {
            let ghost t = v@;
            out.push(v);
            assert(texts(out@) =~= texts(before).push(t));
        }
        i += 1;
    }
    out
}

/// The variables that a piece of code reads, in the order of their first
/// mention.
pub fn referenced_input_vars(code: &str) -> (r: Vec<String>)
    ensures
        texts(r@) == variables_to(names(code@), names(code@).len()),
{
    variables_of(&code_names(code))
}

/// No variable is named twice, and each is a name that starts with `@`.
pub proof fn each_variable_is_named_once(names: Seq<Seq<char>>, n: nat)
    requires
        n <= names.len(),
    ensures
        variables_to(names, n).no_duplicates(),
        forall|i: int|
            0 <= i < variables_to(names, n).len() ==> (#[trigger] variables_to(names, n)[i]).len() > 0 && variables_to(
                names,
                n,
            )[i][0] == '@',
        forall|k: int|
            0 <= k < n && variable_of(#[trigger] names[k]).len() > 0 && variable_of(names[k])[0] == '@'
                ==> variables_to(names, n).contains(variable_of(names[k])),
    decreases n,
{
    if n > 0 {
        each_variable_is_named_once(names, (n - 1) as nat);
        let before = variables_to(names, (n - 1) as nat);
        let now = variables_to(names, n);
        let v = variable_of(names[n - 1]);
        assert forall|k: int|
            0 <= k < n && variable_of(#[trigger] names[k]).len() > 0 && variable_of(names[k])[0]
                == '@' implies now.contains(variable_of(names[k])) by {
            let w = variable_of(names[k]);
            if k < n - 1 {
                assert(before.contains(w));
                let i = choose|i: int| 0 <= i < before.len() && before[i] == w;
                assert(now[i] == w);
            } else if !before.contains(v) {
                assert(now[before.len() as int] == v);
            }
        }
    }
}

/// What a variable holds. The handle says which value it is.
#[derive(Clone, Copy, Debug, PartialEq, Eq, Structural)]
pub enum Variable {
    Frame { handle: u64, rows: usize, cols: usize },
    Plot { handle: u64, bytes: usize },
    Model { handle: u64, bytes: usize },
    Bytes { handle: u64, bytes: usize },
    Scalar { handle: u64 },
}

impl Variable {
    /// The size or the value of a variable. `note` is the format of a plot, or
    /// the text of a scalar.
    pub open spec fn shape_text(self, note: Seq<char>) -> Seq<char> {
        match self {
            Variable::Frame { rows, cols, .. } => decimal(rows as nat) + "x"@ + decimal(cols as nat),
            Variable::Plot { bytes, .. } => decimal(bytes as nat) + " bytes "@ + note,
            Variable::Model { bytes, .. } => decimal(bytes as nat) + " bytes"@,
            Variable::Bytes { bytes, .. } => decimal(bytes as nat) + " bytes"@,
            Variable::Scalar { .. } => note,
        }
    }

    /// The size or the value of a variable.
    pub fn shape(&self, note: &str) -> (r: String)
        ensures
            r@ == self.shape_text(note@),
    {
        match self {
            Variable::Frame { rows, cols, .. } => {
                let mut s = decimal_text(*rows as u64);
                s.append("x");
                s.append(&decimal_text(*cols as u64));
                s
            },
            Variable::Plot { bytes, .. } => {
                let mut s = decimal_text(*bytes as u64);
                s.append(" bytes ");
                s.append(note);
                s
            },
            Variable::Model { bytes, .. } => {
                let mut s = decimal_text(*bytes as u64);
                s.append(" bytes");
                s
            },
            Variable::Bytes { bytes, .. } => {
                let mut s = decimal_text(*bytes as u64);
                s.append(" bytes");
                s
            },
            Variable::Scalar { .. } => note.to_owned(),
        }
    }

    /// Which value it is.
    pub open spec fn handle_of(self) -> u64 {
        match self {
            Variable::Frame { handle, .. } => handle,
            Variable::Plot { handle, .. } => handle,
            Variable::Model { handle, .. } => handle,
            Variable::Bytes { handle, .. } => handle,
            Variable::Scalar { handle } => handle,
        }
    }

    /// Which value it is.
    pub fn handle(&self) -> (r: u64)
        ensures
            r == self.handle_of(),
    {
        match self {
            Variable::Frame { handle, .. } => *handle,
            Variable::Plot { handle, .. } => *handle,
            Variable::Model { handle, .. } => *handle,
            Variable::Bytes { handle, .. } => *handle,
            Variable::Scalar { handle } => *handle,
        }
    }

    /// What kind of value it is.
    pub open spec fn kind_text(self) -> Seq<char> {
        match self {
            Variable::Frame { .. } => "DataFrame"@,
            Variable::Plot { .. } => "Plot"@,
            Variable::Model { .. } => "Model"@,
            Variable::Bytes { .. } => "Bytes"@,
            Variable::Scalar { .. } => "Scalar"@,
        }
    }

    /// What kind of value it is.
    pub fn kind(&self) -> (r: &'static str)
        ensures
            r@ == self.kind_text(),
    {
        match self {
            Variable::Frame { .. } => "DataFrame",
            Variable::Plot { .. } => "Plot",
            Variable::Model { .. } => "Model",
            Variable::Bytes { .. } => "Bytes",
            Variable::Scalar { .. } => "Scalar",
        }
    }
}

/// The variables of a session.
#[derive(Debug)]
pub struct Variables {
    pub entries: Vec<(String, Variable)>,
}

/// The variables of a list, by name; of two values for one name, the later.
pub open spec fn bound(s: Seq<(String, Variable)>) -> Map<Seq<char>, Variable>
    decreases s.len(),
{
    if s.len() == 0 {
        Map::empty()
    } else {
        bound(s.drop_last()).insert(s.last().0@, s.last().1)
    }
}

impl View for Variables {
    type V = Map<Seq<char>, Variable>;

    open spec fn view(&self) -> Map<Seq<char>, Variable> {
        bound(self.entries@)
    }
}

proof fn lemma_bound(s: Seq<(String, Variable)>, i: int)
    requires
        0 <= i < s.len(),
        forall|j: int| i < j < s.len() ==> (#[trigger] s[j]).0@ != s[i].0@,
    ensures
        bound(s).contains_key(s[i].0@),
        bound(s)[s[i].0@] == s[i].1,
    decreases s.len(),
{
    if i < s.len() - 1 {
        let d = s.drop_last();
        assert forall|j: int| i < j < d.len() implies (#[trigger] d[j]).0@ != d[i].0@ by {
            assert(d[j] == s[j]);
        }
        assert(s[s.len() - 1].0@ != s[i].0@);
        lemma_bound(d, i);
    }
}

proof fn lemma_unbound(s: Seq<(String, Variable)>, name: Seq<char>)
    requires
        forall|j: int| 0 <= j < s.len() ==> (#[trigger] s[j]).0@ != name,
    ensures
        !bound(s).contains_key(name),
    decreases s.len(),
{
    if s.len() > 0 {
        let d = s.drop_last();
        assert forall|j: int| 0 <= j < d.len() implies (#[trigger] d[j]).0@ != name by {
            assert(d[j] == s[j]);
        }
        assert(s[s.len() - 1].0@ != name);
        lemma_unbound(d, name);
    }
}

impl Variables {
    /// No variables.
    pub fn new() -> (r: Variables)
        ensures
            r@ == Map::<Seq<char>, Variable>::empty(),
    {
        Variables { entries: Vec::new() }
    }

    /// The value of a variable.
    pub fn get(&self, name: &str) -> (r: Option<Variable>)
        ensures
            r is Some <==> self@.contains_key(name@),
            r matches Some(v) ==> v == self@[name@],
    {
        let ghost s = self.entries@;
        let mut i: usize = self.entries.len();
        while i > 0
            invariant
                i <= s.len(),
                s == self.entries@,
                forall|j: int| i <= j < s.len() ==> (#[trigger] s[j]).0@ != name@,
            decreases i,
        {
            i -= 1;
            if same(&self.entries[i].0, name) {
                proof {
                    lemma_bound(s, i as int);
                }
                return Some(self.entries[i].1);
            }
        }
        proof {
            lemma_unbound(s, name@);
        }
        None
    }

    /// Sets a variable.
    pub fn set(&mut self, name: &str, value: Variable)
        ensures
            final(self)@ == old(self)@.insert(name@, value),
    {
        let ghost before = self.entries@;
        self.entries.push((name.to_owned(), value));
        assert(self.entries@.drop_last() =~= before);
    }

    /// Copies every variable into another session. Nothing leaves this one, and
    /// what the other had under other names stays.
    pub fn carry_over(&self, to: &mut Variables)
        ensures
            final(to)@ == old(to)@.union_prefer_right(self@),
    {
        let ghost t0 = to@;
        let ghost s = self.entries@;
        let mut i: usize = 0;
        assert(s.take(0) =~= Seq::<(String, Variable)>::empty());
        assert(to@ =~= t0.union_prefer_right(bound(s.take(0))));
        while i < self.entries.len()
            invariant
                i <= s.len(),
                s == self.entries@,
                to@ == t0.union_prefer_right(bound(s.take(i as int))),
            decreases s.len() - i,
        {
            to.set(&self.entries[i].0, self.entries[i].1);
            proof {
                let next = s.take(i + 1);
                assert(next.drop_last() =~= s.take(i as int));
                assert(next.last() == s[i as int]);
                assert(to@ =~= t0.union_prefer_right(bound(next)));
            }
            i += 1;
        }
        assert(s.take(i as int) =~= s);
    }

    /// The frames that a piece of code reads: those of its variables that are
    /// set to a frame, by name and handle.
    pub fn collect_inputs(&self, wanted: &Vec<String>) -> (r: Vec<(String, u64)>)
        ensures
            inputs_view(r@) == frames_to(self@, texts(wanted@), wanted@.len()),
    {
        let mut out: Vec<(String, u64)> = Vec::new();
        let mut i: usize = 0;
        let ghost all = texts(wanted@);
        assert(inputs_view(out@) =~= frames_to(self@, all, 0));
        while i < wanted.len()
            invariant
                i <= wanted@.len(),
                all == texts(wanted@),
                inputs_view(out@) == frames_to(self@, all, i as nat),
            decreases wanted@.len() - i,
        {
            assert(all[i as int] == wanted@[i as int]@);
            let ghost before = out@;
            if let Some(Variable::Frame { handle, .. }) = self.get(&wanted[i]) {
                out.push((wanted[i].as_str().to_owned(), handle));
                assert(inputs_view(out@) =~= inputs_view(before).push((all[i as int], handle)));
            }
            i += 1;
        }
        out
    }

    /// The names of the variables, in order.
    pub fn names(&self) -> (r: Vec<String>)
        ensures
            ordered(texts(r@)),
            forall|t: Seq<char>| #[trigger] texts(r@).contains(t) <==> self@.contains_key(t),
    {
        let mut all: Vec<String> = Vec::new();
        let mut i: usize = 0;
        let ghost s = self.entries@;
        while i < self.entries.len()
            invariant
                i <= s.len(),
                s == self.entries@,
                texts(all@) == Seq::new(i as nat, |k: int| s[k].0@),
            decreases s.len() - i,
        {
            let ghost before = all@;
            all.push(self.entries[i].0.as_str().to_owned());
            assert(texts(all@) =~= texts(before).push(s[i as int].0@));
            i += 1;
            assert(texts(all@) =~= Seq::new(i as nat, |k: int| s[k].0@));
        }
        let r = sorted_unique(&all);
        proof {
            assert forall|t: Seq<char>| #[trigger] texts(r@).contains(t) <==> self@.contains_key(t) by {
                lemma_keys(s, t);
                if texts(all@).contains(t) {
                    let k = choose|k: int| 0 <= k < texts(all@).len() && texts(all@)[k] == t;
                    assert(s[k].0@ == t);
                }
                if self@.contains_key(t) {
                    let k = choose|k: int| 0 <= k < s.len() && (#[trigger] s[k]).0@ == t;
                    assert(texts(all@)[k] == t);
                }
            }
        }
        r
    }
}

proof fn lemma_keys(s: Seq<(String, Variable)>, t: Seq<char>)
    ensures
        bound(s).contains_key(t) <==> exists|k: int| 0 <= k < s.len() && (#[trigger] s[k]).0@ == t,
    decreases s.len(),
{
    if s.len() > 0 {
        let d = s.drop_last();
        lemma_keys(d, t);
        if bound(d).contains_key(t) {
            let k = choose|k: int| 0 <= k < d.len() && (#[trigger] d[k]).0@ == t;
            assert(s[k].0@ == t);
        }
        if s.last().0@ == t {
            assert(s[s.len() - 1].0@ == t);
        }
        if exists|k: int| 0 <= k < s.len() && (#[trigger] s[k]).0@ == t {
            let k = choose|k: int| 0 <= k < s.len() && (#[trigger] s[k]).0@ == t;
            if k < d.len() {
                assert(d[k].0@ == t);
            }
        }
    }
}

/// Whether `row` lists a variable: its name, kind, shape and time.
pub open spec fn lists<A: Fn(u64) -> (String, String)>(
    about: A,
    name: Seq<char>,
    v: Variable,
    row: Seq<Seq<char>>,
) -> bool {
    exists|a: (String, String)| #[trigger]
        call_ensures(about, (v.handle_of(),), a) && row == seq![name, v.kind_text(), v.shape_text(a.0@), a.1@]
}

/// Whether `rows` list the variables, in the order of their names.
pub open spec fn lists_all<A: Fn(u64) -> (String, String)>(
    about: A,
    vars: Map<Seq<char>, Variable>,
    names: Seq<Seq<char>>,
    rows: Seq<Seq<Seq<char>>>,
) -> bool {
    &&& ordered(names)
    &&& forall|t: Seq<char>| #[trigger] names.contains(t) <==> vars.contains_key(t)
    &&& rows.len() == names.len()
    &&& forall|i: int| #![trigger rows[i]] 0 <= i < rows.len() ==> lists(about, names[i], vars[names[i]], rows[i])
}

/// Lists the variables of a session. `about` gives the note of a value, which is
/// the format of a plot or the text of a scalar, and when it was made.
pub fn vars_cmd<A: Fn(u64) -> (String, String)>(vars: &Variables, about: A) -> (r: String)
    requires
        forall|h: u64| #[trigger] call_requires(about, (h,)),
    ensures
        (forall|t: Seq<char>| !vars@.contains_key(t)) ==> r@ == "(no variables)"@,
        (exists|t: Seq<char>| vars@.contains_key(t)) ==> exists|names: Seq<Seq<char>>, rows: Seq<Seq<Seq<char>>>|
            #[trigger] lists_all(about, vars@, names, rows) && r@ == drawn(
                seq!["var"@, "type"@, "shape/value"@, "created"@],
                rows,
            ),
{
    let names = vars.names();
    let ghost all = texts(names@);
    if names.len() == 0 {
        proof {
            assert forall|t: Seq<char>| !vars@.contains_key(t) by {
                assert(!all.contains(t));
            }
        }
        return "(no variables)".to_owned();
    }
    proof {
        assert(all.contains(all[0]));
        assert(vars@.contains_key(all[0]));
    }
    let mut rows: Vec<Vec<String>> = Vec::new();
    let mut i: usize = 0;
    while i < names.len()
        invariant
            i <= names@.len(),
            all == texts(names@),
            forall|h: u64| #[trigger] call_requires(about, (h,)),
            forall|t: Seq<char>| #[trigger] all.contains(t) <==> vars@.contains_key(t),
            rows@.len() == i,
            forall|k: int| #![trigger row_texts(rows@)[k]]
                0 <= k < i ==> lists(about, all[k], vars@[all[k]], row_texts(rows@)[k]),
        decreases names@.len() - i,
    {
        assert(all[i as int] == names@[i as int]@);
        assert(all.contains(all[i as int]));
        if let Some(v) = vars.get(&names[i]) {
            let ghost before = rows@;
            let a = about(v.handle());
            let ghost a0 = a;
            let mut row: Vec<String> = Vec::new();
            row.push(names[i].as_str().to_owned());
            row.push(v.kind().to_owned());
            row.push(v.shape(&a.0));
            row.push(a.1);
            let ghost want = seq![all[i as int], v.kind_text(), v.shape_text(a0.0@), a0.1@];
            assert(texts(row@) =~= want);
            rows.push(row);
            proof {
                assert(call_ensures(about, (v.handle_of(),), a0));
                assert(lists(about, all[i as int], v, want));
                assert forall|k: int| #![trigger row_texts(rows@)[k]] 0 <= k < i + 1 implies lists(
                    about,
                    all[k],
                    vars@[all[k]],
                    row_texts(rows@)[k],
                ) by {
                    if k < i {
                        assert(row_texts(rows@)[k] == row_texts(before)[k]);
                    }
                }
            }
        }
        i += 1;
    }
    let ghost shown = row_texts(rows@);
    assert(lists_all(about, vars@, all, shown));
    let mut headers: Vec<String> = Vec::new();
    headers.push("var".to_owned());
    headers.push("type".to_owned());
    headers.push("shape/value".to_owned());
    headers.push("created".to_owned());
    assert(texts(headers@) =~= seq!["var"@, "type"@, "shape/value"@, "created"@]);
    draw(headers, rows)
}

/// The frames of a list, by name.
pub open spec fn inputs_view(v: Seq<(String, u64)>) -> Seq<(Seq<char>, u64)> {
    Seq::new(v.len(), |i: int| (v[i].0@, v[i].1))
}

/// Of the first `n` names, those that are set to a frame, with its handle.
pub open spec fn frames_to(m: Map<Seq<char>, Variable>, names: Seq<Seq<char>>, n: nat) -> Seq<(Seq<char>, u64)>
    decreases n,
{
    if n == 0 {
        Seq::empty()
    } else {
        let before = frames_to(m, names, (n - 1) as nat);
        let name = names[n - 1];
        if m.contains_key(name) && m[name] is Frame {
            before.push((name, m[name]->Frame_handle))
        } else {
            before
        }
    }
}

} // verus!
