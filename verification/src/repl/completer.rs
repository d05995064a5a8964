//! Completion: commands, stations and variables.
use vstd::prelude::*;

use crate::lexical::{is_ordered_set, sorted_unique};
use crate::text::{chars_of, has_prefix, starts_with, text_of, texts, white_space};

verus! {

/// The commands.
pub open spec fn command_texts() -> Seq<Seq<char>> {
    seq![
        ":help"@,
        ":station"@,
        ":query"@,
        ":py"@,
        ":stats"@,
        ":plot"@,
        ":vars"@,
        ":sessions"@,
        ":new"@,
        ":use"@,
        ":close"@,
        ":save"@,
        ":load"@,
        ":quit"@,
    ]
}

fn commands() -> (r: Vec<String>)
    ensures
        texts(r@) == command_texts(),
{
    let mut v: Vec<String> = Vec::new();
    v.push(":help".to_owned());
    v.push(":station".to_owned());
    v.push(":query".to_owned());
    v.push(":py".to_owned());
    v.push(":stats".to_owned());
    v.push(":plot".to_owned());
    v.push(":vars".to_owned());
    v.push(":sessions".to_owned());
    v.push(":new".to_owned());
    v.push(":use".to_owned());
    v.push(":close".to_owned());
    v.push(":save".to_owned());
    v.push(":load".to_owned());
    v.push(":quit".to_owned());
    assert(texts(v@) =~= command_texts());
    v
}

/// All that may be completed: the commands, a query of each station, and the
/// variables.
pub open spec fn completions(stations: Seq<Seq<char>>, vars: Seq<Seq<char>>) -> Seq<Seq<char>> {
    command_texts() + Seq::new(stations.len(), |i: int| ":query "@ + stations[i]) + vars
}

/// All that may be completed, in order, each once.
pub fn candidates(stations: &Vec<String>, vars: &Vec<String>) -> (r: Vec<String>)
    ensures
        is_ordered_set(completions(texts(stations@), texts(vars@)), texts(r@)),
{
    let mut all = commands();
    let ghost st = texts(stations@);
    let ghost vs = texts(vars@);
    let ghost queries = Seq::new(st.len(), |i: int| ":query "@ + st[i]);
    let mut i: usize = 0;
    assert(texts(all@) =~= command_texts() + queries.take(0));
    while i < stations.len()
        invariant
            i <= stations@.len(),
            st == texts(stations@),
            queries == Seq::new(st.len(), |i: int| ":query "@ + st[i]),
            texts(all@) == command_texts() + queries.take(i as int),
        decreases stations@.len() - i,
    {
        let ghost before = all@;
        let mut s = ":query ".to_owned();
        s.append(&stations[i]);
        let ghost t = s@;
        all.push(s);
        proof {
            assert(t == queries[i as int]);
            assert(texts(all@) =~= texts(before).push(t));
            assert(texts(all@) =~= command_texts() + queries.take(i + 1));
        }
        i += 1;
    }
    let mut k: usize = 0;
    assert(texts(all@) =~= command_texts() + queries + vs.take(0));
    while k < vars.len()
        invariant
            k <= vars@.len(),
            vs == texts(vars@),
            texts(all@) == command_texts() + queries + vs.take(k as int),
        decreases vars@.len() - k,
    {
        let ghost before = all@;
        all.push(vars[k].as_str().to_owned());
        proof {
            assert(texts(all@) =~= texts(before).push(vs[k as int]));
            assert(texts(all@) =~= command_texts() + queries + vs.take(k + 1));
        }
        k += 1;
    }
    assert(vs.take(k as int) =~= vs);
    sorted_unique(&all)
}

/// Whether `w` is the word that is being typed at the end of `s`: what follows
/// the last white space.
pub open spec fn is_last_word(s: Seq<char>, w: Seq<char>) -> bool {
    &&& w.len() <= s.len()
    &&& s.skip(s.len() - w.len()) == w
    &&& forall|i: int| 0 <= i < w.len() ==> !white_space(#[trigger] w[i])
    &&& w.len() < s.len() ==> white_space(s[s.len() - w.len() - 1])
}

fn last_word(s: &str) -> (r: String)
    ensures
        is_last_word(s@, r@),
{
    let v = chars_of(s);
    let n: usize = v.len();
    let mut k: usize = n;
    while k > 0 && !v[k - 1].is_whitespace()
        invariant
            k <= n == v@.len(),
            forall|i: int| k <= i < n ==> !white_space(#[trigger] v@[i]),
        ensures
            k <= n,
            forall|i: int| k <= i < n ==> !white_space(#[trigger] v@[i]),
            k > 0 ==> white_space(v@[k - 1]),
        decreases k,
    {
        k -= 1;
    }
    let r = text_of(&v, k, n);
    proof {
        assert(s@.skip(k as int) =~= r@);
        assert forall|i: int| 0 <= i < r@.len() implies !white_space(#[trigger] r@[i]) by {
            assert(r@[i] == v@[k + i]);
        }
    }
    r
}

/// The candidates that start with a word.
pub open spec fn starting_with(candidates: Seq<Seq<char>>, word: Seq<char>, n: nat) -> Seq<Seq<char>>
    decreases n,
{
    if n == 0 {
        Seq::empty()
    } else {
        let rest = starting_with(candidates, word, (n - 1) as nat);
        if has_prefix(candidates[n - 1], word) {
            rest.push(candidates[n - 1])
        } else {
            rest
        }
    }
}

/// What may be typed in place of the word at the end of a line, and that word.
pub fn complete(typed: &str, candidates: &Vec<String>) -> (r: (String, Vec<String>))
    ensures
        is_last_word(typed@, r.0@),
        texts(r.1@) == starting_with(texts(candidates@), r.0@, candidates@.len()),
{
    let word = last_word(typed);
    let mut out: Vec<String> = Vec::new();
    let mut i: usize = 0;
    let ghost all = texts(candidates@);
    assert(texts(out@) =~= starting_with(all, word@, 0));
    while i < candidates.len()
        invariant
            i <= candidates@.len(),
            all == texts(candidates@),
            texts(out@) == starting_with(all, word@, i as nat),
        decreases candidates@.len() - i,
    {
        assert(all[i as int] == candidates@[i as int]@);
        let ghost before = out@;
        if starts_with(&candidates[i], &word) {
            out.push(candidates[i].as_str().to_owned());
            assert(texts(out@) =~= texts(before).push(all[i as int]));
        }
        i += 1;
    }
    (word, out)
}

} // verus!
