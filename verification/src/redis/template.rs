//! Keys with places to fill in, such as `backtest:job:{job_id}:events`.
use vstd::prelude::*;

use crate::json::{member_text, member_texts};
use crate::text::{char_at, chars_of, find_char, lemma_char_at, same, text_of};

verus! {

/// A piece of a template.
#[derive(Debug)]
pub enum Segment {
    /// Text that stands as it is.
    Text(String),
    /// The name of a place to fill in.
    Field(String),
}

/// What a piece of a template holds.
pub enum SegmentView {
    Text(Seq<char>),
    Field(Seq<char>),
}

impl View for Segment {
    type V = SegmentView;

    open spec fn view(&self) -> SegmentView {
        match self {
            Segment::Text(s) => SegmentView::Text(s@),
            Segment::Field(s) => SegmentView::Field(s@),
        }
    }
}

/// What the pieces hold.
pub open spec fn pieces(v: Seq<Segment>) -> Seq<SegmentView> {
    Seq::new(v.len(), |i: int| v[i]@)
}

/// The pieces of a template: a name between `{` and the next `}` is a place to
/// fill in; an opening brace that is not closed, and braces with nothing
/// between them, stand as they are.
pub open spec fn parsed(t: Seq<char>) -> Seq<SegmentView>
    decreases t.len(),
{
    let k = char_at(t, '{');
    if t.len() == 0 || k < 0 || k > t.len() {
        Seq::empty()
    } else if k > 0 {
        seq![SegmentView::Text(t.take(k))] + parsed(t.skip(k))
    } else {
        let rest = t.skip(1);
        let e = char_at(rest, '}');
        if e < 0 || e >= rest.len() {
            seq![SegmentView::Text(t)]
        } else if e == 0 {
            seq![SegmentView::Text(t.take(2))] + parsed(t.skip(2))
        } else {
            seq![SegmentView::Field(rest.take(e))] + parsed(t.skip(e + 2))
        }
    }
}

/// What a piece becomes.
pub open spec fn filled_one(s: SegmentView, m: Map<Seq<char>, Seq<char>>) -> Seq<char> {
    match s {
        SegmentView::Text(t) => t,
        SegmentView::Field(f) => if m.contains_key(f) {
            m[f]
        } else {
            seq!['{'] + f + seq!['}']
        },
    }
}

/// The text that the first `n` pieces become. A place without a value keeps its
/// name, braces and all.
pub open spec fn filled(s: Seq<SegmentView>, m: Map<Seq<char>, Seq<char>>, n: nat) -> Seq<char>
    decreases n,
{
    if n == 0 {
        Seq::empty()
    } else {
        filled(s, m, (n - 1) as nat) + filled_one(s[n - 1], m)
    }
}

/// The text that a template becomes.
pub open spec fn rendered(t: Seq<char>, m: Map<Seq<char>, Seq<char>>) -> Seq<char> {
    filled(parsed(t), m, parsed(t).len())
}

/// Takes a template apart.
pub fn parse_template(template: &str) -> (r: Vec<Segment>)
    ensures
        pieces(r@) == parsed(template@),
{
    let v = chars_of(template);
    let n: usize = v.len();
    let mut out: Vec<Segment> = Vec::new();
    let mut i: usize = 0;
    proof {
        assert(v@.subrange(0, n as int) =~= template@);
        assert(pieces(out@) + parsed(template@) =~= parsed(template@));
    }
    while i < n
        invariant
            i <= n == v@.len(),
            v@ == template@,
            pieces(out@) + parsed(v@.subrange(i as int, n as int)) == parsed(template@),
        decreases n - i,
    {
        let ghost t = v@.subrange(i as int, n as int);
        let ghost before = out@;
        let k = find_char(&v, i, '{');
        let ghost i0 = i as int;
        proof {
            lemma_char_at(t, '{');
        }
        let piece: Segment;
        if k > i {
            piece = Segment::Text(text_of(&v, i, k));
            proof {
                assert(t.take(k - i) =~= v@.subrange(i0, k as int));
                assert(t.skip(k - i) =~= v@.subrange(k as int, n as int));
            }
            i = k;
        } else {
            let e = find_char(&v, i + 1, '}');
            let ghost rest = v@.subrange(i + 1, n as int);
            proof {
                assert(t.skip(1) =~= rest);
                lemma_char_at(rest, '}');
            }
            if e == n {
                piece = Segment::Text(text_of(&v, i, n));
                i = n;
                proof {
                    assert(v@.subrange(i as int, n as int).len() == 0);
                    assert(parsed(t) =~= seq![SegmentView::Text(t)] + parsed(v@.subrange(i as int, n as int)));
                }
            } else if e == i + 1 {
                piece = Segment::Text(text_of(&v, i, i + 2));
                proof {
                    assert(t.take(2) =~= v@.subrange(i0, i0 + 2));
                    assert(t.skip(2) =~= v@.subrange(i0 + 2, n as int));
                }
                i += 2;
            } else {
                piece = Segment::Field(text_of(&v, i + 1, e));
                proof {
                    assert(rest.take(e - i0 - 1) =~= v@.subrange(i0 + 1, e as int));
                    assert(t.skip(e - i0 + 1) =~= v@.subrange(e + 1, n as int));
                }
                i = e + 1;
            }
        }
        assert(parsed(t) =~= seq![piece@] + parsed(v@.subrange(i as int, n as int)));
        let ghost p = piece@;
        out.push(piece);
        proof {
            assert(pieces(out@) =~= pieces(before).push(p));
            assert(pieces(before) + (seq![p] + parsed(v@.subrange(i as int, n as int))) =~= pieces(out@) + parsed(
                v@.subrange(i as int, n as int),
            ));
        }
    }
    proof {
        assert(v@.subrange(i as int, n as int) =~= Seq::<char>::empty());
        assert(pieces(out@) + Seq::<SegmentView>::empty() =~= pieces(out@));
    }
    out
}

/// The names and values of a list; of two values for one name, the first.
pub open spec fn listed(fields: Seq<(String, String)>) -> Map<Seq<char>, Seq<char>>
    decreases fields.len(),
{
    if fields.len() == 0 {
        Map::empty()
    } else {
        listed(fields.skip(1)).insert(fields[0].0@, fields[0].1@)
    }
}

fn look_up<'a>(fields: &'a Vec<(String, String)>, name: &str) -> (r: Option<&'a String>)
    ensures
        r is Some <==> listed(fields@).contains_key(name@),
        r matches Some(v) ==> v@ == listed(fields@)[name@],
{
    let mut i: usize = 0;
    assert(fields@.skip(0) =~= fields@);
    while i < fields.len()
        invariant
            i <= fields@.len(),
            listed(fields@).contains_key(name@) == listed(fields@.skip(i as int)).contains_key(name@),
            listed(fields@).contains_key(name@) ==> listed(fields@)[name@] == listed(fields@.skip(i as int))[name@],
        decreases fields@.len() - i,
    {
        assert(fields@.skip(i as int).skip(1) =~= fields@.skip(i + 1));
        if same(&fields[i].0, name) {
            return Some(&fields[i].1);
        }
        i += 1;
    }
    None
}

fn put_field(out: &mut String, name: &str, value: Option<&str>)
    ensures
        value matches Some(v) ==> final(out)@ == old(out)@ + v@,
        value is None ==> final(out)@ == old(out)@ + (seq!['{'] + name@ + seq!['}']),
{
    let ghost before = out@;
    match value {
        Some(v) => {
            out.append(v);
        },
        None => {
            out.push('{');
            out.append(name);
            out.push('}');
            assert(out@ =~= before + (seq!['{'] + name@ + seq!['}']));
        },
    }
}

/// Fills a template in from a list of names and values.
pub fn render_fields(template: &str, fields: &Vec<(String, String)>) -> (r: String)
    ensures
        r@ == rendered(template@, listed(fields@)),
{
    let segments = parse_template(template);
    let mut out = String::new();
    let mut i: usize = 0;
    while i < segments.len()
        invariant
            i <= segments@.len(),
            pieces(segments@) == parsed(template@),
            out@ == filled(pieces(segments@), listed(fields@), i as nat),
        decreases segments@.len() - i,
    {
        assert(pieces(segments@)[i as int] == segments@[i as int]@);
        match &segments[i] {
            Segment::Text(t) => {
                out.append(t);
            },
            Segment::Field(f) => {
                match look_up(fields, f) {
                    Some(v) => put_field(&mut out, f, Some(v)),
                    None => put_field(&mut out, f, None),
                }
            },
        }
        i += 1;
    }
    out
}

/// Fills a template in with the members of a JSON object.
pub fn render_template(template: &str, payload: &serde_json::Value) -> (r: String)
    ensures
        r@ == rendered(template@, member_texts(*payload)),
{
    let segments = parse_template(template);
    let mut out = String::new();
    let mut i: usize = 0;
    while i < segments.len()
        invariant
            i <= segments@.len(),
            pieces(segments@) == parsed(template@),
            out@ == filled(pieces(segments@), member_texts(*payload), i as nat),
        decreases segments@.len() - i,
    {
        assert(pieces(segments@)[i as int] == segments@[i as int]@);
        match &segments[i] {
            Segment::Text(t) => {
                out.append(t);
            },
            Segment::Field(f) => {
                match member_text(payload, f) {
                    Some(v) => put_field(&mut out, f, Some(&v)),
                    None => put_field(&mut out, f, None),
                }
            },
        }
        i += 1;
    }
    out
}

/// A template without an opening brace stands as it is, whatever the values.
pub proof fn plain_templates_stand(t: Seq<char>, m: Map<Seq<char>, Seq<char>>)
    requires
        forall|i: int| 0 <= i < t.len() ==> t[i] != '{',
    ensures
        rendered(t, m) == t,
{
    lemma_char_at(t, '{');
    if t.len() > 0 {
        let k = char_at(t, '{');
        assert(k == t.len());
        assert(t.skip(k) =~= Seq::<char>::empty());
        assert(t.take(k) =~= t);
        assert(parsed(t.skip(k)) =~= Seq::<SegmentView>::empty());
        assert(parsed(t) =~= seq![SegmentView::Text(t)]);
        reveal_with_fuel(filled, 2);
        assert(rendered(t, m) =~= t);
    } else {
        assert(rendered(t, m) =~= t);
    }
}

/// A template stands as it is where no place in it has a value.
pub proof fn templates_without_values_stand(t: Seq<char>)
    ensures
        rendered(t, Map::empty()) == t,
    decreases t.len(),
{
    let m = Map::<Seq<char>, Seq<char>>::empty();
    lemma_char_at(t, '{');
    let k = char_at(t, '{');
    if t.len() == 0 {
        assert(rendered(t, m) =~= t);
    } else if k > 0 {
        templates_without_values_stand(t.skip(k));
        lemma_filled_head(SegmentView::Text(t.take(k)), parsed(t.skip(k)), m, parsed(t.skip(k)).len());
        assert(t.take(k) + t.skip(k) =~= t);
    } else {
        let rest = t.skip(1);
        lemma_char_at(rest, '}');
        let e = char_at(rest, '}');
        if e >= rest.len() {
            reveal_with_fuel(filled, 2);
            assert(rendered(t, m) =~= t);
        } else if e == 0 {
            templates_without_values_stand(t.skip(2));
            lemma_filled_head(SegmentView::Text(t.take(2)), parsed(t.skip(2)), m, parsed(t.skip(2)).len());
            assert(t.take(2) + t.skip(2) =~= t);
        } else {
            templates_without_values_stand(t.skip(e + 2));
            lemma_filled_head(SegmentView::Field(rest.take(e)), parsed(t.skip(e + 2)), m, parsed(t.skip(e + 2)).len());
            assert((seq!['{'] + rest.take(e) + seq!['}']) + t.skip(e + 2) =~= t);
        }
    }
}

proof fn lemma_filled_head(h: SegmentView, s: Seq<SegmentView>, m: Map<Seq<char>, Seq<char>>, n: nat)
    requires
        n <= s.len(),
    ensures
        filled(seq![h] + s, m, n + 1) == filled_one(h, m) + filled(s, m, n),
    decreases n,
{
    let all = seq![h] + s;
    if n == 0 {
        reveal_with_fuel(filled, 2);
        assert(all[0] == h);
        assert(filled(all, m, 1) =~= filled_one(h, m) + filled(s, m, 0));
    } else {
        lemma_filled_head(h, s, m, (n - 1) as nat);
        assert(all[n as int] == s[n - 1]);
        assert(filled(all, m, n + 1) =~= filled_one(h, m) + filled(s, m, n));
    }
}

} // verus!
