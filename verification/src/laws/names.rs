//! What tells the values of a graph apart: their names.
use vstd::prelude::*;

use crate::candle::CandleStick;
use crate::extractor::extracted_series_fill_the_window;
use crate::graph::compile::{input_names, is_series_list, node_name, series_name, Op};
use crate::graph::genome::{head_inits, head_inputs, head_nodes, series_inputs, Graph};
use crate::graph::onnx::{InitView, NodeView, ValueView};
use crate::graph::ops::Head;
use crate::graph::schedule::{is_leveling, is_schedule, precedes};
use crate::graph::strategy::{all_features, feature_count_is_the_heads};
use crate::graph::Node;
use crate::num::Num;
use crate::text::{all_digits, decimal, digit, digits_value, is_digit};

verus! {

/// A number is read back from how it is written.
pub proof fn decimals_read_back(n: nat)
    ensures
        all_digits(decimal(n)),
        digits_value(decimal(n)) == n,
    decreases n,
{
    let s = decimal(n);
    assert(digits_value(Seq::empty()) == 0);
    if n < 10 {
        assert(s.drop_last() =~= Seq::empty());
        assert(s.last() == digit(n as int));
    } else {
        decimals_read_back(n / 10);
        assert(s.drop_last() =~= decimal(n / 10));
        assert(s.last() == digit((n % 10) as int));
        assert forall|i: int| 0 <= i < s.len() implies is_digit(#[trigger] s[i]) by {
            if i < s.len() - 1 {
                assert(is_digit(decimal(n / 10)[i]));
            }
        }
    }
}

/// A name without the digits at its end.
pub open spec fn stem(s: Seq<char>) -> Seq<char>
    decreases s.len(),
{
    if s.len() > 0 && is_digit(s.last()) {
        stem(s.drop_last())
    } else {
        s
    }
}

/// The digits at the end of a name.
pub open spec fn ending(s: Seq<char>) -> Seq<char> {
    s.skip(stem(s).len() as int)
}

proof fn lemma_stem(t: Seq<char>, d: Seq<char>)
    requires
        t.len() > 0,
        !is_digit(t.last()),
        forall|i: int| 0 <= i < d.len() ==> is_digit(#[trigger] d[i]),
    ensures
        stem(t + d) == t,
        ending(t + d) == d,
    decreases d.len(),
{
    if d.len() > 0 {
        lemma_stem(t, d.drop_last());
        assert((t + d).drop_last() =~= t + d.drop_last());
    } else {
        assert(t + d =~= t);
    }
    assert((t + d).skip(t.len() as int) =~= d);
}

/// Whether a name is one of node `i`: it ends in the node's number, and is not one of a
/// raw series.
pub open spec fn owned(name: Seq<char>, i: nat) -> bool {
    ending(name) == decimal(i) && stem(name).len() != 2
}

proof fn lemma_owned(prefix: Seq<char>, i: nat)
    requires
        prefix.len() != 1,
    ensures
        owned(prefix + node_name(i), i),
{
    reveal_strlit("n");
    decimals_read_back(i);
    let t = prefix + "n"@;
    assert(t.last() == 'n');
    lemma_stem(t, decimal(i));
    assert(prefix + node_name(i) =~= t + decimal(i));
}

/// The names of constants.
pub open spec fn constant_names(s: Seq<InitView>) -> Seq<Seq<char>> {
    Seq::new(s.len(), |a: int| s[a].name)
}

/// The names of what nodes compute.
pub open spec fn computed_names(s: Seq<NodeView>) -> Seq<Seq<char>> {
    Seq::new(s.len(), |a: int| s[a].output[0])
}

/// The names of what a graph is fed.
pub open spec fn fed_names(s: Seq<ValueView>) -> Seq<Seq<char>> {
    Seq::new(s.len(), |a: int| s[a].name)
}

/// Whether no name occurs twice.
pub open spec fn all_differ(s: Seq<Seq<char>>) -> bool {
    forall|a: int, b: int| 0 <= a < b < s.len() ==> #[trigger] s[a] != #[trigger] s[b]
}

/// Whether no name occurs in both.
pub open spec fn none_shared(s: Seq<Seq<char>>, t: Seq<Seq<char>>) -> bool {
    forall|a: int, b: int| 0 <= a < s.len() && 0 <= b < t.len() ==> #[trigger] s[a] != #[trigger] t[b]
}

/// Whether every name stands for one thing: fed, constant or computed.
pub open spec fn told_apart(fed: Seq<Seq<char>>, constants: Seq<Seq<char>>, computed: Seq<Seq<char>>) -> bool {
    &&& all_differ(fed) && all_differ(constants) && all_differ(computed)
    &&& none_shared(fed, constants) && none_shared(fed, computed) && none_shared(constants, computed)
}

/// Whether every node computes one value.
pub open spec fn one_each(s: Seq<NodeView>) -> bool {
    forall|a: int| 0 <= a < s.len() ==> (#[trigger] s[a]).output.len() == 1
}

proof fn lemma_same_prefix(p: Seq<char>, q: Seq<char>, out: Seq<char>)
    ensures
        p + out == q + out <==> p == q,
{
    if p + out == q + out {
        assert((p + out).len() == (q + out).len());
        assert forall|i: int| 0 <= i < p.len() implies p[i] == q[i] by {
            assert((p + out)[i] == p[i]);
            assert((q + out)[i] == q[i]);
        }
        assert(p =~= q);
    }
}

/// The prefixes of a list of names, each before `out`.
spec fn each_before(prefixes: Seq<Seq<char>>, out: Seq<char>) -> Seq<Seq<char>> {
    Seq::new(prefixes.len(), |a: int| prefixes[a] + out)
}

/// Prefixes that tell apart what an operator writes.
proof fn lemma_prefixes(constants: Seq<Seq<char>>, computed: Seq<Seq<char>>, i: nat)
    requires
        told_apart(Seq::empty(), constants, computed),
        forall|a: int| 0 <= a < constants.len() ==> (#[trigger] constants[a]).len() != 1,
        forall|a: int| 0 <= a < computed.len() ==> (#[trigger] computed[a]).len() != 1,
    ensures
        told_apart(
            Seq::empty(),
            each_before(constants, node_name(i)),
            each_before(computed, node_name(i)),
        ),
        forall|a: int| 0 <= a < constants.len() ==> owned(#[trigger] each_before(constants, node_name(i))[a], i),
        forall|a: int| 0 <= a < computed.len() ==> owned(#[trigger] each_before(computed, node_name(i))[a], i),
{
    let out = node_name(i);
    let (c, d) = (each_before(constants, out), each_before(computed, out));
    assert forall|a: int, b: int| 0 <= a < b < c.len() implies #[trigger] c[a] != #[trigger] c[b] by {
        assert(constants[a] != constants[b]);
        lemma_same_prefix(constants[a], constants[b], out);
    }
    assert forall|a: int, b: int| 0 <= a < b < d.len() implies #[trigger] d[a] != #[trigger] d[b] by {
        assert(computed[a] != computed[b]);
        lemma_same_prefix(computed[a], computed[b], out);
    }
    assert forall|a: int, b: int| 0 <= a < c.len() && 0 <= b < d.len() implies #[trigger] c[a] != #[trigger] d[b] by {
        assert(constants[a] != computed[b]);
        lemma_same_prefix(constants[a], computed[b], out);
    }
    assert forall|a: int| 0 <= a < c.len() implies owned(#[trigger] c[a], i) by {
        assert(constants[a].len() != 1);
        lemma_owned(constants[a], i);
    }
    assert forall|a: int| 0 <= a < d.len() implies owned(#[trigger] d[a], i) by {
        assert(computed[a].len() != 1);
        lemma_owned(computed[a], i);
    }
}

/// What the operators put before a node's name: for constants, and for what is computed.
spec fn prefixes_of(op: Op) -> (Seq<Seq<char>>, Seq<Seq<char>>) {
    let none = Seq::<char>::empty();
    match op {
        Op::Last(_) => (seq!["w_last_"@], seq![none]),
        Op::Roc(_) => (seq!["w_last_"@, "w_roc_"@], seq!["rl_"@, "ra_"@, "rd_"@, none]),
        Op::Atr(_) => (
            seq!["w_atr_"@],
            seq!["ahl_"@, "ahmpc_"@, "aahmpc_"@, "almpc_"@, "aalmpc_"@, "am1_"@, "atr_tr_"@, none],
        ),
        Op::DonchianHigh(_) => (seq!["mh_"@], seq!["mhm_"@, none]),
        Op::DonchianLow(_) => (seq!["ml_"@], seq!["mlm_"@, none]),
        Op::Ema(_) => (seq!["w_ema_"@], seq![none]),
        Op::Ma(_) => (seq!["w_ma_"@], seq![none]),
        Op::Rsi(_) => (
            seq!["w_rsi_"@, "zero_"@],
            seq!["rsi_diff_"@, "rsi_gains_"@, "rsi_neg_"@, "rsi_loss_"@, "rsi_ag_"@, "rsi_al_"@, "rsi_den_"@, none],
        ),
        _ => (Seq::empty(), seq![none]),
    }
}

proof fn lemma_atr_prefixes(op: Op)
    requires
        op is Atr,
    ensures
        told_apart(Seq::empty(), prefixes_of(op).0, prefixes_of(op).1),
        forall|a: int| 0 <= a < prefixes_of(op).0.len() ==> (#[trigger] prefixes_of(op).0[a]).len() != 1,
        forall|a: int| 0 <= a < prefixes_of(op).1.len() ==> (#[trigger] prefixes_of(op).1[a]).len() != 1,
{
    reveal_strlit("w_atr_");
    reveal_strlit("ahl_");
    reveal_strlit("ahmpc_");
    reveal_strlit("aahmpc_");
    reveal_strlit("almpc_");
    reveal_strlit("aalmpc_");
    reveal_strlit("am1_");
    reveal_strlit("atr_tr_");
    assert("ahl_"@[1] != "am1_"@[1]);
    assert("ahmpc_"@[1] != "almpc_"@[1]);
    assert("w_atr_"@[0] != "ahmpc_"@[0]);
    assert("w_atr_"@[0] != "almpc_"@[0]);
    assert("aahmpc_"@[2] != "aalmpc_"@[2]);
    assert("atr_tr_"@[1] != "aahmpc_"@[1]);
    assert("atr_tr_"@[1] != "aalmpc_"@[1]);
    let c = prefixes_of(op).0;
    let d = prefixes_of(op).1;
    assert(c[0] == "w_atr_"@);
    assert(d[0] == "ahl_"@);
    assert(d[1] == "ahmpc_"@);
    assert(d[2] == "aahmpc_"@);
    assert(d[3] == "almpc_"@);
    assert(d[4] == "aalmpc_"@);
    assert(d[5] == "am1_"@);
    assert(d[6] == "atr_tr_"@);
    assert(d[7].len() == 0);
    assert forall|a: int, b: int| 0 <= a < b < d.len() implies #[trigger] d[a] != #[trigger] d[b] by {
        assert(a == 0 || a == 1 || a == 2 || a == 3 || a == 4 || a == 5 || a == 6);
        assert(b == 1 || b == 2 || b == 3 || b == 4 || b == 5 || b == 6 || b == 7);
    }
    assert forall|a: int, b: int| 0 <= a < c.len() && 0 <= b < d.len() implies #[trigger] c[a] != #[trigger] d[b] by {
        assert(b == 0 || b == 1 || b == 2 || b == 3 || b == 4 || b == 5 || b == 6 || b == 7);
    }
}

proof fn lemma_rsi_prefixes(op: Op)
    requires
        op is Rsi,
    ensures
        told_apart(Seq::empty(), prefixes_of(op).0, prefixes_of(op).1),
        forall|a: int| 0 <= a < prefixes_of(op).0.len() ==> (#[trigger] prefixes_of(op).0[a]).len() != 1,
        forall|a: int| 0 <= a < prefixes_of(op).1.len() ==> (#[trigger] prefixes_of(op).1[a]).len() != 1,
{
    reveal_strlit("w_rsi_");
    reveal_strlit("zero_");
    reveal_strlit("rsi_diff_");
    reveal_strlit("rsi_gains_");
    reveal_strlit("rsi_neg_");
    reveal_strlit("rsi_loss_");
    reveal_strlit("rsi_ag_");
    reveal_strlit("rsi_al_");
    reveal_strlit("rsi_den_");
    assert("rsi_diff_"@[4] != "rsi_loss_"@[4]);
    assert("rsi_ag_"@[5] != "rsi_al_"@[5]);
    assert("rsi_neg_"@[4] != "rsi_den_"@[4]);
    let c = prefixes_of(op).0;
    let d = prefixes_of(op).1;
    assert(c[0] == "w_rsi_"@ && c[1] == "zero_"@);
    assert(d[0] == "rsi_diff_"@);
    assert(d[1] == "rsi_gains_"@);
    assert(d[2] == "rsi_neg_"@);
    assert(d[3] == "rsi_loss_"@);
    assert(d[4] == "rsi_ag_"@);
    assert(d[5] == "rsi_al_"@);
    assert(d[6] == "rsi_den_"@);
    assert(d[7].len() == 0);
    assert forall|a: int, b: int| 0 <= a < b < d.len() implies #[trigger] d[a] != #[trigger] d[b] by {
        assert(a == 0 || a == 1 || a == 2 || a == 3 || a == 4 || a == 5 || a == 6);
        assert(b == 1 || b == 2 || b == 3 || b == 4 || b == 5 || b == 6 || b == 7);
    }
    assert forall|a: int, b: int| 0 <= a < c.len() && 0 <= b < d.len() implies #[trigger] c[a] != #[trigger] d[b] by {
        assert(b == 0 || b == 1 || b == 2 || b == 3 || b == 4 || b == 5 || b == 6 || b == 7);
    }
}

proof fn lemma_op_prefixes(op: Op)
    requires
        op !is Head,
    ensures
        told_apart(Seq::empty(), prefixes_of(op).0, prefixes_of(op).1),
        forall|a: int| 0 <= a < prefixes_of(op).0.len() ==> (#[trigger] prefixes_of(op).0[a]).len() != 1,
        forall|a: int| 0 <= a < prefixes_of(op).1.len() ==> (#[trigger] prefixes_of(op).1[a]).len() != 1,
{
    match op {
        Op::Atr(_) => {
            lemma_atr_prefixes(op);
        },
        Op::Rsi(_) => {
            lemma_rsi_prefixes(op);
        },
        _ => {
            reveal_strlit("w_last_");
            reveal_strlit("w_roc_");
            reveal_strlit("rl_");
            reveal_strlit("ra_");
            reveal_strlit("rd_");
            reveal_strlit("mh_");
            reveal_strlit("mhm_");
            reveal_strlit("ml_");
            reveal_strlit("mlm_");
            reveal_strlit("w_ema_");
            reveal_strlit("w_ma_");
            assert("rl_"@[1] != "ra_"@[1]);
            assert("rl_"@[1] != "rd_"@[1]);
            assert("ra_"@[1] != "rd_"@[1]);
            let c = prefixes_of(op).0;
            let d = prefixes_of(op).1;
            if op is Roc {
                assert(c[0] == "w_last_"@ && c[1] == "w_roc_"@);
                assert(d[0] == "rl_"@ && d[1] == "ra_"@ && d[2] == "rd_"@ && d[3].len() == 0);
                assert forall|a: int, b: int| 0 <= a < b < d.len() implies #[trigger] d[a] != #[trigger] d[b] by {
                    assert(a == 0 || a == 1 || a == 2);
                    assert(b == 1 || b == 2 || b == 3);
                }
            }
            assert forall|a: int, b: int| 0 <= a < c.len() && 0 <= b < d.len() implies #[trigger] c[a] != #[trigger] d[b] by {
                assert(c[a].len() != d[b].len());
            }
            assert forall|a: int, b: int| 0 <= a < b < c.len() implies #[trigger] c[a] != #[trigger] c[b] by {
                assert(c[a].len() != c[b].len());
            }
            if op !is Roc {
                assert forall|a: int, b: int| 0 <= a < b < d.len() implies #[trigger] d[a] != #[trigger] d[b] by {
                    assert(d[a].len() != d[b].len());
                }
            }
        },
    }
}

proof fn lemma_op_names(op: Op, ws: int, x: Seq<Seq<char>>, i: nat)
    requires
        op !is Head,
    ensures
        one_each(op.nodes(x, node_name(i))),
        constant_names(op.inits(ws, node_name(i))) == each_before(prefixes_of(op).0, node_name(i)),
        computed_names(op.nodes(x, node_name(i))) == each_before(prefixes_of(op).1, node_name(i)),
{
    let out = node_name(i);
    let none = Seq::<char>::empty();
    assert(none + out =~= out);
    assert(constant_names(op.inits(ws, out)) =~= each_before(prefixes_of(op).0, out));
    assert(computed_names(op.nodes(x, out)) =~= each_before(prefixes_of(op).1, out));
}


proof fn lemma_bare(s: Seq<char>)
    requires
        s.len() > 0,
        !is_digit(s.last()),
    ensures
        ending(s).len() == 0,
{
}

proof fn lemma_head_names(h: Head, features: Seq<char>, i: nat)
    ensures
        ({
            let fed = fed_names(head_inputs(h));
            let constants = constant_names(head_inits(h, i));
            let computed = computed_names(head_nodes(features, i, node_name(i)));
            &&& one_each(head_nodes(features, i, node_name(i)))
            &&& told_apart(fed, constants, computed)
            &&& forall|a: int| 0 <= a < fed.len() ==> ending(#[trigger] fed[a]).len() == 0
            &&& forall|a: int| 0 <= a < constants.len() ==> owned(#[trigger] constants[a], i)
            &&& forall|a: int|
                0 <= a < computed.len() ==> owned(#[trigger] computed[a], i) || ending(computed[a]).len() == 0
        }),
{
    let fed = fed_names(head_inputs(h));
    let constants = constant_names(head_inits(h, i));
    let computed = computed_names(head_nodes(features, i, node_name(i)));
    reveal_strlit("W_pred_flat");
    reveal_strlit("B_pred");
    reveal_strlit("W_pred");
    reveal_strlit("dot");
    reveal_strlit("biased");
    reveal_strlit("rsh_");
    decimals_read_back(i);
    lemma_bare("W_pred_flat"@);
    lemma_bare("B_pred"@);
    lemma_bare("W_pred"@);
    lemma_bare("dot"@);
    lemma_bare("biased"@);
    lemma_stem("rsh_"@, decimal(i));
    lemma_owned(Seq::empty(), i);
    assert(Seq::<char>::empty() + node_name(i) =~= node_name(i));
    assert(fed[0] == "W_pred_flat"@ && fed[1] == "B_pred"@ && fed.len() == 2);
    assert(constants[0] == "rsh_"@ + decimal(i) && constants.len() == 1);
    assert(computed[0] == "W_pred"@ && computed[1] == "dot"@ && computed[2] == "biased"@ && computed[3] == node_name(i));
    assert(computed.len() == 4);
    assert("W_pred"@[0] != "B_pred"@[0]);
    assert("W_pred"@[0] != "biased"@[0]);
    assert("B_pred"@[0] != "biased"@[0]);
    assert("n"@.len() == 1 && stem(node_name(i)).len() == 1) by {
        reveal_strlit("n");
        lemma_stem("n"@, decimal(i));
    }
    assert(stem(constants[0]).len() == 4);
    assert forall|a: int, b: int| 0 <= a < fed.len() && 0 <= b < computed.len() implies #[trigger] fed[a]
        != #[trigger] computed[b] by {
        assert(a == 0 || a == 1);
        assert(b == 0 || b == 1 || b == 2 || b == 3);
    }
    assert forall|a: int, b: int| 0 <= a < b < computed.len() implies #[trigger] computed[a] != #[trigger] computed[b] by {
        assert(a == 0 || a == 1 || a == 2);
        assert(b == 1 || b == 2 || b == 3);
    }
    assert forall|a: int, b: int| 0 <= a < constants.len() && 0 <= b < computed.len() implies #[trigger] constants[a]
        != #[trigger] computed[b] by {
        assert(b == 0 || b == 1 || b == 2 || b == 3);
    }
    assert forall|a: int|
        0 <= a < computed.len() implies owned(#[trigger] computed[a], i) || ending(computed[a]).len() == 0 by {
        assert(a == 0 || a == 1 || a == 2 || a == 3);
    }
}

proof fn lemma_series_names(nodes: Seq<Node>, ids: Seq<usize>, ws: usize)
    requires
        is_series_list(nodes, ids),
    ensures
        all_differ(fed_names(series_inputs(ids, ws))),
        forall|a: int|
            0 <= a < ids.len() ==> stem(#[trigger] fed_names(series_inputs(ids, ws))[a]).len() == 2 && ending(
                fed_names(series_inputs(ids, ws))[a],
            ).len() > 0,
{
    let s = fed_names(series_inputs(ids, ws));
    reveal_strlit("in");
    assert forall|a: int| 0 <= a < ids.len() implies stem(#[trigger] s[a]).len() == 2 && ending(s[a]).len() > 0 by {
        decimals_read_back(ids[a] as nat);
        lemma_stem("in"@, decimal(ids[a] as nat));
        assert(s[a] == series_name(ids[a] as nat));
    }
    assert forall|a: int, b: int| 0 <= a < b < s.len() implies #[trigger] s[a] != #[trigger] s[b] by {
        decimals_read_back(ids[a] as nat);
        decimals_read_back(ids[b] as nat);
        lemma_stem("in"@, decimal(ids[a] as nat));
        lemma_stem("in"@, decimal(ids[b] as nat));
        assert(ids[a] < ids[b]);
        assert(s[a] == series_name(ids[a] as nat) && s[b] == series_name(ids[b] as nat));
    }
}

proof fn lemma_join_differ(a: Seq<Seq<char>>, b: Seq<Seq<char>>)
    requires
        all_differ(a),
        all_differ(b),
        none_shared(a, b),
    ensures
        all_differ(a + b),
{
    assert forall|i: int, j: int| 0 <= i < j < (a + b).len() implies #[trigger] (a + b)[i] != #[trigger] (a + b)[j] by {
        if j < a.len() {
            assert(a[i] != a[j]);
        } else if i >= a.len() {
            assert(b[i - a.len()] != b[j - a.len()]);
        } else {
            assert(a[i] != b[j - a.len()]);
        }
    }
}

proof fn lemma_join_shared(a: Seq<Seq<char>>, b: Seq<Seq<char>>, c: Seq<Seq<char>>, d: Seq<Seq<char>>)
    requires
        none_shared(a, c),
        none_shared(a, d),
        none_shared(b, c),
        none_shared(b, d),
    ensures
        none_shared(a + b, c + d),
{
    assert forall|i: int, j: int| 0 <= i < (a + b).len() && 0 <= j < (c + d).len() implies #[trigger] (a + b)[i]
        != #[trigger] (c + d)[j] by {
        if i < a.len() && j < c.len() {
            assert(a[i] != c[j]);
        } else if i < a.len() {
            assert(a[i] != d[j - c.len()]);
        } else if j < c.len() {
            assert(b[i - a.len()] != c[j]);
        } else {
            assert(b[i - a.len()] != d[j - c.len()]);
        }
    }
}

impl Graph {
    /// Whether a name is one of the raw series or of the first `k` nodes of `order`.
    pub open spec fn is_name(self, name: Seq<char>, order: Seq<usize>, k: nat) -> bool {
        ||| stem(name).len() == 2 && ending(name).len() > 0
        ||| exists|q: int| 0 <= q < k && owned(name, (#[trigger] order[q]) as nat)
        ||| ending(name).len() == 0 && exists|q: int| 0 <= q < k && self.is_head(#[trigger] order[q] as int)
    }

    spec fn all_names(self, s: Seq<Seq<char>>, order: Seq<usize>, k: nat) -> bool {
        forall|a: int| 0 <= a < s.len() ==> self.is_name(#[trigger] s[a], order, k)
    }

    spec fn all_new(self, s: Seq<Seq<char>>, i: int) -> bool {
        forall|a: int|
            0 <= a < s.len() ==> owned(#[trigger] s[a], i as nat) || ending(s[a]).len() == 0 && self.is_head(i)
    }

    proof fn lemma_new(self, old_names: Seq<Seq<char>>, new_names: Seq<Seq<char>>, order: Seq<usize>, k: nat, head: int)
        requires
            k < order.len(),
            self.all_names(old_names, order, k),
            self.all_new(new_names, order[k as int] as int),
            self.is_only_head(head),
            forall|a: int, b: int| 0 <= a < b < order.len() ==> #[trigger] order[a] != #[trigger] order[b],
        ensures
            none_shared(old_names, new_names),
            none_shared(new_names, old_names),
    {
        let i = order[k as int] as nat;
        decimals_read_back(i);
        assert forall|a: int, b: int| 0 <= a < old_names.len() && 0 <= b < new_names.len() implies #[trigger] old_names[a]
            != #[trigger] new_names[b] by {
            let (x, y) = (old_names[a], new_names[b]);
            assert(self.is_name(x, order, k));
            if exists|q: int| 0 <= q < k && owned(x, (#[trigger] order[q]) as nat) {
                let q = choose|q: int| 0 <= q < k && owned(x, (#[trigger] order[q]) as nat);
                decimals_read_back(order[q] as nat);
                assert(order[q] != order[k as int]);
            } else if ending(x).len() == 0 && exists|q: int| 0 <= q < k && self.is_head(#[trigger] order[q] as int) {
                let q = choose|q: int| 0 <= q < k && self.is_head(#[trigger] order[q] as int);
                assert(order[q] != order[k as int]);
            }
        }
    }

    proof fn lemma_still_names(self, s: Seq<Seq<char>>, t: Seq<Seq<char>>, order: Seq<usize>, k: nat)
        requires
            k < order.len(),
            self.all_names(s, order, k),
            self.all_new(t, order[k as int] as int),
        ensures
            self.all_names(s + t, order, k + 1),
    {
        assert forall|a: int| 0 <= a < (s + t).len() implies self.is_name(#[trigger] (s + t)[a], order, k + 1) by {
            if a < s.len() {
                let x = s[a];
                assert(self.is_name(x, order, k));
                if exists|q: int| 0 <= q < k && owned(x, (#[trigger] order[q]) as nat) {
                    let q = choose|q: int| 0 <= q < k && owned(x, (#[trigger] order[q]) as nat);
                    assert(0 <= q < k + 1 && owned(x, order[q] as nat));
                } else if ending(x).len() == 0 && exists|q: int| 0 <= q < k && self.is_head(#[trigger] order[q] as int) {
                    let q = choose|q: int| 0 <= q < k && self.is_head(#[trigger] order[q] as int);
                    assert(0 <= q < k + 1 && self.is_head(order[q] as int));
                }
            } else {
                let y = t[a - s.len()];
                let q = k as int;
                assert(0 <= q < k + 1);
                assert(owned(y, order[q] as nat) || ending(y).len() == 0 && self.is_head(order[q] as int));
            }
        }
    }

    proof fn lemma_written_names(self, ids: Seq<usize>, order: Seq<usize>, head: int, k: nat)
        requires
            is_series_list(self.nodes@, ids),
            self.is_only_head(head),
            k <= order.len(),
            forall|q: int| 0 <= q < order.len() ==> (#[trigger] order[q]) < self.nodes@.len(),
            forall|a: int, b: int| 0 <= a < b < order.len() ==> #[trigger] order[a] != #[trigger] order[b],
        ensures
            ({
                let g = self.written(ids, order, k);
                &&& one_each(g.node)
                &&& told_apart(fed_names(g.input), constant_names(g.initializer), computed_names(g.node))
                &&& self.all_names(fed_names(g.input), order, k)
                &&& self.all_names(constant_names(g.initializer), order, k)
                &&& self.all_names(computed_names(g.node), order, k)
            }),
        decreases k,
    {
        if k == 0 {
            lemma_series_names(self.nodes@, ids, self.window_size);
        } else {
            let m = (k - 1) as nat;
            self.lemma_written_names(ids, order, head, m);
            let g = self.written(ids, order, m);
            let after = self.written(ids, order, k);
            let i = order[m as int] as int;
            let x = input_names(self.nodes@[i].inputs@);
            let out = node_name(i as nat);
            let (inputs, inits, nodes) = match self.op_at(i) {
                Op::Head(h) => (head_inputs(h), head_inits(h, i as nat), head_nodes(x[0], i as nat, out)),
                op => (Seq::empty(), op.inits(self.window_size as int, out), op.nodes(x, out)),
            };
            let (fed, constants, computed) = (fed_names(inputs), constant_names(inits), computed_names(nodes));
            match self.op_at(i) {
                Op::Head(h) => {
                    assert(self.is_head(i));
                    lemma_head_names(h, x[0], i as nat);
                },
                op => {
                    lemma_op_names(op, self.window_size as int, x, i as nat);
                    lemma_op_prefixes(op);
                    lemma_prefixes(prefixes_of(op).0, prefixes_of(op).1, i as nat);
                    assert(fed =~= Seq::empty());
                },
            }
            assert(self.all_new(fed, i) && self.all_new(constants, i) && self.all_new(computed, i));
            assert(told_apart(fed, constants, computed));
            let (f0, c0, d0) = (fed_names(g.input), constant_names(g.initializer), computed_names(g.node));
            assert(fed_names(after.input) =~= f0 + fed);
            assert(constant_names(after.initializer) =~= c0 + constants);
            assert(computed_names(after.node) =~= d0 + computed);
            assert(after.node =~= g.node + nodes);
            self.lemma_new(f0, fed, order, m, head);
            self.lemma_new(f0, constants, order, m, head);
            self.lemma_new(f0, computed, order, m, head);
            self.lemma_new(c0, fed, order, m, head);
            self.lemma_new(c0, constants, order, m, head);
            self.lemma_new(c0, computed, order, m, head);
            self.lemma_new(d0, fed, order, m, head);
            self.lemma_new(d0, constants, order, m, head);
            self.lemma_new(d0, computed, order, m, head);
            lemma_join_differ(f0, fed);
            lemma_join_differ(c0, constants);
            lemma_join_differ(d0, computed);
            lemma_join_shared(f0, fed, c0, constants);
            lemma_join_shared(f0, fed, d0, computed);
            lemma_join_shared(c0, constants, d0, computed);
            self.lemma_still_names(f0, fed, order, m);
            self.lemma_still_names(c0, constants, order, m);
            self.lemma_still_names(d0, computed, order, m);
        }
    }

    /// In a compiled genome every name stands for one thing: no name is fed, constant or
    /// computed twice, or two of these. So what the nodes compute is settled, one after
    /// the other, by what the graph is fed.
    pub proof fn names_stand_for_one_thing_each(self, ids: Seq<usize>, order: Seq<usize>, head: int)
        requires
            self.is_plan(ids, order, head),
            self.is_only_head(head),
        ensures
            one_each(self.compiled(ids, order, head).node),
            told_apart(
                fed_names(self.compiled(ids, order, head).input),
                constant_names(self.compiled(ids, order, head).initializer),
                computed_names(self.compiled(ids, order, head).node),
            ),
    {
        let lv = choose|lv: Seq<nat>| is_leveling(self.nodes@, lv) && is_schedule(lv, order);
        assert(lv.len() == self.nodes@.len());
        assert forall|q: int| 0 <= q < order.len() implies (#[trigger] order[q]) < self.nodes@.len() by {
            assert(order[q] < lv.len());
        }
        assert forall|a: int, b: int| 0 <= a < b < order.len() implies #[trigger] order[a] != #[trigger] order[b] by {
            assert(precedes(lv, order[a] as int, order[b] as int));
        }
        self.lemma_written_names(ids, order, head, order.len());
    }

    /// The compiled graph puts out the head's prediction, as wide as the head, and next
    /// to it an average true range where the genome has one.
    pub proof fn a_compiled_genome_puts_out_its_head(self, ids: Seq<usize>, order: Seq<usize>, head: int)
        requires
            self.is_plan(ids, order, head),
        ensures
            ({
                let c = self.compiled(ids, order, head);
                &&& self.is_head(head)
                &&& c.output.len() >= 1
                &&& c.output[0].name == node_name(head as nat)
                &&& c.output[0].width == self.op_at(head)->Head_0.n_out as i64
                &&& c.output.len() == 2 <==> exists|i: int| 0 <= i < self.nodes@.len() && #[trigger] self.op_at(i) is Atr
                &&& c.output.len() == 2 ==> exists|i: int|
                    0 <= i < self.nodes@.len() && #[trigger] self.op_at(i) is Atr && c.output[1].name == node_name(i as nat)
            }),
    {
        let lv = choose|lv: Seq<nat>| is_leveling(self.nodes@, lv) && is_schedule(lv, order);
        assert(lv.len() == self.nodes.len());
        self.lemma_some_head(order, order.len());
        self.lemma_some_atr(order, order.len());
        let n = order.len();
        if let Some(a) = self.last_atr(order, n) {
            assert(self.op_at(a as int) is Atr);
            let q = choose|q: int| 0 <= q < n && #[trigger] order[q] == a;
            assert(order[q] < lv.len());
        } else if exists|i: int| 0 <= i < self.nodes@.len() && #[trigger] self.op_at(i) is Atr {
            let i = choose|i: int| 0 <= i < self.nodes@.len() && #[trigger] self.op_at(i) is Atr;
            assert(i < lv.len() == self.nodes.len());
            assert(order.contains(i as usize));
            let q = choose|q: int| 0 <= q < n && order[q] == i as usize;
            assert(self.op_at(order[q] as int) is Atr);
        }
    }

    proof fn lemma_some_head(self, order: Seq<usize>, k: nat)
        requires
            k <= order.len(),
        ensures
            self.last_head(order, k) matches Some(h) ==> self.is_head(h as int),
        decreases k,
    {
        if k > 0 {
            self.lemma_some_head(order, (k - 1) as nat);
        }
    }

    proof fn lemma_some_atr(self, order: Seq<usize>, k: nat)
        requires
            k <= order.len(),
        ensures
            self.last_atr(order, k) matches Some(a) ==> self.op_at(a as int) is Atr && exists|q: int|
                0 <= q < k && #[trigger] order[q] == a,
            self.last_atr(order, k) is None ==> forall|q: int| 0 <= q < k ==> !(self.op_at(#[trigger] order[q] as int) is Atr),
        decreases k,
    {
        if k > 0 {
            self.lemma_some_atr(order, (k - 1) as nat);
            assert(order[k - 1] == order[k - 1]);
        }
    }

    /// A model is fed tensors of the sizes that it asks for, in the order in which it
    /// asks for them: where it reads every series of its extractors, the series first,
    /// then the weights and the biases of its head.
    pub proof fn a_model_is_fed_what_it_asks_for(
        self,
        ids: Seq<usize>,
        order: Seq<usize>,
        head: int,
        candles: Seq<CandleStick>,
        params: Seq<Num>,
        a: int,
    )
        requires
            self.wired(),
            self.is_plan(ids, order, head),
            self.is_only_head(head),
            candles.len() > 0,
            ids.len() == 4 * self.extractors@.len(),
            forall|e: int|
                0 <= e < self.extractors@.len() ==> (#[trigger] self.extractors@[e]).window == self.window_size > 0,
            self.op_at(head)->Head_0.n_out == self.num_of_grids,
            0 <= a < self.compiled(ids, order, head).input.len(),
        ensures
            self.feed(candles, params).len() == self.compiled(ids, order, head).input.len(),
            self.feed(candles, params)[a].len() == self.compiled(ids, order, head).input[a].width,
    {
        let lv = choose|lv: Seq<nat>| is_leveling(self.nodes@, lv) && is_schedule(lv, order);
        assert(lv.len() == self.nodes.len());
        assert(head < lv.len());
        assert(order.contains(head as usize));
        let at = choose|q: int| 0 <= q < order.len() && order[q] == head as usize;
        assert forall|x: int, y: int| 0 <= x < y < order.len() implies #[trigger] order[x] != #[trigger] order[y] by {
            assert(precedes(lv, order[x] as int, order[y] as int));
        }
        self.lemma_inputs(ids, order, head, at, order.len());
        self.lemma_features(candles, self.extractors@.len());
        feature_count_is_the_heads(self, head);
        let h = self.op_at(head)->Head_0;
        assert(self.nodes@[head].op < self.ops@.len());
        assert(self.features_or_zero() == h.n_feat);
        assert(self.compiled(ids, order, head).input =~= series_inputs(ids, self.window_size) + head_inputs(h));
    }

    proof fn lemma_inputs(self, ids: Seq<usize>, order: Seq<usize>, head: int, at: int, k: nat)
        requires
            self.is_only_head(head),
            k <= order.len(),
            0 <= at < order.len(),
            order[at] == head,
            forall|x: int, y: int| 0 <= x < y < order.len() ==> #[trigger] order[x] != #[trigger] order[y],
            forall|q: int| 0 <= q < order.len() ==> (#[trigger] order[q]) < self.nodes@.len(),
        ensures
            self.written(ids, order, k).input == (if at < k {
                series_inputs(ids, self.window_size) + head_inputs(self.op_at(head)->Head_0)
            } else {
                series_inputs(ids, self.window_size)
            }),
        decreases k,
    {
        if k > 0 {
            self.lemma_inputs(ids, order, head, at, (k - 1) as nat);
            let i = order[k - 1] as int;
            if self.is_head(i) {
                assert(i == head);
                if at < k - 1 {
                    assert(order[at] != order[k - 1]);
                } else if at > k - 1 {
                    assert(order[k - 1] != order[at]);
                }
            } else {
                assert(at != k - 1);
            }
        }
    }

    proof fn lemma_features(self, candles: Seq<CandleStick>, n: nat)
        requires
            candles.len() > 0,
            n <= self.extractors@.len(),
            forall|e: int|
                0 <= e < self.extractors@.len() ==> (#[trigger] self.extractors@[e]).window == self.window_size > 0,
        ensures
            all_features(self.extractors@, candles, n).len() == 4 * n,
            forall|b: int|
                0 <= b < 4 * n ==> (#[trigger] all_features(self.extractors@, candles, n)[b]).len()
                    == self.window_size,
        decreases n,
    {
        if n > 0 {
            self.lemma_features(candles, (n - 1) as nat);
            let e = self.extractors@[n - 1];
            assert(e.window == self.window_size);
            extracted_series_fill_the_window(e, candles, 0);
            extracted_series_fill_the_window(e, candles, 1);
            extracted_series_fill_the_window(e, candles, 2);
            extracted_series_fill_the_window(e, candles, 3);
            let rest = all_features(self.extractors@, candles, (n - 1) as nat);
            let all = all_features(self.extractors@, candles, n);
            assert forall|b: int| 0 <= b < 4 * n implies (#[trigger] all[b]).len() == self.window_size by {
                if b < rest.len() {
                    assert(all[b] == rest[b]);
                } else {
                    let c = b - rest.len();
                    assert(c == 0 || c == 1 || c == 2 || c == 3);
                    assert(all[b] == e.features(candles)[c]);
                }
            }
        }
    }
}

} // verus!
