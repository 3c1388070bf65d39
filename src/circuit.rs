use vstd::prelude::*;

use crate::graph::{Graph, Node};
use crate::metrics::{
    age_penalty, audit_component, lemma_risk_score_range, liq_component, total_clamped, total_unclamped,
    util_component, vol_component, ProtocolMetrics, RiskScoringInput, POINT, RISK_MAX, RISK_MIN,
};

verus! {

/// Room left for the nodes that one risk-score circuit appends.
pub const CIRCUIT_ROOM: usize = 64;

/// Number of nodes that one risk-score circuit appends.
pub const SCORE_NODES: usize = 46;

/// `g` extends `cx` by at most `k` nodes.
pub open spec fn grew(cx: Graph, g: Graph, k: int) -> bool {
    &&& g.wf()
    &&& cx.extended_by(g)
    &&& g.nodes.len() <= cx.nodes.len() + k
}

/// The nodes of `select`, appended at index `b`.
pub open spec fn select_nodes(b: int, ind: usize, if_true: usize, if_false: usize) -> Seq<Node> {
    seq![
        Node::Input(1),
        Node::Sub(b as usize, ind),
        Node::Mul(ind, if_true),
        Node::Mul((b + 1) as usize, if_false),
        Node::Add((b + 2) as usize, (b + 3) as usize),
    ]
}

/// The nodes of `floor_at_zero`, appended at index `b`.
pub open spec fn floor_nodes(b: int, x: usize) -> Seq<Node> {
    seq![Node::Input(0), Node::Lt(x, b as usize)] + select_nodes(b + 2, (b + 1) as usize, b as usize, x)
}

/// The nodes of `clamp_min`, appended at index `b`.
pub open spec fn clamp_min_nodes(b: int, x: usize, lo: usize) -> Seq<Node> {
    seq![Node::Lt(x, lo)] + select_nodes(b + 1, b as usize, lo, x)
}

/// The nodes of `clamp_max`, appended at index `b`.
pub open spec fn clamp_max_nodes(b: int, x: usize, hi: usize) -> Seq<Node> {
    seq![Node::Lt(hi, x)] + select_nodes(b + 1, b as usize, hi, x)
}

/// The nodes of `scaled_input`, appended at index `b`.
pub open spec fn scaled_nodes(b: int, x: i64, k: i64) -> Seq<Node> {
    seq![Node::Input(x), Node::Input(k), Node::Mul(b as usize, (b + 1) as usize)]
}

/// The nodes of `offset_input`, appended at index `b`.
pub open spec fn offset_nodes(b: int, base: i64, x: i64, k: i64) -> Seq<Node> {
    seq![
        Node::Input(base),
        Node::Input(x),
        Node::Sub(b as usize, (b + 1) as usize),
        Node::Input(k),
        Node::Mul((b + 2) as usize, (b + 3) as usize),
    ]
}

/// The nodes that compute the five terms of `m`, appended at index `b`. The
/// terms stand at `b + 2`, `b + 5`, `b + 10`, `b + 15` and `b + 27`.
pub open spec fn term_nodes(b: int, m: ProtocolMetrics) -> Seq<Node> {
    scaled_nodes(b, m.utilization as i64, 35)
        + scaled_nodes(b + 3, m.volatility as i64, 30)
        + offset_nodes(b + 6, 3, m.liquidity as i64, (5 * POINT) as i64)
        + offset_nodes(b + 11, 100, m.audit_score as i64, 2000)
        + offset_nodes(b + 16, 1000, m.age_days as i64, 100)
        + floor_nodes(b + 21, (b + 20) as usize)
}

/// The nodes that compute the unclamped total of `m`, appended at index `b`:
/// input nodes bound to the five metrics and to constants, the five terms,
/// and their sum at `b + 31`.
pub open spec fn total_nodes(b: int, m: ProtocolMetrics) -> Seq<Node> {
    term_nodes(b, m)
        + seq![
            Node::Add((b + 2) as usize, (b + 5) as usize),
            Node::Add((b + 28) as usize, (b + 10) as usize),
            Node::Add((b + 29) as usize, (b + 15) as usize),
            Node::Add((b + 30) as usize, (b + 27) as usize),
        ]
}

/// The circuit that scores `m`, appended at index `b`: the nodes of the
/// unclamped total, the two bounds, and the two one-sided clamps. It holds
/// input, arithmetic and comparison nodes only; the score is its last node,
/// at `b + SCORE_NODES - 1`. Circuits for two protocols differ only in the
/// literals of their metric input nodes and in `b`.
pub open spec fn score_nodes(b: int, m: ProtocolMetrics) -> Seq<Node> {
    total_nodes(b, m)
        + seq![Node::Input(RISK_MIN), Node::Input(RISK_MAX)]
        + clamp_min_nodes(b + 34, (b + 31) as usize, (b + 32) as usize)
        + clamp_max_nodes(b + 40, (b + 39) as usize, (b + 33) as usize)
}

/// `s1` and `s2` have the same structure: the same operations on the same
/// operands, with input nodes in the same places but possibly other literals.
pub open spec fn same_structure(s1: Seq<Node>, s2: Seq<Node>) -> bool {
    &&& s1.len() == s2.len()
    &&& forall|k: int|
        0 <= k < s1.len() ==> if #[trigger] s1[k] is Input {
            s2[k] is Input
        } else {
            s1[k] == s2[k]
        }
}

/// The circuits of any two protocols, appended at the same index, differ only
/// in the literals of their input nodes.
pub proof fn lemma_circuits_share_structure(b: int, m1: ProtocolMetrics, m2: ProtocolMetrics)
    ensures
        score_nodes(b, m1).len() == SCORE_NODES,
        same_structure(score_nodes(b, m1), score_nodes(b, m2)),
{
    let s1 = score_nodes(b, m1);
    let s2 = score_nodes(b, m2);
    assert forall|k: int| 0 <= k < s1.len() implies if #[trigger] s1[k] is Input {
        s2[k] is Input
    } else {
        s1[k] == s2[k]
    } by {
        assert(0 <= k < 46);
    }
}

/// Builds `ind * if_true + (1 - ind) * if_false`, which picks one of the two
/// values by a 0/1 indicator without branching.
fn select(cx: &mut Graph, ind: usize, if_true: usize, if_false: usize) -> (r: usize)
    requires
        old(cx).wf(),
        ind < old(cx).nodes.len(),
        if_true < old(cx).nodes.len(),
        if_false < old(cx).nodes.len(),
        old(cx).nodes.len() + 5 < usize::MAX,
        old(cx).value(ind as int) == 0 || old(cx).value(ind as int) == 1,
    ensures
        grew(*old(cx), *final(cx), 5),
        final(cx).nodes@ == old(cx).nodes@ + select_nodes(old(cx).nodes.len() as int, ind, if_true, if_false),
        r == old(cx).nodes.len() + 4,
        final(cx).value(r as int) == if old(cx).value(ind as int) == 1 {
            old(cx).value(if_true as int)
        } else {
            old(cx).value(if_false as int)
        },
{
    let one = cx.input(1);
    let not_ind = cx.sub(one, ind);
    let a = cx.mul(ind, if_true);
    let b = cx.mul(not_ind, if_false);
    let r = cx.add(a, b);
    proof {
        let i = old(cx).value(ind as int);
        let t = old(cx).value(if_true as int);
        let f = old(cx).value(if_false as int);
        assert(cx.value(r as int) == i * t + (1 - i) * f);
        if i == 1 {
            assert(i * t == t) by (nonlinear_arith)
                requires
                    i == 1,
            ;
            assert((1 - i) * f == 0) by (nonlinear_arith)
                requires
                    i == 1,
            ;
        } else {
            assert(i * t == 0) by (nonlinear_arith)
                requires
                    i == 0,
            ;
            assert((1 - i) * f == f) by (nonlinear_arith)
                requires
                    i == 0,
            ;
        }
        assert(cx.nodes@ =~= old(cx).nodes@ + select_nodes(old(cx).nodes.len() as int, ind, if_true, if_false));
    }
    r
}

/// `x` floored at zero: `x < 0 ? 0 : x`, built from a comparison.
fn floor_at_zero(cx: &mut Graph, x: usize) -> (r: usize)
    requires
        old(cx).wf(),
        x < old(cx).nodes.len(),
        old(cx).nodes.len() + 7 < usize::MAX,
    ensures
        grew(*old(cx), *final(cx), 7),
        final(cx).nodes@ == old(cx).nodes@ + floor_nodes(old(cx).nodes.len() as int, x),
        r == old(cx).nodes.len() + 6,
        final(cx).value(r as int) == if old(cx).value(x as int) < 0 {
            0
        } else {
            old(cx).value(x as int)
        },
{
    let zero = cx.input(0);
    let ind = cx.lt(x, zero);
    let r = select(cx, ind, zero, x);
    assert(cx.nodes@ =~= old(cx).nodes@ + floor_nodes(old(cx).nodes.len() as int, x));
    r
}

/// `x` raised to at least the value of node `lo`.
fn clamp_min(cx: &mut Graph, x: usize, lo: usize) -> (r: usize)
    requires
        old(cx).wf(),
        x < old(cx).nodes.len(),
        lo < old(cx).nodes.len(),
        old(cx).nodes.len() + 6 < usize::MAX,
    ensures
        grew(*old(cx), *final(cx), 6),
        final(cx).nodes@ == old(cx).nodes@ + clamp_min_nodes(old(cx).nodes.len() as int, x, lo),
        r == old(cx).nodes.len() + 5,
        final(cx).value(r as int) == if old(cx).value(x as int) < old(cx).value(lo as int) {
            old(cx).value(lo as int)
        } else {
            old(cx).value(x as int)
        },
{
    let ind = cx.lt(x, lo);
    let r = select(cx, ind, lo, x);
    assert(cx.nodes@ =~= old(cx).nodes@ + clamp_min_nodes(old(cx).nodes.len() as int, x, lo));
    r
}

/// `x` lowered to at most the value of node `hi`.
fn clamp_max(cx: &mut Graph, x: usize, hi: usize) -> (r: usize)
    requires
        old(cx).wf(),
        x < old(cx).nodes.len(),
        hi < old(cx).nodes.len(),
        old(cx).nodes.len() + 6 < usize::MAX,
    ensures
        grew(*old(cx), *final(cx), 6),
        final(cx).nodes@ == old(cx).nodes@ + clamp_max_nodes(old(cx).nodes.len() as int, x, hi),
        r == old(cx).nodes.len() + 5,
        final(cx).value(r as int) == if old(cx).value(hi as int) < old(cx).value(x as int) {
            old(cx).value(hi as int)
        } else {
            old(cx).value(x as int)
        },
{
    let ind = cx.lt(hi, x);
    let r = select(cx, ind, hi, x);
    assert(cx.nodes@ =~= old(cx).nodes@ + clamp_max_nodes(old(cx).nodes.len() as int, x, hi));
    r
}

/// An input node holding `x`, multiplied by a constant node holding `k`.
fn scaled_input(cx: &mut Graph, x: i64, k: i64) -> (r: usize)
    requires
        old(cx).wf(),
        old(cx).nodes.len() + 3 < usize::MAX,
    ensures
        grew(*old(cx), *final(cx), 3),
        final(cx).nodes@ == old(cx).nodes@ + scaled_nodes(old(cx).nodes.len() as int, x, k),
        r == old(cx).nodes.len() + 2,
        final(cx).value(r as int) == x * k,
{
    let xt = cx.input(x);
    let kt = cx.input(k);
    let r = cx.mul(xt, kt);
    assert(cx.nodes@ =~= old(cx).nodes@ + scaled_nodes(old(cx).nodes.len() as int, x, k));
    r
}

/// `(base - x) * k`, with `x` an input node and `base`, `k` constant nodes.
fn offset_input(cx: &mut Graph, base: i64, x: i64, k: i64) -> (r: usize)
    requires
        old(cx).wf(),
        old(cx).nodes.len() + 5 < usize::MAX,
    ensures
        grew(*old(cx), *final(cx), 5),
        final(cx).nodes@ == old(cx).nodes@ + offset_nodes(old(cx).nodes.len() as int, base, x, k),
        r == old(cx).nodes.len() + 4,
        final(cx).value(r as int) == (base - x) * k,
{
    let bt = cx.input(base);
    let xt = cx.input(x);
    let d = cx.sub(bt, xt);
    let kt = cx.input(k);
    let r = cx.mul(d, kt);
    assert(cx.nodes@ =~= old(cx).nodes@ + offset_nodes(old(cx).nodes.len() as int, base, x, k));
    r
}

/// Appends the nodes of `term_nodes`, whose values are the five terms.
#[verifier::rlimit(40)]
fn metric_terms(cx: &mut Graph, m: ProtocolMetrics)
    requires
        old(cx).wf(),
        old(cx).nodes.len() + CIRCUIT_ROOM < usize::MAX,
    ensures
        grew(*old(cx), *final(cx), 28),
        final(cx).nodes@ == old(cx).nodes@ + term_nodes(old(cx).nodes.len() as int, m),
        final(cx).value(old(cx).nodes.len() + 2) == util_component(m),
        final(cx).value(old(cx).nodes.len() + 5) == vol_component(m),
        final(cx).value(old(cx).nodes.len() + 10) == liq_component(m),
        final(cx).value(old(cx).nodes.len() + 15) == audit_component(m),
        final(cx).value(old(cx).nodes.len() + 27) == age_penalty(m),
{
    let ghost b = old(cx).nodes.len() as int;
    let ghost s0 = cx.nodes@;
    scaled_input(cx, m.utilization as i64, 35);
    let ghost s1 = cx.nodes@;
    scaled_input(cx, m.volatility as i64, 30);
    let ghost s2 = cx.nodes@;
    offset_input(cx, 3, m.liquidity as i64, 5 * POINT);
    let ghost s3 = cx.nodes@;
    offset_input(cx, 100, m.audit_score as i64, 2000);
    let ghost s4 = cx.nodes@;
    let age_raw = offset_input(cx, 1000, m.age_days as i64, 100);
    let ghost before_floor = *cx;
    floor_at_zero(cx, age_raw);
    proof {
        assert(before_floor.value(age_raw as int) == (1000 - m.age_days) * 100);
        let p1 = scaled_nodes(b, m.utilization as i64, 35);
        let p2 = p1 + scaled_nodes(b + 3, m.volatility as i64, 30);
        let p3 = p2 + offset_nodes(b + 6, 3, m.liquidity as i64, (5 * POINT) as i64);
        let p4 = p3 + offset_nodes(b + 11, 100, m.audit_score as i64, 2000);
        let p5 = p4 + offset_nodes(b + 16, 1000, m.age_days as i64, 100);
        assert(s1 =~= s0 + p1);
        assert(s2 =~= s0 + p2);
        assert(s3 =~= s0 + p3);
        assert(s4 =~= s0 + p4);
        assert(before_floor.nodes@ =~= s0 + p5);
        assert(cx.nodes@ =~= s0 + term_nodes(b, m));
    }
}

/// Appends the nodes of `total_nodes` and returns the node of the unclamped
/// total.
#[verifier::rlimit(40)]
fn unclamped_total(cx: &mut Graph, m: ProtocolMetrics) -> (r: usize)
    requires
        old(cx).wf(),
        old(cx).nodes.len() + CIRCUIT_ROOM < usize::MAX,
    ensures
        grew(*old(cx), *final(cx), 32),
        final(cx).nodes@ == old(cx).nodes@ + total_nodes(old(cx).nodes.len() as int, m),
        r == old(cx).nodes.len() + 31,
        final(cx).value(r as int) == total_unclamped(m),
{
    let b = cx.nodes.len();
    metric_terms(cx, m);
    let ghost terms = *cx;
    let s1 = cx.add(b + 2, b + 5);
    let s2 = cx.add(s1, b + 10);
    let s3 = cx.add(s2, b + 15);
    let total = cx.add(s3, b + 27);
    proof {
        assert(cx.value(s1 as int) == util_component(m) + vol_component(m));
        assert(cx.value(s2 as int) == util_component(m) + vol_component(m) + liq_component(m));
        assert(cx.value((b + 27) as int) == terms.value((b + 27) as int));
        assert(cx.nodes@ =~= terms.nodes@ + seq![
            Node::Add((b + 2) as usize, (b + 5) as usize),
            Node::Add((b + 28) as usize, (b + 10) as usize),
            Node::Add((b + 29) as usize, (b + 15) as usize),
            Node::Add((b + 30) as usize, (b + 27) as usize),
        ]);
        assert(cx.nodes@ =~= old(cx).nodes@ + total_nodes(b as int, m));
    }
    total
}

/// Appends to `cx` the circuit that scores `metrics` and returns its output
/// node. The node holds the risk score exactly, in hundredths of a basis
/// point: 100 times the clamped total in basis points, which is the clamped
/// total in units of 1/10000 of a point.
///
/// The floor at zero and the clamp to [5, 95] points are built from 0/1
/// comparisons, so the graph holds no branch. The clamp raises to the minimum
/// first and then lowers to the maximum, which is right because the minimum
/// lies below the maximum. Only new nodes are appended, exactly those of
/// `score_nodes`: two calls on one graph produce disjoint node sets of the
/// same structure.
#[verifier::rlimit(40)]
pub fn calculate_risk_score(cx: &mut Graph, metrics: &ProtocolMetrics) -> (r: usize)
    requires
        old(cx).wf(),
        old(cx).nodes.len() + CIRCUIT_ROOM < usize::MAX,
    ensures
        grew(*old(cx), *final(cx), CIRCUIT_ROOM as int),
        final(cx).nodes@ == old(cx).nodes@ + score_nodes(old(cx).nodes.len() as int, *metrics),
        r == old(cx).nodes.len() + SCORE_NODES - 1,
        final(cx).value(r as int) == total_clamped(*metrics),
        50000 <= final(cx).value(r as int) <= 950000,
{
    let m = *metrics;
    let ghost b = old(cx).nodes.len() as int;
    let total = unclamped_total(cx, m);
    let lo = cx.input(RISK_MIN);
    let hi = cx.input(RISK_MAX);
    let ghost bounded = cx.nodes@;
    let low_clamped = clamp_min(cx, total, lo);
    let clamped = clamp_max(cx, low_clamped, hi);
    proof {
        lemma_risk_score_range(m);
        assert(bounded =~= old(cx).nodes@ + (total_nodes(b, m) + seq![
            Node::Input(RISK_MIN),
            Node::Input(RISK_MAX),
        ]));
        assert(cx.nodes@ =~= old(cx).nodes@ + score_nodes(b, m));
    }
    clamped
}

/// Builds one graph that scores both protocols, with the two score nodes
/// marked for retrieval in that order, and returns the graph with the two
/// nodes. The graph is the two circuits of `score_nodes`, one after the
/// other.
pub fn build_risk_graph(input: &RiskScoringInput) -> (r: (Graph, usize, usize))
    ensures
        r.0.wf(),
        r.0.nodes@ == score_nodes(0, input.jediswap_metrics) + score_nodes(
            SCORE_NODES as int,
            input.ekubo_metrics,
        ),
        r.0.outputs@ == seq![r.1, r.2],
        r.1 == SCORE_NODES - 1,
        r.2 == 2 * SCORE_NODES - 1,
        r.0.value(r.1 as int) == total_clamped(input.jediswap_metrics),
        r.0.value(r.2 as int) == total_clamped(input.ekubo_metrics),
{
    let mut cx = Graph::new();
    let jedi = calculate_risk_score(&mut cx, &input.jediswap_metrics);
    let ghost mid = cx;
    let ekubo = calculate_risk_score(&mut cx, &input.ekubo_metrics);
    assert(cx.value(jedi as int) == mid.value(jedi as int));
    cx.retrieve(jedi);
    cx.retrieve(ekubo);
    assert(cx.outputs@ =~= seq![jedi, ekubo]);
    assert(cx.nodes@ =~= score_nodes(0, input.jediswap_metrics) + score_nodes(
        SCORE_NODES as int,
        input.ekubo_metrics,
    ));
    (cx, jedi, ekubo)
}

} // verus!
