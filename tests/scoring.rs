use risk_scoring::circuit::{build_risk_graph, calculate_risk_score, SCORE_NODES};
use risk_scoring::graph::{Graph, Node};
use risk_scoring::metrics::{risk_score, ProtocolMetrics, RiskScoringInput};

fn metrics(utilization: u32, volatility: u32, liquidity: u32, audit_score: u32, age_days: u32) -> ProtocolMetrics {
    ProtocolMetrics { utilization, volatility, liquidity, audit_score, age_days }
}

/// The exact score that the circuit computes, in hundredths of a basis point.
fn graph_score(m: &ProtocolMetrics) -> i64 {
    let mut cx = Graph::new();
    let risk = calculate_risk_score(&mut cx, m);
    let vals = cx.evaluate().expect("values fit");
    vals[risk]
}

#[test]
fn concrete_scenario_mid_values() {
    let m = metrics(5000, 5000, 2, 80, 200);
    assert_eq!(risk_score(&m), 4950);
    assert_eq!(graph_score(&m), 495000);
}

#[test]
fn liquidity_one_versus_three_shifts_by_thousand() {
    let low = metrics(5000, 5000, 1, 80, 200);
    let high = metrics(5000, 5000, 3, 80, 200);
    assert_eq!(risk_score(&low), 5450);
    assert_eq!(risk_score(&high), 4450);
    assert_eq!(risk_score(&low) - risk_score(&high), 1000);
    assert_eq!(graph_score(&low) - graph_score(&high), 100000);
}

#[test]
fn output_stays_within_bounds() {
    for u in [0u32, 1, 2500, 9999, 10000] {
        for v in [0u32, 3333, 10000] {
            for l in [1u32, 2, 3] {
                for a in [0u32, 50, 100] {
                    for d in [0u32, 1, 999, 1000, 100000] {
                        let m = metrics(u, v, l, a, d);
                        let r = risk_score(&m);
                        assert!((500..=9500).contains(&r));
                        let exact = graph_score(&m);
                        assert!((50000..=950000).contains(&exact));
                        assert_eq!(exact / 100, r as i64);
                    }
                }
            }
        }
    }
}

#[test]
fn utilization_raises_and_audit_lowers_the_score() {
    let base = metrics(4000, 4000, 2, 60, 300);
    assert!(risk_score(&metrics(6000, 4000, 2, 60, 300)) > risk_score(&base));
    assert!(risk_score(&metrics(4000, 4000, 2, 90, 300)) < risk_score(&base));
    assert!(risk_score(&metrics(4000, 4000, 3, 60, 300)) < risk_score(&base));
}

#[test]
fn age_penalty_vanishes_after_thousand_days() {
    let at = risk_score(&metrics(5000, 5000, 2, 80, 1000));
    let later = risk_score(&metrics(5000, 5000, 2, 80, 40000));
    assert_eq!(at, later);
    assert_eq!(at, 4150);
    // one day short of the floor still pays a fraction of a point
    assert_eq!(risk_score(&metrics(5000, 5000, 2, 80, 999)), 4151);
}

#[test]
fn clamps_to_both_bounds() {
    let safest = metrics(0, 0, 3, 100, 5000);
    assert_eq!(risk_score(&safest), 500);
    assert_eq!(graph_score(&safest), 50000);
    let riskiest = metrics(10000, 10000, 1, 0, 0);
    assert_eq!(risk_score(&riskiest), 9500);
    assert_eq!(graph_score(&riskiest), 950000);
}

#[test]
fn out_of_domain_metrics_still_score() {
    let m = metrics(u32::MAX, u32::MAX, u32::MAX, u32::MAX, u32::MAX);
    assert_eq!(risk_score(&m), 500);
    assert_eq!(graph_score(&m), 50000);
    let m = metrics(20000, 0, 0, 0, 0);
    assert_eq!(risk_score(&m), 9500);
}

#[test]
fn two_protocols_share_one_graph() {
    let input = RiskScoringInput {
        jediswap_metrics: metrics(5000, 5000, 2, 80, 200),
        ekubo_metrics: metrics(0, 0, 3, 100, 5000),
    };
    let (g, jedi, ekubo) = build_risk_graph(&input);
    assert_eq!((jedi, ekubo), (SCORE_NODES - 1, 2 * SCORE_NODES - 1));
    assert_eq!(g.nodes.len(), 2 * SCORE_NODES);
    assert_eq!(g.outputs, vec![jedi, ekubo]);
    let vals = g.evaluate().expect("values fit");
    assert_eq!(vals[jedi], 495000);
    assert_eq!(vals[ekubo], 50000);
}

#[test]
fn graph_nodes_only_refer_backwards() {
    let mut cx = Graph::new();
    let first = cx.input(7);
    let risk = calculate_risk_score(&mut cx, &metrics(1, 2, 3, 4, 5));
    assert_eq!(cx.nodes[first], Node::Input(7));
    assert!(risk > first);
    for (i, n) in cx.nodes.iter().enumerate() {
        match *n {
            Node::Input(_) => {}
            Node::Add(a, b) | Node::Sub(a, b) | Node::Mul(a, b) | Node::Lt(a, b) => {
                assert!(a < i && b < i)
            }
            Node::DivConst(a, c) => assert!(a < i && c > 0),
        }
    }
}

#[test]
fn evaluation_reports_overflow() {
    let mut cx = Graph::new();
    let big = cx.input(i64::MAX);
    let one = cx.input(1);
    cx.add(big, one);
    assert_eq!(cx.evaluate(), None);
}

#[test]
fn graph_operations_compute_exact_values() {
    let mut cx = Graph::new();
    let a = cx.input(-7);
    let b = cx.input(2);
    let s = cx.add(a, b);
    let d = cx.sub(a, b);
    let p = cx.mul(a, b);
    let q = cx.div_const(a, 2);
    let lt = cx.lt(a, b);
    let ge = cx.lt(b, a);
    cx.retrieve(q);
    let vals = cx.evaluate().unwrap();
    assert_eq!((vals[s], vals[d], vals[p], vals[q], vals[lt], vals[ge]), (-5, -9, -14, -4, 1, 0));
    assert_eq!(cx.outputs, vec![q]);
}

#[test]
fn exact_score_keeps_fractions_of_a_basis_point() {
    // 17 points against 17.0035 points: the same whole basis points, but the
    // circuit's output rises
    let base = metrics(0, 0, 2, 80, 200);
    let higher = metrics(1, 0, 2, 80, 200);
    assert_eq!(graph_score(&base), 170000);
    assert_eq!(graph_score(&higher), 170035);
    assert_eq!(risk_score(&base), 1700);
    assert_eq!(risk_score(&higher), 1700);
    assert_eq!(graph_score(&metrics(1, 0, 2, 80, 1000)), 90035);
    assert_eq!(graph_score(&metrics(1, 0, 2, 80, 60000)), 90035);
}

#[test]
fn circuits_share_structure_and_differ_in_inputs_only() {
    let mut a = Graph::new();
    let mut b = Graph::new();
    calculate_risk_score(&mut a, &metrics(5000, 5000, 2, 80, 200));
    calculate_risk_score(&mut b, &metrics(0, 10000, 3, 10, 7));
    assert_eq!(a.nodes.len(), SCORE_NODES);
    assert_eq!(b.nodes.len(), SCORE_NODES);
    let mut differing = 0;
    for (x, y) in a.nodes.iter().zip(b.nodes.iter()) {
        match (x, y) {
            (Node::Input(p), Node::Input(q)) => {
                if p != q {
                    differing += 1;
                }
            }
            _ => assert_eq!(x, y),
        }
    }
    assert_eq!(differing, 5);
    let mut c = Graph::new();
    calculate_risk_score(&mut c, &metrics(5000, 5000, 2, 80, 200));
    assert_eq!(a.nodes, c.nodes);
}
