//! Laws of the barycentric interpolant, proved against the spec functions
//! that the interpolator's contracts are stated over.

use vstd::prelude::*;

use crate::interpolation::{
    bary_ideal, bary_term, den_sum, first_node_match, has_duplicate, num_sum,
};
use crate::rational::{
    lemma_add_congruence, lemma_add_wf, lemma_div_congruence, lemma_div_scale, lemma_div_wf,
    lemma_mul_add_distrib, lemma_mul_comm, lemma_mul_recip_cancel, lemma_mul_wf,
    lemma_rat_eq_trans, lemma_sub_wf, rat_add, rat_div, rat_eq, rat_mul, rat_recip, rat_sub,
    rat_wf, rat_zero, Rat,
};

verus! {

/// All entries of a model sequence are well-formed.
pub open spec fn all_rat_wf(s: Seq<Rat>) -> bool {
    forall|i: int| 0 <= i < s.len() ==> rat_wf(#[trigger] s[i])
}

/// The weight sequence with every entry multiplied by `c`.
pub open spec fn scaled_seq(ws: Seq<Rat>, c: Rat) -> Seq<Rat> {
    Seq::new(ws.len(), |i: int| rat_mul(c, ws[i]))
}

proof fn lemma_bary_term_wf(node: Rat, weight: Rat, value: Rat, x: Rat)
    requires
        rat_wf(node),
        rat_wf(weight),
        rat_wf(value),
        rat_wf(x),
    ensures
        rat_wf(bary_term(node, weight, value, x)),
{
    lemma_sub_wf(x, node);
    lemma_div_wf(weight, rat_sub(x, node));
    lemma_mul_wf(rat_div(weight, rat_sub(x, node)), value);
}

proof fn lemma_num_sum_wf(nodes: Seq<Rat>, weights: Seq<Rat>, values: Seq<Rat>, x: Rat, i: int)
    requires
        all_rat_wf(nodes),
        all_rat_wf(weights),
        all_rat_wf(values),
        rat_wf(x),
        i <= nodes.len(),
        weights.len() == nodes.len(),
        values.len() == nodes.len(),
    ensures
        rat_wf(num_sum(nodes, weights, values, x, i)),
    decreases i,
{
    if i <= 0 {
    } else {
        lemma_num_sum_wf(nodes, weights, values, x, i - 1);
        lemma_bary_term_wf(nodes[i - 1], weights[i - 1], values[i - 1], x);
        lemma_add_wf(
            num_sum(nodes, weights, values, x, i - 1),
            bary_term(nodes[i - 1], weights[i - 1], values[i - 1], x),
        );
    }
}

proof fn lemma_den_sum_wf(nodes: Seq<Rat>, weights: Seq<Rat>, x: Rat, i: int)
    requires
        all_rat_wf(nodes),
        all_rat_wf(weights),
        rat_wf(x),
        i <= nodes.len(),
        weights.len() == nodes.len(),
    ensures
        rat_wf(den_sum(nodes, weights, x, i)),
    decreases i,
{
    if i <= 0 {
    } else {
        lemma_den_sum_wf(nodes, weights, x, i - 1);
        lemma_sub_wf(x, nodes[i - 1]);
        lemma_div_wf(weights[i - 1], rat_sub(x, nodes[i - 1]));
        lemma_add_wf(
            den_sum(nodes, weights, x, i - 1),
            rat_div(weights[i - 1], rat_sub(x, nodes[i - 1])),
        );
    }
}

/// Scaling the weight of a numerator term scales the whole term.
proof fn lemma_term_scale(node: Rat, w: Rat, v: Rat, x: Rat, c: Rat)
    ensures
        bary_term(node, rat_mul(c, w), v, x) == rat_mul(c, bary_term(node, w, v, x)),
{
    let rd = rat_recip(rat_sub(x, node));
    assert(((c.n * w.n) * rd.n) * v.n == c.n * ((w.n * rd.n) * v.n)) by (nonlinear_arith);
    assert(((c.d * w.d) * rd.d) * v.d == c.d * ((w.d * rd.d) * v.d)) by (nonlinear_arith);
}

/// Scaling the weight of a denominator term scales the whole term.
proof fn lemma_den_term_scale(node: Rat, w: Rat, x: Rat, c: Rat)
    ensures
        rat_div(rat_mul(c, w), rat_sub(x, node)) == rat_mul(c, rat_div(w, rat_sub(x, node))),
{
    let rd = rat_recip(rat_sub(x, node));
    assert((c.n * w.n) * rd.n == c.n * (w.n * rd.n)) by (nonlinear_arith);
    assert((c.d * w.d) * rd.d == c.d * (w.d * rd.d)) by (nonlinear_arith);
}

proof fn lemma_num_sum_scale(
    nodes: Seq<Rat>,
    weights: Seq<Rat>,
    values: Seq<Rat>,
    x: Rat,
    c: Rat,
    i: int,
)
    requires
        all_rat_wf(nodes),
        all_rat_wf(weights),
        all_rat_wf(values),
        rat_wf(x),
        rat_wf(c),
        i <= nodes.len(),
        weights.len() == nodes.len(),
        values.len() == nodes.len(),
    ensures
        rat_eq(
            num_sum(nodes, scaled_seq(weights, c), values, x, i),
            rat_mul(c, num_sum(nodes, weights, values, x, i)),
        ),
    decreases i,
{
    let sw = scaled_seq(weights, c);
    if i <= 0 {
        assert(rat_eq(rat_zero(), rat_mul(c, rat_zero())));
    } else {
        lemma_num_sum_scale(nodes, weights, values, x, c, i - 1);
        let s1 = num_sum(nodes, weights, values, x, i - 1);
        let s2 = num_sum(nodes, sw, values, x, i - 1);
        let t = bary_term(nodes[i - 1], weights[i - 1], values[i - 1], x);
        let t2 = bary_term(nodes[i - 1], sw[i - 1], values[i - 1], x);
        lemma_term_scale(nodes[i - 1], weights[i - 1], values[i - 1], x, c);
        assert(t2 == rat_mul(c, t));
        lemma_add_congruence(s2, rat_mul(c, s1), t2, rat_mul(c, t));
        lemma_mul_add_distrib(c, s1, t);
        lemma_num_sum_wf(nodes, weights, values, x, i - 1);
        lemma_bary_term_wf(nodes[i - 1], weights[i - 1], values[i - 1], x);
        lemma_mul_wf(c, s1);
        lemma_mul_wf(c, t);
        lemma_add_wf(rat_mul(c, s1), rat_mul(c, t));
        lemma_rat_eq_trans(
            rat_add(s2, t2),
            rat_add(rat_mul(c, s1), rat_mul(c, t)),
            rat_mul(c, rat_add(s1, t)),
        );
    }
}

proof fn lemma_den_sum_scale(nodes: Seq<Rat>, weights: Seq<Rat>, x: Rat, c: Rat, i: int)
    requires
        all_rat_wf(nodes),
        all_rat_wf(weights),
        rat_wf(x),
        rat_wf(c),
        i <= nodes.len(),
        weights.len() == nodes.len(),
    ensures
        rat_eq(
            den_sum(nodes, scaled_seq(weights, c), x, i),
            rat_mul(c, den_sum(nodes, weights, x, i)),
        ),
    decreases i,
{
    let sw = scaled_seq(weights, c);
    if i <= 0 {
        assert(rat_eq(rat_zero(), rat_mul(c, rat_zero())));
    } else {
        lemma_den_sum_scale(nodes, weights, x, c, i - 1);
        let s1 = den_sum(nodes, weights, x, i - 1);
        let s2 = den_sum(nodes, sw, x, i - 1);
        let t = rat_div(weights[i - 1], rat_sub(x, nodes[i - 1]));
        let t2 = rat_div(sw[i - 1], rat_sub(x, nodes[i - 1]));
        lemma_den_term_scale(nodes[i - 1], weights[i - 1], x, c);
        assert(t2 == rat_mul(c, t));
        lemma_add_congruence(s2, rat_mul(c, s1), t2, rat_mul(c, t));
        lemma_mul_add_distrib(c, s1, t);
        lemma_den_sum_wf(nodes, weights, x, i - 1);
        lemma_sub_wf(x, nodes[i - 1]);
        lemma_div_wf(weights[i - 1], rat_sub(x, nodes[i - 1]));
        lemma_mul_wf(c, s1);
        lemma_mul_wf(c, t);
        lemma_add_wf(rat_mul(c, s1), rat_mul(c, t));
        lemma_rat_eq_trans(
            rat_add(s2, t2),
            rat_add(rat_mul(c, s1), rat_mul(c, t)),
            rat_mul(c, rat_add(s1, t)),
        );
    }
}

proof fn lemma_num_sum_constant(
    nodes: Seq<Rat>,
    weights: Seq<Rat>,
    values: Seq<Rat>,
    x: Rat,
    v: Rat,
    i: int,
)
    requires
        all_rat_wf(nodes),
        all_rat_wf(weights),
        rat_wf(x),
        rat_wf(v),
        i <= nodes.len(),
        weights.len() == nodes.len(),
        values.len() == nodes.len(),
        forall|k: int| 0 <= k < values.len() ==> #[trigger] values[k] == v,
    ensures
        rat_eq(
            num_sum(nodes, weights, values, x, i),
            rat_mul(v, den_sum(nodes, weights, x, i)),
        ),
    decreases i,
{
    if i <= 0 {
        assert(rat_eq(rat_zero(), rat_mul(v, rat_zero())));
    } else {
        lemma_num_sum_constant(nodes, weights, values, x, v, i - 1);
        let s1 = den_sum(nodes, weights, x, i - 1);
        let s2 = num_sum(nodes, weights, values, x, i - 1);
        let t = rat_div(weights[i - 1], rat_sub(x, nodes[i - 1]));
        lemma_mul_comm(t, v);
        assert(bary_term(nodes[i - 1], weights[i - 1], values[i - 1], x) == rat_mul(v, t));
        lemma_add_congruence(s2, rat_mul(v, s1), rat_mul(v, t), rat_mul(v, t));
        lemma_mul_add_distrib(v, s1, t);
        lemma_den_sum_wf(nodes, weights, x, i - 1);
        lemma_sub_wf(x, nodes[i - 1]);
        lemma_div_wf(weights[i - 1], rat_sub(x, nodes[i - 1]));
        lemma_mul_wf(v, s1);
        lemma_mul_wf(v, t);
        lemma_add_wf(rat_mul(v, s1), rat_mul(v, t));
        lemma_rat_eq_trans(
            rat_add(s2, rat_mul(v, t)),
            rat_add(rat_mul(v, s1), rat_mul(v, t)),
            rat_mul(v, rat_add(s1, t)),
        );
    }
}

proof fn lemma_first_match_bounds(nodes: Seq<Rat>, x: Rat, j: int)
    requires
        0 <= j,
    ensures
        first_node_match(nodes, x, j) == -1 || (j <= first_node_match(nodes, x, j)
            < nodes.len()),
    decreases nodes.len() - j,
{
    if j >= nodes.len() {
    } else if rat_eq(x, nodes[j]) {
    } else {
        lemma_first_match_bounds(nodes, x, j + 1);
    }
}

/// Constant reproduction, the degree-zero case of polynomial exactness:
/// when every sampled value equals `v`, the interpolant takes the value `v`
/// at every point whose denominator sum is nonzero, and at every node.
pub proof fn lemma_constant_values_reproduced(
    nodes: Seq<Rat>,
    weights: Seq<Rat>,
    values: Seq<Rat>,
    x: Rat,
    v: Rat,
)
    requires
        nodes.len() == weights.len(),
        values.len() == nodes.len(),
        all_rat_wf(nodes),
        all_rat_wf(weights),
        rat_wf(x),
        rat_wf(v),
        forall|k: int| 0 <= k < values.len() ==> #[trigger] values[k] == v,
        first_node_match(nodes, x, 0) == -1 ==> !rat_eq(
            den_sum(nodes, weights, x, nodes.len() as int),
            rat_zero(),
        ),
    ensures
        rat_eq(bary_ideal(nodes, weights, values, x), v),
{
    let m = first_node_match(nodes, x, 0);
    if 0 <= m {
        lemma_first_match_bounds(nodes, x, 0);
        assert(values[m] == v);
        assert(rat_eq(v, v));
    } else {
        lemma_first_match_bounds(nodes, x, 0);
        let n_len = nodes.len() as int;
        let nn = num_sum(nodes, weights, values, x, n_len);
        let dd = den_sum(nodes, weights, x, n_len);
        lemma_num_sum_constant(nodes, weights, values, x, v, n_len);
        lemma_den_sum_wf(nodes, weights, x, n_len);
        assert(!rat_eq(dd, rat_zero()));
        if dd.n == 0 {
            assert(dd.n * 1 == 0 * dd.d) by (nonlinear_arith)
                requires
                    dd.n == 0,
            ;
            assert(false);
        }
        lemma_mul_wf(v, dd);
        lemma_div_congruence(nn, rat_mul(v, dd), dd, dd);
        lemma_mul_recip_cancel(v, dd);
        lemma_div_wf(rat_mul(v, dd), dd);
        lemma_rat_eq_trans(
            rat_div(nn, dd),
            rat_div(rat_mul(v, dd), dd),
            v,
        );
    }
}

proof fn lemma_first_match_of_node(nodes: Seq<Rat>, i: int, j: int)
    requires
        0 <= j <= i < nodes.len(),
        !has_duplicate(nodes),
    ensures
        first_node_match(nodes, nodes[i], j) == i,
    decreases i - j,
{
    if j == i {
        assert(rat_eq(nodes[i], nodes[i]));
    } else {
        if rat_eq(nodes[i], nodes[j]) {
            assert(rat_eq(nodes[j], nodes[i]));
            assert(has_duplicate(nodes));
        }
        lemma_first_match_of_node(nodes, i, j + 1);
    }
}

/// Exact reproduction at nodes: for any weight and value sequences, the
/// interpolant of a duplicate-free node set takes, at each node's own
/// coordinate, exactly the corresponding sampled value.
pub proof fn lemma_exact_reproduction_at_node(
    nodes: Seq<Rat>,
    weights: Seq<Rat>,
    values: Seq<Rat>,
    i: int,
)
    requires
        0 <= i < nodes.len(),
        values.len() == nodes.len(),
        !has_duplicate(nodes),
    ensures
        bary_ideal(nodes, weights, values, nodes[i]) == values[i],
{
    lemma_first_match_of_node(nodes, i, 0);
}

/// Weight-scale invariance: multiplying every barycentric weight by the
/// same nonzero constant leaves the interpolant's value unchanged at every
/// point, since the numerator and denominator sums scale identically.
pub proof fn lemma_weight_scale_invariance(
    nodes: Seq<Rat>,
    weights: Seq<Rat>,
    values: Seq<Rat>,
    x: Rat,
    c: Rat,
)
    requires
        nodes.len() == weights.len(),
        values.len() == nodes.len(),
        all_rat_wf(nodes),
        all_rat_wf(weights),
        all_rat_wf(values),
        rat_wf(x),
        rat_wf(c),
        !rat_eq(c, rat_zero()),
    ensures
        rat_eq(
            bary_ideal(nodes, scaled_seq(weights, c), values, x),
            bary_ideal(nodes, weights, values, x),
        ),
{
    let sw = scaled_seq(weights, c);
    assert forall|k: int| 0 <= k < sw.len() implies rat_wf(#[trigger] sw[k]) by {
        lemma_mul_wf(c, weights[k]);
    }
    let m = first_node_match(nodes, x, 0);
    if 0 <= m {
        assert(rat_eq(values[m], values[m]));
    } else {
        let n_len = nodes.len() as int;
        let nn = num_sum(nodes, weights, values, x, n_len);
        let dd = den_sum(nodes, weights, x, n_len);
        let nn2 = num_sum(nodes, sw, values, x, n_len);
        let dd2 = den_sum(nodes, sw, x, n_len);
        lemma_num_sum_scale(nodes, weights, values, x, c, n_len);
        lemma_den_sum_scale(nodes, weights, x, c, n_len);
        lemma_num_sum_wf(nodes, weights, values, x, n_len);
        lemma_den_sum_wf(nodes, weights, x, n_len);
        lemma_mul_wf(c, nn);
        lemma_mul_wf(c, dd);
        lemma_num_sum_wf(nodes, sw, values, x, n_len);
        lemma_den_sum_wf(nodes, sw, x, n_len);
        lemma_div_congruence(nn2, rat_mul(c, nn), dd2, rat_mul(c, dd));
        lemma_div_scale(c, nn, dd);
        lemma_div_wf(rat_mul(c, nn), rat_mul(c, dd));
        lemma_rat_eq_trans(
            rat_div(nn2, dd2),
            rat_div(rat_mul(c, nn), rat_mul(c, dd)),
            rat_div(nn, dd),
        );
    }
}

} // verus!
