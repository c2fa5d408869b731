//! The barycentric interpolator: node/weight construction and evaluation.

use vstd::prelude::*;

use crate::rational::{
    rat_add, rat_div, rat_eq, rat_in_range, rat_mul, rat_one, rat_recip, rat_sub, rat_wf,
    rat_zero, Rat, Rational,
};

verus! {

/// Why a construction or evaluation could not produce a result.
#[derive(Clone, Copy, Debug, PartialEq, Eq, Structural)]
pub enum InterpError {
    /// Two supplied nodes represent the same rational value, which leaves
    /// the generic weight formula undefined.
    DuplicateNodes,
    /// An exact intermediate value left the representable range.
    Overflow,
}

/// The rational values represented by a sequence of scalars.
pub open spec fn rats_of(s: Seq<Rational>) -> Seq<Rat> {
    Seq::new(s.len(), |i: int| s[i]@)
}

pub open spec fn all_wf(s: Seq<Rational>) -> bool {
    forall|i: int| 0 <= i < s.len() ==> (#[trigger] s[i]).wf()
}

/// Whether two entries of `nodes` represent the same rational value.
pub open spec fn has_duplicate(nodes: Seq<Rat>) -> bool {
    exists|i: int, j: int| 0 <= i < j < nodes.len() && #[trigger] rat_eq(nodes[i], nodes[j])
}

/// The product of the differences `nodes[i] - nodes[k]` over `k < j`,
/// skipping `k == i`: the quantity whose reciprocal is the barycentric
/// weight of node `i` once `j` reaches the node count.
pub open spec fn diff_prod(nodes: Seq<Rat>, i: int, j: int) -> Rat
    decreases j,
{
    if j <= 0 {
        rat_one()
    } else if j - 1 == i {
        diff_prod(nodes, i, j - 1)
    } else {
        rat_mul(diff_prod(nodes, i, j - 1), rat_sub(nodes[i], nodes[j - 1]))
    }
}

/// The barycentric weight of node `i` in an arbitrary node set: the
/// reciprocal of the product of its differences with every other node.
pub open spec fn generic_weight(nodes: Seq<Rat>, i: int) -> Rat {
    rat_recip(diff_prod(nodes, i, nodes.len() as int))
}

/// Overflow condition for step `j` of node `i`'s weight product: the node
/// difference itself, or the product extended by it, leaves the
/// representable range.
pub open spec fn weight_step_overflows(nodes: Seq<Rat>, i: int, j: int) -> bool {
    ||| !rat_in_range(rat_sub(nodes[i], nodes[j]))
    ||| !rat_in_range(rat_mul(diff_prod(nodes, i, j), rat_sub(nodes[i], nodes[j])))
}

/// Whether computing node `i`'s barycentric weight leaves the representable
/// range at some step of the pairwise product.
pub open spec fn weight_overflows(nodes: Seq<Rat>, i: int) -> bool {
    exists|j: int| 0 <= j < nodes.len() && j != i && #[trigger] weight_step_overflows(nodes, i, j)
}

/// Index of the first node from position `i` on that equals `x`, or `-1`.
pub open spec fn first_node_match(nodes: Seq<Rat>, x: Rat, i: int) -> int
    decreases nodes.len() - i,
{
    if i < 0 || i >= nodes.len() {
        -1
    } else if rat_eq(x, nodes[i]) {
        i
    } else {
        first_node_match(nodes, x, i + 1)
    }
}

/// The term `weight / (x - node) * value` of the barycentric sums.
pub open spec fn bary_term(node: Rat, weight: Rat, value: Rat, x: Rat) -> Rat {
    rat_mul(rat_div(weight, rat_sub(x, node)), value)
}

/// Numerator of the barycentric formula, summed over the first `i` nodes.
pub open spec fn num_sum(nodes: Seq<Rat>, weights: Seq<Rat>, values: Seq<Rat>, x: Rat, i: int) -> Rat
    decreases i,
{
    if i <= 0 {
        rat_zero()
    } else {
        rat_add(
            num_sum(nodes, weights, values, x, i - 1),
            bary_term(nodes[i - 1], weights[i - 1], values[i - 1], x),
        )
    }
}

/// Denominator of the barycentric formula, summed over the first `i` nodes.
pub open spec fn den_sum(nodes: Seq<Rat>, weights: Seq<Rat>, x: Rat, i: int) -> Rat
    decreases i,
{
    if i <= 0 {
        rat_zero()
    } else {
        rat_add(
            den_sum(nodes, weights, x, i - 1),
            rat_div(weights[i - 1], rat_sub(x, nodes[i - 1])),
        )
    }
}

/// The value the barycentric interpolant assigns to the point `x`: the
/// sampled value itself where `x` coincides with a node, and the quotient
/// of the two barycentric sums everywhere else.
pub open spec fn bary_ideal(nodes: Seq<Rat>, weights: Seq<Rat>, values: Seq<Rat>, x: Rat) -> Rat {
    let m = first_node_match(nodes, x, 0);
    if 0 <= m {
        values[m]
    } else {
        rat_div(
            num_sum(nodes, weights, values, x, nodes.len() as int),
            den_sum(nodes, weights, x, nodes.len() as int),
        )
    }
}

/// Overflow condition for the `i`-th term of the barycentric sums at the
/// point `x`: the node difference, the weight quotient, its product with
/// the sampled value, or either extended sum leaves the representable
/// range.
pub open spec fn eval_step_overflows(
    nodes: Seq<Rat>,
    weights: Seq<Rat>,
    values: Seq<Rat>,
    x: Rat,
    i: int,
) -> bool {
    ||| !rat_in_range(rat_sub(x, nodes[i]))
    ||| !rat_in_range(rat_div(weights[i], rat_sub(x, nodes[i])))
    ||| !rat_in_range(rat_mul(rat_div(weights[i], rat_sub(x, nodes[i])), values[i]))
    ||| !rat_in_range(num_sum(nodes, weights, values, x, i + 1))
    ||| !rat_in_range(den_sum(nodes, weights, x, i + 1))
}

/// Whether evaluating the barycentric formula at `x` leaves the
/// representable range: only a point that coincides with no node can, in
/// some term of the sums or in the final quotient.
pub open spec fn eval_overflows(nodes: Seq<Rat>, weights: Seq<Rat>, values: Seq<Rat>, x: Rat) -> bool {
    &&& first_node_match(nodes, x, 0) == -1
    &&& {
        ||| exists|i: int|
            0 <= i < nodes.len() && #[trigger] eval_step_overflows(nodes, weights, values, x, i)
        ||| !rat_in_range(
            rat_div(
                num_sum(nodes, weights, values, x, nodes.len() as int),
                den_sum(nodes, weights, x, nodes.len() as int),
            ),
        )
    }
}

/// Reports whether any two entries of `nodes` represent the same value.
fn find_duplicate(nodes: &Vec<Rational>) -> (r: bool)
    requires
        all_wf(nodes@),
    ensures
        r == has_duplicate(rats_of(nodes@)),
{
    let n = nodes.len();
    let mut i: usize = 0;
    while i < n
        invariant
            n == nodes@.len(),
            all_wf(nodes@),
            i <= n,
            forall|a: int, b: int|
                0 <= a < b < n && a < i ==> !rat_eq(
                    #[trigger] rats_of(nodes@)[a],
                    #[trigger] rats_of(nodes@)[b],
                ),
        decreases n - i,
    {
        let mut j: usize = i + 1;
        while j < n
            invariant
                n == nodes@.len(),
                all_wf(nodes@),
                i < j <= n,
                i < n,
                forall|a: int, b: int|
                    0 <= a < b < n && a < i ==> !rat_eq(
                        #[trigger] rats_of(nodes@)[a],
                        #[trigger] rats_of(nodes@)[b],
                    ),
                forall|b: int|
                    i < b < j ==> !rat_eq(rats_of(nodes@)[i as int], #[trigger] rats_of(nodes@)[b]),
            decreases n - j,
        {
            if nodes[i].equals(&nodes[j]) {
                assert(rat_eq(rats_of(nodes@)[i as int], rats_of(nodes@)[j as int]));
                return true;
            }
            j += 1;
        }
        i += 1;
    }
    false
}

/// Computes the barycentric weight of node `i` by direct pairwise products;
/// `None` exactly when some step of the product leaves the representable
/// range.
fn generic_weight_at(nodes: &Vec<Rational>, i: usize) -> (r: Option<Rational>)
    requires
        all_wf(nodes@),
        i < nodes@.len(),
    ensures
        match r {
            Some(w) => w.wf() && w@ == generic_weight(rats_of(nodes@), i as int)
                && !weight_overflows(rats_of(nodes@), i as int),
            None => weight_overflows(rats_of(nodes@), i as int),
        },
        nodes@.len() <= 1 ==> r is Some,
{
    let n = nodes.len();
    let mut acc = Rational::one();
    let mut j: usize = 0;
    while j < n
        invariant
            n == nodes@.len(),
            all_wf(nodes@),
            i < n,
            j <= n,
            acc.wf(),
            acc@ == diff_prod(rats_of(nodes@), i as int, j as int),
            forall|jj: int|
                0 <= jj < j && jj != i ==> !#[trigger] weight_step_overflows(
                    rats_of(nodes@),
                    i as int,
                    jj,
                ),
        decreases n - j,
    {
        if j != i {
            let diff = match nodes[i].try_sub(&nodes[j]) {
                Some(d) => d,
                None => {
                    proof {
                        assert(weight_step_overflows(rats_of(nodes@), i as int, j as int));
                    }
                    return None;
                },
            };
            acc = match acc.try_mul(&diff) {
                Some(p) => p,
                None => {
                    proof {
                        assert(weight_step_overflows(rats_of(nodes@), i as int, j as int));
                    }
                    return None;
                },
            };
            proof {
                assert(!weight_step_overflows(rats_of(nodes@), i as int, j as int));
            }
        }
        j += 1;
    }
    Some(acc.recip())
}

proof fn lemma_first_match_step(nodes: Seq<Rat>, x: Rat, i: int)
    requires
        0 <= i < nodes.len(),
        !rat_eq(x, nodes[i]),
    ensures
        first_node_match(nodes, x, i) == first_node_match(nodes, x, i + 1),
{
}

/// Finds the first node equal to `x`, scanning in index order.
fn find_node_match(nodes: &Vec<Rational>, x: &Rational) -> (r: Option<usize>)
    requires
        all_wf(nodes@),
        x.wf(),
    ensures
        match r {
            Some(i) => i < nodes@.len() && first_node_match(rats_of(nodes@), x@, 0) == i as int,
            None => first_node_match(rats_of(nodes@), x@, 0) == -1,
        },
{
    let n = nodes.len();
    let mut i: usize = 0;
    while i < n
        invariant
            n == nodes@.len(),
            all_wf(nodes@),
            x.wf(),
            i <= n,
            first_node_match(rats_of(nodes@), x@, 0) == first_node_match(
                rats_of(nodes@),
                x@,
                i as int,
            ),
        decreases n - i,
    {
        if x.equals(&nodes[i]) {
            return Some(i);
        }
        proof {
            lemma_first_match_step(rats_of(nodes@), x@, i as int);
        }
        i += 1;
    }
    None
}

/// Evaluates the barycentric formula at the single point `x`: the sampled
/// value itself where `x` coincides with a node, and the quotient of the
/// accumulated numerator and denominator sums everywhere else. `None`
/// exactly when an exact intermediate leaves the representable range,
/// which a point that coincides with a node never does.
fn eval_at_point(
    nodes: &Vec<Rational>,
    weights: &Vec<Rational>,
    values: &Vec<Rational>,
    x: &Rational,
) -> (r: Option<Rational>)
    requires
        nodes@.len() == weights@.len(),
        values@.len() == nodes@.len(),
        all_wf(nodes@),
        all_wf(weights@),
        all_wf(values@),
        x.wf(),
    ensures
        match r {
            Some(v) => v.wf() && v@ == bary_ideal(
                rats_of(nodes@),
                rats_of(weights@),
                rats_of(values@),
                x@,
            ) && !eval_overflows(rats_of(nodes@), rats_of(weights@), rats_of(values@), x@),
            None => eval_overflows(rats_of(nodes@), rats_of(weights@), rats_of(values@), x@),
        },
        0 <= first_node_match(rats_of(nodes@), x@, 0) ==> r is Some,
{
    match find_node_match(nodes, x) {
        Some(m) => Some(values[m]),
        None => {
            let n = nodes.len();
            let mut num = Rational::zero();
            let mut den = Rational::zero();
            let mut i: usize = 0;
            while i < n
                invariant
                    n == nodes@.len(),
                    weights@.len() == n,
                    values@.len() == n,
                    all_wf(nodes@),
                    all_wf(weights@),
                    all_wf(values@),
                    x.wf(),
                    i <= n,
                    first_node_match(rats_of(nodes@), x@, 0) == -1,
                    num.wf(),
                    den.wf(),
                    num@ == num_sum(
                        rats_of(nodes@),
                        rats_of(weights@),
                        rats_of(values@),
                        x@,
                        i as int,
                    ),
                    den@ == den_sum(rats_of(nodes@), rats_of(weights@), x@, i as int),
                    forall|ii: int|
                        0 <= ii < i ==> !#[trigger] eval_step_overflows(
                            rats_of(nodes@),
                            rats_of(weights@),
                            rats_of(values@),
                            x@,
                            ii,
                        ),
                decreases n - i,
            {
                let delta = match x.try_sub(&nodes[i]) {
                    Some(d) => d,
                    None => {
                        proof {
                            assert(eval_step_overflows(
                                rats_of(nodes@),
                                rats_of(weights@),
                                rats_of(values@),
                                x@,
                                i as int,
                            ));
                        }
                        return None;
                    },
                };
                let t = match weights[i].try_div(&delta) {
                    Some(t) => t,
                    None => {
                        proof {
                            assert(eval_step_overflows(
                                rats_of(nodes@),
                                rats_of(weights@),
                                rats_of(values@),
                                x@,
                                i as int,
                            ));
                        }
                        return None;
                    },
                };
                let tv = match t.try_mul(&values[i]) {
                    Some(p) => p,
                    None => {
                        proof {
                            assert(eval_step_overflows(
                                rats_of(nodes@),
                                rats_of(weights@),
                                rats_of(values@),
                                x@,
                                i as int,
                            ));
                        }
                        return None;
                    },
                };
                num = match num.try_add(&tv) {
                    Some(s) => s,
                    None => {
                        proof {
                            assert(eval_step_overflows(
                                rats_of(nodes@),
                                rats_of(weights@),
                                rats_of(values@),
                                x@,
                                i as int,
                            ));
                        }
                        return None;
                    },
                };
                den = match den.try_add(&t) {
                    Some(s) => s,
                    None => {
                        proof {
                            assert(eval_step_overflows(
                                rats_of(nodes@),
                                rats_of(weights@),
                                rats_of(values@),
                                x@,
                                i as int,
                            ));
                        }
                        return None;
                    },
                };
                proof {
                    assert(!eval_step_overflows(
                        rats_of(nodes@),
                        rats_of(weights@),
                        rats_of(values@),
                        x@,
                        i as int,
                    ));
                }
                i += 1;
            }
            match num.try_div(&den) {
                Some(v) => {
                    proof {
                        assert(!eval_overflows(
                            rats_of(nodes@),
                            rats_of(weights@),
                            rats_of(values@),
                            x@,
                        ));
                    }
                    Some(v)
                },
                None => {
                    proof {
                        assert(eval_overflows(
                            rats_of(nodes@),
                            rats_of(weights@),
                            rats_of(values@),
                            x@,
                        ));
                    }
                    None
                },
            }
        },
    }
}

/// 1D polynomial interpolator using the barycentric interpolation formula
/// for the reference interval `[-1, +1]`.
///
/// It owns two parallel ordered sequences, interpolation nodes and their
/// barycentric weights, fixed at construction; evaluation is read-only and
/// the type holds no interior mutability, so a shared interpolator may be
/// evaluated concurrently.
pub struct BaryPolyInterpolator1dRef {
    nodes: Vec<Rational>,
    weights: Vec<Rational>,
}

impl BaryPolyInterpolator1dRef {
    /// The rational values of the interpolation nodes, in order.
    pub closed spec fn spec_nodes(self) -> Seq<Rat> {
        rats_of(self.nodes@)
    }

    /// The rational values of the barycentric weights, index-aligned with
    /// the nodes.
    pub closed spec fn spec_weights(self) -> Seq<Rat> {
        rats_of(self.weights@)
    }

    /// Structural invariant: one weight per node, every entry well-formed.
    pub closed spec fn wf(self) -> bool {
        &&& self.nodes@.len() == self.weights@.len()
        &&& all_wf(self.nodes@)
        &&& all_wf(self.weights@)
    }

    pub proof fn lemma_wf_entries(self)
        requires
            self.wf(),
        ensures
            self.spec_weights().len() == self.spec_nodes().len(),
            forall|i: int| 0 <= i < self.spec_nodes().len() ==> rat_wf(#[trigger] self.spec_nodes()[i]),
            forall|i: int|
                0 <= i < self.spec_weights().len() ==> rat_wf(#[trigger] self.spec_weights()[i]),
    {
        assert forall|i: int| 0 <= i < self.spec_nodes().len() implies rat_wf(
            #[trigger] self.spec_nodes()[i],
        ) by {
            assert(self.nodes@[i].wf());
        }
        assert forall|i: int| 0 <= i < self.spec_weights().len() implies rat_wf(
            #[trigger] self.spec_weights()[i],
        ) by {
            assert(self.weights@[i].wf());
        }
    }

    /// Builds an interpolator over an arbitrary ordered set of distinct
    /// nodes, computing each barycentric weight as the reciprocal of the
    /// product of that node's differences with every other node.
    ///
    /// Duplicate nodes are rejected, since they leave the weight formula
    /// undefined. Widely spread or tightly clustered node sets can push the
    /// exact products outside the representable range, which is reported as
    /// an overflow exactly when some pairwise difference or partial product
    /// of the weight formula leaves that range.
    pub fn new_generic(nodes: Vec<Rational>) -> (r: Result<BaryPolyInterpolator1dRef, InterpError>)
        requires
            all_wf(nodes@),
        ensures
            match r {
                Ok(ip) => {
                    &&& ip.wf()
                    &&& ip.spec_nodes() == rats_of(nodes@)
                    &&& ip.spec_weights().len() == nodes@.len()
                    &&& forall|i: int|
                        0 <= i < nodes@.len() ==> (#[trigger] ip.spec_weights()[i])
                            == generic_weight(rats_of(nodes@), i)
                    &&& !has_duplicate(rats_of(nodes@))
                },
                Err(e) => e == InterpError::DuplicateNodes || e == InterpError::Overflow,
            },
            (r matches Err(e) && e == InterpError::DuplicateNodes) <==> has_duplicate(
                rats_of(nodes@),
            ),
            (r matches Err(e) && e == InterpError::Overflow) <==> (!has_duplicate(rats_of(nodes@))
                && exists|i: int|
                0 <= i < nodes@.len() && #[trigger] weight_overflows(rats_of(nodes@), i)),
            nodes@.len() <= 1 ==> r is Ok,
    {
        if find_duplicate(&nodes) {
            return Err(InterpError::DuplicateNodes);
        }
        let n = nodes.len();
        let mut weights: Vec<Rational> = Vec::new();
        let mut i: usize = 0;
        while i < n
            invariant
                n == nodes@.len(),
                all_wf(nodes@),
                !has_duplicate(rats_of(nodes@)),
                i <= n,
                weights@.len() == i,
                all_wf(weights@),
                forall|a: int|
                    0 <= a < i ==> (#[trigger] rats_of(weights@)[a]) == generic_weight(
                        rats_of(nodes@),
                        a,
                    ),
                forall|a: int| 0 <= a < i ==> !#[trigger] weight_overflows(rats_of(nodes@), a),
            decreases n - i,
        {
            match generic_weight_at(&nodes, i) {
                Some(w) => {
                    let ghost pre = weights@;
                    weights.push(w);
                    proof {
                        assert forall|a: int|
                            0 <= a < i + 1 implies (#[trigger] rats_of(weights@)[a])
                            == generic_weight(rats_of(nodes@), a) by {
                            if a < i {
                                assert(weights@[a] == pre[a]);
                                assert(rats_of(pre)[a] == generic_weight(rats_of(nodes@), a));
                            } else {
                                assert(weights@[a] == w);
                            }
                        }
                    }
                },
                None => {
                    proof {
                        assert(weight_overflows(rats_of(nodes@), i as int));
                    }
                    return Err(InterpError::Overflow);
                },
            }
            i += 1;
        }
        Ok(BaryPolyInterpolator1dRef { nodes, weights })
    }

    /// Evaluates the interpolant defined by `interp_values` (the function
    /// values sampled at this interpolator's nodes, index-aligned) at each
    /// entry of `eval_points`, in input order.
    ///
    /// A point that coincides with a node reproduces the sampled value
    /// exactly, bypassing the rational division entirely; every other point
    /// gets the quotient of the two barycentric sums. The result holds one
    /// value per evaluation point; an overflow is reported exactly when
    /// some point's exact sums or final quotient leave the representable
    /// range, which a point that coincides with a node never does.
    pub fn evaluate(
        &self,
        interp_values: &Vec<Rational>,
        eval_points: &Vec<Rational>,
    ) -> (r: Result<Vec<Rational>, InterpError>)
        requires
            self.wf(),
            interp_values@.len() == self.spec_nodes().len(),
            all_wf(interp_values@),
            all_wf(eval_points@),
        ensures
            match r {
                Ok(vals) => {
                    &&& vals@.len() == eval_points@.len()
                    &&& all_wf(vals@)
                    &&& forall|k: int|
                        0 <= k < eval_points@.len() ==> (#[trigger] rats_of(vals@)[k])
                            == bary_ideal(
                            self.spec_nodes(),
                            self.spec_weights(),
                            rats_of(interp_values@),
                            rats_of(eval_points@)[k],
                        )
                },
                Err(e) => e == InterpError::Overflow,
            },
            r is Err <==> exists|k: int|
                0 <= k < eval_points@.len() && #[trigger] eval_overflows(
                    self.spec_nodes(),
                    self.spec_weights(),
                    rats_of(interp_values@),
                    rats_of(eval_points@)[k],
                ),
            (forall|k: int|
                0 <= k < eval_points@.len() ==> 0 <= first_node_match(
                    self.spec_nodes(),
                    #[trigger] rats_of(eval_points@)[k],
                    0,
                )) ==> r is Ok,
            eval_points@.len() == 0 ==> r is Ok,
    {
        let m = eval_points.len();
        let mut out: Vec<Rational> = Vec::new();
        let mut k: usize = 0;
        while k < m
            invariant
                self.wf(),
                interp_values@.len() == self.spec_nodes().len(),
                all_wf(interp_values@),
                all_wf(eval_points@),
                m == eval_points@.len(),
                k <= m,
                out@.len() == k,
                all_wf(out@),
                forall|a: int|
                    0 <= a < k ==> (#[trigger] rats_of(out@)[a]) == bary_ideal(
                        self.spec_nodes(),
                        self.spec_weights(),
                        rats_of(interp_values@),
                        rats_of(eval_points@)[a],
                    ),
                forall|a: int|
                    0 <= a < k ==> !#[trigger] eval_overflows(
                        self.spec_nodes(),
                        self.spec_weights(),
                        rats_of(interp_values@),
                        rats_of(eval_points@)[a],
                    ),
            decreases m - k,
        {
            let x = eval_points[k];
            match eval_at_point(&self.nodes, &self.weights, interp_values, &x) {
                Some(v) => {
                    proof {
                        assert(rats_of(eval_points@)[k as int] == x@);
                        assert(!eval_overflows(
                            self.spec_nodes(),
                            self.spec_weights(),
                            rats_of(interp_values@),
                            rats_of(eval_points@)[k as int],
                        ));
                    }
                    let ghost pre = out@;
                    out.push(v);
                    proof {
                        assert forall|a: int|
                            0 <= a < k + 1 implies (#[trigger] rats_of(out@)[a]) == bary_ideal(
                            self.spec_nodes(),
                            self.spec_weights(),
                            rats_of(interp_values@),
                            rats_of(eval_points@)[a],
                        ) by {
                            if a < k {
                                assert(out@[a] == pre[a]);
                                assert(rats_of(pre)[a] == bary_ideal(
                                    self.spec_nodes(),
                                    self.spec_weights(),
                                    rats_of(interp_values@),
                                    rats_of(eval_points@)[a],
                                ));
                            } else {
                                assert(out@[a] == v);
                            }
                        }
                    }
                },
                None => {
                    proof {
                        assert(rats_of(eval_points@)[k as int] == x@);
                        assert(eval_overflows(
                            self.spec_nodes(),
                            self.spec_weights(),
                            rats_of(interp_values@),
                            rats_of(eval_points@)[k as int],
                        ));
                        assert(!(0 <= first_node_match(
                            self.spec_nodes(),
                            rats_of(eval_points@)[k as int],
                            0,
                        )));
                    }
                    return Err(InterpError::Overflow);
                },
            }
            k += 1;
        }
        Ok(out)
    }

    /// The same interpolator with every barycentric weight multiplied by
    /// the nonzero `factor`; `None` exactly when some scaled weight leaves
    /// the representable range. A zero factor is excluded: it would zero
    /// every weight, and with them the interpolant's denominator sum.
    pub fn with_scaled_weights(&self, factor: &Rational) -> (r: Option<BaryPolyInterpolator1dRef>)
        requires
            self.wf(),
            factor.wf(),
            !rat_eq(factor@, rat_zero()),
        ensures
            match r {
                Some(s) => {
                    &&& s.wf()
                    &&& s.spec_nodes() == self.spec_nodes()
                    &&& s.spec_weights().len() == self.spec_weights().len()
                    &&& forall|i: int|
                        0 <= i < self.spec_weights().len() ==> (#[trigger] s.spec_weights()[i])
                            == rat_mul(factor@, self.spec_weights()[i])
                },
                None => exists|i: int|
                    0 <= i < self.spec_weights().len() && !rat_in_range(
                        rat_mul(factor@, #[trigger] self.spec_weights()[i]),
                    ),
            },
    {
        let n = self.weights.len();
        let mut scaled: Vec<Rational> = Vec::new();
        let mut i: usize = 0;
        while i < n
            invariant
                self.wf(),
                factor.wf(),
                n == self.weights@.len(),
                i <= n,
                scaled@.len() == i,
                all_wf(scaled@),
                forall|a: int|
                    0 <= a < i ==> (#[trigger] rats_of(scaled@)[a]) == rat_mul(
                        factor@,
                        self.spec_weights()[a],
                    ),
            decreases n - i,
        {
            let w = match factor.try_mul(&self.weights[i]) {
                Some(w) => w,
                None => {
                    proof {
                        assert(!rat_in_range(rat_mul(factor@, self.spec_weights()[i as int])));
                    }
                    return None;
                },
            };
            let ghost pre = scaled@;
            scaled.push(w);
            proof {
                assert forall|a: int|
                    0 <= a < i + 1 implies (#[trigger] rats_of(scaled@)[a]) == rat_mul(
                    factor@,
                    self.spec_weights()[a],
                ) by {
                    if a < i {
                        assert(scaled@[a] == pre[a]);
                        assert(rats_of(pre)[a] == rat_mul(factor@, self.spec_weights()[a]));
                    } else {
                        assert(scaled@[a] == w);
                    }
                }
            }
            i += 1;
        }
        Some(
            BaryPolyInterpolator1dRef {
                nodes: self.nodes.clone(),
                weights: scaled,
            },
        )
    }

    pub fn node_count(&self) -> (r: usize)
        requires
            self.wf(),
        ensures
            r == self.spec_nodes().len(),
    {
        self.nodes.len()
    }

    pub fn node_at(&self, i: usize) -> (r: Rational)
        requires
            self.wf(),
            i < self.spec_nodes().len(),
        ensures
            r.wf(),
            r@ == self.spec_nodes()[i as int],
    {
        self.nodes[i]
    }

    pub fn weight_at(&self, i: usize) -> (r: Rational)
        requires
            self.wf(),
            i < self.spec_weights().len(),
        ensures
            r.wf(),
            r@ == self.spec_weights()[i as int],
    {
        self.weights[i]
    }
}

} // verus!
