//! The summary of a model that its metadata endpoint reports.
use vstd::prelude::*;
use crate::graph::{GraphConfig, GraphNode, op_is};
use crate::text::str_eq;

verus! {

/// Statistics of a model's graph.
pub struct ModelMetadata {
    /// "Neural Network", "Linear Model", "Activation Model" or "Unknown".
    pub model_type: String,
    pub total_layers: usize,
    pub total_parameters: usize,
    /// Each `op` that some node has, once, with the number of nodes that have it, in the
    /// order in which the ops first occur.
    pub layer_types: Vec<(String, usize)>,
    pub has_linear: bool,
    pub has_activation: bool,
    pub has_normalization: bool,
    pub is_classifier: bool,
    pub is_regressor: bool,
    pub input_nodes: usize,
    pub output_nodes: usize,
    pub hidden_layers: usize,
}

/// Number of nodes whose `op` is `s`.
pub open spec fn op_count(ns: Seq<GraphNode>, s: Seq<char>) -> nat
    decreases ns.len(),
{
    if ns.len() == 0 {
        0
    } else {
        op_count(ns.drop_last(), s) + if op_is(ns.last(), s) {
            1nat
        } else {
            0nat
        }
    }
}

pub open spec fn has_op(ns: Seq<GraphNode>, s: Seq<char>) -> bool {
    exists|j: int| 0 <= j < ns.len() && op_is(#[trigger] ns[j], s)
}

/// The ops that count as activations.
pub open spec fn is_activation(s: Seq<char>) -> bool {
    s == "ReLU"@ || s == "Gelu"@ || s == "Sigmoid"@ || s == "Tanh"@ || s == "Softmax"@
}

pub open spec fn node_is_activation(n: GraphNode) -> bool {
    match n.op {
        Some(o) => is_activation(o@),
        None => false,
    }
}

pub open spec fn has_activation_op(ns: Seq<GraphNode>) -> bool {
    exists|j: int| 0 <= j < ns.len() && node_is_activation(#[trigger] ns[j])
}

pub open spec fn sum_sizes(s: Seq<usize>) -> int
    decreases s.len(),
{
    if s.len() == 0 {
        0
    } else {
        sum_sizes(s.drop_last()) + s.last()
    }
}

pub open spec fn model_type_of(linear: bool, activation: bool) -> Seq<char> {
    if linear && activation {
        "Neural Network"@
    } else if linear {
        "Linear Model"@
    } else if activation {
        "Activation Model"@
    } else {
        "Unknown"@
    }
}

/// `layer_types` counts the ops of `ns` as `ModelMetadata::layer_types` says.
pub open spec fn counts_ops(ns: Seq<GraphNode>, lt: Seq<(String, usize)>) -> bool {
    &&& forall|i: int|
        0 <= i < lt.len() ==> #[trigger] lt[i].1 == op_count(ns, lt[i].0@) && lt[i].1 > 0
    &&& forall|a: int, b: int| 0 <= a < b < lt.len() ==> (#[trigger] lt[a]).0@ != (#[trigger] lt[b]).0@
    &&& forall|j: int|
        0 <= j < ns.len() && (#[trigger] ns[j]).op is Some ==> exists|i: int|
            0 <= i < lt.len() && lt[i].0@ == ns[j].op->0@
}

proof fn lemma_op_count_step(ns: Seq<GraphNode>, j: int, s: Seq<char>)
    requires
        0 <= j < ns.len(),
    ensures
        op_count(ns.take(j + 1), s) == op_count(ns.take(j), s) + if op_is(ns[j], s) {
            1int
        } else {
            0int
        },
{
    assert(ns.take(j + 1).drop_last() =~= ns.take(j));
}

proof fn lemma_op_count_zero(ns: Seq<GraphNode>, s: Seq<char>)
    requires
        forall|j: int| 0 <= j < ns.len() ==> !op_is(#[trigger] ns[j], s),
    ensures
        op_count(ns, s) == 0,
    decreases ns.len(),
{
    if ns.len() > 0 {
        let t = ns.drop_last();
        assert forall|j: int| 0 <= j < t.len() implies !op_is(#[trigger] t[j], s) by {
            assert(t[j] == ns[j]);
        }
        lemma_op_count_zero(t, s);
    }
}

proof fn lemma_op_count_bound(ns: Seq<GraphNode>, s: Seq<char>)
    ensures
        op_count(ns, s) <= ns.len(),
    decreases ns.len(),
{
    if ns.len() > 0 {
        lemma_op_count_bound(ns.drop_last(), s);
    }
}

/// Counts, for each op of the nodes, how many nodes have it.
fn count_ops(ns: &Vec<GraphNode>) -> (lt: Vec<(String, usize)>)
    ensures
        counts_ops(ns@, lt@),
{
    let mut lt: Vec<(String, usize)> = Vec::new();
    let mut j: usize = 0;
    while j < ns.len()
        invariant
            j <= ns.len(),
            counts_ops(ns@.take(j as int), lt@),
        decreases ns.len() - j,
    {
        let ghost pre = ns@.take(j as int);
        let ghost post = ns@.take(j + 1);
        proof {
            assert forall|i: int| 0 <= i < j implies #[trigger] post[i] == pre[i] by {}
            assert(post[j as int] == ns@[j as int]);
        }
        if let Some(op) = &ns[j].op {
            let ghost old_lt = lt@;
            let mut i: usize = 0;
            let mut found = false;
            while i < lt.len()
                invariant_except_break
                    !found,
                invariant
                    i <= lt.len(),
                    lt@ == old_lt,
                    forall|a: int| 0 <= a < i ==> (#[trigger] lt@[a]).0@ != op@,
                ensures
                    found ==> i < lt.len() && lt@[i as int].0@ == op@,
                    !found ==> forall|a: int| 0 <= a < lt.len() ==> (#[trigger] lt@[a]).0@ != op@,
                decreases lt.len() - i,
            {
                if str_eq(lt[i].0.as_str(), op.as_str()) {
                    found = true;
                    break;
                }
                i = i + 1;
            }
            if found {
                proof {
                    lemma_op_count_bound(pre, op@);
                }
                let c = lt[i].1;
                let name = lt[i].0.clone();
                lt.set(i, (name, c + 1));
            } else {
                lt.push((op.clone(), 1));
                proof {
                    assert forall|x: int| 0 <= x < pre.len() implies !op_is(#[trigger] pre[x], op@) by {
                        if op_is(pre[x], op@) {
                            let a = choose|a: int| 0 <= a < old_lt.len() && old_lt[a].0@ == pre[x].op->0@;
                        }
                    }
                    lemma_op_count_zero(pre, op@);
                }
            }
            proof {
                assert forall|a: int| 0 <= a < lt@.len() implies #[trigger] lt@[a].1 == op_count(
                    post,
                    lt@[a].0@,
                ) && lt@[a].1 > 0 by {
                    lemma_op_count_step(ns@, j as int, lt@[a].0@);
                    if a < old_lt.len() {
                        assert(old_lt[a].1 == op_count(pre, old_lt[a].0@));
                    }
                }
                assert forall|x: int|
                    0 <= x < post.len() && (#[trigger] post[x]).op is Some implies exists|a: int|
                        0 <= a < lt@.len() && lt@[a].0@ == post[x].op->0@ by {
                    if x < j {
                        let a = choose|a: int| 0 <= a < old_lt.len() && old_lt[a].0@ == pre[x].op->0@;
                        assert(lt@[a].0@ == old_lt[a].0@);
                    } else {
                        if found {
                            assert(lt@[i as int].0@ == op@);
                        } else {
                            assert(lt@[old_lt.len() as int].0@ == op@);
                        }
                    }
                }
            }
        } else {
            proof {
                assert forall|a: int| 0 <= a < lt@.len() implies #[trigger] lt@[a].1 == op_count(
                    post,
                    lt@[a].0@,
                ) && lt@[a].1 > 0 by {
                    lemma_op_count_step(ns@, j as int, lt@[a].0@);
                }
            }
        }
        j = j + 1;
    }
    proof {
        assert(ns@.take(ns.len() as int) =~= ns@);
    }
    lt
}

fn has_layer(lt: &Vec<(String, usize)>, name: &str) -> (r: bool)
    ensures
        r == exists|i: int| 0 <= i < lt.len() && (#[trigger] lt@[i]).0@ == name@,
{
    let mut i: usize = 0;
    while i < lt.len()
        invariant
            i <= lt.len(),
            forall|a: int| 0 <= a < i ==> (#[trigger] lt@[a]).0@ != name@,
        decreases lt.len() - i,
    {
        if str_eq(lt[i].0.as_str(), name) {
            return true;
        }
        i = i + 1;
    }
    false
}

/// Computes the statistics of a model from its graph and the sizes of its parameter tensors.
pub fn model_metadata(config: &GraphConfig, param_sizes: &Vec<usize>) -> (m: ModelMetadata)
    requires
        sum_sizes(param_sizes@) <= usize::MAX,
    ensures
        ({
            let ns = match config.nodes {
                Some(v) => v@,
                None => Seq::empty(),
            };
            &&& m.total_layers == ns.len()
            &&& counts_ops(ns, m.layer_types@)
            &&& m.has_linear == has_op(ns, "Linear"@)
            &&& m.has_activation == has_activation_op(ns)
            &&& m.has_normalization == has_op(ns, "LayerNorm"@)
            &&& m.model_type@ == model_type_of(m.has_linear, m.has_activation)
            &&& m.is_classifier == (m.has_linear && m.has_activation)
            &&& m.is_regressor == (m.has_linear && !m.has_activation)
            &&& m.total_parameters == sum_sizes(param_sizes@)
            &&& m.input_nodes == match config.inputs {
                Some(v) => v.len(),
                None => 0,
            }
            &&& m.output_nodes == if config.output_node is Some {
                1usize
            } else {
                0usize
            }
            &&& m.hidden_layers == if ns.len() >= 2 {
                (ns.len() - 2) as usize
            } else {
                0usize
            }
        }),
{
    let empty: Vec<GraphNode> = Vec::new();
    let ns = match &config.nodes {
        Some(v) => v,
        None => &empty,
    };
    let layer_types = count_ops(ns);
    let has_linear = has_layer(&layer_types, "Linear");
    let has_relu = has_layer(&layer_types, "ReLU");
    let has_gelu = has_layer(&layer_types, "Gelu");
    let has_sigmoid = has_layer(&layer_types, "Sigmoid");
    let has_tanh = has_layer(&layer_types, "Tanh");
    let has_softmax = has_layer(&layer_types, "Softmax");
    let has_activation = has_relu || has_gelu || has_sigmoid || has_tanh || has_softmax;
    let has_normalization = has_layer(&layer_types, "LayerNorm");
    proof {
        let lt = layer_types@;
        assert(has_linear == has_op(ns@, "Linear"@)) by {
            if has_linear {
                let i = choose|i: int| 0 <= i < lt.len() && (#[trigger] lt[i]).0@ == "Linear"@;
                assert(lt[i].1 == op_count(ns@, "Linear"@));
                if !has_op(ns@, "Linear"@) {
                    lemma_op_count_zero(ns@, "Linear"@);
                }
            }
            if has_op(ns@, "Linear"@) {
                let j = choose|j: int| 0 <= j < ns@.len() && op_is(#[trigger] ns@[j], "Linear"@);
                assert(ns@[j].op is Some);
            }
        }
        assert(has_normalization == has_op(ns@, "LayerNorm"@)) by {
            if has_normalization {
                let i = choose|i: int| 0 <= i < lt.len() && (#[trigger] lt[i]).0@ == "LayerNorm"@;
                assert(lt[i].1 == op_count(ns@, "LayerNorm"@));
                if !has_op(ns@, "LayerNorm"@) {
                    lemma_op_count_zero(ns@, "LayerNorm"@);
                }
            }
            if has_op(ns@, "LayerNorm"@) {
                let j = choose|j: int| 0 <= j < ns@.len() && op_is(#[trigger] ns@[j], "LayerNorm"@);
                assert(ns@[j].op is Some);
            }
        }
        assert(has_activation == has_activation_op(ns@)) by {
            if has_activation {
                let i = choose|i: int| 0 <= i < lt.len() && is_activation((#[trigger] lt[i]).0@);
                let s = lt[i].0@;
                assert(lt[i].1 == op_count(ns@, s));
                if !has_activation_op(ns@) {
                    assert forall|j: int| 0 <= j < ns@.len() implies !op_is(#[trigger] ns@[j], s) by {}
                    lemma_op_count_zero(ns@, s);
                }
            }
            if has_activation_op(ns@) {
                let j = choose|j: int| 0 <= j < ns@.len() && node_is_activation(#[trigger] ns@[j]);
                let i = choose|i: int| 0 <= i < lt.len() && lt[i].0@ == ns@[j].op->0@;
                assert(is_activation(lt[i].0@));
            }
        }
    }
    let model_type = if has_linear && has_activation {
        "Neural Network".to_string()
    } else if has_linear {
        "Linear Model".to_string()
    } else if has_activation {
        "Activation Model".to_string()
    } else {
        "Unknown".to_string()
    };
    let mut total: usize = 0;
    let mut i: usize = 0;
    while i < param_sizes.len()
        invariant
            i <= param_sizes.len(),
            sum_sizes(param_sizes@) <= usize::MAX,
            total == sum_sizes(param_sizes@.take(i as int)),
        decreases param_sizes.len() - i,
    {
        proof {
            assert(param_sizes@.take(i + 1).drop_last() =~= param_sizes@.take(i as int));
            lemma_sum_prefix(param_sizes@, i + 1);
        }
        total = total + param_sizes[i];
        i = i + 1;
    }
    proof {
        assert(param_sizes@.take(param_sizes.len() as int) =~= param_sizes@);
    }
    let total_layers = ns.len();
    ModelMetadata {
        model_type,
        total_layers,
        total_parameters: total,
        layer_types,
        has_linear,
        has_activation,
        has_normalization,
        is_classifier: has_linear && has_activation,
        is_regressor: has_linear && !has_activation,
        input_nodes: match &config.inputs {
            Some(v) => v.len(),
            None => 0,
        },
        output_nodes: if config.output_node.is_some() {
            1
        } else {
            0
        },
        hidden_layers: if total_layers >= 2 {
            total_layers - 2
        } else {
            0
        },
    }
}

proof fn lemma_sum_prefix(s: Seq<usize>, i: int)
    requires
        0 <= i <= s.len(),
    ensures
        sum_sizes(s.take(i)) <= sum_sizes(s),
    decreases s.len() - i,
{
    if i < s.len() {
        lemma_sum_prefix(s, i + 1);
        assert(s.take(i + 1).drop_last() =~= s.take(i));
    } else {
        assert(s.take(i) =~= s);
    }
}

/// A graph has an activation exactly when some node's op is `ReLU`, `Gelu`, `Sigmoid`,
/// `Tanh` or `Softmax`; so a graph with a `Linear` node and any of these is a neural
/// network, and one with a `Linear` node and none of them a linear model.
pub proof fn law_activation_ops(ns: Seq<GraphNode>)
    ensures
        has_activation_op(ns) <==> (has_op(ns, "ReLU"@) || has_op(ns, "Gelu"@) || has_op(ns, "Sigmoid"@)
            || has_op(ns, "Tanh"@) || has_op(ns, "Softmax"@)),
        has_op(ns, "Linear"@) && (has_op(ns, "ReLU"@) || has_op(ns, "Gelu"@) || has_op(ns, "Sigmoid"@)
            || has_op(ns, "Tanh"@) || has_op(ns, "Softmax"@)) ==> model_type_of(
            has_op(ns, "Linear"@),
            has_activation_op(ns),
        ) == "Neural Network"@,
        has_op(ns, "Linear"@) && !(has_op(ns, "ReLU"@) || has_op(ns, "Gelu"@) || has_op(ns, "Sigmoid"@)
            || has_op(ns, "Tanh"@) || has_op(ns, "Softmax"@)) ==> model_type_of(
            has_op(ns, "Linear"@),
            has_activation_op(ns),
        ) == "Linear Model"@,
{
    let acts = has_op(ns, "ReLU"@) || has_op(ns, "Gelu"@) || has_op(ns, "Sigmoid"@) || has_op(ns, "Tanh"@)
        || has_op(ns, "Softmax"@);
    if has_activation_op(ns) {
        let j = choose|j: int| 0 <= j < ns.len() && node_is_activation(#[trigger] ns[j]);
        assert(op_is(ns[j], ns[j].op->0@));
    }
    if acts {
        let j = choose|j: int|
            0 <= j < ns.len() && (op_is(#[trigger] ns[j], "ReLU"@) || op_is(ns[j], "Gelu"@) || op_is(
                ns[j],
                "Sigmoid"@,
            ) || op_is(ns[j], "Tanh"@) || op_is(ns[j], "Softmax"@));
        assert(node_is_activation(ns[j]));
    }
}

} // verus!
