//! Model graphs: the configuration a model is built from, the order its nodes run in,
//! and the parameters it needs.
use vstd::prelude::*;
use crate::text::{concat, str_eq};
use crate::topo::{
    is_index_order, is_stuck, kahn_order, lemma_pigeonhole, occurs_before, preds_before, preds_in_range,
};

verus! {

/// The `params` object of a node, as far as the graph reads it. Each field is the value
/// of that key when it is a non-negative integer that fits a `u64`, and `None` otherwise.
pub struct NodeParams {
    pub in_features: Option<u64>,
    pub out_features: Option<u64>,
    pub normalized_shape: Option<u64>,
    /// `shape` of a `Reshape` node, when it is an array of such integers.
    pub shape: Option<Vec<u64>>,
}

/// One entry of the `nodes` object of a graph configuration.
pub struct GraphNode {
    /// The key of the entry.
    pub name: String,
    /// `op`, when it is a string.
    pub op: Option<String>,
    /// `inputs`, when it is an array: its strings up to the first element that is not a
    /// string.
    pub inputs: Option<Vec<String>>,
    /// Whether `inputs` is an array with an element that is not a string.
    pub inputs_cut: bool,
    /// `params`, when the key is present.
    pub params: Option<NodeParams>,
}

/// A graph configuration: its nodes in key order, the names of its graph inputs and the
/// name of its output node.
pub struct GraphConfig {
    /// `nodes`, when it is an object.
    pub nodes: Option<Vec<GraphNode>>,
    /// `inputs`, when it is an array of strings.
    pub inputs: Option<Vec<String>>,
    /// `output_node`, when the key is present: its text when it is a string.
    pub output_node: Option<Option<String>>,
}

/// Why a graph configuration was refused.
#[derive(Debug)]
pub enum GraphError {
    /// The configuration has no `nodes` object.
    MissingNodes,
    /// A `Linear` or `LayerNorm` node has no `params`.
    MissingParams { node: String, op: String },
    /// A parameter that a node needs is missing or is not a non-negative integer.
    InvalidParam { node: String, op: String, field: String },
    /// A `Linear` or `LayerNorm` node asks for a dimension of size zero.
    ZeroSized { node: String, op: String },
    /// A node reads an input that is neither a graph input nor a node.
    UnknownInput { input: String, node: String },
    /// The nodes cannot be ordered so that each runs after the nodes it reads.
    Cycle,
}

/// A `GraphError` with its strings taken as character sequences.
pub enum GraphErrorView {
    MissingNodes,
    MissingParams { node: Seq<char>, op: Seq<char> },
    InvalidParam { node: Seq<char>, op: Seq<char>, field: Seq<char> },
    ZeroSized { node: Seq<char>, op: Seq<char> },
    UnknownInput { input: Seq<char>, node: Seq<char> },
    Cycle,
}

impl View for GraphError {
    type V = GraphErrorView;

    open spec fn view(&self) -> GraphErrorView {
        match self {
            GraphError::MissingNodes => GraphErrorView::MissingNodes,
            GraphError::MissingParams { node, op } => GraphErrorView::MissingParams { node: node@, op: op@ },
            GraphError::InvalidParam { node, op, field } => GraphErrorView::InvalidParam {
                node: node@,
                op: op@,
                field: field@,
            },
            GraphError::ZeroSized { node, op } => GraphErrorView::ZeroSized { node: node@, op: op@ },
            GraphError::UnknownInput { input, node } => GraphErrorView::UnknownInput {
                input: input@,
                node: node@,
            },
            GraphError::Cycle => GraphErrorView::Cycle,
        }
    }
}

/// How a parameter tensor starts out.
#[derive(Debug, PartialEq, Eq, Structural, Clone, Copy)]
pub enum ParamInit {
    /// Uniform on `[-l, l]` with `l = sqrt(6 / (rows + cols))`, `rows` and `cols` being the
    /// two dimensions of the shape.
    Uniform,
    Zeros,
    Ones,
}

/// A parameter tensor that a model needs: its name, shape and initial values.
#[derive(Debug)]
pub struct ParamSpec {
    pub name: String,
    pub shape: Vec<u64>,
    pub init: ParamInit,
}

/// A `ParamSpec` as plain values.
pub struct ParamView {
    pub name: Seq<char>,
    pub shape: Seq<u64>,
    pub init: ParamInit,
}

impl View for ParamSpec {
    type V = ParamView;

    open spec fn view(&self) -> ParamView {
        ParamView { name: self.name@, shape: self.shape@, init: self.init }
    }
}

/// What a model is built from: the order its nodes run in and the parameters it holds.
#[derive(Debug)]
pub struct ModelPlan {
    pub topo_order: Vec<String>,
    pub params: Vec<ParamSpec>,
}

pub open spec fn params_view(v: Seq<ParamSpec>) -> Seq<ParamView> {
    v.map_values(|p: ParamSpec| p@)
}

/// The node's `op` is `s`.
pub open spec fn op_is(n: GraphNode, s: Seq<char>) -> bool {
    n.op matches Some(o) && o@ == s
}

/// The parameters one node needs, or why its configuration is refused. Nodes other than
/// `Linear` and `LayerNorm` need none.
pub open spec fn node_check(n: GraphNode) -> Result<Seq<ParamView>, GraphErrorView> {
    if op_is(n, "Linear"@) {
        match n.params {
            None => Err(GraphErrorView::MissingParams { node: n.name@, op: "Linear"@ }),
            Some(p) => match p.in_features {
                None => Err(
                    GraphErrorView::InvalidParam { node: n.name@, op: "Linear"@, field: "in_features"@ },
                ),
                Some(i) => match p.out_features {
                    None => Err(
                        GraphErrorView::InvalidParam {
                            node: n.name@,
                            op: "Linear"@,
                            field: "out_features"@,
                        },
                    ),
                    Some(o) => if i == 0 || o == 0 {
                        Err(GraphErrorView::ZeroSized { node: n.name@, op: "Linear"@ })
                    } else {
                        Ok(
                            seq![
                                ParamView { name: n.name@ + "_w"@, shape: seq![i, o], init: ParamInit::Uniform },
                                ParamView { name: n.name@ + "_b"@, shape: seq![o], init: ParamInit::Zeros },
                            ],
                        )
                    },
                },
            },
        }
    } else if op_is(n, "LayerNorm"@) {
        match n.params {
            None => Err(GraphErrorView::MissingParams { node: n.name@, op: "LayerNorm"@ }),
            Some(p) => match p.normalized_shape {
                None => Err(
                    GraphErrorView::InvalidParam {
                        node: n.name@,
                        op: "LayerNorm"@,
                        field: "normalized_shape"@,
                    },
                ),
                Some(d) => if d == 0 {
                    Err(GraphErrorView::ZeroSized { node: n.name@, op: "LayerNorm"@ })
                } else {
                    Ok(
                        seq![
                            ParamView { name: n.name@ + "_gamma"@, shape: seq![d], init: ParamInit::Ones },
                            ParamView { name: n.name@ + "_beta"@, shape: seq![d], init: ParamInit::Zeros },
                        ],
                    )
                },
            },
        }
    } else {
        Ok(Seq::empty())
    }
}

/// The parameters of all nodes, in node order, or the first refusal.
pub open spec fn plan_nodes(ns: Seq<GraphNode>) -> Result<Seq<ParamView>, GraphErrorView>
    decreases ns.len(),
{
    if ns.len() == 0 {
        Ok(Seq::empty())
    } else {
        match plan_nodes(ns.drop_last()) {
            Err(e) => Err(e),
            Ok(ps) => match node_check(ns.last()) {
                Err(e) => Err(e),
                Ok(q) => Ok(ps + q),
            },
        }
    }
}

/// What building a model from `c` gives: the refusal of a node's parameters, of the
/// graph's inputs, or of its shape; else its parameters and an order of its nodes.
pub open spec fn plan_outcome(c: GraphConfig, r: Result<ModelPlan, GraphError>) -> bool {
    match c.nodes {
        None => r matches Err(e) && e@ == GraphErrorView::MissingNodes,
        Some(nodes) => match plan_nodes(nodes@) {
            Err(e) => r matches Err(e2) && e2@ == e,
            Ok(ps) => {
                let gi = strs(c.inputs->0@);
                match r {
                    Ok(plan) => params_view(plan.params@) == ps && topo_outcome(
                        nodes@,
                        gi,
                        Ok(plan.topo_order),
                    ),
                    Err(e) => topo_outcome(nodes@, gi, Err(e)),
                }
            },
        },
    }
}

/// Node `n` has an `inputs` array of strings only.
pub open spec fn inputs_whole(n: GraphNode) -> bool {
    n.inputs is Some && !n.inputs_cut
}

/// The ordering stops by node `j`: an input of a node before it, or one of its own string
/// inputs, names nothing.
pub open spec fn stops_by(ns: Seq<GraphNode>, gi: Seq<Seq<char>>, j: int) -> bool {
    exists|j2: int, k2: int| j2 <= j && #[trigger] unknown_at(ns, gi, j2, k2)
}

/// Every node whose `inputs` is not an array of strings only is reached only after an
/// input that names nothing has stopped the ordering.
pub open spec fn inputs_readable(ns: Seq<GraphNode>, gi: Seq<Seq<char>>) -> bool {
    forall|j: int| 0 <= j < ns.len() && !#[trigger] inputs_whole(ns[j]) ==> stops_by(ns, gi, j)
}

/// What `from_config` needs of a configuration whose parameters are accepted: graph
/// inputs, node names that differ (keys of one object), and an array of strings as the
/// `inputs` of every node that the ordering reads through before an unknown input stops it.
pub open spec fn config_orderable(c: GraphConfig) -> bool {
    match c.nodes {
        None => true,
        Some(nodes) => plan_nodes(nodes@) is Ok ==> {
            &&& c.inputs is Some
            &&& node_names(nodes@).no_duplicates()
            &&& inputs_readable(nodes@, strs(c.inputs->0@))
        },
    }
}

pub open spec fn strs(v: Seq<String>) -> Seq<Seq<char>> {
    v.map_values(|s: String| s@)
}

pub open spec fn node_names(ns: Seq<GraphNode>) -> Seq<Seq<char>> {
    ns.map_values(|n: GraphNode| n.name@)
}

pub open spec fn node_inputs(n: GraphNode) -> Seq<Seq<char>> {
    match n.inputs {
        Some(v) => strs(v@),
        None => Seq::empty(),
    }
}

/// Input `k` of node `j` names neither a graph input nor a node.
pub open spec fn unknown_at(ns: Seq<GraphNode>, gi: Seq<Seq<char>>, j: int, k: int) -> bool {
    &&& 0 <= j < ns.len()
    &&& 0 <= k < node_inputs(ns[j]).len()
    &&& !gi.contains(node_inputs(ns[j])[k])
    &&& !node_names(ns).contains(node_inputs(ns[j])[k])
}

/// Input `k` of node `j` is the first unknown input, nodes taken in order and each
/// node's inputs in order.
pub open spec fn first_unknown(ns: Seq<GraphNode>, gi: Seq<Seq<char>>, j: int, k: int) -> bool {
    &&& unknown_at(ns, gi, j, k)
    &&& forall|j2: int, k2: int|
        (j2 < j || (j2 == j && k2 < k)) ==> !#[trigger] unknown_at(ns, gi, j2, k2)
}

pub open spec fn all_known(ns: Seq<GraphNode>, gi: Seq<Seq<char>>) -> bool {
    forall|j: int, k: int| !#[trigger] unknown_at(ns, gi, j, k)
}

/// Some input of a node before node `j` is unknown.
pub open spec fn unknown_before(ns: Seq<GraphNode>, gi: Seq<Seq<char>>, j: int) -> bool {
    exists|j2: int, k2: int| j2 < j && #[trigger] unknown_at(ns, gi, j2, k2)
}

/// `o` names every node exactly once, and every node comes after each node it reads
/// (inputs that name a graph input are not read from a node).
pub open spec fn is_topological(ns: Seq<GraphNode>, gi: Seq<Seq<char>>, o: Seq<Seq<char>>) -> bool {
    &&& o.no_duplicates()
    &&& forall|i: int| 0 <= i < o.len() ==> node_names(ns).contains(#[trigger] o[i])
    &&& forall|v: int| 0 <= v < ns.len() ==> o.contains(#[trigger] node_names(ns)[v])
    &&& forall|v: int, k: int, a: int, b: int|
        #![trigger o[a], o[b], node_inputs(ns[v])[k]]
        0 <= v < ns.len() && 0 <= k < node_inputs(ns[v]).len() && !gi.contains(
            node_inputs(ns[v])[k],
        ) && 0 <= a < o.len() && 0 <= b < o.len() && o[a] == node_names(ns)[v] && o[b]
            == node_inputs(ns[v])[k] ==> b < a
}

/// The nodes can be ordered so that each comes after the nodes it reads.
pub open spec fn has_topological_order(ns: Seq<GraphNode>, gi: Seq<Seq<char>>) -> bool {
    exists|o: Seq<Seq<char>>| is_topological(ns, gi, o)
}

/// Node `v` reads the name `s`: some input of `v` that is not a graph input is `s`.
pub open spec fn reads(ns: Seq<GraphNode>, gi: Seq<Seq<char>>, v: int, s: Seq<char>) -> bool {
    exists|k: int|
        0 <= k < node_inputs(ns[v]).len() && !gi.contains(node_inputs(ns[v])[k])
            && #[trigger] node_inputs(ns[v])[k] == s
}

/// Some entry of `row` is the node named `s`.
pub open spec fn row_names(ns: Seq<GraphNode>, row: Seq<usize>, s: Seq<char>) -> bool {
    exists|j: int| 0 <= j < row.len() && node_names(ns)[#[trigger] row[j] as int] == s
}

/// `row` lists nodes that node `v` reads, and names every node that its first `upto`
/// inputs read.
pub open spec fn row_ok(ns: Seq<GraphNode>, gi: Seq<Seq<char>>, v: int, row: Seq<usize>, upto: int) -> bool {
    &&& forall|j: int|
        0 <= j < row.len() ==> #[trigger] row[j] < ns.len() && reads(ns, gi, v, node_names(ns)[row[j] as int])
    &&& forall|k: int|
        0 <= k < upto && !gi.contains(#[trigger] node_inputs(ns[v])[k]) ==> row_names(
            ns,
            row,
            node_inputs(ns[v])[k],
        )
}

/// `ps[v]` lists, for node `v`, the nodes that its non-graph-input inputs name.
pub open spec fn preds_match(ns: Seq<GraphNode>, gi: Seq<Seq<char>>, ps: Seq<Seq<usize>>) -> bool {
    &&& ps.len() == ns.len()
    &&& forall|v: int| 0 <= v < ns.len() ==> #[trigger] row_ok(ns, gi, v, ps[v], node_inputs(ns[v]).len() as int)
}

proof fn lemma_preds_match_in_range(ns: Seq<GraphNode>, gi: Seq<Seq<char>>, ps: Seq<Seq<usize>>)
    requires
        preds_match(ns, gi, ps),
    ensures
        preds_in_range(ps),
{
    assert forall|v: int, j: int| 0 <= v < ps.len() && 0 <= j < ps[v].len() implies #[trigger] ps[v][j]
        < ps.len() by {
        assert(row_ok(ns, gi, v, ps[v], node_inputs(ns[v]).len() as int));
    }
}

/// What ordering the nodes gives: the order, the first unknown input, or a cycle.
pub open spec fn topo_outcome(
    ns: Seq<GraphNode>,
    gi: Seq<Seq<char>>,
    r: Result<Vec<String>, GraphError>,
) -> bool {
    match r {
        Ok(o) => all_known(ns, gi) && is_topological(ns, gi, strs(o@)),
        Err(GraphError::UnknownInput { input, node }) => exists|j: int, k: int|
            first_unknown(ns, gi, j, k) && input@ == node_inputs(ns[j])[k] && node@ == ns[j].name@,
        Err(GraphError::Cycle) => all_known(ns, gi) && !has_topological_order(ns, gi),
        Err(_) => false,
    }
}

/// Whether `strs(v)` holds `s`.
pub fn contains_string(v: &Vec<String>, s: &String) -> (r: bool)
    ensures
        r == strs(v@).contains(s@),
{
    let mut i: usize = 0;
    while i < v.len()
        invariant
            i <= v.len(),
            forall|k: int| 0 <= k < i ==> #[trigger] strs(v@)[k] != s@,
        decreases v.len() - i,
    {
        if v[i] == *s {
            assert(strs(v@)[i as int] == s@);
            return true;
        }
        i = i + 1;
    }
    false
}

/// The position of the node named `s`.
pub fn find_node(ns: &Vec<GraphNode>, s: &String) -> (r: Option<usize>)
    ensures
        match r {
            Some(i) => i < ns.len() && ns@[i as int].name@ == s@,
            None => !node_names(ns@).contains(s@),
        },
{
    let mut i: usize = 0;
    while i < ns.len()
        invariant
            i <= ns.len(),
            forall|k: int| 0 <= k < i ==> #[trigger] node_names(ns@)[k] != s@,
        decreases ns.len() - i,
    {
        if ns[i].name == *s {
            return Some(i);
        }
        i = i + 1;
    }
    None
}

/// The nodes that the non-graph-input inputs of node `v` name, or its first input that
/// names nothing.
fn resolve_row(ns: &Vec<GraphNode>, gi: &Vec<String>, v: usize, inputs: &Vec<String>) -> (r: Result<
    Vec<usize>,
    GraphError,
>)
    requires
        v < ns.len(),
        node_inputs(ns@[v as int]) == strs(inputs@),
    ensures
        match r {
            Ok(row) => row_ok(ns@, strs(gi@), v as int, row@, inputs.len() as int) && forall|k: int|
                !#[trigger] unknown_at(ns@, strs(gi@), v as int, k),
            Err(GraphError::UnknownInput { input, node }) => exists|k: int|
                #[trigger] unknown_at(ns@, strs(gi@), v as int, k) && (forall|k2: int|
                    k2 < k ==> !#[trigger] unknown_at(ns@, strs(gi@), v as int, k2))
                    && input@ == node_inputs(ns@[v as int])[k] && node@ == ns@[v as int].name@,
            Err(_) => false,
        },
{
    let ghost g = strs(gi@);
    let ghost nv = ns@;
    let mut row: Vec<usize> = Vec::new();
    let mut k: usize = 0;
    while k < inputs.len()
        invariant
            nv == ns@,
            g == strs(gi@),
            v < ns.len(),
            node_inputs(nv[v as int]) == strs(inputs@),
            k <= inputs.len(),
            forall|k2: int| k2 < k ==> !#[trigger] unknown_at(nv, g, v as int, k2),
            row_ok(nv, g, v as int, row@, k as int),
        decreases inputs.len() - k,
    {
        let s = &inputs[k];
        assert(strs(inputs@)[k as int] == s@);
        if contains_string(gi, s) {
            k = k + 1;
            continue;
        }
        match find_node(ns, s) {
            None => {
                proof {
                    assert(unknown_at(nv, g, v as int, k as int));
                }
                return Err(GraphError::UnknownInput { input: s.clone(), node: ns[v].name.clone() });
            },
            Some(p) => {
                let ghost old_row = row@;
                row.push(p);
                proof {
                    assert(node_names(nv)[p as int] == s@);
                    assert(reads(nv, g, v as int, s@));
                    assert forall|j: int| 0 <= j < row@.len() implies #[trigger] row@[j] < nv.len()
                        && reads(nv, g, v as int, node_names(nv)[row@[j] as int]) by {
                        if j < old_row.len() {
                            assert(row@[j] == old_row[j]);
                        }
                    }
                    assert forall|k2: int|
                        0 <= k2 < k + 1 && !g.contains(#[trigger] node_inputs(nv[v as int])[k2]) implies row_names(
                        nv,
                        row@,
                        node_inputs(nv[v as int])[k2],
                    ) by {
                        if k2 < k {
                            let j = choose|j: int|
                                0 <= j < old_row.len() && node_names(nv)[#[trigger] old_row[j] as int]
                                    == node_inputs(nv[v as int])[k2];
                            assert(row@[j] == old_row[j]);
                        } else {
                            assert(row@[old_row.len() as int] == p);
                        }
                    }
                }
            },
        }
        k = k + 1;
    }
    Ok(row)
}

/// For each node, the nodes that its non-graph-input inputs name, or the first input
/// that names nothing.
fn resolve_preds(ns: &Vec<GraphNode>, gi: &Vec<String>) -> (r: Result<Vec<Vec<usize>>, GraphError>)
    requires
        inputs_readable(ns@, strs(gi@)),
    ensures
        match r {
            Ok(ps) => all_known(ns@, strs(gi@)) && (forall|j: int| 0 <= j < ns.len() ==> #[trigger] inputs_whole(ns@[j])) && preds_match(ns@, strs(gi@), ps@.map_values(|p: Vec<usize>| p@)),
            Err(GraphError::UnknownInput { input, node }) => exists|j: int, k: int|
                first_unknown(ns@, strs(gi@), j, k) && input@ == node_inputs(ns@[j])[k] && node@ == ns@[j].name@,
            Err(_) => false,
        },
{
    let ghost g = strs(gi@);
    let ghost nv = ns@;
    let mut preds: Vec<Vec<usize>> = Vec::new();
    let mut v: usize = 0;
    while v < ns.len()
        invariant
            nv == ns@,
            g == strs(gi@),
            inputs_readable(nv, g),
            v <= ns.len(),
            forall|j: int| 0 <= j < v ==> #[trigger] inputs_whole(nv[j]),
            preds.len() == v,
            forall|j: int, k: int| j < v ==> !#[trigger] unknown_at(nv, g, j, k),
            forall|w: int| 0 <= w < v ==> #[trigger] row_ok(nv, g, w, preds@[w]@, node_inputs(nv[w]).len() as int),
        decreases ns.len() - v,
    {
        let inputs = match &ns[v].inputs {
            Some(inputs) => inputs,
            None => {
                proof {
                    assert(!inputs_whole(nv[v as int]));
                    let (j2, k2) = choose|j2: int, k2: int| j2 <= v && #[trigger] unknown_at(nv, g, j2, k2);
                    if j2 == v {
                        assert(node_inputs(nv[v as int]) =~= Seq::<Seq<char>>::empty());
                    }
                    assert(!unknown_at(nv, g, j2, k2));
                }
                return Err(GraphError::Cycle);
            },
        };
        match resolve_row(ns, gi, v, inputs) {
            Ok(row) => {
                let ghost old = preds@;
                preds.push(row);
                proof {
                    if !inputs_whole(nv[v as int]) {
                        let (j2, k2) = choose|j2: int, k2: int| j2 <= v && #[trigger] unknown_at(nv, g, j2, k2);
                        assert(!unknown_at(nv, g, j2, k2));
                    }
                    assert forall|w: int| 0 <= w < v + 1 implies #[trigger] row_ok(
                        nv,
                        g,
                        w,
                        preds@[w]@,
                        node_inputs(nv[w]).len() as int,
                    ) by {
                        if w < v {
                            assert(preds@[w] == old[w]);
                        }
                    }
                }
            },
            Err(e) => {
                proof {
                    if let GraphError::UnknownInput { input, node } = &e {
                        let k = choose|k: int|
                            #[trigger] unknown_at(nv, g, v as int, k) && (forall|k2: int|
                                k2 < k ==> !#[trigger] unknown_at(nv, g, v as int, k2))
                                && input@ == node_inputs(nv[v as int])[k] && node@ == nv[v as int].name@;
                        assert forall|j2: int, k2: int|
                            (j2 < v || (j2 == v && k2 < k)) implies !#[trigger] unknown_at(nv, g, j2, k2) by {}
                        assert(first_unknown(nv, g, v as int, k));
                    }
                }
                return Err(e);
            },
        }
        v = v + 1;
    }
    proof {
        let ps = preds@.map_values(|p: Vec<usize>| p@);
        assert forall|w: int| 0 <= w < nv.len() implies #[trigger] row_ok(
            nv,
            g,
            w,
            ps[w],
            node_inputs(nv[w]).len() as int,
        ) by {
            assert(ps[w] == preds@[w]@);
        }
        assert forall|j: int, k: int| !#[trigger] unknown_at(nv, g, j, k) by {}
    }
    Ok(preds)
}

/// The names of the nodes at the positions `o`.
fn names_at(ns: &Vec<GraphNode>, o: &Vec<usize>) -> (r: Vec<String>)
    requires
        forall|i: int| 0 <= i < o.len() ==> #[trigger] o@[i] < ns.len(),
    ensures
        r.len() == o.len(),
        forall|i: int| 0 <= i < o.len() ==> #[trigger] strs(r@)[i] == node_names(ns@)[o@[i] as int],
{
    let mut r: Vec<String> = Vec::new();
    let mut i: usize = 0;
    while i < o.len()
        invariant
            i <= o.len(),
            forall|i: int| 0 <= i < o.len() ==> #[trigger] o@[i] < ns.len(),
            r.len() == i,
            forall|j: int| 0 <= j < i ==> #[trigger] strs(r@)[j] == node_names(ns@)[o@[j] as int],
        decreases o.len() - i,
    {
        let ghost old = r@;
        r.push(ns[o[i]].name.clone());
        proof {
            assert forall|j: int| 0 <= j < i + 1 implies #[trigger] strs(r@)[j] == node_names(ns@)[o@[j] as int] by {
                assert(strs(r@)[j] == r@[j]@);
                assert(node_names(ns@)[o@[j] as int] == ns@[o@[j] as int].name@);
                if j < i {
                    assert(r@[j] == old[j]);
                    assert(strs(old)[j] == old[j]@);
                }
            }
        }
        i = i + 1;
    }
    r
}

proof fn lemma_index_order_topological(
    ns: Seq<GraphNode>,
    gi: Seq<Seq<char>>,
    ps: Seq<Seq<usize>>,
    o: Seq<usize>,
    on: Seq<Seq<char>>,
)
    requires
        ns.len() <= usize::MAX,
        node_names(ns).no_duplicates(),
        preds_match(ns, gi, ps),
        is_index_order(ps, o),
        on.len() == o.len(),
        forall|i: int| 0 <= i < o.len() ==> #[trigger] on[i] == node_names(ns)[o[i] as int],
    ensures
        is_topological(ns, gi, on),
{
    let names = node_names(ns);
    assert forall|a: int, b: int| 0 <= a < on.len() && 0 <= b < on.len() && a != b implies on[a] != on[b] by {
        assert(on[a] == names[o[a] as int]);
        assert(on[b] == names[o[b] as int]);
    }
    assert forall|i: int| 0 <= i < on.len() implies names.contains(#[trigger] on[i]) by {
        assert(on[i] == names[o[i] as int]);
    }
    assert forall|v: int| 0 <= v < ns.len() implies on.contains(#[trigger] names[v]) by {
        if !o.contains(v as usize) {
            lemma_pigeonhole(o, ns.len(), Some(v as usize));
        }
        let i = choose|i: int| 0 <= i < o.len() && o[i] == v as usize;
        assert(on[i] == names[v]);
    }
    assert forall|v: int, k: int, a: int, b: int|
        #![trigger on[a], on[b], node_inputs(ns[v])[k]]
        0 <= v < ns.len() && 0 <= k < node_inputs(ns[v]).len() && !gi.contains(
            node_inputs(ns[v])[k],
        ) && 0 <= a < on.len() && 0 <= b < on.len() && on[a] == names[v] && on[b]
            == node_inputs(ns[v])[k] implies b < a by {
        assert(on[a] == names[o[a] as int]);
        assert(o[a] as int == v);
        assert(row_ok(ns, gi, v, ps[v], node_inputs(ns[v]).len() as int));
        let s = node_inputs(ns[v])[k];
        assert(row_names(ns, ps[v], s));
        let j = choose|j: int| 0 <= j < ps[v].len() && names[#[trigger] ps[v][j] as int] == s;
        assert(preds_before(ps, o, a));
        assert(occurs_before(o, a, ps[o[a] as int][j]));
        let k2 = choose|k2: int| 0 <= k2 < a && #[trigger] o[k2] == ps[o[a] as int][j];
        assert(on[k2] == names[o[k2] as int]);
        assert(on[b] == on[k2]);
    }
}

proof fn lemma_stuck_position(
    ns: Seq<GraphNode>,
    gi: Seq<Seq<char>>,
    ps: Seq<Seq<usize>>,
    pend: Seq<bool>,
    o: Seq<Seq<char>>,
    q: int,
)
    requires
        preds_match(ns, gi, ps),
        is_stuck(ps, pend),
        is_topological(ns, gi, o),
    ensures
        forall|v: int|
            0 <= v < ns.len() && #[trigger] pend[v] ==> !(0 <= q < o.len() && o[q] == node_names(ns)[v]),
    decreases q,
{
    let names = node_names(ns);
    assert forall|v: int|
        0 <= v < ns.len() && #[trigger] pend[v] implies !(0 <= q < o.len() && o[q] == names[v]) by {
        if 0 <= q < o.len() && o[q] == names[v] {
            let j = choose|j: int| 0 <= j < ps[v].len() && pend[#[trigger] ps[v][j] as int];
            let p = ps[v][j] as int;
            assert(row_ok(ns, gi, v, ps[v], node_inputs(ns[v]).len() as int));
            assert(p < ns.len());
            assert(reads(ns, gi, v, names[p]));
            let k = choose|k: int|
                0 <= k < node_inputs(ns[v]).len() && !gi.contains(node_inputs(ns[v])[k])
                    && #[trigger] node_inputs(ns[v])[k] == names[p];
            assert(o.contains(names[p]));
            let b = choose|b: int| 0 <= b < o.len() && o[b] == names[p];
            assert(b < q);
            lemma_stuck_position(ns, gi, ps, pend, o, b);
            assert(!(0 <= b < o.len() && o[b] == names[p]));
        }
    }
}

proof fn lemma_stuck_no_order(ns: Seq<GraphNode>, gi: Seq<Seq<char>>, ps: Seq<Seq<usize>>, pend: Seq<bool>)
    requires
        preds_match(ns, gi, ps),
        is_stuck(ps, pend),
    ensures
        !has_topological_order(ns, gi),
{
    if has_topological_order(ns, gi) {
        let o = choose|o: Seq<Seq<char>>| is_topological(ns, gi, o);
        let v = choose|v: int| 0 <= v < pend.len() && #[trigger] pend[v];
        assert(o.contains(node_names(ns)[v]));
        let q = choose|q: int| 0 <= q < o.len() && o[q] == node_names(ns)[v];
        lemma_stuck_position(ns, gi, ps, pend, o, q);
    }
}

/// Orders the nodes so that each comes after the nodes it reads. Fails on the first input
/// that names neither a graph input nor a node, and when no such order exists.
pub fn topological_sort(nodes: &Vec<GraphNode>, graph_inputs: &Vec<String>) -> (r: Result<
    Vec<String>,
    GraphError,
>)
    requires
        node_names(nodes@).no_duplicates(),
        inputs_readable(nodes@, strs(graph_inputs@)),
    ensures
        topo_outcome(nodes@, strs(graph_inputs@), r),
        r is Ok ==> forall|j: int| 0 <= j < nodes.len() ==> #[trigger] inputs_whole(nodes@[j]),
{
    let preds = match resolve_preds(nodes, graph_inputs) {
        Ok(preds) => preds,
        Err(e) => {
            return Err(e);
        },
    };
    let ghost ps = preds@.map_values(|p: Vec<usize>| p@);
    proof {
        lemma_preds_match_in_range(nodes@, strs(graph_inputs@), ps);
    }
    let (order, Ghost(pend)) = kahn_order(&preds);
    match order {
        Some(o) => {
            let names = names_at(nodes, &o);
            proof {
                lemma_index_order_topological(nodes@, strs(graph_inputs@), ps, o@, strs(names@));
            }
            Ok(names)
        },
        None => {
            proof {
                lemma_stuck_no_order(nodes@, strs(graph_inputs@), ps, pend);
            }
            Err(GraphError::Cycle)
        },
    }
}

fn str_is(s: &String, lit: &str) -> (r: bool)
    ensures
        r == (s@ == lit@),
{
    str_eq(s.as_str(), lit)
}

fn op_matches(n: &GraphNode, lit: &str) -> (r: bool)
    ensures
        r == op_is(*n, lit@),
{
    match &n.op {
        Some(o) => str_is(o, lit),
        None => false,
    }
}

fn param(name: &String, suffix: &str, shape: Vec<u64>, init: ParamInit) -> (p: ParamSpec)
    ensures
        p@ == (ParamView { name: name@ + suffix@, shape: shape@, init }),
{
    ParamSpec { name: concat(name.as_str(), suffix), shape, init }
}

/// The parameters of one node, or why it is refused.
fn check_node(n: &GraphNode) -> (r: Result<Vec<ParamSpec>, GraphError>)
    ensures
        match node_check(*n) {
            Ok(ps) => r matches Ok(v) && params_view(v@) == ps,
            Err(e) => r matches Err(e2) && e2@ == e,
        },
{
    let mut out: Vec<ParamSpec> = Vec::new();
    if op_matches(n, "Linear") {
        let p = match &n.params {
            None => {
                return Err(GraphError::MissingParams { node: n.name.clone(), op: "Linear".to_string() });
            },
            Some(p) => p,
        };
        let i = match p.in_features {
            None => {
                return Err(
                    GraphError::InvalidParam {
                        node: n.name.clone(),
                        op: "Linear".to_string(),
                        field: "in_features".to_string(),
                    },
                );
            },
            Some(i) => i,
        };
        let o = match p.out_features {
            None => {
                return Err(
                    GraphError::InvalidParam {
                        node: n.name.clone(),
                        op: "Linear".to_string(),
                        field: "out_features".to_string(),
                    },
                );
            },
            Some(o) => o,
        };
        if i == 0 || o == 0 {
            return Err(GraphError::ZeroSized { node: n.name.clone(), op: "Linear".to_string() });
        }
        let mut ws: Vec<u64> = Vec::new();
        ws.push(i);
        ws.push(o);
        let mut bs: Vec<u64> = Vec::new();
        bs.push(o);
        out.push(param(&n.name, "_w", ws, ParamInit::Uniform));
        out.push(param(&n.name, "_b", bs, ParamInit::Zeros));
        proof {
            assert(ws@ =~= seq![i, o]);
            assert(bs@ =~= seq![o]);
            assert(params_view(out@)[0] == out@[0]@);
            assert(params_view(out@)[1] == out@[1]@);
            assert(params_view(out@) =~= node_check(*n)->Ok_0);
        }
    } else if op_matches(n, "LayerNorm") {
        let p = match &n.params {
            None => {
                return Err(
                    GraphError::MissingParams { node: n.name.clone(), op: "LayerNorm".to_string() },
                );
            },
            Some(p) => p,
        };
        let d = match p.normalized_shape {
            None => {
                return Err(
                    GraphError::InvalidParam {
                        node: n.name.clone(),
                        op: "LayerNorm".to_string(),
                        field: "normalized_shape".to_string(),
                    },
                );
            },
            Some(d) => d,
        };
        if d == 0 {
            return Err(GraphError::ZeroSized { node: n.name.clone(), op: "LayerNorm".to_string() });
        }
        let mut gs: Vec<u64> = Vec::new();
        gs.push(d);
        let mut bs: Vec<u64> = Vec::new();
        bs.push(d);
        out.push(param(&n.name, "_gamma", gs, ParamInit::Ones));
        out.push(param(&n.name, "_beta", bs, ParamInit::Zeros));
        proof {
            assert(gs@ =~= seq![d]);
            assert(bs@ =~= seq![d]);
            assert(params_view(out@)[0] == out@[0]@);
            assert(params_view(out@)[1] == out@[1]@);
            assert(params_view(out@) =~= node_check(*n)->Ok_0);
        }
    } else {
        proof {
            assert(params_view(out@) =~= Seq::empty());
        }
    }
    Ok(out)
}

impl ModelPlan {
    /// Checks the parameters of every node, in node order, then orders the nodes.
    pub fn from_config(config: &GraphConfig) -> (r: Result<ModelPlan, GraphError>)
        requires
            config_orderable(*config),
        ensures
            plan_outcome(*config, r),
    {
        let nodes = match &config.nodes {
            None => {
                return Err(GraphError::MissingNodes);
            },
            Some(nodes) => nodes,
        };
        let mut params: Vec<ParamSpec> = Vec::new();
        proof {
            assert(nodes@.take(0) =~= Seq::<GraphNode>::empty());
            assert(params_view(params@) =~= Seq::<ParamView>::empty());
        }
        let mut i: usize = 0;
        while i < nodes.len()
            invariant
                config.nodes == Some(*nodes),
                i <= nodes.len(),
                plan_nodes(nodes@.take(i as int)) == Ok::<Seq<ParamView>, GraphErrorView>(params_view(params@)),
            decreases nodes.len() - i,
        {
            proof {
                assert(nodes@.take(i + 1).drop_last() =~= nodes@.take(i as int));
                assert(nodes@.take(i + 1).last() == nodes@[i as int]);
            }
            match check_node(&nodes[i]) {
                Err(e) => {
                    proof {
                        assert(node_check(nodes@[i as int]) is Err);
                        assert(plan_nodes(nodes@.take(i + 1)) == Err::<Seq<ParamView>, GraphErrorView>(e@));
                        lemma_plan_stops(nodes@, i as int);
                        assert(plan_nodes(nodes@) == Err::<Seq<ParamView>, GraphErrorView>(e@));
                    }
                    return Err(e);
                },
                Ok(mut more) => {
                    let ghost before = params_view(params@);
                    let ghost extra = params_view(more@);
                    params.append(&mut more);
                    proof {
                        assert(params_view(params@) =~= before + extra);
                    }
                },
            }
            i = i + 1;
        }
        proof {
            assert(nodes@.take(nodes.len() as int) =~= nodes@);
        }
        let graph_inputs = match &config.inputs {
            Some(g) => g,
            None => {
                return Err(GraphError::Cycle);
            },
        };
        match topological_sort(nodes, graph_inputs) {
            Ok(topo_order) => Ok(ModelPlan { topo_order, params }),
            Err(e) => Err(e),
        }
    }
}

/// Whether the parameters of every node are accepted.
fn params_accepted(nodes: &Vec<GraphNode>) -> (r: bool)
    ensures
        r == plan_nodes(nodes@) is Ok,
{
    let mut i: usize = 0;
    while i < nodes.len()
        invariant
            i <= nodes.len(),
            plan_nodes(nodes@.take(i as int)) is Ok,
        decreases nodes.len() - i,
    {
        proof {
            assert(nodes@.take(i + 1).drop_last() =~= nodes@.take(i as int));
            assert(nodes@.take(i + 1).last() == nodes@[i as int]);
        }
        if check_node(&nodes[i]).is_err() {
            proof {
                lemma_plan_stops(nodes@, i as int);
            }
            return false;
        }
        i = i + 1;
    }
    proof {
        assert(nodes@.take(nodes.len() as int) =~= nodes@);
    }
    true
}

/// Whether no two nodes have the same name.
fn names_distinct(nodes: &Vec<GraphNode>) -> (r: bool)
    ensures
        r == node_names(nodes@).no_duplicates(),
{
    let ghost names = node_names(nodes@);
    let mut i: usize = 0;
    while i < nodes.len()
        invariant
            names == node_names(nodes@),
            i <= nodes.len(),
            forall|a: int, b: int| 0 <= a < b < nodes.len() && a < i ==> names[a] != names[b],
        decreases nodes.len() - i,
    {
        let mut j: usize = i + 1;
        while j < nodes.len()
            invariant
                names == node_names(nodes@),
                i < nodes.len(),
                i + 1 <= j <= nodes.len(),
                forall|a: int, b: int| 0 <= a < b < nodes.len() && a < i ==> names[a] != names[b],
                forall|b: int| i < b < j ==> names[i as int] != names[b],
            decreases nodes.len() - j,
        {
            if nodes[i].name == nodes[j].name {
                proof {
                    assert(names[i as int] == names[j as int]);
                }
                return false;
            }
            j = j + 1;
        }
        i = i + 1;
    }
    true
}

impl ModelPlan {
    /// Whether `from_config` can run on `config`: its parameters are refused, or its graph
    /// inputs, node names and the inputs of the nodes it reaches can be ordered.
    pub fn orderable(config: &GraphConfig) -> (r: bool)
        ensures
            r == config_orderable(*config),
    {
        let nodes = match &config.nodes {
            None => {
                return true;
            },
            Some(nodes) => nodes,
        };
        if !params_accepted(nodes) {
            return true;
        }
        let gi = match &config.inputs {
            None => {
                return false;
            },
            Some(gi) => gi,
        };
        if !names_distinct(nodes) {
            return false;
        }
        let ghost g = strs(gi@);
        let mut seen = false;
        let mut j: usize = 0;
        while j < nodes.len()
            invariant
                config.nodes == Some(*nodes),
                config.inputs == Some(*gi),
                g == strs(gi@),
                plan_nodes(nodes@) is Ok,
                j <= nodes.len(),
                seen == unknown_before(nodes@, g, j as int),
                forall|j2: int|
                    0 <= j2 < j && !#[trigger] inputs_whole(nodes@[j2]) ==> stops_by(nodes@, g, j2),
            decreases nodes.len() - j,
        {
            match &nodes[j].inputs {
                None => {
                    if !seen {
                        proof {
                            assert(!inputs_whole(nodes@[j as int]));
                            if stops_by(nodes@, g, j as int) {
                                let (j2, k2) = choose|j2: int, k2: int|
                                    j2 <= j && #[trigger] unknown_at(nodes@, g, j2, k2);
                                if j2 == j {
                                    assert(node_inputs(nodes@[j2]) =~= Seq::<Seq<char>>::empty());
                                }
                                assert(unknown_before(nodes@, g, j as int));
                            }
                        }
                        return false;
                    }
                    proof {
                        let (j2, k2) = choose|j2: int, k2: int| j2 < j && #[trigger] unknown_at(nodes@, g, j2, k2);
                        assert(stops_by(nodes@, g, j as int));
                        assert forall|j2: int, k2: int| !(j2 < j + 1 && #[trigger] unknown_at(nodes@, g, j2, k2) && j2 >= j) by {
                            if j2 == j && unknown_at(nodes@, g, j2, k2) {
                                assert(node_inputs(nodes@[j2]) =~= Seq::<Seq<char>>::empty());
                            }
                        }
                    }
                },
                Some(ins) => {
                    let found = resolve_row(nodes, gi, j, ins).is_err();
                    if nodes[j].inputs_cut && !seen && !found {
                        proof {
                            assert(!inputs_whole(nodes@[j as int]));
                            if stops_by(nodes@, g, j as int) {
                                let (j2, k2) = choose|j2: int, k2: int|
                                    j2 <= j && #[trigger] unknown_at(nodes@, g, j2, k2);
                                if j2 < j {
                                    assert(unknown_before(nodes@, g, j as int));
                                }
                            }
                        }
                        return false;
                    }
                    proof {
                        if seen {
                            let (j2, k2) = choose|j2: int, k2: int| j2 < j && #[trigger] unknown_at(nodes@, g, j2, k2);
                            assert(stops_by(nodes@, g, j as int));
                        }
                        if found {
                            let k = choose|k: int| #[trigger] unknown_at(nodes@, g, j as int, k);
                            assert(stops_by(nodes@, g, j as int));
                            assert(unknown_before(nodes@, g, j + 1));
                        }
                    }
                    if found {
                        seen = true;
                    }
                    proof {
                        if !found {
                            assert forall|j2: int, k2: int| j2 < j + 1 && #[trigger] unknown_at(nodes@, g, j2, k2) implies j2 < j by {
                                if j2 == j {
                                    assert(!unknown_at(nodes@, g, j as int, k2));
                                }
                            }
                        }
                    }
                },
            }
            j = j + 1;
        }
        true
    }

    /// The model plan of any configuration: `None` where building it would read a list of
    /// inputs that is missing, or an element of one that is not a string (the graph's own
    /// list, or that of a node the ordering reads through before an input that names
    /// nothing), else what `from_config` gives.
    pub fn build(config: &GraphConfig) -> (r: Option<Result<ModelPlan, GraphError>>)
        ensures
            match r {
                None => !config_orderable(*config),
                Some(x) => config_orderable(*config) && plan_outcome(*config, x),
            },
    {
        if ModelPlan::orderable(config) {
            Some(ModelPlan::from_config(config))
        } else {
            None
        }
    }
}

/// What running a node does: the operation its `op` names, with the parameters it reads.
pub enum NodeStep {
    /// `x · w + b`, with the parameters of these names.
    Linear { weight: String, bias: String },
    /// Layer normalisation, with the parameters of these names.
    LayerNorm { gamma: String, beta: String },
    ReLU,
    Gelu,
    Sigmoid,
    Softmax,
    Tanh,
    Add,
    Sub,
    Mul,
    MatMul,
    Transpose,
    /// A reshape to the node's `shape` parameter, when it has one.
    Reshape(Option<Vec<u64>>),
    /// `op` is missing or names no operation.
    Unknown,
}

/// A `NodeStep` with its strings taken as character sequences.
pub enum StepView {
    Linear { weight: Seq<char>, bias: Seq<char> },
    LayerNorm { gamma: Seq<char>, beta: Seq<char> },
    ReLU,
    Gelu,
    Sigmoid,
    Softmax,
    Tanh,
    Add,
    Sub,
    Mul,
    MatMul,
    Transpose,
    Reshape(Option<Seq<u64>>),
    Unknown,
}

impl View for NodeStep {
    type V = StepView;

    open spec fn view(&self) -> StepView {
        match self {
            NodeStep::Linear { weight, bias } => StepView::Linear { weight: weight@, bias: bias@ },
            NodeStep::LayerNorm { gamma, beta } => StepView::LayerNorm { gamma: gamma@, beta: beta@ },
            NodeStep::ReLU => StepView::ReLU,
            NodeStep::Gelu => StepView::Gelu,
            NodeStep::Sigmoid => StepView::Sigmoid,
            NodeStep::Softmax => StepView::Softmax,
            NodeStep::Tanh => StepView::Tanh,
            NodeStep::Add => StepView::Add,
            NodeStep::Sub => StepView::Sub,
            NodeStep::Mul => StepView::Mul,
            NodeStep::MatMul => StepView::MatMul,
            NodeStep::Transpose => StepView::Transpose,
            NodeStep::Reshape(s) => StepView::Reshape(
                match s {
                    Some(v) => Some(v@),
                    None => None,
                },
            ),
            NodeStep::Unknown => StepView::Unknown,
        }
    }
}

/// The step that node `n` runs.
pub open spec fn step_of(n: GraphNode) -> StepView {
    if op_is(n, "Linear"@) {
        StepView::Linear { weight: n.name@ + "_w"@, bias: n.name@ + "_b"@ }
    } else if op_is(n, "LayerNorm"@) {
        StepView::LayerNorm { gamma: n.name@ + "_gamma"@, beta: n.name@ + "_beta"@ }
    } else if op_is(n, "ReLU"@) {
        StepView::ReLU
    } else if op_is(n, "Gelu"@) {
        StepView::Gelu
    } else if op_is(n, "Sigmoid"@) {
        StepView::Sigmoid
    } else if op_is(n, "Softmax"@) {
        StepView::Softmax
    } else if op_is(n, "Tanh"@) {
        StepView::Tanh
    } else if op_is(n, "Add"@) {
        StepView::Add
    } else if op_is(n, "Sub"@) {
        StepView::Sub
    } else if op_is(n, "Mul"@) {
        StepView::Mul
    } else if op_is(n, "MatMul"@) {
        StepView::MatMul
    } else if op_is(n, "Transpose"@) {
        StepView::Transpose
    } else if op_is(n, "Reshape"@) {
        StepView::Reshape(
            match n.params {
                Some(p) => match p.shape {
                    Some(v) => Some(v@),
                    None => None,
                },
                None => None,
            },
        )
    } else {
        StepView::Unknown
    }
}

/// The step that node `n` runs.
pub fn node_step(n: &GraphNode) -> (r: NodeStep)
    ensures
        r@ == step_of(*n),
{
    if op_matches(n, "Linear") {
        NodeStep::Linear { weight: concat(n.name.as_str(), "_w"), bias: concat(n.name.as_str(), "_b") }
    } else if op_matches(n, "LayerNorm") {
        NodeStep::LayerNorm {
            gamma: concat(n.name.as_str(), "_gamma"),
            beta: concat(n.name.as_str(), "_beta"),
        }
    } else if op_matches(n, "ReLU") {
        NodeStep::ReLU
    } else if op_matches(n, "Gelu") {
        NodeStep::Gelu
    } else if op_matches(n, "Sigmoid") {
        NodeStep::Sigmoid
    } else if op_matches(n, "Softmax") {
        NodeStep::Softmax
    } else if op_matches(n, "Tanh") {
        NodeStep::Tanh
    } else if op_matches(n, "Add") {
        NodeStep::Add
    } else if op_matches(n, "Sub") {
        NodeStep::Sub
    } else if op_matches(n, "Mul") {
        NodeStep::Mul
    } else if op_matches(n, "MatMul") {
        NodeStep::MatMul
    } else if op_matches(n, "Transpose") {
        NodeStep::Transpose
    } else if op_matches(n, "Reshape") {
        let shape = match &n.params {
            Some(p) => match &p.shape {
                Some(v) => Some(v.clone()),
                None => None,
            },
            None => None,
        };
        NodeStep::Reshape(shape)
    } else {
        NodeStep::Unknown
    }
}

/// The parameters a node is given: a `Linear` node with `in_features` i and
/// `out_features` o (both non-zero) gets `<name>_w` of shape `[i, o]` drawn uniformly and
/// `<name>_b` of shape `[o]` at zero; a `LayerNorm` node with `normalized_shape` d (non-zero)
/// gets `<name>_gamma` of shape `[d]` at one and `<name>_beta` of shape `[d]` at zero, so a
/// fresh normalisation neither scales nor shifts; any other op gets none.
pub proof fn law_node_params(n: GraphNode, i: u64, o: u64, d: u64)
    ensures
        (op_is(n, "Linear"@) && n.params is Some && n.params->0.in_features == Some(i)
            && n.params->0.out_features == Some(o) && i > 0 && o > 0) ==> node_check(n) == Ok::<
            Seq<ParamView>,
            GraphErrorView,
        >(
            seq![
                ParamView { init: ParamInit::Uniform, name: n.name@ + "_w"@, shape: seq![i, o] },
                ParamView { init: ParamInit::Zeros, name: n.name@ + "_b"@, shape: seq![o] },
            ],
        ),
        (!op_is(n, "Linear"@) && op_is(n, "LayerNorm"@) && n.params is Some
            && n.params->0.normalized_shape == Some(d) && d > 0) ==> node_check(n) == Ok::<
            Seq<ParamView>,
            GraphErrorView,
        >(
            seq![
                ParamView { init: ParamInit::Ones, name: n.name@ + "_gamma"@, shape: seq![d] },
                ParamView { init: ParamInit::Zeros, name: n.name@ + "_beta"@, shape: seq![d] },
            ],
        ),
        (!op_is(n, "Linear"@) && !op_is(n, "LayerNorm"@)) ==> node_check(n) == Ok::<
            Seq<ParamView>,
            GraphErrorView,
        >(Seq::empty()),
{
}

/// The op text that names each step.
pub open spec fn step_name(s: StepView) -> Seq<char> {
    match s {
        StepView::Linear { .. } => "Linear"@,
        StepView::LayerNorm { .. } => "LayerNorm"@,
        StepView::ReLU => "ReLU"@,
        StepView::Gelu => "Gelu"@,
        StepView::Sigmoid => "Sigmoid"@,
        StepView::Softmax => "Softmax"@,
        StepView::Tanh => "Tanh"@,
        StepView::Add => "Add"@,
        StepView::Sub => "Sub"@,
        StepView::Mul => "Mul"@,
        StepView::MatMul => "MatMul"@,
        StepView::Transpose => "Transpose"@,
        StepView::Reshape(_) => "Reshape"@,
        StepView::Unknown => Seq::empty(),
    }
}

/// The op texts of the operations a graph can run.
pub open spec fn known_ops() -> Set<Seq<char>> {
    set![
        "Linear"@, "LayerNorm"@, "ReLU"@, "Gelu"@, "Sigmoid"@, "Softmax"@, "Tanh"@, "Add"@, "Sub"@,
        "Mul"@, "MatMul"@, "Transpose"@, "Reshape"@
    ]
}

/// A node runs the step its `op` names: whatever step it runs other than `Unknown` is named
/// by its op text, so different op texts run different steps; and every op a graph can run
/// gives a step other than `Unknown`. A reshape takes its node's `shape` parameter.
pub proof fn law_node_runs_its_op(n: GraphNode)
    ensures
        step_of(n) is Unknown || op_is(n, step_name(step_of(n))),
        (n.op matches Some(o) && known_ops().contains(o@)) ==> !(step_of(n) is Unknown),
        step_of(n) matches StepView::Reshape(shape) ==> shape == match n.params {
            Some(p) => match p.shape {
                Some(v) => Some(v@),
                None => None,
            },
            None => None,
        },
{
}

/// The parameters a node's step reads are the ones the plan made for it.
pub proof fn law_step_reads_planned_params(n: GraphNode)
    requires
        node_check(n) is Ok,
    ensures
        step_of(n) matches StepView::Linear { weight, bias } ==> {
            let ps = node_check(n)->Ok_0;
            ps.len() == 2 && ps[0].name == weight && ps[1].name == bias
        },
        step_of(n) matches StepView::LayerNorm { gamma, beta } ==> {
            let ps = node_check(n)->Ok_0;
            ps.len() == 2 && ps[0].name == gamma && ps[1].name == beta
        },
{
}

/// Once a node is refused, so is every longer run of nodes.
proof fn lemma_plan_stops(ns: Seq<GraphNode>, i: int)
    requires
        0 <= i < ns.len(),
        plan_nodes(ns.take(i + 1)) is Err,
    ensures
        plan_nodes(ns) == plan_nodes(ns.take(i + 1)),
    decreases ns.len() - i,
{
    if i + 1 == ns.len() {
        assert(ns.take(i + 1) =~= ns);
    } else {
        assert(ns.take(i + 2).drop_last() =~= ns.take(i + 1));
        lemma_plan_stops(ns, i + 1);
    }
}

/// The text a refusal is reported with.
pub open spec fn graph_error_text(e: GraphErrorView) -> Seq<char> {
    match e {
        GraphErrorView::MissingNodes => "Graph config must have a 'nodes' object"@,
        GraphErrorView::MissingParams { node, op } => "Node '"@ + node + "' of type '"@ + op
            + "' is missing 'params'"@,
        GraphErrorView::InvalidParam { node, op, field } => op + " node '"@ + node
            + "' is missing or has invalid '"@ + field + "'"@,
        GraphErrorView::ZeroSized { node, op } => if op == "Linear"@ {
            "Linear node '"@ + node + "' cannot have zero-sized dimensions."@
        } else {
            op + " node '"@ + node + "' cannot have a zero-sized shape."@
        },
        GraphErrorView::UnknownInput { input, node } => "Input node '"@ + input + "' for node '"@ + node
            + "' not found in graph"@,
        GraphErrorView::Cycle => "Graph contains a cycle"@,
    }
}

fn concat3(a: &str, b: &str, c: &str) -> (r: String)
    ensures
        r@ == a@ + b@ + c@,
{
    let x = concat(a, b);
    concat(x.as_str(), c)
}

fn concat5(a: &str, b: &str, c: &str, d: &str, e: &str) -> (r: String)
    ensures
        r@ == a@ + b@ + c@ + d@ + e@,
{
    let x = concat3(a, b, c);
    concat3(x.as_str(), d, e)
}

impl GraphError {
    /// The text this refusal is reported with.
    pub fn message(&self) -> (s: String)
        ensures
            s@ == graph_error_text(self@),
    {
        match self {
            GraphError::MissingNodes => "Graph config must have a 'nodes' object".to_string(),
            GraphError::MissingParams { node, op } => concat5(
                "Node '",
                node.as_str(),
                "' of type '",
                op.as_str(),
                "' is missing 'params'",
            ),
            GraphError::InvalidParam { node, op, field } => {
                let a = concat5(op.as_str(), " node '", node.as_str(), "' is missing or has invalid '", field.as_str());
                concat(a.as_str(), "'")
            },
            GraphError::ZeroSized { node, op } => {
                if str_eq(op.as_str(), "Linear") {
                    concat3("Linear node '", node.as_str(), "' cannot have zero-sized dimensions.")
                } else {
                    let a = concat3(op.as_str(), " node '", node.as_str());
                    concat(a.as_str(), "' cannot have a zero-sized shape.")
                }
            },
            GraphError::UnknownInput { input, node } => concat5(
                "Input node '",
                input.as_str(),
                "' for node '",
                node.as_str(),
                "' not found in graph",
            ),
            GraphError::Cycle => "Graph contains a cycle".to_string(),
        }
    }
}

} // verus!
