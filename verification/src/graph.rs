//! The graph model: a directed acyclic graph of operator nodes with
//! dense, topologically ordered identifiers, optional nested
//! subgraphs, per-node output scales and shapes, a deterministic
//! forward pass, and the parameter block that sizes the constraint
//! system.

use vstd::arithmetic::power2::pow2;
use vstd::prelude::*;

use crate::lookup::LookupOp;
use crate::ops::{
    datas_of, f_ok_d, out_scale_ok, shapes_of, spec_f_data, spec_out_scale, spec_out_shape,
    spec_required_lookups, OpKind, Rescaled, Tolerance,
};
use crate::tensor::{shape_volume, Tensor};

verus! {

/// Errors raised while building or evaluating a graph.
#[derive(Clone, Copy, Debug, PartialEq, Eq, Structural)]
pub enum GraphError {
    /// An edge references a node that is not in the graph yet.
    MissingNode(usize),
    /// The graph contains an operator the catalogue does not
    /// recognise.
    UnsupportedOp,
    /// The external model stream could not be parsed.
    ModelLoad,
    /// An operation was invoked on a node variant that does not
    /// support it.
    WrongMethod,
}

/// Mode the model is used in.
#[derive(Clone, Copy, Debug, PartialEq, Eq, Structural)]
pub enum Mode {
    /// Initialise the model and display the operations table.
    Table,
    /// Initialise the model and generate a mock proof.
    Mock,
    /// Initialise the model and generate a proof.
    Prove,
    /// Initialise the model, generate a proof, and verify it.
    FullProve,
    /// Initialise the model and verify an existing proof.
    Verify,
}

/// Whether a circuit column is publicly visible.
#[derive(Clone, Copy, Debug, PartialEq, Eq, Structural)]
pub enum Visibility {
    /// Supplied through the public instance.
    Public,
    /// Known only to the prover.
    Private,
}

impl Visibility {
    /// Whether the column is public.
    pub fn is_public(&self) -> (r: bool)
        ensures
            r == (*self is Public),
    {
        matches!(self, Visibility::Public)
    }
}

/// Visibility of the three variable families of a model.
#[derive(Clone, Copy, Debug, PartialEq, Eq, Structural)]
pub struct VarVisibility {
    /// Visibility of the model inputs.
    pub input: Visibility,
    /// Visibility of the model parameters.
    pub params: Visibility,
    /// Visibility of the model outputs.
    pub output: Visibility,
}

/// Whether layout checks run after each operation.
#[derive(Clone, Copy, Debug, PartialEq, Eq, Structural)]
pub enum CheckMode {
    /// Check after each operation.
    Safe,
    /// No intermediate checks.
    Unsafe,
}

/// The run configuration: fixed-point precision, lookup window,
/// circuit size, packing, tolerance and visibility.
#[derive(Clone, Copy, Debug, PartialEq, Eq, Structural)]
pub struct RunArgs {
    /// Global fixed-point precision exponent.
    pub scale: u32,
    /// Lookup window bit width.
    pub bits: usize,
    /// Log2 of the total constraint rows the backend allocates.
    pub logrows: u32,
    /// Concrete value bound to the batch-size symbol.
    pub batch_size: usize,
    /// If above one, outputs are packed in this base.
    pub pack_base: u32,
    /// Range-check slack on public outputs.
    pub tolerance: Tolerance,
    /// Whether the inputs are public.
    pub public_inputs: bool,
    /// Whether the outputs are public.
    pub public_outputs: bool,
    /// Whether the parameters are public.
    pub public_params: bool,
    /// Optional constraint budget; computed by the sizing pass when
    /// absent.
    pub allocated_constraints: Option<usize>,
}

/// A single operation in a model: its kind, output scale, input
/// edges, output dimensions and identifier.
#[derive(Debug)]
pub struct Node {
    /// What operation this node represents.
    pub opkind: OpKind,
    /// The fixed-point scale of the node's output.
    pub out_scale: u32,
    /// The identifiers of the node's inputs.
    pub inputs: Vec<usize>,
    /// Dimensions of the output.
    pub out_dims: Vec<usize>,
    /// The node's unique identifier.
    pub idx: usize,
}

/// A node of the execution graph: a single operation or a nested
/// subgraph.
#[derive(Debug)]
pub enum NodeType {
    /// A single operation.
    Node(Node),
    /// A nested model.
    SubGraph {
        /// The nested model.
        model: Box<Model>,
        /// The subgraph's input edges in the enclosing graph.
        inputs: Vec<usize>,
        /// The subgraph's identifier within the enclosing graph.
        idx: usize,
    },
}

/// A parsed computational graph: densely indexed, topologically
/// ordered nodes with designated inputs and outputs.
#[derive(Debug)]
pub struct ParsedNodes {
    /// The nodes, indexed by identifier.
    pub nodes: Vec<NodeType>,
    /// Identifiers of the input nodes, in input order.
    pub inputs: Vec<usize>,
    /// Identifiers of the output nodes, in output order.
    pub outputs: Vec<usize>,
}

/// A model: a parsed graph together with its run configuration.
#[derive(Debug)]
pub struct Model {
    /// The parsed graph.
    pub graph: ParsedNodes,
    /// The run configuration.
    pub run_args: RunArgs,
    /// The mode the model is used in.
    pub mode: Mode,
    /// Which variable families are public.
    pub visibility: VarVisibility,
}

/// The identifier carried by a graph node.
pub open spec fn node_idx_of(nt: NodeType) -> usize {
    match nt {
        NodeType::Node(n) => n.idx,
        NodeType::SubGraph { idx, .. } => idx,
    }
}

/// The input edges of a graph node.
pub open spec fn node_inputs_of(nt: NodeType) -> Seq<usize> {
    match nt {
        NodeType::Node(n) => n.inputs@,
        NodeType::SubGraph { inputs, .. } => inputs@,
    }
}

/// Well-formedness of a graph: identifiers are dense and
/// topologically ordered, every edge resolves to an earlier node,
/// every designated input is an input node, every designated output
/// resolves, and nested models are well-formed in turn.
pub open spec fn graph_wf(g: ParsedNodes) -> bool
    decreases g,
{
    &&& forall|i: int|
        0 <= i < g.nodes@.len() ==> node_idx_of(#[trigger] g.nodes@[i]) == i
    &&& forall|i: int, j: int|
        0 <= i < g.nodes@.len() && 0 <= j < node_inputs_of(g.nodes@[i]).len() ==> (
        #[trigger] node_inputs_of(g.nodes@[i])[j]) < i
    &&& forall|k: int|
        0 <= k < g.inputs@.len() ==> (#[trigger] g.inputs@[k]) < g.nodes@.len() && (
        g.nodes@[g.inputs@[k] as int] matches NodeType::Node(n) && n.opkind is Input)
    &&& forall|k: int| 0 <= k < g.outputs@.len() ==> (#[trigger] g.outputs@[k]) < g.nodes@.len()
    &&& g.outputs@.len() >= 1
    &&& forall|i: int|
        0 <= i < g.nodes@.len() ==> ((#[trigger] g.nodes@[i]) matches NodeType::SubGraph {
            model,
            inputs,
            ..
        } ==> graph_wf(model.graph) && model.graph.inputs@.len() == inputs@.len())
}

impl NodeType {
    /// The identifiers of the node's inputs.
    pub fn inputs(&self) -> (r: Vec<usize>)
        ensures
            r@ == node_inputs_of(*self),
    {
        match self {
            NodeType::Node(n) => clone_usize_vec(&n.inputs),
            NodeType::SubGraph { inputs, .. } => clone_usize_vec(inputs),
        }
    }

    /// The node's unique identifier.
    pub fn idx(&self) -> (r: usize)
        ensures
            r == node_idx_of(*self),
    {
        match self {
            NodeType::Node(n) => n.idx,
            NodeType::SubGraph { idx, .. } => *idx,
        }
    }

    /// Runs a forward pass for this node alone on sample inputs: a
    /// plain node evaluates its operator, a nested subgraph runs its
    /// model and flattens the last output.
    pub fn f(&self, inputs: &Vec<Tensor<i128>>) -> (r: Result<Tensor<i128>, GraphError>)
        requires
            forall|k: int| 0 <= k < inputs@.len() ==> (#[trigger] inputs@[k]).wf(),
            *self matches NodeType::Node(n) ==> crate::ops::f_ok(n.opkind, inputs@) && !crate::ops::is_unevaluable(n.opkind),
            *self matches NodeType::SubGraph { model, .. } ==> forward_ok(
                model.graph,
                mi_of(inputs@),
            ),
        ensures
            match r {
                Ok(t) => {
                    &&& t.wf()
                    &&& (*self matches NodeType::Node(n) ==> t.data() == spec_f_data(
                        n.opkind,
                        datas_of(inputs@),
                        shapes_of(inputs@),
                    ) && t.shape() == spec_out_shape(n.opkind, shapes_of(inputs@)))
                    &&& (*self matches NodeType::SubGraph { model, .. } ==> {
                        let v = spec_value(
                            model.graph,
                            mi_of(inputs@),
                            model.graph.outputs@.last() as int,
                        );
                        t.data() == v.0 && t.shape() == seq![v.0.len() as usize]
                    })
                },
                Err(_) => false,
            },
        decreases *self,
    {
        match self {
            NodeType::Node(n) => match n.opkind.f(inputs) {
                Ok(t) => Ok(t),
                Err(_) => {
                    proof {
                        assert(false);
                    }
                    Err(GraphError::WrongMethod)
                },
            },
            NodeType::SubGraph { model, .. } => {
                let fr = match model.forward(inputs) {
                    Ok(fr) => fr,
                    Err(_) => {
                        proof {
                            assert(false);
                        }
                        return Err(GraphError::WrongMethod);
                    },
                };
                let last = fr.outputs.len() - 1;
                proof {
                    assert(model.graph.outputs@.last() == model.graph.outputs@[last as int]);
                }
                let mut res = fr.outputs[last].clone();
                res.flatten();
                Ok(res)
            },
        }
    }

    /// A display name for the node's operation.
    pub fn as_str(&self) -> (r: &'static str) {
        match self {
            NodeType::Node(n) => n.opkind.as_str(),
            NodeType::SubGraph { .. } => "SUBGRAPH",
        }
    }

    /// Whether the node is a model input.
    pub fn is_input(&self) -> (r: bool)
        ensures
            r == (*self matches NodeType::Node(n) && n.opkind is Input),
    {
        match self {
            NodeType::Node(n) => n.opkind.is_input(),
            NodeType::SubGraph { .. } => false,
        }
    }
}

/// Copies a vector of identifiers.
fn clone_usize_vec(v: &Vec<usize>) -> (r: Vec<usize>)
    ensures
        r@ == v@,
{
    let mut out: Vec<usize> = Vec::new();
    let mut i: usize = 0;
    while i < v.len()
        invariant
            i <= v@.len(),
            out@ == v@.subrange(0, i as int),
        decreases v@.len() - i,
    {
        out.push(v[i]);
        proof {
            assert(out@ =~= v@.subrange(0, i + 1));
        }
        i = i + 1;
    }
    proof {
        assert(out@ =~= v@);
    }
    out
}

impl ParsedNodes {
    /// Returns the number of the computational graph's inputs.
    pub fn num_inputs(&self) -> (r: usize)
        ensures
            r == self.inputs@.len(),
    {
        self.inputs.len()
    }

    /// Returns the number of the computational graph's outputs.
    pub fn num_outputs(&self) -> (r: usize)
        ensures
            r == self.outputs@.len(),
    {
        self.outputs.len()
    }
}


/// The output shapes a graph node contributes: one for a plain node,
/// the nested model's output shapes for a subgraph.
pub open spec fn spec_node_out_dims(nt: NodeType) -> Seq<Seq<usize>>
    decreases nt, 1int, 0int,
{
    match nt {
        NodeType::Node(n) => seq![n.out_dims@],
        NodeType::SubGraph { model, .. } => spec_shapes_list(model.graph, model.graph.outputs@),
    }
}

/// The concatenated output shapes of the listed nodes.
pub open spec fn spec_shapes_list(g: ParsedNodes, ids: Seq<usize>) -> Seq<Seq<usize>>
    decreases g, 0int, ids.len(),
{
    if ids.len() == 0 {
        Seq::empty()
    } else if ids.last() < g.nodes@.len() {
        spec_shapes_list(g, ids.drop_last()) + spec_node_out_dims(g.nodes@[ids.last() as int])
    } else {
        Seq::empty()
    }
}

/// The output scales a graph node contributes.
pub open spec fn spec_node_out_scales(nt: NodeType) -> Seq<u32>
    decreases nt, 1int, 0int,
{
    match nt {
        NodeType::Node(n) => seq![n.out_scale],
        NodeType::SubGraph { model, .. } => spec_scales_list(model.graph, model.graph.outputs@),
    }
}

/// The concatenated output scales of the listed nodes.
pub open spec fn spec_scales_list(g: ParsedNodes, ids: Seq<usize>) -> Seq<u32>
    decreases g, 0int, ids.len(),
{
    if ids.len() == 0 {
        Seq::empty()
    } else if ids.last() < g.nodes@.len() {
        spec_scales_list(g, ids.drop_last()) + spec_node_out_scales(g.nodes@[ids.last() as int])
    } else {
        Seq::empty()
    }
}

/// The lookup operators a graph node requires.
pub open spec fn spec_node_lookups(nt: NodeType) -> Seq<LookupOp>
    decreases nt, 1int, 0int,
{
    match nt {
        NodeType::Node(n) => spec_required_lookups(n.opkind),
        NodeType::SubGraph { model, .. } => spec_graph_lookups(
            model.graph,
            model.graph.nodes@.len() as int,
        ),
    }
}

/// The lookup operators required by the first `n` nodes of a graph.
pub open spec fn spec_graph_lookups(g: ParsedNodes, n: int) -> Seq<LookupOp>
    decreases g, 0int, n,
{
    if n <= 0 || n > g.nodes@.len() {
        Seq::empty()
    } else {
        spec_graph_lookups(g, n - 1) + spec_node_lookups(g.nodes@[n - 1])
    }
}

impl NodeType {
    /// The dimensions of the node's outputs.
    pub fn out_dims(&self) -> (r: Vec<Vec<usize>>)
        requires
            *self matches NodeType::SubGraph { model, .. } ==> graph_wf(model.graph),
        ensures
            r@.map_values(|v: Vec<usize>| v@) == spec_node_out_dims(*self),
        decreases *self,
    {
        match self {
            NodeType::Node(n) => {
                let mut out: Vec<Vec<usize>> = Vec::new();
                out.push(clone_usize_vec(&n.out_dims));
                proof {
                    assert(out@.map_values(|v: Vec<usize>| v@) =~= spec_node_out_dims(*self));
                }
                out
            },
            NodeType::SubGraph { model, .. } => model.graph.output_shapes(),
        }
    }

    /// The fixed-point scales of the node's outputs.
    pub fn out_scales(&self) -> (r: Vec<u32>)
        requires
            *self matches NodeType::SubGraph { model, .. } ==> graph_wf(model.graph),
        ensures
            r@ == spec_node_out_scales(*self),
        decreases *self,
    {
        match self {
            NodeType::Node(n) => {
                let mut out: Vec<u32> = Vec::new();
                out.push(n.out_scale);
                proof {
                    assert(out@ =~= spec_node_out_scales(*self));
                }
                out
            },
            NodeType::SubGraph { model, .. } => model.graph.get_output_scales(),
        }
    }

    /// The lookup tables required by the node.
    pub fn required_lookups(&self) -> (r: Vec<LookupOp>)
        requires
            *self matches NodeType::SubGraph { model, .. } ==> graph_wf(model.graph),
        ensures
            r@ == spec_node_lookups(*self),
        decreases *self,
    {
        match self {
            NodeType::Node(n) => n.opkind.required_lookups(),
            NodeType::SubGraph { model, .. } => model.required_lookups(),
        }
    }
}

impl ParsedNodes {
    /// Returns the shapes of the computational graph's inputs.
    pub fn input_shapes(&self) -> (r: Vec<Vec<usize>>)
        requires
            graph_wf(*self),
        ensures
            r@.map_values(|v: Vec<usize>| v@) == spec_shapes_list(*self, self.inputs@),
        decreases *self, 2int, 0int,
    {
        self.shapes_list(&self.inputs)
    }

    /// Returns the shapes of the computational graph's outputs.
    pub fn output_shapes(&self) -> (r: Vec<Vec<usize>>)
        requires
            graph_wf(*self),
        ensures
            r@.map_values(|v: Vec<usize>| v@) == spec_shapes_list(*self, self.outputs@),
        decreases *self, 2int, 0int,
    {
        self.shapes_list(&self.outputs)
    }

    /// The concatenated output shapes of the listed nodes.
    fn shapes_list(&self, ids: &Vec<usize>) -> (r: Vec<Vec<usize>>)
        requires
            graph_wf(*self),
            forall|k: int| 0 <= k < ids@.len() ==> (#[trigger] ids@[k]) < self.nodes@.len(),
        ensures
            r@.map_values(|v: Vec<usize>| v@) == spec_shapes_list(*self, ids@),
        decreases *self, 1int, 0int,
    {
        let mut out: Vec<Vec<usize>> = Vec::new();
        let mut k: usize = 0;
        proof {
            assert(ids@.subrange(0, 0) =~= Seq::<usize>::empty());
            assert(out@.map_values(|v: Vec<usize>| v@) =~= spec_shapes_list(
                *self,
                ids@.subrange(0, 0),
            ));
        }
        while k < ids.len()
            invariant
                graph_wf(*self),
                k <= ids@.len(),
                forall|j: int| 0 <= j < ids@.len() ==> (#[trigger] ids@[j]) < self.nodes@.len(),
                out@.map_values(|v: Vec<usize>| v@) == spec_shapes_list(
                    *self,
                    ids@.subrange(0, k as int),
                ),
            decreases ids@.len() - k,
        {
            let node = &self.nodes[ids[k]];
            let dims = node.out_dims();
            let mut j: usize = 0;
            let ghost pre = out@.map_values(|v: Vec<usize>| v@);
            while j < dims.len()
                invariant
                    j <= dims@.len(),
                    dims@.map_values(|v: Vec<usize>| v@) == spec_node_out_dims(*node),
                    out@.map_values(|v: Vec<usize>| v@) == pre + dims@.map_values(
                        |v: Vec<usize>| v@,
                    ).subrange(0, j as int),
                decreases dims@.len() - j,
            {
                let ghost before = out@.map_values(|v: Vec<usize>| v@);
                out.push(clone_usize_vec(&dims[j]));
                proof {
                    assert(out@.map_values(|v: Vec<usize>| v@) =~= before.push(dims@[j as int]@));
                    assert(before.push(dims@[j as int]@) =~= pre + dims@.map_values(
                        |v: Vec<usize>| v@,
                    ).subrange(0, j + 1));
                }
                j = j + 1;
            }
            proof {
                assert(dims@.map_values(|v: Vec<usize>| v@).subrange(
                    0,
                    dims@.len() as int,
                ) =~= spec_node_out_dims(*node));
                assert(ids@.subrange(0, k + 1).drop_last() =~= ids@.subrange(0, k as int));
                assert(ids@.subrange(0, k + 1).last() == ids@[k as int]);
            }
            k = k + 1;
        }
        proof {
            assert(ids@.subrange(0, ids@.len() as int) =~= ids@);
        }
        out
    }

    /// Returns the fixed-point scales of the computational graph's
    /// outputs.
    pub fn get_output_scales(&self) -> (r: Vec<u32>)
        requires
            graph_wf(*self),
        ensures
            r@ == spec_scales_list(*self, self.outputs@),
        decreases *self, 2int, 0int,
    {
        let mut out: Vec<u32> = Vec::new();
        let mut k: usize = 0;
        proof {
            assert(self.outputs@.subrange(0, 0) =~= Seq::<usize>::empty());
            assert(out@ =~= spec_scales_list(*self, self.outputs@.subrange(0, 0)));
        }
        while k < self.outputs.len()
            invariant
                graph_wf(*self),
                k <= self.outputs@.len(),
                out@ == spec_scales_list(*self, self.outputs@.subrange(0, k as int)),
            decreases self.outputs@.len() - k,
        {
            let node = &self.nodes[self.outputs[k]];
            let scales = node.out_scales();
            let mut j: usize = 0;
            let ghost pre = out@;
            while j < scales.len()
                invariant
                    j <= scales@.len(),
                    scales@ == spec_node_out_scales(*node),
                    out@ == pre + scales@.subrange(0, j as int),
                decreases scales@.len() - j,
            {
                out.push(scales[j]);
                proof {
                    assert(out@ =~= pre + scales@.subrange(0, j + 1));
                }
                j = j + 1;
            }
            proof {
                assert(scales@.subrange(0, scales@.len() as int) =~= scales@);
                assert(self.outputs@.subrange(0, k + 1).drop_last() =~= self.outputs@.subrange(
                    0,
                    k as int,
                ));
            }
            k = k + 1;
        }
        proof {
            assert(self.outputs@.subrange(0, self.outputs@.len() as int) =~= self.outputs@);
        }
        out
    }
}

impl Model {
    /// The lookup tables required across the whole graph.
    pub fn required_lookups(&self) -> (r: Vec<LookupOp>)
        requires
            graph_wf(self.graph),
        ensures
            r@ == spec_graph_lookups(self.graph, self.graph.nodes@.len() as int),
        decreases *self, 2int, 0int,
    {
        let mut out: Vec<LookupOp> = Vec::new();
        let mut i: usize = 0;
        proof {
            assert(out@ =~= spec_graph_lookups(self.graph, 0));
        }
        while i < self.graph.nodes.len()
            invariant
                graph_wf(self.graph),
                i <= self.graph.nodes@.len(),
                out@ == spec_graph_lookups(self.graph, i as int),
            decreases self.graph.nodes@.len() - i,
        {
            let node = &self.graph.nodes[i];
            let lks = node.required_lookups();
            let mut j: usize = 0;
            let ghost pre = out@;
            while j < lks.len()
                invariant
                    j <= lks@.len(),
                    lks@ == spec_node_lookups(*node),
                    out@ == pre + lks@.subrange(0, j as int),
                decreases lks@.len() - j,
            {
                out.push(lks[j]);
                proof {
                    assert(out@ =~= pre + lks@.subrange(0, j + 1));
                }
                j = j + 1;
            }
            proof {
                assert(lks@.subrange(0, lks@.len() as int) =~= lks@);
            }
            i = i + 1;
        }
        out
    }
}


/// How many of the listed identifiers are below `i`.
pub open spec fn count_lt(ids: Seq<usize>, i: int) -> int
    decreases ids.len(),
{
    if ids.len() == 0 {
        0
    } else {
        count_lt(ids.drop_last(), i) + if ids.last() < i {
            1int
        } else {
            0int
        }
    }
}

/// The designated inputs are exactly the input nodes, listed in
/// strictly increasing identifier order.
pub open spec fn inputs_exact(g: ParsedNodes) -> bool {
    &&& forall|k1: int, k2: int|
        0 <= k1 < k2 < g.inputs@.len() ==> g.inputs@[k1] < g.inputs@[k2]
    &&& forall|i: int|
        #![trigger g.nodes@[i]]
        0 <= i < g.nodes@.len() ==> ((g.nodes@[i] matches NodeType::Node(n) && n.opkind is Input)
            <==> g.inputs@.contains(i as usize))
}

/// The first components of a sequence of value pairs: the buffers.
pub open spec fn arg_datas(args: Seq<(Seq<i128>, Seq<usize>)>) -> Seq<Seq<i128>> {
    args.map_values(|a: (Seq<i128>, Seq<usize>)| a.0)
}

/// The second components of a sequence of value pairs: the shapes.
pub open spec fn arg_shapes(args: Seq<(Seq<i128>, Seq<usize>)>) -> Seq<Seq<usize>> {
    args.map_values(|a: (Seq<i128>, Seq<usize>)| a.1)
}

/// The value a node of the graph evaluates to in the forward pass,
/// as a buffer/shape pair, given the model inputs as such pairs.
pub open spec fn spec_value(
    g: ParsedNodes,
    mi: Seq<(Seq<i128>, Seq<usize>)>,
    i: int,
) -> (Seq<i128>, Seq<usize>)
    decreases g, i, 1int, 0int,
{
    if 0 <= i < g.nodes@.len() {
        match g.nodes@[i] {
            NodeType::Node(n) => {
                if n.opkind is Input {
                    (mi[count_lt(g.inputs@, i)].0, n.out_dims@)
                } else {
                    let args = spec_arg_values(g, mi, n.inputs@, i);
                    (
                        spec_f_data(n.opkind, arg_datas(args), arg_shapes(args)),
                        spec_out_shape(n.opkind, arg_shapes(args)),
                    )
                }
            },
            NodeType::SubGraph { model, inputs, .. } => {
                let args = spec_arg_values(g, mi, inputs@, i);
                let v = spec_value(model.graph, args, model.graph.outputs@.last() as int);
                (v.0, seq![v.0.len() as usize])
            },
        }
    } else {
        (Seq::empty(), Seq::empty())
    }
}

/// The values of the listed earlier nodes, in order.
pub open spec fn spec_arg_values(
    g: ParsedNodes,
    mi: Seq<(Seq<i128>, Seq<usize>)>,
    ids: Seq<usize>,
    bound: int,
) -> Seq<(Seq<i128>, Seq<usize>)>
    decreases g, bound, 0int, ids.len(),
{
    if ids.len() == 0 {
        Seq::empty()
    } else if forall|k: int| 0 <= k < ids.len() ==> ids[k] < bound {
        spec_arg_values(g, mi, ids.drop_last(), bound).push(spec_value(g, mi, ids.last() as int))
    } else {
        Seq::empty()
    }
}

/// The largest magnitude in a buffer.
pub open spec fn max_abs_data(d: Seq<i128>) -> int
    decreases d.len(),
{
    if d.len() == 0 {
        0
    } else {
        let rest = max_abs_data(d.drop_last());
        let a = crate::tensor::abs1(d.last() as int);
        if a > rest {
            a
        } else {
            rest
        }
    }
}

/// The largest magnitude across a sequence of buffers.
pub open spec fn max_abs_datas(ds: Seq<Seq<i128>>) -> int
    decreases ds.len(),
{
    if ds.len() == 0 {
        0
    } else {
        let rest = max_abs_datas(ds.drop_last());
        let a = max_abs_data(ds.last());
        if a > rest {
            a
        } else {
            rest
        }
    }
}

/// What a node contributes to the largest lookup input observed: the
/// largest magnitude among its argument buffers, if it requires any
/// lookup table.
pub open spec fn spec_node_lookup_contrib(
    g: ParsedNodes,
    mi: Seq<(Seq<i128>, Seq<usize>)>,
    i: int,
) -> int
    decreases g, i, 2int, 0int,
{
    if 0 <= i < g.nodes@.len() && spec_node_lookups(g.nodes@[i]).len() > 0 {
        max_abs_datas(arg_datas(spec_arg_values(g, mi, node_inputs_of(g.nodes@[i]), i)))
    } else {
        0
    }
}

/// The largest lookup-input magnitude among the first `n` nodes.
pub open spec fn spec_max_lookup(
    g: ParsedNodes,
    mi: Seq<(Seq<i128>, Seq<usize>)>,
    n: int,
) -> int
    decreases g, n, 3int, 0int,
{
    if n <= 0 {
        0
    } else {
        let rest = spec_max_lookup(g, mi, n - 1);
        let c = spec_node_lookup_contrib(g, mi, n - 1);
        if c > rest {
            c
        } else {
            rest
        }
    }
}

/// One node admits forward evaluation over the given model inputs.
pub open spec fn node_eval_ok(g: ParsedNodes, mi: Seq<(Seq<i128>, Seq<usize>)>, i: int) -> bool
    decreases g, i, 3int, 0int,
{
    0 <= i < g.nodes@.len() && match g.nodes@[i] {
        NodeType::Node(n) => {
            &&& if n.opkind is Input {
                let p = count_lt(g.inputs@, i);
                &&& 0 <= p < mi.len()
                &&& mi[p].0.len() == shape_volume(n.out_dims@)
                &&& mi[p].0.len() == shape_volume(mi[p].1)
            } else {
                let args = spec_arg_values(g, mi, n.inputs@, i);
                &&& !crate::ops::is_unevaluable(n.opkind)
                &&& f_ok_d(n.opkind, arg_datas(args), arg_shapes(args))
            }
            &&& (spec_node_lookups(g.nodes@[i]).len() > 0 ==> lookup_args_ok(
                spec_arg_values(g, mi, node_inputs_of(g.nodes@[i]), i),
            ))
        },
        NodeType::SubGraph { model, inputs, .. } => {
            &&& forward_ok(model.graph, spec_arg_values(g, mi, inputs@, i))
            &&& (spec_node_lookups(g.nodes@[i]).len() > 0 ==> lookup_args_ok(
                spec_arg_values(g, mi, inputs@, i),
            ))
        },
    }
}

/// The arguments of a lookup-bearing node support the magnitude
/// scan: every buffer is non-empty and no element sits at the very
/// bottom of the machine range.
pub open spec fn lookup_args_ok(args: Seq<(Seq<i128>, Seq<usize>)>) -> bool {
    forall|j: int|
        #![trigger args[j]]
        0 <= j < args.len() ==> args[j].0.len() >= 1 && forall|e: int|
            0 <= e < args[j].0.len() ==> args[j].0[e] > i128::MIN
}

/// The first `n` nodes admit forward evaluation.
pub open spec fn nodes_eval_ok(g: ParsedNodes, mi: Seq<(Seq<i128>, Seq<usize>)>, n: int) -> bool
    decreases g, n, 4int, 0int,
{
    if n <= 0 {
        true
    } else {
        nodes_eval_ok(g, mi, n - 1) && node_eval_ok(g, mi, n - 1)
    }
}

/// The whole graph admits forward evaluation over the given model
/// inputs.
pub open spec fn forward_ok(g: ParsedNodes, mi: Seq<(Seq<i128>, Seq<usize>)>) -> bool
    decreases g, g.nodes@.len() as int, 5int, 0int,
{
    &&& graph_wf(g)
    &&& inputs_exact(g)
    &&& mi.len() == g.inputs@.len()
    &&& nodes_eval_ok(g, mi, g.nodes@.len() as int)
}

/// Every node below `n` admits forward evaluation when the first `n`
/// do.
pub proof fn lemma_nodes_eval_ok_index(
    g: ParsedNodes,
    mi: Seq<(Seq<i128>, Seq<usize>)>,
    n: int,
    i: int,
)
    requires
        nodes_eval_ok(g, mi, n),
        0 <= i < n,
    ensures
        node_eval_ok(g, mi, i),
    decreases n,
{
    if i < n - 1 {
        lemma_nodes_eval_ok_index(g, mi, n - 1, i);
    }
}

/// What the forward pass produces: the output tensors and the
/// largest lookup-input magnitude observed on the way.
#[derive(Debug)]
pub struct ForwardResult {
    /// The output tensors, one per designated graph output.
    pub outputs: Vec<Tensor<i128>>,
    /// The largest magnitude fed to any lookup-bearing node.
    pub max_lookup_inputs: i128,
}


/// The model inputs as buffer/shape pairs.
pub open spec fn mi_of(ts: Seq<Tensor<i128>>) -> Seq<(Seq<i128>, Seq<usize>)> {
    ts.map_values(|t: Tensor<i128>| (t.data(), t.shape()))
}

/// Counting below a strictly larger bound adds one exactly when the
/// bound itself is listed, provided the identifiers are strictly
/// increasing.
proof fn lemma_count_lt_step(ids: Seq<usize>, i: int)
    requires
        forall|k1: int, k2: int| 0 <= k1 < k2 < ids.len() ==> ids[k1] < ids[k2],
        0 <= i <= usize::MAX,
    ensures
        count_lt(ids, i + 1) == count_lt(ids, i) + if ids.contains(i as usize) {
            1int
        } else {
            0int
        },
    decreases ids.len(),
{
    if ids.len() > 0 {
        let front = ids.drop_last();
        lemma_count_lt_step(front, i);
        if ids.last() == i {
            assert(ids.contains(i as usize)) by {
                assert(ids[ids.len() - 1] == i as usize);
            }
            assert(!front.contains(i as usize)) by {
                if front.contains(i as usize) {
                    let k = choose|k: int| 0 <= k < front.len() && front[k] == i as usize;
                    assert(ids[k] == i as usize);
                    assert(ids[k] < ids.last());
                }
            }
        } else {
            if ids.contains(i as usize) {
                let k = choose|k: int| 0 <= k < ids.len() && ids[k] == i as usize;
                assert(k < ids.len() - 1);
                assert(front[k] == i as usize);
                assert(front.contains(i as usize));
            }
            if front.contains(i as usize) {
                let k = choose|k: int| 0 <= k < front.len() && front[k] == i as usize;
                assert(ids[k] == i as usize);
                assert(ids.contains(i as usize));
            }
        }
    }
}

/// The listed argument values are the values of the listed nodes, in
/// order.
proof fn lemma_arg_values_index(
    g: ParsedNodes,
    mi: Seq<(Seq<i128>, Seq<usize>)>,
    ids: Seq<usize>,
    bound: int,
)
    requires
        forall|k: int| 0 <= k < ids.len() ==> ids[k] < bound,
    ensures
        spec_arg_values(g, mi, ids, bound).len() == ids.len(),
        forall|j: int|
            0 <= j < ids.len() ==> #[trigger] spec_arg_values(g, mi, ids, bound)[j] == spec_value(
                g,
                mi,
                ids[j] as int,
            ),
    decreases ids.len(),
{
    if ids.len() > 0 {
        lemma_arg_values_index(g, mi, ids.drop_last(), bound);
    }
}

/// Scans a tensor for its largest magnitude, folded into a running
/// maximum.
fn max_abs_tensor(t: &Tensor<i128>, cur: i128) -> (r: i128)
    requires
        t.wf(),
        cur >= 0,
        forall|e: int| 0 <= e < t.data().len() ==> #[trigger] t.data()[e] > i128::MIN,
    ensures
        r == if max_abs_data(t.data()) > cur {
            max_abs_data(t.data())
        } else {
            cur as int
        },
        r >= 0,
{
    let len = t.len();
    let mut m = cur;
    let mut e: usize = 0;
    proof {
        assert(t.data().subrange(0, 0) =~= Seq::<i128>::empty());
    }
    while e < len
        invariant
            e <= len,
            len == t.data().len(),
            forall|j: int| 0 <= j < t.data().len() ==> #[trigger] t.data()[j] > i128::MIN,
            m >= 0,
            m == if max_abs_data(t.data().subrange(0, e as int)) > cur {
                max_abs_data(t.data().subrange(0, e as int))
            } else {
                cur as int
            },
        decreases len - e,
    {
        let x = t.get_flat(e);
        let a: i128 = if x < 0 {
            -x
        } else {
            x
        };
        if a > m {
            m = a;
        }
        proof {
            let pre = t.data().subrange(0, e as int);
            let post = t.data().subrange(0, e + 1);
            assert(post.drop_last() =~= pre);
            assert(post.last() == t.data()[e as int]);
        }
        e = e + 1;
    }
    proof {
        assert(t.data().subrange(0, len as int) =~= t.data());
    }
    m
}

impl Model {
    /// Runs a forward pass over the graph on the given input tensors:
    /// every node is evaluated in topological order, nested subgraphs
    /// recursively, and the largest magnitude fed to any
    /// lookup-bearing node is tracked for the bit-budget check.
    #[verifier::rlimit(80)]
    pub fn forward(&self, model_inputs: &Vec<Tensor<i128>>) -> (r: Result<
        ForwardResult,
        GraphError,
    >)
        requires
            forall|k: int|
                0 <= k < model_inputs@.len() ==> (#[trigger] model_inputs@[k]).wf(),
            forward_ok(self.graph, mi_of(model_inputs@)),
        ensures
            match r {
                Ok(fr) => {
                    &&& fr.outputs@.len() == self.graph.outputs@.len()
                    &&& forall|j: int|
                        #![trigger fr.outputs@[j]]
                        0 <= j < fr.outputs@.len() ==> {
                            let v = spec_value(
                                self.graph,
                                mi_of(model_inputs@),
                                self.graph.outputs@[j] as int,
                            );
                            &&& fr.outputs@[j].wf()
                            &&& fr.outputs@[j].data() == v.0
                            &&& fr.outputs@[j].shape() == v.1
                        }
                    &&& fr.max_lookup_inputs == spec_max_lookup(
                        self.graph,
                        mi_of(model_inputs@),
                        self.graph.nodes@.len() as int,
                    )
                },
                Err(_) => false,
            },
        decreases *self,
    {
        let ghost mi = mi_of(model_inputs@);
        let nin = model_inputs.len();
        let n = self.graph.nodes.len();
        let mut results: Vec<Tensor<i128>> = Vec::new();
        let mut input_idx: usize = 0;
        let mut max_li: i128 = 0;
        let mut i: usize = 0;
        proof {
            assert(count_lt(self.graph.inputs@, 0) == 0) by {
                lemma_count_lt_zero(self.graph.inputs@);
            }
        }
        while i < n
            invariant
                i <= n,
                n == self.graph.nodes@.len(),
                mi == mi_of(model_inputs@),
                forall|k: int|
                    0 <= k < model_inputs@.len() ==> (#[trigger] model_inputs@[k]).wf(),
                forward_ok(self.graph, mi),
                results@.len() == i,
                forall|j: int|
                    #![trigger results@[j]]
                    0 <= j < i ==> {
                        let v = spec_value(self.graph, mi, j);
                        &&& results@[j].wf()
                        &&& results@[j].data() == v.0
                        &&& results@[j].shape() == v.1
                    },
                nin == model_inputs@.len(),
                input_idx == count_lt(self.graph.inputs@, i as int),
                input_idx <= model_inputs@.len(),
                max_li >= 0,
                max_li == spec_max_lookup(self.graph, mi, i as int),
            decreases n - i,
        {
            proof {
                lemma_nodes_eval_ok_index(self.graph, mi, n as int, i as int);
            }
            let node = &self.graph.nodes[i];
            let is_in = node.is_input();
            if is_in {
                proof {
                    assert(self.graph.inputs@.contains(i));
                    lemma_count_lt_step(self.graph.inputs@, i as int);
                }
                let nd: &Node = match node {
                    NodeType::Node(nd) => nd,
                    NodeType::SubGraph { .. } => {
                        proof {
                            assert(false);
                        }
                        return Err(GraphError::WrongMethod);
                    },
                };
                let mut t = model_inputs[input_idx].clone();
                t.reshape(nd.out_dims.as_slice());
                results.push(t);
                input_idx = input_idx + 1;
                proof {
                    assert(spec_node_lookups(self.graph.nodes@[i as int]).len() == 0);
                    assert(spec_node_lookup_contrib(self.graph, mi, i as int) == 0);
                }
            } else {
                proof {
                    if self.graph.inputs@.contains(i) {
                        assert(false);
                    }
                    lemma_count_lt_step(self.graph.inputs@, i as int);
                }
                let edge_ids = node.inputs();
                let ghost sargs = spec_arg_values(self.graph, mi, edge_ids@, i as int);
                proof {
                    assert(forall|k: int|
                        0 <= k < edge_ids@.len() ==> #[trigger] edge_ids@[k] < i) by {
                        assert(forall|k: int|
                            0 <= k < node_inputs_of(self.graph.nodes@[i as int]).len()
                                ==> (#[trigger] node_inputs_of(self.graph.nodes@[i as int])[k])
                                < i);
                    }
                    lemma_arg_values_index(self.graph, mi, edge_ids@, i as int);
                }
                let m = edge_ids.len();
                let mut args: Vec<Tensor<i128>> = Vec::new();
                let mut k: usize = 0;
                while k < m
                    invariant
                        k <= m,
                        m == edge_ids@.len(),
                        i <= results@.len(),
                        forall|kk: int| 0 <= kk < m ==> #[trigger] edge_ids@[kk] < i,
                        sargs.len() == m,
                        forall|j: int|
                            0 <= j < m ==> #[trigger] sargs[j] == spec_value(
                                self.graph,
                                mi,
                                edge_ids@[j] as int,
                            ),
                        forall|j: int|
                            #![trigger results@[j]]
                            0 <= j < results@.len() ==> {
                                let v = spec_value(self.graph, mi, j);
                                &&& results@[j].wf()
                                &&& results@[j].data() == v.0
                                &&& results@[j].shape() == v.1
                            },
                        args@.len() == k,
                        forall|j: int|
                            #![trigger args@[j]]
                            0 <= j < k ==> {
                                &&& args@[j].wf()
                                &&& args@[j].data() == sargs[j].0
                                &&& args@[j].shape() == sargs[j].1
                            },
                    decreases m - k,
                {
                    let e = edge_ids[k];
                    let t = results[e].clone();
                    args.push(t);
                    k = k + 1;
                }
                proof {
                    assert(datas_of(args@) =~= arg_datas(sargs));
                    assert(shapes_of(args@) =~= arg_shapes(sargs));
                    assert(mi_of(args@) =~= sargs);
                }
                let lks = node.required_lookups();
                if lks.len() > 0 {
                    let ghost pre_max = max_li as int;
                    let mut j: usize = 0;
                    proof {
                        assert(arg_datas(sargs).subrange(0, 0) =~= Seq::<Seq<i128>>::empty());
                    }
                    while j < m
                        invariant
                            j <= m,
                            m == args@.len(),
                            sargs.len() == m,
                            lookup_args_ok(sargs),
                            forall|jj: int|
                                #![trigger args@[jj]]
                                0 <= jj < m ==> {
                                    &&& args@[jj].wf()
                                    &&& args@[jj].data() == sargs[jj].0
                                    &&& args@[jj].shape() == sargs[jj].1
                                },
                            max_li >= 0,
                            max_li == if max_abs_datas(arg_datas(sargs).subrange(0, j as int))
                                > pre_max {
                                max_abs_datas(arg_datas(sargs).subrange(0, j as int))
                            } else {
                                pre_max
                            },
                        decreases m - j,
                    {
                        proof {
                            assert(args@[j as int].data() == sargs[j as int].0);
                            assert(forall|e: int|
                                0 <= e < args@[j as int].data().len()
                                    ==> #[trigger] args@[j as int].data()[e] > i128::MIN);
                        }
                        max_li = max_abs_tensor(&args[j], max_li);
                        proof {
                            let prefix = arg_datas(sargs).subrange(0, j as int);
                            let next = arg_datas(sargs).subrange(0, j + 1);
                            assert(next.drop_last() =~= prefix);
                            assert(next.last() == sargs[j as int].0);
                        }
                        j = j + 1;
                    }
                    proof {
                        assert(arg_datas(sargs).subrange(0, m as int) =~= arg_datas(sargs));
                        assert(spec_node_lookup_contrib(self.graph, mi, i as int) == max_abs_datas(
                            arg_datas(sargs),
                        ));
                    }
                } else {
                    proof {
                        assert(spec_node_lookup_contrib(self.graph, mi, i as int) == 0);
                    }
                }
                match node {
                    NodeType::Node(nd) => {
                        let t = match nd.opkind.f(&args) {
                            Ok(t) => t,
                            Err(_) => {
                                proof {
                                    assert(false);
                                }
                                return Err(GraphError::WrongMethod);
                            },
                        };
                        results.push(t);
                    },
                    NodeType::SubGraph { model, .. } => {
                        let fr = match model.forward(&args) {
                            Ok(fr) => fr,
                            Err(_) => {
                                proof {
                                    assert(false);
                                }
                                return Err(GraphError::WrongMethod);
                            },
                        };
                        let last = fr.outputs.len() - 1;
                        proof {
                            assert(model.graph.outputs@.last() == model.graph.outputs@[last as int]);
                        }
                        let mut res = fr.outputs[last].clone();
                        res.flatten();
                        results.push(res);
                    },
                }
            }
            i = i + 1;
        }
        let mut outputs: Vec<Tensor<i128>> = Vec::new();
        let no = self.graph.outputs.len();
        let mut k: usize = 0;
        while k < no
            invariant
                k <= no,
                no == self.graph.outputs@.len(),
                n == self.graph.nodes@.len(),
                results@.len() == n,
                forward_ok(self.graph, mi),
                forall|j: int|
                    #![trigger results@[j]]
                    0 <= j < n ==> {
                        let v = spec_value(self.graph, mi, j);
                        &&& results@[j].wf()
                        &&& results@[j].data() == v.0
                        &&& results@[j].shape() == v.1
                    },
                outputs@.len() == k,
                forall|j: int|
                    #![trigger outputs@[j]]
                    0 <= j < k ==> {
                        let v = spec_value(self.graph, mi, self.graph.outputs@[j] as int);
                        &&& outputs@[j].wf()
                        &&& outputs@[j].data() == v.0
                        &&& outputs@[j].shape() == v.1
                    },
            decreases no - k,
        {
            let o = self.graph.outputs[k];
            let t = results[o].clone();
            outputs.push(t);
            k = k + 1;
        }
        Ok(ForwardResult { outputs, max_lookup_inputs: max_li })
    }
}

/// Nothing lies below zero.
proof fn lemma_count_lt_zero(ids: Seq<usize>)
    ensures
        count_lt(ids, 0) == 0,
    decreases ids.len(),
{
    if ids.len() > 0 {
        lemma_count_lt_zero(ids.drop_last());
    }
}


/// The smallest number of doublings that reach `n`: the ceiling of
/// the base-two logarithm.
pub open spec fn spec_ceil_log2(n: int) -> nat
    decreases n,
{
    if n <= 1 {
        0
    } else {
        1 + spec_ceil_log2((n + 1) / 2)
    }
}

/// Any exponent whose power reaches `n` first is the ceiling
/// logarithm.
proof fn lemma_ceil_log2_char(n: int, s: nat)
    requires
        n >= 1,
        pow2(s) >= n,
        s == 0 || pow2((s - 1) as nat) < n,
    ensures
        s == spec_ceil_log2(n),
    decreases n,
{
    if n <= 1 {
        if s >= 1 {
            vstd::arithmetic::power2::lemma_pow2_pos((s - 1) as nat);
        }
    } else {
        assert(s >= 1) by {
            if s == 0 {
                assert(pow2(0nat) == 1) by {
                    vstd::arithmetic::power2::lemma2_to64();
                }
            }
        }
        let m = (n + 1) / 2;
        vstd::arithmetic::div_mod::lemma_fundamental_div_mod(n + 1, 2);
        assert(n + 1 == 2 * m + (n + 1) % 2);
        vstd::arithmetic::div_mod::lemma_mod_bound(n + 1, 2);
        assert(2 * m >= n);
        assert(1 <= m < n);
        vstd::arithmetic::power2::lemma_pow2_unfold(s);
        assert(pow2(s) == 2 * pow2((s - 1) as nat));
        assert(2 * pow2((s - 1) as nat) >= n);
        assert(pow2((s - 1) as nat) >= m) by {
            if pow2((s - 1) as nat) < m {
                assert(2 * pow2((s - 1) as nat) <= 2 * (m - 1));
                assert(2 * (m - 1) <= n + 1 - 2);
            }
        }
        if s - 1 >= 1 {
            vstd::arithmetic::power2::lemma_pow2_unfold((s - 1) as nat);
            assert(pow2((s - 1) as nat) == 2 * pow2((s - 2) as nat));
            assert(pow2((s - 2) as nat) < m) by {
                assert(2 * pow2((s - 2) as nat) < n);
                assert(2 * m >= n);
            }
        } else {
            assert(pow2(0nat) == 1) by {
                vstd::arithmetic::power2::lemma2_to64();
            }
        }
        lemma_ceil_log2_char(m, (s - 1) as nat);
    }
}

/// Computes the ceiling of the base-two logarithm by doubling.
pub fn ceil_log2_u128(n: u128) -> (r: u32)
    requires
        1 <= n < 0x8000_0000_0000_0000_0000_0000_0000_0000u128,
    ensures
        r == spec_ceil_log2(n as int),
        r <= 127,
{
    let mut s: u32 = 0;
    let mut p: u128 = 1;
    proof {
        assert(pow2(0nat) == 1) by {
            vstd::arithmetic::power2::lemma2_to64();
        }
    }
    while p < n
        invariant
            n >= 1,
            n < 0x8000_0000_0000_0000_0000_0000_0000_0000u128,
            p >= 1,
            p == pow2(s as nat),
            s == 0 || pow2((s - 1) as nat) < n,
            s <= 127,
        decreases 2 * (n as int) - p,
    {
        proof {
            assert(pow2(127nat) == pow2(64nat) * pow2(63nat)) by {
                vstd::arithmetic::power2::lemma_pow2_adds(64nat, 63nat);
            }
            assert(pow2(64nat) == 0x1_0000_0000_0000_0000 && pow2(63nat)
                == 0x8000_0000_0000_0000) by {
                vstd::arithmetic::power2::lemma2_to64();
                vstd::arithmetic::power2::lemma2_to64_rest();
            }
            if s as nat >= 127 {
                assert(pow2(127nat) <= pow2(s as nat)) by {
                    if s > 127 {
                        vstd::arithmetic::power2::lemma_pow2_strictly_increases(
                            127nat,
                            s as nat,
                        );
                    }
                }
                assert(false);
            }
            vstd::arithmetic::power2::lemma_pow2_unfold(s as nat + 1);
            assert(pow2(s as nat + 1) <= pow2(127nat)) by {
                if s as nat + 1 < 127 {
                    vstd::arithmetic::power2::lemma_pow2_strictly_increases(
                        s as nat + 1,
                        127nat,
                    );
                }
            }
        }
        p = p * 2;
        s = s + 1;
    }
    proof {
        lemma_ceil_log2_char(n as int, s as nat);
    }
    s
}

/// A structured recommendation emitted when the largest lookup input
/// does not fit the current bit window.
#[derive(Clone, Copy, Debug, PartialEq, Eq, Structural)]
pub struct BudgetRecommendation {
    /// A bit width that would fit the observed inputs.
    pub recommended_bits: u32,
    /// A smaller scale that would fit the current bit width, when one
    /// exists; negative values mean no scale can.
    pub recommended_scale: i64,
}

/// Checks the observed largest lookup input against the bit window:
/// a value at or past `2^(bits-1)` cannot be represented, and a
/// recommendation for a larger bit width or a smaller scale is
/// returned.
pub fn lookup_budget_check(max_lookup_inputs: i128, bits: usize, scale: u32) -> (r: Option<
    BudgetRecommendation,
>)
    requires
        crate::table::table_bits_ok(bits),
        max_lookup_inputs >= 0,
    ensures
        match r {
            Option::None => max_lookup_inputs < pow2((bits - 1) as nat),
            Option::Some(rec) => {
                &&& max_lookup_inputs >= pow2((bits - 1) as nat)
                &&& rec.recommended_bits == spec_ceil_log2(max_lookup_inputs as int) + 1
                &&& rec.recommended_scale == scale - spec_ceil_log2(
                    (max_lookup_inputs + pow2((bits - 1) as nat) - 1) as int / pow2(
                        (bits - 1) as nat,
                    ) as int,
                )
            },
        },
{
    let half = crate::table::half_window(bits);
    if max_lookup_inputs < half {
        return None;
    }
    let rb = ceil_log2_u128(max_lookup_inputs as u128) + 1;
    let num: u128 = (max_lookup_inputs as u128) + ((half as u128) - 1);
    let ratio: u128 = num / (half as u128);
    proof {
        assert(ratio >= 1) by {
            vstd::arithmetic::div_mod::lemma_div_is_ordered(
                half as int,
                num as int,
                half as int,
            );
            assert((half as int) / (half as int) == 1) by {
                vstd::arithmetic::div_mod::lemma_div_basics(half as int);
            }
        }
        assert(ratio < 0x8000_0000_0000_0000_0000_0000_0000_0000u128) by {
            if half == 1 {
                vstd::arithmetic::div_mod::lemma_div_basics(num as int);
            } else {
                vstd::arithmetic::div_mod::lemma_div_is_ordered_by_denominator(
                    num as int,
                    2,
                    half as int,
                );
                vstd::arithmetic::div_mod::lemma_div_is_ordered(
                    num as int,
                    0x1_0000_0000_0000_0000_0000_0000_0000_0000 - 2,
                    2,
                );
                assert((0x1_0000_0000_0000_0000_0000_0000_0000_0000 - 2) / 2
                    == 0x8000_0000_0000_0000_0000_0000_0000_0000 - 1) by {
                    vstd::arithmetic::div_mod::lemma_fundamental_div_mod_converse(
                        0x1_0000_0000_0000_0000_0000_0000_0000_0000 - 2,
                        2,
                        0x8000_0000_0000_0000_0000_0000_0000_0000 - 1,
                        0,
                    );
                }
            }
        }
    }
    let rs = ceil_log2_u128(ratio);
    Some(
        BudgetRecommendation {
            recommended_bits: rb,
            recommended_scale: (scale as i64) - (rs as i64),
        },
    )
}


/// The largest scale among the inputs.
pub open spec fn spec_max_scale(s: Seq<u32>) -> u32
    decreases s.len(),
{
    if s.len() == 0 {
        0u32
    } else {
        let r = spec_max_scale(s.drop_last());
        if s.last() > r {
            s.last()
        } else {
            r
        }
    }
}

/// Computes the largest scale among the inputs.
pub fn max_scale(in_scales: &Vec<u32>) -> (r: u32)
    ensures
        r == spec_max_scale(in_scales@),
        forall|i: int| 0 <= i < in_scales@.len() ==> in_scales@[i] <= r,
{
    let mut m: u32 = 0;
    let mut i: usize = 0;
    proof {
        assert(in_scales@.subrange(0, 0) =~= Seq::<u32>::empty());
    }
    while i < in_scales.len()
        invariant
            i <= in_scales@.len(),
            m == spec_max_scale(in_scales@.subrange(0, i as int)),
            forall|j: int| 0 <= j < i ==> in_scales@[j] <= m,
        decreases in_scales@.len() - i,
    {
        proof {
            assert(in_scales@.subrange(0, i + 1).drop_last() =~= in_scales@.subrange(0, i as int));
            assert(in_scales@.subrange(0, i + 1).last() == in_scales@[i as int]);
        }
        if in_scales[i] > m {
            m = in_scales[i];
        }
        i = i + 1;
    }
    proof {
        assert(in_scales@.subrange(0, in_scales@.len() as int) =~= in_scales@);
    }
    m
}

/// An operator demands equalised input scales.
pub open spec fn needs_homogenous_scales(op: OpKind) -> bool {
    op matches OpKind::Poly(p) && (p is Add || p is Sub)
}

/// Wraps an operator that demands equalised input scales in a
/// rescaling wrapper whose multipliers lift every input to the
/// largest input scale; other operators pass through unchanged.
pub fn homogenize_input_scales(op: OpKind, in_scales: &Vec<u32>) -> (r: OpKind)
    requires
        crate::ops::op_wf(op),
        needs_homogenous_scales(op) ==> in_scales@.len() == 2 && forall|i: int|
            0 <= i < in_scales@.len() ==> spec_max_scale(in_scales@) - in_scales@[i] <= 127,
    ensures
        needs_homogenous_scales(op) ==> (r matches OpKind::Rescaled(rr) && {
            &&& *rr.inner == op
            &&& rr.scale@.len() == in_scales@.len()
            &&& forall|i: int|
                0 <= i < in_scales@.len() ==> #[trigger] rr.scale@[i] == (
                i as usize,
                pow2((spec_max_scale(in_scales@) - in_scales@[i]) as nat) as u128,
                )
        }),
        !needs_homogenous_scales(op) ==> r == op,
        crate::ops::op_wf(r),
{
    let is_homog = match &op {
        OpKind::Poly(p) => match p {
            crate::ops::PolyOp::Add => true,
            crate::ops::PolyOp::Sub => true,
            _ => false,
        },
        _ => false,
    };
    if !is_homog {
        return op;
    }
    let target = max_scale(in_scales);
    let n = in_scales.len();
    let mut scale: Vec<(usize, u128)> = Vec::new();
    let mut i: usize = 0;
    while i < n
        invariant
            i <= n,
            n == in_scales@.len(),
            forall|j: int|
                0 <= j < n ==> in_scales@[j] <= target && target - in_scales@[j] <= 127,
            target == spec_max_scale(in_scales@),
            scale@.len() == i,
            forall|j: int|
                0 <= j < i ==> #[trigger] scale@[j] == (
                j as usize,
                pow2((target - in_scales@[j]) as nat) as u128,
                ),
        decreases n - i,
    {
        let m = crate::scale::scale_to_multiplier(target - in_scales[i]);
        scale.push((i, m));
        i = i + 1;
    }
    OpKind::Rescaled(Rescaled { inner: alloc_box(op), scale })
}

/// Boxes an operator kind.
fn alloc_box(op: OpKind) -> (r: Box<OpKind>)
    ensures
        *r == op,
{
    Box::new(op)
}

/// The dimensions the loader records for a node: a leading batch axis
/// of one is dropped for ranks above one, and an all-ones shape
/// collapses to a single axis.
pub open spec fn spec_trim_dims(dims: Seq<usize>) -> Seq<usize> {
    let d = if dims.len() > 1 && dims[0] == 1 {
        dims.skip(1)
    } else {
        dims
    };
    if shape_volume(d) == 1 {
        seq![1usize]
    } else {
        d
    }
}

/// Applies the loader's batch-axis trimming to an inferred shape.
pub fn trim_dims(dims: &Vec<usize>) -> (r: Vec<usize>)
    ensures
        r@ == spec_trim_dims(dims@),
{
    let mut d: Vec<usize> = Vec::new();
    let start: usize = if dims.len() > 1 && dims[0] == 1 {
        1
    } else {
        0
    };
    let mut i: usize = start;
    while i < dims.len()
        invariant
            start <= i <= dims@.len(),
            d@ == dims@.subrange(start as int, i as int),
        decreases dims@.len() - i,
    {
        d.push(dims[i]);
        proof {
            assert(d@ =~= dims@.subrange(start as int, i + 1));
        }
        i = i + 1;
    }
    proof {
        if start == 1 {
            assert(dims@.subrange(1, dims@.len() as int) =~= dims@.skip(1));
        } else {
            assert(dims@.subrange(0, dims@.len() as int) =~= dims@);
        }
    }
    let vol = crate::tensor::checked_volume(d.as_slice());
    let is_one = match vol {
        Some(v) => v == 1,
        None => false,
    };
    if is_one {
        let mut one: Vec<usize> = Vec::new();
        one.push(1);
        proof {
            assert(one@ =~= seq![1usize]);
        }
        one
    } else {
        d
    }
}

/// The operator a node carries after the loader's rescaling: lookup
/// operators fold the scale ratios into their parameters, all other
/// kinds pass through.
pub open spec fn spec_prepared_op(op: OpKind, in_scales: Seq<u32>, g: u32) -> OpKind {
    match op {
        OpKind::Lookup(l) => OpKind::Lookup(l.spec_rescale(in_scales[0] as int, g as int)),
        _ => op,
    }
}

impl Node {
    /// Builds a node from an operator, its input edges and scales,
    /// the circuit's global scale and the externally inferred output
    /// shape: the operator is rescaled, the output scale is derived
    /// from the input scales, and the shape is batch-trimmed.
    pub fn new(
        opkind: OpKind,
        inputs: Vec<usize>,
        in_scales: &Vec<u32>,
        scale: u32,
        inferred_dims: &Vec<usize>,
        idx: usize,
    ) -> (r: Node)
        requires
            crate::ops::op_wf(opkind),
            opkind matches OpKind::Lookup(l) ==> in_scales@.len() >= 1 && l.rescale_ok(
                in_scales@[0] as int,
                scale as int,
            ),
            !(opkind is Lookup) ==> out_scale_ok(opkind, in_scales@, scale),
        ensures
            r.idx == idx,
            r.inputs@ == inputs@,
            r.opkind == spec_prepared_op(opkind, in_scales@, scale),
            r.out_scale == if in_scales@.len() == 0 {
                scale as int
            } else {
                spec_out_scale(spec_prepared_op(opkind, in_scales@, scale), in_scales@, scale)
            },
            r.out_dims@ == spec_trim_dims(inferred_dims@),
    {
        let opkind = opkind.rescale(in_scales, scale);
        let out_scale = if in_scales.len() == 0 {
            scale
        } else {
            opkind.out_scale(in_scales, scale)
        };
        let out_dims = trim_dims(inferred_dims);
        Node { opkind, out_scale, inputs, out_dims, idx }
    }
}

/// The first output scale of each listed predecessor.
pub open spec fn pred_scales(g: ParsedNodes, ids: Seq<usize>) -> Seq<u32>
    decreases g, 0int, 0int, ids.len(),
{
    if ids.len() == 0 {
        Seq::empty()
    } else if ids.last() < g.nodes@.len() {
        pred_scales(g, ids.drop_last()).push(
            spec_node_out_scales(g.nodes@[ids.last() as int]).first(),
        )
    } else {
        Seq::empty()
    }
}

/// The first `n` nodes carry consistent scales: every non-input node's
/// output scale is exactly what its operator derives from its
/// predecessors' output scales and the circuit's global scale.
pub open spec fn nodes_scales_ok(m: Model, n: int) -> bool
    decreases m, n, 1int, 0int,
{
    if n <= 0 || n > m.graph.nodes@.len() {
        true
    } else {
        nodes_scales_ok(m, n - 1) && match m.graph.nodes@[n - 1] {
            NodeType::Node(nd) => !(nd.opkind is Input) && nd.inputs@.len() > 0
                ==> nd.out_scale == spec_out_scale(
                nd.opkind,
                pred_scales(m.graph, nd.inputs@),
                m.run_args.scale,
            ),
            NodeType::SubGraph { model, .. } => nodes_scales_ok(
                *model,
                model.graph.nodes@.len() as int,
            ),
        }
    }
}

/// Scale closure over a whole model: every node's recorded output
/// scale equals its operator's scale derivation applied to its
/// predecessors' output scales.
pub open spec fn scales_consistent(m: Model) -> bool {
    nodes_scales_ok(m, m.graph.nodes@.len() as int)
}

/// Scale closure, node by node: in a scale-consistent model, every
/// non-input node's output scale is exactly its operator's derivation
/// from the predecessor scales and the global scale.
pub proof fn lemma_scale_closure(m: Model, n: int, i: int)
    requires
        nodes_scales_ok(m, n),
        0 <= i < n,
        n <= m.graph.nodes@.len(),
        m.graph.nodes@[i] matches NodeType::Node(nd) && !(nd.opkind is Input)
            && nd.inputs@.len() > 0,
    ensures
        m.graph.nodes@[i] matches NodeType::Node(nd) ==> nd.out_scale == spec_out_scale(
            nd.opkind,
            pred_scales(m.graph, nd.inputs@),
            m.run_args.scale,
        ),
    decreases n,
{
    if i < n - 1 {
        lemma_scale_closure(m, n - 1, i);
    }
}

} // verus!
