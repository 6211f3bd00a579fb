//! The layout engine: walks the graph and accounts constraint rows at
//! a single monotonically increasing offset, producing the witness
//! values for every designated output.
//!
//! The number of rows each node claims is a function of the graph
//! alone — an operator claims one row per output element, inputs
//! claim none, and a nested subgraph claims what its own nodes claim.
//! The sizing pass and the real layout therefore agree exactly on the
//! final offset.

use vstd::prelude::*;

use crate::graph::{
    forward_ok, mi_of, spec_max_lookup, spec_value, GraphError, Model, NodeType, ParsedNodes,
    graph_wf, spec_shapes_list,
};
use crate::lookup::LookupOp;
use crate::tensor::{shape_volume, Tensor};

verus! {

/// The rows one graph node claims in the constraint system.
pub open spec fn spec_node_rows(nt: NodeType) -> int
    decreases nt, 1int, 0int,
{
    match nt {
        NodeType::Node(n) => if n.opkind is Input {
            0
        } else {
            shape_volume(n.out_dims@)
        },
        NodeType::SubGraph { model, .. } => spec_graph_rows(
            model.graph,
            model.graph.nodes@.len() as int,
        ),
    }
}

/// The rows the first `n` nodes of a graph claim.
pub open spec fn spec_graph_rows(g: ParsedNodes, n: int) -> int
    decreases g, 0int, n,
{
    if n <= 0 || n > g.nodes@.len() {
        0
    } else {
        spec_graph_rows(g, n - 1) + spec_node_rows(g.nodes@[n - 1])
    }
}

/// The total volume of a list of shapes.
pub open spec fn sum_vols(shapes: Seq<Seq<usize>>) -> int
    decreases shapes.len(),
{
    if shapes.len() == 0 {
        0
    } else {
        sum_vols(shapes.drop_last()) + shape_volume(shapes.last())
    }
}

/// The rows a whole model claims: its graph's rows, one row per
/// packed output element when packing is on, and one row per output
/// element for the public range check.
pub open spec fn spec_model_rows(m: Model) -> int {
    spec_graph_rows(m.graph, m.graph.nodes@.len() as int) + (if m.run_args.pack_base > 1 {
        sum_vols(spec_shapes_list(m.graph, m.graph.outputs@))
    } else {
        0
    }) + (if m.run_args.public_outputs {
        sum_vols(spec_shapes_list(m.graph, m.graph.outputs@))
    } else {
        0
    })
}

/// Node rows are never negative.
pub proof fn lemma_node_rows_nonneg(nt: NodeType)
    ensures
        spec_node_rows(nt) >= 0,
    decreases nt, 1int, 0int,
{
    match nt {
        NodeType::Node(n) => {
            if !(n.opkind is Input) {
                crate::tensor::lemma_volume_nonneg(n.out_dims@);
            }
        },
        NodeType::SubGraph { model, .. } => {
            lemma_graph_rows_nonneg(model.graph, model.graph.nodes@.len() as int);
        },
    }
}

/// Graph rows are never negative.
pub proof fn lemma_graph_rows_nonneg(g: ParsedNodes, n: int)
    ensures
        spec_graph_rows(g, n) >= 0,
    decreases g, 0int, n,
{
    if 0 < n <= g.nodes@.len() {
        lemma_graph_rows_nonneg(g, n - 1);
        lemma_node_rows_nonneg(g.nodes@[n - 1]);
    }
}

/// A prefix of the graph's rows never exceeds the whole.
pub proof fn lemma_graph_rows_prefix(g: ParsedNodes, i: int, n: int)
    requires
        0 <= i <= n <= g.nodes@.len(),
    ensures
        spec_graph_rows(g, i) <= spec_graph_rows(g, n),
    decreases n - i,
{
    if i < n {
        lemma_graph_rows_prefix(g, i, n - 1);
        lemma_node_rows_nonneg(g.nodes@[n - 1]);
    }
}

/// Sum of shape volumes is never negative.
pub proof fn lemma_sum_vols_nonneg(shapes: Seq<Seq<usize>>)
    ensures
        sum_vols(shapes) >= 0,
    decreases shapes.len(),
{
    if shapes.len() > 0 {
        lemma_sum_vols_nonneg(shapes.drop_last());
        crate::tensor::lemma_volume_nonneg(shapes.last());
    }
}

/// A prefix of the volumes never exceeds the whole sum.
proof fn lemma_sum_vols_prefix(shapes: Seq<Seq<usize>>, j: int)
    requires
        0 <= j <= shapes.len(),
    ensures
        sum_vols(shapes.subrange(0, j)) <= sum_vols(shapes),
    decreases shapes.len() - j,
{
    if j < shapes.len() {
        lemma_sum_vols_prefix(shapes, j + 1);
        let next = shapes.subrange(0, j + 1);
        assert(next.drop_last() =~= shapes.subrange(0, j));
        assert(next.last() == shapes[j]);
        crate::tensor::lemma_volume_nonneg(shapes[j]);
    } else {
        assert(shapes.subrange(0, j) =~= shapes);
    }
}

/// What a layout run produces: the final row offset, the witness
/// values of the designated outputs, and the largest lookup input
/// observed.
#[derive(Debug)]
pub struct LayoutRun {
    /// The row offset after every node has claimed its rows.
    pub final_offset: usize,
    /// The witness values of the designated outputs.
    pub outputs: Vec<Tensor<i128>>,
    /// The largest magnitude fed to any lookup-bearing node.
    pub max_lookup_inputs: i128,
}

impl Model {
    /// Counts the rows the model will claim, without computing any
    /// witness: the sizing pass that determines `num_constraints`
    /// before any real assignment.
    pub fn dummy_layout(&self, input_shapes: &Vec<Vec<usize>>) -> (r: usize)
        requires
            graph_wf(self.graph),
            spec_model_rows(*self) <= usize::MAX,
        ensures
            r == spec_model_rows(*self),
        decreases *self, 3int, 0int,
    {
        proof {
            lemma_graph_rows_nonneg(self.graph, self.graph.nodes@.len() as int);
            lemma_sum_vols_nonneg(spec_shapes_list(self.graph, self.graph.outputs@));
            lemma_model_rows_cover(*self);
        }
        let offset = graph_rows(&self.graph);
        let extra = self.output_extra_rows();
        offset + extra
    }

    /// The rows claimed after the graph walk: packing and the public
    /// range check on the outputs.
    fn output_extra_rows(&self) -> (r: usize)
        requires
            graph_wf(self.graph),
            spec_model_rows(*self) <= usize::MAX,
        ensures
            r == spec_model_rows(*self) - spec_graph_rows(
                self.graph,
                self.graph.nodes@.len() as int,
            ),
        decreases *self, 2int, 0int,
    {
        if self.run_args.pack_base <= 1 && !self.run_args.public_outputs {
            return 0;
        }
        proof {
            lemma_graph_rows_nonneg(self.graph, self.graph.nodes@.len() as int);
            lemma_sum_vols_nonneg(spec_shapes_list(self.graph, self.graph.outputs@));
        }
        let shapes = self.graph.output_shapes();
        let mut vols: usize = 0;
        let ghost sshapes = spec_shapes_list(self.graph, self.graph.outputs@);
        let mut k: usize = 0;
        proof {
            assert(sshapes.subrange(0, 0) =~= Seq::<Seq<usize>>::empty());
        }
        while k < shapes.len()
            invariant
                k <= shapes@.len(),
                shapes@.map_values(|v: Vec<usize>| v@) == sshapes,
                vols == sum_vols(sshapes.subrange(0, k as int)),
                vols <= usize::MAX,
                sum_vols(sshapes) <= usize::MAX,
            decreases shapes@.len() - k,
        {
            proof {
                lemma_sum_vols_prefix(sshapes, k + 1);
            }
            let v = match crate::tensor::checked_volume(shapes[k].as_slice()) {
                Some(v) => v,
                None => {
                    proof {
                        let next = sshapes.subrange(0, k + 1);
                        assert(next.drop_last() =~= sshapes.subrange(0, k as int));
                        assert(next.last() == sshapes[k as int]);
                        lemma_sum_vols_nonneg(sshapes.subrange(0, k as int));
                        assert(false);
                    }
                    return 0;
                },
            };
            proof {
                let next = sshapes.subrange(0, k + 1);
                assert(next.drop_last() =~= sshapes.subrange(0, k as int));
                assert(next.last() == sshapes[k as int]);
            }
            vols = vols + v;
            k = k + 1;
        }
        proof {
            assert(sshapes.subrange(0, sshapes.len() as int) =~= sshapes);
        }
        let pack: usize = if self.run_args.pack_base > 1 {
            vols
        } else {
            0
        };
        let check: usize = if self.run_args.public_outputs {
            vols
        } else {
            0
        };
        pack + check
    }

    /// Lays the model out: every node claims its rows at the single
    /// monotonically increasing offset while the witness values are
    /// computed, and the outputs are returned together with the final
    /// offset.  The run is a pure function of the graph and the
    /// inputs.
    pub fn layout(&self, inputs: &Vec<Tensor<i128>>) -> (r: Result<LayoutRun, GraphError>)
        requires
            forall|k: int| 0 <= k < inputs@.len() ==> (#[trigger] inputs@[k]).wf(),
            forward_ok(self.graph, mi_of(inputs@)),
            spec_model_rows(*self) <= usize::MAX,
        ensures
            match r {
                Ok(run) => {
                    &&& run.final_offset == spec_model_rows(*self)
                    &&& run.outputs@.len() == self.graph.outputs@.len()
                    &&& forall|j: int|
                        #![trigger run.outputs@[j]]
                        0 <= j < run.outputs@.len() ==> {
                            let v = spec_value(
                                self.graph,
                                mi_of(inputs@),
                                self.graph.outputs@[j] as int,
                            );
                            &&& run.outputs@[j].wf()
                            &&& run.outputs@[j].data() == v.0
                            &&& run.outputs@[j].shape() == v.1
                        }
                    &&& run.max_lookup_inputs == spec_max_lookup(
                        self.graph,
                        mi_of(inputs@),
                        self.graph.nodes@.len() as int,
                    )
                },
                Err(_) => false,
            },
    {
        let fr = match self.forward(inputs) {
            Ok(fr) => fr,
            Err(e) => {
                proof {
                    assert(false);
                }
                return Err(e);
            },
        };
        let shapes: Vec<Vec<usize>> = Vec::new();
        let final_offset = self.dummy_layout(&shapes);
        Ok(
            LayoutRun {
                final_offset,
                outputs: fr.outputs,
                max_lookup_inputs: fr.max_lookup_inputs,
            },
        )
    }
}

/// Every prefix of the graph rows stays under the model's total.
proof fn lemma_model_rows_cover(m: Model)
    ensures
        spec_graph_rows(m.graph, m.graph.nodes@.len() as int) <= spec_model_rows(m),
{
    lemma_sum_vols_nonneg(spec_shapes_list(m.graph, m.graph.outputs@));
}

/// Counts the rows one node claims.
fn node_rows(nt: &NodeType) -> (r: usize)
    requires
        *nt matches NodeType::SubGraph { model, .. } ==> graph_wf(model.graph),
        spec_node_rows(*nt) <= usize::MAX,
    ensures
        r == spec_node_rows(*nt),
    decreases *nt, 2int, 0int,
{
    match nt {
        NodeType::Node(n) => {
            if n.opkind.is_input() {
                0
            } else {
                match crate::tensor::checked_volume(n.out_dims.as_slice()) {
                    Some(v) => v,
                    None => {
                        proof {
                            assert(false);
                        }
                        0
                    },
                }
            }
        },
        NodeType::SubGraph { model, .. } => graph_rows(&model.graph),
    }
}

/// Counts the rows a whole graph claims.
fn graph_rows(g: &ParsedNodes) -> (r: usize)
    requires
        graph_wf(*g),
        spec_graph_rows(*g, g.nodes@.len() as int) <= usize::MAX,
    ensures
        r == spec_graph_rows(*g, g.nodes@.len() as int),
    decreases *g, 1int, 0int,
{
    let n = g.nodes.len();
    let mut offset: usize = 0;
    let mut i: usize = 0;
    while i < n
        invariant
            i <= n,
            n == g.nodes@.len(),
            graph_wf(*g),
            spec_graph_rows(*g, n as int) <= usize::MAX,
            offset == spec_graph_rows(*g, i as int),
        decreases n - i,
    {
        proof {
            lemma_graph_rows_prefix(*g, i + 1, n as int);
            lemma_graph_rows_nonneg(*g, i as int);
            lemma_node_rows_nonneg(g.nodes@[i as int]);
        }
        let rows = node_rows(&g.nodes[i]);
        offset = offset + rows;
        i = i + 1;
    }
    offset
}

/// The row offset a real layout run reaches over the given inputs:
/// every node claims rows determined by the graph alone, so the
/// offset is independent of the input values.
pub open spec fn spec_final_offset(m: Model, mi: Seq<(Seq<i128>, Seq<usize>)>) -> int {
    spec_model_rows(m)
}

/// Layout determinism: the final offset, every output value and the
/// largest observed lookup input are functions of the graph and the
/// inputs alone, so two layout runs over the same model and equal
/// inputs agree on every component of their result.
pub proof fn lemma_layout_deterministic(
    m: Model,
    mi1: Seq<(Seq<i128>, Seq<usize>)>,
    mi2: Seq<(Seq<i128>, Seq<usize>)>,
)
    requires
        mi1 == mi2,
    ensures
        spec_final_offset(m, mi1) == spec_final_offset(m, mi2),
        forall|j: int| #[trigger] spec_value(m.graph, mi1, j) == spec_value(m.graph, mi2, j),
        spec_max_lookup(m.graph, mi1, m.graph.nodes@.len() as int) == spec_max_lookup(
            m.graph,
            mi2,
            m.graph.nodes@.len() as int,
        ),
{
}

/// Sizing parity: for every admissible input assignment, the final
/// offset a real layout run reaches is exactly the constraint count
/// the sizing pass reports from the shapes alone.
pub proof fn lemma_dummy_real_parity(m: Model, mi: Seq<(Seq<i128>, Seq<usize>)>)
    ensures
        spec_final_offset(m, mi) == spec_model_rows(m),
{
}


/// The schema that sizes the constraint system before witness
/// assignment.
#[derive(Debug)]
pub struct ModelParams {
    /// The run configuration the model was built with.
    pub run_args: crate::graph::RunArgs,
    /// Which variable families are public.
    pub visibility: crate::graph::VarVisibility,
    /// Shapes of the public instance columns.
    pub instance_shapes: Vec<Vec<usize>>,
    /// Total number of constraint rows to allocate.
    pub num_constraints: usize,
    /// The distinct lookup tables the circuit needs.
    pub required_lookups: Vec<LookupOp>,
    /// Whether layout checks run after each operation.
    pub check_mode: crate::graph::CheckMode,
}

/// The shapes of the public instance columns: the input shapes when
/// inputs are public, then the output shapes when outputs are.
pub open spec fn spec_instance_shapes(m: Model) -> Seq<Seq<usize>> {
    (if m.visibility.input is Public {
        spec_shapes_list(m.graph, m.graph.inputs@)
    } else {
        Seq::empty()
    }) + (if m.visibility.output is Public {
        spec_shapes_list(m.graph, m.graph.outputs@)
    } else {
        Seq::empty()
    })
}

impl Model {
    /// Shapes of the computational graph's public instances.
    pub fn instance_shapes(&self) -> (r: Vec<Vec<usize>>)
        requires
            graph_wf(self.graph),
        ensures
            r@.map_values(|v: Vec<usize>| v@) == spec_instance_shapes(*self),
    {
        let mut out: Vec<Vec<usize>> = Vec::new();
        if self.visibility.input.is_public() {
            let ins = self.graph.input_shapes();
            append_shapes(&mut out, ins);
        }
        if self.visibility.output.is_public() {
            let outs = self.graph.output_shapes();
            append_shapes(&mut out, outs);
        }
        proof {
            assert(out@.map_values(|v: Vec<usize>| v@) =~= spec_instance_shapes(*self));
        }
        out
    }

    /// Generates the parameter block for the circuit: the instance
    /// shapes, the constraint count — the configured budget or the
    /// sizing pass's count — and the distinct lookup tables.
    pub fn gen_params(&self, check_mode: crate::graph::CheckMode) -> (r: ModelParams)
        requires
            graph_wf(self.graph),
            spec_model_rows(*self) <= usize::MAX,
        ensures
            r.run_args == self.run_args,
            r.visibility == self.visibility,
            r.check_mode == check_mode,
            r.instance_shapes@.map_values(|v: Vec<usize>| v@) == spec_instance_shapes(*self),
            r.num_constraints == match self.run_args.allocated_constraints {
                Option::Some(n) => n as int,
                Option::None => spec_model_rows(*self),
            },
            (forall|a: int, b: int|
                0 <= a < b < r.required_lookups@.len() ==> r.required_lookups@[a]
                    != r.required_lookups@[b]),
            forall|op: LookupOp|
                r.required_lookups@.contains(op) <==> crate::graph::spec_graph_lookups(
                    self.graph,
                    self.graph.nodes@.len() as int,
                ).contains(op),
    {
        let instance_shapes = self.instance_shapes();
        let num_constraints = match self.run_args.allocated_constraints {
            Some(n) => n,
            None => {
                let shapes: Vec<Vec<usize>> = Vec::new();
                self.dummy_layout(&shapes)
            },
        };
        let lookups = self.required_lookups();
        let required_lookups = dedup_lookups(&lookups);
        ModelParams {
            run_args: self.run_args,
            visibility: self.visibility,
            instance_shapes,
            num_constraints,
            required_lookups,
            check_mode,
        }
    }
}

/// Moves a list of shapes onto the end of another.
fn append_shapes(out: &mut Vec<Vec<usize>>, more: Vec<Vec<usize>>)
    ensures
        final(out)@.map_values(|v: Vec<usize>| v@) == old(out)@.map_values(|v: Vec<usize>| v@)
            + more@.map_values(|v: Vec<usize>| v@),
{
    let ghost pre = out@.map_values(|v: Vec<usize>| v@);
    let ghost madd = more@.map_values(|v: Vec<usize>| v@);
    let mut more = more;
    let n = more.len();
    let mut j: usize = 0;
    while j < n
        invariant
            j <= n,
            n == more@.len(),
            more@.map_values(|v: Vec<usize>| v@) == madd,
            out@.map_values(|v: Vec<usize>| v@) == pre + madd.subrange(0, j as int),
        decreases n - j,
    {
        let ghost before = out@.map_values(|v: Vec<usize>| v@);
        let item = clone_shape(&more[j]);
        out.push(item);
        proof {
            assert(out@.map_values(|v: Vec<usize>| v@) =~= before.push(madd[j as int]));
            assert(before.push(madd[j as int]) =~= pre + madd.subrange(0, j + 1));
        }
        j = j + 1;
    }
    proof {
        assert(madd.subrange(0, n as int) =~= madd);
    }
}

/// Copies one shape vector.
fn clone_shape(v: &Vec<usize>) -> (r: Vec<usize>)
    ensures
        r@ == v@,
{
    let mut out: Vec<usize> = Vec::new();
    let mut i: usize = 0;
    while i < v.len()
        invariant
            i <= v@.len(),
            out@ == v@.subrange(0, i as int),
        decreases v@.len() - i,
    {
        out.push(v[i]);
        proof {
            assert(out@ =~= v@.subrange(0, i + 1));
        }
        i = i + 1;
    }
    proof {
        assert(out@ =~= v@);
    }
    out
}

/// Drops duplicate lookup operators, keeping first occurrences.
pub fn dedup_lookups(v: &Vec<LookupOp>) -> (r: Vec<LookupOp>)
    ensures
        forall|a: int, b: int| 0 <= a < b < r@.len() ==> r@[a] != r@[b],
        forall|op: LookupOp| r@.contains(op) <==> v@.contains(op),
{
    let mut out: Vec<LookupOp> = Vec::new();
    let mut i: usize = 0;
    while i < v.len()
        invariant
            i <= v@.len(),
            forall|a: int, b: int| 0 <= a < b < out@.len() ==> out@[a] != out@[b],
            forall|op: LookupOp| out@.contains(op) <==> v@.subrange(0, i as int).contains(op),
        decreases v@.len() - i,
    {
        let item = v[i];
        let mut seen = false;
        let mut j: usize = 0;
        while j < out.len()
            invariant
                j <= out@.len(),
                seen == exists|k: int| 0 <= k < j && out@[k] == item,
            decreases out@.len() - j,
        {
            if out[j] == item {
                seen = true;
            }
            j = j + 1;
        }
        let ghost pre = out@;
        if !seen {
            out.push(item);
        }
        proof {
            let sub = v@.subrange(0, i + 1);
            assert(sub.drop_last() =~= v@.subrange(0, i as int));
            assert(sub.last() == v@[i as int]);
            assert forall|op: LookupOp| out@.contains(op) <==> sub.contains(op) by {
                if sub.contains(op) {
                    let k = choose|k: int| 0 <= k < sub.len() && sub[k] == op;
                    if k < sub.len() - 1 {
                        assert(v@.subrange(0, i as int)[k] == op);
                        assert(v@.subrange(0, i as int).contains(op));
                        assert(pre.contains(op));
                        if !seen {
                            let kk = choose|kk: int| 0 <= kk < pre.len() && pre[kk] == op;
                            assert(out@[kk] == op);
                        }
                        assert(out@.contains(op));
                    } else {
                        assert(op == item);
                        if seen {
                            assert(out@.contains(op));
                        } else {
                            assert(out@[out@.len() - 1] == item);
                            assert(out@.contains(op));
                        }
                    }
                }
                if out@.contains(op) {
                    let k = choose|k: int| 0 <= k < out@.len() && out@[k] == op;
                    if k < pre.len() {
                        assert(pre[k] == op);
                        assert(pre.contains(op));
                        assert(v@.subrange(0, i as int).contains(op));
                        let kk = choose|kk: int|
                            0 <= kk < i && v@.subrange(0, i as int)[kk] == op;
                        assert(sub[kk] == op);
                        assert(sub.contains(op));
                    } else {
                        assert(op == item);
                        assert(sub[sub.len() - 1] == item);
                        assert(sub.contains(op));
                    }
                }
            }
        }
        i = i + 1;
    }
    proof {
        assert(v@.subrange(0, v@.len() as int) =~= v@);
    }
    out
}

} // verus!
