use ezkl_lib::graph::{Mode, Model, Node, NodeType, ParsedNodes, RunArgs, VarVisibility, Visibility};
use ezkl_lib::val::{ValTensor, ValType};
use ezkl_lib::lookup::LookupOp;
use ezkl_lib::ops::{Input, OpKind, PolyOp, Tolerance};
use ezkl_lib::tensor::Tensor;

fn run_args() -> RunArgs {
    RunArgs {
        scale: 7,
        bits: 16,
        logrows: 17,
        batch_size: 1,
        pack_base: 1,
        tolerance: Tolerance::Abs { val: 0 },
        public_inputs: false,
        public_outputs: true,
        public_params: false,
        allocated_constraints: None,
    }
}

fn relu_model() -> Model {
    let n0 = Node {
        opkind: OpKind::Input(Input),
        out_scale: 7,
        inputs: vec![],
        out_dims: vec![2, 3],
        idx: 0,
    };
    let n1 = Node {
        opkind: OpKind::Lookup(LookupOp::ReLU { scale: 128 }),
        out_scale: 7,
        inputs: vec![0],
        out_dims: vec![2, 3],
        idx: 1,
    };
    let graph = ParsedNodes {
        nodes: vec![NodeType::Node(n0), NodeType::Node(n1)],
        inputs: vec![0],
        outputs: vec![1],
    };
    Model {
        graph,
        run_args: run_args(),
        mode: Mode::Mock,
        visibility: VarVisibility {
            input: Visibility::Private,
            params: Visibility::Private,
            output: Visibility::Public,
        },
    }
}

#[test]
fn forward_pass_over_graph() {
    let model = relu_model();
    let input = Tensor::<i128>::new(Some(&[-256, 0, 192, 13, 0, 384]), &[6]).unwrap();
    let fr = model.forward(&vec![input]).unwrap();
    assert_eq!(fr.outputs.len(), 1);
    assert_eq!(fr.outputs[0].as_slice(), &[0, 0, 2, 0, 0, 3][..]);
    assert_eq!(fr.outputs[0].dims(), &[2, 3]);
    assert_eq!(fr.max_lookup_inputs, 384);
}

#[test]
fn layout_runs_agree() {
    let model = relu_model();
    let input = Tensor::<i128>::new(Some(&[-256, 0, 192, 13, 0, 384]), &[2, 3]).unwrap();
    let run1 = model.layout(&vec![input.clone()]).unwrap();
    let run2 = model.layout(&vec![input]).unwrap();
    assert_eq!(run1.final_offset, run2.final_offset);
    assert_eq!(run1.outputs[0], run2.outputs[0]);
    assert_eq!(run1.max_lookup_inputs, run2.max_lookup_inputs);
}

#[test]
fn dummy_layout_matches_real_offset() {
    let model = relu_model();
    let num_constraints = model.dummy_layout(&vec![vec![2, 3]]);
    // One row per rectifier output element, one per public output
    // binding.
    assert_eq!(num_constraints, 12);
    let input = Tensor::<i128>::new(Some(&[-256, 0, 192, 13, 0, 384]), &[2, 3]).unwrap();
    let run = model.layout(&vec![input]).unwrap();
    assert_eq!(run.final_offset, num_constraints);
}

#[test]
fn gen_params_collects_lookups() {
    let model = relu_model();
    let params = model.gen_params(ezkl_lib::graph::CheckMode::Safe);
    assert_eq!(params.num_constraints, 12);
    assert_eq!(params.required_lookups, vec![LookupOp::ReLU { scale: 128 }]);
    assert_eq!(params.instance_shapes.len(), 1);
    assert_eq!(params.instance_shapes[0], vec![2, 3]);
}

#[test]
fn graph_shape_and_scale_getters() {
    let model = relu_model();
    assert_eq!(model.graph.num_inputs(), 1);
    assert_eq!(model.graph.num_outputs(), 1);
    assert_eq!(model.graph.input_shapes(), vec![vec![2, 3]]);
    assert_eq!(model.graph.output_shapes(), vec![vec![2, 3]]);
    assert_eq!(model.graph.get_output_scales(), vec![7]);
}

#[test]
fn forward_with_add_graph() {
    // Two inputs at scales (7, 5); the loader's wrapper computes
    // a + 4 * b at the common scale.
    let n0 = Node {
        opkind: OpKind::Input(Input),
        out_scale: 7,
        inputs: vec![],
        out_dims: vec![2],
        idx: 0,
    };
    let n1 = Node {
        opkind: OpKind::Input(Input),
        out_scale: 5,
        inputs: vec![],
        out_dims: vec![2],
        idx: 1,
    };
    let add = ezkl_lib::graph::homogenize_input_scales(
        OpKind::Poly(PolyOp::Add),
        &vec![7u32, 5u32],
    );
    let n2 = Node {
        opkind: add,
        out_scale: 7,
        inputs: vec![0, 1],
        out_dims: vec![2],
        idx: 2,
    };
    let graph = ParsedNodes {
        nodes: vec![NodeType::Node(n0), NodeType::Node(n1), NodeType::Node(n2)],
        inputs: vec![0, 1],
        outputs: vec![2],
    };
    let model = Model {
        graph,
        run_args: run_args(),
        mode: Mode::Mock,
        visibility: VarVisibility {
            input: Visibility::Private,
            params: Visibility::Private,
            output: Visibility::Public,
        },
    };
    let a = Tensor::<i128>::new(Some(&[10, -3]), &[2]).unwrap();
    let b = Tensor::<i128>::new(Some(&[5, 2]), &[2]).unwrap();
    let fr = model.forward(&vec![a, b]).unwrap();
    assert_eq!(fr.outputs[0].as_slice(), &[30, 5][..]);
}

#[test]
fn val_tensor_round_trips() {
    let t = Tensor::<ValType>::new(
        Some(&[ValType::Value(3), ValType::Constant(-4), ValType::PrevAssigned(9)]),
        &[3],
    )
    .unwrap();
    let mut v = ValTensor::from_tensor(t);
    assert_eq!(v.scale(), 1);
    v.set_scale(7);
    assert_eq!(v.scale(), 7);
    assert_eq!(v.dims(), &vec![3]);
    assert_eq!(v.len(), 3);
    assert_eq!(v.get_int_evals().unwrap(), vec![3, -4, 9]);
    let ints = v.get_inner().unwrap();
    assert_eq!(ints.as_slice(), &[3, -4, 9][..]);
    v.reshape(&[3, 1]).unwrap();
    assert_eq!(v.dims(), &vec![3, 1]);
    v.flatten();
    assert_eq!(v.dims(), &vec![3]);
    let mut inst = ValTensor::new_instance(0, vec![2, 2], 7);
    assert_eq!(inst.get_int_evals().unwrap_err(), ezkl_lib::tensor::TensorError::WrongMethod);
    inst.reshape(&[4]).unwrap();
    assert_eq!(inst.dims(), &vec![4]);
    assert_eq!(inst.len(), 4);
}

#[test]
fn nested_subgraph_forward() {
    let inner = relu_model();
    let n0 = Node {
        opkind: OpKind::Input(Input),
        out_scale: 7,
        inputs: vec![],
        out_dims: vec![2, 3],
        idx: 0,
    };
    let sub = NodeType::SubGraph {
        model: Box::new(inner),
        inputs: vec![0],
        idx: 1,
    };
    let graph = ParsedNodes {
        nodes: vec![NodeType::Node(n0), sub],
        inputs: vec![0],
        outputs: vec![1],
    };
    let model = Model {
        graph,
        run_args: run_args(),
        mode: Mode::Mock,
        visibility: VarVisibility {
            input: Visibility::Private,
            params: Visibility::Private,
            output: Visibility::Public,
        },
    };
    let input = Tensor::<i128>::new(Some(&[-256, 0, 192, 13, 0, 384]), &[2, 3]).unwrap();
    let fr = model.forward(&vec![input]).unwrap();
    // The subgraph's rectified output comes back flattened.
    assert_eq!(fr.outputs[0].as_slice(), &[0, 0, 2, 0, 0, 3][..]);
    assert_eq!(fr.outputs[0].dims(), &[6]);
    assert_eq!(fr.max_lookup_inputs, 384);
    assert_eq!(model.graph.nodes[1].as_str(), "SUBGRAPH");
    assert_eq!(model.graph.nodes[1].required_lookups().len(), 1);
}

#[test]
fn node_forward_step() {
    let model = relu_model();
    let input = Tensor::<i128>::new(Some(&[-256, 0, 192, 13, 0, 384]), &[2, 3]).unwrap();
    let out = model.graph.nodes[1].f(&vec![input]).unwrap();
    assert_eq!(out.as_slice(), &[0, 0, 2, 0, 0, 3][..]);
    assert_eq!(model.graph.nodes[1].as_str(), "RELU");
    assert!(model.graph.nodes[0].is_input());
    assert_eq!(model.graph.nodes[1].idx(), 1);
    assert_eq!(model.graph.nodes[1].inputs(), vec![0]);
    assert_eq!(model.graph.nodes[1].out_scales(), vec![7]);
}
