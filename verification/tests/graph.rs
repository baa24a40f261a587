use particelle::graph::{fixed_chain, GraphCompileError, GraphNode, M0GraphSpec};

fn factory_chain() -> [GraphNode; 6] {
    [
        GraphNode::Wavetable,
        GraphNode::ModalBody,
        GraphNode::Filter,
        GraphNode::Delay,
        GraphNode::DiffuseReverb,
        GraphNode::Limiter,
    ]
}

#[test]
fn factory_graph_compiles() {
    assert_eq!(
        M0GraphSpec::default().compile().unwrap().nodes(),
        factory_chain()
    );
}

#[test]
fn reordered_graph_is_rejected() {
    let mut spec = M0GraphSpec::default();
    spec.nodes.swap(0, 1);
    assert_eq!(spec.compile(), Err(GraphCompileError::UnsupportedTopology));
}

#[test]
fn fixed_chain_is_the_signal_order() {
    assert_eq!(fixed_chain(), factory_chain());
}

#[test]
fn truncated_graph_is_rejected() {
    let mut spec = M0GraphSpec::default();
    spec.nodes.pop();
    assert_eq!(spec.compile(), Err(GraphCompileError::UnsupportedTopology));
}

#[test]
fn extended_graph_is_rejected() {
    let mut spec = M0GraphSpec::default();
    spec.nodes.push(GraphNode::Limiter);
    assert_eq!(spec.compile(), Err(GraphCompileError::UnsupportedTopology));
}

#[test]
fn empty_graph_is_rejected() {
    let spec = M0GraphSpec { nodes: vec![] };
    assert_eq!(spec.compile(), Err(GraphCompileError::UnsupportedTopology));
}

#[test]
fn rebuilt_fixed_chain_compiles() {
    let spec = M0GraphSpec { nodes: factory_chain().to_vec() };
    let compiled = spec.compile().unwrap();
    assert_eq!(compiled.nodes().len(), 6);
    assert_eq!(compiled.nodes()[5], GraphNode::Limiter);
}

#[test]
fn compile_error_has_a_message() {
    assert_eq!(
        GraphCompileError::UnsupportedTopology.message(),
        "M0 only supports its fixed, realtime-qualified signal topology"
    );
}

#[test]
fn cloned_graph_keeps_the_fixed_chain() {
    let graph = M0GraphSpec::default().compile().unwrap();
    let copy = graph.clone();
    assert_eq!(copy.nodes(), factory_chain());
    assert_eq!(copy, graph);
}
