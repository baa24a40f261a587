//! Control-thread graph descriptions for the fixed M0 signal chain.

use vstd::prelude::*;

verus! {

/// Nodes available in the M0 fixed graph. Their order is intentional.
#[derive(Debug, Clone, Copy, PartialEq, Eq, Structural)]
pub enum GraphNode {
    Wavetable,
    ModalBody,
    Filter,
    Delay,
    DiffuseReverb,
    Limiter,
}

/// The only topology M0 accepts, in signal order.
pub open spec fn spec_fixed_chain() -> Seq<GraphNode> {
    seq![
        GraphNode::Wavetable,
        GraphNode::ModalBody,
        GraphNode::Filter,
        GraphNode::Delay,
        GraphNode::DiffuseReverb,
        GraphNode::Limiter,
    ]
}

/// The fixed, realtime-qualified chain as an array.
pub fn fixed_chain() -> (chain: [GraphNode; 6])
    ensures
        chain@ == spec_fixed_chain(),
{
    let chain = [
        GraphNode::Wavetable,
        GraphNode::ModalBody,
        GraphNode::Filter,
        GraphNode::Delay,
        GraphNode::DiffuseReverb,
        GraphNode::Limiter,
    ];
    assert(chain@ =~= spec_fixed_chain());
    chain
}

/// A declarative graph submitted on the control thread.
#[derive(Debug, Clone)]
pub struct M0GraphSpec {
    pub nodes: Vec<GraphNode>,
}

impl Default for M0GraphSpec {
    fn default() -> (spec: Self)
        ensures
            spec.nodes@ == spec_fixed_chain(),
    {
        let chain = fixed_chain();
        let mut nodes: Vec<GraphNode> = Vec::new();
        let mut i: usize = 0;
        while i < 6
            invariant
                i <= 6,
                chain@ == spec_fixed_chain(),
                nodes@ == spec_fixed_chain().subrange(0, i as int),
            decreases 6 - i,
        {
            nodes.push(chain[i]);
            i = i + 1;
            assert(nodes@ =~= spec_fixed_chain().subrange(0, i as int));
        }
        assert(spec_fixed_chain().subrange(0, 6) =~= spec_fixed_chain());
        M0GraphSpec { nodes }
    }
}

/// Immutable descriptor exposed for host inspection and future graph tooling.
/// Every compiled graph holds the fixed chain.
#[derive(Debug, PartialEq, Eq)]
pub struct CompiledGraph {
    nodes: [GraphNode; 6],
}

impl CompiledGraph {
    /// A compiled graph always holds the fixed chain.
    #[verifier::type_invariant]
    spec fn holds_fixed_chain(self) -> bool {
        self.nodes@ == spec_fixed_chain()
    }
}

impl Clone for CompiledGraph {
    fn clone(&self) -> (copy: Self)
        ensures
            copy@ == self@,
    {
        proof {
            use_type_invariant(self);
        }
        CompiledGraph { nodes: self.nodes }
    }
}

impl View for CompiledGraph {
    type V = Seq<GraphNode>;

    closed spec fn view(&self) -> Seq<GraphNode> {
        self.nodes@
    }
}

/// Why a graph could not be compiled.
#[derive(Debug, Clone, Copy, PartialEq, Eq, Structural)]
pub enum GraphCompileError {
    /// M0 only supports its fixed, realtime-qualified signal topology.
    UnsupportedTopology,
}

impl GraphCompileError {
    /// The human-readable description of the error.
    pub fn message(&self) -> (text: &'static str)
        ensures
            text@ == "M0 only supports its fixed, realtime-qualified signal topology"@,
    {
        match self {
            GraphCompileError::UnsupportedTopology =>
                "M0 only supports its fixed, realtime-qualified signal topology",
        }
    }
}

impl M0GraphSpec {
    /// Validates a graph once, before audio starts. The audio thread only sees
    /// the resulting immutable descriptor.
    pub fn compile(&self) -> (result: Result<CompiledGraph, GraphCompileError>)
        ensures
            result is Ok <==> self.nodes@ == spec_fixed_chain(),
            result matches Ok(graph) ==> graph@ == spec_fixed_chain(),
            result matches Err(e) ==> e == GraphCompileError::UnsupportedTopology,
    {
        let chain = fixed_chain();
        if self.nodes.len() != 6 {
            return Err(GraphCompileError::UnsupportedTopology);
        }
        let mut i: usize = 0;
        while i < 6
            invariant
                i <= 6,
                self.nodes@.len() == 6,
                chain@ == spec_fixed_chain(),
                forall|j: int| 0 <= j < i ==> self.nodes@[j] == spec_fixed_chain()[j],
            decreases 6 - i,
        {
            if self.nodes[i] != chain[i] {
                return Err(GraphCompileError::UnsupportedTopology);
            }
            i = i + 1;
        }
        assert(self.nodes@ =~= spec_fixed_chain());
        Ok(CompiledGraph { nodes: chain })
    }
}

impl CompiledGraph {
    /// The nodes of the compiled chain, in signal order: for every compiled
    /// graph, the fixed chain.
    pub fn nodes(&self) -> (nodes: &[GraphNode])
        ensures
            nodes@ == self@,
            nodes@ == spec_fixed_chain(),
    {
        proof {
            use_type_invariant(self);
        }
        self.nodes.as_slice()
    }
}

} // verus!
