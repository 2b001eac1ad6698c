//! The knowledge graph: labelled nodes with unique ids and labelled edges
//! between existing nodes, each list capped by truncation.
use vstd::prelude::*;

verus! {

/// The most nodes the graph keeps.
pub const MAX_NODES: usize = 500;

/// The most edges the graph keeps.
pub const MAX_EDGES: usize = 1000;

pub struct KnowledgeNode {
    pub id: String,
    pub node_type: String,
    pub label: String,
}

pub struct KnowledgeEdge {
    pub source: String,
    pub target: String,
    pub label: String,
}

pub struct KnowledgeGraph {
    pub nodes: Vec<KnowledgeNode>,
    pub edges: Vec<KnowledgeEdge>,
}

/// Why a node or an edge was refused.
#[derive(Clone, Copy, Debug, PartialEq, Eq, Structural)]
pub enum GraphError {
    /// The node id or label is empty.
    EmptyNodeField,
    /// A node with this id exists already.
    DuplicateNode,
    /// The source, target or label of the edge is empty.
    EmptyEdgeField,
    /// The source or the target names no node.
    MissingNode,
}

/// True when some node has this id.
pub open spec fn has_node(nodes: Seq<KnowledgeNode>, id: Seq<char>) -> bool {
    exists|i: int| 0 <= i < nodes.len() && nodes[i].id@ == id
}

/// The first `cap` items of `s`, or all of them when there are no more.
pub open spec fn capped<T>(s: Seq<T>, cap: int) -> Seq<T> {
    if s.len() > cap {
        s.take(cap)
    } else {
        s
    }
}

impl KnowledgeNode {
    pub fn duplicate(&self) -> (r: KnowledgeNode)
        ensures
            r == *self,
    {
        KnowledgeNode {
            id: self.id.clone(),
            node_type: self.node_type.clone(),
            label: self.label.clone(),
        }
    }
}

impl KnowledgeEdge {
    pub fn duplicate(&self) -> (r: KnowledgeEdge)
        ensures
            r == *self,
    {
        KnowledgeEdge {
            source: self.source.clone(),
            target: self.target.clone(),
            label: self.label.clone(),
        }
    }
}

fn has_node_exec(nodes: &Vec<KnowledgeNode>, id: &String) -> (r: bool)
    ensures
        r == has_node(nodes@, id@),
{
    let mut i: usize = 0;
    while i < nodes.len()
        invariant
            i <= nodes@.len(),
            forall|k: int| 0 <= k < i ==> nodes@[k].id@ != id@,
        decreases nodes@.len() - i,
    {
        if nodes[i].id.eq(id) {
            return true;
        }
        i = i + 1;
    }
    false
}

impl KnowledgeGraph {
    pub fn new() -> (r: KnowledgeGraph)
        ensures
            r.nodes@.len() == 0,
            r.edges@.len() == 0,
    {
        KnowledgeGraph { nodes: Vec::new(), edges: Vec::new() }
    }

    /// Adds a node. Refused, with the graph unchanged, when the id or label is
    /// empty or the id is taken. Past the cap the node list is cut to its first
    /// `MAX_NODES` nodes, which can drop the new node itself.
    pub fn add_knowledge_node(&mut self, node_id: String, node_type: String, label: String) -> (r:
        Result<KnowledgeNode, GraphError>)
        ensures
            node_id@.len() == 0 || label@.len() == 0 ==> r == Err::<KnowledgeNode, GraphError>(
                GraphError::EmptyNodeField,
            ),
            node_id@.len() > 0 && label@.len() > 0 && has_node(old(self).nodes@, node_id@) ==> r
                == Err::<KnowledgeNode, GraphError>(GraphError::DuplicateNode),
            r is Err ==> final(self).nodes@ == old(self).nodes@ && final(self).edges@ == old(
                self,
            ).edges@,
            node_id@.len() > 0 && label@.len() > 0 && !has_node(old(self).nodes@, node_id@) ==> {
                &&& r matches Ok(n)
                &&& n.id == node_id && n.node_type == node_type && n.label == label
                &&& final(self).nodes@ == capped(old(self).nodes@.push(n), MAX_NODES as int)
                &&& final(self).edges@ == old(self).edges@
            },
    {
        if node_id.as_str().is_empty() || label.as_str().is_empty() {
            return Err(GraphError::EmptyNodeField);
        }
        if has_node_exec(&self.nodes, &node_id) {
            return Err(GraphError::DuplicateNode);
        }
        let node = KnowledgeNode { id: node_id, node_type, label };
        self.nodes.push(node.duplicate());
        if self.nodes.len() > MAX_NODES {
            self.nodes.truncate(MAX_NODES);
        }
        Ok(node)
    }

    /// Adds an edge between two existing nodes. Refused, with the graph
    /// unchanged, when a field is empty or either end names no node. Past the
    /// cap the edge list is cut to its first `MAX_EDGES` edges.
    pub fn add_knowledge_edge(&mut self, source: String, target: String, label: String) -> (r:
        Result<KnowledgeEdge, GraphError>)
        ensures
            source@.len() == 0 || target@.len() == 0 || label@.len() == 0 ==> r == Err::<
                KnowledgeEdge,
                GraphError,
            >(GraphError::EmptyEdgeField),
            source@.len() > 0 && target@.len() > 0 && label@.len() > 0 && !(has_node(
                old(self).nodes@,
                source@,
            ) && has_node(old(self).nodes@, target@)) ==> r == Err::<KnowledgeEdge, GraphError>(
                GraphError::MissingNode,
            ),
            r is Err ==> final(self).nodes@ == old(self).nodes@ && final(self).edges@ == old(
                self,
            ).edges@,
            source@.len() > 0 && target@.len() > 0 && label@.len() > 0 && has_node(
                old(self).nodes@,
                source@,
            ) && has_node(old(self).nodes@, target@) ==> {
                &&& r matches Ok(e)
                &&& e.source == source && e.target == target && e.label == label
                &&& final(self).edges@ == capped(old(self).edges@.push(e), MAX_EDGES as int)
                &&& final(self).nodes@ == old(self).nodes@
            },
    {
        if source.as_str().is_empty() || target.as_str().is_empty() || label.as_str().is_empty() {
            return Err(GraphError::EmptyEdgeField);
        }
        let source_exists = has_node_exec(&self.nodes, &source);
        let target_exists = has_node_exec(&self.nodes, &target);
        if !source_exists || !target_exists {
            return Err(GraphError::MissingNode);
        }
        let edge = KnowledgeEdge { source, target, label };
        self.edges.push(edge.duplicate());
        if self.edges.len() > MAX_EDGES {
            self.edges.truncate(MAX_EDGES);
        }
        Ok(edge)
    }
}

} // verus!
