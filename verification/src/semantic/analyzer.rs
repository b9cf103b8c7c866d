//! Data lineage: which tables, columns and metrics a result derives from,
//! and the analyzer that works on SQL with a semantic context.
use vstd::prelude::*;
use crate::error::WinxResult;
use crate::semantic::SemanticContext;
use crate::text::owned;

verus! {

/// Nodes and the edges between them, in the order they were added.
#[derive(Debug)]
pub struct LineageGraph {
    pub nodes: Vec<LineageNode>,
    pub edges: Vec<LineageEdge>,
}

impl LineageGraph {
    pub fn new() -> (r: Self)
        ensures
            r.nodes@.len() == 0,
            r.edges@.len() == 0,
    {
        LineageGraph { nodes: Vec::new(), edges: Vec::new() }
    }

    pub fn add_node(&mut self, node: LineageNode)
        ensures
            final(self).nodes@ == old(self).nodes@.push(node),
            final(self).edges@ == old(self).edges@,
    {
        self.nodes.push(node);
    }

    pub fn add_edge(&mut self, edge: LineageEdge)
        ensures
            final(self).edges@ == old(self).edges@.push(edge),
            final(self).nodes@ == old(self).nodes@,
    {
        self.edges.push(edge);
    }
}

impl Default for LineageGraph {
    fn default() -> (r: Self)
        ensures
            r.nodes@.len() == 0,
            r.edges@.len() == 0,
    {
        Self::new()
    }
}

#[derive(Debug)]
pub struct LineageNode {
    pub id: String,
    pub name: String,
    pub node_type: LineageNodeType,
}

#[derive(Debug, Clone, Copy, PartialEq, Eq, Structural)]
pub enum LineageNodeType {
    Table,
    Column,
    Metric,
    View,
    Transform,
}

#[derive(Debug)]
pub struct LineageEdge {
    pub from_id: String,
    pub to_id: String,
    pub edge_type: LineageEdgeType,
}

#[derive(Debug, Clone, Copy, PartialEq, Eq, Structural)]
pub enum LineageEdgeType {
    DerivedFrom,
    Transform,
    Join,
    Filter,
}

#[derive(Debug)]
pub struct ValidationIssue {
    pub severity: ValidationSeverity,
    pub message: String,
    pub location: Option<SourceLocation>,
}

#[derive(Debug, Clone, Copy, PartialEq, Eq, Structural)]
pub enum ValidationSeverity {
    Error,
    Warning,
    Info,
}

#[derive(Debug, Clone, Copy, PartialEq, Eq, Structural)]
pub struct SourceLocation {
    pub line: usize,
    pub column: usize,
}


/// Works on SQL queries of a catalog and schema with a semantic context.
/// The analyses pass the query through as it is: none rewrites or checks
/// it yet.
#[derive(Debug)]
pub struct SemanticAnalyzer {
    catalog: String,
    schema: String,
    context: SemanticContext,
}

impl SemanticAnalyzer {
    pub closed spec fn catalog(self) -> Seq<char> {
        self.catalog@
    }

    pub closed spec fn schema(self) -> Seq<char> {
        self.schema@
    }

    /// The semantic context in use.
    pub closed spec fn context(self) -> SemanticContext {
        self.context
    }

    /// An analyzer for `catalog` and `schema`, with an empty context.
    pub fn new(catalog: String, schema: String) -> (r: Self)
        ensures
            r.catalog() == catalog@,
            r.schema() == schema@,
            r.context().models@.len() == 0,
            r.context().relationships@.len() == 0,
            r.context().metrics@.len() == 0,
            r.context().views@.len() == 0,
    {
        SemanticAnalyzer { catalog, schema, context: SemanticContext::new() }
    }

    /// Puts `context` in use.
    pub fn set_context(&mut self, context: SemanticContext) -> (r: WinxResult<()>)
        ensures
            r is Ok,
            final(self).context() == context,
            final(self).catalog() == old(self).catalog(),
            final(self).schema() == old(self).schema(),
    {
        self.context = context;
        Ok(())
    }

    /// The query after analysis: the query as given.
    pub fn analyze_sql(&self, sql: &str) -> (r: WinxResult<String>)
        ensures
            r matches Ok(s) && s@ == sql@,
    {
        Ok(owned(sql))
    }

    /// The lineage of the query's result: an empty graph.
    pub fn build_lineage(&self, sql: &str) -> (r: WinxResult<LineageGraph>)
        ensures
            r matches Ok(g) && g.nodes@.len() == 0 && g.edges@.len() == 0,
    {
        Ok(LineageGraph::new())
    }

    /// The query in terms of the context's models: the query as given.
    pub fn transform_to_semantic_sql(&self, sql: &str) -> (r: WinxResult<String>)
        ensures
            r matches Ok(s) && s@ == sql@,
    {
        Ok(owned(sql))
    }

    /// The query with its metrics written out: the query as given.
    pub fn expand_metrics(&self, sql: &str) -> (r: WinxResult<String>)
        ensures
            r matches Ok(s) && s@ == sql@,
    {
        Ok(owned(sql))
    }

    /// What is wrong with the query against the context: nothing found.
    pub fn validate_query(&self, sql: &str) -> (r: WinxResult<Vec<ValidationIssue>>)
        ensures
            r matches Ok(v) && v@.len() == 0,
    {
        Ok(Vec::new())
    }
}

} // verus!
