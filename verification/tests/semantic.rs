use winx_code_agent::semantic::analyzer::{
    LineageEdge, LineageEdgeType, LineageGraph, LineageNode, LineageNodeType, SemanticAnalyzer,
};
use winx_code_agent::semantic::mdl::{
    mdl_format, Column, DataType, MdlFormat, Metric, Model, Relationship, RelationshipType,
    TableReference, WinxMDL,
};
use winx_code_agent::semantic::SemanticContext;

fn model(name: &str) -> Model {
    Model {
        name: name.to_string(),
        columns: vec![Column {
            name: "id".to_string(),
            data_type: DataType::Array(Box::new(DataType::Integer)),
            description: None,
            nullable: false,
            primary_key: true,
        }],
        table_reference: TableReference { catalog: None, schema: Some("s".to_string()), table: name.to_string() },
        primary_key: Some("id".to_string()),
        calculated_fields: vec![],
        description: None,
    }
}

fn rel(name: &str, from: &str, to: &str) -> Relationship {
    Relationship {
        name: name.to_string(),
        from_model: from.to_string(),
        from_column: "id".to_string(),
        to_model: to.to_string(),
        to_column: "id".to_string(),
        relationship_type: RelationshipType::OneToMany,
    }
}

fn metric(name: &str, base: Option<&str>) -> Metric {
    Metric {
        name: name.to_string(),
        expression: "sum(x)".to_string(),
        description: None,
        base_model: base.map(|b| b.to_string()),
        aggregation: None,
        filters: vec![],
    }
}

fn other_message(e: winx_code_agent::error::WinxError) -> String {
    e.to_text().unwrap()
}

#[test]
fn test_mdl_validate_reports_first_problem() {
    let mut mdl = WinxMDL::new();
    mdl.models.push(model("orders"));
    mdl.models.push(model("customers"));
    mdl.relationships.push(rel("r1", "orders", "customers"));
    mdl.metrics.push(metric("revenue", Some("orders")));
    assert!(mdl.validate().is_ok());

    mdl.relationships.push(rel("r2", "orders", "items"));
    assert_eq!(
        other_message(mdl.validate().unwrap_err()),
        "Relationship 'r2' references non-existent model: items"
    );
    mdl.relationships.pop();
    mdl.metrics.push(metric("stock", Some("warehouse")));
    assert_eq!(
        other_message(mdl.validate().unwrap_err()),
        "Metric 'stock' references non-existent model: warehouse"
    );
    mdl.models.push(model("orders"));
    assert_eq!(other_message(mdl.validate().unwrap_err()), "Duplicate model name: orders");
}

#[test]
fn test_mdl_lookups() {
    let mut mdl = WinxMDL::default();
    mdl.models.push(model("a"));
    mdl.models.push(model("b"));
    mdl.relationships.push(rel("ab", "a", "b"));
    mdl.relationships.push(rel("bc", "b", "c"));
    mdl.relationships.push(rel("cd", "c", "d"));
    assert_eq!(mdl.get_model("b").unwrap().name, "b");
    assert!(mdl.get_model("z").is_none());
    let rels = mdl.get_relationships_for_model("b");
    assert_eq!(rels.len(), 2);
    assert_eq!(rels[0].name, "ab");
    assert_eq!(rels[1].name, "bc");
}

#[test]
fn test_mdl_format_by_extension() {
    assert_eq!(mdl_format("json").unwrap(), MdlFormat::Json);
    assert_eq!(mdl_format("yml").unwrap(), MdlFormat::Yaml);
    assert_eq!(mdl_format("yaml").unwrap(), MdlFormat::Yaml);
    assert_eq!(
        mdl_format("toml").unwrap_err().to_text().unwrap(),
        "Invalid argument: Unsupported MDL format: toml"
    );
}

#[test]
fn test_context_from_mdl_and_related_models() {
    let mut mdl = WinxMDL::new();
    mdl.models.push(model("a"));
    mdl.models.push(model("b"));
    mdl.models.push(model("c"));
    mdl.relationships.push(rel("ab", "a", "b"));
    mdl.relationships.push(rel("ca", "c", "a"));
    mdl.relationships.push(rel("ax", "a", "x"));
    let ctx = SemanticContext::from_mdl(&mdl).unwrap();
    assert_eq!(ctx.models.len(), 3);
    let related = ctx.get_related_models("a");
    assert_eq!(related.len(), 2);
    assert_eq!(related[0].name, "b");
    assert_eq!(related[1].name, "c");
    assert_eq!(
        other_message(ctx.validate().unwrap_err()),
        "Relationship references non-existent model: x"
    );
}

#[test]
fn test_context_validate_and_later_model_wins() {
    let mut ctx = SemanticContext::default();
    ctx.models.push(model("a"));
    let mut second = model("a");
    second.description = Some("newer".to_string());
    ctx.models.push(second);
    assert_eq!(ctx.get_model("a").unwrap().description.as_deref(), Some("newer"));
    ctx.metrics.push(metric("m", None));
    assert!(ctx.validate().is_ok());
    ctx.metrics.push(metric("n", Some("q")));
    assert_eq!(
        other_message(ctx.validate().unwrap_err()),
        "Metric 'n' references non-existent model: q"
    );
}

#[test]
fn test_lineage_graph() {
    let mut g = LineageGraph::new();
    g.add_node(LineageNode { id: "1".to_string(), name: "t".to_string(), node_type: LineageNodeType::Table });
    g.add_node(LineageNode { id: "2".to_string(), name: "c".to_string(), node_type: LineageNodeType::Column });
    g.add_edge(LineageEdge { from_id: "1".to_string(), to_id: "2".to_string(), edge_type: LineageEdgeType::DerivedFrom });
    assert_eq!(g.nodes.len(), 2);
    assert_eq!(g.edges.len(), 1);
    assert_eq!(LineageGraph::default().nodes.len(), 0);
}

#[test]
fn the_analyzer_passes_queries_through() {
    let mut analyzer = SemanticAnalyzer::new("main".to_string(), "public".to_string());
    assert!(analyzer.set_context(SemanticContext::new()).is_ok());
    let sql = "SELECT revenue FROM orders";
    assert_eq!(analyzer.analyze_sql(sql).unwrap(), sql);
    assert_eq!(analyzer.transform_to_semantic_sql(sql).unwrap(), sql);
    assert_eq!(analyzer.expand_metrics(sql).unwrap(), sql);
    assert!(analyzer.validate_query(sql).unwrap().is_empty());
    let lineage = analyzer.build_lineage(sql).unwrap();
    assert!(lineage.nodes.is_empty() && lineage.edges.is_empty());
}
