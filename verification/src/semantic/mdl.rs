//! The Modeling Definition Language: models, relationships, metrics and
//! views, and the checks that tie them together.
use vstd::prelude::*;
use crate::error::WinxError;
use crate::text::{from_chars, push_str, str_eq};

verus! {

/// `Option<String>::clone`, field by field.
pub fn clone_opt_text(s: &Option<String>) -> (r: Option<String>)
    ensures
        r == *s,
{
    match s {
        Some(t) => Some(t.clone()),
        None => None,
    }
}

/// Modeling Definition Language (MDL) representation
#[derive(Debug, Clone)]
pub struct WinxMDL {
    pub models: Vec<Model>,
    pub relationships: Vec<Relationship>,
    pub metrics: Vec<Metric>,
    pub views: Vec<MdlView>,
}

#[derive(Debug)]
pub struct Model {
    pub name: String,
    pub columns: Vec<Column>,
    pub table_reference: TableReference,
    pub primary_key: Option<String>,
    pub calculated_fields: Vec<CalculatedField>,
    pub description: Option<String>,
}

#[derive(Debug)]
pub struct Column {
    pub name: String,
    pub data_type: DataType,
    pub description: Option<String>,
    pub nullable: bool,
    pub primary_key: bool,
}

#[derive(Debug)]
pub enum DataType {
    String,
    Integer,
    Float,
    Boolean,
    Date,
    Timestamp,
    Json,
    Array(Box<DataType>),
    Custom(String),
}

#[derive(Debug)]
pub struct TableReference {
    pub catalog: Option<String>,
    pub schema: Option<String>,
    pub table: String,
}

#[derive(Debug)]
pub struct CalculatedField {
    pub name: String,
    pub expression: String,
    pub data_type: DataType,
    pub description: Option<String>,
}

#[derive(Debug)]
pub struct Relationship {
    pub name: String,
    pub from_model: String,
    pub from_column: String,
    pub to_model: String,
    pub to_column: String,
    pub relationship_type: RelationshipType,
}

#[derive(Debug, Clone, Copy, PartialEq, Eq, Structural)]
pub enum RelationshipType {
    OneToOne,
    OneToMany,
    ManyToOne,
    ManyToMany,
}

#[derive(Debug)]
pub struct Metric {
    pub name: String,
    pub expression: String,
    pub description: Option<String>,
    pub base_model: Option<String>,
    pub aggregation: Option<Aggregation>,
    pub filters: Vec<FilterExpression>,
}

#[derive(Debug)]
pub enum Aggregation {
    Sum,
    Average,
    Count,
    Min,
    Max,
    DistinctCount,
    Custom(String),
}

#[derive(Debug)]
pub struct FilterExpression {
    pub expression: String,
}

/// A named view over the models.
#[derive(Debug)]
pub struct MdlView {
    pub name: String,
    pub base_query: String,
    pub description: Option<String>,
    pub columns: Vec<ViewColumn>,
}

#[derive(Debug)]
pub struct ViewColumn {
    pub name: String,
    pub data_type: DataType,
    pub expression: String,
}

impl Clone for DataType {
    fn clone(&self) -> (r: Self)
        ensures
            r == *self,
        decreases self,
    {
        match self {
            DataType::String => DataType::String,
            DataType::Integer => DataType::Integer,
            DataType::Float => DataType::Float,
            DataType::Boolean => DataType::Boolean,
            DataType::Date => DataType::Date,
            DataType::Timestamp => DataType::Timestamp,
            DataType::Json => DataType::Json,
            DataType::Array(inner) => DataType::Array(Box::new((&**inner).clone())),
            DataType::Custom(s) => DataType::Custom(s.clone()),
        }
    }
}

impl Clone for Column {
    fn clone(&self) -> (r: Self)
        ensures
            r == *self,
    {
        Column {
            name: self.name.clone(),
            data_type: self.data_type.clone(),
            description: clone_opt_text(&self.description),
            nullable: self.nullable,
            primary_key: self.primary_key,
        }
    }
}

impl Clone for TableReference {
    fn clone(&self) -> (r: Self)
        ensures
            r == *self,
    {
        TableReference {
            catalog: clone_opt_text(&self.catalog),
            schema: clone_opt_text(&self.schema),
            table: self.table.clone(),
        }
    }
}

impl Clone for CalculatedField {
    fn clone(&self) -> (r: Self)
        ensures
            r == *self,
    {
        CalculatedField {
            name: self.name.clone(),
            expression: self.expression.clone(),
            data_type: self.data_type.clone(),
            description: clone_opt_text(&self.description),
        }
    }
}

impl Model {
    /// `self` holds what `o` holds, field by field.
    pub open spec fn same_as(self, o: Model) -> bool {
        &&& self.name == o.name
        &&& self.columns@ == o.columns@
        &&& self.table_reference == o.table_reference
        &&& self.primary_key == o.primary_key
        &&& self.calculated_fields@ == o.calculated_fields@
        &&& self.description == o.description
    }
}

impl Clone for Model {
    fn clone(&self) -> (r: Self)
        ensures
            r.same_as(*self),
    {
        let columns = self.columns.clone();
        proof {
            assert(columns@ =~= self.columns@);
        }
        let calculated_fields = self.calculated_fields.clone();
        proof {
            assert(calculated_fields@ =~= self.calculated_fields@);
        }
        Model {
            name: self.name.clone(),
            columns,
            table_reference: self.table_reference.clone(),
            primary_key: clone_opt_text(&self.primary_key),
            calculated_fields,
            description: clone_opt_text(&self.description),
        }
    }
}

impl Clone for Relationship {
    fn clone(&self) -> (r: Self)
        ensures
            r == *self,
    {
        Relationship {
            name: self.name.clone(),
            from_model: self.from_model.clone(),
            from_column: self.from_column.clone(),
            to_model: self.to_model.clone(),
            to_column: self.to_column.clone(),
            relationship_type: self.relationship_type,
        }
    }
}

impl Clone for Aggregation {
    fn clone(&self) -> (r: Self)
        ensures
            r == *self,
    {
        match self {
            Aggregation::Sum => Aggregation::Sum,
            Aggregation::Average => Aggregation::Average,
            Aggregation::Count => Aggregation::Count,
            Aggregation::Min => Aggregation::Min,
            Aggregation::Max => Aggregation::Max,
            Aggregation::DistinctCount => Aggregation::DistinctCount,
            Aggregation::Custom(s) => Aggregation::Custom(s.clone()),
        }
    }
}

impl Clone for FilterExpression {
    fn clone(&self) -> (r: Self)
        ensures
            r == *self,
    {
        FilterExpression { expression: self.expression.clone() }
    }
}

impl Metric {
    /// `self` holds what `o` holds, field by field.
    pub open spec fn same_as(self, o: Metric) -> bool {
        &&& self.name == o.name
        &&& self.expression == o.expression
        &&& self.description == o.description
        &&& self.base_model == o.base_model
        &&& self.aggregation == o.aggregation
        &&& self.filters@ == o.filters@
    }
}

impl Clone for Metric {
    fn clone(&self) -> (r: Self)
        ensures
            r.same_as(*self),
    {
        let filters = self.filters.clone();
        proof {
            assert(filters@ =~= self.filters@);
        }
        Metric {
            name: self.name.clone(),
            expression: self.expression.clone(),
            description: clone_opt_text(&self.description),
            base_model: clone_opt_text(&self.base_model),
            aggregation: match &self.aggregation {
                Some(a) => Some(a.clone()),
                None => None,
            },
            filters,
        }
    }
}

impl Clone for ViewColumn {
    fn clone(&self) -> (r: Self)
        ensures
            r == *self,
    {
        ViewColumn {
            name: self.name.clone(),
            data_type: self.data_type.clone(),
            expression: self.expression.clone(),
        }
    }
}

impl MdlView {
    /// `self` holds what `o` holds, field by field.
    pub open spec fn same_as(self, o: MdlView) -> bool {
        &&& self.name == o.name
        &&& self.base_query == o.base_query
        &&& self.description == o.description
        &&& self.columns@ == o.columns@
    }
}

impl Clone for MdlView {
    fn clone(&self) -> (r: Self)
        ensures
            r.same_as(*self),
    {
        let columns = self.columns.clone();
        proof {
            assert(columns@ =~= self.columns@);
        }
        MdlView {
            name: self.name.clone(),
            base_query: self.base_query.clone(),
            description: clone_opt_text(&self.description),
            columns,
        }
    }
}

/// Model `j` has the name of an earlier model.
pub open spec fn repeats_earlier(models: Seq<Model>, j: int) -> bool {
    exists|k: int| 0 <= k < j && (#[trigger] models[k]).name@ == models[j].name@
}

/// Some model of `models` is named `n`.
pub open spec fn names_model(models: Seq<Model>, n: Seq<char>) -> bool {
    exists|i: int| 0 <= i < models.len() && (#[trigger] models[i]).name@ == n
}

/// The first model that repeats an earlier model's name, if any.
pub open spec fn first_duplicate(models: Seq<Model>) -> Option<int> {
    if exists|j: int| 0 <= j < models.len() && #[trigger] repeats_earlier(models, j) {
        Some(
            choose|j: int|
                0 <= j < models.len() && #[trigger] repeats_earlier(models, j) && forall|k: int|
                    0 <= k < j ==> !#[trigger] repeats_earlier(models, k),
        )
    } else {
        None
    }
}

/// A relationship whose ends both name models of `models`.
pub open spec fn relationship_ok(models: Seq<Model>, r: Relationship) -> bool {
    names_model(models, r.from_model@) && names_model(models, r.to_model@)
}

/// A metric with no base model, or one that names a model of `models`.
pub open spec fn metric_ok(models: Seq<Model>, m: Metric) -> bool {
    match m.base_model {
        Some(b) => names_model(models, b@),
        None => true,
    }
}

/// The message for a relationship whose end names no model.
pub open spec fn relationship_message(models: Seq<Model>, r: Relationship) -> Seq<char> {
    "Relationship '"@ + r.name@ + "' references non-existent model: "@ + (if !names_model(
        models,
        r.from_model@,
    ) {
        r.from_model@
    } else {
        r.to_model@
    })
}

/// The message for a metric whose base model names no model.
pub open spec fn metric_message(m: Metric) -> Seq<char> {
    "Metric '"@ + m.name@ + "' references non-existent model: "@ + m.base_model.unwrap()@
}

/// What `WinxMDL::validate` reports: the first duplicate model name; else
/// the first relationship with an unknown end; else the first metric with
/// an unknown base model; else nothing.
pub open spec fn mdl_problem(mdl: WinxMDL) -> Option<Seq<char>> {
    let models = mdl.models@;
    let rels = mdl.relationships@;
    let metrics = mdl.metrics@;
    if first_duplicate(models) is Some {
        Some("Duplicate model name: "@ + models[first_duplicate(models).unwrap()].name@)
    } else if exists|i: int| 0 <= i < rels.len() && !relationship_ok(models, #[trigger] rels[i]) {
        let i = choose|i: int|
            0 <= i < rels.len() && !relationship_ok(models, #[trigger] rels[i]) && forall|k: int|
                0 <= k < i ==> relationship_ok(models, #[trigger] rels[k]);
        Some(relationship_message(models, rels[i]))
    } else if exists|i: int| 0 <= i < metrics.len() && !metric_ok(models, #[trigger] metrics[i]) {
        let i = choose|i: int|
            0 <= i < metrics.len() && !metric_ok(models, #[trigger] metrics[i]) && forall|k: int|
                0 <= k < i ==> metric_ok(models, #[trigger] metrics[k]);
        Some(metric_message(metrics[i]))
    } else {
        None
    }
}

/// The relationships of `rels` that start or end at model `n`, in order.
pub open spec fn touching(rels: Seq<Relationship>, n: Seq<char>) -> Seq<Relationship>
    decreases rels.len(),
{
    if rels.len() == 0 {
        seq![]
    } else if rels.last().from_model@ == n || rels.last().to_model@ == n {
        touching(rels.drop_last(), n).push(rels.last())
    } else {
        touching(rels.drop_last(), n)
    }
}

/// The first model of `models` named `n`, if any.
pub open spec fn first_named(models: Seq<Model>, n: Seq<char>) -> Option<Model> {
    if names_model(models, n) {
        let i = choose|i: int|
            0 <= i < models.len() && (#[trigger] models[i]).name@ == n && forall|k: int|
                0 <= k < i ==> (#[trigger] models[k]).name@ != n;
        Some(models[i])
    } else {
        None
    }
}

/// The file formats an MDL document can be kept in.
#[derive(Debug, Clone, Copy, PartialEq, Eq, Structural)]
pub enum MdlFormat {
    Json,
    Yaml,
}

/// Whether a file of extension `ext` holds an MDL document, and in which
/// format: "json" is JSON, "yaml" and "yml" are YAML, anything else is
/// refused with "Unsupported MDL format: {ext}".
pub fn mdl_format(ext: &str) -> (r: Result<MdlFormat, WinxError>)
    ensures
        ext@ == "json"@ ==> r == Ok::<MdlFormat, WinxError>(MdlFormat::Json),
        (ext@ == "yaml"@ || ext@ == "yml"@) ==> r == Ok::<MdlFormat, WinxError>(MdlFormat::Yaml),
        !(ext@ == "json"@ || ext@ == "yaml"@ || ext@ == "yml"@) ==> (r matches Err(
            WinxError::InvalidArgument { message },
        ) && message@ == "Unsupported MDL format: "@ + ext@),
{
    proof {
        reveal_strlit("json");
        reveal_strlit("yaml");
        reveal_strlit("yml");
        assert("json"@[0] != "yaml"@[0]);
        assert("json"@.len() != "yml"@.len());
    }
    if str_eq(ext, "json") {
        Ok(MdlFormat::Json)
    } else if str_eq(ext, "yaml") || str_eq(ext, "yml") {
        Ok(MdlFormat::Yaml)
    } else {
        let mut v: Vec<char> = Vec::new();
        push_str(&mut v, "Unsupported MDL format: ");
        push_str(&mut v, ext);
        Err(WinxError::InvalidArgument { message: from_chars(v.as_slice()) })
    }
}

fn index_of_model(models: &Vec<Model>, name: &str, upto: usize) -> (r: Option<usize>)
    requires
        upto <= models.len(),
    ensures
        match r {
            Some(i) => i < upto && models@[i as int].name@ == name@ && forall|k: int|
                0 <= k < i ==> (#[trigger] models@[k]).name@ != name@,
            None => forall|k: int| 0 <= k < upto ==> (#[trigger] models@[k]).name@ != name@,
        },
{
    let mut i: usize = 0;
    while i < upto
        invariant
            i <= upto <= models.len(),
            forall|k: int| 0 <= k < i ==> (#[trigger] models@[k]).name@ != name@,
        decreases upto - i,
    {
        if str_eq(models[i].name.as_str(), name) {
            return Some(i);
        }
        i += 1;
    }
    None
}

impl WinxMDL {
    pub fn new() -> (r: Self)
        ensures
            r.models@.len() == 0,
            r.relationships@.len() == 0,
            r.metrics@.len() == 0,
            r.views@.len() == 0,
    {
        WinxMDL { models: Vec::new(), relationships: Vec::new(), metrics: Vec::new(), views: Vec::new() }
    }

    /// Checks that model names are distinct and that every relationship and
    /// metric names existing models; reports the first problem found.
    pub fn validate(&self) -> (r: Result<(), WinxError>)
        ensures
            r is Ok <==> mdl_problem(*self) is None,
            r matches Err(e) ==> (e matches WinxError::Other(m) && Some(m@) == mdl_problem(*self)),
    {
        let ghost models = self.models@;
        // Duplicate model names.
        let mut j: usize = 0;
        while j < self.models.len()
            invariant
                j <= self.models.len(),
                models == self.models@,
                forall|k: int| 0 <= k < j ==> !#[trigger] repeats_earlier(models, k),
            decreases self.models.len() - j,
        {
            match index_of_model(&self.models, self.models[j].name.as_str(), j) {
                Some(k) => {
                    proof {
                        assert(models[k as int].name@ == models[j as int].name@);
                        assert(repeats_earlier(models, j as int));
                        lemma_first_duplicate_is(models, j as int);
                    }
                    let mut v: Vec<char> = Vec::new();
                    push_str(&mut v, "Duplicate model name: ");
                    push_str(&mut v, self.models[j].name.as_str());
                    return Err(WinxError::Other(from_chars(v.as_slice())));
                },
                None => {},
            }
            j += 1;
        }
        proof {
            assert(first_duplicate(models) is None);
        }
        // Relationships.
        let ghost rels = self.relationships@;
        let mut i: usize = 0;
        while i < self.relationships.len()
            invariant
                i <= self.relationships.len(),
                models == self.models@,
                rels == self.relationships@,
                first_duplicate(models) is None,
                forall|k: int| 0 <= k < i ==> relationship_ok(models, #[trigger] rels[k]),
            decreases self.relationships.len() - i,
        {
            let rel = &self.relationships[i];
            let from_ok = index_of_model(&self.models, rel.from_model.as_str(), self.models.len()).is_some();
            let to_ok = index_of_model(&self.models, rel.to_model.as_str(), self.models.len()).is_some();
            proof {
                if from_ok != names_model(models, rel.from_model@) {
                    let k = choose|k: int| 0 <= k < models.len() && (#[trigger] models[k]).name@ == rel.from_model@;
                    assert(false);
                }
                if to_ok != names_model(models, rel.to_model@) {
                    let k = choose|k: int| 0 <= k < models.len() && (#[trigger] models[k]).name@ == rel.to_model@;
                    assert(false);
                }
            }
            if !from_ok || !to_ok {
                let mut v: Vec<char> = Vec::new();
                push_str(&mut v, "Relationship '");
                push_str(&mut v, rel.name.as_str());
                push_str(&mut v, "' references non-existent model: ");
                if !from_ok {
                    push_str(&mut v, rel.from_model.as_str());
                } else {
                    push_str(&mut v, rel.to_model.as_str());
                }
                proof {
                    assert(!relationship_ok(models, rels[i as int]));
                    lemma_first_failing_relationship(models, rels, i as int);
                }
                return Err(WinxError::Other(from_chars(v.as_slice())));
            }
            i += 1;
        }
        // Metrics.
        let ghost metrics = self.metrics@;
        let mut i: usize = 0;
        while i < self.metrics.len()
            invariant
                i <= self.metrics.len(),
                models == self.models@,
                rels == self.relationships@,
                metrics == self.metrics@,
                first_duplicate(models) is None,
                forall|k: int| 0 <= k < rels.len() ==> relationship_ok(models, #[trigger] rels[k]),
                forall|k: int| 0 <= k < i ==> metric_ok(models, #[trigger] metrics[k]),
            decreases self.metrics.len() - i,
        {
            let metric = &self.metrics[i];
            match &metric.base_model {
                Some(b) => {
                    let found = index_of_model(&self.models, b.as_str(), self.models.len()).is_some();
                    proof {
                        if found != names_model(models, b@) {
                            let k = choose|k: int| 0 <= k < models.len() && (#[trigger] models[k]).name@ == b@;
                            assert(false);
                        }
                    }
                    if !found {
                        let mut v: Vec<char> = Vec::new();
                        push_str(&mut v, "Metric '");
                        push_str(&mut v, metric.name.as_str());
                        push_str(&mut v, "' references non-existent model: ");
                        push_str(&mut v, b.as_str());
                        proof {
                            lemma_first_failing_metric(models, metrics, i as int);
                        }
                        return Err(WinxError::Other(from_chars(v.as_slice())));
                    }
                },
                None => {},
            }
            i += 1;
        }
        Ok(())
    }

    /// The first model named `name`.
    pub fn get_model(&self, name: &str) -> (r: Option<&Model>)
        ensures
            match r {
                Some(m) => first_named(self.models@, name@) == Some(*m),
                None => first_named(self.models@, name@) is None,
            },
    {
        match index_of_model(&self.models, name, self.models.len()) {
            Some(i) => {
                proof {
                    lemma_first_named_at(self.models@, name@, i as int);
                }
                Some(&self.models[i])
            },
            None => {
                proof {
                    if names_model(self.models@, name@) {
                        let k = choose|k: int| 0 <= k < self.models@.len() && (#[trigger] self.models@[k]).name@ == name@;
                        assert(false);
                    }
                }
                None
            },
        }
    }

    /// The relationships that start or end at model `model_name`, in order.
    pub fn get_relationships_for_model(&self, model_name: &str) -> (r: Vec<&Relationship>)
        ensures
            r@.map_values(|x: &Relationship| *x) == touching(self.relationships@, model_name@),
    {
        let ghost rels = self.relationships@;
        let mut out: Vec<&Relationship> = Vec::new();
        let mut i: usize = 0;
        while i < self.relationships.len()
            invariant
                i <= self.relationships.len(),
                rels == self.relationships@,
                out@.map_values(|x: &Relationship| *x) =~= touching(rels.take(i as int), model_name@),
            decreases self.relationships.len() - i,
        {
            proof {
                assert(rels.take(i + 1).drop_last() =~= rels.take(i as int));
                assert(rels.take(i + 1).last() == rels[i as int]);
            }
            let rel = &self.relationships[i];
            if str_eq(rel.from_model.as_str(), model_name) || str_eq(rel.to_model.as_str(), model_name) {
                out.push(rel);
            }
            i += 1;
        }
        proof {
            assert(rels.take(rels.len() as int) =~= rels);
        }
        out
    }
}

impl Default for WinxMDL {
    fn default() -> (r: Self)
        ensures
            r.models@.len() == 0,
            r.relationships@.len() == 0,
            r.metrics@.len() == 0,
            r.views@.len() == 0,
    {
        Self::new()
    }
}

proof fn lemma_first_duplicate_is(models: Seq<Model>, j: int)
    requires
        0 <= j < models.len(),
        repeats_earlier(models, j),
        forall|k: int| 0 <= k < j ==> !#[trigger] repeats_earlier(models, k),
    ensures
        first_duplicate(models) == Some(j),
{
    let c = choose|c: int|
        0 <= c < models.len() && #[trigger] repeats_earlier(models, c) && forall|k: int|
            0 <= k < c ==> !#[trigger] repeats_earlier(models, k);
    if c < j {
        assert(!repeats_earlier(models, c));
    } else if c > j {
        assert(!repeats_earlier(models, j));
    }
}

proof fn lemma_first_failing_relationship(models: Seq<Model>, rels: Seq<Relationship>, i: int)
    requires
        0 <= i < rels.len(),
        !relationship_ok(models, rels[i]),
        forall|k: int| 0 <= k < i ==> relationship_ok(models, #[trigger] rels[k]),
    ensures
        (choose|c: int|
            0 <= c < rels.len() && !relationship_ok(models, #[trigger] rels[c]) && forall|k: int|
                0 <= k < c ==> relationship_ok(models, #[trigger] rels[k])) == i,
{
    let c = choose|c: int|
        0 <= c < rels.len() && !relationship_ok(models, #[trigger] rels[c]) && forall|k: int|
            0 <= k < c ==> relationship_ok(models, #[trigger] rels[k]);
    assert(0 <= c < rels.len() && !relationship_ok(models, rels[c]));
    if c < i {
        assert(relationship_ok(models, rels[c]));
    } else if c > i {
        assert(relationship_ok(models, rels[i]));
    }
}

proof fn lemma_first_failing_metric(models: Seq<Model>, metrics: Seq<Metric>, i: int)
    requires
        0 <= i < metrics.len(),
        !metric_ok(models, metrics[i]),
        forall|k: int| 0 <= k < i ==> metric_ok(models, #[trigger] metrics[k]),
    ensures
        (choose|c: int|
            0 <= c < metrics.len() && !metric_ok(models, #[trigger] metrics[c]) && forall|k: int|
                0 <= k < c ==> metric_ok(models, #[trigger] metrics[k])) == i,
{
    let c = choose|c: int|
        0 <= c < metrics.len() && !metric_ok(models, #[trigger] metrics[c]) && forall|k: int|
            0 <= k < c ==> metric_ok(models, #[trigger] metrics[k]);
    assert(0 <= c < metrics.len() && !metric_ok(models, metrics[c]));
    if c < i {
        assert(metric_ok(models, metrics[c]));
    } else if c > i {
        assert(metric_ok(models, metrics[i]));
    }
}

pub proof fn lemma_first_named_at(models: Seq<Model>, n: Seq<char>, i: int)
    requires
        0 <= i < models.len(),
        models[i].name@ == n,
        forall|k: int| 0 <= k < i ==> (#[trigger] models[k]).name@ != n,
    ensures
        first_named(models, n) == Some(models[i]),
{
    assert(names_model(models, n));
    let c = choose|c: int|
        0 <= c < models.len() && (#[trigger] models[c]).name@ == n && forall|k: int|
            0 <= k < c ==> (#[trigger] models[k]).name@ != n;
    if c < i {
        assert(models[c].name@ != n);
    } else if c > i {
        assert(models[i].name@ != n);
    }
}

} // verus!
