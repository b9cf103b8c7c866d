//! A semantic layer over data models: the models, how they relate, and the
//! checks that keep the references between them sound.
pub mod analyzer;
pub mod mdl;

use vstd::prelude::*;
use crate::error::WinxError;
use crate::text::{from_chars, push_str, str_eq};
use crate::semantic::mdl::{
    mdl_problem, metric_ok, names_model, relationship_ok, MdlView, Metric, Model, Relationship, WinxMDL,
};

verus! {

/// The models, relationships, metrics and views in use. Models are looked up
/// by name; of two models with one name, the later one counts.
#[derive(Debug)]
pub struct SemanticContext {
    pub models: Vec<Model>,
    pub relationships: Vec<Relationship>,
    pub metrics: Vec<Metric>,
    pub views: Vec<MdlView>,
}

/// The last model of `models` named `n`: the one a lookup by name finds.
pub open spec fn last_named(models: Seq<Model>, n: Seq<char>) -> Option<Model>
    decreases models.len(),
{
    if models.len() == 0 {
        None
    } else if models.last().name@ == n {
        Some(models.last())
    } else {
        last_named(models.drop_last(), n)
    }
}

/// The models found at the other end of each relationship touching model
/// `n`, in the order of the relationships (ends that name no model are
/// skipped).
pub open spec fn related(rels: Seq<Relationship>, models: Seq<Model>, n: Seq<char>) -> Seq<Model>
    decreases rels.len(),
{
    if rels.len() == 0 {
        seq![]
    } else {
        let before = related(rels.drop_last(), models, n);
        let r = rels.last();
        let other = if r.from_model@ == n {
            last_named(models, r.to_model@)
        } else if r.to_model@ == n {
            last_named(models, r.from_model@)
        } else {
            None
        };
        match other {
            Some(m) => before.push(m),
            None => before,
        }
    }
}

pub open spec fn context_relationship_ok(models: Seq<Model>, r: Relationship) -> bool {
    names_model(models, r.from_model@) && names_model(models, r.to_model@)
}

pub open spec fn context_metric_ok(models: Seq<Model>, m: Metric) -> bool {
    match m.base_model {
        Some(b) => names_model(models, b@),
        None => true,
    }
}

/// What `SemanticContext::validate` reports: the first relationship with an
/// unknown end (its start checked first), else the first metric with an
/// unknown base model, else nothing.
pub open spec fn context_problem(c: SemanticContext) -> Option<Seq<char>> {
    let models = c.models@;
    let rels = c.relationships@;
    let metrics = c.metrics@;
    if exists|i: int| 0 <= i < rels.len() && !context_relationship_ok(models, #[trigger] rels[i]) {
        let i = choose|i: int|
            0 <= i < rels.len() && !context_relationship_ok(models, #[trigger] rels[i]) && forall|k: int|
                0 <= k < i ==> context_relationship_ok(models, #[trigger] rels[k]);
        Some(
            "Relationship references non-existent model: "@ + if !names_model(models, rels[i].from_model@) {
                rels[i].from_model@
            } else {
                rels[i].to_model@
            },
        )
    } else if exists|i: int| 0 <= i < metrics.len() && !context_metric_ok(models, #[trigger] metrics[i]) {
        let i = choose|i: int|
            0 <= i < metrics.len() && !context_metric_ok(models, #[trigger] metrics[i]) && forall|k: int|
                0 <= k < i ==> context_metric_ok(models, #[trigger] metrics[k]);
        Some("Metric '"@ + metrics[i].name@ + "' references non-existent model: "@ + metrics[i].base_model.unwrap()@)
    } else {
        None
    }
}

fn last_index_named(models: &Vec<Model>, name: &str) -> (r: Option<usize>)
    ensures
        match r {
            Some(i) => i < models.len() && last_named(models@, name@) == Some(models@[i as int]),
            None => last_named(models@, name@) is None,
        },
        r is None <==> !names_model(models@, name@),
{
    let mut i: usize = models.len();
    proof {
        assert(models@.take(i as int) =~= models@);
    }
    while i > 0
        invariant
            i <= models.len(),
            last_named(models@, name@) == last_named(models@.take(i as int), name@),
            forall|k: int| i <= k < models.len() ==> (#[trigger] models@[k]).name@ != name@,
        decreases i,
    {
        proof {
            assert(models@.take(i as int).drop_last() =~= models@.take(i - 1));
            assert(models@.take(i as int).last() == models@[i - 1]);
        }
        if str_eq(models[i - 1].name.as_str(), name) {
            return Some(i - 1);
        }
        i -= 1;
    }
    proof {
        assert(models@.take(0) =~= Seq::<Model>::empty());
    }
    None
}

proof fn lemma_last_named_some(models: Seq<Model>, n: Seq<char>)
    ensures
        last_named(models, n) is Some <==> names_model(models, n),
    decreases models.len(),
{
    if models.len() > 0 {
        lemma_last_named_some(models.drop_last(), n);
        if names_model(models, n) && models.last().name@ != n {
            let i = choose|i: int| 0 <= i < models.len() && (#[trigger] models[i]).name@ == n;
            assert(models.drop_last()[i].name@ == n);
        }
        if names_model(models.drop_last(), n) {
            let i = choose|i: int| 0 <= i < models.drop_last().len() && (#[trigger] models.drop_last()[i]).name@ == n;
            assert(models[i].name@ == n);
        }
        if models.last().name@ == n {
            assert(models[models.len() - 1].name@ == n);
        }
    }
}

fn has_model(models: &Vec<Model>, name: &str) -> (b: bool)
    ensures
        b == names_model(models@, name@),
{
    let r = last_index_named(models, name);
    proof {
        lemma_last_named_some(models@, name@);
    }
    r.is_some()
}

impl SemanticContext {
    pub fn new() -> (r: Self)
        ensures
            r.models@.len() == 0,
            r.relationships@.len() == 0,
            r.metrics@.len() == 0,
            r.views@.len() == 0,
    {
        SemanticContext { models: Vec::new(), relationships: Vec::new(), metrics: Vec::new(), views: Vec::new() }
    }

    /// A context holding what `mdl` holds.
    pub fn from_mdl(mdl: &WinxMDL) -> (r: Result<Self, WinxError>)
        ensures
            r matches Ok(c) && holds_mdl(c, *mdl),
    {
        let models = mdl.models.clone();
        let relationships = mdl.relationships.clone();
        let metrics = mdl.metrics.clone();
        let views = mdl.views.clone();
        proof {
            assert(relationships@ =~= mdl.relationships@);
        }
        Ok(SemanticContext { models, relationships, metrics, views })
    }

    /// The model named `name` (the later one, if two share the name).
    pub fn get_model(&self, name: &str) -> (r: Option<&Model>)
        ensures
            match r {
                Some(m) => last_named(self.models@, name@) == Some(*m),
                None => last_named(self.models@, name@) is None,
            },
    {
        match last_index_named(&self.models, name) {
            Some(i) => Some(&self.models[i]),
            None => None,
        }
    }

    /// For each relationship that starts at `model_name`, the model it ends
    /// at; for each that ends there (and does not start there), the model it
    /// starts at; ends that name no model are skipped.
    pub fn get_related_models(&self, model_name: &str) -> (r: Vec<&Model>)
        ensures
            r@.map_values(|m: &Model| *m) == related(self.relationships@, self.models@, model_name@),
    {
        let ghost rels = self.relationships@;
        let mut out: Vec<&Model> = Vec::new();
        let mut i: usize = 0;
        while i < self.relationships.len()
            invariant
                i <= self.relationships.len(),
                rels == self.relationships@,
                out@.map_values(|m: &Model| *m) =~= related(rels.take(i as int), self.models@, model_name@),
            decreases self.relationships.len() - i,
        {
            proof {
                assert(rels.take(i + 1).drop_last() =~= rels.take(i as int));
                assert(rels.take(i + 1).last() == rels[i as int]);
            }
            let rel = &self.relationships[i];
            if str_eq(rel.from_model.as_str(), model_name) {
                match self.get_model(rel.to_model.as_str()) {
                    Some(m) => out.push(m),
                    None => {},
                }
            } else if str_eq(rel.to_model.as_str(), model_name) {
                match self.get_model(rel.from_model.as_str()) {
                    Some(m) => out.push(m),
                    None => {},
                }
            }
            i += 1;
        }
        proof {
            assert(rels.take(rels.len() as int) =~= rels);
        }
        out
    }

    /// Checks that every relationship and metric names existing models;
    /// reports the first problem found.
    pub fn validate(&self) -> (r: Result<(), WinxError>)
        ensures
            r is Ok <==> context_problem(*self) is None,
            r matches Err(e) ==> (e matches WinxError::Other(m) && Some(m@) == context_problem(*self)),
    {
        let ghost models = self.models@;
        let ghost rels = self.relationships@;
        let mut i: usize = 0;
        while i < self.relationships.len()
            invariant
                i <= self.relationships.len(),
                models == self.models@,
                rels == self.relationships@,
                forall|k: int| 0 <= k < i ==> context_relationship_ok(models, #[trigger] rels[k]),
            decreases self.relationships.len() - i,
        {
            let rel = &self.relationships[i];
            let from_ok = has_model(&self.models, rel.from_model.as_str());
            let to_ok = has_model(&self.models, rel.to_model.as_str());
            if !from_ok || !to_ok {
                let mut v: Vec<char> = Vec::new();
                push_str(&mut v, "Relationship references non-existent model: ");
                if !from_ok {
                    push_str(&mut v, rel.from_model.as_str());
                } else {
                    push_str(&mut v, rel.to_model.as_str());
                }
                proof {
                    assert(!context_relationship_ok(models, rels[i as int]));
                    let c = choose|c: int|
                        0 <= c < rels.len() && !context_relationship_ok(models, #[trigger] rels[c])
                            && forall|k: int| 0 <= k < c ==> context_relationship_ok(models, #[trigger] rels[k]);
                    assert(0 <= c < rels.len() && !context_relationship_ok(models, rels[c]));
                    if c < i {
                        assert(context_relationship_ok(models, rels[c]));
                    } else if c > i {
                        assert(context_relationship_ok(models, rels[i as int]));
                    }
                }
                return Err(WinxError::Other(from_chars(v.as_slice())));
            }
            i += 1;
        }
        let ghost metrics = self.metrics@;
        let mut i: usize = 0;
        while i < self.metrics.len()
            invariant
                i <= self.metrics.len(),
                models == self.models@,
                rels == self.relationships@,
                metrics == self.metrics@,
                forall|k: int| 0 <= k < rels.len() ==> context_relationship_ok(models, #[trigger] rels[k]),
                forall|k: int| 0 <= k < i ==> context_metric_ok(models, #[trigger] metrics[k]),
            decreases self.metrics.len() - i,
        {
            let metric = &self.metrics[i];
            match &metric.base_model {
                Some(b) => {
                    if !has_model(&self.models, b.as_str()) {
                        let mut v: Vec<char> = Vec::new();
                        push_str(&mut v, "Metric '");
                        push_str(&mut v, metric.name.as_str());
                        push_str(&mut v, "' references non-existent model: ");
                        push_str(&mut v, b.as_str());
                        proof {
                            assert(!context_metric_ok(models, metrics[i as int]));
                            let c = choose|c: int|
                                0 <= c < metrics.len() && !context_metric_ok(models, #[trigger] metrics[c])
                                    && forall|k: int| 0 <= k < c ==> context_metric_ok(models, #[trigger] metrics[k]);
                            assert(0 <= c < metrics.len() && !context_metric_ok(models, metrics[c]));
                            if c < i {
                                assert(context_metric_ok(models, metrics[c]));
                            } else if c > i {
                                assert(context_metric_ok(models, metrics[i as int]));
                            }
                        }
                        return Err(WinxError::Other(from_chars(v.as_slice())));
                    }
                },
                None => {},
            }
            i += 1;
        }
        Ok(())
    }
}

impl Default for SemanticContext {
    fn default() -> (r: Self)
        ensures
            r.models@.len() == 0,
            r.relationships@.len() == 0,
            r.metrics@.len() == 0,
            r.views@.len() == 0,
    {
        Self::new()
    }
}


/// `c` holds what `mdl` holds, one for one.
pub open spec fn holds_mdl(c: SemanticContext, mdl: WinxMDL) -> bool {
    &&& c.models@.len() == mdl.models@.len()
    &&& forall|i: int| 0 <= i < mdl.models@.len() ==> (#[trigger] c.models@[i]).same_as(mdl.models@[i])
    &&& c.relationships@ == mdl.relationships@
    &&& c.metrics@.len() == mdl.metrics@.len()
    &&& forall|i: int| 0 <= i < mdl.metrics@.len() ==> (#[trigger] c.metrics@[i]).same_as(mdl.metrics@[i])
    &&& c.views@.len() == mdl.views@.len()
    &&& forall|i: int| 0 <= i < mdl.views@.len() ==> (#[trigger] c.views@[i]).same_as(mdl.views@[i])
}

/// A context made from a valid MDL is valid: every relationship and metric
/// of it names a model it holds.
pub proof fn law_valid_mdl_gives_valid_context(mdl: WinxMDL, c: SemanticContext)
    requires
        holds_mdl(c, mdl),
        mdl_problem(mdl) is None,
    ensures
        context_problem(c) is None,
{
    let mm = mdl.models@;
    let cm = c.models@;
    assert forall|n: Seq<char>| names_model(mm, n) implies names_model(cm, n) by {
        let i = choose|i: int| 0 <= i < mm.len() && (#[trigger] mm[i]).name@ == n;
        assert(cm[i].same_as(mm[i]));
        assert(cm[i].name@ == n);
    }
    assert forall|i: int| 0 <= i < c.relationships@.len() implies context_relationship_ok(
        cm,
        #[trigger] c.relationships@[i],
    ) by {
        assert(c.relationships@[i] == mdl.relationships@[i]);
        if !relationship_ok(mm, mdl.relationships@[i]) {
            assert(exists|k: int| 0 <= k < mdl.relationships@.len() && !relationship_ok(mm, #[trigger] mdl.relationships@[k]));
        }
    }
    assert forall|i: int| 0 <= i < c.metrics@.len() implies context_metric_ok(cm, #[trigger] c.metrics@[i]) by {
        assert(c.metrics@[i].same_as(mdl.metrics@[i]));
        if !metric_ok(mm, mdl.metrics@[i]) {
            assert(exists|k: int| 0 <= k < mdl.metrics@.len() && !metric_ok(mm, #[trigger] mdl.metrics@[k]));
        }
    }
}

} // verus!
