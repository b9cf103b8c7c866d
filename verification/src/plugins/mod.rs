//! Plugins that provide tools: their configuration, which plugin provides
//! each tool, and where a call of a tool goes. Loading and running the
//! plugins' code happens outside the library.
pub mod manager;
pub mod wasm;

use vstd::prelude::*;
use crate::text::{from_chars, owned, push_str, str_eq};

verus! {

/// What `register` does to `tools`: each tool in turn is mapped to
/// `plugin`, until one is found that another plugin already provides. The
/// map reached, and the collision text if one stopped it.
pub open spec fn register_spec(m: Map<Seq<char>, Seq<char>>, plugin: Seq<char>, tools: Seq<Seq<char>>) -> (
    Map<Seq<char>, Seq<char>>,
    Option<Seq<char>>,
)
    decreases tools.len(),
{
    if tools.len() == 0 {
        (m, None)
    } else {
        let t = tools[0];
        if m.dom().contains(t) && m[t] != plugin {
            (m, Some(collision_message(t, m[t], plugin)))
        } else {
            register_spec(m.insert(t, plugin), plugin, tools.skip(1))
        }
    }
}

/// "Tool name collision: '{tool}' is provided by both '{existing}' and '{plugin}'"
pub open spec fn collision_message(tool: Seq<char>, existing: Seq<char>, plugin: Seq<char>) -> Seq<char> {
    "Tool name collision: '"@ + tool + "' is provided by both '"@ + existing + "' and '"@ + plugin + "'"@
}

/// No two pairs of `s` share a first text.
pub open spec fn firsts_unique(s: Seq<(String, String)>) -> bool {
    forall|i: int, j: int| 0 <= i < j < s.len() ==> (#[trigger] s[i]).0@ != (#[trigger] s[j]).0@
}

pub open spec fn has_first(s: Seq<(String, String)>, k: Seq<char>) -> bool {
    exists|i: int| 0 <= i < s.len() && (#[trigger] s[i]).0@ == k
}

/// The pairs of `s` read as a map from first to second text.
pub open spec fn pairs_as_map(s: Seq<(String, String)>) -> Map<Seq<char>, Seq<char>> {
    Map::new(
        |k: Seq<char>| has_first(s, k),
        |k: Seq<char>| s[choose|i: int| 0 <= i < s.len() && (#[trigger] s[i]).0@ == k].1@,
    )
}

/// Which plugin provides each tool, by the tools' names.
#[derive(Debug)]
pub struct ToolRegistry {
    entries: Vec<(String, String)>,
}

impl ToolRegistry {
    #[verifier::type_invariant]
    spec fn well_formed(self) -> bool {
        firsts_unique(self.entries@)
    }

    /// The plugin of each registered tool.
    pub closed spec fn providers(self) -> Map<Seq<char>, Seq<char>> {
        pairs_as_map(self.entries@)
    }

    /// A registry with no tools.
    pub fn new() -> (r: Self)
        ensures
            r.providers() == Map::<Seq<char>, Seq<char>>::empty(),
    {
        let r = ToolRegistry { entries: Vec::new() };
        proof {
            assert(pairs_as_map(r.entries@) =~= Map::<Seq<char>, Seq<char>>::empty());
        }
        r
    }

    /// The plugin that provides `tool`, if any does.
    pub fn provider(&self, tool: &str) -> (r: Option<String>)
        ensures
            match r {
                Some(p) => self.providers().dom().contains(tool@) && p@ == self.providers()[tool@],
                None => !self.providers().dom().contains(tool@),
            },
    {
        proof {
            use_type_invariant(self);
        }
        match self.position(tool) {
            Some(i) => {
                proof {
                    lemma_lookup(self.entries@, i as int);
                }
                Some(self.entries[i].1.clone())
            },
            None => None,
        }
    }

    fn position(&self, tool: &str) -> (r: Option<usize>)
        ensures
            match r {
                Some(i) => i < self.entries@.len() && self.entries@[i as int].0@ == tool@,
                None => !has_first(self.entries@, tool@),
            },
    {
        entry_position(&self.entries, tool)
    }

    /// Map `tool` to `plugin`, in place of any plugin it was mapped to.
    fn insert(&mut self, tool: String, plugin: String)
        ensures
            final(self).providers() == old(self).providers().insert(tool@, plugin@),
    {
        proof {
            use_type_invariant(&*self);
        }
        let ghost before = self.entries@;
        let mut entries: Vec<(String, String)> = Vec::new();
        std::mem::swap(&mut entries, &mut self.entries);
        match entry_position(&entries, tool.as_str()) {
            Some(i) => {
                proof {
                    lemma_update(before, i as int, (tool, plugin));
                }
                entries.set(i, (tool, plugin));
            },
            None => {
                proof {
                    lemma_push(before, (tool, plugin));
                }
                entries.push((tool, plugin));
            },
        }
        self.entries = entries;
    }

    /// Map each of `tools` in turn to `plugin`, refusing at the first tool
    /// that another plugin already provides (the tools before it stay
    /// mapped).
    pub fn register(&mut self, plugin: &str, tools: &Vec<String>) -> (r: Result<(), String>)
        ensures
            ({
                let (m, err) = register_spec(
                    old(self).providers(),
                    plugin@,
                    tools@.map_values(|t: String| t@),
                );
                &&& final(self).providers() == m
                &&& match r {
                    Ok(_) => err is None,
                    Err(e) => err == Some(e@),
                }
            }),
    {
        let ghost names = tools@.map_values(|t: String| t@);
        let ghost start = self.providers();
        proof {
            assert(names.skip(0) =~= names);
        }
        let mut i: usize = 0;
        while i < tools.len()
            invariant
                i <= tools.len(),
                names == tools@.map_values(|t: String| t@),
                start == old(self).providers(),
                register_spec(start, plugin@, names) == register_spec(self.providers(), plugin@, names.skip(i as int)),
            decreases tools.len() - i,
        {
            let t = tools[i].as_str();
            proof {
                assert(names.skip(i as int)[0] == t@);
                assert(names.skip(i as int).skip(1) =~= names.skip(i + 1));
            }
            match self.provider(t) {
                Some(existing) => {
                    if !str_eq(existing.as_str(), plugin) {
                        let mut v: Vec<char> = Vec::new();
                        push_str(&mut v, "Tool name collision: '");
                        push_str(&mut v, t);
                        push_str(&mut v, "' is provided by both '");
                        push_str(&mut v, existing.as_str());
                        push_str(&mut v, "' and '");
                        push_str(&mut v, plugin);
                        push_str(&mut v, "'");
                        return Err(from_chars(v.as_slice()));
                    }
                },
                None => {},
            }
            self.insert(owned(t), owned(plugin));
            i += 1;
        }
        proof {
            assert(names.skip(tools.len() as int).len() == 0);
        }
        Ok(())
    }
}

fn entry_position(entries: &Vec<(String, String)>, tool: &str) -> (r: Option<usize>)
    ensures
        match r {
            Some(i) => i < entries@.len() && entries@[i as int].0@ == tool@,
            None => forall|j: int| 0 <= j < entries@.len() ==> (#[trigger] entries@[j]).0@ != tool@,
        },
{
    let mut i: usize = 0;
    while i < entries.len()
        invariant
            i <= entries.len(),
            forall|j: int| 0 <= j < i ==> (#[trigger] entries@[j]).0@ != tool@,
        decreases entries.len() - i,
    {
        if str_eq(entries[i].0.as_str(), tool) {
            return Some(i);
        }
        i += 1;
    }
    None
}

proof fn lemma_lookup(s: Seq<(String, String)>, p: int)
    requires
        firsts_unique(s),
        0 <= p < s.len(),
    ensures
        pairs_as_map(s).dom().contains(s[p].0@),
        pairs_as_map(s)[s[p].0@] == s[p].1@,
{
    let k = s[p].0@;
    assert(s[p].0@ == k);
    assert(has_first(s, k));
    let i = choose|i: int| 0 <= i < s.len() && (#[trigger] s[i]).0@ == k;
    if i != p {
        if i < p {
            assert(s[i].0@ != s[p].0@);
        } else {
            assert(s[p].0@ != s[i].0@);
        }
    }
}

proof fn lemma_update(s: Seq<(String, String)>, p: int, e: (String, String))
    requires
        firsts_unique(s),
        0 <= p < s.len(),
        s[p].0@ == e.0@,
    ensures
        firsts_unique(s.update(p, e)),
        pairs_as_map(s.update(p, e)) == pairs_as_map(s).insert(e.0@, e.1@),
{
    let t = s.update(p, e);
    assert forall|i: int, j: int| 0 <= i < j < t.len() implies (#[trigger] t[i]).0@ != (#[trigger] t[j]).0@ by {
        assert(s[i].0@ != s[j].0@);
    }
    lemma_lookup(t, p);
    assert forall|k: Seq<char>| #[trigger] pairs_as_map(t).dom().contains(k) <==> pairs_as_map(s).insert(
        e.0@,
        e.1@,
    ).dom().contains(k) by {
        if has_first(t, k) && k != e.0@ {
            let i = choose|i: int| 0 <= i < t.len() && (#[trigger] t[i]).0@ == k;
            assert(s[i].0@ == k);
        }
        if has_first(s, k) && k != e.0@ {
            let i = choose|i: int| 0 <= i < s.len() && (#[trigger] s[i]).0@ == k;
            assert(i != p);
            assert(t[i].0@ == k);
        }
    }
    assert forall|k: Seq<char>| #[trigger] pairs_as_map(t).dom().contains(k) implies pairs_as_map(t)[k]
        == pairs_as_map(s).insert(e.0@, e.1@)[k] by {
        if k != e.0@ {
            let i = choose|i: int| 0 <= i < t.len() && (#[trigger] t[i]).0@ == k;
            assert(i != p);
            lemma_lookup(t, i);
            lemma_lookup(s, i);
        }
    }
    assert(pairs_as_map(t) =~= pairs_as_map(s).insert(e.0@, e.1@));
}

proof fn lemma_push(s: Seq<(String, String)>, e: (String, String))
    requires
        firsts_unique(s),
        forall|j: int| 0 <= j < s.len() ==> (#[trigger] s[j]).0@ != e.0@,
    ensures
        firsts_unique(s.push(e)),
        pairs_as_map(s.push(e)) == pairs_as_map(s).insert(e.0@, e.1@),
{
    let t = s.push(e);
    assert forall|i: int, j: int| 0 <= i < j < t.len() implies (#[trigger] t[i]).0@ != (#[trigger] t[j]).0@ by {
        if j < s.len() {
            assert(s[i].0@ != s[j].0@);
        } else {
            assert(t[i] == s[i]);
        }
    }
    lemma_lookup(t, s.len() as int);
    assert forall|k: Seq<char>| #[trigger] pairs_as_map(t).dom().contains(k) <==> pairs_as_map(s).insert(
        e.0@,
        e.1@,
    ).dom().contains(k) by {
        if has_first(t, k) && k != e.0@ {
            let i = choose|i: int| 0 <= i < t.len() && (#[trigger] t[i]).0@ == k;
            assert(i < s.len());
            assert(s[i].0@ == k);
        }
        if has_first(s, k) {
            let i = choose|i: int| 0 <= i < s.len() && (#[trigger] s[i]).0@ == k;
            assert(t[i].0@ == k);
        }
    }
    assert forall|k: Seq<char>| #[trigger] pairs_as_map(t).dom().contains(k) implies pairs_as_map(t)[k]
        == pairs_as_map(s).insert(e.0@, e.1@)[k] by {
        if k != e.0@ {
            let i = choose|i: int| 0 <= i < t.len() && (#[trigger] t[i]).0@ == k;
            assert(i < s.len());
            assert(t[i] == s[i]);
            lemma_lookup(t, i);
            lemma_lookup(s, i);
        }
    }
    assert(pairs_as_map(t) =~= pairs_as_map(s).insert(e.0@, e.1@));
}

/// No two entries of `s` share a name.
pub open spec fn names_unique<V>(s: Seq<(String, V)>) -> bool {
    forall|i: int, j: int| 0 <= i < j < s.len() ==> (#[trigger] s[i]).0@ != (#[trigger] s[j]).0@
}

pub open spec fn has_name<V>(s: Seq<(String, V)>, k: Seq<char>) -> bool {
    exists|i: int| 0 <= i < s.len() && (#[trigger] s[i]).0@ == k
}

/// The entries of `s` read as a map from name to value.
pub open spec fn named_map<V>(s: Seq<(String, V)>) -> Map<Seq<char>, V> {
    Map::new(
        |k: Seq<char>| has_name(s, k),
        |k: Seq<char>| s[choose|i: int| 0 <= i < s.len() && (#[trigger] s[i]).0@ == k].1,
    )
}

/// The position of the entry named `name`, if there is one.
pub(crate) fn name_position<V>(entries: &Vec<(String, V)>, name: &str) -> (r: Option<usize>)
    ensures
        match r {
            Some(i) => i < entries@.len() && entries@[i as int].0@ == name@,
            None => !has_name(entries@, name@),
        },
{
    let mut i: usize = 0;
    while i < entries.len()
        invariant
            i <= entries.len(),
            forall|j: int| 0 <= j < i ==> (#[trigger] entries@[j]).0@ != name@,
        decreases entries.len() - i,
    {
        if str_eq(entries[i].0.as_str(), name) {
            return Some(i);
        }
        i += 1;
    }
    None
}

pub(crate) proof fn lemma_named_lookup<V>(s: Seq<(String, V)>, p: int)
    requires
        names_unique(s),
        0 <= p < s.len(),
    ensures
        named_map(s).dom().contains(s[p].0@),
        named_map(s)[s[p].0@] == s[p].1,
{
    let k = s[p].0@;
    assert(s[p].0@ == k);
    assert(has_name(s, k));
    let i = choose|i: int| 0 <= i < s.len() && (#[trigger] s[i]).0@ == k;
    if i != p {
        if i < p {
            assert(s[i].0@ != s[p].0@);
        } else {
            assert(s[p].0@ != s[i].0@);
        }
    }
}

pub(crate) proof fn lemma_named_update<V>(s: Seq<(String, V)>, p: int, e: (String, V))
    requires
        names_unique(s),
        0 <= p < s.len(),
        s[p].0@ == e.0@,
    ensures
        names_unique(s.update(p, e)),
        named_map(s.update(p, e)) == named_map(s).insert(e.0@, e.1),
{
    let t = s.update(p, e);
    assert forall|i: int, j: int| 0 <= i < j < t.len() implies (#[trigger] t[i]).0@ != (#[trigger] t[j]).0@ by {
        assert(s[i].0@ != s[j].0@);
    }
    lemma_named_lookup(t, p);
    assert forall|k: Seq<char>| #[trigger] named_map(t).dom().contains(k) <==> named_map(s).insert(
        e.0@,
        e.1,
    ).dom().contains(k) by {
        if has_name(t, k) && k != e.0@ {
            let i = choose|i: int| 0 <= i < t.len() && (#[trigger] t[i]).0@ == k;
            assert(s[i].0@ == k);
        }
        if has_name(s, k) && k != e.0@ {
            let i = choose|i: int| 0 <= i < s.len() && (#[trigger] s[i]).0@ == k;
            assert(i != p);
            assert(t[i].0@ == k);
        }
    }
    assert forall|k: Seq<char>| #[trigger] named_map(t).dom().contains(k) implies named_map(t)[k] == named_map(
        s,
    ).insert(e.0@, e.1)[k] by {
        if k != e.0@ {
            let i = choose|i: int| 0 <= i < t.len() && (#[trigger] t[i]).0@ == k;
            assert(i != p);
            lemma_named_lookup(t, i);
            lemma_named_lookup(s, i);
        }
    }
    assert(named_map(t) =~= named_map(s).insert(e.0@, e.1));
}

pub(crate) proof fn lemma_named_push<V>(s: Seq<(String, V)>, e: (String, V))
    requires
        names_unique(s),
        !has_name(s, e.0@),
    ensures
        names_unique(s.push(e)),
        named_map(s.push(e)) == named_map(s).insert(e.0@, e.1),
{
    let t = s.push(e);
    assert forall|i: int, j: int| 0 <= i < j < t.len() implies (#[trigger] t[i]).0@ != (#[trigger] t[j]).0@ by {
        if j < s.len() {
            assert(s[i].0@ != s[j].0@);
        } else {
            assert(t[i] == s[i]);
            if s[i].0@ == e.0@ {
                assert(has_name(s, e.0@));
            }
        }
    }
    lemma_named_lookup(t, s.len() as int);
    assert forall|k: Seq<char>| #[trigger] named_map(t).dom().contains(k) <==> named_map(s).insert(
        e.0@,
        e.1,
    ).dom().contains(k) by {
        if has_name(t, k) && k != e.0@ {
            let i = choose|i: int| 0 <= i < t.len() && (#[trigger] t[i]).0@ == k;
            assert(i < s.len());
            assert(s[i].0@ == k);
        }
        if has_name(s, k) {
            let i = choose|i: int| 0 <= i < s.len() && (#[trigger] s[i]).0@ == k;
            assert(t[i].0@ == k);
        }
    }
    assert forall|k: Seq<char>| #[trigger] named_map(t).dom().contains(k) implies named_map(t)[k] == named_map(
        s,
    ).insert(e.0@, e.1)[k] by {
        if k != e.0@ {
            let i = choose|i: int| 0 <= i < t.len() && (#[trigger] t[i]).0@ == k;
            assert(i < s.len());
            assert(t[i] == s[i]);
            lemma_named_lookup(t, i);
            lemma_named_lookup(s, i);
        }
    }
    assert(named_map(t) =~= named_map(s).insert(e.0@, e.1));
}

/// Put `value` under `name` in `entries`, in place of any value there.
pub(crate) fn named_insert<V>(entries: &mut Vec<(String, V)>, name: String, value: V)
    requires
        names_unique(old(entries)@),
    ensures
        names_unique(final(entries)@),
        named_map(final(entries)@) == named_map(old(entries)@).insert(name@, value),
{
    match name_position(entries, name.as_str()) {
        Some(i) => {
            proof {
                lemma_named_update(entries@, i as int, (name, value));
            }
            entries.set(i, (name, value));
        },
        None => {
            proof {
                lemma_named_push(entries@, (name, value));
            }
            entries.push((name, value));
        },
    }
}

/// A registration that is not refused makes its plugin the provider of
/// every tool it names.
pub proof fn law_registered_tools_are_provided(
    m: Map<Seq<char>, Seq<char>>,
    plugin: Seq<char>,
    tools: Seq<Seq<char>>,
    i: int,
)
    requires
        register_spec(m, plugin, tools).1 is None,
        0 <= i < tools.len(),
    ensures
        register_spec(m, plugin, tools).0.dom().contains(tools[i]),
        register_spec(m, plugin, tools).0[tools[i]] == plugin,
    decreases tools.len(),
{
    let t = tools[0];
    let m2 = m.insert(t, plugin);
    if i == 0 {
        lemma_register_keeps(m2, plugin, tools.skip(1), t);
    } else {
        assert(tools.skip(1)[i - 1] == tools[i]);
        law_registered_tools_are_provided(m2, plugin, tools.skip(1), i - 1);
    }
}

/// Registering never unmaps a tool, and a tool mapped to `plugin` stays so.
proof fn lemma_register_keeps(m: Map<Seq<char>, Seq<char>>, plugin: Seq<char>, tools: Seq<Seq<char>>, t: Seq<char>)
    requires
        m.dom().contains(t),
        m[t] == plugin,
    ensures
        register_spec(m, plugin, tools).0.dom().contains(t),
        register_spec(m, plugin, tools).0[t] == plugin,
    decreases tools.len(),
{
    if tools.len() > 0 {
        let u = tools[0];
        if !(m.dom().contains(u) && m[u] != plugin) {
            lemma_register_keeps(m.insert(u, plugin), plugin, tools.skip(1), t);
        }
    }
}

/// A tool that another plugin provides is never taken over: registering
/// leaves it with its provider.
pub proof fn law_no_tool_is_taken_over(
    m: Map<Seq<char>, Seq<char>>,
    plugin: Seq<char>,
    tools: Seq<Seq<char>>,
    t: Seq<char>,
)
    requires
        m.dom().contains(t),
        m[t] != plugin,
    ensures
        register_spec(m, plugin, tools).0.dom().contains(t),
        register_spec(m, plugin, tools).0[t] == m[t],
    decreases tools.len(),
{
    if tools.len() > 0 {
        let u = tools[0];
        if !(m.dom().contains(u) && m[u] != plugin) {
            assert(u != t);
            assert(m.insert(u, plugin)[t] == m[t]);
            law_no_tool_is_taken_over(m.insert(u, plugin), plugin, tools.skip(1), t);
        }
    }
}

} // verus!
