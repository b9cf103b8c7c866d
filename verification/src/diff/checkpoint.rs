//! Checkpoints of a project: the changes of files that can be undone. The
//! checkpoints known to a manager are kept here by their ids; reading and
//! writing their files, and the files they restore, happen outside the
//! library.
use vstd::prelude::*;
use crate::lsp::utils::joined_path;
use crate::text::{ends_with, from_chars, owned, push_str, str_eq, to_chars};

verus! {

/// Represents a change to a file
#[derive(Debug, Clone)]
pub struct FileChange {
    /// Relative path to the file
    pub file_path: String,
    /// Content before the change
    pub content_before: String,
    /// Content after the change
    pub content_after: String,
}

/// Represents a checkpoint in the project
#[derive(Debug, Clone)]
pub struct Checkpoint {
    /// Unique ID for the checkpoint
    pub id: String,
    /// When the checkpoint was created, in milliseconds since the Unix epoch
    pub timestamp: i64,
    /// Description of the checkpoint
    pub description: String,
    /// Changes included in the checkpoint
    pub changes: Vec<FileChange>,
}

/// No two entries of `s` share an id.
pub open spec fn ids_unique(s: Seq<(String, Checkpoint)>) -> bool {
    forall|i: int, j: int| 0 <= i < j < s.len() ==> (#[trigger] s[i]).0@ != (#[trigger] s[j]).0@
}

pub open spec fn has_id(s: Seq<(String, Checkpoint)>, k: Seq<char>) -> bool {
    exists|i: int| 0 <= i < s.len() && (#[trigger] s[i]).0@ == k
}

/// The entries of `s` read as a map from id to checkpoint.
pub open spec fn entries_map(s: Seq<(String, Checkpoint)>) -> Map<Seq<char>, Checkpoint> {
    Map::new(
        |k: Seq<char>| has_id(s, k),
        |k: Seq<char>| s[choose|i: int| 0 <= i < s.len() && (#[trigger] s[i]).0@ == k].1,
    )
}

/// Manager for project checkpoints: where they are stored, the project
/// they belong to, and the checkpoints it knows by id.
#[derive(Debug)]
pub struct CheckpointManager {
    checkpoint_dir: String,
    project_root: String,
    checkpoints: Vec<(String, Checkpoint)>,
}

impl CheckpointManager {
    #[verifier::type_invariant]
    spec fn well_formed(self) -> bool {
        ids_unique(self.checkpoints@)
    }

    /// The checkpoints known, by id.
    pub closed spec fn known(self) -> Map<Seq<char>, Checkpoint> {
        entries_map(self.checkpoints@)
    }

    /// The known entries, in the order they became known.
    pub closed spec fn entries(self) -> Seq<(String, Checkpoint)> {
        self.checkpoints@
    }

    pub closed spec fn dir(self) -> Seq<char> {
        self.checkpoint_dir@
    }

    pub closed spec fn root(self) -> Seq<char> {
        self.project_root@
    }

    /// A manager for the project at `project_dir`, storing its checkpoints
    /// under `.winx/checkpoints` there, and knowing none yet.
    pub fn new(project_dir: &str) -> (r: Self)
        ensures
            r.root() == project_dir@,
            r.dir() == joined_path(joined_path(project_dir@, ".winx"@), "checkpoints"@),
            r.known() == Map::<Seq<char>, Checkpoint>::empty(),
            r.entries().len() == 0,
    {
        let winx = crate::lsp::utils::to_absolute_path(".winx", project_dir);
        let dir = crate::lsp::utils::to_absolute_path("checkpoints", winx.as_str());
        let r = CheckpointManager { checkpoint_dir: dir, project_root: owned(project_dir), checkpoints: Vec::new() };
        proof {
            assert(entries_map(r.checkpoints@) =~= Map::<Seq<char>, Checkpoint>::empty());
        }
        r
    }

    /// The file that holds the checkpoint `id`: `{id}.json` in the
    /// checkpoint directory.
    pub fn checkpoint_file(&self, id: &str) -> (r: String)
        ensures
            r@ == joined_path(self.dir(), id@ + ".json"@),
    {
        let mut v: Vec<char> = Vec::new();
        push_str(&mut v, id);
        push_str(&mut v, ".json");
        let name = from_chars(v.as_slice());
        crate::lsp::utils::to_absolute_path(name.as_str(), self.checkpoint_dir.as_str())
    }

    /// Make `checkpoint` known under `id`, in place of any checkpoint known
    /// under that id before.
    pub fn insert_checkpoint(&mut self, id: String, checkpoint: Checkpoint)
        ensures
            final(self).known() == old(self).known().insert(id@, checkpoint),
            final(self).dir() == old(self).dir(),
            final(self).root() == old(self).root(),
    {
        proof {
            use_type_invariant(&*self);
        }
        let ghost before = self.checkpoints@;
        let mut i: usize = 0;
        while i < self.checkpoints.len()
            invariant
                i <= self.checkpoints.len(),
                self.checkpoints@ == before,
                ids_unique(before),
                before == old(self).checkpoints@,
                self.checkpoint_dir == old(self).checkpoint_dir,
                self.project_root == old(self).project_root,
                forall|j: int| 0 <= j < i ==> (#[trigger] before[j]).0@ != id@,
            decreases self.checkpoints.len() - i,
        {
            if str_eq(self.checkpoints[i].0.as_str(), id.as_str()) {
                let ghost e = (id, checkpoint);
                proof {
                    lemma_entries_update(before, i as int, e);
                }
                let mut entries: Vec<(String, Checkpoint)> = Vec::new();
                std::mem::swap(&mut entries, &mut self.checkpoints);
                entries.set(i, (id, checkpoint));
                self.checkpoints = entries;
                return;
            }
            i += 1;
        }
        proof {
            lemma_entries_push(before, (id, checkpoint));
        }
        let mut entries: Vec<(String, Checkpoint)> = Vec::new();
                std::mem::swap(&mut entries, &mut self.checkpoints);
        entries.push((id, checkpoint));
        self.checkpoints = entries;
    }

    /// A new checkpoint of `changes`, with a fresh random id; it becomes
    /// known once `add_checkpoint` is given it (after it is stored).
    pub fn prepare_checkpoint(&self, description: &str, changes: Vec<FileChange>, timestamp: i64) -> (r: Checkpoint)
        ensures
            r.description@ == description@,
            r.changes == changes,
            r.timestamp == timestamp,
            r.id@.len() == 36,
    {
        Checkpoint { id: new_uuid(), timestamp, description: owned(description), changes }
    }

    /// Make a stored checkpoint known under its own id; the id is returned.
    pub fn add_checkpoint(&mut self, checkpoint: Checkpoint) -> (r: String)
        ensures
            r@ == checkpoint.id@,
            final(self).known() == old(self).known().insert(checkpoint.id@, checkpoint),
            final(self).dir() == old(self).dir(),
            final(self).root() == old(self).root(),
    {
        let id = checkpoint.id.clone();
        self.insert_checkpoint(checkpoint.id.clone(), checkpoint);
        id
    }

    /// Get details of a specific checkpoint
    pub fn get_checkpoint(&self, id: &str) -> (r: Option<&Checkpoint>)
        ensures
            match r {
                Some(c) => self.known().dom().contains(id@) && *c == self.known()[id@],
                None => !self.known().dom().contains(id@),
            },
    {
        proof {
            use_type_invariant(self);
        }
        let mut i: usize = 0;
        while i < self.checkpoints.len()
            invariant
                i <= self.checkpoints.len(),
                ids_unique(self.checkpoints@),
                forall|j: int| 0 <= j < i ==> (#[trigger] self.checkpoints@[j]).0@ != id@,
            decreases self.checkpoints.len() - i,
        {
            if str_eq(self.checkpoints[i].0.as_str(), id) {
                proof {
                    lemma_entries_lookup(self.checkpoints@, i as int);
                }
                return Some(&self.checkpoints[i].1);
            }
            i += 1;
        }
        None
    }

    /// Get a list of all checkpoints: id, description and time of each.
    pub fn list_checkpoints(&self) -> (r: Vec<(String, String, i64)>)
        ensures
            r@.len() == self.entries().len(),
            forall|i: int|
                0 <= i < r@.len() ==> (#[trigger] r@[i]).0@ == self.entries()[i].0@ && r@[i].1@
                    == self.entries()[i].1.description@ && r@[i].2 == self.entries()[i].1.timestamp,
            forall|k: Seq<char>|
                self.known().dom().contains(k) <==> exists|i: int| 0 <= i < r@.len() && (#[trigger] r@[i]).0@ == k,
    {
        let mut r: Vec<(String, String, i64)> = Vec::new();
        let mut i: usize = 0;
        while i < self.checkpoints.len()
            invariant
                i <= self.checkpoints.len(),
                r@.len() == i,
                forall|j: int|
                    0 <= j < i ==> (#[trigger] r@[j]).0@ == self.checkpoints@[j].0@ && r@[j].1@
                        == self.checkpoints@[j].1.description@ && r@[j].2 == self.checkpoints@[j].1.timestamp,
            decreases self.checkpoints.len() - i,
        {
            let e = &self.checkpoints[i];
            r.push((e.0.clone(), e.1.description.clone(), e.1.timestamp));
            i += 1;
        }
        proof {
            assert forall|k: Seq<char>| self.known().dom().contains(k) <==> exists|i: int|
                0 <= i < r@.len() && (#[trigger] r@[i]).0@ == k by {
                if self.known().dom().contains(k) {
                    let i = choose|i: int| 0 <= i < self.checkpoints@.len() && (#[trigger] self.checkpoints@[i]).0@ == k;
                    assert(r@[i].0@ == k);
                }
                if exists|i: int| 0 <= i < r@.len() && (#[trigger] r@[i]).0@ == k {
                    let i = choose|i: int| 0 <= i < r@.len() && (#[trigger] r@[i]).0@ == k;
                    assert(self.checkpoints@[i].0@ == k);
                }
            }
        }
        r
    }

    /// Forget the checkpoint `id`; refused when it is not known.
    pub fn delete_checkpoint(&mut self, id: &str) -> (r: Result<(), String>)
        ensures
            r is Ok <==> old(self).known().dom().contains(id@),
            r is Ok ==> final(self).known() == old(self).known().remove(id@),
            r matches Err(e) ==> e@ == "Checkpoint not found: "@ + id@ && final(self).known() == old(self).known(),
            final(self).dir() == old(self).dir(),
            final(self).root() == old(self).root(),
    {
        proof {
            use_type_invariant(&*self);
        }
        let ghost before = self.checkpoints@;
        let mut i: usize = 0;
        while i < self.checkpoints.len()
            invariant
                i <= self.checkpoints.len(),
                self.checkpoints@ == before,
                ids_unique(before),
                before == old(self).checkpoints@,
                self.checkpoint_dir == old(self).checkpoint_dir,
                self.project_root == old(self).project_root,
                forall|j: int| 0 <= j < i ==> (#[trigger] before[j]).0@ != id@,
            decreases self.checkpoints.len() - i,
        {
            if str_eq(self.checkpoints[i].0.as_str(), id) {
                proof {
                    lemma_entries_remove(before, i as int);
                    lemma_entries_lookup(before, i as int);
                }
                let mut entries: Vec<(String, Checkpoint)> = Vec::new();
                std::mem::swap(&mut entries, &mut self.checkpoints);
                entries.remove(i);
                self.checkpoints = entries;
                return Ok(());
            }
            i += 1;
        }
        let mut v: Vec<char> = Vec::new();
        push_str(&mut v, "Checkpoint not found: ");
        push_str(&mut v, id);
        Err(from_chars(v.as_slice()))
    }

    /// The files to write to restore `checkpoint`: each changed file, under
    /// the project root, with its content before the change.
    pub fn restore_writes(&self, checkpoint: &Checkpoint) -> (r: Vec<(String, String)>)
        ensures
            r@.len() == checkpoint.changes@.len(),
            forall|i: int|
                0 <= i < r@.len() ==> (#[trigger] r@[i]).0@ == joined_path(
                    self.root(),
                    checkpoint.changes@[i].file_path@,
                ) && r@[i].1@ == checkpoint.changes@[i].content_before@,
    {
        let mut r: Vec<(String, String)> = Vec::new();
        let mut i: usize = 0;
        while i < checkpoint.changes.len()
            invariant
                i <= checkpoint.changes.len(),
                r@.len() == i,
                forall|j: int|
                    0 <= j < i ==> (#[trigger] r@[j]).0@ == joined_path(
                        self.project_root@,
                        checkpoint.changes@[j].file_path@,
                    ) && r@[j].1@ == checkpoint.changes@[j].content_before@,
            decreases checkpoint.changes.len() - i,
        {
            let c = &checkpoint.changes[i];
            let path = crate::lsp::utils::to_absolute_path(c.file_path.as_str(), self.project_root.as_str());
            r.push((path, c.content_before.clone()));
            i += 1;
        }
        r
    }

    /// Create a file change record from the contents before and after.
    pub fn create_file_change(&self, relative_path: &str, content_before: &str, content_after: &str) -> (r: FileChange)
        ensures
            r.file_path@ == relative_path@,
            r.content_before@ == content_before@,
            r.content_after@ == content_after@,
    {
        FileChange {
            file_path: owned(relative_path),
            content_before: owned(content_before),
            content_after: owned(content_after),
        }
    }
}

/// `s` without every ".json" at its end.
pub open spec fn trim_json(s: Seq<char>) -> Seq<char>
    decreases s.len(),
{
    if ends_with(s, ".json"@) && s.len() >= 5 {
        trim_json(s.take(s.len() - 5))
    } else {
        s
    }
}

/// The id of the checkpoint a file of the checkpoint directory holds: a
/// name ending in ".json" without that ending (repeated), other names none.
pub fn checkpoint_id_of(file_name: &str) -> (r: Option<String>)
    ensures
        match r {
            Some(id) => ends_with(file_name@, ".json"@) && id@ == trim_json(file_name@),
            None => !ends_with(file_name@, ".json"@),
        },
{
    let s = to_chars(file_name);
    let suffix = to_chars(".json");
    proof {
        reveal_strlit(".json");
    }
    if !crate::text::ends_with_chars(s.as_slice(), suffix.as_slice()) {
        return None;
    }
    let mut end: usize = s.len();
    proof {
        assert(s@.take(s.len() as int) =~= s@);
    }
    while end >= 5 && crate::text::ends_with_chars(crate::text::slice_chars(s.as_slice(), 0, end).as_slice(), suffix.as_slice())
        invariant
            end <= s.len(),
            suffix@ == ".json"@,
            ".json"@.len() == 5,
            trim_json(s@.take(end as int)) == trim_json(s@),
        decreases end,
    {
        proof {
            assert(s@.take(end as int).take(end - 5) =~= s@.take(end - 5));
        }
        end -= 5;
    }
    let id = crate::text::slice_chars(s.as_slice(), 0, end);
    proof {
        assert(s@.take(s.len() as int) =~= s@);
        assert(id@ =~= s@.take(end as int));
    }
    Some(from_chars(id.as_slice()))
}

/// `uuid::Uuid::new_v4` shown as text: a random id in the hyphenated form,
/// 36 characters long; which id comes is left open.
#[verifier::external_body]
pub(crate) fn new_uuid() -> (r: String)
    ensures
        r@.len() == 36,
{
    uuid::Uuid::new_v4().to_string()
}

proof fn lemma_entries_lookup(s: Seq<(String, Checkpoint)>, p: int)
    requires
        ids_unique(s),
        0 <= p < s.len(),
    ensures
        entries_map(s).dom().contains(s[p].0@),
        entries_map(s)[s[p].0@] == s[p].1,
{
    let k = s[p].0@;
    assert(s[p].0@ == k);
    assert(has_id(s, k));
    let i = choose|i: int| 0 <= i < s.len() && (#[trigger] s[i]).0@ == k;
    if i != p {
        if i < p {
            assert(s[i].0@ != s[p].0@);
        } else {
            assert(s[p].0@ != s[i].0@);
        }
    }
}

proof fn lemma_entries_update(s: Seq<(String, Checkpoint)>, p: int, e: (String, Checkpoint))
    requires
        ids_unique(s),
        0 <= p < s.len(),
        s[p].0@ == e.0@,
    ensures
        ids_unique(s.update(p, e)),
        entries_map(s.update(p, e)) == entries_map(s).insert(e.0@, e.1),
{
    let t = s.update(p, e);
    assert forall|i: int, j: int| 0 <= i < j < t.len() implies (#[trigger] t[i]).0@ != (#[trigger] t[j]).0@ by {
        assert(s[i].0@ != s[j].0@);
    }
    lemma_entries_lookup(t, p);
    assert forall|k: Seq<char>| #[trigger] entries_map(t).dom().contains(k) <==> entries_map(s).insert(
        e.0@,
        e.1,
    ).dom().contains(k) by {
        if has_id(t, k) && k != e.0@ {
            let i = choose|i: int| 0 <= i < t.len() && (#[trigger] t[i]).0@ == k;
            assert(s[i].0@ == k);
        }
        if has_id(s, k) && k != e.0@ {
            let i = choose|i: int| 0 <= i < s.len() && (#[trigger] s[i]).0@ == k;
            assert(i != p);
            assert(t[i].0@ == k);
        }
    }
    assert forall|k: Seq<char>| #[trigger] entries_map(t).dom().contains(k) implies entries_map(t)[k] == entries_map(
        s,
    ).insert(e.0@, e.1)[k] by {
        if k != e.0@ {
            let i = choose|i: int| 0 <= i < t.len() && (#[trigger] t[i]).0@ == k;
            assert(i != p);
            lemma_entries_lookup(t, i);
            lemma_entries_lookup(s, i);
        }
    }
    assert(entries_map(t) =~= entries_map(s).insert(e.0@, e.1));
}

proof fn lemma_entries_push(s: Seq<(String, Checkpoint)>, e: (String, Checkpoint))
    requires
        ids_unique(s),
        forall|j: int| 0 <= j < s.len() ==> (#[trigger] s[j]).0@ != e.0@,
    ensures
        ids_unique(s.push(e)),
        entries_map(s.push(e)) == entries_map(s).insert(e.0@, e.1),
{
    let t = s.push(e);
    assert forall|i: int, j: int| 0 <= i < j < t.len() implies (#[trigger] t[i]).0@ != (#[trigger] t[j]).0@ by {
        if j < s.len() {
            assert(s[i].0@ != s[j].0@);
        } else {
            assert(t[i] == s[i]);
        }
    }
    lemma_entries_lookup(t, s.len() as int);
    assert forall|k: Seq<char>| #[trigger] entries_map(t).dom().contains(k) <==> entries_map(s).insert(
        e.0@,
        e.1,
    ).dom().contains(k) by {
        if has_id(t, k) && k != e.0@ {
            let i = choose|i: int| 0 <= i < t.len() && (#[trigger] t[i]).0@ == k;
            assert(i < s.len());
            assert(s[i].0@ == k);
        }
        if has_id(s, k) {
            let i = choose|i: int| 0 <= i < s.len() && (#[trigger] s[i]).0@ == k;
            assert(t[i].0@ == k);
        }
    }
    assert forall|k: Seq<char>| #[trigger] entries_map(t).dom().contains(k) implies entries_map(t)[k] == entries_map(
        s,
    ).insert(e.0@, e.1)[k] by {
        if k != e.0@ {
            let i = choose|i: int| 0 <= i < t.len() && (#[trigger] t[i]).0@ == k;
            assert(i < s.len());
            assert(t[i] == s[i]);
            lemma_entries_lookup(t, i);
            lemma_entries_lookup(s, i);
        }
    }
    assert(entries_map(t) =~= entries_map(s).insert(e.0@, e.1));
}

proof fn lemma_entries_remove(s: Seq<(String, Checkpoint)>, p: int)
    requires
        ids_unique(s),
        0 <= p < s.len(),
    ensures
        ids_unique(s.remove(p)),
        entries_map(s.remove(p)) == entries_map(s).remove(s[p].0@),
{
    let t = s.remove(p);
    let k0 = s[p].0@;
    assert forall|i: int, j: int| 0 <= i < j < t.len() implies (#[trigger] t[i]).0@ != (#[trigger] t[j]).0@ by {
        let a = if i < p { i } else { i + 1 };
        let b = if j < p { j } else { j + 1 };
        assert(t[i] == s[a]);
        assert(t[j] == s[b]);
        assert(s[a].0@ != s[b].0@);
    }
    assert forall|k: Seq<char>| #[trigger] entries_map(t).dom().contains(k) <==> entries_map(s).remove(
        k0,
    ).dom().contains(k) by {
        if has_id(t, k) {
            let i = choose|i: int| 0 <= i < t.len() && (#[trigger] t[i]).0@ == k;
            let a = if i < p { i } else { i + 1 };
            assert(t[i] == s[a]);
            assert(s[a].0@ == k);
            if k == k0 {
                if a < p {
                    assert(s[a].0@ != s[p].0@);
                } else {
                    assert(s[p].0@ != s[a].0@);
                }
            }
        }
        if has_id(s, k) && k != k0 {
            let i = choose|i: int| 0 <= i < s.len() && (#[trigger] s[i]).0@ == k;
            assert(i != p);
            let a = if i < p { i } else { i - 1 };
            assert(t[a] == s[i]);
            assert(t[a].0@ == k);
        }
    }
    assert forall|k: Seq<char>| #[trigger] entries_map(t).dom().contains(k) implies entries_map(t)[k] == entries_map(
        s,
    ).remove(k0)[k] by {
        let i = choose|i: int| 0 <= i < t.len() && (#[trigger] t[i]).0@ == k;
        let a = if i < p { i } else { i + 1 };
        assert(t[i] == s[a]);
        lemma_entries_lookup(t, i);
        lemma_entries_lookup(s, a);
    }
    assert(entries_map(t) =~= entries_map(s).remove(k0));
}

/// A checkpoint added to a manager is found there under its id.
pub proof fn law_added_checkpoint_is_found(before: CheckpointManager, after: CheckpointManager, c: Checkpoint)
    requires
        after.known() == before.known().insert(c.id@, c),
    ensures
        after.known().dom().contains(c.id@),
        after.known()[c.id@] == c,
{
}

/// Once a checkpoint is deleted it is no longer found, and every other
/// checkpoint stays as it was.
pub proof fn law_deleted_checkpoint_is_gone(
    before: CheckpointManager,
    after: CheckpointManager,
    id: Seq<char>,
    other: Seq<char>,
)
    requires
        after.known() == before.known().remove(id),
        other != id,
    ensures
        !after.known().dom().contains(id),
        after.known().dom().contains(other) == before.known().dom().contains(other),
        before.known().dom().contains(other) ==> after.known()[other] == before.known()[other],
{
}

} // verus!
