//! Role-based access control and the sandbox around the agent's actions.
//!
//! Paths are held as text; whether one path lies under another is decided by
//! `std::path::Path::starts_with`, which compares whole path components.
use vstd::prelude::*;
use crate::error::WinxError;
use crate::text::{from_chars, owned, push_str, str_eq};

verus! {

/// An action that a user may be allowed to take.
#[derive(Debug, Clone, Copy, PartialEq, Eq, Hash, Structural)]
pub enum Action {
    ReadFile,
    WriteFile,
    EditFile,
    ExecuteCommand,
    ReadImage,
    SaveContext,
    AccessNetwork,
    LoadPlugin,
    AccessEnvironment,
}

impl Action {
    /// The action's name as `{:?}` prints it.
    pub open spec fn name(self) -> Seq<char> {
        match self {
            Action::ReadFile => "ReadFile"@,
            Action::WriteFile => "WriteFile"@,
            Action::EditFile => "EditFile"@,
            Action::ExecuteCommand => "ExecuteCommand"@,
            Action::ReadImage => "ReadImage"@,
            Action::SaveContext => "SaveContext"@,
            Action::AccessNetwork => "AccessNetwork"@,
            Action::LoadPlugin => "LoadPlugin"@,
            Action::AccessEnvironment => "AccessEnvironment"@,
        }
    }

    /// Appends the action's name.
    pub fn push_name(&self, out: &mut Vec<char>)
        ensures
            final(out)@ == old(out)@ + self.name(),
    {
        match self {
            Action::ReadFile => push_str(out, "ReadFile"),
            Action::WriteFile => push_str(out, "WriteFile"),
            Action::EditFile => push_str(out, "EditFile"),
            Action::ExecuteCommand => push_str(out, "ExecuteCommand"),
            Action::ReadImage => push_str(out, "ReadImage"),
            Action::SaveContext => push_str(out, "SaveContext"),
            Action::AccessNetwork => push_str(out, "AccessNetwork"),
            Action::LoadPlugin => push_str(out, "LoadPlugin"),
            Action::AccessEnvironment => push_str(out, "AccessEnvironment"),
        }
    }
}

/// What `std::path::Path::new(path).starts_with(base)` answers: whether the
/// components of `base` are the leading components of `path`.
pub uninterp spec fn path_starts_with(path: Seq<char>, base: Seq<char>) -> bool;

/// What `format!("{:?}", std::path::Path::new(path))` prints.
pub uninterp spec fn path_debug(path: Seq<char>) -> Seq<char>;

/// `std::path::Path::starts_with`: the result is named by `path_starts_with`
/// and depends on the two paths alone; nothing more is claimed of it.
#[verifier::external_body]
pub(crate) fn path_has_prefix(path: &str, base: &str) -> (b: bool)
    ensures
        b == path_starts_with(path@, base@),
{
    std::path::Path::new(path).starts_with(base)
}

/// `Debug` of `std::path::Path`: the result is named by `path_debug` and
/// depends on the path alone; nothing more is claimed of it.
#[verifier::external_body]
fn debug_path(path: &str) -> (s: String)
    ensures
        s@ == path_debug(path@),
{
    format!("{:?}", std::path::Path::new(path))
}

/// An optional path as text.
pub open spec fn path_view(path: Option<&str>) -> Option<Seq<char>> {
    match path {
        Some(p) => Some(p@),
        None => None,
    }
}

/// `format!("{:?}", std::path::Path::new(path))`.
pub fn debug_path_text(path: &str) -> (s: String)
    ensures
        s@ == path_debug(path@),
{
    debug_path(path)
}

/// Some path of `bases` is a leading part of `path`.
pub open spec fn under_any(path: Seq<char>, bases: Seq<String>) -> bool {
    exists|i: int| 0 <= i < bases.len() && path_starts_with(path, (#[trigger] bases[i])@)
}

fn exec_under_any(path: &str, bases: &Vec<String>) -> (b: bool)
    ensures
        b == under_any(path@, bases@),
{
    let mut i: usize = 0;
    while i < bases.len()
        invariant
            i <= bases.len(),
            forall|j: int| 0 <= j < i ==> !path_starts_with(path@, (#[trigger] bases@[j])@),
        decreases bases.len() - i,
    {
        if path_has_prefix(path, bases[i].as_str()) {
            return true;
        }
        i += 1;
    }
    false
}

fn contains_text(v: &Vec<String>, s: &str) -> (b: bool)
    ensures
        b == exists|i: int| 0 <= i < v.len() && (#[trigger] v@[i])@ == s@,
{
    let mut i: usize = 0;
    while i < v.len()
        invariant
            i <= v.len(),
            forall|j: int| 0 <= j < i ==> (#[trigger] v@[j])@ != s@,
        decreases v.len() - i,
    {
        if str_eq(v[i].as_str(), s) {
            return true;
        }
        i += 1;
    }
    false
}

/// A named set of permissions. `allowed_actions` is read as a set: an
/// action is allowed when it occurs in it.
#[derive(Debug, Clone)]
pub struct Role {
    pub name: String,
    pub allowed_actions: Vec<Action>,
    pub allowed_paths: Vec<String>,
    pub denied_paths: Vec<String>,
    pub allowed_commands: Vec<String>,
    pub denied_commands: Vec<String>,
}

impl Role {
    /// The role allows `a`.
    pub open spec fn allows(&self, a: Action) -> bool {
        self.allowed_actions@.contains(a)
    }

    /// `path` (if any) is open to the role: under none of its denied paths,
    /// and under one of its allowed paths when it lists any.
    pub open spec fn opens(&self, path: Option<Seq<char>>) -> bool {
        match path {
            None => true,
            Some(p) => !under_any(p, self.denied_paths@) && (self.allowed_paths@.len() == 0
                || under_any(p, self.allowed_paths@)),
        }
    }

    fn exec_allows(&self, a: Action) -> (b: bool)
        ensures
            b == self.allows(a),
    {
        let mut i: usize = 0;
        while i < self.allowed_actions.len()
            invariant
                i <= self.allowed_actions.len(),
                forall|j: int| 0 <= j < i ==> self.allowed_actions@[j] != a,
            decreases self.allowed_actions.len() - i,
        {
            if self.allowed_actions[i] == a {
                proof {
                    assert(self.allowed_actions@[i as int] == a);
                }
                return true;
            }
            i += 1;
        }
        false
    }

    fn exec_opens(&self, path: Option<&str>) -> (b: bool)
        ensures
            b == self.opens(
                path_view(path),
            ),
    {
        match path {
            None => true,
            Some(p) => {
                if exec_under_any(p, &self.denied_paths) {
                    return false;
                }
                self.allowed_paths.len() == 0 || exec_under_any(p, &self.allowed_paths)
            },
        }
    }
}

impl Default for Role {
    fn default() -> (r: Self)
        ensures
            r.name@ == "default"@,
            r.allowed_actions@.len() == 0,
            r.allowed_paths@.len() == 0,
            r.denied_paths@.len() == 0,
            r.allowed_commands@.len() == 0,
            r.denied_commands@.len() == 0,
    {
        Role {
            name: owned("default"),
            allowed_actions: Vec::new(),
            allowed_paths: Vec::new(),
            denied_paths: Vec::new(),
            allowed_commands: Vec::new(),
            denied_commands: Vec::new(),
        }
    }
}

/// No two roles of `s` share a name.
pub open spec fn names_unique(s: Seq<Role>) -> bool {
    forall|i: int, j: int| 0 <= i < j < s.len() ==> (#[trigger] s[i]).name@ != (#[trigger] s[j]).name@
}

/// The role of `s` named `n`, if any.
pub open spec fn role_named(s: Seq<Role>, n: Seq<char>) -> Option<Role> {
    if exists|i: int| 0 <= i < s.len() && (#[trigger] s[i]).name@ == n {
        Some(s[choose|i: int| 0 <= i < s.len() && (#[trigger] s[i]).name@ == n])
    } else {
        None
    }
}

/// The roles of `s` not named `n`, in order.
pub open spec fn without_name(s: Seq<Role>, n: Seq<char>) -> Seq<Role>
    decreases s.len(),
{
    if s.len() == 0 {
        s
    } else if s.last().name@ == n {
        without_name(s.drop_last(), n)
    } else {
        without_name(s.drop_last(), n).push(s.last())
    }
}

fn position_of_key(pairs: &Vec<(String, String)>, key: &str) -> (r: Option<usize>)
    ensures
        match r {
            Some(i) => i < pairs.len() && pairs@[i as int].0@ == key@,
            None => forall|i: int| 0 <= i < pairs.len() ==> (#[trigger] pairs@[i]).0@ != key@,
        },
{
    let mut i: usize = 0;
    while i < pairs.len()
        invariant
            i <= pairs.len(),
            forall|j: int| 0 <= j < i ==> (#[trigger] pairs@[j]).0@ != key@,
        decreases pairs.len() - i,
    {
        if str_eq(pairs[i].0.as_str(), key) {
            return Some(i);
        }
        i += 1;
    }
    None
}

/// No two pairs of `s` share a first text.
pub open spec fn keys_unique(s: Seq<(String, String)>) -> bool {
    forall|i: int, j: int| 0 <= i < j < s.len() ==> (#[trigger] s[i]).0@ != (#[trigger] s[j]).0@
}

pub open spec fn has_key(s: Seq<(String, String)>, k: Seq<char>) -> bool {
    exists|i: int| 0 <= i < s.len() && (#[trigger] s[i]).0@ == k
}

/// The pairs of `s` read as a map from first to second text.
pub open spec fn pairs_map(s: Seq<(String, String)>) -> Map<Seq<char>, Seq<char>> {
    Map::new(
        |k: Seq<char>| has_key(s, k),
        |k: Seq<char>| s[choose|i: int| 0 <= i < s.len() && (#[trigger] s[i]).0@ == k].1@,
    )
}

/// Role-based access: the roles, the role of users with none assigned, and
/// the role assigned to each user.
#[derive(Debug)]
pub struct RoleBasedAccess {
    roles: Vec<Role>,
    default_role: String,
    user_roles: Vec<(String, String)>,
}

/// Whether a user whose role is looked up in `roles` by `role_name` may
/// take `action` on `path`.
pub open spec fn role_permits(
    roles: Seq<Role>,
    role_name: Seq<char>,
    action: Action,
    path: Option<Seq<char>>,
) -> bool {
    match role_named(roles, role_name) {
        None => false,
        Some(r) => r.allows(action) && r.opens(path),
    }
}

impl RoleBasedAccess {
    #[verifier::type_invariant]
    spec fn well_formed(self) -> bool {
        &&& names_unique(self.roles@)
        &&& keys_unique(self.user_roles@)
    }

    /// The roles, in the order they were added.
    pub closed spec fn roles(self) -> Seq<Role> {
        self.roles@
    }

    /// The name of the role of users with none assigned.
    pub closed spec fn default_role(self) -> Seq<char> {
        self.default_role@
    }

    /// The role name assigned to each user.
    pub closed spec fn assignments(self) -> Map<Seq<char>, Seq<char>> {
        pairs_map(self.user_roles@)
    }

    /// The name of the role that decides for `user`.
    pub open spec fn role_of(self, user: Seq<char>) -> Seq<char> {
        if self.assignments().dom().contains(user) {
            self.assignments()[user]
        } else {
            self.default_role()
        }
    }

    /// `user` may take `action` on `path`.
    pub open spec fn permits(self, user: Seq<char>, action: Action, path: Option<Seq<char>>) -> bool {
        role_permits(self.roles(), self.role_of(user), action, path)
    }

    /// Create a new access table: one role, "default", that allows reading
    /// files and saving context, and no assignments.
    pub fn new() -> (r: Self)
        ensures
            r.roles().len() == 1,
            r.roles()[0].name@ == "default"@,
            r.roles()[0].allowed_actions@ == seq![Action::ReadFile, Action::SaveContext],
            r.roles()[0].allowed_paths@.len() == 0,
            r.roles()[0].denied_paths@.len() == 0,
            r.roles()[0].allowed_commands@.len() == 0,
            r.roles()[0].denied_commands@.len() == 0,
            r.default_role() == "default"@,
            r.assignments() == Map::<Seq<char>, Seq<char>>::empty(),
    {
        let mut default_role = Role::default();
        default_role.allowed_actions.push(Action::ReadFile);
        default_role.allowed_actions.push(Action::SaveContext);
        let mut roles: Vec<Role> = Vec::new();
        roles.push(default_role);
        let user_roles: Vec<(String, String)> = Vec::new();
        proof {
            assert(pairs_map(user_roles@) =~= Map::<Seq<char>, Seq<char>>::empty());
        }
        RoleBasedAccess { roles, default_role: owned("default"), user_roles }
    }

    fn position_of_role(&self, name: &str) -> (r: Option<usize>)
        ensures
            match r {
                Some(i) => i < self.roles().len() && self.roles()[i as int].name@ == name@,
                None => forall|i: int| 0 <= i < self.roles().len() ==> (#[trigger] self.roles()[i]).name@ != name@,
            },
    {
        let mut i: usize = 0;
        while i < self.roles.len()
            invariant
                i <= self.roles.len(),
                forall|j: int| 0 <= j < i ==> (#[trigger] self.roles@[j]).name@ != name@,
            decreases self.roles.len() - i,
        {
            if str_eq(self.roles[i].name.as_str(), name) {
                return Some(i);
            }
            i += 1;
        }
        None
    }

    /// Add a role, replacing any role of the same name.
    pub fn add_role(&mut self, role: Role)
        ensures
            final(self).roles() == without_name(old(self).roles(), role.name@).push(role),
            final(self).default_role() == old(self).default_role(),
            final(self).assignments() == old(self).assignments(),
    {
        proof {
            use_type_invariant(&*self);
        }
        let ghost before = self.roles@;
        let mut roles: Vec<Role> = Vec::new();
        std::mem::swap(&mut roles, &mut self.roles);
        match self.position_of_role_in(&roles, role.name.as_str()) {
            Some(p) => {
                proof {
                    lemma_without_unique_name(before, role.name@, p as int);
                }
                roles.remove(p);
            },
            None => {
                proof {
                    lemma_without_absent_name(before, role.name@);
                }
            },
        }
        proof {
            lemma_without_name_unique(before, role.name@);
        }
        roles.push(role);
        self.roles = roles;
    }

    fn position_of_role_in(&self, roles: &Vec<Role>, name: &str) -> (r: Option<usize>)
        ensures
            match r {
                Some(i) => i < roles.len() && roles@[i as int].name@ == name@,
                None => forall|i: int| 0 <= i < roles.len() ==> (#[trigger] roles@[i]).name@ != name@,
            },
    {
        let mut i: usize = 0;
        while i < roles.len()
            invariant
                i <= roles.len(),
                forall|j: int| 0 <= j < i ==> (#[trigger] roles@[j]).name@ != name@,
            decreases roles.len() - i,
        {
            if str_eq(roles[i].name.as_str(), name) {
                return Some(i);
            }
            i += 1;
        }
        None
    }

    /// Assign the role named `role_name` to `user`; refused when no role
    /// has that name.
    pub fn assign_role(&mut self, user: &str, role_name: &str) -> (r: Result<(), WinxError>)
        ensures
            r is Ok <==> role_named(old(self).roles(), role_name@) is Some,
            r is Ok ==> final(self).assignments() == old(self).assignments().insert(user@, role_name@),
            r is Err ==> final(self).assignments() == old(self).assignments(),
            r matches Err(e) ==> (e matches WinxError::InvalidArgument { message } && message@
                == "Role '"@ + role_name@ + "' does not exist"@),
            final(self).roles() == old(self).roles(),
            final(self).default_role() == old(self).default_role(),
    {
        proof {
            use_type_invariant(&*self);
        }
        if self.position_of_role(role_name).is_none() {
            let mut v: Vec<char> = Vec::new();
            push_str(&mut v, "Role '");
            push_str(&mut v, role_name);
            push_str(&mut v, "' does not exist");
            let msg = from_chars(v.as_slice());
            return Err(WinxError::InvalidArgument { message: msg });
        }
        let ghost before = self.user_roles@;
        let mut pairs: Vec<(String, String)> = Vec::new();
        std::mem::swap(&mut pairs, &mut self.user_roles);
        let found = position_of_key(&pairs, user);
        let entry = (owned(user), owned(role_name));
        match found {
            Some(p) => {
                proof {
                    lemma_pairs_update(before, p as int, entry);
                }
                pairs.set(p, entry);
            },
            None => {
                proof {
                    assert(forall|j: int| 0 <= j < before.len() ==> (#[trigger] before[j]).0@ != user@);
                    lemma_pairs_push(before, entry);
                }
                pairs.push(entry);
            },
        }
        self.user_roles = pairs;
        Ok(())
    }

    /// Whether `user` may take `action` on `path`: the user's role (or the
    /// default role) must exist and allow the action; a path must lie under
    /// none of the role's denied paths and, when the role lists allowed
    /// paths, under one of them.
    pub fn check_permission(&self, user: &str, action: &Action, path: Option<&str>) -> (b: bool)
        ensures
            b == self.permits(
                user@,
                *action,
                path_view(path),
            ),
    {
        proof {
            use_type_invariant(self);
        }
        let assigned = position_of_key(&self.user_roles, user);
        let role_name: &str = match assigned {
            Some(k) => {
                proof {
                    lemma_pairs_lookup(self.user_roles@, k as int);
                }
                self.user_roles[k].1.as_str()
            },
            None => {
                proof {
                    assert(!has_key(self.user_roles@, user@));
                }
                self.default_role.as_str()
            },
        };
        match self.position_of_role(role_name) {
            None => {
                proof {
                    assert(role_named(self.roles(), role_name@) is None);
                }
                false
            },
            Some(p) => {
                proof {
                    lemma_role_named_at(self.roles@, p as int);
                }
                let role = &self.roles[p];
                role.exec_allows(*action) && role.exec_opens(path)
            },
        }
    }
}

impl Default for RoleBasedAccess {
    fn default() -> (r: Self)
        ensures
            r.roles().len() == 1,
            r.roles()[0].name@ == "default"@,
            r.roles()[0].allowed_actions@ == seq![Action::ReadFile, Action::SaveContext],
            r.default_role() == "default"@,
            r.assignments() == Map::<Seq<char>, Seq<char>>::empty(),
    {
        Self::new()
    }
}

proof fn lemma_role_named_at(s: Seq<Role>, p: int)
    requires
        names_unique(s),
        0 <= p < s.len(),
    ensures
        role_named(s, s[p].name@) == Some(s[p]),
{
    let n = s[p].name@;
    assert(s[p].name@ == n);
    let i = choose|i: int| 0 <= i < s.len() && (#[trigger] s[i]).name@ == n;
    if i != p {
        if i < p {
            assert(s[i].name@ != s[p].name@);
        } else {
            assert(s[p].name@ != s[i].name@);
        }
    }
}

proof fn lemma_pairs_lookup(s: Seq<(String, String)>, p: int)
    requires
        keys_unique(s),
        0 <= p < s.len(),
    ensures
        pairs_map(s).dom().contains(s[p].0@),
        pairs_map(s)[s[p].0@] == s[p].1@,
{
    let k = s[p].0@;
    assert(s[p].0@ == k);
    assert(has_key(s, k));
    let i = choose|i: int| 0 <= i < s.len() && (#[trigger] s[i]).0@ == k;
    if i != p {
        if i < p {
            assert(s[i].0@ != s[p].0@);
        } else {
            assert(s[p].0@ != s[i].0@);
        }
    }
}

proof fn lemma_pairs_update(s: Seq<(String, String)>, p: int, e: (String, String))
    requires
        keys_unique(s),
        0 <= p < s.len(),
        s[p].0@ == e.0@,
    ensures
        keys_unique(s.update(p, e)),
        pairs_map(s.update(p, e)) == pairs_map(s).insert(e.0@, e.1@),
{
    let t = s.update(p, e);
    assert forall|i: int, j: int| 0 <= i < j < t.len() implies (#[trigger] t[i]).0@ != (#[trigger] t[j]).0@ by {
        assert(s[i].0@ != s[j].0@);
    }
    lemma_pairs_lookup(t, p);
    assert forall|k: Seq<char>| #[trigger] pairs_map(t).dom().contains(k) <==> pairs_map(s).insert(e.0@, e.1@).dom().contains(k) by {
        if has_key(t, k) && k != e.0@ {
            let i = choose|i: int| 0 <= i < t.len() && (#[trigger] t[i]).0@ == k;
            assert(s[i].0@ == k);
        }
        if has_key(s, k) && k != e.0@ {
            let i = choose|i: int| 0 <= i < s.len() && (#[trigger] s[i]).0@ == k;
            assert(i != p);
            assert(t[i].0@ == k);
        }
    }
    assert forall|k: Seq<char>| #[trigger] pairs_map(t).dom().contains(k) implies pairs_map(t)[k] == pairs_map(s).insert(e.0@, e.1@)[k] by {
        if k != e.0@ {
            let i = choose|i: int| 0 <= i < t.len() && (#[trigger] t[i]).0@ == k;
            assert(i != p);
            lemma_pairs_lookup(t, i);
            lemma_pairs_lookup(s, i);
        }
    }
    assert(pairs_map(t) =~= pairs_map(s).insert(e.0@, e.1@));
}

proof fn lemma_pairs_push(s: Seq<(String, String)>, e: (String, String))
    requires
        keys_unique(s),
        forall|j: int| 0 <= j < s.len() ==> (#[trigger] s[j]).0@ != e.0@,
    ensures
        keys_unique(s.push(e)),
        pairs_map(s.push(e)) == pairs_map(s).insert(e.0@, e.1@),
{
    let t = s.push(e);
    assert forall|i: int, j: int| 0 <= i < j < t.len() implies (#[trigger] t[i]).0@ != (#[trigger] t[j]).0@ by {
        if j < s.len() {
            assert(s[i].0@ != s[j].0@);
        } else {
            assert(t[i] == s[i]);
        }
    }
    lemma_pairs_lookup(t, s.len() as int);
    assert forall|k: Seq<char>| #[trigger] pairs_map(t).dom().contains(k) <==> pairs_map(s).insert(e.0@, e.1@).dom().contains(k) by {
        if has_key(t, k) && k != e.0@ {
            let i = choose|i: int| 0 <= i < t.len() && (#[trigger] t[i]).0@ == k;
            assert(i < s.len());
            assert(s[i].0@ == k);
        }
        if has_key(s, k) {
            let i = choose|i: int| 0 <= i < s.len() && (#[trigger] s[i]).0@ == k;
            assert(t[i].0@ == k);
        }
    }
    assert forall|k: Seq<char>| #[trigger] pairs_map(t).dom().contains(k) implies pairs_map(t)[k] == pairs_map(s).insert(e.0@, e.1@)[k] by {
        if k != e.0@ {
            let i = choose|i: int| 0 <= i < t.len() && (#[trigger] t[i]).0@ == k;
            assert(i < s.len());
            assert(t[i] == s[i]);
            lemma_pairs_lookup(t, i);
            lemma_pairs_lookup(s, i);
        }
    }
    assert(pairs_map(t) =~= pairs_map(s).insert(e.0@, e.1@));
}

proof fn lemma_without_absent_name(s: Seq<Role>, n: Seq<char>)
    requires
        forall|i: int| 0 <= i < s.len() ==> (#[trigger] s[i]).name@ != n,
    ensures
        without_name(s, n) == s,
    decreases s.len(),
{
    if s.len() > 0 {
        lemma_without_absent_name(s.drop_last(), n);
        assert(s.drop_last().push(s.last()) =~= s);
    }
}

proof fn lemma_without_unique_name(s: Seq<Role>, n: Seq<char>, p: int)
    requires
        names_unique(s),
        0 <= p < s.len(),
        s[p].name@ == n,
    ensures
        without_name(s, n) == s.remove(p),
    decreases s.len(),
{
    if p == s.len() - 1 {
        assert forall|i: int| 0 <= i < s.drop_last().len() implies (#[trigger] s.drop_last()[i]).name@ != n by {
            assert(s[i].name@ != s[p].name@);
        }
        lemma_without_absent_name(s.drop_last(), n);
        assert(s.remove(p) =~= s.drop_last());
    } else {
        assert(s.last().name@ != n) by {
            assert(s[p].name@ != s[s.len() - 1].name@);
        }
        assert forall|i: int, j: int| 0 <= i < j < s.drop_last().len() implies (#[trigger] s.drop_last()[i]).name@
            != (#[trigger] s.drop_last()[j]).name@ by {
            assert(s[i].name@ != s[j].name@);
        }
        lemma_without_unique_name(s.drop_last(), n, p);
        assert(s.drop_last().remove(p).push(s.last()) =~= s.remove(p));
    }
}

/// Removing the roles named `n` and adding one named `n` keeps names unique.
proof fn lemma_without_name_unique(s: Seq<Role>, n: Seq<char>)
    requires
        names_unique(s),
    ensures
        names_unique(without_name(s, n)),
        forall|i: int| 0 <= i < without_name(s, n).len() ==> (#[trigger] without_name(s, n)[i]).name@ != n,
        forall|r: Role| without_name(s, n).contains(r) ==> s.contains(r),
    decreases s.len(),
{
    if s.len() > 0 {
        let d = s.drop_last();
        assert forall|i: int, j: int| 0 <= i < j < d.len() implies (#[trigger] d[i]).name@ != (#[trigger] d[j]).name@ by {
            assert(s[i].name@ != s[j].name@);
        }
        lemma_without_name_unique(d, n);
        let w = without_name(d, n);
        if s.last().name@ != n {
            let t = w.push(s.last());
            assert forall|i: int, j: int| 0 <= i < j < t.len() implies (#[trigger] t[i]).name@ != (#[trigger] t[j]).name@ by {
                if j == w.len() {
                    assert(w.contains(t[i]));
                    assert(d.contains(t[i]));
                    let k = choose|k: int| 0 <= k < d.len() && d[k] == t[i];
                    assert(s[k].name@ != s[s.len() - 1].name@);
                }
            }
            assert forall|r: Role| t.contains(r) implies s.contains(r) by {
                if r == s.last() {
                    assert(s[s.len() - 1] == r);
                } else {
                    let k = choose|k: int| 0 <= k < t.len() && t[k] == r;
                    assert(w.contains(r));
                    assert(d.contains(r));
                    let m = choose|m: int| 0 <= m < d.len() && d[m] == r;
                    assert(s[m] == r);
                }
            }
        } else {
            assert forall|r: Role| w.contains(r) implies s.contains(r) by {
                assert(d.contains(r));
                let m = choose|m: int| 0 <= m < d.len() && d[m] == r;
                assert(s[m] == r);
            }
        }
    }
}

/// Guards on the agent's actions: role-based access, a sandbox of allowed
/// paths, allowed hosts, and plugin signatures.
#[derive(Debug)]
pub struct SecurityManager {
    verify_signatures: bool,
    allowed_paths: Vec<String>,
    allowed_hosts: Vec<String>,
    sandboxed: bool,
    role_based_access: RoleBasedAccess,
}

/// The message for a permission the roles refuse.
pub open spec fn refusal_message(user: Seq<char>, action: Action, path: Option<Seq<char>>) -> Seq<char> {
    "User '"@ + user + "' does not have permission for action '"@ + action.name() + "' on path '"@
        + match path {
        Some(p) => "Some("@ + path_debug(p) + ")"@,
        None => "None"@,
    } + "'"@
}

/// The message for a path outside the sandbox.
pub open spec fn sandbox_message(path: Seq<char>) -> Seq<char> {
    "Access to path '"@ + path + "' is not allowed in sandboxed mode"@
}

impl SecurityManager {
    pub closed spec fn verifies_signatures(self) -> bool {
        self.verify_signatures
    }

    pub closed spec fn allowed_paths(self) -> Seq<String> {
        self.allowed_paths@
    }

    pub closed spec fn allowed_hosts(self) -> Seq<Seq<char>> {
        self.allowed_hosts@.map_values(|h: String| h@)
    }

    pub closed spec fn sandboxed(self) -> bool {
        self.sandboxed
    }

    pub closed spec fn access(self) -> RoleBasedAccess {
        self.role_based_access
    }

    /// A path passes the sandbox: the manager is not sandboxed, lists no
    /// allowed paths, or the path lies under one of them.
    pub open spec fn sandbox_admits(self, path: Seq<char>) -> bool {
        !self.sandboxed() || self.allowed_paths().len() == 0 || under_any(path, self.allowed_paths())
    }

    /// Signatures verified, nothing allowed, not sandboxed, fresh access table.
    pub fn new() -> (r: Self)
        ensures
            r.verifies_signatures(),
            r.allowed_paths().len() == 0,
            r.allowed_hosts().len() == 0,
            !r.sandboxed(),
            r.access().roles().len() == 1,
            r.access().roles()[0].name@ == "default"@,
            r.access().roles()[0].allowed_actions@ == seq![Action::ReadFile, Action::SaveContext],
            r.access().roles()[0].allowed_paths@.len() == 0,
            r.access().roles()[0].denied_paths@.len() == 0,
            r.access().roles()[0].allowed_commands@.len() == 0,
            r.access().roles()[0].denied_commands@.len() == 0,
            r.access().default_role() == "default"@,
            r.access().assignments() == Map::<Seq<char>, Seq<char>>::empty(),
    {
        let r = SecurityManager {
            verify_signatures: true,
            allowed_paths: Vec::new(),
            allowed_hosts: Vec::new(),
            sandboxed: false,
            role_based_access: RoleBasedAccess::new(),
        };
        proof {
            assert(r.allowed_hosts() =~= Seq::<Seq<char>>::empty());
        }
        r
    }

    /// The given settings with a fresh access table.
    pub fn with_settings(
        verify_signatures: bool,
        allowed_paths: Vec<String>,
        allowed_hosts: Vec<String>,
        sandboxed: bool,
    ) -> (r: Self)
        ensures
            r.verifies_signatures() == verify_signatures,
            r.allowed_paths() == allowed_paths@,
            r.allowed_hosts() == allowed_hosts@.map_values(|h: String| h@),
            r.sandboxed() == sandboxed,
            r.access().roles().len() == 1,
            r.access().roles()[0].name@ == "default"@,
            r.access().roles()[0].allowed_actions@ == seq![Action::ReadFile, Action::SaveContext],
            r.access().roles()[0].allowed_paths@.len() == 0,
            r.access().roles()[0].denied_paths@.len() == 0,
            r.access().roles()[0].allowed_commands@.len() == 0,
            r.access().roles()[0].denied_commands@.len() == 0,
            r.access().default_role() == "default"@,
            r.access().assignments() == Map::<Seq<char>, Seq<char>>::empty(),
    {
        SecurityManager {
            verify_signatures,
            allowed_paths,
            allowed_hosts,
            sandboxed,
            role_based_access: RoleBasedAccess::new(),
        }
    }

    /// Plugin signatures: accepted outright when their verification is off;
    /// otherwise refused, as verification is not available.
    pub fn verify_plugin_signature(&self, _path: &str) -> (r: Result<bool, WinxError>)
        ensures
            !self.verifies_signatures() ==> r == Ok::<bool, WinxError>(true),
            self.verifies_signatures() ==> (r matches Err(WinxError::Other(m)) && m@
                == "Plugin signature verification not yet implemented"@),
    {
        if !self.verify_signatures {
            return Ok(true);
        }
        Err(WinxError::Other(owned("Plugin signature verification not yet implemented")))
    }

    /// Whether `user` may take `action` on `path`: first by the roles, then,
    /// for a path, by the sandbox.
    pub fn check_permission(&self, user: &str, action: Action, path: Option<&str>) -> (r: Result<(), WinxError>)
        ensures
            r is Ok <==> (self.access().permits(user@, action, path_view(path)) && match path {
                Some(p) => self.sandbox_admits(p@),
                None => true,
            }),
            !self.access().permits(user@, action, path_view(path)) ==> (r matches Err(
                WinxError::PermissionDenied { message },
            ) && message@ == refusal_message(user@, action, path_view(path))),
            (self.access().permits(user@, action, path_view(path)) && path is Some
                && !self.sandbox_admits(path.unwrap()@)) ==> (r matches Err(WinxError::PermissionDenied { message })
                && message@ == sandbox_message(path.unwrap()@)),
    {
        if !self.role_based_access.check_permission(user, &action, path) {
            let mut v: Vec<char> = Vec::new();
            push_str(&mut v, "User '");
            push_str(&mut v, user);
            push_str(&mut v, "' does not have permission for action '");
            action.push_name(&mut v);
            push_str(&mut v, "' on path '");
            match path {
                Some(p) => {
                    push_str(&mut v, "Some(");
                    let d = debug_path(p);
                    push_str(&mut v, d.as_str());
                    push_str(&mut v, ")");
                },
                None => {
                    push_str(&mut v, "None");
                },
            }
            push_str(&mut v, "'");
            return Err(WinxError::PermissionDenied { message: from_chars(v.as_slice()) });
        }
        match path {
            Some(p) => {
                if self.sandboxed && self.allowed_paths.len() > 0 && !exec_under_any(p, &self.allowed_paths) {
                    let mut v: Vec<char> = Vec::new();
                    push_str(&mut v, "Access to path '");
                    push_str(&mut v, p);
                    push_str(&mut v, "' is not allowed in sandboxed mode");
                    return Err(WinxError::PermissionDenied { message: from_chars(v.as_slice()) });
                }
                Ok(())
            },
            None => Ok(()),
        }
    }

    /// Any host is allowed when none is listed; else only the listed ones.
    pub fn is_host_allowed(&self, host: &str) -> (b: bool)
        ensures
            b == (self.allowed_hosts().len() == 0 || self.allowed_hosts().contains(host@)),
    {
        if self.allowed_hosts.len() == 0 {
            return true;
        }
        let b = contains_text(&self.allowed_hosts, host);
        proof {
            let hs = self.allowed_hosts();
            if b {
                let i = choose|i: int| 0 <= i < self.allowed_hosts@.len() && (#[trigger] self.allowed_hosts@[i])@ == host@;
                assert(hs[i] == host@);
            } else if hs.contains(host@) {
                let i = choose|i: int| 0 <= i < hs.len() && hs[i] == host@;
                assert(self.allowed_hosts@[i]@ == host@);
            }
        }
        b
    }

    pub fn is_sandboxed(&self) -> (b: bool)
        ensures
            b == self.sandboxed(),
    {
        self.sandboxed
    }

    /// Adds a path to the sandbox's allowed paths, unless it is listed.
    pub fn add_allowed_path(&mut self, path: String)
        ensures
            (exists|i: int| 0 <= i < old(self).allowed_paths().len() && (#[trigger] old(self).allowed_paths()[i])@ == path@)
                ==> final(self).allowed_paths() == old(self).allowed_paths(),
            !(exists|i: int| 0 <= i < old(self).allowed_paths().len() && (#[trigger] old(self).allowed_paths()[i])@ == path@)
                ==> final(self).allowed_paths() == old(self).allowed_paths().push(path),
            final(self).allowed_hosts() == old(self).allowed_hosts(),
            final(self).sandboxed() == old(self).sandboxed(),
            final(self).verifies_signatures() == old(self).verifies_signatures(),
            final(self).access() == old(self).access(),
    {
        if !contains_text(&self.allowed_paths, path.as_str()) {
            self.allowed_paths.push(path);
        }
    }

    /// Adds a host to the allowed hosts, unless it is listed.
    pub fn add_allowed_host(&mut self, host: String)
        ensures
            old(self).allowed_hosts().contains(host@) ==> final(self).allowed_hosts() == old(self).allowed_hosts(),
            !old(self).allowed_hosts().contains(host@) ==> final(self).allowed_hosts() == old(self).allowed_hosts().push(host@),
            final(self).allowed_paths() == old(self).allowed_paths(),
            final(self).sandboxed() == old(self).sandboxed(),
            final(self).verifies_signatures() == old(self).verifies_signatures(),
            final(self).access() == old(self).access(),
    {
        let ghost hs = self.allowed_hosts();
        let listed = contains_text(&self.allowed_hosts, host.as_str());
        proof {
            if listed {
                let i = choose|i: int| 0 <= i < self.allowed_hosts@.len() && (#[trigger] self.allowed_hosts@[i])@ == host@;
                assert(hs[i] == host@);
            } else if hs.contains(host@) {
                let i = choose|i: int| 0 <= i < hs.len() && hs[i] == host@;
                assert(self.allowed_hosts@[i]@ == host@);
            }
        }
        if !listed {
            self.allowed_hosts.push(host);
            proof {
                assert(self.allowed_hosts() =~= hs.push(host@));
            }
        }
    }

    pub fn set_sandboxed(&mut self, sandboxed: bool)
        ensures
            final(self).sandboxed() == sandboxed,
            final(self).allowed_paths() == old(self).allowed_paths(),
            final(self).allowed_hosts() == old(self).allowed_hosts(),
            final(self).verifies_signatures() == old(self).verifies_signatures(),
            final(self).access() == old(self).access(),
    {
        self.sandboxed = sandboxed;
    }

    pub fn set_verify_signatures(&mut self, verify: bool)
        ensures
            final(self).verifies_signatures() == verify,
            final(self).sandboxed() == old(self).sandboxed(),
            final(self).allowed_paths() == old(self).allowed_paths(),
            final(self).allowed_hosts() == old(self).allowed_hosts(),
            final(self).access() == old(self).access(),
    {
        self.verify_signatures = verify;
    }

    /// The access table, to change in place.
    pub fn get_role_based_access(&mut self) -> (r: &mut RoleBasedAccess)
        ensures
            *r == old(self).access(),
            final(self).access() == *final(r),
            final(self).sandboxed() == old(self).sandboxed(),
            final(self).allowed_paths() == old(self).allowed_paths(),
            final(self).allowed_hosts() == old(self).allowed_hosts(),
            final(self).verifies_signatures() == old(self).verifies_signatures(),
    {
        &mut self.role_based_access
    }

    /// The "admin" role: every action, no path or command lists.
    pub fn create_admin_role() -> (r: Role)
        ensures
            r.name@ == "admin"@,
            r.allowed_actions@ == all_actions(),
            r.allowed_paths@.len() == 0,
            r.denied_paths@.len() == 0,
            r.allowed_commands@.len() == 0,
            r.denied_commands@.len() == 0,
    {
        let mut actions: Vec<Action> = Vec::new();
        actions.push(Action::ReadFile);
        actions.push(Action::WriteFile);
        actions.push(Action::EditFile);
        actions.push(Action::ExecuteCommand);
        actions.push(Action::ReadImage);
        actions.push(Action::SaveContext);
        actions.push(Action::AccessNetwork);
        actions.push(Action::LoadPlugin);
        actions.push(Action::AccessEnvironment);
        proof {
            assert(actions@ =~= all_actions());
        }
        Role {
            name: owned("admin"),
            allowed_actions: actions,
            allowed_paths: Vec::new(),
            denied_paths: Vec::new(),
            allowed_commands: Vec::new(),
            denied_commands: Vec::new(),
        }
    }

    /// The "readonly" role: reading files and images and running the
    /// commands ls, pwd, cat, grep and find.
    pub fn create_readonly_role() -> (r: Role)
        ensures
            r.name@ == "readonly"@,
            r.allowed_actions@ == seq![Action::ReadFile, Action::ReadImage, Action::ExecuteCommand],
            r.allowed_paths@.len() == 0,
            r.denied_paths@.len() == 0,
            r.allowed_commands@.map_values(|c: String| c@) == seq!["ls"@, "pwd"@, "cat"@, "grep"@, "find"@],
            r.denied_commands@.len() == 0,
    {
        let mut actions: Vec<Action> = Vec::new();
        actions.push(Action::ReadFile);
        actions.push(Action::ReadImage);
        actions.push(Action::ExecuteCommand);
        let mut commands: Vec<String> = Vec::new();
        commands.push(owned("ls"));
        commands.push(owned("pwd"));
        commands.push(owned("cat"));
        commands.push(owned("grep"));
        commands.push(owned("find"));
        proof {
            assert(commands@.map_values(|c: String| c@) =~= seq!["ls"@, "pwd"@, "cat"@, "grep"@, "find"@]);
        }
        Role {
            name: owned("readonly"),
            allowed_actions: actions,
            allowed_paths: Vec::new(),
            denied_paths: Vec::new(),
            allowed_commands: commands,
            denied_commands: Vec::new(),
        }
    }
}

impl Default for SecurityManager {
    fn default() -> (r: Self)
        ensures
            r.verifies_signatures(),
            r.allowed_paths().len() == 0,
            r.allowed_hosts().len() == 0,
            !r.sandboxed(),
            r.access().default_role() == "default"@,
            r.access().assignments() == Map::<Seq<char>, Seq<char>>::empty(),
    {
        Self::new()
    }
}

/// Every action, in declaration order.
pub open spec fn all_actions() -> Seq<Action> {
    seq![
        Action::ReadFile,
        Action::WriteFile,
        Action::EditFile,
        Action::ExecuteCommand,
        Action::ReadImage,
        Action::SaveContext,
        Action::AccessNetwork,
        Action::LoadPlugin,
        Action::AccessEnvironment,
    ]
}


/// No role left by `without_name(s, n)` is named `n`.
pub proof fn lemma_without_name_excludes(s: Seq<Role>, n: Seq<char>)
    ensures
        forall|i: int| 0 <= i < without_name(s, n).len() ==> (#[trigger] without_name(s, n)[i]).name@ != n,
    decreases s.len(),
{
    if s.len() > 0 {
        lemma_without_name_excludes(s.drop_last(), n);
        let w = without_name(s.drop_last(), n);
        if s.last().name@ != n {
            assert forall|i: int| 0 <= i < w.push(s.last()).len() implies (#[trigger] w.push(
                s.last(),
            )[i]).name@ != n by {
                if i < w.len() {
                    assert(w.push(s.last())[i] == w[i]);
                }
            }
        }
    }
}

/// A path under one of the denied paths of the deciding role is refused,
/// whatever the action and whatever the role allows otherwise.
pub proof fn law_denied_path_is_refused(
    access: RoleBasedAccess,
    user: Seq<char>,
    action: Action,
    path: Seq<char>,
    denied: Seq<char>,
)
    requires
        role_named(access.roles(), access.role_of(user)) matches Some(r) && (exists|i: int|
            0 <= i < r.denied_paths@.len() && (#[trigger] r.denied_paths@[i])@ == denied),
        path_starts_with(path, denied),
    ensures
        !access.permits(user, action, Some(path)),
{
    let r = role_named(access.roles(), access.role_of(user)).unwrap();
    let i = choose|i: int| 0 <= i < r.denied_paths@.len() && (#[trigger] r.denied_paths@[i])@ == denied;
    assert(path_starts_with(path, r.denied_paths@[i]@));
}

/// An action the deciding role does not list is refused on every path.
pub proof fn law_unlisted_action_is_refused(
    access: RoleBasedAccess,
    user: Seq<char>,
    action: Action,
    path: Option<Seq<char>>,
)
    requires
        role_named(access.roles(), access.role_of(user)) matches Some(r) && !r.allows(action),
    ensures
        !access.permits(user, action, path),
{
}

/// After a successful `assign_role(user, name)`, the role named `name`
/// decides for `user`, and every other user is decided as before.
pub proof fn law_assignment_decides(
    before: RoleBasedAccess,
    after: RoleBasedAccess,
    user: Seq<char>,
    name: Seq<char>,
    other: Seq<char>,
    action: Action,
    path: Option<Seq<char>>,
)
    requires
        after.assignments() == before.assignments().insert(user, name),
        after.roles() == before.roles(),
        after.default_role() == before.default_role(),
        other != user,
    ensures
        after.permits(user, action, path) == role_permits(before.roles(), name, action, path),
        after.permits(other, action, path) == before.permits(other, action, path),
{
}

/// After `add_role(role)`, looking up the role's name finds that role.
pub proof fn law_added_role_is_found(before: RoleBasedAccess, after: RoleBasedAccess, role: Role)
    requires
        after.roles() == without_name(before.roles(), role.name@).push(role),
    ensures
        role_named(after.roles(), role.name@) == Some(role),
{
    let w = without_name(before.roles(), role.name@);
    lemma_without_name_excludes(before.roles(), role.name@);
    let s = after.roles();
    assert(s[w.len() as int] == role);
    let i = choose|i: int| 0 <= i < s.len() && (#[trigger] s[i]).name@ == role.name@;
    if i < w.len() {
        assert(s[i] == w[i]);
    }
}

/// The admin role allows every action on every path.
pub proof fn law_admin_role_allows_everything(r: Role, action: Action, path: Option<Seq<char>>)
    requires
        r.allowed_actions@ == all_actions(),
        r.allowed_paths@.len() == 0,
        r.denied_paths@.len() == 0,
    ensures
        r.allows(action),
        r.opens(path),
{
    let i: int = match action {
        Action::ReadFile => 0,
        Action::WriteFile => 1,
        Action::EditFile => 2,
        Action::ExecuteCommand => 3,
        Action::ReadImage => 4,
        Action::SaveContext => 5,
        Action::AccessNetwork => 6,
        Action::LoadPlugin => 7,
        Action::AccessEnvironment => 8,
    };
    assert(r.allowed_actions@[i] == action);
}

} // verus!
