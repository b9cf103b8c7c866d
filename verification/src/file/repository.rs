//! How actively each file of the workspace is used, and the tree view of a
//! workspace: which entries are shown, in what order, how deep and how many.
//! Paths are held as text; reading the directories themselves happens outside
//! this module, which is handed what was read.
use vstd::prelude::*;
use crate::text::{decimal, push_decimal, push_repeat, push_str, str_eq, str_starts_with, starts_with, to_chars};

verus! {

/// Directories left out of listings.
pub open spec fn ignored_dir(name: Seq<char>) -> bool {
    name == ".git"@ || name == "node_modules"@ || name == "target"@ || name == "build"@ || name
        == "dist"@ || name == "venv"@ || name == ".venv"@ || name == ".env"@ || name
        == "__pycache__"@ || name == ".DS_Store"@
}

/// Represents activity metrics of a file
#[derive(Debug, Clone, Copy, PartialEq, Eq, Structural)]
pub struct FileActivity {
    pub read_count: usize,
    pub edit_count: usize,
    pub write_count: usize,
}

impl FileActivity {
    /// Reads weigh two, edits three, writes one.
    pub open spec fn score(self) -> int {
        2 * self.read_count + 3 * self.edit_count + self.write_count
    }

    /// Calculate activity score
    pub fn activity_score(&self) -> (s: usize)
        requires
            self.score() <= usize::MAX,
        ensures
            s == self.score(),
    {
        self.read_count * 2 + self.edit_count * 3 + self.write_count
    }
}

impl Default for FileActivity {
    fn default() -> (r: Self)
        ensures
            r.read_count == 0 && r.edit_count == 0 && r.write_count == 0,
    {
        FileActivity { read_count: 0, edit_count: 0, write_count: 0 }
    }
}

/// The activity after one more of `kind` ("read", "edit" or "write"; any
/// other kind changes nothing).
pub open spec fn bumped(a: FileActivity, kind: Seq<char>) -> FileActivity {
    if kind == "read"@ {
        FileActivity { read_count: (a.read_count + 1) as usize, ..a }
    } else if kind == "edit"@ {
        FileActivity { edit_count: (a.edit_count + 1) as usize, ..a }
    } else if kind == "write"@ {
        FileActivity { write_count: (a.write_count + 1) as usize, ..a }
    } else {
        a
    }
}

/// `x` placed into `s` after every entry that scores at least as high.
pub open spec fn insert_by_score(s: Seq<(Seq<char>, int)>, x: (Seq<char>, int)) -> Seq<(Seq<char>, int)>
    decreases s.len(),
{
    if s.len() == 0 {
        seq![x]
    } else if s.last().1 >= x.1 {
        s.push(x)
    } else {
        insert_by_score(s.drop_last(), x).push(s.last())
    }
}

/// The entries sorted by score, highest first, keeping their order among
/// equal scores.
pub open spec fn by_score(s: Seq<(Seq<char>, int)>) -> Seq<(Seq<char>, int)>
    decreases s.len(),
{
    if s.len() == 0 {
        seq![]
    } else {
        insert_by_score(by_score(s.drop_last()), s.last())
    }
}

/// Repository explorer for analyzing workspace structure: the activity of
/// each file, in the order the files were first seen.
#[derive(Debug)]
pub struct RepositoryExplorer {
    file_activities: Vec<(String, FileActivity)>,
}

impl RepositoryExplorer {
    #[verifier::type_invariant]
    spec fn well_formed(self) -> bool {
        forall|i: int, j: int|
            0 <= i < j < self.file_activities@.len() ==> (#[trigger] self.file_activities@[i]).0@
                != (#[trigger] self.file_activities@[j]).0@
    }

    /// Each file seen and its activity, in the order first seen.
    pub closed spec fn activities(self) -> Seq<(Seq<char>, FileActivity)> {
        self.file_activities@.map_values(|e: (String, FileActivity)| (e.0@, e.1))
    }

    /// Each file seen and its score, in the order first seen.
    pub open spec fn scores(self) -> Seq<(Seq<char>, int)> {
        self.activities().map_values(|e: (Seq<char>, FileActivity)| (e.0, e.1.score()))
    }

    /// No file is listed twice.
    pub closed spec fn names_unique(self) -> bool {
        files_unique(self.file_activities@)
    }

    /// The activity recorded for `path` (all counts zero when none is).
    pub closed spec fn activity_of(self, path: Seq<char>) -> FileActivity {
        activity_in(self.file_activities@, path)
    }

    /// Create a new repository explorer
    pub fn new() -> (r: Self)
        ensures
            r.activities().len() == 0,
    {
        let r = RepositoryExplorer { file_activities: Vec::new() };
        proof {
            assert(r.activities() =~= Seq::<(Seq<char>, FileActivity)>::empty());
        }
        r
    }

    /// Track file activity: one more read, edit or write of `path`.
    pub fn track_activity(&mut self, path: &str, activity_type: &str)
        requires
            activity_type@ == "read"@ ==> old(self).activity_of(path@).read_count < usize::MAX,
            activity_type@ == "edit"@ ==> old(self).activity_of(path@).edit_count < usize::MAX,
            activity_type@ == "write"@ ==> old(self).activity_of(path@).write_count < usize::MAX,
        ensures
            final(self).activity_of(path@) == bumped(old(self).activity_of(path@), activity_type@),
            forall|p: Seq<char>| p != path@ ==> final(self).activity_of(p) == old(self).activity_of(p),
            final(self).activities().len() >= old(self).activities().len(),
            forall|i: int|
                0 <= i < old(self).activities().len() ==> (#[trigger] final(self).activities()[i]).0
                    == old(self).activities()[i].0,
            exists|i: int| 0 <= i < final(self).activities().len() && (#[trigger] final(self).activities()[i]).0 == path@,
            tracked_from(*old(self), *final(self), path@, activity_type@),
    {
        proof {
            use_type_invariant(&*self);
        }
        let ghost before = self.activities();
        let mut list: Vec<(String, FileActivity)> = Vec::new();
        std::mem::swap(&mut list, &mut self.file_activities);
        let ghost raw = list@;
        let mut i: usize = 0;
        let mut found: Option<usize> = None;
        while i < list.len()
            invariant_except_break
                i <= list.len(),
                list@ == raw,
                found is None,
                forall|j: int| 0 <= j < i ==> (#[trigger] list@[j]).0@ != path@,
            ensures
                list@ == raw,
                match found {
                    Some(k) => k < list.len() && list@[k as int].0@ == path@,
                    None => forall|j: int| 0 <= j < list.len() ==> (#[trigger] list@[j]).0@ != path@,
                },
            decreases list.len() - i,
        {
            if str_eq(list[i].0.as_str(), path) {
                found = Some(i);
                break;
            }
            i += 1;
        }
        let a: FileActivity = match found {
            Some(k) => list[k].1,
            None => FileActivity { read_count: 0, edit_count: 0, write_count: 0 },
        };
        proof {
            match found {
                Some(k) => {
                    lemma_activity_at(raw, k as int);
                },
                None => {
                    assert(!exists|j: int| 0 <= j < before.len() && (#[trigger] before[j]).0 == path@);
                },
            }
        }
        let b: FileActivity = if str_eq(activity_type, "read") {
            FileActivity { read_count: a.read_count + 1, ..a }
        } else if str_eq(activity_type, "edit") {
            FileActivity { edit_count: a.edit_count + 1, ..a }
        } else if str_eq(activity_type, "write") {
            FileActivity { write_count: a.write_count + 1, ..a }
        } else {
            a
        };
        let ghost mut at: int = 0;
        match found {
            Some(k) => {
                let name = crate::text::owned(path);
                proof {
                    at = k as int;
                }
                list.set(k, (name, b));
                proof {
                    lemma_activity_update(raw, k as int, list@[k as int]);
                    assert(list@.map_values(|e: (String, FileActivity)| (e.0@, e.1))[k as int].0 == path@);
                }
            },
            None => {
                let name = crate::text::owned(path);
                proof {
                    at = raw.len() as int;
                }
                list.push((name, b));
                proof {
                    lemma_activity_push(raw, list@[raw.len() as int]);
                    assert(list@.map_values(|e: (String, FileActivity)| (e.0@, e.1))[raw.len() as int].0 == path@);
                }
            },
        }
        self.file_activities = list;
        proof {
            assert(self.activities()[at].0 == path@);
            use_type_invariant(&*self);
        }
    }

    /// Get most active files: the `limit` files of highest score, highest
    /// first; files of equal score in the order first seen.
    pub fn get_active_files(&self, limit: usize) -> (r: Vec<(String, usize)>)
        requires
            forall|i: int| 0 <= i < self.activities().len() ==> (#[trigger] self.activities()[i]).1.score() <= usize::MAX,
        ensures
            r@.map_values(|e: (String, usize)| (e.0@, e.1 as int)) == by_score(self.scores()).take(
                if limit < self.scores().len() {
                    limit as int
                } else {
                    self.scores().len() as int
                },
            ),
    {
        let ghost all = self.scores();
        let mut sorted: Vec<(String, usize)> = Vec::new();
        let mut i: usize = 0;
        while i < self.file_activities.len()
            invariant
                i <= self.file_activities.len(),
                all == self.scores(),
                all.len() == self.file_activities.len(),
                forall|k: int| 0 <= k < self.activities().len() ==> (#[trigger] self.activities()[k]).1.score() <= usize::MAX,
                sorted@.map_values(|e: (String, usize)| (e.0@, e.1 as int)) == by_score(all.take(i as int)),
            decreases self.file_activities.len() - i,
        {
            let entry = &self.file_activities[i];
            proof {
                assert(self.activities()[i as int] == (entry.0@, entry.1));
            }
            let score = entry.1.activity_score();
            let x = (entry.0.clone(), score);
            let ghost s = sorted@.map_values(|e: (String, usize)| (e.0@, e.1 as int));
            let ghost xv = (x.0@, x.1 as int);
            let mut p: usize = sorted.len();
            while p > 0 && sorted[p - 1].1 < score
                invariant
                    p <= sorted.len(),
                    s == sorted@.map_values(|e: (String, usize)| (e.0@, e.1 as int)),
                    forall|k: int| p <= k < s.len() ==> (#[trigger] s[k]).1 < score,
                decreases p,
            {
                p -= 1;
            }
            proof {
                lemma_insert_score_at(s, xv, p as int);
                assert(all.take(i + 1).drop_last() =~= all.take(i as int));
                assert(all[i as int] == xv);
            }
            sorted.insert(p, x);
            proof {
                assert(sorted@.map_values(|e: (String, usize)| (e.0@, e.1 as int)) =~= s.insert(p as int, xv));
            }
            i += 1;
        }
        proof {
            assert(all.take(all.len() as int) =~= all);
        }
        let ghost full = sorted@.map_values(|e: (String, usize)| (e.0@, e.1 as int));
        sorted.truncate(limit);
        proof {
            assert(sorted@.map_values(|e: (String, usize)| (e.0@, e.1 as int)) =~= full.take(
                if limit < full.len() {
                    limit as int
                } else {
                    full.len() as int
                },
            ));
            lemma_by_score_len(all);
        }
        sorted
    }

    /// Whether a directory entry is left out of listings: a directory of a
    /// build, dependency or tool name, or any hidden entry (a name starting
    /// with a dot, other than "." and "..").
    pub fn should_ignore(&self, file_name: Option<&str>, is_dir: bool) -> (b: bool)
        ensures
            b == match file_name {
                Some(n) => (is_dir && ignored_dir(n@)) || (starts_with(n@, "."@) && n@ != "."@ && n@
                    != ".."@),
                None => false,
            },
    {
        match file_name {
            Some(n) => {
                if is_dir && (str_eq(n, ".git") || str_eq(n, "node_modules") || str_eq(n, "target")
                    || str_eq(n, "build") || str_eq(n, "dist") || str_eq(n, "venv") || str_eq(
                    n,
                    ".venv",
                ) || str_eq(n, ".env") || str_eq(n, "__pycache__") || str_eq(n, ".DS_Store")) {
                    return true;
                }
                str_starts_with(n, ".") && !str_eq(n, ".") && !str_eq(n, "..")
            },
            None => false,
        }
    }
}

impl Default for RepositoryExplorer {
    fn default() -> (r: Self)
        ensures
            r.activities().len() == 0,
    {
        Self::new()
    }
}


// ---------------------------------------------------------------------------
// Tree view of a workspace
// ---------------------------------------------------------------------------

/// Directories nested deeper than this are not shown.
pub const MAX_DEPTH: usize = 5;

/// At most this many files are shown per directory.
pub const MAX_FILES_PER_DIR: usize = 20;

/// At most this many files are shown in all.
pub const MAX_TOTAL_FILES: usize = 200;

/// One entry of a directory, as read from disk.
#[derive(Debug)]
pub struct DirEntryInfo {
    /// The entry's name; `None` where it is not valid Unicode.
    pub name: Option<String>,
    /// Whether the entry is a directory.
    pub is_dir: bool,
    /// For a directory, what reading it gave; `None` where it was not read.
    pub listing: Option<DirListing>,
}

/// What reading a directory gave: its entries in any order, or the error.
#[derive(Debug)]
pub enum DirListing {
    Read(Vec<DirEntryInfo>),
    Failed(String),
}

/// The entry's name as text.
pub open spec fn name_view(e: DirEntryInfo) -> Option<Seq<char>> {
    match e.name {
        Some(n) => Some(n@),
        None => None,
    }
}

/// Whether the entry is left out of the view (as `should_ignore` decides).
pub open spec fn ignored_entry(e: DirEntryInfo) -> bool {
    match e.name {
        Some(n) => (e.is_dir && ignored_dir(n@)) || (starts_with(n@, "."@) && n@ != "."@ && n@ != ".."@),
        None => false,
    }
}

/// The entries of `es` that are shown and are directories (`dirs`) or
/// files (`!dirs`), in their order in `es`.
pub open spec fn shown(es: Seq<DirEntryInfo>, dirs: bool) -> Seq<DirEntryInfo>
    decreases es.len(),
{
    if es.len() == 0 {
        seq![]
    } else {
        let rest = shown(es.drop_last(), dirs);
        let e = es.last();
        if !ignored_entry(e) && e.is_dir == dirs {
            rest.push(e)
        } else {
            rest
        }
    }
}

/// Whether `x` comes before `y` comparing characters from position `i` on
/// (by code point, a prefix first).
pub open spec fn text_before_from(x: Seq<char>, y: Seq<char>, i: int) -> bool
    decreases x.len() - i,
{
    if i >= x.len() {
        i < y.len()
    } else if i >= y.len() {
        false
    } else if x[i] != y[i] {
        (x[i] as u32) < (y[i] as u32)
    } else {
        text_before_from(x, y, i + 1)
    }
}

/// Whether name `a` sorts strictly before name `b`: by code point, which for
/// Unicode names is the order of their bytes; a name that is not Unicode
/// comes before every other.
pub open spec fn name_before(a: Option<Seq<char>>, b: Option<Seq<char>>) -> bool {
    match (a, b) {
        (None, Some(_)) => true,
        (Some(x), Some(y)) => text_before_from(x, y, 0),
        _ => false,
    }
}

/// Where `x` goes in a list sorted by name: after every entry it does not
/// sort before.
pub open spec fn name_pos(v: Seq<DirEntryInfo>, x: DirEntryInfo) -> nat
    decreases v.len(),
{
    if v.len() == 0 || name_before(name_view(x), name_view(v[0])) {
        0
    } else {
        1 + name_pos(v.drop_first(), x)
    }
}

/// The entries sorted by name, entries of equal name in their given order.
pub open spec fn sorted_by_name(v: Seq<DirEntryInfo>) -> Seq<DirEntryInfo>
    decreases v.len(),
{
    if v.len() == 0 {
        v
    } else {
        let r = sorted_by_name(v.drop_last());
        let p = name_pos(r, v.last()) as int;
        r.take(p).push(v.last()) + r.skip(p)
    }
}

/// `n` spaces.
pub open spec fn spaces(n: nat) -> Seq<char> {
    Seq::new(n, |i: int| ' ')
}

/// The lines for the files `fs[i..]` (at most the first
/// `MAX_FILES_PER_DIR` of `fs` are shown, none once `MAX_TOTAL_FILES` are
/// shown; a name that is not Unicode is skipped), and the count of files
/// shown after them.
pub open spec fn file_lines(fs: Seq<DirEntryInfo>, i: int, indent: nat, total: nat) -> (Seq<char>, nat)
    decreases fs.len() - i,
{
    if i < 0 || i >= fs.len() || i >= MAX_FILES_PER_DIR || total >= MAX_TOTAL_FILES {
        (seq![], total)
    } else {
        match name_view(fs[i]) {
            Some(n) => {
                let (rest, t) = file_lines(fs, i + 1, indent, total + 1);
                (spaces(indent + 2) + n + "\n"@ + rest, t)
            },
            None => file_lines(fs, i + 1, indent, total),
        }
    }
}

/// The lines for the directories `ds[i..]` of a directory at `depth`, each
/// followed by its own contents, and the count of files shown after them.
pub open spec fn dir_lines(ds: Seq<DirEntryInfo>, i: int, depth: nat, indent: nat, total: nat) -> (Seq<char>, nat)
    decreases MAX_DEPTH + 1 - depth, 0nat, ds.len() - i,
{
    if i < 0 || i >= ds.len() || depth > MAX_DEPTH {
        (seq![], total)
    } else {
        match name_view(ds[i]) {
            Some(n) => {
                let head = spaces(indent + 2) + n + "/ (dir)\n"@;
                let (sub, t1) = match ds[i].listing {
                    Some(l) => listing_lines(l, depth + 1, indent + 4, total),
                    None => (seq![], total),
                };
                let (rest, t2) = dir_lines(ds, i + 1, depth, indent, t1);
                (head + sub + rest, t2)
            },
            None => dir_lines(ds, i + 1, depth, indent, total),
        }
    }
}

/// The lines for a directory read at `depth` and indented by `indent`, when
/// `total` files were shown before it, and the count of files shown after:
/// nothing past `MAX_DEPTH` or once `MAX_TOTAL_FILES` are shown; else the
/// error, or the shown subdirectories by name, each with its contents, then
/// the shown files by name, then how many files were left out.
pub open spec fn listing_lines(l: DirListing, depth: nat, indent: nat, total: nat) -> (Seq<char>, nat)
    decreases MAX_DEPTH + 1 - depth, 1nat, 0nat,
{
    if depth > MAX_DEPTH || total >= MAX_TOTAL_FILES {
        (seq![], total)
    } else {
        match l {
            DirListing::Failed(e) => (spaces(indent) + "Error reading directory: "@ + e@ + "\n"@, total),
            DirListing::Read(es) => {
                let (a, t1) = dir_lines(sorted_by_name(shown(es@, true)), 0, depth, indent, total);
                let fs = sorted_by_name(shown(es@, false));
                let (b, t2) = file_lines(fs, 0, indent, t1);
                let more = if fs.len() > MAX_FILES_PER_DIR {
                    spaces(indent + 2) + "... ("@ + decimal((fs.len() - MAX_FILES_PER_DIR) as nat)
                        + " more files)\n"@
                } else {
                    seq![]
                };
                (a + b + more, t2)
            },
        }
    }
}


proof fn lemma_name_pos(v: Seq<DirEntryInfo>, x: DirEntryInfo, k: int)
    requires
        0 <= k <= v.len(),
        forall|j: int| 0 <= j < k ==> !name_before(name_view(x), name_view(#[trigger] v[j])),
        k == v.len() || name_before(name_view(x), name_view(v[k])),
    ensures
        name_pos(v, x) == k,
    decreases k,
{
    if k > 0 {
        let t = v.drop_first();
        assert forall|j: int| 0 <= j < k - 1 implies !name_before(name_view(x), name_view(#[trigger] t[j])) by {
            assert(t[j] == v[j + 1]);
        }
        if k < v.len() {
            assert(t[k - 1] == v[k]);
        }
        lemma_name_pos(t, x, k - 1);
    }
}

/// Whether `x` sorts before `y` by code point.
fn text_before(x: &[char], y: &[char]) -> (b: bool)
    ensures
        b == text_before_from(x@, y@, 0),
{
    let mut i: usize = 0;
    while i < x.len() && i < y.len() && x[i] == y[i]
        invariant
            i <= x.len(),
            i <= y.len(),
            text_before_from(x@, y@, 0) == text_before_from(x@, y@, i as int),
        decreases x.len() - i,
    {
        i += 1;
    }
    if i >= x.len() {
        i < y.len()
    } else if i >= y.len() {
        false
    } else {
        (x[i] as u32) < (y[i] as u32)
    }
}

fn name_sorts_before(a: &Option<String>, b: &Option<String>) -> (r: bool)
    ensures
        r == name_before(
            match a {
                Some(n) => Some(n@),
                None => None,
            },
            match b {
                Some(n) => Some(n@),
                None => None,
            },
        ),
{
    match (a, b) {
        (None, Some(_)) => true,
        (Some(x), Some(y)) => {
            let xs = to_chars(x.as_str());
            let ys = to_chars(y.as_str());
            text_before(xs.as_slice(), ys.as_slice())
        },
        _ => false,
    }
}

impl RepositoryExplorer {
    fn entry_ignored(&self, e: &DirEntryInfo) -> (b: bool)
        ensures
            b == ignored_entry(*e),
    {
        let name: Option<&str> = match &e.name {
            Some(n) => Some(n.as_str()),
            None => None,
        };
        self.should_ignore(name, e.is_dir)
    }

    /// The shown directories (`dirs`) or files of `es`, sorted by name.
    fn shown_sorted<'a>(&self, es: &'a Vec<DirEntryInfo>, dirs: bool) -> (r: Vec<&'a DirEntryInfo>)
        ensures
            r@.map_values(|x: &DirEntryInfo| *x) == sorted_by_name(shown(es@, dirs)),
    {
        let mut f: Vec<&'a DirEntryInfo> = Vec::new();
        let mut i: usize = 0;
        while i < es.len()
            invariant
                i <= es.len(),
                f@.map_values(|x: &DirEntryInfo| *x) == shown(es@.take(i as int), dirs),
            decreases es.len() - i,
        {
            let e = &es[i];
            let ghost before = f@.map_values(|x: &DirEntryInfo| *x);
            proof {
                assert(es@.take(i + 1).drop_last() =~= es@.take(i as int));
                assert(es@.take(i + 1).last() == *e);
            }
            if !self.entry_ignored(e) && e.is_dir == dirs {
                f.push(e);
                proof {
                    assert(f@.map_values(|x: &DirEntryInfo| *x) =~= before.push(*e));
                }
            }
            i += 1;
        }
        proof {
            assert(es@.take(es.len() as int) =~= es@);
        }
        let ghost fv = f@.map_values(|x: &DirEntryInfo| *x);
        let mut r: Vec<&'a DirEntryInfo> = Vec::new();
        let mut k: usize = 0;
        while k < f.len()
            invariant
                k <= f.len(),
                fv == f@.map_values(|x: &DirEntryInfo| *x),
                r@.map_values(|x: &DirEntryInfo| *x) == sorted_by_name(fv.take(k as int)),
            decreases f.len() - k,
        {
            let x = f[k];
            let ghost rv = r@.map_values(|y: &DirEntryInfo| *y);
            let mut p: usize = 0;
            while p < r.len() && !name_sorts_before(&x.name, &r[p].name)
                invariant
                    p <= r.len(),
                    rv == r@.map_values(|y: &DirEntryInfo| *y),
                    forall|j: int| 0 <= j < p ==> !name_before(name_view(*x), name_view(#[trigger] rv[j])),
                decreases r.len() - p,
            {
                p += 1;
            }
            proof {
                lemma_name_pos(rv, *x, p as int);
                assert(fv.take(k + 1).drop_last() =~= fv.take(k as int));
                assert(fv.take(k + 1).last() == *x);
            }
            r.insert(p, x);
            proof {
                assert(r@.map_values(|y: &DirEntryInfo| *y) =~= rv.take(p as int).push(*x) + rv.skip(p as int));
            }
            k += 1;
        }
        proof {
            assert(fv.take(f.len() as int) =~= fv);
        }
        r
    }
}


impl RepositoryExplorer {
    /// Appends the lines for the files `fs`, counting them in `total`.
    fn push_file_lines(&self, fs: &Vec<&DirEntryInfo>, indent: usize, total: &mut usize, out: &mut Vec<char>)
        requires
            indent <= 100,
            *old(total) <= MAX_TOTAL_FILES,
        ensures
            ({
                let (text, t) = file_lines(fs@.map_values(|x: &DirEntryInfo| *x), 0, indent as nat, *old(total) as nat);
                final(out)@ == old(out)@ + text && *final(total) == t
            }),
            *final(total) <= MAX_TOTAL_FILES,
    {
        let ghost fv = fs@.map_values(|x: &DirEntryInfo| *x);
        let ghost start = out@;
        let ghost t0 = *total as nat;
        let mut i: usize = 0;
        while i < fs.len() && i < MAX_FILES_PER_DIR && *total < MAX_TOTAL_FILES
            invariant
                fv == fs@.map_values(|x: &DirEntryInfo| *x),
                indent <= 100,
                i <= fs.len(),
                *total <= MAX_TOTAL_FILES,
                out@.len() >= start.len(),
                file_lines(fv, 0, indent as nat, t0) == (
                    out@.skip(start.len() as int) + file_lines(fv, i as int, indent as nat, *total as nat).0,
                    file_lines(fv, i as int, indent as nat, *total as nat).1,
                ),
                out@.take(start.len() as int) == start,
            decreases fs.len() - i,
        {
            let e = fs[i];
            let ghost before = out@;
            match &e.name {
                Some(n) => {
                    push_repeat(out, ' ', indent + 2);
                    push_str(out, n.as_str());
                    out.push('\n');
                    proof {
                        assert(Seq::new((indent + 2) as nat, |j: int| ' ') =~= spaces((indent + 2) as nat));
                        assert(out@.skip(start.len() as int) =~= before.skip(start.len() as int) + spaces(
                            (indent + 2) as nat,
                        ) + n@ + "\n"@) by {
                            reveal_strlit("\n");
                        }
                    }
                    *total = *total + 1;
                },
                None => {},
            }
            proof {
                assert(out@.take(start.len() as int) =~= start);
            }
            i += 1;
        }
        proof {
            assert(out@ =~= start + out@.skip(start.len() as int));
        }
    }
}


impl RepositoryExplorer {
    /// Appends the lines for the directories `ds`, each followed by its
    /// contents.
    fn push_dir_lines(
        &self,
        ds: &Vec<&DirEntryInfo>,
        depth: usize,
        indent: usize,
        total: &mut usize,
        out: &mut Vec<char>,
    )
        requires
            depth <= MAX_DEPTH,
            indent <= 4 * depth,
            *old(total) <= MAX_TOTAL_FILES,
        ensures
            ({
                let (text, t) = dir_lines(
                    ds@.map_values(|x: &DirEntryInfo| *x),
                    0,
                    depth as nat,
                    indent as nat,
                    *old(total) as nat,
                );
                final(out)@ == old(out)@ + text && *final(total) == t
            }),
            *final(total) <= MAX_TOTAL_FILES,
        decreases MAX_DEPTH + 1 - depth, 0nat,
    {
        let ghost dv = ds@.map_values(|x: &DirEntryInfo| *x);
        let ghost start = out@;
        let ghost t0 = *total as nat;
        let mut i: usize = 0;
        while i < ds.len()
            invariant
                dv == ds@.map_values(|x: &DirEntryInfo| *x),
                depth <= MAX_DEPTH,
                indent <= 4 * depth,
                i <= ds.len(),
                *total <= MAX_TOTAL_FILES,
                out@.len() >= start.len(),
                out@.take(start.len() as int) == start,
                dir_lines(dv, 0, depth as nat, indent as nat, t0) == (
                    out@.skip(start.len() as int) + dir_lines(dv, i as int, depth as nat, indent as nat, *total as nat).0,
                    dir_lines(dv, i as int, depth as nat, indent as nat, *total as nat).1,
                ),
            decreases ds.len() - i,
        {
            let e = ds[i];
            let ghost before = out@;
            let ghost tb = *total as nat;
            match &e.name {
                Some(n) => {
                    push_repeat(out, ' ', indent + 2);
                    push_str(out, n.as_str());
                    push_str(out, "/ (dir)\n");
                    let ghost mid = out@;
                    match &e.listing {
                        Some(l) => {
                            self.push_listing_lines(l, depth + 1, indent + 4, total, out);
                        },
                        None => {},
                    }
                    proof {
                        assert(Seq::new((indent + 2) as nat, |j: int| ' ') =~= spaces((indent + 2) as nat));
                        let sub = match dv[i as int].listing {
                            Some(l) => listing_lines(l, depth as nat + 1, indent as nat + 4, tb),
                            None => (Seq::<char>::empty(), tb),
                        };
                        assert(out@ =~= mid + sub.0);
                        assert(out@.skip(start.len() as int) =~= before.skip(start.len() as int) + (
                            spaces((indent + 2) as nat) + n@ + "/ (dir)\n"@) + sub.0);
                    }
                },
                None => {},
            }
            proof {
                assert(out@.take(start.len() as int) =~= start);
            }
            i += 1;
        }
        proof {
            assert(out@ =~= start + out@.skip(start.len() as int));
        }
    }

    /// Appends the lines for a directory read at `depth`.
    fn push_listing_lines(
        &self,
        l: &DirListing,
        depth: usize,
        indent: usize,
        total: &mut usize,
        out: &mut Vec<char>,
    )
        requires
            depth <= MAX_DEPTH + 1,
            indent <= 4 * depth,
            *old(total) <= MAX_TOTAL_FILES,
        ensures
            ({
                let (text, t) = listing_lines(*l, depth as nat, indent as nat, *old(total) as nat);
                final(out)@ == old(out)@ + text && *final(total) == t
            }),
            *final(total) <= MAX_TOTAL_FILES,
        decreases MAX_DEPTH + 1 - depth, 1nat,
    {
        if depth > MAX_DEPTH || *total >= MAX_TOTAL_FILES {
            proof {
                assert(out@ =~= old(out)@ + Seq::<char>::empty());
            }
            return;
        }
        match l {
            DirListing::Failed(e) => {
                let ghost before = out@;
                push_repeat(out, ' ', indent);
                push_str(out, "Error reading directory: ");
                push_str(out, e.as_str());
                out.push('\n');
                proof {
                    assert(Seq::new(indent as nat, |j: int| ' ') =~= spaces(indent as nat));
                    reveal_strlit("\n");
                    assert(out@ =~= before + (spaces(indent as nat) + "Error reading directory: "@ + e@
                        + "\n"@));
                }
            },
            DirListing::Read(es) => {
                let ghost before = out@;
                let dirs = self.shown_sorted(es, true);
                self.push_dir_lines(&dirs, depth, indent, total, out);
                let ghost after_dirs = out@;
                let files = self.shown_sorted(es, false);
                self.push_file_lines(&files, indent, total, out);
                let ghost after_files = out@;
                if files.len() > MAX_FILES_PER_DIR {
                    push_repeat(out, ' ', indent + 2);
                    push_str(out, "... (");
                    push_decimal(out, (files.len() - MAX_FILES_PER_DIR) as u64);
                    push_str(out, " more files)\n");
                    proof {
                        assert(Seq::new((indent + 2) as nat, |j: int| ' ') =~= spaces((indent + 2) as nat));
                        assert(out@ =~= after_files + (spaces((indent + 2) as nat) + "... ("@ + decimal(
                            (files.len() - MAX_FILES_PER_DIR) as nat,
                        ) + " more files)\n"@));
                    }
                } else {
                    proof {
                        assert(out@ =~= after_files + Seq::<char>::empty());
                    }
                }
                proof {
                    assert(out@ =~= before + (after_dirs.skip(before.len() as int) + after_files.skip(
                        after_dirs.len() as int,
                    ) + out@.skip(after_files.len() as int)));
                }
            },
        }
    }

    /// The tree view of a workspace: the root's path on the first line,
    /// then the root's contents, subdirectories first, each followed by its
    /// own contents, then files, each level by name and indented further.
    /// Hidden entries and build or dependency directories are left out, as
    /// is anything nested deeper than `MAX_DEPTH`; at most
    /// `MAX_FILES_PER_DIR` files are shown per directory, with a count of
    /// the rest, and at most `MAX_TOTAL_FILES` in all. `root` is what
    /// reading the root gave, each directory entry with what reading it gave.
    pub fn explore_workspace(&self, root_path: &str, root: &DirListing) -> (r: String)
        ensures
            r@ == root_path@ + "\n"@ + listing_lines(*root, 0, 0, 0).0,
    {
        let mut out: Vec<char> = Vec::new();
        push_str(&mut out, root_path);
        out.push('\n');
        let mut total: usize = 0;
        let ghost head = out@;
        self.push_listing_lines(root, 0, 0, &mut total, &mut out);
        proof {
            reveal_strlit("\n");
            assert(head =~= root_path@ + "\n"@);
        }
        crate::text::from_chars(out.as_slice())
    }
}


// ---------------------------------------------------------------------------
// Recently modified files
// ---------------------------------------------------------------------------

/// Whether a file modified at `a` comes before one modified at `b`: newer
/// first, files of unknown time last.
pub open spec fn newer(a: Option<u128>, b: Option<u128>) -> bool {
    match (a, b) {
        (Some(x), Some(y)) => x > y,
        (Some(_), None) => true,
        _ => false,
    }
}

/// Where `x` goes in a list sorted newest first: after every file it is not
/// newer than.
pub open spec fn time_pos(v: Seq<(Seq<char>, Option<u128>)>, x: (Seq<char>, Option<u128>)) -> nat
    decreases v.len(),
{
    if v.len() == 0 || newer(x.1, v[0].1) {
        0
    } else {
        1 + time_pos(v.drop_first(), x)
    }
}

/// The files sorted newest first, files of equal time in their given order.
pub open spec fn newest_first(v: Seq<(Seq<char>, Option<u128>)>) -> Seq<(Seq<char>, Option<u128>)>
    decreases v.len(),
{
    if v.len() == 0 {
        v
    } else {
        let r = newest_first(v.drop_last());
        let p = time_pos(r, v.last()) as int;
        r.take(p).push(v.last()) + r.skip(p)
    }
}

proof fn lemma_time_pos(v: Seq<(Seq<char>, Option<u128>)>, x: (Seq<char>, Option<u128>), k: int)
    requires
        0 <= k <= v.len(),
        forall|j: int| 0 <= j < k ==> !newer(x.1, (#[trigger] v[j]).1),
        k == v.len() || newer(x.1, v[k].1),
    ensures
        time_pos(v, x) == k,
    decreases k,
{
    if k > 0 {
        let t = v.drop_first();
        assert forall|j: int| 0 <= j < k - 1 implies !newer(x.1, (#[trigger] t[j]).1) by {
            assert(t[j] == v[j + 1]);
        }
        if k < v.len() {
            assert(t[k - 1] == v[k]);
        }
        lemma_time_pos(t, x, k - 1);
    }
}

proof fn lemma_newest_first_len(v: Seq<(Seq<char>, Option<u128>)>)
    ensures
        newest_first(v).len() == v.len(),
    decreases v.len(),
{
    if v.len() > 0 {
        lemma_newest_first_len(v.drop_last());
        let r = newest_first(v.drop_last());
        lemma_time_pos_bound(r, v.last());
    }
}

proof fn lemma_time_pos_bound(v: Seq<(Seq<char>, Option<u128>)>, x: (Seq<char>, Option<u128>))
    ensures
        time_pos(v, x) <= v.len(),
    decreases v.len(),
{
    if v.len() > 0 && !newer(x.1, v[0].1) {
        lemma_time_pos_bound(v.drop_first(), x);
    }
}

impl RepositoryExplorer {
    /// The most recently modified files, newest first, at most `limit` of
    /// them. `files` holds each file shown in the workspace with its
    /// modification time in nanoseconds since the Unix epoch (`None` where
    /// the time could not be read); files of equal time keep their order, and
    /// files of unknown time come last.
    pub fn get_recent_files(&self, files: &Vec<(String, Option<u128>)>, limit: usize) -> (r: Vec<String>)
        ensures
            ({
                let sorted = newest_first(files@.map_values(|f: (String, Option<u128>)| (f.0@, f.1)));
                let n = if limit < files.len() { limit as int } else { files.len() as int };
                r@.map_values(|s: String| s@) == sorted.take(n).map_values(|f: (Seq<char>, Option<u128>)| f.0)
            }),
    {
        let ghost fv = files@.map_values(|f: (String, Option<u128>)| (f.0@, f.1));
        let mut order: Vec<usize> = Vec::new();
        let ghost mut sorted: Seq<(Seq<char>, Option<u128>)> = Seq::empty();
        let mut k: usize = 0;
        while k < files.len()
            invariant
                k <= files.len(),
                fv == files@.map_values(|f: (String, Option<u128>)| (f.0@, f.1)),
                order@.len() == sorted.len(),
                forall|j: int| 0 <= j < order@.len() ==> (#[trigger] order@[j]) < files.len(),
                forall|j: int| 0 <= j < order@.len() ==> sorted[j] == fv[(#[trigger] order@[j]) as int],
                sorted == newest_first(fv.take(k as int)),
            decreases files.len() - k,
        {
            let t = files[k].1;
            let mut p: usize = 0;
            while p < order.len() && !newer_exec(t, files[order[p]].1)
                invariant
                    p <= order@.len(),
                    order@.len() == sorted.len(),
                    forall|j: int| 0 <= j < order@.len() ==> (#[trigger] order@[j]) < files.len(),
                    forall|j: int| 0 <= j < order@.len() ==> sorted[j] == fv[(#[trigger] order@[j]) as int],
                    forall|j: int| 0 <= j < p ==> !newer(t, (#[trigger] sorted[j]).1),
                    fv == files@.map_values(|f: (String, Option<u128>)| (f.0@, f.1)),
                    t == fv[k as int].1,
                    k < files.len(),
                decreases order.len() - p,
            {
                p += 1;
            }
            proof {
                lemma_time_pos(sorted, fv[k as int], p as int);
                assert(fv.take(k + 1).drop_last() =~= fv.take(k as int));
                assert(fv.take(k + 1).last() == fv[k as int]);
            }
            let ghost old_order = order@;
            order.insert(p, k);
            proof {
                let x = fv[k as int];
                let ns = sorted.take(p as int).push(x) + sorted.skip(p as int);
                assert(order@ =~= old_order.take(p as int).push(k) + old_order.skip(p as int));
                assert forall|j: int| 0 <= j < order@.len() implies ns[j] == fv[(#[trigger] order@[j]) as int] by {
                    if j < p {
                    } else if j == p {
                    } else {
                        assert(order@[j] == old_order[j - 1]);
                    }
                }
                sorted = ns;
            }
            k += 1;
        }
        proof {
            assert(fv.take(files.len() as int) =~= fv);
            lemma_newest_first_len(fv);
        }
        let n: usize = if limit < files.len() { limit } else { files.len() };
        let mut r: Vec<String> = Vec::new();
        let mut i: usize = 0;
        while i < n
            invariant
                i <= n <= order@.len(),
                n == (if limit < files.len() { limit as int } else { files.len() as int }),
                order@.len() == sorted.len(),
                forall|j: int| 0 <= j < order@.len() ==> (#[trigger] order@[j]) < files.len(),
                forall|j: int| 0 <= j < order@.len() ==> sorted[j] == fv[(#[trigger] order@[j]) as int],
                fv == files@.map_values(|f: (String, Option<u128>)| (f.0@, f.1)),
                r@.map_values(|s: String| s@) == sorted.take(i as int).map_values(
                    |f: (Seq<char>, Option<u128>)| f.0,
                ),
            decreases n - i,
        {
            let s = crate::text::owned(files[order[i]].0.as_str());
            let ghost before = r@.map_values(|s: String| s@);
            r.push(s);
            proof {
                assert(r@.map_values(|s: String| s@) =~= before.push(s@));
                assert(sorted.take(i + 1) =~= sorted.take(i as int).push(sorted[i as int]));
                assert(sorted.take(i + 1).map_values(|f: (Seq<char>, Option<u128>)| f.0) =~= sorted.take(
                    i as int,
                ).map_values(|f: (Seq<char>, Option<u128>)| f.0).push(sorted[i as int].0));
            }
            i += 1;
        }
        r
    }
}

fn newer_exec(a: Option<u128>, b: Option<u128>) -> (r: bool)
    ensures
        r == newer(a, b),
{
    match (a, b) {
        (Some(x), Some(y)) => x > y,
        (Some(_), None) => true,
        _ => false,
    }
}

proof fn lemma_by_score_len(s: Seq<(Seq<char>, int)>)
    ensures
        by_score(s).len() == s.len(),
    decreases s.len(),
{
    if s.len() > 0 {
        lemma_by_score_len(s.drop_last());
        lemma_insert_score_len(by_score(s.drop_last()), s.last());
    }
}

proof fn lemma_insert_score_len(s: Seq<(Seq<char>, int)>, x: (Seq<char>, int))
    ensures
        insert_by_score(s, x).len() == s.len() + 1,
    decreases s.len(),
{
    if s.len() > 0 && s.last().1 < x.1 {
        lemma_insert_score_len(s.drop_last(), x);
    }
}

proof fn lemma_insert_score_at(s: Seq<(Seq<char>, int)>, x: (Seq<char>, int), p: int)
    requires
        0 <= p <= s.len(),
        p == 0 || s[p - 1].1 >= x.1,
        forall|k: int| p <= k < s.len() ==> (#[trigger] s[k]).1 < x.1,
    ensures
        insert_by_score(s, x) == s.insert(p, x),
    decreases s.len(),
{
    if s.len() == 0 {
        assert(s.insert(p, x) =~= seq![x]);
    } else if p == s.len() {
        assert(s.insert(p, x) =~= s.push(x));
    } else {
        assert(s.last().1 < x.1);
        lemma_insert_score_at(s.drop_last(), x, p);
        assert(s.drop_last().insert(p, x).push(s.last()) =~= s.insert(p, x));
    }
}

/// No two entries of `s` name the same file.
pub open spec fn files_unique(s: Seq<(String, FileActivity)>) -> bool {
    forall|i: int, j: int| 0 <= i < j < s.len() ==> (#[trigger] s[i]).0@ != (#[trigger] s[j]).0@
}

pub open spec fn activity_in(s: Seq<(String, FileActivity)>, path: Seq<char>) -> FileActivity {
    let v = s.map_values(|e: (String, FileActivity)| (e.0@, e.1));
    if exists|i: int| 0 <= i < v.len() && (#[trigger] v[i]).0 == path {
        v[choose|i: int| 0 <= i < v.len() && (#[trigger] v[i]).0 == path].1
    } else {
        FileActivity { read_count: 0, edit_count: 0, write_count: 0 }
    }
}

proof fn lemma_activity_at(s: Seq<(String, FileActivity)>, k: int)
    requires
        files_unique(s),
        0 <= k < s.len(),
    ensures
        activity_in(s, s[k].0@) == s[k].1,
{
    let v = s.map_values(|e: (String, FileActivity)| (e.0@, e.1));
    let path = s[k].0@;
    assert(v[k].0 == path);
    let i = choose|i: int| 0 <= i < v.len() && (#[trigger] v[i]).0 == path;
    if i != k {
        if i < k {
            assert(s[i].0@ != s[k].0@);
        } else {
            assert(s[k].0@ != s[i].0@);
        }
    }
}

proof fn lemma_activity_update(s: Seq<(String, FileActivity)>, k: int, e: (String, FileActivity))
    requires
        files_unique(s),
        0 <= k < s.len(),
        s[k].0@ == e.0@,
    ensures
        files_unique(s.update(k, e)),
        activity_in(s.update(k, e), e.0@) == e.1,
        forall|p: Seq<char>| p != e.0@ ==> activity_in(s.update(k, e), p) == activity_in(s, p),
{
    let t = s.update(k, e);
    assert forall|i: int, j: int| 0 <= i < j < t.len() implies (#[trigger] t[i]).0@ != (#[trigger] t[j]).0@ by {
        assert(s[i].0@ != s[j].0@);
    }
    lemma_activity_at(t, k);
    let vt = t.map_values(|e: (String, FileActivity)| (e.0@, e.1));
    let vs = s.map_values(|e: (String, FileActivity)| (e.0@, e.1));
    assert forall|p: Seq<char>| p != e.0@ implies activity_in(t, p) == activity_in(s, p) by {
        if exists|i: int| 0 <= i < vt.len() && (#[trigger] vt[i]).0 == p {
            let i = choose|i: int| 0 <= i < vt.len() && (#[trigger] vt[i]).0 == p;
            assert(i != k);
            assert(vs[i].0 == p);
            lemma_activity_at(t, i);
            lemma_activity_at(s, i);
        } else if exists|i: int| 0 <= i < vs.len() && (#[trigger] vs[i]).0 == p {
            let i = choose|i: int| 0 <= i < vs.len() && (#[trigger] vs[i]).0 == p;
            assert(vt[i].0 == p);
        }
    }
}

proof fn lemma_activity_push(s: Seq<(String, FileActivity)>, e: (String, FileActivity))
    requires
        files_unique(s),
        forall|j: int| 0 <= j < s.len() ==> (#[trigger] s[j]).0@ != e.0@,
    ensures
        files_unique(s.push(e)),
        activity_in(s.push(e), e.0@) == e.1,
        forall|p: Seq<char>| p != e.0@ ==> activity_in(s.push(e), p) == activity_in(s, p),
{
    let t = s.push(e);
    assert forall|i: int, j: int| 0 <= i < j < t.len() implies (#[trigger] t[i]).0@ != (#[trigger] t[j]).0@ by {
        if j < s.len() {
            assert(s[i].0@ != s[j].0@);
        } else {
            assert(t[i] == s[i]);
        }
    }
    lemma_activity_at(t, s.len() as int);
    let vt = t.map_values(|e: (String, FileActivity)| (e.0@, e.1));
    let vs = s.map_values(|e: (String, FileActivity)| (e.0@, e.1));
    assert forall|p: Seq<char>| p != e.0@ implies activity_in(t, p) == activity_in(s, p) by {
        if exists|i: int| 0 <= i < vt.len() && (#[trigger] vt[i]).0 == p {
            let i = choose|i: int| 0 <= i < vt.len() && (#[trigger] vt[i]).0 == p;
            assert(i < s.len());
            assert(vs[i].0 == p);
            lemma_activity_at(t, i);
            lemma_activity_at(s, i);
        } else if exists|i: int| 0 <= i < vs.len() && (#[trigger] vs[i]).0 == p {
            let i = choose|i: int| 0 <= i < vs.len() && (#[trigger] vs[i]).0 == p;
            assert(vt[i].0 == p);
        }
    }
}


// ---------------------------------------------------------------------------
// Scores reported after tracking
// ---------------------------------------------------------------------------

/// The score a report gives `q`: that of an entry named `q`, 0 when none is.
pub open spec fn reported_score(r: Seq<(Seq<char>, int)>, q: Seq<char>) -> int {
    if exists|i: int| 0 <= i < r.len() && (#[trigger] r[i]).0 == q {
        r[choose|i: int| 0 <= i < r.len() && (#[trigger] r[i]).0 == q].1
    } else {
        0
    }
}

/// Whether a report lists `q`.
pub open spec fn reports(r: Seq<(Seq<char>, int)>, q: Seq<char>) -> bool {
    exists|i: int| 0 <= i < r.len() && (#[trigger] r[i]).0 == q
}

/// What one more activity of `kind` adds to a file's score.
pub open spec fn weight(kind: Seq<char>) -> int {
    if kind == "read"@ {
        2
    } else if kind == "edit"@ {
        3
    } else if kind == "write"@ {
        1
    } else {
        0
    }
}

/// `after` is `before` with one more activity of `kind` on `path`, which is
/// then listed: what `track_activity` does.
pub open spec fn tracked_from(
    before: RepositoryExplorer,
    after: RepositoryExplorer,
    path: Seq<char>,
    kind: Seq<char>,
) -> bool {
    &&& after.names_unique()
    &&& after.activity_of(path) == bumped(before.activity_of(path), kind)
    &&& forall|p: Seq<char>| p != path ==> after.activity_of(p) == before.activity_of(p)
    &&& exists|i: int| 0 <= i < after.activities().len() && (#[trigger] after.activities()[i]).0 == path
}

proof fn lemma_insert_contains(t: Seq<(Seq<char>, int)>, x: (Seq<char>, int))
    ensures
        forall|y: (Seq<char>, int)| #[trigger] insert_by_score(t, x).contains(y) <==> (t.contains(y) || y == x),
    decreases t.len(),
{
    if t.len() == 0 {
        assert forall|y: (Seq<char>, int)| insert_by_score(t, x).contains(y) <==> (t.contains(y) || y == x) by {
            if insert_by_score(t, x).contains(y) {
                assert(insert_by_score(t, x)[0] == x);
            }
            if y == x {
                assert(insert_by_score(t, x)[0] == x);
            }
        }
    } else if t.last().1 >= x.1 {
        assert(insert_by_score(t, x) == t.push(x));
        assert forall|y: (Seq<char>, int)| insert_by_score(t, x).contains(y) <==> (t.contains(y) || y == x) by {
            let u = t.push(x);
            if u.contains(y) {
                let k = choose|k: int| 0 <= k < u.len() && u[k] == y;
                if k < t.len() {
                    assert(t[k] == y);
                    assert(t.contains(y));
                } else {
                    assert(u[k] == x);
                }
            }
            if t.contains(y) {
                let k = choose|k: int| 0 <= k < t.len() && t[k] == y;
                assert(u[k] == y);
                assert(u.contains(y));
            }
            if y == x {
                assert(u[t.len() as int] == y);
                assert(u.contains(y));
            }
        }
    } else {
        let d = t.drop_last();
        lemma_insert_contains(d, x);
        assert(t =~= d.push(t.last()));
        assert(insert_by_score(t, x) == insert_by_score(d, x).push(t.last()));
        assert forall|y: (Seq<char>, int)| insert_by_score(t, x).contains(y) <==> (t.contains(y) || y == x) by {
            let a = insert_by_score(d, x);
            let u = a.push(t.last());
            if u.contains(y) {
                let k = choose|k: int| 0 <= k < u.len() && u[k] == y;
                if k < a.len() {
                    assert(a[k] == y);
                    assert(a.contains(y));
                    assert(insert_by_score(d, x).contains(y));
                    if d.contains(y) {
                        let m = choose|m: int| 0 <= m < d.len() && d[m] == y;
                        assert(t[m] == y);
                        assert(t.contains(y));
                    }
                } else {
                    assert(t[t.len() - 1] == y);
                    assert(t.contains(y));
                }
            }
            if t.contains(y) {
                let k = choose|k: int| 0 <= k < t.len() && t[k] == y;
                if k < d.len() {
                    assert(d[k] == y);
                    assert(d.contains(y));
                    assert(a.contains(y));
                    let m = choose|m: int| 0 <= m < a.len() && a[m] == y;
                    assert(u[m] == y);
                    assert(u.contains(y));
                } else {
                    assert(u[a.len() as int] == y);
                    assert(u.contains(y));
                }
            }
            if y == x {
                assert(insert_by_score(d, x).contains(x));
                assert(a.contains(y));
                let m = choose|m: int| 0 <= m < a.len() && a[m] == y;
                assert(u[m] == y);
                assert(u.contains(y));
            }
        }
    }
}

proof fn lemma_by_score_contains(s: Seq<(Seq<char>, int)>)
    ensures
        forall|y: (Seq<char>, int)| #[trigger] by_score(s).contains(y) <==> s.contains(y),
    decreases s.len(),
{
    if s.len() == 0 {
    } else {
        let d = s.drop_last();
        lemma_by_score_contains(d);
        lemma_insert_contains(by_score(d), s.last());
        assert(s =~= d.push(s.last()));
        assert forall|y: (Seq<char>, int)| by_score(s).contains(y) <==> s.contains(y) by {
            if d.contains(y) {
                let k = choose|k: int| 0 <= k < d.len() && d[k] == y;
                assert(s[k] == y);
            }
            if s.contains(y) {
                let k = choose|k: int| 0 <= k < s.len() && s[k] == y;
                if k < d.len() {
                    assert(d[k] == y);
                }
            }
            if y == s.last() {
                assert(s[s.len() - 1] == y);
            }
        }
    }
}

proof fn lemma_reported(x: RepositoryExplorer, q: Seq<char>)
    requires
        x.names_unique(),
    ensures
        reported_score(by_score(x.scores()), q) == x.activity_of(q).score(),
        reports(by_score(x.scores()), q) <==> exists|i: int|
            0 <= i < x.activities().len() && (#[trigger] x.activities()[i]).0 == q,
{
    let s = x.scores();
    let r = by_score(s);
    let f = x.file_activities@;
    lemma_by_score_contains(s);
    assert forall|i: int| 0 <= i < r.len() && (#[trigger] r[i]).0 == q implies r[i].1 == x.activity_of(q).score()
        && exists|j: int| 0 <= j < x.activities().len() && (#[trigger] x.activities()[j]).0 == q by {
        assert(r.contains(r[i]));
        assert(by_score(s).contains(r[i]));
        assert(s.contains(r[i]));
        let j = choose|j: int| 0 <= j < s.len() && s[j] == r[i];
        lemma_activity_at(f, j);
        assert(x.activities()[j].0 == q);
    }
    if exists|j: int| 0 <= j < x.activities().len() && (#[trigger] x.activities()[j]).0 == q {
        let j = choose|j: int| 0 <= j < x.activities().len() && (#[trigger] x.activities()[j]).0 == q;
        assert(s[j].0 == q);
        assert(s.contains(s[j]));
        assert(by_score(s).contains(s[j]));
        let i = choose|i: int| 0 <= i < r.len() && r[i] == s[j];
        assert(r[i].0 == q);
    } else {
        let v = f.map_values(|e: (String, FileActivity)| (e.0@, e.1));
        assert forall|i: int| 0 <= i < v.len() implies (#[trigger] v[i]).0 != q by {
            assert(x.activities()[i].0 == v[i].0);
        }
    }
}

/// Tracking an activity of `path` raises the score that `get_active_files`
/// reports for it by the activity's weight (two for a read, three for an
/// edit, one for a write, none for another kind) and lists it; the score
/// reported for every other file stays as it was (0 for a file not
/// listed).
pub proof fn law_tracking_moves_only_its_score(
    before: RepositoryExplorer,
    after: RepositoryExplorer,
    path: Seq<char>,
    kind: Seq<char>,
    q: Seq<char>,
)
    requires
        before.names_unique(),
        tracked_from(before, after, path, kind),
        kind == "read"@ ==> before.activity_of(path).read_count < usize::MAX,
        kind == "edit"@ ==> before.activity_of(path).edit_count < usize::MAX,
        kind == "write"@ ==> before.activity_of(path).write_count < usize::MAX,
    ensures
        reported_score(by_score(after.scores()), path) == reported_score(by_score(before.scores()), path)
            + weight(kind),
        reports(by_score(after.scores()), path),
        q != path ==> reported_score(by_score(after.scores()), q) == reported_score(
            by_score(before.scores()),
            q,
        ),
{
    lemma_reported(before, path);
    lemma_reported(after, path);
    lemma_reported(before, q);
    lemma_reported(after, q);
}

} // verus!
