//! What the agent has read of each file, so that a file is overwritten only
//! once it has been read (nearly) whole and has not changed since.
//!
//! The files' bytes are read elsewhere and handed in; paths are held as text.
use vstd::prelude::*;
use crate::text::str_eq;

verus! {

/// What `format!("{:x}", sha2::Sha256::digest(bytes))` prints: the SHA-256
/// digest of `bytes` in lower-case hexadecimal.
pub uninterp spec fn sha256_hex(bytes: Seq<u8>) -> Seq<char>;

/// `sha2::Sha256::digest`, printed in lower-case hexadecimal. The digest is
/// named by `sha256_hex` and depends on the bytes alone; of its text only
/// the length is claimed (32 bytes, two digits each, as the `LowerHex`
/// impl of `generic_array` writes them).
#[verifier::external_body]
pub(crate) fn sha256_hex_of(bytes: &[u8]) -> (r: String)
    ensures
        r@ == sha256_hex(bytes@),
        r@.len() == 64,
{
    format!("{:x}", <sha2::Sha256 as sha2::Digest>::digest(bytes))
}

/// `std::time::Instant`, carried through unchanged.
#[verifier::external_type_specification]
#[verifier::external_body]
pub struct ExInstant(std::time::Instant);

/// `std::time::Instant::now`: nothing is claimed of the instant.
#[verifier::external_body]
fn instant_now() -> (r: std::time::Instant) {
    std::time::Instant::now()
}

/// `b` answers whether the read stamped `t` was less than five minutes
/// ago: it is `recent_enough` of what `seconds_since` gave for `t`.
pub closed spec fn timed_recent(t: std::time::Instant, b: bool) -> bool {
    exists|s: u64| #[trigger] call_ensures(seconds_since, (&t,), s) && b == (s < 300)
}

/// `Instant::elapsed` in whole seconds (`Duration::as_secs`): nothing is
/// claimed of the value, which depends on the clock.
#[verifier::external_body]
fn seconds_since(t: &std::time::Instant) -> (r: u64) {
    t.elapsed().as_secs()
}

/// The number of line breaks in `bytes`, plus one.
pub open spec fn newline_count(bytes: Seq<u8>) -> nat
    decreases bytes.len(),
{
    if bytes.len() == 0 {
        0
    } else {
        newline_count(bytes.drop_last()) + if bytes.last() == 10u8 {
            1nat
        } else {
            0nat
        }
    }
}

/// Lines of a file as the whitelist counts them: its line breaks plus one.
pub fn count_lines(bytes: &[u8]) -> (n: usize)
    requires
        bytes@.len() < usize::MAX,
    ensures
        n == newline_count(bytes@) + 1,
{
    let mut n: usize = 0;
    let mut i: usize = 0;
    while i < bytes.len()
        invariant
            i <= bytes.len(),
            bytes@.len() < usize::MAX,
            n == newline_count(bytes@.take(i as int)),
            n <= i,
        decreases bytes.len() - i,
    {
        proof {
            assert(bytes@.take(i + 1).drop_last() =~= bytes@.take(i as int));
        }
        if bytes[i] == 10u8 {
            n += 1;
        }
        i += 1;
    }
    proof {
        assert(bytes@.take(bytes.len() as int) =~= bytes@);
    }
    n + 1
}

/// Line `n` lies in one of the ranges (both ends included).
pub open spec fn covered(ranges: Seq<(usize, usize)>, n: int) -> bool {
    exists|i: int| 0 <= i < ranges.len() && (#[trigger] ranges[i]).0 <= n <= ranges[i].1
}

/// How many of the lines `0..m` lie in one of the ranges.
pub open spec fn covered_below(ranges: Seq<(usize, usize)>, m: nat) -> nat
    decreases m,
{
    if m == 0 {
        0
    } else {
        covered_below(ranges, (m - 1) as nat) + if covered(ranges, m - 1) {
            1nat
        } else {
            0nat
        }
    }
}

/// The largest end of the ranges (0 when there are none).
pub open spec fn max_end(ranges: Seq<(usize, usize)>) -> nat
    decreases ranges.len(),
{
    if ranges.len() == 0 {
        0
    } else {
        let m = max_end(ranges.drop_last());
        if ranges.last().1 > m {
            ranges.last().1 as nat
        } else {
            m
        }
    }
}

/// The number of distinct lines the ranges cover.
pub open spec fn lines_covered(ranges: Seq<(usize, usize)>) -> nat {
    covered_below(ranges, max_end(ranges) + 1)
}

fn is_covered(ranges: &Vec<(usize, usize)>, n: u128) -> (b: bool)
    ensures
        b == covered(ranges@, n as int),
{
    let mut i: usize = 0;
    while i < ranges.len()
        invariant
            i <= ranges.len(),
            forall|j: int| 0 <= j < i ==> !((#[trigger] ranges@[j]).0 <= n <= ranges@[j].1),
        decreases ranges.len() - i,
    {
        if ranges[i].0 as u128 <= n && n <= ranges[i].1 as u128 {
            return true;
        }
        i += 1;
    }
    false
}

/// The whitelist entry of a file: the digest of its content when read, the
/// line ranges read (both ends included) and its number of lines.
#[derive(Debug, Clone)]
pub struct FileWhitelistData {
    pub file_hash: String,
    pub line_ranges_read: Vec<(usize, usize)>,
    pub total_lines: usize,
}

impl FileWhitelistData {
    pub fn new(file_hash: String, line_ranges_read: Vec<(usize, usize)>, total_lines: usize) -> (r: Self)
        ensures
            r.file_hash == file_hash,
            r.line_ranges_read == line_ranges_read,
            r.total_lines == total_lines,
    {
        FileWhitelistData { file_hash, line_ranges_read, total_lines }
    }

    /// The number of distinct lines read (what the percentage read counts).
    pub fn lines_read_count(&self) -> (n: u128)
        ensures
            n == lines_covered(self.line_ranges_read@),
    {
        let ghost rs = self.line_ranges_read@;
        // The largest end.
        let mut top: usize = 0;
        let mut i: usize = 0;
        while i < self.line_ranges_read.len()
            invariant
                i <= self.line_ranges_read.len(),
                rs == self.line_ranges_read@,
                top == max_end(rs.take(i as int)),
            decreases self.line_ranges_read.len() - i,
        {
            proof {
                assert(rs.take(i + 1).drop_last() =~= rs.take(i as int));
            }
            if self.line_ranges_read[i].1 > top {
                top = self.line_ranges_read[i].1;
            }
            i += 1;
        }
        proof {
            assert(rs.take(rs.len() as int) =~= rs);
        }
        let bound: u128 = top as u128 + 1;
        let mut n: u128 = 0;
        let mut k: u128 = 0;
        while k < bound
            invariant
                k <= bound,
                bound == max_end(rs) + 1,
                rs == self.line_ranges_read@,
                n == covered_below(rs, k as nat),
                n <= k,
            decreases bound - k,
        {
            if is_covered(&self.line_ranges_read, k) {
                n += 1;
            }
            k += 1;
        }
        n
    }

    /// Read enough to be overwritten: at least 99 percent of the lines (an
    /// empty file counts as read whole).
    pub open spec fn read_enough(self) -> bool {
        self.total_lines == 0 || 100 * lines_covered(self.line_ranges_read@) >= 99 * self.total_lines
    }

    pub fn is_read_enough(&self) -> (b: bool)
        ensures
            b == self.read_enough(),
    {
        if self.total_lines == 0 {
            return true;
        }
        let n = self.lines_read_count();
        proof {
            lemma_covered_below_bound(self.line_ranges_read@, max_end(self.line_ranges_read@) + 1);
            lemma_max_end_bound(self.line_ranges_read@);
        }
        100 * n >= 99 * (self.total_lines as u128)
    }

    /// The lines `1..=total_lines` not read, as maximal ranges in order.
    pub fn get_unread_ranges(&self) -> (r: Vec<(usize, usize)>)
        ensures
            self.total_lines == 0 ==> r@.len() == 0,
            r@ == unread_ranges(self.line_ranges_read@, self.total_lines as int),
    {
        let ghost rs = self.line_ranges_read@;
        let total = self.total_lines;
        let mut out: Vec<(usize, usize)> = Vec::new();
        if total == 0 {
            return out;
        }
        let mut start: Option<usize> = None;
        let mut k: u128 = 1;
        while k <= total as u128
            invariant
                1 <= k <= total + 1,
                total == self.total_lines,
                rs == self.line_ranges_read@,
                (out@, start) == unread_walk(rs, k as int),
                match start {
                    Some(s) => s < k,
                    None => true,
                },
            decreases total + 1 - k,
        {
            let line = k as usize;
            if !is_covered(&self.line_ranges_read, k) {
                if start.is_none() {
                    start = Some(line);
                }
            } else {
                match start {
                    Some(s) => {
                        out.push((s, line - 1));
                        start = None;
                    },
                    None => {},
                }
            }
            k += 1;
        }
        match start {
            Some(s) => {
                out.push((s, total));
            },
            None => {},
        }
        out
    }
}

/// The walk over lines `1..i` (exclusive): unread ranges closed so far and
/// the start of the open one.
pub open spec fn unread_walk(ranges: Seq<(usize, usize)>, i: int) -> (Seq<(usize, usize)>, Option<usize>)
    decreases i,
{
    if i <= 1 {
        (seq![], None)
    } else {
        let (done, open) = unread_walk(ranges, i - 1);
        let line = i - 1;
        if !covered(ranges, line) {
            match open {
                None => (done, Some(line as usize)),
                Some(s) => (done, Some(s)),
            }
        } else {
            match open {
                Some(s) => (done.push((s, (line - 1) as usize)), None),
                None => (done, None),
            }
        }
    }
}

/// The maximal runs of unread lines among `1..=total`, in order.
pub open spec fn unread_ranges(ranges: Seq<(usize, usize)>, total: int) -> Seq<(usize, usize)> {
    if total <= 0 {
        seq![]
    } else {
        let (done, open) = unread_walk(ranges, total + 1);
        match open {
            Some(s) => done.push((s, total as usize)),
            None => done,
        }
    }
}

proof fn lemma_covered_below_bound(ranges: Seq<(usize, usize)>, m: nat)
    ensures
        covered_below(ranges, m) <= m,
    decreases m,
{
    if m > 0 {
        lemma_covered_below_bound(ranges, (m - 1) as nat);
    }
}

proof fn lemma_max_end_bound(ranges: Seq<(usize, usize)>)
    ensures
        max_end(ranges) <= usize::MAX,
    decreases ranges.len(),
{
    if ranges.len() > 0 {
        lemma_max_end_bound(ranges.drop_last());
    }
}

/// What the agent knows of the files it works on: a whitelist entry per
/// file read, and when each file was last read.
#[derive(Debug)]
pub struct FileState {
    whitelist_for_overwrite: Vec<(String, FileWhitelistData)>,
    read_timestamps: Vec<(String, std::time::Instant)>,
}

/// No two entries of `s` share a path.
pub open spec fn paths_unique<T>(s: Seq<(String, T)>) -> bool {
    forall|i: int, j: int| 0 <= i < j < s.len() ==> (#[trigger] s[i]).0@ != (#[trigger] s[j]).0@
}

fn find_path<T>(entries: &Vec<(String, T)>, path: &str) -> (r: Option<usize>)
    ensures
        match r {
            Some(i) => i < entries.len() && entries@[i as int].0@ == path@,
            None => forall|i: int| 0 <= i < entries.len() ==> (#[trigger] entries@[i]).0@ != path@,
        },
{
    let mut i: usize = 0;
    while i < entries.len()
        invariant
            i <= entries.len(),
            forall|j: int| 0 <= j < i ==> (#[trigger] entries@[j]).0@ != path@,
        decreases entries.len() - i,
    {
        if str_eq(entries[i].0.as_str(), path) {
            return Some(i);
        }
        i += 1;
    }
    None
}

/// The entry of `s` for `path`, if any.
pub open spec fn entry_for<T>(s: Seq<(String, T)>, path: Seq<char>) -> Option<T> {
    if exists|i: int| 0 <= i < s.len() && (#[trigger] s[i]).0@ == path {
        Some(s[choose|i: int| 0 <= i < s.len() && (#[trigger] s[i]).0@ == path].1)
    } else {
        None
    }
}

proof fn lemma_entry_at<T>(s: Seq<(String, T)>, p: int)
    requires
        paths_unique(s),
        0 <= p < s.len(),
    ensures
        entry_for(s, s[p].0@) == Some(s[p].1),
{
    let k = s[p].0@;
    assert(s[p].0@ == k);
    let i = choose|i: int| 0 <= i < s.len() && (#[trigger] s[i]).0@ == k;
    if i != p {
        if i < p {
            assert(s[i].0@ != s[p].0@);
        } else {
            assert(s[p].0@ != s[i].0@);
        }
    }
}

/// The whitelist entry after recording a read of `ranges` of a file whose
/// content hashes to `hash` and has `total` lines.
pub open spec fn after_read(
    prior: Option<FileWhitelistData>,
    hash: Seq<char>,
    ranges: Seq<(usize, usize)>,
    total: usize,
) -> (Seq<char>, Seq<(usize, usize)>, usize) {
    match prior {
        Some(d) => (hash, d.line_ranges_read@ + ranges, d.total_lines),
        None => (hash, ranges, total),
    }
}

impl FileState {
    #[verifier::type_invariant]
    spec fn well_formed(self) -> bool {
        &&& paths_unique(self.whitelist_for_overwrite@)
        &&& paths_unique(self.read_timestamps@)
    }

    /// The whitelist entry of each file read.
    pub closed spec fn entry(self, path: Seq<char>) -> Option<FileWhitelistData> {
        entry_for(self.whitelist_for_overwrite@, path)
    }

    /// Whether a read of `path` was ever recorded.
    pub closed spec fn was_tracked(self, path: Seq<char>) -> bool {
        entry_for(self.read_timestamps@, path) is Some
    }

    /// When the last read of `path` was recorded, if one was.
    pub closed spec fn read_time(self, path: Seq<char>) -> Option<std::time::Instant> {
        entry_for(self.read_timestamps@, path)
    }

    pub fn new() -> (r: Self)
        ensures
            forall|p: Seq<char>| #[trigger] r.entry(p) is None,
            forall|p: Seq<char>| !#[trigger] r.was_tracked(p),
    {
        FileState { whitelist_for_overwrite: Vec::new(), read_timestamps: Vec::new() }
    }

    /// Record the time of a read of `file_path`.
    pub fn track_file_read(&mut self, file_path: &str)
        ensures
            final(self).was_tracked(file_path@),
            forall|p: Seq<char>| p != file_path@ ==> final(self).was_tracked(p) == old(self).was_tracked(p),
            forall|p: Seq<char>| p != file_path@ ==> final(self).read_time(p) == old(self).read_time(p),
            forall|p: Seq<char>| final(self).entry(p) == old(self).entry(p),
    {
        proof {
            use_type_invariant(&*self);
        }
        let now = instant_now();
        let mut stamps: Vec<(String, std::time::Instant)> = Vec::new();
        std::mem::swap(&mut stamps, &mut self.read_timestamps);
        let ghost before = stamps@;
        let entry = (crate::text::owned(file_path), now);
        match find_path(&stamps, file_path) {
            Some(p) => {
                stamps.set(p, entry);
                proof {
                    lemma_set_keeps_unique(before, p as int, entry);
                }
            },
            None => {
                let ghost e = entry;
                stamps.push(entry);
                proof {
                    lemma_push_keeps_unique(before, e);
                    lemma_entry_at(stamps@, before.len() as int);
                }
            },
        }
        self.read_timestamps = stamps;
    }

    /// Whether `file_path` was read within the last five minutes. A file
    /// whose read was never recorded was not; for one that was, the answer
    /// depends on the clock.
    pub fn was_read_recently(&self, file_path: &str) -> (b: bool)
        ensures
            b ==> self.was_tracked(file_path@),
            b ==> self.read_time(file_path@) is Some,
            self.read_time(file_path@) matches Some(t) ==> timed_recent(t, b),
    {
        proof {
            use_type_invariant(self);
        }
        match find_path(&self.read_timestamps, file_path) {
            Some(i) => {
                proof {
                    lemma_entry_at(self.read_timestamps@, i as int);
                }
                let stamp = &self.read_timestamps[i].1;
                let elapsed = seconds_since(stamp);
                let b = recent_enough(elapsed);
                proof {
                    assert(call_ensures(seconds_since, (stamp,), elapsed));
                }
                b
            },
            None => false,
        }
    }

    /// Record a read of `ranges` of `file_path`, whose content is `content`:
    /// the read is timed, the entry's digest becomes that of `content`, and
    /// the ranges are added (a new entry counts the content's lines).
    pub fn add_to_whitelist(&mut self, file_path: &str, ranges: Vec<(usize, usize)>, content: &[u8])
        requires
            content@.len() < usize::MAX,
        ensures
            final(self).was_tracked(file_path@),
            final(self).entry(file_path@) matches Some(d) && (d.file_hash@, d.line_ranges_read@, d.total_lines)
                == after_read(
                old(self).entry(file_path@),
                sha256_hex(content@),
                ranges@,
                (newline_count(content@) + 1) as usize,
            ),
            forall|p: Seq<char>| p != file_path@ ==> final(self).entry(p) == old(self).entry(p),
            forall|p: Seq<char>| p != file_path@ ==> final(self).read_time(p) == old(self).read_time(p),
    {
        self.track_file_read(file_path);
        proof {
            use_type_invariant(&*self);
        }
        let hash = sha256_hex_of(content);
        let total = count_lines(content);
        let mut list: Vec<(String, FileWhitelistData)> = Vec::new();
        std::mem::swap(&mut list, &mut self.whitelist_for_overwrite);
        let ghost before = list@;
        match find_path(&list, file_path) {
            Some(p) => {
                proof {
                    lemma_entry_at(before, p as int);
                }
                // Take the entry out, keeping its ranges and line count.
                let (name, data) = list.remove(p);
                let FileWhitelistData { file_hash: _, line_ranges_read, total_lines: old_total } = data;
                let mut old_ranges = line_ranges_read;
                let ghost prior = old_ranges@;
                let mut k: usize = 0;
                while k < ranges.len()
                    invariant
                        k <= ranges.len(),
                        old_ranges@ == prior + ranges@.take(k as int),
                    decreases ranges.len() - k,
                {
                    old_ranges.push(ranges[k]);
                    k += 1;
                    proof {
                        assert(ranges@.take(k as int) =~= ranges@.take(k - 1).push(ranges@[k - 1]));
                        assert(old_ranges@ =~= prior + ranges@.take(k as int));
                    }
                }
                proof {
                    assert(ranges@.take(ranges.len() as int) =~= ranges@);
                }
                let entry = (name, FileWhitelistData { file_hash: hash, line_ranges_read: old_ranges, total_lines: old_total });
                let ghost e = entry;
                list.insert(p, entry);
                proof {
                    assert(list@ =~= before.update(p as int, e));
                    lemma_set_keeps_unique(before, p as int, e);
                    lemma_entry_at(list@, p as int);
                    lemma_entry_elsewhere(before, p as int, e);
                }
            },
            None => {
                let entry = (crate::text::owned(file_path), FileWhitelistData {
                    file_hash: hash,
                    line_ranges_read: ranges,
                    total_lines: total,
                });
                let ghost e = entry;
                list.push(entry);
                proof {
                    lemma_push_keeps_unique(before, e);
                    lemma_entry_at(list@, before.len() as int);
                    lemma_entry_pushed(before, e);
                    assert(entry_for(before, file_path@) is None);
                }
            },
        }
        self.whitelist_for_overwrite = list;
    }

    /// Whether `file_path` may be overwritten. A whitelisted file: when it
    /// was read enough and its current content (`None` when it cannot be
    /// read) hashes as it did. Any other file: when it does not exist.
    pub fn can_overwrite(&self, file_path: &str, current: Option<&[u8]>, exists: bool) -> (b: bool)
        ensures
            b == match self.entry(file_path@) {
                Some(d) => d.read_enough() && match current {
                    Some(c) => sha256_hex(c@) == d.file_hash@,
                    None => false,
                },
                None => !exists,
            },
    {
        proof {
            use_type_invariant(self);
        }
        match find_path(&self.whitelist_for_overwrite, file_path) {
            Some(i) => {
                proof {
                    lemma_entry_at(self.whitelist_for_overwrite@, i as int);
                }
                let data = &self.whitelist_for_overwrite[i].1;
                if !data.is_read_enough() {
                    return false;
                }
                match current {
                    Some(c) => {
                        let h = sha256_hex_of(c);
                        str_eq(h.as_str(), data.file_hash.as_str())
                    },
                    None => false,
                }
            },
            None => {
                proof {
                    assert(entry_for(self.whitelist_for_overwrite@, file_path@) is None);
                }
                !exists
            },
        }
    }
}

impl Default for FileState {
    fn default() -> (r: Self)
        ensures
            forall|p: Seq<char>| #[trigger] r.entry(p) is None,
            forall|p: Seq<char>| !#[trigger] r.was_tracked(p),
    {
        Self::new()
    }
}

/// A read counts as recent when it is less than five minutes old.
pub fn recent_enough(elapsed_secs: u64) -> (b: bool)
    ensures
        b == (elapsed_secs < 300),
{
    elapsed_secs < 300
}

proof fn lemma_set_keeps_unique<T>(s: Seq<(String, T)>, p: int, e: (String, T))
    requires
        paths_unique(s),
        0 <= p < s.len(),
        s[p].0@ == e.0@,
    ensures
        paths_unique(s.update(p, e)),
        forall|q: Seq<char>| q != e.0@ ==> entry_for(s.update(p, e), q) == entry_for(s, q),
        entry_for(s.update(p, e), e.0@) == Some(e.1),
{
    let t = s.update(p, e);
    assert forall|i: int, j: int| 0 <= i < j < t.len() implies (#[trigger] t[i]).0@ != (#[trigger] t[j]).0@ by {
        assert(s[i].0@ != s[j].0@);
    }
    assert forall|q: Seq<char>| q != e.0@ implies entry_for(t, q) == entry_for(s, q) by {
        if exists|i: int| 0 <= i < t.len() && (#[trigger] t[i]).0@ == q {
            let i = choose|i: int| 0 <= i < t.len() && (#[trigger] t[i]).0@ == q;
            assert(i != p);
            assert(s[i].0@ == q);
            lemma_entry_at(t, i);
            lemma_entry_at(s, i);
        } else if exists|i: int| 0 <= i < s.len() && (#[trigger] s[i]).0@ == q {
            let i = choose|i: int| 0 <= i < s.len() && (#[trigger] s[i]).0@ == q;
            assert(t[i].0@ == q);
        }
    }
    lemma_entry_at(t, p);
}

proof fn lemma_push_keeps_unique<T>(s: Seq<(String, T)>, e: (String, T))
    requires
        paths_unique(s),
        forall|i: int| 0 <= i < s.len() ==> (#[trigger] s[i]).0@ != e.0@,
    ensures
        paths_unique(s.push(e)),
        forall|q: Seq<char>| q != e.0@ ==> entry_for(s.push(e), q) == entry_for(s, q),
{
    let t = s.push(e);
    assert forall|i: int, j: int| 0 <= i < j < t.len() implies (#[trigger] t[i]).0@ != (#[trigger] t[j]).0@ by {
        if j < s.len() {
            assert(s[i].0@ != s[j].0@);
        } else {
            assert(t[i] == s[i]);
        }
    }
    assert forall|q: Seq<char>| q != e.0@ implies entry_for(t, q) == entry_for(s, q) by {
        if exists|i: int| 0 <= i < t.len() && (#[trigger] t[i]).0@ == q {
            let i = choose|i: int| 0 <= i < t.len() && (#[trigger] t[i]).0@ == q;
            assert(i < s.len());
            assert(t[i] == s[i]);
            lemma_entry_at(t, i);
            lemma_entry_at(s, i);
        } else if exists|i: int| 0 <= i < s.len() && (#[trigger] s[i]).0@ == q {
            let i = choose|i: int| 0 <= i < s.len() && (#[trigger] s[i]).0@ == q;
            assert(t[i].0@ == q);
        }
    }
}

proof fn lemma_entry_elsewhere<T>(s: Seq<(String, T)>, p: int, e: (String, T))
    requires
        paths_unique(s),
        0 <= p < s.len(),
        s[p].0@ == e.0@,
    ensures
        forall|q: Seq<char>| q != e.0@ ==> entry_for(s.update(p, e), q) == entry_for(s, q),
{
    lemma_set_keeps_unique(s, p, e);
}

proof fn lemma_entry_pushed<T>(s: Seq<(String, T)>, e: (String, T))
    requires
        paths_unique(s),
        forall|i: int| 0 <= i < s.len() ==> (#[trigger] s[i]).0@ != e.0@,
    ensures
        forall|q: Seq<char>| q != e.0@ ==> entry_for(s.push(e), q) == entry_for(s, q),
{
    lemma_push_keeps_unique(s, e);
}


proof fn lemma_single_range_count(a: usize, b: usize, m: nat)
    requires
        1 <= a,
        m <= b + 1,
    ensures
        covered_below(seq![(a, b)], m) == if m <= a {
            0
        } else {
            m - a
        },
    decreases m,
{
    let r = seq![(a, b)];
    if m > 0 {
        lemma_single_range_count(a, b, (m - 1) as nat);
        if covered(r, m - 1) {
            let i = choose|i: int| 0 <= i < r.len() && (#[trigger] r[i]).0 <= m - 1 <= r[i].1;
            assert(i == 0);
        }
        if a <= m - 1 {
            assert(r[0].0 <= m - 1 <= r[0].1);
        }
    }
}

/// A file whose lines `1..=total_lines` were all read counts as read enough.
pub proof fn law_whole_read_is_enough(d: FileWhitelistData)
    requires
        d.total_lines >= 1,
        d.line_ranges_read@ == seq![(1usize, d.total_lines)],
    ensures
        d.read_enough(),
{
    let r = d.line_ranges_read@;
    assert(max_end(r) == d.total_lines) by {
        assert(r.drop_last() =~= Seq::<(usize, usize)>::empty());
        assert(max_end(r.drop_last()) == 0);
        assert(r.last().1 == d.total_lines);
    }
    lemma_single_range_count(1, d.total_lines, (d.total_lines + 1) as nat);
}



} // verus!
