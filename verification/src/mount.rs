//! The mount table and path resolution.
//!
//! Filesystem roots are named by inode ids; walking directories goes
//! through caller-supplied lookups (the filesystems' own `lookup`).

use vstd::prelude::*;
use vstd::string::StringSliceAdditionalSpecFns;
use crate::inode::{FsError, InodeType};
use crate::read::bytes_equal;

verus! {

/// Most symbolic links followed in one resolution.
pub const MAX_SYMLINK_DEPTH: usize = 8;

/// A mounted filesystem: its path prefix and root inode.
pub struct MountEntry {
    pub prefix: Vec<u8>,
    pub root: u64,
}

/// The mount table, longest prefix first.
pub struct MountTable {
    entries: Vec<MountEntry>,
}

/// The prefixes, in table order.
pub open spec fn prefixes(entries: Seq<MountEntry>) -> Seq<Seq<u8>> {
    entries.map_values(|e: MountEntry| e.prefix@)
}

/// The entries as (prefix, root) pairs, in order.
pub open spec fn entry_views(entries: Seq<MountEntry>) -> Seq<(Seq<u8>, u64)> {
    entries.map_values(|e: MountEntry| (e.prefix@, e.root))
}

/// The entries of `s` whose prefix is not `p`, in order.
pub open spec fn without_prefix(s: Seq<(Seq<u8>, u64)>, p: Seq<u8>) -> Seq<(Seq<u8>, u64)> {
    s.filter(|e: (Seq<u8>, u64)| e.0 != p)
}

/// The first index of `s` whose prefix is shorter than `n` bytes (the
/// length of `s` when there is none).
pub open spec fn first_shorter(s: Seq<(Seq<u8>, u64)>, n: int) -> int
    decreases s.len(),
{
    if s.len() == 0 {
        0
    } else if s[0].0.len() < n {
        0
    } else {
        1 + first_shorter(s.drop_first(), n)
    }
}

/// The table after mounting `root` at `p`: the mounts at other prefixes,
/// in order, with the new one after those whose prefix is at least as long.
pub open spec fn mounted(s: Seq<(Seq<u8>, u64)>, p: Seq<u8>, root: u64) -> Seq<(Seq<u8>, u64)> {
    let kept = without_prefix(s, p);
    kept.insert(first_shorter(kept, p.len() as int), (p, root))
}

impl MountTable {
    /// The entries as (prefix, root) pairs, in order.
    pub closed spec fn spec_entries(&self) -> Seq<(Seq<u8>, u64)> {
        entry_views(self.entries@)
    }

    /// Prefix lengths never increase along the table.
    pub closed spec fn wf(&self) -> bool {
        forall|i: int, j: int| 0 <= i < j < self.entries@.len() ==> self.entries@[i].prefix@.len() >= self.entries@[j].prefix@.len()
    }

    /// An empty table.
    pub fn new() -> (t: Self)
        ensures
            t.wf(),
            t.spec_entries() == Seq::<(Seq<u8>, u64)>::empty(),
    {
        let t = MountTable { entries: Vec::new() };
        assert(t.spec_entries() =~= Seq::<(Seq<u8>, u64)>::empty());
        t
    }

    /// Mount `root` at `path`, replacing a mount at the same path; the
    /// table stays ordered by decreasing prefix length, a new mount going
    /// after the mounts whose prefix is at least as long.
    pub fn mount(&mut self, path: &str, root: u64)
        requires
            old(self).wf(),
        ensures
            final(self).wf(),
            final(self).spec_entries() == mounted(old(self).spec_entries(), path.spec_bytes(), root),
    {
        let p = path.as_bytes();
        let mut kept: Vec<MountEntry> = Vec::new();
        let n = self.entries.len();
        let ghost olds = old(self).spec_entries();
        proof {
            reveal_with_fuel(Seq::<(Seq<u8>, u64)>::filter, 1);
            assert(entry_views(kept@) =~= without_prefix(olds.subrange(0, 0), p@));
        }
        let mut i: usize = 0;
        while i < n
            invariant
                n == self.entries@.len(),
                self.wf(),
                *self == *old(self),
                olds == self.spec_entries(),
                i <= n,
                forall|a: int, b: int| 0 <= a < b < kept@.len() ==> kept@[a].prefix@.len() >= kept@[b].prefix@.len(),
                forall|a: int, k: int| 0 <= a < kept@.len() && i <= k < n ==> #[trigger] kept@[a].prefix@.len() >= #[trigger] self.entries@[k].prefix@.len(),
                entry_views(kept@) == without_prefix(olds.subrange(0, i as int), p@),
            decreases n - i,
        {
            let e = &self.entries[i];
            let ghost before = kept@;
            proof {
                assert(olds.subrange(0, i + 1).drop_last() =~= olds.subrange(0, i as int));
                assert(olds[i as int] == (e.prefix@, e.root));
                reveal_with_fuel(Seq::<(Seq<u8>, u64)>::filter, 1);
            }
            if !bytes_equal(e.prefix.as_slice(), p) {
                let copy = MountEntry { prefix: copy_vec(e.prefix.as_slice()), root: e.root };
                proof {
                    assert forall|k: int| i < k < n implies copy.prefix@.len() >= #[trigger] self.entries@[k].prefix@.len() by {}
                }
                kept.push(copy);
                proof {
                    assert(entry_views(kept@) =~= entry_views(before).push((copy.prefix@, copy.root)));
                }
            }
            i = i + 1;
        }
        proof {
            assert(olds.subrange(0, n as int) =~= olds);
        }
        let m = kept.len();
        let mut pos: usize = 0;
        assert(entry_views(kept@).subrange(0, m as int) =~= entry_views(kept@));
        while pos < m && kept[pos].prefix.len() >= p.len()
            invariant
                m == kept@.len(),
                pos <= m,
                forall|a: int| 0 <= a < pos ==> #[trigger] kept@[a].prefix@.len() >= p@.len(),
                forall|a: int, b: int| 0 <= a < b < kept@.len() ==> kept@[a].prefix@.len() >= kept@[b].prefix@.len(),
                first_shorter(entry_views(kept@), p@.len() as int) == pos + first_shorter(entry_views(kept@).subrange(pos as int, m as int), p@.len() as int),
            decreases m - pos,
        {
            proof {
                let v = entry_views(kept@).subrange(pos as int, m as int);
                assert(v.drop_first() =~= entry_views(kept@).subrange(pos + 1, m as int));
            }
            pos = pos + 1;
        }
        proof {
            let v = entry_views(kept@).subrange(pos as int, m as int);
            if pos < m {
                assert(v[0] == (kept@[pos as int].prefix@, kept@[pos as int].root));
            }
        }
        let ghost before = kept@;
        kept.insert(pos, MountEntry { prefix: copy_vec(p), root });
        self.entries = kept;
        proof {
            assert(entry_views(self.entries@) =~= entry_views(before).insert(pos as int, (p@, root)));
            assert(self.spec_entries() == entry_views(self.entries@));
        }
    }

    /// The mount whose prefix `path` falls under, first in table order: the
    /// path equals the prefix (nothing remains), or continues it with '/'
    /// (the rest remains), or the prefix is "/" (the whole path remains).
    /// Returns the root and where the remaining path starts.
    pub fn find_mount_root(&self, path: &[u8]) -> (r: Result<(u64, usize), FsError>)
        ensures
            mount_from(self.spec_entries(), path@, 0) is None ==> r == Err::<(u64, usize), FsError>(FsError::NotFound),
            mount_from(self.spec_entries(), path@, 0) is Some ==> (r matches Ok(p)
                && mount_from(self.spec_entries(), path@, 0) == Some((p.0, p.1 as int))),
            r matches Ok(p) ==> p.1 <= path@.len(),
    {
        let n = self.entries.len();
        let mut i: usize = 0;
        while i < n
            invariant
                n == self.entries@.len(),
                i <= n,
                mount_from(self.spec_entries(), path@, i as int) == mount_from(self.spec_entries(), path@, 0),
            decreases n - i,
        {
            let prefix = self.entries[i].prefix.as_slice();
            assert(self.spec_entries()[i as int] == (prefix@, self.entries@[i as int].root));
            if bytes_equal(path, prefix) {
                return Ok((self.entries[i].root, path.len()));
            }
            if prefix.len() <= path.len() && bytes_equal(vstd::slice::slice_subrange(path, 0, prefix.len()), prefix) {
                let is_root = prefix.len() == 1 && prefix[0] == 47;
                if (prefix.len() < path.len() && path[prefix.len()] == 47) || is_root {
                    let start = if is_root { 0 } else { prefix.len() };
                    return Ok((self.entries[i].root, start));
                }
            }
            i = i + 1;
        }
        Err(FsError::NotFound)
    }
}

/// Where the rest of `path` starts under mount prefix `prefix`, if the
/// path falls under it: the end for the prefix itself, after the prefix
/// when a '/' follows it, and 0 under "/".
pub open spec fn mount_match(prefix: Seq<u8>, path: Seq<u8>) -> Option<int> {
    let is_root = prefix.len() == 1 && prefix[0] == 47;
    if path == prefix {
        Some(path.len() as int)
    } else if prefix.len() <= path.len() && path.subrange(0, prefix.len() as int) == prefix
        && ((prefix.len() < path.len() && path[prefix.len() as int] == 47) || is_root) {
        Some(if is_root { 0 } else { prefix.len() as int })
    } else {
        None
    }
}

/// The first mount from entry `i` on that `path` falls under: its root and
/// where the rest of the path starts.
pub open spec fn mount_from(entries: Seq<(Seq<u8>, u64)>, path: Seq<u8>, i: int) -> Option<(u64, int)>
    decreases entries.len() - i,
{
    if i < 0 || i >= entries.len() {
        None
    } else {
        match mount_match(entries[i].0, path) {
            Some(start) => Some((entries[i].1, start)),
            None => mount_from(entries, path, i + 1),
        }
    }
}

proof fn lemma_mount_from_first(entries: Seq<(Seq<u8>, u64)>, path: Seq<u8>, i: int)
    requires
        0 <= i,
    ensures
        mount_from(entries, path, i) matches Some((root, start)) ==> exists|j: int| i <= j < entries.len()
            && #[trigger] mount_match(entries[j].0, path) == Some(start) && entries[j].1 == root
            && forall|k: int| i <= k < j ==> (#[trigger] mount_match(entries[k].0, path)) is None,
        mount_from(entries, path, i) is None ==> forall|k: int| i <= k < entries.len() ==> (#[trigger] mount_match(entries[k].0, path)) is None,
    decreases entries.len() - i,
{
    if 0 <= i < entries.len() && mount_match(entries[i].0, path) is None {
        lemma_mount_from_first(entries, path, i + 1);
    }
}

/// Path resolution picks the longest mount prefix the path falls under:
/// in a table whose prefix lengths never increase, the mount found is one
/// that the path falls under, and no mount the path falls under has a
/// longer prefix; a path under no mount finds none.
pub proof fn lemma_longest_prefix_wins(entries: Seq<(Seq<u8>, u64)>, path: Seq<u8>)
    requires
        forall|i: int, j: int| 0 <= i < j < entries.len() ==> entries[i].0.len() >= entries[j].0.len(),
    ensures
        mount_from(entries, path, 0) matches Some((root, start)) ==> exists|j: int| 0 <= j < entries.len()
            && #[trigger] mount_match(entries[j].0, path) == Some(start) && entries[j].1 == root
            && forall|k: int| 0 <= k < entries.len() && (#[trigger] mount_match(entries[k].0, path)) is Some
                ==> entries[k].0.len() <= entries[j].0.len(),
        mount_from(entries, path, 0) is None <==> forall|k: int| 0 <= k < entries.len() ==> (#[trigger] mount_match(entries[k].0, path)) is None,
{
    lemma_mount_from_first(entries, path, 0);
    if mount_from(entries, path, 0) is Some {
        let j = choose|j: int| 0 <= j < entries.len()
            && #[trigger] mount_match(entries[j].0, path) == Some(mount_from(entries, path, 0)->Some_0.1)
            && entries[j].1 == mount_from(entries, path, 0)->Some_0.0
            && forall|k: int| 0 <= k < j ==> (#[trigger] mount_match(entries[k].0, path)) is None;
        assert forall|k: int| 0 <= k < entries.len() && (#[trigger] mount_match(entries[k].0, path)) is Some
            implies entries[k].0.len() <= entries[j].0.len() by {
            if k < j {
                assert(mount_match(entries[k].0, path) is None);
            }
        }
    } else {
        assert(mount_from(entries, path, 0) is None);
    }
    if forall|k: int| 0 <= k < entries.len() ==> (#[trigger] mount_match(entries[k].0, path)) is None {
        if mount_from(entries, path, 0) is Some {
            let j = choose|j: int| 0 <= j < entries.len()
                && #[trigger] mount_match(entries[j].0, path) == Some(mount_from(entries, path, 0)->Some_0.1)
                && entries[j].1 == mount_from(entries, path, 0)->Some_0.0
                && forall|k: int| 0 <= k < j ==> (#[trigger] mount_match(entries[k].0, path)) is None;
            assert(mount_match(entries[j].0, path) is None);
        }
    }
}

/// A mount prefix other than "/" covers the path equal to it and the
/// paths that continue it after a '/', nothing else ("/mnt" covers
/// "/mnt/x" but not "/mntx"); the rest of the path starts after the
/// prefix.  "/" covers every path starting with '/', whole.
pub proof fn lemma_mount_prefix_boundary(prefix: Seq<u8>, path: Seq<u8>)
    requires
        prefix.len() > 0,
    ensures
        prefix != seq![47u8] ==> (mount_match(prefix, path) is Some <==> (path == prefix
            || (prefix.len() < path.len() && path.subrange(0, prefix.len() as int) == prefix && path[prefix.len() as int] == 47))),
        prefix != seq![47u8] && mount_match(prefix, path) is Some ==> mount_match(prefix, path) == Some(prefix.len() as int),
        prefix == seq![47u8] && path.len() > 1 && path[0] == 47 ==> mount_match(prefix, path) == Some(0int),
{
    if prefix == seq![47u8] && path.len() > 1 && path[0] == 47 {
        assert(path.subrange(0, 1) =~= prefix);
    }
    if prefix.len() == 1 && prefix[0] == 47 {
        assert(prefix =~= seq![47u8]);
    }
}

/// After `mount(path, root)` the path itself resolves to that mount, with
/// nothing of it remaining: every mount before it in the table has a
/// prefix at least as long and different, so none of them matches.
pub proof fn lemma_mounted_path_resolves(before: MountTable, after: MountTable, path: Seq<u8>, root: u64)
    requires
        before.wf(),
        after.wf(),
        after.spec_entries() == mounted(before.spec_entries(), path, root),
    ensures
        mount_from(after.spec_entries(), path, 0) == Some((root, path.len() as int)),
{
    let kept = without_prefix(before.spec_entries(), path);
    let pos = first_shorter(kept, path.len() as int);
    lemma_first_shorter_range(kept, path.len() as int);
    let s = after.spec_entries();
    assert(s == kept.insert(pos, (path, root)));
    assert(s[pos] == (path, root));
    assert forall|i: int| 0 <= i < s.len() implies #[trigger] s[i].0 != path || s[i] == (path, root) by {
        lemma_without_prefix_excludes(before.spec_entries(), path);
        if i < pos {
            assert(s[i] == kept[i]);
        } else if i > pos {
            assert(s[i] == kept[i - 1]);
        }
    }
    lemma_table_path_resolves(after, path, root);
}

/// No entry left by `without_prefix` has the prefix taken out.
proof fn lemma_without_prefix_excludes(s: Seq<(Seq<u8>, u64)>, p: Seq<u8>)
    ensures
        forall|i: int| 0 <= i < without_prefix(s, p).len() ==> (#[trigger] without_prefix(s, p)[i]).0 != p,
    decreases s.len(),
{
    reveal_with_fuel(Seq::<(Seq<u8>, u64)>::filter, 1);
    if s.len() > 0 {
        lemma_without_prefix_excludes(s.drop_last(), p);
        assert(without_prefix(s, p) == if s.last().0 != p {
            without_prefix(s.drop_last(), p).push(s.last())
        } else {
            without_prefix(s.drop_last(), p)
        });
    }
}

/// `first_shorter` lies within the sequence.
proof fn lemma_first_shorter_range(s: Seq<(Seq<u8>, u64)>, n: int)
    ensures
        0 <= first_shorter(s, n) <= s.len(),
    decreases s.len(),
{
    if s.len() > 0 && s[0].0.len() >= n {
        lemma_first_shorter_range(s.drop_first(), n);
    }
}

/// A table holding the mount of `path` at `root`, and no other mount at
/// `path`, resolves `path` to it.
proof fn lemma_table_path_resolves(t: MountTable, path: Seq<u8>, root: u64)
    requires
        t.wf(),
        exists|i: int| 0 <= i < t.spec_entries().len() && #[trigger] t.spec_entries()[i] == (path, root),
        forall|i: int| 0 <= i < t.spec_entries().len() ==> #[trigger] t.spec_entries()[i].0 != path
            || t.spec_entries()[i] == (path, root),
    ensures
        mount_from(t.spec_entries(), path, 0) == Some((root, path.len() as int)),
{
    let s = t.spec_entries();
    let i = choose|i: int| 0 <= i < s.len() && s[i] == (path, root);
    assert forall|j: int| 0 <= j < i implies (#[trigger] s[j].0).len() >= path.len() by {
        assert(s[j].0 == t.entries@[j].prefix@);
        assert(s[i].0 == t.entries@[i].prefix@);
    }
    lemma_mount_from_reaches(s, path, root, 0, i);
}

/// `mount_from` from `from` reaches the mount of `path` at `i`: entries
/// before it are at least as long as `path`, so only an entry equal to
/// `path` (which carries `root`) can match.
proof fn lemma_mount_from_reaches(s: Seq<(Seq<u8>, u64)>, path: Seq<u8>, root: u64, from: int, i: int)
    requires
        0 <= from <= i < s.len(),
        s[i] == (path, root),
        forall|j: int| from <= j < i ==> (#[trigger] s[j].0).len() >= path.len(),
        forall|j: int| 0 <= j < s.len() ==> #[trigger] s[j].0 != path || s[j] == (path, root),
    ensures
        mount_from(s, path, from) == Some((root, path.len() as int)),
    decreases i - from,
{
    if from < i {
        if s[from].0 != path {
            if s[from].0.len() <= path.len() {
                assert(s[from].0.len() == path.len());
                assert(path.subrange(0, path.len() as int) =~= path);
            }
            assert(mount_match(s[from].0, path) is None);
            lemma_mount_from_reaches(s, path, root, from + 1, i);
        }
    }
}

/// A copy of a byte slice.
fn copy_vec(src: &[u8]) -> (v: Vec<u8>)
    ensures
        v@ == src@,
{
    let mut v: Vec<u8> = Vec::new();
    crate::bytes::push_slice(&mut v, src);
    v
}

/// The end of the run of non-slash bytes of `path` from `i`.
pub open spec fn run_end(path: Seq<u8>, i: int) -> int
    decreases path.len() - i,
{
    if i >= path.len() { path.len() as int } else if path[i] == 47 { i } else { run_end(path, i + 1) }
}

/// The components of `path` from `i` on, as (start, end) ranges: the runs
/// between slashes, leaving out empty ones and ".".
pub open spec fn components_from(path: Seq<u8>, i: int) -> Seq<(int, int)>
    decreases path.len() - i, 1int,
{
    if i < 0 || i >= path.len() {
        Seq::empty()
    } else if path[i] == 47 {
        components_from(path, i + 1)
    } else {
        let e = run_end(path, i + 1);
        if i + 1 <= e <= path.len() {
            if e == i + 1 && path[i] == 46 {
                components_from(path, e)
            } else {
                seq![(i, e)] + components_from(path, e)
            }
        } else {
            Seq::empty()
        }
    }
}

proof fn lemma_run_end(path: Seq<u8>, i: int)
    requires
        0 <= i <= path.len(),
    ensures
        i <= run_end(path, i) <= path.len(),
        forall|q: int| i <= q < run_end(path, i) ==> path[q] != 47,
        run_end(path, i) < path.len() ==> path[run_end(path, i)] == 47,
    decreases path.len() - i,
{
    if i < path.len() && path[i] != 47 {
        lemma_run_end(path, i + 1);
    }
}

/// The ranges as integer pairs.
pub open spec fn ranges_of(v: Seq<(usize, usize)>) -> Seq<(int, int)> {
    v.map_values(|r: (usize, usize)| (r.0 as int, r.1 as int))
}

/// The components of `path[start..]`: the pieces between slashes, leaving
/// out empty ones and ".".
pub fn path_components(path: &[u8], start: usize) -> (v: Vec<(usize, usize)>)
    requires
        start <= path@.len(),
    ensures
        ranges_of(v@) == components_from(path@, start as int),
        forall|k: int| 0 <= k < v@.len() ==> start <= (#[trigger] v@[k]).0 < v@[k].1 <= path@.len(),
        forall|k: int| 0 <= k < v@.len() ==> forall|q: int| (#[trigger] v@[k]).0 <= q < v@[k].1 ==> path@[q] != 47,
        forall|k: int| 0 <= k < v@.len() ==> !((#[trigger] v@[k]).1 == v@[k].0 + 1 && path@[v@[k].0 as int] == 46),
{
    let n = path.len();
    let mut v: Vec<(usize, usize)> = Vec::new();
    let mut i = start;
    while i < n
        invariant
            n == path@.len(),
            start <= i <= n,
            ranges_of(v@) + components_from(path@, i as int) == components_from(path@, start as int),
            forall|k: int| 0 <= k < v@.len() ==> start <= (#[trigger] v@[k]).0 < v@[k].1 <= i,
            forall|k: int| 0 <= k < v@.len() ==> forall|q: int| (#[trigger] v@[k]).0 <= q < v@[k].1 ==> path@[q] != 47,
            forall|k: int| 0 <= k < v@.len() ==> !((#[trigger] v@[k]).1 == v@[k].0 + 1 && path@[v@[k].0 as int] == 46),
        decreases n - i,
    {
        if path[i] == 47 {
            i = i + 1;
        } else {
            let s = i;
            i = i + 1;
            while i < n && path[i] != 47
                invariant
                    n == path@.len(),
                    s < i <= n,
                    run_end(path@, i as int) == run_end(path@, s + 1),
                    forall|q: int| s <= q < i ==> path@[q] != 47,
                decreases n - i,
            {
                i = i + 1;
            }
            proof {
                lemma_run_end(path@, s + 1);
            }
            let ghost before = v@;
            if !(i == s + 1 && path[s] == 46) {
                v.push((s, i));
                assert(ranges_of(v@) =~= ranges_of(before) + seq![(s as int, i as int)]);
                assert(ranges_of(before) + (seq![(s as int, i as int)] + components_from(path@, i as int))
                    =~= ranges_of(v@) + components_from(path@, i as int));
            }
        }
    }
    assert(ranges_of(v@) =~= ranges_of(v@) + components_from(path@, n as int));
    v
}

/// Component `(s, e)` of `path` is "..".
pub open spec fn is_dotdot(path: Seq<u8>, c: (int, int)) -> bool {
    c.1 - c.0 == 2 && path[c.0] == 46 && path[c.0 + 1] == 46
}

/// Walking the first `k` components `comps` of `path` from `from` can end
/// at `to`: ".." is skipped; each other component is looked up (with
/// `lookup`) in a directory (as `type_of` answered).
pub open spec fn walk_reaches<F: Fn(u64, &[u8]) -> Option<u64>, G: Fn(u64) -> InodeType>(
    lookup: F,
    type_of: G,
    path: Seq<u8>,
    comps: Seq<(int, int)>,
    k: int,
    from: u64,
    to: u64,
) -> bool
    decreases k,
{
    if k <= 0 {
        from == to
    } else if is_dotdot(path, comps[k - 1]) {
        walk_reaches(lookup, type_of, path, comps, k - 1, from, to)
    } else {
        exists|mid: u64, n: &[u8]| #[trigger] lookup.ensures((mid, n), Some(to))
            && walk_reaches(lookup, type_of, path, comps, k - 1, from, mid)
            && type_of.ensures((mid,), InodeType::Directory)
            && n@ == path.subrange(comps[k - 1].0, comps[k - 1].1)
    }
}

/// The walk of `path`'s components stops at component `k` (not "..") with
/// `e`: `NotDirectory` when the directory reached is not one, `NotFound`
/// when the lookup there finds nothing.
pub open spec fn walk_fails_at<F: Fn(u64, &[u8]) -> Option<u64>, G: Fn(u64) -> InodeType>(
    lookup: F,
    type_of: G,
    path: Seq<u8>,
    comps: Seq<(int, int)>,
    k: int,
    from: u64,
    e: FsError,
) -> bool {
    &&& 0 <= k < comps.len()
    &&& !is_dotdot(path, comps[k])
    &&& exists|mid: u64| #[trigger] walk_reaches(lookup, type_of, path, comps, k, from, mid) && {
        ||| e == FsError::NotDirectory && exists|t: InodeType| #[trigger] type_of.ensures((mid,), t) && t != InodeType::Directory
        ||| e == FsError::NotFound && type_of.ensures((mid,), InodeType::Directory)
            && exists|n: &[u8]| n@ == path.subrange(comps[k].0, comps[k].1) && #[trigger] lookup.ensures((mid, n), None::<u64>)
    }
}

impl MountTable {
    /// Resolve `path` to its parent directory and last component, walking with
    /// `lookup` (child of a directory by name) and `type_of` (an inode's type).
    /// ".." is skipped; an empty remainder names the mount root itself (with
    /// the component "."). `NotFound` for no mount or a missing component,
    /// `NotDirectory` for a walk through a non-directory.
    pub fn resolve_parent<F: Fn(u64, &[u8]) -> Option<u64>, G: Fn(u64) -> InodeType>(
        &self,
        path: &str,
        lookup: &F,
        type_of: &G,
    ) -> (r: Result<(u64, Vec<u8>), FsError>)
        requires
            forall|d: u64, n: &[u8]| lookup.requires((d, n)),
            forall|d: u64| type_of.requires((d,)),
        ensures
            r matches Err(e) ==> e == FsError::NotFound || e == FsError::NotDirectory,
            mount_from(self.spec_entries(), path.spec_bytes(), 0) is None ==> r == Err::<(u64, Vec<u8>), FsError>(FsError::NotFound),
            mount_from(self.spec_entries(), path.spec_bytes(), 0) matches Some((root, st)) ==> {
                let comps = components_from(path.spec_bytes(), st);
                &&& comps.len() == 0 ==> (r matches Ok((d, l)) && d == root && l@ == seq![46u8])
                &&& comps.len() > 0 && r is Ok ==> r->Ok_0.1@ == path.spec_bytes().subrange(comps.last().0, comps.last().1)
                &&& comps.len() > 0 && r is Ok ==> walk_reaches(*lookup, *type_of, path.spec_bytes(), comps, comps.len() - 1, root, r->Ok_0.0)
                &&& r matches Err(e) ==> exists|k: int| k < comps.len() - 1 && #[trigger] walk_fails_at(*lookup, *type_of, path.spec_bytes(), comps, k, root, e)
            },
    {
        let p = path.as_bytes();
        let (mut current, start) = match self.find_mount_root(p) {
            Ok(x) => x,
            Err(e) => return Err(e),
        };
        let components = path_components(p, start);
        let count = components.len();
        assert(ranges_of(components@).len() == count);
        if count == 0 {
            let mut dot: Vec<u8> = Vec::new();
            dot.push(46u8);
            return Ok((current, dot));
        }
        let ghost found = mount_from(self.spec_entries(), path.spec_bytes(), 0);
        let ghost root = current;
        let ghost comps = ranges_of(components@);
        let mut k: usize = 0;
        while k + 1 < count
            invariant
                found == mount_from(self.spec_entries(), path.spec_bytes(), 0),
                found matches Some((rt, st)) && st == start && rt == root,
                comps == ranges_of(components@),
                walk_reaches(*lookup, *type_of, p@, comps, k as int, root, current),
                p@ == path.spec_bytes(),
                ranges_of(components@) == components_from(p@, start as int),
                count == components@.len(),
                count >= 1,
                k < count,
                forall|d: u64, n: &[u8]| lookup.requires((d, n)),
                forall|d: u64| type_of.requires((d,)),
                forall|j: int| 0 <= j < components@.len() ==> (#[trigger] components@[j]).0 < components@[j].1 <= p@.len(),
            decreases count - k,
        {
            let (s, e) = components[k];
            assert(comps[k as int] == (s as int, e as int));
            let comp = vstd::slice::slice_subrange(p, s, e);
            let dotdot = e - s == 2 && p[s] == 46 && p[s + 1] == 46;
            assert(dotdot == is_dotdot(p@, comps[k as int]));
            if !dotdot {
                let t = type_of(current);
                if t != InodeType::Directory {
                    proof {
                        assert(walk_reaches(*lookup, *type_of, p@, comps, k as int, root, current));
                        assert(walk_fails_at(*lookup, *type_of, p@, comps, k as int, root, FsError::NotDirectory));
                    }
                    return Err(FsError::NotDirectory);
                }
                let next = lookup(current, comp);
                match next {
                    Some(c) => {
                        proof {
                            assert(lookup.ensures((current, comp), Some(c)));
                            assert(walk_reaches(*lookup, *type_of, p@, comps, k + 1, root, c));
                        }
                        current = c;
                    },
                    None => {
                        proof {
                            assert(lookup.ensures((current, comp), None::<u64>));
                            assert(walk_fails_at(*lookup, *type_of, p@, comps, k as int, root, FsError::NotFound));
                        }
                        return Err(FsError::NotFound);
                    },
                }
            }
            k = k + 1;
        }
        let (s, e) = components[count - 1];
        assert(ranges_of(components@)[count - 1] == (s as int, e as int));
        let last = copy_vec(vstd::slice::slice_subrange(p, s, e));
        Ok((current, last))
    }

    /// Resolve a path without a working directory: an absolute path names
    /// its parent's child (or the mount root for "."); anything else is
    /// `NotFound`.
    fn resolve_absolute<F: Fn(u64, &[u8]) -> Option<u64>, G: Fn(u64) -> InodeType>(
        &self,
        path: &str,
        lookup: &F,
        type_of: &G,
    ) -> (r: Result<u64, FsError>)
        requires
            forall|d: u64, n: &[u8]| lookup.requires((d, n)),
            forall|d: u64| type_of.requires((d,)),
        ensures
            !(path.spec_bytes().len() > 0 && path.spec_bytes()[0] == 47) ==> r == Err::<u64, FsError>(FsError::NotFound),
            r matches Err(e) ==> e == FsError::NotFound || e == FsError::NotDirectory,
            path.spec_bytes().len() > 0 && path.spec_bytes()[0] == 47 ==> {
                &&& mount_from(self.spec_entries(), path.spec_bytes(), 0) is None ==> r == Err::<u64, FsError>(FsError::NotFound)
                &&& (mount_from(self.spec_entries(), path.spec_bytes(), 0) matches Some((root, st))
                    && components_from(path.spec_bytes(), st).len() == 0)
                    ==> r == Ok::<u64, FsError>(mount_from(self.spec_entries(), path.spec_bytes(), 0)->Some_0.0)
            },
    {
        let p = path.as_bytes();
        if p.len() == 0 || p[0] != 47 {
            return Err(FsError::NotFound);
        }
        let (parent, name) = match self.resolve_parent(path, lookup, type_of) {
            Ok(x) => x,
            Err(e) => return Err(e),
        };
        if name.len() == 1 && name[0] == 46 {
            return Ok(parent);
        }
        match lookup(parent, name.as_slice()) {
            Some(c) => Ok(c),
            None => Err(FsError::NotFound),
        }
    }

    /// Follow symbolic links from `inode` (at most `MAX_SYMLINK_DEPTH` in
    /// a row): a link's target (read with `read_link`, which must be UTF-8)
    /// is resolved as an absolute path.  `TooManyLinks` past the limit,
    /// `InvalidArgument` for a target that is not UTF-8.
    pub fn follow_symlinks<F: Fn(u64, &[u8]) -> Option<u64>, G: Fn(u64) -> InodeType, H: Fn(u64) -> Result<Vec<u8>, FsError>>(
        &self,
        inode: u64,
        depth: usize,
        lookup: &F,
        type_of: &G,
        read_link: &H,
    ) -> (r: Result<u64, FsError>)
        requires
            forall|d: u64, n: &[u8]| lookup.requires((d, n)),
            forall|d: u64| type_of.requires((d,)),
            forall|d: u64| read_link.requires((d,)),
        ensures
            exists|t: InodeType| #[trigger] type_of.ensures((inode,), t) && {
                &&& t != InodeType::Symlink ==> r == Ok::<u64, FsError>(inode)
                &&& t == InodeType::Symlink && depth >= MAX_SYMLINK_DEPTH ==> r == Err::<u64, FsError>(FsError::TooManyLinks)
                &&& t == InodeType::Symlink && depth < MAX_SYMLINK_DEPTH ==> exists|l: Result<Vec<u8>, FsError>|
                    #[trigger] read_link.ensures((inode,), l) && {
                        &&& l matches Err(e) ==> r == Err::<u64, FsError>(e)
                        &&& (l matches Ok(v) && !vstd::utf8::valid_utf8(v@)) ==> r == Err::<u64, FsError>(FsError::InvalidArgument)
                    }
            },
        decreases MAX_SYMLINK_DEPTH - depth,
    {
        if type_of(inode) != InodeType::Symlink {
            return Ok(inode);
        }
        if depth >= MAX_SYMLINK_DEPTH {
            return Err(FsError::TooManyLinks);
        }
        let target = match read_link(inode) {
            Ok(t) => t,
            Err(e) => return Err(e),
        };
        let text = match crate::bytes::str_from_utf8(target.as_slice()) {
            Some(t) => t,
            None => return Err(FsError::InvalidArgument),
        };
        let resolved = match self.resolve_absolute(text, lookup, type_of) {
            Ok(r) => r,
            Err(e) => return Err(e),
        };
        self.follow_symlinks(resolved, depth + 1, lookup, type_of, read_link)
    }

    /// Resolve `path`: absolute paths through the mount table, relative
    /// ones from `cwd` (`NotFound` without one), component by component,
    /// skipping "..", following symbolic links after each step.
    pub fn resolve_inode<F: Fn(u64, &[u8]) -> Option<u64>, G: Fn(u64) -> InodeType, H: Fn(u64) -> Result<Vec<u8>, FsError>>(
        &self,
        path: &str,
        cwd: Option<u64>,
        lookup: &F,
        type_of: &G,
        read_link: &H,
    ) -> (r: Result<u64, FsError>)
        requires
            forall|d: u64, n: &[u8]| lookup.requires((d, n)),
            forall|d: u64| type_of.requires((d,)),
            forall|d: u64| read_link.requires((d,)),
        ensures
            !(path.spec_bytes().len() > 0 && path.spec_bytes()[0] == 47) && cwd is None
                ==> r == Err::<u64, FsError>(FsError::NotFound),
    {
        let p = path.as_bytes();
        if p.len() > 0 && p[0] == 47 {
            return self.resolve_absolute(path, lookup, type_of);
        }
        let mut current = match cwd {
            Some(c) => c,
            None => return Err(FsError::NotFound),
        };
        let components = path_components(p, 0);
        let count = components.len();
        let mut k: usize = 0;
        while k < count
            invariant
                count == components@.len(),
                k <= count,
                cwd is Some,
                forall|d: u64, n: &[u8]| lookup.requires((d, n)),
                forall|d: u64| type_of.requires((d,)),
                forall|d: u64| read_link.requires((d,)),
                forall|j: int| 0 <= j < components@.len() ==> (#[trigger] components@[j]).0 < components@[j].1 <= p@.len(),
            decreases count - k,
        {
            let (s, e) = components[k];
            let is_dotdot = e - s == 2 && p[s] == 46 && p[s + 1] == 46;
            if !is_dotdot {
                if type_of(current) != InodeType::Directory {
                    return Err(FsError::NotDirectory);
                }
                let next = match lookup(current, vstd::slice::slice_subrange(p, s, e)) {
                    Some(c) => c,
                    None => return Err(FsError::NotFound),
                };
                current = match self.follow_symlinks(next, 0, lookup, type_of, read_link) {
                    Ok(c) => c,
                    Err(err) => return Err(err),
                };
            }
            k = k + 1;
        }
        Ok(current)
    }
}

} // verus!
