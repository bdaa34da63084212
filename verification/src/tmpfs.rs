//! In-memory filesystem: files holding bytes, directories holding named
//! entries in name order.

use vstd::prelude::*;
use vstd::string::StringSliceAdditionalSpecFns;
use vstd::utf8::encode_utf8;
use crate::bytes::write_bytes_at;
use crate::inode::{alloc_inode_number, copied_front, read_count, read_from_bytes, DirEntry, FsError, InodeStat, InodeType};

verus! {

/// A tmpfs file: its bytes and mode.
pub struct TmpfsFile {
    inode_number: u64,
    data: Vec<u8>,
    mode: u64,
}

/// `data` after writing `buf` at `start`: extended with zeros up to the
/// end of the write when shorter, and the written range replaced.
pub open spec fn written(data: Seq<u8>, start: int, buf: Seq<u8>) -> Seq<u8> {
    let end = start + buf.len();
    let grown = if end > data.len() { data + Seq::new((end - data.len()) as nat, |i: int| 0u8) } else { data };
    grown.subrange(0, start) + buf + grown.subrange(end, grown.len() as int)
}

/// `data` resized to `n` bytes (cut, or extended with zeros).
pub open spec fn resized(data: Seq<u8>, n: int) -> Seq<u8> {
    if n <= data.len() { data.subrange(0, n) } else { data + Seq::new((n - data.len()) as nat, |i: int| 0u8) }
}

/// Reading back what was written gives the written bytes.
pub proof fn lemma_read_after_write(data: Seq<u8>, start: int, buf: Seq<u8>)
    requires
        0 <= start,
    ensures
        written(data, start, buf).subrange(start, start + buf.len()) == buf,
        written(data, start, buf).len() == (if start + buf.len() > data.len() { start + buf.len() } else { data.len() as int }),
{
    let w = written(data, start, buf);
    assert(w.subrange(start, start + buf.len()) =~= buf);
}

/// A write leaves every byte outside the written range as it was, and a
/// write that starts past the end fills the gap with zeros.
pub proof fn lemma_write_keeps_rest(data: Seq<u8>, start: int, buf: Seq<u8>)
    requires
        0 <= start,
    ensures
        forall|i: int| 0 <= i < data.len() && !(start <= i < start + buf.len()) ==> #[trigger] written(data, start, buf)[i] == data[i],
        forall|i: int| data.len() <= i < start ==> #[trigger] written(data, start, buf)[i] == 0,
{
    let end = start + buf.len();
    let grown = if end > data.len() { data + Seq::new((end - data.len()) as nat, |i: int| 0u8) } else { data };
    let w = written(data, start, buf);
    assert(w.len() == grown.len());
    assert forall|i: int| 0 <= i < data.len() && !(start <= i < end) implies #[trigger] w[i] == data[i] by {
        if i < start {
            assert(w[i] == grown[i]);
        } else {
            assert(w[i] == grown.subrange(end, grown.len() as int)[i - end]);
        }
    }
    assert forall|i: int| data.len() <= i < start implies #[trigger] w[i] == 0 by {
        assert(w[i] == grown[i]);
    }
}

/// Resizing to `n` bytes keeps the first bytes up to `n` and pads with
/// zeros past the old end.
pub proof fn lemma_resize_keeps_prefix(data: Seq<u8>, n: int)
    requires
        0 <= n,
    ensures
        resized(data, n).len() == n,
        forall|i: int| 0 <= i < n && i < data.len() ==> #[trigger] resized(data, n)[i] == data[i],
        forall|i: int| data.len() <= i < n ==> #[trigger] resized(data, n)[i] == 0,
{
}

/// Resize a byte vector to `n` bytes, padding with zeros.
fn resize_bytes(v: &mut Vec<u8>, n: usize)
    ensures
        final(v)@ == resized(old(v)@, n as int),
{
    if n <= v.len() {
        v.truncate(n);
        assert(v@ =~= resized(old(v)@, n as int));
    } else {
        while v.len() < n
            invariant
                old(v)@.len() <= v@.len() <= n,
                v@ == old(v)@ + Seq::new((v@.len() - old(v)@.len()) as nat, |i: int| 0u8),
            decreases n - v@.len(),
        {
            let ghost before = v@;
            v.push(0u8);
            assert(v@ =~= old(v)@ + Seq::new((v@.len() - old(v)@.len()) as nat, |i: int| 0u8));
        }
        assert(v@ =~= resized(old(v)@, n as int));
    }
}

impl TmpfsFile {
    /// The file's bytes.
    pub closed spec fn spec_data(&self) -> Seq<u8> {
        self.data@
    }

    /// The file's mode.
    pub closed spec fn spec_mode(&self) -> u64 {
        self.mode
    }

    /// The inode number.
    pub closed spec fn spec_inode_number(&self) -> u64 {
        self.inode_number
    }

    /// An empty file with mode 0o100644, numbered from `counter`.
    pub fn new(counter: &mut u64) -> (f: Self)
        ensures
            f.spec_data() == Seq::<u8>::empty(),
            f.spec_mode() == 0o100644,
            f.spec_inode_number() == *old(counter),
    {
        TmpfsFile { inode_number: alloc_inode_number(counter), data: Vec::new(), mode: 0o100644 }
    }

    /// A file holding `data`.
    pub fn new_with_data(data: &[u8], counter: &mut u64) -> (f: Self)
        ensures
            f.spec_data() == data@,
            f.spec_mode() == 0o100644,
            f.spec_inode_number() == *old(counter),
    {
        let mut f = Self::new(counter);
        crate::bytes::push_slice(&mut f.data, data);
        f
    }

    /// An empty file with the given mode.
    pub fn new_with_mode(mode: u64, counter: &mut u64) -> (f: Self)
        ensures
            f.spec_data() == Seq::<u8>::empty(),
            f.spec_mode() == mode,
            f.spec_inode_number() == *old(counter),
    {
        TmpfsFile { inode_number: alloc_inode_number(counter), data: Vec::new(), mode }
    }

    /// Always `RegularFile`.
    pub fn inode_type(&self) -> (t: InodeType)
        ensures
            t == InodeType::RegularFile,
    {
        InodeType::RegularFile
    }

    /// Regular-file stat with the file's size and mode.
    pub fn stat(&self) -> (s: InodeStat)
        ensures
            s == (InodeStat { inode_number: self.spec_inode_number(), size: self.spec_data().len() as u64, mode: self.spec_mode(), nlinks: 1, uid: 0, gid: 0 }),
    {
        let mut stat = InodeStat::regular(self.inode_number, self.data.len() as u64);
        stat.mode = self.mode;
        stat
    }

    /// Set the mode.
    pub fn set_mode(&mut self, mode: u64) -> (r: Result<(), FsError>)
        ensures
            r is Ok,
            final(self).spec_mode() == mode,
            final(self).spec_data() == old(self).spec_data(),
            final(self).spec_inode_number() == old(self).spec_inode_number(),
    {
        self.mode = mode;
        Ok(())
    }

    /// Read from `offset`, as much as fits in `buf`.
    pub fn read_at(&self, offset: u64, buf: &mut [u8]) -> (r: Result<usize, FsError>)
        ensures
            r matches Ok(n) && n == read_count(self.spec_data().len() as int, offset as int, old(buf)@.len() as int),
            copied_front(old(buf)@, final(buf)@, self.spec_data(), offset as int, r->Ok_0 as int),
    {
        Ok(read_from_bytes(self.data.as_slice(), offset, buf))
    }

    /// Write `buf` at `offset`, growing the file with zeros as needed.
    pub fn write_at(&mut self, offset: u64, buf: &[u8]) -> (r: Result<usize, FsError>)
        requires
            offset + buf@.len() <= usize::MAX,
        ensures
            r == Ok::<usize, FsError>(buf@.len() as usize),
            final(self).spec_data() == written(old(self).spec_data(), offset as int, buf@),
            final(self).spec_mode() == old(self).spec_mode(),
            final(self).spec_inode_number() == old(self).spec_inode_number(),
    {
        let start = offset as usize;
        let end = start + buf.len();
        if end > self.data.len() {
            resize_bytes(&mut self.data, end);
        }
        let ghost grown = self.data@;
        write_bytes_at(self.data.as_mut_slice(), start, buf);
        assert(self.data@ =~= written(old(self).data@, offset as int, buf@));
        Ok(buf.len())
    }

    /// Resize to `new_size` bytes (cut, or extended with zeros).
    pub fn truncate(&mut self, new_size: u64) -> (r: Result<(), FsError>)
        requires
            new_size <= usize::MAX,
        ensures
            r is Ok,
            final(self).spec_data() == resized(old(self).spec_data(), new_size as int),
            final(self).spec_mode() == old(self).spec_mode(),
    {
        resize_bytes(&mut self.data, new_size as usize);
        Ok(())
    }

    /// Files have no children.
    pub fn readdir(&self, _index: usize) -> (r: Option<DirEntry>)
        ensures
            r is None,
    {
        None
    }

    /// Files have no children.
    pub fn unlink(&self, _name: &str) -> (r: Result<(), FsError>)
        ensures
            r == Err::<(), FsError>(FsError::NotDirectory),
    {
        Err(FsError::NotDirectory)
    }
}

/// A directory entry of tmpfs: name, and the child's number and type.
pub struct TmpfsEntry {
    pub name: String,
    pub inode_number: u64,
    pub inode_type: InodeType,
}

/// Byte-wise lexicographic order (the order of `String`).
pub open spec fn lex_lt(a: Seq<u8>, b: Seq<u8>) -> bool
    decreases a.len(),
{
    if a.len() == 0 {
        b.len() > 0
    } else if b.len() == 0 {
        false
    } else if a[0] != b[0] {
        a[0] < b[0]
    } else {
        lex_lt(a.drop_first(), b.drop_first())
    }
}

/// The name bytes of an entry.
pub open spec fn entry_key(e: TmpfsEntry) -> Seq<u8> {
    encode_utf8(e.name@)
}

/// A tmpfs directory: entries in strictly increasing name order.
pub struct TmpfsDir {
    inode_number: u64,
    entries: Vec<TmpfsEntry>,
    mode: u64,
}

/// Compare two byte strings: -1, 0 or 1.
fn lex_compare(a: &[u8], b: &[u8]) -> (r: i8)
    ensures
        r == 0 <==> a@ == b@,
        r < 0 <==> lex_lt(a@, b@),
        r > 0 <==> lex_lt(b@, a@),
    decreases a@.len(),
{
    if a.len() == 0 {
        if b.len() == 0 {
            assert(a@ =~= b@);
            return 0;
        }
        return -1;
    }
    if b.len() == 0 {
        return 1;
    }
    if a[0] != b[0] {
        return if a[0] < b[0] { -1 } else { 1 };
    }
    let r = lex_compare(vstd::slice::slice_subrange(a, 1, a.len()), vstd::slice::slice_subrange(b, 1, b.len()));
    proof {
        assert(a@.drop_first() =~= a@.subrange(1, a@.len() as int));
        assert(b@.drop_first() =~= b@.subrange(1, b@.len() as int));
        if a@.drop_first() == b@.drop_first() {
            assert(a@ =~= seq![a@[0]] + a@.drop_first());
            assert(b@ =~= seq![b@[0]] + b@.drop_first());
        }
        if a@ == b@ {
            assert(a@.drop_first() =~= b@.drop_first());
        }
    }
    r
}

proof fn lemma_lex_irreflexive(a: Seq<u8>)
    ensures
        !lex_lt(a, a),
    decreases a.len(),
{
    if a.len() > 0 {
        lemma_lex_irreflexive(a.drop_first());
    }
}

proof fn lemma_lex_trans(a: Seq<u8>, b: Seq<u8>, c: Seq<u8>)
    requires
        lex_lt(a, b),
        lex_lt(b, c),
    ensures
        lex_lt(a, c),
    decreases a.len(),
{
    if a.len() > 0 && b.len() > 0 && c.len() > 0 && a[0] == b[0] && b[0] == c[0] {
        lemma_lex_trans(a.drop_first(), b.drop_first(), c.drop_first());
    }
}

/// Name order is a strict total order: of two names exactly one comes
/// first, unless they are equal; a proper prefix comes before the longer
/// name.
pub proof fn lemma_lex_total(a: Seq<u8>, b: Seq<u8>)
    ensures
        a == b ==> !lex_lt(a, b) && !lex_lt(b, a),
        a != b ==> (lex_lt(a, b) != lex_lt(b, a)),
        a.len() < b.len() && b.subrange(0, a.len() as int) == a ==> lex_lt(a, b),
    decreases a.len(),
{
    lemma_lex_irreflexive(a);
    if a.len() > 0 && b.len() > 0 {
        lemma_lex_total(a.drop_first(), b.drop_first());
        if a[0] == b[0] && a != b {
            if a.drop_first() == b.drop_first() {
                assert(a =~= seq![a[0]] + a.drop_first());
                assert(b =~= seq![b[0]] + b.drop_first());
            }
        }
        if a.len() < b.len() && b.subrange(0, a.len() as int) == a {
            assert(b[0] == a[0]);
            assert(b.drop_first().subrange(0, a.drop_first().len() as int) =~= a.drop_first());
        }
    } else if a.len() == 0 && b.len() == 0 {
        assert(a =~= b);
    }
}

/// `name` is the key of one of `s`.
pub open spec fn has_key(s: Seq<TmpfsEntry>, name: Seq<u8>) -> bool {
    exists|i: int| 0 <= i < s.len() && entry_key(s[i]) == name
}

/// Every entry of `old` not called `name` is still in `new`.
pub open spec fn others_kept(old: Seq<TmpfsEntry>, new: Seq<TmpfsEntry>, name: Seq<u8>) -> bool {
    forall|i: int| 0 <= i < old.len() && entry_key(old[i]) != name ==> exists|j: int| 0 <= j < new.len() && new[j] == #[trigger] old[i]
}

impl TmpfsDir {
    /// The entries, in order.
    pub closed spec fn spec_entries(&self) -> Seq<TmpfsEntry> {
        self.entries@
    }

    /// The names, in order.
    pub closed spec fn spec_keys(&self) -> Seq<Seq<u8>> {
        self.entries@.map_values(|e: TmpfsEntry| entry_key(e))
    }

    /// The directory's mode.
    pub closed spec fn spec_mode(&self) -> u64 {
        self.mode
    }

    /// The inode number.
    pub closed spec fn spec_inode_number(&self) -> u64 {
        self.inode_number
    }

    /// Names strictly increase.
    pub closed spec fn wf(&self) -> bool {
        forall|i: int, j: int| 0 <= i < j < self.entries@.len() ==> lex_lt(entry_key(self.entries@[i]), entry_key(self.entries@[j]))
    }

    /// An empty directory with mode 0o040755.
    pub fn new(counter: &mut u64) -> (d: Self)
        ensures
            d.wf(),
            d.spec_entries().len() == 0,
            d.spec_mode() == 0o040755,
            d.spec_inode_number() == *old(counter),
    {
        TmpfsDir { inode_number: alloc_inode_number(counter), entries: Vec::new(), mode: 0o040755 }
    }

    /// An empty directory with the given mode.
    pub fn new_with_mode(mode: u64, counter: &mut u64) -> (d: Self)
        ensures
            d.wf(),
            d.spec_entries().len() == 0,
            d.spec_mode() == mode,
            d.spec_inode_number() == *old(counter),
    {
        TmpfsDir { inode_number: alloc_inode_number(counter), entries: Vec::new(), mode }
    }

    /// Index of the entry called `name`, or where it would go.
    fn position(&self, name: &[u8]) -> (r: (usize, bool))
        requires
            self.wf(),
        ensures
            r.0 <= self.spec_entries().len(),
            r.1 ==> r.0 < self.spec_entries().len() && entry_key(self.spec_entries()[r.0 as int]) == name@,
            !r.1 ==> forall|i: int| 0 <= i < self.spec_entries().len() ==> entry_key(self.spec_entries()[i]) != name@,
            forall|i: int| 0 <= i < r.0 ==> lex_lt(entry_key(#[trigger] self.spec_entries()[i]), name@),
            !r.1 ==> forall|i: int| r.0 <= i < self.spec_entries().len() ==> lex_lt(name@, entry_key(#[trigger] self.spec_entries()[i])),
    {
        let n = self.entries.len();
        let mut i: usize = 0;
        while i < n
            invariant
                n == self.entries@.len(),
                self.wf(),
                i <= n,
                forall|k: int| 0 <= k < i ==> lex_lt(entry_key(#[trigger] self.entries@[k]), name@),
            decreases n - i,
        {
            let c = lex_compare(self.entries[i].name.as_str().as_bytes(), name);
            if c == 0 {
                return (i, true);
            }
            if c > 0 {
                proof {
                    assert forall|k: int| 0 <= k < n implies entry_key(self.entries@[k]) != name@ by {
                        if k < i {
                            lemma_lex_irreflexive(name@);
                        } else if k > i {
                            lemma_lex_trans(name@, entry_key(self.entries@[i as int]), entry_key(self.entries@[k]));
                            lemma_lex_irreflexive(name@);
                        } else {
                            lemma_lex_irreflexive(name@);
                        }
                    }
                    assert forall|k: int| i <= k < n implies lex_lt(name@, entry_key(#[trigger] self.entries@[k])) by {
                        if k > i {
                            lemma_lex_trans(name@, entry_key(self.entries@[i as int]), entry_key(self.entries@[k]));
                        }
                    }
                }
                return (i, false);
            }
            i = i + 1;
        }
        proof {
            assert forall|k: int| 0 <= k < n implies entry_key(self.entries@[k]) != name@ by {
                lemma_lex_irreflexive(name@);
            }
        }
        (n, false)
    }

    /// Add or replace the entry called `name`.
    pub fn insert(&mut self, name: &str, inode_number: u64, inode_type: InodeType)
        requires
            old(self).wf(),
        ensures
            final(self).wf(),
            exists|i: int| 0 <= i < final(self).spec_entries().len()
                && entry_key(final(self).spec_entries()[i]) == name.spec_bytes()
                && final(self).spec_entries()[i].inode_number == inode_number
                && final(self).spec_entries()[i].inode_type == inode_type,
            final(self).spec_mode() == old(self).spec_mode(),
            final(self).spec_inode_number() == old(self).spec_inode_number(),
            others_kept(old(self).spec_entries(), final(self).spec_entries(), name.spec_bytes()),
            final(self).spec_entries().len() == old(self).spec_entries().len()
                + (if has_key(old(self).spec_entries(), name.spec_bytes()) { 0int } else { 1int }),
    {
        let (pos, found) = self.position(name.as_bytes());
        let entry = TmpfsEntry { name: name.to_owned(), inode_number, inode_type };
        if found {
            self.entries.set(pos, entry);
            proof {
                assert forall|i: int, j: int| 0 <= i < j < self.entries@.len() implies
                    lex_lt(entry_key(self.entries@[i]), entry_key(self.entries@[j])) by {
                    assert(entry_key(self.entries@[pos as int]) == entry_key(old(self).entries@[pos as int]));
                    assert(entry_key(old(self).entries@[i]) == entry_key(self.entries@[i]) || i == pos);
                }
            }
            assert(entry_key(self.entries@[pos as int]) == name.spec_bytes());
            assert(self.entries@[pos as int].inode_number == inode_number && self.entries@[pos as int].inode_type == inode_type);
            proof {
                let o = old(self).entries@;
                assert forall|i: int| 0 <= i < o.len() && entry_key(o[i]) != name.spec_bytes()
                    implies exists|j: int| 0 <= j < self.entries@.len() && self.entries@[j] == #[trigger] o[i] by {
                    assert(i != pos);
                    assert(self.entries@[i] == o[i]);
                }
                assert(has_key(o, name.spec_bytes()));
            }
        } else {
            self.entries.insert(pos, entry);
            proof {
                let o = old(self).entries@;
                assert forall|i: int, j: int| 0 <= i < j < self.entries@.len() implies
                    lex_lt(entry_key(self.entries@[i]), entry_key(self.entries@[j])) by {
                    if i < pos && j > pos {
                        lemma_lex_trans(entry_key(o[i]), name.spec_bytes(), entry_key(o[j - 1]));
                    }
                }
                assert forall|i: int| 0 <= i < o.len() && entry_key(o[i]) != name.spec_bytes()
                    implies exists|j: int| 0 <= j < self.entries@.len() && self.entries@[j] == #[trigger] o[i] by {
                    if i < pos {
                        assert(self.entries@[i] == o[i]);
                    } else {
                        assert(self.entries@[i + 1] == o[i]);
                    }
                }
                assert(!has_key(o, name.spec_bytes()));
            }
            assert(entry_key(self.entries@[pos as int]) == name.spec_bytes());
            assert(self.entries@[pos as int].inode_number == inode_number && self.entries@[pos as int].inode_type == inode_type);
        }
        assert(0 <= pos < self.spec_entries().len() && entry_key(self.spec_entries()[pos as int]) == name.spec_bytes()
            && self.spec_entries()[pos as int].inode_number == inode_number
            && self.spec_entries()[pos as int].inode_type == inode_type);
    }

    /// Always `Directory`.
    pub fn inode_type(&self) -> (t: InodeType)
        ensures
            t == InodeType::Directory,
    {
        InodeType::Directory
    }

    /// Directory stat with the directory's mode.
    pub fn stat(&self) -> (s: InodeStat)
        ensures
            s == (InodeStat { inode_number: self.spec_inode_number(), size: 0, mode: self.spec_mode(), nlinks: 2, uid: 0, gid: 0 }),
    {
        let mut stat = InodeStat::directory(self.inode_number);
        stat.mode = self.mode;
        stat
    }

    /// Set the mode.
    pub fn set_mode(&mut self, mode: u64) -> (r: Result<(), FsError>)
        ensures
            r is Ok,
            final(self).spec_mode() == mode,
            final(self).spec_entries() == old(self).spec_entries(),
            final(self).wf() == old(self).wf(),
    {
        self.mode = mode;
        Ok(())
    }

    /// The child called `name`: its number and type.
    pub fn lookup(&self, name: &str) -> (r: Option<(u64, InodeType)>)
        requires
            self.wf(),
        ensures
            r is None <==> forall|i: int| 0 <= i < self.spec_entries().len() ==> entry_key(self.spec_entries()[i]) != name.spec_bytes(),
            r matches Some(p) ==> exists|i: int| 0 <= i < self.spec_entries().len()
                && entry_key(self.spec_entries()[i]) == name.spec_bytes()
                && p == (self.spec_entries()[i].inode_number, self.spec_entries()[i].inode_type),
    {
        let (pos, found) = self.position(name.as_bytes());
        if found {
            Some((self.entries[pos].inode_number, self.entries[pos].inode_type))
        } else {
            None
        }
    }

    /// Entry `index`: "." and ".." (both this directory) first, then the
    /// children in name order.
    pub fn readdir(&self, index: usize) -> (r: Option<DirEntry>)
        ensures
            index < 2 ==> (r matches Some(e) && e.inode_type == InodeType::Directory && e.inode_number == self.spec_inode_number()),
            index >= 2 ==> (r is Some <==> index - 2 < self.spec_entries().len()),
            index >= 2 ==> (r matches Some(e) ==> e.name@ == self.spec_entries()[index - 2].name@
                && e.inode_number == self.spec_entries()[index - 2].inode_number
                && e.inode_type == self.spec_entries()[index - 2].inode_type),
    {
        if index == 0 {
            return Some(DirEntry { name: ".".to_owned(), inode_type: InodeType::Directory, inode_number: self.inode_number });
        }
        if index == 1 {
            return Some(DirEntry { name: "..".to_owned(), inode_type: InodeType::Directory, inode_number: self.inode_number });
        }
        let real_index = index - 2;
        if real_index >= self.entries.len() {
            return None;
        }
        let e = &self.entries[real_index];
        Some(DirEntry { name: e.name.clone(), inode_type: e.inode_type, inode_number: e.inode_number })
    }

    /// Create an empty file called `name`; `AlreadyExists` when the name is
    /// taken.
    pub fn create(&mut self, name: &str, counter: &mut u64) -> (r: Result<TmpfsFile, FsError>)
        requires
            old(self).wf(),
        ensures
            final(self).wf(),
            (exists|i: int| 0 <= i < old(self).spec_entries().len() && entry_key(old(self).spec_entries()[i]) == name.spec_bytes())
                ==> r == Err::<TmpfsFile, FsError>(FsError::AlreadyExists) && final(self).spec_entries() == old(self).spec_entries(),
            !has_key(old(self).spec_entries(), name.spec_bytes()) ==> r is Ok
                && others_kept(old(self).spec_entries(), final(self).spec_entries(), name.spec_bytes())
                && final(self).spec_entries().len() == old(self).spec_entries().len() + 1,
            r matches Ok(f) ==> f.spec_data().len() == 0 && f.spec_inode_number() == *old(counter)
                && exists|i: int| 0 <= i < final(self).spec_entries().len()
                && entry_key(final(self).spec_entries()[i]) == name.spec_bytes()
                && final(self).spec_entries()[i].inode_type == InodeType::RegularFile
                && final(self).spec_entries()[i].inode_number == f.spec_inode_number(),
    {
        let (_pos, found) = self.position(name.as_bytes());
        if found {
            return Err(FsError::AlreadyExists);
        }
        let file = TmpfsFile::new(counter);
        self.insert(name, file.inode_number, InodeType::RegularFile);
        Ok(file)
    }

    /// Create an empty directory called `name`; `AlreadyExists` when the
    /// name is taken.
    pub fn mkdir(&mut self, name: &str, counter: &mut u64) -> (r: Result<TmpfsDir, FsError>)
        requires
            old(self).wf(),
        ensures
            final(self).wf(),
            (exists|i: int| 0 <= i < old(self).spec_entries().len() && entry_key(old(self).spec_entries()[i]) == name.spec_bytes())
                ==> (r matches Err(e) && e == FsError::AlreadyExists) && final(self).spec_entries() == old(self).spec_entries(),
            !has_key(old(self).spec_entries(), name.spec_bytes()) ==> r is Ok
                && others_kept(old(self).spec_entries(), final(self).spec_entries(), name.spec_bytes())
                && final(self).spec_entries().len() == old(self).spec_entries().len() + 1,
            r matches Ok(d) ==> d.wf() && d.spec_entries().len() == 0 && d.spec_inode_number() == *old(counter)
                && exists|i: int| 0 <= i < final(self).spec_entries().len()
                && entry_key(final(self).spec_entries()[i]) == name.spec_bytes()
                && final(self).spec_entries()[i].inode_type == InodeType::Directory
                && final(self).spec_entries()[i].inode_number == d.spec_inode_number(),
    {
        let (_pos, found) = self.position(name.as_bytes());
        if found {
            return Err(FsError::AlreadyExists);
        }
        let dir = TmpfsDir::new(counter);
        self.insert(name, dir.inode_number, InodeType::Directory);
        Ok(dir)
    }

    /// Remove the entry called `name`.  `NotFound` when there is none,
    /// `DirectoryNotEmpty` for a directory child that still has entries
    /// (`child_has_entries` is what its readdir past "." and ".." shows).
    pub fn unlink(&mut self, name: &str, child_has_entries: bool) -> (r: Result<(), FsError>)
        requires
            old(self).wf(),
        ensures
            final(self).wf(),
            (forall|i: int| 0 <= i < old(self).spec_entries().len() ==> entry_key(old(self).spec_entries()[i]) != name.spec_bytes())
                ==> r == Err::<(), FsError>(FsError::NotFound),
            r is Ok ==> forall|i: int| 0 <= i < final(self).spec_entries().len() ==> entry_key(final(self).spec_entries()[i]) != name.spec_bytes(),
            r is Ok ==> final(self).spec_entries().len() + 1 == old(self).spec_entries().len(),
            r is Err ==> final(self).spec_entries() == old(self).spec_entries(),
    {
        let (pos, found) = self.position(name.as_bytes());
        if !found {
            return Err(FsError::NotFound);
        }
        if self.entries[pos].inode_type == InodeType::Directory && child_has_entries {
            return Err(FsError::DirectoryNotEmpty);
        }
        self.entries.remove(pos);
        proof {
            let o = old(self).entries@;
            assert forall|i: int, j: int| 0 <= i < j < self.entries@.len() implies
                lex_lt(entry_key(self.entries@[i]), entry_key(self.entries@[j])) by {
                let oi = if i < pos { i } else { i + 1 };
                let oj = if j < pos { j } else { j + 1 };
                assert(self.entries@[i] == o[oi]);
                assert(self.entries@[j] == o[oj]);
            }
            assert forall|i: int| 0 <= i < self.entries@.len() implies entry_key(self.entries@[i]) != name.spec_bytes() by {
                let oi = if i < pos { i } else { i + 1 };
                assert(self.entries@[i] == o[oi]);
                lemma_lex_irreflexive(name.spec_bytes());
                if oi < pos {
                    assert(lex_lt(entry_key(o[oi]), entry_key(o[pos as int])));
                } else {
                    assert(lex_lt(entry_key(o[pos as int]), entry_key(o[oi])));
                }
            }
        }
        Ok(())
    }

    /// Add an existing inode under `name` (replacing any entry of that
    /// name).
    pub fn link_child(&mut self, name: &str, inode_number: u64, inode_type: InodeType) -> (r: Result<(), FsError>)
        requires
            old(self).wf(),
        ensures
            final(self).wf(),
            r is Ok,
            exists|i: int| 0 <= i < final(self).spec_entries().len()
                && entry_key(final(self).spec_entries()[i]) == name.spec_bytes()
                && final(self).spec_entries()[i].inode_number == inode_number,
    {
        self.insert(name, inode_number, inode_type);
        Ok(())
    }

    /// Directories cannot be read as files.
    pub fn read_at(&self, _offset: u64, _buf: &mut [u8]) -> (r: Result<usize, FsError>)
        ensures
            r == Err::<usize, FsError>(FsError::NotSupported),
    {
        Err(FsError::NotSupported)
    }
}

} // verus!
