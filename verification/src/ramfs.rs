//! Read-only in-memory file system: a flat table of named static files.

use vstd::prelude::*;
use vstd::string::StringSliceAdditionalSpecFns;
use crate::btrfs::first_zero;
use crate::bytes::str_from_utf8;
use crate::read::bytes_equal;

verus! {

/// Maximum number of files in the ramfs.
pub const RAMFS_MAX_FILES: usize = 128;

/// Maximum length of a file name (excluding the NUL terminator).
pub const RAMFS_MAX_NAME_LENGTH: usize = 255;

/// One file entry: a NUL-terminated name and the file's bytes.
#[derive(Clone, Copy)]
pub struct RamFsEntry {
    pub name: [u8; 256],
    pub data: &'static [u8],
}

/// The stored name bytes: up to the first NUL, or 255 bytes without one
/// before the end.
pub open spec fn stored_name(name: Seq<u8>) -> Seq<u8> {
    let z = first_zero(name, 0);
    name.subrange(0, if z < name.len() { z } else { 255 })
}

/// The name an entry shows: its stored name when that is UTF-8, else empty.
pub open spec fn shown_name(name: Seq<u8>) -> Seq<u8> {
    if vstd::utf8::valid_utf8(stored_name(name)) { stored_name(name) } else { Seq::empty() }
}

proof fn lemma_first_zero(s: Seq<u8>, i: int)
    requires
        0 <= i <= s.len(),
    ensures
        i <= first_zero(s, i) <= s.len(),
        forall|k: int| i <= k < first_zero(s, i) ==> s[k] != 0,
        first_zero(s, i) < s.len() ==> s[first_zero(s, i)] == 0,
    decreases s.len() - i,
{
    if i < s.len() && s[i] != 0 {
        lemma_first_zero(s, i + 1);
    }
}

impl RamFsEntry {
    /// An unused slot: empty name, no data.
    pub fn empty() -> (e: Self)
        ensures
            e.name@ == Seq::new(256, |i: int| 0u8),
            e.data@.len() == 0,
    {
        let e = RamFsEntry { name: [0u8; 256], data: &[] };
        assert(e.name@ =~= Seq::new(256, |i: int| 0u8));
        e
    }

    /// The entry's name (see `shown_name`).
    pub fn name_str(&self) -> (s: &str)
        ensures
            s.spec_bytes() == shown_name(self.name@),
    {
        let mut length: usize = 0;
        while length < 256 && self.name[length] != 0
            invariant
                length <= 256,
                self.name@.len() == 256,
                first_zero(self.name@, length as int) == first_zero(self.name@, 0),
            decreases 256 - length,
        {
            length = length + 1;
        }
        let end = if length < 256 { length } else { 255 };
        proof {
            lemma_first_zero(self.name@, 0);
        }
        let bytes = vstd::slice::slice_subrange(self.name.as_slice(), 0, end);
        assert(bytes@ == stored_name(self.name@));
        match str_from_utf8(bytes) {
            Some(s) => s,
            None => {
                let e = "";
                proof {
                    reveal_strlit("");
                    vstd::string::is_ascii_spec_bytes(e);
                }
                assert(e.spec_bytes() =~= Seq::<u8>::empty());
                e
            },
        }
    }
}

/// The first of `entries` from `i` on that shows `name`.
pub open spec fn find_from(entries: Seq<RamFsEntry>, name: Seq<u8>, i: int) -> Option<int>
    decreases entries.len() - i,
{
    if i < 0 || i >= entries.len() {
        None
    } else if shown_name(entries[i].name@) == name {
        Some(i)
    } else {
        find_from(entries, name, i + 1)
    }
}

/// The ramfs: its registered files, in order.
pub struct RamFs {
    entries: Vec<RamFsEntry>,
}

impl RamFs {
    /// The entries, in order of registration.
    pub closed spec fn spec_entries(&self) -> Seq<RamFsEntry> {
        self.entries@
    }

    /// No more than `RAMFS_MAX_FILES` files.
    pub closed spec fn wf(&self) -> bool {
        self.entries@.len() <= RAMFS_MAX_FILES
    }

    /// An empty ramfs.
    pub fn new() -> (r: Self)
        ensures
            r.wf(),
            r.spec_entries() == Seq::<RamFsEntry>::empty(),
    {
        RamFs { entries: Vec::new() }
    }

    /// Register a static file.  `false` (nothing changes) when the table is
    /// full or the name is longer than `RAMFS_MAX_NAME_LENGTH` bytes.
    pub fn ramfs_register_file(&mut self, name: &str, data: &'static [u8]) -> (ok: bool)
        requires
            old(self).wf(),
        ensures
            final(self).wf(),
            ok == (old(self).spec_entries().len() < RAMFS_MAX_FILES && name.spec_bytes().len() <= RAMFS_MAX_NAME_LENGTH),
            !ok ==> final(self).spec_entries() == old(self).spec_entries(),
            ok ==> final(self).spec_entries().len() == old(self).spec_entries().len() + 1
                && final(self).spec_entries().drop_last() == old(self).spec_entries()
                && final(self).spec_entries().last().data == data
                && final(self).spec_entries().last().name@ == name.spec_bytes()
                    + Seq::new((256 - name.spec_bytes().len()) as nat, |i: int| 0u8),
    {
        if self.entries.len() >= RAMFS_MAX_FILES {
            return false;
        }
        let bytes = name.as_bytes();
        if bytes.len() > RAMFS_MAX_NAME_LENGTH {
            return false;
        }
        let mut stored = [0u8; 256];
        let n = bytes.len();
        let mut i: usize = 0;
        while i < n
            invariant
                n == bytes@.len(),
                n <= 255,
                i <= n,
                forall|k: int| 0 <= k < i ==> stored@[k] == bytes@[k],
                forall|k: int| i <= k < 256 ==> stored@[k] == 0,
            decreases n - i,
        {
            stored[i] = bytes[i];
            i = i + 1;
        }
        assert(stored@ =~= bytes@ + Seq::new((256 - n) as nat, |i: int| 0u8));
        self.entries.push(RamFsEntry { name: stored, data });
        assert(self.entries@.drop_last() =~= old(self).entries@);
        true
    }

    /// The data of the first file called `name`.
    pub fn ramfs_find(&self, name: &str) -> (r: Option<&'static [u8]>)
        ensures
            match find_from(self.spec_entries(), name.spec_bytes(), 0) {
                Some(i) => r == Some(self.spec_entries()[i].data),
                None => r is None,
            },
    {
        let n = self.entries.len();
        let mut i: usize = 0;
        while i < n
            invariant
                n == self.entries@.len(),
                i <= n,
                find_from(self.entries@, name.spec_bytes(), i as int) == find_from(self.entries@, name.spec_bytes(), 0),
            decreases n - i,
        {
            let entry = &self.entries[i];
            if bytes_equal(entry.name_str().as_bytes(), name.as_bytes()) {
                return Some(entry.data);
            }
            i = i + 1;
        }
        None
    }

    /// The names of all files, in order.
    pub fn ramfs_list(&self) -> (v: Vec<&str>)
        ensures
            v@.len() == self.spec_entries().len(),
            forall|i: int| 0 <= i < v@.len() ==> (#[trigger] v@[i]).spec_bytes() == shown_name(self.spec_entries()[i].name@),
    {
        let n = self.entries.len();
        let mut v: Vec<&str> = Vec::new();
        let mut i: usize = 0;
        while i < n
            invariant
                n == self.entries@.len(),
                i <= n,
                v@.len() == i,
                forall|k: int| 0 <= k < i ==> (#[trigger] v@[k]).spec_bytes() == shown_name(self.entries@[k].name@),
            decreases n - i,
        {
            v.push(self.entries[i].name_str());
            i = i + 1;
        }
        v
    }
}

/// The search from `i` finds nothing before `stop` when no entry there
/// shows `name`.
proof fn lemma_find_from_skips(entries: Seq<RamFsEntry>, name: Seq<u8>, i: int, stop: int)
    requires
        0 <= i <= stop <= entries.len(),
        forall|k: int| i <= k < stop ==> shown_name(#[trigger] entries[k].name@) != name,
    ensures
        find_from(entries, name, i) == find_from(entries, name, stop),
    decreases stop - i,
{
    if i < stop {
        lemma_find_from_skips(entries, name, i + 1, stop);
    }
}

/// A name without NUL bytes, of at most 255 bytes and valid UTF-8, stored
/// NUL-padded to 256 bytes, shows as itself.
pub proof fn lemma_padded_name_shows(name: Seq<u8>)
    requires
        name.len() <= 255,
        forall|k: int| 0 <= k < name.len() ==> name[k] != 0,
        vstd::utf8::valid_utf8(name),
    ensures
        shown_name(name + Seq::new((256 - name.len()) as nat, |i: int| 0u8)) == name,
{
    let padded = name + Seq::new((256 - name.len()) as nat, |i: int| 0u8);
    lemma_first_zero(padded, 0);
    let z = first_zero(padded, 0);
    if z < name.len() {
        assert(padded[z] == name[z]);
    }
    assert(padded[name.len() as int] == 0);
    assert(z == name.len());
    assert(padded.subrange(0, z) =~= name);
}

/// A file registered under a name (no NUL bytes, at most 255 bytes) that
/// no earlier file shows is what a lookup of that name then finds.
pub proof fn lemma_register_then_find(before: Seq<RamFsEntry>, after: Seq<RamFsEntry>, name: Seq<u8>, data: &'static [u8])
    requires
        after.len() == before.len() + 1,
        after.drop_last() == before,
        after.last().data == data,
        after.last().name@ == name + Seq::new((256 - name.len()) as nat, |i: int| 0u8),
        name.len() <= 255,
        forall|k: int| 0 <= k < name.len() ==> name[k] != 0,
        vstd::utf8::valid_utf8(name),
        forall|k: int| 0 <= k < before.len() ==> shown_name(#[trigger] before[k].name@) != name,
    ensures
        find_from(after, name, 0) == Some(before.len() as int),
        after[before.len() as int].data == data,
{
    assert forall|k: int| 0 <= k < before.len() implies shown_name(#[trigger] after[k].name@) != name by {
        assert(after[k] == after.drop_last()[k]);
    }
    lemma_find_from_skips(after, name, 0, before.len() as int);
    lemma_padded_name_shows(name);
}

} // verus!
