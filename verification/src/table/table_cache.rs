//! A bounded cache of open tables by file number. The table that was used
//! longest ago leaves when room is needed.

use crate::filename::{table_path, FileType};
use vstd::prelude::*;

verus! {

/// The number of tables that a cache holds unless another number is asked for.
pub const DEFAULT_CAPACITY: usize = 1000;

/// What to open when a table is not in the cache.
#[derive(Debug)]
pub struct OpenRequest {
    pub file_number: u64,
    pub file_name: String,
    pub size: u64,
}

/// Open tables by file number: `V` is whatever reads a table.
pub struct TableCache<V> {
    entries: Vec<(u64, V)>,
    capacity: usize,
    db_name: String,
}

/// Some entry is that of file `file_number`.
pub open spec fn holds<V>(entries: Seq<(u64, V)>, file_number: u64) -> bool {
    exists|i: int| 0 <= i < entries.len() && entries[i].0 == file_number
}

/// No two entries are of one file.
pub open spec fn distinct<V>(entries: Seq<(u64, V)>) -> bool {
    forall|i: int, j: int| 0 <= i < j < entries.len() ==> entries[i].0 != entries[j].0
}

/// The position of an entry of file `file_number`.
pub open spec fn position<V>(entries: Seq<(u64, V)>, file_number: u64) -> int {
    choose|i: int| 0 <= i < entries.len() && entries[i].0 == file_number
}

/// The entries after the table of a file was put in, and the entry that left:
/// the file's former entry, or the oldest entry where `limit` was reached.
pub open spec fn after_insert<V>(
    entries: Seq<(u64, V)>,
    limit: nat,
    file_number: u64,
    table: V,
) -> (Seq<(u64, V)>, Option<(u64, V)>) {
    if holds(entries, file_number) {
        let i = position(entries, file_number);
        (entries.remove(i).push((file_number, table)), Some(entries[i]))
    } else if entries.len() >= limit {
        (entries.subrange(1, entries.len() as int).push((file_number, table)), Some(entries[0]))
    } else {
        (entries.push((file_number, table)), None)
    }
}

/// Putting another entry of the same file in the place of one, at the end,
/// keeps the entries distinct.
pub proof fn lemma_replace_keeps_distinct<V>(entries: Seq<(u64, V)>, i: int, entry: (u64, V))
    requires
        distinct(entries),
        0 <= i < entries.len(),
        entry.0 == entries[i].0,
    ensures
        distinct(entries.remove(i).push(entry)),
        entries.remove(i).push(entry).len() == entries.len(),
{
    let after = entries.remove(i).push(entry);
    assert forall|a: int, b: int| 0 <= a < b < after.len() implies after[a].0 != after[b].0 by {
        let from_a = if a < i {
            a
        } else {
            a + 1
        };
        assert(after[a] == entries[from_a]);
        if b < after.len() - 1 {
            let from_b = if b < i {
                b
            } else {
                b + 1
            };
            assert(after[b] == entries[from_b]);
        }
    }
}

impl<V> TableCache<V> {
    /// The entries, the one used longest ago first.
    pub closed spec fn entries(&self) -> Seq<(u64, V)> {
        self.entries@
    }

    /// The number of tables that the cache holds at most.
    pub closed spec fn limit(&self) -> nat {
        self.capacity as nat
    }

    /// The name of the database.
    pub closed spec fn name(&self) -> Seq<char> {
        self.db_name@
    }

    /// No two entries are of one file, and there are no more than the limit,
    /// which is at least one.
    pub open spec fn wf(&self) -> bool {
        &&& distinct(self.entries())
        &&& self.entries().len() <= self.limit()
        &&& self.limit() >= 1
    }

    /// An empty cache for the database `name`, of the default capacity.
    pub fn new(name: &str) -> (r: Self)
        ensures
            r.wf(),
            r.entries() == Seq::<(u64, V)>::empty(),
            r.limit() == DEFAULT_CAPACITY,
            r.name() == name@,
    {
        Self { entries: Vec::new(), capacity: DEFAULT_CAPACITY, db_name: name.to_owned() }
    }

    /// An empty cache for the database `name` that holds up to `capacity`
    /// tables.
    pub fn with_capacity(name: &str, capacity: usize) -> (r: Self)
        requires
            capacity >= 1,
        ensures
            r.wf(),
            r.entries() == Seq::<(u64, V)>::empty(),
            r.limit() == capacity,
            r.name() == name@,
    {
        Self { entries: Vec::new(), capacity, db_name: name.to_owned() }
    }

    /// The number of tables held.
    pub fn len(&self) -> (n: usize)
        ensures
            n == self.entries().len(),
    {
        self.entries.len()
    }

    fn find(&self, file_number: u64) -> (r: Option<usize>)
        ensures
            match r {
                Some(i) => i < self.entries().len() && self.entries()[i as int].0 == file_number,
                None => !holds(self.entries(), file_number),
            },
    {
        let mut i: usize = 0;
        while i < self.entries.len()
            invariant
                i <= self.entries@.len(),
                forall|j: int| 0 <= j < i ==> self.entries@[j].0 != file_number,
            decreases self.entries@.len() - i,
        {
            if self.entries[i].0 == file_number {
                return Some(i);
            }
            i += 1;
        }
        None
    }

    /// The table of file `file_number`, which thereby becomes the one used
    /// last; where the cache holds none, the request to open the file, of
    /// `size` bytes, under its path in the database's directory.
    pub fn get(&mut self, file_number: u64, size: u64) -> (r: Result<&V, OpenRequest>)
        requires
            old(self).wf(),
        ensures
            final(self).wf(),
            final(self).limit() == old(self).limit(),
            final(self).name() == old(self).name(),
            match r {
                Ok(table) => {
                    let i = position(old(self).entries(), file_number);
                    &&& holds(old(self).entries(), file_number)
                    &&& *table == old(self).entries()[i].1
                    &&& final(self).entries() == old(self).entries().remove(i).push(
                        old(self).entries()[i],
                    )
                },
                Err(request) => {
                    &&& !holds(old(self).entries(), file_number)
                    &&& final(self).entries() == old(self).entries()
                    &&& request.file_number == file_number
                    &&& request.size == size
                    &&& request.file_name@ == table_path(old(self).name(), file_number)
                },
            },
    {
        match self.find(file_number) {
            Some(i) => {
                proof {
                    let p = position(self.entries@, file_number);
                    assert(p == i);
                    lemma_replace_keeps_distinct(self.entries@, i as int, self.entries@[i as int]);
                }
                let entry = self.entries.remove(i);
                self.entries.push(entry);
                let last = self.entries.len() - 1;
                Ok(&self.entries[last].1)
            },
            None => {
                let file_name = FileType::Table(self.db_name.as_str(), file_number).filename();
                Err(OpenRequest { file_number, file_name, size })
            },
        }
    }

    /// Puts the table of file `file_number` in as the one used last, and hands
    /// back the entry that left for it, if any.
    pub fn insert(&mut self, file_number: u64, table: V) -> (displaced: Option<(u64, V)>)
        requires
            old(self).wf(),
        ensures
            final(self).wf(),
            final(self).limit() == old(self).limit(),
            final(self).name() == old(self).name(),
            (final(self).entries(), displaced) == after_insert(
                old(self).entries(),
                old(self).limit(),
                file_number,
                table,
            ),
    {
        let displaced = match self.find(file_number) {
            Some(i) => {
                proof {
                    let p = position(self.entries@, file_number);
                    assert(p == i);
                    lemma_replace_keeps_distinct(
                        self.entries@,
                        i as int,
                        (file_number, table),
                    );
                }
                Some(self.entries.remove(i))
            },
            None => {
                if self.entries.len() >= self.capacity {
                    proof {
                        assert(self.entries@.remove(0) =~= self.entries@.subrange(
                            1,
                            self.entries@.len() as int,
                        ));
                    }
                    Some(self.entries.remove(0))
                } else {
                    None
                }
            },
        };
        self.entries.push((file_number, table));
        displaced
    }
}

} // verus!
