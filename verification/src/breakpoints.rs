//! The table of installed software breakpoints and the bytes they replaced,
//! with the model of target memory in which patching is shown reversible.

use vstd::prelude::*;

verus! {

/// An installed software breakpoint.
#[derive(Debug, PartialEq, Eq)]
pub struct Breakpoint {
    /// Where the trap instruction was written.
    pub address: u64,
    /// The bytes that the trap instruction replaced.
    pub original_bytes: Vec<u8>,
}

/// The table that a list of breakpoints stands for: each address with the
/// bytes saved for it.
pub open spec fn spec_table_of(entries: Seq<Breakpoint>) -> Map<u64, Seq<u8>>
    decreases entries.len(),
{
    if entries.len() == 0 {
        Map::empty()
    } else {
        spec_table_of(entries.drop_last()).insert(
            entries.last().address,
            entries.last().original_bytes@,
        )
    }
}

/// No address occurs twice in `entries`.
pub open spec fn spec_distinct(entries: Seq<Breakpoint>) -> bool {
    forall|i: int, j: int|
        0 <= i < j < entries.len() ==> (#[trigger] entries[i]).address != (
        #[trigger] entries[j]).address
}

/// An address is in the table exactly if an entry has it.
pub proof fn lemma_table_domain(entries: Seq<Breakpoint>, address: u64)
    ensures
        spec_table_of(entries).contains_key(address) <==> exists|i: int|
            0 <= i < entries.len() && (#[trigger] entries[i]).address == address,
    decreases entries.len(),
{
    if entries.len() > 0 {
        let front = entries.drop_last();
        lemma_table_domain(front, address);
        if spec_table_of(entries).contains_key(address) {
            if entries.last().address == address {
                assert(entries[entries.len() - 1].address == address);
            } else {
                let i = choose|i: int| 0 <= i < front.len() && (#[trigger] front[i]).address == address;
                assert(entries[i].address == address);
            }
        }
        if exists|i: int| 0 <= i < entries.len() && (#[trigger] entries[i]).address == address {
            let i = choose|i: int|
                0 <= i < entries.len() && (#[trigger] entries[i]).address == address;
            if i < front.len() {
                assert(front[i].address == address);
            }
        }
    }
}

/// With distinct addresses, the table holds for each entry the bytes of that entry.
pub proof fn lemma_table_value(entries: Seq<Breakpoint>, i: int)
    requires
        spec_distinct(entries),
        0 <= i < entries.len(),
    ensures
        spec_table_of(entries).contains_key(entries[i].address),
        spec_table_of(entries)[entries[i].address] == entries[i].original_bytes@,
    decreases entries.len(),
{
    let front = entries.drop_last();
    if i < entries.len() - 1 {
        assert(spec_distinct(front)) by {
            assert forall|a: int, b: int| 0 <= a < b < front.len() implies (#[trigger] front[a]).address
                != (#[trigger] front[b]).address by {
                assert(entries[a].address != entries[b].address);
            }
        }
        lemma_table_value(front, i);
        assert(front[i] == entries[i]);
        assert(entries[i].address != entries[entries.len() - 1].address);
    }
}

/// Taking one entry out of a list of distinct addresses takes its address
/// out of the table and leaves the rest as it was.
pub proof fn lemma_table_remove(entries: Seq<Breakpoint>, i: int)
    requires
        spec_distinct(entries),
        0 <= i < entries.len(),
    ensures
        spec_distinct(entries.remove(i)),
        spec_table_of(entries.remove(i)) == spec_table_of(entries).remove(entries[i].address),
    decreases entries.len(),
{
    let rest = entries.remove(i);
    assert(spec_distinct(rest)) by {
        assert forall|a: int, b: int| 0 <= a < b < rest.len() implies (#[trigger] rest[a]).address != (
        #[trigger] rest[b]).address by {
            let a2 = if a < i {
                a
            } else {
                a + 1
            };
            let b2 = if b < i {
                b
            } else {
                b + 1
            };
            assert(rest[a] == entries[a2] && rest[b] == entries[b2]);
            assert(entries[a2].address != entries[b2].address);
        }
    }
    let front = entries.drop_last();
    if i == entries.len() - 1 {
        assert(rest =~= front);
        lemma_table_domain(front, entries[i].address);
        if spec_table_of(front).contains_key(entries[i].address) {
            let k = choose|k: int|
                0 <= k < front.len() && (#[trigger] front[k]).address == entries[i].address;
            assert(entries[k].address != entries[i].address);
        }
        assert(spec_table_of(front) =~= spec_table_of(entries).remove(entries[i].address));
    } else {
        assert(spec_distinct(front)) by {
            assert forall|a: int, b: int| 0 <= a < b < front.len() implies (#[trigger] front[a]).address
                != (#[trigger] front[b]).address by {
                assert(entries[a].address != entries[b].address);
            }
        }
        lemma_table_remove(front, i);
        assert(rest.drop_last() =~= front.remove(i));
        assert(rest.last() == entries.last());
        assert(entries[i].address != entries[entries.len() - 1].address);
        assert(spec_table_of(rest) =~= spec_table_of(entries).remove(entries[i].address));
    }
}

/// The breakpoint table: at most one entry per address.
#[derive(Debug)]
pub struct BreakpointTable {
    entries: Vec<Breakpoint>,
}

impl View for BreakpointTable {
    type V = Map<u64, Seq<u8>>;

    closed spec fn view(&self) -> Map<u64, Seq<u8>> {
        spec_table_of(self.entries@)
    }
}

impl BreakpointTable {
    /// No address is entered twice.
    pub closed spec fn wf(&self) -> bool {
        spec_distinct(self.entries@)
    }

    /// The number of entries.
    pub closed spec fn spec_len(&self) -> nat {
        self.entries@.len()
    }

    /// The table is empty exactly if it has no entry.
    pub proof fn lemma_len_zero(&self)
        requires
            self.wf(),
        ensures
            (self.spec_len() == 0) == (self@ == Map::<u64, Seq<u8>>::empty()),
    {
        if self.entries@.len() > 0 {
            lemma_table_value(self.entries@, 0);
        }
    }

    /// An empty table.
    pub fn new() -> (table: BreakpointTable)
        ensures
            table@ == Map::<u64, Seq<u8>>::empty(),
            table.wf(),
            table.spec_len() == 0,
    {
        BreakpointTable { entries: Vec::new() }
    }

    /// The number of breakpoints installed.
    pub fn len(&self) -> (n: usize)
        ensures
            n == self.spec_len(),
    {
        self.entries.len()
    }

    /// Whether no breakpoint is installed.
    pub fn is_empty(&self) -> (empty: bool)
        requires
            self.wf(),
        ensures
            empty == (self@ == Map::<u64, Seq<u8>>::empty()),
            empty == (self.spec_len() == 0),
    {
        proof {
            if self.entries@.len() > 0 {
                lemma_table_value(self.entries@, 0);
            }
        }
        self.entries.len() == 0
    }

    /// The position of the entry for `address`, if there is one.
    fn position(&self, address: u64) -> (at: Option<usize>)
        requires
            self.wf(),
        ensures
            at is Some == self@.contains_key(address),
            at matches Some(i) ==> i < self.entries@.len() && self.entries@[i as int].address
                == address && self@[address] == self.entries@[i as int].original_bytes@,
    {
        let mut i: usize = 0;
        while i < self.entries.len()
            invariant
                i <= self.entries@.len(),
                self.wf(),
                forall|k: int| 0 <= k < i ==> (#[trigger] self.entries@[k]).address != address,
            decreases self.entries@.len() - i,
        {
            if self.entries[i].address == address {
                proof {
                    lemma_table_value(self.entries@, i as int);
                }
                return Some(i);
            }
            i = i + 1;
        }
        proof {
            lemma_table_domain(self.entries@, address);
        }
        None
    }

    /// Whether a breakpoint is installed at `address`.
    pub fn contains(&self, address: u64) -> (present: bool)
        requires
            self.wf(),
        ensures
            present == self@.contains_key(address),
    {
        self.position(address).is_some()
    }

    /// The bytes that the breakpoint at `address` replaced.
    pub fn original_bytes(&self, address: u64) -> (bytes: Option<Vec<u8>>)
        requires
            self.wf(),
        ensures
            bytes is Some == self@.contains_key(address),
            bytes matches Some(b) ==> b@ == self@[address],
    {
        match self.position(address) {
            Some(i) => Some(self.entries[i].original_bytes.clone()),
            None => None,
        }
    }

    /// Records a breakpoint at `address` over `original_bytes`. Where the
    /// address is entered already the table stays as it is, which is no
    /// failure. Returns whether an entry was made.
    pub fn add(&mut self, address: u64, original_bytes: Vec<u8>) -> (added: bool)
        requires
            old(self).wf(),
        ensures
            final(self).wf(),
            added == !old(self)@.contains_key(address),
            added ==> final(self)@ == old(self)@.insert(address, original_bytes@),
            added ==> final(self).spec_len() == old(self).spec_len() + 1,
            !added ==> final(self)@ == old(self)@,
            !added ==> final(self).spec_len() == old(self).spec_len(),
    {
        if self.position(address).is_some() {
            return false;
        }
        proof {
            lemma_table_domain(self.entries@, address);
        }
        self.entries.push(Breakpoint { address, original_bytes });
        proof {
            assert(self.entries@.drop_last() =~= old(self).entries@);
            assert(spec_distinct(self.entries@)) by {
                assert forall|a: int, b: int| 0 <= a < b < self.entries@.len() implies (
                #[trigger] self.entries@[a]).address != (#[trigger] self.entries@[b]).address by {
                    assert(self.entries@[a] == old(self).entries@[a]);
                    if b < old(self).entries@.len() {
                        assert(self.entries@[b] == old(self).entries@[b]);
                    }
                }
            }
        }
        true
    }

    /// Takes the breakpoint at `address` out of the table and hands back the
    /// bytes it replaced; `None`, and no change, where there is none.
    pub fn remove(&mut self, address: u64) -> (original_bytes: Option<Vec<u8>>)
        requires
            old(self).wf(),
        ensures
            final(self).wf(),
            original_bytes is Some == old(self)@.contains_key(address),
            original_bytes matches Some(b) ==> b@ == old(self)@[address],
            final(self)@ == old(self)@.remove(address),
            final(self).spec_len() == old(self).spec_len() - if original_bytes is Some {
                1int
            } else {
                0int
            },
    {
        match self.position(address) {
            Some(i) => {
                proof {
                    lemma_table_remove(self.entries@, i as int);
                }
                let entry = self.entries.remove(i);
                Some(entry.original_bytes)
            },
            None => {
                assert(self@.remove(address) =~= self@);
                None
            },
        }
    }

    /// Empties the table and hands back what it held.
    pub fn drain(&mut self) -> (entries: Vec<Breakpoint>)
        requires
            old(self).wf(),
        ensures
            final(self).wf(),
            final(self)@ == Map::<u64, Seq<u8>>::empty(),
            final(self).spec_len() == 0,
            spec_distinct(entries@),
            spec_table_of(entries@) == old(self)@,
            entries@.len() == old(self).spec_len(),
    {
        let mut entries: Vec<Breakpoint> = Vec::new();
        core::mem::swap(&mut entries, &mut self.entries);
        entries
    }
}

/// The bytes of `memory` at `address` and the `len - 1` addresses after it.
pub open spec fn spec_read_memory(memory: Map<int, u8>, address: int, len: nat) -> Seq<u8> {
    Seq::new(len, |i: int| memory[address + i])
}

/// `memory` with `bytes` stored at `address` and the addresses after it.
pub open spec fn spec_write_memory(memory: Map<int, u8>, address: int, bytes: Seq<u8>) -> Map<
    int,
    u8,
> {
    Map::new(
        |a: int| memory.contains_key(a) || address <= a < address + bytes.len(),
        |a: int|
            if address <= a < address + bytes.len() {
                bytes[a - address]
            } else {
                memory[a]
            },
    )
}

/// All of `address .. address + len` is mapped in `memory`.
pub open spec fn spec_mapped(memory: Map<int, u8>, address: int, len: nat) -> bool {
    forall|a: int| address <= a < address + len ==> #[trigger] memory.contains_key(a)
}

/// Patching is reversible: after a trap instruction is written over mapped
/// memory, writing back the bytes that were read there before gives the
/// memory as it was, byte for byte.
pub proof fn lemma_patch_then_restore(memory: Map<int, u8>, address: int, trap: Seq<u8>)
    requires
        spec_mapped(memory, address, trap.len()),
    ensures
        spec_write_memory(
            spec_write_memory(memory, address, trap),
            address,
            spec_read_memory(memory, address, trap.len()),
        ) == memory,
{
    let saved = spec_read_memory(memory, address, trap.len());
    let patched = spec_write_memory(memory, address, trap);
    let restored = spec_write_memory(patched, address, saved);
    assert(restored =~= memory);
}

/// Recording a breakpoint at an address that the table does not hold and
/// then removing it hands back the recorded bytes and leaves the table as
/// it was before.
pub proof fn lemma_add_then_remove(table: Map<u64, Seq<u8>>, address: u64, original: Seq<u8>)
    requires
        !table.contains_key(address),
    ensures
        table.insert(address, original)[address] == original,
        table.insert(address, original).remove(address) == table,
{
    assert(table.insert(address, original).remove(address) =~= table);
}

} // verus!
