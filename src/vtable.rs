//! A dispatch table of address-sized slots and the swap of one slot.
//!
//! `hook` takes the table by `&mut`, so calls against one table are
//! serialized by the borrow; a caller that shares the live table with other
//! threads must hold its own lock around the protection change and the write.
use vstd::prelude::*;

verus! {

/// Why a slot could not be swapped.
#[derive(Debug, Clone, Copy, PartialEq, Eq, Structural)]
pub enum HookError {
    /// `index` is not below the table's `size`.
    OutOfBounds { index: usize, size: usize },
}

/// What hooking slot `index` of a table holding `entries` returns: the slot's
/// current value, or the bound that `index` broke.
pub open spec fn hook_result(entries: Seq<usize>, index: usize) -> Result<usize, HookError> {
    if index < entries.len() {
        Ok(entries[index as int])
    } else {
        Err(HookError::OutOfBounds { index, size: entries.len() as usize })
    }
}

/// The entries after hooking slot `index` with `replacement`; an index out of
/// bounds leaves them as they were.
pub open spec fn hook_effect(entries: Seq<usize>, index: usize, replacement: usize) -> Seq<usize> {
    if index < entries.len() {
        entries.update(index as int, replacement)
    } else {
        entries
    }
}

/// A table of callable addresses that starts at `address`, one
/// address-sized slot per entry.
pub struct VTable {
    address: usize,
    representation: Vec<usize>,
}

impl VTable {
    /// Where the table starts.
    pub closed spec fn table_address(&self) -> int {
        self.address as int
    }

    /// The slots' values, in index order.
    pub closed spec fn slots(&self) -> Seq<usize> {
        self.representation@
    }

    /// The number of bytes the slots span.
    pub open spec fn extent(&self) -> nat {
        self.slots().len() * vstd::layout::size_of::<usize>()
    }

    /// The slots' extent in bytes fits in a `usize`.
    #[verifier::type_invariant]
    spec fn wf(&self) -> bool {
        self.representation@.len() * vstd::layout::size_of::<usize>() <= usize::MAX
    }

    /// The table at `address` whose slots hold `entries`; its size is the
    /// number of entries.
    pub fn new(address: usize, entries: Vec<usize>) -> (t: VTable)
        requires
            entries@.len() * vstd::layout::size_of::<usize>() <= usize::MAX,
        ensures
            t.table_address() == address,
            t.slots() == entries@,
    {
        VTable { address, representation: entries }
    }

    /// Where the table starts.
    pub fn address(&self) -> (r: usize)
        ensures
            r == self.table_address(),
    {
        self.address
    }

    /// The number of slots.
    pub fn size(&self) -> (r: usize)
        ensures
            r == self.slots().len(),
    {
        self.representation.len()
    }

    /// The slots' values, in index order.
    pub fn entries(&self) -> (r: &[usize])
        ensures
            r@ == self.slots(),
    {
        self.representation.as_slice()
    }

    /// The length in bytes of the region, starting at the table's address,
    /// whose protection must be lifted to write any slot: the size times the
    /// width of a slot.
    pub fn protect_len(&self) -> (r: usize)
        ensures
            r == self.extent(),
    {
        proof {
            use_type_invariant(self);
        }
        self.representation.len() * core::mem::size_of::<usize>()
    }

    /// Replaces slot `index` with `to_replace` and returns the value the slot
    /// held, so that the original entry can still be called. Hooking a slot
    /// twice returns what the first call installed. An index at or past the
    /// size fails with the index and the size, and nothing changes.
    pub fn hook(&mut self, index: usize, to_replace: usize) -> (r: Result<usize, HookError>)
        ensures
            final(self).table_address() == old(self).table_address(),
            r == hook_result(old(self).slots(), index),
            final(self).slots() == hook_effect(old(self).slots(), index, to_replace),
    {
        if index >= self.representation.len() {
            return Err(HookError::OutOfBounds { index, size: self.representation.len() });
        }
        proof {
            use_type_invariant(&*self);
        }
        let mut slots: Vec<usize> = Vec::new();
        std::mem::swap(&mut slots, &mut self.representation);
        let orig_address = slots[index];
        slots.set(index, to_replace);
        self.representation = slots;
        Ok(orig_address)
    }
}

/// Hooking a valid slot returns its current value, and hooking it again
/// returns what the first hook installed: hooks do not stack.
pub proof fn lemma_hooks_do_not_stack(entries: Seq<usize>, index: usize, first: usize, second: usize)
    requires
        index < entries.len(),
    ensures
        hook_result(entries, index) == Ok::<usize, HookError>(entries[index as int]),
        hook_result(hook_effect(entries, index, first), index) == Ok::<usize, HookError>(first),
        hook_effect(hook_effect(entries, index, first), index, second) == entries.update(
            index as int,
            second,
        ),
{
    assert(entries.update(index as int, first).update(index as int, second) =~= entries.update(
        index as int,
        second,
    ));
}

/// Hooking at the size or past it fails with the index and the size, and
/// leaves every entry as it was.
pub proof fn lemma_out_of_bounds_hook_changes_nothing(
    entries: Seq<usize>,
    index: usize,
    replacement: usize,
)
    requires
        index >= entries.len(),
        entries.len() <= usize::MAX,
    ensures
        hook_result(entries, index) == Err::<usize, HookError>(
            HookError::OutOfBounds { index, size: entries.len() as usize },
        ),
        hook_effect(entries, index, replacement) == entries,
{
}

} // verus!
