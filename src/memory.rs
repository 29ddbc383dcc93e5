//! A contiguous, mapped range of an address space and the two byte-span
//! operations on it.
//!
//! Byte order convention: byte `i` of a span always lives at `address + i`,
//! for reads and writes alike.
use vstd::prelude::*;

verus! {

/// The result of storing `v` into `s` starting at index `at`: every other
/// byte keeps its value.
pub open spec fn stored(s: Seq<u8>, at: int, v: Seq<u8>) -> Seq<u8> {
    Seq::new(s.len(), |i: int| if at <= i < at + v.len() { v[i - at] } else { s[i] })
}

/// A readable and writable range of addresses `[base, base + len)` together
/// with the bytes it currently holds.
pub struct Memory {
    base: usize,
    bytes: Vec<u8>,
}

impl Memory {
    /// The first address of the range.
    pub closed spec fn base_addr(&self) -> int {
        self.base as int
    }

    /// The bytes held, in ascending address order.
    pub closed spec fn contents(&self) -> Seq<u8> {
        self.bytes@
    }

    /// The whole range lies inside the address space.
    #[verifier::type_invariant]
    spec fn wf(&self) -> bool {
        self.base + self.bytes@.len() <= usize::MAX
    }

    /// Every address of `[addr, addr + len)` belongs to the range.
    pub open spec fn readable(&self, addr: int, len: int) -> bool {
        &&& 0 <= len
        &&& self.base_addr() <= addr
        &&& addr + len <= self.base_addr() + self.contents().len()
    }

    /// The byte at address `addr`.
    pub open spec fn byte_at(&self, addr: int) -> u8 {
        self.contents()[addr - self.base_addr()]
    }

    /// The `len` bytes starting at address `addr`.
    pub open spec fn span(&self, addr: int, len: int) -> Seq<u8> {
        self.contents().subrange(addr - self.base_addr(), addr - self.base_addr() + len)
    }

    /// A range of `size` zero bytes starting at `base`.
    pub fn new(base: usize, size: usize) -> (m: Memory)
        requires
            base + size <= usize::MAX,
        ensures
            m.base_addr() == base,
            m.contents() == Seq::new(size as nat, |i: int| 0u8),
    {
        let mut bytes: Vec<u8> = Vec::new();
        let mut n: usize = 0;
        while n < size
            invariant
                n <= size,
                bytes@ == Seq::new(n as nat, |i: int| 0u8),
            decreases size - n,
        {
            bytes.push(0u8);
            n = n + 1;
            assert(bytes@ =~= Seq::new(n as nat, |i: int| 0u8));
        }
        Memory { base, bytes }
    }

    /// A range starting at `base` that holds `bytes`.
    pub fn from_bytes(base: usize, bytes: Vec<u8>) -> (m: Memory)
        requires
            base + bytes@.len() <= usize::MAX,
        ensures
            m.base_addr() == base,
            m.contents() == bytes@,
    {
        Memory { base, bytes }
    }

    /// The first address of the range.
    pub fn base(&self) -> (r: usize)
        ensures
            r == self.base_addr(),
    {
        self.base
    }

    /// The number of addresses in the range.
    pub fn len(&self) -> (r: usize)
        ensures
            r == self.contents().len(),
    {
        self.bytes.len()
    }

    /// One past the last address of the range.
    pub fn end(&self) -> (r: usize)
        ensures
            r == self.base_addr() + self.contents().len(),
    {
        proof {
            use_type_invariant(self);
        }
        self.base + self.bytes.len()
    }

    /// The byte at `address`.
    pub fn byte(&self, address: usize) -> (r: u8)
        requires
            self.readable(address as int, 1),
        ensures
            r == self.byte_at(address as int),
    {
        self.bytes[address - self.base]
    }
}

/// Reads `length` bytes starting at `address`; byte `i` of the result is the
/// byte at `address + i`.
pub fn read_bytes(mem: &Memory, address: usize, length: usize) -> (r: Vec<u8>)
    requires
        mem.readable(address as int, length as int),
    ensures
        r@ == mem.span(address as int, length as int),
{
    let off = address - mem.base;
    let n = mem.bytes.len();
    let mut r: Vec<u8> = Vec::new();
    let mut i: usize = 0;
    while i < length
        invariant
            i <= length,
            n == mem.contents().len(),
            off == address - mem.base_addr(),
            mem.readable(address as int, length as int),
            r@ == mem.contents().subrange(off as int, off + i),
        decreases length - i,
    {
        r.push(mem.bytes[off + i]);
        i = i + 1;
        assert(r@ =~= mem.contents().subrange(off as int, off + i));
    }
    r
}

/// Writes `bytes` starting at `address`, overwriting in place: byte `i` of
/// `bytes` goes to `address + i`, and no other address changes.
pub fn write_bytes(mem: &mut Memory, address: usize, bytes: &[u8])
    requires
        old(mem).readable(address as int, bytes@.len() as int),
    ensures
        final(mem).base_addr() == old(mem).base_addr(),
        final(mem).contents() == stored(
            old(mem).contents(),
            address - old(mem).base_addr(),
            bytes@,
        ),
{
    proof {
        use_type_invariant(&*mem);
    }
    let off = address - mem.base;
    let mut held: Vec<u8> = Vec::new();
    std::mem::swap(&mut held, &mut mem.bytes);
    let ghost before = held@;
    let n = held.len();
    let mut i: usize = 0;
    while i < bytes.len()
        invariant
            i <= bytes@.len(),
            n == held@.len(),
            n == before.len(),
            off == address - old(mem).base_addr(),
            before == old(mem).contents(),
            old(mem).readable(address as int, bytes@.len() as int),
            held@ == stored(before, off as int, bytes@.subrange(0, i as int)),
        decreases bytes@.len() - i,
    {
        held.set(off + i, bytes[i]);
        i = i + 1;
        assert(held@ =~= stored(before, off as int, bytes@.subrange(0, i as int)));
    }
    assert(bytes@.subrange(0, bytes@.len() as int) =~= bytes@);
    mem.bytes = held;
}

/// Writing `v` at `address` and then reading `v.len()` bytes there gives back
/// `v`: reads and writes follow one byte order. `after` is any memory that a
/// write of `v` at `address` into `before` can leave.
pub proof fn lemma_read_after_write(before: &Memory, after: &Memory, address: int, v: Seq<u8>)
    requires
        before.readable(address, v.len() as int),
        after.base_addr() == before.base_addr(),
        after.contents() == stored(before.contents(), address - before.base_addr(), v),
    ensures
        after.readable(address, v.len() as int),
        after.span(address, v.len() as int) == v,
{
    assert(after.span(address, v.len() as int) =~= v);
}

} // verus!
