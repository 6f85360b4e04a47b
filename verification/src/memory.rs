//! Emulated memory as a list of mapped regions, with byte-range access that
//! is checked against a permission mask chosen by the caller.

use vstd::prelude::*;

verus! {

/// Permission mask that asks for nothing: every mapped byte grants it.
pub const PERM_NONE: u8 = 0;

/// Permission bit: the emulated program may read the byte.
pub const PERM_READ: u8 = 1;

/// Permission bit: the emulated program may write the byte.
pub const PERM_WRITE: u8 = 2;

/// Permission bit: the emulated program may execute the byte.
pub const PERM_EXEC: u8 = 4;

/// One contiguous block of mapped memory.
pub struct Region {
    /// Address of the first byte.
    pub base: u64,
    /// Permission bits that the emulated program has on the block.
    pub perm: u8,
    /// The bytes of the block, in address order.
    pub data: Vec<u8>,
}

impl Region {
    /// The block covers address `a`.
    pub open spec fn holds(self, a: int) -> bool {
        self.base <= a < self.base + self.data@.len() && a <= u64::MAX
    }

    /// The block carries every bit of `required`.
    pub open spec fn grants(self, required: u8) -> bool {
        self.perm & required == required
    }
}

/// Index of the first region at or after `from` that covers `a`.
pub open spec fn first_holder(regions: Seq<Region>, a: int, from: int) -> Option<int>
    decreases regions.len() - from,
{
    if from < 0 || from >= regions.len() {
        None
    } else if regions[from].holds(a) {
        Some(from)
    } else {
        first_holder(regions, a, from + 1)
    }
}

/// Two region lists map the same addresses with the same permissions.
pub open spec fn same_layout(r1: Seq<Region>, r2: Seq<Region>) -> bool {
    &&& r1.len() == r2.len()
    &&& forall|j: int|
        0 <= j < r1.len() ==> (#[trigger] r1[j]).base == r2[j].base && r1[j].perm == r2[j].perm
            && r1[j].data@.len() == r2[j].data@.len()
}

/// What `first_holder` finds is a region of the list that covers the address.
pub proof fn lemma_first_holder(regions: Seq<Region>, a: int, from: int)
    requires
        0 <= from,
    ensures
        match first_holder(regions, a, from) {
            Some(i) => from <= i < regions.len() && regions[i].holds(a),
            None => forall|j: int| from <= j < regions.len() ==> !(#[trigger] regions[j]).holds(a),
        },
    decreases regions.len() - from,
{
    if from < regions.len() && !regions[from].holds(a) {
        lemma_first_holder(regions, a, from + 1);
    }
}

/// An address is owned by some region exactly if some region covers it. So an
/// address that lies outside every region is not mapped.
pub proof fn lemma_mapped_iff_held(regions: Seq<Region>, a: int)
    ensures
        first_holder(regions, a, 0) is Some <==> exists|j: int|
            0 <= j < regions.len() && (#[trigger] regions[j]).holds(a),
{
    lemma_first_holder(regions, a, 0);
}

/// Region lists of the same layout assign every address to the same region.
pub proof fn lemma_same_layout(r1: Seq<Region>, r2: Seq<Region>, a: int, from: int)
    requires
        same_layout(r1, r2),
        0 <= from,
    ensures
        first_holder(r1, a, from) == first_holder(r2, a, from),
    decreases r1.len() - from,
{
    if from < r1.len() {
        assert(r1[from].holds(a) == r2[from].holds(a));
        if !r1[from].holds(a) {
            lemma_same_layout(r1, r2, a, from + 1);
        }
    }
}

/// `after` is `before` with `bytes` stored from address `a` on: the same
/// layout, the bytes in place, and every other mapped byte as it was.
pub open spec fn stored(before: Memory, after: Memory, a: int, bytes: Seq<u8>) -> bool {
    &&& same_layout(before.regions@, after.regions@)
    &&& forall|x: int| after.owner(x) == before.owner(x)
    &&& after.span(a, bytes.len()) == bytes
    &&& forall|x: int|
        before.is_mapped(x) && !(a <= x < a + bytes.len()) ==> #[trigger] after.byte(x)
            == before.byte(x)
}

/// Storing back the bytes that a mapped range holds leaves the contents of
/// memory as they were, so that reading the range again gives the same
/// bytes. The permissions of the range play no part.
pub proof fn lemma_write_back_round_trip(before: Memory, after: Memory, a: int, n: nat)
    requires
        before.range_mapped(a, n as int),
        stored(before, after, a, before.span(a, n)),
    ensures
        after@ == before@,
        after.span(a, n) == before.span(a, n),
        after.range_mapped(a, n as int),
{
    assert forall|x: int| after.is_mapped(x) implies after.byte(x) == before.byte(x) by {
        if a <= x < a + n {
            assert(after.span(a, n)[x - a] == after.byte(a + (x - a)));
            assert(before.span(a, n)[x - a] == before.byte(a + (x - a)));
        }
    }
    assert(after@ =~= before@);
    assert forall|x: int| a <= x < a + n implies #[trigger] after.is_mapped(x) by {
        assert(before.is_mapped(x));
    }
}

/// The emulated address space.
///
/// Where regions overlap, the one mapped first owns the shared addresses.
pub struct Memory {
    /// The mapped regions, in the order in which they were mapped.
    pub regions: Vec<Region>,
}

impl Memory {
    /// Index of the region that owns address `a`, if the address is mapped.
    pub open spec fn owner(&self, a: int) -> Option<int> {
        first_holder(self.regions@, a, 0)
    }

    /// Address `a` is mapped.
    pub open spec fn is_mapped(&self, a: int) -> bool {
        self.owner(a) is Some
    }

    /// The byte stored at the mapped address `a`.
    pub open spec fn byte(&self, a: int) -> u8
        recommends
            self.is_mapped(a),
    {
        let r = self.regions@[self.owner(a).unwrap()];
        r.data@[a - r.base]
    }

    /// Address `a` is mapped with every bit of `required`.
    pub open spec fn permits(&self, a: int, required: u8) -> bool {
        match self.owner(a) {
            Some(i) => self.regions@[i].grants(required),
            None => false,
        }
    }

    /// Every one of the `n` addresses from `a` on is mapped with `required`.
    pub open spec fn range_permits(&self, a: int, n: int, required: u8) -> bool {
        forall|x: int| a <= x < a + n ==> #[trigger] self.permits(x, required)
    }

    /// Every one of the `n` addresses from `a` on is mapped.
    pub open spec fn range_mapped(&self, a: int, n: int) -> bool {
        forall|x: int| a <= x < a + n ==> #[trigger] self.is_mapped(x)
    }

    /// The `n` bytes stored from address `a` on.
    pub open spec fn span(&self, a: int, n: nat) -> Seq<u8> {
        Seq::new(n, |k: int| self.byte(a + k))
    }

    /// The contents of the address space: each mapped address with its byte.
    pub open spec fn view(&self) -> Map<int, u8> {
        Map::new(|a: int| self.is_mapped(a), |a: int| self.byte(a))
    }

    /// An address space with nothing mapped.
    pub fn new() -> (m: Memory)
        ensures
            m.regions@.len() == 0,
            forall|a: int| !m.is_mapped(a),
    {
        Memory { regions: Vec::new() }
    }

    /// Maps `data` at `base` with permission bits `perm`, behind the regions
    /// that are already there.
    pub fn map_region(&mut self, base: u64, perm: u8, data: Vec<u8>)
        ensures
            final(self).regions@ == old(self).regions@.push(Region { base, perm, data }),
    {
        self.regions.push(Region { base, perm, data });
    }

    /// Finds the region that owns `addr`, and the place of `addr` in it.
    pub fn locate(&self, addr: u64) -> (r: Option<(usize, usize)>)
        ensures
            match r {
                Some((i, off)) => self.owner(addr as int) == Some(i as int) && i
                    < self.regions@.len() && off < self.regions@[i as int].data@.len() && off
                    == addr - self.regions@[i as int].base,
                None => self.owner(addr as int) is None,
            },
    {
        let mut i: usize = 0;
        while i < self.regions.len()
            invariant
                i <= self.regions@.len(),
                self.owner(addr as int) == first_holder(self.regions@, addr as int, i as int),
            decreases self.regions@.len() - i,
        {
            let r = &self.regions[i];
            let len = r.data.len();
            if addr >= r.base && addr - r.base < len as u64 {
                let off = (addr - r.base) as usize;
                return Some((i, off));
            }
            i += 1;
        }
        None
    }

    /// Tells whether every byte of a range is mapped with `required`.
    pub fn check_range(&self, addr: u64, len: usize, required: u8) -> (ok: bool)
        ensures
            ok == self.range_permits(addr as int, len as int, required),
    {
        let mut k: usize = 0;
        while k < len
            invariant
                k <= len,
                self.range_permits(addr as int, k as int, required),
            decreases len - k,
        {
            if k as u64 > u64::MAX - addr {
                proof {
                    lemma_first_holder(self.regions@, addr + k, 0);
                    assert(!self.permits(addr + k, required));
                }
                return false;
            }
            let a: u64 = addr + k as u64;
            match self.locate(a) {
                None => {
                    assert(!self.permits(a as int, required));
                    return false;
                },
                Some((i, _)) => {
                    if self.regions[i].perm & required != required {
                        assert(!self.permits(a as int, required));
                        return false;
                    }
                },
            }
            k += 1;
        }
        true
    }

    /// Reads the byte at a mapped address.
    pub fn load(&self, addr: u64) -> (b: u8)
        requires
            self.is_mapped(addr as int),
        ensures
            b == self.byte(addr as int),
    {
        let (i, off) = self.locate(addr).unwrap();
        self.regions[i].data[off]
    }

    /// Stores a byte at a mapped address. No other byte changes, and the
    /// layout stays as it was.
    pub fn store(&mut self, addr: u64, value: u8)
        requires
            old(self).is_mapped(addr as int),
        ensures
            same_layout(old(self).regions@, final(self).regions@),
            forall|a: int| final(self).owner(a) == old(self).owner(a),
            final(self).byte(addr as int) == value,
            forall|a: int|
                a != addr && old(self).is_mapped(a) ==> #[trigger] final(self).byte(a) == old(
                    self,
                ).byte(a),
    {
        let (i, off) = self.locate(addr).unwrap();
        let mut region = self.regions.remove(i);
        region.data.set(off, value);
        self.regions.insert(i, region);
        proof {
            let before = old(self).regions@;
            let after = self.regions@;
            assert(same_layout(before, after));
            assert forall|a: int| self.owner(a) == old(self).owner(a) by {
                lemma_same_layout(before, after, a, 0);
            }
            assert forall|a: int| a != addr && old(self).is_mapped(a) implies #[trigger] self.byte(
                a,
            ) == old(self).byte(a) by {
                lemma_first_holder(before, a, 0);
            }
        }
    }

    /// Copies `buf.len()` bytes from address `addr` on into `buf`, if every
    /// one of them is mapped with `required`. With `PERM_NONE` the
    /// permissions of the regions play no part.
    ///
    /// Returns whether the copy was made. Where it was not, `buf` keeps its
    /// length and nothing is said of what it holds.
    pub fn read_bytes(&self, addr: u64, buf: &mut Vec<u8>, required: u8) -> (ok: bool)
        ensures
            ok == self.range_permits(addr as int, old(buf)@.len() as int, required),
            final(buf)@.len() == old(buf)@.len(),
            ok ==> final(buf)@ == self.span(addr as int, old(buf)@.len()),
    {
        let n = buf.len();
        if !self.check_range(addr, n, required) {
            return false;
        }
        let mut k: usize = 0;
        while k < n
            invariant
                k <= n,
                buf@.len() == n,
                self.range_permits(addr as int, n as int, required),
                forall|j: int| 0 <= j < k ==> buf@[j] == self.byte(addr + j),
            decreases n - k,
        {
            proof {
                assert(self.permits(addr + k, required));
                lemma_first_holder(self.regions@, addr + k, 0);
            }
            let a: u64 = addr + k as u64;
            let b = self.load(a);
            buf.set(k, b);
            k += 1;
        }
        assert(buf@ =~= self.span(addr as int, n as nat));
        true
    }

    /// Copies `buf` into memory from address `addr` on, if every byte of the
    /// target is mapped with `required`. With `PERM_NONE` the permissions of
    /// the regions play no part.
    ///
    /// Returns whether the copy was made. Where it was not, memory is as it
    /// was. The layout never changes.
    pub fn write_bytes(&mut self, addr: u64, buf: &[u8], required: u8) -> (ok: bool)
        ensures
            ok == old(self).range_permits(addr as int, buf@.len() as int, required),
            !ok ==> *final(self) == *old(self),
            ok ==> stored(*old(self), *final(self), addr as int, buf@),
    {
        let n = buf.len();
        if !self.check_range(addr, n, required) {
            return false;
        }
        let mut k: usize = 0;
        while k < n
            invariant
                k <= n,
                buf@.len() == n,
                old(self).range_permits(addr as int, n as int, required),
                same_layout(old(self).regions@, self.regions@),
                forall|a: int| self.owner(a) == old(self).owner(a),
                forall|j: int| 0 <= j < k ==> self.byte(addr + j) == buf@[j],
                forall|a: int|
                    old(self).is_mapped(a) && !(addr <= a < addr + k) ==> #[trigger] self.byte(a)
                        == old(self).byte(a),
            decreases n - k,
        {
            proof {
                assert(old(self).permits(addr + k, required));
                lemma_first_holder(self.regions@, addr + k, 0);
            }
            let a: u64 = addr + k as u64;
            let ghost prev = *self;
            self.store(a, buf[k]);
            proof {
                assert forall|j: int| 0 <= j < k + 1 implies self.byte(addr + j) == buf@[j] by {
                    if j < k {
                        assert(old(self).permits(addr + j, required));
                        assert(prev.is_mapped(addr + j));
                    }
                }
            }
            k += 1;
        }
        assert(self.span(addr as int, n as nat) =~= buf@);
        true
    }
}

} // verus!
