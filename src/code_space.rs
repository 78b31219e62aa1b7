use vstd::prelude::*;
use crate::error::HookError;

verus! {

/// A contiguous range of executable memory: the bytes found from `base` on.
/// Hooks read prologues from it and patch it.
pub struct CodeSpace {
    pub base: u64,
    pub bytes: Vec<u8>,
}

/// A thread of the process as seen while it is frozen: its instruction
/// pointer, and whether it could be suspended at all.
#[derive(Clone, Copy, Debug, PartialEq, Eq, Structural)]
pub struct ThreadSnapshot {
    pub id: u64,
    pub ip: u64,
    pub suspended: bool,
}

impl CodeSpace {
    /// The range ends inside the address space.
    pub open spec fn wf(&self) -> bool {
        self.base + self.bytes@.len() <= u64::MAX
    }

    /// Whether the `len` bytes from `addr` all lie in this space.
    pub open spec fn covers(&self, addr: int, len: int) -> bool {
        self.base <= addr && addr + len <= self.base + self.bytes@.len()
    }

    /// The bytes from `addr` to the end of the space, at most `max` of them;
    /// empty when `addr` lies outside.
    pub open spec fn window(&self, addr: int, max: int) -> Seq<u8> {
        if addr < self.base || addr >= self.base + self.bytes@.len() {
            Seq::empty()
        } else {
            let o = addr - self.base;
            let end = if o + max < self.bytes@.len() { o + max } else { self.bytes@.len() as int };
            self.bytes@.subrange(o, end)
        }
    }

    /// The `len` bytes from `addr`.
    pub open spec fn at(&self, addr: int, len: int) -> Seq<u8> {
        self.bytes@.subrange(addr - self.base, addr - self.base + len)
    }

    /// The bytes of `before` with `data` written at `addr`.
    pub open spec fn written(before: Seq<u8>, base: int, addr: int, data: Seq<u8>) -> Seq<u8> {
        let o = addr - base;
        before.subrange(0, o) + data + before.subrange(o + data.len(), before.len() as int)
    }

    /// A code space of `bytes` found at `base`; `None` when it would run
    /// past the end of the address space.
    pub fn new(base: u64, bytes: Vec<u8>) -> (r: Option<CodeSpace>)
        ensures
            base + bytes@.len() <= u64::MAX ==> (r matches Some(c) && c.base == base && c.bytes@ == bytes@),
            base + bytes@.len() > u64::MAX ==> r is None,
    {
        if bytes.len() as u128 + base as u128 > u64::MAX as u128 {
            None
        } else {
            Some(CodeSpace { base, bytes })
        }
    }

    /// Whether the `len` bytes from `addr` all lie in this space.
    pub fn contains(&self, addr: u64, len: usize) -> (r: bool)
        ensures
            r == self.covers(addr as int, len as int),
    {
        addr >= self.base && (addr - self.base) as u128 + len as u128 <= self.bytes.len() as u128
    }

    /// Copies at most `max` bytes from `addr` on.
    pub fn read_window(&self, addr: u64, max: usize) -> (r: Vec<u8>)
        requires
            self.wf(),
        ensures
            r@ == self.window(addr as int, max as int),
    {
        let n = self.bytes.len();
        if addr < self.base || (addr - self.base) as u128 >= n as u128 {
            return Vec::new();
        }
        let o = (addr - self.base) as usize;
        let end: usize = if (o as u128 + max as u128) < n as u128 { o + max } else { n };
        let mut r: Vec<u8> = Vec::new();
        let mut i = o;
        while i < end
            invariant
                o <= i <= end <= n == self.bytes@.len(),
                r@ == self.bytes@.subrange(o as int, i as int),
            decreases end - i,
        {
            r.push(self.bytes[i]);
            assert(self.bytes@.subrange(o as int, i + 1) =~= self.bytes@.subrange(o as int, i as int).push(self.bytes@[i as int]));
            i = i + 1;
        }
        r
    }

    /// Overwrites the bytes from `addr` with `data`. Fails, changing
    /// nothing, when they do not all lie in this space.
    pub fn write(&mut self, addr: u64, data: &[u8]) -> (r: Result<(), HookError>)
        requires
            old(self).wf(),
        ensures
            final(self).wf(),
            final(self).base == old(self).base,
            final(self).bytes@.len() == old(self).bytes@.len(),
            old(self).covers(addr as int, data@.len() as int) ==> r is Ok && final(self).bytes@
                == CodeSpace::written(old(self).bytes@, old(self).base as int, addr as int, data@),
            !old(self).covers(addr as int, data@.len() as int) ==> r == Err::<(), HookError>(HookError::PatchWriteFailure)
                && *final(self) == *old(self),
    {
        let n = self.bytes.len();
        if !self.contains(addr, data.len()) {
            return Err(HookError::PatchWriteFailure);
        }
        let o = (addr - self.base) as usize;
        assert(o == addr - self.base);
        let mut i: usize = 0;
        while i < data.len()
            invariant
                old(self).covers(addr as int, data@.len() as int),
                o == addr - old(self).base,
                n == old(self).bytes@.len(),
                self.base == old(self).base,
                self.bytes@.len() == old(self).bytes@.len(),
                0 <= i <= data@.len(),
                self.bytes@ == CodeSpace::written(old(self).bytes@, old(self).base as int, addr as int, data@.subrange(0, i as int))
                    .subrange(0, o + i) + old(self).bytes@.subrange(o + i, old(self).bytes@.len() as int),
            decreases data@.len() - i,
        {
            self.bytes.set(o + i, data[i]);
            proof {
                let w0 = CodeSpace::written(old(self).bytes@, old(self).base as int, addr as int, data@.subrange(0, i as int));
                let w1 = CodeSpace::written(old(self).bytes@, old(self).base as int, addr as int, data@.subrange(0, i + 1));
                assert(w1.subrange(0, o + i + 1) =~= w0.subrange(0, o + i).push(data@[i as int]));
                assert(self.bytes@ =~= w1.subrange(0, o + i + 1) + old(self).bytes@.subrange(o + i + 1, old(self).bytes@.len() as int));
            }
            i = i + 1;
        }
        proof {
            let w = CodeSpace::written(old(self).bytes@, old(self).base as int, addr as int, data@);
            assert(data@.subrange(0, data@.len() as int) =~= data@);
            assert(self.bytes@ =~= w);
        }
        Ok(())
    }
}

/// Writing `data` at `addr` leaves every byte outside the written range alone.
pub proof fn lemma_written_elsewhere(before: Seq<u8>, base: int, addr: int, data: Seq<u8>, x: int, len: int)
    requires
        base <= addr,
        addr + data.len() <= base + before.len(),
        base <= x,
        0 <= len,
        x + len <= base + before.len(),
        x + len <= addr || addr + data.len() <= x,
    ensures
        CodeSpace::written(before, base, addr, data).subrange(x - base, x - base + len)
            == before.subrange(x - base, x - base + len),
{
    let w = CodeSpace::written(before, base, addr, data);
    assert(w.len() == before.len());
    assert(w.subrange(x - base, x - base + len) =~= before.subrange(x - base, x - base + len));
}

/// Writing `data` at `addr` puts exactly `data` there.
pub proof fn lemma_written_here(before: Seq<u8>, base: int, addr: int, data: Seq<u8>)
    requires
        base <= addr,
        addr + data.len() <= base + before.len(),
    ensures
        CodeSpace::written(before, base, addr, data).subrange(addr - base, addr - base + data.len()) == data,
        CodeSpace::written(before, base, addr, data).len() == before.len(),
{
    let w = CodeSpace::written(before, base, addr, data);
    assert(w.subrange(addr - base, addr - base + data.len()) =~= data);
}

} // verus!
