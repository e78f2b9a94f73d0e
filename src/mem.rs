//! Paged linear memory with little-endian loads and stores.

use vstd::prelude::*;
use crate::expr::MemoryImmed;
use crate::bytes::{le_value, le_bytes, splice, lemma_le_round_trip, read_le_u16, read_le_u32, read_le_u64,
    write_le_u16, write_le_u32, write_le_u64};

verus! {

/// The size of a page in bytes.
pub const PAGE_SIZE: usize = 65536;

/// The most pages a memory can hold: 4 GiB in all.
pub const MAX_PAGES: usize = 65536;

/// The page that byte `addr` lies in.
pub open spec fn page_of(addr: int) -> int {
    addr / 65536
}

/// Where byte `addr` lies within its page.
pub open spec fn offset_in_page(addr: int) -> int {
    addr % 65536
}

/// Whether `n` bytes from `addr` lie within one existing page of `pages`.
pub open spec fn in_range(pages: Seq<Seq<u8>>, addr: int, n: int) -> bool {
    &&& 0 <= addr
    &&& 0 <= n
    &&& page_of(addr) < pages.len()
    &&& offset_in_page(addr) + n <= 65536
}

/// The `n` bytes from `addr`.
pub open spec fn bytes_at(pages: Seq<Seq<u8>>, addr: int, n: int) -> Seq<u8> {
    pages[page_of(addr)].subrange(offset_in_page(addr), offset_in_page(addr) + n)
}

/// `pages` with the bytes from `addr` on replaced by `w`.
pub open spec fn write_at(pages: Seq<Seq<u8>>, addr: int, w: Seq<u8>) -> Seq<Seq<u8>> {
    pages.update(page_of(addr), splice(pages[page_of(addr)], offset_in_page(addr), w))
}

/// The number stored in the `n` bytes from `addr`, least significant first.
pub open spec fn load_value(pages: Seq<Seq<u8>>, addr: int, n: int) -> nat {
    le_value(bytes_at(pages, addr, n))
}

proof fn lemma_single_byte(pages: Seq<Seq<u8>>, addr: int)
    requires
        pages_wf(pages),
        in_range(pages, addr, 1),
    ensures
        load_value(pages, addr, 1) == pages[page_of(addr)][offset_in_page(addr)],
{
    let w = bytes_at(pages, addr, 1);
    assert(w.drop_first() =~= Seq::<u8>::empty());
    assert(le_value(w.drop_first()) == 0);
}

proof fn lemma_single_byte_write(page: Seq<u8>, o: int, b: u8)
    requires
        0 <= o < page.len(),
    ensures
        page.update(o, b) == splice(page, o, le_bytes(b as nat, 1)),
{
    let w = le_bytes(b as nat, 1);
    assert(le_bytes((b as nat) / 256, 0) =~= Seq::<u8>::empty());
    assert(w =~= seq![b]);
    assert(page.update(o, b) =~= splice(page, o, w));
}

/// A page of zeros.
pub open spec fn zero_page() -> Seq<u8> {
    Seq::new(65536, |i: int| 0u8)
}

/// `pages` with `n` zero pages added.
pub open spec fn grown(pages: Seq<Seq<u8>>, n: nat) -> Seq<Seq<u8>> {
    pages + Seq::new(n, |i: int| zero_page())
}

/// Every page has the page size, and there are not too many of them.
pub open spec fn pages_wf(pages: Seq<Seq<u8>>) -> bool {
    &&& pages.len() <= 65536
    &&& forall|i: int| 0 <= i < pages.len() ==> (#[trigger] pages[i]).len() == 65536
}

/// A linear memory: a sequence of zero-initialised 64 KiB pages. Pages are
/// separate heap buffers, so growing never moves the bytes of a page.
pub struct Memory {
    pages: Vec<Vec<u8>>,
}

impl View for Memory {
    type V = Seq<Seq<u8>>;

    closed spec fn view(&self) -> Seq<Seq<u8>> {
        self.pages@.map_values(|p: Vec<u8>| p@)
    }
}

impl Memory {
    /// The memory's pages are well formed.
    pub open spec fn wf(&self) -> bool {
        pages_wf(self@)
    }

    /// A memory without pages.
    pub fn new() -> (r: Memory)
        ensures
            r@ == Seq::<Seq<u8>>::empty(),
            r.wf(),
    {
        let r = Memory { pages: Vec::new() };
        assert(r@ =~= Seq::<Seq<u8>>::empty());
        r
    }

    /// The number of pages.
    pub fn len_pages(&self) -> (r: usize)
        ensures
            r == self@.len(),
    {
        self.pages.len()
    }

    /// Adds `delta` zero pages and gives the number of pages before; gives -1
    /// and changes nothing when `delta` is negative or the memory would
    /// exceed its largest size.
    pub fn grow(&mut self, delta: i32) -> (r: i32)
        requires
            old(self).wf(),
        ensures
            final(self).wf(),
            if delta < 0 || old(self)@.len() + delta > MAX_PAGES {
                r == -1 && final(self)@ == old(self)@
            } else {
                r == old(self)@.len() && final(self)@ == grown(old(self)@, delta as nat)
            },
    {
        if delta < 0 {
            return -1;
        }
        let old_pages = self.pages.len();
        if delta as usize > MAX_PAGES - old_pages {
            return -1;
        }
        let ghost start = self@;
        let mut i: usize = 0;
        while i < delta as usize
            invariant
                0 <= delta,
                old_pages == start.len(),
                start.len() + delta <= MAX_PAGES,
                i <= delta,
                pages_wf(start),
                self@ =~= start + Seq::new(i as nat, |j: int| zero_page()),
            decreases delta - i,
        {
            let page = Memory::zeroed_page();
            let ghost before = self@;
            self.pages.push(page);
            proof {
                assert(self@ =~= before.push(zero_page()));
            }
            i = i + 1;
        }
        proof {
            assert forall|j: int| 0 <= j < self@.len() implies (#[trigger] self@[j]).len() == 65536 by {
                if j >= start.len() {
                    assert(self@[j] == zero_page());
                }
            }
        }
        old_pages as i32
    }

    fn zeroed_page() -> (r: Vec<u8>)
        ensures
            r@ == zero_page(),
    {
        let mut p: Vec<u8> = Vec::new();
        while p.len() < PAGE_SIZE
            invariant
                p.len() <= PAGE_SIZE,
                forall|j: int| 0 <= j < p@.len() ==> p@[j] == 0,
            decreases PAGE_SIZE - p.len(),
        {
            p.push(0);
        }
        assert(p@ =~= zero_page());
        p
    }

    /// The page and the offset within it of `sz` bytes from `addr`, when they
    /// lie within one page.
    fn locate(&self, addr: u32, sz: usize) -> (r: Option<(usize, usize)>)
        requires
            self.wf(),
            sz <= 8,
        ensures
            r is Some <==> in_range(self@, addr as int, sz as int),
            r matches Some((p, o)) ==> p == page_of(addr as int) && o == offset_in_page(addr as int),
    {
        let page = (addr >> 16) as usize;
        let offset = (addr & 0xffff) as usize;
        assert(page == addr / 65536 && offset == addr % 65536) by (bit_vector)
            requires page == (addr >> 16) as usize, offset == (addr & 0xffff) as usize;
        if page < self.pages.len() && offset + sz <= PAGE_SIZE {
            Some((page, offset))
        } else {
            None
        }
    }

    /// The sign-extended byte at `immed.offset`, or nothing when it is out of range.
    pub fn i32_load8_s(&self, immed: &MemoryImmed) -> (r: Option<i32>)
        requires
            self.wf(),
        ensures
            r == if in_range(self@, immed.offset as int, 1) {
                Some((load_value(self@, immed.offset as int, 1) as u8 as i8) as i32)
            } else {
                None::<i32>
            },
    {
        match self.locate(immed.offset, 1) {
            Some((p, o)) => {
                proof {
                    assert(self.pages@[p as int]@ == self@[p as int]);
                }
                let raw = self.pages[p][o];
                proof {
                    lemma_single_byte(self@, immed.offset as int);
                    assert(self@[p as int][o as int] == raw);
                }
                Some(raw as i8 as i32)
            },
            None => None,
        }
    }

    /// The zero-extended byte at `immed.offset`, or nothing when it is out of range.
    pub fn i32_load8_u(&self, immed: &MemoryImmed) -> (r: Option<i32>)
        requires
            self.wf(),
        ensures
            r == if in_range(self@, immed.offset as int, 1) {
                Some(load_value(self@, immed.offset as int, 1) as i32)
            } else {
                None::<i32>
            },
    {
        match self.locate(immed.offset, 1) {
            Some((p, o)) => {
                proof {
                    assert(self.pages@[p as int]@ == self@[p as int]);
                }
                let raw = self.pages[p][o];
                proof {
                    lemma_single_byte(self@, immed.offset as int);
                    assert(self@[p as int][o as int] == raw);
                }
                Some(raw as i32)
            },
            None => None,
        }
    }

    /// The sign-extended 16-bit value at `immed.offset`, or nothing when it is out of range.
    pub fn i32_load16_s(&self, immed: &MemoryImmed) -> (r: Option<i32>)
        requires
            self.wf(),
        ensures
            r == if in_range(self@, immed.offset as int, 2) {
                Some((load_value(self@, immed.offset as int, 2) as u16 as i16) as i32)
            } else {
                None::<i32>
            },
    {
        match self.locate(immed.offset, 2) {
            Some((p, o)) => {
                proof {
                    assert(self.pages@[p as int]@ == self@[p as int]);
                }
                let raw = read_le_u16(self.pages[p].as_slice(), o);
                Some(raw as i16 as i32)
            },
            None => None,
        }
    }

    /// The zero-extended 16-bit value at `immed.offset`, or nothing when it is out of range.
    pub fn i32_load16_u(&self, immed: &MemoryImmed) -> (r: Option<i32>)
        requires
            self.wf(),
        ensures
            r == if in_range(self@, immed.offset as int, 2) {
                Some(load_value(self@, immed.offset as int, 2) as i32)
            } else {
                None::<i32>
            },
    {
        match self.locate(immed.offset, 2) {
            Some((p, o)) => {
                proof {
                    assert(self.pages@[p as int]@ == self@[p as int]);
                }
                let raw = read_le_u16(self.pages[p].as_slice(), o);
                Some(raw as i32)
            },
            None => None,
        }
    }

    /// The 32-bit value at `immed.offset`, or nothing when it is out of range.
    pub fn i32_load(&self, immed: &MemoryImmed) -> (r: Option<i32>)
        requires
            self.wf(),
        ensures
            r == if in_range(self@, immed.offset as int, 4) {
                Some((load_value(self@, immed.offset as int, 4) as u32) as i32)
            } else {
                None::<i32>
            },
    {
        match self.locate(immed.offset, 4) {
            Some((p, o)) => {
                proof {
                    assert(self.pages@[p as int]@ == self@[p as int]);
                }
                let raw = read_le_u32(self.pages[p].as_slice(), o);
                Some(raw as i32)
            },
            None => None,
        }
    }

    /// The sign-extended byte at `immed.offset`, or nothing when it is out of range.
    pub fn i64_load8_s(&self, immed: &MemoryImmed) -> (r: Option<i64>)
        requires
            self.wf(),
        ensures
            r == if in_range(self@, immed.offset as int, 1) {
                Some((load_value(self@, immed.offset as int, 1) as u8 as i8) as i64)
            } else {
                None::<i64>
            },
    {
        match self.locate(immed.offset, 1) {
            Some((p, o)) => {
                proof {
                    assert(self.pages@[p as int]@ == self@[p as int]);
                }
                let raw = self.pages[p][o];
                proof {
                    lemma_single_byte(self@, immed.offset as int);
                    assert(self@[p as int][o as int] == raw);
                }
                Some(raw as i8 as i64)
            },
            None => None,
        }
    }

    /// The zero-extended byte at `immed.offset`, or nothing when it is out of range.
    pub fn i64_load8_u(&self, immed: &MemoryImmed) -> (r: Option<i64>)
        requires
            self.wf(),
        ensures
            r == if in_range(self@, immed.offset as int, 1) {
                Some(load_value(self@, immed.offset as int, 1) as i64)
            } else {
                None::<i64>
            },
    {
        match self.locate(immed.offset, 1) {
            Some((p, o)) => {
                proof {
                    assert(self.pages@[p as int]@ == self@[p as int]);
                }
                let raw = self.pages[p][o];
                proof {
                    lemma_single_byte(self@, immed.offset as int);
                    assert(self@[p as int][o as int] == raw);
                }
                Some(raw as i64)
            },
            None => None,
        }
    }

    /// The sign-extended 16-bit value at `immed.offset`, or nothing when it is out of range.
    pub fn i64_load16_s(&self, immed: &MemoryImmed) -> (r: Option<i64>)
        requires
            self.wf(),
        ensures
            r == if in_range(self@, immed.offset as int, 2) {
                Some((load_value(self@, immed.offset as int, 2) as u16 as i16) as i64)
            } else {
                None::<i64>
            },
    {
        match self.locate(immed.offset, 2) {
            Some((p, o)) => {
                proof {
                    assert(self.pages@[p as int]@ == self@[p as int]);
                }
                let raw = read_le_u16(self.pages[p].as_slice(), o);
                Some(raw as i16 as i64)
            },
            None => None,
        }
    }

    /// The zero-extended 16-bit value at `immed.offset`, or nothing when it is out of range.
    pub fn i64_load16_u(&self, immed: &MemoryImmed) -> (r: Option<i64>)
        requires
            self.wf(),
        ensures
            r == if in_range(self@, immed.offset as int, 2) {
                Some(load_value(self@, immed.offset as int, 2) as i64)
            } else {
                None::<i64>
            },
    {
        match self.locate(immed.offset, 2) {
            Some((p, o)) => {
                proof {
                    assert(self.pages@[p as int]@ == self@[p as int]);
                }
                let raw = read_le_u16(self.pages[p].as_slice(), o);
                Some(raw as i64)
            },
            None => None,
        }
    }

    /// The sign-extended 32-bit value at `immed.offset`, or nothing when it is out of range.
    pub fn i64_load32_s(&self, immed: &MemoryImmed) -> (r: Option<i64>)
        requires
            self.wf(),
        ensures
            r == if in_range(self@, immed.offset as int, 4) {
                Some((load_value(self@, immed.offset as int, 4) as u32 as i32) as i64)
            } else {
                None::<i64>
            },
    {
        match self.locate(immed.offset, 4) {
            Some((p, o)) => {
                proof {
                    assert(self.pages@[p as int]@ == self@[p as int]);
                }
                let raw = read_le_u32(self.pages[p].as_slice(), o);
                Some(raw as i32 as i64)
            },
            None => None,
        }
    }

    /// The zero-extended 32-bit value at `immed.offset`, or nothing when it is out of range.
    pub fn i64_load32_u(&self, immed: &MemoryImmed) -> (r: Option<i64>)
        requires
            self.wf(),
        ensures
            r == if in_range(self@, immed.offset as int, 4) {
                Some(load_value(self@, immed.offset as int, 4) as i64)
            } else {
                None::<i64>
            },
    {
        match self.locate(immed.offset, 4) {
            Some((p, o)) => {
                proof {
                    assert(self.pages@[p as int]@ == self@[p as int]);
                }
                let raw = read_le_u32(self.pages[p].as_slice(), o);
                Some(raw as i64)
            },
            None => None,
        }
    }

    /// The 64-bit value at `immed.offset`, or nothing when it is out of range.
    pub fn i64_load(&self, immed: &MemoryImmed) -> (r: Option<i64>)
        requires
            self.wf(),
        ensures
            r == if in_range(self@, immed.offset as int, 8) {
                Some((load_value(self@, immed.offset as int, 8) as u64) as i64)
            } else {
                None::<i64>
            },
    {
        match self.locate(immed.offset, 8) {
            Some((p, o)) => {
                proof {
                    assert(self.pages@[p as int]@ == self@[p as int]);
                }
                let raw = read_le_u64(self.pages[p].as_slice(), o);
                Some(raw as i64)
            },
            None => None,
        }
    }

    /// The bits of a 32-bit float at `immed.offset`, or nothing when it is out of range.
    pub fn f32_load(&self, immed: &MemoryImmed) -> (r: Option<u32>)
        requires
            self.wf(),
        ensures
            r == if in_range(self@, immed.offset as int, 4) {
                Some(load_value(self@, immed.offset as int, 4) as u32)
            } else {
                None::<u32>
            },
    {
        match self.locate(immed.offset, 4) {
            Some((p, o)) => {
                proof {
                    assert(self.pages@[p as int]@ == self@[p as int]);
                }
                let raw = read_le_u32(self.pages[p].as_slice(), o);
                Some(raw)
            },
            None => None,
        }
    }

    /// The bits of a 64-bit float at `immed.offset`, or nothing when it is out of range.
    pub fn f64_load(&self, immed: &MemoryImmed) -> (r: Option<u64>)
        requires
            self.wf(),
        ensures
            r == if in_range(self@, immed.offset as int, 8) {
                Some(load_value(self@, immed.offset as int, 8) as u64)
            } else {
                None::<u64>
            },
    {
        match self.locate(immed.offset, 8) {
            Some((p, o)) => {
                proof {
                    assert(self.pages@[p as int]@ == self@[p as int]);
                }
                let raw = read_le_u64(self.pages[p].as_slice(), o);
                Some(raw)
            },
            None => None,
        }
    }

    /// Writes the low byte of `value` at `immed.offset`, least significant
    /// byte first; nothing when it is out of range.
    pub fn i32_store8(&mut self, value: i32, immed: &MemoryImmed) -> (r: Option<()>)
        requires
            old(self).wf(),
        ensures
            final(self).wf(),
            if in_range(old(self)@, immed.offset as int, 1) {
                r is Some && final(self)@ == write_at(
                    old(self)@,
                    immed.offset as int,
                    le_bytes((value as u8) as nat, 1),
                )
            } else {
                r is None && final(self)@ == old(self)@
            },
    {
        match self.locate(immed.offset, 1) {
            Some((p, o)) => {
                proof {
                    assert(self.pages@[p as int]@ == self@[p as int]);
                }
                let page = &mut self.pages[p];
                page.set(o, value as u8);
                proof {
                    lemma_single_byte_write(old(self)@[p as int], o as int, value as u8);
                }
                proof {
                    lemma_le_round_trip((value as u8) as nat, 1);
                    assert(self@ =~= write_at(old(self)@, immed.offset as int, le_bytes((value as u8) as nat, 1)));
                    assert forall|j: int| 0 <= j < self@.len() implies (#[trigger] self@[j]).len() == 65536 by {
                        assert(old(self)@[j].len() == 65536);
                    }
                }
                Some(())
            },
            None => None,
        }
    }

    /// Writes the low 16 bits of `value` at `immed.offset`, least significant
    /// byte first; nothing when it is out of range.
    pub fn i32_store16(&mut self, value: i32, immed: &MemoryImmed) -> (r: Option<()>)
        requires
            old(self).wf(),
        ensures
            final(self).wf(),
            if in_range(old(self)@, immed.offset as int, 2) {
                r is Some && final(self)@ == write_at(
                    old(self)@,
                    immed.offset as int,
                    le_bytes((value as u16) as nat, 2),
                )
            } else {
                r is None && final(self)@ == old(self)@
            },
    {
        match self.locate(immed.offset, 2) {
            Some((p, o)) => {
                proof {
                    assert(self.pages@[p as int]@ == self@[p as int]);
                }
                let page = &mut self.pages[p];
                write_le_u16(page, o, value as u16);
                proof {
                    lemma_le_round_trip((value as u16) as nat, 2);
                    assert(self@ =~= write_at(old(self)@, immed.offset as int, le_bytes((value as u16) as nat, 2)));
                    assert forall|j: int| 0 <= j < self@.len() implies (#[trigger] self@[j]).len() == 65536 by {
                        assert(old(self)@[j].len() == 65536);
                    }
                }
                Some(())
            },
            None => None,
        }
    }

    /// Writes the 32 bits of `value` at `immed.offset`, least significant
    /// byte first; nothing when it is out of range.
    pub fn i32_store(&mut self, value: i32, immed: &MemoryImmed) -> (r: Option<()>)
        requires
            old(self).wf(),
        ensures
            final(self).wf(),
            if in_range(old(self)@, immed.offset as int, 4) {
                r is Some && final(self)@ == write_at(
                    old(self)@,
                    immed.offset as int,
                    le_bytes((value as u32) as nat, 4),
                )
            } else {
                r is None && final(self)@ == old(self)@
            },
    {
        match self.locate(immed.offset, 4) {
            Some((p, o)) => {
                proof {
                    assert(self.pages@[p as int]@ == self@[p as int]);
                }
                let page = &mut self.pages[p];
                write_le_u32(page, o, value as u32);
                proof {
                    lemma_le_round_trip((value as u32) as nat, 4);
                    assert(self@ =~= write_at(old(self)@, immed.offset as int, le_bytes((value as u32) as nat, 4)));
                    assert forall|j: int| 0 <= j < self@.len() implies (#[trigger] self@[j]).len() == 65536 by {
                        assert(old(self)@[j].len() == 65536);
                    }
                }
                Some(())
            },
            None => None,
        }
    }

    /// Writes the low byte of `value` at `immed.offset`, least significant
    /// byte first; nothing when it is out of range.
    pub fn i64_store8(&mut self, value: i64, immed: &MemoryImmed) -> (r: Option<()>)
        requires
            old(self).wf(),
        ensures
            final(self).wf(),
            if in_range(old(self)@, immed.offset as int, 1) {
                r is Some && final(self)@ == write_at(
                    old(self)@,
                    immed.offset as int,
                    le_bytes((value as u8) as nat, 1),
                )
            } else {
                r is None && final(self)@ == old(self)@
            },
    {
        match self.locate(immed.offset, 1) {
            Some((p, o)) => {
                proof {
                    assert(self.pages@[p as int]@ == self@[p as int]);
                }
                let page = &mut self.pages[p];
                page.set(o, value as u8);
                proof {
                    lemma_single_byte_write(old(self)@[p as int], o as int, value as u8);
                }
                proof {
                    lemma_le_round_trip((value as u8) as nat, 1);
                    assert(self@ =~= write_at(old(self)@, immed.offset as int, le_bytes((value as u8) as nat, 1)));
                    assert forall|j: int| 0 <= j < self@.len() implies (#[trigger] self@[j]).len() == 65536 by {
                        assert(old(self)@[j].len() == 65536);
                    }
                }
                Some(())
            },
            None => None,
        }
    }

    /// Writes the low 16 bits of `value` at `immed.offset`, least significant
    /// byte first; nothing when it is out of range.
    pub fn i64_store16(&mut self, value: i64, immed: &MemoryImmed) -> (r: Option<()>)
        requires
            old(self).wf(),
        ensures
            final(self).wf(),
            if in_range(old(self)@, immed.offset as int, 2) {
                r is Some && final(self)@ == write_at(
                    old(self)@,
                    immed.offset as int,
                    le_bytes((value as u16) as nat, 2),
                )
            } else {
                r is None && final(self)@ == old(self)@
            },
    {
        match self.locate(immed.offset, 2) {
            Some((p, o)) => {
                proof {
                    assert(self.pages@[p as int]@ == self@[p as int]);
                }
                let page = &mut self.pages[p];
                write_le_u16(page, o, value as u16);
                proof {
                    lemma_le_round_trip((value as u16) as nat, 2);
                    assert(self@ =~= write_at(old(self)@, immed.offset as int, le_bytes((value as u16) as nat, 2)));
                    assert forall|j: int| 0 <= j < self@.len() implies (#[trigger] self@[j]).len() == 65536 by {
                        assert(old(self)@[j].len() == 65536);
                    }
                }
                Some(())
            },
            None => None,
        }
    }

    /// Writes the low 32 bits of `value` at `immed.offset`, least significant
    /// byte first; nothing when it is out of range.
    pub fn i64_store32(&mut self, value: i64, immed: &MemoryImmed) -> (r: Option<()>)
        requires
            old(self).wf(),
        ensures
            final(self).wf(),
            if in_range(old(self)@, immed.offset as int, 4) {
                r is Some && final(self)@ == write_at(
                    old(self)@,
                    immed.offset as int,
                    le_bytes((value as u32) as nat, 4),
                )
            } else {
                r is None && final(self)@ == old(self)@
            },
    {
        match self.locate(immed.offset, 4) {
            Some((p, o)) => {
                proof {
                    assert(self.pages@[p as int]@ == self@[p as int]);
                }
                let page = &mut self.pages[p];
                write_le_u32(page, o, value as u32);
                proof {
                    lemma_le_round_trip((value as u32) as nat, 4);
                    assert(self@ =~= write_at(old(self)@, immed.offset as int, le_bytes((value as u32) as nat, 4)));
                    assert forall|j: int| 0 <= j < self@.len() implies (#[trigger] self@[j]).len() == 65536 by {
                        assert(old(self)@[j].len() == 65536);
                    }
                }
                Some(())
            },
            None => None,
        }
    }

    /// Writes the 64 bits of `value` at `immed.offset`, least significant
    /// byte first; nothing when it is out of range.
    pub fn i64_store(&mut self, value: i64, immed: &MemoryImmed) -> (r: Option<()>)
        requires
            old(self).wf(),
        ensures
            final(self).wf(),
            if in_range(old(self)@, immed.offset as int, 8) {
                r is Some && final(self)@ == write_at(
                    old(self)@,
                    immed.offset as int,
                    le_bytes((value as u64) as nat, 8),
                )
            } else {
                r is None && final(self)@ == old(self)@
            },
    {
        match self.locate(immed.offset, 8) {
            Some((p, o)) => {
                proof {
                    assert(self.pages@[p as int]@ == self@[p as int]);
                }
                let page = &mut self.pages[p];
                write_le_u64(page, o, value as u64);
                proof {
                    lemma_le_round_trip((value as u64) as nat, 8);
                    assert(self@ =~= write_at(old(self)@, immed.offset as int, le_bytes((value as u64) as nat, 8)));
                    assert forall|j: int| 0 <= j < self@.len() implies (#[trigger] self@[j]).len() == 65536 by {
                        assert(old(self)@[j].len() == 65536);
                    }
                }
                Some(())
            },
            None => None,
        }
    }

    /// Writes the bits of a 32-bit float of `value` at `immed.offset`, least significant
    /// byte first; nothing when it is out of range.
    pub fn f32_store(&mut self, value: u32, immed: &MemoryImmed) -> (r: Option<()>)
        requires
            old(self).wf(),
        ensures
            final(self).wf(),
            if in_range(old(self)@, immed.offset as int, 4) {
                r is Some && final(self)@ == write_at(
                    old(self)@,
                    immed.offset as int,
                    le_bytes((value) as nat, 4),
                )
            } else {
                r is None && final(self)@ == old(self)@
            },
    {
        match self.locate(immed.offset, 4) {
            Some((p, o)) => {
                proof {
                    assert(self.pages@[p as int]@ == self@[p as int]);
                }
                let page = &mut self.pages[p];
                write_le_u32(page, o, value);
                proof {
                    lemma_le_round_trip((value) as nat, 4);
                    assert(self@ =~= write_at(old(self)@, immed.offset as int, le_bytes((value) as nat, 4)));
                    assert forall|j: int| 0 <= j < self@.len() implies (#[trigger] self@[j]).len() == 65536 by {
                        assert(old(self)@[j].len() == 65536);
                    }
                }
                Some(())
            },
            None => None,
        }
    }

    /// Writes the bits of a 64-bit float of `value` at `immed.offset`, least significant
    /// byte first; nothing when it is out of range.
    pub fn f64_store(&mut self, value: u64, immed: &MemoryImmed) -> (r: Option<()>)
        requires
            old(self).wf(),
        ensures
            final(self).wf(),
            if in_range(old(self)@, immed.offset as int, 8) {
                r is Some && final(self)@ == write_at(
                    old(self)@,
                    immed.offset as int,
                    le_bytes((value) as nat, 8),
                )
            } else {
                r is None && final(self)@ == old(self)@
            },
    {
        match self.locate(immed.offset, 8) {
            Some((p, o)) => {
                proof {
                    assert(self.pages@[p as int]@ == self@[p as int]);
                }
                let page = &mut self.pages[p];
                write_le_u64(page, o, value);
                proof {
                    lemma_le_round_trip((value) as nat, 8);
                    assert(self@ =~= write_at(old(self)@, immed.offset as int, le_bytes((value) as nat, 8)));
                    assert forall|j: int| 0 <= j < self@.len() implies (#[trigger] self@[j]).len() == 65536 by {
                        assert(old(self)@[j].len() == 65536);
                    }
                }
                Some(())
            },
            None => None,
        }
    }
}

proof fn lemma_zeros_value(w: Seq<u8>)
    requires
        forall|i: int| 0 <= i < w.len() ==> w[i] == 0,
    ensures
        le_value(w) == 0,
    decreases w.len(),
{
    if w.len() > 0 {
        lemma_zeros_value(w.drop_first());
    }
}

/// After a memory grows by `n` pages, its pages are still well formed and
/// every in-range load from the new pages reads zero.
pub proof fn lemma_grown_pages(old: Seq<Seq<u8>>, n: nat)
    requires
        pages_wf(old),
        old.len() + n <= MAX_PAGES,
    ensures
        pages_wf(grown(old, n)),
        forall|addr: int, k: int|
            page_of(addr) >= old.len() && #[trigger] in_range(grown(old, n), addr, k)
                ==> #[trigger] load_value(grown(old, n), addr, k) == 0,
{
    let p = grown(old, n);
    assert forall|addr: int, k: int|
        page_of(addr) >= old.len() && #[trigger] in_range(p, addr, k)
        implies #[trigger] load_value(p, addr, k) == 0 by {
        let w = bytes_at(p, addr, k);
        let o = offset_in_page(addr);
        assert(p[page_of(addr)] == zero_page());
        assert forall|i: int| 0 <= i < w.len() implies w[i] == 0 by {
            assert(w[i] == zero_page()[o + i]);
        }
        lemma_zeros_value(w);
    }
    assert forall|i: int| 0 <= i < p.len() implies (#[trigger] p[i]).len() == 65536 by {
        if i >= old.len() {
            assert(p[i] == zero_page());
        }
    }
}

} // verus!
