//! The address space of a process.
//!
//! A [`PageSet`] stands for the mapping from the virtual addresses of one
//! process to the bytes behind them. Its view is a map from address to byte:
//! an address is in the domain exactly when it is mapped.

use vstd::prelude::*;

verus! {

/// The size in bytes of the user stack of a thread.
pub const USER_STACK_SIZE: usize = 0x2000;

/// One contiguous run of mapped bytes.
struct MemoryArea {
    start: usize,
    data: Vec<u8>,
}

impl MemoryArea {
    /// `addr` lies inside the area.
    spec fn covers(&self, addr: usize) -> bool {
        self.start <= addr && addr - self.start < self.data@.len()
    }

    /// The byte that the area holds for `addr`.
    spec fn byte_at(&self, addr: usize) -> u8 {
        self.data@[addr - self.start]
    }

    /// The area is not empty and ends within the address range.
    spec fn fits(&self) -> bool {
        &&& self.data@.len() > 0
        &&& self.start + self.data@.len() <= usize::MAX + 1
    }

    /// The area shares no address with the `length` bytes from `start` on.
    spec fn apart_from(&self, start: usize, length: nat) -> bool {
        ||| self.start + self.data@.len() <= start
        ||| start + length <= self.start
    }

    /// The two areas share no address.
    spec fn apart(&self, other: &MemoryArea) -> bool {
        self.apart_from(other.start, other.data@.len())
    }
}

/// The memory that `bytes` occupies when it is placed at `start`.
pub open spec fn area_map(start: usize, bytes: Seq<u8>) -> Map<usize, u8> {
    Map::new(
        |addr: usize| start <= addr && addr - start < bytes.len(),
        |addr: usize| bytes[addr - start],
    )
}

/// `bytes` placed at `start` ends within the address range.
pub open spec fn area_fits(start: usize, bytes: Seq<u8>) -> bool {
    start + bytes.len() <= usize::MAX + 1
}

/// Every address of the `length` bytes from `addr` on is mapped in `memory`.
pub open spec fn range_mapped(memory: Map<usize, u8>, addr: usize, length: usize) -> bool {
    &&& addr + length <= usize::MAX + 1
    &&& forall|a: usize| addr <= a < addr + length ==> memory.contains_key(a)
}

/// The `length` bytes that `memory` holds from `addr` on.
pub open spec fn range_bytes(memory: Map<usize, u8>, addr: usize, length: usize) -> Seq<u8> {
    Seq::new(length as nat, |i: int| memory[(addr + i) as usize])
}

/// In `memory`, the `length` bytes from `addr` on are mapped and not zero,
/// and a zero byte is mapped right behind them.
pub open spec fn zero_ended(memory: Map<usize, u8>, addr: usize, length: usize) -> bool {
    &&& range_mapped(memory, addr, length)
    &&& forall|a: usize| addr <= a < addr + length ==> #[trigger] memory[a] != 0
    &&& addr + length <= usize::MAX
    &&& memory.contains_key((addr + length) as usize)
    &&& memory[(addr + length) as usize] == 0
}

/// The virtual memory of one process.
pub struct PageSet {
    areas: Vec<MemoryArea>,
}

impl View for PageSet {
    type V = Map<usize, u8>;

    closed spec fn view(&self) -> Map<usize, u8> {
        Map::new(
            |addr: usize| self.mapped(addr),
            |addr: usize| self.areas@[self.holder(addr)].byte_at(addr),
        )
    }
}

impl PageSet {
    /// Some area covers `addr`.
    closed spec fn mapped(&self, addr: usize) -> bool {
        exists|i: int| 0 <= i < self.areas@.len() && #[trigger] self.areas@[i].covers(addr)
    }

    /// The index of an area that covers `addr`.
    closed spec fn holder(&self, addr: usize) -> int {
        choose|i: int| 0 <= i < self.areas@.len() && #[trigger] self.areas@[i].covers(addr)
    }

    /// The areas fit the address range and do not overlap.
    pub closed spec fn wf(&self) -> bool {
        &&& forall|i: int| 0 <= i < self.areas@.len() ==> #[trigger] self.areas@[i].fits()
        &&& forall|i: int, j: int|
            0 <= i < j < self.areas@.len() ==> #[trigger] self.areas@[i].apart(
                &#[trigger] self.areas@[j],
            )
    }

    /// The area at index `i` decides what the view holds for its addresses.
    proof fn lemma_view_at(&self, i: int, addr: usize)
        requires
            self.wf(),
            0 <= i < self.areas@.len(),
            self.areas@[i].covers(addr),
        ensures
            self@.contains_key(addr),
            self@[addr] == self.areas@[i].byte_at(addr),
    {
        let h = self.holder(addr);
        assert(self.areas@[h].covers(addr));
        if h < i {
            assert(self.areas@[h].apart(&self.areas@[i]));
        } else if i < h {
            assert(self.areas@[i].apart(&self.areas@[h]));
        }
    }

    /// An address space with nothing mapped.
    pub fn new() -> (page_set: PageSet)
        ensures
            page_set.wf(),
            page_set@ == Map::<usize, u8>::empty(),
    {
        let page_set = PageSet { areas: Vec::new() };
        assert(page_set@ =~= Map::<usize, u8>::empty());
        page_set
    }

    /// Reads the byte at `addr`, if the address is mapped.
    pub fn read_byte(&self, addr: usize) -> (byte: Option<u8>)
        requires
            self.wf(),
        ensures
            byte == (if self@.contains_key(addr) {
                Some(self@[addr])
            } else {
                None
            }),
    {
        let mut i: usize = 0;
        while i < self.areas.len()
            invariant
                self.wf(),
                0 <= i <= self.areas@.len(),
                forall|j: int| 0 <= j < i ==> !#[trigger] self.areas@[j].covers(addr),
            decreases self.areas.len() - i,
        {
            let area = &self.areas[i];
            if area.start <= addr && addr - area.start < area.data.len() {
                proof {
                    self.lemma_view_at(i as int, addr);
                }
                return Some(area.data[addr - area.start]);
            }
            i += 1;
        }
        None
    }

    /// Whether `addr` is mapped.
    pub fn contains(&self, addr: usize) -> (mapped: bool)
        requires
            self.wf(),
        ensures
            mapped == self@.contains_key(addr),
    {
        self.read_byte(addr).is_some()
    }

    /// Stores `value` at `addr` if the address is mapped, and says whether
    /// it was.
    pub fn write_byte(&mut self, addr: usize, value: u8) -> (written: bool)
        requires
            old(self).wf(),
        ensures
            final(self).wf(),
            written == old(self)@.contains_key(addr),
            final(self)@ == (if written {
                old(self)@.insert(addr, value)
            } else {
                old(self)@
            }),
    {
        let mut i: usize = 0;
        while i < self.areas.len()
            invariant
                self.wf(),
                *self == *old(self),
                0 <= i <= self.areas@.len(),
                forall|j: int| 0 <= j < i ==> !#[trigger] self.areas@[j].covers(addr),
            decreases self.areas.len() - i,
        {
            if self.areas[i].start <= addr && addr - self.areas[i].start < self.areas[i].data.len() {
                let offset: usize = addr - self.areas[i].start;
                let ghost before = *self;
                self.areas[i].data[offset] = value;
                proof {
                    assert(self.areas@.len() == before.areas@.len());
                    assert forall|j: int| 0 <= j < self.areas@.len() implies self.areas@[j].start
                        == before.areas@[j].start && self.areas@[j].data@.len()
                        == before.areas@[j].data@.len() by {}
                    assert(self.wf()) by {
                        assert forall|j: int| 0 <= j < self.areas@.len() implies #[trigger] self.areas@[j].fits() by {
                            assert(before.areas@[j].fits());
                        }
                        assert forall|j: int, k: int| 0 <= j < k < self.areas@.len() implies #[trigger] self.areas@[j].apart(
                            &#[trigger] self.areas@[k],
                        ) by {
                            assert(before.areas@[j].apart(&before.areas@[k]));
                        }
                    }
                    before.lemma_view_at(i as int, addr);
                    assert forall|other: usize| self@.contains_key(other) == before@.insert(
                        addr,
                        value,
                    ).contains_key(other) by {
                        if self.mapped(other) {
                            let h = self.holder(other);
                            assert(before.areas@[h].covers(other));
                        }
                        if before.mapped(other) {
                            let h = before.holder(other);
                            assert(self.areas@[h].covers(other));
                        }
                    }
                    assert forall|other: usize| self@.contains_key(other) implies self@[other]
                        == before@.insert(addr, value)[other] by {
                        let h = self.holder(other);
                        assert(self.areas@[h].covers(other));
                        assert(before.areas@[h].covers(other));
                        self.lemma_view_at(h, other);
                        before.lemma_view_at(h, other);
                        if other == addr {
                            self.lemma_view_at(i as int, addr);
                        }
                    }
                    assert(self@ =~= before@.insert(addr, value));
                }
                return true;
            }
            i += 1;
        }
        false
    }

    /// Maps `data` at `start`, unless the bytes would reach past the end of
    /// the address range or onto an address that is mapped already. Says
    /// whether the bytes were mapped; nothing changes when they were not.
    pub fn map_area(&mut self, start: usize, data: Vec<u8>) -> (mapped: bool)
        requires
            old(self).wf(),
        ensures
            final(self).wf(),
            mapped == (area_fits(start, data@) && old(self)@.dom().disjoint(
                area_map(start, data@).dom(),
            )),
            final(self)@ == (if mapped {
                old(self)@.union_prefer_right(area_map(start, data@))
            } else {
                old(self)@
            }),
    {
        let ghost bytes = data@;
        if data.len() == 0 {
            assert(area_map(start, bytes) =~= Map::<usize, u8>::empty());
            assert(self@.union_prefer_right(area_map(start, bytes)) =~= self@);
            return true;
        }
        if data.len() - 1 > usize::MAX - start {
            return false;
        }
        let mut i: usize = 0;
        while i < self.areas.len()
            invariant
                self.wf(),
                *self == *old(self),
                bytes == data@,
                0 < bytes.len(),
                area_fits(start, bytes),
                0 <= i <= self.areas@.len(),
                forall|j: int|
                    0 <= j < i ==> #[trigger] self.areas@[j].apart_from(start, bytes.len()),
            decreases self.areas.len() - i,
        {
            let other = &self.areas[i];
            assert(other.fits());
            let apart = if other.start <= start {
                other.data.len() - 1 < start - other.start
            } else {
                data.len() - 1 < other.start - start
            };
            if !apart {
                proof {
                    let shared: usize = if other.start <= start {
                        start
                    } else {
                        other.start
                    };
                    assert(other.covers(shared));
                    self.lemma_view_at(i as int, shared);
                    assert(self@.dom().contains(shared));
                    assert(area_map(start, bytes).dom().contains(shared));
                }
                return false;
            }
            i += 1;
        }
        let ghost before = *self;
        let area = MemoryArea { start, data };
        self.areas.push(area);
        proof {
            let last = before.areas@.len() as int;
            assert forall|j: int| 0 <= j < self.areas@.len() implies #[trigger] self.areas@[j].fits() by {
                if j < last {
                    assert(before.areas@[j].fits());
                }
            }
            assert forall|j: int, k: int| 0 <= j < k < self.areas@.len() implies #[trigger] self.areas@[j].apart(
                &#[trigger] self.areas@[k],
            ) by {
                if k < last {
                    assert(before.areas@[j].apart(&before.areas@[k]));
                } else {
                    assert(before.areas@[j].apart(&area));
                }
            }
            assert forall|addr: usize| before@.contains_key(addr) implies !area_map(
                start,
                bytes,
            ).dom().contains(addr) by {
                let h = before.holder(addr);
                assert(before.areas@[h].covers(addr));
                assert(before.areas@[h].apart(&area));
            }
            let joined = before@.union_prefer_right(area_map(start, bytes));
            assert forall|addr: usize| self@.contains_key(addr) == joined.contains_key(addr) by {
                if self.mapped(addr) {
                    let h = self.holder(addr);
                    if h < last {
                        assert(before.areas@[h].covers(addr));
                    }
                }
                if before.mapped(addr) {
                    let h = before.holder(addr);
                    assert(self.areas@[h].covers(addr));
                }
                if area_map(start, bytes).dom().contains(addr) {
                    assert(self.areas@[last].covers(addr));
                }
            }
            assert forall|addr: usize| self@.contains_key(addr) implies self@[addr]
                == joined[addr] by {
                let h = self.holder(addr);
                assert(self.areas@[h].covers(addr));
                self.lemma_view_at(h, addr);
                if h < last {
                    assert(before.areas@[h].covers(addr));
                    before.lemma_view_at(h, addr);
                }
            }
            assert(self@ =~= joined);
        }
        true
    }

    /// Copies the `length` bytes from `addr` on, if every one of their
    /// addresses is mapped.
    pub fn read_bytes(&self, addr: usize, length: usize) -> (bytes: Option<Vec<u8>>)
        requires
            self.wf(),
        ensures
            bytes is Some == range_mapped(self@, addr, length),
            bytes matches Some(found) ==> found@ == range_bytes(self@, addr, length),
    {
        let mut found: Vec<u8> = Vec::new();
        if length > 0 && length - 1 > usize::MAX - addr {
            return None;
        }
        let mut i: usize = 0;
        while i < length
            invariant
                self.wf(),
                0 <= i <= length,
                addr + length <= usize::MAX + 1,
                found@.len() == i,
                forall|a: usize| addr <= a < addr + i ==> self@.contains_key(a),
                forall|j: int| 0 <= j < i ==> found@[j] == self@[(addr + j) as usize],
            decreases length - i,
        {
            match self.read_byte(addr + i) {
                Some(byte) => {
                    found.push(byte);
                },
                None => {
                    return None;
                },
            }
            i += 1;
        }
        assert(found@ =~= range_bytes(self@, addr, length));
        Some(found)
    }

    /// Copies the bytes from `addr` up to the first zero byte, which is
    /// left out, as a program hands over a name. The zero byte has to come
    /// within `limit` bytes, and every byte up to it has to be mapped;
    /// otherwise there is no result.
    pub fn read_until_zero(&self, addr: usize, limit: usize) -> (bytes: Option<Vec<u8>>)
        requires
            self.wf(),
        ensures
            bytes is Some == exists|length: usize| length < limit && zero_ended(self@, addr, length),
            bytes matches Some(found) ==> zero_ended(self@, addr, found@.len() as usize) && found@
                == range_bytes(self@, addr, found@.len() as usize),
    {
        let mut found: Vec<u8> = Vec::new();
        let mut i: usize = 0;
        while i < limit
            invariant
                self.wf(),
                0 <= i <= limit,
                found@.len() == i,
                addr + i <= usize::MAX + 1,
                forall|a: usize| addr <= a < addr + i ==> #[trigger] self@.contains_key(a),
                forall|a: usize| addr <= a < addr + i ==> #[trigger] self@[a] != 0,
                forall|j: int| 0 <= j < i ==> found@[j] == self@[(addr + j) as usize],
            decreases limit - i,
        {
            if i > usize::MAX - addr {
                return None;
            }
            match self.read_byte(addr + i) {
                Some(byte) => {
                    if byte == 0 {
                        assert(zero_ended(self@, addr, i));
                        return Some(found);
                    }
                    found.push(byte);
                },
                None => {
                    return None;
                },
            }
            i += 1;
        }
        None
    }

    /// An independent copy of `source`: the same bytes at the same
    /// addresses, in storage of its own.
    pub fn clone_from(source: &PageSet) -> (copy: PageSet)
        requires
            source.wf(),
        ensures
            copy.wf(),
            copy@ == source@,
    {
        let mut copy = PageSet { areas: Vec::new() };
        let mut i: usize = 0;
        while i < source.areas.len()
            invariant
                source.wf(),
                0 <= i <= source.areas@.len(),
                copy.areas@.len() == i,
                forall|j: int|
                    0 <= j < i ==> (#[trigger] copy.areas@[j]).start == source.areas@[j].start
                        && copy.areas@[j].data@ == source.areas@[j].data@,
            decreases source.areas.len() - i,
        {
            let area = &source.areas[i];
            copy.areas.push(MemoryArea { start: area.start, data: area.data.clone() });
            i += 1;
        }
        proof {
            assert forall|j: int| 0 <= j < copy.areas@.len() implies #[trigger] copy.areas@[j].fits() by {
                assert(source.areas@[j].fits());
            }
            assert forall|j: int, k: int| 0 <= j < k < copy.areas@.len() implies #[trigger] copy.areas@[j].apart(
                &#[trigger] copy.areas@[k],
            ) by {
                assert(source.areas@[j].apart(&source.areas@[k]));
            }
            assert forall|addr: usize| copy@.contains_key(addr) == source@.contains_key(addr) by {
                if copy.mapped(addr) {
                    let h = copy.holder(addr);
                    assert(source.areas@[h].covers(addr));
                }
                if source.mapped(addr) {
                    let h = source.holder(addr);
                    assert(copy.areas@[h].covers(addr));
                }
            }
            assert forall|addr: usize| copy@.contains_key(addr) implies copy@[addr]
                == source@[addr] by {
                let h = copy.holder(addr);
                assert(copy.areas@[h].covers(addr));
                assert(source.areas@[h].covers(addr));
                copy.lemma_view_at(h, addr);
                source.lemma_view_at(h, addr);
            }
            assert(copy@ =~= source@);
        }
        copy
    }
}

/// Why a program image could not be had.
#[derive(Clone, Copy, PartialEq, Eq, Debug, Structural)]
pub enum ImageError {
    /// No image is stored under the name that was asked for.
    NotFound,
    /// The bytes stored under the name are not a program that can be
    /// loaded.
    Malformed,
    /// The user stack would reach past the end of the address range.
    StackOutOfRange,
}

/// A program made ready to run: its address space, the lowest address of
/// the first user stack, and the address of its first instruction.
pub struct Image {
    page_set: PageSet,
    user_stack_base: usize,
    entry_point: usize,
}

/// The mathematical content of an [`Image`].
pub struct ImageView {
    /// The bytes of the address space, by address.
    pub memory: Map<usize, u8>,
    /// The lowest address of the first user stack.
    pub user_stack_base: usize,
    /// The address of the first instruction.
    pub entry_point: usize,
}

impl View for Image {
    type V = ImageView;

    closed spec fn view(&self) -> ImageView {
        ImageView {
            memory: self.page_set@,
            user_stack_base: self.user_stack_base,
            entry_point: self.entry_point,
        }
    }
}

impl Image {
    /// The address space is consistent and the user stack ends within the
    /// address range.
    pub closed spec fn wf(&self) -> bool {
        &&& self.page_set.wf()
        &&& self.user_stack_base + USER_STACK_SIZE <= usize::MAX
    }

    /// Puts an image together. A stack of `USER_STACK_SIZE` bytes from
    /// `user_stack_base` on has to end within the address range; otherwise
    /// the image is refused with `StackOutOfRange`.
    pub fn new(page_set: PageSet, user_stack_base: usize, entry_point: usize) -> (image: Result<
        Image,
        ImageError,
    >)
        requires
            page_set.wf(),
        ensures
            image is Ok == (user_stack_base + USER_STACK_SIZE <= usize::MAX),
            image matches Ok(made) ==> made.wf() && made@ == (ImageView {
                memory: page_set@,
                user_stack_base,
                entry_point,
            }),
            image matches Err(error) ==> error == ImageError::StackOutOfRange,
    {
        if user_stack_base > usize::MAX - USER_STACK_SIZE {
            Err(ImageError::StackOutOfRange)
        } else {
            Ok(Image { page_set, user_stack_base, entry_point })
        }
    }

    /// Takes the image apart: the address space, the lowest address of the
    /// first user stack, and the address of the first instruction.
    pub fn into_parts(self) -> (parts: (PageSet, usize, usize))
        requires
            self.wf(),
        ensures
            parts.0.wf(),
            parts.0@ == self@.memory,
            parts.1 == self@.user_stack_base,
            parts.2 == self@.entry_point,
            parts.1 + USER_STACK_SIZE <= usize::MAX,
    {
        (self.page_set, self.user_stack_base, self.entry_point)
    }
}

} // verus!
