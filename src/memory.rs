use vstd::prelude::*;

verus! {

/// One mapped span of guest memory, starting at `base`.
pub struct Region {
    pub base: u32,
    pub data: Vec<u8>,
}

impl View for Region {
    type V = (int, Seq<u8>);

    open spec fn view(&self) -> (int, Seq<u8>) {
        (self.base as int, self.data@)
    }
}

/// Why a guest memory access or mapping was refused.
#[derive(Debug, Clone, Copy, PartialEq, Eq, Structural)]
pub enum MemoryError {
    /// No single mapped region holds the whole range.
    Unmapped { address: u32, length: usize },
    /// A new region would intersect one that is already mapped.
    Overlap { address: u32 },
    /// A new region would run past the end of the 32-bit address space, or
    /// an image is larger than the region that should hold it.
    OutOfRange { address: u32 },
}

/// A flat, byte-addressable, little-endian guest address space made of
/// mapped regions.
pub struct GuestMemory {
    pub regions: Vec<Region>,
}

/// `[addr, addr + len)` lies inside the region `r`.
pub open spec fn covers(r: (int, Seq<u8>), addr: int, len: int) -> bool {
    r.0 <= addr && addr + len <= r.0 + r.1.len()
}

/// The two ranges share at least one byte.
pub open spec fn intersects(a: int, a_len: int, b: int, b_len: int) -> bool {
    a < b + b_len && b < a + a_len
}

/// Index of the first region, from `i` on, that holds the whole range.
pub open spec fn find_from(regs: Seq<(int, Seq<u8>)>, addr: int, len: int, i: int) -> Option<int>
    decreases regs.len() - i,
{
    if i < 0 || i >= regs.len() {
        None
    } else if covers(regs[i], addr, len) {
        Some(i)
    } else {
        find_from(regs, addr, len, i + 1)
    }
}

/// The bytes that a read of `len` bytes at `addr` returns, if it succeeds.
pub open spec fn read_spec(regs: Seq<(int, Seq<u8>)>, addr: int, len: int) -> Option<Seq<u8>> {
    match find_from(regs, addr, len, 0) {
        Some(i) => Some(regs[i].1.subrange(addr - regs[i].0, addr - regs[i].0 + len)),
        None => None,
    }
}

/// `s` with `b` written over it from offset `off` on.
pub open spec fn splice(s: Seq<u8>, off: int, b: Seq<u8>) -> Seq<u8> {
    s.subrange(0, off) + b + s.subrange(off + b.len(), s.len() as int)
}

/// The regions after writing `bytes` at `addr`, if the write succeeds.
pub open spec fn write_spec(regs: Seq<(int, Seq<u8>)>, addr: int, bytes: Seq<u8>) -> Option<Seq<(int, Seq<u8>)>> {
    match find_from(regs, addr, bytes.len() as int, 0) {
        Some(i) => Some(regs.update(i, (regs[i].0, splice(regs[i].1, addr - regs[i].0, bytes)))),
        None => None,
    }
}

/// The four little-endian bytes of `v`.
pub open spec fn le_bytes(v: u32) -> Seq<u8> {
    seq![(v & 0xff) as u8, ((v >> 8u32) & 0xff) as u8, ((v >> 16u32) & 0xff) as u8, ((v >> 24u32) & 0xff) as u8]
}

/// The word whose little-endian bytes are `b0..b3`.
pub open spec fn le_word(b0: u8, b1: u8, b2: u8, b3: u8) -> u32 {
    (b0 as u32) | ((b1 as u32) << 8u32) | ((b2 as u32) << 16u32) | ((b3 as u32) << 24u32)
}

/// The word read from the first four bytes of `s`.
pub open spec fn word_of(s: Seq<u8>) -> u32 {
    le_word(s[0], s[1], s[2], s[3])
}

pub proof fn lemma_word_round_trip(v: u32)
    ensures
        word_of(le_bytes(v)) == v,
        le_bytes(v).len() == 4,
{
    let b = le_bytes(v);
    assert(le_word(
        (v & 0xff) as u8,
        ((v >> 8u32) & 0xff) as u8,
        ((v >> 16u32) & 0xff) as u8,
        ((v >> 24u32) & 0xff) as u8,
    ) == v) by (bit_vector);
}

/// The regions of `regs` that cover the same ranges as those of `regs2`
/// are found alike.
proof fn lemma_find_same_shape(
    regs: Seq<(int, Seq<u8>)>,
    regs2: Seq<(int, Seq<u8>)>,
    addr: int,
    len: int,
    i: int,
)
    requires
        regs.len() == regs2.len(),
        forall|j: int| 0 <= j < regs.len() ==> regs[j].0 == regs2[j].0 && regs[j].1.len() == regs2[j].1.len(),
    ensures
        find_from(regs, addr, len, i) == find_from(regs2, addr, len, i),
    decreases regs.len() - i,
{
    if i < 0 || i >= regs.len() {
    } else {
        lemma_find_same_shape(regs, regs2, addr, len, i + 1);
    }
}

pub proof fn lemma_find_covers(regs: Seq<(int, Seq<u8>)>, addr: int, len: int, i: int)
    requires
        0 <= i,
    ensures
        match find_from(regs, addr, len, i) {
            Some(k) => i <= k < regs.len() && covers(regs[k], addr, len),
            None => forall|j: int| i <= j < regs.len() ==> !covers(regs[j], addr, len),
        },
    decreases regs.len() - i,
{
    if i < regs.len() {
        lemma_find_covers(regs, addr, len, i + 1);
    }
}

/// Reading back what was just written yields exactly the written bytes,
/// wherever the range lies inside a mapped region.
pub proof fn lemma_memory_round_trip(regs: Seq<(int, Seq<u8>)>, addr: int, bytes: Seq<u8>)
    requires
        read_spec(regs, addr, bytes.len() as int) is Some,
    ensures
        write_spec(regs, addr, bytes) is Some,
        read_spec(write_spec(regs, addr, bytes).unwrap(), addr, bytes.len() as int) == Some(bytes),
{
    let len = bytes.len() as int;
    lemma_find_covers(regs, addr, len, 0);
    let i = find_from(regs, addr, len, 0).unwrap();
    let regs2 = write_spec(regs, addr, bytes).unwrap();
    let off = addr - regs[i].0;
    assert(splice(regs[i].1, off, bytes).len() == regs[i].1.len());
    lemma_find_same_shape(regs, regs2, addr, len, 0);
    assert(splice(regs[i].1, off, bytes).subrange(off, off + len) =~= bytes);
}

/// Why a region of `size` bytes at `base` cannot be mapped, if it cannot.
pub open spec fn mapping_error(regs: Seq<(int, Seq<u8>)>, base: u32, size: int) -> Option<MemoryError> {
    if base as int + size > 0x1_0000_0000int {
        Some(MemoryError::OutOfRange { address: base })
    } else if exists|j: int| 0 <= j < regs.len() && intersects(regs[j].0, regs[j].1.len() as int, base as int, size) {
        Some(MemoryError::Overlap { address: base })
    } else {
        None
    }
}

/// `n` zero bytes.
pub open spec fn zeros(n: int) -> Seq<u8> {
    Seq::new(n as nat, |i: int| 0u8)
}

/// The regions of `a` and `b` have the same bases and lengths.
pub open spec fn same_shape(a: Seq<(int, Seq<u8>)>, b: Seq<(int, Seq<u8>)>) -> bool {
    a.len() == b.len() && forall|j: int| 0 <= j < a.len() ==> a[j].0 == b[j].0 && a[j].1.len() == b[j].1.len()
}

/// A write changes bytes, never the layout of the address space.
pub proof fn lemma_write_keeps_shape(regs: Seq<(int, Seq<u8>)>, addr: int, bytes: Seq<u8>)
    requires
        write_spec(regs, addr, bytes) is Some,
    ensures
        same_shape(regs, write_spec(regs, addr, bytes).unwrap()),
{
    lemma_find_covers(regs, addr, bytes.len() as int, 0);
    let i = find_from(regs, addr, bytes.len() as int, 0).unwrap();
    assert(splice(regs[i].1, addr - regs[i].0, bytes).len() == regs[i].1.len());
}

/// Any range inside a region that is mapped can be written.
pub proof fn lemma_inside_region(regs: Seq<(int, Seq<u8>)>, j: int, base: int, size: int, addr: int, len: int)
    requires
        0 <= j < regs.len(),
        covers(regs[j], base, size),
        base <= addr,
        addr + len <= base + size,
    ensures
        find_from(regs, addr, len, 0) is Some,
        read_spec(regs, addr, len) is Some,
        forall|b: Seq<u8>| b.len() == len ==> (#[trigger] write_spec(regs, addr, b)) is Some,
{
    lemma_find_covers(regs, addr, len, 0);
}

/// A write leaves every range that it does not touch as it was.
pub proof fn lemma_write_elsewhere(regs: Seq<(int, Seq<u8>)>, b: int, bytes: Seq<u8>, a: int, la: int)
    requires
        write_spec(regs, b, bytes) is Some,
        la >= 0,
        a + la <= b || b + bytes.len() <= a,
    ensures
        read_spec(write_spec(regs, b, bytes).unwrap(), a, la) == read_spec(regs, a, la),
{
    let regs2 = write_spec(regs, b, bytes).unwrap();
    lemma_write_keeps_shape(regs, b, bytes);
    lemma_find_same_shape(regs, regs2, a, la, 0);
    lemma_find_covers(regs, b, bytes.len() as int, 0);
    lemma_find_covers(regs, a, la, 0);
    let j = find_from(regs, b, bytes.len() as int, 0).unwrap();
    match find_from(regs, a, la, 0) {
        None => {},
        Some(i) => {
            if i == j {
                let s0 = regs[i].1;
                let off = b - regs[i].0;
                let sp = splice(s0, off, bytes);
                assert(sp.len() == s0.len());
                let lo = a - regs[i].0;
                assert(sp.subrange(lo, lo + la) =~= s0.subrange(lo, lo + la)) by {
                    assert forall|x: int| lo <= x < lo + la implies #[trigger] sp[x] == s0[x] by {
                        if x < off {
                            assert(sp[x] == s0.subrange(0, off)[x]);
                        } else {
                            assert(x >= off + bytes.len());
                            assert(sp[x] == s0.subrange(off + bytes.len(), s0.len() as int)[x - off - bytes.len()]);
                        }
                    }
                }
            }
        },
    }
}

/// A successful write followed by a read of the same range gives back the
/// written bytes.
pub proof fn lemma_write_then_read(regs: Seq<(int, Seq<u8>)>, addr: int, bytes: Seq<u8>)
    requires
        write_spec(regs, addr, bytes) is Some,
    ensures
        read_spec(write_spec(regs, addr, bytes).unwrap(), addr, bytes.len() as int) == Some(bytes),
{
    lemma_memory_round_trip(regs, addr, bytes);
}

impl View for GuestMemory {
    type V = Seq<(int, Seq<u8>)>;

    open spec fn view(&self) -> Seq<(int, Seq<u8>)> {
        self.regions@.map_values(|r: Region| r@)
    }
}

impl GuestMemory {
    /// An address space with nothing mapped.
    pub fn new() -> (r: GuestMemory)
        ensures
            r@ == Seq::<(int, Seq<u8>)>::empty(),
    {
        let r = GuestMemory { regions: Vec::new() };
        assert(r@ =~= Seq::<(int, Seq<u8>)>::empty());
        r
    }

    /// Index of the first region that holds all of `[addr, addr + len)`.
    pub fn find_region(&self, addr: u32, len: usize) -> (r: Option<usize>)
        ensures
            match r {
                Some(i) => find_from(self@, addr as int, len as int, 0) == Some(i as int),
                None => find_from(self@, addr as int, len as int, 0) is None,
            },
    {
        let mut i: usize = 0;
        while i < self.regions.len()
            invariant
                0 <= i <= self.regions.len(),
                find_from(self@, addr as int, len as int, 0) == find_from(self@, addr as int, len as int, i as int),
            decreases self.regions.len() - i,
        {
            let r = &self.regions[i];
            if (r.base as u128) <= (addr as u128) && (addr as u128) + (len as u128) <= (r.base as u128) + (r.data.len() as u128) {
                return Some(i);
            }
            i = i + 1;
        }
        None
    }

    /// Reads `len` bytes at `addr`; the range must lie in one mapped region.
    pub fn read(&self, addr: u32, len: usize) -> (r: Result<Vec<u8>, MemoryError>)
        ensures
            match r {
                Ok(v) => read_spec(self@, addr as int, len as int) == Some(v@) && v@.len() == len,
                Err(e) => read_spec(self@, addr as int, len as int) is None
                    && e == (MemoryError::Unmapped { address: addr, length: len }),
            },
    {
        match self.find_region(addr, len) {
            None => Err(MemoryError::Unmapped { address: addr, length: len }),
            Some(i) => {
                proof {
                    lemma_find_covers(self@, addr as int, len as int, 0);
                }
                let region = &self.regions[i];
                let off: usize = (addr - region.base) as usize;
                let n: usize = region.data.len();
                let mut out: Vec<u8> = Vec::new();
                let mut k: usize = 0;
                while k < len
                    invariant
                        k <= len,
                        off + len <= n,
                        n == region.data@.len(),
                        i < self.regions@.len(),
                        region == self.regions@[i as int],
                        out@ =~= region.data@.subrange(off as int, off + k),
                    decreases len - k,
                {
                    out.push(region.data[off + k]);
                    k = k + 1;
                }
                Ok(out)
            },
        }
    }

    /// Writes `bytes` at `addr`; the range must lie in one mapped region.
    pub fn write(&mut self, addr: u32, bytes: &[u8]) -> (r: Result<(), MemoryError>)
        ensures
            match write_spec(old(self)@, addr as int, bytes@) {
                Some(regs) => r is Ok && final(self)@ == regs,
                None => final(self)@ == old(self)@
                    && r == Err::<(), MemoryError>(MemoryError::Unmapped { address: addr, length: bytes@.len() as usize }),
            },
    {
        let len = bytes.len();
        match self.find_region(addr, len) {
            None => Err(MemoryError::Unmapped { address: addr, length: len }),
            Some(i) => {
                proof {
                    lemma_find_covers(self@, addr as int, len as int, 0);
                }
                let mut region = self.regions.remove(i);
                let ghost old_data = region.data@;
                let ghost old_region = region;
                let off: usize = (addr - region.base) as usize;
                let n: usize = region.data.len();
                let mut k: usize = 0;
                while k < len
                    invariant
                        k <= len,
                        len == bytes@.len(),
                        off + len <= n,
                        n == old_data.len(),
                        region.base == old_region.base,
                        region.data@.len() == old_data.len(),
                        forall|j: int| 0 <= j < off ==> region.data@[j] == old_data[j],
                        forall|j: int| off <= j < off + k ==> region.data@[j] == bytes@[j - off],
                        forall|j: int| off + k <= j < old_data.len() ==> region.data@[j] == old_data[j],
                    decreases len - k,
                {
                    region.data.set(off + k, bytes[k]);
                    k = k + 1;
                }
                assert(region.data@ =~= splice(old_data, off as int, bytes@));
                self.regions.insert(i, region);
                assert(self.regions@ =~= old(self).regions@.update(i as int, region));
                assert(self@ =~= old(self)@.update(i as int, (old(self)@[i as int].0, splice(old_data, off as int, bytes@))));
                Ok(())
            },
        }
    }

    fn check_free(&self, base: u32, size: usize) -> (r: Result<(), MemoryError>)
        ensures
            match mapping_error(self@, base, size as int) {
                Some(e) => r == Err::<(), MemoryError>(e),
                None => r is Ok,
            },
    {
        if (base as u128) + (size as u128) > 0x1_0000_0000u128 {
            return Err(MemoryError::OutOfRange { address: base });
        }
        let mut i: usize = 0;
        while i < self.regions.len()
            invariant
                0 <= i <= self.regions.len(),
                base as int + size as int <= 0x1_0000_0000int,
                forall|j: int| 0 <= j < i ==> !intersects(self@[j].0, self@[j].1.len() as int, base as int, size as int),
            decreases self.regions.len() - i,
        {
            let r = &self.regions[i];
            if (r.base as u128) < (base as u128) + (size as u128) && (base as u128) < (r.base as u128) + (r.data.len() as u128) {
                assert(self@[i as int] == self.regions@[i as int]@);
                assert(intersects(self@[i as int].0, self@[i as int].1.len() as int, base as int, size as int));
                return Err(MemoryError::Overlap { address: base });
            }
            i = i + 1;
        }
        Ok(())
    }

    /// Maps a zero-filled region of `size` bytes at `base`.
    pub fn map_region(&mut self, base: u32, size: usize) -> (r: Result<(), MemoryError>)
        ensures
            match mapping_error(old(self)@, base, size as int) {
                Some(e) => r == Err::<(), MemoryError>(e) && final(self)@ == old(self)@,
                None => r is Ok && final(self)@ == old(self)@.push((base as int, zeros(size as int))),
            },
    {
        self.load(&[], base, size)
    }

    /// Copies `image` to `base` and zero-fills the rest of a new region of
    /// `total_size` bytes (the image's bss).
    pub fn load(&mut self, image: &[u8], base: u32, total_size: usize) -> (r: Result<(), MemoryError>)
        ensures
            image@.len() > total_size ==> r == Err::<(), MemoryError>(MemoryError::OutOfRange { address: base })
                && final(self)@ == old(self)@,
            image@.len() <= total_size ==> match mapping_error(old(self)@, base, total_size as int) {
                Some(e) => r == Err::<(), MemoryError>(e) && final(self)@ == old(self)@,
                None => r is Ok && final(self)@ == old(self)@.push(
                    (base as int, image@ + zeros(total_size - image@.len())),
                ),
            },
    {
        if image.len() > total_size {
            return Err(MemoryError::OutOfRange { address: base });
        }
        match self.check_free(base, total_size) {
            Err(e) => Err(e),
            Ok(()) => {
                let mut data: Vec<u8> = Vec::new();
                let mut k: usize = 0;
                while k < total_size
                    invariant
                        k <= total_size,
                        image@.len() <= total_size,
                        data@ =~= (image@ + zeros(total_size - image@.len())).subrange(0, k as int),
                    decreases total_size - k,
                {
                    if k < image.len() {
                        data.push(image[k]);
                    } else {
                        data.push(0u8);
                    }
                    k = k + 1;
                }
                assert(data@ =~= image@ + zeros(total_size - image@.len()));
                let ghost region = Region { base, data };
                self.regions.push(Region { base, data });
                assert(self.regions@ =~= old(self).regions@.push(region));
                assert(self@ =~= old(self)@.push((base as int, image@ + zeros(total_size - image@.len()))));
                Ok(())
            },
        }
    }

    /// Reads a little-endian word at `addr`.
    pub fn read_u32(&self, addr: u32) -> (r: Result<u32, MemoryError>)
        ensures
            match read_spec(self@, addr as int, 4) {
                Some(b) => r == Ok::<u32, MemoryError>(word_of(b)),
                None => r == Err::<u32, MemoryError>(MemoryError::Unmapped { address: addr, length: 4 }),
            },
    {
        let b = self.read(addr, 4)?;
        proof {
            lemma_find_covers(self@, addr as int, 4, 0);
        }
        Ok((b[0] as u32) | ((b[1] as u32) << 8u32) | ((b[2] as u32) << 16u32) | ((b[3] as u32) << 24u32))
    }

    /// Writes `v` as four little-endian bytes at `addr`.
    pub fn write_u32(&mut self, addr: u32, v: u32) -> (r: Result<(), MemoryError>)
        ensures
            match write_spec(old(self)@, addr as int, le_bytes(v)) {
                Some(regs) => r is Ok && final(self)@ == regs,
                None => final(self)@ == old(self)@
                    && r == Err::<(), MemoryError>(MemoryError::Unmapped { address: addr, length: 4 }),
            },
    {
        let bytes: [u8; 4] = [(v & 0xff) as u8, ((v >> 8u32) & 0xff) as u8, ((v >> 16u32) & 0xff) as u8, ((v >> 24u32) & 0xff) as u8];
        assert(bytes@ =~= le_bytes(v));
        self.write(addr, &bytes)
    }
}

} // verus!
