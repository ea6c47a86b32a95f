//! A first-fit allocator over a bus of 128 bytes. The first 16 bytes hold
//! the allocation map, one bit per byte of the bus: bit `i % 8` of byte
//! `i / 8` tells whether byte `i` is taken. The map marks its own 16 bytes
//! taken; what a caller stores in the data area never changes the map.
use vstd::prelude::*;

verus! {

/// Bytes of the bus.
pub const SIZE: usize = 0x80;
/// Bytes of the allocation map at the start of the bus (1 bit per byte).
pub const MASK_BYTES: usize = 16;
/// Offset of the first byte that can be handed out.
pub const DATA_START: usize = 16;

/// Bit `j` (0 to 7, least significant first) of `b`.
pub open spec fn bit(b: u8, j: u8) -> bool {
    (b >> j) & 1u8 == 1u8
}

/// The allocation map of a bus: flag `i` is set when byte `i` is taken.
pub open spec fn used_flags(s: Seq<u8>) -> Seq<bool> {
    Seq::new(128, |i: int| bit(s[i / 8], (i % 8) as u8))
}

/// The bus right after initialisation: the map marks its own 16 bytes
/// taken (the first two map bytes all ones) and everything else is zero.
pub open spec fn initialized() -> Seq<u8> {
    Seq::new(128, |i: int| if i < 2 { 0xFFu8 } else { 0u8 })
}

/// The bus an allocation works on: initialised first if its first byte is
/// still zero.
pub open spec fn prepared(s: Seq<u8>) -> Seq<u8> {
    if s[0] == 0 {
        initialized()
    } else {
        s
    }
}

/// The `n` bytes from `start` on are all free in the map of `s`.
pub open spec fn window_free(s: Seq<u8>, start: int, n: int) -> bool {
    forall|i: int| start <= i < start + n ==> !#[trigger] used_flags(s)[i]
}

/// `start` can take `n` bytes: the window lies in the data area and is free.
pub open spec fn fits(s: Seq<u8>, n: int, start: int) -> bool {
    16 <= start && start + n <= 128 && window_free(s, start, n)
}

/// `start` is the lowest offset that can take `n` bytes.
pub open spec fn is_first_fit(s: Seq<u8>, n: int, start: int) -> bool {
    fits(s, n, start) && forall|k: int| 16 <= k < start ==> !fits(s, n, k)
}

/// The map `f` with the `n` flags from `start` on set.
pub open spec fn marked(f: Seq<bool>, start: int, n: int) -> Seq<bool> {
    Seq::new(f.len(), |i: int| if start <= i < start + n { true } else { f[i] })
}

/// The data area of `a` and `b` holds the same bytes.
pub open spec fn same_data(a: Seq<u8>, b: Seq<u8>) -> bool {
    forall|x: int| 16 <= x < 128 ==> #[trigger] a[x] == b[x]
}

/// The bus with `data` stored from `loc` on.
pub open spec fn stored(s: Seq<u8>, loc: int, data: Seq<u8>) -> Seq<u8> {
    Seq::new(s.len(), |i: int| if loc <= i < loc + data.len() { data[i - loc] } else { s[i] })
}

/// Setting bit `k` of `b` sets it and leaves the other bits.
proof fn lemma_bit_set(b: u8, k: u8, j: u8)
    by (bit_vector)
    requires
        k < 8,
        j < 8,
    ensures
        bit(b | (1u8 << k), j) == (j == k || bit(b, j)),
{
}

/// Clearing bit `k` of `b` clears it and leaves the other bits.
proof fn lemma_bit_clear(b: u8, k: u8, j: u8)
    by (bit_vector)
    requires
        k < 8,
        j < 8,
    ensures
        bit(b & !(1u8 << k), j) == (j != k && bit(b, j)),
{
}

/// A byte is its eight bits.
proof fn lemma_bits_determine(a: u8, b: u8)
    by (bit_vector)
    requires
        bit(a, 0) == bit(b, 0),
        bit(a, 1) == bit(b, 1),
        bit(a, 2) == bit(b, 2),
        bit(a, 3) == bit(b, 3),
        bit(a, 4) == bit(b, 4),
        bit(a, 5) == bit(b, 5),
        bit(a, 6) == bit(b, 6),
        bit(a, 7) == bit(b, 7),
    ensures
        a == b,
{
}

/// Flag `8 k + j` of the map is bit `j` of map byte `k`.
proof fn lemma_flag_bit(s: Seq<u8>, k: int, j: u8)
    requires
        0 <= k < 16,
        j < 8,
    ensures
        used_flags(s)[8 * k + j] == bit(s[k], j),
{
    let i = 8 * k + j;
    assert(i / 8 == k);
    assert((i % 8) as u8 == j);
}

/// Map bytes with the same flags are the same byte.
proof fn lemma_map_byte(a: Seq<u8>, b: Seq<u8>, k: int)
    requires
        0 <= k < 16,
        forall|i: int| 8 * k <= i < 8 * k + 8 ==> used_flags(a)[i] == used_flags(b)[i],
    ensures
        a[k] == b[k],
{
    lemma_flag_bit(a, k, 0);
    lemma_flag_bit(b, k, 0);
    lemma_flag_bit(a, k, 1);
    lemma_flag_bit(b, k, 1);
    lemma_flag_bit(a, k, 2);
    lemma_flag_bit(b, k, 2);
    lemma_flag_bit(a, k, 3);
    lemma_flag_bit(b, k, 3);
    lemma_flag_bit(a, k, 4);
    lemma_flag_bit(b, k, 4);
    lemma_flag_bit(a, k, 5);
    lemma_flag_bit(b, k, 5);
    lemma_flag_bit(a, k, 6);
    lemma_flag_bit(b, k, 6);
    lemma_flag_bit(a, k, 7);
    lemma_flag_bit(b, k, 7);
    lemma_bits_determine(a[k], b[k]);
}

/// The map and the data area determine a bus.
pub proof fn lemma_bus_determined(a: Seq<u8>, b: Seq<u8>)
    requires
        a.len() == 128,
        b.len() == 128,
        used_flags(a) == used_flags(b),
        same_data(a, b),
    ensures
        a == b,
{
    assert forall|k: int| 0 <= k < 16 implies a[k] == b[k] by {
        lemma_map_byte(a, b, k);
    }
    assert(a =~= b);
}

/// Two allocations in a row never overlap: the first marks its bytes taken
/// in the map, so the second lies wholly before or wholly after them.
pub proof fn lemma_successive_allocations_disjoint(
    s0: Seq<u8>,
    s1: Seq<u8>,
    n1: int,
    a: int,
    n2: int,
    b: int,
)
    requires
        s0.len() == 128,
        s1.len() == 128,
        n1 > 0,
        n2 > 0,
        is_first_fit(prepared(s0), n1, a),
        used_flags(s1) == marked(used_flags(prepared(s0)), a, n1),
        same_data(s1, prepared(s0)),
        is_first_fit(prepared(s1), n2, b),
    ensures
        a + n1 <= b || b + n2 <= a,
{
    let p0 = prepared(s0);
    assert(p0[0] != 0);
    if s1[0] == 0 {
        let z = Seq::new(128, |i: int| if i == 0 { 0u8 } else { p0[i] });
        assert forall|i: int| 0 <= i < 8 implies used_flags(p0)[i] == used_flags(z)[i] by {
            assert(used_flags(s1)[i] == used_flags(p0)[i]);
            assert(i / 8 == 0);
        }
        lemma_map_byte(p0, z, 0);
    }
    assert(prepared(s1) == s1);
    if !(a + n1 <= b || b + n2 <= a) {
        let x = if a <= b { b } else { a };
        assert(used_flags(s1)[x]);
        assert(window_free(s1, b, n2));
    }
}

/// Storing in the data area leaves the allocation map as it was.
pub proof fn lemma_store_keeps_map(s: Seq<u8>, loc: int, data: Seq<u8>)
    requires
        s.len() == 128,
        16 <= loc,
        loc + data.len() <= 128,
    ensures
        used_flags(stored(s, loc, data)) == used_flags(s),
{
    assert(used_flags(stored(s, loc, data)) =~= used_flags(s));
}

/// What is stored at an offset is what reading there gives back.
pub proof fn lemma_get_after_set(s: Seq<u8>, loc: int, data: Seq<u8>)
    requires
        s.len() == 128,
        0 <= loc,
        loc + data.len() <= 128,
    ensures
        stored(s, loc, data).subrange(loc, loc + data.len()) == data,
        forall|i: int| 0 <= i < 128 && !(loc <= i < loc + data.len()) ==> #[trigger] stored(s, loc, data)[i] == s[i],
{
    assert(stored(s, loc, data).subrange(loc, loc + data.len()) =~= data);
}

/// The byte bus with its allocation map.
pub struct Bus {
    bytes: Vec<u8>,
}

impl View for Bus {
    type V = Seq<u8>;

    closed spec fn view(&self) -> Seq<u8> {
        self.bytes@
    }
}

impl Bus {
    pub open spec fn wf(&self) -> bool {
        self@.len() == 128
    }

    /// A bus of zero bytes, not yet initialised.
    pub fn new() -> (b: Bus)
        ensures
            b.wf(),
            forall|i: int| 0 <= i < 128 ==> #[trigger] b@[i] == 0,
    {
        let mut bytes: Vec<u8> = Vec::new();
        let mut i: usize = 0;
        while i < SIZE
            invariant
                i <= 128,
                bytes@.len() == i,
                forall|j: int| 0 <= j < i ==> #[trigger] bytes@[j] == 0,
            decreases 128 - i,
        {
            bytes.push(0);
            i = i + 1;
        }
        Bus { bytes }
    }

    /// Clears the bus and marks the map's own bytes taken.
    fn init(&mut self)
        requires
            old(self).wf(),
        ensures
            final(self)@ == initialized(),
    {
        let mut i: usize = 0;
        while i < SIZE
            invariant
                i <= 128,
                self.bytes@.len() == 128,
                forall|j: int| 0 <= j < i ==> #[trigger] self.bytes@[j] == (if j < 2 { 0xFFu8 } else { 0u8 }),
            decreases 128 - i,
        {
            // the map's own 16 bytes are the first 16 flags: map bytes 0 and 1
            if i < MASK_BYTES / 8 {
                self.bytes.set(i, 0xFF);
            } else {
                self.bytes.set(i, 0);
            }
            i = i + 1;
        }
        assert(self.bytes@ =~= initialized());
    }

    /// Whether byte `i` is taken.
    fn used(&self, i: usize) -> (b: bool)
        requires
            self.wf(),
            i < 128,
        ensures
            b == used_flags(self@)[i as int],
    {
        (self.bytes[i / 8] >> ((i % 8) as u8)) & 1 == 1
    }

    /// Marks byte `i` taken or free in the map.
    fn set_used(&mut self, i: usize, val: bool)
        requires
            old(self).wf(),
            i < 128,
        ensures
            final(self).wf(),
            used_flags(final(self)@) == used_flags(old(self)@).update(i as int, val),
            same_data(final(self)@, old(self)@),
    {
        let k = (i % 8) as u8;
        let byte = self.bytes[i / 8];
        let new_byte = if val {
            byte | (1u8 << k)
        } else {
            byte & !(1u8 << k)
        };
        self.bytes.set(i / 8, new_byte);
        proof {
            assert forall|x: int| 0 <= x < 128 implies #[trigger] used_flags(self@)[x] == used_flags(
                old(self)@,
            ).update(i as int, val)[x] by {
                let j = (x % 8) as u8;
                if x / 8 == i / 8 {
                    if val {
                        lemma_bit_set(byte, k, j);
                    } else {
                        lemma_bit_clear(byte, k, j);
                    }
                }
            }
            assert(used_flags(self@) =~= used_flags(old(self)@).update(i as int, val));
        }
    }

    /// Allocates `s` bytes at the lowest free offset of the data area, marks
    /// them taken in the map, and gives that offset. Initialises the bus
    /// first if its first byte is zero. Gives `None` for zero bytes, for
    /// more than the data area holds, or when no run of `s` free bytes is
    /// left. The data area is never changed.
    pub fn malloc(&mut self, s: usize) -> (r: Option<usize>)
        requires
            old(self).wf(),
        ensures
            final(self).wf(),
            match r {
                Some(start) => {
                    &&& 0 < s <= 112
                    &&& is_first_fit(prepared(old(self)@), s as int, start as int)
                    &&& used_flags(final(self)@) == marked(used_flags(prepared(old(self)@)), start as int, s as int)
                    &&& same_data(final(self)@, prepared(old(self)@))
                },
                None => {
                    &&& s == 0 || s > 112 || forall|k: int| !fits(prepared(old(self)@), s as int, k)
                    &&& final(self)@ == prepared(old(self)@)
                },
            },
    {
        if self.bytes[0] == 0 {
            self.init();
        }
        let ghost b = self@;
        assert(b == prepared(old(self)@));
        if s == 0 || s > SIZE - DATA_START {
            return None;
        }
        let mut run: usize = 0;
        let mut start: usize = DATA_START;
        let mut i: usize = DATA_START;
        while i < SIZE
            invariant
                self@ == b,
                b == prepared(old(self)@),
                b.len() == 128,
                0 < s <= 112,
                16 <= i <= 128,
                run <= i - 16,
                run < s,
                run > 0 ==> start == i - run,
                window_free(b, i - run, run as int),
                i - run == 16 || used_flags(b)[i - run - 1],
                forall|k: int| 16 <= k && k + s <= i ==> !fits(b, s as int, k),
            decreases 128 - i,
        {
            if !self.used(i) {
                if run == 0 {
                    start = i;
                }
                run = run + 1;
                if run == s {
                    proof {
                        assert(fits(b, s as int, start as int));
                        assert(is_first_fit(b, s as int, start as int));
                    }
                    let mut j: usize = start;
                    while j < start + s
                        invariant
                            start <= j <= start + s,
                            start + s <= 128,
                            0 < s <= 112,
                            b == prepared(old(self)@),
                            b.len() == 128,
                            is_first_fit(b, s as int, start as int),
                            self.wf(),
                            used_flags(self@) == marked(used_flags(b), start as int, j - start),
                            same_data(self@, b),
                        decreases start + s - j,
                    {
                        let ghost before = self@;
                        self.set_used(j, true);
                        assert(used_flags(self@) =~= marked(used_flags(b), start as int, j + 1 - start));
                        j = j + 1;
                    }
                    return Some(start);
                }
            } else {
                run = 0;
            }
            proof {
                assert forall|k: int| 16 <= k && k + s <= i + 1 implies !fits(b, s as int, k) by {
                    if k + s == i + 1 {
                        if used_flags(b)[i as int] {
                            assert(used_flags(b)[k + s - 1]);
                        } else {
                            assert(k < i - run + 1);
                            assert(used_flags(b)[i - run]);
                        }
                    }
                }
            }
            i = i + 1;
        }
        None
    }

    /// Stores `val` from offset `loc` on. Storing in the data area leaves
    /// the allocation map as it was.
    pub fn setter(&mut self, val: &[u8], loc: usize)
        requires
            old(self).wf(),
            loc + val@.len() <= 128,
        ensures
            final(self)@ == stored(old(self)@, loc as int, val@),
            final(self).wf(),
            loc >= 16 ==> used_flags(final(self)@) == used_flags(old(self)@),
    {
        let mut i: usize = 0;
        while i < val.len()
            invariant
                i <= val@.len(),
                loc + val@.len() <= 128,
                self@.len() == 128,
                forall|x: int| 0 <= x < 128 ==> #[trigger] self@[x] == (if loc <= x < loc + i { val@[x - loc] } else { old(self)@[x] }),
            decreases val@.len() - i,
        {
            self.bytes.set(loc + i, val[i]);
            i = i + 1;
        }
        assert(self@ =~= stored(old(self)@, loc as int, val@));
        proof {
            if loc >= 16 {
                lemma_store_keeps_map(old(self)@, loc as int, val@);
            }
        }
    }

    /// The `len` bytes stored from offset `loc` on.
    pub fn getter(&self, loc: usize, len: usize) -> (v: Vec<u8>)
        requires
            self.wf(),
            loc + len <= 128,
        ensures
            v@ == self@.subrange(loc as int, loc + len),
    {
        let mut v: Vec<u8> = Vec::new();
        let mut i: usize = 0;
        while i < len
            invariant
                i <= len,
                loc + len <= 128,
                self@.len() == 128,
                v@ == self@.subrange(loc as int, loc + i),
            decreases len - i,
        {
            v.push(self.bytes[loc + i]);
            i = i + 1;
            assert(v@ =~= self@.subrange(loc as int, loc + i));
        }
        v
    }

    /// The bus contents.
    pub fn bytes(&self) -> (b: &Vec<u8>)
        ensures
            b@ == self@,
    {
        &self.bytes
    }
}

} // verus!
