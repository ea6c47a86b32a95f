//! A message hidden in 32-bit integers: their bytes, in the little-endian
//! order of x86 memory, spell the text, which is then shown on the screen.
use vstd::prelude::*;
use crate::screen::{Screen, with_run};

verus! {

/// Byte `j` (0 to 3, least significant first) of `w` as it lies in memory.
pub open spec fn le_byte(w: i32, j: int) -> u8 {
    (((w as u32) >> ((8 * j) as u32)) & 0xffu32) as u8
}

/// The bytes of `words` as they lie in memory, one word after the other.
pub open spec fn memory_bytes(words: Seq<i32>) -> Seq<u8> {
    Seq::new(4 * words.len(), |i: int| le_byte(words[i / 4], i % 4))
}

/// The bytes of `words` as they lie in memory.
pub fn words_to_bytes(words: &[i32]) -> (v: Vec<u8>)
    requires
        4 * words@.len() <= usize::MAX,
    ensures
        v@ == memory_bytes(words@),
{
    let mut v: Vec<u8> = Vec::new();
    let mut k: usize = 0;
    while k < words.len()
        invariant
            k <= words@.len(),
            v@.len() == 4 * k,
            forall|i: int| 0 <= i < 4 * k ==> #[trigger] v@[i] == le_byte(words@[i / 4], i % 4),
        decreases words@.len() - k,
    {
        let u = words[k] as u32;
        v.push((u & 0xff) as u8);
        v.push(((u >> 8u32) & 0xff) as u8);
        v.push(((u >> 16u32) & 0xff) as u8);
        v.push(((u >> 24u32) & 0xff) as u8);
        proof {
            let w = words@[k as int];
            assert(u == w as u32);
            assert((u >> 0u32) == u) by (bit_vector);
            assert forall|i: int| 4 * k <= i < 4 * k + 4 implies #[trigger] v@[i] == le_byte(words@[i / 4], i % 4) by {
                assert(i / 4 == k);
            }
        }
        k = k + 1;
    }
    assert(v@ =~= memory_bytes(words@));
    v
}

/// Shows the bytes of `words` from the top left corner on, cell after
/// cell, white on black.
pub fn show_message(screen: &mut Screen, words: &[i32])
    requires
        old(screen).wf(),
        4 * words@.len() <= 2000,
    ensures
        final(screen)@ == with_run(old(screen)@, 0, memory_bytes(words@), 0x0f),
        final(screen).wf(),
{
    let bytes = words_to_bytes(words);
    screen.write_run(0, bytes.as_slice(), 0x0f);
}

} // verus!
