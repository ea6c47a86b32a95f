//! Keyboard input: the interrupt vectors of the two programmable interrupt
//! controllers, and the ring of scancodes that the keyboard interrupt fills
//! and the main loop drains.
use vstd::prelude::*;

verus! {

/// First vector of the primary interrupt controller.
pub const PIC_1_OFFSET: u8 = 32;
/// First vector of the secondary interrupt controller.
pub const PIC_2_OFFSET: u8 = 40;

/// Slots of the scancode ring; one is kept empty to tell full from empty.
pub const QUEUE_SIZE: usize = 64;

/// The hardware interrupts the kernel handles.
#[derive(Debug, Clone, Copy, PartialEq, Eq, Structural)]
pub enum InterruptIndex {
    Timer,
    Keyboard,
}

/// The interrupt vector of `i`: the timer on the first line of the primary
/// controller, the keyboard on the second.
pub open spec fn vector(i: InterruptIndex) -> u8 {
    match i {
        InterruptIndex::Timer => PIC_1_OFFSET,
        InterruptIndex::Keyboard => (PIC_1_OFFSET + 1) as u8,
    }
}

impl InterruptIndex {
    /// The interrupt vector.
    pub fn as_u8(self) -> (v: u8)
        ensures
            v == vector(self),
    {
        match self {
            InterruptIndex::Timer => PIC_1_OFFSET,
            InterruptIndex::Keyboard => PIC_1_OFFSET + 1,
        }
    }

    /// The interrupt vector as an index into the descriptor table.
    pub fn as_usize(self) -> (v: usize)
        ensures
            v == vector(self) as usize,
    {
        match self {
            InterruptIndex::Timer => 32,
            InterruptIndex::Keyboard => 33,
        }
    }
}

/// A key of the keyboard that has no character.
#[verifier::external_type_specification]
#[verifier::external_body]
pub struct ExKeyCode(pc_keyboard::KeyCode);

/// A decoded key: a character, or a key without one, given with its key
/// code number.
#[derive(Debug, Clone, Copy)]
pub enum Key {
    Unicode(char),
    Raw(pc_keyboard::KeyCode, u8),
}

/// A decoded key as plain values: `Ok` with the character, or `Err` with
/// the key code number of a key without a character.
pub open spec fn key_value(k: Option<Key>) -> Option<Result<char, u8>> {
    match k {
        Some(Key::Unicode(c)) => Some(Ok(c)),
        Some(Key::Raw(_, n)) => Some(Err(n)),
        None => None,
    }
}

/// The keyboard decoder of `pc-keyboard`: US 104-key layout, scancode
/// set 1, control keys passed through. Its state is what it has been fed.
#[verifier::external_body]
struct Decoder {
    kb: pc_keyboard::Keyboard<pc_keyboard::layouts::Us104Key, pc_keyboard::ScancodeSet1>,
}

/// The key that a decoder made by `KeyDecoder::new` gives when it has been
/// fed the bytes `fed`, the last of them just now: `None` when that byte
/// completes no key, `Ok` with a character, `Err` with the key code number
/// of a key without one.
pub uninterp spec fn decoded_key(fed: Seq<u8>) -> Option<Result<char, u8>>;

/// The character among the decoded key, if it is one.
pub open spec fn decoded_char(fed: Seq<u8>) -> Option<char> {
    match decoded_key(fed) {
        Some(Ok(c)) => Some(c),
        _ => None,
    }
}

/// A keyboard decoder together with the scancodes it has been fed.
pub struct KeyDecoder {
    decoder: Decoder,
    fed: Ghost<Seq<u8>>,
}

impl View for KeyDecoder {
    type V = Seq<u8>;

    /// The scancodes fed to the decoder since it was made, oldest first.
    closed spec fn view(&self) -> Seq<u8> {
        self.fed@
    }
}

impl KeyDecoder {
    /// Calls `pc_keyboard::Keyboard::new` with scancode set 1, the US
    /// 104-key layout and `HandleControl::Ignore`: a decoder fed nothing yet.
    #[verifier::external_body]
    pub fn new() -> (d: KeyDecoder)
        ensures
            d@ == Seq::<u8>::empty(),
    {
        KeyDecoder {
            decoder: Decoder {
                kb: pc_keyboard::Keyboard::new(
                    pc_keyboard::ScancodeSet1::new(),
                    pc_keyboard::layouts::Us104Key,
                    pc_keyboard::HandleControl::Ignore,
                ),
            },
            fed: Ghost(Seq::empty()),
        }
    }

    /// Feeds one scancode: calls `pc_keyboard::Keyboard::add_byte`, and on a
    /// completed event `pc_keyboard::Keyboard::process_keyevent`; an error
    /// counts as no key. The decoder's answers depend only on the bytes fed
    /// since it was made, so the key given is `decoded_key` of them.
    #[verifier::external_body]
    pub fn decode(&mut self, scancode: u8) -> (k: Option<Key>)
        ensures
            final(self)@ == old(self)@.push(scancode),
            key_value(k) == decoded_key(final(self)@),
    {
        self.fed = Ghost(self.fed@.push(scancode));
        match self.decoder.kb.add_byte(scancode) {
            Ok(Some(ev)) => match self.decoder.kb.process_keyevent(ev) {
                Some(pc_keyboard::DecodedKey::Unicode(c)) => Some(Key::Unicode(c)),
                Some(pc_keyboard::DecodedKey::RawKey(code)) => Some(Key::Raw(code, code as u8)),
                None => None,
            },
            _ => None,
        }
    }
}

/// Takes the oldest waiting scancode and decodes it; gives `None` when no
/// scancode waits, or when the one taken completes no key.
pub fn next_key(queue: &mut ScancodeQueue, dec: &mut KeyDecoder) -> (k: Option<Key>)
    requires
        old(queue).wf(),
    ensures
        final(queue).wf(),
        old(queue)@.len() == 0 ==> k is None && final(queue)@ == old(queue)@ && final(dec)@ == old(dec)@,
        old(queue)@.len() > 0 ==> {
            &&& final(queue)@ == old(queue)@.drop_first()
            &&& final(dec)@ == old(dec)@.push(old(queue)@[0])
            &&& key_value(k) == decoded_key(final(dec)@)
        },
{
    match queue.pop_scancode() {
        Some(scancode) => dec.decode(scancode),
        None => None,
    }
}

/// The bytes waiting in a ring with slots `buf`, read position `head` and
/// write position `tail`, oldest first.
pub open spec fn ring_contents(buf: Seq<u8>, head: int, tail: int) -> Seq<u8> {
    if head <= tail {
        buf.subrange(head, tail)
    } else {
        buf.subrange(head, 64) + buf.subrange(0, tail)
    }
}

/// A ring of scancodes, oldest first, holding at most 63 of them.
pub struct ScancodeQueue {
    buf: Vec<u8>,
    head: usize,
    tail: usize,
}

impl View for ScancodeQueue {
    type V = Seq<u8>;

    closed spec fn view(&self) -> Seq<u8> {
        ring_contents(self.buf@, self.head as int, self.tail as int)
    }
}

impl ScancodeQueue {
    pub closed spec fn wf(&self) -> bool {
        self.buf@.len() == 64 && self.head < 64 && self.tail < 64
    }

    /// A well-formed ring never holds more than 63 scancodes.
    pub proof fn lemma_capacity(&self)
        requires
            self.wf(),
        ensures
            self@.len() <= 63,
    {
    }

    /// An empty ring.
    pub fn new() -> (q: ScancodeQueue)
        ensures
            q.wf(),
            q@ == Seq::<u8>::empty(),
    {
        let mut buf: Vec<u8> = Vec::new();
        let mut i: usize = 0;
        while i < QUEUE_SIZE
            invariant
                i <= 64,
                buf@.len() == i,
            decreases 64 - i,
        {
            buf.push(0);
            i = i + 1;
        }
        let q = ScancodeQueue { buf, head: 0, tail: 0 };
        assert(q@ =~= Seq::<u8>::empty());
        q
    }

    /// Adds a scancode at the back, as the keyboard interrupt does; a full
    /// ring drops it. Tells whether it was kept.
    pub fn push_scancode(&mut self, scancode: u8) -> (kept: bool)
        requires
            old(self).wf(),
        ensures
            final(self).wf(),
            kept == (old(self)@.len() < 63),
            kept ==> final(self)@ == old(self)@.push(scancode),
            !kept ==> final(self)@ == old(self)@,
    {
        let tail = self.tail;
        let next_tail = (tail + 1) % QUEUE_SIZE;
        if next_tail != self.head {
            let ghost old_buf = self.buf@;
            self.buf.set(tail, scancode);
            self.tail = next_tail;
            proof {
                let h = self.head as int;
                if h <= tail {
                    if tail < 63 {
                        assert(self@ =~= old(self)@.push(scancode));
                    } else {
                        assert(self.buf@.subrange(h, 64) =~= old_buf.subrange(h, tail as int).push(scancode));
                        assert(self@ =~= old(self)@.push(scancode));
                    }
                } else {
                    assert(self.buf@.subrange(h, 64) =~= old_buf.subrange(h, 64));
                    assert(self.buf@.subrange(0, tail + 1) =~= old_buf.subrange(0, tail as int).push(scancode));
                    assert(self@ =~= old(self)@.push(scancode));
                }
            }
            true
        } else {
            false
        }
    }

    /// Takes the oldest scancode, if any.
    pub fn pop_scancode(&mut self) -> (r: Option<u8>)
        requires
            old(self).wf(),
        ensures
            final(self).wf(),
            old(self)@.len() == 0 ==> r == None::<u8> && final(self)@ == old(self)@,
            old(self)@.len() > 0 ==> r == Some(old(self)@[0]) && final(self)@ == old(self)@.drop_first(),
    {
        let head = self.head;
        let tail = self.tail;
        if head == tail {
            return None;
        }
        let scancode = self.buf[head];
        self.head = (head + 1) % QUEUE_SIZE;
        assert(self@ =~= old(self)@.drop_first());
        Some(scancode)
    }

    /// Whether no scancode waits.
    pub fn is_empty(&self) -> (b: bool)
        requires
            self.wf(),
        ensures
            b == (self@.len() == 0),
    {
        self.head == self.tail
    }

    /// Takes every waiting scancode, oldest first, leaving the ring empty.
    pub fn drain(&mut self) -> (v: Vec<u8>)
        requires
            old(self).wf(),
        ensures
            final(self).wf(),
            v@ == old(self)@,
            final(self)@.len() == 0,
    {
        let mut v: Vec<u8> = Vec::new();
        loop
            invariant
                self.wf(),
                v@ + self@ == old(self)@,
            decreases self@.len(),
        {
            let ghost before = self@;
            match self.pop_scancode() {
                Some(sc) => {
                    v.push(sc);
                    assert(v@ + self@ =~= old(self)@) by {
                        assert(before =~= seq![sc] + self@);
                        assert(v@ =~= v@.drop_last().push(sc));
                    }
                },
                None => {
                    assert(v@ =~= old(self)@);
                    return v;
                },
            }
        }
    }
}

} // verus!
