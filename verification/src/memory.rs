//! Main memory: a fixed number of bytes, addressed from zero.
use crate::endian::{join_byte, le_bytes, le_value, lemma_weights, nth_byte, weight};
use vstd::prelude::*;

verus! {

/// `contents` with `bytes` written over it from index `at` on.
pub open spec fn overwrite(contents: Seq<u8>, at: int, bytes: Seq<u8>) -> Seq<u8> {
    Seq::new(
        contents.len(),
        |i: int|
            if at <= i < at + bytes.len() {
                bytes[i - at]
            } else {
                contents[i]
            },
    )
}

/// Emulates main memory. Numbers wider than a byte are held least significant byte
/// first, at any alignment.
pub struct Memory {
    data: Vec<u8>,
}

impl View for Memory {
    type V = Seq<u8>;

    closed spec fn view(&self) -> Seq<u8> {
        self.data@
    }
}

impl Memory {
    /// Creates a memory without capacity.
    pub fn new() -> (memory: Self)
        ensures
            memory@ == Seq::<u8>::empty(),
    {
        Memory { data: Vec::new() }
    }

    /// Gives the memory `capacity` bytes, all zero.
    pub fn init(&mut self, capacity: u64)
        requires
            capacity <= isize::MAX,
        ensures
            final(self)@ == Seq::new(capacity as nat, |i: int| 0u8),
    {
        self.data = vec![0u8; capacity as usize];
        assert(self.data@ =~= Seq::new(capacity as nat, |i: int| 0u8));
    }

    /// Reads the `width` bytes from `address` on as one number.
    fn read_bytes(&self, address: u64, width: u64) -> (value: u64)
        requires
            width <= 8,
            address + width <= self@.len(),
        ensures
            value == le_value(self@.subrange(address as int, address + width)),
            value < weight(width as int),
    {
        let mut value: u64 = 0;
        let mut i: u64 = 0;
        proof {
            lemma_weights();
        }
        while i < width
            invariant
                i <= width <= 8,
                address + width <= self@.len(),
                value == le_value(self@.subrange(address as int, address + i)),
                value < weight(i as int),
            decreases width - i,
        {
            assert(self.data.len() == self@.len());
            let byte = self.data[(address + i) as usize];
            let ghost low = self@.subrange(address as int, address + i);
            value = join_byte(value, byte, i, Ghost(low));
            i = i + 1;
            assert(self@.subrange(address as int, address + i) =~= low.push(byte));
        }
        value
    }

    /// Writes the `width` low bytes of `value` from `address` on.
    fn write_bytes(&mut self, address: u64, value: u64, width: u64)
        requires
            width <= 8,
            address + width <= old(self)@.len(),
        ensures
            final(self)@ == overwrite(
                old(self)@,
                address as int,
                le_bytes(value as nat, width as nat),
            ),
    {
        let ghost before = self@;
        let mut i: u64 = 0;
        assert(self@ =~= overwrite(before, address as int, le_bytes(value as nat, 0)));
        while i < width
            invariant
                i <= width <= 8,
                address + width <= before.len(),
                self@ == overwrite(before, address as int, le_bytes(value as nat, i as nat)),
            decreases width - i,
        {
            assert(self.data.len() == self@.len());
            let byte = nth_byte(value, i);
            self.data.set((address + i) as usize, byte);
            i = i + 1;
            assert(self@ =~= overwrite(
                before,
                address as int,
                le_bytes(value as nat, i as nat),
            ));
        }
    }

    /// Reads a byte.
    pub fn read_byte(&self, address: u64) -> (value: u8)
        requires
            address < self@.len(),
        ensures
            value == self@[address as int],
    {
        assert(self.data.len() == self@.len());
        self.data[address as usize]
    }

    /// Reads two bytes.
    pub fn read_halfword(&self, address: u64) -> (value: u16)
        requires
            address + 2 <= self@.len(),
        ensures
            value == le_value(self@.subrange(address as int, address + 2)),
    {
        proof {
            lemma_weights();
        }
        self.read_bytes(address, 2) as u16
    }

    /// Reads four bytes.
    pub fn read_word(&self, address: u64) -> (value: u32)
        requires
            address + 4 <= self@.len(),
        ensures
            value == le_value(self@.subrange(address as int, address + 4)),
    {
        proof {
            lemma_weights();
        }
        self.read_bytes(address, 4) as u32
    }

    /// Reads eight bytes.
    pub fn read_doubleword(&self, address: u64) -> (value: u64)
        requires
            address + 8 <= self@.len(),
        ensures
            value == le_value(self@.subrange(address as int, address + 8)),
    {
        self.read_bytes(address, 8)
    }

    /// Writes a byte.
    pub fn write_byte(&mut self, address: u64, value: u8)
        requires
            address < old(self)@.len(),
        ensures
            final(self)@ == old(self)@.update(address as int, value),
    {
        assert(self.data.len() == self@.len());
        self.data.set(address as usize, value);
    }

    /// Writes two bytes.
    pub fn write_halfword(&mut self, address: u64, value: u16)
        requires
            address + 2 <= old(self)@.len(),
        ensures
            final(self)@ == overwrite(old(self)@, address as int, le_bytes(value as nat, 2)),
    {
        self.write_bytes(address, value as u64, 2);
    }

    /// Writes four bytes.
    pub fn write_word(&mut self, address: u64, value: u32)
        requires
            address + 4 <= old(self)@.len(),
        ensures
            final(self)@ == overwrite(old(self)@, address as int, le_bytes(value as nat, 4)),
    {
        self.write_bytes(address, value as u64, 4);
    }

    /// Writes eight bytes.
    pub fn write_doubleword(&mut self, address: u64, value: u64)
        requires
            address + 8 <= old(self)@.len(),
        ensures
            final(self)@ == overwrite(old(self)@, address as int, le_bytes(value as nat, 8)),
    {
        self.write_bytes(address, value, 8);
    }

    /// Tells whether the memory has a byte at `address`.
    pub fn validate_address(&self, address: u64) -> (valid: bool)
        ensures
            valid == (address < self@.len()),
    {
        address < self.data.len() as u64
    }
}

} // verus!
