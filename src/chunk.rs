use vstd::prelude::*;

use crate::memory::{grow_capacity, grown};

verus! {

/// A growable buffer of bytecode.
pub trait Chunkable: Sized {
    /// The buffer's invariant.
    spec fn well_formed(&self) -> bool;

    /// The bytes written so far, in order.
    spec fn contents(&self) -> Seq<u8>;

    fn init() -> (r: Self)
        ensures
            r.well_formed(),
            r.contents() == Seq::<u8>::empty(),
    ;

    fn write(&mut self, byte: u8)
        requires
            old(self).well_formed(),
            old(self).contents().len() < usize::MAX / 2,
        ensures
            final(self).well_formed(),
            final(self).contents() == old(self).contents().push(byte),
    ;

    fn free(&mut self)
        ensures
            final(self).well_formed(),
            final(self).contents() == Seq::<u8>::empty(),
    ;
}

/// The instructions of the bytecode.
#[derive(Clone, Copy, Debug, PartialEq, Eq, Structural)]
pub enum OpCode {
    OpReturn,
    Unknown,
}

impl vstd::std_specs::convert::FromSpecImpl<u8> for OpCode {
    open spec fn obeys_from_spec() -> bool {
        true
    }

    open spec fn from_spec(v: u8) -> OpCode {
        if v == 0 {
            OpCode::OpReturn
        } else {
            OpCode::Unknown
        }
    }
}

impl From<u8> for OpCode {
    fn from(value: u8) -> OpCode {
        if value == 0 {
            OpCode::OpReturn
        } else {
            OpCode::Unknown
        }
    }
}

impl vstd::std_specs::convert::FromSpecImpl<OpCode> for u8 {
    open spec fn obeys_from_spec() -> bool {
        true
    }

    open spec fn from_spec(v: OpCode) -> u8 {
        match v {
            OpCode::OpReturn => 0,
            OpCode::Unknown => 100,
        }
    }
}

impl From<OpCode> for u8 {
    fn from(op: OpCode) -> u8 {
        match op {
            OpCode::OpReturn => 0,
            OpCode::Unknown => 100,
        }
    }
}

/// Bytecode: `code` holds `capacity` bytes, of which the first `count` have
/// been written.
pub struct Chunk {
    pub code: Vec<u8>,
    pub count: usize,
    pub capacity: usize,
}

impl Chunkable for Chunk {
    open spec fn well_formed(&self) -> bool {
        &&& self.code@.len() == self.capacity
        &&& self.count <= self.capacity
    }

    open spec fn contents(&self) -> Seq<u8> {
        self.code@.take(self.count as int)
    }

    fn init() -> (r: Chunk) {
        let r = Chunk { code: Vec::new(), count: 0, capacity: 0 };
        assert(r.contents() =~= Seq::<u8>::empty());
        r
    }

    fn write(&mut self, byte: u8) {
        if self.is_at_capacity() {
            self.resize();
        }
        let ghost before = self.contents();
        self.code.set(self.count, byte);
        self.count += 1;
        assert(self.contents() =~= before.push(byte));
    }

    fn free(&mut self) {
        *self = Chunk::init();
    }
}

impl Chunk {
    /// Whether one more byte would not fit.
    pub fn is_at_capacity(&self) -> (r: bool)
        requires
            self.well_formed(),
        ensures
            r == (self.capacity == self.count),
    {
        self.capacity <= self.count
    }

    /// Grows the buffer to the next capacity, keeping what was written.
    pub fn resize(&mut self)
        requires
            old(self).well_formed(),
            grown(old(self).capacity as nat) <= usize::MAX,
        ensures
            final(self).well_formed(),
            final(self).capacity == grown(old(self).capacity as nat),
            final(self).count == old(self).count,
            final(self).contents() == old(self).contents(),
    {
        let ghost before = self.contents();
        let new_capacity = grow_capacity(self.capacity);
        while self.code.len() < new_capacity
            invariant
                self.count <= self.capacity <= self.code@.len() <= new_capacity,
                self.code@.take(self.count as int) == before,
            decreases new_capacity - self.code@.len(),
        {
            let ghost prev = self.code@;
            self.code.push(0);
            assert(self.code@.take(self.count as int) =~= prev.take(self.count as int));
        }
        self.capacity = new_capacity;
    }
}

} // verus!
