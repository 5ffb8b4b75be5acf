//! A growable byte buffer kept in fixed-size batches, and a stub virtual machine over it.
use vstd::prelude::*;
use crate::render::push_char;

verus! {

/// Bytes per batch.
pub const BATCH_SIZE: usize = 256;

/// A byte buffer that grows one batch at a time, so that bytes never move once written.
pub struct ByteVec {
    batches: Vec<Vec<u8>>,
    local_index: usize,
    batch_index: usize,
}

impl View for ByteVec {
    type V = Seq<u8>;

    /// The bytes pushed so far, in order.
    closed spec fn view(&self) -> Seq<u8> {
        Seq::new(
            (self.batch_index * BATCH_SIZE + self.local_index) as nat,
            |i: int| self.batches@[i / BATCH_SIZE as int]@[i % BATCH_SIZE as int],
        )
    }
}

impl ByteVec {
    /// Every batch is full size, the last one is being filled, and the length fits in a `usize`.
    pub closed spec fn wf(&self) -> bool {
        &&& self.batches@.len() == self.batch_index + 1
        &&& forall|b: int| 0 <= b < self.batches@.len() ==> #[trigger] self.batches@[b]@.len() == BATCH_SIZE
        &&& self.local_index < BATCH_SIZE
        &&& self.batch_index * BATCH_SIZE + self.local_index <= usize::MAX
    }

    pub fn new() -> (r: ByteVec)
        ensures
            r.wf(),
            r@ == Seq::<u8>::empty(),
    {
        let r = ByteVec { batches: vec![vec![0u8; BATCH_SIZE]], local_index: 0, batch_index: 0 };
        proof {
            assert(r@ =~= Seq::<u8>::empty());
        }
        r
    }

    /// The number of bytes pushed.
    pub fn get_index(&self) -> (r: usize)
        requires
            self.wf(),
        ensures
            r == self@.len(),
    {
        self.batch_index * BATCH_SIZE + self.local_index
    }

    /// The byte at position `index`.
    pub fn get_byte(&self, index: usize) -> (r: u8)
        requires
            self.wf(),
            index < self@.len(),
        ensures
            r == self@[index as int],
    {
        let batch = index / BATCH_SIZE;
        let local = index % BATCH_SIZE;
        proof {
            assert(batch * BATCH_SIZE + local == index);
            assert(batch <= self.batch_index) by (nonlinear_arith)
                requires
                    batch * 256 + local == index,
                    index < self.batch_index * 256 + self.local_index,
                    self.local_index < 256,
                    local >= 0,
            ;
        }
        self.batches[batch][local]
    }

    pub fn iter(&self) -> (r: ByteVecIterator<'_>)
        ensures
            r.byte_vec == self,
            r.position == 0,
    {
        ByteVecIterator { byte_vec: self, position: 0 }
    }

    /// Appends one byte; a full batch opens a new one.
    pub fn push_byte(&mut self, byte: u8)
        requires
            old(self).wf(),
            old(self)@.len() < usize::MAX - BATCH_SIZE,
        ensures
            final(self).wf(),
            final(self)@ == old(self)@.push(byte),
    {
        let ghost before = self@;
        let b = self.batch_index;
        let l = self.local_index;
        self.batches[b][l] = byte;
        proof {
            assert forall|i: int| 0 <= i < before.len() implies #[trigger] (i / 256) < b + 1 && (i / 256 != b || i % 256 != l) by {
                assert(i == (i / 256) * 256 + i % 256);
            }
        }
        if l + 1 >= BATCH_SIZE {
            self.local_index = 0;
            self.batch_index = b + 1;
            self.batches.push(vec![0u8; BATCH_SIZE]);
        } else {
            self.local_index = l + 1;
        }
        proof {
            assert forall|i: int| 0 <= i < before.len() + 1 implies #[trigger] self@[i] == before.push(byte)[i] by {
                assert(i == (i / 256) * 256 + i % 256);
                if i == before.len() {
                    assert(i / 256 == b && i % 256 == l);
                }
            }
            assert(self@ =~= before.push(byte));
        }
    }

    /// Appends the bytes of `byte_vec` in order.
    pub fn push_byte_vec(&mut self, byte_vec: &ByteVec)
        requires
            old(self).wf(),
            byte_vec.wf(),
            old(self)@.len() + byte_vec@.len() < usize::MAX - BATCH_SIZE,
        ensures
            final(self).wf(),
            final(self)@ == old(self)@ + byte_vec@,
    {
        let mut it = byte_vec.iter();
        loop
            invariant
                self.wf(),
                byte_vec.wf(),
                it.byte_vec == byte_vec,
                it.position <= byte_vec@.len(),
                old(self)@.len() + byte_vec@.len() < usize::MAX - BATCH_SIZE,
                self@ == old(self)@ + byte_vec@.subrange(0, it.position as int),
            decreases byte_vec@.len() - it.position,
        {
            let ghost p = it.position;
            match it.next() {
                Some(byte) => {
                    self.push_byte(byte);
                    proof {
                        assert(byte_vec@.subrange(0, p + 1) =~= byte_vec@.subrange(0, p as int).push(byte));
                    }
                },
                None => {
                    proof {
                        assert(byte_vec@.subrange(0, p as int) =~= byte_vec@);
                    }
                    return;
                },
            }
        }
    }
}

pub open spec fn hex_digit(d: nat) -> char {
    if d < 10 {
        ((d + '0' as nat) as u8) as char
    } else {
        ((d - 10 + 'a' as nat) as u8) as char
    }
}

/// A byte in lower-case hexadecimal, with no leading zero.
pub open spec fn hex_text(b: u8) -> Seq<char> {
    if b < 16 {
        seq![hex_digit(b as nat)]
    } else {
        seq![hex_digit((b / 16) as nat), hex_digit((b % 16) as nat)]
    }
}

/// "bytes:" followed by each byte in hexadecimal, each after a space.
pub open spec fn bytes_text(s: Seq<u8>) -> Seq<char>
    decreases s.len(),
{
    if s.len() == 0 {
        "bytes:"@
    } else {
        bytes_text(s.drop_last()) + " "@ + hex_text(s.last())
    }
}

fn hex_char(d: u8) -> (r: char)
    requires
        d < 16,
    ensures
        r == hex_digit(d as nat),
{
    if d < 10 {
        (d + 48) as char
    } else {
        (d - 10 + 97) as char
    }
}

impl ByteVec {
    /// Appends "bytes:" and each byte in hexadecimal, then a line break.
    pub fn print(&self, out: &mut String)
        requires
            self.wf(),
        ensures
            final(out)@ == old(out)@ + bytes_text(self@) + "\n"@,
    {
        out.append("bytes:");
        let n = self.get_index();
        let mut i: usize = 0;
        while i < n
            invariant
                self.wf(),
                n == self@.len(),
                i <= n,
                out@ == old(out)@ + bytes_text(self@.subrange(0, i as int)),
            decreases n - i,
        {
            let b = self.get_byte(i);
            out.append(" ");
            if b >= 16 {
                push_char(out, hex_char(b / 16));
            }
            push_char(out, hex_char(b % 16));
            proof {
                let sub = self@.subrange(0, i + 1);
                assert(sub.drop_last() =~= self@.subrange(0, i as int));
                assert(sub.last() == b);
                assert(out@ =~= old(out)@ + bytes_text(sub));
            }
            i = i + 1;
        }
        out.append("\n");
        proof {
            assert(self@.subrange(0, n as int) =~= self@);
        }
    }
}

/// Walks the bytes of a buffer in order.
pub struct ByteVecIterator<'a> {
    pub byte_vec: &'a ByteVec,
    pub position: usize,
}

impl<'a> ByteVecIterator<'a> {
    /// The next byte, if any is left.
    pub fn next(&mut self) -> (r: Option<u8>)
        requires
            old(self).byte_vec.wf(),
            old(self).position <= old(self).byte_vec@.len(),
        ensures
            final(self).byte_vec == old(self).byte_vec,
            if old(self).position < old(self).byte_vec@.len() {
                &&& r == Some(old(self).byte_vec@[old(self).position as int])
                &&& final(self).position == old(self).position + 1
            } else {
                &&& r is None
                &&& final(self).position == old(self).position
            },
    {
        if self.position < self.byte_vec.get_index() {
            let b = self.byte_vec.get_byte(self.position);
            self.position = self.position + 1;
            Some(b)
        } else {
            None
        }
    }
}

/// The machine that will run compiled code: a stack and a heap of bytes.
pub struct VirtualMachine {
    stack: ByteVec,
    heap: ByteVec,
}

impl VirtualMachine {
    pub closed spec fn stack_bytes(&self) -> Seq<u8> {
        self.stack@
    }

    pub closed spec fn heap_bytes(&self) -> Seq<u8> {
        self.heap@
    }

    /// A machine with an empty stack and the instructions loaded into its heap.
    pub fn new(instructions: &ByteVec) -> (r: VirtualMachine)
        requires
            instructions.wf(),
            instructions@.len() < usize::MAX - BATCH_SIZE,
        ensures
            r.stack_bytes() == Seq::<u8>::empty(),
            r.heap_bytes() == instructions@,
    {
        let mut heap = ByteVec::new();
        heap.push_byte_vec(instructions);
        proof {
            assert(Seq::<u8>::empty() + instructions@ =~= instructions@);
        }
        VirtualMachine { stack: ByteVec::new(), heap: heap }
    }
}

} // verus!
