//! The streaming state of one file task: chunks are transformed in place,
//! one after the other, under one continuous key stream, so that memory
//! stays bounded by the chunk size while the output equals a whole-file
//! transform.

use crate::transform::lemma_xor_concat;
use crate::transform::xor_encrypt_from;
use crate::transform::xor_with_key;
use vstd::prelude::*;

verus! {

/// Bytes read from a file at a time. Peak memory follows this bound, not
/// the file size.
pub const CHUNK_SIZE: usize = 65536;

/// One file task in flight: the key, the byte counts, and — as ghost
/// history — the bytes read and written so far.
pub struct StreamProcessor {
    pub key: Vec<u8>,
    pub processed: u64,
    pub total: u64,
    pub input_so_far: Ghost<Seq<u8>>,
    pub output_so_far: Ghost<Seq<u8>>,
}

impl StreamProcessor {
    /// The state is consistent: the count matches the history, and the
    /// output so far is exactly the whole-file transform of the input so
    /// far — chunk boundaries leave no trace.
    pub open spec fn wf(&self) -> bool {
        &&& self.processed == self.input_so_far@.len()
        &&& self.output_so_far@ == xor_with_key(self.input_so_far@, self.key@, 0)
    }

    /// Starts a task for a file of `total` bytes under `key`.
    pub fn new(key: Vec<u8>, total: u64) -> (r: StreamProcessor)
        ensures
            r.wf(),
            r.key == key,
            r.processed == 0,
            r.total == total,
            r.input_so_far@ == Seq::<u8>::empty(),
            r.output_so_far@ == Seq::<u8>::empty(),
    {
        let r = StreamProcessor {
            key,
            processed: 0,
            total,
            input_so_far: Ghost(Seq::empty()),
            output_so_far: Ghost(Seq::empty()),
        };
        proof {
            assert(xor_with_key(Seq::empty(), r.key@, 0) =~= Seq::<u8>::empty());
        }
        r
    }

    /// Transforms the next chunk in place, picking the key phase up where
    /// the previous chunk stopped, and accounts for its bytes.
    pub fn process_chunk(&mut self, chunk: &mut Vec<u8>)
        requires
            old(self).wf(),
            old(self).processed + old(chunk)@.len() <= u64::MAX,
        ensures
            final(self).wf(),
            final(self).key == old(self).key,
            final(self).total == old(self).total,
            final(self).processed == old(self).processed + old(chunk)@.len(),
            final(self).input_so_far@ == old(self).input_so_far@ + old(chunk)@,
            final(self).output_so_far@ == old(self).output_so_far@ + final(chunk)@,
            final(chunk)@ == xor_with_key(
                old(chunk)@,
                old(self).key@,
                if old(self).key@.len() == 0 {
                    0
                } else {
                    (old(self).processed as nat) % old(self).key@.len()
                },
            ),
    {
        let phase: usize = if self.key.len() == 0 {
            0
        } else {
            (self.processed % (self.key.len() as u64)) as usize
        };
        xor_encrypt_from(chunk, &self.key, phase);
        proof {
            lemma_xor_concat(self.input_so_far@, old(chunk)@, self.key@, 0);
        }
        self.processed = self.processed + chunk.len() as u64;
        let ghost new_input = self.input_so_far@ + old(chunk)@;
        let ghost new_output = self.output_so_far@ + chunk@;
        self.input_so_far = Ghost(new_input);
        self.output_so_far = Ghost(new_output);
        proof {
            assert(self.output_so_far@ == xor_with_key(self.input_so_far@, self.key@, 0));
        }
    }
}

} // verus!
