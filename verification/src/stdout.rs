//! Buffered front-end for the terminal's output stream.
//!
//! [`TsStdout`] queues outgoing bytes — rendered escape sequences and
//! UTF-8 text — and hands the queued bytes to the caller's sink on
//! [`TsStdout::flush`].  The rendering and the queue are verified here;
//! actually writing the bytes to a file descriptor is the caller's side
//! of the boundary.

use vstd::prelude::*;
use vstd::utf8::encode_utf8;

use crate::token::{esc_seq_bytes, StdoutEscSeq};

verus! {

/// The concatenated byte rendering of a series of outgoing commands, in
/// order.
pub open spec fn commands_bytes(cmds: Seq<StdoutEscSeq>) -> Seq<u8>
    decreases cmds.len(),
{
    if cmds.len() == 0 {
        Seq::empty()
    } else {
        commands_bytes(cmds.drop_last()) + esc_seq_bytes(cmds.last())
    }
}

/// A buffered handle for terminal output: commands and text accumulate
/// in order until the caller flushes them to its sink.
pub struct TsStdout {
    pending: Vec<u8>,
}

impl TsStdout {
    /// The bytes queued so far and not yet flushed.
    pub closed spec fn pending_bytes(self) -> Seq<u8> {
        self.pending@
    }

    /// Creates a handle with nothing queued.
    pub fn new() -> (r: Self)
        ensures
            r.pending_bytes() == Seq::<u8>::empty(),
    {
        TsStdout { pending: Vec::new() }
    }

    /// Queues a series of commands (escape sequences) in order.
    pub fn exec(&mut self, commands: &[StdoutEscSeq])
        ensures
            final(self).pending_bytes() == old(self).pending_bytes() + commands_bytes(commands@),
    {
        let ghost pre = self.pending@;
        let mut i: usize = 0;
        while i < commands.len()
            invariant
                i <= commands@.len(),
                self.pending@ == pre + commands_bytes(commands@.take(i as int)),
            decreases commands@.len() - i,
        {
            let mut bytes = commands[i].as_bytes();
            self.pending.append(&mut bytes);
            proof {
                assert(commands@.take(i + 1).drop_last() =~= commands@.take(i as int));
                assert(commands@.take(i + 1).last() == commands@[i as int]);
            }
            i += 1;
        }
        proof {
            assert(commands@.take(commands@.len() as int) =~= commands@);
        }
    }

    /// Queues a string: its UTF-8 bytes, in order.
    pub fn write_str(&mut self, s: &str)
        ensures
            final(self).pending_bytes() == old(self).pending_bytes() + encode_utf8(s@),
    {
        let bytes: &[u8] = s.as_bytes();
        self.pending.extend_from_slice(bytes);
    }

    /// Hands every queued byte to the caller, in order, and clears the
    /// queue.  The caller's sink is expected to write them out.
    pub fn flush(&mut self) -> (out: Vec<u8>)
        ensures
            out@ == old(self).pending_bytes(),
            final(self).pending_bytes() == Seq::<u8>::empty(),
    {
        let mut out: Vec<u8> = Vec::new();
        out.extend_from_slice(self.pending.as_slice());
        self.pending.clear();
        out
    }
}

} // verus!
