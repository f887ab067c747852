//! The pull-buffer of the reader.
//!
//! It is a queue of bytes between the source, which hands over chunks at
//! boundaries of its own, and the parser, which takes fields of lengths of
//! its own. Bytes leave it in the order in which they came. The parser may
//! look ahead without taking, and may push bytes back to the front, so that
//! no byte of a later entry is ever lost.

use std::collections::VecDeque;
use vstd::prelude::*;

verus! {

/// A first-in, first-out queue of bytes with pushback.
pub struct PullBuffer {
    bytes: VecDeque<u8>,
}

/// The `count` bytes of `bytes` from `start` on, or as many of them as
/// there are.
pub open spec fn window(bytes: Seq<u8>, start: nat, count: nat) -> Seq<u8> {
    if start >= bytes.len() {
        Seq::<u8>::empty()
    } else if start + count >= bytes.len() {
        bytes.skip(start as int)
    } else {
        bytes.subrange(start as int, (start + count) as int)
    }
}

impl View for PullBuffer {
    type V = Seq<u8>;

    closed spec fn view(&self) -> Seq<u8> {
        self.bytes@
    }
}

impl PullBuffer {
    /// An empty buffer.
    pub fn new() -> (buffer: Self)
        ensures
            buffer@ == Seq::<u8>::empty(),
    {
        PullBuffer { bytes: VecDeque::new() }
    }

    /// How many bytes are waiting.
    pub fn len(&self) -> (len: usize)
        ensures
            len == self@.len(),
    {
        self.bytes.len()
    }

    /// Puts a chunk that the source has delivered behind the waiting bytes.
    pub fn fill(&mut self, chunk: &[u8])
        ensures
            final(self)@ == old(self)@ + chunk@,
    {
        let mut i: usize = 0;
        while i < chunk.len()
            invariant
                i <= chunk@.len(),
                self@ == old(self)@ + chunk@.take(i as int),
            decreases chunk@.len() - i,
        {
            self.bytes.push_back(chunk[i]);
            i = i + 1;
        }
    }

    /// Copies `count` bytes from position `start` on without taking them.
    /// Where fewer bytes are waiting, those that are there are copied.
    pub fn peek(&self, start: usize, count: usize) -> (bytes: Vec<u8>)
        ensures
            bytes@ == window(self@, start as nat, count as nat),
    {
        let mut bytes: Vec<u8> = Vec::new();
        let len: usize = self.bytes.len();
        if start >= len {
            return bytes;
        }
        let end: usize = if count >= len - start {
            len
        } else {
            start + count
        };
        let mut i: usize = start;
        while i < end
            invariant
                start <= i <= end <= len,
                len == self@.len(),
                bytes@ == self@.subrange(start as int, i as int),
            decreases end - i,
        {
            bytes.push(self.bytes[i]);
            i = i + 1;
        }
        bytes
    }

    /// Takes the first `count` bytes. Where fewer bytes are waiting, all of
    /// them are taken: the result is short only if the buffer ran empty.
    pub fn pull(&mut self, count: usize) -> (bytes: Vec<u8>)
        ensures
            bytes@ == window(old(self)@, 0, count as nat),
            final(self)@ == old(self)@.skip(bytes@.len() as int),
            bytes@ + final(self)@ == old(self)@,
    {
        let mut bytes: Vec<u8> = Vec::new();
        let len: usize = self.bytes.len();
        let end: usize = if count >= len {
            len
        } else {
            count
        };
        let mut i: usize = 0;
        while i < end
            invariant
                i <= end <= len,
                len == old(self)@.len(),
                bytes@ == old(self)@.take(i as int),
                self@ == old(self)@.skip(i as int),
            decreases end - i,
        {
            let byte = self.bytes.pop_front();
            match byte {
                Some(b) => {
                    bytes.push(b);
                },
                None => {},
            }
            i = i + 1;
        }
        bytes
    }

    /// Drops the first `count` bytes, or all bytes where fewer are
    /// waiting.
    pub fn discard(&mut self, count: usize)
        ensures
            final(self)@ == old(self)@.skip(window(old(self)@, 0, count as nat).len() as int),
    {
        let len: usize = self.bytes.len();
        let end: usize = if count >= len {
            len
        } else {
            count
        };
        let mut i: usize = 0;
        while i < end
            invariant
                i <= end <= len,
                len == old(self)@.len(),
                self@ == old(self)@.skip(i as int),
            decreases end - i,
        {
            let _ = self.bytes.pop_front();
            i = i + 1;
        }
    }

    /// Puts `bytes` back in front of the waiting bytes, so that they are
    /// the next to be taken, in their order.
    pub fn pushback(&mut self, bytes: &[u8])
        ensures
            final(self)@ == bytes@ + old(self)@,
    {
        let mut i: usize = bytes.len();
        while i > 0
            invariant
                i <= bytes@.len(),
                self@ == bytes@.skip(i as int) + old(self)@,
            decreases i,
        {
            i = i - 1;
            self.bytes.push_front(bytes[i]);
        }
    }
}

/// Bytes that were pulled and pushed back are waiting as before.
pub proof fn lemma_pushback_undoes_pull(waiting: Seq<u8>, count: nat)
    ensures
        window(waiting, 0, count) + waiting.skip(window(waiting, 0, count).len() as int)
            == waiting,
{
    let pulled = window(waiting, 0, count);
    assert(pulled + waiting.skip(pulled.len() as int) =~= waiting);
}

/// Bytes that were pushed back are the next to be pulled, and what was
/// waiting before waits behind them.
pub proof fn lemma_pull_returns_pushback(waiting: Seq<u8>, pushed: Seq<u8>)
    ensures
        window(pushed + waiting, 0, pushed.len()) == pushed,
        (pushed + waiting).skip(pushed.len() as int) == waiting,
{
    let all = pushed + waiting;
    assert(window(all, 0, pushed.len()) =~= pushed);
    assert(all.skip(pushed.len() as int) =~= waiting);
}

} // verus!
