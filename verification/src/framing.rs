//! Messages over a link that carries small pieces: a length in front, then cut to size.
//!
//! A radio notification carries a few hundred bytes at most. A message is sent with its length,
//! four bytes in network order, in front, in as many pieces as it takes; the receiver collects
//! bytes, however they were cut, and takes messages out as they become complete.

use vstd::prelude::*;

use crate::bytes;
use crate::table;

verus! {

/// The largest piece that is sent: below what any link of this kind carries.
pub const MAX_CHUNK_LEN: usize = 180;

/// A message with its length in front.
pub open spec fn framed(message: Seq<u8>) -> Seq<u8> {
    bytes::be32(message.len() as u32) + message
}

/// How many pieces `len` bytes are cut into.
pub open spec fn pieces_needed(len: nat) -> nat {
    (len + MAX_CHUNK_LEN - 1) as nat / MAX_CHUNK_LEN as nat
}

/// Bytes cut into pieces, all but the last as large as can be.
pub open spec fn pieces(data: Seq<u8>) -> Seq<Seq<u8>> {
    Seq::new(
        pieces_needed(data.len()),
        |i: int|
            data.subrange(
                i * MAX_CHUNK_LEN,
                if (i + 1) * MAX_CHUNK_LEN < data.len() {
                    (i + 1) * MAX_CHUNK_LEN
                } else {
                    data.len() as int
                },
            ),
    )
}

/// The messages that are complete in some bytes, and the bytes left over.
pub open spec fn unframed(data: Seq<u8>) -> (Seq<Seq<u8>>, Seq<u8>)
    decreases data.len(),
{
    if data.len() < 4 || data.len() < 4 + bytes::be32_value(data) {
        (Seq::empty(), data)
    } else {
        let end = 4 + bytes::be32_value(data) as int;
        let (messages, rest) = unframed(data.skip(end));
        (seq![data.subrange(4, end)] + messages, rest)
    }
}

/// The pieces to be sent for a message.
pub fn frame_message(message: &[u8]) -> (result: Vec<Vec<u8>>)
    ensures
        table::views(result@) == pieces(framed(message@)),
{
    let mut data: Vec<u8> = Vec::new();
    let len: u32 = message.len() as u32;
    data.push((len / 0x100_0000 % 0x100) as u8);
    data.push((len / 0x1_0000 % 0x100) as u8);
    data.push((len / 0x100 % 0x100) as u8);
    data.push((len % 0x100) as u8);
    bytes::append(&mut data, message);
    assert(data@ =~= framed(message@));
    let ghost wanted = pieces(data@);
    let mut result: Vec<Vec<u8>> = Vec::new();
    let mut start: usize = 0;
    let total: usize = data.len();
    while start < total
        invariant
            total == data@.len(),
            start <= total,
            wanted == pieces(data@),
            start == total || start == result@.len() * MAX_CHUNK_LEN,
            start == total ==> result@.len() == pieces_needed(data@.len()),
            result@.len() <= pieces_needed(data@.len()),
            forall|i: int| 0 <= i < result@.len() ==> (#[trigger] result@[i])@ == wanted[i],
        decreases total - start,
    {
        let end: usize = if total - start > MAX_CHUNK_LEN {
            start + MAX_CHUNK_LEN
        } else {
            total
        };
        let piece = bytes::subslice(data.as_slice(), start, end);
        assert(piece@ == wanted[result@.len() as int]);
        result.push(piece);
        start = end;
    }
    assert(table::views(result@) =~= wanted);
    result
}

/// Bytes received that do not make a complete message yet.
pub struct FrameBuffer {
    buf: Vec<u8>,
}

impl View for FrameBuffer {
    type V = Seq<u8>;

    closed spec fn view(&self) -> Seq<u8> {
        self.buf@
    }
}

impl FrameBuffer {
    /// Nothing received.
    pub fn new() -> (buffer: FrameBuffer)
        ensures
            buffer@ == Seq::<u8>::empty(),
    {
        FrameBuffer { buf: Vec::new() }
    }

    /// Takes in a piece and hands out the messages that are complete.
    pub fn push(&mut self, piece: &[u8]) -> (messages: Vec<Vec<u8>>)
        ensures
            (table::views(messages@), final(self)@) == unframed(old(self)@ + piece@),
    {
        bytes::append(&mut self.buf, piece);
        let ghost all = self.buf@;
        let mut messages: Vec<Vec<u8>> = Vec::new();
        let mut start: usize = 0;
        let total: usize = self.buf.len();
        assert(all.skip(0) =~= all);
        assert(table::views(messages@) + unframed(all).0 =~= unframed(all).0);
        let mut more = total >= 4;
        while more
            invariant
                all == self.buf@,
                total == all.len(),
                start <= total,
                more == (total - start >= 4),
                table::views(messages@) + unframed(all.skip(start as int)).0 == unframed(all).0,
                unframed(all.skip(start as int)).1 == unframed(all).1,
            ensures
                start <= total,
                unframed(all.skip(start as int)) == (
                    Seq::<Seq<u8>>::empty(),
                    all.skip(start as int),
                ),
                table::views(messages@) + unframed(all.skip(start as int)).0 == unframed(all).0,
                unframed(all.skip(start as int)).1 == unframed(all).1,
            decreases total - start,
        {
            let ghost rest = all.skip(start as int);
            let b0: u64 = self.buf[start] as u64;
            let b1: u64 = self.buf[start + 1] as u64;
            let b2: u64 = self.buf[start + 2] as u64;
            let b3: u64 = self.buf[start + 3] as u64;
            let len: u64 = b0 * 0x100_0000 + b1 * 0x1_0000 + b2 * 0x100 + b3;
            assert(len == bytes::be32_value(rest));
            if ((total - start) as u64) < 4 + len {
                break;
            }
            let end: usize = start + 4 + len as usize;
            let message = bytes::subslice(self.buf.as_slice(), start + 4, end);
            let ghost before = table::views(messages@);
            proof {
                assert(message@ =~= rest.subrange(4, 4 + len));
                assert(rest.skip(4 + len as int) =~= all.skip(end as int));
            }
            messages.push(message);
            assert(table::views(messages@) =~= before.push(message@));
            assert(table::views(messages@) + unframed(all.skip(end as int)).0 =~= before + (
            seq![message@] + unframed(all.skip(end as int)).0));
            start = end;
            more = total - start >= 4;
        }
        assert(table::views(messages@) + Seq::<Seq<u8>>::empty() =~= table::views(messages@));
        let rest = bytes::subslice(self.buf.as_slice(), start, total);
        assert(rest@ =~= all.skip(start as int));
        self.buf = rest;
        messages
    }
}

// ---------------------------------------------------------------------------------------------
// Laws
// ---------------------------------------------------------------------------------------------

proof fn lemma_be32(x: u32)
    ensures
        bytes::be32(x).len() == 4,
        bytes::be32_value(bytes::be32(x)) == x,
{
    let q1 = x / 0x100;
    let q2 = q1 / 0x100;
    let q3 = q2 / 0x100;
    assert(x / 0x1_0000 == q2);
    assert(x / 0x100_0000 == q3);
}

/// A framed message is taken out as it was put in, whatever follows it. It must be short enough
/// for its length to fit four bytes.
pub proof fn law_message_comes_out(message: Seq<u8>, rest: Seq<u8>)
    requires
        message.len() <= u32::MAX,
    ensures
        unframed(framed(message) + rest) == (
            seq![message] + unframed(rest).0,
            unframed(rest).1,
        ),
{
    let data = framed(message) + rest;
    lemma_be32(message.len() as u32);
    let head = bytes::be32(message.len() as u32);
    assert(data[0] == head[0] && data[1] == head[1] && data[2] == head[2] && data[3] == head[3]);
    assert(bytes::be32_value(data) == message.len());
    let end = 4 + message.len() as int;
    assert(data.subrange(4, end) =~= message);
    assert(data.skip(end) =~= rest);
}

/// How the bytes were cut does not matter: taking in two pieces one after the other gives the
/// messages, and leaves the bytes, of taking them in at once.
pub proof fn law_cuts_do_not_matter(first: Seq<u8>, second: Seq<u8>)
    ensures
        unframed(first + second) == (
            unframed(first).0 + unframed(unframed(first).1 + second).0,
            unframed(unframed(first).1 + second).1,
        ),
    decreases first.len(),
{
    let both = first + second;
    if first.len() < 4 || first.len() < 4 + bytes::be32_value(first) {
        assert(Seq::<Seq<u8>>::empty() + unframed(both).0 =~= unframed(both).0);
    } else {
        assert(both[0] == first[0] && both[1] == first[1] && both[2] == first[2] && both[3]
            == first[3]);
        assert(bytes::be32_value(both) == bytes::be32_value(first));
        let end = 4 + bytes::be32_value(first) as int;
        let tail = first.skip(end);
        assert(both.skip(end) =~= tail + second);
        assert(both.subrange(4, end) =~= first.subrange(4, end));
        law_cuts_do_not_matter(tail, second);
        let one = seq![first.subrange(4, end)];
        assert(one + (unframed(tail).0 + unframed(unframed(tail).1 + second).0) =~= (one
            + unframed(tail).0) + unframed(unframed(tail).1 + second).0);
    }
}

/// The first `count` pieces, joined.
pub open spec fn joined(parts: Seq<Seq<u8>>, count: nat) -> Seq<u8>
    decreases count,
{
    if count == 0 {
        Seq::empty()
    } else {
        joined(parts, (count - 1) as nat) + parts[count - 1]
    }
}

/// Joining the pieces gives the bytes back, and no piece is larger than the link carries.
pub proof fn law_pieces_join(data: Seq<u8>)
    ensures
        joined(pieces(data), pieces(data).len()) == data,
        forall|i: int| 0 <= i < pieces(data).len() ==> (#[trigger] pieces(data)[i]).len()
            <= MAX_CHUNK_LEN,
{
    let all = pieces(data);
    let n = pieces_needed(data.len());
    if data.len() == 0 {
        assert(joined(all, 0) =~= data);
    } else {
        lemma_joined(data, (n - 1) as nat);
        assert(joined(all, n) =~= data);
    }
}

proof fn lemma_joined(data: Seq<u8>, count: nat)
    requires
        count * MAX_CHUNK_LEN < data.len(),
    ensures
        joined(pieces(data), count) == data.take((count * MAX_CHUNK_LEN) as int),
    decreases count,
{
    if count == 0 {
        assert(data.take(0) =~= Seq::empty());
    } else {
        lemma_joined(data, (count - 1) as nat);
        assert(count - 1 < pieces(data).len());
        assert(joined(pieces(data), count) =~= data.take((count * MAX_CHUNK_LEN) as int));
    }
}

/// What an empty buffer hands out, and keeps, over the first `count` of some pieces.
pub open spec fn taken_in(parts: Seq<Seq<u8>>, count: nat) -> (Seq<Seq<u8>>, Seq<u8>)
    decreases count,
{
    if count == 0 {
        (Seq::empty(), Seq::empty())
    } else {
        let (messages, kept) = taken_in(parts, (count - 1) as nat);
        let (more, rest) = unframed(kept + parts[count - 1]);
        (messages + more, rest)
    }
}

/// What is handed out over a number of pieces depends on their bytes alone.
pub proof fn law_pieces_are_one_stream(parts: Seq<Seq<u8>>, count: nat)
    ensures
        taken_in(parts, count) == unframed(joined(parts, count)),
    decreases count,
{
    if count > 0 {
        law_pieces_are_one_stream(parts, (count - 1) as nat);
        law_cuts_do_not_matter(joined(parts, (count - 1) as nat), parts[count - 1]);
    }
}

/// A message sent in pieces comes out as it went in, once, and nothing is left over. It must be
/// short enough for its length to fit four bytes.
pub proof fn law_message_crosses_the_link(message: Seq<u8>)
    requires
        message.len() <= u32::MAX,
    ensures
        taken_in(pieces(framed(message)), pieces(framed(message)).len()) == (
            seq![message],
            Seq::<u8>::empty(),
        ),
{
    let parts = pieces(framed(message));
    law_pieces_are_one_stream(parts, parts.len());
    law_pieces_join(framed(message));
    law_message_comes_out(message, Seq::empty());
    assert(framed(message) + Seq::<u8>::empty() =~= framed(message));
    assert(seq![message] + Seq::<Seq<u8>>::empty() =~= seq![message]);
}

} // verus!
