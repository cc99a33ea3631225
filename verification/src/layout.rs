//! How plain values are laid out as bytes.
//!
//! Integers have a fixed width and come least significant byte first. Byte strings and texts come
//! behind their length in eight bytes, optional values behind a byte that says whether they are
//! there. The fields of a record follow one another with nothing between them.
//!
//! A record laid out this way can be read back: two records whose bytes start the same packet are
//! the same record.

use vstd::prelude::*;
use vstd::utf8::*;

use crate::bytes;

verus! {

// ---------------------------------------------------------------------------------------------
// Layouts
// ---------------------------------------------------------------------------------------------

/// The two bytes of `x`, least significant first.
pub open spec fn le16(x: u16) -> Seq<u8> {
    seq![(x % 0x100) as u8, (x / 0x100) as u8]
}

/// The four bytes of `x`, least significant first.
pub open spec fn le32(x: u32) -> Seq<u8> {
    seq![
        (x % 0x100) as u8,
        (x / 0x100 % 0x100) as u8,
        (x / 0x1_0000 % 0x100) as u8,
        (x / 0x100_0000 % 0x100) as u8,
    ]
}

/// The number the first four bytes stand for, least significant first.
pub open spec fn le32_value(b: Seq<u8>) -> u32 {
    (b[0] + b[1] * 0x100 + b[2] * 0x1_0000 + b[3] * 0x100_0000) as u32
}

/// A byte string behind its length.
pub open spec fn blob(b: Seq<u8>) -> Seq<u8> {
    bytes::le64(b.len() as u64) + b
}

/// A text in UTF-8 behind its length.
pub open spec fn text(t: Seq<char>) -> Seq<u8> {
    blob(encode_utf8(t))
}

/// A flag: one where it is set, zero where it is not.
pub open spec fn flag(set: bool) -> Seq<u8> {
    if set {
        seq![1u8]
    } else {
        seq![0u8]
    }
}

/// A node id that may be missing.
pub open spec fn optional_id(id: Option<[u8; 32]>) -> Seq<u8> {
    match id {
        Some(id) => seq![1u8] + id@,
        None => seq![0u8],
    }
}

/// A text that may be missing.
pub open spec fn optional_text(t: Option<Seq<char>>) -> Seq<u8> {
    match t {
        Some(t) => seq![1u8] + text(t),
        None => seq![0u8],
    }
}

/// The fields of a record from the `i`-th on, one after the other.
pub open spec fn fields_from(fields: Seq<Seq<u8>>, i: int) -> Seq<u8>
    decreases fields.len() - i,
{
    if 0 <= i < fields.len() {
        fields[i] + fields_from(fields, i + 1)
    } else {
        Seq::empty()
    }
}

/// The fields of a record, one after the other.
pub open spec fn joined(fields: Seq<Seq<u8>>) -> Seq<u8> {
    fields_from(fields, 0)
}

/// The length of a record from one field on is that of the field and of what follows.
pub proof fn lemma_len_from(fields: Seq<Seq<u8>>, i: int)
    ensures
        0 <= i < fields.len() ==> fields_from(fields, i).len() == fields[i].len() + fields_from(
            fields,
            i + 1,
        ).len(),
        i == fields.len() ==> fields_from(fields, i).len() == 0,
{
}

/// No field is longer than the record.
pub proof fn lemma_field_len(fields: Seq<Seq<u8>>, i: int)
    requires
        0 <= i < fields.len(),
    ensures
        fields[i].len() <= joined(fields).len(),
{
    lemma_field_len_from(fields, 0, i);
}

proof fn lemma_field_len_from(fields: Seq<Seq<u8>>, start: int, i: int)
    requires
        0 <= start <= i < fields.len(),
    ensures
        fields[i].len() <= fields_from(fields, start).len(),
    decreases i - start,
{
    if start < i {
        lemma_field_len_from(fields, start + 1, i);
    }
}

/// The first fields of a record start its bytes.
pub proof fn lemma_first_fields(fields: Seq<Seq<u8>>, n: nat)
    requires
        n <= fields.len(),
    ensures
        joined(fields.take(n as int)).is_prefix_of(joined(fields)),
{
    lemma_first_fields_from(fields, n, 0);
}

proof fn lemma_first_fields_from(fields: Seq<Seq<u8>>, n: nat, i: int)
    requires
        0 <= i <= n <= fields.len(),
    ensures
        fields_from(fields.take(n as int), i).is_prefix_of(fields_from(fields, i)),
    decreases n - i,
{
    if i < n {
        lemma_first_fields_from(fields, n, i + 1);
        let part = fields_from(fields.take(n as int), i + 1);
        let rest = fields_from(fields, i + 1);
        let head = fields[i];
        assert forall|k: int| 0 <= k < (head + part).len() implies (head + part)[k] == (head + rest)[k] by {
            if k >= head.len() {
                assert(part[k - head.len()] == rest.subrange(0, part.len() as int)[k - head.len()]);
            }
        }
        assert((head + part) =~= (head + rest).subrange(0, (head + part).len() as int));
    }
}

// ---------------------------------------------------------------------------------------------
// Reading back
// ---------------------------------------------------------------------------------------------

/// Neither of two layouts starts the other, unless they are the same.
#[verifier::opaque]
pub open spec fn apart(a: Seq<u8>, b: Seq<u8>) -> bool {
    a.is_prefix_of(b) || b.is_prefix_of(a) ==> a == b
}

/// Two records whose bytes start the same packet have the same fields, where no field of one
/// starts the corresponding field of the other.
pub proof fn lemma_same_fields(p: Seq<Seq<u8>>, q: Seq<Seq<u8>>, packet: Seq<u8>)
    requires
        p.len() == q.len(),
        joined(p).is_prefix_of(packet),
        joined(q).is_prefix_of(packet),
        forall|i: int| 0 <= i < p.len() ==> apart(#[trigger] p[i], q[i]),
    ensures
        p == q,
{
    lemma_same_fields_from(p, q, packet, 0);
    assert(p =~= q);
}

proof fn lemma_same_fields_from(p: Seq<Seq<u8>>, q: Seq<Seq<u8>>, packet: Seq<u8>, start: int)
    requires
        0 <= start <= p.len() == q.len(),
        fields_from(p, start).is_prefix_of(packet),
        fields_from(q, start).is_prefix_of(packet),
        forall|i: int| 0 <= i < p.len() ==> apart(#[trigger] p[i], q[i]),
    ensures
        forall|i: int| start <= i < p.len() ==> p[i] == q[i],
    decreases p.len() - start,
{
    if start < p.len() {
        let a = p[start];
        let b = q[start];
        lemma_head(a, fields_from(p, start + 1), packet);
        lemma_head(b, fields_from(q, start + 1), packet);
        assert(apart(a, b));
        reveal(apart);
        if a.len() <= b.len() {
            assert(a =~= b.subrange(0, a.len() as int));
        } else {
            assert(b =~= a.subrange(0, b.len() as int));
        }
        lemma_same_fields_from(p, q, packet.skip(a.len() as int), start + 1);
    }
}

/// What starts a packet has its head at the start and the rest behind it.
proof fn lemma_head(head: Seq<u8>, tail: Seq<u8>, packet: Seq<u8>)
    requires
        (head + tail).is_prefix_of(packet),
    ensures
        head.is_prefix_of(packet),
        tail.is_prefix_of(packet.skip(head.len() as int)),
{
    let whole = head + tail;
    assert forall|i: int| 0 <= i < whole.len() implies packet[i] == whole[i] by {
        assert(packet.subrange(0, whole.len() as int)[i] == packet[i]);
    }
    assert(head =~= packet.subrange(0, head.len() as int)) by {
        assert forall|i: int| 0 <= i < head.len() implies packet[i] == head[i] by {
            assert(whole[i] == head[i]);
        }
    }
    let rest = packet.skip(head.len() as int);
    assert(tail =~= rest.subrange(0, tail.len() as int)) by {
        assert forall|i: int| 0 <= i < tail.len() implies rest[i] == tail[i] by {
            assert(whole[i + head.len()] == tail[i]);
        }
    }
}

/// Layouts of one length are apart.
pub proof fn lemma_fixed(a: Seq<u8>, b: Seq<u8>)
    requires
        a.len() == b.len(),
    ensures
        apart(a, b),
{
    reveal(apart);
    if a.is_prefix_of(b) {
        assert(b.subrange(0, a.len() as int) =~= b);
    }
    if b.is_prefix_of(a) {
        assert(a.subrange(0, b.len() as int) =~= a);
    }
}

/// Byte strings behind their length are apart, and tell the byte strings apart.
pub proof fn lemma_blob(a: Seq<u8>, b: Seq<u8>)
    requires
        a.len() <= u64::MAX,
        b.len() <= u64::MAX,
    ensures
        apart(blob(a), blob(b)),
        blob(a) == blob(b) ==> a == b,
{
    reveal(apart);
    let x = bytes::le64(a.len() as u64);
    let y = bytes::le64(b.len() as u64);
    bytes::lemma_64_injective(a.len() as u64, b.len() as u64);
    let packet = if a.len() >= b.len() {
        blob(a)
    } else {
        blob(b)
    };
    if blob(a).is_prefix_of(packet) && blob(b).is_prefix_of(packet) {
        lemma_head(x, a, packet);
        lemma_head(y, b, packet);
        assert(x =~= y);
        assert(a.len() == b.len());
        assert(a =~= b);
    }
    assert(packet.is_prefix_of(packet)) by {
        assert(packet.subrange(0, packet.len() as int) =~= packet);
    }
}

/// Texts behind their length are apart, and tell the texts apart.
pub proof fn lemma_text(a: Seq<char>, b: Seq<char>)
    requires
        encode_utf8(a).len() <= u64::MAX,
        encode_utf8(b).len() <= u64::MAX,
    ensures
        apart(text(a), text(b)),
        text(a) == text(b) ==> a == b,
{
    lemma_blob(encode_utf8(a), encode_utf8(b));
    encode_utf8_decode_utf8(a);
    encode_utf8_decode_utf8(b);
}

/// Ids that may be missing are apart, and tell the ids apart.
pub proof fn lemma_optional_id(a: Option<[u8; 32]>, b: Option<[u8; 32]>)
    ensures
        apart(optional_id(a), optional_id(b)),
        optional_id(a) == optional_id(b) ==> a == b,
{
    reveal(apart);
    let p = optional_id(a);
    let q = optional_id(b);
    assert(a is Some <==> p[0] == 1);
    assert(b is Some <==> q[0] == 1);
    if p.is_prefix_of(q) {
        assert(q.subrange(0, p.len() as int)[0] == q[0]);
        assert(q.subrange(0, q.len() as int) =~= q);
    }
    if q.is_prefix_of(p) {
        assert(p.subrange(0, q.len() as int)[0] == p[0]);
        assert(p.subrange(0, p.len() as int) =~= p);
    }
    if a is Some && b is Some && p == q {
        bytes::lemma_split(seq![1u8], a->0@, seq![1u8], b->0@);
        bytes::lemma_array_ext(a->0, b->0);
    }
}

/// Texts that may be missing are apart, and tell the texts apart.
pub proof fn lemma_optional_text(a: Option<Seq<char>>, b: Option<Seq<char>>)
    requires
        a matches Some(t) ==> encode_utf8(t).len() <= u64::MAX,
        b matches Some(t) ==> encode_utf8(t).len() <= u64::MAX,
    ensures
        apart(optional_text(a), optional_text(b)),
        optional_text(a) == optional_text(b) ==> a == b,
{
    reveal(apart);
    let p = optional_text(a);
    let q = optional_text(b);
    assert(a is Some <==> p[0] == 1);
    assert(b is Some <==> q[0] == 1);
    if p.is_prefix_of(q) {
        assert(q.subrange(0, p.len() as int)[0] == q[0]);
    }
    if q.is_prefix_of(p) {
        assert(p.subrange(0, q.len() as int)[0] == p[0]);
    }
    if a is Some && b is Some {
        let s = text(a->0);
        let t = text(b->0);
        lemma_text(a->0, b->0);
        if p.is_prefix_of(q) {
            lemma_head(seq![1u8], s, q);
            assert(q.skip(1) =~= t);
        }
        if q.is_prefix_of(p) {
            lemma_head(seq![1u8], t, p);
            assert(p.skip(1) =~= s);
        }
        if p == q {
            bytes::lemma_split(seq![1u8], s, seq![1u8], t);
        }
    }
}

/// The bytes of a number tell the number.
pub proof fn lemma_le16(x: u16, y: u16)
    ensures
        le16(x) == le16(y) ==> x == y,
{
    if le16(x) == le16(y) {
        assert(le16(x)[0] == le16(y)[0]);
        assert(le16(x)[1] == le16(y)[1]);
    }
}

/// The bytes of a number tell the number.
pub proof fn lemma_le32(x: u32, y: u32)
    ensures
        le32(x) == le32(y) ==> x == y,
{
    lemma_le32_value(x, le32(x));
    lemma_le32_value(y, le32(y));
}

/// A packet that starts with the bytes of a number starts with the number.
pub proof fn lemma_le32_value(x: u32, packet: Seq<u8>)
    ensures
        le32(x).is_prefix_of(packet) ==> packet.len() >= 4 && le32_value(packet) == x,
        le32(x).is_prefix_of(le32(x)),
{
    assert(le32(x) =~= le32(x).subrange(0, 4));
    if le32(x).is_prefix_of(packet) {
        assert(packet.subrange(0, 4)[0] == packet[0]);
        assert(packet.subrange(0, 4)[1] == packet[1]);
        assert(packet.subrange(0, 4)[2] == packet[2]);
        assert(packet.subrange(0, 4)[3] == packet[3]);
        let q1 = x / 0x100;
        let q2 = q1 / 0x100;
        let q3 = q2 / 0x100;
        assert(x / 0x1_0000 == q2);
        assert(x / 0x100_0000 == q3);
        assert(q3 < 0x100);
    }
}

} // verus!
