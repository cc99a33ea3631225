//! Byte strings: equality, order, fixed-width integers, and hexadecimal text.

use vstd::prelude::*;
use vstd::string::*;
use vstd::utf8::*;

verus! {

broadcast use vstd::string::group_string_axioms;

// ---------------------------------------------------------------------------------------------
// Copying and comparing
// ---------------------------------------------------------------------------------------------

/// Appends `more` to `buf`.
pub fn append(buf: &mut Vec<u8>, more: &[u8])
    ensures
        final(buf)@ == old(buf)@ + more@,
{
    buf.extend_from_slice(more);
    assert(buf@ =~= old(buf)@ + more@);
}

/// Copies a slice into a new vector.
pub fn to_vec(bytes: &[u8]) -> (copy: Vec<u8>)
    ensures
        copy@ == bytes@,
{
    let mut copy: Vec<u8> = Vec::with_capacity(bytes.len());
    append(&mut copy, bytes);
    assert(copy@ =~= bytes@);
    copy
}

/// Copies the part of a slice from `start` up to `end`.
pub fn subslice(bytes: &[u8], start: usize, end: usize) -> (copy: Vec<u8>)
    requires
        start <= end <= bytes@.len(),
    ensures
        copy@ == bytes@.subrange(start as int, end as int),
{
    let mut copy: Vec<u8> = Vec::with_capacity(end - start);
    let mut i: usize = start;
    while i < end
        invariant
            start <= i <= end <= bytes@.len(),
            copy@ == bytes@.subrange(start as int, i as int),
        decreases end - i,
    {
        copy.push(bytes[i]);
        i += 1;
        assert(copy@ =~= bytes@.subrange(start as int, i as int));
    }
    copy
}

/// Copies a slice of exactly `N` bytes into an array.
pub fn to_array<const N: usize>(bytes: &[u8]) -> (array: Option<[u8; N]>)
    ensures
        array is Some <==> bytes@.len() == N,
        array matches Some(a) ==> a@ == bytes@,
{
    if bytes.len() != N {
        return None;
    }
    let mut array: [u8; N] = [0u8; N];
    let mut i: usize = 0;
    while i < N
        invariant
            i <= N,
            bytes@.len() == N,
            forall|j: int| 0 <= j < i ==> array@[j] == bytes@[j],
        decreases N - i,
    {
        array[i] = bytes[i];
        i += 1;
    }
    assert(array@ =~= bytes@);
    Some(array)
}

/// Whether two byte strings are equal.
pub fn same(a: &[u8], b: &[u8]) -> (equal: bool)
    ensures
        equal == (a@ == b@),
{
    if a.len() != b.len() {
        return false;
    }
    let mut i: usize = 0;
    while i < a.len()
        invariant
            i <= a@.len(),
            a@.len() == b@.len(),
            forall|j: int| 0 <= j < i ==> a@[j] == b@[j],
        decreases a@.len() - i,
    {
        if a[i] != b[i] {
            return false;
        }
        i += 1;
    }
    assert(a@ =~= b@);
    true
}

/// Whether two arrays are equal.
pub fn same_array<const N: usize>(a: &[u8; N], b: &[u8; N]) -> (equal: bool)
    ensures
        equal == (*a == *b),
{
    let equal = same(a.as_slice(), b.as_slice());
    proof {
        if a@ == b@ {
            assert(forall|i: int| 0 <= i < N ==> a@[i] == b@[i]);
            assert(*a =~= *b);
        }
    }
    equal
}

/// Arrays with equal contents are equal.
pub proof fn lemma_array_ext<const N: usize>(a: [u8; N], b: [u8; N])
    ensures
        a@ == b@ <==> a == b,
{
    if a@ == b@ {
        assert(forall|i: int| 0 <= i < N ==> a@[i] == b@[i]);
        assert(a =~= b);
    }
}

/// The array with the given contents.
pub open spec fn array_with<const N: usize>(contents: Seq<u8>) -> [u8; N] {
    choose|a: [u8; N]| a@ == contents
}

/// An array is the array with its contents.
pub proof fn lemma_array_with<const N: usize>(a: [u8; N])
    ensures
        array_with::<N>(a@) == a,
{
    lemma_array_ext(array_with::<N>(a@), a);
}

/// Two concatenations are equal only part by part, once the first parts have one length.
pub proof fn lemma_split(a_head: Seq<u8>, a_tail: Seq<u8>, b_head: Seq<u8>, b_tail: Seq<u8>)
    requires
        a_head + a_tail == b_head + b_tail,
        a_head.len() == b_head.len(),
    ensures
        a_head == b_head,
        a_tail == b_tail,
{
    let whole = a_head + a_tail;
    assert(a_head =~= whole.subrange(0, a_head.len() as int));
    assert(b_head =~= whole.subrange(0, a_head.len() as int));
    assert(a_tail =~= whole.subrange(a_head.len() as int, whole.len() as int));
    assert(b_tail =~= whole.subrange(a_head.len() as int, whole.len() as int));
}

/// `a` comes strictly before `b` in byte-wise dictionary order.
pub open spec fn before(a: Seq<u8>, b: Seq<u8>) -> bool {
    exists|i: int|
        0 <= i < a.len() && i < b.len() && #[trigger] a[i] < b[i] && (forall|j: int|
            0 <= j < i ==> a[j] == b[j])
}

/// `a` comes before `b` in byte-wise dictionary order, or is `b`; for strings of one length.
pub open spec fn not_after(a: Seq<u8>, b: Seq<u8>) -> bool {
    a == b || before(a, b)
}

/// Dictionary order on byte strings of one length is total and antisymmetric.
pub proof fn lemma_order(a: Seq<u8>, b: Seq<u8>)
    requires
        a.len() == b.len(),
    ensures
        not_after(a, b) || not_after(b, a),
        not_after(a, b) && not_after(b, a) ==> a == b,
{
    if before(a, b) && before(b, a) {
        let i = choose|i: int|
            0 <= i < a.len() && i < b.len() && #[trigger] a[i] < b[i] && (forall|j: int|
                0 <= j < i ==> a[j] == b[j]);
        let k = choose|i: int|
            0 <= i < b.len() && i < a.len() && #[trigger] b[i] < a[i] && (forall|j: int|
                0 <= j < i ==> b[j] == a[j]);
        assert(i < k || k < i || i == k);
        assert(false);
    }
    if a != b {
        assert(!(a =~= b));
        let d = first_difference(a, b, 0);
        lemma_first_difference(a, b, 0);
        if a[d] < b[d] {
            assert(before(a, b));
        } else {
            assert(before(b, a));
        }
    }
}

spec fn first_difference(a: Seq<u8>, b: Seq<u8>, from: int) -> int
    decreases a.len() - from,
{
    if from < 0 || from >= a.len() || a[from] != b[from] {
        from
    } else {
        first_difference(a, b, from + 1)
    }
}

proof fn lemma_first_difference(a: Seq<u8>, b: Seq<u8>, from: int)
    requires
        a.len() == b.len(),
        0 <= from <= a.len(),
        !(a =~= b),
        forall|j: int| 0 <= j < from ==> a[j] == b[j],
    ensures
        ({
            let d = first_difference(a, b, from);
            &&& from <= d < a.len()
            &&& a[d] != b[d]
            &&& forall|j: int| 0 <= j < d ==> a[j] == b[j]
        }),
    decreases a.len() - from,
{
    if from < a.len() && a[from] == b[from] {
        lemma_first_difference(a, b, from + 1);
    }
}

/// Whether `a` is not after `b` in dictionary order.
pub fn is_not_after<const N: usize>(a: &[u8; N], b: &[u8; N]) -> (le: bool)
    ensures
        le == not_after(a@, b@),
{
    let mut i: usize = 0;
    while i < N
        invariant
            i <= N,
            forall|j: int| 0 <= j < i ==> a@[j] == b@[j],
        decreases N - i,
    {
        if a[i] < b[i] {
            assert(before(a@, b@));
            return true;
        }
        if a[i] > b[i] {
            assert(before(b@, a@));
            proof {
                lemma_order(a@, b@);
            }
            return false;
        }
        i += 1;
    }
    assert(a@ =~= b@);
    true
}

// ---------------------------------------------------------------------------------------------
// Fixed-width integers
// ---------------------------------------------------------------------------------------------

/// The eight bytes of `x`, least significant first.
pub open spec fn le64(x: u64) -> Seq<u8> {
    seq![
        (x % 0x100) as u8,
        (x / 0x100 % 0x100) as u8,
        (x / 0x1_0000 % 0x100) as u8,
        (x / 0x100_0000 % 0x100) as u8,
        (x / 0x1_0000_0000 % 0x100) as u8,
        (x / 0x100_0000_0000 % 0x100) as u8,
        (x / 0x1_0000_0000_0000 % 0x100) as u8,
        (x / 0x100_0000_0000_0000 % 0x100) as u8,
    ]
}

/// The eight bytes of `x`, most significant first.
pub open spec fn be64(x: u64) -> Seq<u8> {
    seq![
        (x / 0x100_0000_0000_0000 % 0x100) as u8,
        (x / 0x1_0000_0000_0000 % 0x100) as u8,
        (x / 0x100_0000_0000 % 0x100) as u8,
        (x / 0x1_0000_0000 % 0x100) as u8,
        (x / 0x100_0000 % 0x100) as u8,
        (x / 0x1_0000 % 0x100) as u8,
        (x / 0x100 % 0x100) as u8,
        (x % 0x100) as u8,
    ]
}

/// The four bytes of `x`, most significant first.
pub open spec fn be32(x: u32) -> Seq<u8> {
    seq![
        (x / 0x100_0000 % 0x100) as u8,
        (x / 0x1_0000 % 0x100) as u8,
        (x / 0x100 % 0x100) as u8,
        (x % 0x100) as u8,
    ]
}

/// The number the first four bytes stand for, most significant first.
pub open spec fn be32_value(b: Seq<u8>) -> nat {
    (b[0] * 0x100_0000 + b[1] * 0x1_0000 + b[2] * 0x100 + b[3]) as nat
}

/// Appends the eight bytes of `x`, least significant first.
pub fn append_le64(buf: &mut Vec<u8>, x: u64)
    ensures
        final(buf)@ == old(buf)@ + le64(x),
{
    buf.push((x % 0x100) as u8);
    buf.push((x / 0x100 % 0x100) as u8);
    buf.push((x / 0x1_0000 % 0x100) as u8);
    buf.push((x / 0x100_0000 % 0x100) as u8);
    buf.push((x / 0x1_0000_0000 % 0x100) as u8);
    buf.push((x / 0x100_0000_0000 % 0x100) as u8);
    buf.push((x / 0x1_0000_0000_0000 % 0x100) as u8);
    buf.push((x / 0x100_0000_0000_0000 % 0x100) as u8);
    assert(buf@ =~= old(buf)@ + le64(x));
}

/// Appends the eight bytes of `x`, most significant first.
pub fn append_be64(buf: &mut Vec<u8>, x: u64)
    ensures
        final(buf)@ == old(buf)@ + be64(x),
{
    buf.push((x / 0x100_0000_0000_0000 % 0x100) as u8);
    buf.push((x / 0x1_0000_0000_0000 % 0x100) as u8);
    buf.push((x / 0x100_0000_0000 % 0x100) as u8);
    buf.push((x / 0x1_0000_0000 % 0x100) as u8);
    buf.push((x / 0x100_0000 % 0x100) as u8);
    buf.push((x / 0x1_0000 % 0x100) as u8);
    buf.push((x / 0x100 % 0x100) as u8);
    buf.push((x % 0x100) as u8);
    assert(buf@ =~= old(buf)@ + be64(x));
}

/// The eight-byte encodings determine the number.
pub proof fn lemma_64_injective(x: u64, y: u64)
    ensures
        le64(x) == le64(y) ==> x == y,
        be64(x) == be64(y) ==> x == y,
        le64(x).len() == 8,
        be64(x).len() == 8,
{
    lemma_64_parts(x);
    lemma_64_parts(y);
    let a = le64(x);
    let b = le64(y);
    let c = be64(x);
    let d = be64(y);
    if a == b {
        assert(a[0] == b[0] && a[1] == b[1] && a[2] == b[2] && a[3] == b[3]);
        assert(a[4] == b[4] && a[5] == b[5] && a[6] == b[6] && a[7] == b[7]);
    }
    if c == d {
        assert(c[0] == d[0] && c[1] == d[1] && c[2] == d[2] && c[3] == d[3]);
        assert(c[4] == d[4] && c[5] == d[5] && c[6] == d[6] && c[7] == d[7]);
    }
}

proof fn lemma_64_parts(x: u64)
    ensures
        x == (x % 0x100) + (x / 0x100 % 0x100) * 0x100 + (x / 0x1_0000 % 0x100) * 0x1_0000 + (x
            / 0x100_0000 % 0x100) * 0x100_0000 + (x / 0x1_0000_0000 % 0x100) * 0x1_0000_0000 + (x
            / 0x100_0000_0000 % 0x100) * 0x100_0000_0000 + (x / 0x1_0000_0000_0000 % 0x100)
            * 0x1_0000_0000_0000 + (x / 0x100_0000_0000_0000 % 0x100) * 0x100_0000_0000_0000,
{
    let q1 = x / 0x100;
    let q2 = q1 / 0x100;
    let q3 = q2 / 0x100;
    let q4 = q3 / 0x100;
    let q5 = q4 / 0x100;
    let q6 = q5 / 0x100;
    let q7 = q6 / 0x100;
    assert(x / 0x1_0000 == q2);
    assert(x / 0x100_0000 == q3);
    assert(x / 0x1_0000_0000 == q4);
    assert(x / 0x100_0000_0000 == q5);
    assert(x / 0x1_0000_0000_0000 == q6);
    assert(x / 0x100_0000_0000_0000 == q7);
    assert(q7 < 0x100);
}

// ---------------------------------------------------------------------------------------------
// Hexadecimal text
// ---------------------------------------------------------------------------------------------

/// The lower-case hexadecimal digit of a number below sixteen.
pub open spec fn hex_digit(n: int) -> char {
    if n < 10 {
        (n + 48) as char
    } else {
        (n + 87) as char
    }
}

/// The lower-case hexadecimal text of `bytes`, two digits to the byte.
pub open spec fn hex_text(bytes: Seq<u8>) -> Seq<char> {
    Seq::new(
        bytes.len() * 2,
        |i: int|
            if i % 2 == 0 {
                hex_digit(bytes[i / 2] as int / 16)
            } else {
                hex_digit(bytes[i / 2] as int % 16)
            },
    )
}

/// The digit of a number below sixteen.
pub fn digit_text(n: u8) -> (text: &'static str)
    requires
        n < 16,
    ensures
        text@ == seq![hex_digit(n as int)],
{
    proof {
        reveal_strlit("0");
        reveal_strlit("1");
        reveal_strlit("2");
        reveal_strlit("3");
        reveal_strlit("4");
        reveal_strlit("5");
        reveal_strlit("6");
        reveal_strlit("7");
        reveal_strlit("8");
        reveal_strlit("9");
        reveal_strlit("a");
        reveal_strlit("b");
        reveal_strlit("c");
        reveal_strlit("d");
        reveal_strlit("e");
        reveal_strlit("f");
    }
    match n {
        0 => "0",
        1 => "1",
        2 => "2",
        3 => "3",
        4 => "4",
        5 => "5",
        6 => "6",
        7 => "7",
        8 => "8",
        9 => "9",
        10 => "a",
        11 => "b",
        12 => "c",
        13 => "d",
        14 => "e",
        _ => "f",
    }
}

/// One byte as two lower-case hexadecimal digits.
fn hex_byte(byte: u8) -> (text: String)
    ensures
        text@ == seq![hex_digit(byte as int / 16), hex_digit(byte as int % 16)],
{
    let mut text = String::new();
    text.append(digit_text(byte / 16));
    text.append(digit_text(byte % 16));
    text
}

/// The lower-case hexadecimal text of `bytes`.
pub fn hex_encode(bytes: &[u8]) -> (text: String)
    ensures
        text@ == hex_text(bytes@),
{
    let mut text = String::new();
    let mut i: usize = 0;
    while i < bytes.len()
        invariant
            i <= bytes@.len(),
            text@ == hex_text(bytes@.subrange(0, i as int)),
        decreases bytes@.len() - i,
    {
        let ghost prior = text@;
        let digits = hex_byte(bytes[i]);
        text.append(digits.as_str());
        i += 1;
        proof {
            let head = bytes@.subrange(0, i as int);
            assert(prior.len() == 2 * (i - 1));
            assert forall|k: int| 0 <= k < text@.len() implies text@[k] == hex_text(head)[k] by {
                if k < prior.len() {
                    assert(prior[k] == hex_text(bytes@.subrange(0, i - 1))[k]);
                    assert(k / 2 < i - 1);
                }
            }
            assert(text@ =~= hex_text(head));
        }
    }
    assert(bytes@.subrange(0, i as int) =~= bytes@);
    text
}

/// The lower-case hexadecimal text of the first `n` bytes, or of all where there are fewer.
pub fn hex_prefix(bytes: &[u8], n: usize) -> (text: String)
    ensures
        text@ == hex_text(bytes@.take(if n < bytes@.len() { n as int } else { bytes@.len() as int })),
{
    let end: usize = if n < bytes.len() {
        n
    } else {
        bytes.len()
    };
    let head = subslice(bytes, 0, end);
    assert(head@ =~= bytes@.take(end as int));
    hex_encode(head.as_slice())
}

/// The value of an ASCII hexadecimal digit of either case.
pub open spec fn hex_value(digit: u8) -> Option<u8> {
    if 48 <= digit <= 57 {
        Some((digit - 48) as u8)
    } else if 97 <= digit <= 102 {
        Some((digit - 87) as u8)
    } else if 65 <= digit <= 70 {
        Some((digit - 55) as u8)
    } else {
        None
    }
}

/// The digits at `2 * i` and `2 * i + 1` of `text` are those of the byte `value`.
pub open spec fn hex_pair(text: Seq<u8>, i: int, value: u8) -> bool {
    &&& hex_value(text[2 * i]) is Some
    &&& hex_value(text[2 * i + 1]) is Some
    &&& value == hex_value(text[2 * i])->0 * 16 + hex_value(text[2 * i + 1])->0
}

/// `text` is the hexadecimal text, in digits of either case, of the bytes `value`.
pub open spec fn is_hex_of(text: Seq<u8>, value: Seq<u8>) -> bool {
    &&& text.len() == 2 * value.len()
    &&& forall|i: int| 0 <= i < value.len() ==> #[trigger] hex_pair(text, i, value[i])
}

/// Whether every byte of `text` is a hexadecimal digit.
pub open spec fn all_hex(text: Seq<u8>) -> bool {
    forall|i: int| 0 <= i < text.len() ==> hex_value(#[trigger] text[i]) is Some
}

/// The `n` bytes that `text` is the hexadecimal text of; `None` where it is of none.
pub open spec fn hex_parsed(text: Seq<u8>, n: nat) -> Option<Seq<u8>> {
    if text.len() == 2 * n && all_hex(text) {
        Some(
            Seq::new(
                n,
                |i: int| (hex_value(text[2 * i])->0 * 16 + hex_value(text[2 * i + 1])->0) as u8,
            ),
        )
    } else {
        None
    }
}

fn hex_digit_value(digit: u8) -> (value: Option<u8>)
    ensures
        value == hex_value(digit),
        value matches Some(v) ==> v < 16,
{
    if 48 <= digit && digit <= 57 {
        Some(digit - 48)
    } else if 97 <= digit && digit <= 102 {
        Some(digit - 87)
    } else if 65 <= digit && digit <= 70 {
        Some(digit - 55)
    } else {
        None
    }
}

/// Parses hexadecimal text of exactly `N` bytes. Text of another length, or with a character
/// that is no hexadecimal digit, is refused.
pub fn hex_decode<const N: usize>(text: &str) -> (value: Option<[u8; N]>)
    ensures
        value is Some <==> encode_utf8(text@).len() == 2 * N && all_hex(encode_utf8(text@)),
        value matches Some(v) ==> is_hex_of(encode_utf8(text@), v@),
        match value {
            Some(v) => hex_parsed(encode_utf8(text@), N as nat) == Some(v@),
            None => hex_parsed(encode_utf8(text@), N as nat) is None,
        },
{
    let digits = text.as_bytes();
    let count: usize = digits.len();
    if count % 2 != 0 || count / 2 != N {
        return None;
    }
    let mut value: [u8; N] = [0u8; N];
    let mut i: usize = 0;
    while i < N
        invariant
            i <= N,
            count == 2 * N,
            digits@.len() == count,
            digits@ == encode_utf8(text@),
            forall|j: int| 0 <= j < i ==> #[trigger] hex_pair(digits@, j, value@[j]),
        decreases N - i,
    {
        let high: u8 = match hex_digit_value(digits[2 * i]) {
            Some(v) => v,
            None => {
                assert(!all_hex(digits@));
                return None;
            },
        };
        let low: u8 = match hex_digit_value(digits[2 * i + 1]) {
            Some(v) => v,
            None => {
                assert(!all_hex(digits@));
                return None;
            },
        };
        let ghost prior = value@;
        value[i] = high * 16 + low;
        proof {
            assert forall|j: int| 0 <= j <= i implies #[trigger] hex_pair(digits@, j, value@[j]) by {
                if j < i {
                    assert(hex_pair(digits@, j, prior[j]));
                }
            }
        }
        i += 1;
    }
    proof {
        assert forall|k: int| 0 <= k < digits@.len() implies hex_value(#[trigger] digits@[k]) is Some by {
            let j = k / 2;
            assert(hex_pair(digits@, j, value@[j]));
            assert(k == 2 * j || k == 2 * j + 1);
        }
        let parsed = hex_parsed(digits@, N as nat)->0;
        assert forall|j: int| 0 <= j < N implies parsed[j] == value@[j] by {
            assert(hex_pair(digits@, j, value@[j]));
        }
        assert(parsed =~= value@);
    }
    Some(value)
}

/// Parsing the hexadecimal text of a byte string gives the byte string back: its text has the
/// right length and only hexadecimal digits, and no other bytes have that text.
pub proof fn law_hex_round_trip(bytes: Seq<u8>, parsed: Seq<u8>)
    requires
        is_hex_of(encode_utf8(hex_text(bytes)), parsed),
    ensures
        encode_utf8(hex_text(bytes)).len() == 2 * bytes.len(),
        all_hex(encode_utf8(hex_text(bytes))),
        parsed == bytes,
{
    lemma_hex_text_digits(bytes);
    let text = encode_utf8(hex_text(bytes));
    assert forall|i: int| 0 <= i < bytes.len() implies parsed[i] == bytes[i] by {
        assert(hex_pair(text, i, parsed[i]));
        assert(hex_value(text[2 * i]) == Some((bytes[i] as int / 16) as u8));
        assert(hex_value(text[2 * i + 1]) == Some((bytes[i] as int % 16) as u8));
    }
    assert(parsed =~= bytes);
}

/// The hexadecimal text of a byte string is always accepted by the parser.
pub proof fn law_hex_text_is_hex(bytes: Seq<u8>)
    ensures
        encode_utf8(hex_text(bytes)).len() == 2 * bytes.len(),
        all_hex(encode_utf8(hex_text(bytes))),
{
    lemma_hex_text_digits(bytes);
}

proof fn lemma_hex_text_digits(bytes: Seq<u8>)
    ensures
        ({
            let text = encode_utf8(hex_text(bytes));
            &&& text.len() == 2 * bytes.len()
            &&& all_hex(text)
            &&& forall|i: int|
                0 <= i < bytes.len() ==> {
                    &&& hex_value(text[2 * i]) == Some((#[trigger] bytes[i] as int / 16) as u8)
                    &&& hex_value(text[2 * i + 1]) == Some((bytes[i] as int % 16) as u8)
                }
        }),
{
    let chars = hex_text(bytes);
    assert forall|i: int| 0 <= i < chars.len() implies '\0' <= #[trigger] chars[i] <= '\u{7f}' by {
        assert(0 <= bytes[i / 2] as int / 16 < 16);
        assert(0 <= bytes[i / 2] as int % 16 < 16);
    }
    assert(is_ascii_chars(chars));
    is_ascii_chars_encode_utf8(chars);
    let text = encode_utf8(chars);
    assert forall|i: int| 0 <= i < bytes.len() implies {
        &&& hex_value(text[2 * i]) == Some((#[trigger] bytes[i] as int / 16) as u8)
        &&& hex_value(text[2 * i + 1]) == Some((bytes[i] as int % 16) as u8)
    } by {
        assert(chars[2 * i] == hex_digit(bytes[i] as int / 16));
        assert(chars[2 * i + 1] == hex_digit(bytes[i] as int % 16));
        assert(chars[2 * i] as u8 == text[2 * i]);
        assert(chars[2 * i + 1] as u8 == text[2 * i + 1]);
    }
    assert forall|k: int| 0 <= k < text.len() implies hex_value(#[trigger] text[k]) is Some by {
        let j = k / 2;
        assert(bytes[j] == bytes[j]);
        assert(k == 2 * j || k == 2 * j + 1);
    }
}

/// Hexadecimal text is two digits to the byte, the higher four bits first, and reads back as the
/// bytes it was made of.
pub proof fn law_hex_text_reads_back(bytes: Seq<u8>)
    ensures
        hex_text(bytes).len() == 2 * bytes.len(),
        hex_parsed(encode_utf8(hex_text(bytes)), bytes.len()) == Some(bytes),
        forall|i: int|
            0 <= i < bytes.len() ==> {
                let (high, low) = (bytes[i] as int / 16, bytes[i] as int % 16);
                &&& (#[trigger] hex_text(bytes)[2 * i]) as int == if high < 10 {
                    '0' as int + high
                } else {
                    'a' as int + high - 10
                }
                &&& hex_text(bytes)[2 * i + 1] as int == if low < 10 {
                    '0' as int + low
                } else {
                    'a' as int + low - 10
                }
            },
{
    lemma_hex_text_digits(bytes);
    let text = encode_utf8(hex_text(bytes));
    let parsed = hex_parsed(text, bytes.len())->0;
    assert forall|i: int| 0 <= i < bytes.len() implies parsed[i] == bytes[i] by {
        assert(hex_value(text[2 * i]) == Some((bytes[i] as int / 16) as u8));
        assert(hex_value(text[2 * i + 1]) == Some((bytes[i] as int % 16) as u8));
    }
    assert(parsed =~= bytes);
    assert forall|i: int| 0 <= i < bytes.len() implies {
        let (high, low) = (bytes[i] as int / 16, bytes[i] as int % 16);
        &&& (#[trigger] hex_text(bytes)[2 * i]) as int == if high < 10 {
            '0' as int + high
        } else {
            'a' as int + high - 10
        }
        &&& hex_text(bytes)[2 * i + 1] as int == if low < 10 {
            '0' as int + low
        } else {
            'a' as int + low - 10
        }
    } by {
        assert(2 * i / 2 == i && (2 * i + 1) / 2 == i);
        assert(hex_text(bytes)[2 * i] == hex_digit(bytes[i] as int / 16));
        assert(hex_text(bytes)[2 * i + 1] == hex_digit(bytes[i] as int % 16));
    }
}

/// Hexadecimal text is read digit by digit, in either case: what has two digits for each of the `n`
/// bytes, and nothing else, is read, and each byte is what its two digits say.
pub proof fn law_hex_is_read_in_either_case(text: Seq<u8>, n: nat, i: int, high: int, low: int)
    requires
        0 <= i < n,
        0 <= high < 16,
        0 <= low < 16,
    ensures
        hex_parsed(text, n) is Some <==> text.len() == 2 * n && forall|k: int|
            0 <= k < text.len() ==> '0' as int <= (#[trigger] text[k]) <= '9' as int || 'a' as int
                <= text[k] <= 'f' as int || 'A' as int <= text[k] <= 'F' as int,
        hex_parsed(text, n) is Some && digit_says(text[2 * i], high) && digit_says(
            text[2 * i + 1],
            low,
        ) ==> hex_parsed(text, n)->0.len() == n && hex_parsed(text, n)->0[i] == high * 16 + low,
{
    if text.len() == 2 * n && (forall|k: int|
        0 <= k < text.len() ==> '0' as int <= (#[trigger] text[k]) <= '9' as int || 'a' as int
            <= text[k] <= 'f' as int || 'A' as int <= text[k] <= 'F' as int) {
        assert(all_hex(text));
    } else if text.len() == 2 * n {
        let k = choose|k: int|
            0 <= k < text.len() && !('0' as int <= (#[trigger] text[k]) <= '9' as int || 'a' as int
                <= text[k] <= 'f' as int || 'A' as int <= text[k] <= 'F' as int);
        assert(hex_value(text[k]) is None);
    }
}

/// A digit of either case stands for a number below sixteen.
pub open spec fn digit_says(digit: u8, number: int) -> bool {
    if number < 10 {
        digit == '0' as int + number
    } else {
        digit == 'a' as int + number - 10 || digit == 'A' as int + number - 10
    }
}

/// A number is the sum of its bytes at their places: the first counts least where the order is that
/// of signed fields, and most where it is network order.
pub proof fn law_number_is_the_sum_of_its_bytes(x: u64, y: u32)
    ensures
        le64(x).len() == 8,
        x == le64(x)[0] + le64(x)[1] * 0x100 + le64(x)[2] * 0x1_0000 + le64(x)[3] * 0x100_0000
            + le64(x)[4] * 0x1_0000_0000 + le64(x)[5] * 0x100_0000_0000 + le64(x)[6]
            * 0x1_0000_0000_0000 + le64(x)[7] * 0x100_0000_0000_0000,
        be64(x) == le64(x).reverse(),
        be32(y).len() == 4,
        y == be32(y)[3] + be32(y)[2] * 0x100 + be32(y)[1] * 0x1_0000 + be32(y)[0] * 0x100_0000,
        be32_value(be32(y)) == y,
{
    lemma_64_parts(x);
    assert(be64(x) =~= le64(x).reverse());
}

} // verus!
