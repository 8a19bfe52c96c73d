//! Digests of labels: what cache files and cached audio are named after.
use sha2::Digest;
use vstd::prelude::*;

verus! {

/// What SHA-256 makes of a sequence of bytes.
pub uninterp spec fn sha256_digest(data: Seq<u8>) -> Seq<u8>;

/// Calls `sha2::Sha256::digest`: the SHA-256 digest of all of `data`, which is
/// 32 bytes long.
#[verifier::external_body]
fn sha256(data: &[u8]) -> (digest: Vec<u8>)
    ensures
        digest@ == sha256_digest(data@),
        digest@.len() == 32,
{
    sha2::Sha256::digest(data).to_vec()
}

/// The character that writes four bits in lower-case hexadecimal.
pub open spec fn hex_digit(bits: int) -> char {
    if bits < 10 {
        ('0' as u32 + bits) as char
    } else {
        ('a' as u32 + (bits - 10)) as char
    }
}

/// Bytes in lower-case hexadecimal, two characters each.
pub open spec fn hex_text(bytes: Seq<u8>) -> Seq<char> {
    Seq::new(
        bytes.len() * 2,
        |i: int|
            if i % 2 == 0 {
                hex_digit(bytes[i / 2] as int / 16)
            } else {
                hex_digit(bytes[i / 2] as int % 16)
            },
    )
}

/// Whether a text holds nothing but digits and the letters `a` to `f`.
pub open spec fn is_hex(s: Seq<char>) -> bool {
    forall|i: int| 0 <= i < s.len() ==> '0' <= #[trigger] s[i] <= '9' || 'a' <= s[i] <= 'f'
}

fn hex_char(bits: u8) -> (ch: char)
    requires
        bits < 16,
    ensures
        ch == hex_digit(bits as int),
{
    if bits < 10 {
        (48u8 + bits) as char
    } else {
        (97u8 + (bits - 10)) as char
    }
}

/// Writes bytes in lower-case hexadecimal.
pub fn hex(bytes: &[u8]) -> (output: String)
    ensures
        output@ == hex_text(bytes@),
        is_hex(output@),
{
    let mut output: String = String::new();
    let mut i: usize = 0;
    while i < bytes.len()
        invariant
            i <= bytes@.len(),
            output@ == hex_text(bytes@.take(i as int)),
        decreases bytes@.len() - i,
    {
        let byte: u8 = bytes[i];
        output.push(hex_char(byte / 16));
        output.push(hex_char(byte % 16));
        assert(output@ =~= hex_text(bytes@.take(i + 1)));
        i = i + 1;
    }
    assert(bytes@.take(bytes@.len() as int) == bytes@);
    output
}

/// Four labels as bytes, with a zero byte between each two.
pub open spec fn framed(
    first: Seq<char>,
    second: Seq<char>,
    third: Seq<char>,
    fourth: Seq<char>,
) -> Seq<u8> {
    vstd::utf8::encode_utf8(first).push(0) + vstd::utf8::encode_utf8(second).push(0) + vstd::utf8::encode_utf8(third).push(0)
        + vstd::utf8::encode_utf8(fourth)
}

/// The digest of four labels, in hexadecimal.
pub open spec fn label_digest(
    first: Seq<char>,
    second: Seq<char>,
    third: Seq<char>,
    fourth: Seq<char>,
) -> Seq<char> {
    hex_text(sha256_digest(framed(first, second, third, fourth)))
}

fn extend_bytes(bytes: &mut Vec<u8>, more: &[u8])
    ensures
        final(bytes)@ == old(bytes)@ + more@,
{
    let ghost start = bytes@;
    let mut i: usize = 0;
    while i < more.len()
        invariant
            i <= more@.len(),
            bytes@ == start + more@.take(i as int),
        decreases more@.len() - i,
    {
        bytes.push(more[i]);
        i = i + 1;
    }
    assert(more@.take(more@.len() as int) == more@);
}

/// The digest of four labels: 64 hexadecimal characters.
pub fn digest_labels(first: &str, second: &str, third: &str, fourth: &str) -> (digest: String)
    ensures
        digest@ == label_digest(first@, second@, third@, fourth@),
        digest@.len() == 64,
        is_hex(digest@),
{
    let mut bytes: Vec<u8> = Vec::new();
    extend_bytes(&mut bytes, first.as_bytes());
    bytes.push(0);
    extend_bytes(&mut bytes, second.as_bytes());
    bytes.push(0);
    extend_bytes(&mut bytes, third.as_bytes());
    bytes.push(0);
    extend_bytes(&mut bytes, fourth.as_bytes());
    assert(bytes@ =~= framed(first@, second@, third@, fourth@));
    let digest: Vec<u8> = sha256(bytes.as_slice());
    hex(digest.as_slice())
}

/// Two sequences of bytes with the same hexadecimal text are the same.
pub proof fn lemma_hex_is_injective(left: Seq<u8>, right: Seq<u8>)
    requires
        hex_text(left) == hex_text(right),
    ensures
        left == right,
{
    assert(hex_text(left).len() == left.len() * 2);
    assert(hex_text(right).len() == right.len() * 2);
    assert forall|i: int| 0 <= i < left.len() implies left[i] == right[i] by {
        let high = hex_text(left)[2 * i];
        let low = hex_text(left)[2 * i + 1];
        assert(high == hex_digit(left[i] as int / 16));
        assert(hex_text(right)[2 * i] == hex_digit(right[i] as int / 16));
        assert(low == hex_digit(left[i] as int % 16));
        assert(hex_text(right)[2 * i + 1] == hex_digit(right[i] as int % 16));
    }
    assert(left =~= right);
}

/// Whether a text is free of the character with code zero.
pub open spec fn has_no_nul(s: Seq<char>) -> bool {
    forall|i: int| 0 <= i < s.len() ==> #[trigger] s[i] != '\0'
}

proof fn lemma_scalar_has_no_zero_byte(scalar: u32)
    requires
        scalar != 0,
    ensures
        forall|i: int|
            0 <= i < vstd::utf8::encode_scalar(scalar).len()
                ==> #[trigger] vstd::utf8::encode_scalar(scalar)[i] != 0,
{
    assert(scalar <= 0x7f && scalar != 0 ==> (scalar & 0x7f) as u8 != 0) by (bit_vector);
    assert(0xc0u8 | ((scalar >> 6) & 0x1f) as u8 != 0) by (bit_vector);
    assert(0xe0u8 | ((scalar >> 12) & 0x0f) as u8 != 0) by (bit_vector);
    assert(0xf0u8 | ((scalar >> 18) & 0x07) as u8 != 0) by (bit_vector);
    assert(0x80u8 | (scalar & 0x3f) as u8 != 0) by (bit_vector);
    assert(0x80u8 | ((scalar >> 6) & 0x3f) as u8 != 0) by (bit_vector);
    assert(0x80u8 | ((scalar >> 12) & 0x3f) as u8 != 0) by (bit_vector);
}

proof fn lemma_no_zero_byte(s: Seq<char>)
    requires
        has_no_nul(s),
    ensures
        forall|i: int| 0 <= i < vstd::utf8::encode_utf8(s).len() ==> #[trigger] vstd::utf8::encode_utf8(s)[i] != 0,
    decreases s.len(),
{
    if s.len() > 0 {
        let first: char = s[0];
        assert(first != '\0');
        vstd::utf8::char_u32_cast(first, first as u32);
        lemma_scalar_has_no_zero_byte(first as u32);
        assert forall|i: int| 0 <= i < s.drop_first().len() implies #[trigger] s.drop_first()[i]
            != '\0' by {
            assert(s[i + 1] != '\0');
        }
        lemma_no_zero_byte(s.drop_first());
        let head = vstd::utf8::encode_scalar(first as u32);
        let tail = vstd::utf8::encode_utf8(s.drop_first());
        assert(vstd::utf8::encode_utf8(s) == head + tail);
        assert forall|i: int| 0 <= i < vstd::utf8::encode_utf8(s).len() implies #[trigger] vstd::utf8::encode_utf8(s)[i]
            != 0 by {
            assert(i < head.len() ==> head[i] != 0);
            assert(i >= head.len() ==> tail[i - head.len()] != 0);
        }
    }
}

proof fn lemma_same_encoding(left: Seq<char>, right: Seq<char>)
    requires
        vstd::utf8::encode_utf8(left) == vstd::utf8::encode_utf8(right),
    ensures
        left == right,
{
    vstd::utf8::encode_utf8_decode_utf8(left);
    vstd::utf8::encode_utf8_decode_utf8(right);
}

proof fn lemma_same_first_frame(a: Seq<u8>, x: Seq<u8>, b: Seq<u8>, y: Seq<u8>)
    requires
        forall|i: int| 0 <= i < a.len() ==> #[trigger] a[i] != 0,
        forall|i: int| 0 <= i < b.len() ==> #[trigger] b[i] != 0,
        a.push(0) + x == b.push(0) + y,
    ensures
        a == b,
        x == y,
{
    let whole = a.push(0) + x;
    assert(whole[a.len() as int] == 0);
    assert(whole[b.len() as int] == 0) by {
        assert((b.push(0) + y)[b.len() as int] == 0);
    }
    if a.len() < b.len() {
        assert(whole[a.len() as int] == b[a.len() as int]);
    }
    if b.len() < a.len() {
        assert(whole[b.len() as int] == a[b.len() as int]);
    }
    assert forall|i: int| 0 <= i < a.len() implies a[i] == b[i] by {
        assert(whole[i] == a[i]);
        assert((b.push(0) + y)[i] == b[i]);
    }
    assert(a =~= b);
    assert(x =~= whole.skip(a.len() as int + 1));
    assert(y =~= (b.push(0) + y).skip(b.len() as int + 1));
}

/// The bytes that are digested tell the labels apart: where no label but the
/// last holds a zero character, different labels give different bytes.
pub proof fn lemma_framed_is_injective(
    left: (Seq<char>, Seq<char>, Seq<char>, Seq<char>),
    right: (Seq<char>, Seq<char>, Seq<char>, Seq<char>),
)
    requires
        has_no_nul(left.0) && has_no_nul(left.1) && has_no_nul(left.2),
        has_no_nul(right.0) && has_no_nul(right.1) && has_no_nul(right.2),
        framed(left.0, left.1, left.2, left.3) == framed(right.0, right.1, right.2, right.3),
    ensures
        left == right,
{
    let (a, b) = (vstd::utf8::encode_utf8(left.0), vstd::utf8::encode_utf8(right.0));
    let (c, d) = (vstd::utf8::encode_utf8(left.1), vstd::utf8::encode_utf8(right.1));
    let (e, f) = (vstd::utf8::encode_utf8(left.2), vstd::utf8::encode_utf8(right.2));
    let (g, h) = (vstd::utf8::encode_utf8(left.3), vstd::utf8::encode_utf8(right.3));
    lemma_no_zero_byte(left.0);
    lemma_no_zero_byte(left.1);
    lemma_no_zero_byte(left.2);
    lemma_no_zero_byte(right.0);
    lemma_no_zero_byte(right.1);
    lemma_no_zero_byte(right.2);
    assert(framed(left.0, left.1, left.2, left.3) =~= a.push(0) + (c.push(0) + (e.push(0) + g)));
    assert(framed(right.0, right.1, right.2, right.3) =~= b.push(0) + (d.push(0) + (f.push(0)
        + h)));
    lemma_same_first_frame(a, c.push(0) + (e.push(0) + g), b, d.push(0) + (f.push(0) + h));
    lemma_same_first_frame(c, e.push(0) + g, d, f.push(0) + h);
    lemma_same_first_frame(e, g, f, h);
    lemma_same_encoding(left.0, right.0);
    lemma_same_encoding(left.1, right.1);
    lemma_same_encoding(left.2, right.2);
    lemma_same_encoding(left.3, right.3);
}

/// Whether two different sequences of bytes have the same SHA-256 digest.
pub open spec fn is_collision(left: Seq<u8>, right: Seq<u8>) -> bool {
    left != right && sha256_digest(left) == sha256_digest(right)
}

/// Different labels have different digests, unless two different sequences of
/// bytes have the same SHA-256 digest. No label but the last may hold a zero
/// character.
pub proof fn lemma_digests_tell_labels_apart(
    left: (Seq<char>, Seq<char>, Seq<char>, Seq<char>),
    right: (Seq<char>, Seq<char>, Seq<char>, Seq<char>),
)
    requires
        has_no_nul(left.0) && has_no_nul(left.1) && has_no_nul(left.2),
        has_no_nul(right.0) && has_no_nul(right.1) && has_no_nul(right.2),
        label_digest(left.0, left.1, left.2, left.3) == label_digest(
            right.0,
            right.1,
            right.2,
            right.3,
        ),
    ensures
        left == right || exists|a: Seq<u8>, b: Seq<u8>| is_collision(a, b),
{
    let a = framed(left.0, left.1, left.2, left.3);
    let b = framed(right.0, right.1, right.2, right.3);
    lemma_hex_is_injective(sha256_digest(a), sha256_digest(b));
    if a == b {
        lemma_framed_is_injective(left, right);
    } else {
        assert(is_collision(a, b));
    }
}

/// The bytes that are digested are the labels in UTF-8, in their order, with a zero
/// byte between each two.
pub proof fn lemma_digested_bytes(
    first: Seq<char>,
    second: Seq<char>,
    third: Seq<char>,
    fourth: Seq<char>,
)
    ensures
        label_digest(first, second, third, fourth) == hex_text(
            sha256_digest(
                vstd::utf8::encode_utf8(first) + seq![0u8] + vstd::utf8::encode_utf8(second)
                    + seq![0u8] + vstd::utf8::encode_utf8(third) + seq![0u8]
                    + vstd::utf8::encode_utf8(fourth),
            ),
        ),
{
    assert(framed(first, second, third, fourth) =~= vstd::utf8::encode_utf8(first) + seq![0u8]
        + vstd::utf8::encode_utf8(second) + seq![0u8] + vstd::utf8::encode_utf8(third) + seq![0u8]
        + vstd::utf8::encode_utf8(fourth));
}

/// The number that a hexadecimal character writes.
pub open spec fn hex_value(ch: char) -> int {
    if '0' <= ch <= '9' {
        ch as u32 - '0' as u32
    } else {
        ch as u32 - 'a' as u32 + 10
    }
}

/// Hexadecimal has two characters for each byte: the first counts sixteen times
/// what it says, and with the second they make the byte.
pub proof fn lemma_hex_reads_back(bytes: Seq<u8>)
    ensures
        hex_text(bytes).len() == 2 * bytes.len(),
        is_hex(hex_text(bytes)),
        forall|i: int|
            0 <= i < bytes.len() ==> hex_value(hex_text(bytes)[2 * i]) * 16 + hex_value(
                hex_text(bytes)[2 * i + 1],
            ) == #[trigger] bytes[i],
{
    assert forall|i: int| 0 <= i < bytes.len() implies hex_value(hex_text(bytes)[2 * i]) * 16
        + hex_value(hex_text(bytes)[2 * i + 1]) == #[trigger] bytes[i] by {
        assert(hex_text(bytes)[2 * i] == hex_digit(bytes[i] as int / 16));
        assert(hex_text(bytes)[2 * i + 1] == hex_digit(bytes[i] as int % 16));
    }
    assert forall|i: int| 0 <= i < hex_text(bytes).len() implies '0' <= #[trigger] hex_text(
        bytes,
    )[i] <= '9' || 'a' <= hex_text(bytes)[i] <= 'f' by {
    }
}

} // verus!
