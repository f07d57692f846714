//! Simulated message ids and thinking signatures.
//!
//! The Kiro upstream is not Anthropic's server: it sends neither an official
//! message id nor a real thinking signature (only Anthropic holds that key).
//! This module makes stand-ins of the right shape:
//!
//! - `generate_message_id`: `msg_bdrk_` and 52 random lower-case letters and
//!   digits, the format of AWS Bedrock responses.
//! - `generate_thinking_signature`: protobuf bytes laid out as in real
//!   signatures (field 6 = model name, field 7 = 0, field 8 = `"thinking"`,
//!   field 11 = a random id, ending in `18 01`), padded with random bytes to the
//!   usual length, in standard base64.
//!
//! Nothing here tries to reproduce the signed part of a real signature: that
//! is authenticated with Anthropic's private key.  Only the outward shape
//! matches; the upstream never checks signatures, and the converter reads only
//! the thinking text when it forwards history.
use base64::engine::general_purpose::STANDARD as BASE64;
use base64::Engine;
use uuid::Uuid;
use vstd::prelude::*;
use vstd::string::StringSliceAdditionalSpecFns;

use vstd::arithmetic::power2::{lemma2_to64, lemma_pow2_adds, lemma_pow2_pos, pow2};

use crate::text::push_char;

verus! {

broadcast use vstd::string::group_string_axioms;

/// Length of the random part of a message id, as in Bedrock's ids.
pub const BEDROCK_ID_LEN: usize = 52;

/// Number of characters an id may be drawn from: `a`-`z` and `0`-`9`.
pub const ID_CHARSET_LEN: usize = 36;

/// Protobuf wire type of a varint field.
pub const WIRE_VARINT: u8 = 0;

/// Protobuf wire type of a length-delimited field.
pub const WIRE_LEN: u8 = 2;

/// The `i`-th character of the id alphabet `abcdefghijklmnopqrstuvwxyz0123456789`.
pub open spec fn id_charset_char(i: int) -> char {
    if i < 26 {
        ((97 + i) as u8) as char
    } else {
        ((48 + i - 26) as u8) as char
    }
}

/// A character of the id alphabet: a lower-case ASCII letter or a digit.
pub open spec fn is_id_char(c: char) -> bool {
    ('a' <= c <= 'z') || ('0' <= c <= '9')
}

/// The prefix of every message id.
pub open spec fn message_id_prefix() -> Seq<char> {
    "msg_bdrk_"@
}

/// A message id: the prefix followed by exactly `BEDROCK_ID_LEN` characters
/// of the id alphabet.
pub open spec fn is_message_id(id: Seq<char>) -> bool {
    &&& id.len() == message_id_prefix().len() + BEDROCK_ID_LEN
    &&& id.take(message_id_prefix().len() as int) == message_id_prefix()
    &&& forall|i: int|
        message_id_prefix().len() <= i < id.len() ==> #[trigger] is_id_char(id[i])
}

/// `fastrand::usize(low..high)`: a random number in `low..high`.
#[verifier::external_body]
fn random_usize_in(low: usize, high: usize) -> (r: usize)
    requires
        low < high,
    ensures
        low <= r < high,
{
    fastrand::usize(low..high)
}

/// `fastrand::u8(..)`: a random byte.
#[verifier::external_body]
fn random_u8() -> (r: u8) {
    fastrand::u8(..)
}

/// The id-alphabet character at position `i`.
fn id_char(i: usize) -> (c: char)
    requires
        i < ID_CHARSET_LEN,
    ensures
        c == id_charset_char(i as int),
        is_id_char(c),
{
    if i < 26 {
        let b = (97 + i) as u8;
        b as char
    } else {
        let b = (48 + i - 26) as u8;
        b as char
    }
}

/// The message id whose random part is the id-alphabet characters at
/// positions `indices`.
pub open spec fn message_id_of(indices: Seq<usize>) -> Seq<char> {
    message_id_prefix() + indices.map_values(|i: usize| id_charset_char(i as int))
}

/// The indices are a valid draw for a message id: `BEDROCK_ID_LEN` positions
/// in the id alphabet.
pub open spec fn is_id_draw(indices: Seq<usize>) -> bool {
    &&& indices.len() == BEDROCK_ID_LEN
    &&& forall|i: int| 0 <= i < indices.len() ==> #[trigger] indices[i] < ID_CHARSET_LEN
}

/// The message id made of the id-alphabet characters at `indices`.
pub fn message_id_from(indices: &[usize]) -> (r: String)
    requires
        is_id_draw(indices@),
    ensures
        r@ == message_id_of(indices@),
        is_message_id(r@),
{
    let mut id = "msg_bdrk_".to_string();
    proof {
        reveal_strlit("msg_bdrk_");
    }
    let ghost chars = indices@.map_values(|i: usize| id_charset_char(i as int));
    let n = indices.len();
    let mut k: usize = 0;
    while k < n
        invariant
            n == indices@.len(),
            is_id_draw(indices@),
            chars == indices@.map_values(|i: usize| id_charset_char(i as int)),
            k <= n,
            id@ == message_id_prefix() + chars.take(k as int),
            forall|i: int|
                message_id_prefix().len() <= i < id@.len() ==> #[trigger] is_id_char(id@[i]),
        decreases n - k,
    {
        let c = id_char(indices[k]);
        push_char(&mut id, c);
        assert(chars.take(k + 1) == chars.take(k as int).push(c));
        k = k + 1;
    }
    assert(chars.take(n as int) == chars);
    assert(id@.take(message_id_prefix().len() as int) =~= message_id_prefix());
    assert(id@.len() == message_id_prefix().len() + BEDROCK_ID_LEN);
    id
}

/// A fresh message id: `msg_bdrk_` and `BEDROCK_ID_LEN` random characters of
/// the id alphabet.  Each call draws new random characters.
pub fn generate_message_id() -> (r: String)
    ensures
        is_message_id(r@),
        exists|indices: Seq<usize>| is_id_draw(indices) && r@ == #[trigger] message_id_of(indices),
{
    let mut indices: Vec<usize> = Vec::new();
    let mut k: usize = 0;
    while k < BEDROCK_ID_LEN
        invariant
            k <= BEDROCK_ID_LEN,
            indices@.len() == k,
            forall|i: int| 0 <= i < k ==> #[trigger] indices@[i] < ID_CHARSET_LEN,
        decreases BEDROCK_ID_LEN - k,
    {
        indices.push(random_usize_in(0, ID_CHARSET_LEN));
        k = k + 1;
    }
    message_id_from(indices.as_slice())
}

/// The protobuf varint encoding of `v`: seven bits per byte, least
/// significant group first, the high bit set on every byte but the last.
pub open spec fn varint_bytes(v: u64) -> Seq<u8>
    decreases v,
{
    if v < 128 {
        seq![v as u8]
    } else {
        seq![(v % 128 + 128) as u8] + varint_bytes(v / 128)
    }
}

/// The key of a protobuf field: field number and wire type packed as
/// `(field_number << 3) | wire_type`.
pub open spec fn field_key(field_number: u32, wire_type: u8) -> u32 {
    (field_number << 3u32) | (wire_type as u32)
}

/// The encoding of a field key.
pub open spec fn tag_bytes(field_number: u32, wire_type: u8) -> Seq<u8> {
    varint_bytes(field_key(field_number, wire_type) as u64)
}

/// A length-delimited field: key, length of `data`, then `data`.
pub open spec fn len_delimited(field_number: u32, data: Seq<u8>) -> Seq<u8> {
    tag_bytes(field_number, WIRE_LEN) + varint_bytes(data.len() as u64) + data
}

/// Appends the varint encoding of `value`.
pub fn write_varint(buf: &mut Vec<u8>, value: u64)
    ensures
        final(buf)@ == old(buf)@ + varint_bytes(value),
{
    let ghost orig = value;
    let ghost start = buf@;
    let mut value = value;
    loop
        invariant_except_break
            start + varint_bytes(orig) == buf@ + varint_bytes(value),
        ensures
            buf@ == start + varint_bytes(orig),
        decreases value,
    {
        let ghost before = buf@;
        let ghost v = value;
        let mut byte = (value & 0x7f) as u8;
        assert(value & 0x7f == value % 128) by (bit_vector);
        assert(value >> 7 == value / 128) by (bit_vector);
        value = value >> 7;
        if value != 0 {
            assert(byte < 128 ==> byte | 0x80 == byte + 128) by (bit_vector);
            byte = byte | 0x80;
        }
        buf.push(byte);
        if value == 0 {
            assert(varint_bytes(v) == seq![byte]);
            assert(buf@ == before + varint_bytes(v));
            break;
        }
        assert(varint_bytes(v) == seq![byte] + varint_bytes(value));
        assert(before + varint_bytes(v) =~= buf@ + varint_bytes(value));
    }
}

/// Appends the key of a field.
pub fn write_tag(buf: &mut Vec<u8>, field_number: u32, wire_type: u8)
    ensures
        final(buf)@ == old(buf)@ + tag_bytes(field_number, wire_type),
{
    let tag = (field_number << 3u32) | (wire_type as u32);
    write_varint(buf, tag as u64);
}

/// Appends a length-delimited field holding `data`.
pub fn write_len_delimited(buf: &mut Vec<u8>, field_number: u32, data: &[u8])
    ensures
        final(buf)@ == old(buf)@ + len_delimited(field_number, data@),
{
    let ghost start = buf@;
    write_tag(buf, field_number, WIRE_LEN);
    write_varint(buf, data.len() as u64);
    let ghost mid = buf@;
    let n = data.len();
    let mut i: usize = 0;
    while i < n
        invariant
            n == data@.len(),
            i <= n,
            buf@ == mid + data@.take(i as int),
        decreases n - i,
    {
        buf.push(data[i]);
        assert(data@.take(i + 1) == data@.take(i as int).push(data@[i as int]));
        i = i + 1;
    }
    assert(data@.take(n as int) == data@);
    assert(buf@ =~= start + len_delimited(field_number, data@));
}

/// `len` random bytes.
pub fn random_bytes(len: usize) -> (r: Vec<u8>)
    ensures
        r@.len() == len,
{
    let mut r: Vec<u8> = Vec::new();
    let mut i: usize = 0;
    while i < len
        invariant
            i <= len,
            r@.len() == i,
        decreases len - i,
    {
        r.push(random_u8());
        i = i + 1;
    }
    r
}

/// A lower-case hexadecimal digit as an ASCII byte.
pub open spec fn is_lower_hex_byte(b: u8) -> bool {
    (0x30 <= b <= 0x39) || (0x61 <= b <= 0x66)
}

/// The text of a random (version 4) UUID in hyphenated lower-case form:
/// 36 ASCII bytes, `-` at positions 8, 13, 18 and 23, lower-case hex digits
/// elsewhere, the version digit `4` at position 14.
pub open spec fn is_uuid_v4_text(t: Seq<u8>) -> bool {
    &&& t.len() == 36
    &&& forall|i: int|
        0 <= i < 36 ==> if i == 8 || i == 13 || i == 18 || i == 23 {
            #[trigger] t[i] == 0x2d
        } else {
            is_lower_hex_byte(t[i])
        }
    &&& t[14] == 0x34
}

/// `Uuid::new_v4().to_string()`, as bytes: the hyphenated lower-case text of a
/// fresh random UUID.
#[verifier::external_body]
fn uuid_v4_text() -> (r: Vec<u8>)
    ensures
        is_uuid_v4_text(r@),
{
    Uuid::new_v4().to_string().into_bytes()
}

/// The literal `thinking` in ASCII.
pub open spec fn thinking_marker() -> Seq<u8> {
    seq![0x74u8, 0x68u8, 0x69u8, 0x6eu8, 0x6bu8, 0x69u8, 0x6eu8, 0x67u8]
}

/// The inner message of a signature up to (not including) the padding field:
/// field 1 = `lead`, field 6 = model name, field 7 = 0, field 8 =
/// `thinking`, field 11 = `id`, field 2 = `nonce`.
pub open spec fn signature_head(model: Seq<u8>, lead: Seq<u8>, id: Seq<u8>, nonce: Seq<u8>) -> Seq<u8> {
    len_delimited(1, lead) + len_delimited(6, model) + tag_bytes(7, WIRE_VARINT) + varint_bytes(0)
        + len_delimited(8, thinking_marker()) + len_delimited(11, id) + len_delimited(2, nonce)
}

/// The framing around an inner message head and a padding block: field 2
/// wrapping the head and the padding field 9 = `tail`, then field 3 = 1.
pub open spec fn frame_from_head(head: Seq<u8>, tail: Seq<u8>) -> Seq<u8> {
    len_delimited(2, head + len_delimited(9, tail)) + tag_bytes(3, WIRE_VARINT) + varint_bytes(1)
}

/// The whole signature: its head for these parts, framed with `tail`.
pub open spec fn signature_frame(
    model: Seq<u8>,
    lead: Seq<u8>,
    id: Seq<u8>,
    nonce: Seq<u8>,
    tail: Seq<u8>,
) -> Seq<u8> {
    frame_from_head(signature_head(model, lead, id, nonce), tail)
}

/// Length of the padding block: what brings the head plus an 8-byte framing
/// allowance to `target_total`, but at least 60 bytes.
pub open spec fn padding_len_for(head_len: int, target_total: int) -> int {
    if target_total - (head_len + 8) > 60 {
        target_total - (head_len + 8)
    } else {
        60
    }
}

/// The random parts have the sizes a signature uses: a leading block of 90 to
/// 149 bytes, a UUID id, a 12-byte nonce, and a padding block of at least 60
/// bytes that brings the head, the padding and an 8-byte allowance for the
/// framing to at least 320 bytes, and, when longer than 60, to less than 480.
pub open spec fn signature_parts_fit(
    model: Seq<u8>,
    lead: Seq<u8>,
    id: Seq<u8>,
    nonce: Seq<u8>,
    tail: Seq<u8>,
) -> bool {
    &&& 90 <= lead.len() < 150
    &&& is_uuid_v4_text(id)
    &&& nonce.len() == 12
    &&& tail.len() >= 60
    &&& signature_head(model, lead, id, nonce).len() + 8 + tail.len() >= 320
    &&& tail.len() > 60 ==> signature_head(model, lead, id, nonce).len() + 8 + tail.len() < 480
}

/// `bytes` is a simulated signature for the model name `model`.
pub open spec fn is_signature_for(bytes: Seq<u8>, model: Seq<u8>) -> bool {
    exists|lead: Seq<u8>, id: Seq<u8>, nonce: Seq<u8>, tail: Seq<u8>|
        #[trigger] signature_frame(model, lead, id, nonce, tail) == bytes && signature_parts_fit(
            model,
            lead,
            id,
            nonce,
            tail,
        )
}

/// Room a signature needs beyond the model name, in bytes (a generous bound).
pub const SIGNATURE_OVERHEAD_MAX: usize = 1024;

/// The head of a signature for these parts: field 1 = `lead`, field 6 =
/// model name, field 7 = 0, field 8 = `thinking`, field 11 = `id`, field 2 =
/// `nonce`.
pub fn signature_head_bytes(model: &[u8], lead: &[u8], id: &[u8], nonce: &[u8]) -> (r: Vec<u8>)
    ensures
        r@ == signature_head(model@, lead@, id@, nonce@),
{
    let mut head: Vec<u8> = Vec::new();
    write_len_delimited(&mut head, 1, lead);
    write_len_delimited(&mut head, 6, model);
    write_tag(&mut head, 7, WIRE_VARINT);
    write_varint(&mut head, 0);
    let marker: Vec<u8> = vec![0x74u8, 0x68u8, 0x69u8, 0x6eu8, 0x6bu8, 0x69u8, 0x6eu8, 0x67u8];
    assert(marker@ =~= thinking_marker());
    write_len_delimited(&mut head, 8, marker.as_slice());
    write_len_delimited(&mut head, 11, id);
    write_len_delimited(&mut head, 2, nonce);
    assert(head@ =~= signature_head(model@, lead@, id@, nonce@));
    head
}

/// The padding length for a head of `head_len` bytes and a drawn target
/// total.
pub fn padding_len(head_len: usize, target_total: usize) -> (r: usize)
    requires
        head_len + 8 <= usize::MAX,
    ensures
        r == padding_len_for(head_len as int, target_total as int),
{
    let used = head_len + 8;
    let short = if target_total > used {
        target_total - used
    } else {
        0
    };
    if short > 60 {
        short
    } else {
        60
    }
}

/// A signature from its head and padding block.
pub fn signature_frame_bytes(head: &[u8], tail: &[u8]) -> (r: Vec<u8>)
    ensures
        r@ == frame_from_head(head@, tail@),
{
    let mut inner: Vec<u8> = Vec::new();
    let n = head.len();
    let mut i: usize = 0;
    while i < n
        invariant
            n == head@.len(),
            i <= n,
            inner@ == head@.take(i as int),
        decreases n - i,
    {
        inner.push(head[i]);
        assert(head@.take(i + 1) == head@.take(i as int).push(head@[i as int]));
        i = i + 1;
    }
    assert(head@.take(n as int) == head@);
    write_len_delimited(&mut inner, 9, tail);
    let mut outer: Vec<u8> = Vec::new();
    write_len_delimited(&mut outer, 2, inner.as_slice());
    write_tag(&mut outer, 3, WIRE_VARINT);
    write_varint(&mut outer, 1);
    assert(outer@ =~= frame_from_head(head@, tail@));
    outer
}

/// Lays out the bytes of one simulated signature for `model`, with fresh
/// random contents: a leading block of 90 to 149 bytes, a UUID, a 12-byte
/// nonce, and a padding block sized for a drawn target total of 320 to 479.
pub fn build_signature_bytes(model: &str) -> (r: Vec<u8>)
    requires
        model.spec_bytes().len() + SIGNATURE_OVERHEAD_MAX <= isize::MAX,
    ensures
        is_signature_for(r@, model.spec_bytes()),
{
    let model_bytes = model.as_bytes();
    let lead = random_bytes(random_usize_in(90, 150));
    let id = uuid_v4_text();
    let nonce = random_bytes(12);
    let head = signature_head_bytes(model_bytes, lead.as_slice(), id.as_slice(), nonce.as_slice());
    proof {
        lemma_signature_head_len(model_bytes@, lead@, id@, nonce@);
    }
    let target_total = random_usize_in(320, 480);
    let tail = random_bytes(padding_len(head.len(), target_total));
    let r = signature_frame_bytes(head.as_slice(), tail.as_slice());
    assert(signature_parts_fit(model_bytes@, lead@, id@, nonce@, tail@));
    assert(r@ == signature_frame(model_bytes@, lead@, id@, nonce@, tail@));
    r
}

/// A varint takes one byte below 128, at most two below 16384, and at most
/// ten for any `u64`.
pub proof fn lemma_varint_len_bound(v: u64)
    ensures
        1 <= varint_bytes(v).len() <= 10,
        v < 128 ==> varint_bytes(v).len() == 1,
        v < 16384 ==> varint_bytes(v).len() <= 2,
{
    if v >= 128 {
        assert(varint_bytes(v / 128).len() >= 1) by {
            lemma_varint_len_bound_at(v / 128, 1);
        }
    }
    vstd::arithmetic::power2::lemma2_to64();
    vstd::arithmetic::power2::lemma_pow2_adds(64, 6);
    vstd::arithmetic::power2::lemma2_to64_rest();
    lemma_varint_len_bound_at(v, 10);
    lemma_varint_len_bound_at(v, 1);
    if v < 16384 {
        lemma_varint_len_bound_at(v, 2);
    }
}

/// A number below `2^(7k)` has a varint of at most `k` bytes.
proof fn lemma_varint_len_bound_at(v: u64, k: nat)
    requires
        1 <= k,
    ensures
        varint_bytes(v).len() >= 1,
        v < vstd::arithmetic::power2::pow2(7 * k) ==> varint_bytes(v).len() <= k,
    decreases v,
{
    if v >= 128 {
        vstd::arithmetic::power2::lemma2_to64();
        if k == 1 {
            lemma_varint_len_bound_at(v / 128, 1);
        } else {
            vstd::arithmetic::power2::lemma_pow2_adds(7, (7 * k - 7) as nat);
            assert(7 * (k - 1) == 7 * k - 7);
            let p = vstd::arithmetic::power2::pow2((7 * k - 7) as nat);
            assert(v < vstd::arithmetic::power2::pow2(7 * k) ==> v / 128 < p) by (
            nonlinear_arith)
                requires
                    vstd::arithmetic::power2::pow2(7 * k) == 128 * p,
            ;
            lemma_varint_len_bound_at(v / 128, (k - 1) as nat);
        }
    }
}

/// The head of a signature is at most its model name plus 300 bytes.
proof fn lemma_signature_head_len(model: Seq<u8>, lead: Seq<u8>, id: Seq<u8>, nonce: Seq<u8>)
    requires
        lead.len() < 150,
        id.len() == 36,
        nonce.len() == 12,
    ensures
        signature_head(model, lead, id, nonce).len() <= model.len() + 300,
{
    lemma_varint_len_bound(lead.len() as u64);
    lemma_varint_len_bound(model.len() as u64);
    lemma_varint_len_bound(field_key(1, WIRE_LEN) as u64);
    lemma_varint_len_bound(field_key(6, WIRE_LEN) as u64);
    lemma_varint_len_bound(field_key(7, WIRE_VARINT) as u64);
    lemma_varint_len_bound(0);
    lemma_varint_len_bound(field_key(8, WIRE_LEN) as u64);
    lemma_varint_len_bound(8);
    lemma_varint_len_bound(field_key(11, WIRE_LEN) as u64);
    lemma_varint_len_bound(36);
    lemma_varint_len_bound(field_key(2, WIRE_LEN) as u64);
    lemma_varint_len_bound(12);
    lemma_field_key_value(1, WIRE_LEN);
    lemma_field_key_value(6, WIRE_LEN);
    lemma_field_key_value(7, WIRE_VARINT);
    lemma_field_key_value(8, WIRE_LEN);
    lemma_field_key_value(11, WIRE_LEN);
    lemma_field_key_value(2, WIRE_LEN);
}

/// For field numbers below `2^29` and wire types below 8, the key is
/// `field_number * 8 + wire_type`.
pub proof fn lemma_field_key_value(field_number: u32, wire_type: u8)
    requires
        field_number < 0x2000_0000,
        wire_type < 8,
    ensures
        field_key(field_number, wire_type) == field_number * 8 + wire_type,
{
    let w = wire_type as u32;
    assert(field_number < 0x2000_0000 && w < 8 ==> (field_number << 3u32) | w == field_number * 8
        + w) by (bit_vector);
}

/// What `base64::engine::general_purpose::STANDARD.encode` gives for these
/// bytes: standard alphabet, `=` padding.
pub uninterp spec fn base64_standard(data: Seq<u8>) -> Seq<char>;

/// Length of the padded base64 text of `n` bytes.
pub open spec fn base64_len(n: nat) -> nat {
    4 * ((n + 2) / 3)
}

/// A character of padded standard base64 text: `A`-`Z`, `a`-`z`, `0`-`9`,
/// `+`, `/`, or the padding `=`.
pub open spec fn is_base64_text_char(c: char) -> bool {
    ||| 'A' <= c <= 'Z'
    ||| 'a' <= c <= 'z'
    ||| '0' <= c <= '9'
    ||| c == '+'
    ||| c == '/'
    ||| c == '='
}

/// `STANDARD.encode(data)`: the padded standard base64 text of `data`, four
/// characters of the standard alphabet (or `=` padding) for every started
/// group of three bytes.
#[verifier::external_body]
fn base64_encode(data: &[u8]) -> (r: String)
    requires
        base64_len(data@.len()) <= isize::MAX,
    ensures
        r@ == base64_standard(data@),
        r@.len() == base64_len(data@.len()),
        forall|i: int| 0 <= i < r@.len() ==> #[trigger] is_base64_text_char(r@[i]),
{
    BASE64.encode(data)
}

/// A simulated thinking-block signature (base64) for `model`.  Each call
/// gives a different one.
pub fn generate_thinking_signature(model: &str) -> (r: String)
    requires
        base64_len((model.spec_bytes().len() + SIGNATURE_OVERHEAD_MAX) as nat) <= isize::MAX,
    ensures
        exists|bytes: Seq<u8>|
            {
                &&& is_signature_for(bytes, model.spec_bytes())
                &&& r@ == #[trigger] base64_standard(bytes)
                &&& r@.len() == base64_len(bytes.len())
            },
        forall|i: int| 0 <= i < r@.len() ==> #[trigger] is_base64_text_char(r@[i]),
{
    let bytes = build_signature_bytes(model);
    proof {
        lemma_signature_len(bytes@, model.spec_bytes());
    }
    base64_encode(bytes.as_slice())
}

/// A signature is at most its model name plus `SIGNATURE_OVERHEAD_MAX` bytes.
proof fn lemma_signature_len(bytes: Seq<u8>, model: Seq<u8>)
    requires
        is_signature_for(bytes, model),
    ensures
        bytes.len() <= model.len() + SIGNATURE_OVERHEAD_MAX,
{
    let (lead, id, nonce, tail) = choose|lead: Seq<u8>, id: Seq<u8>, nonce: Seq<u8>, tail: Seq<u8>|
        #[trigger] signature_frame(model, lead, id, nonce, tail) == bytes && signature_parts_fit(
            model,
            lead,
            id,
            nonce,
            tail,
        );
    lemma_signature_head_len(model, lead, id, nonce);
    let head = signature_head(model, lead, id, nonce);
    let inner = head + len_delimited(9, tail);
    lemma_varint_len_bound(tail.len() as u64);
    lemma_varint_len_bound(inner.len() as u64);
    lemma_varint_len_bound(field_key(9, WIRE_LEN) as u64);
    lemma_varint_len_bound(field_key(2, WIRE_LEN) as u64);
    lemma_varint_len_bound(field_key(3, WIRE_VARINT) as u64);
    lemma_varint_len_bound(1);
    lemma_field_key_value(9, WIRE_LEN);
    lemma_field_key_value(2, WIRE_LEN);
    lemma_field_key_value(3, WIRE_VARINT);
    assert(tail.len() < 480);
}

/// Decoding a varint that starts at position `i` of `data`, with `value`
/// accumulated from earlier bytes at bit offset `shift`: each byte adds its
/// low seven bits at `shift`; a byte without the high bit ends the number; no
/// value is read once the offset would reach 64 bits or the data runs out.
pub open spec fn decode_varint_from(data: Seq<u8>, i: int, value: u64, shift: u32) -> Option<
    (u64, int),
>
    decreases data.len() - i,
{
    if i < 0 || i >= data.len() {
        None
    } else {
        let b = data[i];
        let v = value | (((b & 0x7f) as u64) << shift);
        if b & 0x80 == 0 {
            Some((v, i + 1))
        } else if shift + 7 >= 64 {
            None
        } else {
            decode_varint_from(data, i + 1, v, (shift + 7) as u32)
        }
    }
}

/// The varint at the start of `data` and the number of bytes it takes, if
/// there is a complete one of at most 64 bits.
pub open spec fn decode_varint(data: Seq<u8>) -> Option<(u64, int)> {
    decode_varint_from(data, 0, 0, 0)
}

/// Reads the varint at the start of `data`: its value and the number of bytes
/// it took, or `None` when the data ends first or the number runs past 64
/// bits.
pub fn read_varint(data: &[u8]) -> (r: Option<(u64, usize)>)
    ensures
        match r {
            Some((v, n)) => decode_varint(data@) == Some((v, n as int)),
            None => decode_varint(data@) is None,
        },
{
    let mut value: u64 = 0;
    let mut shift: u32 = 0;
    let n = data.len();
    let mut i: usize = 0;
    while i < n
        invariant
            n == data@.len(),
            i <= n,
            shift < 64,
            decode_varint(data@) == decode_varint_from(data@, i as int, value, shift),
        decreases n - i,
    {
        let b = data[i];
        value = value | (((b & 0x7f) as u64) << shift);
        if b & 0x80 == 0 {
            return Some((value, i + 1));
        }
        if shift + 7 >= 64 {
            return None;
        }
        shift = shift + 7;
        i = i + 1;
    }
    None
}

/// Joining disjoint bit ranges: below `2^shift`, adding a multiple of
/// `2^shift` is the same as or-ing it in.
proof fn lemma_or_is_add(value: u64, x: u64, shift: u32)
    requires
        shift < 64,
        value < (1u64 << shift),
    ensures
        value | (x << shift) == value + (x << shift),
{
    assert(shift < 64 && value < (1u64 << shift) ==> value | (x << shift) == value + (x
        << shift)) by (bit_vector);
}

/// Reading back the varint of `w` written after `prefix`, with `value`
/// accumulated below bit `shift`, gives `value + w * 2^shift`.
proof fn lemma_decode_varint_from(prefix: Seq<u8>, w: u64, rest: Seq<u8>, value: u64, shift: u32)
    requires
        shift < 64,
        value < vstd::arithmetic::power2::pow2(shift as nat),
        value + w * vstd::arithmetic::power2::pow2(shift as nat) <= u64::MAX,
    ensures
        decode_varint_from(prefix + varint_bytes(w) + rest, prefix.len() as int, value, shift)
            == Some(
            (
                (value + w * vstd::arithmetic::power2::pow2(shift as nat)) as u64,
                (prefix.len() + varint_bytes(w).len()) as int,
            ),
        ),
    decreases w,
{
    let p = pow2(shift as nat);
    lemma_pow2_pos(shift as nat);
    let data = prefix + varint_bytes(w) + rest;
    let i = prefix.len() as int;
    let b = data[i];
    assert(b == varint_bytes(w)[0]);
    let low = w % 128;
    if w < 128 {
        assert(b == w as u8);
    } else {
        assert(b == (low + 128) as u8);
    }
    assert(b < 128 ==> b & 0x7f == b) by (bit_vector);
    assert(b >= 128 ==> b & 0x7f == b - 128) by (bit_vector);
    assert(b < 128 <==> b & 0x80 == 0) by (bit_vector);
    let x = (b & 0x7f) as u64;
    assert(x == low);
    assert(low * p <= w * p) by (nonlinear_arith)
        requires
            low <= w,
            p > 0,
    ;
    vstd::bits::lemma_u64_shl_is_mul(x, shift as u64);
    vstd::bits::lemma_u64_pow2_no_overflow(shift as nat);
    vstd::bits::lemma_u64_shl_is_mul(1, shift as u64);
    assert(x << shift == x << (shift as u64)) by (bit_vector);
    assert(1u64 << shift == 1u64 << (shift as u64)) by (bit_vector);
    lemma_or_is_add(value, x, shift);
    let v = value | (x << shift);
    assert(v == value + low * p);
    if w < 128 {
        assert(low == w);
    } else {
        let q = w / 128;
        assert(w * p == q * (128 * p) + low * p) by (nonlinear_arith)
            requires
                w == 128 * q + low,
        ;
        lemma_pow2_adds(shift as nat, 7);
        lemma2_to64();
        assert(pow2((shift + 7) as nat) == 128 * p);
        assert(128 * p <= w * p) by (nonlinear_arith)
            requires
                128 <= w,
                p > 0,
        ;
        if shift + 7 >= 64 {
            vstd::arithmetic::power2::lemma_pow2_strictly_increases(64, (shift + 7) as nat);
            vstd::arithmetic::power2::lemma2_to64_rest();
            if shift + 7 > 64 {
            }
            assert(false);
        }
        assert(v < 128 * p) by (nonlinear_arith)
            requires
                value < p,
                low < 128,
                v == value + low * p,
        ;
        let prefix2 = prefix.push(b);
        assert(data =~= prefix2 + varint_bytes(q) + rest);
        lemma_decode_varint_from(prefix2, q, rest, v, (shift + 7) as u32);
    }
}

/// Reading back a written varint gives the number written and the length of
/// its encoding, whatever follows it.
pub proof fn lemma_varint_roundtrip(v: u64, rest: Seq<u8>)
    ensures
        decode_varint(varint_bytes(v) + rest) == Some((v, varint_bytes(v).len() as int)),
{
    vstd::arithmetic::power2::lemma2_to64();
    lemma_decode_varint_from(Seq::empty(), v, rest, 0, 0);
    assert(Seq::<u8>::empty() + varint_bytes(v) + rest =~= varint_bytes(v) + rest);
}

/// `needle` occurs in `hay` as a contiguous run starting at `i`.
pub open spec fn bytes_occur_at(hay: Seq<u8>, needle: Seq<u8>, i: int) -> bool {
    0 <= i && i + needle.len() <= hay.len() && hay.subrange(i, i + needle.len()) == needle
}

/// The random parts a signature was made of.
proof fn signature_parts(bytes: Seq<u8>, model: Seq<u8>) -> (r: (Seq<u8>, Seq<u8>, Seq<u8>, Seq<u8>))
    requires
        is_signature_for(bytes, model),
    ensures
        signature_frame(model, r.0, r.1, r.2, r.3) == bytes,
        signature_parts_fit(model, r.0, r.1, r.2, r.3),
{
    choose|lead: Seq<u8>, id: Seq<u8>, nonce: Seq<u8>, tail: Seq<u8>|
        #[trigger] signature_frame(model, lead, id, nonce, tail) == bytes && signature_parts_fit(
            model,
            lead,
            id,
            nonce,
            tail,
        )
}

/// A signature splits into the key of field 2, the length of the inner
/// message, the inner message, and `18 01`.
proof fn lemma_signature_outline(model: Seq<u8>, lead: Seq<u8>, id: Seq<u8>, nonce: Seq<u8>, tail: Seq<u8>)
    ensures
        ({
            let inner = signature_head(model, lead, id, nonce) + len_delimited(9, tail);
            signature_frame(model, lead, id, nonce, tail) == seq![0x12u8] + varint_bytes(
                inner.len() as u64,
            ) + inner + seq![0x18u8, 0x01u8]
        }),
{
    lemma_field_key_value(2, WIRE_LEN);
    lemma_field_key_value(3, WIRE_VARINT);
    let inner = signature_head(model, lead, id, nonce) + len_delimited(9, tail);
    assert(tag_bytes(2, WIRE_LEN) == seq![0x12u8]);
    assert(tag_bytes(3, WIRE_VARINT) == seq![0x18u8]);
    assert(varint_bytes(1) == seq![0x01u8]);
    assert(signature_frame(model, lead, id, nonce, tail) =~= seq![0x12u8] + varint_bytes(
        inner.len() as u64,
    ) + inner + seq![0x18u8, 0x01u8]);
}

/// Every simulated signature opens with the key of field 2 (`0x12`) and ends
/// with field 3 = 1 (`18 01`), and is 300 bytes long or more but at most 480
/// bytes longer than the model name.
pub proof fn lemma_signature_frame_bytes(bytes: Seq<u8>, model: Seq<u8>)
    requires
        is_signature_for(bytes, model),
    ensures
        bytes.len() >= 300,
        bytes.len() <= model.len() + 480,
        bytes[0] == 0x12,
        bytes[bytes.len() - 2] == 0x18,
        bytes[bytes.len() - 1] == 0x01,
{
    let (lead, id, nonce, tail) = signature_parts(bytes, model);
    lemma_signature_outline(model, lead, id, nonce, tail);
    lemma_signature_head_len(model, lead, id, nonce);
    let inner = signature_head(model, lead, id, nonce) + len_delimited(9, tail);
    lemma_varint_len_bound(tail.len() as u64);
    lemma_varint_len_bound(inner.len() as u64);
    lemma_varint_len_bound(field_key(9, WIRE_LEN) as u64);
    lemma_field_key_value(9, WIRE_LEN);
}

/// A run found in `x` is still found, at the same place, once `y` follows.
proof fn lemma_occurs_then(x: Seq<u8>, y: Seq<u8>, needle: Seq<u8>, i: int)
    requires
        bytes_occur_at(x, needle, i),
    ensures
        bytes_occur_at(x + y, needle, i),
{
    assert((x + y).subrange(i, i + needle.len()) =~= x.subrange(i, i + needle.len()));
}

/// A run found in `x` is still found, shifted by the length of `y`, once `y`
/// comes first.
proof fn lemma_occurs_after(y: Seq<u8>, x: Seq<u8>, needle: Seq<u8>, i: int)
    requires
        bytes_occur_at(x, needle, i),
    ensures
        bytes_occur_at(y + x, needle, y.len() + i),
{
    assert((y + x).subrange(y.len() + i, y.len() + i + needle.len()) =~= x.subrange(
        i,
        i + needle.len(),
    ));
}

/// `needle` occurs at the end of `a + needle`.
proof fn lemma_occurs_last(a: Seq<u8>, needle: Seq<u8>)
    ensures
        bytes_occur_at(a + needle, needle, a.len() as int),
{
    assert((a + needle).subrange(a.len() as int, (a.len() + needle.len()) as int) =~= needle);
}

/// A run found in the head is found in the whole signature.
proof fn lemma_occurs_in_signature(
    model: Seq<u8>,
    lead: Seq<u8>,
    id: Seq<u8>,
    nonce: Seq<u8>,
    tail: Seq<u8>,
    needle: Seq<u8>,
    k: int,
)
    requires
        bytes_occur_at(signature_head(model, lead, id, nonce), needle, k),
    ensures
        exists|i: int| bytes_occur_at(signature_frame(model, lead, id, nonce, tail), needle, i),
{
    lemma_signature_outline(model, lead, id, nonce, tail);
    let head = signature_head(model, lead, id, nonce);
    let inner = head + len_delimited(9, tail);
    let a = seq![0x12u8] + varint_bytes(inner.len() as u64);
    lemma_occurs_then(head, len_delimited(9, tail), needle, k);
    lemma_occurs_after(a, inner, needle, k);
    lemma_occurs_then(a + inner, seq![0x18u8, 0x01u8], needle, a.len() + k);
}

/// Every simulated signature carries the model name in clear.
pub proof fn lemma_signature_embeds_model(bytes: Seq<u8>, model: Seq<u8>)
    requires
        is_signature_for(bytes, model),
    ensures
        exists|i: int| bytes_occur_at(bytes, model, i),
{
    let (lead, id, nonce, tail) = signature_parts(bytes, model);
    let ld1 = len_delimited(1, lead);
    let ld6 = len_delimited(6, model);
    let pre6 = tag_bytes(6, WIRE_LEN) + varint_bytes(model.len() as u64);
    assert(ld6 == pre6 + model);
    lemma_occurs_last(pre6, model);
    lemma_occurs_after(ld1, ld6, model, pre6.len() as int);
    let k = (ld1.len() + pre6.len()) as int;
    let s1 = ld1 + ld6;
    let s2 = s1 + tag_bytes(7, WIRE_VARINT);
    let s3 = s2 + varint_bytes(0);
    let s4 = s3 + len_delimited(8, thinking_marker());
    let s5 = s4 + len_delimited(11, id);
    lemma_occurs_then(s1, tag_bytes(7, WIRE_VARINT), model, k);
    lemma_occurs_then(s2, varint_bytes(0), model, k);
    lemma_occurs_then(s3, len_delimited(8, thinking_marker()), model, k);
    lemma_occurs_then(s4, len_delimited(11, id), model, k);
    lemma_occurs_then(s5, len_delimited(2, nonce), model, k);
    assert(signature_head(model, lead, id, nonce) == s5 + len_delimited(2, nonce));
    lemma_occurs_in_signature(model, lead, id, nonce, tail, model, k);
}

/// Every simulated signature carries the `thinking` marker in clear.
pub proof fn lemma_signature_embeds_marker(bytes: Seq<u8>, model: Seq<u8>)
    requires
        is_signature_for(bytes, model),
    ensures
        exists|i: int| bytes_occur_at(bytes, thinking_marker(), i),
{
    let (lead, id, nonce, tail) = signature_parts(bytes, model);
    let m = thinking_marker();
    let s3 = len_delimited(1, lead) + len_delimited(6, model) + tag_bytes(7, WIRE_VARINT)
        + varint_bytes(0);
    let ld8 = len_delimited(8, m);
    let pre8 = tag_bytes(8, WIRE_LEN) + varint_bytes(m.len() as u64);
    assert(ld8 == pre8 + m);
    lemma_occurs_last(pre8, m);
    lemma_occurs_after(s3, ld8, m, pre8.len() as int);
    let k = (s3.len() + pre8.len()) as int;
    let s4 = s3 + ld8;
    let s5 = s4 + len_delimited(11, id);
    lemma_occurs_then(s4, len_delimited(11, id), m, k);
    lemma_occurs_then(s5, len_delimited(2, nonce), m, k);
    assert(signature_head(model, lead, id, nonce) == s5 + len_delimited(2, nonce));
    lemma_occurs_in_signature(model, lead, id, nonce, tail, m, k);
}

/// The id alphabet has 36 distinct characters, each a lower-case ASCII letter
/// or a digit: the letters in order at positions 0 to 25, the digits in order
/// at positions 26 to 35.
pub proof fn lemma_id_alphabet(i: int, j: int)
    requires
        0 <= i < ID_CHARSET_LEN,
        0 <= j < ID_CHARSET_LEN,
    ensures
        is_id_char(id_charset_char(i)),
        i != j ==> id_charset_char(i) != id_charset_char(j),
        i < 26 ==> id_charset_char(i) as u32 == 'a' as u32 + i,
        i >= 26 ==> id_charset_char(i) as u32 == '0' as u32 + (i - 26),
{
}

/// The shape of a varint: a value below 128 is the single byte of that value;
/// otherwise every byte but the last has its high bit set and the last has it
/// clear.  Reading stops at the first byte without the high bit: one such
/// byte at the start is read alone, as its own value, and nothing is read
/// from no data.
pub proof fn lemma_varint_shape(v: u64, data: Seq<u8>)
    ensures
        v < 128 ==> varint_bytes(v) == seq![v as u8],
        varint_bytes(v).last() < 128,
        forall|i: int| 0 <= i < varint_bytes(v).len() - 1 ==> #[trigger] varint_bytes(v)[i] >= 128,
        decode_varint(Seq::empty()) is None,
        (data.len() > 0 && data[0] < 128) ==> decode_varint(data) == Some((data[0] as u64, 1int)),
    decreases v,
{
    if v >= 128 {
        lemma_varint_shape(v / 128, data);
        let rest = varint_bytes(v / 128);
        assert(varint_bytes(v) == seq![(v % 128 + 128) as u8] + rest);
        assert forall|i: int| 0 <= i < varint_bytes(v).len() - 1 implies #[trigger] varint_bytes(
            v,
        )[i] >= 128 by {
            if i > 0 {
                assert(varint_bytes(v)[i] == rest[i - 1]);
            }
        }
    }
    if data.len() > 0 && data[0] < 128 {
        let b = data[0];
        assert(b & 0x80 == 0 && ((b & 0x7f) as u64) == b as u64) by (bit_vector)
            requires
                b < 128,
        ;
        assert(0u64 | (((b & 0x7f) as u64) << 0u32) == b as u64) by (bit_vector)
            requires
                b < 128,
        ;
    }
}

/// A message id is 61 characters: `msg_bdrk_` followed by 52 lower-case ASCII
/// letters and digits.
pub proof fn lemma_message_id_text(id: Seq<char>)
    requires
        is_message_id(id),
    ensures
        id.len() == 61,
        id.take(9) == "msg_bdrk_"@,
        forall|i: int| 9 <= i < 61 ==> ('a' <= #[trigger] id[i] <= 'z') || ('0' <= id[i] <= '9'),
{
    reveal_strlit("msg_bdrk_");
    assert("msg_bdrk_"@.len() == 9);
    assert forall|i: int| 9 <= i < 61 implies ('a' <= #[trigger] id[i] <= 'z') || ('0' <= id[i]
        <= '9') by {
        assert(is_id_char(id[i]));
    }
}

} // verus!
