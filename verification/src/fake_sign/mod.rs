//! Signing of DXIL containers without the validator library.
//!
//! A container starts with a fixed header:
//!
//! | offset | size | field             |
//! |--------|------|-------------------|
//! | 0      | 4    | FourCC, `"DXBC"`  |
//! | 4      | 16   | hash value        |
//! | 20     | 4    | container version |
//! | 24     | 4    | file length       |
//! | 28     | 4    | number of chunks  |
//!
//! The hash covers everything behind the hash value itself. It is the raw
//! state of the MD5 block function after the payload and a padding of its
//! own kind have gone through it.
//!
//! Known limit: the bit count that goes into the padding is kept in 32 bits,
//! as the validator keeps it, so it wraps for payloads of 512 MiB and more.

use vstd::prelude::*;

pub mod modified_md5;

use modified_md5::{
    absorb, block_words, fresh_view, initial_state, le_word, lemma_absorb_concat,
    lemma_absorb_nothing, lemma_absorb_parts, lemma_absorb_wf, lemma_blocks_concat,
    lemma_blocks_ignore_trailing, md5_blocks, md5_transform, Context, ContextView,
};

verus! {

/// The size of the fixed header.
pub const DXIL_HEADER_SIZE: usize = 32;

/// Where the hash value ends and the hashed bytes begin.
pub const DXIL_HEADER_CONTAINER_VERSION_OFFSET: usize = 20;

/// `"DXBC"`, read as a little-endian word.
pub const DXBC_FOURCC: u32 = 0x4342_5844;

/// The four bytes of a word, lowest first.
pub open spec fn word_bytes(x: u32) -> Seq<u8> {
    seq![
        (x % 0x100) as u8,
        ((x / 0x100) % 0x100) as u8,
        ((x / 0x1_0000) % 0x100) as u8,
        (x / 0x100_0000) as u8,
    ]
}

/// The sixteen bytes of four state words.
pub open spec fn digest_bytes(state: Seq<u32>) -> Seq<u8> {
    word_bytes(state[0]) + word_bytes(state[1]) + word_bytes(state[2]) + word_bytes(state[3])
}

/// `n` zero bytes.
pub open spec fn zeros(n: int) -> Seq<u8> {
    Seq::new(n as nat, |i: int| 0u8)
}

/// The payload's length in bits, in 32 bits.
pub open spec fn payload_bits(len: nat) -> u32 {
    ((8 * len) % 0x1_0000_0000) as u32
}

/// The word that closes the padding. It is derived from the bit count and
/// is not the upper half of a 64-bit length.
pub open spec fn payload_bits_tag(bits: u32) -> u32 {
    (bits >> 2) | 1
}

/// The block, or the two blocks, that go through the block function after
/// the payload's full blocks.
///
/// With fewer than 56 bytes left over, one block holds the bit count, the
/// bytes left over, the marker `0x80`, zeros, and the closing word. With 56
/// or more, the bytes left over and the marker fill one block with zeros,
/// and a second block holds the bit count first and the closing word last.
pub open spec fn final_blocks(data: Seq<u8>) -> Seq<u8> {
    let left = data.len() % 64;
    let tail = data.skip(data.len() - left);
    let size = word_bytes(payload_bits(data.len()));
    let tag = word_bytes(payload_bits_tag(payload_bits(data.len())));
    if left >= 56 {
        tail + seq![0x80u8] + zeros(63 - left) + size + zeros(56) + tag
    } else {
        size + tail + seq![0x80u8] + zeros(55 - left) + tag
    }
}

/// Everything that goes through the block function for a payload.
pub open spec fn padded_payload(data: Seq<u8>) -> Seq<u8> {
    data.take(data.len() - data.len() % 64) + final_blocks(data)
}

/// The state words that sign a payload.
pub open spec fn payload_digest(data: Seq<u8>) -> Seq<u32> {
    md5_blocks(initial_state(), padded_payload(data))
}

/// Whether a buffer is a container that can be signed: long enough for the
/// header, with the right FourCC, and as long as its header says. The file
/// length in the header has 32 bits, and so the buffer's length is taken
/// modulo `2^32`.
pub open spec fn is_signable(container: Seq<u8>) -> bool {
    &&& container.len() >= DXIL_HEADER_SIZE
    &&& file_header(container).fourcc == DXBC_FOURCC
    &&& file_header(container).file_length == container.len() % 0x1_0000_0000
}

/// The container with its hash value replaced by the digest of what
/// follows the hash value.
pub open spec fn signed_container(container: Seq<u8>) -> Seq<u8> {
    container.take(4) + digest_bytes(payload_digest(container.skip(20))) + container.skip(20)
}

/// The fixed header of a container, field by field.
pub struct FileHeader {
    pub fourcc: u32,
    pub hash_value: Seq<u32>,
    pub container_version: u32,
    pub file_length: u32,
    pub num_chunks: u32,
}

/// The header that the first 32 bytes of a container spell.
pub open spec fn file_header(container: Seq<u8>) -> FileHeader {
    FileHeader {
        fourcc: le_word(container, 0),
        hash_value: seq![
            le_word(container, 4),
            le_word(container, 8),
            le_word(container, 12),
            le_word(container, 16),
        ],
        container_version: le_word(container, 20),
        file_length: le_word(container, 24),
        num_chunks: le_word(container, 28),
    }
}

/// A word is what its four bytes spell.
pub proof fn lemma_word_bytes(x: u32)
    ensures
        word_bytes(x).len() == 4,
        le_word(word_bytes(x), 0) == x,
{
    let b = word_bytes(x);
    assert(b[0] + 0x100 * b[1] + 0x1_0000 * b[2] + 0x100_0000 * b[3] == x) by {
        assert(x % 0x100 + 0x100 * ((x / 0x100) % 0x100) + 0x1_0000 * ((x / 0x1_0000) % 0x100)
            + 0x100_0000 * (x / 0x100_0000) == x) by (bit_vector);
    }
}

/// The bytes of word `t` of a container's hash value.
pub open spec fn hash_word(container: Seq<u8>, t: int) -> Seq<u8> {
    container.subrange(4 + 4 * t, 8 + 4 * t)
}

/// The hash value in a container's header.
pub open spec fn hash_value(container: Seq<u8>) -> Seq<u8> {
    container.subrange(4, 20)
}

/// The padding fills whole blocks, one or two of them, and the digest is
/// the state after the payload's full blocks, put through the block function
/// with each of them.
pub proof fn lemma_final_blocks(data: Seq<u8>)
    ensures
        final_blocks(data).len() == if data.len() % 64 >= 56 {
            128int
        } else {
            64int
        },
        padded_payload(data).len() == data.len() - data.len() % 64 + final_blocks(data).len(),
        data.len() % 64 >= 56 ==> payload_digest(data) == md5_transform(
            md5_transform(
                md5_blocks(initial_state(), data),
                block_words(final_blocks(data).take(64)),
            ),
            block_words(final_blocks(data).skip(64)),
        ),
        data.len() % 64 < 56 ==> payload_digest(data) == md5_transform(
            md5_blocks(initial_state(), data),
            block_words(final_blocks(data)),
        ),
{
    let left = data.len() % 64;
    let whole = data.take(data.len() - left);
    let last = final_blocks(data);
    let fed = md5_blocks(initial_state(), data);
    lemma_final_blocks_len(data);
    assert(md5_blocks(initial_state(), whole) == fed) by {
        lemma_blocks_ignore_trailing(initial_state(), data);
    }
    assert(payload_digest(data) == md5_blocks(fed, last)) by {
        lemma_blocks_concat(initial_state(), whole, last);
    }
    if left >= 56 {
        lemma_two_blocks(fed, last);
    } else {
        lemma_one_block(fed, last);
    }
}

/// The padding is one block long, or two.
pub proof fn lemma_final_blocks_len(data: Seq<u8>)
    ensures
        final_blocks(data).len() == if data.len() % 64 >= 56 {
            128int
        } else {
            64int
        },
{
}

/// One block through `md5_blocks` is one run of the block function.
pub proof fn lemma_one_block(state: Seq<u32>, block: Seq<u8>)
    requires
        block.len() == 64,
    ensures
        md5_blocks(state, block) == md5_transform(state, block_words(block)),
{
    assert(block.subrange(0, 64) =~= block);
    assert(md5_blocks(state, block.take(0)) == state);
}

/// Two blocks through `md5_blocks` are two runs of the block function.
pub proof fn lemma_two_blocks(state: Seq<u32>, blocks: Seq<u8>)
    requires
        blocks.len() == 128,
    ensures
        md5_blocks(state, blocks) == md5_transform(
            md5_transform(state, block_words(blocks.take(64))),
            block_words(blocks.skip(64)),
        ),
{
    lemma_one_block(state, blocks.take(64));
    assert(blocks.subrange(64, 128) =~= blocks.skip(64));
}

/// The hash value that signing writes depends on nothing but the bytes
/// behind it: not on what the hash value held before, and not on the
/// FourCC.
pub proof fn lemma_hash_value_from_payload(a: Seq<u8>, b: Seq<u8>)
    requires
        a.len() >= 20,
        b.len() >= 20,
        a.skip(20) == b.skip(20),
    ensures
        hash_value(signed_container(a)) == hash_value(signed_container(b)),
        hash_value(signed_container(a)) == digest_bytes(payload_digest(a.skip(20))),
{
    lemma_signed_container(a);
    lemma_signed_container(b);
}

/// Signing changes the sixteen bytes of the hash value and nothing else:
/// the length, the FourCC, the container version, the stated file length,
/// the number of chunks and every byte behind the header stay as they were.
pub proof fn lemma_signed_container(container: Seq<u8>)
    requires
        container.len() >= 20,
    ensures
        signed_container(container).len() == container.len(),
        hash_value(signed_container(container)) == digest_bytes(
            payload_digest(container.skip(20)),
        ),
        forall|i: int|
            0 <= i < container.len() && !(4 <= i < 20) ==> signed_container(container)[i]
                == container[i],
        signed_container(container).skip(20) == container.skip(20),
        container.len() >= DXIL_HEADER_SIZE ==> {
            &&& file_header(signed_container(container)).fourcc == file_header(container).fourcc
            &&& file_header(signed_container(container)).container_version == file_header(
                container,
            ).container_version
            &&& file_header(signed_container(container)).file_length == file_header(
                container,
            ).file_length
            &&& file_header(signed_container(container)).num_chunks == file_header(
                container,
            ).num_chunks
        },
        is_signable(signed_container(container)) == is_signable(container),
{
    let signed = signed_container(container);
    let digest = digest_bytes(payload_digest(container.skip(20)));
    assert(digest.len() == 16);
    assert(signed.subrange(4, 20) =~= digest);
    assert(signed.skip(20) =~= container.skip(20));
}

/// The hash value that signing writes reads back, word by word, as the
/// state words of the digest.
pub proof fn lemma_signed_hash_words(container: Seq<u8>)
    requires
        container.len() >= 20,
    ensures
        file_header(signed_container(container)).hash_value == payload_digest(container.skip(20)),
{
    let signed = signed_container(container);
    let state = payload_digest(container.skip(20));
    modified_md5::lemma_blocks_len(initial_state(), padded_payload(container.skip(20)));
    lemma_word_bytes(state[0]);
    lemma_word_bytes(state[1]);
    lemma_word_bytes(state[2]);
    lemma_word_bytes(state[3]);
    assert(signed.subrange(4, 8) =~= word_bytes(state[0]));
    assert(signed.subrange(8, 12) =~= word_bytes(state[1]));
    assert(signed.subrange(12, 16) =~= word_bytes(state[2]));
    assert(signed.subrange(16, 20) =~= word_bytes(state[3]));
    lemma_le_word_at(signed, 4);
    lemma_le_word_at(signed, 8);
    lemma_le_word_at(signed, 12);
    lemma_le_word_at(signed, 16);
    assert(file_header(signed).hash_value =~= state);
}

/// A word read at `at` is the word that the four bytes from `at` spell.
pub proof fn lemma_le_word_at(bytes: Seq<u8>, at: int)
    requires
        0 <= at,
        at + 4 <= bytes.len(),
    ensures
        le_word(bytes, at) == le_word(bytes.subrange(at, at + 4), 0),
{
}

/// Signing a second time writes the same hash value again.
pub proof fn lemma_signing_twice(container: Seq<u8>)
    requires
        container.len() >= 20,
    ensures
        signed_container(signed_container(container)) == signed_container(container),
{
    lemma_signed_container(container);
    let once = signed_container(container);
    assert(once.take(4) =~= container.take(4));
    assert(signed_container(once) =~= once);
}

/// Reads a little-endian word at `at`.
fn load_word(bytes: &[u8], at: usize) -> (word: u32)
    requires
        at + 4 <= bytes@.len(),
    ensures
        word == le_word(bytes@, at as int),
{
    let b0: u8 = bytes[at];
    let b1: u8 = bytes[at + 1];
    let b2: u8 = bytes[at + 2];
    let b3: u8 = bytes[at + 3];
    let word: u32 = (b0 as u32) | ((b1 as u32) << 8) | ((b2 as u32) << 16) | ((b3 as u32) << 24);
    assert(word == b0 + 0x100 * b1 + 0x1_0000 * b2 + 0x100_0000 * b3) by (bit_vector)
        requires
            word == (b0 as u32) | ((b1 as u32) << 8) | ((b2 as u32) << 16) | ((b3 as u32) << 24),
    ;
    word
}

/// The four bytes of a word, lowest first.
fn to_le_bytes(x: u32) -> (bytes: [u8; 4])
    ensures
        bytes@ == word_bytes(x),
{
    let b0: u8 = (x & 0xff) as u8;
    let b1: u8 = ((x >> 8) & 0xff) as u8;
    let b2: u8 = ((x >> 16) & 0xff) as u8;
    let b3: u8 = (x >> 24) as u8;
    assert(x & 0xff == x % 0x100) by (bit_vector);
    assert((x >> 8) & 0xff == (x / 0x100) % 0x100) by (bit_vector);
    assert((x >> 16) & 0xff == (x / 0x1_0000) % 0x100) by (bit_vector);
    assert(x >> 24 == x / 0x100_0000 && x >> 24 < 0x100) by (bit_vector);
    let bytes: [u8; 4] = [b0, b1, b2, b3];
    assert(bytes@ =~= word_bytes(x));
    bytes
}

/// Reads the FourCC of a container.
pub fn read_fourcc(dxil: &[u8]) -> (fourcc: u32)
    requires
        dxil@.len() >= 4,
    ensures
        fourcc == le_word(dxil@, 0),
{
    load_word(dxil, 0)
}

/// Reads the file length that a container's header states.
pub fn read_file_length(dxil: &[u8]) -> (length: u32)
    requires
        dxil@.len() >= 28,
    ensures
        length == le_word(dxil@, 24),
{
    load_word(dxil, 24)
}

/// Writes four state words into the hash value of a container's header.
pub fn write_hash_value(dxil: &mut [u8], state: [u32; 4])
    requires
        old(dxil)@.len() >= 20,
    ensures
        final(dxil)@ == old(dxil)@.take(4) + digest_bytes(state@) + old(dxil)@.skip(20),
{
    let mut w: usize = 0;
    while w < 4
        invariant
            w <= 4,
            dxil@.len() == old(dxil)@.len(),
            dxil@.len() >= 20,
            dxil@.take(4) == old(dxil)@.take(4),
            dxil@.skip(20) == old(dxil)@.skip(20),
            forall|t: int| 0 <= t < w ==> #[trigger] hash_word(dxil@, t) == word_bytes(state@[t]),
        decreases 4 - w,
    {
        let bytes = to_le_bytes(state[w]);
        let at: usize = 4 + 4 * w;
        let ghost before = dxil@;
        dxil[at] = bytes[0];
        dxil[at + 1] = bytes[1];
        dxil[at + 2] = bytes[2];
        dxil[at + 3] = bytes[3];
        proof {
            assert(dxil@.take(4) =~= before.take(4));
            assert(dxil@.skip(20) =~= before.skip(20));
            assert(hash_word(dxil@, w as int) =~= bytes@);
            assert forall|t: int| 0 <= t < w implies #[trigger] hash_word(dxil@, t) == word_bytes(
                state@[t],
            ) by {
                assert(hash_word(dxil@, t) =~= hash_word(before, t));
            }
        }
        w += 1;
    }
    proof {
        let hash = dxil@.subrange(4, 20);
        assert(hash =~= hash_word(dxil@, 0) + hash_word(dxil@, 1) + hash_word(dxil@, 2)
            + hash_word(dxil@, 3));
        assert(dxil@ =~= dxil@.take(4) + hash + dxil@.skip(20));
    }
}

/// Writes the four bytes of `x` into `block` at `at`.
fn put_word(block: &mut [u8; 64], at: usize, x: u32)
    requires
        at + 4 <= 64,
    ensures
        final(block)@ == old(block)@.take(at as int) + word_bytes(x) + old(block)@.skip(at + 4),
{
    let bytes = to_le_bytes(x);
    block[at] = bytes[0];
    block[at + 1] = bytes[1];
    block[at + 2] = bytes[2];
    block[at + 3] = bytes[3];
    assert(block@ =~= old(block)@.take(at as int) + word_bytes(x) + old(block)@.skip(at + 4));
}

/// With the marker word written at its start, a zeroed block begins with
/// the marker and zeros.
proof fn lemma_marker_piece(block: Seq<u8>, left: int)
    requires
        56 <= left < 64,
        block == zeros(64).take(0) + word_bytes(0x80u32) + zeros(64).skip(4),
    ensures
        block.subrange(0, 64 - left) == seq![0x80u8] + zeros(63 - left),
{
    assert(word_bytes(0x80u32) =~= seq![0x80u8, 0u8, 0u8, 0u8]);
    assert(block.subrange(0, 64 - left) =~= seq![0x80u8] + zeros(63 - left));
}

/// With the bit count written over the marker and the closing word at the
/// end, the block is the bit count, zeros, and the closing word.
proof fn lemma_length_block(marked: Seq<u8>, counted: Seq<u8>, closed: Seq<u8>, bits: u32, tag: u32)
    requires
        marked == zeros(64).take(0) + word_bytes(0x80u32) + zeros(64).skip(4),
        counted == marked.take(0) + word_bytes(bits) + marked.skip(4),
        closed == counted.take(60) + word_bytes(tag) + counted.skip(64),
    ensures
        closed == word_bytes(bits) + zeros(56) + word_bytes(tag),
{
    assert(closed =~= word_bytes(bits) + zeros(56) + word_bytes(tag));
}

/// With the marker at its start and the closing word `fill` bytes in, the
/// first `fill + 4` bytes of a zeroed block are the marker, zeros, and the
/// closing word.
proof fn lemma_closing_piece(marked: Seq<u8>, closed: Seq<u8>, fill: int, tag: u32)
    requires
        1 <= fill <= 56,
        marked == zeros(64).update(0, 0x80u8),
        closed == marked.take(fill) + word_bytes(tag) + marked.skip(fill + 4),
    ensures
        closed.subrange(0, fill + 4) == seq![0x80u8] + zeros(fill - 1) + word_bytes(tag),
{
    assert(closed.subrange(0, fill + 4) =~= seq![0x80u8] + zeros(fill - 1) + word_bytes(tag));
}

/// Three pieces consumed in turn are their concatenation consumed at once.
proof fn lemma_absorb_three(v: ContextView, a: Seq<u8>, b: Seq<u8>, c: Seq<u8>)
    requires
        v.wf(),
    ensures
        absorb(absorb(absorb(v, a), b), c) == absorb(v, a + b + c),
{
    lemma_absorb_concat(v, a, b);
    lemma_absorb_concat(v, a + b, c);
}

/// The padding for a tail of 56 bytes or more: the tail and the marker fill
/// one block, and a block of its own carries the bit count and the closing
/// word.
fn close_long_tail(ctx: &mut Context, tail: &[u8], num_bits: u32, num_bits_part_2: u32)
    requires
        56 <= tail@.len() < 64,
    ensures
        final(ctx)@ == absorb(
            old(ctx)@,
            tail@ + seq![0x80u8] + zeros(63 - tail@.len()) + word_bytes(num_bits) + zeros(56)
                + word_bytes(num_bits_part_2),
        ),
{
    let left_over_len: usize = tail.len();
    let mut block: [u8; 64] = [0u8; 64];
    assert(block@ =~= zeros(64));

    ctx.consume(tail);

    put_word(&mut block, 0, 0x80u32);
    let ghost marked = block@;
    let marker = vstd::slice::slice_subrange(block.as_slice(), 0, 64 - left_over_len);
    proof {
        lemma_marker_piece(marked, left_over_len as int);
    }
    ctx.consume(marker);

    // the final block contains the number of bits in the first dword, and the weird upper bits
    put_word(&mut block, 0, num_bits);
    let ghost counted = block@;

    // write to last dword
    put_word(&mut block, 15 * 4, num_bits_part_2);
    proof {
        lemma_length_block(marked, counted, block@, num_bits, num_bits_part_2);
    }

    ctx.consume(block.as_slice());
    proof {
        old(ctx).lemma_view();
        let marking = seq![0x80u8] + zeros(63 - left_over_len);
        let closing = word_bytes(num_bits) + zeros(56) + word_bytes(num_bits_part_2);
        lemma_absorb_three(old(ctx)@, tail@, marking, closing);
        assert(tail@ + marking + closing =~= tail@ + seq![0x80u8] + zeros(63 - tail@.len()) + word_bytes(
            num_bits,
        ) + zeros(56) + word_bytes(num_bits_part_2));
    }
}

/// The padding for a tail of fewer than 56 bytes: the bit count goes in
/// first, with no marker before it, then the tail, the marker, zeros, and
/// the closing word, which ends the block.
fn close_short_tail(ctx: &mut Context, tail: &[u8], num_bits: u32, num_bits_part_2: u32)
    requires
        tail@.len() < 56,
    ensures
        final(ctx)@ == absorb(
            old(ctx)@,
            word_bytes(num_bits) + tail@ + seq![0x80u8] + zeros(55 - tail@.len()) + word_bytes(
                num_bits_part_2,
            ),
        ),
{
    let left_over_len: usize = tail.len();
    let mut block: [u8; 64] = [0u8; 64];
    assert(block@ =~= zeros(64));

    let bits = to_le_bytes(num_bits);
    ctx.consume(bits.as_slice());

    if left_over_len != 0 {
        ctx.consume(tail)
    }
    let padding_bytes: usize = 64 - left_over_len - 4;

    block[0] = 0x80;
    let ghost marked = block@;
    put_word(&mut block, padding_bytes - 4, num_bits_part_2);
    let closing = vstd::slice::slice_subrange(block.as_slice(), 0, padding_bytes);
    proof {
        lemma_closing_piece(marked, block@, padding_bytes - 4, num_bits_part_2);
    }
    ctx.consume(closing);
    proof {
        old(ctx).lemma_view();
        if left_over_len == 0 {
            lemma_absorb_wf(old(ctx)@, word_bytes(num_bits));
            lemma_absorb_nothing(absorb(old(ctx)@, word_bytes(num_bits)));
            assert(tail@ =~= Seq::<u8>::empty());
        }
        let size = word_bytes(num_bits);
        let rest = seq![0x80u8] + zeros(55 - left_over_len) + word_bytes(num_bits_part_2);
        lemma_absorb_three(old(ctx)@, size, tail@, rest);
        assert(size + tail@ + rest =~= word_bytes(num_bits) + tail@ + seq![0x80u8] + zeros(
            55 - tail@.len(),
        ) + word_bytes(num_bits_part_2));
    }
}

/// The state words that sign `data`, the bytes behind the hash value.
fn digest_payload(data: &[u8]) -> (state: [u32; 4])
    ensures
        state@ == payload_digest(data@),
{
    let length: u32 = #[verifier::truncate]
    (data.len() as u32);
    let num_bits: u32 = length.wrapping_mul(8);
    let num_bits_part_2: u32 = (num_bits >> 2) | 1;
    let left_over_len: u32 = length % 64;
    proof {
        let n = data.len();
        assert(length == (n as u64) % 0x1_0000_0000 && length % 64 == (n as u64) % 64)
            by (bit_vector)
            requires
                length == n as u32,
        ;
        vstd::arithmetic::div_mod::lemma_mul_mod_noop_general(n as int, 8, 0x1_0000_0000);
        assert(num_bits == payload_bits(data@.len())) by {
            assert((n as int * 8) % 0x1_0000_0000 == (8 * n) % 0x1_0000_0000);
        }
    }
    let split: usize = data.len() - left_over_len as usize;
    let first_part = vstd::slice::slice_subrange(data, 0, split);
    let padding_part = vstd::slice::slice_subrange(data, split, data.len());
    proof {
        assert(first_part@ =~= data@.take(split as int));
        assert(padding_part@ =~= data@.skip(split as int));
    }

    let mut ctx = Context::new();
    ctx.consume(first_part);
    let ghost fed = ctx@;

    if left_over_len >= 56 {
        close_long_tail(&mut ctx, padding_part, num_bits, num_bits_part_2);
    } else {
        close_short_tail(&mut ctx, padding_part, num_bits, num_bits_part_2);
    }
    proof {
        assert(ctx@ == absorb(fed, final_blocks(data@)));
        lemma_absorb_concat(fresh_view(), first_part@, final_blocks(data@));
        lemma_absorb_parts(fresh_view(), padded_payload(data@));
        assert(Seq::<u8>::empty() + padded_payload(data@) =~= padded_payload(data@));
    }

    // dxil signing is odd - it doesn't run the finalization step of the md5
    // algorithm but instead pokes the hasher state directly into container
    ctx.state()
}

/// Helper function for signing DXIL binary blobs when
/// `dxil.dll` might not be available (such as on Linux based
/// platforms).
///
/// Returns `false`, and leaves the buffer as it is, unless the buffer holds
/// a whole header with the FourCC `"DXBC"` and states its own length.
/// Otherwise the hash value in the header is overwritten with the digest of
/// everything behind it, and nothing else changes.
pub fn fake_sign_dxil_in_place(dxil: &mut [u8]) -> (signed: bool)
    ensures
        signed == is_signable(old(dxil)@),
        signed ==> final(dxil)@ == signed_container(old(dxil)@),
        !signed ==> final(dxil)@ == old(dxil)@,
{
    let total: usize = dxil.len();
    if total < DXIL_HEADER_SIZE {
        return false;
    }
    if read_fourcc(dxil) != DXBC_FOURCC {
        return false;
    }
    let stated: u32 = read_file_length(dxil);
    let actual: u32 = #[verifier::truncate]
    (total as u32);
    assert(actual == (total as u64) % 0x1_0000_0000) by (bit_vector)
        requires
            actual == total as u32,
    ;
    if stated != actual {
        return false;
    }
    // the hashable data starts immediately after the hash.

    let data = vstd::slice::slice_subrange(dxil, DXIL_HEADER_CONTAINER_VERSION_OFFSET, total);
    assert(data@ =~= old(dxil)@.skip(20));
    let state = digest_payload(data);

    write_hash_value(dxil, state);

    true
}

} // verus!
