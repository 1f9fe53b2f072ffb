use hassle_rs::fake_sign::modified_md5::transform;
use hassle_rs::fake_sign::{
    fake_sign_dxil_in_place, read_file_length, read_fourcc, write_hash_value, DXBC_FOURCC,
    DXIL_HEADER_CONTAINER_VERSION_OFFSET, DXIL_HEADER_SIZE,
};

/// A container of `total` bytes: the FourCC, a zeroed hash value, and from
/// offset 20 on a pattern, with the file length written into the header.
fn container(total: usize, fill: fn(usize) -> u8) -> Vec<u8> {
    let mut bytes = Vec::with_capacity(total);
    bytes.extend_from_slice(b"DXBC");
    bytes.extend_from_slice(&[0u8; 16]);
    for i in 20..total {
        bytes.push(fill(i));
    }
    bytes[24..28].copy_from_slice(&(total as u32).to_le_bytes());
    bytes
}

fn pattern(i: usize) -> u8 {
    ((i * 7 + 3) & 0xff) as u8
}

fn all_aa(_: usize) -> u8 {
    0xAA
}

fn hex(bytes: &[u8]) -> String {
    let mut text = String::new();
    for b in bytes {
        text.push_str(&format!("{:02x}", b));
    }
    text
}

fn signed_hash(total: usize) -> String {
    let mut dxil = container(total, pattern);
    assert!(fake_sign_dxil_in_place(&mut dxil));
    hex(&dxil[4..20])
}

#[test]
fn signs_minimal_container() {
    let mut dxil = container(52, all_aa);
    assert_eq!(dxil.len(), 52);
    assert!(fake_sign_dxil_in_place(&mut dxil));
    assert_eq!(hex(&dxil[4..20]), "6374bed6f440cd5b00c90d1a9018bcfb");
    assert_eq!(
        hex(&dxil),
        "445842436374bed6f440cd5b00c90d1a9018bcfbaaaaaaaa34000000\
         aaaaaaaaaaaaaaaaaaaaaaaaaaaaaaaaaaaaaaaaaaaaaaaa"
    );
}

#[test]
fn hash_words_are_little_endian() {
    let mut dxil = container(52, all_aa);
    assert!(fake_sign_dxil_in_place(&mut dxil));
    let word = |at: usize| u32::from_le_bytes([dxil[at], dxil[at + 1], dxil[at + 2], dxil[at + 3]]);
    assert_eq!(
        [word(4), word(8), word(12), word(16)],
        [0xd6be7463, 0x5bcd40f4, 0x1a0dc900, 0xfbbc1890]
    );
}

#[test]
fn signs_header_only_container() {
    assert_eq!(signed_hash(32), "f5d8c1a64ee509b20c95d89f0fb3bb9f");
}

#[test]
fn tail_of_55_bytes_fits_one_block() {
    assert_eq!(signed_hash(20 + 55), "79523852e128c61f85a388a1efeea558");
    assert_eq!(signed_hash(20 + 64 + 55), "198b7bf7ca9497cf1b2be201e08d22f2");
    assert_eq!(signed_hash(20 + 3 * 64 + 55), "7b99d7fa98896bf813c92146db1b63fb");
}

#[test]
fn tail_of_56_bytes_takes_a_second_block() {
    assert_eq!(signed_hash(20 + 56), "34d0b5d1cd8ce8f6eae852009e7aa183");
    assert_eq!(signed_hash(20 + 64 + 56), "0a6c1350ebaaee84055e289fc7eace75");
    assert_eq!(signed_hash(20 + 3 * 64 + 56), "aec550060324ba4556fd5f0737e92f49");
}

#[test]
fn tail_of_63_bytes_takes_a_second_block() {
    assert_eq!(signed_hash(20 + 63), "aa13f443aa2368f3075785638560f560");
    assert_eq!(signed_hash(20 + 64 + 63), "6cb541e1e8d26aff6da0cc4a6580cea3");
    assert_eq!(signed_hash(20 + 3 * 64 + 63), "ec3844773d322c2cd2623e595ec57a66");
}

#[test]
fn empty_tail_fits_one_block() {
    assert_eq!(signed_hash(20 + 64), "ebc31d427f5334f9b6ff9be670ce776b");
    assert_eq!(signed_hash(20 + 128), "58cd239b4daaf964c8cdbd40a1acb711");
    assert_eq!(signed_hash(20 + 4 * 64), "e3ff9795d3a16e9f3074644485e1820a");
}

#[test]
fn signs_longer_container() {
    assert_eq!(signed_hash(1000), "2ff0ac55177e284a7e65a63c2702bd96");
}

#[test]
fn signing_is_deterministic() {
    for total in [32usize, 52, 75, 76, 83, 84, 147, 148, 1000] {
        let unsigned = container(total, pattern);
        let mut first = unsigned.clone();
        let mut second = unsigned.clone();
        assert!(fake_sign_dxil_in_place(&mut first));
        assert!(fake_sign_dxil_in_place(&mut second));
        assert_eq!(first, second);
    }
}

#[test]
fn earlier_hash_value_does_not_matter() {
    let mut zeroed = container(300, pattern);
    let mut stamped = container(300, pattern);
    for i in 4..20 {
        stamped[i] = 0xC3;
    }
    assert!(fake_sign_dxil_in_place(&mut zeroed));
    assert!(fake_sign_dxil_in_place(&mut stamped));
    assert_eq!(zeroed, stamped);
}

#[test]
fn signing_twice_changes_nothing_more() {
    let mut dxil = container(140, pattern);
    assert!(fake_sign_dxil_in_place(&mut dxil));
    let once = dxil.clone();
    assert!(fake_sign_dxil_in_place(&mut dxil));
    assert_eq!(dxil, once);
}

#[test]
fn wrong_magic_is_refused_and_buffer_kept() {
    let mut dxil = container(52, all_aa);
    dxil[0] = b'X';
    let before = dxil.clone();
    assert!(!fake_sign_dxil_in_place(&mut dxil));
    assert_eq!(dxil, before);

    let mut dxil = container(52, all_aa);
    dxil[3] = b'c';
    let before = dxil.clone();
    assert!(!fake_sign_dxil_in_place(&mut dxil));
    assert_eq!(dxil, before);
}

#[test]
fn wrong_length_is_refused_and_buffer_kept() {
    let mut dxil = container(52, all_aa);
    dxil[24] = 53;
    let before = dxil.clone();
    assert!(!fake_sign_dxil_in_place(&mut dxil));
    assert_eq!(dxil, before);

    let mut dxil = container(52, all_aa);
    dxil.push(0);
    let before = dxil.clone();
    assert!(!fake_sign_dxil_in_place(&mut dxil));
    assert_eq!(dxil, before);
}

#[test]
fn short_buffer_is_refused_and_buffer_kept() {
    for total in [0usize, 3, 4, 19, 20, 27, 28, 31] {
        let mut dxil: Vec<u8> = b"DXBC".iter().copied().cycle().take(total).collect();
        if total >= 28 {
            dxil[24..28].copy_from_slice(&(total as u32).to_le_bytes());
        }
        let before = dxil.clone();
        assert!(!fake_sign_dxil_in_place(&mut dxil));
        assert_eq!(dxil, before);
    }
}

#[test]
fn only_the_hash_value_changes() {
    for total in [32usize, 52, 76, 147, 1000] {
        let before = container(total, pattern);
        let mut dxil = before.clone();
        assert!(fake_sign_dxil_in_place(&mut dxil));
        assert_eq!(dxil.len(), before.len());
        assert_eq!(dxil[..4], before[..4]);
        assert_ne!(dxil[4..20], before[4..20]);
        assert_eq!(dxil[20..], before[20..]);
        // container version, file length, number of chunks
        assert_eq!(dxil[20..24], before[20..24]);
        assert_eq!(dxil[24..28], before[24..28]);
        assert_eq!(dxil[28..32], before[28..32]);
    }
}

#[test]
fn fourcc_is_dxbc() {
    assert_eq!(DXBC_FOURCC, u32::from_le_bytes([b'D', b'X', b'B', b'C']));
    let dxil = container(52, all_aa);
    assert_eq!(read_fourcc(&dxil), DXBC_FOURCC);
    assert_eq!(read_fourcc(b"ABCD"), 0x44434241);
}

#[test]
fn file_length_is_read_at_offset_24() {
    let mut dxil = container(52, all_aa);
    assert_eq!(read_file_length(&dxil), 52);
    dxil[24..28].copy_from_slice(&[0x78, 0x56, 0x34, 0x12]);
    assert_eq!(read_file_length(&dxil), 0x12345678);
}

#[test]
fn hash_value_is_written_at_offset_4() {
    let mut dxil = container(40, all_aa);
    let before = dxil.clone();
    write_hash_value(&mut dxil, [0x04030201, 0x08070605, 0x0c0b0a09, 0x100f0e0d]);
    assert_eq!(dxil[..4], before[..4]);
    assert_eq!(
        dxil[4..20],
        [1u8, 2, 3, 4, 5, 6, 7, 8, 9, 10, 11, 12, 13, 14, 15, 16]
    );
    assert_eq!(dxil[20..], before[20..]);
}

#[test]
fn hash_value_fits_a_buffer_of_20_bytes() {
    let mut dxil = vec![0xEEu8; 20];
    write_hash_value(&mut dxil, [0xffffffff, 0, 0x80000000, 1]);
    assert_eq!(
        dxil,
        [
            0xEE, 0xEE, 0xEE, 0xEE, 0xff, 0xff, 0xff, 0xff, 0, 0, 0, 0, 0, 0, 0, 0x80, 1, 0, 0, 0
        ]
    );
}

/// Runs the block function over `bytes`, a whole number of blocks, from the
/// initial state.
fn run_blocks(bytes: &[u8]) -> [u32; 4] {
    assert_eq!(bytes.len() % 64, 0);
    let mut state = [0x67452301u32, 0xefcdab89, 0x98badcfe, 0x10325476];
    for block in bytes.chunks(64) {
        let mut words = [0u32; 16];
        for (j, word) in words.iter_mut().enumerate() {
            *word = u32::from_le_bytes([
                block[4 * j],
                block[4 * j + 1],
                block[4 * j + 2],
                block[4 * j + 3],
            ]);
        }
        transform(&mut state, &words);
    }
    state
}

fn hash_words(dxil: &[u8]) -> [u32; 4] {
    let word = |at: usize| u32::from_le_bytes([dxil[at], dxil[at + 1], dxil[at + 2], dxil[at + 3]]);
    [word(4), word(8), word(12), word(16)]
}

#[test]
fn short_tail_layout_of_the_final_block() {
    for k in 0..3usize {
        for left in [0usize, 1, 12, 55] {
            let total = 20 + 64 * k + left;
            if total < 32 {
                continue;
            }
            let mut dxil = container(total, pattern);
            let payload = dxil[20..].to_vec();
            let bits = (payload.len() as u32) * 8;
            let mut fed = payload[..64 * k].to_vec();
            // one block: bit count, tail, marker, zeros, closing word
            fed.extend_from_slice(&bits.to_le_bytes());
            fed.extend_from_slice(&payload[64 * k..]);
            fed.push(0x80);
            fed.extend(std::iter::repeat(0u8).take(55 - left));
            fed.extend_from_slice(&((bits >> 2) | 1).to_le_bytes());
            assert_eq!(fed.len(), 64 * (k + 1));
            assert!(fake_sign_dxil_in_place(&mut dxil));
            assert_eq!(hash_words(&dxil), run_blocks(&fed), "k {} left {}", k, left);
        }
    }
}

#[test]
fn long_tail_layout_of_the_final_blocks() {
    for k in 0..3usize {
        for left in [56usize, 57, 60, 63] {
            let total = 20 + 64 * k + left;
            let mut dxil = container(total, pattern);
            let payload = dxil[20..].to_vec();
            let bits = (payload.len() as u32) * 8;
            let mut fed = payload.clone();
            // first block: tail, marker, zeros to the end of the block
            fed.push(0x80);
            fed.extend(std::iter::repeat(0u8).take(63 - left));
            assert_eq!(fed.len(), 64 * (k + 1));
            // second block: bit count first, closing word last
            fed.extend_from_slice(&bits.to_le_bytes());
            fed.extend_from_slice(&[0u8; 56]);
            fed.extend_from_slice(&((bits >> 2) | 1).to_le_bytes());
            assert_eq!(fed.len(), 64 * (k + 2));
            assert!(fake_sign_dxil_in_place(&mut dxil));
            assert_eq!(hash_words(&dxil), run_blocks(&fed), "k {} left {}", k, left);
        }
    }
}

#[test]
fn header_sizes() {
    assert_eq!(DXIL_HEADER_SIZE, 32);
    assert_eq!(DXIL_HEADER_CONTAINER_VERSION_OFFSET, 20);
}
