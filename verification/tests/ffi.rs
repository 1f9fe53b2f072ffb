use hassle_rs::fake_sign::DXBC_FOURCC;
use hassle_rs::ffi::{
    fourcc, shader_version_major_version, shader_version_minor_version,
    shader_version_program_type, D3D12_SHADER_VERSION_TYPE, DFCC_DXIL,
};

#[test]
fn fourcc_puts_the_first_character_lowest() {
    assert_eq!(fourcc([1, 2, 3, 4]), 0x04030201);
    assert_eq!(fourcc([0, 0, 0, 0]), 0);
    assert_eq!(fourcc([0xff, 0xff, 0xff, 0xff]), u32::MAX);
    assert_eq!(fourcc([0, 0, 0, 0x80]), 0x8000_0000);
}

#[test]
fn container_codes_are_what_their_letters_spell() {
    assert_eq!(fourcc([b'D', b'X', b'I', b'L']), DFCC_DXIL);
    assert_eq!(fourcc([b'D', b'X', b'B', b'C']), DXBC_FOURCC);
    assert_eq!(DFCC_DXIL, u32::from_le_bytes([b'D', b'X', b'I', b'L']));
}

#[test]
fn compute_shader_6_1() {
    // program type 5 (compute), major 6, minor 1
    let version = 0x0005_0061u32;
    assert_eq!(shader_version_program_type(version), D3D12_SHADER_VERSION_TYPE(5));
    assert_eq!(shader_version_major_version(version), 6);
    assert_eq!(shader_version_minor_version(version), 1);
}

#[test]
fn bits_between_the_parts_are_ignored() {
    let version = 0x0001_ff50u32;
    assert_eq!(shader_version_program_type(version).0, 1);
    assert_eq!(shader_version_major_version(version), 5);
    assert_eq!(shader_version_minor_version(version), 0);
}

#[test]
fn extreme_versions() {
    assert_eq!(shader_version_program_type(0).0, 0);
    assert_eq!(shader_version_major_version(0), 0);
    assert_eq!(shader_version_minor_version(0), 0);
    assert_eq!(shader_version_program_type(u32::MAX).0, 0xffff);
    assert_eq!(shader_version_major_version(u32::MAX), 15);
    assert_eq!(shader_version_minor_version(u32::MAX), 15);
}
