//! Plain values of the compiler's reflection interface.

use vstd::prelude::*;

use crate::fake_sign::modified_md5::le_word;
use crate::fake_sign::DXBC_FOURCC;

verus! {

/// `"DXIL"`, the kind of the container part that holds the shader.
pub const DFCC_DXIL: u32 = 0x4c49_5844;

/// The code that four characters spell, the first in the lowest byte.
pub fn fourcc(chars: [u8; 4]) -> (code: u32)
    ensures
        code == le_word(chars@, 0),
{
    let b0: u8 = chars[0];
    let b1: u8 = chars[1];
    let b2: u8 = chars[2];
    let b3: u8 = chars[3];
    let code: u32 = (b0 as u32) | (b1 as u32) << 8 | (b2 as u32) << 16 | (b3 as u32) << 24;
    assert(code == b0 + 0x100 * b1 + 0x1_0000 * b2 + 0x100_0000 * b3) by (bit_vector)
        requires
            code == (b0 as u32) | (b1 as u32) << 8 | (b2 as u32) << 16 | (b3 as u32) << 24,
    ;
    code
}

/// The two codes of the container format are what their letters spell.
pub proof fn lemma_container_codes()
    ensures
        DXBC_FOURCC == le_word(seq![0x44u8, 0x58u8, 0x42u8, 0x43u8], 0),
        DFCC_DXIL == le_word(seq![0x44u8, 0x58u8, 0x49u8, 0x4cu8], 0),
{
}

/// The kind of program that a shader version names (pixel, vertex, compute
/// and so on), as the reflection interface numbers them.
#[allow(non_camel_case_types)]
#[derive(Clone, Copy, Debug, PartialEq, Eq, Structural)]
pub struct D3D12_SHADER_VERSION_TYPE(pub i32);

/// The program type of a shader version: its upper sixteen bits.
pub fn shader_version_program_type(version: u32) -> (program: D3D12_SHADER_VERSION_TYPE)
    ensures
        program.0 == version / 0x1_0000,
{
    // see https://learn.microsoft.com/en-us/windows/win32/api/d3d12shader/ns-d3d12shader-d3d12_shader_desc
    let upper: u32 = (version & 0xFFFF0000u32) >> 16;
    assert(upper == version / 0x1_0000 && upper < 0x1_0000) by (bit_vector)
        requires
            upper == (version & 0xFFFF0000u32) >> 16,
    ;
    D3D12_SHADER_VERSION_TYPE(upper as i32)
}

/// The major version of a shader version: bits 4 to 7.
pub fn shader_version_major_version(version: u32) -> (major: u32)
    ensures
        major == (version / 16) % 16,
{
    // see https://learn.microsoft.com/en-us/windows/win32/api/d3d12shader/ns-d3d12shader-d3d12_shader_desc
    let major: u32 = (version & 0x000000F0) >> 4;
    assert(major == (version / 16) % 16) by (bit_vector)
        requires
            major == (version & 0x000000F0) >> 4,
    ;
    major
}

/// The minor version of a shader version: its lowest four bits.
pub fn shader_version_minor_version(version: u32) -> (minor: u32)
    ensures
        minor == version % 16,
{
    // see https://learn.microsoft.com/en-us/windows/win32/api/d3d12shader/ns-d3d12shader-d3d12_shader_desc
    let minor: u32 = version & 0x0000000F;
    assert(minor == version % 16) by (bit_vector)
        requires
            minor == version & 0x0000000F,
    ;
    minor
}

} // verus!
