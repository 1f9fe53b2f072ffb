//! # Hassle
//!
//! Verified helpers around the [DirectXShaderCompiler](https://github.com/Microsoft/DirectXShaderCompiler)
//! library: the values that its interfaces hand back, the rules that turn
//! them into results, and the signing of DXIL containers.
//!
//! The heart of the crate is [`fake_sign_dxil_in_place`], which stamps a
//! DXIL container with the checksum that the validator expects. The
//! checksum is computed with an MD5 variant whose state is used raw,
//! without the usual finalisation.

#![allow(non_upper_case_globals)]
// Allow uppercase names to match Windows API:
#![allow(clippy::upper_case_acronyms)]

pub mod fake_sign;
pub mod ffi;
pub mod intellisense;
pub mod os;
pub mod utils;
pub mod wrapper;

pub use crate::fake_sign::fake_sign_dxil_in_place;
pub use crate::ffi::{
    shader_version_major_version, shader_version_minor_version, shader_version_program_type,
    D3D12_SHADER_VERSION_TYPE,
};
pub use crate::os::HRESULT;
pub use crate::utils::{HassleError, OperationOutput};
pub use crate::wrapper::{
    DxcBlob, DxcBlobEncoding, DxcEncoding, DxcIncludeHandler, DxcOperationResult,
};
