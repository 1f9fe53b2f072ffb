//! What the compiler hands back, held as plain values.
//!
//! The compiler's own objects live behind COM interfaces. The types here
//! hold what was read from them, so that the rules on those values can be
//! stated and checked apart from the calls that fetch them.

use vstd::prelude::*;
use vstd::utf8::decode_utf8;
use vstd::utf8::valid_utf8;

use crate::os::HRESULT;
use crate::utils::no_interior_nul;
use crate::utils::nul_terminated;
use crate::utils::to_wide;
use crate::utils::wide_c_string;
use crate::utils::WCHAR;

verus! {

/// The code page that marks a blob as binary or of unknown text encoding.
pub const CP_ACP: u32 = 0;

/// The code page of UTF-8 text.
pub const CP_UTF8: u32 = 65001;

/// The bytes of a blob.
pub struct DxcBlob {
    bytes: Vec<u8>,
}

impl View for DxcBlob {
    type V = Seq<u8>;

    closed spec fn view(&self) -> Seq<u8> {
        self.bytes@
    }
}

impl DxcBlob {
    /// A blob of the given bytes.
    pub fn new(bytes: Vec<u8>) -> (blob: Self)
        ensures
            blob@ == bytes@,
    {
        Self { bytes }
    }

    /// The bytes of the blob.
    pub fn as_slice(&self) -> (bytes: &[u8])
        ensures
            bytes@ == self@,
    {
        self.bytes.as_slice()
    }

    /// The bytes of the blob, to be changed in place.
    pub fn as_mut_slice(&mut self) -> (bytes: &mut [u8])
        ensures
            bytes@ == old(self)@,
            final(self)@ == final(bytes)@,
    {
        self.bytes.as_mut_slice()
    }

    /// A copy of the bytes of the blob.
    pub fn to_vec(&self) -> (bytes: Vec<u8>)
        ensures
            bytes@ == self@,
    {
        self.bytes.clone()
    }
}

/// How the bytes of a blob are to be read.
#[derive(Clone, Copy, Debug, PartialEq, Eq, Structural, Hash)]
pub enum DxcEncoding {
    Unknown,
    Utf8,
}

/// A blob together with its encoding.
pub struct DxcBlobEncoding {
    blob: DxcBlob,
    encoding: DxcEncoding,
}

impl DxcBlobEncoding {
    /// The bytes of the blob.
    pub closed spec fn bytes(&self) -> Seq<u8> {
        self.blob@
    }

    /// The encoding of the blob.
    pub closed spec fn spec_encoding(&self) -> DxcEncoding {
        self.encoding
    }

    /// Whether the blob can be read as its encoding says: a blob that
    /// claims UTF-8 holds UTF-8.
    pub open spec fn readable(&self) -> bool {
        self.spec_encoding() == DxcEncoding::Utf8 ==> valid_utf8(self.bytes())
    }

    /// A blob of the given bytes and encoding.
    pub fn new(bytes: Vec<u8>, encoding: DxcEncoding) -> (blob: Self)
        ensures
            blob.bytes() == bytes@,
            blob.spec_encoding() == encoding,
    {
        Self { blob: DxcBlob::new(bytes), encoding }
    }

    /// The encoding that the compiler's answer stands for: `known` is its
    /// flag for a known encoding, `code_page` the code page it names.
    pub fn decode_encoding(known: u32, code_page: u32) -> (encoding: DxcEncoding)
        requires
            known == 0 && code_page == CP_ACP || known == 1 && code_page == CP_UTF8,
        ensures
            encoding == if known == 0 {
                DxcEncoding::Unknown
            } else {
                DxcEncoding::Utf8
            },
    {
        if known == 0 {
            DxcEncoding::Unknown
        } else {
            DxcEncoding::Utf8
        }
    }

    /// The encoding of the blob.
    #[verifier::when_used_as_spec(spec_encoding)]
    pub fn encoding(&self) -> (encoding: DxcEncoding)
        ensures
            encoding == self.spec_encoding(),
    {
        self.encoding
    }

    /// The blob without its encoding.
    pub fn as_blob(&self) -> (blob: &DxcBlob)
        ensures
            blob@ == self.bytes(),
    {
        &self.blob
    }

    /// Returns [`None`] if [`Self::encoding()`] is not [`DxcEncoding::Utf8`], and the text of the
    /// blob if it is.
    pub fn as_str(&self) -> (text: Option<&str>)
        requires
            self.readable(),
        ensures
            self.spec_encoding() == DxcEncoding::Unknown ==> text is None,
            self.spec_encoding() == DxcEncoding::Utf8 ==> text is Some && text.unwrap()@
                == decode_utf8(self.bytes()),
    {
        match self.encoding {
            DxcEncoding::Unknown => None,
            DxcEncoding::Utf8 => str_from_utf8(self.blob.as_slice()),
        }
    }
}

/// `std::str::from_utf8`: the bytes as text where they are valid UTF-8,
/// and nothing where they are not.
#[verifier::external_body]
fn str_from_utf8(bytes: &[u8]) -> (text: Option<&str>)
    ensures
        text is Some <==> valid_utf8(bytes@),
        text is Some ==> text.unwrap()@ == decode_utf8(bytes@),
{
    std::str::from_utf8(bytes).ok()
}

/// The outcome of a compilation or validation: a status, the blob that
/// was produced, and the messages that came with it.
pub struct DxcOperationResult {
    status: HRESULT,
    result: DxcBlob,
    error_buffer: DxcBlobEncoding,
}

impl DxcOperationResult {
    /// The status.
    pub closed spec fn status(&self) -> HRESULT {
        self.status
    }

    /// The bytes that were produced.
    pub closed spec fn result(&self) -> Seq<u8> {
        self.result@
    }

    /// The messages.
    pub closed spec fn error_buffer(&self) -> DxcBlobEncoding {
        self.error_buffer
    }

    /// An outcome of the given parts.
    pub fn new(status: HRESULT, result: DxcBlob, error_buffer: DxcBlobEncoding) -> (outcome: Self)
        ensures
            outcome.status() == status,
            outcome.result() == result@,
            outcome.error_buffer() == error_buffer,
    {
        Self { status, result, error_buffer }
    }

    pub fn get_status(&self) -> (status: HRESULT)
        ensures
            status == self.status(),
    {
        self.status
    }

    pub fn get_result(&self) -> (blob: &DxcBlob)
        ensures
            blob@ == self.result(),
    {
        &self.result
    }

    pub fn get_error_buffer(&self) -> (blob: &DxcBlobEncoding)
        ensures
            *blob == self.error_buffer(),
    {
        &self.error_buffer
    }
}

/// A source of include files, for a caller to implement.
pub trait DxcIncludeHandler {
    fn load_source(&mut self, filename: String) -> Option<String>;
}

/// The code that tells the compiler that an include file was not found
/// (`ERROR_FILE_NOT_FOUND`, `0x80070002`).
pub const ERROR_FILE_NOT_FOUND: i32 = -2_147_024_894;

/// What the compiler is told of an include file: its text where the
/// handler found it, and `ERROR_FILE_NOT_FOUND` where it did not.
pub open spec fn include_result(source: Option<String>) -> Result<String, HRESULT> {
    match source {
        Some(text) => Ok(text),
        None => Err(HRESULT(ERROR_FILE_NOT_FOUND)),
    }
}

/// What the compiler is told of an include file: its text where the
/// handler found it, and `ERROR_FILE_NOT_FOUND` where it did not.
pub fn include_outcome(source: Option<String>) -> (found: Result<String, HRESULT>)
    ensures
        found == include_result(source),
{
    match source {
        Some(text) => Ok(text),
        None => Err(HRESULT(ERROR_FILE_NOT_FOUND)),
    }
}

/// Asks `handler` for an include file, and answers as [`include_outcome`]
/// says for what the handler returned.
///
/// The handler is called once, as it was handed in and with `filename` as
/// it is. The answer is the outcome of what that call returned, and the
/// handler is left as that call left it. A failure is always
/// `ERROR_FILE_NOT_FOUND`.
pub fn load_include<H: DxcIncludeHandler>(handler: &mut H, filename: String) -> (found: Result<
    String,
    HRESULT,
>)
    ensures
        exists|called: &mut H, source: Option<String>|
            {
                &&& mut_ref_current(called) == *old(handler)
                &&& mut_ref_future(called) == *final(handler)
                &&& #[trigger] call_ensures(H::load_source, (called, filename), source)
                &&& found == include_result(source)
            },
        found is Err ==> found == Err::<String, HRESULT>(HRESULT(ERROR_FILE_NOT_FOUND)),
{
    include_outcome(handler.load_source(filename))
}

/// The wide strings of a list of arguments, in their order. Each ends in
/// a nul and holds no other.
pub fn prep_args(args: &[&str]) -> (wide_args: Vec<Vec<WCHAR>>)
    requires
        forall|i: int| 0 <= i < args@.len() ==> no_interior_nul(#[trigger] args@[i]@),
    ensures
        wide_args@.len() == args@.len(),
        forall|i: int|
            0 <= i < args@.len() ==> (#[trigger] wide_args@[i])@ == wide_c_string(args@[i]@),
        forall|i: int| 0 <= i < args@.len() ==> nul_terminated((#[trigger] wide_args@[i])@),
{
    let mut wide_args: Vec<Vec<WCHAR>> = Vec::new();
    let mut i: usize = 0;
    while i < args.len()
        invariant
            i <= args@.len(),
            wide_args@.len() == i,
            forall|j: int| 0 <= j < args@.len() ==> no_interior_nul(#[trigger] args@[j]@),
            forall|j: int| 0 <= j < i ==> (#[trigger] wide_args@[j])@ == wide_c_string(args@[j]@),
            forall|j: int| 0 <= j < i ==> nul_terminated((#[trigger] wide_args@[j])@),
        decreases args@.len() - i,
    {
        wide_args.push(to_wide(args[i]));
        i += 1;
    }
    wide_args
}

/// The wide strings of a list of definitions, name and value. A
/// definition without a value gets the value `1`. Each string ends in a nul
/// and holds no other.
pub fn prep_defines(defines: &[(&str, Option<&str>)]) -> (wide_defines: Vec<
    (Vec<WCHAR>, Vec<WCHAR>),
>)
    requires
        forall|i: int|
            0 <= i < defines@.len() ==> no_interior_nul((#[trigger] defines@[i]).0@) && (
            defines@[i].1 matches Some(value) ==> no_interior_nul(value@)),
    ensures
        wide_defines@.len() == defines@.len(),
        forall|i: int|
            0 <= i < defines@.len() ==> (#[trigger] wide_defines@[i]).0@ == wide_c_string(
                defines@[i].0@,
            ) && wide_defines@[i].1@ == wide_c_string(define_value(defines@[i].1)),
        forall|i: int|
            0 <= i < defines@.len() ==> nul_terminated((#[trigger] wide_defines@[i]).0@)
                && nul_terminated(wide_defines@[i].1@),
{
    let mut wide_defines: Vec<(Vec<WCHAR>, Vec<WCHAR>)> = Vec::new();
    let mut i: usize = 0;
    while i < defines.len()
        invariant
            i <= defines@.len(),
            wide_defines@.len() == i,
            forall|j: int|
                0 <= j < defines@.len() ==> no_interior_nul((#[trigger] defines@[j]).0@) && (
                defines@[j].1 matches Some(value) ==> no_interior_nul(value@)),
            forall|j: int|
                0 <= j < i ==> (#[trigger] wide_defines@[j]).0@ == wide_c_string(defines@[j].0@)
                    && wide_defines@[j].1@ == wide_c_string(define_value(defines@[j].1)),
            forall|j: int|
                0 <= j < i ==> nul_terminated((#[trigger] wide_defines@[j]).0@) && nul_terminated(
                    wide_defines@[j].1@,
                ),
        decreases defines@.len() - i,
    {
        let name: &str = defines[i].0;
        let value: &str = match defines[i].1 {
            Some(value) => value,
            None => "1",
        };
        proof {
            reveal_strlit("1");
            assert(value@ =~= define_value(defines@[i as int].1));
        }
        wide_defines.push((to_wide(name), to_wide(value)));
        i += 1;
    }
    wide_defines
}

/// The value that a definition stands for: its own, or `1` where it has
/// none.
pub open spec fn define_value(value: Option<&str>) -> Seq<char> {
    match value {
        Some(text) => text@,
        None => seq!['1'],
    }
}

} // verus!
