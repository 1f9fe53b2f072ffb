//! Errors, what a result code means, and the outcome of an operation.

use vstd::prelude::*;
use vstd::std_specs::iter::IteratorSpec;
use vstd::utf8::decode_utf8;

use crate::os::HRESULT;
use crate::wrapper::DxcEncoding;
use crate::wrapper::DxcOperationResult;

verus! {

/// A character of the platform's wide strings.
pub type WCHAR = widestring::WideChar;

/// An error of the dynamic loader.
#[verifier::external_type_specification]
#[verifier::external_body]
pub struct ExLoaderError(libloading::Error);

/// A path in the file system.
#[verifier::external_type_specification]
#[verifier::external_body]
pub struct ExPathBuf(std::path::PathBuf);

/// The nul-terminated wide string that `widestring` makes of a text: the
/// text in UTF-16 or UTF-32, as wide as the platform's wide characters are,
/// and one nul at its end.
pub uninterp spec fn wide_c_string(text: Seq<char>) -> Seq<WCHAR>;

/// Whether a text has no nul but, possibly, as its last character.
pub open spec fn no_interior_nul(text: Seq<char>) -> bool {
    forall|i: int| 0 <= i < text.len() - 1 ==> text[i] != '\0'
}

/// Whether a wide string ends in a nul and holds no other.
pub open spec fn nul_terminated(wide: Seq<WCHAR>) -> bool {
    &&& wide.len() >= 1
    &&& wide.last() == 0
    &&& forall|i: int| 0 <= i < wide.len() - 1 ==> wide[i] != 0
}

/// Tests whether a text has no nul but, possibly, as its last character.
pub fn has_no_interior_nul(text: &str) -> (ok: bool)
    ensures
        ok == no_interior_nul(text@),
{
    broadcast use {vstd::string::axiom_spec_iter, vstd::string::next_postcondition};

    let mut chars = text.chars();
    let mut after_nul = false;
    let ghost mut seen: int = 0;
    assert(text@.skip(0) =~= text@);
    loop
        invariant
            0 <= seen <= text@.len(),
            chars.obeys_prophetic_iter_laws(),
            chars.remaining() == text@.skip(seen),
            forall|j: int| 0 <= j < seen - 1 ==> text@[j] != '\0',
            after_nul == (seen > 0 && text@[seen - 1] == '\0'),
        decreases text@.len() - seen,
    {
        match chars.next() {
            Some(c) => {
                if after_nul {
                    assert(text@[seen - 1] == '\0' && seen - 1 < text@.len() - 1);
                    return false;
                }
                after_nul = c == '\0';
                proof {
                    assert(text@.skip(seen).drop_first() =~= text@.skip(seen + 1));
                    seen = seen + 1;
                }
            },
            None => {
                return true;
            },
        }
    }
}

/// `widestring::WideCString::from_str` and `into_vec_with_nul`: the text as
/// a wide string that ends in a nul and holds no other. The conversion
/// fails on a nul inside the text, so such a text is not accepted.
#[verifier::external_body]
pub(crate) fn to_wide(msg: &str) -> (wide: Vec<WCHAR>)
    requires
        no_interior_nul(msg@),
    ensures
        wide@ == wide_c_string(msg@),
        nul_terminated(wide@),
{
    widestring::WideCString::from_str(msg).unwrap().into_vec_with_nul()
}

/// Low-level library errors and high-level compilation errors.
#[derive(Debug)]
pub enum HassleError {
    /// The compiler ran and reported a failure: its status and its messages.
    OperationError(HRESULT, String),
    /// A call into the compiler failed.
    Win32Error(HRESULT),
    /// The compiler's library could not be loaded.
    LoadLibraryError { filename: std::path::PathBuf, inner: libloading::Error },
    /// The loader failed otherwise.
    LibLoadingError(libloading::Error),
}

impl From<libloading::Error> for HassleError {
    fn from(inner: libloading::Error) -> (error: Self) {
        HassleError::LibLoadingError(inner)
    }
}

impl vstd::std_specs::convert::FromSpecImpl<libloading::Error> for HassleError {
    open spec fn obeys_from_spec() -> bool {
        true
    }

    open spec fn from_spec(inner: libloading::Error) -> Self {
        HassleError::LibLoadingError(inner)
    }
}

impl HRESULT {
    /// Turns an [`HRESULT`] into a [`Result`] containing [`HassleError`]:
    /// a failure code becomes [`HassleError::Win32Error`].
    pub fn result(self) -> (outcome: Result<(), HassleError>)
        ensures
            outcome == if self.0 < 0 {
                Err::<(), HassleError>(HassleError::Win32Error(self))
            } else {
                Ok::<(), HassleError>(())
            },
    {
        self.result_with_success(())
    }

    /// Turns an [`HRESULT`] into a [`Result`] containing [`HassleError`],
    /// with the desired value.
    ///
    /// Note that `v` is passed by value and is not a closure that is executed
    /// lazily.
    pub fn result_with_success<T>(self, v: T) -> (outcome: Result<T, HassleError>)
        ensures
            outcome == if self.0 < 0 {
                Err::<T, HassleError>(HassleError::Win32Error(self))
            } else {
                Ok::<T, HassleError>(v)
            },
    {
        if self.is_err() {
            Err(HassleError::Win32Error(self))
        } else {
            Ok(v)
        }
    }
}

/// Wraps a successful output with optional compiler warnings/messages from [`DxcOperationResult`].
/// Create with [`Self::from_operation_result()`].
#[derive(Clone, Debug, PartialEq, Eq, Hash)]
pub struct OperationOutput {
    /// Messages ("error buffer") from DXC, typically contains warnings emitted while compiling or
    /// validating shaders.
    pub messages: Option<String>,
    /// The resulting blob (typically a compiled or validated shader).
    pub blob: Vec<u8>,
}

impl OperationOutput {
    /// What an outcome must satisfy to be processed: its messages are
    /// UTF-8, and it carries a result exactly when its status is a success.
    pub open spec fn accepts(result: DxcOperationResult) -> bool {
        &&& result.error_buffer().spec_encoding() == DxcEncoding::Utf8
        &&& result.error_buffer().readable()
        &&& result.status().0 < 0 <==> result.result().len() == 0
    }

    /// Whether `outcome` is what processing `result` gives. A failure
    /// status gives [`HassleError::OperationError`] with the status and the
    /// messages. A success gives the bytes that were produced, with the
    /// messages where there are any.
    pub open spec fn describes(
        outcome: Result<Self, HassleError>,
        result: DxcOperationResult,
    ) -> bool {
        let text = decode_utf8(result.error_buffer().bytes());
        match outcome {
            Err(HassleError::OperationError(status, messages)) => {
                &&& result.status().0 < 0
                &&& status == result.status()
                &&& messages@ == text
            },
            Err(_) => false,
            Ok(output) => {
                &&& result.status().0 >= 0
                &&& output.blob@ == result.result()
                &&& match output.messages {
                    Some(messages) => text.len() > 0 && messages@ == text,
                    None => text.len() == 0,
                }
            },
        }
    }

    /// Helper to process [`DxcOperationResult`].
    ///
    /// A failure status becomes [`HassleError::OperationError`] with the
    /// messages. A success becomes the output, whose messages are `None`
    /// where the compiler had nothing to say.
    pub fn from_operation_result(result: DxcOperationResult) -> (outcome: Result<
        Self,
        HassleError,
    >)
        requires
            Self::accepts(result),
        ensures
            Self::describes(outcome, result),
    {
        // Result blobs are always available, they might just be empty (length == 0) if there's no
        // relevant data in them.
        let error = result.get_error_buffer();
        let error = match error.as_str() {
            Some(text) => text,
            None => {
                proof {
                    assert(false);
                }
                ""
            },
        };

        let output = result.get_result();

        let status = result.get_status();

        if status.is_err() {
            Err(HassleError::OperationError(status, error.to_owned()))
        } else {
            Ok(
                OperationOutput {
                    messages: if error.is_empty() {
                        None
                    } else {
                        Some(error.to_owned())
                    },
                    blob: output.to_vec(),
                },
            )
        }
    }
}

} // verus!
