use hassle_rs::os::HRESULT;
use hassle_rs::utils::{has_no_interior_nul, HassleError, OperationOutput};
use hassle_rs::wrapper::{DxcBlob, DxcBlobEncoding, DxcEncoding, DxcOperationResult};

fn outcome(status: i32, result: &[u8], messages: &str) -> DxcOperationResult {
    DxcOperationResult::new(
        HRESULT(status),
        DxcBlob::new(result.to_vec()),
        DxcBlobEncoding::new(messages.as_bytes().to_vec(), DxcEncoding::Utf8),
    )
}

#[test]
fn success_code_gives_ok() {
    assert!(matches!(HRESULT(0).result(), Ok(())));
    assert!(matches!(HRESULT(1).result(), Ok(())));
    assert!(matches!(HRESULT(0).result_with_success(17u8), Ok(17)));
    assert!(matches!(
        HRESULT(i32::MAX).result_with_success("kept"),
        Ok("kept")
    ));
}

#[test]
fn failure_code_gives_win32_error() {
    assert!(matches!(
        HRESULT(-1).result(),
        Err(HassleError::Win32Error(HRESULT(-1)))
    ));
    assert!(matches!(
        HRESULT(-2_147_024_894).result_with_success(17u8),
        Err(HassleError::Win32Error(HRESULT(-2_147_024_894)))
    ));
    assert!(matches!(
        HRESULT(i32::MIN).result_with_success(()),
        Err(HassleError::Win32Error(HRESULT(i32::MIN)))
    ));
}

#[test]
fn loader_error_becomes_lib_loading_error() {
    let error = HassleError::from(libloading::Error::DlOpenUnknown);
    assert!(matches!(
        error,
        HassleError::LibLoadingError(libloading::Error::DlOpenUnknown)
    ));
}

#[test]
fn successful_operation_without_messages() {
    let output = OperationOutput::from_operation_result(outcome(0, &[1, 2, 3], "")).unwrap();
    assert_eq!(
        output,
        OperationOutput {
            messages: None,
            blob: vec![1, 2, 3],
        }
    );
}

#[test]
fn successful_operation_with_warnings() {
    let output =
        OperationOutput::from_operation_result(outcome(1, &[9], "warning: unused\n")).unwrap();
    assert_eq!(output.messages.as_deref(), Some("warning: unused\n"));
    assert_eq!(output.blob, vec![9]);
}

#[test]
fn failed_operation_carries_status_and_messages() {
    let error =
        OperationOutput::from_operation_result(outcome(-2_147_467_259, &[], "error: bad \u{e9}"))
            .unwrap_err();
    match error {
        HassleError::OperationError(status, text) => {
            assert_eq!(status, HRESULT(-2_147_467_259));
            assert_eq!(text, "error: bad \u{e9}");
        }
        other => panic!("unexpected error {:?}", other),
    }
}

#[test]
fn failed_operation_without_messages() {
    let error = OperationOutput::from_operation_result(outcome(-1, &[], "")).unwrap_err();
    assert!(matches!(error, HassleError::OperationError(HRESULT(-1), text) if text.is_empty()));
}

#[test]
fn load_library_error_names_the_file() {
    let error = HassleError::LoadLibraryError {
        filename: std::path::PathBuf::from("libdxcompiler.so"),
        inner: libloading::Error::DlOpenUnknown,
    };
    match error {
        HassleError::LoadLibraryError { filename, inner } => {
            assert_eq!(filename.to_str(), Some("libdxcompiler.so"));
            assert!(matches!(inner, libloading::Error::DlOpenUnknown));
        }
        other => panic!("unexpected error {:?}", other),
    }
}

#[test]
fn text_without_nul_has_no_interior_nul() {
    assert!(has_no_interior_nul(""));
    assert!(has_no_interior_nul("a"));
    assert!(has_no_interior_nul("-spirv"));
    assert!(has_no_interior_nul("caf\u{e9} \u{1f600}"));
}

#[test]
fn nul_as_last_character_is_not_interior() {
    assert!(has_no_interior_nul("\0"));
    assert!(has_no_interior_nul("ab\0"));
    assert!(has_no_interior_nul("\u{e9}\0"));
}

#[test]
fn nul_before_the_last_character_is_interior() {
    assert!(!has_no_interior_nul("\0a"));
    assert!(!has_no_interior_nul("a\0b"));
    assert!(!has_no_interior_nul("\0\0"));
    assert!(!has_no_interior_nul("ab\0\0"));
    assert!(!has_no_interior_nul("\0ab\0"));
    assert!(!has_no_interior_nul("a\0\u{1f600}"));
}
