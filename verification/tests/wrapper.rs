use hassle_rs::os::HRESULT;
use hassle_rs::utils::WCHAR;
use hassle_rs::wrapper::{
    include_outcome, load_include, prep_args, prep_defines, DxcBlob, DxcBlobEncoding, DxcEncoding,
    DxcIncludeHandler, DxcOperationResult, CP_ACP, CP_UTF8, ERROR_FILE_NOT_FOUND,
};

fn wide(text: &str) -> Vec<WCHAR> {
    let mut units: Vec<WCHAR> = widestring::WideString::from_str(text).into_vec();
    units.push(0);
    units
}

struct OneFile;

impl DxcIncludeHandler for OneFile {
    fn load_source(&mut self, filename: String) -> Option<String> {
        if filename == "common.hlsl" {
            Some("float4 zero() { return 0; }".to_owned())
        } else {
            None
        }
    }
}

#[test]
fn blob_hands_out_its_bytes() {
    let blob = DxcBlob::new(vec![4, 5, 6]);
    assert_eq!(blob.as_slice(), &[4u8, 5, 6]);
    assert_eq!(blob.to_vec(), vec![4u8, 5, 6]);
    assert!(DxcBlob::new(Vec::new()).to_vec().is_empty());
}

#[test]
fn blob_can_be_signed_in_place() {
    let mut bytes = b"DXBC".to_vec();
    bytes.extend_from_slice(&[0u8; 16]);
    bytes.extend_from_slice(&[0xAAu8; 32]);
    bytes[24..28].copy_from_slice(&52u32.to_le_bytes());
    let mut blob = DxcBlob::new(bytes.clone());
    assert!(hassle_rs::fake_sign_dxil_in_place(blob.as_mut_slice()));
    let signed = blob.to_vec();
    assert_eq!(signed[..4], bytes[..4]);
    assert_eq!(
        signed[4..20],
        [
            0x63, 0x74, 0xbe, 0xd6, 0xf4, 0x40, 0xcd, 0x5b, 0x00, 0xc9, 0x0d, 0x1a, 0x90, 0x18,
            0xbc, 0xfb
        ]
    );
    assert_eq!(signed[20..], bytes[20..]);
}

#[test]
fn utf8_blob_reads_as_text() {
    let blob = DxcBlobEncoding::new("caf\u{e9} \u{1f600}".as_bytes().to_vec(), DxcEncoding::Utf8);
    assert_eq!(blob.encoding(), DxcEncoding::Utf8);
    assert_eq!(blob.as_str(), Some("caf\u{e9} \u{1f600}"));
    assert_eq!(blob.as_blob().to_vec(), "caf\u{e9} \u{1f600}".as_bytes());
}

#[test]
fn empty_utf8_blob_reads_as_empty_text() {
    let blob = DxcBlobEncoding::new(Vec::new(), DxcEncoding::Utf8);
    assert_eq!(blob.as_str(), Some(""));
}

#[test]
fn blob_of_unknown_encoding_has_no_text() {
    let blob = DxcBlobEncoding::new(b"text all the same".to_vec(), DxcEncoding::Unknown);
    assert_eq!(blob.encoding(), DxcEncoding::Unknown);
    assert_eq!(blob.as_str(), None);
    let binary = DxcBlobEncoding::new(vec![0xff, 0xfe, 0x00], DxcEncoding::Unknown);
    assert_eq!(binary.as_str(), None);
}

#[test]
fn code_pages_decode_to_encodings() {
    assert_eq!(CP_ACP, 0);
    assert_eq!(CP_UTF8, 65001);
    assert_eq!(DxcBlobEncoding::decode_encoding(0, CP_ACP), DxcEncoding::Unknown);
    assert_eq!(DxcBlobEncoding::decode_encoding(1, CP_UTF8), DxcEncoding::Utf8);
}

#[test]
fn operation_result_keeps_its_parts() {
    let result = DxcOperationResult::new(
        HRESULT(3),
        DxcBlob::new(vec![1, 2]),
        DxcBlobEncoding::new(b"note".to_vec(), DxcEncoding::Utf8),
    );
    assert_eq!(result.get_status(), HRESULT(3));
    assert_eq!(result.get_result().to_vec(), vec![1u8, 2]);
    assert_eq!(result.get_error_buffer().as_str(), Some("note"));
}

#[test]
fn found_include_is_handed_on() {
    assert_eq!(
        include_outcome(Some("text".to_owned())),
        Ok("text".to_owned())
    );
    let mut handler = OneFile;
    assert_eq!(
        load_include(&mut handler, "common.hlsl".to_owned()),
        Ok("float4 zero() { return 0; }".to_owned())
    );
}

#[test]
fn missing_include_is_file_not_found() {
    assert_eq!(ERROR_FILE_NOT_FOUND as u32, 0x80070002);
    assert_eq!(include_outcome(None), Err(HRESULT(-2_147_024_894)));
    let mut handler = OneFile;
    assert_eq!(
        load_include(&mut handler, "other.hlsl".to_owned()),
        Err(HRESULT(ERROR_FILE_NOT_FOUND))
    );
}

#[test]
fn args_become_nul_terminated_wide_strings() {
    let wide_args = prep_args(&["-spirv", "", "-T\u{e9}\u{1f600}"]);
    assert_eq!(wide_args.len(), 3);
    assert_eq!(wide_args[0], wide("-spirv"));
    assert_eq!(wide_args[0].len(), 7);
    assert_eq!(wide_args[0][0], '-' as WCHAR);
    assert_eq!(wide_args[0][6], 0);
    assert_eq!(wide_args[1], vec![0 as WCHAR]);
    assert_eq!(wide_args[2], wide("-T\u{e9}\u{1f600}"));
    assert!(prep_args(&[]).is_empty());
}

#[test]
fn trailing_nul_is_not_doubled() {
    let wide_args = prep_args(&["ab\0"]);
    assert_eq!(wide_args[0], vec!['a' as WCHAR, 'b' as WCHAR, 0]);
}

#[test]
fn define_without_value_gets_one() {
    let wide_defines = prep_defines(&[("MY_DEFINE", Some("Value")), ("OTHER_DEFINE", None)]);
    assert_eq!(wide_defines.len(), 2);
    assert_eq!(wide_defines[0], (wide("MY_DEFINE"), wide("Value")));
    assert_eq!(wide_defines[1], (wide("OTHER_DEFINE"), wide("1")));
    assert_eq!(wide_defines[1].1, vec!['1' as WCHAR, 0]);
}

#[test]
fn define_with_empty_value_keeps_it() {
    let wide_defines = prep_defines(&[("EMPTY", Some(""))]);
    assert_eq!(wide_defines[0].1, vec![0 as WCHAR]);
    assert!(prep_defines(&[]).is_empty());
}

#[test]
fn wide_strings_end_in_the_only_nul() {
    let wide_args = prep_args(&["abc", "", "x\0"]);
    for wide in &wide_args {
        assert_eq!(wide.last(), Some(&0));
        assert!(wide[..wide.len() - 1].iter().all(|unit| *unit != 0));
    }
    let wide_defines = prep_defines(&[("A", Some("b")), ("C", None)]);
    for (name, value) in &wide_defines {
        assert_eq!(name.last(), Some(&0));
        assert!(name[..name.len() - 1].iter().all(|unit| *unit != 0));
        assert_eq!(value.last(), Some(&0));
        assert!(value[..value.len() - 1].iter().all(|unit| *unit != 0));
    }
}
