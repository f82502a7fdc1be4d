use oxi::markdown::{code_block_language, try_decode_data_url_image};

#[test]
fn data_urls_decode_base64_payloads() {
    assert_eq!(
        try_decode_data_url_image("data:image/png;base64, aGk= "),
        Some(b"hi".to_vec())
    );
    assert_eq!(try_decode_data_url_image("data:image/png,aGk="), None);
    assert_eq!(try_decode_data_url_image("https://x/y.png"), None);
    assert_eq!(try_decode_data_url_image("data:image/png;base64"), None);
    assert_eq!(try_decode_data_url_image("data:image/png;base64,@@@"), None);
}

#[test]
fn code_block_languages() {
    assert_eq!(code_block_language(Some("rust ignore")), "rust");
    assert_eq!(code_block_language(Some("   ")), "code");
    assert_eq!(code_block_language(None), "code");
}
