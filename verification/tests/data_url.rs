use sketchgames::data_url::{decode_data_url, DataUrlError};

#[test]
fn data_url_payload_is_decoded() {
    assert_eq!(decode_data_url("data:image/png;base64,aGVsbG8=").unwrap(), b"hello".to_vec());
    assert_eq!(decode_data_url("x,,aGk=").unwrap_err(), DataUrlError::InvalidBase64);
    assert_eq!(decode_data_url(",aGk=").unwrap(), b"hi".to_vec());
}

#[test]
fn data_url_errors() {
    assert_eq!(decode_data_url("no comma here").unwrap_err(), DataUrlError::InvalidDataUrl);
    assert_eq!(decode_data_url("data:,***").unwrap_err(), DataUrlError::InvalidBase64);
    assert_eq!(DataUrlError::InvalidDataUrl.message(), "Invalid data URL");
    assert_eq!(DataUrlError::InvalidBase64.message(), "Failed to decode base64 data");
}
