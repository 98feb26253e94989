use tiny_dns::protocol::util::encode_domain;

#[test]
fn test_encode_domain() {
    let encoded = encode_domain("example.com".to_string());
    assert!(encoded.is_ok());
    assert_eq!(
        encoded.unwrap(),
        vec![7, 101, 120, 97, 109, 112, 108, 101, 3, 99, 111, 109, 0]
    );

    let encoded = encode_domain("example.com.".to_string());
    assert!(encoded.is_ok());
    assert_eq!(
        encoded.unwrap(),
        vec![7, 101, 120, 97, 109, 112, 108, 101, 3, 99, 111, 109, 0]
    );

    let encoded = encode_domain(".example.com".to_string());
    assert!(encoded.is_ok());
    assert_eq!(
        encoded.unwrap(),
        vec![7, 101, 120, 97, 109, 112, 108, 101, 3, 99, 111, 109, 0]
    );

    let encoded = encode_domain("example..com".to_string());
    assert!(encoded.is_err());

    let encoded = encode_domain(".".to_string());
    assert!(encoded.is_ok());
    assert_eq!(encoded.unwrap(), vec![0]);
}
