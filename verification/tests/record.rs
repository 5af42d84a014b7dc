use hop_endpoint::record::{address_text, public_url_for, sign_well_known};

#[test]
fn the_body_is_json_with_three_fields() {
    let mut address = [0u8; 32];
    address[31] = 58;
    let body = sign_well_known(&address, "wss://a.b/", &[0xfb, 0xff, 0xfe, 0x01]);
    let leading = "1".repeat(31);
    assert_eq!(
        String::from_utf8(body).unwrap(),
        format!(
            "{{\"address\":\"{leading}21\",\"endpoint\":\"wss://a.b/\",\"reach\":\"+//+AQ==\"}}"
        )
    );
}

#[test]
fn an_empty_record_is_an_empty_text() {
    let body = String::from_utf8(sign_well_known(&[1u8; 32], "", &[])).unwrap();
    assert!(body.ends_with("\"endpoint\":\"\",\"reach\":\"\"}"));
}

#[test]
fn the_fields_read_back() {
    let record: Vec<u8> = (0..=255).collect();
    let body = String::from_utf8(sign_well_known(&[3u8; 32], "wss://x/", &record)).unwrap();
    let quoted: Vec<&str> = body.split('"').skip(1).step_by(2).collect();
    assert_eq!(quoted.len(), 6);
    assert_eq!(quoted[0], "address");
    assert_eq!(quoted[1], address_text(&[3u8; 32]));
    assert_eq!(quoted[2], "endpoint");
    assert_eq!(quoted[3], "wss://x/");
    assert_eq!(quoted[4], "reach");
    assert_eq!(quoted[5].len(), 344);
}

#[test]
fn addresses_are_base58() {
    let text = address_text(&[0xffu8; 32]);
    assert_eq!(text, "JEKNVnkbo3jma5nREBBJCDoXFVeKkD56V3xKrvRmWxFG");
    assert_eq!(bs58::decode(&text).into_vec().unwrap(), vec![0xffu8; 32]);
}

#[test]
fn clients_dial_the_domain() {
    assert_eq!(public_url_for("example.hopme.sh"), "wss://example.hopme.sh/");
}
