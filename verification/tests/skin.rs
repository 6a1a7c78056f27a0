use turicraft::skin::{decoded_textures, https_url, skin_data_url, textures_value};

#[test]
fn skin_for_the_interface() {
    assert_eq!(skin_data_url(b"abc"), "data:image/png;base64,YWJj");
    assert_eq!(skin_data_url(b"ab"), "data:image/png;base64,YWI=");
    assert_eq!(skin_data_url(b"a"), "data:image/png;base64,YQ==");
    assert_eq!(skin_data_url(&[0xfb, 0xff]), "data:image/png;base64,+/8=");
    assert_eq!(skin_data_url(b""), "data:image/png;base64,");
}

#[test]
fn textures_of_a_profile() {
    let props = vec![
        (Some("other".to_string()), Some("x".to_string())),
        (Some("textures".to_string()), Some("eyJhIjoxfQ==".to_string())),
        (Some("textures".to_string()), Some("second".to_string())),
    ];
    let v = textures_value(&props).unwrap();
    assert_eq!(v, "eyJhIjoxfQ==");
    assert_eq!(decoded_textures(&v).unwrap(), br#"{"a":1}"#);
    assert_eq!(decoded_textures("not base64!"), None);
    assert_eq!(textures_value(&vec![(None, Some("v".into())), (Some("textures".into()), None)]), None);
    assert_eq!(textures_value(&vec![]), None);
}

#[test]
fn skin_address_over_https() {
    assert_eq!(https_url("http://textures.minecraft.net/texture/ab"), "https://textures.minecraft.net/texture/ab");
    assert_eq!(https_url("https://already"), "https://already");
    assert_eq!(https_url("x http://a http://b"), "x https://a http://b");
}
