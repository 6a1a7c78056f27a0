use turicraft::ping::{
    offline, online_status, packet, ping_request, plain_text, read_varint, reply_len, status_request, write_varint, Chat,
    VarintError, MAX_REPLY,
};

#[test]
fn varints() {
    for (v, bytes) in [
        (0, vec![0x00]),
        (1, vec![0x01]),
        (127, vec![0x7f]),
        (128, vec![0x80, 0x01]),
        (25565, vec![0xdd, 0xc7, 0x01]),
        (2147483647, vec![0xff, 0xff, 0xff, 0xff, 0x07]),
        (-1, vec![0xff, 0xff, 0xff, 0xff, 0x0f]),
    ] {
        let mut buf = Vec::new();
        write_varint(&mut buf, v);
        assert_eq!(buf, bytes, "{v}");
        assert_eq!(read_varint(&bytes).unwrap(), (v, bytes.len()));
    }
    assert!(read_varint(&[0x80]).is_err());
    assert!(read_varint(&[]).is_err());
    assert!(matches!(read_varint(&[0x80, 0x80, 0x80, 0x80, 0x80, 0x01]), Err(_)));
    let _ = VarintError::TooLong;
}

#[test]
fn packets() {
    assert_eq!(packet(0, &[]), [1, 0]);
    assert_eq!(packet(1, &[9, 9]), [3, 1, 9, 9]);
    assert_eq!(ping_request(), [9, 1, 0, 0, 0, 0, 0x74, 0x75, 0x72, 0x69]);
    let r = status_request("ab", 25565);
    // handshake: -1, "ab", port, next state 1; then the empty status request
    assert_eq!(r, [12, 0, 0xff, 0xff, 0xff, 0xff, 0x0f, 2, b'a', b'b', 0x63, 0xdd, 1, 1, 0]);
    assert_eq!(reply_len(10), Some(10));
    assert_eq!(reply_len(-1), None);
    assert_eq!(reply_len(MAX_REPLY), Some(1 << 20));
    assert_eq!(reply_len(MAX_REPLY + 1), None);
}

#[test]
fn server_message() {
    let motd = Chat::Component {
        text: Some(Box::new(Chat::Text("§aTuri ".into()))),
        extra: vec![Chat::Text("§lCraft".into()), Chat::List(vec![Chat::Text(" V2 ".into())]), Chat::Other],
    };
    assert_eq!(plain_text(&motd), "Turi Craft V2");
    let s = online_status(Some(3), Some(20), Some("1.21.1".into()), &motd, 42);
    assert!(s.online);
    assert_eq!((s.players, s.max_players, s.latency_ms), (3, 20, 42));
    assert_eq!(s.version, "1.21.1");
    assert_eq!(s.error, None);
    let s = online_status(None, Some((1u64 << 32) + 5), None, &Chat::Other, 1);
    assert_eq!((s.players, s.max_players), (0, 5));
    assert_eq!(s.version, "");
    let o = offline("refused".into());
    assert!(!o.online);
    assert_eq!(o.error.as_deref(), Some("refused"));
}
