use turicraft::auth::{
    offline_session, page, poll_step, read_redirect, redirect_decodable_exec, reply, url_decodable, url_decode,
    url_encode, xsts_refusal, Redirect, SignInError,
};

#[test]
fn encodage_url() {
    assert_eq!(url_encode("XboxLive.signin offline_access"), "XboxLive.signin%20offline_access");
    assert_eq!(url_decode("a%20b%3Dc+d"), "a b=c d");
}

#[test]
fn uuid_hors_ligne_comme_java() {
    // UUID.nameUUIDFromBytes("OfflinePlayer:Notch".getBytes(UTF_8))
    assert_eq!(offline_session("Notch").uuid, "b50ad385829d3141a2167e7d7539ba7f");
}

#[test]
fn offline_session_tokens_are_zero() {
    let s = offline_session("Testeur");
    assert_eq!(s.name, "Testeur");
    assert_eq!(s.access_token, "0");
    assert_eq!(s.xuid, "0");
    assert_eq!(s.uuid.len(), 32);
    // version 3, RFC 4122 variant
    assert_eq!(&s.uuid[12..13], "3");
    assert!(matches!(&s.uuid[16..17], "8" | "9" | "a" | "b"));
}

#[test]
fn url_encoding_round_trip() {
    for s in ["", "abc", "é à ü", "a+b=c&d", "100% sûr", "🎮 jeu"] {
        let e = url_encode(s);
        assert!(url_decodable(&e));
        assert_eq!(url_decode(&e), s);
    }
}

#[test]
fn url_decoding_edge_cases() {
    // a `%` not followed by two digits is dropped when two bytes follow it
    assert_eq!(url_decode("%zz1"), "zz1");
    // and kept when fewer follow it
    assert_eq!(url_decode("ab%4"), "ab%4");
    // `+` is a space, `%2B` a plus
    assert_eq!(url_decode("1+1%2B2"), "1 1+2");
    // a `+` sign is accepted by the hexadecimal reading
    assert_eq!(url_decode("%+41"), "\u{4}1");
    assert_eq!(url_encode("é"), "%C3%A9");
}

#[test]
fn redirect_with_code() {
    let req = "GET /?code=M.abc%2Fdef&state=xyz HTTP/1.1\r\nHost: localhost\r\n\r\n";
    assert!(redirect_decodable_exec(req));
    match read_redirect(req, "xyz") {
        Redirect::Code(c) => assert_eq!(c, "M.abc/def"),
        other => panic!("{other:?}"),
    }
}

#[test]
fn redirect_refused_or_unexpected() {
    let req = "GET /?error=access_denied&error_description=The+user+refused HTTP/1.1\r\n";
    match read_redirect(req, "xyz") {
        Redirect::Refused { error, description } => {
            assert_eq!(error, "access_denied");
            assert_eq!(description, "The user refused");
        }
        other => panic!("{other:?}"),
    }
    assert!(matches!(read_redirect("GET /?code=a&state=other HTTP/1.1\r\n", "xyz"), Redirect::Unexpected));
    assert!(matches!(read_redirect("GET /?code=a HTTP/1.1\r\n", "xyz"), Redirect::Unexpected));
    assert!(matches!(read_redirect("GET /?state=xyz HTTP/1.1\r\n", "xyz"), Redirect::NoCode));
    assert!(matches!(read_redirect("GET /favicon.ico HTTP/1.1\r\n", "xyz"), Redirect::NotFound));
    assert!(matches!(read_redirect("", "xyz"), Redirect::NotFound));
    // the last value of a repeated parameter wins
    match read_redirect("GET /?code=a&code=b&state=s HTTP/1.1", "s") {
        Redirect::Code(c) => assert_eq!(c, "b"),
        other => panic!("{other:?}"),
    }
}

#[test]
fn reply_pages() {
    assert_eq!(reply(&Redirect::NotFound).unwrap(), "HTTP/1.1 404 Not Found\r\nContent-Length: 0\r\n\r\n");
    assert!(reply(&Redirect::NoCode).is_none());
    let ok = reply(&Redirect::Code("c".into())).unwrap();
    assert!(ok.starts_with("HTTP/1.1 200 OK\r\n"));
    assert!(ok.contains("Connecté à Turi Craft"));
    let body = ok.split("\r\n\r\n").nth(1).unwrap();
    assert!(ok.contains(&format!("Content-Length: {}\r\n", body.len())));
    let bad = page(false, "Reviens au launcher.");
    assert!(bad.contains("Connexion impossible") && bad.contains("#ff6b6b"));
}

#[test]
fn device_code_polling() {
    assert_eq!(poll_step("authorization_pending", None, 5), Ok(5));
    assert_eq!(poll_step("slow_down", None, 5), Ok(10));
    assert_eq!(poll_step("authorization_declined", None, 5), Err(SignInError::Declined));
    assert_eq!(poll_step("expired_token", None, 5), Err(SignInError::Expired));
    let e = poll_step("bad", Some("oops".into()), 5).unwrap_err();
    assert_eq!(e.message(), "Microsoft : bad oops");
    assert_eq!(SignInError::Declined.message(), "connexion refusée sur la page de Microsoft");
}

#[test]
fn xsts_messages() {
    assert_eq!(xsts_refusal(Some(2148916235)), "Xbox Live n'est pas disponible dans ton pays");
    assert_eq!(xsts_refusal(Some(2148916237)), xsts_refusal(Some(2148916236)));
    assert_eq!(xsts_refusal(Some(7)), "Xbox refuse la connexion (XErr Some(7))");
    assert_eq!(xsts_refusal(None), "Xbox refuse la connexion (XErr None)");
}

#[test]
fn login_request_url() {
    let r = turicraft::auth::login_request("client id", 8123);
    assert_eq!(r.redirect, "http://localhost:8123");
    assert_eq!(r.verifier.len(), 64);
    assert_eq!(r.state.len(), 22);
    assert!(r.url.starts_with(
        "https://login.microsoftonline.com/consumers/oauth2/v2.0/authorize?client_id=client%20id&response_type=code&redirect_uri=http%3A%2F%2Flocalhost%3A8123&response_mode=query&scope=XboxLive.signin%20offline_access&code_challenge="
    ));
    assert!(r.url.ends_with(&format!("&code_challenge_method=S256&state={}&prompt=select_account", r.state)));
    assert_ne!(turicraft::auth::random_b64(16), turicraft::auth::random_b64(16));
}
