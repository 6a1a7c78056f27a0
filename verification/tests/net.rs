use turicraft::net::{checked_body, content_matches, part_path, presence, retry_delay_ms, Download, FetchError, Presence};

#[test]
fn un_part_par_fichier() {
    assert_ne!(part_path("conf/security/java.policy"), part_path("conf/security/java.security"));
    assert_eq!(part_path("conf/security/java.policy"), "conf/security/java.policy.part");
    assert_eq!(part_path("objects/ab/abcdef"), "objects/ab/abcdef.part");
}

#[test]
fn digests_are_checked() {
    let sha1_abc = "A9993E364706816ABA3E25717850C26C9CD0D89D";
    assert!(content_matches(b"abc", &turicraft::net::Hash::Sha1(sha1_abc.into())));
    assert!(!content_matches(b"abd", &turicraft::net::Hash::Sha1(sha1_abc.into())));
    let sha256_abc = "ba7816bf8f01cfea414140de5dae2223b00361a396177a9cb410ff61f20015ad";
    assert!(content_matches(b"abc", &turicraft::net::Hash::Sha256(sha256_abc.into())));
    assert!(content_matches(b"anything", &turicraft::net::Hash::Unchecked));
}

#[test]
fn presence_of_a_file() {
    let d = Download {
        url: "u".into(),
        path: "p".into(),
        hash: turicraft::net::Hash::Unchecked,
        size: Some(10),
        executable: false,
    };
    assert_eq!(presence(&d, None), Presence::Missing);
    assert_eq!(presence(&d, Some(10)), Presence::Valid);
    assert_eq!(presence(&d, Some(9)), Presence::WrongSize);
    let e = Download { size: None, ..d };
    assert_eq!(presence(&e, Some(3)), Presence::CheckContent);
}

#[test]
fn fetched_texts() {
    assert_eq!(checked_body(200, "x".into()), Ok("x".to_string()));
    assert_eq!(checked_body(204, String::new()), Err(FetchError::Empty));
    assert_eq!(checked_body(404, "x".into()), Err(FetchError::Status(404)));
    assert_eq!(retry_delay_ms(0), 0);
    assert_eq!(retry_delay_ms(2), 1000);
}
