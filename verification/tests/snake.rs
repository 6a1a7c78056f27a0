use turicraft::snake::{base, selected_profile, service_error, SessionRefused};

#[test]
fn adresse_du_service() {
    assert_eq!(base("https://pack.turi-industries.eu/pack.toml"), "https://pack.turi-industries.eu/snake");
}

#[test]
fn service_messages() {
    assert_eq!(base("pack.toml"), "pack.toml/snake");
    assert_eq!(selected_profile("b50ad385-829d-3141-a216-7e7d7539ba7f"), "b50ad385829d3141a2167e7d7539ba7f");
    assert_eq!(service_error(None, "503 Service Unavailable"), "HTTP 503 Service Unavailable");
    assert_eq!(service_error(Some("trop tard".into()), "400 Bad Request"), "trop tard");
    assert_eq!(SessionRefused(403).message(), "Mojang refuse la vérification du compte (HTTP 403)");
}
