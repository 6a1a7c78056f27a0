use turicraft::settings::{azure_client_id, offline_name, pack_url};
use turicraft::updates::{base_url, news_url, presets_url};

#[test]
fn pack_addresses() {
    let u = "https://pack.turi-industries.eu/pack.toml";
    assert_eq!(base_url(u).unwrap(), "https://pack.turi-industries.eu");
    assert_eq!(news_url(u).unwrap(), "https://pack.turi-industries.eu/turicraft/news.json");
    assert_eq!(presets_url(u).unwrap(), "https://pack.turi-industries.eu/turicraft/presets.toml");
    assert_eq!(base_url("pack.toml"), None);
    assert_eq!(news_url("pack.toml"), None);
}

#[test]
fn trial_settings() {
    assert_eq!(offline_name(Some("Moi".into())).as_deref(), Some("Moi"));
    assert_eq!(offline_name(Some("  ".into())), None);
    assert_eq!(offline_name(None), None);
    assert_eq!(pack_url(None), "https://pack.turi-industries.eu/pack.toml");
    assert_eq!(pack_url(Some("http://localhost/pack.toml".into())), "http://localhost/pack.toml");
    assert_eq!(azure_client_id(None).as_deref(), Some("165d4854-4593-4834-ac11-c2389c3ae22c"));
    assert_eq!(azure_client_id(Some("autre".into())).as_deref(), Some("autre"));
}
