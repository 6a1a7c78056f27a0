use turicraft::toml_file::{early_window_off_text, edit_toml, TomlEditError, TomlScalar, TomlSetting};

fn set(key: &str, v: TomlScalar) -> Vec<(String, TomlSetting)> {
    vec![(key.to_string(), TomlSetting::Scalar(v))]
}

#[test]
fn cles_entre_guillemets() {
    // The real layout of travelerstitles-neoforge-1_21.toml.
    let text = "\t[\"Traveler's Titles\".\"Biome Titles\"]\n\t\t\"Enable Biome Titles\" = true\n\t\t\"Text Display Time\" = 50\n";
    let out = edit_toml(text, &set("Traveler's Titles.Biome Titles.Enable Biome Titles", TomlScalar::Boolean(false))).unwrap();
    assert!(out.contains("\"Enable Biome Titles\" = false"), "{out}");
    assert!(out.contains("\"Text Display Time\" = 50"));
}

#[test]
fn toml_layout_and_comments_kept() {
    let out = edit_toml("[client]\n\t#commentaire\n\tquickEnableRendering = true\n", &set("client.quickEnableRendering", TomlScalar::Boolean(false)))
        .unwrap();
    assert!(out.contains("quickEnableRendering = false") && out.contains("#commentaire"));
}

#[test]
fn missing_tables_created_and_values_of_each_kind() {
    let out = edit_toml("", &set("a.b.c", TomlScalar::Integer(3))).unwrap();
    assert!(out.contains("[a.b]") && out.contains("c = 3"), "{out}");
    let out = edit_toml("x = 1\n", &set("y", TomlScalar::Str("z".into()))).unwrap();
    assert!(out.contains("x = 1") && out.contains("y = \"z\""), "{out}");
    let out = edit_toml("f = 1.0\n", &set("f", TomlScalar::Float("0.5".into()))).unwrap();
    assert!(out.contains("f = 0.5"), "{out}");
    // no settings: the document printed back
    assert_eq!(edit_toml("a = 1\n", &vec![]).unwrap(), "a = 1\n");
}

#[test]
fn toml_edits_refused() {
    assert_eq!(edit_toml("a = [", &vec![]), Err(TomlEditError::Unreadable));
    assert_eq!(edit_toml("a = 1\n", &set("a.b", TomlScalar::Integer(2))), Err(TomlEditError::NotATable("a.b".into())));
    let unsupported = vec![("k".to_string(), TomlSetting::Unsupported("[1, 2]".into()))];
    assert_eq!(edit_toml("", &unsupported), Err(TomlEditError::Unsupported("k".into(), "[1, 2]".into())));
    assert_eq!(TomlEditError::NotATable("a.b".into()).message(), "a.b : pas une table");
}

#[test]
fn neoforge_loading_window_off() {
    let out = early_window_off_text("earlyWindowControl = true # the window\nother = 1\n");
    assert!(out.contains("earlyWindowControl = false") && out.contains("other = 1"), "{out}");
    assert!(early_window_off_text("").contains("earlyWindowControl = false"));
}
