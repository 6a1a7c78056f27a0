use turicraft::json::{set_key, Json};

fn s(x: &str) -> String {
    x.to_string()
}

fn obj(ms: Vec<(&str, Json)>) -> Json {
    Json::Object(ms.into_iter().map(|(k, v)| (s(k), v)).collect())
}

fn members(j: &Json) -> &Vec<(String, Json)> {
    match j {
        Json::Object(ms) => ms,
        _ => panic!("not an object"),
    }
}

#[test]
fn dotted_key_goes_into_its_object() {
    let root = obj(vec![("quality", obj(vec![("leaves_quality", Json::Str(s("FANCY")))]))]);
    let out = set_key(root, "quality.weather_quality", Json::Str(s("FAST"))).unwrap();
    let q = members(&members(&out)[0].1);
    assert_eq!(q.len(), 2);
    assert_eq!(q[0].0, "leaves_quality");
    assert_eq!(q[1].0, "weather_quality");
    assert!(matches!(&q[1].1, Json::Str(v) if v == "FAST"));
}

#[test]
fn key_with_dots_kept_whole_when_present() {
    let root = obj(vec![("general.RestoreMessages.Enabled", Json::Bool(true))]);
    let out = set_key(root, "general.RestoreMessages.Enabled", Json::Bool(false)).unwrap();
    let ms = members(&out);
    assert_eq!(ms.len(), 1);
    assert!(matches!(ms[0].1, Json::Bool(false)));
}

#[test]
fn missing_objects_created() {
    let out = set_key(obj(vec![]), "a.b.c", Json::Number(s("12"))).unwrap();
    let a = members(&out);
    assert_eq!(a[0].0, "a");
    let b = members(&a[0].1);
    assert_eq!(b[0].0, "b");
    let c = members(&b[0].1);
    assert_eq!(c[0].0, "c");
    assert!(matches!(&c[0].1, Json::Number(n) if n == "12"));
}

#[test]
fn not_an_object_refused() {
    assert!(set_key(obj(vec![("a", Json::Number(s("1")))]), "a.b", Json::Null).is_none());
    assert!(set_key(Json::Array(vec![]), "a", Json::Null).is_none());
    // a plain key replaces the value in place
    let out = set_key(obj(vec![("a", Json::Number(s("1"))), ("b", Json::Null)]), "a", Json::Bool(true)).unwrap();
    let ms = members(&out);
    assert_eq!((ms[0].0.as_str(), ms[1].0.as_str()), ("a", "b"));
    assert!(matches!(ms[0].1, Json::Bool(true)));
}

#[test]
fn member_set_at_a_path_and_removed() {
    let root = obj(vec![
        ("cachedFiles", obj(vec![("mods/a.pw.toml", obj(vec![("optionValue", Json::Bool(false))]))])),
        ("packFileHash", Json::Str(s("x"))),
    ]);
    let at = vec![s("cachedFiles"), s("mods/a.pw.toml"), s("optionValue")];
    let out = turicraft::json::set_at(root, &at, Json::Bool(true)).unwrap();
    let out = turicraft::json::without_member(out, "packFileHash");
    let ms = members(&out);
    assert_eq!(ms.len(), 1);
    let entry = members(&members(&ms[0].1)[0].1);
    assert!(matches!(entry[0].1, Json::Bool(true)));
}

#[test]
fn edition_json_toml_properties() {
    // JSON, by dotted key (the TOML part is edited with toml_edit, outside
    // the library)
    let root = obj(vec![("quality", obj(vec![("leaves_quality", Json::Str(s("FANCY")))]))]);
    let out = set_key(root, "quality.weather_quality", Json::Str(s("FAST"))).unwrap();
    let q = members(&members(&out)[0].1);
    assert_eq!((q[0].0.as_str(), q[1].0.as_str()), ("leaves_quality", "weather_quality"));
    assert!(matches!(&q[1].1, Json::Str(v) if v == "FAST"));
    // properties
    assert_eq!(
        turicraft::presets::edit_properties("#x\nenableShaders=false\n", &vec![(s("enableShaders"), s("true"))]),
        "#x\nenableShaders=true\n"
    );
}
