use turicraft::presets::{
    adapt_value, all_optional, game_values, import_game_changes, apply_once_options, can_resolve, edit_properties, enabled_optional, game_options,
    managed_files, managed_packs, once_plan, resolve, set_options, slider_file_edits, take_game_changes, toggle_states, wanted_packs, AdaptRule, Choices,
    PresetSettings, PresetsModel, Resolution, SetValue, Slider, SliderValue, ToggleOff, ToggleSettings,
};

fn s(x: &str) -> String {
    x.to_string()
}

fn pairs(v: &[(&str, &str)]) -> Vec<(String, String)> {
    v.iter().map(|(a, b)| (s(a), s(b))).collect()
}

fn last<V: Copy>(v: &[(String, V)], k: &str) -> Option<V> {
    v.iter().rev().find(|(a, _)| a == k).map(|(_, x)| *x)
}

fn slider(min: i64, max: i64, option: Option<&str>, default: Option<i64>) -> Slider {
    Slider {
        label: s("x"),
        description: s(""),
        min,
        max,
        step: 1,
        unit: s(""),
        default,
        option: option.map(s),
        file: None,
        format: None,
        key: None,
        requires: None,
    }
}

fn model() -> PresetsModel {
    let mut far = slider(64, 512, None, None);
    far.file = Some(s("config/DistantHorizons.toml"));
    far.key = Some(s("client.lodChunkRenderDistance"));
    far.requires = Some(s("vue_lointaine"));
    PresetsModel {
        toggles: vec![
            (
                s("shaders"),
                ToggleSettings {
                    default: false,
                    groups: vec![s("shaders")],
                    options: pairs(&[("graphicsMode", "2")]),
                    files: vec![s("config/iris.properties")],
                    off: Some(ToggleOff { files: vec![s("config/iris.properties")], options: pairs(&[("graphicsMode", "1")]) }),
                },
            ),
            (
                s("synchro_verticale"),
                ToggleSettings {
                    default: true,
                    groups: vec![],
                    options: pairs(&[("enableVsync", "true")]),
                    files: vec![],
                    off: Some(ToggleOff { files: vec![], options: pairs(&[("enableVsync", "false")]) }),
                },
            ),
        ],
        sliders: vec![
            (s("distance"), slider(2, 32, Some("renderDistance"), Some(12))),
            (s("images"), slider(30, 260, Some("maxFps"), None)),
            (s("distance_lointaine"), far),
        ],
        presets: vec![
            (
                s("faible"),
                PresetSettings {
                    groups: vec![],
                    toggles: vec![(s("shaders"), false)],
                    options: pairs(&[("renderDistance", "8")]),
                    files: vec![],
                    resource_packs: vec![],
                },
            ),
            (
                s("haut"),
                PresetSettings {
                    groups: vec![s("animations")],
                    toggles: vec![(s("shaders"), true)],
                    options: pairs(&[("renderDistance", "\"16\"")]),
                    files: vec![(s("config/DistantHorizons.toml"), vec![(s("client.lodChunkRenderDistance"), SetValue::Integer(256))])],
                    resource_packs: vec![s("file/FreshAnimations_v1.10.4.zip")],
                },
            ),
        ],
        adapt: vec![
            AdaptRule {
                note: s("Écran à 144 Hz"),
                presets: None,
                toggles: vec![(s("synchro_verticale"), false)],
                sliders: vec![(s("images"), SliderValue::Text(s("ecran-3")))],
                files: vec![],
            },
            AdaptRule {
                note: s("Petite carte"),
                presets: Some(vec![s("haut")]),
                toggles: vec![(s("shaders"), false)],
                sliders: vec![],
                files: vec![s("config/DistantHorizons.toml")],
            },
        ],
    }
}

fn auto() -> Choices {
    Choices { preset: s("auto"), custom_base: None, toggles: vec![], mods: vec![], sliders: vec![] }
}

fn resolved() -> Resolution {
    let m = model();
    let holds = vec![true, false];
    assert!(can_resolve(&m, &auto(), "haut", &holds));
    resolve(&m, &auto(), "haut", &holds, Some(144), Some(1440))
}

#[test]
fn values_of_the_rules() {
    assert_eq!(adapt_value(&SliderValue::Integer(5), None, None), Some(5));
    assert_eq!(adapt_value(&SliderValue::Text(s("interface")), None, Some(1440)), Some(3));
    assert_eq!(adapt_value(&SliderValue::Text(s("interface")), None, Some(2160)), Some(5));
    assert_eq!(adapt_value(&SliderValue::Text(s("interface")), None, Some(1200)), Some(3));
    assert_eq!(adapt_value(&SliderValue::Text(s("interface")), None, Some(600)), Some(2));
    assert_eq!(adapt_value(&SliderValue::Text(s("interface")), None, Some(8000)), Some(6));
    assert_eq!(adapt_value(&SliderValue::Text(s("interface")), Some(60), None), None);
    assert_eq!(adapt_value(&SliderValue::Text(s("ecran")), Some(144), None), Some(144));
    assert_eq!(adapt_value(&SliderValue::Text(s("ecran-3")), Some(144), None), Some(141));
    assert_eq!(adapt_value(&SliderValue::Text(s("ecran-3")), Some(360), None), Some(260));
    assert_eq!(adapt_value(&SliderValue::Text(s("ecran")), None, None), None);
    assert_eq!(adapt_value(&SliderValue::Text(s("autre")), Some(60), None), None);
    assert_eq!(adapt_value(&SliderValue::Other, Some(60), Some(1080)), None);
}

#[test]
fn preset_values_of_sliders() {
    let m = model();
    let haut = &m.presets[1].1;
    assert_eq!(m.sliders[0].1.preset_value(haut), Some(16));
    assert_eq!(m.sliders[1].1.preset_value(haut), None);
    assert_eq!(m.sliders[2].1.preset_value(haut), Some(256));
    assert_eq!(m.sliders[0].1.preset_value(&m.presets[0].1), Some(8));
}

#[test]
fn resolved_for_the_machine() {
    let r = resolved();
    assert_eq!(r.preset, "haut");
    assert_eq!(r.groups, ["animations", "shaders"]);
    assert_eq!(last(&r.toggles, "shaders"), Some(true));
    assert_eq!(last(&r.toggles, "synchro_verticale"), Some(false));
    assert_eq!(last(&r.sliders, "distance"), Some(16));
    assert_eq!(last(&r.sliders, "images"), Some(141));
    assert_eq!(last(&r.sliders, "distance_lointaine"), Some(256));
    let notes: Vec<&str> = r.adapted.iter().map(|(k, _)| k.as_str()).collect();
    assert!(notes.contains(&"synchro_verticale") && notes.contains(&"images"));
    assert!(r.adapted.iter().all(|(_, n)| n == "Écran à 144 Hz"));
    assert!(r.adapt_files.is_empty());
    // the rule for small cards applies to "haut" only when the machine meets it
    let r = resolve(&model(), &auto(), "haut", &vec![false, true], Some(60), None);
    assert_eq!(last(&r.toggles, "shaders"), Some(false));
    assert_eq!(r.adapt_files, [(s("config/DistantHorizons.toml"), 1)]);
}

#[test]
fn the_player_has_the_last_word() {
    let mut c = auto();
    c.toggles = vec![(s("synchro_verticale"), true)];
    c.sliders = vec![(s("distance"), 99), (s("images"), 60)];
    c.mods = vec![(s("animations"), false), (s("lumieres"), true)];
    let r = resolve(&model(), &c, "haut", &vec![true, false], Some(144), Some(1440));
    assert_eq!(last(&r.toggles, "synchro_verticale"), Some(true));
    // within its bounds
    assert_eq!(last(&r.sliders, "distance"), Some(32));
    assert_eq!(last(&r.sliders, "images"), Some(60));
    assert_eq!(r.groups, ["shaders", "lumieres"]);
    // what the player set is not reported as adjusted
    assert!(r.adapted.iter().all(|(k, _)| k != "synchro_verticale" && k != "images"));
    // a preset chosen by name, or the custom base of the Advanced mode
    let mut c = auto();
    c.preset = s("faible");
    assert_eq!(resolve(&model(), &c, "haut", &vec![false, false], None, None).preset, "faible");
    c.preset = s("personnalise");
    c.custom_base = Some(s("faible"));
    assert_eq!(resolve(&model(), &c, "haut", &vec![false, false], None, None).preset, "faible");
    c.preset = s("inconnu");
    assert_eq!(resolve(&model(), &c, "haut", &vec![false, false], None, None).preset, "haut");
    assert!(!can_resolve(&model(), &auto(), "inconnu", &vec![false, false]));
    assert!(!can_resolve(&model(), &auto(), "haut", &vec![false]));
}

#[test]
fn options_written_for_a_resolution() {
    let m = model();
    let r = resolved();
    let o = game_options(&m, &r).unwrap();
    assert_eq!(
        o,
        pairs(&[("renderDistance", "\"16\""), ("graphicsMode", "2"), ("enableVsync", "false"), ("renderDistance", "16"), ("maxFps", "141")])
    );
    let mut unknown = r.clone();
    unknown.preset = s("x");
    assert!(game_options(&m, &unknown).is_none());
    // negative values are written as such
    let mut neg = r;
    neg.sliders.push((s("images"), -5));
    assert!(game_options(&m, &neg).unwrap().contains(&(s("maxFps"), s("-5"))));
}

#[test]
fn packs_and_files_managed() {
    let m = model();
    let r = resolved();
    assert_eq!(managed_packs(&m), ["file/FreshAnimations_v1.10.4.zip"]);
    assert_eq!(wanted_packs(&m, &r).unwrap(), ["file/FreshAnimations_v1.10.4.zip"]);
    let mut low = r.clone();
    low.preset = s("faible");
    low.groups = vec![];
    assert!(wanted_packs(&m, &low).unwrap().is_empty());
    low.groups = vec![s("animations")];
    assert_eq!(wanted_packs(&m, &low).unwrap().len(), 1);
    assert_eq!(managed_files(&m), ["config/DistantHorizons.toml", "config/iris.properties"]);
}

#[test]
fn options_et_paquets() {
    let text = "renderDistance:12\nresourcePacks:[\"vanilla\",\"file/FreshAnimations_v1.10.4.zip\",\"file/perso.zip\"]\n";
    let managed = vec![s("file/FreshAnimations_v1.10.4.zip")];
    let out = set_options(text, &pairs(&[("renderDistance", "6")]), &managed, &vec![]);
    assert!(out.contains("renderDistance:6"));
    assert!(out.contains(r#"resourcePacks:["vanilla","file/perso.zip"]"#));
}

#[test]
fn options_file_created_and_completed() {
    let out = set_options("", &pairs(&[("a", "1"), ("b", "2"), ("a", "3")]), &vec![], &vec![s("file/x.zip")]);
    assert_eq!(out, "a:3\nb:2\nresourcePacks:[\"vanilla\",\"mod_resources\",\"file/x.zip\"]\n");
}

#[test]
fn properties_edited() {
    assert_eq!(edit_properties("#x\nenableShaders=false\n", &pairs(&[("enableShaders", "true")])), "#x\nenableShaders=true\n");
    assert_eq!(edit_properties("", &pairs(&[("k", "v")])), "k=v\n");
    // comments are kept, the first line setting the key takes the value
    let once = edit_properties("a=1\n#k=0\n  k : 3\nk=4\n", &pairs(&[("k", "5")]));
    assert_eq!(once, "a=1\n#k=0\nk=5\nk=4\n");
    assert_eq!(edit_properties(&once, &pairs(&[("k", "5")])), once);
}

#[test]
fn set_once() {
    let out = apply_once_options("lang:en_us\nguiScale:2\nlang:de_de\n", &pairs(&[("lang", "fr_fr")]));
    assert_eq!(out, "guiScale:2\nlang:fr_fr\n");
    assert_eq!(once_plan(2, 1, (0, 0)), (true, true, (2, 1)));
    assert_eq!(once_plan(2, 1, (2, 0)), (true, false, (2, 1)));
    assert_eq!(once_plan(2, 1, (2, 1)), (false, false, (2, 1)));
    assert_eq!(once_plan(2, 1, (5, 7)), (false, false, (5, 7)));
}

#[test]
fn optional_mods_of_groups() {
    let groups = vec![(s("shaders"), vec![s("mods/iris.pw.toml")]), (s("animations"), vec![s("mods/fa.pw.toml"), s("mods/ea.pw.toml")])];
    let mut all = all_optional(&groups);
    all.sort();
    all.dedup();
    assert_eq!(all, ["mods/ea.pw.toml", "mods/fa.pw.toml", "mods/iris.pw.toml"]);
    let mut on = enabled_optional(&groups, &vec![s("animations"), s("inconnu")]);
    on.sort();
    on.dedup();
    assert_eq!(on, ["mods/ea.pw.toml", "mods/fa.pw.toml"]);
}

#[test]
fn settings_changed_in_game_taken() {
    let m = model();
    let r = resolved();
    let mut ut: Vec<(String, bool)> = vec![];
    let mut us: Vec<(String, i64)> = vec![];
    let changed = take_game_changes(
        &m,
        &r,
        &vec![(s("shaders"), true), (s("synchro_verticale"), true)],
        &vec![(s("distance"), 12), (s("images"), 141), (s("distance_lointaine"), 128)],
        &mut ut,
        &mut us,
    );
    assert_eq!(changed, ["synchro_verticale", "distance"]);
    assert_eq!(ut, [(s("synchro_verticale"), true)]);
    assert_eq!(us, [(s("distance"), 12)]);
    // resolving again gives what the game has
    let mut c = auto();
    c.toggles = ut;
    c.sliders = us;
    let again = resolve(&m, &c, "haut", &vec![true, false], Some(144), Some(1440));
    assert_eq!(last(&again.toggles, "synchro_verticale"), Some(true));
    assert_eq!(last(&again.sliders, "distance"), Some(12));
    // nothing changed in game: nothing taken
    let mut ut: Vec<(String, bool)> = vec![];
    let mut us: Vec<(String, i64)> = vec![];
    assert!(take_game_changes(&m, &again, &vec![(s("synchro_verticale"), true)], &vec![(s("distance"), 12)], &mut ut, &mut us).is_empty());
}

#[test]
fn options_written_twice_stay() {
    let values = pairs(&[("renderDistance", "6"), ("maxFps", "141")]);
    let managed = vec![s("file/FreshAnimations_v1.10.4.zip")];
    let wanted = vec![s("file/FreshAnimations_v1.10.4.zip")];
    let once = set_options("lang:fr_fr\nrenderDistance:12\n", &values, &managed, &wanted);
    assert_eq!(once, "lang:fr_fr\nrenderDistance:6\nmaxFps:141\nresourcePacks:[\"vanilla\",\"mod_resources\",\"file/FreshAnimations_v1.10.4.zip\"]\n");
    assert_eq!(set_options(&once, &values, &managed, &wanted), once);
}

#[test]
fn files_written_for_a_resolution() {
    let m = model();
    let r = resolved();
    assert_eq!(toggle_states(&m, &r), vec![true, false]);
    let mut bare = r.clone();
    bare.toggles = vec![];
    assert_eq!(toggle_states(&m, &bare), vec![false, true]);
    // the far slider needs its toggle on
    assert!(slider_file_edits(&m, &r).is_empty());
    let mut far = r.clone();
    far.sliders.push((s("distance_lointaine"), 128));
    assert!(slider_file_edits(&m, &far).is_empty());
    far.toggles.push((s("vue_lointaine"), true));
    assert_eq!(
        slider_file_edits(&m, &far),
        vec![(s("config/DistantHorizons.toml"), s("client.lodChunkRenderDistance"), 128, s("toml"))]
    );
}

#[test]
fn values_the_game_has() {
    let m = model();
    let text = "renderDistance:\"20\"\nmaxFps:abc\ngraphicsMode:1\nenableVsync:true\n";
    let (t, sl) = game_values(&m, text);
    assert_eq!(t, vec![(s("shaders"), false), (s("synchro_verticale"), true)]);
    assert_eq!(sl, vec![(s("distance"), 20)]);
    let (t, sl) = game_values(&m, "graphicsMode:3\n");
    assert!(t.is_empty() && sl.is_empty());
}

#[test]
fn in_game_changes_taken_only_when_nothing_changed_here() {
    let m = model();
    let r = resolved();
    let text = "renderDistance:20\ngraphicsMode:1\nenableVsync:true\n";
    let (t, sl) = game_values(&m, text);
    let mut st = turicraft::settings::Settings { applied: Some(s("h")), ..Default::default() };
    let c = import_game_changes(&m, &r, "h", &t, &sl, &mut st);
    assert_eq!(c.taken, vec![s("shaders"), s("synchro_verticale"), s("distance")]);
    assert!(c.refresh_fingerprint);
    assert_eq!(st.toggles, vec![(s("shaders"), false), (s("synchro_verticale"), true)]);
    assert_eq!(st.sliders, vec![(s("distance"), 20)]);
    assert_eq!(st.applied, Some(s("h")));
    // something changed on the launcher's side: the launcher has the last word
    let mut other = turicraft::settings::Settings { applied: Some(s("old")), ..Default::default() };
    let c = import_game_changes(&m, &r, "h", &t, &sl, &mut other);
    assert!(c.taken.is_empty() && !c.refresh_fingerprint && other.toggles.is_empty());
    let mut never = turicraft::settings::Settings::default();
    assert!(import_game_changes(&m, &r, "h", &t, &sl, &mut never).taken.is_empty());
}

/// A model for the main screen: the frames per second follow the screen's
/// rate (minus 3 with VRR, which then turns vertical sync off), and the
/// interface its height.
fn screen_model() -> PresetsModel {
    let preset = || PresetSettings { groups: vec![], toggles: vec![], options: vec![], files: vec![], resource_packs: vec![] };
    PresetsModel {
        toggles: vec![(
            s("synchro_verticale"),
            ToggleSettings {
                default: true,
                groups: vec![],
                options: pairs(&[("enableVsync", "true")]),
                files: vec![],
                off: Some(ToggleOff { files: vec![], options: pairs(&[("enableVsync", "false")]) }),
            },
        )],
        sliders: vec![(s("images"), slider(30, 260, Some("maxFps"), Some(260))), (s("interface"), slider(2, 6, Some("guiScale"), Some(2)))],
        presets: vec![(s("faible"), preset()), (s("moyen"), preset()), (s("haut"), preset())],
        adapt: vec![
            AdaptRule {
                note: s("Écran"),
                presets: None,
                toggles: vec![],
                sliders: vec![(s("images"), SliderValue::Text(s("ecran"))), (s("interface"), SliderValue::Text(s("interface")))],
                files: vec![],
            },
            AdaptRule {
                note: s("VRR actif"),
                presets: None,
                toggles: vec![(s("synchro_verticale"), false)],
                sliders: vec![(s("images"), SliderValue::Text(s("ecran-3")))],
                files: vec![],
            },
        ],
    }
}

#[test]
fn ecran_principal() {
    let m = screen_model();
    let at = |c: &Choices, hz: Option<u32>, vrr: bool| resolve(&m, c, "haut", &vec![true, vrr], hz, Some(1440));
    // 144 Hz screen, FreeSync on: vertical sync off, 141 frames per second
    let r = at(&auto(), Some(144), true);
    assert_eq!(last(&r.toggles, "synchro_verticale"), Some(false));
    assert_eq!(last(&r.sliders, "images"), Some(141));
    // 360 Hz without VRR: Minecraft does not cap beyond 250, so unlimited
    let r = at(&auto(), Some(360), false);
    assert_eq!(last(&r.toggles, "synchro_verticale"), Some(true));
    assert_eq!(last(&r.sliders, "images"), Some(260));
    // Mac (never VRR), 120 Hz: vertical sync kept, 120 frames per second
    let r = at(&auto(), Some(120), false);
    assert!(last(&r.toggles, "synchro_verticale") == Some(true) && last(&r.sliders, "images") == Some(120));
    // interface size: 3 at 1440p (height / 480)
    assert_eq!(last(&at(&auto(), Some(144), true).sliders, "interface"), Some(3));
    // rate unknown: unlimited, whatever the preset
    let mut c = auto();
    for p in ["faible", "moyen", "haut"] {
        c.preset = s(p);
        assert_eq!(last(&at(&c, None, false).sliders, "images"), Some(260), "{p}");
        assert_eq!(last(&at(&c, Some(144), true).sliders, "images"), Some(141), "{p}");
    }
}

#[test]
fn automatic_adjustments_on_a_hand_made_model() {
    let m = model();
    // a big machine: the rule for small cards does not apply
    let r = resolve(&m, &auto(), "haut", &vec![true, false], Some(144), Some(1440));
    assert_eq!(last(&r.sliders, "distance_lointaine"), Some(256));
    assert!(r.adapted.iter().any(|(k, _)| k == "images"));
    // the small card: shaders off, DH's file rewritten by the rule
    let r = resolve(&m, &auto(), "haut", &vec![true, true], Some(144), Some(1440));
    assert_eq!(last(&r.toggles, "shaders"), Some(false));
    assert_eq!(r.adapt_files, [(s("config/DistantHorizons.toml"), 1)]);
    // the player's choice wins, and is no longer reported as adjusted
    let mut c = auto();
    c.sliders = vec![(s("images"), 100)];
    let r = resolve(&m, &c, "haut", &vec![true, false], Some(144), Some(1440));
    assert_eq!(last(&r.sliders, "images"), Some(100));
    assert!(!r.adapted.iter().any(|(k, _)| k == "images"));
    // a mod switched off by hand
    c.mods = vec![(s("animations"), false)];
    assert!(!resolve(&m, &c, "haut", &vec![true, false], Some(144), Some(1440)).groups.contains(&s("animations")));
}

/// A model for the game options: groups of mods follow the options, the
/// presets set some of them and the sliders.
fn options_model() -> PresetsModel {
    let toggle = |default: bool, group: &str| ToggleSettings {
        default,
        groups: vec![s(group)],
        options: vec![],
        files: vec![],
        off: None,
    };
    let mut far = slider(64, 512, None, Some(128));
    far.file = Some(s("config/DistantHorizons.toml"));
    far.key = Some(s("client.lodChunkRenderDistance"));
    let preset = |toggles: Vec<(String, bool)>, distance: &str| PresetSettings {
        groups: vec![],
        toggles,
        options: pairs(&[("renderDistance", distance)]),
        files: vec![],
        resource_packs: vec![],
    };
    PresetsModel {
        toggles: vec![
            (s("shaders"), toggle(true, "shaders")),
            (s("objets_physiques"), toggle(true, "objets_physiques")),
            (s("premiere_personne"), toggle(false, "premiere_personne")),
        ],
        sliders: vec![(s("distance"), slider(2, 32, Some("renderDistance"), Some(12))), (s("distance_lointaine"), far)],
        presets: vec![
            (s("faible"), preset(vec![(s("shaders"), false)], "8")),
            (s("moyen"), preset(vec![(s("premiere_personne"), true)], "12")),
            (s("haut"), preset(vec![(s("premiere_personne"), true)], "16")),
        ],
        adapt: vec![AdaptRule {
            note: s("Grosse carte graphique"),
            presets: None,
            toggles: vec![],
            sliders: vec![(s("distance_lointaine"), SliderValue::Integer(192))],
            files: vec![],
        }],
    }
}

#[test]
fn game_options_on_a_hand_made_model() {
    let m = options_model();
    let big = vec![true];
    // High: shaders and physical objects on by default, first person body from Medium
    let r = resolve(&m, &auto(), "haut", &big, Some(144), Some(1440));
    assert_eq!(r.preset, "haut");
    assert!(last(&r.toggles, "shaders") == Some(true) && r.groups.contains(&s("objets_physiques")));
    assert!(r.groups.contains(&s("premiere_personne")));
    // the player turns the physical objects and the body off
    let mut c = auto();
    c.toggles = vec![(s("objets_physiques"), false), (s("premiere_personne"), false)];
    let r = resolve(&m, &c, "haut", &big, Some(144), Some(1440));
    assert!(!r.groups.contains(&s("objets_physiques")) && !r.groups.contains(&s("premiere_personne")));
    // Low: shaders off, first person body too
    c.preset = s("faible");
    c.toggles = vec![];
    let r = resolve(&m, &c, "haut", &big, Some(144), Some(1440));
    assert!(last(&r.toggles, "shaders") == Some(false) && last(&r.toggles, "premiere_personne") == Some(false));
    // sliders: the preset's value, then the player's, within bounds
    assert_eq!(last(&r.sliders, "distance"), Some(8));
    c.preset = s("haut");
    // a big graphics card: the adjustment (192 in place of 128)
    assert_eq!(last(&resolve(&m, &c, "haut", &big, Some(144), Some(1440)).sliders, "distance_lointaine"), Some(192));
    c.sliders = vec![(s("distance"), 99)];
    assert_eq!(last(&resolve(&m, &c, "haut", &big, Some(144), Some(1440)).sliders, "distance"), Some(32));
}

/// Windows on ARM (Snapdragon): its rule holds and lowers the choices.
fn arm_model() -> PresetsModel {
    let mut m = options_model();
    m.toggles.push((
        s("vue_lointaine"),
        ToggleSettings { default: true, groups: vec![s("vue_lointaine")], options: vec![], files: vec![], off: None },
    ));
    m.toggles.push((s("son_3d"), ToggleSettings { default: true, groups: vec![s("son_3d")], options: vec![], files: vec![], off: None }));
    m.adapt.push(AdaptRule {
        note: s("Snapdragon (Windows sur ARM) : saccades au-delà de Faible"),
        presets: None,
        toggles: vec![(s("shaders"), false), (s("vue_lointaine"), false), (s("son_3d"), false)],
        sliders: vec![(s("distance"), SliderValue::Integer(8))],
        files: vec![],
    });
    m
}

#[test]
fn windows_on_arm_rule_holding() {
    let m = arm_model();
    let mut c = auto();
    c.preset = s("moyen");
    // the big-card rule does not hold, the ARM one does
    let r = resolve(&m, &c, "faible", &vec![false, true], Some(60), Some(1080));
    assert_eq!(r.preset, "moyen");
    assert_eq!(last(&r.sliders, "distance"), Some(8));
    assert!(last(&r.toggles, "shaders") == Some(false) && last(&r.toggles, "vue_lointaine") == Some(false));
    assert_eq!(last(&r.toggles, "son_3d"), Some(false));
    let note = r.adapted.iter().rev().find(|(k, _)| k == "distance").map(|(_, n)| n.clone()).unwrap();
    assert!(note.contains("Snapdragon"));
}
