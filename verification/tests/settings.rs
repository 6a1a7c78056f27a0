use turicraft::settings::{offline_name, pack_url, Account, Settings};

fn account() -> Option<Account> {
    Some(Account { name: "J".to_string(), uuid: "u".to_string() })
}

/// The screen sends back an old copy: what the launcher noted since stays.
#[test]
fn l_ecran_ne_change_que_les_choix_du_joueur() {
    let mut core = Settings {
        applied: Some("neuf".into()),
        once_applied: 1,
        last_milestones_ms: vec![1, 2],
        account: account(),
        ..Default::default()
    };
    let ui = Settings { preset: "moyen".into(), join_server: true, applied: None, once_applied: 0, ..Default::default() };
    core.take_user_choices(ui);
    assert_eq!((core.preset.as_str(), core.join_server), ("moyen", true));
    assert_eq!((core.applied.as_deref(), core.once_applied, core.last_milestones_ms.len()), (Some("neuf"), 1, 2));
    assert!(core.account.is_some());
}

/// Reset: everything back to the default, but the account and the durations.
#[test]
fn remise_a_zero_garde_le_compte() {
    let s = Settings {
        preset: "faible".into(),
        toggles: vec![("shaders".into(), false)],
        applied: Some("x".into()),
        once_applied: 2,
        once_files_applied: 1,
        join_server: true,
        launcher_behavior: "fermer".into(),
        account: account(),
        last_milestones_ms: vec![1, 2],
        ..Default::default()
    };
    let r = s.reset_keeping_account();
    assert_eq!(r.preset, "auto");
    assert!(r.toggles.is_empty() && r.applied.is_none() && !r.join_server);
    assert_eq!((r.once_applied, r.once_files_applied, r.launcher_behavior.as_str()), (0, 0, "reduire"));
    assert_eq!(r.account.map(|a| a.name), Some("J".into()));
    assert_eq!(r.last_milestones_ms, vec![1, 2]);
}

#[test]
fn choices_taken_from_the_screen() {
    let mut core = Settings { choices_applied: vec![("shaders".into(), "a".into())], ..Default::default() };
    let ui = Settings {
        choices: vec![("shaders".into(), "b".into())],
        sliders: vec![("distance".into(), 12)],
        choices_applied: vec![],
        launcher_behavior: "garder".into(),
        ..Default::default()
    };
    core.take_user_choices(ui);
    assert_eq!(core.choices, vec![("shaders".to_string(), "b".to_string())]);
    assert_eq!(core.sliders, vec![("distance".to_string(), 12)]);
    assert_eq!(core.choices_applied, vec![("shaders".to_string(), "a".to_string())]);
    assert_eq!(core.launcher_behavior, "garder");
}

#[test]
fn defaults_as_installed() {
    let d = Settings::default();
    assert_eq!((d.preset.as_str(), d.launcher_behavior.as_str()), ("auto", "reduire"));
    assert!(d.account.is_none() && d.custom_base.is_none() && d.mods.is_empty() && d.choices.is_empty());
}

#[test]
fn trial_values_from_the_environment() {
    assert_eq!(offline_name(Some("  ".into())), None);
    assert_eq!(offline_name(Some("Steve".into())), Some("Steve".to_string()));
    assert_eq!(pack_url(Some("http://localhost/pack.toml".into())), "http://localhost/pack.toml");
}
