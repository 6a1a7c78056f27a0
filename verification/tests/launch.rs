use turicraft::launch::{
    expected_ms, launch_json, on_game_line, outcome, quick_play_args, user_type, windowed_until_loaded, MILESTONE_COUNT,
};
use turicraft::progress::Event;

#[test]
fn fenetre_puis_plein_ecran() {
    let (opts, fullscreen) = windowed_until_loaded("guiScale:3\nfullscreen:true\nlang:fr_fr\n");
    assert!(opts.contains("fullscreen:false") && !opts.contains("fullscreen:true"));
    assert!(opts.contains("guiScale:3") && opts.contains("lang:fr_fr"));
    assert_eq!(launch_json(fullscreen), r#"{"fullscreen":true}"#);
}

#[test]
fn windowed_lines_exactly() {
    let (opts, fullscreen) = windowed_until_loaded("guiScale:3\r\nfullscreen:true\nlang:fr_fr");
    assert_eq!(opts, "guiScale:3\nlang:fr_fr\nfullscreen:false\n");
    assert!(fullscreen);
    let (opts, fullscreen) = windowed_until_loaded("");
    assert_eq!(opts, "fullscreen:false\n");
    assert!(!fullscreen);
    assert_eq!(launch_json(false), r#"{"fullscreen":false}"#);
    // written twice, nothing moves
    let (again, _) = windowed_until_loaded(&windowed_until_loaded("a:1\nfullscreen:false\n").0);
    assert_eq!(again, "a:1\nfullscreen:false\n");
}

#[test]
fn milestones_of_the_start_up() {
    let lines = [
        "[main/INFO] ModLauncher running: args",
        "noise",
        "[main/INFO] Launching target 'forgeclient'",
        "Setting user: Steve",
        "[modloading-worker-0/INFO] x",
        "Reloading ResourceManager: vanilla",
        "Created: 1024x1024x4 minecraft:textures/atlas/blocks.png-atlas",
        "[Render thread/INFO] resource reload: FINISHED",
        "ModLauncher running again",
    ];
    let mut reached = Vec::new();
    let mut all = Vec::new();
    for (i, l) in lines.iter().enumerate() {
        all.extend(on_game_line(&mut reached, l, (i as u64 + 1) * 1000, 60_000));
    }
    assert_eq!(reached.len(), MILESTONE_COUNT);
    assert_eq!(reached, [1000, 3000, 4000, 5000, 6000, 7000, 8000]);
    assert_eq!(all.len(), MILESTONE_COUNT + 1);
    assert!(matches!(&all[0], Event::Milestone { index: 0, count: 7, label, elapsed_ms: 1000, expected_ms: 60_000 } if label == "Démarrage de Java"));
    assert!(matches!(&all[6], Event::Milestone { index: 6, label, .. } if label == "Menu"));
    assert!(matches!(&all[7], Event::GameReady { elapsed_ms: 8000 }));
    // milestones only count in their order
    let mut r = Vec::new();
    assert!(on_game_line(&mut r, "Launching target", 5, 0).is_empty());
    assert!(r.is_empty());
}

#[test]
fn end_of_a_launch() {
    assert_eq!(expected_ms(&vec![]), 0);
    assert_eq!(expected_ms(&vec![1, 2, 74_000]), 74_000);
    let o = outcome(Some(0), vec![1, 2, 3, 4, 5, 6, 7]);
    assert_eq!(o.code, Some(0));
    assert_eq!(o.milestones_ms.len(), 7);
    let o = outcome(None, vec![1, 2, 3]);
    assert_eq!(o.code, None);
    assert!(o.milestones_ms.is_empty());
}

#[test]
fn session_and_server() {
    assert_eq!(user_type("0"), "legacy");
    assert_eq!(user_type("eyJ..."), "msa");
    assert_eq!(quick_play_args(true), ["--quickPlayMultiplayer", "play.turi-industries.eu:25565"]);
    assert!(quick_play_args(false).is_empty());
}
