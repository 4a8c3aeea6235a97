use bar_data::bar_install::{
    install_root_trim, order_newest_first, is_game_archive, mark_latest, skirmish_script, BarEngineVersion, BarGameVersion, BarVersions,
    LaunchError,
};

fn game(label: &str) -> BarGameVersion {
    BarGameVersion { label: label.to_string(), archive_name: format!("{label} id"), path: None }
}

fn engine(label: &str) -> BarEngineVersion {
    BarEngineVersion { label: label.to_string(), exe: format!("{label}/spring.exe") }
}

#[test]
fn game_archive_filter() {
    assert!(is_game_archive("byar_1234.sdz", "sdz"));
    assert!(is_game_archive("BAR-test.sdd", "sdd"));
    assert!(is_game_archive("Bar.sd7", "sd7"));
    assert!(!is_game_archive("byar_1234.zip", "zip"));
    assert!(!is_game_archive("mymap.sd7", "sd7"));
    assert!(!is_game_archive("byar.sdz", "SDZ"));
}

#[test]
fn newest_game_gets_latest_suffix() {
    let mut games = vec![game("BAR-2.sdd"), game("BAR-1.sdd")];
    mark_latest(&mut games);
    assert_eq!(games[0].label, "BAR-2.sdd (latest)");
    assert_eq!(games[1].label, "BAR-1.sdd");
    let mut none: Vec<BarGameVersion> = Vec::new();
    mark_latest(&mut none);
    assert!(none.is_empty());
}

#[test]
fn version_selection_falls_back_to_first() {
    let v = BarVersions {
        games: vec![game("g0"), game("g1")],
        engines: vec![engine("e0")],
        maps_dir: "maps".to_string(),
        data_dir: "data".to_string(),
    };
    let (g, e) = v.select_versions(1, 5).ok().unwrap();
    assert_eq!(g.label, "g1");
    assert_eq!(e.label, "e0");
    let (g, _) = v.select_versions(9, 0).ok().unwrap();
    assert_eq!(g.label, "g0");
    let empty = BarVersions { games: vec![], engines: vec![engine("e0")], maps_dir: String::new(), data_dir: String::new() };
    match empty.select_versions(0, 0) {
        Err(LaunchError::SpawnFailed(m)) => assert_eq!(m, "no game version available"),
        _ => panic!("expected a spawn error"),
    }
    let no_engine = BarVersions { games: vec![game("g")], engines: vec![], maps_dir: String::new(), data_dir: String::new() };
    match no_engine.select_versions(0, 0) {
        Err(LaunchError::SpawnFailed(m)) => assert_eq!(m, "no engine version available"),
        _ => panic!("expected a spawn error"),
    }
}

#[test]
fn normalize_leaves_install_root_alone() {
    // C:/Beyond-All-Reason
    assert_eq!(install_root_trim(Some("Beyond-All-Reason"), Some(Some("C:")), true), 0);
}

#[test]
fn normalize_strips_trailing_data() {
    // C:/Beyond-All-Reason/data
    assert_eq!(install_root_trim(Some("data"), Some(Some("Beyond-All-Reason")), true), 1);
    assert_eq!(install_root_trim(Some("DATA"), Some(Some("Beyond-All-Reason")), true), 1);
}

#[test]
fn normalize_strips_trailing_data_games() {
    // C:/Beyond-All-Reason/data/games
    assert_eq!(install_root_trim(Some("games"), Some(Some("data")), true), 2);
}

#[test]
fn normalize_does_not_strip_unrelated_games_dir() {
    // C:/Some/Other/games
    assert_eq!(install_root_trim(Some("games"), Some(Some("Other")), true), 0);
    // The parent must be named exactly `data`.
    assert_eq!(install_root_trim(Some("games"), Some(Some("Data")), true), 0);
    assert_eq!(install_root_trim(None, None, false), 0);
}

#[test]
fn startscript_matches_engine_layout() {
    let map_internal_name = "my_map 0.1";
    let game = "Beyond All Reason test-123";
    let (t0_x, t0_z, t1_x, t1_z) = (204, 409, -5, 1638);
    let expected = format!(
        "[GAME]\n{{\n\
        \tMapName={map_internal_name};\n\
        \tGameType={game};\n\
        \tStartPosType=3;\n\
        \tGameStartDelay=4;\n\
        \tMyPlayerNum=0;\n\
        \tMyPlayerName=MapTester;\n\
        \tIsHost=1;\n\
        \n\
        \t[PLAYER0]\n\t{{\n\t\tName=MapTester;\n\t\tSpectator=1;\n\t}}\n\
        \n\
        \t[ALLYTEAM0]\n\t{{\n\t\tNumAllies=0;\n\t}}\n\
        \t[TEAM0]\n\t{{\n\t\tAllyTeam=0;\n\t\tTeamLeader=0;\n\t\tStartPosX={t0_x};\n\t\tStartPosZ={t0_z};\n\t}}\n\
        \t[AI0]\n\t{{\n\t\tName=BARb0;\n\t\tShortName=BARb;\n\t\tTeam=0;\n\t\tHost=0;\n\t\tIsFromDemo=0;\n\t}}\n\
        \n\
        \t[ALLYTEAM1]\n\t{{\n\t\tNumAllies=0;\n\t}}\n\
        \t[TEAM1]\n\t{{\n\t\tAllyTeam=1;\n\t\tTeamLeader=0;\n\t\tStartPosX={t1_x};\n\t\tStartPosZ={t1_z};\n\t}}\n\
        \t[AI1]\n\t{{\n\t\tName=BARb1;\n\t\tShortName=BARb;\n\t\tTeam=1;\n\t\tHost=0;\n\t\tIsFromDemo=0;\n\t}}\n\
        }}\n"
    );
    assert_eq!(skirmish_script(map_internal_name, game, (t0_x, t0_z), (t1_x, t1_z)), expected);
}

#[test]
fn startscript_extreme_positions() {
    let s = skirmish_script("m", "g", (i32::MIN, 0), (i32::MAX, 7));
    assert!(s.contains("StartPosX=-2147483648;"));
    assert!(s.contains("StartPosZ=0;"));
    assert!(s.contains("StartPosX=2147483647;"));
    assert!(s.contains("StartPosZ=7;"));
}

#[test]
fn launch_error_messages() {
    assert_eq!(LaunchError::CopyFailed("a -> b: x".into()).message(), "failed to copy SD7 to BAR maps dir: a -> b: x");
    assert_eq!(LaunchError::SpawnFailed("no".into()).message(), "failed to launch BAR engine: no");
    assert_eq!(LaunchError::Sd7Unreadable("gone".into()).message(), "SD7 missing or unreadable: gone");
}

#[test]
fn newest_first_is_a_stable_descending_order() {
    let entries = vec![(5u128, "a"), (9, "b"), (5, "c"), (1, "d"), (9, "e")];
    assert_eq!(order_newest_first(entries), vec!["b", "e", "a", "c", "d"]);
    assert!(order_newest_first(Vec::<(u128, u8)>::new()).is_empty());
}
