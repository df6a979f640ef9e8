use renegadex_patcher::error::Error;
use renegadex_patcher::game_state::{
    collapse_slashes, config_path, get_game_state, load_config_text, patch_dir_path, GameState,
};
use renegadex_patcher::mirrors::{Mirrors, NamedUrl};

fn mirrors() -> Mirrors {
    Mirrors::new(
        vec![NamedUrl { name: "one".to_string(), url: "https://one/".to_string() }],
        vec![Some(vec!["1.2.3.4:443".to_string()])],
        "5.0".to_string(),
    )
}

fn config(version: &str) -> ini::Ini {
    let text = format!(
        "[Engine]\nName=UDK\n[RenX_Game.Rx_Game]\nGameVersion=Open Beta\nGameVersionNumber={}\nGameVersionNumber=ignored\n",
        version
    );
    ini::Ini::load_from_str(&text).unwrap()
}

#[test]
fn no_mirrors_is_an_error() {
    let none = Mirrors::new(vec![], vec![], "5.0".to_string());
    assert_eq!(get_game_state(&none, None, None, None), Err(Error::NoMirrors()));
}

#[test]
fn leftover_patch_files_mean_resume() {
    assert_eq!(get_game_state(&mirrors(), None, Some(3), None), Ok(GameState::Resume));
}

#[test]
fn no_configuration_means_full_download() {
    assert_eq!(get_game_state(&mirrors(), None, Some(0), None), Ok(GameState::Full));
    assert_eq!(get_game_state(&mirrors(), None, None, None), Ok(GameState::Full));
}

#[test]
fn versions_are_compared() {
    let v = "5001234".to_string();
    assert_eq!(get_game_state(&mirrors(), Some(&v), None, Some(&config("5001234"))), Ok(GameState::UpToDate));
    assert_eq!(get_game_state(&mirrors(), Some(&v), None, Some(&config("4000000"))), Ok(GameState::Delta));
}

#[test]
fn incomplete_configuration_is_an_error() {
    let v = "1".to_string();
    let empty = ini::Ini::load_from_str("[Other]\nA=1\n").unwrap();
    assert_eq!(
        get_game_state(&mirrors(), Some(&v), None, Some(&empty)),
        Err(Error::Message("No Configuration section named \"RenX_Game.Rx_Game\"".to_string()))
    );
    let no_key = ini::Ini::load_from_str("[RenX_Game.Rx_Game]\nGameVersion=1\n").unwrap();
    assert_eq!(
        get_game_state(&mirrors(), Some(&v), None, Some(&no_key)),
        Err(Error::Message("No key in section \"RenX_Game.Rx_Game\"  named \"GameVersionNumber\"".to_string()))
    );
    assert_eq!(
        get_game_state(&mirrors(), None, None, Some(&config("1"))),
        Err(Error::Message("Version Number in mirrors missing".to_string()))
    );
}

#[test]
fn a_repeated_section_is_read_from_its_first_occurrence() {
    let v = "7".to_string();
    let c = ini::Ini::load_from_str("[RenX_Game.Rx_Game]\nGameVersionNumber=7\n[RenX_Game.Rx_Game]\nGameVersionNumber=8\n").unwrap();
    assert_eq!(get_game_state(&mirrors(), Some(&v), None, Some(&c)), Ok(GameState::UpToDate));
    assert_eq!(get_game_state(&mirrors(), Some(&v), None, Some(&config("7"))), Ok(GameState::UpToDate));
}

#[test]
fn paths_of_the_installation() {
    assert_eq!(patch_dir_path(&"/games/RenX/".to_string()), "/games/RenX/patcher/");
    assert_eq!(patch_dir_path(&"/games/RenX".to_string()), "/games/RenX/patcher/");
    assert_eq!(config_path(&"/g".to_string()), "/g/UDKGame/Config/DefaultRenegadeX.ini");
    assert_eq!(collapse_slashes("a///b"), "a//b");
    assert_eq!(collapse_slashes("////"), "//");
    assert_eq!(collapse_slashes("a/b"), "a/b");
}

#[test]
fn configuration_text_is_read_past_a_byte_order_mark() {
    let text = "\u{FEFF}[RenX_Game.Rx_Game]\nGameVersionNumber=5001234\n".to_string();
    let conf = load_config_text(&text).unwrap();
    let served = "5001234".to_string();
    assert_eq!(get_game_state(&mirrors(), Some(&served), None, Some(&conf)), Ok(GameState::UpToDate));
    let plain = load_config_text(&"[RenX_Game.Rx_Game]\nGameVersionNumber=5001000\n".to_string()).unwrap();
    assert_eq!(get_game_state(&mirrors(), Some(&served), None, Some(&plain)), Ok(GameState::Delta));
}

#[test]
fn configuration_text_the_parser_refuses_is_none() {
    assert!(load_config_text(&"[RenX_Game.Rx_Game\nGameVersionNumber=1\n".to_string()).is_none());
    assert!(load_config_text(&"=value\n".to_string()).is_none());
}
