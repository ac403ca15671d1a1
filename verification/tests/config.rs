use skelanim::config::{EngineConfig, Name};

#[test]
fn engine_config_defaults() {
    let config = EngineConfig::default();
    assert_eq!(config.title, "Engine");
    assert_eq!(config.width, 1280);
    assert_eq!(config.height, 720);
    assert_eq!(config.target_fps, 60);
    assert!(config.vsync);
}

#[test]
fn engine_config_builders_change_one_setting_each() {
    let config = EngineConfig::default()
        .with_title("Demo")
        .with_size(640, 480)
        .with_target_fps(0)
        .with_vsync(false);
    assert_eq!(config.title, "Demo");
    assert_eq!(config.width, 640);
    assert_eq!(config.height, 480);
    assert_eq!(config.target_fps, 0);
    assert!(!config.vsync);
}

#[test]
fn name_holds_its_text() {
    assert_eq!(Name::new("player").0, "player");
}
