use edgesteer::launch::{
    argument_value, default_config_path, launch_mode, state_directory, ui_preferences_path, LaunchMode,
    Platform,
};
use edgesteer::ui::{
    chinese_text, parse_u64, string_list_value, unique_tag, AppearanceMode, Language, Notice,
};

#[test]
fn notifications_expire_automatically() {
    let now: u128 = 1_000_000_000_000;
    let mut notice = Notice::success("Configuration saved".to_owned(), now);
    assert!(!notice.expired(now));

    notice.expires_at = now - 1_000_000;
    assert!(notice.expired(now));
}

#[test]
fn notices_last_five_seconds() {
    let notice = Notice::error("failed".to_owned(), 0);
    assert!(!notice.expired(4_999_999_999));
    assert!(notice.expired(5_000_000_000));
    assert_eq!(notice.text, "failed");
}

#[test]
fn comma_separated_fields_are_normalized_without_duplicates() {
    assert_eq!(
        string_list_value(" mi, local, mi, LOCAL "),
        vec!["mi".to_owned(), "local".to_owned()]
    );
}

#[test]
fn list_fields_keep_the_first_spelling_and_skip_blanks() {
    assert_eq!(
        string_list_value(" b2c, MI ,, mi, local ,B2C"),
        vec!["b2c".to_owned(), "MI".to_owned(), "local".to_owned()]
    );
    assert!(string_list_value(" , ").is_empty());
}

#[test]
fn numeric_fields_are_trimmed() {
    assert_eq!(parse_u64(" 42 "), Some(42));
    assert_eq!(parse_u64("-1"), None);
    assert_eq!(parse_u64(""), None);
}

#[test]
fn default_config_file_name_is_stable() {
    let path = default_config_path(Some("/Users/example"), None);
    assert!(path.ends_with("/edgesteer.json"));
    assert_eq!(default_config_path(Some(""), Some("C:/Users/e")), "C:/Users/e/edgesteer.json");
    assert_eq!(default_config_path(None, None), "edgesteer.json");
}

#[test]
fn the_binary_picks_its_mode_from_the_arguments() {
    let args = |list: &[&str]| list.iter().map(|a| (*a).to_owned()).collect::<Vec<String>>();
    match launch_mode(&args(&["app", "--engine", "--stop-file", "/tmp/stop", "--parent-pid", "77"])) {
        LaunchMode::Engine { stop_file, parent_pid } => {
            assert_eq!(stop_file.as_deref(), Some("/tmp/stop"));
            assert_eq!(parent_pid, Some(77));
        }
        _ => panic!("engine mode"),
    }
    assert!(matches!(launch_mode(&args(&["app", "--ui"])), LaunchMode::Ui));
    assert!(matches!(launch_mode(&args(&["app", "--agent"])), LaunchMode::Agent { open_ui: false }));
    assert!(matches!(launch_mode(&args(&["app"])), LaunchMode::Agent { open_ui: true }));
    assert_eq!(argument_value(&args(&["a", "--x"]), "--x"), None);
}

#[test]
fn interface_copy_switches_between_chinese_and_english() {
    assert_eq!(Language::Chinese.text("Overview"), "概览");
    assert_eq!(Language::Chinese.text("Dynamic local DNS"), "动态本地 DNS");
    assert_eq!(
        Language::Chinese.text(
            "Closing this window releases the GUI while EdgeSteer keeps running in the menu bar. Use Quit EdgeSteer from the menu bar when you need to stop it and restore managed system DNS."
        ),
        "关闭窗口会释放图形界面；EdgeSteer 会继续在菜单栏运行。需要停止并恢复已接管的系统 DNS 时，请在菜单栏中选择“退出 EdgeSteer”。"
    );
    assert_eq!(Language::English.text("Overview"), "Overview");
}

#[test]
fn untranslated_copy_stays_in_english() {
    assert_eq!(chinese_text("no such interface string"), None);
    assert_eq!(Language::Chinese.text("no such interface string"), "no such interface string");
}

#[test]
fn new_entries_get_the_first_free_tag() {
    let existing = vec!["layer-1".to_owned(), "layer-2".to_owned(), "layer-4".to_owned()];
    assert_eq!(unique_tag("layer", &existing), "layer-3");
    assert_eq!(unique_tag("plugin", &existing), "plugin-1");
    assert_eq!(unique_tag("layer", &vec!["layer-1".to_owned()]), "layer-2");
}

#[test]
fn appearance_modes_use_separate_monochrome_surfaces() {
    let dark = AppearanceMode::Dark.colors();
    let light = AppearanceMode::Light.colors();

    assert!(dark.background.r < light.background.r);
    assert!(dark.text.r > light.text.r);
    assert!(dark.primary.r > dark.background.r);
    assert!(light.primary.r < light.background.r);
}

#[test]
fn per_user_state_follows_each_platforms_convention() {
    assert_eq!(
        state_directory(Platform::MacOs, Some("/Users/ada"), None, None, None),
        "/Users/ada/Library/Application Support/EdgeSteer"
    );
    assert_eq!(
        ui_preferences_path(Platform::MacOs, Some("/Users/ada"), None, None, None),
        "/Users/ada/Library/Application Support/EdgeSteer/ui.json"
    );
    assert_eq!(
        state_directory(Platform::Windows, None, Some("C:/Users/ada"), Some("C:/Users/ada/AppData/Roaming"), None),
        "C:/Users/ada/AppData/Roaming/EdgeSteer"
    );
    assert_eq!(
        state_directory(Platform::Windows, None, Some("C:/Users/ada"), Some(""), None),
        "C:/Users/ada/AppData/Roaming/EdgeSteer"
    );
    assert_eq!(
        state_directory(Platform::Other, Some("/home/ada"), None, None, Some("/home/ada/.xdg")),
        "/home/ada/.xdg/edgesteer"
    );
    assert_eq!(
        ui_preferences_path(Platform::Other, Some("/home/ada/"), None, None, None),
        "/home/ada/.config/edgesteer/ui.json"
    );
    assert_eq!(state_directory(Platform::Other, Some(""), None, None, None), "edgesteer");
    assert_eq!(ui_preferences_path(Platform::MacOs, None, None, None, None), "edgesteer-ui.json");
}
