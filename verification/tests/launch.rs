use cyberark_rdp::config::Preferences;
use cyberark_rdp::launch::{resolve_username, SessionChoices};
use cyberark_rdp::rdp_parser::RdpFile;
use cyberark_rdp::ui::config_dialog::{dialog_result, ConnectionConfig, ALERT_FIRST_BUTTON};

#[test]
fn username_precedence() {
    let rdp = RdpFile::parse("username:s:fromfile\n");
    assert_eq!(resolve_username(Some("cli".to_string()), &rdp), Some("cli".to_string()));
    assert_eq!(resolve_username(None, &rdp), Some("fromfile".to_string()));
    assert_eq!(resolve_username(None, &RdpFile::parse("")), None);
}

#[test]
fn dialog_answers() {
    assert!(dialog_result(1001, "pw".to_string(), true, true, true, true).is_none());
    assert!(dialog_result(ALERT_FIRST_BUTTON, String::new(), true, true, true, true).is_none());
    let c = dialog_result(1000, "pw".to_string(), true, false, true, false).unwrap();
    assert_eq!(c.password, "pw");
    assert!(c.clipboard);
    assert!(!c.map_drives);
    assert!(c.store_password);
    assert!(!c.burn_after_reading);
}

#[test]
fn connection_config_defaults() {
    let c = ConnectionConfig::default();
    assert!(!c.clipboard && !c.map_drives && !c.store_password && !c.burn_after_reading);
    assert!(c.password.is_empty());
    let c = ConnectionConfig::with_password("typed".to_string());
    assert_eq!(c.password, "typed");
    assert!(!c.clipboard);
}

#[test]
fn session_choices() {
    let mut prefs = Preferences::default();
    prefs.clipboard = true;
    let cli = SessionChoices::from_cli("pw".to_string(), &prefs);
    assert_eq!(cli.password, "pw");
    assert_eq!(cli.resolution, "1440x900");
    assert!(cli.clipboard);
    assert!(!cli.burn_after_reading);
    let answers = dialog_result(1000, "x".to_string(), false, true, false, true).unwrap();
    prefs.remember(&answers);
    assert!(!prefs.clipboard);
    assert!(prefs.map_drives);
    assert!(prefs.burn_after_reading);
    let d = SessionChoices::from_dialog(answers, &prefs);
    assert_eq!(d.password, "x");
    assert!(d.burn_after_reading);
    assert_eq!(d.resolution, "1440x900");
}
