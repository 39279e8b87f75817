use clearclip::settings::{
    api_key_for_check, api_key_present, key_check_failure, normalize_api_key, record_key_check,
    AppSettings, ModelOverride, SettingsError,
};

#[test]
fn saves_and_removes_model_override() {
    let mut settings = AppSettings::default();
    settings.save_model_override(
        "app".into(),
        Some(ModelOverride {
            node_id: " 7 ".into(),
            field_name: " video ".into(),
        }),
    );
    let saved = settings.model_override("app").expect("saved");
    assert_eq!(saved.node_id, "7");
    assert_eq!(saved.field_name, "video");

    settings.save_model_override("app".into(), None);
    assert!(!settings.model_overrides.contains_key("app"));
}

#[test]
fn records_api_key_validation_state() {
    let mut settings = AppSettings::new();
    settings.mark_api_key_error("API Key 未授权".into());
    assert_eq!(settings.api_key_last_error.as_deref(), Some("API Key 未授权"));

    settings.mark_api_key_verified("123456".into());
    assert_eq!(settings.api_key_verified_at.as_deref(), Some("123456"));
    assert!(settings.api_key_last_error.is_none());

    settings.clear_api_key_state();
    assert!(settings.api_key_verified_at.is_none());
    assert!(settings.api_key_last_error.is_none());
}

#[test]
fn incomplete_overrides_are_removed() {
    let mut settings = AppSettings::new();
    settings.save_model_override("a".into(), Some(ModelOverride { node_id: "1".into(), field_name: "video".into() }));
    settings.save_model_override("b".into(), Some(ModelOverride { node_id: "2".into(), field_name: "file".into() }));
    settings.save_model_override("a".into(), Some(ModelOverride { node_id: "1".into(), field_name: "   ".into() }));
    assert!(settings.model_override("a").is_none());
    assert_eq!(
        settings.model_override("b"),
        Some(ModelOverride { node_id: "2".into(), field_name: "file".into() })
    );
    let entries = settings.model_overrides.entries();
    assert_eq!(entries.len(), 1);
}

#[test]
fn api_key_helpers() {
    assert_eq!(normalize_api_key("  sk-1 \n"), "sk-1");
    assert!(api_key_present(Some(" k ")));
    assert!(!api_key_present(Some("  ")));
    assert!(!api_key_present(None));
    assert_eq!(api_key_for_check("   "), Err("API Key 不能为空。".to_string()));
    assert_eq!(api_key_for_check(" k "), Ok("k".to_string()));
    assert_eq!(key_check_failure("bad"), "API Key 验证失败：bad");
}

#[test]
fn refused_keys_are_recorded() {
    let mut settings = AppSettings::new();
    settings.mark_api_key_verified("1".into());
    let r = record_key_check(&mut settings, Err("未授权".into()), "sk-1");
    assert_eq!(r, Err("API Key 验证失败：未授权".to_string()));
    assert_eq!(settings.api_key_last_error.as_deref(), Some("未授权"));
    assert_eq!(settings.api_key_verified_at.as_deref(), Some("1"));
    assert_eq!(record_key_check(&mut settings, Ok(()), "sk-1"), Ok(()));
    let r = record_key_check(&mut settings, Err("bad url ?apiKey=sk-1".into()), "sk-1");
    assert_eq!(r, Err("API Key 验证失败：bad url ?apiKey=sk-1".to_string()));
    assert_eq!(settings.api_key_last_error.as_deref(), Some("bad url ?apiKey=***"));
}

#[test]
fn settings_error_texts() {
    assert_eq!(SettingsError::Io("x".into()).message(), "设置文件读写失败：x");
    assert_eq!(SettingsError::Json("y".into()).message(), "设置文件格式错误：y");
    assert_eq!(SettingsError::Keyring("z".into()).message(), "系统凭据访问失败：z");
}
