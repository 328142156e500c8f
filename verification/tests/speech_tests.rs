use enyan_core::speech::{
    custom_init_tts, custom_init_tts_with_path, find_voice_by_id, pick_voice, r_get_voices,
    r_set_voice, retry_delay_ms, speak_chinese_test, EngineSettings, VoiceRecord,
    INIT_RETRY_DELAY_MS,
};

fn record(id: &str, name: &str, language: &str) -> VoiceRecord {
    VoiceRecord { id: id.to_string(), name: name.to_string(), language: language.to_string() }
}

#[test]
fn voices_are_filtered_by_chinese_language_tags() {
    let records = vec![
        record("a", "Alice", "EN-us"),
        record("b", "Ting", "ZH-CN"),
        record("c", "Carol", "de-DE"),
        record("d", "Dao", "CHI"),
    ];
    let voices = r_get_voices(&records);
    let ids: Vec<&str> = voices.iter().map(|v| v.id.as_str()).collect();
    assert_eq!(ids, vec!["b", "d"]);
    assert_eq!(voices[0].name, "Ting");
}

#[test]
fn find_voice_by_id_returns_the_first_match() {
    let records = vec![record("a", "A", "zh"), record("b", "B", "zh"), record("b", "B2", "zh")];
    assert_eq!(find_voice_by_id(&records, &"b".to_string()), Some(1));
    assert_eq!(find_voice_by_id(&records, &"x".to_string()), None);
}

#[test]
fn pick_voice_prefers_the_selected_id() {
    let records = vec![record("a", "zh-CN voice", "zh"), record("b", "B", "zh")];
    assert_eq!(pick_voice(&records, &Some("b".to_string())), Some(1));
    // a selection that the engine does not offer picks nothing, even though
    // a preferred name exists
    assert_eq!(pick_voice(&records, &Some("x".to_string())), None);
}

#[test]
fn pick_voice_falls_back_to_preferred_names() {
    let records = vec![
        record("a", "Alice", "en"),
        record("b", "Ting-Ting", "zh"),
        record("c", "Meijia", "zh"),
    ];
    assert_eq!(pick_voice(&records, &None), Some(1));
    let plain = vec![record("a", "Alice", "en")];
    assert_eq!(pick_voice(&plain, &None), None);
}

#[test]
fn retry_policy_allows_one_retry_with_a_pause() {
    assert_eq!(retry_delay_ms(0), Some(INIT_RETRY_DELAY_MS));
    assert_eq!(retry_delay_ms(1), Some(600));
    assert_eq!(retry_delay_ms(2), None);
    assert_eq!(retry_delay_ms(7), None);
}

#[test]
fn init_requests_update_the_settings() {
    let mut settings = EngineSettings::new();
    assert!(!settings.init_requested);
    custom_init_tts(&mut settings);
    assert!(settings.init_requested);
    assert!(settings.assets_path.is_none());
    custom_init_tts_with_path(&mut settings, "/data/shared".to_string());
    assert_eq!(settings.assets_path.as_deref(), Some("/data/shared"));
}

#[test]
fn set_voice_records_the_selection_and_names_the_voice() {
    let mut settings = EngineSettings::new();
    let records = vec![record("a", "A", "zh"), record("b", "B", "zh")];
    let idx = r_set_voice(&mut settings, &records, "b".to_string());
    assert_eq!(idx, Some(1));
    assert_eq!(settings.selected_voice_id.as_deref(), Some("b"));
    let idx = r_set_voice(&mut settings, &records, "x".to_string());
    assert_eq!(idx, None);
    assert_eq!(settings.selected_voice_id.as_deref(), Some("x"));
}

#[test]
fn speak_confirmation_quotes_the_text() {
    assert_eq!(speak_chinese_test("你好".to_string()), "已发送朗读请求: 你好");
}
