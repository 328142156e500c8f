use enyan_core::text::process_tts_text;

#[test]
fn fallback_reading_is_inserted_and_collapsed() {
    // 地 gains its fallback reading, and the group collapses to the reading
    assert_eq!(process_tts_text("天地", None), "天dì");
}

#[test]
fn present_reading_suppresses_the_fallback() {
    assert_eq!(process_tts_text("地[dì]已知", None), "dì已知");
    // with a reading already present, other 地 occurrences stay bare
    assert_eq!(process_tts_text("天地化地[dì]", None), "天地化dì");
}

#[test]
fn lexicon_entries_apply_before_the_rewrite() {
    let lexicon = "{\"行\": \"行[háng]\"}";
    assert_eq!(process_tts_text("银行", Some(lexicon)), "银háng");
}

#[test]
fn lexicon_that_is_not_an_object_is_ignored() {
    assert_eq!(process_tts_text("天地", Some("[1, 2]")), "天dì");
    assert_eq!(process_tts_text("天地", Some("not json")), "天dì");
}

#[test]
fn lexicon_keeps_only_string_valued_entries() {
    let lexicon = "{\"行\": 3, \"乐\": \"乐[yuè]\"}";
    assert_eq!(process_tts_text("行乐", Some(lexicon)), "行yuè");
}

#[test]
fn groups_after_non_han_characters_stay() {
    // 'a' is not a Han character, so its bracket group is no reading
    assert_eq!(process_tts_text("a[b]", None), "a[b]");
}

#[test]
fn empty_readings_stay() {
    // an empty bracket pair is no reading; the fallback still applies
    assert_eq!(process_tts_text("地[]", None), "dì[]");
}

#[test]
fn multiple_groups_collapse_left_to_right() {
    assert_eq!(process_tts_text("乐[yuè]乐[lè][dì]", None), "yuèlè[dì]");
}
