use media_tagger::template::{
    get_record_value_for_token, replace_file_name_template_tokens, to_pascal_case,
    truncate_value, TemplateError,
};

fn record() -> Vec<String> {
    vec![
        "3".to_string(),
        "1".to_string(),
        "3".to_string(),
        "The Story of Tahoumaru: Part 1".to_string(),
    ]
}

fn chars(s: &str) -> Vec<char> {
    s.chars().collect()
}

#[test]
fn number_token_is_padded_with_zeros() {
    assert_eq!(get_record_value_for_token("i2.p2".to_string(), record()), Ok("03".to_string()));
    assert_eq!(get_record_value_for_token("i2.p0".to_string(), record()), Ok("3".to_string()));
    assert_eq!(get_record_value_for_token("i0.p4".to_string(), record()), Ok("0003".to_string()));
}

#[test]
fn number_token_longer_than_width_is_kept() {
    let rec = vec!["12345".to_string()];
    assert_eq!(get_record_value_for_token("i0.p2".to_string(), rec), Ok("12345".to_string()));
}

#[test]
fn string_token_clean_and_title() {
    assert_eq!(
        get_record_value_for_token("s3.ct".to_string(), record()),
        Ok("TheStoryOfTahoumaruPart1".to_string())
    );
    assert_eq!(
        get_record_value_for_token("s3.c".to_string(), record()),
        Ok("The Story of Tahoumaru Part 1".to_string())
    );
    assert_eq!(
        get_record_value_for_token("s3.x".to_string(), record()),
        Ok("The Story of Tahoumaru: Part 1".to_string())
    );
}

#[test]
fn string_token_length_cuts_at_last_space() {
    let rec = vec!["The Story of Tahoumaru".to_string()];
    assert_eq!(get_record_value_for_token("s0.l10".to_string(), rec.clone()), Ok("The Story of".to_string()));
    // long enough: nothing is cut
    assert_eq!(get_record_value_for_token("s0.l30".to_string(), rec), Ok("The Story of Tahoumaru".to_string()));
}

#[test]
fn last_format_setting_wins() {
    let rec = vec!["7".to_string()];
    assert_eq!(get_record_value_for_token("i0.p1p3".to_string(), rec), Ok("007".to_string()));
}

#[test]
fn unknown_kind_stands_for_itself() {
    assert_eq!(get_record_value_for_token("q1.x".to_string(), record()), Ok("q1.x".to_string()));
}

#[test]
fn token_errors() {
    assert_eq!(get_record_value_for_token("abc".to_string(), record()), Err(TemplateError::UndecodableToken));
    assert_eq!(get_record_value_for_token("i9.p2".to_string(), record()), Err(TemplateError::FieldIndexOutOfRange));
    assert_eq!(get_record_value_for_token("s4.c".to_string(), record()), Err(TemplateError::FieldIndexOutOfRange));
    assert_eq!(
        get_record_value_for_token("i99999999999999999999999.p2".to_string(), record()),
        Err(TemplateError::BadTokenIndex)
    );
}

#[test]
fn template_is_filled_in() {
    assert_eq!(
        replace_file_name_template_tokens("Dororo-{{i2.p2}}-{{s3.ct}}".to_string(), record()),
        Ok("Dororo-03-TheStoryOfTahoumaruPart1".to_string())
    );
    assert_eq!(
        replace_file_name_template_tokens("Dororo - {{i2.p2}}".to_string(), record()),
        Ok("Dororo - 03".to_string())
    );
    assert_eq!(
        replace_file_name_template_tokens("Futurama-S{{i1.p2}}E{{i2.p2}}".to_string(), record()),
        Ok("Futurama-S01E03".to_string())
    );
}

#[test]
fn template_repeated_token_is_replaced_everywhere() {
    assert_eq!(
        replace_file_name_template_tokens("{{i2.p2}}x{{i2.p2}}".to_string(), record()),
        Ok("03x03".to_string())
    );
}

#[test]
fn template_without_tokens_is_unchanged() {
    assert_eq!(
        replace_file_name_template_tokens("Season 1 {not a token}".to_string(), record()),
        Ok("Season 1 {not a token}".to_string())
    );
}

#[test]
fn template_with_bad_token_fails() {
    assert_eq!(
        replace_file_name_template_tokens("X-{{zz}}".to_string(), record()),
        Err(TemplateError::UndecodableToken)
    );
}

#[test]
fn pascal_case_words() {
    assert_eq!(to_pascal_case("hello world-foo"), "HelloWorldFoo");
    assert_eq!(to_pascal_case("  the END  "), "TheEnd");
    assert_eq!(to_pascal_case("école été"), "ÉcoleÉté");
    assert_eq!(to_pascal_case("--"), "");
    assert_eq!(to_pascal_case("straße"), "Straße");
}

#[test]
fn truncate_without_space_keeps_cut() {
    assert_eq!(truncate_value(&chars("abcdefgh"), 3), chars("abc"));
    assert_eq!(truncate_value(&chars("abc"), 3), chars("abc"));
}

#[test]
fn separator_splits_pascal_case() {
    for (a, s, b) in [("hello", ' ', "world"), ("x-y", '_', "z w"), ("", '.', "abc"), ("ab", '%', "")] {
        let joined = format!("{}{}{}", a, s, b);
        assert_eq!(to_pascal_case(&joined), to_pascal_case(a) + &to_pascal_case(b));
    }
}
