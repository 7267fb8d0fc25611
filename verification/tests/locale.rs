use rust_app_sample::text::lower_case;
use rust_app_sample::locale::{app_fallback_codes, choose_for_code, plugin_fallback_codes};
use rust_app_sample::locale::{
    add_language_file, choose_app_language, choose_plugin_language, normalize_lang_code,
    primary_subtag_chars, LangTable,
};

fn chars(s: &str) -> Vec<char> {
    s.chars().collect()
}

fn table(files: &[(&str, &str)]) -> LangTable {
    let mut t = LangTable::new();
    for (stem, content) in files {
        add_language_file(&mut t, stem, content.to_string());
    }
    t
}

#[test]
fn normalizes_case_and_underscores() {
    assert_eq!(normalize_lang_code("ja_JP"), "ja-jp");
    assert_eq!(normalize_lang_code("EN-us"), "en-us");
    assert_eq!(normalize_lang_code(""), "");
}

#[test]
fn primary_subtag_is_the_part_before_the_first_hyphen() {
    assert_eq!(primary_subtag_chars(&chars("zh-hant-tw")), chars("zh"));
    assert_eq!(primary_subtag_chars(&chars("de")), chars("de"));
    assert_eq!(primary_subtag_chars(&chars("")), chars(""));
}

#[test]
fn added_file_is_stored_under_its_normalized_stem() {
    let t = table(&[("ja_JP", "greeting=x")]);
    assert_eq!(t.len(), 1);
    assert_eq!(t.get(&chars("ja-jp")).map(|s| s.as_str()), Some("greeting=x"));
    assert_eq!(t.get(&chars("ja_JP")), None);
}

#[test]
fn adding_the_same_code_again_replaces_the_content() {
    let t = table(&[("ja_JP", "old"), ("en", "e"), ("JA-jp", "new")]);
    assert_eq!(t.len(), 2);
    assert_eq!(t.get(&chars("ja-jp")).map(|s| s.as_str()), Some("new"));
    assert_eq!(t.get(&chars("en")).map(|s| s.as_str()), Some("e"));
}

#[test]
fn exact_code_is_chosen_first() {
    let t = table(&[("ja-JP", "ja"), ("en_US", "en")]);
    assert_eq!(choose_app_language(&t, "EN_us").map(|s| s.as_str()), Some("en"));
}

#[test]
fn same_primary_language_comes_next() {
    let t = table(&[("ja-JP", "ja"), ("en-gb", "gb"), ("en-us", "us")]);
    assert_eq!(choose_app_language(&t, "en-AU").map(|s| s.as_str()), Some("gb"));
    assert_eq!(choose_app_language(&t, "en").map(|s| s.as_str()), Some("gb"));
}

#[test]
fn japanese_is_the_fallback() {
    let t = table(&[("de", "de"), ("ja-jp", "ja")]);
    assert_eq!(choose_app_language(&t, "fr").map(|s| s.as_str()), Some("ja"));
}

#[test]
fn first_file_is_the_last_resort() {
    let t = table(&[("de", "de"), ("it", "it")]);
    assert_eq!(choose_app_language(&t, "fr").map(|s| s.as_str()), Some("de"));
}

#[test]
fn no_file_means_no_choice() {
    let t = LangTable::new();
    assert_eq!(choose_app_language(&t, "ja-jp"), None);
    assert_eq!(choose_plugin_language(&t, "ja-jp"), None);
}

#[test]
fn plugins_also_fall_back_to_bare_japanese() {
    let t = table(&[("de", "de"), ("ja", "ja")]);
    assert_eq!(choose_plugin_language(&t, "fr").map(|s| s.as_str()), Some("ja"));
    assert_eq!(choose_app_language(&t, "fr").map(|s| s.as_str()), Some("de"));
}

#[test]
fn empty_code_matches_the_first_file_by_prefix() {
    let t = table(&[("de", "de"), ("ja-jp", "ja")]);
    assert_eq!(choose_app_language(&t, "").map(|s| s.as_str()), Some("de"));
}

#[test]
fn choice_for_a_code_in_normal_form() {
    let t = table(&[("de", "de"), ("ja", "ja"), ("en-us", "us")]);
    assert_eq!(choose_for_code(&t, "en-gb", &app_fallback_codes()).map(|s| s.as_str()), Some("us"));
    assert_eq!(choose_for_code(&t, "fr", &app_fallback_codes()).map(|s| s.as_str()), Some("de"));
    assert_eq!(choose_for_code(&t, "fr", &plugin_fallback_codes()).map(|s| s.as_str()), Some("ja"));
    // Not normalized here: "EN-US" is compared as it is.
    assert_eq!(choose_for_code(&t, "EN-US", &app_fallback_codes()).map(|s| s.as_str()), Some("de"));
}

#[test]
fn normalized_codes_have_no_underscore() {
    assert!(!normalize_lang_code("a_b_C").contains('_'));
}

#[test]
fn ascii_lower_case_keeps_the_neighbours_of_letters() {
    assert_eq!(lower_case("@AZ[`az{_-Ü"), "@az[`az{_-ü");
    assert_eq!(normalize_lang_code(&normalize_lang_code("Ja_JP")), normalize_lang_code("Ja_JP"));
}
