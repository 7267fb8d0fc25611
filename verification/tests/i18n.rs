use rust_app_sample::i18n::{core_library_name, core_reply_text, CoreReply, I18n, TextRequest};
use rust_app_sample::locale::{add_language_file, LangTable};

#[test]
fn new_translator_keeps_its_language() {
    let i = I18n::new("ja-jp");
    assert_eq!(i.lang(), "ja-jp");
}

#[test]
fn set_lang_changes_the_language() {
    let mut i = I18n::new("ja-jp");
    i.set_lang("en_US");
    assert_eq!(i.lang(), "en_US");
}

#[test]
fn without_language_files_the_answer_is_known() {
    let i = I18n::new("ja-jp");
    match i.t(&LangTable::new(), "greeting") {
        TextRequest::Answer(a) => assert_eq!(a, "Language files not found"),
        TextRequest::Translate { .. } => panic!("expected an answer"),
    }
}

#[test]
fn with_language_files_the_chosen_file_goes_to_the_core() {
    let mut t = LangTable::new();
    add_language_file(&mut t, "en", "greeting=Hello".to_string());
    add_language_file(&mut t, "ja-JP", "greeting=こんにちは".to_string());
    let mut i = I18n::new("ja_JP");
    match i.t(&t, "greeting") {
        TextRequest::Translate { content, key } => {
            assert_eq!(content, "greeting=こんにちは");
            assert_eq!(key, "greeting");
        }
        TextRequest::Answer(_) => panic!("expected a request"),
    }
    i.set_lang("en");
    match i.t(&t, "greeting") {
        TextRequest::Translate { content, .. } => assert_eq!(content, "greeting=Hello"),
        TextRequest::Answer(_) => panic!("expected a request"),
    }
}

#[test]
fn core_library_name_joins_prefix_and_suffix() {
    assert_eq!(core_library_name("lib", ".so"), "libcore.so");
    assert_eq!(core_library_name("", ".dll"), "core.dll");
}

#[test]
fn core_replies_become_texts() {
    assert_eq!(core_reply_text(CoreReply::LibraryMissing, "libcore.so"), "Failed to load libraries/libcore.so");
    assert_eq!(core_reply_text(CoreReply::SymbolMissing, "core.dll"), "Failed to find symbol parse_translation");
    assert_eq!(core_reply_text(CoreReply::NoResult, "core.dll"), "Translation error");
    assert_eq!(core_reply_text(CoreReply::Text("やあ".to_string()), "core.dll"), "やあ");
}
