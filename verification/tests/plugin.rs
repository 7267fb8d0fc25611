use rust_app_sample::plugin::{plugin_translation_for, PLUGIN_MESSAGE_KEY};
use rust_app_sample::locale::{add_language_file, LangTable};
use rust_app_sample::plugin::{
    host_reply_message, library_extension, plugin_name_from_stem, plugin_translation,
    register_plugin, HostReply, PluginCatalog,
};

fn files(entries: &[(&str, &str)]) -> LangTable {
    let mut t = LangTable::new();
    for (stem, content) in entries {
        add_language_file(&mut t, stem, content.to_string());
    }
    t
}

fn catalog() -> PluginCatalog {
    let mut c = PluginCatalog::new();
    register_plugin(&mut c, "Plugin_Sample", files(&[("ja_JP", "plugin_msg=こんにちは"), ("en", "plugin_msg=hi")]));
    register_plugin(&mut c, "empty", LangTable::new());
    c
}

#[test]
fn registered_plugin_message_is_found() {
    let c = catalog();
    assert_eq!(plugin_translation(&c, "PLUGIN_SAMPLE", "ja_JP", " plugin_msg "), "こんにちは");
    assert_eq!(plugin_translation(&c, "plugin_sample", "en-GB", "plugin_msg"), "hi");
}

#[test]
fn unknown_plugin_is_reported_by_lower_cased_name() {
    let c = catalog();
    assert_eq!(plugin_translation(&c, "Other", "ja-jp", "plugin_msg"), "[Plugin Not Found: other]");
}

#[test]
fn plugin_without_files_is_reported() {
    let c = catalog();
    assert_eq!(
        plugin_translation(&c, "EMPTY", "ja-jp", "plugin_msg"),
        "[Plugin Language File Not Found: empty]"
    );
}

#[test]
fn missing_key_in_plugin_file() {
    let c = catalog();
    assert_eq!(plugin_translation(&c, "plugin_sample", "ja-jp", "x"), "[Key not found: x]");
}

#[test]
fn plugin_answer_has_no_nul() {
    let mut c = PluginCatalog::new();
    register_plugin(&mut c, "p", files(&[("ja", "k=a\0b")]));
    assert_eq!(plugin_translation(&c, "p", "de", "k"), "ab");
}

#[test]
fn plugin_name_drops_the_library_prefix() {
    assert_eq!(plugin_name_from_stem("libplugin_sample", "lib"), "plugin_sample");
    assert_eq!(plugin_name_from_stem("plugin_sample", ""), "plugin_sample");
    assert_eq!(plugin_name_from_stem("core", "lib"), "core");
    assert_eq!(plugin_name_from_stem("lib", "lib"), "");
}

#[test]
fn library_extension_drops_leading_dots() {
    assert_eq!(library_extension(".so"), "so");
    assert_eq!(library_extension("..dll"), "dll");
    assert_eq!(library_extension(""), "");
}

#[test]
fn host_replies_become_messages() {
    let failed = HostReply::LoadFailed { library: "libcore.so".to_string(), location: "\"/x/libcore.so\"".to_string() };
    assert_eq!(host_reply_message(failed, "plugin_msg"), "[Failed to load libcore.so at \"/x/libcore.so\"]");
    assert_eq!(host_reply_message(HostReply::SymbolMissing, "k"), "[Symbol not found: get_plugin_translation]");
    assert_eq!(host_reply_message(HostReply::NoResult, "plugin_msg"), "[Translation Error: plugin_msg]");
    assert_eq!(host_reply_message(HostReply::Text("ok".to_string()), "k"), "ok");
}

#[test]
fn translation_for_lowered_name_and_normalized_code() {
    let c = catalog();
    assert_eq!(plugin_translation_for(&c, "plugin_sample", "ja-jp", PLUGIN_MESSAGE_KEY), "こんにちは");
    // The name is not lower-cased here.
    assert_eq!(plugin_translation_for(&c, "Plugin_Sample", "ja-jp", "plugin_msg"), "[Plugin Not Found: Plugin_Sample]");
    assert_eq!(plugin_translation_for(&c, "empty", "ja-jp", "plugin_msg"), "[Plugin Language File Not Found: empty]");
}
