//! Plugins: the names under which their message files are kept, the answer the
//! core library gives for a plugin's message, and how the host names plugins.

use vstd::prelude::*;
use crate::lang_file::{lemma_parse_key_nul_free, lemma_removed_char_absent, parse_key, parse_key_from_content};
use crate::locale::{
    choose_for_code, chosen_for_code, primary_subtag, chosen_language, normalize_lang_code, normalized,
    plugin_fallback_codes, plugin_fallbacks, LangTable,
};
use crate::table::{
    index_of_key, inserted, keys_distinct, lemma_insert_then_read, lemma_resolve_total, value_of,
    KeyedTable,
};
use crate::text::{
    lemma_absent_in_parts, lemma_concat_lacks, lemma_remove_absent_char,
    chars_of, concat_chars, has_prefix, lower, remove_char, remove_char_chars,
    starts_with_chars, string_of, sub_chars, lower_case, trim, trim_chars,
    trim_start_char, trim_start_char_chars,
};

verus! {

/// The message files of every plugin, keyed by the lower-cased plugin name.
pub type PluginCatalog = KeyedTable<LangTable>;

/// The key of the message that a plugin prints when it is run.
pub const PLUGIN_MESSAGE_KEY: &'static str = "plugin_msg";

/// The answer for `key` in the messages of the plugin known as `name` (already
/// lower-cased), in the language `target` (already in normal form), before NUL
/// characters are removed.
pub open spec fn plugin_answer_for(
    catalog: Seq<(Seq<char>, LangTable)>,
    name: Seq<char>,
    target: Seq<char>,
    key: Seq<char>,
) -> Seq<char> {
    match value_of(catalog, name) {
        None => "[Plugin Not Found: "@ + name + "]"@,
        Some(files) => match chosen_for_code(files@, target, plugin_fallbacks()) {
            None => "[Plugin Language File Not Found: "@ + name + "]"@,
            Some(i) => parse_key(files@[i].1@, trim(key)),
        },
    }
}

/// No message file in the catalog holds a NUL character.
pub open spec fn catalog_nul_free(catalog: Seq<(Seq<char>, LangTable)>) -> bool {
    forall|i: int, j: int|
        0 <= i < catalog.len() && 0 <= j < catalog[i].1@.len() ==> !#[trigger] catalog[i].1@[j].1@.contains(
            '\0',
        )
}

/// The core library's answer for `key` in plugin `plugin`'s messages in
/// language `lang_code`, before NUL characters are removed.
pub open spec fn plugin_answer(
    catalog: Seq<(Seq<char>, LangTable)>,
    plugin: Seq<char>,
    lang_code: Seq<char>,
    key: Seq<char>,
) -> Seq<char> {
    plugin_answer_for(catalog, lower(plugin), normalized(lang_code), key)
}

/// The core library's `get_plugin_translation` answer, free of NUL characters.
pub open spec fn plugin_translation_text(
    catalog: Seq<(Seq<char>, LangTable)>,
    plugin: Seq<char>,
    lang_code: Seq<char>,
    key: Seq<char>,
) -> Seq<char> {
    remove_char(plugin_answer(catalog, plugin, lang_code, key), '\0')
}

/// Records the message files of the plugin whose directory is `dir_name`;
/// the plugin is known by the lower-cased name.
pub fn register_plugin(catalog: &mut PluginCatalog, dir_name: &str, files: LangTable)
    ensures
        final(catalog)@ == inserted(old(catalog)@, lower(dir_name@), files),
{
    let name = lower_case(dir_name);
    catalog.insert(chars_of(name.as_str()), files);
}

/// `prefix`, then `name`, then `]`.
fn bracketed(prefix: &str, name: &[char]) -> (r: Vec<char>)
    ensures
        r@ == prefix@ + name@ + "]"@,
{
    let a = concat_chars(&chars_of(prefix), name);
    concat_chars(&a, &chars_of("]"))
}

/// The message for `key` of the plugin known as `name` (already lower-cased) in
/// the language `target` (already in normal form): the plugin's message file is
/// chosen for the language (exact code, primary language, `ja-jp`, `ja`, any
/// file) and the trimmed key looked up in it. NUL characters are removed.
pub fn plugin_translation_for(catalog: &PluginCatalog, name: &str, target: &str, key: &str) -> (r:
    String)
    ensures
        r@ == remove_char(plugin_answer_for(catalog@, name@, target@, key@), '\0'),
        !r@.contains('\0'),
        catalog_nul_free(catalog@) && !name@.contains('\0') && !key@.contains('\0') ==> r@
            == plugin_answer_for(catalog@, name@, target@, key@),
{
    let n = chars_of(name);
    let answer: Vec<char> = match catalog.get(&n) {
        None => bracketed("[Plugin Not Found: ", &n),
        Some(files) => match choose_for_code(files, target, &plugin_fallback_codes()) {
            None => bracketed("[Plugin Language File Not Found: ", &n),
            Some(content) => {
                let k = string_of(&trim_chars(&chars_of(key)));
                chars_of(parse_key_from_content(content.as_str(), k.as_str()).as_str())
            },
        },
    };
    let cleaned = remove_char_chars(&answer, '\0');
    proof {
        lemma_removed_char_absent(plugin_answer_for(catalog@, name@, target@, key@), '\0');
        if catalog_nul_free(catalog@) && !name@.contains('\0') && !key@.contains('\0') {
            lemma_plugin_answer_nul_free(catalog@, name@, target@, key@);
            lemma_remove_absent_char(plugin_answer_for(catalog@, name@, target@, key@), '\0');
        }
    }
    string_of(&cleaned)
}

/// The message of plugin `plugin_name` for `key` in `lang_code`: the plugin is
/// looked up by its lower-cased name and the language code put in normal form
/// (see `plugin_translation_for`). NUL characters are removed from the answer.
pub fn plugin_translation(catalog: &PluginCatalog, plugin_name: &str, lang_code: &str, key: &str) -> (r:
    String)
    ensures
        r@ == plugin_translation_text(catalog@, plugin_name@, lang_code@, key@),
        !r@.contains('\0'),
        catalog_nul_free(catalog@) && !lower(plugin_name@).contains('\0') && !key@.contains('\0')
            ==> r@ == plugin_answer(catalog@, plugin_name@, lang_code@, key@),
{
    let name = lower_case(plugin_name);
    let target = normalize_lang_code(lang_code);
    plugin_translation_for(catalog, name.as_str(), target.as_str(), key)
}

/// The plugin name that a library file stem stands for: the platform's library
/// prefix (`lib` on Linux and macOS) is dropped when the stem starts with it.
pub open spec fn plugin_name_of(stem: Seq<char>, dll_prefix: Seq<char>) -> Seq<char> {
    if dll_prefix.len() > 0 && has_prefix(stem, dll_prefix) {
        stem.skip(dll_prefix.len() as int)
    } else {
        stem
    }
}

/// The plugin name for a library file stem (`libplugin_sample` becomes
/// `plugin_sample` where the prefix is `lib`).
pub fn plugin_name_from_stem(file_stem: &str, dll_prefix: &str) -> (r: String)
    ensures
        r@ == plugin_name_of(file_stem@, dll_prefix@),
{
    let stem = chars_of(file_stem);
    let prefix = chars_of(dll_prefix);
    if prefix.len() > 0 && starts_with_chars(&stem, &prefix) {
        assert(stem@.subrange(prefix@.len() as int, stem@.len() as int) == stem@.skip(prefix@.len() as int));
        string_of(&sub_chars(&stem, prefix.len(), stem.len()))
    } else {
        file_stem.to_string()
    }
}

/// The file extension of the platform's libraries: its suffix without the
/// leading dots (`.so` gives `so`).
pub fn library_extension(dll_suffix: &str) -> (r: String)
    ensures
        r@ == trim_start_char(dll_suffix@, '.'),
{
    string_of(&trim_start_char_chars(&chars_of(dll_suffix), '.'))
}

/// How the host's request for a plugin message went.
pub enum HostReply {
    /// The core library could not be loaded; `location` is how its path prints.
    LoadFailed { library: String, location: String },
    /// The core library has no `get_plugin_translation` symbol.
    SymbolMissing,
    /// `get_plugin_translation` returned a null pointer.
    NoResult,
    /// `get_plugin_translation` returned this text.
    Text(String),
}

/// The message that a host reply becomes.
pub open spec fn host_reply_text(reply: HostReply, key: Seq<char>) -> Seq<char> {
    match reply {
        HostReply::LoadFailed { library, location } => "[Failed to load "@ + library@ + " at "@
            + location@ + "]"@,
        HostReply::SymbolMissing => "[Symbol not found: get_plugin_translation]"@,
        HostReply::NoResult => "[Translation Error: "@ + key + "]"@,
        HostReply::Text(s) => s@,
    }
}

/// The message handed to a plugin once the host's request has been answered.
pub fn host_reply_message(reply: HostReply, key: &str) -> (r: String)
    ensures
        r@ == host_reply_text(reply, key@),
{
    broadcast use vstd::string::group_string_axioms;
    match reply {
        HostReply::LoadFailed { library, location } => {
            let a = concat_chars(&chars_of("[Failed to load "), &chars_of(library.as_str()));
            let b = concat_chars(&a, &chars_of(" at "));
            let c = concat_chars(&b, &chars_of(location.as_str()));
            string_of(&concat_chars(&c, &chars_of("]")))
        },
        HostReply::SymbolMissing => "[Symbol not found: get_plugin_translation]".to_string(),
        HostReply::NoResult => string_of(&bracketed("[Translation Error: ", &chars_of(key))),
        HostReply::Text(s) => s,
    }
}

/// Registering a plugin's message files and then asking that plugin, by any
/// spelling of its name that lower-cases the same, reads those files.
pub proof fn lemma_registered_plugin_is_read(
    catalog: Seq<(Seq<char>, LangTable)>,
    dir_name: Seq<char>,
    files: LangTable,
    plugin: Seq<char>,
    lang_code: Seq<char>,
    key: Seq<char>,
)
    requires
        keys_distinct(catalog),
        lower(plugin) == lower(dir_name),
    ensures
        plugin_answer(inserted(catalog, lower(dir_name), files), plugin, lang_code, key) == (
        match chosen_language(files@, lang_code, plugin_fallbacks()) {
            Some(i) => parse_key(files@[i].1@, trim(key)),
            None => "[Plugin Language File Not Found: "@ + lower(plugin) + "]"@,
        }),
{
    lemma_insert_then_read(catalog, lower(dir_name), files, lower(dir_name));
}

/// A stem made of the library prefix and a name stands for that name.
pub proof fn lemma_prefix_is_dropped(dll_prefix: Seq<char>, name: Seq<char>)
    requires
        dll_prefix.len() > 0,
    ensures
        plugin_name_of(dll_prefix + name, dll_prefix) == name,
{
    assert((dll_prefix + name).take(dll_prefix.len() as int) == dll_prefix);
    assert((dll_prefix + name).skip(dll_prefix.len() as int) == name);
}

/// `prefix`, `name` and `]` hold no NUL when `name` holds none.
proof fn lemma_bracketed_nul_free(prefix: Seq<char>, name: Seq<char>)
    requires
        !prefix.contains('\0'),
        !name.contains('\0'),
    ensures
        !(prefix + name + "]"@).contains('\0'),
{
    reveal_strlit("]");
    lemma_concat_lacks(prefix, name, '\0');
    assert(!"]"@.contains('\0')) by {
        assert("]"@[0] == ']');
    }
    lemma_concat_lacks(prefix + name, "]"@, '\0');
}

/// With message files, plugin name and key free of NUL characters, the answer
/// holds none either.
pub proof fn lemma_plugin_answer_nul_free(
    catalog: Seq<(Seq<char>, LangTable)>,
    name: Seq<char>,
    target: Seq<char>,
    key: Seq<char>,
)
    requires
        catalog_nul_free(catalog),
        !name.contains('\0'),
        !key.contains('\0'),
    ensures
        !plugin_answer_for(catalog, name, target, key).contains('\0'),
{
    match value_of(catalog, name) {
        None => {
            reveal_strlit("[Plugin Not Found: ");
            let p = "[Plugin Not Found: "@;
            assert(!p.contains('\0')) by {
                assert forall|x: int| 0 <= x < p.len() implies p[x] != '\0' by {}
            }
            lemma_bracketed_nul_free(p, name);
        },
        Some(files) => {
            let idx = index_of_key(catalog, name)->0;
            assert(0 <= idx < catalog.len() && catalog[idx].0 == name);
            assert(files == catalog[idx].1);
            match chosen_for_code(files@, target, plugin_fallbacks()) {
                None => {
                    reveal_strlit("[Plugin Language File Not Found: ");
                    let p = "[Plugin Language File Not Found: "@;
                    assert(!p.contains('\0')) by {
                        assert forall|x: int| 0 <= x < p.len() implies p[x] != '\0' by {}
                    }
                    lemma_bracketed_nul_free(p, name);
                },
                Some(i) => {
                    lemma_resolve_total(files@, target, primary_subtag(target), plugin_fallbacks());
                    assert(!files@[i].1@.contains('\0'));
                    lemma_absent_in_parts(key, '\0', '\n');
                    lemma_parse_key_nul_free(files@[i].1@, trim(key));
                },
            }
        },
    }
}

} // verus!
