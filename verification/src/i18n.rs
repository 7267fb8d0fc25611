//! The application's translator: the current language, and what it asks of the
//! core library for a key.

use vstd::prelude::*;
use crate::locale::{app_fallbacks, choose_app_language, chosen_language, LangTable};
use crate::text::{chars_of, concat_chars, string_of};

verus! {

broadcast use vstd::string::group_string_axioms;

/// What the translator needs next for a key.
pub enum TextRequest {
    /// The answer, known without the core library.
    Answer(String),
    /// The core library's `parse_translation` of `key` in `content` is the answer.
    Translate { content: String, key: String },
}

/// How a call of the core library's `parse_translation` went.
pub enum CoreReply {
    /// The core library could not be loaded.
    LibraryMissing,
    /// The library has no `parse_translation` symbol.
    SymbolMissing,
    /// `parse_translation` returned a null pointer.
    NoResult,
    /// `parse_translation` returned this text.
    Text(String),
}

/// The text shown when no language file was found.
pub open spec fn no_language_files() -> Seq<char> {
    "Language files not found"@
}

/// The text that a reply of the core library becomes.
pub open spec fn reply_text(reply: CoreReply, library_name: Seq<char>) -> Seq<char> {
    match reply {
        CoreReply::LibraryMissing => "Failed to load libraries/"@ + library_name,
        CoreReply::SymbolMissing => "Failed to find symbol parse_translation"@,
        CoreReply::NoResult => "Translation error"@,
        CoreReply::Text(s) => s@,
    }
}

/// The file name of the core library: the platform's prefix, `core`, and the
/// platform's suffix (`core.dll`, `libcore.so`, `libcore.dylib`).
pub fn core_library_name(dll_prefix: &str, dll_suffix: &str) -> (r: String)
    ensures
        r@ == dll_prefix@ + "core"@ + dll_suffix@,
{
    let a = concat_chars(&chars_of(dll_prefix), &chars_of("core"));
    let b = concat_chars(&a, &chars_of(dll_suffix));
    string_of(&b)
}

/// The text for a key once the core library has answered (or failed to).
pub fn core_reply_text(reply: CoreReply, library_name: &str) -> (r: String)
    ensures
        r@ == reply_text(reply, library_name@),
{
    match reply {
        CoreReply::LibraryMissing => {
            let v = concat_chars(&chars_of("Failed to load libraries/"), &chars_of(library_name));
            string_of(&v)
        },
        CoreReply::SymbolMissing => "Failed to find symbol parse_translation".to_string(),
        CoreReply::NoResult => "Translation error".to_string(),
        CoreReply::Text(s) => s,
    }
}

/// Translates keys into the language it is set to.
pub struct I18n {
    lang: String,
}

impl View for I18n {
    type V = Seq<char>;

    /// The language code the translator is set to.
    closed spec fn view(&self) -> Seq<char> {
        self.lang@
    }
}

impl I18n {
    /// A translator set to `lang`.
    pub fn new(lang: &str) -> (r: Self)
        ensures
            r@ == lang@,
    {
        I18n { lang: lang.to_string() }
    }

    /// Sets the translator to `lang`.
    pub fn set_lang(&mut self, lang: &str)
        ensures
            final(self)@ == lang@,
    {
        self.lang = lang.to_string();
    }

    /// The language code the translator is set to.
    pub fn lang(&self) -> (r: &str)
        ensures
            r@ == self@,
    {
        self.lang.as_str()
    }

    /// What translating `key` takes, given the loaded language files: with no
    /// file at all the answer is `Language files not found`; otherwise the core
    /// library is asked for `key` in the file chosen for the current language.
    pub fn t(&self, languages: &LangTable, key: &str) -> (r: TextRequest)
        ensures
            match chosen_language(languages@, self@, app_fallbacks()) {
                None => r matches TextRequest::Answer(a) && a@ == no_language_files(),
                Some(i) => r matches TextRequest::Translate { content, key: k } && content@
                    == languages@[i].1@ && k@ == key@,
            },
    {
        match choose_app_language(languages, self.lang.as_str()) {
            None => TextRequest::Answer("Language files not found".to_string()),
            Some(content) => TextRequest::Translate { content: content.clone(), key: key.to_string() },
        }
    }
}

/// The core library's text is shown exactly as it came back, even when it is
/// empty; only the failures become messages of their own, and a missing
/// library's message names the library.
pub proof fn lemma_core_text_shown_unchanged(s: String, library_name: Seq<char>)
    ensures
        reply_text(CoreReply::Text(s), library_name) == s@,
        has_suffix_of(reply_text(CoreReply::LibraryMissing, library_name), library_name),
{
    let m = reply_text(CoreReply::LibraryMissing, library_name);
    let p = "Failed to load libraries/"@;
    assert(m.skip(p.len() as int) == library_name);
}

/// `t` ends with `s`.
pub open spec fn has_suffix_of(t: Seq<char>, s: Seq<char>) -> bool {
    s.len() <= t.len() && t.skip(t.len() - s.len()) == s
}

} // verus!
