//! Language codes and the choice of a language file for a requested code:
//! exact code, then same primary language, then fixed fallbacks, then any file.

use vstd::prelude::*;
use crate::table::{
    is_first_with_prefix, lemma_first_with_prefix_exists, lemma_first_with_prefix_unique,
    fallback_index, index_of_key,
    inserted, keys_distinct, lemma_insert_then_read, lemma_resolve_exact, lemma_resolve_total,
    resolve_index, KeyedTable,
};
use crate::text::{
    is_first_index, lemma_first_index_exists,
    has_prefix,
    all_ascii, ascii_lower,
    chars_of, find_char, first_index_of, lower, replace_char, replace_char_chars, string_of,
    sub_chars, lower_case,
};

verus! {

/// A language code in normal form: lower case, with `-` in place of `_`.
pub open spec fn normalized(code: Seq<char>) -> Seq<char> {
    replace_char(lower(code), '_', '-')
}

/// The primary language of a code: everything before its first `-`.
pub open spec fn primary_subtag(code: Seq<char>) -> Seq<char> {
    match first_index_of(code, '-') {
        Some(i) => code.take(i),
        None => code,
    }
}

/// The codes that the application falls back to, in order.
pub open spec fn app_fallbacks() -> Seq<Seq<char>> {
    seq!["ja-jp"@]
}

/// The codes that a plugin's messages fall back to, in order.
pub open spec fn plugin_fallbacks() -> Seq<Seq<char>> {
    seq!["ja-jp"@, "ja"@]
}

/// The entry of `table` chosen for a code already in normal form, with `fallbacks`.
pub open spec fn chosen_for_code(
    table: Seq<(Seq<char>, String)>,
    target: Seq<char>,
    fallbacks: Seq<Seq<char>>,
) -> Option<int> {
    resolve_index(table, target, primary_subtag(target), fallbacks)
}

/// The entry of `table` chosen for the requested code, with `fallbacks`.
pub open spec fn chosen_language(
    table: Seq<(Seq<char>, String)>,
    code: Seq<char>,
    fallbacks: Seq<Seq<char>>,
) -> Option<int> {
    chosen_for_code(table, normalized(code), fallbacks)
}

/// The characters of each code.
pub open spec fn code_views(codes: Seq<Vec<char>>) -> Seq<Seq<char>> {
    codes.map_values(|f: Vec<char>| f@)
}

/// The content of the language files, keyed by normalized language code.
pub type LangTable = KeyedTable<String>;

/// Puts a language code in normal form: lower case, `_` turned into `-`
/// (`ja_JP` and `JA-jp` both become `ja-jp`).
pub fn normalize_lang_code(code: &str) -> (r: String)
    ensures
        r@ == normalized(code@),
{
    let lowered = lower_case(code);
    let v = replace_char_chars(&chars_of(lowered.as_str()), '_', '-');
    string_of(&v)
}

/// The primary language of a code.
pub fn primary_subtag_chars(code: &[char]) -> (r: Vec<char>)
    ensures
        r@ == primary_subtag(code@),
{
    match find_char(code, '-') {
        Some(i) => sub_chars(code, 0, i),
        None => {
            assert(code@.subrange(0, code@.len() as int) == code@);
            sub_chars(code, 0, code.len())
        },
    }
}

/// Records a language file: its content goes under the normalized file stem.
pub fn add_language_file(table: &mut LangTable, file_stem: &str, content: String)
    ensures
        final(table)@ == inserted(old(table)@, normalized(file_stem@), content),
{
    let code = normalize_lang_code(file_stem);
    table.insert(chars_of(code.as_str()), content);
}

/// The application's fallback codes.
pub fn app_fallback_codes() -> (r: Vec<Vec<char>>)
    ensures
        code_views(r@) == app_fallbacks(),
{
    let r = vec![chars_of("ja-jp")];
    assert(code_views(r@) =~= app_fallbacks());
    r
}

/// The fallback codes of plugin messages.
pub fn plugin_fallback_codes() -> (r: Vec<Vec<char>>)
    ensures
        code_views(r@) == plugin_fallbacks(),
{
    let r = vec![chars_of("ja-jp"), chars_of("ja")];
    assert(code_views(r@) =~= plugin_fallbacks());
    r
}

/// The file chosen for `target`, a code already in normal form: the file of
/// that code; else the first whose code starts with its primary language; else
/// the first of `fallbacks` present; else the first file.
pub fn choose_for_code<'a>(table: &'a LangTable, target: &str, fallbacks: &Vec<Vec<char>>) -> (r:
    Option<&'a String>)
    ensures
        r matches Some(c) ==> chosen_for_code(table@, target@, code_views(fallbacks@)) matches Some(i)
            && 0 <= i < table@.len() && *c == table@[i].1,
        r is None ==> chosen_for_code(table@, target@, code_views(fallbacks@)) is None,
{
    let t = chars_of(target);
    let prefix = primary_subtag_chars(&t);
    match table.resolve_position(&t, &prefix, fallbacks) {
        Some(i) => Some(table.value_at(i)),
        None => None,
    }
}

/// The entry chosen for `lang_code` with the given fallback codes.
fn choose_language<'a>(table: &'a LangTable, lang_code: &str, fallbacks: &Vec<Vec<char>>) -> (r:
    Option<&'a String>)
    ensures
        r matches Some(c) ==> chosen_language(table@, lang_code@, code_views(fallbacks@)) matches Some(i)
            && 0 <= i < table@.len() && *c == table@[i].1,
        r is None ==> chosen_language(table@, lang_code@, code_views(fallbacks@)) is None,
{
    let target = normalize_lang_code(lang_code);
    choose_for_code(table, target.as_str(), fallbacks)
}

/// The language file that the application reads for `lang_code`: the file of
/// that code; else the first whose code starts with its primary language; else
/// `ja-jp`; else the first file. `None` only when there is no file at all.
pub fn choose_app_language<'a>(table: &'a LangTable, lang_code: &str) -> (r: Option<&'a String>)
    ensures
        r matches Some(c) ==> chosen_language(table@, lang_code@, app_fallbacks()) matches Some(i)
            && 0 <= i < table@.len() && *c == table@[i].1,
        r is None ==> chosen_language(table@, lang_code@, app_fallbacks()) is None,
{
    choose_language(table, lang_code, &app_fallback_codes())
}

/// The language file that a plugin's messages are read from: as for the
/// application, with `ja-jp` and then `ja` as fallbacks.
pub fn choose_plugin_language<'a>(table: &'a LangTable, lang_code: &str) -> (r: Option<&'a String>)
    ensures
        r matches Some(c) ==> chosen_language(table@, lang_code@, plugin_fallbacks()) matches Some(i)
            && 0 <= i < table@.len() && *c == table@[i].1,
        r is None ==> chosen_language(table@, lang_code@, plugin_fallbacks()) is None,
{
    choose_language(table, lang_code, &plugin_fallback_codes())
}

/// A language file added under some name is the one chosen for every code that
/// normalizes to the same code (`ja_JP.lang` serves `ja-jp`), with any fallbacks.
pub proof fn lemma_added_file_is_chosen(
    table: Seq<(Seq<char>, String)>,
    file_stem: Seq<char>,
    content: String,
    code: Seq<char>,
    fallbacks: Seq<Seq<char>>,
)
    requires
        keys_distinct(table),
        normalized(code) == normalized(file_stem),
    ensures
        chosen_language(inserted(table, normalized(file_stem), content), code, fallbacks) matches Some(
            i,
        ) && inserted(table, normalized(file_stem), content)[i].1 == content,
{
    let t = inserted(table, normalized(file_stem), content);
    lemma_insert_then_read(table, normalized(file_stem), content, normalized(file_stem));
    lemma_resolve_exact(t, normalized(code), primary_subtag(normalized(code)), fallbacks, content);
}

/// Whenever there is at least one language file some file is chosen, and none
/// only when there is none.
pub proof fn lemma_some_file_is_chosen(
    table: Seq<(Seq<char>, String)>,
    code: Seq<char>,
    fallbacks: Seq<Seq<char>>,
)
    ensures
        table.len() > 0 <==> chosen_language(table, code, fallbacks) is Some,
        chosen_language(table, code, fallbacks) matches Some(i) ==> 0 <= i < table.len(),
{
    lemma_resolve_total(table, normalized(code), primary_subtag(normalized(code)), fallbacks);
}

/// A code in normal form holds no `_`.
pub proof fn lemma_normalized_has_no_underscore(code: Seq<char>)
    ensures
        !normalized(code).contains('_'),
{
    let n = normalized(code);
    if n.contains('_') {
        let i = choose|i: int| 0 <= i < n.len() && n[i] == '_';
        assert(n[i] == (if lower(code)[i] == '_' { '-' } else { lower(code)[i] }));
    }
}

/// For an ASCII code, putting it in normal form twice is putting it in normal
/// form once, and the normal form is ASCII.
pub proof fn lemma_normalize_idempotent(code: Seq<char>)
    requires
        all_ascii(code),
    ensures
        all_ascii(normalized(code)),
        normalized(normalized(code)) == normalized(code),
{
    let n = normalized(code);
    let l = ascii_lower(code);
    assert(lower(code) == l);
    assert forall|i: int| 0 <= i < n.len() implies (#[trigger] n[i] as u32) < 0x80
        && !(0x41 <= (n[i] as u32) <= 0x5a) && n[i] != '_' by {
        let c = code[i];
        assert((c as u32) < 0x80);
        if 0x41 <= (c as u32) <= 0x5a {
            assert(l[i] == ((c as u32) + 0x20) as char);
            assert((l[i] as u32) == (c as u32) + 0x20);
        } else {
            assert(l[i] == c);
        }
    }
    assert(lower(n) == ascii_lower(n));
    assert(ascii_lower(n) =~= n);
    assert(replace_char(n, '_', '-') =~= n);
}

/// Some entry of `table` has the key `key`.
pub open spec fn has_key(table: Seq<(Seq<char>, String)>, key: Seq<char>) -> bool {
    exists|i: int| 0 <= i < table.len() && #[trigger] table[i].0 == key
}

/// No entry has the requested code in normal form as key, and no key starts
/// with its primary language.
pub open spec fn no_language_match(table: Seq<(Seq<char>, String)>, code: Seq<char>) -> bool {
    forall|i: int|
        0 <= i < table.len() ==> #[trigger] table[i].0 != normalized(code) && !has_prefix(
            table[i].0,
            primary_subtag(normalized(code)),
        )
}

/// Without a match for the code, the choice falls to the fallbacks.
proof fn lemma_no_match_falls_back(table: Seq<(Seq<char>, String)>, code: Seq<char>, fallbacks: Seq<Seq<char>>)
    requires
        no_language_match(table, code),
    ensures
        chosen_language(table, code, fallbacks) == fallback_index(table, fallbacks),
{
    let target = normalized(code);
    assert(!(exists|i: int| 0 <= i < table.len() && #[trigger] table[i].0 == target));
    assert(!(exists|i: int| 0 <= i < table.len() && has_prefix(#[trigger] table[i].0, primary_subtag(target))));
}

/// The entry with key `key` is at a position holding that key.
proof fn lemma_key_position(table: Seq<(Seq<char>, String)>, key: Seq<char>)
    ensures
        has_key(table, key) ==> (index_of_key(table, key) matches Some(i) && 0 <= i < table.len()
            && table[i].0 == key),
        !has_key(table, key) ==> index_of_key(table, key) is None,
{
}

/// When nothing matches the requested code, the application reads the `ja-jp`
/// file if there is one, and otherwise the first file.
pub proof fn lemma_app_fallback_order(table: Seq<(Seq<char>, String)>, code: Seq<char>)
    requires
        no_language_match(table, code),
    ensures
        has_key(table, "ja-jp"@) ==> (chosen_language(table, code, app_fallbacks()) matches Some(i)
            && 0 <= i < table.len() && table[i].0 == "ja-jp"@),
        !has_key(table, "ja-jp"@) ==> chosen_language(table, code, app_fallbacks()) == (if table.len()
            > 0 {
            Some(0int)
        } else {
            None
        }),
{
    reveal_with_fuel(fallback_index, 3);
    let fb = app_fallbacks();
    lemma_no_match_falls_back(table, code, fb);
    lemma_key_position(table, "ja-jp"@);
    assert(fb[0] == "ja-jp"@);
    assert(fb.drop_first().len() == 0);
}

/// When nothing matches the requested code, a plugin's message is read from
/// its `ja-jp` file if there is one, else from its `ja` file, else from its
/// first file.
pub proof fn lemma_plugin_fallback_order(table: Seq<(Seq<char>, String)>, code: Seq<char>)
    requires
        no_language_match(table, code),
    ensures
        has_key(table, "ja-jp"@) ==> (chosen_language(table, code, plugin_fallbacks()) matches Some(i)
            && 0 <= i < table.len() && table[i].0 == "ja-jp"@),
        !has_key(table, "ja-jp"@) && has_key(table, "ja"@) ==> (chosen_language(
            table,
            code,
            plugin_fallbacks(),
        ) matches Some(i) && 0 <= i < table.len() && table[i].0 == "ja"@),
        !has_key(table, "ja-jp"@) && !has_key(table, "ja"@) ==> chosen_language(
            table,
            code,
            plugin_fallbacks(),
        ) == (if table.len() > 0 {
            Some(0int)
        } else {
            None
        }),
{
    reveal_with_fuel(fallback_index, 4);
    let fb = plugin_fallbacks();
    lemma_no_match_falls_back(table, code, fb);
    lemma_key_position(table, "ja-jp"@);
    lemma_key_position(table, "ja"@);
    assert(fb[0] == "ja-jp"@);
    assert(fb.drop_first()[0] == "ja"@);
    assert(fb.drop_first().drop_first().len() == 0);
}

/// The primary language of a code is the part before its first `-`: a prefix
/// of the code holding no `-`, that is the whole code or is followed by `-`.
pub proof fn lemma_primary_subtag_shape(code: Seq<char>)
    ensures
        has_prefix(code, primary_subtag(code)),
        !primary_subtag(code).contains('-'),
        primary_subtag(code).len() == code.len() || code[primary_subtag(code).len() as int] == '-',
{
    let p = primary_subtag(code);
    match first_index_of(code, '-') {
        Some(i) => {
            let j = choose|j: int| 0 <= j < code.len() && code[j] == '-';
            lemma_first_index_exists(code, '-', j);
            assert(is_first_index(code, '-', i));
            assert(code.take(p.len() as int) == p);
            if p.contains('-') {
                let x = choose|x: int| 0 <= x < p.len() && p[x] == '-';
                assert(code[x] == '-');
            }
        },
        None => {
            assert(code.take(code.len() as int) == code);
        },
    }
}

/// Without a file of the exact code, the file chosen is the first whose code
/// starts with the primary language, when there is one.
pub proof fn lemma_first_primary_match_chosen(
    table: Seq<(Seq<char>, String)>,
    code: Seq<char>,
    fallbacks: Seq<Seq<char>>,
)
    requires
        !has_key(table, normalized(code)),
        exists|j: int| 0 <= j < table.len() && has_prefix(#[trigger] table[j].0, primary_subtag(normalized(code))),
    ensures
        chosen_language(table, code, fallbacks) matches Some(i) && 0 <= i < table.len() && has_prefix(
            table[i].0,
            primary_subtag(normalized(code)),
        ) && forall|x: int| 0 <= x < i ==> !has_prefix(#[trigger] table[x].0, primary_subtag(normalized(code))),
{
    let p = primary_subtag(normalized(code));
    let j = choose|j: int| 0 <= j < table.len() && has_prefix(#[trigger] table[j].0, p);
    lemma_first_with_prefix_exists(table, p, j);
    lemma_key_position(table, normalized(code));
    let i = choose|i: int| is_first_with_prefix(table, p, i);
    lemma_first_with_prefix_unique(table, p, i);
}

} // verus!
