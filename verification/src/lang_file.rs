//! The `.lang` file format: one `key = value` entry per line; blank lines and
//! lines starting with `#` are ignored; a byte-order mark may open the file or a key.

use vstd::prelude::*;
use crate::text::{
    lemma_absent_in_parts, lemma_first_index_exists, lemma_remove_absent_char,
    lemma_split_on_join, is_first_index, is_white_space, lemma_first_index_unique, lemma_trim_end_append,
    lemma_trim_end_idempotent, lemma_trim_idempotent, lemma_trim_solid, trim_end, chars_of, concat_chars, eq_chars, find_char, first_index_of, remove_char, remove_char_chars,
    split_chars, split_on, string_of, strip_one, strip_one_chars, sub_chars, trim, trim_chars,
    trim_start_char, trim_start_char_chars,
};

verus! {

/// The byte-order mark that editors may put at the start of a file.
pub open spec fn bom() -> char {
    '\u{feff}'
}

/// The entry that one line defines, if any: its key and its value.
pub open spec fn line_entry(line: Seq<char>) -> Option<(Seq<char>, Seq<char>)> {
    let t = trim(line);
    if t.len() == 0 || t[0] == '#' {
        None
    } else {
        match first_index_of(t, '=') {
            Some(i) => Some((trim_start_char(trim(t.take(i)), bom()), trim(t.skip(i + 1)))),
            None => None,
        }
    }
}

/// The value of the first of `lines` that defines `key`.
pub open spec fn lookup_lines(lines: Seq<Seq<char>>, key: Seq<char>) -> Option<Seq<char>>
    decreases lines.len(),
{
    if lines.len() == 0 {
        None
    } else {
        match line_entry(lines[0]) {
            Some(e) => if e.0 == key {
                Some(e.1)
            } else {
                lookup_lines(lines.drop_first(), key)
            },
            None => lookup_lines(lines.drop_first(), key),
        }
    }
}

/// The lines of a file's content: its opening byte-order mark dropped, then
/// cut at every line feed. A carriage return before a line feed stays on its
/// line; as white space it is trimmed away with the rest.
pub open spec fn content_lines(content: Seq<char>) -> Seq<Seq<char>> {
    split_on(strip_one(content, bom()), '\n')
}

/// The text returned for a key that no line defines.
pub open spec fn key_not_found(key: Seq<char>) -> Seq<char> {
    "[Key not found: "@ + key + "]"@
}

/// The translation of `key` in a file with the given content.
pub open spec fn parse_key(content: Seq<char>, key: Seq<char>) -> Seq<char> {
    match lookup_lines(content_lines(content), key) {
        Some(v) => v,
        None => key_not_found(key),
    }
}

/// What the core library's `parse_translation` answers: the translation of the
/// trimmed key, with every NUL character removed so that it fits a C string.
pub open spec fn translate(content: Seq<char>, key: Seq<char>) -> Seq<char> {
    remove_char(parse_key(content, trim(key)), '\0')
}

/// The entry that the line `line` defines.
fn line_entry_chars(line: &[char]) -> (r: Option<(Vec<char>, Vec<char>)>)
    ensures
        r matches Some(e) ==> line_entry(line@) == Some((e.0@, e.1@)),
        r is None ==> line_entry(line@) is None,
{
    let t = trim_chars(line);
    if t.len() == 0 || t[0] == '#' {
        return None;
    }
    match find_char(&t, '=') {
        Some(i) => {
            let raw_key = sub_chars(&t, 0, i);
            let trimmed_key = trim_chars(&raw_key);
            let k = trim_start_char_chars(&trimmed_key, '\u{feff}');
            let raw_value = sub_chars(&t, i + 1, t.len());
            let v = trim_chars(&raw_value);
            proof {
                assert(raw_key@ == t@.take(i as int));
                assert(raw_value@ == t@.skip(i + 1));
            }
            Some((k, v))
        },
        None => None,
    }
}

/// Looks `key` up in a `.lang` file's content and returns its value, trimmed.
/// When no line defines the key the answer is `[Key not found: <key>]`.
pub fn parse_key_from_content(content: &str, key: &str) -> (r: String)
    ensures
        r@ == parse_key(content@, key@),
{
    let all = chars_of(content);
    let body = strip_one_chars(&all, '\u{feff}');
    let lines = split_chars(&body, '\n');
    let k = chars_of(key);
    let ghost spec_lines = content_lines(content@);
    assert(spec_lines =~= lines@.map_values(|w: Vec<char>| w@));
    let mut idx: usize = 0;
    assert(spec_lines.skip(0) == spec_lines);
    while idx < lines.len()
        invariant
            idx <= lines@.len(),
            spec_lines == content_lines(content@),
            spec_lines.len() == lines@.len(),
            forall|x: int| 0 <= x < lines@.len() ==> #[trigger] lines@[x]@ == spec_lines[x],
            k@ == key@,
            lookup_lines(spec_lines, key@) == lookup_lines(spec_lines.skip(idx as int), key@),
        decreases lines@.len() - idx,
    {
        let ghost rest = spec_lines.skip(idx as int);
        assert(rest[0] == lines@[idx as int]@);
        assert(rest.drop_first() == spec_lines.skip(idx + 1));
        match line_entry_chars(&lines[idx]) {
            Some(e) => {
                if eq_chars(&e.0, &k) {
                    let out = string_of(&e.1);
                    return out;
                }
            },
            None => {},
        }
        idx = idx + 1;
    }
    assert(spec_lines.skip(idx as int).len() == 0);
    let msg = concat_chars(&chars_of("[Key not found: "), &k);
    let msg = concat_chars(&msg, &chars_of("]"));
    string_of(&msg)
}

/// The core library's translation of `key` in `content`: the key is trimmed,
/// looked up, and NUL characters are removed from the answer.
pub fn translate_content(content: &str, key: &str) -> (r: String)
    ensures
        r@ == translate(content@, key@),
        !r@.contains('\0'),
        !content@.contains('\0') && !key@.contains('\0') ==> r@ == parse_key(content@, trim(key@)),
{
    let k = trim_chars(&chars_of(key));
    let k = string_of(&k);
    let found = parse_key_from_content(content, k.as_str());
    let cleaned = remove_char_chars(&chars_of(found.as_str()), '\0');
    proof {
        lemma_removed_char_absent(parse_key(content@, trim(key@)), '\0');
        if !content@.contains('\0') && !key@.contains('\0') {
            lemma_translate_plain(content@, key@);
        }
    }
    string_of(&cleaned)
}

/// After removing every `c`, no `c` is left.
pub proof fn lemma_removed_char_absent(s: Seq<char>, c: char)
    ensures
        !remove_char(s, c).contains(c),
{
    let r = remove_char(s, c);
    broadcast use vstd::seq_lib::group_filter_ensures;
    if r.contains(c) {
        let i = choose|i: int| 0 <= i < r.len() && r[i] == c;
        assert((|x: char| x != c)(r[i]));
    }
}

/// The lines of `line`, a line feed and `rest` are `line` and the lines of `rest`,
/// when no byte-order mark opens either.
proof fn lemma_lines_after_first(line: Seq<char>, rest: Seq<char>)
    requires
        !line.contains('\n'),
        line.len() == 0 || line[0] != bom(),
    ensures
        content_lines(line + seq!['\n'] + rest) == seq![line] + split_on(rest, '\n'),
{
    let content = line + seq!['\n'] + rest;
    assert(content[0] == (if line.len() == 0 { '\n' } else { line[0] }));
    assert(strip_one(content, bom()) == content);
    let n = line.len() as int;
    assert(is_first_index(content, '\n', n)) by {
        assert(content[n] == '\n');
        assert forall|x: int| 0 <= x < n implies content[x] != '\n' by {
            assert(content[x] == line[x]);
        }
    }
    lemma_first_index_unique(content, '\n', n);
    assert(content.take(n) == line);
    assert(content.skip(n + 1) == rest);
}

/// A key that is neither empty nor padded with white space, does not start a
/// comment or with a byte-order mark, and holds no `=` or line feed.
pub open spec fn plain_key(key: Seq<char>) -> bool {
    &&& key.len() > 0
    &&& !is_white_space(key[0])
    &&& !is_white_space(key.last())
    &&& key[0] != '#'
    &&& key[0] != bom()
    &&& !key.contains('=')
    &&& !key.contains('\n')
}

/// The line `key=value` defines `key` with the trimmed value.
proof fn lemma_plain_entry_line(key: Seq<char>, value: Seq<char>)
    requires
        plain_key(key),
        !value.contains('\n'),
    ensures
        line_entry(key + seq!['='] + value) == Some((key, trim(value))),
        !(key + seq!['='] + value).contains('\n'),
        (key + seq!['='] + value)[0] == key[0],
{
    let a = key + seq!['='];
    let line = a + value;
    assert(!line.contains('\n')) by {
        if line.contains('\n') {
            let x = choose|x: int| 0 <= x < line.len() && line[x] == '\n';
            if x < key.len() {
                assert(key[x] == line[x]);
            } else if x > key.len() {
                assert(value[x - key.len() - 1] == line[x]);
            }
        }
    }
    assert(line[0] == key[0]);
    // The line, trimmed, is the key, `=` and the value without trailing white space.
    let tv = trim_end(value);
    lemma_trim_end_append(a, value);
    let t = a + tv;
    assert(t[0] == key[0]);
    assert(trim(line) == t);
    assert(is_first_index(t, '=', key.len() as int)) by {
        assert forall|x: int| 0 <= x < key.len() implies t[x] != '=' by {
            assert(t[x] == key[x]);
        }
    }
    lemma_first_index_unique(t, '=', key.len() as int);
    assert(t.take(key.len() as int) == key);
    lemma_trim_solid(key);
    assert(trim_start_char(key, bom()) == key);
    assert(t.skip(key.len() as int + 1) == tv);
    lemma_trim_end_idempotent(value);
}

/// A line `key=value` makes `value`, trimmed, the translation of `key`, whatever
/// lines follow it: the first definition of a key is the one that counts.
pub proof fn lemma_entry_line_found(key: Seq<char>, value: Seq<char>, rest: Seq<char>)
    requires
        plain_key(key),
        !value.contains('\n'),
    ensures
        parse_key(key + seq!['='] + value + seq!['\n'] + rest, key) == trim(value),
{
    let line = key + seq!['='] + value;
    lemma_plain_entry_line(key, value);
    lemma_lines_after_first(line, rest);
    let lines = content_lines(line + seq!['\n'] + rest);
    assert(lines[0] == line);
}

/// A line that defines another key is skipped, even when that key starts with
/// the requested one: only an equal key matches.
pub proof fn lemma_other_key_line_skipped(other: Seq<char>, value: Seq<char>, rest: Seq<char>, key: Seq<char>)
    requires
        plain_key(other),
        !value.contains('\n'),
        other != key,
        rest.len() == 0 || rest[0] != bom(),
    ensures
        parse_key(other + seq!['='] + value + seq!['\n'] + rest, key) == parse_key(rest, key),
{
    let line = other + seq!['='] + value;
    lemma_plain_entry_line(other, value);
    lemma_lines_after_first(line, rest);
    let lines = content_lines(line + seq!['\n'] + rest);
    assert(lines[0] == line);
    assert(lines.drop_first() == split_on(rest, '\n'));
    assert(strip_one(rest, bom()) == rest);
}

/// The value found for a key is that of a line whose key equals it exactly.
pub proof fn lemma_found_value_has_equal_key(lines: Seq<Seq<char>>, key: Seq<char>)
    ensures
        lookup_lines(lines, key) matches Some(v) ==> exists|i: int|
            0 <= i < lines.len() && #[trigger] line_entry(lines[i]) == Some((key, v)),
    decreases lines.len(),
{
    if lines.len() > 0 {
        lemma_found_value_has_equal_key(lines.drop_first(), key);
        if let Some(v) = lookup_lines(lines, key) {
            if line_entry(lines[0]) == Some((key, v)) {
            } else {
                let i = choose|i: int|
                    0 <= i < lines.drop_first().len() && #[trigger] line_entry(lines.drop_first()[i]) == Some((key, v));
                assert(lines.drop_first()[i] == lines[i + 1]);
                assert(line_entry(lines[i + 1]) == Some((key, v)));
            }
        }
    }
}

/// A blank line, or one that starts with `#`, defines nothing: the lines after
/// it translate as they would alone.
pub proof fn lemma_ignored_line(line: Seq<char>, rest: Seq<char>, key: Seq<char>)
    requires
        !line.contains('\n'),
        trim(line).len() == 0 || trim(line)[0] == '#',
        line.len() == 0 || line[0] != bom(),
        rest.len() == 0 || rest[0] != bom(),
    ensures
        parse_key(line + seq!['\n'] + rest, key) == parse_key(rest, key),
{
    lemma_lines_after_first(line, rest);
    let lines = content_lines(line + seq!['\n'] + rest);
    assert(lines.drop_first() == split_on(rest, '\n'));
    assert(strip_one(rest, bom()) == rest);
}

/// White space around the requested key makes no difference.
pub proof fn lemma_translate_ignores_key_padding(content: Seq<char>, key: Seq<char>)
    ensures
        translate(content, key) == translate(content, trim(key)),
{
    lemma_trim_idempotent(key);
}

/// Once some of `l1` defines `key`, lines after them change nothing.
proof fn lemma_lookup_prefix(l1: Seq<Seq<char>>, l2: Seq<Seq<char>>, key: Seq<char>)
    requires
        lookup_lines(l1, key) is Some,
    ensures
        lookup_lines(l1 + l2, key) == lookup_lines(l1, key),
    decreases l1.len(),
{
    assert((l1 + l2)[0] == l1[0]);
    assert((l1 + l2).drop_first() == l1.drop_first() + l2);
    match line_entry(l1[0]) {
        Some(e) => {
            if e.0 != key {
                lemma_lookup_prefix(l1.drop_first(), l2, key);
            }
        },
        None => {
            lemma_lookup_prefix(l1.drop_first(), l2, key);
        },
    }
}

/// When some line of `content` defines `key`, lines appended after the content
/// keep its translation.
pub proof fn lemma_appended_lines_keep_answer(content: Seq<char>, extra: Seq<char>, key: Seq<char>)
    requires
        lookup_lines(content_lines(content), key) is Some,
    ensures
        parse_key(content + seq!['\n'] + extra, key) == parse_key(content, key),
{
    let whole = content + seq!['\n'] + extra;
    if content.len() == 0 {
        assert(!content.contains('\n'));
        assert(strip_one(content, bom()) == content);
        assert(first_index_of(content, '\n') is None);
        assert(split_on(content, '\n') == seq![content]);
        assert(trim_end(content) == content);
        assert(trim(content).len() == 0);
        assert(line_entry(content) is None);
        let ls = content_lines(content);
        assert(ls == seq![content]);
        assert(ls[0] == content);
        assert(ls.drop_first().len() == 0);
        assert(lookup_lines(ls.drop_first(), key) is None);
        assert(false);
    }
    assert(whole[0] == content[0]);
    if content[0] == bom() {
        assert(whole.drop_first() == content.drop_first() + seq!['\n'] + extra);
    }
    assert(strip_one(whole, bom()) == strip_one(content, bom()) + seq!['\n'] + extra);
    lemma_split_on_join(strip_one(content, bom()), extra, '\n');
    lemma_lookup_prefix(content_lines(content), split_on(extra, '\n'), key);
}

/// The value a line defines holds no character that the line lacks.
proof fn lemma_line_value_lacks(line: Seq<char>, c: char)
    requires
        !line.contains(c),
    ensures
        line_entry(line) matches Some(e) ==> !e.1.contains(c),
{
    let t = trim(line);
    lemma_absent_in_parts(line, c, '\n');
    if let Some(i) = first_index_of(t, '=') {
        if t.len() > 0 && t[0] != '#' {
            assert(is_first_index(t, '=', i)) by {
                assert(t.contains('='));
                let j = choose|j: int| 0 <= j < t.len() && t[j] == '=';
                lemma_first_index_exists(t, '=', j);
            }
            lemma_absent_in_parts(t, c, '\n');
            lemma_absent_in_parts(t.skip(i + 1), c, '\n');
        }
    }
}

/// The value found among lines holds no character that the lines lack.
proof fn lemma_lookup_lacks(lines: Seq<Seq<char>>, key: Seq<char>, c: char)
    requires
        forall|k: int| 0 <= k < lines.len() ==> !#[trigger] lines[k].contains(c),
    ensures
        lookup_lines(lines, key) matches Some(v) ==> !v.contains(c),
    decreases lines.len(),
{
    if lines.len() > 0 {
        lemma_line_value_lacks(lines[0], c);
        assert forall|k: int| 0 <= k < lines.drop_first().len() implies !#[trigger] lines.drop_first()[k].contains(
            c,
        ) by {
            assert(lines.drop_first()[k] == lines[k + 1]);
        }
        lemma_lookup_lacks(lines.drop_first(), key, c);
    }
}

/// Without NUL characters in the content and the key, the answer has none.
pub proof fn lemma_parse_key_nul_free(content: Seq<char>, key: Seq<char>)
    requires
        !content.contains('\0'),
        !key.contains('\0'),
    ensures
        !parse_key(content, key).contains('\0'),
{
    lemma_absent_in_parts(content, '\0', '\n');
    let body = strip_one(content, bom());
    assert(!body.contains('\0'));
    lemma_absent_in_parts(body, '\0', '\n');
    lemma_lookup_lacks(content_lines(content), key, '\0');
    if lookup_lines(content_lines(content), key) is None {
        reveal_strlit("[Key not found: ");
        reveal_strlit("]");
        let m = key_not_found(key);
        if m.contains('\0') {
            let i = choose|i: int| 0 <= i < m.len() && m[i] == '\0';
            let p = "[Key not found: "@;
            if i < p.len() {
                assert(m[i] == p[i]);
            } else if i < p.len() + key.len() {
                assert(m[i] == key[i - p.len()]);
            } else {
                assert(m[i] == "]"@[i - p.len() - key.len()]);
            }
        }
    }
}

/// For content and key without NUL characters, the core library's answer is
/// the plain lookup of the trimmed key.
pub proof fn lemma_translate_plain(content: Seq<char>, key: Seq<char>)
    requires
        !content.contains('\0'),
        !key.contains('\0'),
    ensures
        translate(content, key) == parse_key(content, trim(key)),
{
    lemma_absent_in_parts(key, '\0', '\n');
    lemma_parse_key_nul_free(content, trim(key));
    lemma_remove_absent_char(parse_key(content, trim(key)), '\0');
}

} // verus!
