//! Character-level string operations, each stated over `Seq<char>`.

use vstd::prelude::*;

verus! {

/// Appends one character to a `String` (`String::push`).
#[verifier::external_body]
fn push_char(s: &mut String, c: char)
    ensures
        final(s)@ == old(s)@.push(c),
{
    s.push(c);
}

/// The characters of `s`, in order.
pub fn chars_of(s: &str) -> (r: Vec<char>)
    ensures
        r@ == s@,
{
    let mut r: Vec<char> = Vec::new();
    for c in it: s.chars()
        invariant
            r@ == it.seq().take(it.index() as int),
            it.seq() == s@,
    {
        r.push(c);
    }
    r
}

/// The string made of the characters of `v`, in order.
pub fn string_of(v: &[char]) -> (r: String)
    ensures
        r@ == v@,
{
    let mut r = String::new();
    let n = v.len();
    for i in 0..n
        invariant
            n == v@.len(),
            r@ == v@.take(i as int),
    {
        push_char(&mut r, v[i]);
        assert(v@.take(i + 1) == v@.take(i as int).push(v@[i as int]));
    }
    assert(v@.take(n as int) == v@);
    r
}

/// Characters with the Unicode `White_Space` property.
pub open spec fn is_white_space(c: char) -> bool {
    let u = c as u32;
    ||| 0x9 <= u <= 0xd
    ||| u == 0x20
    ||| u == 0x85
    ||| u == 0xa0
    ||| u == 0x1680
    ||| 0x2000 <= u <= 0x200a
    ||| u == 0x2028
    ||| u == 0x2029
    ||| u == 0x202f
    ||| u == 0x205f
    ||| u == 0x3000
}

/// Whether `c` has the Unicode `White_Space` property (what `char::is_whitespace`
/// answers).
pub fn char_is_whitespace(c: char) -> (r: bool)
    ensures
        r == is_white_space(c),
{
    let u = c as u32;
    (0x9 <= u && u <= 0xd) || u == 0x20 || u == 0x85 || u == 0xa0 || u == 0x1680 || (0x2000 <= u
        && u <= 0x200a) || u == 0x2028 || u == 0x2029 || u == 0x202f || u == 0x205f || u == 0x3000
}

/// `s` without its leading white space.
pub open spec fn trim_start(s: Seq<char>) -> Seq<char>
    decreases s.len(),
{
    if s.len() > 0 && is_white_space(s[0]) {
        trim_start(s.drop_first())
    } else {
        s
    }
}

/// `s` without its trailing white space.
pub open spec fn trim_end(s: Seq<char>) -> Seq<char>
    decreases s.len(),
{
    if s.len() > 0 && is_white_space(s.last()) {
        trim_end(s.drop_last())
    } else {
        s
    }
}

/// `s` without leading and trailing white space (`str::trim`).
pub open spec fn trim(s: Seq<char>) -> Seq<char> {
    trim_start(trim_end(s))
}

/// The part `v[from..to]` as a vector of its own.
pub fn sub_chars(v: &[char], from: usize, to: usize) -> (r: Vec<char>)
    requires
        from <= to <= v@.len(),
    ensures
        r@ == v@.subrange(from as int, to as int),
{
    let mut r: Vec<char> = Vec::new();
    let mut i = from;
    while i < to
        invariant
            from <= i <= to <= v@.len(),
            r@ == v@.subrange(from as int, i as int),
        decreases to - i,
    {
        r.push(v[i]);
        assert(v@.subrange(from as int, i + 1) == v@.subrange(from as int, i as int).push(v@[i as int]));
        i = i + 1;
    }
    r
}

/// `trim_start` removes exactly the first `i` characters when these are white
/// space and the next one is not.
pub proof fn lemma_trim_start_at(s: Seq<char>, i: int)
    requires
        0 <= i <= s.len(),
        forall|x: int| 0 <= x < i ==> is_white_space(#[trigger] s[x]),
        i == s.len() || !is_white_space(s[i]),
    ensures
        trim_start(s) == s.skip(i),
    decreases i,
{
    if i == 0 {
        assert(s.skip(0) == s);
    } else {
        assert(is_white_space(s[0]));
        let t = s.drop_first();
        assert forall|x: int| 0 <= x < i - 1 implies is_white_space(#[trigger] t[x]) by {
            assert(t[x] == s[x + 1]);
        }
        lemma_trim_start_at(t, i - 1);
        assert(t.skip(i - 1) == s.skip(i));
    }
}

/// `trim_end` keeps exactly the first `k` characters when all later ones are
/// white space and the `k`-th is not.
pub proof fn lemma_trim_end_at(s: Seq<char>, k: int)
    requires
        0 <= k <= s.len(),
        forall|x: int| k <= x < s.len() ==> is_white_space(#[trigger] s[x]),
        k == 0 || !is_white_space(s[k - 1]),
    ensures
        trim_end(s) == s.take(k),
    decreases s.len(),
{
    if s.len() == k {
        assert(s.take(k) == s);
    } else {
        assert(is_white_space(s[s.len() - 1]));
        let t = s.drop_last();
        assert forall|x: int| k <= x < t.len() implies is_white_space(#[trigger] t[x]) by {
            assert(t[x] == s[x]);
        }
        if k > 0 {
            assert(t[k - 1] == s[k - 1]);
        }
        lemma_trim_end_at(t, k);
        assert(t.take(k) == s.take(k));
    }
}

/// `v` without leading and trailing white space.
pub fn trim_chars(v: &[char]) -> (r: Vec<char>)
    ensures
        r@ == trim(v@),
{
    let n = v.len();
    let mut k: usize = n;
    while k > 0 && char_is_whitespace(v[k - 1])
        invariant
            n == v@.len(),
            k <= n,
            forall|x: int| k <= x < n ==> is_white_space(#[trigger] v@[x]),
        decreases k,
    {
        k = k - 1;
    }
    let mut i: usize = 0;
    while i < k && char_is_whitespace(v[i])
        invariant
            n == v@.len(),
            i <= k <= n,
            forall|x: int| 0 <= x < i ==> is_white_space(#[trigger] v@[x]),
        decreases k - i,
    {
        i = i + 1;
    }
    proof {
        lemma_trim_end_at(v@, k as int);
        let t = v@.take(k as int);
        assert forall|y: int| 0 <= y < i implies is_white_space(#[trigger] t[y]) by {
            assert(t[y] == v@[y]);
        }
        if i < k {
            assert(t[i as int] == v@[i as int]);
        }
        lemma_trim_start_at(t, i as int);
        assert(t.skip(i as int) == v@.subrange(i as int, k as int));
    }
    sub_chars(v, i, k)
}

/// Trimming the end twice is trimming it once.
pub proof fn lemma_trim_end_idempotent(s: Seq<char>)
    ensures
        trim_end(trim_end(s)) == trim_end(s),
        trim_end(s).len() > 0 ==> !is_white_space(trim_end(s).last()),
    decreases s.len(),
{
    if s.len() > 0 && is_white_space(s.last()) {
        lemma_trim_end_idempotent(s.drop_last());
    }
}

/// Trimming the start twice is trimming it once; what remains ends as `s` does.
pub proof fn lemma_trim_start_idempotent(s: Seq<char>)
    ensures
        trim_start(trim_start(s)) == trim_start(s),
        trim_start(s).len() > 0 ==> !is_white_space(trim_start(s)[0]),
        trim_start(s).len() > 0 ==> trim_start(s).last() == s.last(),
    decreases s.len(),
{
    if s.len() > 0 && is_white_space(s[0]) {
        lemma_trim_start_idempotent(s.drop_first());
    }
}

/// Trimming a trimmed string changes nothing.
pub proof fn lemma_trim_idempotent(s: Seq<char>)
    ensures
        trim(trim(s)) == trim(s),
{
    let u = trim_end(s);
    let w = trim_start(u);
    lemma_trim_end_idempotent(s);
    lemma_trim_start_idempotent(u);
    if w.len() > 0 {
        assert(!is_white_space(w.last()));
    }
    assert(trim_end(w) == w);
}

/// A string that starts and ends with other than white space is its own trim.
pub proof fn lemma_trim_solid(s: Seq<char>)
    requires
        s.len() > 0,
        !is_white_space(s[0]),
        !is_white_space(s.last()),
    ensures
        trim(s) == s,
{
}

/// Trailing white space after a part that ends in other than white space is
/// all that `trim_end` removes.
pub proof fn lemma_trim_end_append(a: Seq<char>, b: Seq<char>)
    requires
        a.len() > 0,
        !is_white_space(a.last()),
    ensures
        trim_end(a + b) == a + trim_end(b),
    decreases b.len(),
{
    if b.len() == 0 {
        assert(a + b == a);
        assert(a + trim_end(b) == a);
    } else {
        assert((a + b).last() == b.last());
        if is_white_space(b.last()) {
            assert((a + b).drop_last() == a + b.drop_last());
            lemma_trim_end_append(a, b.drop_last());
        }
    }
}

/// `s` without one leading `c`, when it starts with one (`str::strip_prefix`
/// followed by `unwrap_or`).
pub open spec fn strip_one(s: Seq<char>, c: char) -> Seq<char> {
    if s.len() > 0 && s[0] == c {
        s.drop_first()
    } else {
        s
    }
}

/// `s` without all of its leading `c` (`str::trim_start_matches` with a char).
pub open spec fn trim_start_char(s: Seq<char>, c: char) -> Seq<char>
    decreases s.len(),
{
    if s.len() > 0 && s[0] == c {
        trim_start_char(s.drop_first(), c)
    } else {
        s
    }
}

/// `i` is the first position of `c` in `s`.
pub open spec fn is_first_index(s: Seq<char>, c: char, i: int) -> bool {
    &&& 0 <= i < s.len()
    &&& s[i] == c
    &&& forall|x: int| 0 <= x < i ==> s[x] != c
}

/// The first position of `c` in `s`, if any.
pub open spec fn first_index_of(s: Seq<char>, c: char) -> Option<int> {
    if s.contains(c) {
        Some(choose|i: int| is_first_index(s, c, i))
    } else {
        None
    }
}

/// The pieces of `s` between occurrences of `sep`: one more piece than `sep`
/// occurs, empty pieces included.
pub open spec fn split_on(s: Seq<char>, sep: char) -> Seq<Seq<char>>
    decreases s.len(),
{
    match first_index_of(s, sep) {
        Some(i) => if 0 <= i < s.len() {
            seq![s.take(i)] + split_on(s.skip(i + 1), sep)
        } else {
            seq![s]
        },
        None => seq![s],
    }
}

/// `p` is a prefix of `s` (`str::starts_with`).
pub open spec fn has_prefix(s: Seq<char>, p: Seq<char>) -> bool {
    p.len() <= s.len() && s.take(p.len() as int) == p
}

/// `n` occurs in `h` as a contiguous part (`str::contains` with a string).
pub open spec fn has_infix(h: Seq<char>, n: Seq<char>) -> bool {
    exists|i: int| 0 <= i && i + n.len() <= h.len() && #[trigger] h.subrange(i, i + n.len()) == n
}

/// `s` with every `from` turned into `to` (`str::replace` with chars).
pub open spec fn replace_char(s: Seq<char>, from: char, to: char) -> Seq<char> {
    s.map_values(|x: char| if x == from { to } else { x })
}

/// `s` without any `c` (`str::replace` with an empty replacement).
pub open spec fn remove_char(s: Seq<char>, c: char) -> Seq<char> {
    s.filter(|x: char| x != c)
}

/// What `str::to_lowercase` returns for a string with the characters `s`.
pub uninterp spec fn lowercase(s: Seq<char>) -> Seq<char>;

/// Every character is ASCII.
pub open spec fn all_ascii(s: Seq<char>) -> bool {
    forall|i: int| 0 <= i < s.len() ==> (#[trigger] s[i] as u32) < 0x80
}

/// The lower case of one ASCII character: `A`..`Z` become `a`..`z`, the others stay.
pub open spec fn ascii_lower_char(c: char) -> char {
    if 0x41 <= (c as u32) <= 0x5a {
        ((c as u32) + 0x20) as char
    } else {
        c
    }
}

/// `s` with each ASCII capital letter lower-cased.
pub open spec fn ascii_lower(s: Seq<char>) -> Seq<char> {
    s.map_values(|c: char| ascii_lower_char(c))
}

/// `str::to_lowercase`: the Unicode lower-case mapping of the whole string.
/// Its result is a function of the characters of the argument alone, named
/// `lowercase`. For ASCII text the Unicode mapping turns `A`..`Z` into
/// `a`..`z` one character at a time and keeps every other character; for other
/// text the mapping itself (context rules, expansions) is left unsaid.
#[verifier::external_body]
pub fn to_lowercase(s: &str) -> (r: String)
    ensures
        r@ == lowercase(s@),
        all_ascii(s@) ==> r@ == ascii_lower(s@),
{
    s.to_lowercase()
}

/// The lower case of `s`: for ASCII text the capital letters turned into small
/// ones, for other text what `str::to_lowercase` gives.
pub open spec fn lower(s: Seq<char>) -> Seq<char> {
    if all_ascii(s) {
        ascii_lower(s)
    } else {
        lowercase(s)
    }
}

/// The lower case of `s` (`str::to_lowercase`).
pub fn lower_case(s: &str) -> (r: String)
    ensures
        r@ == lower(s@),
        r@ == lowercase(s@),
{
    to_lowercase(s)
}

/// Removing a character that does not occur changes nothing.
pub proof fn lemma_remove_absent_char(s: Seq<char>, c: char)
    requires
        !s.contains(c),
    ensures
        remove_char(s, c) == s,
    decreases s.len(),
{
    reveal_with_fuel(Seq::<_>::filter, 1);
    if s.len() > 0 {
        assert(!s.drop_last().contains(c)) by {
            if s.drop_last().contains(c) {
                let i = choose|i: int| 0 <= i < s.drop_last().len() && s.drop_last()[i] == c;
                assert(s[i] == c);
            }
        }
        lemma_remove_absent_char(s.drop_last(), c);
        assert(s.last() != c);
        assert(s.drop_last().push(s.last()) == s);
    }
}

/// A character absent from `s` is absent from every part that trimming,
/// stripping or splitting `s` gives.
pub proof fn lemma_absent_in_parts(s: Seq<char>, c: char, sep: char)
    requires
        !s.contains(c),
    ensures
        !trim_start(s).contains(c),
        !trim_end(s).contains(c),
        !trim(s).contains(c),
        !strip_one(s, c).contains(c),
        forall|d: char| !#[trigger] strip_one(s, d).contains(c),
        forall|d: char| !#[trigger] trim_start_char(s, d).contains(c),
        forall|i: int| 0 <= i <= s.len() ==> !#[trigger] s.take(i).contains(c),
        forall|i: int| 0 <= i <= s.len() ==> !#[trigger] s.skip(i).contains(c),
        forall|k: int| 0 <= k < split_on(s, sep).len() ==> !#[trigger] split_on(s, sep)[k].contains(c),
    decreases s.len(),
{
    assert forall|i: int| 0 <= i <= s.len() implies !#[trigger] s.take(i).contains(c) by {
        if s.take(i).contains(c) {
            let x = choose|x: int| 0 <= x < s.take(i).len() && s.take(i)[x] == c;
            assert(s[x] == c);
        }
    }
    assert forall|i: int| 0 <= i <= s.len() implies !#[trigger] s.skip(i).contains(c) by {
        if s.skip(i).contains(c) {
            let x = choose|x: int| 0 <= x < s.skip(i).len() && s.skip(i)[x] == c;
            assert(s[i + x] == c);
        }
    }
    if s.len() > 0 {
        assert(s.drop_first() == s.skip(1));
        assert(s.drop_last() == s.take(s.len() - 1));
        lemma_absent_in_parts(s.drop_first(), c, sep);
        lemma_absent_in_parts(s.drop_last(), c, sep);
    }
    assert forall|d: char| !#[trigger] trim_start_char(s, d).contains(c) by {
        if s.len() > 0 && s[0] == d {
            assert(!trim_start_char(s.drop_first(), d).contains(c));
        }
    }
    let t = trim_end(s);
    lemma_trim_end_idempotent(s);
    assert(!t.contains(c));
    if t.len() < s.len() {
        assert(t == s.take(t.len() as int)) by {
            lemma_trim_end_prefix(s);
        }
        lemma_absent_in_parts(t, c, sep);
    } else {
        assert(t.len() <= s.len()) by {
            lemma_trim_end_prefix(s);
        }
        assert(t == s) by {
            lemma_trim_end_prefix(s);
            assert(s.take(s.len() as int) == s);
        }
    }
    match first_index_of(s, sep) {
        Some(i) => {
            if 0 <= i < s.len() {
                let pieces = split_on(s, sep);
                assert(pieces == seq![s.take(i)] + split_on(s.skip(i + 1), sep));
                lemma_absent_in_parts(s.skip(i + 1), c, sep);
                assert forall|k: int| 0 <= k < pieces.len() implies !#[trigger] pieces[k].contains(c) by {
                    if k > 0 {
                        assert(pieces[k] == split_on(s.skip(i + 1), sep)[k - 1]);
                    }
                }
            }
        },
        None => {},
    }
}

/// A character absent from both parts is absent from their concatenation.
pub proof fn lemma_concat_lacks(a: Seq<char>, b: Seq<char>, c: char)
    requires
        !a.contains(c),
        !b.contains(c),
    ensures
        !(a + b).contains(c),
{
    if (a + b).contains(c) {
        let i = choose|i: int| 0 <= i < (a + b).len() && (a + b)[i] == c;
        if i < a.len() {
            assert(a[i] == c);
        } else {
            assert(b[i - a.len()] == c);
        }
    }
}

/// What `trim_end` keeps is a prefix of `s`.
pub proof fn lemma_trim_end_prefix(s: Seq<char>)
    ensures
        trim_end(s).len() <= s.len(),
        trim_end(s) == s.take(trim_end(s).len() as int),
    decreases s.len(),
{
    if s.len() > 0 && is_white_space(s.last()) {
        lemma_trim_end_prefix(s.drop_last());
        assert(s.drop_last().take(trim_end(s).len() as int) == s.take(trim_end(s).len() as int));
    } else {
        assert(s.take(s.len() as int) == s);
    }
}

/// Drops one leading `c`, if `v` starts with it.
pub fn strip_one_chars(v: &[char], c: char) -> (r: Vec<char>)
    ensures
        r@ == strip_one(v@, c),
{
    if v.len() > 0 && v[0] == c {
        sub_chars(v, 1, v.len())
    } else {
        sub_chars(v, 0, v.len())
    }
}

/// Drops all leading `c`.
pub fn trim_start_char_chars(v: &[char], c: char) -> (r: Vec<char>)
    ensures
        r@ == trim_start_char(v@, c),
{
    let mut i: usize = 0;
    assert(v@.skip(0) == v@);
    while i < v.len() && v[i] == c
        invariant
            i <= v@.len(),
            trim_start_char(v@, c) == trim_start_char(v@.skip(i as int), c),
        decreases v@.len() - i,
    {
        assert(v@.skip(i as int).drop_first() == v@.skip(i + 1));
        i = i + 1;
    }
    assert(v@.skip(i as int) == v@.subrange(i as int, v@.len() as int));
    sub_chars(v, i, v.len())
}

/// First position of `c` in `v`.
pub fn find_char(v: &[char], c: char) -> (r: Option<usize>)
    ensures
        r matches Some(i) ==> first_index_of(v@, c) == Some(i as int) && is_first_index(v@, c, i as int),
        r is None ==> first_index_of(v@, c) is None && !v@.contains(c),
{
    let mut i: usize = 0;
    while i < v.len()
        invariant
            i <= v@.len(),
            forall|x: int| 0 <= x < i ==> v@[x] != c,
        decreases v@.len() - i,
    {
        if v[i] == c {
            proof { lemma_first_index_unique(v@, c, i as int); }
            return Some(i);
        }
        i = i + 1;
    }
    None
}

/// The first position is the only index that is first.
pub proof fn lemma_first_index_unique(s: Seq<char>, c: char, i: int)
    requires
        is_first_index(s, c, i),
    ensures
        first_index_of(s, c) == Some(i),
{
    assert(s.contains(c)) by {
        assert(s[i] == c);
    }
    let j = choose|j: int| is_first_index(s, c, j);
    assert(is_first_index(s, c, j));
    if j < i {
        assert(s[j] != c);
    } else if i < j {
        assert(s[i] != c);
    }
}

/// When `c` occurs in `s`, it has a first position.
pub proof fn lemma_first_index_exists(s: Seq<char>, c: char, j: int)
    requires
        0 <= j < s.len(),
        s[j] == c,
    ensures
        exists|i: int| is_first_index(s, c, i),
    decreases j,
{
    if exists|x: int| 0 <= x < j && s[x] == c {
        let x = choose|x: int| 0 <= x < j && s[x] == c;
        lemma_first_index_exists(s, c, x);
    } else {
        assert(is_first_index(s, c, j));
    }
}

/// Joining two strings with a separator joins their pieces.
pub proof fn lemma_split_on_join(a: Seq<char>, b: Seq<char>, sep: char)
    ensures
        split_on(a + seq![sep] + b, sep) == split_on(a, sep) + split_on(b, sep),
    decreases a.len(),
{
    let s = a + seq![sep] + b;
    if a.contains(sep) {
        let j = choose|j: int| 0 <= j < a.len() && a[j] == sep;
        lemma_first_index_exists(a, sep, j);
        let i = choose|i: int| is_first_index(a, sep, i);
        lemma_first_index_unique(a, sep, i);
        assert(is_first_index(s, sep, i)) by {
            assert(s[i] == a[i]);
            assert forall|x: int| 0 <= x < i implies s[x] != sep by {
                assert(s[x] == a[x]);
            }
        }
        lemma_first_index_unique(s, sep, i);
        assert(s.take(i) == a.take(i));
        assert(s.skip(i + 1) == a.skip(i + 1) + seq![sep] + b);
        lemma_split_on_join(a.skip(i + 1), b, sep);
    } else {
        let n = a.len() as int;
        assert(is_first_index(s, sep, n)) by {
            assert(s[n] == sep);
            assert forall|x: int| 0 <= x < n implies s[x] != sep by {
                assert(s[x] == a[x]);
            }
        }
        lemma_first_index_unique(s, sep, n);
        assert(s.take(n) == a);
        assert(s.skip(n + 1) == b);
    }
}

/// Splits `v` at every `sep`.
pub fn split_chars(v: &[char], sep: char) -> (r: Vec<Vec<char>>)
    ensures
        r@.len() == split_on(v@, sep).len(),
        forall|x: int| 0 <= x < r@.len() ==> #[trigger] r@[x]@ == split_on(v@, sep)[x],
{
    let mut r: Vec<Vec<char>> = Vec::new();
    let mut start: usize = 0;
    let mut i: usize = 0;
    let n = v.len();
    assert(v@.skip(0) == v@);
    assert(r@.map_values(|w: Vec<char>| w@) =~= Seq::<Seq<char>>::empty());
    while i < n
        invariant
            n == v@.len(),
            start <= i <= n,
            forall|x: int| start <= x < i ==> v@[x] != sep,
            split_on(v@, sep) =~= r@.map_values(|w: Vec<char>| w@) + split_on(v@.skip(start as int), sep),
        decreases n - i,
    {
        if v[i] == sep {
            let piece = sub_chars(v, start, i);
            proof {
                let t = v@.skip(start as int);
                assert(is_first_index(t, sep, i - start)) by {
                    assert(t[i - start] == v@[i as int]);
                    assert forall|x: int| 0 <= x < i - start implies t[x] != sep by {
                        assert(t[x] == v@[start + x]);
                    }
                }
                lemma_first_index_unique(t, sep, i - start);
                assert(t.take(i - start) == v@.subrange(start as int, i as int));
                assert(t.skip(i - start + 1) == v@.skip(i + 1));
                assert(split_on(t, sep) == seq![t.take(i - start)] + split_on(t.skip(i - start + 1), sep));
            }
            r.push(piece);
            start = i + 1;
        }
        i = i + 1;
    }
    let last = sub_chars(v, start, n);
    proof {
        let t = v@.skip(start as int);
        assert(!t.contains(sep)) by {
            assert forall|x: int| 0 <= x < t.len() implies t[x] != sep by {
                assert(t[x] == v@[start + x]);
            }
        }
        assert(t == v@.subrange(start as int, n as int));
    }
    r.push(last);
    r
}

/// Whether `v` starts with `p`.
pub fn starts_with_chars(v: &[char], p: &[char]) -> (r: bool)
    ensures
        r == has_prefix(v@, p@),
{
    if p.len() > v.len() {
        return false;
    }
    let mut i: usize = 0;
    while i < p.len()
        invariant
            p@.len() <= v@.len(),
            i <= p@.len(),
            forall|x: int| 0 <= x < i ==> v@[x] == p@[x],
        decreases p@.len() - i,
    {
        if v[i] != p[i] {
            assert(v@.take(p@.len() as int)[i as int] != p@[i as int]);
            return false;
        }
        i = i + 1;
    }
    assert(v@.take(p@.len() as int) =~= p@);
    true
}

/// Whether `n` occurs in `h` as a contiguous part.
pub fn contains_chars(h: &[char], n: &[char]) -> (r: bool)
    ensures
        r == has_infix(h@, n@),
{
    if n.len() > h.len() {
        return false;
    }
    let hl = h.len();
    let last = hl - n.len();
    let mut i: usize = 0;
    loop
        invariant
            hl == h@.len(),
            n@.len() <= h@.len(),
            last == h@.len() - n@.len(),
            i <= last,
            forall|x: int| 0 <= x < i ==> #[trigger] h@.subrange(x, x + n@.len()) != n@,
        decreases last - i,
    {
        let mut j: usize = 0;
        let mut same = true;
        while j < n.len()
            invariant
                hl == h@.len(),
                n@.len() <= h@.len(),
                i <= last,
                last == h@.len() - n@.len(),
                j <= n@.len(),
                same == forall|y: int| 0 <= y < j ==> h@[i + y] == n@[y],
            decreases n@.len() - j,
        {
            if h[i + j] != n[j] {
                same = false;
            }
            j = j + 1;
        }
        if same {
            assert(h@.subrange(i as int, i + n@.len()) =~= n@);
            return true;
        }
        proof {
            let y = choose|y: int| 0 <= y < n@.len() && h@[i + y] != n@[y];
            assert(h@.subrange(i as int, i + n@.len())[y] == h@[i + y]);
        }
        if i == last {
            return false;
        }
        i = i + 1;
    }
}

/// `v` with every `from` turned into `to`.
pub fn replace_char_chars(v: &[char], from: char, to: char) -> (r: Vec<char>)
    ensures
        r@ == replace_char(v@, from, to),
{
    let mut r: Vec<char> = Vec::new();
    let n = v.len();
    for i in 0..n
        invariant
            n == v@.len(),
            r@ =~= replace_char(v@.take(i as int), from, to),
    {
        if v[i] == from {
            r.push(to);
        } else {
            r.push(v[i]);
        }
        assert(v@.take(i + 1) == v@.take(i as int).push(v@[i as int]));
    }
    assert(v@.take(n as int) == v@);
    r
}

/// `v` without any `c`.
pub fn remove_char_chars(v: &[char], c: char) -> (r: Vec<char>)
    ensures
        r@ == remove_char(v@, c),
{
    let mut r: Vec<char> = Vec::new();
    let n = v.len();
    for i in 0..n
        invariant
            n == v@.len(),
            r@ =~= remove_char(v@.take(i as int), c),
    {
        reveal_with_fuel(Seq::<_>::filter, 1);
        if v[i] != c {
            r.push(v[i]);
        }
        assert(v@.take(i + 1).drop_last() == v@.take(i as int));
    }
    assert(v@.take(n as int) == v@);
    r
}

/// Whether `a` and `b` hold the same characters.
pub fn eq_chars(a: &[char], b: &[char]) -> (r: bool)
    ensures
        r == (a@ == b@),
{
    if a.len() != b.len() {
        return false;
    }
    let mut i: usize = 0;
    while i < a.len()
        invariant
            a@.len() == b@.len(),
            i <= a@.len(),
            forall|x: int| 0 <= x < i ==> a@[x] == b@[x],
        decreases a@.len() - i,
    {
        if a[i] != b[i] {
            return false;
        }
        i = i + 1;
    }
    assert(a@ =~= b@);
    true
}

/// `a` followed by `b`.
pub fn concat_chars(a: &[char], b: &[char]) -> (r: Vec<char>)
    ensures
        r@ == a@ + b@,
{
    let mut r = sub_chars(a, 0, a.len());
    assert(a@.subrange(0, a@.len() as int) == a@);
    let n = b.len();
    for i in 0..n
        invariant
            n == b@.len(),
            r@ == a@ + b@.take(i as int),
    {
        r.push(b[i]);
        assert(b@.take(i + 1) == b@.take(i as int).push(b@[i as int]));
        assert(a@ + b@.take(i + 1) == (a@ + b@.take(i as int)).push(b@[i as int]));
    }
    assert(b@.take(n as int) == b@);
    r
}

} // verus!
