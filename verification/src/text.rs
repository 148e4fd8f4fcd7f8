//! Operations on text, each proved against its description on sequences of characters.

use vstd::prelude::*;

verus! {

broadcast use vstd::string::group_string_axioms;

/// The characters with the Unicode property `White_Space`.
pub open spec fn is_white_space(c: char) -> bool {
    ||| '\u{9}' <= c <= '\u{d}'
    ||| c == ' '
    ||| c == '\u{85}'
    ||| c == '\u{a0}'
    ||| c == '\u{1680}'
    ||| '\u{2000}' <= c <= '\u{200a}'
    ||| c == '\u{2028}'
    ||| c == '\u{2029}'
    ||| c == '\u{202f}'
    ||| c == '\u{205f}'
    ||| c == '\u{3000}'
}

/// `s` without its leading white space.
pub open spec fn trimmed_start(s: Seq<char>) -> Seq<char>
    decreases s.len(),
{
    if s.len() > 0 && is_white_space(s[0]) {
        trimmed_start(s.skip(1))
    } else {
        s
    }
}

/// `s` without its trailing white space.
pub open spec fn trimmed_end(s: Seq<char>) -> Seq<char>
    decreases s.len(),
{
    if s.len() > 0 && is_white_space(s.last()) {
        trimmed_end(s.drop_last())
    } else {
        s
    }
}

/// `s` without leading and trailing white space.
pub open spec fn trimmed(s: Seq<char>) -> Seq<char> {
    trimmed_end(trimmed_start(s))
}

/// `s` without the copies of `c` at its end.
pub open spec fn without_trailing(s: Seq<char>, c: char) -> Seq<char>
    decreases s.len(),
{
    if s.len() > 0 && s.last() == c {
        without_trailing(s.drop_last(), c)
    } else {
        s
    }
}

/// `pattern` stands in `s` at `i`.
pub open spec fn occurs_at(s: Seq<char>, pattern: Seq<char>, i: int) -> bool {
    0 <= i <= s.len() - pattern.len() && s.subrange(i, i + pattern.len()) == pattern
}

/// `s` begins with `pattern`.
pub open spec fn begins_with(s: Seq<char>, pattern: Seq<char>) -> bool {
    occurs_at(s, pattern, 0)
}

/// What follows `pattern` at the start of `s`.
pub open spec fn after_prefix(s: Seq<char>, pattern: Seq<char>) -> Option<Seq<char>> {
    if begins_with(s, pattern) {
        Some(s.skip(pattern.len() as int))
    } else {
        None
    }
}

/// `s` without the copies of `pattern` at its start.
pub open spec fn without_leading(s: Seq<char>, pattern: Seq<char>) -> Seq<char>
    decreases s.len(),
{
    if pattern.len() > 0 && begins_with(s, pattern) {
        without_leading(s.skip(pattern.len() as int), pattern)
    } else {
        s
    }
}

/// The first place at or after `i` where `pattern` stands in `s`.
pub open spec fn index_from(s: Seq<char>, pattern: Seq<char>, i: int) -> Option<int>
    decreases s.len() - i + 1,
{
    if i > s.len() - pattern.len() {
        None
    } else if occurs_at(s, pattern, i) {
        Some(i)
    } else {
        index_from(s, pattern, i + 1)
    }
}

/// The first place where `pattern` stands in `s`.
pub open spec fn index_of(s: Seq<char>, pattern: Seq<char>) -> Option<int> {
    index_from(s, pattern, 0)
}

/// `pattern` stands somewhere in `s`.
pub open spec fn contains_text(s: Seq<char>, pattern: Seq<char>) -> bool {
    exists|i: int| occurs_at(s, pattern, i)
}

/// What stands before and after the first `pattern` in `s`.
pub open spec fn split_at_first(s: Seq<char>, pattern: Seq<char>) -> Option<
    (Seq<char>, Seq<char>),
> {
    match index_of(s, pattern) {
        Some(i) => Some((s.take(i), s.skip(i + pattern.len()))),
        None => None,
    }
}

/// `c` in lower case if it is an ASCII letter.
pub open spec fn lower_char(c: char) -> char {
    if 'A' <= c <= 'Z' {
        ((c as u32 + 32) as u32) as char
    } else {
        c
    }
}

/// `s` with its ASCII letters in lower case.
pub open spec fn ascii_lower(s: Seq<char>) -> Seq<char> {
    s.map_values(|c: char| lower_char(c))
}

/// The decimal digit for `d`.
pub open spec fn digit(d: int) -> char {
    ((48 + d) as u32) as char
}

/// `n` in decimal.
pub open spec fn decimal(n: nat) -> Seq<char>
    decreases n,
{
    if n < 10 {
        seq![digit(n as int)]
    } else {
        decimal(n / 10).push(digit((n % 10) as int))
    }
}

/// The pieces of `s` between its line feeds.
pub open spec fn line_pieces(s: Seq<char>) -> Seq<Seq<char>>
    decreases s.len(),
{
    if s.len() == 0 {
        seq![seq![]]
    } else {
        let before = line_pieces(s.drop_last());
        if s.last() == '\n' {
            before.push(seq![])
        } else {
            before.update(before.len() - 1, before.last().push(s.last()))
        }
    }
}

/// The parts in one text, `separator` between each two.
pub open spec fn joined(parts: Seq<Seq<char>>, separator: Seq<char>) -> Seq<char>
    decreases parts.len(),
{
    if parts.len() == 0 {
        seq![]
    } else if parts.len() == 1 {
        parts[0]
    } else {
        joined(parts.drop_last(), separator) + separator + parts.last()
    }
}

/// An optional text by its characters.
pub open spec fn text_view(text: Option<&str>) -> Option<Seq<char>> {
    match text {
        Some(text) => Some(text@),
        None => None,
    }
}

/// `target` with `text` on a line of its own; an empty text adds no line.
pub open spec fn appended(target: Seq<char>, text: Option<Seq<char>>) -> Seq<char> {
    match text {
        Some(text) if target.len() > 0 && text.len() > 0 => target.push('\n') + text,
        Some(text) => target + text,
        None => target,
    }
}

/// `texts` and, if there is something in it, `text`.
pub open spec fn noted(texts: Seq<Seq<char>>, text: Option<Seq<char>>) -> Seq<Seq<char>> {
    match text {
        Some(text) if text.len() > 0 => texts.push(text),
        _ => texts,
    }
}

/// There is something in each text.
pub open spec fn none_empty(texts: Seq<Seq<char>>) -> bool {
    forall|i: int| 0 <= i < texts.len() ==> (#[trigger] texts[i]).len() > 0
}

/// The texts, each on a line of its own.
pub open spec fn on_lines(texts: Seq<Seq<char>>) -> Seq<char> {
    joined(texts, seq!['\n'])
}

/// Whether `c` is white space.
pub fn is_white_space_char(c: char) -> (result: bool)
    ensures
        result == is_white_space(c),
{
    ('\u{9}' <= c && c <= '\u{d}') || c == ' ' || c == '\u{85}' || c == '\u{a0}' || c == '\u{1680}'
        || ('\u{2000}' <= c && c <= '\u{200a}') || c == '\u{2028}' || c == '\u{2029}' || c
        == '\u{202f}' || c == '\u{205f}' || c == '\u{3000}'
}

/// The characters of `s`.
pub fn chars_of(s: &str) -> (result: Vec<char>)
    ensures
        result@ == s@,
{
    let mut result: Vec<char> = Vec::new();
    for c in it: s.chars()
        invariant
            it.seq() == s@,
            result@ == s@.take(it.index()),
    {
        result.push(c);
        assert(s@.take(it.index() + 1) =~= s@.take(it.index()).push(c));
    }
    assert(s@.take(s@.len() as int) =~= s@);
    result
}

/// Whether two texts are equal.
pub fn same_text(a: &str, b: &str) -> (result: bool)
    ensures
        result == (a@ == b@),
{
    let left = chars_of(a);
    let right = chars_of(b);
    if left.len() != right.len() {
        return false;
    }
    for i in 0..left.len()
        invariant
            left@ == a@,
            right@ == b@,
            left.len() == right.len(),
            forall|j: int| 0 <= j < i ==> left[j] == right[j],
    {
        if left[i] != right[i] {
            assert(a@[i as int] != b@[i as int]);
            return false;
        }
    }
    assert(a@ =~= b@);
    true
}

/// Whether `pattern` stands in `s` at `i`.
fn stands_at(s: &Vec<char>, pattern: &Vec<char>, i: usize) -> (result: bool)
    requires
        i + pattern.len() <= s.len(),
    ensures
        result == occurs_at(s@, pattern@, i as int),
{
    for j in 0..pattern.len()
        invariant
            i + pattern.len() <= s.len(),
            forall|k: int| 0 <= k < j ==> s@[i + k] == pattern@[k],
    {
        if s[i + j] != pattern[j] {
            assert(s@.subrange(i as int, i + pattern.len())[j as int] != pattern@[j as int]);
            return false;
        }
    }
    assert(s@.subrange(i as int, i + pattern.len()) =~= pattern@);
    true
}

/// `s` without its leading white space.
pub fn trim_start<'a>(s: &'a str) -> (result: &'a str)
    ensures
        result@ == trimmed_start(s@),
{
    let chars = chars_of(s);
    let mut i: usize = 0;
    assert(s@.skip(0) =~= s@);
    while i < chars.len() && is_white_space_char(chars[i])
        invariant
            chars@ == s@,
            i <= chars.len(),
            trimmed_start(s@.skip(i as int)) == trimmed_start(s@),
        decreases chars.len() - i,
    {
        assert(s@.skip(i as int).skip(1) =~= s@.skip(i + 1));
        i += 1;
    }
    let result = s.substring_char(i, chars.len());
    assert(result@ =~= s@.skip(i as int));
    result
}

/// `s` without its trailing white space.
pub fn trim_end<'a>(s: &'a str) -> (result: &'a str)
    ensures
        result@ == trimmed_end(s@),
{
    let chars = chars_of(s);
    let mut n: usize = chars.len();
    assert(s@.take(n as int) =~= s@);
    while n > 0 && is_white_space_char(chars[n - 1])
        invariant
            chars@ == s@,
            n <= chars.len(),
            trimmed_end(s@.take(n as int)) == trimmed_end(s@),
        decreases n,
    {
        assert(s@.take(n as int).drop_last() =~= s@.take(n - 1));
        n -= 1;
    }
    let result = s.substring_char(0, n);
    assert(result@ =~= s@.take(n as int));
    result
}

/// `s` without leading and trailing white space.
pub fn trim<'a>(s: &'a str) -> (result: &'a str)
    ensures
        result@ == trimmed(s@),
{
    trim_end(trim_start(s))
}

/// `s` without the copies of `c` at its end.
pub fn trim_end_char<'a>(s: &'a str, c: char) -> (result: &'a str)
    ensures
        result@ == without_trailing(s@, c),
{
    let chars = chars_of(s);
    let mut n: usize = chars.len();
    assert(s@.take(n as int) =~= s@);
    while n > 0 && chars[n - 1] == c
        invariant
            chars@ == s@,
            n <= chars.len(),
            without_trailing(s@.take(n as int), c) == without_trailing(s@, c),
        decreases n,
    {
        assert(s@.take(n as int).drop_last() =~= s@.take(n - 1));
        n -= 1;
    }
    let result = s.substring_char(0, n);
    assert(result@ =~= s@.take(n as int));
    result
}

/// Whether `s` begins with `pattern`.
pub fn starts_with(s: &str, pattern: &str) -> (result: bool)
    ensures
        result == begins_with(s@, pattern@),
{
    let chars = chars_of(s);
    let wanted = chars_of(pattern);
    wanted.len() <= chars.len() && stands_at(&chars, &wanted, 0)
}

/// What follows `pattern` at the start of `s`.
pub fn strip_prefix<'a>(s: &'a str, pattern: &str) -> (result: Option<&'a str>)
    ensures
        match result {
            Some(rest) => after_prefix(s@, pattern@) == Some(rest@),
            None => after_prefix(s@, pattern@) is None,
        },
{
    if starts_with(s, pattern) {
        let rest = s.substring_char(pattern.unicode_len(), s.unicode_len());
        assert(rest@ =~= s@.skip(pattern@.len() as int));
        Some(rest)
    } else {
        None
    }
}

/// `s` without the copies of `pattern` at its start.
pub fn trim_start_matches<'a>(s: &'a str, pattern: &str) -> (result: &'a str)
    requires
        pattern@.len() > 0,
    ensures
        result@ == without_leading(s@, pattern@),
{
    let chars = chars_of(s);
    let wanted = chars_of(pattern);
    let mut i: usize = 0;
    assert(s@.skip(0) =~= s@);
    while wanted.len() <= chars.len() - i
        invariant_except_break
            chars@ == s@,
            wanted@ == pattern@,
            wanted.len() > 0,
            i <= chars.len(),
            without_leading(s@.skip(i as int), pattern@) == without_leading(s@, pattern@),
        ensures
            i <= chars.len(),
            s@.skip(i as int) == without_leading(s@, pattern@),
        decreases chars.len() - i,
    {
        proof {
            let n = pattern@.len();
            assert(s@.skip(i as int).subrange(0, n as int) =~= s@.subrange(i as int, i + n));
            assert(s@.skip(i as int).skip(n as int) =~= s@.skip(i + n));
        }
        if !stands_at(&chars, &wanted, i) {
            break;
        }
        i += wanted.len();
    }
    let result = s.substring_char(i, chars.len());
    assert(result@ =~= s@.skip(i as int));
    result
}

/// The first place where `pattern` stands in `s`.
fn find_chars(s: &Vec<char>, pattern: &Vec<char>) -> (result: Option<usize>)
    ensures
        match result {
            Some(i) => index_of(s@, pattern@) == Some(i as int),
            None => index_of(s@, pattern@) is None,
        },
{
    let mut i: usize = 0;
    while pattern.len() <= s.len() - i
        invariant
            i <= s.len(),
            index_from(s@, pattern@, i as int) == index_of(s@, pattern@),
        decreases s.len() - i,
    {
        if stands_at(s, pattern, i) {
            return Some(i);
        }
        assert(pattern@.len() > 0) by {
            if pattern@.len() == 0 {
                assert(s@.subrange(i as int, i as int) =~= pattern@);
            }
        }
        i += 1;
    }
    None
}

/// Whether `pattern` stands in `s` once the ASCII letters of `s` are in lower case.
pub fn contains_in_lower_case(s: &str, pattern: &str) -> (result: bool)
    ensures
        result == contains_text(ascii_lower(s@), pattern@),
{
    let mut lowered: Vec<char> = Vec::new();
    for c in it: s.chars()
        invariant
            it.seq() == s@,
            lowered@ == ascii_lower(s@.take(it.index())),
    {
        let lower = if 'A' <= c && c <= 'Z' {
            ((c as u8) + 32) as char
        } else {
            c
        };
        lowered.push(lower);
        assert(ascii_lower(s@.take(it.index() + 1)) =~= ascii_lower(s@.take(it.index())).push(
            lower,
        ));
    }
    assert(s@.take(s@.len() as int) =~= s@);
    proof {
        lemma_index_of(ascii_lower(s@), pattern@);
    }
    find_chars(&lowered, &chars_of(pattern)).is_some()
}

/// What stands before and after the first `pattern` in `s`.
pub fn split_once<'a>(s: &'a str, pattern: &str) -> (result: Option<(&'a str, &'a str)>)
    ensures
        match result {
            Some((before, after)) => split_at_first(s@, pattern@) == Some((before@, after@)),
            None => split_at_first(s@, pattern@) is None,
        },
{
    match find_chars(&chars_of(s), &chars_of(pattern)) {
        Some(i) => {
            proof {
                lemma_index_of(s@, pattern@);
            }
            let length = s.unicode_len();
            let before = s.substring_char(0, i);
            let after = s.substring_char(i + pattern.unicode_len(), length);
            assert(before@ =~= s@.take(i as int));
            assert(after@ =~= s@.skip(i + pattern@.len()));
            Some((before, after))
        },
        None => None,
    }
}

/// The decimal digit for `d`.
fn digit_text(d: u64) -> (result: &'static str)
    requires
        d < 10,
    ensures
        result@ == seq![digit(d as int)],
{
    proof {
        reveal_strlit("0");
        reveal_strlit("1");
        reveal_strlit("2");
        reveal_strlit("3");
        reveal_strlit("4");
        reveal_strlit("5");
        reveal_strlit("6");
        reveal_strlit("7");
        reveal_strlit("8");
        reveal_strlit("9");
    }
    let result = match d {
        0 => "0",
        1 => "1",
        2 => "2",
        3 => "3",
        4 => "4",
        5 => "5",
        6 => "6",
        7 => "7",
        8 => "8",
        _ => "9",
    };
    assert(result@ =~= seq![digit(d as int)]);
    result
}

/// `n` in decimal.
pub fn decimal_text(n: u64) -> (result: String)
    ensures
        result@ == decimal(n as nat),
    decreases n,
{
    if n < 10 {
        digit_text(n).to_string()
    } else {
        let result = decimal_text(n / 10).concat(digit_text(n % 10));
        assert(result@ =~= decimal(n as nat));
        result
    }
}

/// Appends a line feed.
pub fn push_line_feed(target: &mut String)
    ensures
        final(target)@ == old(target)@.push('\n'),
{
    target.append("\n");
    proof {
        reveal_strlit("\n");
    }
    assert(target@ =~= old(target)@.push('\n'));
}

/// Where the first `pattern` in `s` is, and that there is none exactly if `s` does not hold it.
pub proof fn lemma_index_of(s: Seq<char>, pattern: Seq<char>)
    ensures
        match index_of(s, pattern) {
            Some(i) => occurs_at(s, pattern, i) && forall|j: int|
                j < i ==> !occurs_at(s, pattern, j),
            None => !contains_text(s, pattern),
        },
        contains_text(s, pattern) == (index_of(s, pattern) is Some),
{
    lemma_index_from(s, pattern, 0);
}

proof fn lemma_index_from(s: Seq<char>, pattern: Seq<char>, i: int)
    requires
        0 <= i,
        forall|j: int| j < i ==> !occurs_at(s, pattern, j),
    ensures
        match index_from(s, pattern, i) {
            Some(k) => occurs_at(s, pattern, k) && forall|j: int|
                j < k ==> !occurs_at(s, pattern, j),
            None => forall|j: int| !occurs_at(s, pattern, j),
        },
    decreases s.len() - i + 1,
{
    if i <= s.len() - pattern.len() && !occurs_at(s, pattern, i) {
        lemma_index_from(s, pattern, i + 1);
    }
}

/// Appends `text` on a line of its own; an empty text adds no line.
pub fn append_text(target: &mut String, text: Option<&str>)
    ensures
        final(target)@ == appended(old(target)@, text_view(text)),
{
    if let Some(text) = text {
        if !target.as_str().is_empty() && !text.is_empty() {
            push_line_feed(target);
        }
        target.append(text);
    }
}

/// Appending one text after another puts each that is not empty on a line of its own, and the
/// result is empty only if there was nothing to put there.
pub proof fn lemma_appended_on_lines(texts: Seq<Seq<char>>, text: Option<Seq<char>>)
    requires
        none_empty(texts),
    ensures
        appended(on_lines(texts), text) == on_lines(noted(texts, text)),
        none_empty(noted(texts, text)),
        (on_lines(texts).len() == 0) == (texts.len() == 0),
{
    lemma_on_lines_empty(texts);
    match text {
        Some(line) => {
            if line.len() > 0 {
                let more = texts.push(line);
                assert(more.drop_last() =~= texts);
                if texts.len() == 0 {
                    assert(on_lines(texts) + line =~= line);
                } else {
                    assert(on_lines(texts).push('\n') + line =~= on_lines(texts) + seq!['\n']
                        + line);
                }
            } else {
                assert(on_lines(texts) + line =~= on_lines(texts));
            }
        },
        None => {},
    }
}

proof fn lemma_on_lines_empty(texts: Seq<Seq<char>>)
    requires
        none_empty(texts),
    ensures
        (on_lines(texts).len() == 0) == (texts.len() == 0),
    decreases texts.len(),
{
    if texts.len() > 1 {
        lemma_on_lines_empty(texts.drop_last());
    }
}

/// The pieces of `s` between its line feeds.
pub fn split_lines<'a>(s: &'a str) -> (result: Vec<&'a str>)
    ensures
        result.len() == line_pieces(s@).len(),
        forall|j: int|
            0 <= j < result.len() ==> (#[trigger] result@[j])@ == line_pieces(s@)[j],
{
    let chars = chars_of(s);
    let mut pieces: Vec<&'a str> = Vec::new();
    let mut start: usize = 0;
    assert(s@.subrange(0, 0) =~= seq![]);
    for i in 0..chars.len()
        invariant
            chars@ == s@,
            start <= i,
            line_pieces(s@.take(i as int)).len() == pieces.len() + 1,
            forall|j: int|
                0 <= j < pieces.len() ==> (#[trigger] pieces@[j])@ == line_pieces(
                    s@.take(i as int),
                )[j],
            line_pieces(s@.take(i as int)).last() == s@.subrange(start as int, i as int),
    {
        assert(s@.take(i + 1).drop_last() =~= s@.take(i as int));
        if chars[i] == '\n' {
            pieces.push(s.substring_char(start, i));
            start = i + 1;
            assert(s@.subrange(start as int, i + 1) =~= seq![]);
        } else {
            assert(s@.subrange(start as int, i + 1) =~= s@.subrange(start as int, i as int).push(
                s@[i as int],
            ));
        }
    }
    assert(s@.take(chars.len() as int) =~= s@);
    pieces.push(s.substring_char(start, chars.len()));
    pieces
}

}
