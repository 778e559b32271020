//! The grammar of HTTP header fields that the handshake relies on.
use crate::strings;
use crate::strings::{chars_of, eq_ignore_ascii_case, same, split_all, split_once, trim_ows};
use vstd::prelude::*;

verus! {

/// A character of a token (RFC 9110).
pub open spec fn token_char(c: char) -> bool {
    ||| 'a' <= c <= 'z'
    ||| 'A' <= c <= 'Z'
    ||| '0' <= c <= '9'
    ||| c == '!'
    ||| '#' <= c <= '\''
    ||| c == '*'
    ||| c == '+'
    ||| c == '-'
    ||| c == '.'
    ||| '^' <= c <= '`'
    ||| c == '|'
    ||| c == '~'
}

/// A token: one or more token characters.
pub open spec fn token(s: Seq<char>) -> bool {
    &&& s.len() > 0
    &&& forall|i: int| 0 <= i < s.len() ==> token_char(#[trigger] s[i])
}

/// A character that a header value may hold: a tab, or anything but a control character.
pub open spec fn value_char(c: char) -> bool {
    c == '\t' || (c >= ' ' && c != '\u{7f}')
}

/// A text that may stand as a header value.
pub open spec fn header_value(s: Seq<char>) -> bool {
    forall|i: int| 0 <= i < s.len() ==> value_char(#[trigger] s[i])
}

/// A text that may stand as a request target: no control characters and no spaces.
pub open spec fn request_target(s: Seq<char>) -> bool {
    forall|i: int| 0 <= i < s.len() ==> (#[trigger] s[i]) > ' ' && s[i] != '\u{7f}'
}

/// The elements of a comma-separated list, without the whitespace around them.
pub open spec fn elements(s: Seq<char>) -> Seq<Seq<char>> {
    strings::split_on(s, ',').map_values(|e: Seq<char>| strings::trimmed_ows(e))
}

/// Whether a list holds a word, in whatever case.
pub open spec fn lists_word(s: Seq<char>, word: Seq<char>) -> bool {
    exists|i: int|
        0 <= i < elements(s).len() && strings::lowered(#[trigger] elements(s)[i])
            == strings::lowered(word)
}

/// Whether a list holds an element as it is.
pub open spec fn lists(s: Seq<char>, element: Seq<char>) -> bool {
    elements(s).contains(element)
}

/// Whether an element of a list is empty.
pub open spec fn lists_nothing(s: Seq<char>) -> bool {
    exists|i: int| 0 <= i < elements(s).len() && (#[trigger] elements(s)[i]).len() == 0
}

/// Whether some element of a list is not empty.
pub open spec fn lists_something(s: Seq<char>) -> bool {
    exists|i: int| 0 <= i < elements(s).len() && (#[trigger] elements(s)[i]).len() > 0
}

/// An offer of subprotocols: tokens, at least one, and none twice. Empty
/// elements do not count.
pub open spec fn protocol_list(s: Seq<char>) -> bool {
    let e = elements(s);
    &&& lists_something(s)
    &&& forall|i: int| 0 <= i < e.len() && (#[trigger] e[i]).len() > 0 ==> token(e[i])
    &&& forall|i: int, j: int|
        0 <= i < j < e.len() && (#[trigger] e[i]).len() > 0 ==> e[i] != #[trigger] e[j]
}

/// The text between quotes, where a backslash quotes the character behind it,
/// is made of token characters.
pub open spec fn quoted_token(s: Seq<char>) -> bool
    decreases s.len(),
{
    if s.len() == 0 {
        true
    } else if s[0] == '\\' {
        s.len() >= 2 && token_char(s[1]) && quoted_token(s.skip(2))
    } else {
        token_char(s[0]) && quoted_token(s.skip(1))
    }
}

/// The value of an extension parameter: a token, or a quoted token.
pub open spec fn extension_value(v: Seq<char>) -> bool {
    ||| token(v)
    ||| {
        &&& v.len() > 2
        &&& v[0] == '"'
        &&& v.last() == '"'
        &&& quoted_token(v.subrange(1, v.len() - 1))
    }
}

/// A parameter of an extension: a token, perhaps with a value.
pub open spec fn extension_param(p: Seq<char>) -> bool {
    let n = strings::prefix_len(p, '=') as int;
    if n >= p.len() {
        token(p)
    } else {
        token(strings::trimmed_ows(p.take(n))) && extension_value(
            strings::trimmed_ows(p.skip(n + 1)),
        )
    }
}

/// An extension: a token and parameters.
pub open spec fn extension(e: Seq<char>) -> bool {
    let parts = strings::split_on(e, ';');
    &&& token(strings::trimmed_ows(parts[0]))
    &&& forall|i: int|
        1 <= i < parts.len() ==> extension_param(strings::trimmed_ows(#[trigger] parts[i]))
}

/// A list of extensions, at least one. Empty elements do not count.
pub open spec fn extension_list(s: Seq<char>) -> bool {
    let e = elements(s);
    &&& lists_something(s)
    &&& forall|i: int| 0 <= i < e.len() && (#[trigger] e[i]).len() > 0 ==> extension(e[i])
}

/// Zero as a content length, once or more often.
pub open spec fn zero_length(s: Seq<char>) -> bool {
    forall|i: int| 0 <= i < elements(s).len() ==> all_zeros(#[trigger] elements(s)[i])
}

/// One or more zeros.
pub open spec fn all_zeros(s: Seq<char>) -> bool {
    &&& s.len() > 0
    &&& forall|i: int| 0 <= i < s.len() ==> s[i] == '0'
}

/// A hexadecimal digit.
pub open spec fn hex_digit(c: char) -> bool {
    '0' <= c <= '9' || 'a' <= c <= 'f' || 'A' <= c <= 'F'
}

/// Every percent sign begins an escape of two hexadecimal digits.
pub open spec fn percent_encoded(s: Seq<char>) -> bool {
    forall|i: int|
        0 <= i < s.len() && #[trigger] s[i] == '%' ==> i + 2 < s.len() && hex_digit(s[i + 1])
            && hex_digit(s[i + 2])
}

fn is_token_char(c: char) -> (r: bool)
    ensures
        r == token_char(c),
{
    ('a' <= c && c <= 'z') || ('A' <= c && c <= 'Z') || ('0' <= c && c <= '9') || c == '!' || ('#'
        <= c && c <= '\'') || c == '*' || c == '+' || c == '-' || c == '.' || ('^' <= c && c <= '`')
        || c == '|' || c == '~'
}

/// Whether a text is a token.
pub fn is_token(value: &str) -> (r: bool)
    ensures
        r == token(value@),
{
    let chars = chars_of(value);
    if chars.len() == 0 {
        return false;
    }
    let mut i: usize = 0;
    while i < chars.len()
        invariant
            i <= chars@.len(),
            chars@ == value@,
            forall|j: int| 0 <= j < i ==> token_char(#[trigger] chars@[j]),
        decreases chars@.len() - i,
    {
        if !is_token_char(chars[i]) {
            return false;
        }
        i = i + 1;
    }
    true
}

/// Whether a text may stand as a header value.
pub fn is_header_value(value: &str) -> (r: bool)
    ensures
        r == header_value(value@),
{
    let chars = chars_of(value);
    let mut i: usize = 0;
    while i < chars.len()
        invariant
            i <= chars@.len(),
            chars@ == value@,
            forall|j: int| 0 <= j < i ==> value_char(#[trigger] chars@[j]),
        decreases chars@.len() - i,
    {
        let c = chars[i];
        if !(c == '\t' || (c >= ' ' && c != '\u{7f}')) {
            assert(!value_char(value@[i as int]));
            return false;
        }
        i = i + 1;
    }
    true
}

/// Whether a text may stand as a request target.
pub fn is_request_target(value: &str) -> (r: bool)
    ensures
        r == request_target(value@),
{
    let chars = chars_of(value);
    let mut i: usize = 0;
    while i < chars.len()
        invariant
            i <= chars@.len(),
            chars@ == value@,
            forall|j: int| 0 <= j < i ==> (#[trigger] chars@[j]) > ' ' && chars@[j] != '\u{7f}',
        decreases chars@.len() - i,
    {
        let c = chars[i];
        if !(c > ' ' && c != '\u{7f}') {
            assert(value@[i as int] == c);
            return false;
        }
        i = i + 1;
    }
    true
}

/// The elements of a comma-separated list.
pub fn list_elements<'a>(value: &'a str) -> (r: Vec<&'a str>)
    ensures
        strings::views(r@) == elements(value@),
        r@.len() >= 1,
{
    let parts = split_all(value, ',');
    let mut r: Vec<&'a str> = Vec::new();
    let mut i: usize = 0;
    while i < parts.len()
        invariant
            i <= parts@.len(),
            strings::views(parts@) == strings::split_on(value@, ','),
            r@.len() == i,
            forall|j: int|
                0 <= j < i ==> (#[trigger] r@[j])@ == strings::trimmed_ows(
                    strings::split_on(value@, ',')[j],
                ),
        decreases parts@.len() - i,
    {
        assert(parts@[i as int]@ == strings::views(parts@)[i as int]);
        r.push(trim_ows(parts[i]));
        i = i + 1;
    }
    assert(strings::views(parts@).len() == parts@.len());
    assert(strings::views(r@) =~= elements(value@));
    r
}

/// Whether a list holds a word, in whatever case.
pub fn has_token_ignore_case(value: &str, word: &str) -> (r: bool)
    ensures
        r == lists_word(value@, word@),
{
    let all = list_elements(value);
    let mut i: usize = 0;
    while i < all.len()
        invariant
            i <= all@.len(),
            strings::views(all@) == elements(value@),
            forall|j: int|
                0 <= j < i ==> strings::lowered(#[trigger] elements(value@)[j])
                    != strings::lowered(word@),
        decreases all@.len() - i,
    {
        assert(all@[i as int]@ == strings::views(all@)[i as int]);
        if eq_ignore_ascii_case(all[i], word) {
            return true;
        }
        i = i + 1;
    }
    assert(elements(value@).len() == all@.len());
    false
}

/// Whether a list holds an element as it is.
pub fn has_element(value: &str, element: &str) -> (r: bool)
    ensures
        r == lists(value@, element@),
{
    let all = list_elements(value);
    let mut i: usize = 0;
    while i < all.len()
        invariant
            i <= all@.len(),
            strings::views(all@) == elements(value@),
            forall|j: int| 0 <= j < i ==> #[trigger] elements(value@)[j] != element@,
        decreases all@.len() - i,
    {
        assert(all@[i as int]@ == strings::views(all@)[i as int]);
        if same(all[i], element) {
            return true;
        }
        i = i + 1;
    }
    assert(elements(value@).len() == all@.len());
    false
}

/// Whether an element of a list is empty.
pub fn has_empty_element(value: &str) -> (r: bool)
    ensures
        r == lists_nothing(value@),
{
    let all = list_elements(value);
    let mut i: usize = 0;
    while i < all.len()
        invariant
            i <= all@.len(),
            strings::views(all@) == elements(value@),
            forall|j: int| 0 <= j < i ==> (#[trigger] elements(value@)[j]).len() > 0,
        decreases all@.len() - i,
    {
        assert(all@[i as int]@ == strings::views(all@)[i as int]);
        if all[i].is_empty() {
            return true;
        }
        i = i + 1;
    }
    assert(elements(value@).len() == all@.len());
    false
}

/// Whether a value is an offer of subprotocols.
pub fn is_valid_protocol_list(value: &str) -> (r: bool)
    ensures
        r == protocol_list(value@),
{
    let all = list_elements(value);
    let ghost e = elements(value@);
    let mut something: bool = false;
    let mut i: usize = 0;
    while i < all.len()
        invariant
            i <= all@.len(),
            strings::views(all@) == e,
            e == elements(value@),
            something == exists|j: int| 0 <= j < i && (#[trigger] e[j]).len() > 0,
            forall|j: int| 0 <= j < i && (#[trigger] e[j]).len() > 0 ==> token(e[j]),
            forall|j: int, k: int|
                0 <= j < k < i && (#[trigger] e[j]).len() > 0 ==> e[j] != #[trigger] e[k],
        decreases all@.len() - i,
    {
        assert(all@[i as int]@ == strings::views(all@)[i as int]);
        if !all[i].is_empty() {
            if !is_token(all[i]) {
                return false;
            }
            let mut j: usize = 0;
            while j < i
                invariant
                    j <= i < all@.len(),
                    strings::views(all@) == e,
                    e == elements(value@),
                    e[i as int].len() > 0,
                    forall|k: int| 0 <= k < j ==> #[trigger] e[k] != e[i as int],
                decreases i - j,
            {
                assert(all@[j as int]@ == strings::views(all@)[j as int]);
                assert(all@[i as int]@ == strings::views(all@)[i as int]);
                if same(all[j], all[i]) {
                    return false;
                }
                j = j + 1;
            }
            something = true;
        }
        i = i + 1;
    }
    assert(e.len() == all@.len());
    something
}

fn is_quoted_token(chars: &Vec<char>, from: usize, to: usize) -> (r: bool)
    requires
        from <= to <= chars@.len(),
    ensures
        r == quoted_token(chars@.subrange(from as int, to as int)),
{
    let mut i: usize = from;
    while i < to
        invariant
            from <= i <= to <= chars@.len(),
            quoted_token(chars@.subrange(from as int, to as int)) == quoted_token(
                chars@.subrange(i as int, to as int),
            ),
        decreases to - i,
    {
        let ghost here = chars@.subrange(i as int, to as int);
        if chars[i] == '\\' {
            if to - i < 2 || !is_token_char(chars[i + 1]) {
                return false;
            }
            assert(here.skip(2) =~= chars@.subrange(i + 2, to as int));
            i = i + 2;
        } else {
            if !is_token_char(chars[i]) {
                return false;
            }
            assert(here.skip(1) =~= chars@.subrange(i + 1, to as int));
            i = i + 1;
        }
    }
    true
}

fn is_valid_extension_value(value: &str) -> (r: bool)
    ensures
        r == extension_value(value@),
{
    if is_token(value) {
        return true;
    }
    let chars = chars_of(value);
    let n = chars.len();
    if n <= 2 || chars[0] != '"' || chars[n - 1] != '"' {
        return false;
    }
    is_quoted_token(&chars, 1, n - 1)
}

fn is_valid_extension_param(param: &str) -> (r: bool)
    ensures
        r == extension_param(param@),
{
    match split_once(param, '=') {
        Some((name, value)) => {
            proof {
                strings::lemma_prefix_len(name@, '=', value@);
                assert(param@.take(name@.len() as int) =~= name@);
                assert(param@.skip(name@.len() as int + 1) =~= value@);
            }
            is_token(trim_ows(name)) && is_valid_extension_value(trim_ows(value))
        },
        None => {
            proof {
                strings::lemma_prefix_len(param@, '=', seq![]);
            }
            is_token(param)
        },
    }
}

fn is_valid_extension(value: &str) -> (r: bool)
    ensures
        r == extension(value@),
{
    let parts = split_all(value, ';');
    let ghost all = strings::split_on(value@, ';');
    assert(parts@[0]@ == strings::views(parts@)[0]);
    if !is_token(trim_ows(parts[0])) {
        return false;
    }
    let mut i: usize = 1;
    while i < parts.len()
        invariant
            1 <= i <= parts@.len(),
            strings::views(parts@) == all,
            all == strings::split_on(value@, ';'),
            forall|j: int| 1 <= j < i ==> extension_param(strings::trimmed_ows(#[trigger] all[j])),
        decreases parts@.len() - i,
    {
        assert(parts@[i as int]@ == strings::views(parts@)[i as int]);
        if !is_valid_extension_param(trim_ows(parts[i])) {
            assert(!extension_param(strings::trimmed_ows(all[i as int])));
            return false;
        }
        i = i + 1;
    }
    assert(all.len() == parts@.len());
    true
}

/// Whether a value is a list of extensions.
pub fn is_valid_extension_list(value: &str) -> (r: bool)
    ensures
        r == extension_list(value@),
{
    let all = list_elements(value);
    let ghost e = elements(value@);
    let mut something: bool = false;
    let mut i: usize = 0;
    while i < all.len()
        invariant
            i <= all@.len(),
            strings::views(all@) == e,
            e == elements(value@),
            something == exists|j: int| 0 <= j < i && (#[trigger] e[j]).len() > 0,
            forall|j: int| 0 <= j < i && (#[trigger] e[j]).len() > 0 ==> extension(e[j]),
        decreases all@.len() - i,
    {
        assert(all@[i as int]@ == strings::views(all@)[i as int]);
        if !all[i].is_empty() {
            if !is_valid_extension(all[i]) {
                return false;
            }
            something = true;
        }
        i = i + 1;
    }
    assert(e.len() == all@.len());
    something
}

fn is_all_zeros(value: &str) -> (r: bool)
    ensures
        r == all_zeros(value@),
{
    let chars = chars_of(value);
    let mut i: usize = 0;
    while i < chars.len()
        invariant
            i <= chars@.len(),
            chars@ == value@,
            forall|j: int| 0 <= j < i ==> chars@[j] == '0',
        decreases chars@.len() - i,
    {
        if chars[i] != '0' {
            return false;
        }
        i = i + 1;
    }
    chars.len() > 0
}

/// Whether a content length is zero.
pub fn is_zero_content_length(value: &str) -> (r: bool)
    ensures
        r == zero_length(value@),
{
    let all = list_elements(value);
    let mut i: usize = 0;
    while i < all.len()
        invariant
            i <= all@.len(),
            strings::views(all@) == elements(value@),
            forall|j: int| 0 <= j < i ==> all_zeros(#[trigger] elements(value@)[j]),
        decreases all@.len() - i,
    {
        assert(all@[i as int]@ == strings::views(all@)[i as int]);
        if !is_all_zeros(all[i]) {
            assert(!all_zeros(elements(value@)[i as int]));
            return false;
        }
        i = i + 1;
    }
    assert(elements(value@).len() == all@.len());
    true
}

fn is_hex_digit(c: char) -> (r: bool)
    ensures
        r == hex_digit(c),
{
    ('0' <= c && c <= '9') || ('a' <= c && c <= 'f') || ('A' <= c && c <= 'F')
}

/// Whether every percent sign begins an escape.
pub fn has_valid_percent_encoding(value: &str) -> (r: bool)
    ensures
        r == percent_encoded(value@),
{
    let chars = chars_of(value);
    let mut i: usize = 0;
    while i < chars.len()
        invariant
            i <= chars@.len(),
            chars@ == value@,
            forall|j: int|
                0 <= j < i && #[trigger] chars@[j] == '%' ==> j + 2 < chars@.len() && hex_digit(
                    chars@[j + 1],
                ) && hex_digit(chars@[j + 2]),
        decreases chars@.len() - i,
    {
        if chars[i] == '%' {
            if chars.len() - i <= 2 || !is_hex_digit(chars[i + 1]) || !is_hex_digit(chars[i + 2]) {
                assert(value@[i as int] == '%');
                return false;
            }
        }
        i = i + 1;
    }
    true
}

} // verus!
