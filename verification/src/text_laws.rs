//! What splitting, trimming and comparing of texts promise.
use crate::grammar;
use crate::strings;
use vstd::prelude::*;

verus! {

/// Splitting at a separator: a text without one is one part, and the parts of
/// two texts with a separator between them are those of the first and then
/// those of the second.
pub proof fn law_splitting_concatenates(a: Seq<char>, sep: char, b: Seq<char>)
    ensures
        !a.contains(sep) ==> strings::split_on(a, sep) == seq![a],
        strings::split_on(a + seq![sep] + b, sep) == strings::split_on(a, sep)
            + strings::split_on(b, sep),
    decreases a.len(),
{
    let whole = a + seq![sep] + b;
    let n = strings::prefix_len(a, sep) as int;
    lemma_prefix(a, sep);
    if n >= a.len() {
        assert(!a.contains(sep)) by {
            if a.contains(sep) {
                let i = choose|i: int| 0 <= i < a.len() && a[i] == sep;
                assert(a[i] != sep);
            }
        }
        strings::lemma_prefix_len(a, sep, b);
        assert(whole.take(a.len() as int) =~= a);
        assert(whole.skip(a.len() as int + 1) =~= b);
    } else {
        assert(a[n] == sep);
        let head = a.take(n);
        let rest = a.skip(n + 1);
        assert(!head.contains(sep)) by {
            if head.contains(sep) {
                let i = choose|i: int| 0 <= i < head.len() && head[i] == sep;
                assert(a[i] != sep);
            }
        }
        assert(whole =~= head + seq![sep] + (rest + seq![sep] + b));
        strings::lemma_prefix_len(head, sep, rest + seq![sep] + b);
        assert(whole.take(n) =~= head);
        assert(whole.skip(n + 1) =~= rest + seq![sep] + b);
        law_splitting_concatenates(rest, sep, b);
        assert(seq![head] + (strings::split_on(rest, sep) + strings::split_on(b, sep)) =~= (
        seq![head] + strings::split_on(rest, sep)) + strings::split_on(b, sep));
        assert(a.contains(sep));
    }
}

/// Where the first separator of a text stands.
pub proof fn lemma_prefix(s: Seq<char>, sep: char)
    ensures
        strings::prefix_len(s, sep) <= s.len(),
        forall|i: int| 0 <= i < strings::prefix_len(s, sep) ==> #[trigger] s[i] != sep,
        strings::prefix_len(s, sep) < s.len() ==> s[strings::prefix_len(s, sep) as int] == sep,
    decreases s.len(),
{
    if s.len() > 0 && s[0] != sep {
        let t = s.drop_first();
        lemma_prefix(t, sep);
        let n = strings::prefix_len(t, sep);
        assert forall|i: int| 0 <= i < n + 1 implies #[trigger] s[i] != sep by {
            if i > 0 {
                assert(t[i - 1] != sep);
            }
        }
        if n < t.len() {
            assert(t[n as int] == s[n as int + 1]);
        }
    }
}

/// A space or a tab.
pub open spec fn blank(c: char) -> bool {
    c == ' ' || c == '\t'
}

/// Only spaces and tabs.
pub open spec fn blanks(s: Seq<char>) -> bool {
    forall|i: int| 0 <= i < s.len() ==> blank(#[trigger] s[i])
}

/// Blanks around a text that neither begins nor ends with one are taken off,
/// and nothing else.
pub proof fn law_trimming_takes_blanks_off(left: Seq<char>, body: Seq<char>, right: Seq<char>)
    requires
        blanks(left),
        blanks(right),
        body.len() > 0 ==> !blank(body[0]) && !blank(body.last()),
    ensures
        strings::trimmed_ows(left + body + right) == body,
{
    let s = left + body + right;
    let f = |c: char| strings::is_ows(c);
    if body.len() > 0 {
        strings::lemma_trim_range(s, f, left.len() as int, (left.len() + body.len()) as int);
        assert(s.subrange(left.len() as int, (left.len() + body.len()) as int) =~= body);
    } else {
        strings::lemma_trim_range(s, f, s.len() as int, s.len() as int);
        assert(s.subrange(s.len() as int, s.len() as int) =~= body);
    }
}

/// A text in lower case differs from the text in the ASCII letters alone.
pub proof fn law_lower_case(s: Seq<char>)
    ensures
        strings::lowered(s).len() == s.len(),
        forall|i: int|
            0 <= i < s.len() ==> (if 'A' <= #[trigger] s[i] <= 'Z' {
                strings::lowered(s)[i] as u32 == s[i] as u32 + 32
            } else {
                strings::lowered(s)[i] == s[i]
            }),
{
}

/// Whether a text stands between two commas, or between one and an end of the
/// list, with nothing but blanks around it, in whatever case. The word is in
/// lower case.
pub open spec fn word_in(list: Seq<char>, word: Seq<char>) -> bool {
    exists|i: int, a: int, b: int, j: int| #[trigger] stands(list, word, i, a, b, j)
}

/// Whether a word stands from `a` to `b`, in an element from `i` to `j`.
pub open spec fn stands(
    list: Seq<char>,
    word: Seq<char>,
    i: int,
    a: int,
    b: int,
    j: int,
) -> bool {
    &&& 0 <= i <= a <= b <= j <= list.len()
    &&& i == 0 || list[i - 1] == ','
    &&& j == list.len() || list[j] == ','
    &&& blanks(list.subrange(i, a))
    &&& blanks(list.subrange(b, j))
    &&& strings::lowered(list.subrange(a, b)) == word
}

/// A word that can be an element of a list, in lower case.
pub open spec fn plain_word(word: Seq<char>) -> bool {
    &&& word.len() > 0
    &&& forall|i: int| 0 <= i < word.len() ==> 'a' <= #[trigger] word[i] <= 'z'
}

/// A list holds a word wherever the word stands between commas, whatever is
/// around it, and nowhere else.
pub proof fn law_words_of_lists(list: Seq<char>, word: Seq<char>)
    requires
        plain_word(word),
    ensures
        grammar::lists_word(list, word) <==> word_in(list, word),
{
    assert(strings::lowered(word) =~= word);
    if grammar::lists_word(list, word) {
        let k = choose|k: int|
            0 <= k < grammar::elements(list).len() && strings::lowered(
                #[trigger] grammar::elements(list)[k],
            ) == strings::lowered(word);
        let part = strings::split_on(list, ',')[k];
        assert(grammar::elements(list)[k] == strings::trimmed_ows(part));
        let i = lemma_part_stands(list, k);
        let (a, b) = lemma_trim_cut(part);
        assert(list.subrange(i + a, i + b) =~= part.subrange(a, b));
        assert(list.subrange(i, i + a) =~= part.subrange(0, a));
        assert(list.subrange(i + b, (i + part.len()) as int) =~= part.subrange(
            b,
            part.len() as int,
        ));
        assert(stands(list, word, i, i + a, i + b, (i + part.len()) as int));
    }
    if word_in(list, word) {
        let (i, a, b, j) = choose|i: int, a: int, b: int, j: int| #[trigger]
            stands(list, word, i, a, b, j);
        let part = list.subrange(i, j);
        let body = list.subrange(a, b);
        law_lower_case(body);
        assert(body.len() == word.len());
        assert forall|k: int| i <= k < j implies list[k] != ',' by {
            if k < a {
                assert(list.subrange(i, a)[k - i] == list[k]);
            } else if k < b {
                assert(body[k - a] == list[k]);
                assert('a' <= word[k - a] <= 'z');
            } else {
                assert(list.subrange(b, j)[k - b] == list[k]);
            }
        }
        let n = lemma_stands_part(list, i, j);
        assert(part =~= list.subrange(i, a) + body + list.subrange(b, j));
        assert('a' <= word[0] <= 'z' && 'a' <= word.last() <= 'z');
        assert(!blank(body[0]) && !blank(body.last()));
        law_trimming_takes_blanks_off(list.subrange(i, a), body, list.subrange(b, j));
        assert(grammar::elements(list)[n] == body);
    }
}

/// Where a part of a list stands in it.
pub proof fn lemma_part_stands(list: Seq<char>, k: int) -> (i: int)
    requires
        0 <= k < strings::split_on(list, ',').len(),
    ensures
        ({
            let part = strings::split_on(list, ',')[k];
            &&& 0 <= i
            &&& i + part.len() <= list.len()
            &&& list.subrange(i, (i + part.len()) as int) == part
            &&& i == 0 || list[i - 1] == ','
            &&& i + part.len() == list.len() || list[(i + part.len()) as int] == ','
            &&& !part.contains(',')
        }),
    decreases list.len(),
{
    let n = strings::prefix_len(list, ',') as int;
    lemma_prefix(list, ',');
    let all = strings::split_on(list, ',');
    if n >= list.len() {
        assert(list.subrange(0, list.len() as int) =~= list);
        0
    } else if k == 0 {
        assert(list.subrange(0, n) =~= list.take(n));
        assert(all[0] == list.take(n));
        0
    } else {
        let rest = list.skip(n + 1);
        let i = lemma_part_stands(rest, k - 1);
        let part = all[k];
        assert(part == strings::split_on(rest, ',')[k - 1]);
        assert(list.subrange(i + n + 1, (i + n + 1 + part.len()) as int) =~= rest.subrange(
            i,
            (i + part.len()) as int,
        ));
        if i > 0 {
            assert(rest[i - 1] == list[i + n]);
        }
        if i + part.len() < rest.len() {
            assert(rest[(i + part.len()) as int] == list[(i + n + 1 + part.len()) as int]);
        }
        i + n + 1
    }
}

/// Which part of a list stands between two commas.
pub proof fn lemma_stands_part(list: Seq<char>, i: int, j: int) -> (k: int)
    requires
        0 <= i <= j <= list.len(),
        i == 0 || list[i - 1] == ',',
        j == list.len() || list[j] == ',',
        forall|k: int| i <= k < j ==> #[trigger] list[k] != ',',
    ensures
        0 <= k < strings::split_on(list, ',').len(),
        strings::split_on(list, ',')[k] == list.subrange(i, j),
    decreases list.len(),
{
    let n = strings::prefix_len(list, ',') as int;
    lemma_prefix(list, ',');
    let all = strings::split_on(list, ',');
    if n >= list.len() {
        assert(i == 0 && j == list.len()) by {
            if i > 0 {
                assert(list[i - 1] != ',');
            }
            if j < list.len() {
                assert(list[j] != ',');
            }
        }
        assert(list.subrange(i, j) =~= list);
        0
    } else if i == 0 {
        assert(j == n) by {
            if n < j {
                assert(list[n] != ',');
            }
            if j < n {
                assert(list[j] != ',');
            }
        }
        assert(list.subrange(0, j) =~= list.take(n));
        0
    } else {
        assert(i - 1 >= n) by {
            if i - 1 < n {
                assert(list[i - 1] != ',');
            }
        }
        let rest = list.skip(n + 1);
        let a = i - n - 1;
        let b = j - n - 1;
        if a > 0 {
            assert(rest[a - 1] == list[i - 1]);
        }
        if b < rest.len() {
            assert(rest[b] == list[j]);
        }
        assert forall|k: int| a <= k < b implies #[trigger] rest[k] != ',' by {
            assert(rest[k] == list[k + n + 1]);
        }
        let k = lemma_stands_part(rest, a, b);
        assert(rest.subrange(a, b) =~= list.subrange(i, j));
        assert(all[k + 1] == strings::split_on(rest, ',')[k]);
        k + 1
    }
}

/// Where the trimmed text stands in a text.
pub proof fn lemma_trim_cut(s: Seq<char>) -> (cut: (int, int))
    ensures
        0 <= cut.0 <= cut.1 <= s.len(),
        strings::trimmed_ows(s) == s.subrange(cut.0, cut.1),
        blanks(s.subrange(0, cut.0)),
        blanks(s.subrange(cut.1, s.len() as int)),
    decreases s.len(),
{
    let f = |c: char| strings::is_ows(c);
    let a = lemma_front_cut(s);
    let t = s.skip(a);
    let b = lemma_back_cut(t);
    assert(t.take(b) =~= s.subrange(a, a + b));
    assert(s.subrange(a + b, s.len() as int) =~= t.skip(b));
    (a, a + b)
}

proof fn lemma_front_cut(s: Seq<char>) -> (a: int)
    ensures
        0 <= a <= s.len(),
        strings::trim_front(s, |c: char| strings::is_ows(c)) == s.skip(a),
        blanks(s.subrange(0, a)),
    decreases s.len(),
{
    if s.len() > 0 && strings::is_ows(s[0]) {
        let a = lemma_front_cut(s.drop_first());
        assert(s.drop_first().skip(a) =~= s.skip(a + 1));
        assert forall|i: int| 0 <= i < a + 1 implies blank(#[trigger] s.subrange(0, a + 1)[i]) by {
            if i > 0 {
                assert(s.drop_first().subrange(0, a)[i - 1] == s[i]);
            }
        }
        a + 1
    } else {
        assert(s.skip(0) =~= s);
        0
    }
}

proof fn lemma_back_cut(s: Seq<char>) -> (b: int)
    ensures
        0 <= b <= s.len(),
        strings::trim_back(s, |c: char| strings::is_ows(c)) == s.take(b),
        blanks(s.skip(b)),
    decreases s.len(),
{
    if s.len() > 0 && strings::is_ows(s.last()) {
        let b = lemma_back_cut(s.drop_last());
        assert(s.drop_last().take(b) =~= s.take(b));
        assert forall|i: int| 0 <= i < s.len() - b implies blank(#[trigger] s.skip(b)[i]) by {
            if i < s.len() - b - 1 {
                assert(s.drop_last().skip(b)[i] == s[b + i]);
            }
        }
        b
    } else {
        assert(s.take(s.len() as int) =~= s);
        s.len() as int
    }
}

/// Whitespace around a text that neither begins nor ends with it is taken off,
/// and nothing else.
pub proof fn law_trimming_takes_whitespace_off(
    left: Seq<char>,
    body: Seq<char>,
    right: Seq<char>,
)
    requires
        forall|i: int| 0 <= i < left.len() ==> strings::is_space(#[trigger] left[i]),
        forall|i: int| 0 <= i < right.len() ==> strings::is_space(#[trigger] right[i]),
        body.len() > 0 ==> !strings::is_space(body[0]) && !strings::is_space(body.last()),
    ensures
        strings::trimmed(left + body + right) == body,
{
    let s = left + body + right;
    let f = |c: char| strings::is_space(c);
    if body.len() > 0 {
        strings::lemma_trim_range(s, f, left.len() as int, (left.len() + body.len()) as int);
        assert(s.subrange(left.len() as int, (left.len() + body.len()) as int) =~= body);
    } else {
        strings::lemma_trim_range(s, f, s.len() as int, s.len() as int);
        assert(s.subrange(s.len() as int, s.len() as int) =~= body);
    }
}

/// Among the ASCII characters, the space and those from tab to carriage return
/// are whitespace.
pub proof fn law_ascii_whitespace(c: char)
    requires
        (c as u32) < 128,
    ensures
        strings::is_space(c) <==> c == ' ' || 9 <= (c as u32) <= 13,
{
}

/// Whether a text stands in a list as an element: between two commas, or
/// between one and an end of the list, with nothing but blanks around it.
pub open spec fn element_in(list: Seq<char>, element: Seq<char>) -> bool {
    exists|i: int, a: int, b: int, j: int| #[trigger] element_at(list, element, i, a, b, j)
}

/// Whether an element stands from `a` to `b`, with the blanks around it from
/// `i` to `j`.
pub open spec fn element_at(
    list: Seq<char>,
    element: Seq<char>,
    i: int,
    a: int,
    b: int,
    j: int,
) -> bool {
    &&& 0 <= i <= a <= b <= j <= list.len()
    &&& i == 0 || list[i - 1] == ','
    &&& j == list.len() || list[j] == ','
    &&& blanks(list.subrange(i, a))
    &&& blanks(list.subrange(b, j))
    &&& list.subrange(a, b) == element
    &&& !element.contains(',')
    &&& element.len() > 0 ==> !blank(element[0]) && !blank(element.last())
}

/// A list holds an element exactly where it stands between commas.
pub proof fn law_elements_of_lists(list: Seq<char>, element: Seq<char>)
    ensures
        grammar::lists(list, element) <==> element_in(list, element),
{
    if grammar::lists(list, element) {
        let k = choose|k: int|
            0 <= k < grammar::elements(list).len() && grammar::elements(list)[k] == element;
        let part = strings::split_on(list, ',')[k];
        assert(grammar::elements(list)[k] == strings::trimmed_ows(part));
        let i = lemma_part_stands(list, k);
        let (a, b) = lemma_trim_cut(part);
        assert(list.subrange(i + a, i + b) =~= part.subrange(a, b));
        assert(list.subrange(i, i + a) =~= part.subrange(0, a));
        assert(list.subrange(i + b, (i + part.len()) as int) =~= part.subrange(
            b,
            part.len() as int,
        ));
        if element.contains(',') {
            let m = choose|m: int| 0 <= m < element.len() && element[m] == ',';
            assert(part[a + m] == ',');
        }
        lemma_trimmed_ends(part);
        assert(element_at(list, element, i, i + a, i + b, (i + part.len()) as int));
    }
    if element_in(list, element) {
        let (i, a, b, j) = choose|i: int, a: int, b: int, j: int| #[trigger]
            element_at(list, element, i, a, b, j);
        let part = list.subrange(i, j);
        assert forall|k: int| i <= k < j implies list[k] != ',' by {
            if k < a {
                assert(list.subrange(i, a)[k - i] == list[k]);
            } else if k < b {
                assert(element[k - a] == list[k]);
                assert(list[k] == ',' ==> element.contains(','));
            } else {
                assert(list.subrange(b, j)[k - b] == list[k]);
            }
        }
        let n = lemma_stands_part(list, i, j);
        assert(part =~= list.subrange(i, a) + element + list.subrange(b, j));
        law_trimming_takes_blanks_off(list.subrange(i, a), element, list.subrange(b, j));
        assert(grammar::elements(list)[n] == element);
    }
}

/// What trimming leaves neither begins nor ends with a blank.
proof fn lemma_trimmed_ends(s: Seq<char>)
    ensures
        ({
            let t = strings::trimmed_ows(s);
            t.len() > 0 ==> !blank(t[0]) && !blank(t.last())
        }),
{
    let f = |c: char| strings::is_ows(c);
    let front = strings::trim_front(s, f);
    lemma_front_end(s);
    lemma_back_end(front);
}

proof fn lemma_front_end(s: Seq<char>)
    ensures
        ({
            let t = strings::trim_front(s, |c: char| strings::is_ows(c));
            t.len() > 0 ==> !blank(t[0])
        }),
    decreases s.len(),
{
    if s.len() > 0 && strings::is_ows(s[0]) {
        lemma_front_end(s.drop_first());
    }
}

proof fn lemma_back_end(s: Seq<char>)
    ensures
        ({
            let t = strings::trim_back(s, |c: char| strings::is_ows(c));
            &&& t.len() > 0 ==> t[0] == s[0] && !blank(t.last())
        }),
    decreases s.len(),
{
    if s.len() > 0 && strings::is_ows(s.last()) {
        lemma_back_end(s.drop_last());
    }
}

/// The characters that Unicode calls whitespace.
pub proof fn law_whitespace(c: char)
    ensures
        strings::is_space(c) <==> {
            ||| '\u{9}' <= c <= '\u{d}'
            ||| c == ' '
            ||| c == '\u{85}'
            ||| c == '\u{a0}'
            ||| c == '\u{1680}'
            ||| '\u{2000}' <= c <= '\u{200a}'
            ||| c == '\u{2028}'
            ||| c == '\u{2029}'
            ||| c == '\u{202f}'
            ||| c == '\u{205f}'
            ||| c == '\u{3000}'
        },
{
}

} // verus!
