//! What the grammar of header fields promises: which characters, elements and
//! lists it takes.
use crate::grammar;
use crate::strings;
use crate::text_laws;
use vstd::prelude::*;

verus! {

/// The characters of a token are those that are visible in ASCII, without the
/// delimiters.
pub proof fn law_token_characters(c: char)
    ensures
        grammar::token_char(c) <==> '!' <= c && c <= '~' && !(c == '"' || c == '(' || c == ')' || c
            == ',' || c == '/' || c == ':' || c == ';' || c == '<' || c == '=' || c == '>' || c
            == '?' || c == '@' || c == '[' || c == '\\' || c == ']' || c == '{' || c == '}'),
{
}

/// A token is one such character or more, and nothing else.
pub proof fn law_tokens(s: Seq<char>, c: char)
    ensures
        !grammar::token(Seq::empty()),
        grammar::token(seq![c]) <==> grammar::token_char(c),
        s.len() > 0 ==> (grammar::token(s.push(c)) <==> grammar::token(s) && grammar::token_char(c)),
{
    assert(seq![c][0] == c);
    if s.len() > 0 {
        let t = s.push(c);
        assert(t[s.len() as int] == c);
        if grammar::token(t) {
            assert forall|i: int| 0 <= i < s.len() implies grammar::token_char(#[trigger] s[i]) by {
                assert(s[i] == t[i]);
            }
        }
        if grammar::token(s) && grammar::token_char(c) {
            assert forall|i: int| 0 <= i < t.len() implies grammar::token_char(#[trigger] t[i]) by {
                if i < s.len() {
                    assert(t[i] == s[i]);
                }
            }
        }
    }
}

/// A header value holds anything but control characters, of which it may hold
/// tabs; a request target holds no space either.
pub proof fn law_value_characters(s: Seq<char>, c: char)
    ensures
        grammar::header_value(Seq::empty()),
        grammar::header_value(s.push(c)) <==> grammar::header_value(s) && (c as u32 == 9 || (
        c as u32 >= 32 && c as u32 != 127)),
        grammar::request_target(Seq::empty()),
        grammar::request_target(s.push(c)) <==> grammar::request_target(s) && c as u32 > 32
            && c as u32 != 127,
{
    let t = s.push(c);
    assert(t[s.len() as int] == c);
    assert forall|i: int| 0 <= i < s.len() implies #[trigger] s[i] == t[i] by {}
    if grammar::header_value(t) {
        assert(grammar::value_char(t[s.len() as int]));
        assert forall|i: int| 0 <= i < s.len() implies grammar::value_char(#[trigger] s[i]) by {
            assert(grammar::value_char(t[i]));
        }
    }
    if grammar::request_target(t) {
        assert forall|i: int| 0 <= i < s.len() implies (#[trigger] s[i]) > ' ' && s[i]
            != '\u{7f}' by {
            assert(t[i] > ' ');
        }
    }
}

/// An element of a list, with the blanks around it.
pub open spec fn padded(left: Seq<char>, element: Seq<char>, right: Seq<char>) -> bool {
    &&& text_laws::blanks(left)
    &&& text_laws::blanks(right)
    &&& !element.contains(',')
    &&& element.len() > 0 ==> !text_laws::blank(element[0]) && !text_laws::blank(element.last())
}

proof fn lemma_one_element(left: Seq<char>, element: Seq<char>, right: Seq<char>)
    requires
        padded(left, element, right),
    ensures
        grammar::elements(left + element + right) == seq![element],
{
    let whole = left + element + right;
    assert(!whole.contains(',')) by {
        if whole.contains(',') {
            let i = choose|i: int| 0 <= i < whole.len() && whole[i] == ',';
            if i < left.len() {
                assert(left[i] == ',');
            } else if i < left.len() + element.len() {
                assert(element[i - left.len()] == ',');
                assert(element.contains(','));
            } else {
                assert(right[i - left.len() - element.len()] == ',');
            }
        }
    }
    text_laws::law_splitting_concatenates(whole, ',', Seq::empty());
    text_laws::law_trimming_takes_blanks_off(left, element, right);
    assert(grammar::elements(whole) =~= seq![element]);
}

proof fn lemma_elements_concat(a: Seq<char>, b: Seq<char>)
    ensures
        grammar::elements(a + seq![','] + b) == grammar::elements(a) + grammar::elements(b),
{
    text_laws::law_splitting_concatenates(a, ',', b);
    assert(grammar::elements(a + seq![','] + b) =~= grammar::elements(a) + grammar::elements(b));
}

/// The elements of a list are those of its parts in order, and one that stands
/// alone is what is left of it without blanks.
pub proof fn law_elements_in_order(
    a: Seq<char>,
    b: Seq<char>,
    left: Seq<char>,
    element: Seq<char>,
    right: Seq<char>,
)
    requires
        padded(left, element, right),
    ensures
        grammar::elements(a + seq![','] + b) == grammar::elements(a) + grammar::elements(b),
        grammar::elements(left + element + right) == seq![element],
{
    lemma_elements_concat(a, b);
    lemma_one_element(left, element, right);
}

/// A list of subprotocols that is one stays one with another token at its end,
/// unless that stands in it already; anything else that is not empty spoils it,
/// and what is spoilt stays so.
pub proof fn law_protocol_lists(
    list: Seq<char>,
    left: Seq<char>,
    element: Seq<char>,
    right: Seq<char>,
)
    requires
        padded(left, element, right),
    ensures
        grammar::protocol_list(left + element + right) <==> grammar::token(element),
        ({
            let more = list + seq![','] + (left + element + right);
            &&& element.len() == 0 ==> (grammar::protocol_list(more) <==> grammar::protocol_list(
                list,
            ))
            &&& element.len() > 0 && !grammar::token(element) ==> !grammar::protocol_list(more)
            &&& element.len() > 0 && text_laws::element_in(list, element)
                ==> !grammar::protocol_list(more)
            &&& grammar::protocol_list(list) && grammar::token(element) && !text_laws::element_in(
                list,
                element,
            ) ==> grammar::protocol_list(more)
            &&& grammar::lists_something(list) && !grammar::protocol_list(list)
                ==> !grammar::protocol_list(more)
        }),
{
    lemma_one_element(left, element, right);
    lemma_elements_concat(list, left + element + right);
    text_laws::law_elements_of_lists(list, element);
    let one = left + element + right;
    let more = list + seq![','] + one;
    let e = grammar::elements(list);
    let f = grammar::elements(more);
    let n = e.len() as int;
    assert(f =~= e.push(element));
    assert(grammar::elements(one)[0] == element);
    assert(f[n] == element);
    assert forall|i: int| 0 <= i < n implies #[trigger] e[i] == f[i] by {}
    // What stands alone
    if grammar::token(element) {
        assert(grammar::lists_something(one));
    }
    if grammar::protocol_list(one) {
        let i = choose|i: int|
            0 <= i < grammar::elements(one).len() && (#[trigger] grammar::elements(one)[i]).len()
                > 0;
        assert(grammar::token(grammar::elements(one)[i]));
    }
    // What is added
    if grammar::lists(list, element) && element.len() > 0 {
        let i = choose|i: int| 0 <= i < e.len() && e[i] == element;
        assert(f[i] == element && f[n] == element);
        if grammar::protocol_list(more) {
            assert(f[i].len() > 0 && f[i] != f[n]);
        }
    }
    if grammar::protocol_list(more) && element.len() > 0 {
        assert(grammar::token(f[n]));
    }
    if grammar::protocol_list(list) && (element.len() == 0 || (grammar::token(element)
        && !grammar::lists(list, element))) {
        let k = choose|k: int| 0 <= k < e.len() && (#[trigger] e[k]).len() > 0;
        assert(f[k].len() > 0);
        assert forall|i: int| 0 <= i < f.len() && (#[trigger] f[i]).len() > 0 implies grammar::token(
            f[i],
        ) by {
            if i < n {
                assert(e[i] == f[i]);
            }
        }
        assert forall|i: int, j: int|
            0 <= i < j < f.len() && (#[trigger] f[i]).len() > 0 implies f[i]
            != #[trigger] f[j] by {
            assert(e[i] == f[i]);
            if j < n {
                assert(e[j] == f[j]);
            } else if f[i] == f[j] {
                assert(e.contains(element));
            }
        }
        assert(grammar::protocol_list(more));
    }
    if grammar::protocol_list(more) && grammar::lists_something(list) {
        assert forall|i: int| 0 <= i < e.len() && (#[trigger] e[i]).len() > 0 implies grammar::token(
            e[i],
        ) by {
            assert(grammar::token(f[i]));
        }
        assert forall|i: int, j: int|
            0 <= i < j < e.len() && (#[trigger] e[i]).len() > 0 implies e[i]
            != #[trigger] e[j] by {
            assert(f[i] != f[j]);
        }
        assert(grammar::protocol_list(list));
    }
    if grammar::protocol_list(more) && element.len() == 0 {
        let k = choose|k: int| 0 <= k < f.len() && (#[trigger] f[k]).len() > 0;
        assert(e[k].len() > 0);
        assert(grammar::lists_something(list));
    }
}

/// Two lists of extensions are one list together exactly where each is one; an
/// element that stands alone is one where it is an extension.
pub proof fn law_extension_lists(
    a: Seq<char>,
    b: Seq<char>,
    left: Seq<char>,
    element: Seq<char>,
    right: Seq<char>,
)
    requires
        padded(left, element, right),
        grammar::lists_something(a),
        grammar::lists_something(b),
    ensures
        grammar::extension_list(a + seq![','] + b) <==> grammar::extension_list(a)
            && grammar::extension_list(b),
        grammar::extension_list(left + element + right) <==> element.len() > 0 && grammar::extension(
            element,
        ),
{
    lemma_one_element(left, element, right);
    lemma_elements_concat(a, b);
    let one = left + element + right;
    let e = grammar::elements(a);
    let f = grammar::elements(b);
    let all = grammar::elements(a + seq![','] + b);
    let n = e.len() as int;
    assert forall|i: int| 0 <= i < n implies #[trigger] e[i] == all[i] by {}
    assert forall|i: int| 0 <= i < f.len() implies #[trigger] f[i] == all[n + i] by {}
    assert(grammar::elements(one)[0] == element);
    let k = choose|k: int| 0 <= k < e.len() && (#[trigger] e[k]).len() > 0;
    assert(all[k].len() > 0);
    if grammar::extension_list(a + seq![','] + b) {
        assert forall|i: int| 0 <= i < e.len() && (#[trigger] e[i]).len()
            > 0 implies grammar::extension(e[i]) by {
            assert(grammar::extension(all[i]));
        }
        assert forall|i: int| 0 <= i < f.len() && (#[trigger] f[i]).len()
            > 0 implies grammar::extension(f[i]) by {
            assert(grammar::extension(all[n + i]));
        }
    }
    if grammar::extension_list(a) && grammar::extension_list(b) {
        assert forall|i: int| 0 <= i < all.len() && (#[trigger] all[i]).len()
            > 0 implies grammar::extension(all[i]) by {
            if i < n {
                assert(e[i] == all[i]);
            } else {
                assert(f[i - n] == all[i]);
            }
        }
    }
    if grammar::extension_list(one) {
        let i = choose|i: int|
            0 <= i < grammar::elements(one).len() && (#[trigger] grammar::elements(one)[i]).len()
                > 0;
        assert(grammar::extension(grammar::elements(one)[i]));
    }
}

/// An extension is a token, and stays an extension with a parameter behind a
/// semicolon exactly where that is a parameter.
pub proof fn law_extensions(
    e: Seq<char>,
    left: Seq<char>,
    param: Seq<char>,
    right: Seq<char>,
)
    requires
        text_laws::blanks(left),
        text_laws::blanks(right),
        param.len() > 0 ==> !text_laws::blank(param[0]) && !text_laws::blank(param.last()),
        !param.contains(';'),
    ensures
        grammar::extension(left + param + right) <==> grammar::token(param),
        grammar::extension(e + seq![';'] + (left + param + right)) <==> grammar::extension(e)
            && grammar::extension_param(param),
{
    let one = left + param + right;
    assert(!one.contains(';')) by {
        if one.contains(';') {
            let i = choose|i: int| 0 <= i < one.len() && one[i] == ';';
            if i < left.len() {
                assert(left[i] == ';');
            } else if i < left.len() + param.len() {
                assert(param[i - left.len()] == ';');
                assert(param.contains(';'));
            } else {
                assert(right[i - left.len() - param.len()] == ';');
            }
        }
    }
    text_laws::law_trimming_takes_blanks_off(left, param, right);
    text_laws::law_splitting_concatenates(one, ';', one);
    text_laws::law_splitting_concatenates(e, ';', one);
    let parts = strings::split_on(e, ';');
    let more = strings::split_on(e + seq![';'] + one, ';');
    assert(strings::split_on(one, ';') =~= seq![one]);
    assert(more =~= parts.push(one));
    let n = parts.len() as int;
    lemma_some_part(e);
    assert(more[0] == parts[0]);
    assert(more[n] == one);
    if grammar::extension(e) && grammar::extension_param(param) {
        assert forall|i: int| 1 <= i < more.len() implies grammar::extension_param(
            strings::trimmed_ows(#[trigger] more[i]),
        ) by {
            if i < n {
                assert(more[i] == parts[i]);
            }
        }
    }
    if grammar::extension(e + seq![';'] + one) {
        assert(grammar::extension_param(strings::trimmed_ows(more[n])));
        assert forall|i: int| 1 <= i < parts.len() implies grammar::extension_param(
            strings::trimmed_ows(#[trigger] parts[i]),
        ) by {
            assert(more[i] == parts[i]);
        }
    }
}

proof fn lemma_some_part(e: Seq<char>)
    ensures
        strings::split_on(e, ';').len() > 0,
{
}

/// A parameter is a token, or a token with a value behind an equals sign: a
/// token again, or one in quotes. Blanks around the sign do not count.
pub proof fn law_extension_parameters(
    name: Seq<char>,
    between: Seq<char>,
    value: Seq<char>,
)
    requires
        text_laws::blanks(between),
        !name.contains('='),
        name.len() > 0,
        !text_laws::blank(name[0]) && !text_laws::blank(name.last()),
        value.len() > 0,
        !text_laws::blank(value[0]) && !text_laws::blank(value.last()),
    ensures
        grammar::extension_param(name) <==> grammar::token(name),
        grammar::extension_param(name + between + seq!['='] + between + value) <==> grammar::token(
            name,
        ) && grammar::extension_value(value),
        grammar::token(value) ==> grammar::extension_value(value) && grammar::extension_value(
            seq!['"'] + value + seq!['"'],
        ),
{
    strings::lemma_prefix_len(name, '=', Seq::empty());
    let front = name + between;
    assert(!front.contains('=')) by {
        if front.contains('=') {
            let i = choose|i: int| 0 <= i < front.len() && front[i] == '=';
            if i < name.len() {
                assert(name[i] == '=');
                assert(name.contains('='));
            } else {
                assert(between[i - name.len()] == '=');
            }
        }
    }
    let body = name + between + seq!['='] + between + value;
    let n = front.len() as int;
    assert(body =~= front + seq!['='] + (between + value));
    strings::lemma_prefix_len(front, '=', between + value);
    assert(body.take(n) =~= Seq::<char>::empty() + name + between);
    assert(body.skip(n + 1) =~= between + value + Seq::<char>::empty());
    text_laws::law_trimming_takes_blanks_off(Seq::empty(), name, between);
    text_laws::law_trimming_takes_blanks_off(between, value, Seq::empty());
    if grammar::token(value) {
        let quoted = seq!['"'] + value + seq!['"'];
        assert(quoted.subrange(1, quoted.len() - 1) =~= value);
        lemma_token_is_quotable(value);
    }
}

proof fn lemma_token_is_quotable(s: Seq<char>)
    requires
        forall|i: int| 0 <= i < s.len() ==> grammar::token_char(#[trigger] s[i]),
    ensures
        grammar::quoted_token(s),
    decreases s.len(),
{
    if s.len() > 0 {
        assert(grammar::token_char(s[0]));
        let t = s.skip(1);
        assert forall|i: int| 0 <= i < t.len() implies grammar::token_char(#[trigger] t[i]) by {
            assert(t[i] == s[i + 1]);
        }
        lemma_token_is_quotable(t);
    }
}

/// A content length says that there is no body where each of its elements is
/// made of zeros, at least one.
pub proof fn law_zero_lengths(
    a: Seq<char>,
    b: Seq<char>,
    left: Seq<char>,
    element: Seq<char>,
    right: Seq<char>,
)
    requires
        padded(left, element, right),
    ensures
        grammar::zero_length(a + seq![','] + b) <==> grammar::zero_length(a) && grammar::zero_length(
            b,
        ),
        grammar::zero_length(left + element + right) <==> element.len() > 0 && forall|i: int|
            0 <= i < element.len() ==> #[trigger] element[i] == '0',
{
    lemma_one_element(left, element, right);
    lemma_elements_concat(a, b);
    let one = left + element + right;
    let e = grammar::elements(a);
    let f = grammar::elements(b);
    let all = grammar::elements(a + seq![','] + b);
    let n = e.len() as int;
    assert(grammar::elements(one)[0] == element);
    if grammar::zero_length(a + seq![','] + b) {
        assert forall|i: int| 0 <= i < e.len() implies grammar::all_zeros(#[trigger] e[i]) by {
            assert(grammar::all_zeros(all[i]));
        }
        assert forall|i: int| 0 <= i < f.len() implies grammar::all_zeros(#[trigger] f[i]) by {
            assert(grammar::all_zeros(all[n + i]));
        }
    }
    if grammar::zero_length(a) && grammar::zero_length(b) {
        assert forall|i: int| 0 <= i < all.len() implies grammar::all_zeros(#[trigger] all[i]) by {
            if i < n {
                assert(e[i] == all[i]);
            } else {
                assert(f[i - n] == all[i]);
            }
        }
    }
    if grammar::zero_length(one) {
        assert(grammar::all_zeros(grammar::elements(one)[0]));
    }
    if element.len() > 0 && forall|i: int| 0 <= i < element.len() ==> #[trigger] element[i] == '0' {
        assert(grammar::all_zeros(element));
    }
}

/// A list holds something where some character of it is neither a blank nor a
/// comma.
pub proof fn law_lists_of_something(s: Seq<char>)
    ensures
        grammar::lists_something(s) <==> exists|i: int|
            0 <= i < s.len() && #[trigger] s[i] != ',' && !text_laws::blank(s[i]),
{
    if grammar::lists_something(s) {
        let k = choose|k: int|
            0 <= k < grammar::elements(s).len() && (#[trigger] grammar::elements(s)[k]).len() > 0;
        let part = strings::split_on(s, ',')[k];
        let i = text_laws::lemma_part_stands(s, k);
        let (a, b) = text_laws::lemma_trim_cut(part);
        assert(grammar::elements(s)[k] == strings::trimmed_ows(part));
        let e = grammar::elements(s)[k];
        text_laws::law_elements_of_lists(s, e);
        assert(grammar::elements(s).contains(e));
        let (i1, a1, b1, j1) = choose|i1: int, a1: int, b1: int, j1: int| #[trigger]
            text_laws::element_at(s, e, i1, a1, b1, j1);
        assert(s[a1] == e[0]);
        assert(e[0] != ',') by {
            if e[0] == ',' {
                assert(e.contains(','));
            }
        }
        assert(s[a1] != ',' && !text_laws::blank(s[a1]));
    }
    if exists|i: int| 0 <= i < s.len() && #[trigger] s[i] != ',' && !text_laws::blank(s[i]) {
        let m = choose|i: int| 0 <= i < s.len() && #[trigger] s[i] != ',' && !text_laws::blank(s[i]);
        lemma_something(s, m);
    }
}

proof fn lemma_something(s: Seq<char>, m: int)
    requires
        0 <= m < s.len(),
        s[m] != ',',
        !text_laws::blank(s[m]),
    ensures
        grammar::lists_something(s),
    decreases s.len(),
{
    let n = strings::prefix_len(s, ',') as int;
    text_laws::lemma_prefix(s, ',');
    let parts = strings::split_on(s, ',');
    if n >= s.len() || m < n {
        let part = parts[0];
        assert(part[m] == s[m]);
        let (a, b) = text_laws::lemma_trim_cut(part);
        if m < a {
            assert(text_laws::blank(part.subrange(0, a)[m]));
        }
        if m >= b {
            assert(text_laws::blank(part.subrange(b, part.len() as int)[m - b]));
        }
        assert(grammar::elements(s)[0] == strings::trimmed_ows(part));
        assert(grammar::elements(s)[0].len() > 0);
    } else {
        let rest = s.skip(n + 1);
        lemma_something(rest, m - n - 1);
        let k = choose|k: int|
            0 <= k < grammar::elements(rest).len() && (#[trigger] grammar::elements(rest)[k]).len()
                > 0;
        assert(parts[k + 1] == strings::split_on(rest, ',')[k]);
        assert(grammar::elements(s)[k + 1] == grammar::elements(rest)[k]);
    }
}

} // verus!
