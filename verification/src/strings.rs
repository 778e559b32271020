//! Text as sequences of characters: splitting, trimming and comparing.
use vstd::prelude::*;
use vstd::string::StrSliceExecFns;
use vstd::string::StringSliceAdditionalSpecFns;
use vstd::utf8::*;

verus! {

/// The parts of `s` between the occurrences of `sep`.
pub open spec fn split_on(s: Seq<char>, sep: char) -> Seq<Seq<char>>
    decreases s.len(),
{
    let n = prefix_len(s, sep);
    if n >= s.len() {
        seq![s]
    } else {
        seq![s.take(n as int)] + split_on(s.skip(n as int + 1), sep)
    }
}

/// The number of characters before the first `sep`, or all of them.
pub open spec fn prefix_len(s: Seq<char>, sep: char) -> nat
    decreases s.len(),
{
    if s.len() == 0 || s[0] == sep {
        0
    } else {
        1 + prefix_len(s.drop_first(), sep)
    }
}

/// Space and horizontal tab: the optional whitespace of HTTP.
pub open spec fn is_ows(c: char) -> bool {
    c == ' ' || c == '\t'
}

/// The characters with the Unicode property `White_Space`.
pub open spec fn is_space(c: char) -> bool {
    let n = c as u32;
    ||| 0x09 <= n <= 0x0D
    ||| n == 0x20
    ||| n == 0x85
    ||| n == 0xA0
    ||| n == 0x1680
    ||| 0x2000 <= n <= 0x200A
    ||| n == 0x2028
    ||| n == 0x2029
    ||| n == 0x202F
    ||| n == 0x205F
    ||| n == 0x3000
}

/// `s` without the characters at its start that `blank` accepts.
pub open spec fn trim_front(s: Seq<char>, blank: spec_fn(char) -> bool) -> Seq<char>
    decreases s.len(),
{
    if s.len() > 0 && blank(s[0]) {
        trim_front(s.drop_first(), blank)
    } else {
        s
    }
}

/// `s` without the characters at its end that `blank` accepts.
pub open spec fn trim_back(s: Seq<char>, blank: spec_fn(char) -> bool) -> Seq<char>
    decreases s.len(),
{
    if s.len() > 0 && blank(s.last()) {
        trim_back(s.drop_last(), blank)
    } else {
        s
    }
}

/// `s` without optional whitespace at its ends.
pub open spec fn trimmed_ows(s: Seq<char>) -> Seq<char> {
    trim_back(trim_front(s, |c: char| is_ows(c)), |c: char| is_ows(c))
}

/// `s` without whitespace at its ends.
pub open spec fn trimmed(s: Seq<char>) -> Seq<char> {
    trim_back(trim_front(s, |c: char| is_space(c)), |c: char| is_space(c))
}

/// The lower-case letter for an ASCII upper-case letter; other characters as they are.
pub open spec fn lower(c: char) -> char {
    if 'A' <= c <= 'Z' {
        ((c as u32) + 32) as char
    } else {
        c
    }
}

/// `s` in ASCII lower case.
pub open spec fn lowered(s: Seq<char>) -> Seq<char> {
    s.map_values(|c: char| lower(c))
}

/// The views of string slices.
pub open spec fn views(s: Seq<&str>) -> Seq<Seq<char>> {
    s.map_values(|t: &str| t@)
}

/// The characters of a string.
pub fn chars_of(s: &str) -> (r: Vec<char>)
    ensures
        r@ == s@,
{
    let mut r: Vec<char> = Vec::new();
    for c in it: s.chars()
        invariant
            r@ == it.seq().take(it.index() as int),
            it.seq() == s@,
    {
        proof {
            assert(it.seq().take(it.index() as int).push(c) =~= it.seq().take(
                it.index() as int + 1,
            ));
        }
        r.push(c);
    }
    assert(r@ =~= s@);
    r
}

/// The encoding of a concatenation is that of its parts.
pub proof fn lemma_encode_concat(a: Seq<char>, b: Seq<char>)
    ensures
        encode_utf8(a + b) == encode_utf8(a) + encode_utf8(b),
    decreases a.len(),
{
    if a.len() == 0 {
        assert(a + b =~= b);
    } else {
        assert((a + b).drop_first() =~= a.drop_first() + b);
        lemma_encode_concat(a.drop_first(), b);
    }
    assert(encode_utf8(a + b) =~= encode_utf8(a) + encode_utf8(b));
}

/// An ASCII character stands in the encoding as its own byte.
proof fn lemma_encode_ascii(c: char)
    requires
        c <= '\u{7f}',
    ensures
        encode_utf8(seq![c]) == seq![c as u8],
{
    assert(is_ascii_chars(seq![c]));
    is_ascii_chars_encode_utf8(seq![c]);
    assert(encode_utf8(seq![c]) =~= seq![c as u8]);
}

proof fn lemma_encode_contains(s: Seq<char>, i: int)
    requires
        0 <= i < s.len(),
        s[i] <= '\u{7f}',
    ensures
        encode_utf8(s).contains(s[i] as u8),
{
    let a = s.take(i);
    let b = s.skip(i + 1);
    assert(s =~= a + seq![s[i]] + b);
    lemma_encode_concat(a + seq![s[i]], b);
    lemma_encode_concat(a, seq![s[i]]);
    lemma_encode_ascii(s[i]);
    assert(encode_utf8(s)[encode_utf8(a).len() as int] == s[i] as u8);
}

/// Two strings with the same bytes are the same.
pub proof fn lemma_same_bytes(a: Seq<char>, b: Seq<char>)
    requires
        encode_utf8(a) == encode_utf8(b),
    ensures
        a == b,
{
    encode_utf8_decode_utf8(a);
    encode_utf8_decode_utf8(b);
}

proof fn lemma_next_is_boundary(bytes: Seq<u8>, i: int)
    requires
        valid_utf8(bytes),
        0 <= i < bytes.len(),
        bytes[i] <= 0x7f,
    ensures
        is_char_boundary(bytes, i),
        is_char_boundary(bytes, i + 1),
{
    is_char_boundary_iff_not_is_continuation_byte(bytes, i);
    is_char_boundary_start_end_of_seq(bytes);
    if i + 1 < bytes.len() {
        let tail = bytes.subrange(i, bytes.len() as int);
        valid_utf8_split(bytes, i);
        assert(tail[0] == bytes[i]);
        assert(length_of_first_scalar(tail) == 1);
        let rest = pop_first_scalar(tail);
        assert(valid_utf8(rest));
        assert(rest[0] == bytes[i + 1]);
        is_char_boundary_start_end_of_seq(rest);
        is_char_boundary_iff_not_is_continuation_byte(rest, 0);
        is_char_boundary_iff_not_is_continuation_byte(bytes, i + 1);
    }
}

/// Whether a character is ASCII.
pub open spec fn ascii(c: char) -> bool {
    c <= '\u{7f}'
}

/// Cuts a string at the first occurrence of an ASCII character.
pub fn split_once<'a>(s: &'a str, sep: char) -> (r: Option<(&'a str, &'a str)>)
    requires
        ascii(sep),
    ensures
        match r {
            None => !s@.contains(sep),
            Some((a, b)) => s@ == a@ + seq![sep] + b@ && !a@.contains(sep),
        },
{
    let byte: u8 = sep as u8;
    let bytes = s.as_bytes();
    let mut i: usize = 0;
    while i < bytes.len()
        invariant
            i <= bytes@.len(),
            bytes@ == s.spec_bytes(),
            byte == sep as u8,
            ascii(sep),
            forall|j: int| 0 <= j < i ==> bytes@[j] != byte,
        decreases bytes@.len() - i,
    {
        if bytes[i] == byte {
            proof {
                encode_utf8_valid_utf8(s@);
                lemma_next_is_boundary(bytes@, i as int);
            }
            let (a, _rest) = s.split_at(i);
            let (upto, b) = s.split_at(i + 1);
            proof {
                let whole = s.spec_bytes();
                assert(a.spec_bytes() + seq![byte] =~= upto.spec_bytes());
                assert(whole =~= upto.spec_bytes() + b.spec_bytes());
                lemma_encode_ascii(sep);
                lemma_encode_concat(a@, seq![sep]);
                lemma_encode_concat(a@ + seq![sep], b@);
                lemma_same_bytes(s@, a@ + seq![sep] + b@);
                if a@.contains(sep) {
                    let k = choose|k: int| 0 <= k < a@.len() && a@[k] == sep;
                    lemma_encode_contains(a@, k);
                    let j = choose|j: int|
                        0 <= j < a.spec_bytes().len() && a.spec_bytes()[j] == byte;
                    assert(bytes@[j] == byte);
                }
            }
            return Some((a, b));
        }
        i = i + 1;
    }
    proof {
        if s@.contains(sep) {
            let k = choose|k: int| 0 <= k < s@.len() && s@[k] == sep;
            lemma_encode_contains(s@, k);
            let j = choose|j: int| 0 <= j < s.spec_bytes().len() && s.spec_bytes()[j] == byte;
            assert(bytes@[j] == byte);
        }
    }
    None
}

/// The characters before the first `sep` of a string cut there.
pub proof fn lemma_prefix_len(a: Seq<char>, sep: char, b: Seq<char>)
    requires
        !a.contains(sep),
    ensures
        prefix_len(a + seq![sep] + b, sep) == a.len(),
        prefix_len(a, sep) == a.len(),
    decreases a.len(),
{
    if a.len() == 0 {
        assert((a + seq![sep] + b)[0] == sep);
    } else {
        assert(a[0] != sep);
        let t = a.drop_first();
        assert forall|k: int| 0 <= k < t.len() implies t[k] != sep by {
            assert(t[k] == a[k + 1]);
        }
        assert((a + seq![sep] + b).drop_first() =~= t + seq![sep] + b);
        lemma_prefix_len(t, sep, b);
    }
}

/// Splits a string at every occurrence of an ASCII character.
pub fn split_all<'a>(s: &'a str, sep: char) -> (r: Vec<&'a str>)
    requires
        ascii(sep),
    ensures
        views(r@) == split_on(s@, sep),
        r@.len() >= 1,
{
    let mut r: Vec<&'a str> = Vec::new();
    let mut rest: &'a str = s;
    proof {
        assert(views(r@) + split_on(rest@, sep) =~= split_on(s@, sep));
    }
    loop
        invariant
            ascii(sep),
            views(r@) + split_on(rest@, sep) == split_on(s@, sep),
        decreases rest@.len(),
    {
        match split_once(rest, sep) {
            Some((a, b)) => {
                proof {
                    lemma_prefix_len(a@, sep, b@);
                    assert(rest@.take(a@.len() as int) =~= a@);
                    assert(rest@.skip(a@.len() as int + 1) =~= b@);
                    assert(views(r@.push(a)) + split_on(b@, sep) =~= views(r@) + (seq![a@]
                        + split_on(b@, sep)));
                }
                r.push(a);
                rest = b;
            },
            None => {
                proof {
                    lemma_prefix_len(rest@, sep, Seq::empty());
                    assert(views(r@.push(rest)) =~= views(r@) + seq![rest@]);
                }
                r.push(rest);
                return r;
            },
        }
    }
}

/// Whether a character has the Unicode property `White_Space`.
pub(crate) fn space_char(c: char) -> (r: bool)
    ensures
        r == is_space(c),
{
    let n: u32 = c as u32;
    (0x09 <= n && n <= 0x0D) || n == 0x20 || n == 0x85 || n == 0xA0 || n == 0x1680 || (0x2000 <= n
        && n <= 0x200A) || n == 0x2028 || n == 0x2029 || n == 0x202F || n == 0x205F || n == 0x3000
}

/// What trimming leaves lies between the first and the last character that
/// is not blank.
pub proof fn lemma_trim_range(s: Seq<char>, blank: spec_fn(char) -> bool, from: int, to: int)
    requires
        0 <= from <= to <= s.len(),
        forall|i: int| 0 <= i < from ==> blank(#[trigger] s[i]),
        from < s.len() ==> from < to,
        from < s.len() ==> !blank(s[from]),
        forall|i: int| to <= i < s.len() ==> blank(#[trigger] s[i]),
        from < to ==> !blank(s[to - 1]),
    ensures
        trim_back(trim_front(s, blank), blank) == s.subrange(from, to),
{
    lemma_trim_front(s, blank, from);
    let t = s.skip(from);
    assert forall|i: int| to - from <= i < t.len() implies blank(#[trigger] t[i]) by {
        assert(t[i] == s[i + from]);
    }
    if from < to {
        assert(t[to - from - 1] == s[to - 1]);
    }
    lemma_trim_back(t, blank, to - from);
    assert(t.take(to - from) =~= s.subrange(from, to));
}

proof fn lemma_trim_front(s: Seq<char>, blank: spec_fn(char) -> bool, from: int)
    requires
        0 <= from <= s.len(),
        forall|i: int| 0 <= i < from ==> blank(#[trigger] s[i]),
        from < s.len() ==> !blank(s[from]),
    ensures
        trim_front(s, blank) == s.skip(from),
    decreases from,
{
    if from == 0 {
        assert(s.skip(0) =~= s);
    } else {
        let t = s.drop_first();
        assert forall|i: int| 0 <= i < from - 1 implies blank(#[trigger] t[i]) by {
            assert(t[i] == s[i + 1]);
        }
        lemma_trim_front(t, blank, from - 1);
        assert(t.skip(from - 1) =~= s.skip(from));
    }
}

proof fn lemma_trim_back(s: Seq<char>, blank: spec_fn(char) -> bool, to: int)
    requires
        0 <= to <= s.len(),
        forall|i: int| to <= i < s.len() ==> blank(#[trigger] s[i]),
        to > 0 ==> !blank(s[to - 1]),
    ensures
        trim_back(s, blank) == s.take(to),
    decreases s.len(),
{
    if to == s.len() {
        assert(s.take(to) =~= s);
    } else {
        let t = s.drop_last();
        lemma_trim_back(t, blank, to);
        assert(t.take(to) =~= s.take(to));
    }
}

/// The string without whitespace at its ends.
pub fn trim<'a>(s: &'a str) -> (r: &'a str)
    ensures
        r@ == trimmed(s@),
{
    let chars = chars_of(s);
    let ghost blank = |c: char| is_space(c);
    let mut from: usize = 0;
    while from < chars.len() && space_char(chars[from])
        invariant
            from <= chars@.len(),
            forall|i: int| 0 <= i < from ==> is_space(#[trigger] chars@[i]),
        decreases chars@.len() - from,
    {
        from = from + 1;
    }
    let mut to: usize = chars.len();
    while to > from && space_char(chars[to - 1])
        invariant
            from <= to <= chars@.len(),
            forall|i: int| to <= i < chars@.len() ==> is_space(#[trigger] chars@[i]),
            from < chars@.len() ==> !is_space(chars@[from as int]),
        decreases to,
    {
        to = to - 1;
    }
    proof {
        if from < chars@.len() && to == from {
            assert(is_space(chars@[from as int]));
        }
        lemma_trim_range(s@, blank, from as int, to as int);
    }
    s.substring_char(from, to)
}

/// The string without optional whitespace at its ends.
pub fn trim_ows<'a>(s: &'a str) -> (r: &'a str)
    ensures
        r@ == trimmed_ows(s@),
{
    let chars = chars_of(s);
    let ghost blank = |c: char| is_ows(c);
    let mut from: usize = 0;
    while from < chars.len() && (chars[from] == ' ' || chars[from] == '\t')
        invariant
            from <= chars@.len(),
            forall|i: int| 0 <= i < from ==> is_ows(#[trigger] chars@[i]),
        decreases chars@.len() - from,
    {
        from = from + 1;
    }
    let mut to: usize = chars.len();
    while to > from && (chars[to - 1] == ' ' || chars[to - 1] == '\t')
        invariant
            from <= to <= chars@.len(),
            forall|i: int| to <= i < chars@.len() ==> is_ows(#[trigger] chars@[i]),
            from < chars@.len() ==> !is_ows(chars@[from as int]),
        decreases to,
    {
        to = to - 1;
    }
    proof {
        if from < chars@.len() && to == from {
            assert(is_ows(chars@[from as int]));
        }
        lemma_trim_range(s@, blank, from as int, to as int);
    }
    s.substring_char(from, to)
}

/// Whether two strings are equal.
pub fn same(a: &str, b: &str) -> (r: bool)
    ensures
        r == (a@ == b@),
{
    let x = a.as_bytes();
    let y = b.as_bytes();
    if x.len() != y.len() {
        return false;
    }
    let mut i: usize = 0;
    while i < x.len()
        invariant
            i <= x@.len(),
            x@.len() == y@.len(),
            x@ == a.spec_bytes(),
            y@ == b.spec_bytes(),
            forall|j: int| 0 <= j < i ==> x@[j] == y@[j],
        decreases x@.len() - i,
    {
        if x[i] != y[i] {
            return false;
        }
        i = i + 1;
    }
    proof {
        assert(x@ =~= y@);
        lemma_same_bytes(a@, b@);
    }
    true
}

/// The lower-case letter for an ASCII upper-case letter.
fn lower_char(c: char) -> (r: char)
    ensures
        r == lower(c),
{
    match c {
        'A' => 'a',
        'B' => 'b',
        'C' => 'c',
        'D' => 'd',
        'E' => 'e',
        'F' => 'f',
        'G' => 'g',
        'H' => 'h',
        'I' => 'i',
        'J' => 'j',
        'K' => 'k',
        'L' => 'l',
        'M' => 'm',
        'N' => 'n',
        'O' => 'o',
        'P' => 'p',
        'Q' => 'q',
        'R' => 'r',
        'S' => 's',
        'T' => 't',
        'U' => 'u',
        'V' => 'v',
        'W' => 'w',
        'X' => 'x',
        'Y' => 'y',
        'Z' => 'z',
        _ => c,
    }
}

/// Whether a piece stands at a place in a text.
pub open spec fn stands_at(s: Seq<char>, piece: Seq<char>, at: int) -> bool {
    0 <= at <= s.len() - piece.len() && s.subrange(at, at + piece.len()) == piece
}

/// Whether a text holds a piece, whatever the case of the text's ASCII letters.
pub open spec fn lowered_holds(s: Seq<char>, piece: Seq<char>) -> bool {
    exists|at: int| #[trigger] stands_at(lowered(s), piece, at)
}

/// Whether a text in lower case holds a piece.
pub fn lower_case_contains(s: &str, piece: &str) -> (r: bool)
    ensures
        r == lowered_holds(s@, piece@),
{
    let x = chars_of(s);
    let y = chars_of(piece);
    let len: usize = x.len();
    let n: usize = y.len();
    if len < n {
        return false;
    }
    let mut at: usize = 0;
    while at <= len - n
        invariant
            at <= len - n + 1,
            n == y@.len() <= len,
            len == x@.len(),
            x@ == s@,
            y@ == piece@,
            forall|k: int| 0 <= k < at ==> !#[trigger] stands_at(lowered(s@), piece@, k),
        decreases len - n + 1 - at,
    {
        let mut j: usize = 0;
        while j < n && lower_char(x[at + j]) == y[j]
            invariant
                j <= n,
                n == y@.len(),
                at + n <= len,
                len == x@.len(),
                x@ == s@,
                y@ == piece@,
                forall|k: int| 0 <= k < j ==> lower(s@[at + k]) == #[trigger] piece@[k],
            decreases n - j,
        {
            j = j + 1;
        }
        if j == n {
            assert(lowered(s@).subrange(at as int, at + n) =~= piece@);
            assert(stands_at(lowered(s@), piece@, at as int));
            return true;
        }
        assert(lowered(s@).subrange(at as int, at + n)[j as int] == lower(s@[at + j]));
        at = at + 1;
    }
    false
}

/// Whether two strings are equal but for the case of ASCII letters.
pub fn eq_ignore_ascii_case(a: &str, b: &str) -> (r: bool)
    ensures
        r == (lowered(a@) == lowered(b@)),
{
    let x = chars_of(a);
    let y = chars_of(b);
    if x.len() != y.len() {
        assert(lowered(a@).len() != lowered(b@).len());
        return false;
    }
    let mut i: usize = 0;
    while i < x.len()
        invariant
            i <= x@.len(),
            x@.len() == y@.len(),
            x@ == a@,
            y@ == b@,
            forall|j: int| 0 <= j < i ==> lower(x@[j]) == lower(y@[j]),
        decreases x@.len() - i,
    {
        if lower_char(x[i]) != lower_char(y[i]) {
            assert(lowered(a@)[i as int] == lower(x@[i as int]));
            assert(lowered(b@)[i as int] == lower(y@[i as int]));
            return false;
        }
        i = i + 1;
    }
    assert(lowered(a@) =~= lowered(b@));
    true
}

} // verus!
