//! Text primitives on sequences of characters.
//!
//! A string is taken apart into its characters once, searched and split as a
//! slice, and put together again at the end.
use vstd::prelude::*;
use vstd::string::StringExecFns;

verus! {

/// `String::push` appends one character and changes nothing else.
pub assume_specification[ String::push ](s: &mut String, c: char)
    ensures
        final(s)@ == old(s)@.push(c),
;

/// `String::from` copies a string slice.
pub assume_specification<'a>[ <String as From<&'a str>>::from ](s: &str) -> (r: String)
    ensures
        r@ == s@,
;

/// What `str::to_uppercase` makes of a text.
pub uninterp spec fn uppercased(s: Seq<char>) -> Seq<char>;

/// The upper case of an ASCII character.
pub open spec fn ascii_upper(c: char) -> char {
    if 'a' <= c <= 'z' {
        ((c as u32) - 32) as char
    } else {
        c
    }
}

/// `str::to_uppercase` maps a text to upper case by the rules of Unicode; on ASCII these map
/// `a` to `z` one by one and leave the rest as it is.
pub assume_specification[ str::to_uppercase ](s: &str) -> (r: String)
    ensures
        r@ == uppercased(s@),
        (forall|i: int| 0 <= i < s@.len() ==> #[trigger] s@[i] <= '\u{7f}') ==> r@ == s@.map_values(
            |c: char| ascii_upper(c),
        ),
;

/// The characters with the Unicode property `White_Space`.
pub open spec fn is_space(c: char) -> bool {
    ||| '\u{9}' <= c <= '\u{d}'
    ||| c == ' '
    ||| c == '\u{85}'
    ||| c == '\u{a0}'
    ||| c == '\u{1680}'
    ||| '\u{2000}' <= c <= '\u{200a}'
    ||| c == '\u{2028}'
    ||| c == '\u{2029}'
    ||| c == '\u{202f}'
    ||| c == '\u{205f}'
    ||| c == '\u{3000}'
}

/// True for the white space characters of Unicode.
pub fn is_whitespace(c: char) -> (r: bool)
    ensures
        r == is_space(c),
{
    ('\u{9}' <= c && c <= '\u{d}') || c == ' ' || c == '\u{85}' || c == '\u{a0}' || c == '\u{1680}'
        || ('\u{2000}' <= c && c <= '\u{200a}') || c == '\u{2028}' || c == '\u{2029}' || c
        == '\u{202f}' || c == '\u{205f}' || c == '\u{3000}'
}

/// The characters of the Unicode category `Cc`.
pub open spec fn is_control_char(c: char) -> bool {
    c <= '\u{1f}' || '\u{7f}' <= c <= '\u{9f}'
}

/// True for the control characters of Unicode.
pub fn is_control(c: char) -> (r: bool)
    ensures
        r == is_control_char(c),
{
    c <= '\u{1f}' || ('\u{7f}' <= c && c <= '\u{9f}')
}

/// The characters of a string, in order.
pub fn to_chars(s: &str) -> (r: Vec<char>)
    ensures
        r@ == s@,
{
    let mut out: Vec<char> = Vec::new();
    for c in it: s.chars()
        invariant
            out@ == it.seq().take(it.index() as int),
    {
        out.push(c);
    }
    out
}

/// The string made of the given characters.
pub fn from_chars(cs: &[char]) -> (r: String)
    ensures
        r@ == cs@,
{
    let mut out = String::new();
    for i in 0..cs.len()
        invariant
            out@ == cs@.take(i as int),
    {
        out.push(cs[i]);
    }
    out
}

/// The characters of an optional string.
pub open spec fn optional_view(s: Option<String>) -> Option<Seq<char>> {
    match s {
        Some(s) => Some(s@),
        None => None,
    }
}

/// The characters of each string.
pub open spec fn string_views(v: Seq<String>) -> Seq<Seq<char>> {
    v.map_values(|s: String| s@)
}

/// True when the two slices hold the same characters.
pub fn same(a: &[char], b: &[char]) -> (r: bool)
    ensures
        r == (a@ == b@),
{
    if a.len() != b.len() {
        return false;
    }
    for i in 0..a.len()
        invariant
            a.len() == b.len(),
            a@.take(i as int) == b@.take(i as int),
    {
        if a[i] != b[i] {
            assert(a@[i as int] != b@[i as int]);
            return false;
        }
        assert(a@.take(i + 1) =~= a@.take(i as int).push(a@[i as int]));
        assert(b@.take(i + 1) =~= b@.take(i as int).push(b@[i as int]));
    }
    assert(a@.take(a.len() as int) =~= a@);
    assert(b@.take(a.len() as int) =~= b@);
    true
}

/// True when the slice holds the characters of the string.
pub fn is_text(cs: &[char], s: &str) -> (r: bool)
    ensures
        r == (cs@ == s@),
{
    let other = to_chars(s);
    same(cs, other.as_slice())
}

/// `s` without its leading white space.
pub open spec fn trim_start(s: Seq<char>) -> Seq<char>
    decreases s.len(),
{
    if s.len() > 0 && is_space(s[0]) {
        trim_start(s.drop_first())
    } else {
        s
    }
}

/// `s` without its trailing white space.
pub open spec fn trim_end(s: Seq<char>) -> Seq<char>
    decreases s.len(),
{
    if s.len() > 0 && is_space(s.last()) {
        trim_end(s.drop_last())
    } else {
        s
    }
}

/// `s` without white space at either end.
pub open spec fn trimmed(s: Seq<char>) -> Seq<char> {
    trim_end(trim_start(s))
}

/// The slice without white space at either end.
pub fn trim(s: &[char]) -> (r: &[char])
    ensures
        r@ == trimmed(s@),
{
    let mut lo: usize = 0;
    assert(s@.skip(0) =~= s@);
    while lo < s.len() && is_whitespace(s[lo])
        invariant
            lo <= s.len(),
            trim_start(s@) == trim_start(s@.skip(lo as int)),
        decreases s.len() - lo,
    {
        assert(s@.skip(lo as int).drop_first() =~= s@.skip(lo + 1));
        lo = lo + 1;
    }
    let mut hi: usize = s.len();
    assert(s@.subrange(lo as int, hi as int) =~= s@.skip(lo as int));
    while hi > lo && is_whitespace(s[hi - 1])
        invariant
            lo <= hi <= s.len(),
            trimmed(s@) == trim_end(s@.subrange(lo as int, hi as int)),
        decreases hi - lo,
    {
        assert(s@.subrange(lo as int, hi as int).drop_last() =~= s@.subrange(lo as int, hi - 1));
        hi = hi - 1;
    }
    vstd::slice::slice_subrange(s, lo, hi)
}

/// The position of the first `c` in `s`, or the length of `s` when there is none.
pub open spec fn position(s: Seq<char>, c: char) -> int
    decreases s.len(),
{
    if s.len() == 0 || s[0] == c {
        0
    } else {
        1 + position(s.drop_first(), c)
    }
}

/// `position` is the least index that holds `c`.
pub proof fn lemma_position(s: Seq<char>, c: char)
    ensures
        0 <= position(s, c) <= s.len(),
        forall|i: int| 0 <= i < position(s, c) ==> s[i] != c,
        position(s, c) < s.len() ==> s[position(s, c)] == c,
    decreases s.len(),
{
    if s.len() > 0 && s[0] != c {
        lemma_position(s.drop_first(), c);
        assert forall|i: int| 0 <= i < position(s, c) implies s[i] != c by {
            if i > 0 {
                assert(s.drop_first()[i - 1] == s[i]);
            }
        }
    }
}

/// The position of the first `c` in `s`, or the length of `s` when there is none.
pub fn position_of(s: &[char], c: char) -> (r: usize)
    ensures
        r == position(s@, c),
        r <= s.len(),
        r < s.len() ==> s@[r as int] == c,
{
    let mut i: usize = 0;
    assert(s@.skip(0) =~= s@);
    while i < s.len() && s[i] != c
        invariant
            i <= s.len(),
            position(s@, c) == i + position(s@.skip(i as int), c),
        decreases s.len() - i,
    {
        assert(s@.skip(i as int).drop_first() =~= s@.skip(i + 1));
        i = i + 1;
    }
    i
}

/// What stands before and after the first `sep`, if there is one.
pub open spec fn cut(s: Seq<char>, sep: char) -> Option<(Seq<char>, Seq<char>)> {
    let i = position(s, sep);
    if i < s.len() {
        Some((s.take(i), s.skip(i + 1)))
    } else {
        None
    }
}

/// What stands before and after the first `sep`, if there is one.
pub fn split_once(s: &[char], sep: char) -> (r: Option<(&[char], &[char])>)
    ensures
        match r {
            Some(p) => cut(s@, sep) == Some((p.0@, p.1@)),
            None => cut(s@, sep) is None,
        },
{
    let i = position_of(s, sep);
    if i < s.len() {
        let before = vstd::slice::slice_subrange(s, 0, i);
        let after = vstd::slice::slice_subrange(s, i + 1, s.len());
        assert(before@ =~= s@.take(i as int));
        assert(after@ =~= s@.skip(i + 1));
        Some((before, after))
    } else {
        None
    }
}

/// The sequences that the slices hold.
pub open spec fn views(v: Seq<&[char]>) -> Seq<Seq<char>> {
    v.map_values(|p: &[char]| p@)
}

/// The parts of `s` between the occurrences of `sep`: always one more part than separators.
pub open spec fn parts(s: Seq<char>, sep: char) -> Seq<Seq<char>>
    decreases s.len(),
{
    let i = position(s, sep);
    if 0 <= i < s.len() {
        seq![s.take(i)] + parts(s.skip(i + 1), sep)
    } else {
        seq![s]
    }
}

/// The parts of the slice between the occurrences of `sep`.
pub fn split<'a>(s: &'a [char], sep: char) -> (r: Vec<&'a [char]>)
    ensures
        views(r@) == parts(s@, sep),
{
    let mut out: Vec<&'a [char]> = Vec::new();
    let mut rest: &'a [char] = s;
    assert(views(out@) + parts(s@, sep) =~= parts(s@, sep));
    loop
        invariant
            views(out@) + parts(rest@, sep) == parts(s@, sep),
        decreases rest.len(),
    {
        let ghost before = out@;
        let i = position_of(rest, sep);
        if i < rest.len() {
            let head = vstd::slice::slice_subrange(rest, 0, i);
            let tail = vstd::slice::slice_subrange(rest, i + 1, rest.len());
            assert(head@ =~= rest@.take(i as int));
            assert(tail@ =~= rest@.skip(i + 1));
            out.push(head);
            assert(views(out@) =~= views(before).push(head@));
            assert(views(before) + (seq![head@] + parts(tail@, sep)) =~= views(out@) + parts(
                tail@,
                sep,
            ));
            rest = tail;
        } else {
            out.push(rest);
            assert(views(out@) =~= views(before) + seq![rest@]);
            return out;
        }
    }
}

/// A line without the carriage return that ends it.
pub open spec fn without_cr(s: Seq<char>) -> Seq<char> {
    if s.len() > 0 && s.last() == '\r' {
        s.drop_last()
    } else {
        s
    }
}

/// The lines of `s`: each ends at a line feed, with or without a carriage return before it, and
/// the last one may end with the text.
pub open spec fn lines_of(s: Seq<char>) -> Seq<Seq<char>>
    decreases s.len(),
{
    let i = position(s, '\n');
    if s.len() == 0 {
        Seq::empty()
    } else if 0 <= i < s.len() {
        seq![without_cr(s.take(i))] + lines_of(s.skip(i + 1))
    } else {
        seq![s]
    }
}

/// The lines of the slice.
pub fn lines<'a>(s: &'a [char]) -> (r: Vec<&'a [char]>)
    ensures
        views(r@) == lines_of(s@),
{
    let mut out: Vec<&'a [char]> = Vec::new();
    let mut rest: &'a [char] = s;
    assert(views(out@) + lines_of(s@) =~= lines_of(s@));
    while rest.len() > 0
        invariant
            views(out@) + lines_of(rest@) == lines_of(s@),
        decreases rest.len(),
    {
        let ghost before = out@;
        let i = position_of(rest, '\n');
        let end = if i < rest.len() && i > 0 && rest[i - 1] == '\r' {
            i - 1
        } else {
            i
        };
        let head = vstd::slice::slice_subrange(rest, 0, end);
        let next = if i < rest.len() {
            i + 1
        } else {
            i
        };
        let tail = vstd::slice::slice_subrange(rest, next, rest.len());
        out.push(head);
        assert(views(out@) =~= views(before).push(head@));
        assert(tail@ =~= rest@.skip(next as int));
        if i < rest.len() {
            assert(head@ =~= without_cr(rest@.take(i as int)));
            assert(views(before) + (seq![head@] + lines_of(tail@)) =~= views(out@) + lines_of(
                tail@,
            ));
        } else {
            assert(head@ =~= rest@);
            assert(views(before) + seq![head@] =~= views(out@) + lines_of(tail@));
        }
        rest = tail;
    }
    assert(views(out@) + lines_of(rest@) =~= views(out@));
    out
}

/// `pat` stands in `s` at position `i`.
pub open spec fn occurs_at(s: Seq<char>, pat: Seq<char>, i: int) -> bool {
    0 <= i && i + pat.len() <= s.len() && s.subrange(i, i + pat.len()) == pat
}

/// The least position from `i` on at which `pat` stands in `s`.
pub open spec fn find_from(s: Seq<char>, pat: Seq<char>, i: int) -> Option<int>
    decreases s.len() + 1 - i,
{
    if i + pat.len() > s.len() {
        None
    } else if occurs_at(s, pat, i) {
        Some(i)
    } else {
        find_from(s, pat, i + 1)
    }
}

/// The first position at which `pat` stands in `s`.
pub open spec fn find_text(s: Seq<char>, pat: Seq<char>) -> Option<int> {
    find_from(s, pat, 0)
}

/// Searching finds the first place where the pattern stands, and none only where it stands
/// nowhere.
pub proof fn law_find_gives_the_first_place(s: Seq<char>, pat: Seq<char>)
    ensures
        match find_text(s, pat) {
            Some(k) => occurs_at(s, pat, k) && forall|j: int|
                j < k ==> !#[trigger] occurs_at(s, pat, j),
            None => forall|j: int| !#[trigger] occurs_at(s, pat, j),
        },
{
    lemma_find_from(s, pat, 0);
}

proof fn lemma_find_from(s: Seq<char>, pat: Seq<char>, i: int)
    requires
        0 <= i,
    ensures
        match find_from(s, pat, i) {
            Some(k) => i <= k && occurs_at(s, pat, k) && forall|j: int|
                i <= j < k ==> !#[trigger] occurs_at(s, pat, j),
            None => forall|j: int| i <= j ==> !#[trigger] occurs_at(s, pat, j),
        },
    decreases s.len() + 1 - i,
{
    if i + pat.len() <= s.len() && !occurs_at(s, pat, i) {
        lemma_find_from(s, pat, i + 1);
    }
}

/// The first position at which `pat` stands in `s`.
pub fn find(s: &[char], pat: &[char]) -> (r: Option<usize>)
    ensures
        match r {
            Some(k) => find_text(s@, pat@) == Some(k as int) && k + pat.len() <= s.len(),
            None => find_text(s@, pat@) is None,
        },
{
    if pat.len() > s.len() {
        return None;
    }
    let last = s.len() - pat.len();
    let mut i: usize = 0;
    while i <= last
        invariant
            last == s.len() - pat.len(),
            i <= last + 1,
            find_text(s@, pat@) == find_from(s@, pat@, i as int),
        decreases last + 1 - i,
    {
        if same(vstd::slice::slice_subrange(s, i, i + pat.len()), pat) {
            return Some(i);
        }
        if i == last {
            assert(find_from(s@, pat@, i + 1) is None);
            return None;
        }
        i = i + 1;
    }
    None
}

/// `s` begins with `pat`.
pub open spec fn begins_with(s: Seq<char>, pat: Seq<char>) -> bool {
    pat.len() <= s.len() && s.take(pat.len() as int) == pat
}

/// True when the slice begins with the characters of the string.
pub fn starts_with(s: &[char], pat: &str) -> (r: bool)
    ensures
        r == begins_with(s@, pat@),
{
    let p = to_chars(pat);
    if p.len() > s.len() {
        return false;
    }
    let head = vstd::slice::slice_subrange(s, 0, p.len());
    assert(head@ =~= s@.take(pat@.len() as int));
    same(head, p.as_slice())
}

/// A decimal digit.
pub open spec fn is_digit(c: char) -> bool {
    '0' <= c <= '9'
}

/// The number that a row of decimal digits stands for.
pub open spec fn digits_value(s: Seq<char>) -> nat
    decreases s.len(),
{
    if s.len() == 0 {
        0
    } else {
        digits_value(s.drop_last()) * 10 + (s.last() as nat - '0' as nat) as nat
    }
}

/// A number without the plus sign before it.
pub open spec fn unsigned(s: Seq<char>) -> Seq<char> {
    if s.len() > 0 && s[0] == '+' {
        s.drop_first()
    } else {
        s
    }
}

/// The machine number that a text stands for: at least one decimal digit, a plus sign before
/// them allowed.
pub open spec fn number(s: Seq<char>) -> Option<usize> {
    let digits = unsigned(s);
    if digits.len() > 0 && (forall|i: int| 0 <= i < digits.len() ==> is_digit(#[trigger] digits[i]))
        && digits_value(digits) <= usize::MAX {
        Some(digits_value(digits) as usize)
    } else {
        None
    }
}

proof fn lemma_digits_grow(s: Seq<char>, n: int)
    requires
        0 <= n <= s.len(),
    ensures
        digits_value(s.take(n)) <= digits_value(s),
    decreases s.len(),
{
    if n < s.len() {
        lemma_digits_grow(s.drop_last(), n);
        assert(s.drop_last().take(n) =~= s.take(n));
    } else {
        assert(s.take(n) =~= s);
    }
}

/// The machine number that a text stands for.
pub fn parse_number(s: &[char]) -> (r: Option<usize>)
    ensures
        r == number(s@),
{
    let digits = if s.len() > 0 && s[0] == '+' {
        vstd::slice::slice_subrange(s, 1, s.len())
    } else {
        s
    };
    assert(digits@ =~= unsigned(s@));
    if digits.len() == 0 {
        return None;
    }
    let mut n: usize = 0;
    for i in 0..digits.len()
        invariant
            digits@ == unsigned(s@),
            forall|j: int| 0 <= j < i ==> is_digit(#[trigger] digits@[j]),
            n == digits_value(digits@.take(i as int)),
    {
        let c = digits[i];
        if !('0' <= c && c <= '9') {
            assert(!is_digit(digits@[i as int]));
            return None;
        }
        let d = c as usize - '0' as usize;
        proof {
            assert(digits@.take(i + 1).drop_last() =~= digits@.take(i as int));
            assert(digits@.take(i + 1).last() == c);
            lemma_digits_grow(digits@, i + 1);
        }
        match n.checked_mul(10) {
            Some(tens) => match tens.checked_add(d) {
                Some(sum) => {
                    n = sum;
                },
                None => {
                    return None;
                },
            },
            None => {
                return None;
            },
        }
    }
    assert(digits@.take(digits.len() as int) =~= digits@);
    Some(n)
}

/// The character of a decimal digit.
pub open spec fn digit(d: nat) -> char {
    ('0' as nat + d) as char
}

/// A number in decimal digits, without leading zeros.
pub open spec fn decimal(n: nat) -> Seq<char>
    decreases n,
{
    if n < 10 {
        seq![digit(n)]
    } else {
        decimal(n / 10).push(digit(n % 10))
    }
}

/// A number in decimal digits.
pub fn to_decimal(n: usize) -> (r: String)
    ensures
        r@ == decimal(n as nat),
    decreases n,
{
    let mut text = if n < 10 {
        String::new()
    } else {
        to_decimal(n / 10)
    };
    text.push((48u8 + (n % 10) as u8) as char);
    assert(text@ =~= decimal(n as nat));
    text
}

/// Writing a number down and reading it gives the same number.
pub proof fn law_number_reads_back(n: usize)
    ensures
        number(decimal(n as nat)) == Some(n),
{
    lemma_decimal(n as nat);
    assert(decimal(n as nat)[0] != '+');
}

proof fn lemma_decimal(n: nat)
    ensures
        decimal(n).len() > 0,
        forall|i: int| 0 <= i < decimal(n).len() ==> is_digit(#[trigger] decimal(n)[i]),
        digits_value(decimal(n)) == n,
    decreases n,
{
    if n < 10 {
        reveal_with_fuel(digits_value, 2);
        assert(decimal(n).drop_last() =~= Seq::<char>::empty());
    } else {
        lemma_decimal(n / 10);
        assert(decimal(n).drop_last() =~= decimal(n / 10));
    }
}

/// The length of the run of characters at the beginning that are no white space.
pub open spec fn word_len(s: Seq<char>) -> nat
    decreases s.len(),
{
    if s.len() == 0 || is_space(s[0]) {
        0
    } else {
        1 + word_len(s.drop_first())
    }
}

/// The words of a text: the runs of characters between white space.
pub open spec fn words(s: Seq<char>) -> Seq<Seq<char>>
    decreases s.len(),
{
    if s.len() == 0 {
        Seq::empty()
    } else if is_space(s[0]) {
        words(s.drop_first())
    } else if word_len(s) <= s.len() {
        seq![s.take(word_len(s) as int)] + words(s.skip(word_len(s) as int))
    } else {
        Seq::empty()
    }
}

/// True when one of the words of the text is `word`.
pub fn has_word(s: &[char], word: &[char]) -> (r: bool)
    ensures
        r == words(s@).contains(word@),
{
    let mut i: usize = 0;
    assert(s@.skip(0) =~= s@);
    while i < s.len()
        invariant
            i <= s.len(),
            words(s@).contains(word@) == words(s@.skip(i as int)).contains(word@),
        decreases s.len() - i,
    {
        let ghost rest = s@.skip(i as int);
        if is_whitespace(s[i]) {
            assert(rest.drop_first() =~= s@.skip(i + 1));
            i = i + 1;
        } else {
            let mut j: usize = i;
            assert(s@.skip(j as int) =~= rest);
            while j < s.len() && !is_whitespace(s[j])
                invariant
                    i <= j <= s.len(),
                    word_len(rest) == j - i + word_len(s@.skip(j as int)),
                    rest == s@.skip(i as int),
                decreases s.len() - j,
            {
                assert(s@.skip(j as int).drop_first() =~= s@.skip(j + 1));
                j = j + 1;
            }
            assert(word_len(s@.skip(j as int)) == 0);
            let found = vstd::slice::slice_subrange(s, i, j);
            assert(found@ =~= rest.take(word_len(rest) as int));
            assert(s@.skip(j as int) =~= rest.skip(word_len(rest) as int));
            let ghost others = words(s@.skip(j as int));
            assert(words(rest) == seq![found@] + others);
            if same(found, word) {
                assert(words(rest)[0] == word@);
                return true;
            }
            proof {
                if words(rest).contains(word@) {
                    let k = choose|k: int| 0 <= k < words(rest).len() && words(rest)[k] == word@;
                    assert(others[k - 1] == word@);
                }
                if others.contains(word@) {
                    let k = choose|k: int| 0 <= k < others.len() && others[k] == word@;
                    assert(words(rest)[k + 1] == word@);
                }
            }
            i = j;
        }
    }
    assert(s@.skip(i as int) =~= Seq::<char>::empty());
    false
}

/// The text with every occurrence of `pat` replaced, from left to right.
pub open spec fn replaced(s: Seq<char>, pat: Seq<char>, by: Seq<char>) -> Seq<char>
    decreases s.len(),
{
    match find_text(s, pat) {
        Some(at) => if 0 <= at && 0 < pat.len() && at + pat.len() <= s.len() {
            s.take(at) + by + replaced(s.skip(at + pat.len()), pat, by)
        } else {
            s
        },
        None => s,
    }
}

/// The text with every occurrence of `pat` replaced, from left to right.
pub fn replace_all(s: &str, pat: &str, by: &str) -> (r: String)
    requires
        pat@.len() > 0,
    ensures
        r@ == replaced(s@, pat@, by@),
{
    let all = to_chars(s);
    let pattern = to_chars(pat);
    let mut out = String::new();
    let mut rest: &[char] = all.as_slice();
    assert(out@ + replaced(rest@, pat@, by@) =~= replaced(s@, pat@, by@));
    loop
        invariant
            pattern@ == pat@,
            pat@.len() > 0,
            out@ + replaced(rest@, pat@, by@) == replaced(s@, pat@, by@),
        decreases rest.len(),
    {
        let ghost before = out@;
        match find(rest, pattern.as_slice()) {
            Some(at) => {
                let head = vstd::slice::slice_subrange(rest, 0, at);
                let tail = vstd::slice::slice_subrange(rest, at + pattern.len(), rest.len());
                assert(head@ =~= rest@.take(at as int));
                assert(tail@ =~= rest@.skip(at + pat@.len()));
                out.append(from_chars(head).as_str());
                out.append(by);
                assert(before + (head@ + by@ + replaced(tail@, pat@, by@)) =~= out@ + replaced(
                    tail@,
                    pat@,
                    by@,
                ));
                rest = tail;
            },
            None => {
                out.append(from_chars(rest).as_str());
                return out;
            },
        }
    }
}

/// Every character is white space.
pub open spec fn all_space(s: Seq<char>) -> bool {
    forall|i: int| 0 <= i < s.len() ==> is_space(#[trigger] s[i])
}

proof fn lemma_trim_start(a: Seq<char>, r: Seq<char>)
    requires
        all_space(a),
    ensures
        trim_start(a + r) == trim_start(r),
    decreases a.len(),
{
    if a.len() > 0 {
        let rest = a.drop_first();
        assert forall|i: int| 0 <= i < rest.len() implies is_space(#[trigger] rest[i]) by {
            assert(rest[i] == a[i + 1]);
        }
        lemma_trim_start(rest, r);
        assert((a + r)[0] == a[0]);
        assert((a + r).drop_first() =~= rest + r);
    } else {
        assert(a + r =~= r);
    }
}

proof fn lemma_trim_end(r: Seq<char>, b: Seq<char>)
    requires
        all_space(b),
    ensures
        trim_end(r + b) == trim_end(r),
    decreases b.len(),
{
    if b.len() > 0 {
        let rest = b.drop_last();
        assert forall|i: int| 0 <= i < rest.len() implies is_space(#[trigger] rest[i]) by {
            assert(rest[i] == b[i]);
        }
        lemma_trim_end(r, rest);
        assert((r + b).last() == b[b.len() - 1]);
        assert((r + b).drop_last() =~= r + rest);
    } else {
        assert(r + b =~= r);
    }
}

/// Trimming takes away the white space at either end, all of it and nothing else.
pub proof fn law_trimming_takes_the_outer_white_space(a: Seq<char>, t: Seq<char>, b: Seq<char>)
    requires
        all_space(a),
        all_space(b),
        t.len() > 0 ==> !is_space(t[0]) && !is_space(t.last()),
    ensures
        trimmed(a + t + b) == t,
{
    assert(a + t + b =~= a + (t + b));
    lemma_trim_start(a, t + b);
    if t.len() > 0 {
        assert((t + b)[0] == t[0]);
        lemma_trim_end(t, b);
    } else {
        assert(t + b =~= b);
        assert(b + Seq::<char>::empty() =~= b);
        lemma_trim_start(b, Seq::empty());
        assert(t =~= Seq::<char>::empty());
    }
}

/// A text is cut at the first separator, and what stands before and after it is kept whole.
pub proof fn law_cutting_is_at_the_first_separator(a: Seq<char>, sep: char, b: Seq<char>)
    requires
        !a.contains(sep),
    ensures
        cut(a + seq![sep] + b, sep) == Some((a, b)),
        cut(a, sep) is None,
{
    lemma_position_after(a, sep, b);
    let s = a + seq![sep] + b;
    assert(s.take(a.len() as int) =~= a);
    assert(s.skip(a.len() as int + 1) =~= b);
    lemma_position(a, sep);
    if position(a, sep) < a.len() {
        assert(a.contains(a[position(a, sep)]));
    }
}

proof fn lemma_position_after(a: Seq<char>, sep: char, b: Seq<char>)
    requires
        !a.contains(sep),
    ensures
        position(a + seq![sep] + b, sep) == a.len(),
{
    let s = a + seq![sep] + b;
    lemma_position(s, sep);
    assert(s[a.len() as int] == sep);
    let k = position(s, sep);
    if k < a.len() {
        assert(s[k] == a[k]);
        assert(a.contains(a[k]));
    }
}

/// The entries with the separator between them.
pub open spec fn joined(entries: Seq<Seq<char>>, sep: char) -> Seq<char>
    decreases entries.len(),
{
    if entries.len() == 0 {
        Seq::empty()
    } else if entries.len() == 1 {
        entries[0]
    } else {
        entries[0] + seq![sep] + joined(entries.drop_first(), sep)
    }
}

/// Splitting undoes joining: the parts are the entries, blank ones among them.
pub proof fn law_splitting_undoes_joining(entries: Seq<Seq<char>>, sep: char)
    requires
        entries.len() > 0,
        forall|i: int| 0 <= i < entries.len() ==> !(#[trigger] entries[i]).contains(sep),
    ensures
        parts(joined(entries, sep), sep) == entries,
    decreases entries.len(),
{
    let s = joined(entries, sep);
    let head = entries[0];
    if entries.len() == 1 {
        law_cutting_is_at_the_first_separator(head, sep, Seq::empty());
        assert(parts(s, sep) =~= entries);
    } else {
        let rest = entries.drop_first();
        assert forall|i: int| 0 <= i < rest.len() implies !(#[trigger] rest[i]).contains(sep) by {
            assert(rest[i] == entries[i + 1]);
        }
        law_splitting_undoes_joining(rest, sep);
        lemma_position_after(head, sep, joined(rest, sep));
        assert(s.take(head.len() as int) =~= head);
        assert(s.skip(head.len() as int + 1) =~= joined(rest, sep));
        assert(seq![head] + rest =~= entries);
    }
}

/// The lines one after the other, each with the ending behind it.
pub open spec fn written(lines: Seq<Seq<char>>, ending: Seq<char>) -> Seq<char>
    decreases lines.len(),
{
    if lines.len() == 0 {
        Seq::empty()
    } else {
        lines[0] + ending + written(lines.drop_first(), ending)
    }
}

/// A line that nothing in it ends, and that does not end in a carriage return of its own.
pub open spec fn is_one_line(line: Seq<char>) -> bool {
    !line.contains('\n') && (line.len() > 0 ==> line.last() != '\r')
}

/// The lines of a text are those that it was written of, whether they end in a line feed or in a
/// carriage return and a line feed, and whether or not the last one is ended.
pub proof fn law_lines_are_those_written(lines: Seq<Seq<char>>, carriage: bool, open: Seq<char>)
    requires
        forall|i: int| 0 <= i < lines.len() ==> is_one_line(#[trigger] lines[i]),
        !open.contains('\n'),
    ensures
        ({
            let ending = if carriage {
                seq!['\r', '\n']
            } else {
                seq!['\n']
            };
            lines_of(written(lines, ending) + open) == (if open.len() > 0 {
                lines.push(open)
            } else {
                lines
            })
        }),
    decreases lines.len(),
{
    let ending = if carriage {
        seq!['\r', '\n']
    } else {
        seq!['\n']
    };
    let s = written(lines, ending) + open;
    if lines.len() == 0 {
        assert(s =~= open);
        law_cutting_is_at_the_first_separator(open, '\n', Seq::empty());
        if open.len() > 0 {
            assert(lines_of(s) =~= lines.push(open));
        } else {
            assert(lines_of(s) =~= lines);
        }
    } else {
        let line = lines[0];
        let rest = lines.drop_first();
        assert forall|i: int| 0 <= i < rest.len() implies is_one_line(#[trigger] rest[i]) by {
            assert(rest[i] == lines[i + 1]);
        }
        law_lines_are_those_written(rest, carriage, open);
        let tail = written(rest, ending) + open;
        let before = if carriage {
            line + seq!['\r']
        } else {
            line
        };
        if before.contains('\n') {
            let k = choose|k: int| 0 <= k < before.len() && before[k] == '\n';
            assert(k < line.len());
            assert(line.contains(line[k]));
        }
        assert(s =~= before + seq!['\n'] + tail);
        lemma_position_after(before, '\n', tail);
        assert(s.take(before.len() as int) =~= before);
        assert(s.skip(before.len() as int + 1) =~= tail);
        assert(without_cr(before) =~= line);
        assert(lines_of(s) == seq![line] + lines_of(tail));
        if open.len() > 0 {
            assert(seq![line] + rest.push(open) =~= lines.push(open));
        } else {
            assert(seq![line] + rest =~= lines);
        }
    }
}

/// A text begins with a pattern exactly where something is left when the pattern is taken away.
pub proof fn law_beginning_is_the_pattern_and_a_rest(s: Seq<char>, pat: Seq<char>)
    ensures
        begins_with(s, pat) <==> s == pat + s.skip(pat.len() as int) && pat.len() <= s.len(),
        forall|rest: Seq<char>| begins_with(#[trigger] (pat + rest), pat),
{
    if begins_with(s, pat) {
        assert(s =~= pat + s.skip(pat.len() as int));
    }
    if s == pat + s.skip(pat.len() as int) && pat.len() <= s.len() {
        assert(s.take(pat.len() as int) =~= pat);
    }
    assert forall|rest: Seq<char>| begins_with(#[trigger] (pat + rest), pat) by {
        assert((pat + rest).take(pat.len() as int) =~= pat);
    }
}

/// Words are the runs between white space: leading white space does not matter, the first word
/// reaches to the next white space, and the others follow. White space alone holds no word.
pub proof fn law_words_stand_between_white_space(a: Seq<char>, word: Seq<char>, rest: Seq<char>)
    requires
        all_space(a),
        forall|i: int| 0 <= i < word.len() ==> !is_space(#[trigger] word[i]),
        rest.len() > 0 ==> is_space(rest[0]),
    ensures
        words(a) == Seq::<Seq<char>>::empty(),
        word.len() > 0 ==> words(a + word + rest) == seq![word] + words(rest),
    decreases a.len(),
{
    if a.len() > 0 {
        let b = a.drop_first();
        assert forall|i: int| 0 <= i < b.len() implies is_space(#[trigger] b[i]) by {
            assert(b[i] == a[i + 1]);
        }
        law_words_stand_between_white_space(b, word, rest);
        assert((a + word + rest)[0] == a[0]);
        assert((a + word + rest).drop_first() =~= b + word + rest);
    } else if word.len() > 0 {
        let s = a + word + rest;
        assert(s =~= word + rest);
        lemma_word_len(word, rest);
        assert(s[0] == word[0]);
        assert(s.take(word.len() as int) =~= word);
        assert(s.skip(word.len() as int) =~= rest);
    }
}

proof fn lemma_word_len(word: Seq<char>, rest: Seq<char>)
    requires
        forall|i: int| 0 <= i < word.len() ==> !is_space(#[trigger] word[i]),
        rest.len() > 0 ==> is_space(rest[0]),
    ensures
        word_len(word + rest) == word.len(),
    decreases word.len(),
{
    if word.len() > 0 {
        let w = word.drop_first();
        assert forall|i: int| 0 <= i < w.len() implies !is_space(#[trigger] w[i]) by {
            assert(w[i] == word[i + 1]);
        }
        lemma_word_len(w, rest);
        assert((word + rest)[0] == word[0]);
        assert((word + rest).drop_first() =~= w + rest);
    } else {
        assert(word + rest =~= rest);
    }
}

/// Replacing changes the occurrences of the pattern, from left to right, and nothing else: what
/// stands before the first one stays, and what follows it is treated alike.
pub proof fn law_replacing_changes_the_occurrences_alone(
    a: Seq<char>,
    pat: Seq<char>,
    b: Seq<char>,
    by: Seq<char>,
)
    requires
        pat.len() > 0,
        forall|j: int| 0 <= j < a.len() ==> !#[trigger] occurs_at(a + pat + b, pat, j),
    ensures
        replaced(a + pat + b, pat, by) == a + by + replaced(b, pat, by),
        (forall|j: int| !#[trigger] occurs_at(b, pat, j)) ==> replaced(b, pat, by) == b,
{
    let s = a + pat + b;
    law_find_gives_the_first_place(s, pat);
    law_find_gives_the_first_place(b, pat);
    assert(s.subrange(a.len() as int, a.len() as int + pat.len()) =~= pat);
    assert(occurs_at(s, pat, a.len() as int));
    let k = find_text(s, pat)->0;
    assert(k == a.len());
    assert(s.take(k) =~= a);
    assert(s.skip(k + pat.len()) =~= b);
}

proof fn lemma_trim_start_splits(s: Seq<char>)
    ensures
        trim_start(s).len() <= s.len(),
        s.skip(s.len() - trim_start(s).len()) == trim_start(s),
        all_space(s.take(s.len() - trim_start(s).len())),
        trim_start(s).len() > 0 ==> !is_space(trim_start(s)[0]),
    decreases s.len(),
{
    if s.len() > 0 && is_space(s[0]) {
        let r = s.drop_first();
        lemma_trim_start_splits(r);
        let n = s.len() - trim_start(s).len();
        assert(s.skip(n) =~= r.skip(n - 1));
        assert forall|i: int| 0 <= i < n implies is_space(#[trigger] s.take(n)[i]) by {
            if i > 0 {
                assert(r.take(n - 1)[i - 1] == s[i]);
            }
        }
    } else {
        assert(s.skip(0) =~= s);
    }
}

proof fn lemma_trim_end_splits(s: Seq<char>)
    ensures
        trim_end(s).len() <= s.len(),
        s.take(trim_end(s).len() as int) == trim_end(s),
        all_space(s.skip(trim_end(s).len() as int)),
        trim_end(s).len() > 0 ==> !is_space(trim_end(s).last()),
    decreases s.len(),
{
    if s.len() > 0 && is_space(s.last()) {
        let r = s.drop_last();
        lemma_trim_end_splits(r);
        let n = trim_end(s).len() as int;
        assert(s.take(n) =~= r.take(n));
        assert forall|i: int| 0 <= i < s.skip(n).len() implies is_space(#[trigger] s.skip(n)[i]) by {
            if n + i < r.len() {
                assert(r.skip(n)[i] == s[n + i]);
            }
        }
    } else {
        assert(s.take(s.len() as int) =~= s);
        assert(s.skip(s.len() as int) =~= Seq::<char>::empty());
    }
}

/// What is trimmed away is white space, and what is left neither begins nor ends with it.
pub proof fn law_trimming_leaves_a_middle(s: Seq<char>) -> (r: (Seq<char>, Seq<char>))
    ensures
        s == r.0 + trimmed(s) + r.1,
        all_space(r.0),
        all_space(r.1),
        trimmed(s).len() > 0 ==> !is_space(trimmed(s)[0]) && !is_space(trimmed(s).last()),
        trimmed(trimmed(s)) == trimmed(s),
{
    let t = trim_start(s);
    lemma_trim_start_splits(s);
    lemma_trim_end_splits(t);
    let m = trim_end(t);
    let a = s.take(s.len() - t.len());
    let b = t.skip(m.len() as int);
    assert(t =~= m + b);
    assert(s =~= a + t);
    assert(s =~= a + m + b);
    if m.len() > 0 {
        assert(m[0] == t[0]);
    }
    law_trimming_takes_the_outer_white_space(Seq::empty(), m, Seq::empty());
    assert(Seq::<char>::empty() + m + Seq::<char>::empty() =~= m);
    (a, b)
}

/// White space around a list does not matter to its first entry.
pub proof fn law_white_space_around_a_list_does_not_matter(v: Seq<char>, sep: char)
    requires
        !is_space(sep),
    ensures
        trimmed(parts(trimmed(v), sep)[0]) == trimmed(parts(v, sep)[0]),
{
    let t = trimmed(v);
    let (a, b) = law_trimming_leaves_a_middle(v);
    assert forall|i: int| 0 <= i < a.len() implies a[i] != sep by {
        assert(is_space(a[i]));
    }
    assert forall|i: int| 0 <= i < b.len() implies b[i] != sep by {
        assert(is_space(b[i]));
    }
    lemma_position(t, sep);
    let m = position(t, sep);
    if m < t.len() {
        let x = t.take(m);
        let y = t.skip(m + 1);
        assert(v =~= (a + x) + seq![sep] + (y + b));
        assert(!(a + x).contains(sep));
        lemma_position_after(a + x, sep, y + b);
        assert(v.take((a + x).len() as int) =~= a + x);
        lemma_trim_start(a, x);
    } else {
        assert(!v.contains(sep));
        lemma_position(v, sep);
    }
}

/// White space is what Unicode gives the property `White_Space`: these twenty-five characters.
pub proof fn law_white_space_is_that_of_unicode(c: char)
    ensures
        is_space(c) <==> seq![
            0x9u32,
            0xa,
            0xb,
            0xc,
            0xd,
            0x20,
            0x85,
            0xa0,
            0x1680,
            0x2000,
            0x2001,
            0x2002,
            0x2003,
            0x2004,
            0x2005,
            0x2006,
            0x2007,
            0x2008,
            0x2009,
            0x200a,
            0x2028,
            0x2029,
            0x202f,
            0x205f,
            0x3000,
        ].contains(c as u32),
{
    let all = seq![
        0x9u32,
        0xa,
        0xb,
        0xc,
        0xd,
        0x20,
        0x85,
        0xa0,
        0x1680,
        0x2000,
        0x2001,
        0x2002,
        0x2003,
        0x2004,
        0x2005,
        0x2006,
        0x2007,
        0x2008,
        0x2009,
        0x200a,
        0x2028,
        0x2029,
        0x202f,
        0x205f,
        0x3000,
    ];
    if is_space(c) {
        let n = c as u32;
        if n <= 0xd {
            assert(all[n - 0x9] == n);
        } else if n == 0x20 {
            assert(all[5] == n);
        } else if n == 0x85 {
            assert(all[6] == n);
        } else if n == 0xa0 {
            assert(all[7] == n);
        } else if n == 0x1680 {
            assert(all[8] == n);
        } else if n <= 0x200a {
            assert(all[n - 0x2000 + 9] == n);
        } else if n == 0x2028 {
            assert(all[20] == n);
        } else if n == 0x2029 {
            assert(all[21] == n);
        } else if n == 0x202f {
            assert(all[22] == n);
        } else if n == 0x205f {
            assert(all[23] == n);
        } else {
            assert(all[24] == n);
        }
    }
}

/// A text is a number where it consists of decimal digits, with a plus sign in front or without,
/// and the number fits. Zeros in front do not matter; a text with any other character is no
/// number, and neither is one without a digit.
pub proof fn law_numbers_are_written_in_digits(n: usize, zeros: nat, s: Seq<char>, i: int)
    ensures
        number(Seq::new(zeros, |j: int| '0') + decimal(n as nat)) == Some(n),
        number(seq!['+'] + Seq::new(zeros, |j: int| '0') + decimal(n as nat)) == Some(n),
        s.len() == 0 ==> number(s) is None,
        s == seq!['+'] ==> number(s) is None,
        0 <= i < s.len() && !('0' <= s[i] && s[i] <= '9') && !(i == 0 && s[i] == '+') ==> number(
            s,
        ) is None,
        number(decimal((usize::MAX + 1) as nat)) is None,
{
    lemma_decimal(n as nat);
    let z = Seq::new(zeros, |j: int| '0');
    let d = z + decimal(n as nat);
    lemma_zeros_in_front(zeros, decimal(n as nat));
    assert forall|j: int| 0 <= j < d.len() implies is_digit(#[trigger] d[j]) by {
        if j >= zeros {
            assert(d[j] == decimal(n as nat)[j - zeros]);
        }
    }
    assert(is_digit(d[0]));
    assert(unsigned(d) == d);
    let p = seq!['+'] + z + decimal(n as nat);
    assert(p[0] == '+');
    assert(p.drop_first() =~= d);
    lemma_decimal((usize::MAX + 1) as nat);
    let big = decimal((usize::MAX + 1) as nat);
    assert(is_digit(big[0]));
    assert(unsigned(big) == big);
    if 0 <= i < s.len() && !('0' <= s[i] && s[i] <= '9') && !(i == 0 && s[i] == '+') {
        let u = unsigned(s);
        if s[0] == '+' {
            assert(u[i - 1] == s[i]);
            assert(!is_digit(u[i - 1]));
        } else {
            assert(!is_digit(u[i]));
        }
    }
}

proof fn lemma_zeros_in_front(zeros: nat, s: Seq<char>)
    ensures
        digits_value(Seq::new(zeros, |j: int| '0') + s) == digits_value(s),
    decreases s.len(), zeros,
{
    let z = Seq::new(zeros, |j: int| '0');
    if s.len() > 0 {
        lemma_zeros_in_front(zeros, s.drop_last());
        assert((z + s).drop_last() =~= z + s.drop_last());
        assert((z + s).last() == s.last());
    } else if zeros > 0 {
        lemma_zeros_in_front((zeros - 1) as nat, s);
        assert((z + s).drop_last() =~= Seq::new((zeros - 1) as nat, |j: int| '0') + s);
        assert((z + s).last() == '0');
    } else {
        assert(z + s =~= s);
    }
}

/// The words of a text are those that it was written of, with a blank between two of them and
/// white space behind the last.
pub proof fn law_words_are_those_written(ws: Seq<Seq<char>>, tail: Seq<char>)
    requires
        all_space(tail),
        forall|i: int|
            0 <= i < ws.len() ==> (#[trigger] ws[i]).len() > 0 && forall|j: int|
                0 <= j < ws[i].len() ==> !is_space(#[trigger] ws[i][j]),
    ensures
        words(joined(ws, ' ') + tail) == ws,
        ws.len() > 0 ==> words(seq![' '] + (joined(ws, ' ') + tail)) == ws,
    decreases ws.len(),
{
    let none = Seq::<char>::empty();
    if ws.len() == 0 {
        assert(joined(ws, ' ') + tail =~= tail);
        law_words_stand_between_white_space(tail, none, none);
    } else {
        let word = ws[0];
        let others = ws.drop_first();
        let rest = if ws.len() == 1 {
            tail
        } else {
            seq![' '] + (joined(others, ' ') + tail)
        };
        assert forall|i: int| 0 <= i < others.len() implies (#[trigger] others[i]).len() > 0
            && forall|j: int| 0 <= j < others[i].len() ==> !is_space(#[trigger] others[i][j]) by {
            assert(others[i] == ws[i + 1]);
        }
        law_words_are_those_written(others, tail);
        assert(ws[0].len() > 0);
        if ws.len() == 1 {
            assert(joined(ws, ' ') + tail =~= none + word + rest);
            law_words_stand_between_white_space(tail, none, none);
        } else {
            assert(joined(ws, ' ') + tail =~= none + word + rest);
            assert(rest[0] == ' ');
        }
        law_words_stand_between_white_space(none, word, rest);
        assert(seq![word] + others =~= ws);
        let blank = seq![' '];
        assert(blank + (joined(ws, ' ') + tail) =~= blank + word + rest);
        law_words_stand_between_white_space(blank, word, rest);
    }
}

} // verus!
