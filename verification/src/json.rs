//! JSON values, taken apart one level at a time: each part stays a JSON text.
use vstd::prelude::*;

use crate::replacements;
use crate::text;
use crate::text::{from_chars, is_text, to_chars};

verus! {

/// The beginning of a text that holds a JSON value and white space before it, and what follows
/// it, as a stream of `serde_json` finds them.
pub uninterp spec fn json_first(json: Seq<char>) -> Option<(Seq<char>, Seq<char>)>;

/// The characters of a JSON string, as `serde_json::from_str` reads it.
pub uninterp spec fn json_string(json: Seq<char>) -> Option<Seq<char>>;

/// The white space that JSON allows around a value.
pub open spec fn json_space(c: char) -> bool {
    c == ' ' || c == '\t' || c == '\n' || c == '\r'
}

/// A JSON text without the white space around it.
pub open spec fn bare(json: Seq<char>) -> Seq<char>
    decreases json.len(),
{
    if json.len() > 0 && json_space(json[0]) {
        bare(json.drop_first())
    } else if json.len() > 0 && json_space(json.last()) {
        bare(json.drop_last())
    } else {
        json
    }
}

/// A JSON string, or `null` for none.
pub open spec fn nullable(json: Seq<char>) -> Option<Option<Seq<char>>> {
    if bare(json) == "null"@ {
        Some(None)
    } else {
        match json_string(json) {
            Some(s) => Some(Some(s)),
            None => None,
        }
    }
}

/// A JSON truth value.
pub open spec fn truth(json: Seq<char>) -> Option<bool> {
    if bare(json) == "true"@ {
        Some(true)
    } else if bare(json) == "false"@ {
        Some(false)
    } else {
        None
    }
}

/// The texts of an optional list.
pub open spec fn elements_view(r: Option<Vec<String>>) -> Option<Seq<Seq<char>>> {
    match r {
        Some(v) => Some(text::string_views(v@)),
        None => None,
    }
}

/// The texts of an optional pair.
pub open spec fn pair_view(r: Option<(String, String)>) -> Option<(Seq<char>, Seq<char>)> {
    match r {
        Some(p) => Some((p.0@, p.1@)),
        None => None,
    }
}

/// The members of an optional object.
pub open spec fn members_view(r: Option<Vec<(String, String)>>) -> Option<
    Seq<(Seq<char>, Seq<char>)>,
> {
    match r {
        Some(v) => Some(replacements::pair_views(v@)),
        None => None,
    }
}

/// A text that may be missing on two accounts.
pub open spec fn nullable_view(r: Option<Option<String>>) -> Option<Option<Seq<char>>> {
    match r {
        Some(s) => Some(text::optional_view(s)),
        None => None,
    }
}

/// Calls `serde_json::Deserializer::into_iter` for one `IgnoredAny`, which passes over a value of
/// any kind, and splits the text where it ends: the two halves make up the text, and the first is
/// not empty. Gives nothing where the text begins with no JSON value.
#[verifier::external_body]
pub(crate) fn read_first(json: &str) -> (r: Option<(String, String)>)
    ensures
        pair_view(r) == json_first(json@),
        r matches Some(p) ==> p.0@.len() > 0 && p.0@ + p.1@ == json@,
{
    let mut values = serde_json::Deserializer::from_str(json).into_iter::<serde::de::IgnoredAny>();
    values.next()?.ok()?;
    let (value, rest) = json.split_at(values.byte_offset());
    Some((value.to_string(), rest.to_string()))
}

/// Calls `serde_json::from_str` for a `String`: the characters that the JSON string stands for,
/// or nothing where the text is none.
#[verifier::external_body]
pub(crate) fn read_string(json: &str) -> (r: Option<String>)
    ensures
        text::optional_view(r) == json_string(json@),
{
    serde_json::from_str::<String>(json).ok()
}

/// Calls `serde_json::from_str` for an `Option<String>`: `null` is a value of its own, and any
/// other text is read as a `String` is.
#[verifier::external_body]
pub(crate) fn read_nullable_string(json: &str) -> (r: Option<Option<String>>)
    ensures
        nullable_view(r) == nullable(json@),
{
    serde_json::from_str::<Option<String>>(json).ok()
}

/// Calls `serde_json::from_str` for a `bool`: `true` or `false`, or nothing where the text is
/// neither.
#[verifier::external_body]
pub(crate) fn read_bool(json: &str) -> (r: Option<bool>)
    ensures
        r == truth(json@),
{
    serde_json::from_str::<bool>(json).ok()
}

/// A text without the JSON white space that it begins with.
pub open spec fn unspaced(s: Seq<char>) -> Seq<char>
    decreases s.len(),
{
    if s.len() > 0 && json_space(s[0]) {
        unspaced(s.drop_first())
    } else {
        s
    }
}

/// What follows the mark `c`, where it is the first thing in the text but for white space.
pub open spec fn after_mark(s: Seq<char>, c: char) -> Option<Seq<char>> {
    let t = unspaced(s);
    if t.len() > 0 && t[0] == c {
        Some(t.drop_first())
    } else {
        None
    }
}

/// The text is the mark `c` that ends an object or an array, and nothing comes after it.
pub open spec fn ends_with_mark(s: Seq<char>, c: char) -> bool {
    after_mark(s, c) matches Some(rest) && unspaced(rest).len() == 0
}

/// The JSON value that a text begins with, and what follows it.
pub open spec fn first_value(s: Seq<char>) -> Option<(Seq<char>, Seq<char>)> {
    match json_first(s) {
        Some((value, rest)) => Some((unspaced(value), rest)),
        None => None,
    }
}

/// The elements from `s` to the end of the array, with commas between them.
pub open spec fn elements_from(s: Seq<char>) -> Option<Seq<Seq<char>>>
    decreases s.len(),
{
    match first_value(s) {
        Some((value, rest)) => if ends_with_mark(rest, ']') {
            Some(seq![value])
        } else {
            match after_mark(rest, ',') {
                Some(rest) => if rest.len() < s.len() {
                    match elements_from(rest) {
                        Some(others) => Some(seq![value] + others),
                        None => None,
                    }
                } else {
                    None
                },
                None => None,
            }
        },
        None => None,
    }
}

/// The elements of a JSON array, in order.
pub open spec fn elements(json: Seq<char>) -> Option<Seq<Seq<char>>> {
    match after_mark(json, '[') {
        Some(rest) => if ends_with_mark(rest, ']') {
            Some(Seq::empty())
        } else {
            elements_from(rest)
        },
        None => None,
    }
}

/// The first member of a list of members, and what follows it: a JSON string, a colon and a JSON
/// value.
pub open spec fn first_member(s: Seq<char>) -> Option<((Seq<char>, Seq<char>), Seq<char>)> {
    match first_value(s) {
        Some((key, rest)) => match (json_string(key), after_mark(rest, ':')) {
            (Some(key), Some(rest)) => match first_value(rest) {
                Some((value, rest)) => Some(((key, value), rest)),
                None => None,
            },
            _ => None,
        },
        None => None,
    }
}

/// The members from `s` to the end of the object, with commas between them.
pub open spec fn members_from(s: Seq<char>) -> Option<Seq<(Seq<char>, Seq<char>)>>
    decreases s.len(),
{
    match first_member(s) {
        Some((member, rest)) => if ends_with_mark(rest, '}') {
            Some(seq![member])
        } else {
            match after_mark(rest, ',') {
                Some(rest) => if rest.len() < s.len() {
                    match members_from(rest) {
                        Some(others) => Some(seq![member] + others),
                        None => None,
                    }
                } else {
                    None
                },
                None => None,
            }
        },
        None => None,
    }
}

/// The members of a JSON object in the order in which they stand, repeated keys included.
pub open spec fn members(json: Seq<char>) -> Option<Seq<(Seq<char>, Seq<char>)>> {
    match after_mark(json, '{') {
        Some(rest) => if ends_with_mark(rest, '}') {
            Some(Seq::empty())
        } else {
            members_from(rest)
        },
        None => None,
    }
}

fn skip_space(s: &[char]) -> (r: &[char])
    ensures
        r@ == unspaced(s@),
        r@.len() <= s@.len(),
{
    let mut lo: usize = 0;
    assert(s@.skip(0) =~= s@);
    while lo < s.len() && (s[lo] == ' ' || s[lo] == '\t' || s[lo] == '\n' || s[lo] == '\r')
        invariant
            lo <= s.len(),
            unspaced(s@) == unspaced(s@.skip(lo as int)),
        decreases s.len() - lo,
    {
        assert(s@.skip(lo as int).drop_first() =~= s@.skip(lo + 1));
        lo = lo + 1;
    }
    let r = vstd::slice::slice_subrange(s, lo, s.len());
    assert(r@ =~= s@.skip(lo as int));
    r
}

fn pass_mark(s: &str, c: char) -> (r: Option<String>)
    ensures
        text::optional_view(r) == after_mark(s@, c),
        r matches Some(rest) ==> rest@.len() < s@.len(),
{
    let all = to_chars(s);
    let t = skip_space(all.as_slice());
    if t.len() > 0 && t[0] == c {
        let rest = vstd::slice::slice_subrange(t, 1, t.len());
        assert(rest@ =~= t@.drop_first());
        Some(from_chars(rest))
    } else {
        None
    }
}

fn at_end(s: &str, c: char) -> (r: bool)
    ensures
        r == ends_with_mark(s@, c),
{
    match pass_mark(s, c) {
        Some(rest) => {
            let all = to_chars(rest.as_str());
            skip_space(all.as_slice()).len() == 0
        },
        None => false,
    }
}

fn read_value(s: &str) -> (r: Option<(String, String)>)
    ensures
        pair_view(r) == first_value(s@),
        r matches Some(p) ==> p.1@.len() < s@.len(),
{
    let (value, rest) = read_first(s)?;
    let all = to_chars(value.as_str());
    Some((from_chars(skip_space(all.as_slice())), rest))
}

/// The elements of a JSON array, in order, or nothing where the text is no JSON array.
pub fn read_elements(json: &str) -> (r: Option<Vec<String>>)
    ensures
        elements_view(r) == elements(json@),
{
    let mut rest = pass_mark(json, '[')?;
    let mut out: Vec<String> = Vec::new();
    assert(text::string_views(out@) =~= Seq::<Seq<char>>::empty());
    if at_end(rest.as_str(), ']') {
        return Some(out);
    }
    let ghost start = rest@;
    assert(continues(text::string_views(out@), elements_from(rest@)) =~= elements_from(start));
    loop
        invariant
            elements(json@) == elements_from(start),
            continues(text::string_views(out@), elements_from(rest@)) == elements_from(start),
        decreases rest@.len(),
    {
        let ghost before = text::string_views(out@);
        let (value, after) = read_value(rest.as_str())?;
        let ghost added = value@;
        out.push(value);
        assert(text::string_views(out@) =~= before.push(added));
        if at_end(after.as_str(), ']') {
            assert(before + seq![added] =~= before.push(added));
            return Some(out);
        }
        rest = pass_mark(after.as_str(), ',')?;
        proof {
            if let Some(others) = elements_from(rest@) {
                assert(before + (seq![added] + others) =~= before.push(added) + others);
            }
        }
    }
}

fn read_member(s: &str) -> (r: Option<((String, String), String)>)
    ensures
        match r {
            Some(p) => first_member(s@) == Some(((p.0.0@, p.0.1@), p.1@)) && p.1@.len() < s@.len(),
            None => first_member(s@) is None,
        },
{
    let (key, rest) = read_value(s)?;
    let key = read_string(key.as_str())?;
    let rest = pass_mark(rest.as_str(), ':')?;
    let (value, rest) = read_value(rest.as_str())?;
    Some(((key, value), rest))
}

/// The members of a JSON object in the order in which they stand, repeated keys included, or
/// nothing where the text is no JSON object.
pub fn read_members(json: &str) -> (r: Option<Vec<(String, String)>>)
    ensures
        members_view(r) == members(json@),
{
    let mut rest = pass_mark(json, '{')?;
    let mut out: Vec<(String, String)> = Vec::new();
    assert(replacements::pair_views(out@) =~= Seq::<(Seq<char>, Seq<char>)>::empty());
    if at_end(rest.as_str(), '}') {
        return Some(out);
    }
    let ghost start = rest@;
    assert(continues(replacements::pair_views(out@), members_from(rest@)) =~= members_from(start));
    loop
        invariant
            members(json@) == members_from(start),
            continues(replacements::pair_views(out@), members_from(rest@)) == members_from(start),
        decreases rest@.len(),
    {
        let ghost before = replacements::pair_views(out@);
        let ghost here = rest@;
        let (member, after) = read_member(rest.as_str())?;
        let ghost added = (member.0@, member.1@);
        out.push(member);
        assert(replacements::pair_views(out@) =~= before.push(added));
        if at_end(after.as_str(), '}') {
            assert(before + seq![added] =~= before.push(added));
            return Some(out);
        }
        rest = pass_mark(after.as_str(), ',')?;
        proof {
            if let Some(others) = members_from(rest@) {
                assert(before + (seq![added] + others) =~= before.push(added) + others);
            }
        }
    }
}

/// What has already been read, followed by what is still to come.
spec fn continues<A>(done: Seq<A>, others: Option<Seq<A>>) -> Option<Seq<A>> {
    match others {
        Some(others) => Some(done + others),
        None => None,
    }
}

/// The value of the only member with that key: nothing inside where there is no such member, and
/// nothing at all where there are several.
pub open spec fn only_value(ms: Seq<(Seq<char>, Seq<char>)>, key: Seq<char>) -> Option<
    Option<Seq<char>>,
>
    decreases ms.len(),
{
    if ms.len() == 0 {
        Some(None)
    } else {
        match only_value(ms.drop_last(), key) {
            Some(found) => if ms.last().0 != key {
                Some(found)
            } else if found is None {
                Some(Some(ms.last().1))
            } else {
                None
            },
            None => None,
        }
    }
}

/// The value of the only member with that key: nothing inside where there is no such member, and
/// nothing at all where there are several.
pub fn value_of(ms: &Vec<(String, String)>, key: &str) -> (r: Option<Option<String>>)
    ensures
        nullable_view(r) == only_value(replacements::pair_views(ms@), key@),
{
    let wanted = to_chars(key);
    let ghost want = replacements::pair_views(ms@);
    let mut found: Option<Option<String>> = Some(None);
    for i in 0..ms.len()
        invariant
            wanted@ == key@,
            want == replacements::pair_views(ms@),
            nullable_view(found) == only_value(want.take(i as int), key@),
    {
        assert(want.take(i + 1).drop_last() =~= want.take(i as int));
        assert(want.take(i + 1).last() == want[i as int]);
        assert(want[i as int] == (ms@[i as int].0@, ms@[i as int].1@));
        if is_text(wanted.as_slice(), ms[i].0.as_str()) {
            found = match found {
                Some(None) => Some(Some(ms[i].1.clone())),
                _ => None,
            };
        }
    }
    assert(want.take(ms.len() as int) =~= want);
    found
}

/// Members with other keys do not matter, wherever they stand in the object.
pub proof fn law_other_members_do_not_matter(
    before: Seq<(Seq<char>, Seq<char>)>,
    other: (Seq<char>, Seq<char>),
    after: Seq<(Seq<char>, Seq<char>)>,
    key: Seq<char>,
)
    requires
        other.0 != key,
    ensures
        only_value(before.push(other) + after, key) == only_value(before + after, key),
    decreases after.len(),
{
    if after.len() == 0 {
        assert(before.push(other) + after =~= before.push(other));
        assert(before + after =~= before);
        assert(before.push(other).drop_last() =~= before);
    } else {
        law_other_members_do_not_matter(before, other, after.drop_last(), key);
        assert((before.push(other) + after).drop_last() =~= before.push(other) + after.drop_last());
        assert((before + after).drop_last() =~= before + after.drop_last());
    }
}

/// The text holds nothing but blanks, tabs, line feeds and carriage returns.
pub open spec fn is_blank(s: Seq<char>) -> bool {
    forall|i: int|
        0 <= i < s.len() ==> {
            let c = #[trigger] s[i];
            c == ' ' || c == '\t' || c == '\n' || c == '\r'
        }
}

/// The text begins and ends with something else.
pub open spec fn is_tight(s: Seq<char>) -> bool {
    &&& s.len() > 0
    &&& !is_blank(seq![s[0]])
    &&& !is_blank(seq![s.last()])
}

proof fn lemma_space(c: char)
    ensures
        json_space(c) <==> is_blank(seq![c]),
{
    if json_space(c) {
        assert(is_blank(seq![c]));
    } else {
        assert(seq![c][0] == c);
    }
}

proof fn lemma_unspaced(sp: Seq<char>, t: Seq<char>)
    requires
        is_blank(sp),
        t.len() > 0 ==> !is_blank(seq![t[0]]),
    ensures
        unspaced(sp + t) == t,
    decreases sp.len(),
{
    if sp.len() == 0 {
        assert(sp + t =~= t);
        if t.len() > 0 {
            lemma_space(t[0]);
        }
    } else {
        let rest = sp.drop_first();
        assert forall|i: int| 0 <= i < rest.len() implies {
            let c = #[trigger] rest[i];
            c == ' ' || c == '\t' || c == '\n' || c == '\r'
        } by {
            assert(rest[i] == sp[i + 1]);
        }
        assert((sp + t)[0] == sp[0]);
        assert(json_space(sp[0]));
        assert((sp + t).drop_first() =~= rest + t);
        lemma_unspaced(rest, t);
    }
}

proof fn lemma_mark(sp: Seq<char>, mark: char, rest: Seq<char>, c: char)
    requires
        is_blank(sp),
        !is_blank(seq![mark]),
    ensures
        mark == c ==> after_mark(sp + seq![mark] + rest, c) == Some(rest),
        mark != c ==> after_mark(sp + seq![mark] + rest, c) is None,
{
    let t = seq![mark] + rest;
    assert(sp + seq![mark] + rest =~= sp + t);
    assert(t[0] == mark);
    lemma_unspaced(sp, t);
    assert(t.drop_first() =~= rest);
}

/// White space around a value does not matter.
pub proof fn law_blanks_around_a_value_do_not_matter(a: Seq<char>, t: Seq<char>, b: Seq<char>)
    requires
        is_blank(a),
        is_blank(b),
        is_tight(t),
    ensures
        bare(a + t + b) == t,
    decreases a.len() + b.len(),
{
    let s = a + t + b;
    if a.len() > 0 {
        let rest = a.drop_first();
        assert forall|i: int| 0 <= i < rest.len() implies {
            let c = #[trigger] rest[i];
            c == ' ' || c == '\t' || c == '\n' || c == '\r'
        } by {
            assert(rest[i] == a[i + 1]);
        }
        assert(s[0] == a[0]);
        assert(json_space(a[0]));
        assert(s.drop_first() =~= rest + t + b);
        law_blanks_around_a_value_do_not_matter(rest, t, b);
    } else {
        assert(s[0] == t[0]);
        lemma_space(t[0]);
        if b.len() > 0 {
            let rest = b.drop_last();
            assert forall|i: int| 0 <= i < rest.len() implies {
                let c = #[trigger] rest[i];
                c == ' ' || c == '\t' || c == '\n' || c == '\r'
            } by {
                assert(rest[i] == b[i]);
            }
            assert(s.last() == b[b.len() - 1]);
            assert(json_space(b[b.len() - 1]));
            assert(s.drop_last() =~= a + t + rest);
            law_blanks_around_a_value_do_not_matter(a, t, rest);
        } else {
            assert(s =~= t);
            lemma_space(t.last());
        }
    }
}

/// Truth values are written `true` and `false`, and in no other way; `null` is no string.
pub proof fn law_truth_and_nothing_are_words(a: Seq<char>, t: Seq<char>, b: Seq<char>)
    requires
        is_blank(a),
        is_blank(b),
        is_tight(t),
    ensures
        truth(a + t + b) == (if t == "true"@ {
            Some(true)
        } else if t == "false"@ {
            Some(false)
        } else {
            None
        }),
        t == "null"@ ==> nullable(a + t + b) == Some(None::<Seq<char>>),
        t != "null"@ && json_string(a + t + b) is Some ==> nullable(a + t + b) == Some(
            json_string(a + t + b),
        ),
        t != "null"@ && json_string(a + t + b) is None ==> nullable(a + t + b) is None,
{
    law_blanks_around_a_value_do_not_matter(a, t, b);
}

/// A value in an array, with the white space before and behind it.
pub struct Item {
    pub before: Seq<char>,
    pub value: Seq<char>,
    pub behind: Seq<char>,
}

/// The items with commas between them, up to the end of the array.
pub open spec fn items_written(items: Seq<Item>, tail: Seq<char>) -> Seq<char>
    decreases items.len(),
{
    if items.len() == 0 {
        Seq::empty()
    } else {
        items[0].before + items[0].value + items[0].behind + items_rest(items, tail)
    }
}

/// What follows the first item.
pub open spec fn items_rest(items: Seq<Item>, tail: Seq<char>) -> Seq<char>
    decreases items.len(), 0int,
{
    if items.len() <= 1 {
        seq![']'] + tail
    } else {
        seq![','] + items_written(items.drop_first(), tail)
    }
}

/// The white space is white space, the values begin and end with something else, and each is the
/// first value where it stands.
pub open spec fn items_stand(items: Seq<Item>, tail: Seq<char>) -> bool
    decreases items.len(),
{
    items.len() > 0 ==> {
        &&& is_blank(items[0].before)
        &&& is_blank(items[0].behind)
        &&& is_tight(items[0].value)
        &&& json_first(items_written(items, tail)) == Some(
            (
                items[0].before + items[0].value,
                items[0].behind + items_rest(items, tail),
            ),
        )
        &&& items_stand(items.drop_first(), tail)
    }
}

/// The elements of an array are the values written in it, all of them, in order and without the
/// white space around them.
pub proof fn law_an_array_holds_what_is_written_in_it(
    lead: Seq<char>,
    sp: Seq<char>,
    items: Seq<Item>,
    tail: Seq<char>,
)
    ensures
        is_blank(lead) && is_blank(sp) && is_blank(tail) ==> elements(
            lead + seq!['['] + sp + seq![']'] + tail,
        ) == Some(Seq::<Seq<char>>::empty()),
        is_blank(lead) && is_blank(tail) && items.len() > 0 && items_stand(items, tail)
            ==> elements(lead + seq!['['] + items_written(items, tail)) == Some(
            items.map_values(|item: Item| item.value),
        ),
{
    lemma_brackets();
    if is_blank(lead) && is_blank(sp) && is_blank(tail) {
        let inner = sp + seq![']'] + tail;
        assert(lead + seq!['['] + sp + seq![']'] + tail =~= lead + seq!['['] + inner);
        lemma_mark(lead, '[', inner, '[');
        lemma_mark(sp, ']', tail, ']');
        lemma_unspaced(tail, Seq::empty());
        assert(tail + Seq::<char>::empty() =~= tail);
    }
    if is_blank(lead) && is_blank(tail) && items.len() > 0 && items_stand(items, tail) {
        let inner = items_written(items, tail);
        lemma_mark(lead, '[', inner, '[');
        lemma_items(items, tail);
        // A value stands in front of the end.
        let v = items[0].value;
        let after = v.drop_first() + items[0].behind + items_rest(items, tail);
        assert(inner =~= items[0].before + seq![v[0]] + after);
        lemma_mark(items[0].before, v[0], after, ']');
        if v[0] == ']' {
            lemma_unspaced_nonempty(v, items[0].behind, items, tail);
        }
    }
}

proof fn lemma_brackets()
    ensures
        !is_blank(seq!['[']),
        !is_blank(seq![']']),
        !is_blank(seq!['{']),
        !is_blank(seq!['}']),
        !is_blank(seq![',']),
        !is_blank(seq![':']),
{
    lemma_space('[');
    lemma_space(']');
    lemma_space('{');
    lemma_space('}');
    lemma_space(',');
    lemma_space(':');
}

/// What follows the first character of the items holds more than white space.
proof fn lemma_unspaced_nonempty(
    v: Seq<char>,
    behind: Seq<char>,
    items: Seq<Item>,
    tail: Seq<char>,
)
    requires
        v.len() > 0,
    ensures
        unspaced(v.drop_first() + behind + items_rest(items, tail)).len() > 0,
{
    lemma_brackets();
    let s = v.drop_first() + behind + items_rest(items, tail);
    let k = (v.len() - 1 + behind.len()) as int;
    assert(items_rest(items, tail)[0] == ']' || items_rest(items, tail)[0] == ',');
    assert(s[k] == items_rest(items, tail)[0]);
    lemma_space(s[k]);
    lemma_not_all_space(s, k);
}

proof fn lemma_not_all_space(s: Seq<char>, k: int)
    requires
        0 <= k < s.len(),
        !json_space(s[k]),
    ensures
        unspaced(s).len() > 0,
    decreases s.len(),
{
    if json_space(s[0]) {
        assert(s.drop_first()[k - 1] == s[k]);
        lemma_not_all_space(s.drop_first(), k - 1);
    }
}

proof fn lemma_items(items: Seq<Item>, tail: Seq<char>)
    requires
        items.len() > 0,
        is_blank(tail),
        items_stand(items, tail),
    ensures
        elements_from(items_written(items, tail)) == Some(
            items.map_values(|item: Item| item.value),
        ),
    decreases items.len(),
{
    lemma_brackets();
    let s = items_written(items, tail);
    let item = items[0];
    let values = items.map_values(|item: Item| item.value);
    let rest = item.behind + items_rest(items, tail);
    lemma_unspaced(item.before, item.value);
    assert(first_value(s) == Some((item.value, rest)));
    if items.len() == 1 {
        assert(rest =~= item.behind + seq![']'] + tail);
        lemma_mark(item.behind, ']', tail, ']');
        lemma_unspaced(tail, Seq::empty());
        assert(tail + Seq::<char>::empty() =~= tail);
        assert(seq![item.value] =~= values);
    } else {
        let others = items.drop_first();
        let next = items_written(others, tail);
        assert(rest =~= item.behind + seq![','] + next);
        lemma_mark(item.behind, ',', next, ']');
        lemma_mark(item.behind, ',', next, ',');
        lemma_items(others, tail);
        assert(s.len() > next.len());
        assert(seq![item.value] + others.map_values(|item: Item| item.value) =~= values);
    }
}

/// A member of an object: the JSON string that is its key, the name that the string stands for,
/// and its value.
pub struct Member {
    pub key: Item,
    pub name: Seq<char>,
    pub value: Item,
}

/// The members with commas between them, up to the end of the object.
pub open spec fn members_written(members: Seq<Member>, tail: Seq<char>) -> Seq<char>
    decreases members.len(), 2int,
{
    if members.len() == 0 {
        Seq::empty()
    } else {
        let key = members[0].key;
        key.before + key.value + key.behind + seq![':'] + value_written(members, tail)
    }
}

/// The first member from its value on.
pub open spec fn value_written(members: Seq<Member>, tail: Seq<char>) -> Seq<char>
    decreases members.len(), 1int,
{
    let value = members[0].value;
    value.before + value.value + value.behind + members_rest(members, tail)
}

/// What follows the first member.
pub open spec fn members_rest(members: Seq<Member>, tail: Seq<char>) -> Seq<char>
    decreases members.len(), 0int,
{
    if members.len() <= 1 {
        seq!['}'] + tail
    } else {
        seq![','] + members_written(members.drop_first(), tail)
    }
}

/// The white space is white space, keys and values begin and end with something else, each is the
/// first value where it stands, and the keys are strings.
pub open spec fn members_stand(members: Seq<Member>, tail: Seq<char>) -> bool
    decreases members.len(),
{
    members.len() > 0 ==> {
        let key = members[0].key;
        let value = members[0].value;
        &&& is_blank(key.before) && is_blank(key.behind) && is_tight(key.value)
        &&& is_blank(value.before) && is_blank(value.behind) && is_tight(value.value)
        &&& json_first(members_written(members, tail)) == Some(
            (key.before + key.value, key.behind + seq![':'] + value_written(members, tail)),
        )
        &&& json_string(key.value) == Some(members[0].name)
        &&& json_first(value_written(members, tail)) == Some(
            (value.before + value.value, value.behind + members_rest(members, tail)),
        )
        &&& members_stand(members.drop_first(), tail)
    }
}

/// The members of an object are the names and values written in it, all of them, in order and
/// without the white space around them.
pub proof fn law_an_object_holds_what_is_written_in_it(
    lead: Seq<char>,
    sp: Seq<char>,
    ms: Seq<Member>,
    tail: Seq<char>,
)
    ensures
        is_blank(lead) && is_blank(sp) && is_blank(tail) ==> members(
            lead + seq!['{'] + sp + seq!['}'] + tail,
        ) == Some(Seq::<(Seq<char>, Seq<char>)>::empty()),
        is_blank(lead) && is_blank(tail) && ms.len() > 0 && members_stand(ms, tail) ==> members(
            lead + seq!['{'] + members_written(ms, tail),
        ) == Some(ms.map_values(|m: Member| (m.name, m.value.value))),
{
    lemma_brackets();
    if is_blank(lead) && is_blank(sp) && is_blank(tail) {
        let inner = sp + seq!['}'] + tail;
        assert(lead + seq!['{'] + sp + seq!['}'] + tail =~= lead + seq!['{'] + inner);
        lemma_mark(lead, '{', inner, '{');
        lemma_mark(sp, '}', tail, '}');
        lemma_unspaced(tail, Seq::empty());
        assert(tail + Seq::<char>::empty() =~= tail);
    }
    if is_blank(lead) && is_blank(tail) && ms.len() > 0 && members_stand(ms, tail) {
        let inner = members_written(ms, tail);
        lemma_mark(lead, '{', inner, '{');
        lemma_members(ms, tail);
        let key = ms[0].key;
        let v = key.value;
        let after = v.drop_first() + key.behind + seq![':'] + value_written(ms, tail);
        assert(inner =~= key.before + seq![v[0]] + after);
        lemma_mark(key.before, v[0], after, '}');
        let k = (v.len() - 1 + key.behind.len()) as int;
        assert(after[k] == ':');
        lemma_not_all_space(after, k);
    }
}

proof fn lemma_members(ms: Seq<Member>, tail: Seq<char>)
    requires
        ms.len() > 0,
        is_blank(tail),
        members_stand(ms, tail),
    ensures
        members_from(members_written(ms, tail)) == Some(
            ms.map_values(|m: Member| (m.name, m.value.value)),
        ),
    decreases ms.len(),
{
    lemma_brackets();
    let s = members_written(ms, tail);
    let key = ms[0].key;
    let value = ms[0].value;
    let pair = (ms[0].name, value.value);
    let pairs = ms.map_values(|m: Member| (m.name, m.value.value));
    let rest = value.behind + members_rest(ms, tail);
    lemma_unspaced(key.before, key.value);
    lemma_unspaced(value.before, value.value);
    lemma_mark(key.behind, ':', value_written(ms, tail), ':');
    assert(first_member(s) == Some((pair, rest)));
    if ms.len() == 1 {
        assert(rest =~= value.behind + seq!['}'] + tail);
        lemma_mark(value.behind, '}', tail, '}');
        lemma_unspaced(tail, Seq::empty());
        assert(tail + Seq::<char>::empty() =~= tail);
        assert(seq![pair] =~= pairs);
    } else {
        let others = ms.drop_first();
        let next = members_written(others, tail);
        assert(rest =~= value.behind + seq![','] + next);
        lemma_mark(value.behind, ',', next, '}');
        lemma_mark(value.behind, ',', next, ',');
        lemma_members(others, tail);
        assert(s.len() > next.len());
        assert(seq![pair] + others.map_values(|m: Member| (m.name, m.value.value)) =~= pairs);
    }
}

/// A text that does not begin with the opening bracket is no array, and one that does not begin
/// with the opening brace is no object.
pub proof fn law_the_first_mark_tells_the_kind(lead: Seq<char>, c: char, rest: Seq<char>)
    requires
        is_blank(lead),
        !is_blank(seq![c]),
    ensures
        c != '[' ==> elements(lead + seq![c] + rest) is None,
        c != '{' ==> members(lead + seq![c] + rest) is None,
{
    lemma_mark(lead, c, rest, '[');
    lemma_mark(lead, c, rest, '{');
}

/// A key that no member has gives nothing inside, one that a single member has gives its value,
/// and one that two members have gives nothing at all.
pub proof fn law_a_key_has_one_value(
    ms: Seq<(Seq<char>, Seq<char>)>,
    key: Seq<char>,
    i: int,
    j: int,
)
    requires
        0 <= i < ms.len(),
        ms[i].0 == key,
        forall|k: int| 0 <= k < i ==> (#[trigger] ms[k]).0 != key,
    ensures
        only_value(ms.take(i), key) == Some(None::<Seq<char>>),
        (forall|k: int| i < k < ms.len() ==> (#[trigger] ms[k]).0 != key) ==> only_value(ms, key)
            == Some(Some(ms[i].1)),
        i < j < ms.len() && ms[j].0 == key ==> only_value(ms, key) is None,
    decreases ms.len(),
{
    let front = ms.drop_last();
    assert(ms.last() == ms[ms.len() - 1]);
    if i == ms.len() - 1 {
        lemma_key_is_missing(ms.take(i), key);
        assert(front =~= ms.take(i));
    } else {
        assert(front[i] == ms[i]);
        assert forall|k: int| 0 <= k < i implies (#[trigger] front[k]).0 != key by {
            assert(front[k] == ms[k]);
        }
        law_a_key_has_one_value(front, key, i, j);
        assert(front.take(i) =~= ms.take(i));
        if forall|k: int| i < k < ms.len() ==> (#[trigger] ms[k]).0 != key {
            assert forall|k: int| i < k < front.len() implies (#[trigger] front[k]).0 != key by {
                assert(front[k] == ms[k]);
            }
        }
        if i < j < ms.len() && ms[j].0 == key {
            if j < front.len() {
                assert(front[j] == ms[j]);
            } else {
                lemma_key_stays(front, key, i);
            }
        }
    }
}

proof fn lemma_key_is_missing(ms: Seq<(Seq<char>, Seq<char>)>, key: Seq<char>)
    requires
        forall|k: int| 0 <= k < ms.len() ==> (#[trigger] ms[k]).0 != key,
    ensures
        only_value(ms, key) == Some(None::<Seq<char>>),
    decreases ms.len(),
{
    if ms.len() > 0 {
        let front = ms.drop_last();
        assert forall|k: int| 0 <= k < front.len() implies (#[trigger] front[k]).0 != key by {
            assert(front[k] == ms[k]);
        }
        lemma_key_is_missing(front, key);
        assert(ms.last() == ms[ms.len() - 1]);
    }
}

proof fn lemma_key_stays(ms: Seq<(Seq<char>, Seq<char>)>, key: Seq<char>, i: int)
    requires
        0 <= i < ms.len(),
        ms[i].0 == key,
    ensures
        only_value(ms, key) != Some(None::<Seq<char>>),
    decreases ms.len(),
{
    if i < ms.len() - 1 {
        assert(ms.drop_last()[i] == ms[i]);
        lemma_key_stays(ms.drop_last(), key, i);
    }
}

} // verus!
