//! Maps descriptive layout names ("Portuguese (Nativo)") to xkb codes
//! ("pt", with the variant "nativo") by reading the xkb registry, evdev.xml.
//! Needed because some desktops report descriptions, not codes.
use vstd::hash_map::StringHashMap;
use vstd::prelude::*;

use crate::layout::{LayoutSpec, LayoutView};
use crate::text;
use crate::text::{find, from_chars, lines, split_once, starts_with, to_chars, trim};

verus! {

/// What stands between the first opening and the first closing tag of that name in a line.
pub open spec fn tagged(line: Seq<char>, tag: Seq<char>) -> Option<Seq<char>> {
    let open = "<"@ + tag + ">"@;
    let close = "</"@ + tag + ">"@;
    match (text::find_text(line, open), text::find_text(line, close)) {
        (Some(at), Some(end)) => if at + open.len() <= end {
            Some(line.subrange(at + open.len(), end))
        } else {
            None
        },
        _ => None,
    }
}

/// What stands between the first opening and the first closing tag of that name in a line.
pub fn tag_content<'a>(line: &'a [char], tag: &str) -> (r: Option<&'a [char]>)
    ensures
        match r {
            Some(content) => tagged(line@, tag@) == Some(content@),
            None => tagged(line@, tag@) is None,
        },
{
    let open = enclosed("<", tag, ">");
    let close = enclosed("</", tag, ">");
    match (find(line, open.as_slice()), find(line, close.as_slice())) {
        (Some(at), Some(end)) => {
            if at + open.len() <= end {
                Some(vstd::slice::slice_subrange(line, at + open.len(), end))
            } else {
                None
            }
        },
        _ => None,
    }
}

fn enclosed(before: &str, name: &str, after: &str) -> (r: Vec<char>)
    ensures
        r@ == before@ + name@ + after@,
{
    let mut all = to_chars(before);
    let mut middle = to_chars(name);
    let mut end = to_chars(after);
    all.append(&mut middle);
    all.append(&mut end);
    all
}

/// How far the registry has been read, line by line.
pub struct XmlView {
    /// The layout list has begun.
    pub inside: bool,
    /// The layout list has ended.
    pub ended: bool,
    /// What is being described is a variant of the current layout.
    pub in_variant: bool,
    /// The code of the layout described last.
    pub layout: Option<Seq<char>>,
    /// The code whose description is still to come.
    pub name: Option<Seq<char>>,
    /// What has been described so far.
    pub found: Map<Seq<char>, LayoutView>,
}

/// Nothing has been read.
pub open spec fn unread() -> XmlView {
    XmlView {
        inside: false,
        ended: false,
        in_variant: false,
        layout: None,
        name: None,
        found: Map::empty(),
    }
}

/// A description was read: it names what the code before it stands for.
pub open spec fn described(s: XmlView, description: Seq<char>) -> XmlView {
    match s.name {
        None => s,
        Some(name) => if !s.in_variant {
            XmlView {
                layout: Some(name),
                name: None,
                found: s.found.insert(
                    description,
                    LayoutView { layout: name, variant: None },
                ),
                ..s
            }
        } else {
            match s.layout {
                Some(layout) => XmlView {
                    name: None,
                    found: s.found.insert(
                        description,
                        LayoutView { layout, variant: Some(name) },
                    ),
                    ..s
                },
                None => XmlView { name: None, ..s },
            }
        },
    }
}

/// A line inside the layout list was read.
pub open spec fn listed_line(s: XmlView, line: Seq<char>) -> XmlView {
    if text::begins_with(line, "<layout>"@) {
        XmlView { in_variant: false, name: None, ..s }
    } else if text::begins_with(line, "<variant"@) {
        XmlView { in_variant: true, name: None, ..s }
    } else {
        match (tagged(line, "name"@), tagged(line, "description"@)) {
            (Some(name), _) => if s.name is None {
                XmlView { name: Some(name), ..s }
            } else {
                s
            },
            (None, Some(description)) => described(s, description),
            (None, None) => s,
        }
    }
}

/// A line was read. Only the layout list matters: models and options have names and
/// descriptions too, and stand outside of it.
pub open spec fn read_line(s: XmlView, raw: Seq<char>) -> XmlView {
    let line = text::trimmed(raw);
    if s.ended {
        s
    } else if opens_list(raw) {
        listed_line(XmlView { inside: true, ..s }, line)
    } else if closes_list(raw) {
        XmlView { ended: true, ..s }
    } else if s.inside {
        listed_line(s, line)
    } else {
        s
    }
}

/// The line begins the layout list.
pub open spec fn opens_list(raw: Seq<char>) -> bool {
    text::begins_with(text::trimmed(raw), "<layoutList"@)
}

/// The line ends the layout list.
pub open spec fn closes_list(raw: Seq<char>) -> bool {
    !opens_list(raw) && text::begins_with(text::trimmed(raw), "</layoutList"@)
}

/// What has been read after the lines.
pub open spec fn read_lines(s: XmlView, lines: Seq<Seq<char>>) -> XmlView
    decreases lines.len(),
{
    if lines.len() == 0 {
        s
    } else {
        read_line(read_lines(s, lines.drop_last()), lines.last())
    }
}

/// The descriptions of a registry and the layouts that they stand for.
pub open spec fn descriptions(lines: Seq<Seq<char>>) -> Map<Seq<char>, LayoutView> {
    read_lines(unread(), lines).found
}

/// The specs of a map, as values.
pub open spec fn spec_views(m: Map<Seq<char>, LayoutSpec>) -> Map<Seq<char>, LayoutView> {
    m.map_values(|s: LayoutSpec| s@)
}

spec fn optional(cs: Option<Vec<char>>) -> Option<Seq<char>> {
    match cs {
        Some(cs) => Some(cs@),
        None => None,
    }
}

/// Reads evdev.xml line by line. Structure inside the layout list:
/// `<layout><configItem><name>pt</name>...<description>Portuguese</description>...`
/// `<variantList><variant><configItem><name>nativo</name>`
/// `<description>Portuguese (Nativo)</description>...`
fn parse_evdev_xml(xml: &str) -> (map: StringHashMap<LayoutSpec>)
    ensures
        spec_views(map@) == descriptions(text::lines_of(xml@)),
{
    let all = to_chars(xml);
    let ls = lines(all.as_slice());
    let ghost want = text::lines_of(xml@);
    let mut map: StringHashMap<LayoutSpec> = StringHashMap::new();
    let mut inside = false;
    let mut ended = false;
    let mut in_variant = false;
    let mut current: Option<Vec<char>> = None;
    let mut pending: Option<Vec<char>> = None;
    assert(spec_views(map@) =~= Map::<Seq<char>, LayoutView>::empty());
    for i in 0..ls.len()
        invariant
            want == text::views(ls@),
            read_lines(unread(), want.take(i as int)) == (XmlView {
                inside,
                ended,
                in_variant,
                layout: optional(current),
                name: optional(pending),
                found: spec_views(map@),
            }),
    {
        let ghost before = read_lines(unread(), want.take(i as int));
        assert(want.take(i + 1).drop_last() =~= want.take(i as int));
        assert(want.take(i + 1).last() == want[i as int]);
        assert(want[i as int] == ls@[i as int]@);
        let line = trim(ls[i]);
        if !ended {
            if starts_with(line, "<layoutList") {
                inside = true;
            } else if starts_with(line, "</layoutList") {
                ended = true;
            }
            if inside && !ended {
                if starts_with(line, "<layout>") {
                    in_variant = false;
                    pending = None;
                } else if starts_with(line, "<variant") {
                    in_variant = true;
                    pending = None;
                } else if let Some(name) = tag_content(line, "name") {
                    if pending.is_none() {
                        pending = Some(vstd::slice::slice_to_vec(name));
                    }
                } else if let Some(description) = tag_content(line, "description") {
                    if let Some(name) = pending.take() {
                        let ghost old_map = map@;
                        if in_variant {
                            if let Some(layout) = &current {
                                let spec = LayoutSpec {
                                    layout: from_chars(layout.as_slice()),
                                    variant: Some(from_chars(name.as_slice())),
                                };
                                map.insert(from_chars(description), spec);
                                assert(spec_views(map@) =~= spec_views(old_map).insert(
                                    description@,
                                    spec@,
                                ));
                            }
                        } else {
                            let spec = LayoutSpec {
                                layout: from_chars(name.as_slice()),
                                variant: None,
                            };
                            map.insert(from_chars(description), spec);
                            assert(spec_views(map@) =~= spec_views(old_map).insert(
                                description@,
                                spec@,
                            ));
                            current = Some(name);
                        }
                    }
                }
            }
        }
    }
    assert(want.take(ls.len() as int) =~= want);
    map
}

/// Before its layout list begins a registry says nothing, however many names and descriptions
/// its models have.
pub proof fn law_lines_before_the_list_say_nothing(
    before: Seq<Seq<char>>,
    rest: Seq<Seq<char>>,
)
    requires
        forall|i: int|
            0 <= i < before.len() ==> !opens_list(#[trigger] before[i]) && !closes_list(before[i]),
    ensures
        descriptions(before + rest) == descriptions(rest),
{
    lemma_prefix(before);
    lemma_lines_compose(unread(), before, rest);
}

/// Once its layout list has ended a registry says no more, however many names and descriptions
/// its options have.
pub proof fn law_lines_after_the_list_say_nothing(list: Seq<Seq<char>>, rest: Seq<Seq<char>>)
    requires
        list.len() > 0,
        closes_list(list.last()),
    ensures
        descriptions(list + rest) == descriptions(list.drop_last()),
{
    let s = read_lines(unread(), list);
    lemma_lines_compose(unread(), list, rest);
    lemma_ended(s, rest);
}

proof fn lemma_prefix(before: Seq<Seq<char>>)
    requires
        forall|i: int|
            0 <= i < before.len() ==> !opens_list(#[trigger] before[i]) && !closes_list(before[i]),
    ensures
        read_lines(unread(), before) == unread(),
    decreases before.len(),
{
    if before.len() > 0 {
        let front = before.drop_last();
        assert forall|i: int| 0 <= i < front.len() implies !opens_list(#[trigger] front[i])
            && !closes_list(front[i]) by {
            assert(front[i] == before[i]);
        }
        lemma_prefix(front);
        assert(before.last() == before[before.len() - 1]);
    }
}

proof fn lemma_lines_compose(s: XmlView, a: Seq<Seq<char>>, b: Seq<Seq<char>>)
    ensures
        read_lines(s, a + b) == read_lines(read_lines(s, a), b),
    decreases b.len(),
{
    if b.len() == 0 {
        assert(a + b =~= a);
    } else {
        lemma_lines_compose(s, a, b.drop_last());
        assert((a + b).drop_last() =~= a + b.drop_last());
        assert((a + b).last() == b.last());
    }
}

proof fn lemma_ended(s: XmlView, lines: Seq<Seq<char>>)
    requires
        s.ended,
    ensures
        read_lines(s, lines) == s,
    decreases lines.len(),
{
    if lines.len() > 0 {
        lemma_ended(s, lines.drop_last());
    }
}

/// `pt+nativo` as a layout and its variant, and anything else as a layout.
pub open spec fn plus_spec(s: Seq<char>) -> LayoutView {
    match text::cut(s, '+') {
        Some((layout, variant)) => LayoutView { layout, variant: Some(variant) },
        None => LayoutView { layout: s, variant: None },
    }
}

/// `pt+nativo` as a layout and its variant, and anything else as a layout.
pub(crate) fn split_plus(s: &[char]) -> (r: LayoutSpec)
    ensures
        r@ == plus_spec(s@),
{
    match split_once(s, '+') {
        Some((layout, variant)) => LayoutSpec {
            layout: from_chars(layout),
            variant: Some(from_chars(variant)),
        },
        None => LayoutSpec { layout: from_chars(s), variant: None },
    }
}

/// A character of a layout code.
pub open spec fn code_char(c: char) -> bool {
    ||| 'a' <= c <= 'z'
    ||| 'A' <= c <= 'Z'
    ||| '0' <= c <= '9'
    ||| c == '+'
    ||| c == '_'
}

/// The longest text that is taken for a layout code.
pub const MAX_CODE_LEN: usize = 32;

/// The text can be a layout code: short, and made of code characters only.
pub open spec fn is_code(s: Seq<char>) -> bool {
    &&& s.len() <= MAX_CODE_LEN
    &&& forall|i: int| 0 <= i < s.len() ==> code_char(#[trigger] s[i])
}

fn looks_like_code(s: &[char]) -> (r: bool)
    ensures
        r == is_code(s@),
{
    if s.len() > MAX_CODE_LEN {
        return false;
    }
    for i in 0..s.len()
        invariant
            forall|j: int| 0 <= j < i ==> code_char(#[trigger] s@[j]),
    {
        let c = s[i];
        if !(('a' <= c && c <= 'z') || ('A' <= c && c <= 'Z') || ('0' <= c && c <= '9') || c == '+'
            || c == '_') {
            assert(!code_char(s@[i as int]));
            return false;
        }
    }
    true
}

/// What a name stands for: what the registry describes by it, or a code as it is written.
pub open spec fn resolved(known: Map<Seq<char>, LayoutView>, name: Seq<char>) -> Option<
    LayoutView,
> {
    let name = text::trimmed(name);
    if name.len() == 0 {
        None
    } else if known.contains_key(name) {
        Some(known[name])
    } else if is_code(name) {
        Some(plus_spec(name))
    } else {
        None
    }
}

/// A layout that may be missing, as values.
pub open spec fn spec_view(r: Option<LayoutSpec>) -> Option<LayoutView> {
    match r {
        Some(spec) => Some(spec@),
        None => None,
    }
}

/// The descriptions of layouts and what they stand for.
pub struct Registry {
    by_description: StringHashMap<LayoutSpec>,
}

impl View for Registry {
    type V = Map<Seq<char>, LayoutView>;

    closed spec fn view(&self) -> Map<Seq<char>, LayoutView> {
        spec_views(self.by_description@)
    }
}

/// Where the registry may be found, in the order of preference.
pub open spec fn registry_paths() -> Seq<&'static str> {
    seq![
        "/usr/share/X11/xkb/rules/evdev.xml",
        "/usr/share/xkeyboard-config-2/rules/evdev.xml",
    ]
}

/// Where the registry may be found, in the order of preference.
pub fn evdev_xml_paths() -> (r: Vec<&'static str>)
    ensures
        r@ == registry_paths(),
{
    vec![
        "/usr/share/X11/xkb/rules/evdev.xml",
        "/usr/share/xkeyboard-config-2/rules/evdev.xml",
    ]
}

/// What the files hold, one after the other: the first that can be read counts.
pub open spec fn first_readable<F: Fn(&str) -> Option<String>>(
    read: F,
    paths: Seq<&'static str>,
    from: int,
    xml: Option<Seq<char>>,
) -> bool
    decreases paths.len() - from,
{
    if from >= paths.len() {
        xml is None
    } else {
        exists|content: Option<String>| #[trigger]
            call_ensures(read, (paths[from],), content) && match content {
                Some(content) => xml == Some(content@),
                None => first_readable(read, paths, from + 1, xml),
            }
    }
}

impl Registry {
    /// The registry of the system. `read` gives the content of a file, if it can be read; the
    /// first file that can be read counts. Tells whether there was one.
    pub fn load<F: Fn(&str) -> Option<String>>(read: F) -> (r: (Registry, bool))
        requires
            forall|path: &str| call_requires(read, (path,)),
        ensures
            exists|xml: Option<Seq<char>>| #[trigger]
                first_readable(read, registry_paths(), 0, xml) && r.1 == (xml is Some) && r.0@ == (match xml {
                    Some(xml) => descriptions(text::lines_of(xml)),
                    None => Map::empty(),
                }),
    {
        let paths = evdev_xml_paths();
        let first = read(paths[0]);
        if let Some(xml) = first {
            assert(first_readable(read, paths@, 0, Some(xml@)));
            return (Registry::from_xml(xml.as_str()), true);
        }
        let second = read(paths[1]);
        if let Some(xml) = second {
            assert(first_readable(read, paths@, 1, Some(xml@)));
            assert(first_readable(read, paths@, 0, Some(xml@)));
            return (Registry::from_xml(xml.as_str()), true);
        }
        assert(first_readable(read, paths@, 2, None));
        assert(first_readable(read, paths@, 1, None));
        assert(first_readable(read, paths@, 0, None));
        let r = Registry { by_description: StringHashMap::new() };
        assert(r@ =~= Map::<Seq<char>, LayoutView>::empty());
        (r, false)
    }

    /// The registry that an evdev.xml describes.
    pub fn from_xml(xml: &str) -> (r: Self)
        ensures
            r@ == descriptions(text::lines_of(xml@)),
    {
        Registry { by_description: parse_evdev_xml(xml) }
    }

    /// Resolves either an xkb code ("pt") or a description ("Portuguese").
    pub fn resolve(&self, name: &str) -> (r: Option<LayoutSpec>)
        ensures
            spec_view(r) == resolved(self@, name@),
    {
        let all = to_chars(name);
        let name = trim(all.as_slice());
        if name.len() == 0 {
            return None;
        }
        let key = from_chars(name);
        if let Some(spec) = self.by_description.get(key.as_str()) {
            return Some(spec.clone());
        }
        if looks_like_code(name) {
            Some(split_plus(name))
        } else {
            None
        }
    }
}

/// A variant of a layout, as the registry lists it.
pub struct VariantEntry {
    pub code: Seq<char>,
    pub description: Seq<char>,
}

/// A layout with its variants, as the registry lists it.
pub struct LayoutEntry {
    pub code: Seq<char>,
    pub description: Seq<char>,
    pub variants: Seq<VariantEntry>,
    /// It has a list of variants, which may be empty.
    pub has_list: bool,
}

/// A tag with its content.
pub open spec fn element(tag: Seq<char>, content: Seq<char>) -> Seq<char> {
    "<"@ + tag + ">"@ + content + "</"@ + tag + ">"@
}

/// The lines of a code and its description.
pub open spec fn item_lines(code: Seq<char>, description: Seq<char>) -> Seq<Seq<char>> {
    seq![
        "<configItem>"@,
        element("name"@, code),
        element("description"@, description),
        "</configItem>"@,
    ]
}

/// The lines of a variant.
pub open spec fn variant_lines(v: VariantEntry) -> Seq<Seq<char>> {
    seq!["<variant>"@] + item_lines(v.code, v.description) + seq!["</variant>"@]
}

/// The lines of some variants.
pub open spec fn variants_lines(vs: Seq<VariantEntry>) -> Seq<Seq<char>>
    decreases vs.len(),
{
    if vs.len() == 0 {
        Seq::empty()
    } else {
        variants_lines(vs.drop_last()) + variant_lines(vs.last())
    }
}

/// The lines of a layout's list of variants.
pub open spec fn list_of_variants(l: LayoutEntry) -> Seq<Seq<char>> {
    if l.has_list {
        seq!["<variantList>"@] + variants_lines(l.variants) + seq!["</variantList>"@]
    } else {
        Seq::empty()
    }
}

/// The lines of a layout.
pub open spec fn layout_lines(l: LayoutEntry) -> Seq<Seq<char>> {
    seq!["<layout>"@] + item_lines(l.code, l.description) + list_of_variants(l) + seq!["</layout>"@]
}

/// The lines of some layouts.
pub open spec fn layouts_lines(ls: Seq<LayoutEntry>) -> Seq<Seq<char>>
    decreases ls.len(),
{
    if ls.len() == 0 {
        Seq::empty()
    } else {
        layouts_lines(ls.drop_last()) + layout_lines(ls.last())
    }
}

/// The lines of a layout list.
pub open spec fn list_lines(ls: Seq<LayoutEntry>) -> Seq<Seq<char>> {
    seq!["<layoutList>"@] + layouts_lines(ls) + seq!["</layoutList>"@]
}

/// No code and no description holds the character that begins a tag, and where there are variants
/// they stand in a list.
pub open spec fn is_plain(l: LayoutEntry) -> bool {
    &&& l.variants.len() > 0 ==> l.has_list
    &&& !l.code.contains('<') && !l.description.contains('<')
    &&& forall|j: int|
        0 <= j < l.variants.len() ==> !(#[trigger] l.variants[j]).code.contains('<')
            && !l.variants[j].description.contains('<')
}

/// The description of the layout, for -1, or of one of its variants.
pub open spec fn description_at(l: LayoutEntry, j: int) -> Seq<char> {
    if j < 0 {
        l.description
    } else {
        l.variants[j].description
    }
}

/// What that description stands for: the layout, or the layout with that variant.
pub open spec fn meant_at(l: LayoutEntry, j: int) -> LayoutView {
    LayoutView {
        layout: l.code,
        variant: if j < 0 {
            None
        } else {
            Some(l.variants[j].code)
        },
    }
}

/// No description occurs twice.
pub open spec fn distinct(ls: Seq<LayoutEntry>) -> bool {
    forall|i: int, j: int, m: int, n: int|
        0 <= i < ls.len() && -1 <= j < ls[i].variants.len() && 0 <= m < ls.len() && -1 <= n
            < ls[m].variants.len() && (i != m || j != n) ==> #[trigger] description_at(ls[i], j)
            != #[trigger] description_at(ls[m], n)
}

/// The description is one of these.
pub open spec fn is_listed(ls: Seq<LayoutEntry>, key: Seq<char>) -> bool {
    exists|i: int, j: int|
        0 <= i < ls.len() && -1 <= j < ls[i].variants.len() && #[trigger] description_at(ls[i], j)
            == key
}

/// The map holds what these layouts and their variants are described as, and nothing else.
pub open spec fn describes_all(m: Map<Seq<char>, LayoutView>, ls: Seq<LayoutEntry>) -> bool {
    &&& forall|i: int, j: int|
        0 <= i < ls.len() && -1 <= j < ls[i].variants.len() ==> {
            &&& m.contains_key(#[trigger] description_at(ls[i], j))
            &&& m[description_at(ls[i], j)] == meant_at(ls[i], j)
        }
    &&& forall|key: Seq<char>| #[trigger] m.contains_key(key) ==> is_listed(ls, key)
}

/// `pat` begins with the only kind of character that begins a tag, and stands nowhere in `s`
/// where `s` has that character.
proof fn lemma_no_tag(s: Seq<char>, pat: Seq<char>)
    requires
        pat.len() > 0,
        pat[0] == '<',
        forall|k: int| 0 <= k < s.len() && s[k] == '<' ==> !#[trigger] text::occurs_at(s, pat, k),
    ensures
        text::find_text(s, pat) is None,
{
    text::law_find_gives_the_first_place(s, pat);
    if let Some(k) = text::find_text(s, pat) {
        assert(s.subrange(k, k + pat.len())[0] == pat[0]);
        assert(s[k] == '<');
    }
}

/// A tag name.
spec fn is_tag(tag: Seq<char>) -> bool {
    tag.len() > 0 && tag[0] != '/' && !tag.contains('<') && !tag.contains('>')
}

proof fn lemma_element(tag: Seq<char>, content: Seq<char>)
    requires
        is_tag(tag),
        !content.contains('<'),
    ensures
        tagged(element(tag, content), tag) == Some(content),
        text::find_text(element(tag, content), "<"@ + tag + ">"@) == Some(0int),
        text::find_text(element(tag, content), "</"@ + tag + ">"@) == Some(
            (tag.len() + 2 + content.len()) as int,
        ),
{
    reveal_strlit("<");
    reveal_strlit("</");
    reveal_strlit(">");
    let open = "<"@ + tag + ">"@;
    let close = "</"@ + tag + ">"@;
    let s = element(tag, content);
    let c = (open.len() + content.len()) as int;
    assert(s =~= open + content + close);
    text::law_find_gives_the_first_place(s, open);
    text::law_find_gives_the_first_place(s, close);
    assert(s.subrange(0, open.len() as int) =~= open);
    assert(text::occurs_at(s, open, 0));
    assert(s.subrange(c, c + close.len()) =~= close);
    assert(text::occurs_at(s, close, c));
    let k = text::find_text(s, close)->0;
    assert(s.subrange(k, k + close.len())[0] == '<');
    assert(s.subrange(k, k + close.len())[1] == '/');
    if k < c {
        if k == 0 {
            assert(s[1] == tag[0]);
        } else if k < open.len() {
            if k <= tag.len() {
                assert(s[k] == tag[k - 1]);
                assert(tag.contains(tag[k - 1]));
            }
        } else {
            assert(s[k] == content[k - open.len()]);
            assert(content.contains(content[k - open.len()]));
        }
    }
    assert(k == c);
    assert(s.subrange(open.len() as int, c) =~= content);
}

/// Text around a place does not matter, where no tag begins in front of it.
proof fn lemma_find_amid(before: Seq<char>, s: Seq<char>, behind: Seq<char>, pat: Seq<char>)
    requires
        pat.len() > 0,
        pat[0] == '<',
        !before.contains('<'),
        text::find_text(s, pat) is Some,
    ensures
        text::find_text(before + s + behind, pat) == Some(
            before.len() + text::find_text(s, pat)->0,
        ),
{
    let t = before + s + behind;
    let n = before.len() as int;
    let k = text::find_text(s, pat)->0;
    text::law_find_gives_the_first_place(s, pat);
    text::law_find_gives_the_first_place(t, pat);
    assert(t.subrange(n + k, n + k + pat.len()) =~= s.subrange(k, k + pat.len()));
    assert(text::occurs_at(t, pat, n + k));
    let f = text::find_text(t, pat)->0;
    assert(f <= n + k);
    assert(t.subrange(f, f + pat.len())[0] == '<');
    if f < n {
        assert(t[f] == before[f]);
        assert(before.contains(before[f]));
    } else if f < n + k {
        assert(t.subrange(f, f + pat.len()) =~= s.subrange(f - n, f - n + pat.len()));
        assert(text::occurs_at(s, pat, f - n));
    }
}

/// The content of a tag is what stands between the tag and its end, whole and as it is written.
/// Text around the two does not matter.
pub proof fn law_content_stands_between_the_tags(
    tag: Seq<char>,
    before: Seq<char>,
    content: Seq<char>,
    behind: Seq<char>,
)
    requires
        tag.len() > 0 && tag[0] != '/' && !tag.contains('<') && !tag.contains('>'),
        !before.contains('<'),
        !content.contains('<'),
    ensures
        tagged(before + element(tag, content) + behind, tag) == Some(content),
{
    reveal_strlit("<");
    reveal_strlit("</");
    reveal_strlit(">");
    let open = "<"@ + tag + ">"@;
    let close = "</"@ + tag + ">"@;
    let e = element(tag, content);
    lemma_element(tag, content);
    lemma_find_amid(before, e, behind, open);
    lemma_find_amid(before, e, behind, close);
    let m = before.len() + open.len();
    let c = m + content.len();
    assert(e =~= open + content + close);
    assert((before + e + behind).subrange(m as int, c as int) =~= content);
}

proof fn lemma_other_element(tag: Seq<char>, content: Seq<char>, other: Seq<char>)
    requires
        is_tag(tag),
        is_tag(other),
        tag != other,
        !content.contains('<'),
    ensures
        tagged(element(tag, content), other) is None,
{
    reveal_strlit("<");
    reveal_strlit("</");
    reveal_strlit(">");
    let open = "<"@ + tag + ">"@;
    let close = "</"@ + tag + ">"@;
    let pat = "<"@ + other + ">"@;
    let s = element(tag, content);
    let c = (open.len() + content.len()) as int;
    assert(s =~= open + content + close);
    assert forall|k: int| 0 <= k < s.len() && s[k] == '<' implies !#[trigger] text::occurs_at(
        s,
        pat,
        k,
    ) by {
        if text::occurs_at(s, pat, k) {
            let found = s.subrange(k, k + pat.len());
            if k == 0 {
                if other.len() < tag.len() {
                    assert(found[other.len() as int + 1] == '>');
                    assert(s[other.len() as int + 1] == tag[other.len() as int]);
                    assert(tag.contains(tag[other.len() as int]));
                } else if other.len() > tag.len() {
                    assert(found[tag.len() as int + 1] == other[tag.len() as int]);
                    assert(s[tag.len() as int + 1] == '>');
                    assert(other.contains(other[tag.len() as int]));
                } else {
                    assert forall|n: int| 0 <= n < tag.len() implies tag[n] == other[n] by {
                        assert(found[n + 1] == other[n]);
                        assert(s[n + 1] == tag[n]);
                    }
                    assert(tag =~= other);
                }
            } else if k < open.len() {
                if k <= tag.len() {
                    assert(s[k] == tag[k - 1]);
                    assert(tag.contains(tag[k - 1]));
                }
            } else if k < c {
                assert(s[k] == content[k - open.len()]);
                assert(content.contains(content[k - open.len()]));
            } else if k == c {
                assert(found[1] == other[0]);
                assert(s[c + 1] == '/');
            } else {
                if c + 2 <= k < c + 2 + tag.len() {
                    assert(s[k] == tag[k - c - 2]);
                    assert(tag.contains(tag[k - c - 2]));
                }
            }
        }
    }
    lemma_no_tag(s, pat);
}

/// A line that is a lone tag says nothing by itself.
proof fn lemma_lone_tag(line: Seq<char>)
    requires
        line.len() > 0,
        forall|k: int| 0 < k < line.len() ==> line[k] != '<',
        !text::begins_with(line, "<"@ + "name"@ + ">"@),
        !text::begins_with(line, "<"@ + "description"@ + ">"@),
    ensures
        tagged(line, "name"@) is None,
        tagged(line, "description"@) is None,
{
    reveal_strlit("<");
    let a = "<"@ + "name"@ + ">"@;
    let b = "<"@ + "description"@ + ">"@;
    assert(a[0] == '<' && b[0] == '<');
    assert forall|k: int| 0 <= k < line.len() && line[k] == '<' implies !#[trigger] text::occurs_at(
        line,
        a,
        k,
    ) by {
        assert(k == 0);
        assert(line.take(a.len() as int) =~= line.subrange(0, a.len() as int));
    }
    assert forall|k: int| 0 <= k < line.len() && line[k] == '<' implies !#[trigger] text::occurs_at(
        line,
        b,
        k,
    ) by {
        assert(k == 0);
        assert(line.take(b.len() as int) =~= line.subrange(0, b.len() as int));
    }
    lemma_no_tag(line, a);
    lemma_no_tag(line, b);
}

/// Reads inside the layout list, before it ends.
spec fn reading(s: XmlView) -> bool {
    s.inside && !s.ended
}

proof fn lemma_bare_line(line: Seq<char>)
    requires
        line.len() > 0,
        line[0] == '<',
        line.last() == '>',
    ensures
        text::trimmed(line) == line,
{
    text::law_trimming_takes_the_outer_white_space(Seq::empty(), line, Seq::empty());
    assert(Seq::<char>::empty() + line + Seq::<char>::empty() =~= line);
}

proof fn lemma_one_line(s: XmlView, line: Seq<char>)
    ensures
        read_lines(s, seq![line]) == read_line(s, line),
{
    reveal_with_fuel(read_lines, 2);
    assert(seq![line].drop_last() =~= Seq::<Seq<char>>::empty());
}

/// The tags that open and close things.
proof fn lemma_tags(s: XmlView)
    requires
        reading(s),
    ensures
        read_line(s, "<configItem>"@) == s,
        read_line(s, "</configItem>"@) == s,
        read_line(s, "</variant>"@) == s,
        read_line(s, "</variantList>"@) == s,
        read_line(s, "</layout>"@) == s,
        read_line(s, "<layout>"@) == (XmlView { in_variant: false, name: None, ..s }),
        read_line(s, "<variant>"@) == (XmlView { in_variant: true, name: None, ..s }),
        read_line(s, "<variantList>"@) == (XmlView { in_variant: true, name: None, ..s }),
        read_line(s, "</layoutList>"@) == (XmlView { ended: true, ..s }),
{
    reveal_strlit("<configItem>");
    reveal_strlit("</configItem>");
    reveal_strlit("</variant>");
    reveal_strlit("</variantList>");
    reveal_strlit("</layout>");
    reveal_strlit("<layout>");
    reveal_strlit("<variant>");
    reveal_strlit("<variantList>");
    reveal_strlit("</layoutList>");
    reveal_strlit("<layoutList");
    reveal_strlit("</layoutList");
    reveal_strlit("<variant");
    reveal_strlit("<");
    reveal_strlit(">");
    reveal_strlit("name");
    reveal_strlit("description");
    lemma_bare_line("<configItem>"@);
    lemma_bare_line("</configItem>"@);
    lemma_bare_line("</variant>"@);
    lemma_bare_line("</variantList>"@);
    lemma_bare_line("</layout>"@);
    lemma_bare_line("<layout>"@);
    lemma_bare_line("<variant>"@);
    lemma_bare_line("<variantList>"@);
    lemma_bare_line("</layoutList>"@);
    lemma_differ_at("<configItem>"@, 1);
    lemma_differ_at("</configItem>"@, 1);
    lemma_differ_at("</variant>"@, 1);
    lemma_differ_at("</variantList>"@, 1);
    lemma_differ_at("</layout>"@, 1);
    lemma_lone_tag("<configItem>"@);
    lemma_lone_tag("</configItem>"@);
    lemma_lone_tag("</variant>"@);
    lemma_lone_tag("</variantList>"@);
    lemma_lone_tag("</layout>"@);
    assert(!text::begins_with("</layout>"@, "</layoutList"@));
    assert(!text::begins_with("</configItem>"@, "</layoutList"@)) by {
        if text::begins_with("</configItem>"@, "</layoutList"@) {
            assert("</configItem>"@.take(12)[2] == "</layoutList"@[2]);
        }
    }
    assert(!text::begins_with("</variantList>"@, "</layoutList"@)) by {
        if text::begins_with("</variantList>"@, "</layoutList"@) {
            assert("</variantList>"@.take(12)[2] == "</layoutList"@[2]);
        }
    }
    assert("<layout>"@.take(8) =~= "<layout>"@);
    assert("<variant>"@.take(8) =~= "<variant"@);
    assert("<variantList>"@.take(8) =~= "<variant"@);
    assert("</layoutList>"@.take(12) =~= "</layoutList"@);
    assert(!text::begins_with("<layout>"@, "<layoutList"@));
    assert(!text::begins_with("<variantList>"@, "<layoutList"@)) by {
        if text::begins_with("<variantList>"@, "<layoutList"@) {
            assert("<variantList>"@.take(11)[1] == "<layoutList"@[1]);
        }
    }
    assert(!text::begins_with("<variantList>"@, "</layoutList"@)) by {
        if text::begins_with("<variantList>"@, "</layoutList"@) {
            assert("<variantList>"@.take(12)[1] == "</layoutList"@[1]);
        }
    }
    assert(!text::begins_with("<variantList>"@, "<layout>"@)) by {
        if text::begins_with("<variantList>"@, "<layout>"@) {
            assert("<variantList>"@.take(8)[1] == "<layout>"@[1]);
        }
    }
    assert(!text::begins_with("<variant>"@, "<layout>"@)) by {
        if text::begins_with("<variant>"@, "<layout>"@) {
            assert("<variant>"@.take(8)[1] == "<layout>"@[1]);
        }
    }
    assert(!text::begins_with("</layoutList>"@, "<layoutList"@)) by {
        if text::begins_with("</layoutList>"@, "<layoutList"@) {
            assert("</layoutList>"@.take(11)[1] == "<layoutList"@[1]);
        }
    }
}

/// A line whose second character is neither `l`, `v`, `n` nor `d` begins with none of these tags.
proof fn lemma_differ_at(line: Seq<char>, i: int)
    requires
        i == 1,
        line.len() > 1,
        line[1] != 'l' && line[1] != 'v' && line[1] != 'n' && line[1] != 'd',
    ensures
        !text::begins_with(line, "<layoutList"@),
        !text::begins_with(line, "<layout>"@),
        !text::begins_with(line, "<variant"@),
        !text::begins_with(line, "<"@ + "name"@ + ">"@),
        !text::begins_with(line, "<"@ + "description"@ + ">"@),
        line[1] != '/' ==> !text::begins_with(line, "</layoutList"@),
{
    reveal_strlit("<layout>");
    reveal_strlit("<layoutList");
    reveal_strlit("</layoutList");
    reveal_strlit("<variant");
    reveal_strlit("<");
    reveal_strlit(">");
    reveal_strlit("name");
    reveal_strlit("description");
    let a = "<"@ + "name"@ + ">"@;
    let b = "<"@ + "description"@ + ">"@;
    assert(a[1] == 'n' && b[1] == 'd');
    if text::begins_with(line, "<layoutList"@) {
        assert(line.take(11)[1] == 'l');
    }
    if text::begins_with(line, "<layout>"@) {
        assert(line.take(8)[1] == 'l');
    }
    if text::begins_with(line, "<variant"@) {
        assert(line.take(8)[1] == 'v');
    }
    if text::begins_with(line, a) {
        assert(line.take(a.len() as int)[1] == 'n');
    }
    if text::begins_with(line, b) {
        assert(line.take(b.len() as int)[1] == 'd');
    }
    if text::begins_with(line, "</layoutList"@) {
        assert(line.take(12)[1] == '/');
    }
}

/// The lines of a code and of a description.
proof fn lemma_item_line(s: XmlView, code: Seq<char>, description: Seq<char>)
    requires
        reading(s),
        !code.contains('<'),
        !description.contains('<'),
    ensures
        s.name is None ==> read_line(s, element("name"@, code)) == (XmlView {
            name: Some(code),
            ..s
        }),
        read_line(s, element("description"@, description)) == described(s, description),
{
    reveal_strlit("<layout>");
    reveal_strlit("<layoutList");
    reveal_strlit("</layoutList");
    reveal_strlit("<variant");
    reveal_strlit("<");
    reveal_strlit("</");
    reveal_strlit(">");
    reveal_strlit("name");
    reveal_strlit("description");
    let a = element("name"@, code);
    let b = element("description"@, description);
    assert("name"@[0] == 'n' && "description"@[0] == 'd');
    assert("name"@.len() != "description"@.len());
    assert(a[0] == '<' && a[1] == 'n' && a.last() == '>');
    assert(b[0] == '<' && b[1] == 'd' && b.last() == '>');
    lemma_bare_line(a);
    lemma_bare_line(b);
    lemma_element("name"@, code);
    lemma_element("description"@, description);
    lemma_other_element("description"@, description, "name"@);
    if text::begins_with(a, "<layoutList"@) {
        assert(a.take(11)[1] == 'l');
    }
    if text::begins_with(b, "<layoutList"@) {
        assert(b.take(11)[1] == 'l');
    }
    if text::begins_with(a, "</layoutList"@) {
        assert(a.take(12)[1] == '/');
    }
    if text::begins_with(b, "</layoutList"@) {
        assert(b.take(12)[1] == '/');
    }
    if text::begins_with(a, "<layout>"@) {
        assert(a.take(8)[1] == 'l');
    }
    if text::begins_with(b, "<layout>"@) {
        assert(b.take(8)[1] == 'l');
    }
    if text::begins_with(a, "<variant"@) {
        assert(a.take(8)[1] == 'v');
    }
    if text::begins_with(b, "<variant"@) {
        assert(b.take(8)[1] == 'v');
    }
}

proof fn lemma_item(s: XmlView, code: Seq<char>, description: Seq<char>)
    requires
        reading(s),
        s.name is None,
        !code.contains('<'),
        !description.contains('<'),
    ensures
        read_lines(s, item_lines(code, description)) == described(
            XmlView { name: Some(code), ..s },
            description,
        ),
{
    let l1 = seq!["<configItem>"@];
    let l2 = seq![element("name"@, code)];
    let l3 = seq![element("description"@, description)];
    let l4 = seq!["</configItem>"@];
    assert(item_lines(code, description) =~= l1 + l2 + l3 + l4);
    lemma_lines_compose(s, l1 + l2 + l3, l4);
    lemma_lines_compose(s, l1 + l2, l3);
    lemma_lines_compose(s, l1, l2);
    lemma_one_line(s, l1[0]);
    lemma_tags(s);
    lemma_one_line(s, l2[0]);
    lemma_item_line(s, code, description);
    let named = XmlView { name: Some(code), ..s };
    lemma_one_line(named, l3[0]);
    lemma_item_line(named, code, description);
    let after = described(named, description);
    lemma_one_line(after, l4[0]);
    lemma_tags(after);
}

/// The variants of a layout are all read under it.
proof fn lemma_variants(s: XmlView, l: LayoutEntry, n: int)
    requires
        reading(s),
        s.layout == Some(l.code),
        s.name is None,
        s.in_variant,
        is_plain(l),
        0 <= n <= l.variants.len(),
        forall|j: int, k: int|
            -1 <= j < l.variants.len() && -1 <= k < l.variants.len() && j != k
                ==> #[trigger] description_at(l, j) != #[trigger] description_at(l, k),
    ensures
        ({
            let r = read_lines(s, variants_lines(l.variants.take(n)));
            &&& reading(r) && r.layout == Some(l.code) && r.name is None && r.in_variant
            &&& forall|j: int|
                0 <= j < n ==> {
                    &&& r.found.contains_key(#[trigger] description_at(l, j))
                    &&& r.found[description_at(l, j)] == meant_at(l, j)
                }
            &&& forall|key: Seq<char>|
                (forall|j: int| 0 <= j < n ==> #[trigger] description_at(l, j) != key) ==> (
                #[trigger] r.found.contains_key(key) <==> s.found.contains_key(key)) && (
                s.found.contains_key(key) ==> r.found[key] == s.found[key])
            &&& forall|key: Seq<char>| #[trigger]
                r.found.contains_key(key) ==> s.found.contains_key(key) || exists|j: int|
                    0 <= j < n && #[trigger] description_at(l, j) == key
        }),
    decreases n,
{
    if n == 0 {
        assert(l.variants.take(0).len() == 0);
    } else {
        lemma_variants(s, l, n - 1);
        let v = l.variants[n - 1];
        assert(l.variants.take(n).drop_last() =~= l.variants.take(n - 1));
        assert(l.variants.take(n).last() == v);
        let head = variants_lines(l.variants.take(n - 1));
        let b = read_lines(s, head);
        lemma_lines_compose(s, head, variant_lines(v));
        let open = seq!["<variant>"@];
        let item = item_lines(v.code, v.description);
        let close = seq!["</variant>"@];
        lemma_lines_compose(b, open + item, close);
        lemma_lines_compose(b, open, item);
        lemma_one_line(b, open[0]);
        lemma_tags(b);
        lemma_item(b, v.code, v.description);
        let r = read_lines(b, item);
        lemma_one_line(r, close[0]);
        lemma_tags(r);
        assert(r.found == b.found.insert(v.description, meant_at(l, n - 1)));
        assert(description_at(l, n - 1) == v.description);
        assert(read_lines(s, variants_lines(l.variants.take(n))) == r);
        assert forall|key: Seq<char>|
            (forall|j: int| 0 <= j < n ==> #[trigger] description_at(l, j) != key) implies (
        #[trigger] r.found.contains_key(key) <==> s.found.contains_key(key)) && (
        s.found.contains_key(key) ==> r.found[key] == s.found[key]) by {
            assert(description_at(l, n - 1) != key);
            assert(b.found.contains_key(key) <==> s.found.contains_key(key));
        }
        assert forall|j: int| 0 <= j < n implies r.found.contains_key(
            #[trigger] description_at(l, j),
        ) && r.found[description_at(l, j)] == meant_at(l, j) by {
            if j < n - 1 {
                assert(description_at(l, j) != description_at(l, n - 1));
            }
        }
        assert forall|key: Seq<char>| #[trigger] r.found.contains_key(key) implies s.found.contains_key(
            key,
        ) || exists|j: int| 0 <= j < n && #[trigger] description_at(l, j) == key by {
            if key != v.description {
                assert(b.found.contains_key(key));
            }
        }
    }
}

/// The lines of a layout describe it and its variants.
proof fn lemma_layout(s: XmlView, l: LayoutEntry)
    requires
        reading(s),
        is_plain(l),
        forall|j: int, k: int|
            -1 <= j < l.variants.len() && -1 <= k < l.variants.len() && j != k
                ==> #[trigger] description_at(l, j) != #[trigger] description_at(l, k),
    ensures
        ({
            let r = read_lines(s, layout_lines(l));
            &&& reading(r)
            &&& forall|j: int|
                -1 <= j < l.variants.len() ==> {
                    &&& r.found.contains_key(#[trigger] description_at(l, j))
                    &&& r.found[description_at(l, j)] == meant_at(l, j)
                }
            &&& forall|key: Seq<char>|
                (forall|j: int|
                    -1 <= j < l.variants.len() ==> #[trigger] description_at(l, j) != key) ==> (
                #[trigger] r.found.contains_key(key) <==> s.found.contains_key(key)) && (
                s.found.contains_key(key) ==> r.found[key] == s.found[key])
            &&& forall|key: Seq<char>| #[trigger]
                r.found.contains_key(key) ==> s.found.contains_key(key) || exists|j: int|
                    -1 <= j < l.variants.len() && #[trigger] description_at(l, j) == key
        }),
{
    let open = seq!["<layout>"@];
    let item = item_lines(l.code, l.description);
    let list = list_of_variants(l);
    let close = seq!["</layout>"@];
    lemma_lines_compose(s, open + item + list, close);
    lemma_lines_compose(s, open + item, list);
    lemma_lines_compose(s, open, item);
    lemma_one_line(s, open[0]);
    lemma_tags(s);
    let s1 = XmlView { in_variant: false, name: None, ..s };
    lemma_item(s1, l.code, l.description);
    let s2 = read_lines(s1, item);
    assert(s2.found == s.found.insert(l.description, meant_at(l, -1)));
    let s3 = XmlView { in_variant: true, name: None, ..s2 };
    assert(l.variants.take(l.variants.len() as int) =~= l.variants);
    lemma_variants(s3, l, l.variants.len() as int);
    let r = read_lines(s2, list);
    if l.has_list {
        let begin = seq!["<variantList>"@];
        let vs = variants_lines(l.variants);
        let end = seq!["</variantList>"@];
        lemma_lines_compose(s2, begin + vs, end);
        lemma_lines_compose(s2, begin, vs);
        lemma_one_line(s2, begin[0]);
        lemma_tags(s2);
        lemma_one_line(read_lines(s3, vs), end[0]);
        lemma_tags(read_lines(s3, vs));
        assert(r == read_lines(s3, vs));
    }
    lemma_one_line(r, close[0]);
    lemma_tags(r);
    assert(read_lines(s, layout_lines(l)) == r);
    assert(description_at(l, -1) == l.description);
    assert forall|j: int| -1 <= j < l.variants.len() implies r.found.contains_key(
        #[trigger] description_at(l, j),
    ) && r.found[description_at(l, j)] == meant_at(l, j) by {
        if j == -1 {
            assert forall|k: int| 0 <= k < l.variants.len() implies #[trigger] description_at(l, k)
                != l.description by {
                assert(description_at(l, -1) != description_at(l, k));
            }
            assert(s3.found.contains_key(l.description));
            assert(r.found.contains_key(l.description) <==> s3.found.contains_key(l.description));
        }
    }
    assert forall|key: Seq<char>|
        (forall|j: int| -1 <= j < l.variants.len() ==> #[trigger] description_at(l, j) != key)
        implies (#[trigger] r.found.contains_key(key) <==> s.found.contains_key(key)) && (
    s.found.contains_key(key) ==> r.found[key] == s.found[key]) by {
        assert(description_at(l, -1) != key);
        assert(s3.found.contains_key(key) <==> s.found.contains_key(key));
        assert forall|j: int| 0 <= j < l.variants.len() implies #[trigger] description_at(l, j)
            != key by {}
        assert(r.found.contains_key(key) <==> s3.found.contains_key(key));
    }
    assert forall|key: Seq<char>| #[trigger] r.found.contains_key(key) implies s.found.contains_key(
        key,
    ) || exists|j: int| -1 <= j < l.variants.len() && #[trigger] description_at(l, j) == key by {
        if !s.found.contains_key(key) && s3.found.contains_key(key) {
            assert(description_at(l, -1) == key);
        }
    }
}

proof fn lemma_layouts(s: XmlView, ls: Seq<LayoutEntry>)
    requires
        reading(s),
        s.found == Map::<Seq<char>, LayoutView>::empty(),
        distinct(ls),
        forall|i: int| 0 <= i < ls.len() ==> is_plain(#[trigger] ls[i]),
    ensures
        reading(read_lines(s, layouts_lines(ls))),
        describes_all(read_lines(s, layouts_lines(ls)).found, ls),
    decreases ls.len(),
{
    if ls.len() > 0 {
        let front = ls.drop_last();
        let l = ls.last();
        let n = ls.len() - 1;
        assert(l == ls[n]);
        assert forall|i: int, j: int, m: int, k: int|
            0 <= i < front.len() && -1 <= j < front[i].variants.len() && 0 <= m < front.len() && -1
                <= k < front[m].variants.len() && (i != m || j != k)
            implies #[trigger] description_at(front[i], j) != #[trigger] description_at(front[m], k) by {
            assert(front[i] == ls[i] && front[m] == ls[m]);
            assert(description_at(ls[i], j) != description_at(ls[m], k));
        }
        assert forall|i: int| 0 <= i < front.len() implies is_plain(#[trigger] front[i]) by {
            assert(front[i] == ls[i]);
        }
        lemma_layouts(s, front);
        let b = read_lines(s, layouts_lines(front));
        lemma_lines_compose(s, layouts_lines(front), layout_lines(l));
        assert forall|j: int, k: int|
            -1 <= j < l.variants.len() && -1 <= k < l.variants.len() && j != k
            implies #[trigger] description_at(l, j) != #[trigger] description_at(l, k) by {
            assert(description_at(ls[n], j) != description_at(ls[n], k));
        }
        lemma_layout(b, l);
        let r = read_lines(b, layout_lines(l));
        assert forall|i: int, j: int|
            0 <= i < ls.len() && -1 <= j < ls[i].variants.len() implies r.found.contains_key(
            #[trigger] description_at(ls[i], j),
        ) && r.found[description_at(ls[i], j)] == meant_at(ls[i], j) by {
            if i < n {
                assert(front[i] == ls[i]);
                let key = description_at(front[i], j);
                assert(b.found.contains_key(key));
                assert forall|k: int| -1 <= k < l.variants.len() implies #[trigger] description_at(
                    l,
                    k,
                ) != key by {
                    assert(description_at(ls[n], k) != description_at(ls[i], j));
                }
                assert(r.found.contains_key(key) <==> b.found.contains_key(key));
                assert(meant_at(front[i], j) == meant_at(ls[i], j));
            } else {
                assert(description_at(l, j) == description_at(ls[i], j));
            }
        }
        assert forall|key: Seq<char>| #[trigger] r.found.contains_key(key) implies is_listed(
            ls,
            key,
        ) by {
            if b.found.contains_key(key) {
                assert(is_listed(front, key));
                let (i, j) = choose|i: int, j: int|
                    0 <= i < front.len() && -1 <= j < front[i].variants.len()
                        && #[trigger] description_at(front[i], j) == key;
                assert(front[i] == ls[i]);
                assert(description_at(ls[i], j) == key);
            } else {
                let j = choose|j: int|
                    -1 <= j < l.variants.len() && #[trigger] description_at(l, j) == key;
                assert(description_at(ls[n], j) == key);
            }
        }
    }
}

proof fn lemma_only_the_trimmed_line_counts(s: XmlView, raws: Seq<Seq<char>>, ls: Seq<Seq<char>>)
    requires
        raws.len() == ls.len(),
        forall|i: int| 0 <= i < ls.len() ==> text::trimmed(#[trigger] raws[i]) == ls[i],
    ensures
        read_lines(s, raws) == read_lines(s, ls),
    decreases ls.len(),
{
    if ls.len() > 0 {
        let a = raws.drop_last();
        let b = ls.drop_last();
        assert forall|i: int| 0 <= i < b.len() implies text::trimmed(#[trigger] a[i]) == b[i] by {
            assert(a[i] == raws[i]);
        }
        lemma_only_the_trimmed_line_counts(s, a, b);
        let n = ls.len() - 1;
        assert(text::trimmed(raws[n]) == ls[n]);
        let _ = text::law_trimming_leaves_a_middle(raws[n]);
    }
}

/// A registry says what it lists: of a layout list written one tag per line, with any indentation,
/// each layout is known by its description, and so is every one of its variants, as a variant of
/// that layout and of no other. Nothing else is known, whatever stands before and after the list.
pub proof fn law_registry_says_what_it_lists(
    before: Seq<Seq<char>>,
    list: Seq<Seq<char>>,
    behind: Seq<Seq<char>>,
    ls: Seq<LayoutEntry>,
)
    requires
        forall|i: int|
            0 <= i < before.len() ==> !opens_list(#[trigger] before[i]) && !closes_list(before[i]),
        list.len() == list_lines(ls).len(),
        forall|i: int|
            0 <= i < list.len() ==> text::trimmed(#[trigger] list[i]) == list_lines(ls)[i],
        distinct(ls),
        forall|i: int| 0 <= i < ls.len() ==> is_plain(#[trigger] ls[i]),
    ensures
        describes_all(descriptions(before + list + behind), ls),
{
    let want = list_lines(ls);
    let open = seq!["<layoutList>"@];
    let close = seq!["</layoutList>"@];
    let s = unread();
    lemma_only_the_trimmed_line_counts(s, list, want);
    lemma_lines_compose(s, open + layouts_lines(ls), close);
    lemma_lines_compose(s, open, layouts_lines(ls));
    lemma_one_line(s, open[0]);
    reveal_strlit("<layoutList>");
    reveal_strlit("<layoutList");
    reveal_strlit("<layout>");
    reveal_strlit("<variant");
    reveal_strlit("<");
    reveal_strlit(">");
    reveal_strlit("name");
    reveal_strlit("description");
    let first = "<layoutList>"@;
    lemma_bare_line(first);
    assert(first.take(11) =~= "<layoutList"@);
    assert(!text::begins_with(first, "<layout>"@)) by {
        if text::begins_with(first, "<layout>"@) {
            assert(first.take(8)[7] == '>');
        }
    }
    assert(!text::begins_with(first, "<variant"@)) by {
        if text::begins_with(first, "<variant"@) {
            assert(first.take(8)[1] == 'v');
        }
    }
    assert(!text::begins_with(first, "<"@ + "name"@ + ">"@)) by {
        let a = "<"@ + "name"@ + ">"@;
        if text::begins_with(first, a) {
            assert(first.take(a.len() as int)[1] == a[1]);
        }
    }
    assert(!text::begins_with(first, "<"@ + "description"@ + ">"@)) by {
        let a = "<"@ + "description"@ + ">"@;
        if text::begins_with(first, a) {
            assert(first.take(a.len() as int)[1] == a[1]);
        }
    }
    lemma_lone_tag(first);
    let s1 = XmlView { inside: true, ..s };
    assert(read_line(s, first) == s1);
    lemma_layouts(s1, ls);
    let s2 = read_lines(s1, layouts_lines(ls));
    lemma_one_line(s2, close[0]);
    lemma_tags(s2);
    let s3 = read_lines(s, list);
    assert(s3.found == s2.found && s3.ended);
    law_lines_before_the_list_say_nothing(before, list + behind);
    assert(before + list + behind =~= before + (list + behind));
    lemma_lines_compose(s, list, behind);
    lemma_ended(s3, behind);
}

/// Lines that neither begin a layout, a variant or the list, nor end the list, nor hold a name or a
/// description, say nothing, wherever they stand.
pub proof fn law_other_lines_say_nothing(
    before: Seq<Seq<char>>,
    line: Seq<char>,
    behind: Seq<Seq<char>>,
)
    requires
        !text::begins_with(text::trimmed(line), "<layoutList"@),
        !text::begins_with(text::trimmed(line), "</layoutList"@),
        !text::begins_with(text::trimmed(line), "<layout>"@),
        !text::begins_with(text::trimmed(line), "<variant"@),
        forall|i: int| !#[trigger] text::occurs_at(text::trimmed(line), "<name>"@, i),
        forall|i: int| !#[trigger] text::occurs_at(text::trimmed(line), "<description>"@, i),
    ensures
        descriptions(before + seq![line] + behind) == descriptions(before + behind),
{
    reveal_strlit("<");
    reveal_strlit(">");
    reveal_strlit("name");
    reveal_strlit("description");
    reveal_strlit("<name>");
    reveal_strlit("<description>");
    assert("<"@ + "name"@ + ">"@ =~= "<name>"@);
    assert("<"@ + "description"@ + ">"@ =~= "<description>"@);
    let bare = text::trimmed(line);
    text::law_find_gives_the_first_place(bare, "<name>"@);
    text::law_find_gives_the_first_place(bare, "<description>"@);
    assert(tagged(bare, "name"@) is None);
    assert(tagged(bare, "description"@) is None);
    let s = read_lines(unread(), before);
    lemma_one_line(s, line);
    lemma_lines_compose(unread(), before, seq![line]);
    lemma_lines_compose(unread(), before + seq![line], behind);
    lemma_lines_compose(unread(), before, behind);
}

/// The text consists of letters and digits of ASCII, `+` and `_`.
pub open spec fn of_code_characters(s: Seq<char>) -> bool {
    forall|i: int|
        0 <= i < s.len() ==> {
            let c = #[trigger] s[i];
            ('a' <= c && c <= 'z') || ('A' <= c && c <= 'Z') || ('0' <= c && c <= '9') || c == '+'
                || c == '_'
        }
}

/// A name that the registry knows stands for what it describes by it, even where it looks like a
/// code. One that it does not know stands for itself where it is a code of at most 32 characters:
/// for the layout in front of the first `+` and the variant behind it. Nothing else is resolved,
/// and white space around the name does not matter.
pub proof fn law_names_resolve(
    known: Map<Seq<char>, LayoutView>,
    a: Seq<char>,
    name: Seq<char>,
    b: Seq<char>,
    layout: Seq<char>,
    variant: Seq<char>,
)
    requires
        text::all_space(a),
        text::all_space(b),
        name.len() > 0 ==> !text::is_space(name[0]) && !text::is_space(name.last()),
        !layout.contains('+'),
    ensures
        name.len() == 0 ==> resolved(known, a + name + b) is None,
        name.len() > 0 && known.contains_key(name) ==> resolved(known, a + name + b) == Some(
            known[name],
        ),
        name.len() > 0 && !known.contains_key(name) && (name.len() > 32 || !of_code_characters(
            name,
        )) ==> resolved(known, a + name + b) is None,
        name.len() > 0 && !known.contains_key(name) && name.len() <= 32 && of_code_characters(name)
            && name == layout ==> resolved(known, a + name + b) == Some(
            LayoutView { layout, variant: None },
        ),
        !known.contains_key(name) && name.len() <= 32 && of_code_characters(name) && name == layout
            + seq!['+'] + variant ==> resolved(known, a + name + b) == Some(
            LayoutView { layout, variant: Some(variant) },
        ),
{
    text::law_trimming_takes_the_outer_white_space(a, name, b);
    text::law_cutting_is_at_the_first_separator(layout, '+', variant);
    if name.len() <= 32 {
        if of_code_characters(name) {
            assert forall|i: int| 0 <= i < name.len() implies code_char(#[trigger] name[i]) by {}
            assert(is_code(name));
        } else if is_code(name) {
            assert forall|i: int| 0 <= i < name.len() implies {
                let c = #[trigger] name[i];
                ('a' <= c && c <= 'z') || ('A' <= c && c <= 'Z') || ('0' <= c && c <= '9') || c
                    == '+' || c == '_'
            } by {
                assert(code_char(name[i]));
            }
            assert(of_code_characters(name));
        }
    }
}

/// The registry is looked for in two places, and the first that can be read counts.
pub proof fn law_first_readable_registry_counts<F: Fn(&str) -> Option<String>>(
    read: F,
    first: Option<Seq<char>>,
    second: Option<Seq<char>>,
    xml: Option<Seq<char>>,
)
    requires
        forall|content: Option<String>| #[trigger]
            call_ensures(read, ("/usr/share/X11/xkb/rules/evdev.xml",), content)
                ==> text::optional_view(content) == first,
        forall|content: Option<String>| #[trigger]
            call_ensures(read, ("/usr/share/xkeyboard-config-2/rules/evdev.xml",), content)
                ==> text::optional_view(content) == second,
        first_readable(read, registry_paths(), 0, xml),
    ensures
        xml == (if first is Some {
            first
        } else {
            second
        }),
{
    reveal_with_fuel(first_readable, 4);
    let paths = registry_paths();
    assert(paths[0] == "/usr/share/X11/xkb/rules/evdev.xml");
    assert(paths[1] == "/usr/share/xkeyboard-config-2/rules/evdev.xml");
}

} // verus!
