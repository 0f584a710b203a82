//! The configuration: the layout override and the triggers, how they are
//! changed from the command line, and how they are read and written.
use vstd::prelude::*;
use vstd::string::StringExecFns;

use crate::document;
use crate::document::{read_toml, write_toml, TomlItem};
use crate::replacements;
use crate::replacements::Replacements;
use crate::text;
use crate::text::{is_text, is_whitespace, to_chars};

verus! {

/// What the user has configured.
#[derive(Debug)]
pub struct Config {
    /// xkb layout used to translate keycodes to characters (e.g. "us", "pt"). Autodetected via
    /// the desktop's own tooling when unset; setting this pins the layout and disables detection.
    pub layout: Option<String>,
    /// trigger -> replacement
    pub replacements: Replacements,
}

/// A configuration, as values.
pub struct ConfigView {
    pub layout: Option<Seq<char>>,
    pub replacements: Map<Seq<char>, Seq<char>>,
}

impl View for Config {
    type V = ConfigView;

    open spec fn view(&self) -> ConfigView {
        ConfigView {
            layout: text::optional_view(self.layout),
            replacements: self.replacements@,
        }
    }
}

/// Nothing configured.
pub open spec fn empty_config() -> ConfigView {
    ConfigView { layout: None, replacements: Map::empty() }
}

/// Why a configuration text is refused.
#[derive(Debug, PartialEq, Eq)]
pub enum ConfigError {
    /// The text is no TOML document.
    Syntax(String),
    /// `layout` is there and is no string.
    LayoutIsNoText,
    /// `replacements` is there and is no table.
    ReplacementsAreNoTable,
    /// A replacement is no string.
    ReplacementIsNoText,
}

/// Why a trigger is refused.
#[derive(Debug, Clone, Copy, PartialEq, Eq, Structural)]
pub enum AddError {
    /// The trigger holds white space, so it could never be typed as one word.
    TriggerHasWhitespace,
}

impl AddError {
    /// The message that the command line shows.
    pub fn message(&self) -> (r: String)
        ensures
            r@ == "trigger cannot contain whitespace"@,
    {
        "trigger cannot contain whitespace".to_string()
    }
}

/// Some character is white space.
pub open spec fn has_space(s: Seq<char>) -> bool {
    exists|i: int| 0 <= i < s.len() && text::is_space(#[trigger] s[i])
}

/// Refuses a trigger that could never be typed as one word.
pub fn check_trigger(trigger: &str) -> (r: Result<(), AddError>)
    ensures
        r == (if has_space(trigger@) {
            Err(AddError::TriggerHasWhitespace)
        } else {
            Ok(())
        }),
{
    let cs = to_chars(trigger);
    for i in 0..cs.len()
        invariant
            cs@ == trigger@,
            forall|j: int| 0 <= j < i ==> !text::is_space(#[trigger] cs@[j]),
    {
        if is_whitespace(cs[i]) {
            assert(text::is_space(trigger@[i as int]));
            return Err(AddError::TriggerHasWhitespace);
        }
    }
    Ok(())
}

/// How a trigger is listed.
pub open spec fn listed(trigger: Seq<char>, replacement: Seq<char>) -> Seq<char> {
    trigger + " → "@ + replacement
}

fn list_line(trigger: &str, replacement: &str) -> (r: String)
    ensures
        r@ == listed(trigger@, replacement@),
{
    let mut line = trigger.to_string();
    line.append(" → ");
    line.append(replacement);
    line
}

/// The item with the key, if the document has one.
pub open spec fn item_at<V>(items: Seq<(Seq<char>, V)>, key: Seq<char>) -> Option<V>
    decreases items.len(),
{
    if items.len() == 0 {
        None
    } else if items[0].0 == key {
        Some(items[0].1)
    } else {
        item_at(items.drop_first(), key)
    }
}

/// The replacements that a table lists; a key that is listed again counts with its last value.
pub open spec fn table_as_map(t: Seq<(Seq<char>, Option<Seq<char>>)>) -> Map<Seq<char>, Seq<char>>
    decreases t.len(),
{
    if t.len() == 0 {
        Map::empty()
    } else {
        table_as_map(t.drop_last()).insert(t.last().0, t.last().1->0)
    }
}

/// Every value of the table is a string.
pub open spec fn all_text(t: Seq<(Seq<char>, Option<Seq<char>>)>) -> bool {
    forall|i: int| 0 <= i < t.len() ==> (#[trigger] t[i]).1 is Some
}

/// The `layout` of a document.
pub open spec fn layout_of(items: Seq<(Seq<char>, document::TomlView)>) -> Result<
    Option<Seq<char>>,
    (),
> {
    match item_at(items, "layout"@) {
        None => Ok(None),
        Some(document::TomlView::Text(s)) => Ok(Some(s)),
        Some(_) => Err(()),
    }
}

/// What a configuration text amounts to, given what was read from it.
pub open spec fn config_of(
    read: Result<Seq<(Seq<char>, document::TomlView)>, Seq<char>>,
) -> Result<ConfigView, ConfigErrorView> {
    match read {
        Err(message) => Err(ConfigErrorView::Syntax(message)),
        Ok(items) => match layout_of(items) {
            Err(_) => Err(ConfigErrorView::LayoutIsNoText),
            Ok(layout) => match item_at(items, "replacements"@) {
                None => Ok(ConfigView { layout, replacements: Map::empty() }),
                Some(document::TomlView::Table(t)) => if all_text(t) {
                    Ok(ConfigView { layout, replacements: table_as_map(t) })
                } else {
                    Err(ConfigErrorView::ReplacementIsNoText)
                },
                Some(_) => Err(ConfigErrorView::ReplacementsAreNoTable),
            },
        },
    }
}

/// Why a configuration text is refused, as values.
pub enum ConfigErrorView {
    Syntax(Seq<char>),
    LayoutIsNoText,
    ReplacementsAreNoTable,
    ReplacementIsNoText,
}

impl View for ConfigError {
    type V = ConfigErrorView;

    open spec fn view(&self) -> ConfigErrorView {
        match *self {
            ConfigError::Syntax(message) => ConfigErrorView::Syntax(message@),
            ConfigError::LayoutIsNoText => ConfigErrorView::LayoutIsNoText,
            ConfigError::ReplacementsAreNoTable => ConfigErrorView::ReplacementsAreNoTable,
            ConfigError::ReplacementIsNoText => ConfigErrorView::ReplacementIsNoText,
        }
    }
}

impl ConfigError {
    /// The error in the words of the TOML reader, with the line where it stands. `told` is what
    /// the reader says when it is asked for a configuration instead of any document: it names the
    /// value of the wrong kind. A text that is no document at all was refused before that.
    pub fn message(&self, told: &str) -> (r: String)
        ensures
            r@ == (match *self {
                ConfigError::Syntax(message) => message@,
                ConfigError::LayoutIsNoText
                | ConfigError::ReplacementsAreNoTable
                | ConfigError::ReplacementIsNoText => told@,
            }),
    {
        match self {
            ConfigError::Syntax(message) => message.clone(),
            ConfigError::LayoutIsNoText
            | ConfigError::ReplacementsAreNoTable
            | ConfigError::ReplacementIsNoText => told.to_string(),
        }
    }
}

/// What came of reading a configuration, as values.
pub open spec fn loaded(r: Result<Config, ConfigError>) -> Result<ConfigView, ConfigErrorView> {
    match r {
        Ok(config) => Ok(config@),
        Err(e) => Err(e@),
    }
}

/// The position of the first item with the key, or the number of items.
fn find_item(items: &Vec<(String, TomlItem)>, key: &str) -> (r: usize)
    ensures
        r <= items.len(),
        item_at(document::items_view(items@), key@) == (if r < items.len() {
            Some(items@[r as int].1@)
        } else {
            None
        }),
{
    let ghost all = document::items_view(items@);
    let wanted = to_chars(key);
    let mut i: usize = 0;
    assert(all.skip(0) =~= all);
    while i < items.len()
        invariant
            all == document::items_view(items@),
            wanted@ == key@,
            i <= items.len(),
            item_at(all, key@) == item_at(all.skip(i as int), key@),
        decreases items.len() - i,
    {
        assert(all.skip(i as int)[0] == all[i as int]);
        if is_text(wanted.as_slice(), items[i].0.as_str()) {
            return i;
        }
        assert(all.skip(i as int).drop_first() =~= all.skip(i + 1));
        i = i + 1;
    }
    i
}

/// The replacements that a table lists, unless one of its values is no string.
fn table_entries(t: &Vec<(String, Option<String>)>) -> (r: Option<Replacements>)
    ensures
        match r {
            Some(m) => all_text(document::table_view(t@)) && m@ == table_as_map(
                document::table_view(t@),
            ),
            None => !all_text(document::table_view(t@)),
        },
{
    let ghost all = document::table_view(t@);
    let mut m = Replacements::new();
    for i in 0..t.len()
        invariant
            all == document::table_view(t@),
            forall|j: int| 0 <= j < i ==> (#[trigger] all[j]).1 is Some,
            m@ == table_as_map(all.take(i as int)),
    {
        assert(all[i as int].1 == text::optional_view(t@[i as int].1));
        match &t[i].1 {
            Some(replacement) => {
                m.insert(t[i].0.clone(), replacement.clone());
                assert(all.take(i + 1).drop_last() =~= all.take(i as int));
            },
            None => {
                return None;
            },
        }
    }
    assert(all.take(t.len() as int) =~= all);
    Some(m)
}

impl Config {
    /// The configuration that a text describes.
    pub fn from_toml(raw: &str) -> (r: Result<Config, ConfigError>)
        ensures
            loaded(r) == config_of(document::toml_read(raw@)),
    {
        Config::from_items(read_toml(raw))
    }

    /// The configuration that a document describes: both keys may be missing, and other keys
    /// are ignored.
    pub fn from_items(read: Result<Vec<(String, TomlItem)>, String>) -> (r: Result<
        Config,
        ConfigError,
    >)
        ensures
            loaded(r) == config_of(document::outcome_view(read)),
    {
        let items = match read {
            Ok(items) => items,
            Err(message) => {
                return Err(ConfigError::Syntax(message));
            },
        };
        let at = find_item(&items, "layout");
        let layout = if at < items.len() {
            match &items[at].1 {
                TomlItem::Text(s) => Some(s.clone()),
                _ => {
                    return Err(ConfigError::LayoutIsNoText);
                },
            }
        } else {
            None
        };
        let at = find_item(&items, "replacements");
        if at < items.len() {
            match &items[at].1 {
                TomlItem::Table(t) => match table_entries(t) {
                    Some(replacements) => Ok(Config { layout, replacements }),
                    None => Err(ConfigError::ReplacementIsNoText),
                },
                _ => Err(ConfigError::ReplacementsAreNoTable),
            }
        } else {
            Ok(Config { layout, replacements: Replacements::new() })
        }
    }

    /// The configuration as a text. Reading that text gives the same configuration back,
    /// whatever characters the triggers and replacements hold.
    pub fn to_toml(&self) -> (r: String)
        requires
            is_writable(self@),
        ensures
            r@ == document::toml_written(
                fields_of(self@.layout),
                "replacements"@,
                self.replacements.pairs(),
            ),
            reads_back(r@, self@),
    {
        let mut fields: Vec<(String, String)> = Vec::new();
        if let Some(layout) = &self.layout {
            fields.push(("layout".to_string(), layout.clone()));
        }
        let entries = self.replacements.entries();
        proof {
            reveal_strlit("layout");
            reveal_strlit("replacements");
            assert(replacements::pair_views(fields@) =~= fields_of(self@.layout));
            assert("layout"@[0] == 'l' && "replacements"@[0] == 'r');
            assert(replacements::precedes("layout"@, "replacements"@));
            let pairs = self.replacements.pairs();
            assert forall|i: int| 0 <= i < pairs.len() implies !document::has_run(
                (#[trigger] pairs[i]).1,
                '"',
            ) && !document::has_run(pairs[i].1, '\'') && self@.replacements.contains_key(pairs[i].0) by {
                replacements::law_lookup_by_index(pairs, i);
                assert(self@.replacements.contains_key(pairs[i].0));
            }
        }
        proof {
            lemma_document_is_config(self@, self.replacements.pairs());
        }
        write_toml(&fields, "replacements", entries).unwrap()
    }

    /// True when the text of the configuration can be written: no string in it holds 256 equal
    /// quotation marks in a row.
    pub fn can_be_written(&self) -> (r: bool)
        ensures
            r == is_writable(self@),
    {
        if let Some(layout) = &self.layout {
            if !text_can_be_written(layout.as_str()) {
                return false;
            }
        }
        let entries = self.replacements.entries();
        let ghost pairs = self.replacements.pairs();
        for i in 0..entries.len()
            invariant
                pairs == self.replacements.pairs(),
                pairs == replacements::pair_views(entries@),
                replacements::in_key_order(pairs),
                forall|j: int|
                    0 <= j < i ==> !document::has_run((#[trigger] pairs[j]).1, '"') && !document::has_run(
                        pairs[j].1,
                        '\'',
                    ),
        {
            assert(pairs[i as int].1 == entries@[i as int].1@);
            if !text_can_be_written(entries[i].1.as_str()) {
                proof {
                    replacements::law_lookup_by_index(pairs, i as int);
                    assert(self@.replacements.contains_key(pairs[i as int].0));
                }
                return false;
            }
        }
        proof {
            assert forall|k: Seq<char>| #[trigger]
                self@.replacements.contains_key(k) implies !document::has_run(self@.replacements[k], '"')
                && !document::has_run(self@.replacements[k], '\'') by {
                let i = choose|i: int| 0 <= i < pairs.len() && (#[trigger] pairs[i]).0 == k;
                replacements::law_lookup_by_index(pairs, i);
            }
        }
        true
    }

    /// `kbcut add`: adds or updates a replacement, and tells what it now is.
    pub fn add(&mut self, trigger: &str, replacement: &str) -> (r: Result<String, AddError>)
        ensures
            match r {
                Ok(line) => !has_space(trigger@) && line@ == listed(trigger@, replacement@)
                    && final(self)@ == (ConfigView {
                    layout: old(self)@.layout,
                    replacements: old(self)@.replacements.insert(trigger@, replacement@),
                }),
                Err(e) => has_space(trigger@) && e == AddError::TriggerHasWhitespace && final(self)@
                    == old(self)@,
            },
    {
        if let Err(e) = check_trigger(trigger) {
            return Err(e);
        }
        self.replacements.insert(trigger.to_string(), replacement.to_string());
        Ok(list_line(trigger, replacement))
    }

    /// `kbcut rm`: removes a replacement. Tells whether there was one, and what to report.
    pub fn remove(&mut self, trigger: &str) -> (r: (bool, String))
        ensures
            r.0 == old(self)@.replacements.contains_key(trigger@),
            r.1@ == (if r.0 {
                "removed "@ + trigger@
            } else {
                "no such trigger: "@ + trigger@
            }),
            final(self)@ == (ConfigView {
                layout: old(self)@.layout,
                replacements: old(self)@.replacements.remove(trigger@),
            }),
    {
        match self.replacements.remove(trigger) {
            Some(_) => {
                let mut report = "removed ".to_string();
                report.append(trigger);
                (true, report)
            },
            None => {
                let mut report = "no such trigger: ".to_string();
                report.append(trigger);
                (false, report)
            },
        }
    }

    /// `kbcut list`: one line for each replacement, in the order of the triggers.
    pub fn list(&self) -> (r: Vec<String>)
        ensures
            replacements::in_key_order(self.replacements.pairs()),
            text::string_views(r@) == (if self.replacements.pairs().len() == 0 {
                seq![
                    "no replacements defined — add one with: kbcut add brb \"be right back\""@,
                ]
            } else {
                self.replacements.pairs().map_values(
                    |p: (Seq<char>, Seq<char>)| listed(p.0, p.1),
                )
            }),
    {
        let entries = self.replacements.entries();
        let ghost pairs = self.replacements.pairs();
        let mut lines: Vec<String> = Vec::new();
        if entries.len() == 0 {
            lines.push(
                "no replacements defined — add one with: kbcut add brb \"be right back\"".to_string(),
            );
            assert(text::string_views(lines@) =~= seq![lines@[0]@]);
            return lines;
        }
        let ghost want = pairs.map_values(|p: (Seq<char>, Seq<char>)| listed(p.0, p.1));
        for i in 0..entries.len()
            invariant
                pairs == replacements::pair_views(entries@),
                want == pairs.map_values(|p: (Seq<char>, Seq<char>)| listed(p.0, p.1)),
                text::string_views(lines@) == want.take(i as int),
        {
            let ghost before = lines@;
            lines.push(list_line(entries[i].0.as_str(), entries[i].1.as_str()));
            assert(pairs[i as int] == (entries@[i as int].0@, entries@[i as int].1@));
            assert(text::string_views(lines@) =~= text::string_views(before).push(want[i as int]));
            assert(want.take(i + 1) =~= want.take(i as int).push(want[i as int]));
        }
        assert(want.take(entries.len() as int) =~= want);
        lines
    }

    /// The configuration that the daemon starts with: one that could not be read counts as an
    /// empty one, so that the daemon runs and picks the file up once it is mended.
    pub fn at_startup<E>(loaded: Result<Config, E>) -> (r: Config)
        ensures
            r@ == (match loaded {
                Ok(config) => config@,
                Err(_) => empty_config(),
            }),
    {
        match loaded {
            Ok(config) => config,
            Err(_) => Config::default(),
        }
    }
}

/// The configuration in a file with that content; without a file nothing is configured.
pub fn load(raw: Option<&str>) -> (r: Result<Config, ConfigError>)
    ensures
        loaded(r) == (match raw {
            Some(raw) => config_of(document::toml_read(raw@)),
            None => Ok(empty_config()),
        }),
{
    match raw {
        Some(raw) => Config::from_toml(raw),
        None => Ok(Config::default()),
    }
}

/// The content of the file for a configuration, if it can be written. Loading it gives the same
/// configuration back.
pub fn save(config: &Config) -> (r: Option<String>)
    ensures
        match r {
            Some(text) => {
                &&& is_writable(config@)
                &&& text@ == document::toml_written(
                    fields_of(config@.layout),
                    "replacements"@,
                    config.replacements.pairs(),
                )
                &&& reads_back(text@, config@)
            },
            None => !is_writable(config@),
        },
{
    if config.can_be_written() {
        Some(config.to_toml())
    } else {
        None
    }
}

/// Removing a trigger undoes adding it, and leaves the other triggers as they were.
pub proof fn law_removing_undoes_adding(
    replacements: Map<Seq<char>, Seq<char>>,
    trigger: Seq<char>,
    replacement: Seq<char>,
)
    ensures
        replacements.insert(trigger, replacement).remove(trigger) == replacements.remove(trigger),
        !replacements.contains_key(trigger) ==> replacements.remove(trigger) == replacements,
{
    assert(replacements.insert(trigger, replacement).remove(trigger) =~= replacements.remove(
        trigger,
    ));
    if !replacements.contains_key(trigger) {
        assert(replacements.remove(trigger) =~= replacements);
    }
}

impl Clone for Config {
    fn clone(&self) -> (r: Self)
        ensures
            r@ == self@,
            r.replacements.pairs() == self.replacements.pairs(),
    {
        Config {
            layout: match &self.layout {
                Some(layout) => Some(layout.clone()),
                None => None,
            },
            replacements: self.replacements.clone(),
        }
    }
}

impl Default for Config {
    fn default() -> (r: Self)
        ensures
            r@ == empty_config(),
            r.layout is None,
            r.replacements.pairs().len() == 0,
    {
        Config { layout: None, replacements: Replacements::new() }
    }
}

/// The string fields of a configuration text.
pub open spec fn fields_of(layout: Option<Seq<char>>) -> Seq<(Seq<char>, Seq<char>)> {
    match layout {
        Some(l) => seq![("layout"@, l)],
        None => Seq::empty(),
    }
}

/// Reading the text gives the configuration.
pub open spec fn reads_back(text: Seq<char>, config: ConfigView) -> bool {
    config_of(document::toml_read(text)) matches Ok(read) && read == config
}

/// No string of the configuration holds 256 equal quotation marks in a row.
pub open spec fn is_writable(config: ConfigView) -> bool {
    &&& config.layout matches Some(l) ==> !document::has_run(l, '"') && !document::has_run(l, '\'')
    &&& forall|k: Seq<char>| #[trigger]
        config.replacements.contains_key(k) ==> !document::has_run(config.replacements[k], '"') && !document::has_run(
            config.replacements[k],
            '\'',
        )
}

fn text_can_be_written(s: &str) -> (r: bool)
    ensures
        r == (!document::has_run(s@, '"') && !document::has_run(s@, '\'')),
{
    let cs = to_chars(s);
    !holds_run(cs.as_slice(), '"') && !holds_run(cs.as_slice(), '\'')
}

/// True when the slice holds 256 times the character in a row.
fn holds_run(cs: &[char], c: char) -> (r: bool)
    ensures
        r == document::has_run(cs@, c),
{
    let ghost all = Seq::new(256, |j: int| c);
    let mut run: usize = 0;
    for i in 0..cs.len()
        invariant
            all == Seq::new(256, |j: int| c),
            run <= i,
            run < 256,
            forall|j: int| i - run <= j < i ==> cs@[j] == c,
            run < i ==> cs@[i - run - 1] != c,
            forall|k: int| 0 <= k && k + 256 <= i ==> #[trigger] cs@.subrange(k, k + 256) != all,
    {
        if cs[i] == c {
            run = run + 1;
            if run == 256 {
                assert(cs@.subrange(i - 255, i - 255 + 256) =~= all);
                return true;
            }
        } else {
            run = 0;
        }
        assert forall|k: int| 0 <= k && k + 256 <= i + 1 implies #[trigger] cs@.subrange(
            k,
            k + 256,
        ) != all by {
            if k + 256 == i + 1 {
                let j = i - run;
                assert(cs@[j] != c);
                assert(cs@.subrange(k, k + 256)[j - k] != all[j - k]);
            }
        }
    }
    false
}

proof fn lemma_entries_are_map(pairs: Seq<(Seq<char>, Seq<char>)>)
    requires
        replacements::in_key_order(pairs),
    ensures
        table_as_map(pairs.map_values(|e: (Seq<char>, Seq<char>)| (e.0, Some(e.1))))
            == replacements::as_map(pairs),
    decreases pairs.len(),
{
    let t = pairs.map_values(|e: (Seq<char>, Seq<char>)| (e.0, Some(e.1)));
    if pairs.len() == 0 {
        assert(replacements::as_map(pairs) =~= Map::<Seq<char>, Seq<char>>::empty());
    } else {
        let front = pairs.drop_last();
        lemma_entries_are_map(front);
        assert(t.drop_last() =~= front.map_values(
            |e: (Seq<char>, Seq<char>)| (e.0, Some(e.1)),
        ));
        replacements::law_last_pair_extends_the_map(pairs);
    }
}

proof fn lemma_document_is_config(config: ConfigView, pairs: Seq<(Seq<char>, Seq<char>)>)
    requires
        replacements::in_key_order(pairs),
        config.replacements == replacements::as_map(pairs),
    ensures
        config_of(
            Ok(
                document::document_of(
                    fields_of(config.layout),
                    "replacements"@,
                    pairs,
                ),
            ),
        ) == Ok::<ConfigView, ConfigErrorView>(config),
{
    reveal_strlit("layout");
    reveal_strlit("replacements");
    let items = document::document_of(fields_of(config.layout), "replacements"@, pairs);
    lemma_entries_are_map(pairs);
    assert("layout"@.len() != "replacements"@.len());
    reveal_with_fuel(item_at, 3);
    if config.layout is Some {
        assert(items.len() == 2);
        assert(items.drop_first()[0] == items[1]);
    } else {
        assert(items.len() == 1);
    }
}

/// A trigger is refused exactly where white space stands in it, at whatever place.
pub proof fn law_a_trigger_is_one_word(a: Seq<char>, c: char, b: Seq<char>)
    ensures
        text::is_space(c) ==> has_space(a + seq![c] + b),
        has_space(seq![c]) <==> text::is_space(c),
        has_space(a + b) <==> has_space(a) || has_space(b),
        !has_space(Seq::empty()),
{
    let s = a + seq![c] + b;
    assert(s[a.len() as int] == c);
    if has_space(a) {
        let i = choose|i: int| 0 <= i < a.len() && text::is_space(#[trigger] a[i]);
        assert((a + b)[i] == a[i]);
    }
    if has_space(b) {
        let i = choose|i: int| 0 <= i < b.len() && text::is_space(#[trigger] b[i]);
        assert((a + b)[a.len() + i] == b[i]);
    }
    if has_space(a + b) {
        let i = choose|i: int| 0 <= i < (a + b).len() && text::is_space(#[trigger] (a + b)[i]);
        if i < a.len() {
            assert((a + b)[i] == a[i]);
        } else {
            assert((a + b)[i] == b[i - a.len()]);
        }
    }
    assert(seq![c][0] == c);
}

/// No item has the key.
pub open spec fn has_no_item<V>(items: Seq<(Seq<char>, V)>, key: Seq<char>) -> bool {
    forall|i: int| 0 <= i < items.len() ==> (#[trigger] items[i]).0 != key
}

/// One item has the key, and this is what it holds.
pub open spec fn has_item<V>(items: Seq<(Seq<char>, V)>, key: Seq<char>, value: V) -> bool {
    exists|k: int|
        0 <= k < items.len() && #[trigger] items[k] == (key, value) && forall|i: int|
            0 <= i < items.len() && i != k ==> (#[trigger] items[i]).0 != key
}

proof fn lemma_no_item<V>(items: Seq<(Seq<char>, V)>, key: Seq<char>)
    requires
        has_no_item(items, key),
    ensures
        item_at(items, key) is None,
    decreases items.len(),
{
    if items.len() > 0 {
        let rest = items.drop_first();
        assert forall|i: int| 0 <= i < rest.len() implies (#[trigger] rest[i]).0 != key by {
            assert(rest[i] == items[i + 1]);
        }
        assert(items[0].0 != key);
        lemma_no_item(rest, key);
    }
}

proof fn lemma_item<V>(items: Seq<(Seq<char>, V)>, key: Seq<char>, value: V)
    requires
        has_item(items, key, value),
    ensures
        item_at(items, key) == Some(value),
    decreases items.len(),
{
    let k = choose|k: int|
        0 <= k < items.len() && #[trigger] items[k] == (key, value) && forall|i: int|
            0 <= i < items.len() && i != k ==> (#[trigger] items[i]).0 != key;
    if k > 0 {
        let rest = items.drop_first();
        assert(rest[k - 1] == items[k]);
        assert forall|i: int| 0 <= i < rest.len() && i != k - 1 implies (#[trigger] rest[i]).0
            != key by {
            assert(rest[i] == items[i + 1]);
        }
        assert(items[0].0 != key);
        assert(has_item(rest, key, value));
        lemma_item(rest, key, value);
    }
}

/// No later entry has the key of this one.
pub open spec fn is_last(t: Seq<(Seq<char>, Option<Seq<char>>)>, i: int) -> bool {
    forall|j: int| i < j < t.len() ==> (#[trigger] t[j]).0 != t[i].0
}

/// Some entry has the key.
pub open spec fn lists(t: Seq<(Seq<char>, Option<Seq<char>>)>, key: Seq<char>) -> bool {
    exists|i: int| 0 <= i < t.len() && (#[trigger] t[i]).0 == key
}

/// The map holds what the table lists: every key that is listed, with the last of its values, and
/// no other.
pub open spec fn holds_table(
    m: Map<Seq<char>, Seq<char>>,
    t: Seq<(Seq<char>, Option<Seq<char>>)>,
) -> bool {
    &&& forall|k: Seq<char>| #[trigger] m.contains_key(k) <==> lists(t, k)
    &&& forall|i: int| 0 <= i < t.len() && #[trigger] is_last(t, i) ==> Some(m[t[i].0]) == t[i].1
}

proof fn lemma_table(t: Seq<(Seq<char>, Option<Seq<char>>)>)
    requires
        forall|i: int| 0 <= i < t.len() ==> (#[trigger] t[i]).1 is Some,
    ensures
        holds_table(table_as_map(t), t),
    decreases t.len(),
{
    if t.len() > 0 {
        let front = t.drop_last();
        let n = t.len() - 1;
        assert forall|i: int| 0 <= i < front.len() implies (#[trigger] front[i]).1 is Some by {
            assert(front[i] == t[i]);
        }
        lemma_table(front);
        let m = table_as_map(front);
        let all = table_as_map(t);
        assert(all == m.insert(t[n].0, t[n].1->0));
        assert forall|k: Seq<char>| #[trigger] all.contains_key(k) <==> lists(t, k) by {
            if k == t[n].0 {
                assert(lists(t, k));
            } else {
                assert(m.contains_key(k) <==> lists(front, k));
                if lists(front, k) {
                    let i = choose|i: int| 0 <= i < front.len() && (#[trigger] front[i]).0 == k;
                    assert(t[i].0 == k);
                }
                if lists(t, k) {
                    let i = choose|i: int| 0 <= i < t.len() && (#[trigger] t[i]).0 == k;
                    assert(front[i].0 == k);
                }
            }
        }
        assert forall|i: int| 0 <= i < t.len() && #[trigger] is_last(t, i) implies Some(all[t[i].0])
            == t[i].1 by {
            if i < n {
                assert(t[n].0 != t[i].0);
                assert(front[i] == t[i]);
                assert forall|j: int| i < j < front.len() implies (#[trigger] front[j]).0
                    != front[i].0 by {
                    assert(front[j] == t[j]);
                }
                assert(is_last(front, i));
            }
        }
    }
}

/// A document is a configuration where its `layout`, if it has one, is a string, and its
/// `replacements`, if it has them, a table of strings: that string is the layout, and the table,
/// all of it, the replacements. Anything else is refused with the reason, and other keys do not
/// matter.
pub proof fn law_a_document_is_read_whole(
    items: Seq<(Seq<char>, document::TomlView)>,
    layout: Option<document::TomlView>,
    table: Option<document::TomlView>,
)
    requires
        match layout {
            Some(v) => has_item(items, "layout"@, v),
            None => has_no_item(items, "layout"@),
        },
        match table {
            Some(v) => has_item(items, "replacements"@, v),
            None => has_no_item(items, "replacements"@),
        },
    ensures
        match (layout, table) {
            (Some(document::TomlView::Table(_)), _) | (Some(document::TomlView::Other), _)
                => config_of(Ok(items)) == Err::<ConfigView, ConfigErrorView>(
                ConfigErrorView::LayoutIsNoText,
            ),
            (_, Some(document::TomlView::Text(_))) | (_, Some(document::TomlView::Other))
                => config_of(Ok(items)) == Err::<ConfigView, ConfigErrorView>(
                ConfigErrorView::ReplacementsAreNoTable,
            ),
            (_, Some(document::TomlView::Table(t))) => if forall|i: int|
                0 <= i < t.len() ==> (#[trigger] t[i]).1 is Some {
                config_of(Ok(items)) matches Ok(config) && holds_table(config.replacements, t)
                    && config.layout == text_of(layout)
            } else {
                config_of(Ok(items)) == Err::<ConfigView, ConfigErrorView>(
                    ConfigErrorView::ReplacementIsNoText,
                )
            },
            (_, None) => config_of(Ok(items)) matches Ok(config) && config.layout == text_of(layout)
                && forall|k: Seq<char>| !#[trigger] config.replacements.contains_key(k),
        },
{
    match layout {
        Some(v) => lemma_item(items, "layout"@, v),
        None => lemma_no_item(items, "layout"@),
    }
    match table {
        Some(v) => {
            lemma_item(items, "replacements"@, v);
            if let document::TomlView::Table(t) = v {
                if all_text(t) {
                    lemma_table(t);
                }
            }
        },
        None => lemma_no_item(items, "replacements"@),
    }
}

/// The string that an item is.
pub open spec fn text_of(item: Option<document::TomlView>) -> Option<Seq<char>> {
    match item {
        Some(document::TomlView::Text(s)) => Some(s),
        _ => None,
    }
}

/// A text that is no document is refused in the words of the reader.
pub proof fn law_what_cannot_be_read_is_refused(message: Seq<char>)
    ensures
        config_of(Err(message)) == Err::<ConfigView, ConfigErrorView>(
            ConfigErrorView::Syntax(message),
        ),
        empty_config().layout is None,
        forall|k: Seq<char>| !#[trigger] empty_config().replacements.contains_key(k),
{
}

/// A replacement is listed with its trigger in front and an arrow between the two.
pub proof fn law_a_replacement_is_listed_behind_its_trigger(t: Seq<char>, r: Seq<char>)
    ensures
        listed(t, r) == t + seq![' ', '\u{2192}', ' '] + r,
{
    reveal_strlit(" → ");
    assert(" → "@ =~= seq![' ', '\u{2192}', ' ']);
}

} // verus!
