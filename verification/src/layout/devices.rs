//! What the compositors report of their input devices: JSON that names the active layout of each
//! keyboard by its description.
use vstd::prelude::*;

use crate::json;
use crate::json::{
    read_bool, read_elements, read_members, read_nullable_string, read_string, value_of,
};
use crate::layout::registry;
use crate::layout::registry::Registry;
use crate::layout::{LayoutSpec, LayoutView};
use crate::text;
use crate::text::{is_text, to_chars};

verus! {

/// An input device as Sway reports it.
#[derive(Debug)]
pub struct SwayInput {
    pub kind: String,
    pub xkb_active_layout_name: Option<String>,
}

/// An input device as Sway reports it, as values.
pub struct SwayInputView {
    pub kind: Seq<char>,
    pub xkb_active_layout_name: Option<Seq<char>>,
}

impl View for SwayInput {
    type V = SwayInputView;

    open spec fn view(&self) -> SwayInputView {
        SwayInputView {
            kind: self.kind@,
            xkb_active_layout_name: text::optional_view(self.xkb_active_layout_name),
        }
    }
}

/// An input device with the JSON texts of its fields; the name may be missing.
pub open spec fn sway_fields(kind: Seq<char>, name: Option<Seq<char>>) -> Option<SwayInputView> {
    match (
        json::json_string(kind),
        match name {
            Some(name) => json::nullable(name),
            None => Some(None),
        },
    ) {
        (Some(kind), Some(name)) => Some(SwayInputView { kind, xkb_active_layout_name: name }),
        _ => None,
    }
}

/// An input device is an object with its fields by name, no field twice, or an array with both
/// fields in order. Other fields of an object do not matter.
pub open spec fn sway_input(json: Seq<char>) -> Option<SwayInputView> {
    match (json::elements(json), json::members(json)) {
        (Some(es), _) => if es.len() == 2 {
            sway_fields(es[0], Some(es[1]))
        } else {
            None
        },
        (None, Some(ms)) => match (
            json::only_value(ms, "type"@),
            json::only_value(ms, "xkb_active_layout_name"@),
        ) {
            (Some(Some(kind)), Some(name)) => sway_fields(kind, name),
            _ => None,
        },
        (None, None) => None,
    }
}

/// All input devices, if each of them can be read.
pub open spec fn sway_inputs(es: Seq<Seq<char>>) -> Option<Seq<SwayInputView>>
    decreases es.len(),
{
    if es.len() == 0 {
        Some(Seq::empty())
    } else {
        match (sway_inputs(es.drop_last()), sway_input(es.last())) {
            (Some(inputs), Some(input)) => Some(inputs.push(input)),
            _ => None,
        }
    }
}

/// The active layout of the first keyboard whose active layout is known.
pub open spec fn sway_active(
    inputs: Seq<SwayInputView>,
    known: Map<Seq<char>, LayoutView>,
) -> Option<LayoutView>
    decreases inputs.len(),
{
    if inputs.len() == 0 {
        None
    } else {
        match active_of(inputs[0], known) {
            Some(spec) => Some(spec),
            None => sway_active(inputs.drop_first(), known),
        }
    }
}

/// The active layout of a device, if it is a keyboard and its layout is known.
pub open spec fn active_of(input: SwayInputView, known: Map<Seq<char>, LayoutView>) -> Option<
    LayoutView,
> {
    match input.xkb_active_layout_name {
        Some(name) => if input.kind == "keyboard"@ {
            registry::resolved(known, name)
        } else {
            None
        },
        None => None,
    }
}

/// The layout in effect according to what Sway reports.
pub open spec fn sway_layout(json: Seq<char>, known: Map<Seq<char>, LayoutView>) -> Option<
    LayoutView,
> {
    match json::elements(json) {
        Some(es) => match sway_inputs(es) {
            Some(inputs) => sway_active(inputs, known),
            None => None,
        },
        None => None,
    }
}

/// The devices of a list, as values.
pub open spec fn input_views(v: Seq<SwayInput>) -> Seq<SwayInputView> {
    v.map_values(|i: SwayInput| i@)
}

fn read_sway_fields(kind: &str, name: Option<&String>) -> (r: Option<SwayInput>)
    ensures
        match r {
            Some(input) => sway_fields(kind@, borrowed(name)) == Some(input@),
            None => sway_fields(kind@, borrowed(name)) is None,
        },
{
    let kind = read_string(kind)?;
    let xkb_active_layout_name = match name {
        Some(name) => read_nullable_string(name.as_str())?,
        None => None,
    };
    Some(SwayInput { kind, xkb_active_layout_name })
}

spec fn borrowed(s: Option<&String>) -> Option<Seq<char>> {
    match s {
        Some(s) => Some(s@),
        None => None,
    }
}

fn read_sway_input(json: &str) -> (r: Option<SwayInput>)
    ensures
        match r {
            Some(input) => sway_input(json@) == Some(input@),
            None => sway_input(json@) is None,
        },
{
    if let Some(es) = read_elements(json) {
        if es.len() != 2 {
            return None;
        }
        assert(text::string_views(es@)[0] == es@[0]@);
        assert(text::string_views(es@)[1] == es@[1]@);
        return read_sway_fields(es[0].as_str(), Some(&es[1]));
    }
    let ms = read_members(json)?;
    let kind = value_of(&ms, "type")?;
    let name = value_of(&ms, "xkb_active_layout_name")?;
    let kind = kind?;
    read_sway_fields(kind.as_str(), name.as_ref())
}

/// The active layout of the first keyboard whose active layout is known.
pub fn sway_active_layout(inputs: &Vec<SwayInput>, registry: &Registry) -> (r: Option<LayoutSpec>)
    ensures
        registry::spec_view(r) == sway_active(input_views(inputs@), registry@),
{
    let ghost want = input_views(inputs@);
    assert(want.skip(0) =~= want);
    let keyboard = to_chars("keyboard");
    for i in 0..inputs.len()
        invariant
            keyboard@ == "keyboard"@,
            want == input_views(inputs@),
            sway_active(want, registry@) == sway_active(want.skip(i as int), registry@),
    {
        assert(want[i as int] == inputs@[i as int]@);
        assert(want.skip(i as int).drop_first() =~= want.skip(i + 1));
        let input = &inputs[i];
        if is_text(keyboard.as_slice(), input.kind.as_str()) {
            if let Some(name) = &input.xkb_active_layout_name {
                let spec = registry.resolve(name.as_str());
                if spec.is_some() {
                    return spec;
                }
            }
        }
    }
    None
}

/// The layout in effect according to `swaymsg -t get_inputs`: the active layout that a keyboard
/// reports, never the first of its configured ones.
pub fn parse_sway_inputs(json: &str, registry: &Registry) -> (r: Option<LayoutSpec>)
    ensures
        registry::spec_view(r) == sway_layout(json@, registry@),
{
    let es = read_elements(json)?;
    let ghost want = text::string_views(es@);
    let mut inputs: Vec<SwayInput> = Vec::new();
    assert(input_views(inputs@) =~= Seq::<SwayInputView>::empty());
    for i in 0..es.len()
        invariant
            want == text::string_views(es@),
            json::elements(json@) == Some(want),
            sway_inputs(want.take(i as int)) == Some(input_views(inputs@)),
    {
        let ghost before = input_views(inputs@);
        assert(want.take(i + 1).drop_last() =~= want.take(i as int));
        assert(want.take(i + 1).last() == es@[i as int]@);
        match read_sway_input(es[i].as_str()) {
            Some(input) => {
                inputs.push(input);
                assert(input_views(inputs@) =~= before.push(input@));
            },
            None => {
                proof {
                    lemma_unreadable_input(want, i as int);
                }
                return None;
            },
        }
    }
    assert(want.take(es.len() as int) =~= want);
    sway_active_layout(&inputs, registry)
}

/// One device that cannot be read spoils the list.
proof fn lemma_unreadable_input(es: Seq<Seq<char>>, i: int)
    requires
        0 <= i < es.len(),
        sway_input(es[i]) is None,
    ensures
        sway_inputs(es) is None,
    decreases es.len(),
{
    if i < es.len() - 1 {
        lemma_unreadable_input(es.drop_last(), i);
    }
}

/// A keyboard as Hyprland reports it.
#[derive(Debug)]
pub struct HyprKeyboard {
    pub active_keymap: String,
    pub main: bool,
}

/// A keyboard as Hyprland reports it, as values.
pub struct HyprKeyboardView {
    pub active_keymap: Seq<char>,
    pub main: bool,
}

impl View for HyprKeyboard {
    type V = HyprKeyboardView;

    open spec fn view(&self) -> HyprKeyboardView {
        HyprKeyboardView { active_keymap: self.active_keymap@, main: self.main }
    }
}

/// A keyboard with the JSON texts of its fields; one that does not say so is not the main one.
pub open spec fn hypr_fields(keymap: Seq<char>, main: Option<Seq<char>>) -> Option<
    HyprKeyboardView,
> {
    match (
        json::json_string(keymap),
        match main {
            Some(main) => json::truth(main),
            None => Some(false),
        },
    ) {
        (Some(active_keymap), Some(main)) => Some(HyprKeyboardView { active_keymap, main }),
        _ => None,
    }
}

/// A keyboard is an object with its fields by name, no field twice, or an array with the keymap
/// and perhaps the other field. Other fields of an object do not matter.
pub open spec fn hypr_keyboard(json: Seq<char>) -> Option<HyprKeyboardView> {
    match (json::elements(json), json::members(json)) {
        (Some(es), _) => if es.len() == 1 {
            hypr_fields(es[0], None)
        } else if es.len() == 2 {
            hypr_fields(es[0], Some(es[1]))
        } else {
            None
        },
        (None, Some(ms)) => match (
            json::only_value(ms, "active_keymap"@),
            json::only_value(ms, "main"@),
        ) {
            (Some(Some(keymap)), Some(main)) => hypr_fields(keymap, main),
            _ => None,
        },
        (None, None) => None,
    }
}

/// All keyboards, if each of them can be read.
pub open spec fn hypr_keyboards(es: Seq<Seq<char>>) -> Option<Seq<HyprKeyboardView>>
    decreases es.len(),
{
    if es.len() == 0 {
        Some(Seq::empty())
    } else {
        match (hypr_keyboards(es.drop_last()), hypr_keyboard(es.last())) {
            (Some(keyboards), Some(keyboard)) => Some(keyboards.push(keyboard)),
            _ => None,
        }
    }
}

/// The devices are an object with the keyboards under their name, or an array that holds nothing
/// but the keyboards.
pub open spec fn keyboard_list(json: Seq<char>) -> Option<Seq<Seq<char>>> {
    match (json::elements(json), json::members(json)) {
        (Some(es), _) => if es.len() == 1 {
            json::elements(es[0])
        } else {
            None
        },
        (None, Some(ms)) => match json::only_value(ms, "keyboards"@) {
            Some(Some(keyboards)) => json::elements(keyboards),
            _ => None,
        },
        (None, None) => None,
    }
}

/// The keyboards among the devices.
pub open spec fn hypr_devices(json: Seq<char>) -> Option<Seq<HyprKeyboardView>> {
    match keyboard_list(json) {
        Some(es) => hypr_keyboards(es),
        None => None,
    }
}

/// The place of the first main keyboard, or the number of keyboards when there is none.
pub open spec fn first_main(keyboards: Seq<HyprKeyboardView>) -> int
    decreases keyboards.len(),
{
    if keyboards.len() == 0 || keyboards[0].main {
        0
    } else {
        1 + first_main(keyboards.drop_first())
    }
}

/// The layout of the main keyboard, or of the first where none is the main one.
pub open spec fn hypr_active(
    keyboards: Seq<HyprKeyboardView>,
    known: Map<Seq<char>, LayoutView>,
) -> Option<LayoutView> {
    let main = first_main(keyboards);
    if keyboards.len() == 0 {
        None
    } else if main < keyboards.len() {
        registry::resolved(known, keyboards[main].active_keymap)
    } else {
        registry::resolved(known, keyboards[0].active_keymap)
    }
}

/// The layout in effect according to what Hyprland reports.
pub open spec fn hypr_layout(json: Seq<char>, known: Map<Seq<char>, LayoutView>) -> Option<
    LayoutView,
> {
    match hypr_devices(json) {
        Some(keyboards) => hypr_active(keyboards, known),
        None => None,
    }
}

/// The keyboards of a list, as values.
pub open spec fn keyboard_views(v: Seq<HyprKeyboard>) -> Seq<HyprKeyboardView> {
    v.map_values(|k: HyprKeyboard| k@)
}

fn read_hypr_fields(keymap: &str, main: Option<&String>) -> (r: Option<HyprKeyboard>)
    ensures
        match r {
            Some(keyboard) => hypr_fields(keymap@, borrowed(main)) == Some(keyboard@),
            None => hypr_fields(keymap@, borrowed(main)) is None,
        },
{
    let active_keymap = read_string(keymap)?;
    let main = match main {
        Some(main) => read_bool(main.as_str())?,
        None => false,
    };
    Some(HyprKeyboard { active_keymap, main })
}

fn read_hypr_keyboard(json: &str) -> (r: Option<HyprKeyboard>)
    ensures
        match r {
            Some(keyboard) => hypr_keyboard(json@) == Some(keyboard@),
            None => hypr_keyboard(json@) is None,
        },
{
    if let Some(es) = read_elements(json) {
        if es.len() == 1 {
            assert(text::string_views(es@)[0] == es@[0]@);
            return read_hypr_fields(es[0].as_str(), None);
        }
        if es.len() == 2 {
            assert(text::string_views(es@)[0] == es@[0]@);
            assert(text::string_views(es@)[1] == es@[1]@);
            return read_hypr_fields(es[0].as_str(), Some(&es[1]));
        }
        return None;
    }
    let ms = read_members(json)?;
    let keymap = value_of(&ms, "active_keymap")?;
    let main = value_of(&ms, "main")?;
    let keymap = keymap?;
    read_hypr_fields(keymap.as_str(), main.as_ref())
}

fn read_keyboard_list(json: &str) -> (r: Option<Vec<String>>)
    ensures
        json::elements_view(r) == keyboard_list(json@),
{
    if let Some(es) = read_elements(json) {
        if es.len() != 1 {
            return None;
        }
        assert(text::string_views(es@)[0] == es@[0]@);
        return read_elements(es[0].as_str());
    }
    let ms = read_members(json)?;
    let keyboards = value_of(&ms, "keyboards")?;
    let keyboards = keyboards?;
    read_elements(keyboards.as_str())
}

/// The layout of the main keyboard, or of the first where none is the main one.
pub fn hypr_active_layout(keyboards: &Vec<HyprKeyboard>, registry: &Registry) -> (r: Option<
    LayoutSpec,
>)
    ensures
        registry::spec_view(r) == hypr_active(keyboard_views(keyboards@), registry@),
{
    let ghost want = keyboard_views(keyboards@);
    let mut i: usize = 0;
    assert(want.skip(0) =~= want);
    while i < keyboards.len() && !keyboards[i].main
        invariant
            i <= keyboards.len(),
            want == keyboard_views(keyboards@),
            first_main(want) == i + first_main(want.skip(i as int)),
        decreases keyboards.len() - i,
    {
        assert(want[i as int] == keyboards@[i as int]@);
        assert(want.skip(i as int).drop_first() =~= want.skip(i + 1));
        i = i + 1;
    }
    if keyboards.len() == 0 {
        return None;
    }
    let chosen = if i < keyboards.len() {
        i
    } else {
        0
    };
    assert(want[chosen as int] == keyboards@[chosen as int]@);
    registry.resolve(keyboards[chosen].active_keymap.as_str())
}

/// The layout in effect according to `hyprctl devices -j`: what the main keyboard reports.
pub fn parse_hyprctl_devices(json: &str, registry: &Registry) -> (r: Option<LayoutSpec>)
    ensures
        registry::spec_view(r) == hypr_layout(json@, registry@),
{
    let es = read_keyboard_list(json)?;
    let ghost want = text::string_views(es@);
    let mut keyboards: Vec<HyprKeyboard> = Vec::new();
    assert(keyboard_views(keyboards@) =~= Seq::<HyprKeyboardView>::empty());
    for i in 0..es.len()
        invariant
            want == text::string_views(es@),
            hypr_devices(json@) == hypr_keyboards(want),
            hypr_keyboards(want.take(i as int)) == Some(keyboard_views(keyboards@)),
    {
        let ghost before = keyboard_views(keyboards@);
        assert(want.take(i + 1).drop_last() =~= want.take(i as int));
        assert(want.take(i + 1).last() == es@[i as int]@);
        match read_hypr_keyboard(es[i].as_str()) {
            Some(keyboard) => {
                keyboards.push(keyboard);
                assert(keyboard_views(keyboards@) =~= before.push(keyboard@));
            },
            None => {
                proof {
                    lemma_unreadable_keyboard(want, i as int);
                }
                return None;
            },
        }
    }
    assert(want.take(es.len() as int) =~= want);
    hypr_active_layout(&keyboards, registry)
}

/// One keyboard that cannot be read spoils the list.
proof fn lemma_unreadable_keyboard(es: Seq<Seq<char>>, i: int)
    requires
        0 <= i < es.len(),
        hypr_keyboard(es[i]) is None,
    ensures
        hypr_keyboards(es) is None,
    decreases es.len(),
{
    if i < es.len() - 1 {
        lemma_unreadable_keyboard(es.drop_last(), i);
    }
}

/// The layout is that of the first keyboard that names one that is known: devices before it that
/// are no keyboards, name no layout or an unknown one are passed over, and those behind it do not
/// matter. Where there is no such keyboard there is no layout.
pub proof fn law_the_first_keyboard_with_a_known_layout_counts(
    before: Seq<SwayInputView>,
    input: SwayInputView,
    behind: Seq<SwayInputView>,
    known: Map<Seq<char>, LayoutView>,
)
    requires
        forall|i: int|
            0 <= i < before.len() ==> (#[trigger] before[i]).kind != "keyboard"@
                || before[i].xkb_active_layout_name is None || registry::resolved(
                known,
                before[i].xkb_active_layout_name->0,
            ) is None,
    ensures
        input.kind == "keyboard"@ && input.xkb_active_layout_name is Some && registry::resolved(
            known,
            input.xkb_active_layout_name->0,
        ) is Some ==> sway_active(before.push(input) + behind, known) == registry::resolved(
            known,
            input.xkb_active_layout_name->0,
        ),
        sway_active(before, known) is None,
    decreases before.len(),
{
    if before.len() == 0 {
        assert((before.push(input) + behind)[0] == input);
    } else {
        let rest = before.drop_first();
        assert forall|i: int| 0 <= i < rest.len() implies (#[trigger] rest[i]).kind != "keyboard"@
            || rest[i].xkb_active_layout_name is None || registry::resolved(
            known,
            rest[i].xkb_active_layout_name->0,
        ) is None by {
            assert(rest[i] == before[i + 1]);
        }
        law_the_first_keyboard_with_a_known_layout_counts(rest, input, behind, known);
        let all = before.push(input) + behind;
        assert(all[0] == before[0]);
        assert(all.drop_first() =~= rest.push(input) + behind);
    }
}

/// The layout is that of the first main keyboard, whatever the others report, and of the first
/// keyboard where none is the main one.
pub proof fn law_the_main_keyboard_counts(
    before: Seq<HyprKeyboardView>,
    keyboard: HyprKeyboardView,
    behind: Seq<HyprKeyboardView>,
    known: Map<Seq<char>, LayoutView>,
)
    requires
        forall|i: int| 0 <= i < before.len() ==> !(#[trigger] before[i]).main,
    ensures
        keyboard.main ==> hypr_active(before.push(keyboard) + behind, known) == registry::resolved(
            known,
            keyboard.active_keymap,
        ),
        before.len() > 0 ==> hypr_active(before, known) == registry::resolved(
            known,
            before[0].active_keymap,
        ),
        before.len() == 0 ==> hypr_active(before, known) is None,
{
    lemma_first_main(before, keyboard, behind);
    let all = before.push(keyboard) + behind;
    assert(all[before.len() as int] == keyboard);
}

proof fn lemma_first_main(
    before: Seq<HyprKeyboardView>,
    keyboard: HyprKeyboardView,
    behind: Seq<HyprKeyboardView>,
)
    requires
        forall|i: int| 0 <= i < before.len() ==> !(#[trigger] before[i]).main,
    ensures
        keyboard.main ==> first_main(before.push(keyboard) + behind) == before.len(),
        first_main(before) == before.len(),
    decreases before.len(),
{
    let all = before.push(keyboard) + behind;
    if before.len() == 0 {
        assert(all[0] == keyboard);
    } else {
        let rest = before.drop_first();
        assert forall|i: int| 0 <= i < rest.len() implies !(#[trigger] rest[i]).main by {
            assert(rest[i] == before[i + 1]);
        }
        lemma_first_main(rest, keyboard, behind);
        assert(all[0] == before[0]);
        assert(all.drop_first() =~= rest.push(keyboard) + behind);
    }
}

/// Sway reports a list of devices, each with its type and perhaps the name of its active layout.
/// Every device is read, in order and with its own fields, whatever other fields it has; a name
/// that is missing or `null` is no name.
pub proof fn law_sway_devices_are_read_in_order(
    json: Seq<char>,
    es: Seq<Seq<char>>,
    kinds: Seq<Seq<char>>,
    names: Seq<Option<Seq<char>>>,
    known: Map<Seq<char>, LayoutView>,
)
    requires
        json::elements(json) == Some(es),
        kinds.len() == es.len(),
        names.len() == es.len(),
        forall|i: int|
            0 <= i < es.len() ==> is_sway_object(#[trigger] es[i], kinds[i], names[i]),
    ensures
        sway_layout(json, known) == sway_active(
            Seq::new(
                es.len(),
                |i: int| SwayInputView { kind: kinds[i], xkb_active_layout_name: names[i] },
            ),
            known,
        ),
{
    lemma_sway_inputs(es, kinds, names);
}

/// The text is a JSON object that gives the device's type and the name of its active layout, once
/// each.
pub open spec fn is_sway_object(e: Seq<char>, kind: Seq<char>, name: Option<Seq<char>>) -> bool {
    &&& json::elements(e) is None
    &&& json::members(e) matches Some(ms) && {
        &&& has_one(ms, "type"@, json_of(ms, "type"@))
        &&& json::json_string(json_of(ms, "type"@)) == Some(kind)
        &&& match name {
            Some(name) => {
                &&& has_one(ms, "xkb_active_layout_name"@, json_of(ms, "xkb_active_layout_name"@))
                &&& json::bare(json_of(ms, "xkb_active_layout_name"@)) != "null"@
                &&& json::json_string(json_of(ms, "xkb_active_layout_name"@)) == Some(name)
            },
            None => {
                ||| has_none(ms, "xkb_active_layout_name"@)
                ||| {
                    &&& has_one(
                        ms,
                        "xkb_active_layout_name"@,
                        json_of(ms, "xkb_active_layout_name"@),
                    )
                    &&& json::bare(json_of(ms, "xkb_active_layout_name"@)) == "null"@
                }
            },
        }
    }
}

/// No member has the key.
pub open spec fn has_none(ms: Seq<(Seq<char>, Seq<char>)>, key: Seq<char>) -> bool {
    forall|i: int| 0 <= i < ms.len() ==> (#[trigger] ms[i]).0 != key
}

/// Exactly one member has the key, and this is its value.
pub open spec fn has_one(
    ms: Seq<(Seq<char>, Seq<char>)>,
    key: Seq<char>,
    value: Seq<char>,
) -> bool {
    exists|k: int|
        0 <= k < ms.len() && #[trigger] ms[k] == (key, value) && forall|i: int|
            0 <= i < ms.len() && i != k ==> (#[trigger] ms[i]).0 != key
}

/// The value of a member with the key.
pub open spec fn json_of(ms: Seq<(Seq<char>, Seq<char>)>, key: Seq<char>) -> Seq<char> {
    choose|value: Seq<char>| ms.contains((key, value))
}

proof fn lemma_none(ms: Seq<(Seq<char>, Seq<char>)>, key: Seq<char>)
    requires
        has_none(ms, key),
    ensures
        json::only_value(ms, key) == Some(None::<Seq<char>>),
    decreases ms.len(),
{
    if ms.len() > 0 {
        let front = ms.drop_last();
        assert forall|i: int| 0 <= i < front.len() implies (#[trigger] front[i]).0 != key by {
            assert(front[i] == ms[i]);
        }
        lemma_none(front, key);
        assert(ms.last() == ms[ms.len() - 1]);
    }
}

proof fn lemma_one(ms: Seq<(Seq<char>, Seq<char>)>, key: Seq<char>, value: Seq<char>)
    requires
        has_one(ms, key, value),
    ensures
        json::only_value(ms, key) == Some(Some(value)),
    decreases ms.len(),
{
    let k = choose|k: int|
        0 <= k < ms.len() && #[trigger] ms[k] == (key, value) && forall|i: int|
            0 <= i < ms.len() && i != k ==> (#[trigger] ms[i]).0 != key;
    let front = ms.drop_last();
    assert(ms.last() == ms[ms.len() - 1]);
    if k == ms.len() - 1 {
        assert forall|i: int| 0 <= i < front.len() implies (#[trigger] front[i]).0 != key by {
            assert(front[i] == ms[i]);
        }
        lemma_none(front, key);
    } else {
        assert(front[k] == ms[k]);
        assert forall|i: int| 0 <= i < front.len() && i != k implies (#[trigger] front[i]).0
            != key by {
            assert(front[i] == ms[i]);
        }
        assert(has_one(front, key, value));
        lemma_one(front, key, value);
    }
}

proof fn lemma_sway_inputs(
    es: Seq<Seq<char>>,
    kinds: Seq<Seq<char>>,
    names: Seq<Option<Seq<char>>>,
)
    requires
        kinds.len() == es.len(),
        names.len() == es.len(),
        forall|i: int|
            0 <= i < es.len() ==> is_sway_object(#[trigger] es[i], kinds[i], names[i]),
    ensures
        sway_inputs(es) == Some(
            Seq::new(
                es.len(),
                |i: int| SwayInputView { kind: kinds[i], xkb_active_layout_name: names[i] },
            ),
        ),
    decreases es.len(),
{
    let all = Seq::new(
        es.len(),
        |i: int| SwayInputView { kind: kinds[i], xkb_active_layout_name: names[i] },
    );
    if es.len() == 0 {
        assert(all =~= Seq::<SwayInputView>::empty());
    } else {
        let n = es.len() - 1;
        let front = es.drop_last();
        assert forall|i: int| 0 <= i < front.len() implies is_sway_object(
            #[trigger] front[i],
            kinds.drop_last()[i],
            names.drop_last()[i],
        ) by {
            assert(front[i] == es[i]);
        }
        lemma_sway_inputs(front, kinds.drop_last(), names.drop_last());
        let first = Seq::new(
            front.len(),
            |i: int|
                SwayInputView {
                    kind: kinds.drop_last()[i],
                    xkb_active_layout_name: names.drop_last()[i],
                },
        );
        assert(is_sway_object(es[n], kinds[n], names[n]));
        let ms = json::members(es[n])->0;
        lemma_one(ms, "type"@, json_of(ms, "type"@));
        if names[n] is Some || !has_none(ms, "xkb_active_layout_name"@) {
            lemma_one(ms, "xkb_active_layout_name"@, json_of(ms, "xkb_active_layout_name"@));
        } else {
            lemma_none(ms, "xkb_active_layout_name"@);
        }
        assert(es.last() == es[n]);
        assert(sway_input(es[n]) == Some(all[n]));
        assert(first.push(all[n]) =~= all);
    }
}

/// Hyprland reports an object with a list of keyboards, each with its active layout. Every one is
/// read, in order and with its own fields; one that does not say that it is the main one is not.
pub proof fn law_hyprland_keyboards_are_read_in_order(
    json: Seq<char>,
    es: Seq<Seq<char>>,
    keymaps: Seq<Seq<char>>,
    mains: Seq<bool>,
    known: Map<Seq<char>, LayoutView>,
)
    requires
        json::elements(json) is None,
        json::members(json) is Some,
        has_one(json::members(json)->0, "keyboards"@, json_of(json::members(json)->0, "keyboards"@)),
        json::elements(json_of(json::members(json)->0, "keyboards"@)) == Some(es),
        keymaps.len() == es.len(),
        mains.len() == es.len(),
        forall|i: int|
            0 <= i < es.len() ==> is_hypr_object(#[trigger] es[i], keymaps[i], mains[i]),
    ensures
        hypr_layout(json, known) == hypr_active(
            Seq::new(
                es.len(),
                |i: int| HyprKeyboardView { active_keymap: keymaps[i], main: mains[i] },
            ),
            known,
        ),
{
    let ms = json::members(json)->0;
    lemma_one(ms, "keyboards"@, json_of(ms, "keyboards"@));
    lemma_hypr_keyboards(es, keymaps, mains);
}

/// The text is a JSON object that gives the keyboard's active layout once, and whether it is the
/// main one at most once.
pub open spec fn is_hypr_object(e: Seq<char>, keymap: Seq<char>, main: bool) -> bool {
    &&& json::elements(e) is None
    &&& json::members(e) matches Some(ms) && {
        &&& has_one(ms, "active_keymap"@, json_of(ms, "active_keymap"@))
        &&& json::json_string(json_of(ms, "active_keymap"@)) == Some(keymap)
        &&& {
            ||| {
                &&& has_one(ms, "main"@, json_of(ms, "main"@))
                &&& json::bare(json_of(ms, "main"@)) == (if main {
                    "true"@
                } else {
                    "false"@
                })
            }
            ||| has_none(ms, "main"@) && !main
        }
    }
}

proof fn lemma_hypr_keyboards(es: Seq<Seq<char>>, keymaps: Seq<Seq<char>>, mains: Seq<bool>)
    requires
        keymaps.len() == es.len(),
        mains.len() == es.len(),
        forall|i: int|
            0 <= i < es.len() ==> is_hypr_object(#[trigger] es[i], keymaps[i], mains[i]),
    ensures
        hypr_keyboards(es) == Some(
            Seq::new(
                es.len(),
                |i: int| HyprKeyboardView { active_keymap: keymaps[i], main: mains[i] },
            ),
        ),
    decreases es.len(),
{
    let all = Seq::new(
        es.len(),
        |i: int| HyprKeyboardView { active_keymap: keymaps[i], main: mains[i] },
    );
    if es.len() == 0 {
        assert(all =~= Seq::<HyprKeyboardView>::empty());
    } else {
        let n = es.len() - 1;
        let front = es.drop_last();
        assert forall|i: int| 0 <= i < front.len() implies is_hypr_object(
            #[trigger] front[i],
            keymaps.drop_last()[i],
            mains.drop_last()[i],
        ) by {
            assert(front[i] == es[i]);
        }
        lemma_hypr_keyboards(front, keymaps.drop_last(), mains.drop_last());
        let first = Seq::new(
            front.len(),
            |i: int|
                HyprKeyboardView {
                    active_keymap: keymaps.drop_last()[i],
                    main: mains.drop_last()[i],
                },
        );
        assert(is_hypr_object(es[n], keymaps[n], mains[n]));
        let ms = json::members(es[n])->0;
        reveal_strlit("true");
        reveal_strlit("false");
        assert("true"@.len() != "false"@.len());
        lemma_one(ms, "active_keymap"@, json_of(ms, "active_keymap"@));
        if has_none(ms, "main"@) {
            lemma_none(ms, "main"@);
            if has_one(ms, "main"@, json_of(ms, "main"@)) {
                lemma_one(ms, "main"@, json_of(ms, "main"@));
            }
        } else {
            lemma_one(ms, "main"@, json_of(ms, "main"@));
        }
        assert(es.last() == es[n]);
        assert(hypr_keyboard(es[n]) == Some(all[n]));
        assert(first.push(all[n]) =~= all);
    }
}

/// A device that cannot be read makes the whole report unreadable.
pub proof fn law_one_unreadable_device_spoils_the_report(
    json: Seq<char>,
    es: Seq<Seq<char>>,
    i: int,
    known: Map<Seq<char>, LayoutView>,
)
    requires
        0 <= i < es.len(),
        json::elements(es[i]) is None,
        json::members(es[i]) is None,
    ensures
        json::elements(json) == Some(es) ==> sway_layout(json, known) is None,
        keyboard_list(json) == Some(es) ==> hypr_layout(json, known) is None,
{
    lemma_unreadable_input(es, i);
    lemma_unreadable_keyboard(es, i);
}

} // verus!
