use vstd::prelude::*;

use crate::language::text::{chars_of, same_chars};
use crate::render::styles::StyleError;

verus! {

/// How a box lays out its children. The gap between children is of the size type `G`.
#[derive(Debug, Clone, Copy)]
pub struct BoxStyle<G> {
    pub gap: Option<G>,
    pub direction: Option<BoxDirection>,
    pub main: Option<MainAlign>,
    pub cross: Option<CrossAlign>,
}

impl<G> Default for BoxStyle<G> {
    fn default() -> (r: Self)
        ensures
            r.gap is None,
            r.direction is None,
            r.main is None,
            r.cross is None,
    {
        BoxStyle { gap: None, direction: None, main: None, cross: None }
    }
}

#[derive(Debug, Clone, Copy, PartialEq, Eq, Structural)]
pub enum MainAlign {
    Center,
    Start,
    End,
    FlexStart,
    FlexEnd,
    Between,
    Around,
    Evenly,
    Stretch,
}

#[derive(Debug, Clone, Copy, PartialEq, Eq, Structural)]
pub enum CrossAlign {
    Start,
    End,
    FlexStart,
    FlexEnd,
    Center,
    Baseline,
    Stretch,
}

#[derive(Debug, Clone, Copy, PartialEq, Eq, Structural)]
pub enum BoxDirection {
    Column,
    Row,
}

// ---------------------------------------------------------------------------
// Presets of the box components
// ---------------------------------------------------------------------------
/// The direction that the component `name` gives a box unless one is set.
pub open spec fn preset_direction(name: Seq<char>) -> Option<BoxDirection> {
    if name == seq!['C', 'e', 'n', 't', 'e', 'r'] || name == seq!['C', 'o', 'l', 'u', 'm', 'n']
        || name == seq!['B', 'o', 'x'] {
        Some(BoxDirection::Column)
    } else if name == seq!['R', 'o', 'w'] {
        Some(BoxDirection::Row)
    } else {
        None
    }
}

/// The main-axis alignment that the component `name` gives a box unless one is set.
pub open spec fn preset_main(name: Seq<char>) -> Option<MainAlign> {
    if name == seq!['C', 'e', 'n', 't', 'e', 'r'] {
        Some(MainAlign::Center)
    } else {
        None
    }
}

/// The cross-axis alignment that the component `name` gives a box unless one is set.
pub open spec fn preset_cross(name: Seq<char>) -> Option<CrossAlign> {
    if name == seq!['C', 'e', 'n', 't', 'e', 'r'] {
        Some(CrossAlign::Center)
    } else if name == seq!['B', 'o', 'x'] {
        Some(CrossAlign::Stretch)
    } else {
        None
    }
}

/// `field` where it is set, else `preset`.
pub open spec fn or_preset<T>(field: Option<T>, preset: Option<T>) -> Option<T> {
    match field {
        Some(v) => Some(v),
        None => preset,
    }
}

/// `style` with the preset of the component `name` filling the fields that are not set.
pub open spec fn with_preset<G>(name: Seq<char>, style: BoxStyle<G>) -> BoxStyle<G> {
    BoxStyle {
        gap: style.gap,
        direction: or_preset(style.direction, preset_direction(name)),
        main: or_preset(style.main, preset_main(name)),
        cross: or_preset(style.cross, preset_cross(name)),
    }
}

/// Fills the fields of `style` that are not set with the defaults of the box component `name`:
/// `Box` is a column that stretches its children across, `Column` and `Row` set the direction,
/// `Center` is a column that centers its children on both axes; other names change nothing.
pub fn apply_box_preset<G>(name: &str, style: &mut BoxStyle<G>)
    ensures
        *final(style) == with_preset(name@, *old(style)),
{
    let n = chars_of(name);
    if same_chars(&n, &['C', 'e', 'n', 't', 'e', 'r']) {
        if style.direction.is_none() {
            style.direction = Some(BoxDirection::Column);
        }
        if style.main.is_none() {
            style.main = Some(MainAlign::Center);
        }
        if style.cross.is_none() {
            style.cross = Some(CrossAlign::Center);
        }
    } else if same_chars(&n, &['C', 'o', 'l', 'u', 'm', 'n']) {
        if style.direction.is_none() {
            style.direction = Some(BoxDirection::Column);
        }
    } else if same_chars(&n, &['R', 'o', 'w']) {
        if style.direction.is_none() {
            style.direction = Some(BoxDirection::Row);
        }
    } else if same_chars(&n, &['B', 'o', 'x']) {
        if style.direction.is_none() {
            style.direction = Some(BoxDirection::Column);
        }
        if style.cross.is_none() {
            style.cross = Some(CrossAlign::Stretch);
        }
    }
}

/// A preset never replaces a field that is set.
pub proof fn lemma_preset_keeps_set_fields<G>(name: Seq<char>, style: BoxStyle<G>)
    ensures
        with_preset(name, style).gap == style.gap,
        style.direction is Some ==> with_preset(name, style).direction == style.direction,
        style.main is Some ==> with_preset(name, style).main == style.main,
        style.cross is Some ==> with_preset(name, style).cross == style.cross,
{
}

/// Applying a preset a second time changes nothing.
pub proof fn lemma_preset_idempotent<G>(name: Seq<char>, style: BoxStyle<G>)
    ensures
        with_preset(name, with_preset(name, style)) == with_preset(name, style),
{
}

// ---------------------------------------------------------------------------
// Reading the values
// ---------------------------------------------------------------------------
pub open spec fn spec_box_direction(v: Seq<char>) -> Option<BoxDirection> {
    if v == seq!['c', 'o', 'l', 'u', 'm', 'n'] {
        Some(BoxDirection::Column)
    } else if v == seq!['r', 'o', 'w'] {
        Some(BoxDirection::Row)
    } else {
        None
    }
}

pub open spec fn spec_main_align(v: Seq<char>) -> Option<MainAlign> {
    if v == seq!['c', 'e', 'n', 't', 'e', 'r'] {
        Some(MainAlign::Center)
    } else if v == seq!['s', 't', 'a', 'r', 't'] {
        Some(MainAlign::Start)
    } else if v == seq!['e', 'n', 'd'] {
        Some(MainAlign::End)
    } else if v == seq!['f', 'l', 'e', 'x', '-', 's', 't', 'a', 'r', 't'] {
        Some(MainAlign::FlexStart)
    } else if v == seq!['f', 'l', 'e', 'x', '-', 'e', 'n', 'd'] {
        Some(MainAlign::FlexEnd)
    } else if v == seq!['b', 'e', 't', 'w', 'e', 'e', 'n'] {
        Some(MainAlign::Between)
    } else if v == seq!['a', 'r', 'o', 'u', 'n', 'd'] {
        Some(MainAlign::Around)
    } else if v == seq!['e', 'v', 'e', 'n', 'l', 'y'] {
        Some(MainAlign::Evenly)
    } else if v == seq!['s', 't', 'r', 'e', 't', 'c', 'h'] {
        Some(MainAlign::Stretch)
    } else {
        None
    }
}

pub open spec fn spec_cross_align(v: Seq<char>) -> Option<CrossAlign> {
    if v == seq!['s', 't', 'a', 'r', 't'] {
        Some(CrossAlign::Start)
    } else if v == seq!['e', 'n', 'd'] {
        Some(CrossAlign::End)
    } else if v == seq!['f', 'l', 'e', 'x', '-', 's', 't', 'a', 'r', 't'] {
        Some(CrossAlign::FlexStart)
    } else if v == seq!['f', 'l', 'e', 'x', '-', 'e', 'n', 'd'] {
        Some(CrossAlign::FlexEnd)
    } else if v == seq!['c', 'e', 'n', 't', 'e', 'r'] {
        Some(CrossAlign::Center)
    } else if v == seq!['b', 'a', 's', 'e', 'l', 'i', 'n', 'e'] {
        Some(CrossAlign::Baseline)
    } else if v == seq!['s', 't', 'r', 'e', 't', 'c', 'h'] {
        Some(CrossAlign::Stretch)
    } else {
        None
    }
}

impl BoxDirection {
    /// Reads `column` or `row`.
    pub fn from_str(value: &str) -> (r: Result<BoxDirection, StyleError>)
        ensures
            match spec_box_direction(value@) {
                Some(d) => r == Ok::<BoxDirection, StyleError>(d),
                None => r matches Err(StyleError::InvalidBoxDirection(v)) && v@ == value@,
            },
    {
        let v = chars_of(value);
        if same_chars(&v, &['c', 'o', 'l', 'u', 'm', 'n']) {
            Ok(BoxDirection::Column)
        } else if same_chars(&v, &['r', 'o', 'w']) {
            Ok(BoxDirection::Row)
        } else {
            Err(StyleError::InvalidBoxDirection(value.to_owned()))
        }
    }
}

impl MainAlign {
    /// Reads one of `center`, `start`, `end`, `flex-start`, `flex-end`, `between`, `around`,
    /// `evenly`, `stretch`.
    pub fn from_str(value: &str) -> (r: Result<MainAlign, StyleError>)
        ensures
            match spec_main_align(value@) {
                Some(a) => r == Ok::<MainAlign, StyleError>(a),
                None => r matches Err(StyleError::InvalidMainAlign(v)) && v@ == value@,
            },
    {
        let v = chars_of(value);
        if same_chars(&v, &['c', 'e', 'n', 't', 'e', 'r']) {
            Ok(MainAlign::Center)
        } else if same_chars(&v, &['s', 't', 'a', 'r', 't']) {
            Ok(MainAlign::Start)
        } else if same_chars(&v, &['e', 'n', 'd']) {
            Ok(MainAlign::End)
        } else if same_chars(&v, &['f', 'l', 'e', 'x', '-', 's', 't', 'a', 'r', 't']) {
            Ok(MainAlign::FlexStart)
        } else if same_chars(&v, &['f', 'l', 'e', 'x', '-', 'e', 'n', 'd']) {
            Ok(MainAlign::FlexEnd)
        } else if same_chars(&v, &['b', 'e', 't', 'w', 'e', 'e', 'n']) {
            Ok(MainAlign::Between)
        } else if same_chars(&v, &['a', 'r', 'o', 'u', 'n', 'd']) {
            Ok(MainAlign::Around)
        } else if same_chars(&v, &['e', 'v', 'e', 'n', 'l', 'y']) {
            Ok(MainAlign::Evenly)
        } else if same_chars(&v, &['s', 't', 'r', 'e', 't', 'c', 'h']) {
            Ok(MainAlign::Stretch)
        } else {
            Err(StyleError::InvalidMainAlign(value.to_owned()))
        }
    }
}

impl CrossAlign {
    /// Reads one of `start`, `end`, `flex-start`, `flex-end`, `center`, `baseline`, `stretch`.
    pub fn from_str(value: &str) -> (r: Result<CrossAlign, StyleError>)
        ensures
            match spec_cross_align(value@) {
                Some(a) => r == Ok::<CrossAlign, StyleError>(a),
                None => r matches Err(StyleError::InvalidCrossAlign(v)) && v@ == value@,
            },
    {
        let v = chars_of(value);
        if same_chars(&v, &['s', 't', 'a', 'r', 't']) {
            Ok(CrossAlign::Start)
        } else if same_chars(&v, &['e', 'n', 'd']) {
            Ok(CrossAlign::End)
        } else if same_chars(&v, &['f', 'l', 'e', 'x', '-', 's', 't', 'a', 'r', 't']) {
            Ok(CrossAlign::FlexStart)
        } else if same_chars(&v, &['f', 'l', 'e', 'x', '-', 'e', 'n', 'd']) {
            Ok(CrossAlign::FlexEnd)
        } else if same_chars(&v, &['c', 'e', 'n', 't', 'e', 'r']) {
            Ok(CrossAlign::Center)
        } else if same_chars(&v, &['b', 'a', 's', 'e', 'l', 'i', 'n', 'e']) {
            Ok(CrossAlign::Baseline)
        } else if same_chars(&v, &['s', 't', 'r', 'e', 't', 'c', 'h']) {
            Ok(CrossAlign::Stretch)
        } else {
            Err(StyleError::InvalidCrossAlign(value.to_owned()))
        }
    }
}


// ---------------------------------------------------------------------------
// Names and values
// ---------------------------------------------------------------------------
/// The documented name of each `BoxDirection`.
pub open spec fn boxdirection_name(x: BoxDirection) -> Seq<char> {
    match x {
        BoxDirection::Column => seq!['c', 'o', 'l', 'u', 'm', 'n'],
        BoxDirection::Row => seq!['r', 'o', 'w'],
    }
}

/// Each `BoxDirection` is read from its own name, and a text that is read at all is the name of
/// the value it gives: the names and the values correspond one to one.
pub proof fn lemma_boxdirection_names(x: BoxDirection, v: Seq<char>)
    ensures
        spec_box_direction(boxdirection_name(x)) == Some(x),
        spec_box_direction(v) == Some(x) ==> v == boxdirection_name(x),
{
}

/// The documented name of each `MainAlign`.
pub open spec fn mainalign_name(x: MainAlign) -> Seq<char> {
    match x {
        MainAlign::Center => seq!['c', 'e', 'n', 't', 'e', 'r'],
        MainAlign::Start => seq!['s', 't', 'a', 'r', 't'],
        MainAlign::End => seq!['e', 'n', 'd'],
        MainAlign::FlexStart => seq!['f', 'l', 'e', 'x', '-', 's', 't', 'a', 'r', 't'],
        MainAlign::FlexEnd => seq!['f', 'l', 'e', 'x', '-', 'e', 'n', 'd'],
        MainAlign::Between => seq!['b', 'e', 't', 'w', 'e', 'e', 'n'],
        MainAlign::Around => seq!['a', 'r', 'o', 'u', 'n', 'd'],
        MainAlign::Evenly => seq!['e', 'v', 'e', 'n', 'l', 'y'],
        MainAlign::Stretch => seq!['s', 't', 'r', 'e', 't', 'c', 'h'],
    }
}

/// Each `MainAlign` is read from its own name, and a text that is read at all is the name of
/// the value it gives: the names and the values correspond one to one.
pub proof fn lemma_mainalign_names(x: MainAlign, v: Seq<char>)
    ensures
        spec_main_align(mainalign_name(x)) == Some(x),
        spec_main_align(v) == Some(x) ==> v == mainalign_name(x),
{
}

/// The documented name of each `CrossAlign`.
pub open spec fn crossalign_name(x: CrossAlign) -> Seq<char> {
    match x {
        CrossAlign::Start => seq!['s', 't', 'a', 'r', 't'],
        CrossAlign::End => seq!['e', 'n', 'd'],
        CrossAlign::FlexStart => seq!['f', 'l', 'e', 'x', '-', 's', 't', 'a', 'r', 't'],
        CrossAlign::FlexEnd => seq!['f', 'l', 'e', 'x', '-', 'e', 'n', 'd'],
        CrossAlign::Center => seq!['c', 'e', 'n', 't', 'e', 'r'],
        CrossAlign::Baseline => seq!['b', 'a', 's', 'e', 'l', 'i', 'n', 'e'],
        CrossAlign::Stretch => seq!['s', 't', 'r', 'e', 't', 'c', 'h'],
    }
}

/// Each `CrossAlign` is read from its own name, and a text that is read at all is the name of
/// the value it gives: the names and the values correspond one to one.
pub proof fn lemma_crossalign_names(x: CrossAlign, v: Seq<char>)
    ensures
        spec_cross_align(crossalign_name(x)) == Some(x),
        spec_cross_align(v) == Some(x) ==> v == crossalign_name(x),
{
}

/// The presets of the box components: only `Row` lays out in a row; `Box`, `Column` and `Center`
/// lay out in a column; only `Center` aligns the main axis, to the center; `Center` centers the
/// cross axis and `Box` stretches it; any other name has no preset.
pub proof fn lemma_box_presets(name: Seq<char>)
    ensures
        preset_direction(name) == Some(BoxDirection::Row) <==> name == seq!['R', 'o', 'w'],
        preset_direction(name) == Some(BoxDirection::Column) <==> (name == seq!['B', 'o', 'x'] || name
            == seq!['C', 'o', 'l', 'u', 'm', 'n'] || name == seq!['C', 'e', 'n', 't', 'e', 'r']),
        preset_main(name) is Some <==> name == seq!['C', 'e', 'n', 't', 'e', 'r'],
        preset_main(name) is Some ==> preset_main(name) == Some(MainAlign::Center),
        preset_cross(name) == Some(CrossAlign::Center) <==> name == seq!['C', 'e', 'n', 't', 'e', 'r'],
        preset_cross(name) == Some(CrossAlign::Stretch) <==> name == seq!['B', 'o', 'x'],
        preset_cross(name) is Some ==> (preset_cross(name) == Some(CrossAlign::Center) || preset_cross(name)
            == Some(CrossAlign::Stretch)),
{
}

} // verus!
