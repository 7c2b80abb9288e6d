pub use crate::render::styles::image::ImageFit;

use vstd::prelude::*;

use crate::language::text::{chars_of, same_chars};
use crate::render::styles::StyleError;

verus! {

/// Where a stack places its children on each axis.
#[derive(Debug, Clone, Copy, PartialEq, Eq, Structural)]
pub struct StackStyle {
    pub place_x: Option<Place>,
    pub place_y: Option<Place>,
}

impl Default for StackStyle {
    fn default() -> (r: Self)
        ensures
            r.place_x is None,
            r.place_y is None,
    {
        StackStyle { place_x: None, place_y: None }
    }
}

#[derive(Debug, Clone, Copy, PartialEq, Eq, Structural)]
pub enum Place {
    Start,
    Center,
    End,
}

pub open spec fn spec_place(v: Seq<char>) -> Option<Place> {
    if v == seq!['s', 't', 'a', 'r', 't'] {
        Some(Place::Start)
    } else if v == seq!['c', 'e', 'n', 't', 'e', 'r'] {
        Some(Place::Center)
    } else if v == seq!['e', 'n', 'd'] {
        Some(Place::End)
    } else {
        None
    }
}

impl Place {
    /// Reads `start`, `center` or `end`.
    pub fn from_str(value: &str) -> (r: Result<Place, StyleError>)
        ensures
            match spec_place(value@) {
                Some(p) => r == Ok::<Place, StyleError>(p),
                None => r matches Err(StyleError::InvalidPlace(v)) && v@ == value@,
            },
    {
        let v = chars_of(value);
        if same_chars(&v, &['s', 't', 'a', 'r', 't']) {
            Ok(Place::Start)
        } else if same_chars(&v, &['c', 'e', 'n', 't', 'e', 'r']) {
            Ok(Place::Center)
        } else if same_chars(&v, &['e', 'n', 'd']) {
            Ok(Place::End)
        } else {
            Err(StyleError::InvalidPlace(value.to_owned()))
        }
    }
}


// ---------------------------------------------------------------------------
// Names and values
// ---------------------------------------------------------------------------
/// The documented name of each `Place`.
pub open spec fn place_name(x: Place) -> Seq<char> {
    match x {
        Place::Start => seq!['s', 't', 'a', 'r', 't'],
        Place::Center => seq!['c', 'e', 'n', 't', 'e', 'r'],
        Place::End => seq!['e', 'n', 'd'],
    }
}

/// Each `Place` is read from its own name, and a text that is read at all is the name of
/// the value it gives: the names and the values correspond one to one.
pub proof fn lemma_place_names(x: Place, v: Seq<char>)
    ensures
        spec_place(place_name(x)) == Some(x),
        spec_place(v) == Some(x) ==> v == place_name(x),
{
}

} // verus!
