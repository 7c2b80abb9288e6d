use vstd::prelude::*;

verus! {

/// A font file to load, and the family name to register it under (its own name if none).
#[derive(Debug, Clone, PartialEq, Eq)]
pub struct FontFile {
    pub path: String,
    pub alias: Option<String>,
}

} // verus!
