use crate::str_map::StrMap;
use vstd::prelude::*;

verus! {

/// The bridge's configuration: which exchange to read, and under which name
/// each of its instruments is published.
#[derive(Debug)]
pub struct Settings {
    pub instruments_mapping: StrMap<String>,
    pub target_exchange: String,
}

} // verus!
