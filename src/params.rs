//! The parameters of a request for a member's ring script.
use vstd::prelude::*;

verus! {

/// Which member a ring script is for, and the display mode it asks for.
pub struct ScriptParams {
    pub id: String,
    pub mode: Option<String>,
}

impl ScriptParams {
    /// The display mode asked for, `base` where none was.
    pub fn mode_or_base(&self) -> (r: String)
        ensures
            r@ == match self.mode {
                Some(m) => m@,
                None => "base"@,
            },
    {
        match &self.mode {
            Some(m) => m.clone(),
            None => String::from_str("base"),
        }
    }
}

} // verus!
