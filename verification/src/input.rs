//! Where the documents of a run are looked for.

use vstd::prelude::*;

verus! {

/// Where the documents of a run are looked for.
pub struct InputSettings {
    /// A document, or a directory that holds documents.
    pub input_path: String,
    /// Whether the directories inside the directory are searched too.
    pub recurse: bool,
}

impl InputSettings {
    /// The settings that search `input_path` and every directory inside it.
    pub fn recurse(input_path: &str) -> (settings: InputSettings)
        ensures
            settings.input_path@ == input_path@,
            settings.recurse,
    {
        InputSettings { input_path: input_path.to_owned(), recurse: true }
    }
}

} // verus!
