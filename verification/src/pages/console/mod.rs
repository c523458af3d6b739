//! The search console.
use vstd::prelude::*;
use vstd::string::*;

verus! {

/// To ensure ease of development, every part of the console will be a module,
/// making the console ui 100% modulable.
pub fn console_ui() -> (page: String)
    ensures
        page@ == "SEARCH CONSOLE APP SHOULD BE INCLUDED"@,
{
    String::from_str("SEARCH CONSOLE APP SHOULD BE INCLUDED")
}

} // verus!
