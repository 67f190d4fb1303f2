use vstd::prelude::*;

verus! {

/// The configuration that rule constructors and rule selection read.
#[derive(Debug, Clone, PartialEq, Eq)]
pub struct Settings {
    pub line_length: usize,
    pub preview: bool,
}

/// The built-in configuration: lines of up to 100 bytes, preview off.
pub fn default_settings() -> (r: Settings)
    ensures
        r.line_length == 100,
        !r.preview,
{
    Settings { line_length: 100, preview: false }
}

} // verus!
