//! Application configuration: colors and reader options, with their
//! built-in defaults. The core never reads a configuration file itself;
//! loading and parsing happen outside and hand over plain values.

use vstd::prelude::*;

verus! {

/// Default color of the text in the app.
pub fn text_color() -> (c: String)
    ensures
        c@ == "#FFFFFF"@,
{
    "#FFFFFF".to_owned()
}

/// Default color of the background of the app.
pub fn background_color() -> (c: String)
    ensures
        c@ == "#111416"@,
{
    "#111416".to_owned()
}

/// Default for whether the reader shows the bottom page indicator.
pub fn reader_show_bottom_indicator() -> (b: bool)
    ensures
        b,
{
    true
}

/// Options of the reader view.
pub struct ReaderConfig {
    pub show_bottom_indicator: bool,
}

impl ReaderConfig {
    /// A reader configuration holding the default values.
    pub fn new() -> (c: ReaderConfig)
        ensures
            c.show_bottom_indicator,
    {
        ReaderConfig { show_bottom_indicator: reader_show_bottom_indicator() }
    }
}

/// The application configuration.
pub struct FiapoConfig {
    /// Color of the text in the app.
    pub text_color: String,
    /// Color of the background of the app.
    pub background_color: String,
    /// Reader options.
    pub reader: ReaderConfig,
}

impl FiapoConfig {
    /// The configuration holding every default value.
    pub fn defaults() -> (c: FiapoConfig)
        ensures
            c.text_color@ == "#FFFFFF"@,
            c.background_color@ == "#111416"@,
            c.reader.show_bottom_indicator,
    {
        FiapoConfig {
            text_color: text_color(),
            background_color: background_color(),
            reader: ReaderConfig { show_bottom_indicator: reader_show_bottom_indicator() },
        }
    }
}

} // verus!
