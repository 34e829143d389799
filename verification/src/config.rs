use vstd::prelude::*;

verus! {

/// Startup settings: the channel to join, the font to draw with, and the
/// window size in pixels.
pub struct Config {
    pub channel: String,
    pub font: String,
    pub font_size: u16,
    pub window_width: u32,
    pub window_height: u32,
}

/// The hard-coded fallback settings, used when no configuration source is
/// available or the one found is malformed.
pub fn default_config() -> (c: Config)
    ensures
        c.channel@ == "#cantdrown"@,
        c.font@ == "Silver.ttf"@,
        c.font_size == 36,
        c.window_width == 320,
        c.window_height == 720,
{
    Config {
        channel: "#cantdrown".to_owned(),
        font: "Silver.ttf".to_owned(),
        font_size: 36,
        window_width: 320,
        window_height: 720,
    }
}

} // verus!
