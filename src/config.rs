//! Defaults of the client's configuration file.
use vstd::prelude::*;
use crate::logger::CodeLogLevel;

verus! {

pub const DEFAULT_WIDTH: u32 = 1280;
pub const DEFAULT_HEIGHT: u32 = 720;

pub fn default_server_public_key() -> (r: [u8; 32])
    ensures
        forall|i: int| 0 <= i < 32 ==> r@[i] == 0,
{
    [0u8; 32]
}

pub fn default_connect_on_startup() -> (r: bool)
    ensures
        !r,
{
    false
}

pub fn default_fullscreen() -> (r: bool)
    ensures
        !r,
{
    false
}

pub fn default_width() -> (r: u32)
    ensures
        r == DEFAULT_WIDTH,
{
    DEFAULT_WIDTH
}

pub fn default_height() -> (r: u32)
    ensures
        r == DEFAULT_HEIGHT,
{
    DEFAULT_HEIGHT
}

pub fn default_screen_number() -> (r: usize)
    ensures
        r == 0,
{
    0
}

/// Debug builds log at debug level by default, release builds only warnings.
pub fn default_code_log_level(debug_build: bool) -> (r: CodeLogLevel)
    ensures
        r == (if debug_build { CodeLogLevel::Debug } else { CodeLogLevel::Warn }),
{
    if debug_build {
        CodeLogLevel::Debug
    } else {
        CodeLogLevel::Warn
    }
}

pub fn default_code_log_fileline() -> (r: bool)
    ensures
        r,
{
    true
}

pub fn default_code_log_detailed_errors() -> (r: bool)
    ensures
        !r,
{
    false
}

/// The window the client opens.
#[derive(Debug, Clone, Copy, PartialEq, Eq, Structural)]
pub struct WindowConfig {
    pub fullscreen: bool,
    pub width: u32,
    pub height: u32,
    pub screen_number: usize,
}

impl WindowConfig {
    pub fn default() -> (r: WindowConfig)
        ensures
            r == (WindowConfig {
                fullscreen: false,
                width: DEFAULT_WIDTH,
                height: DEFAULT_HEIGHT,
                screen_number: 0,
            }),
    {
        WindowConfig {
            fullscreen: default_fullscreen(),
            screen_number: default_screen_number(),
            width: default_width(),
            height: default_height(),
        }
    }
}

} // verus!
