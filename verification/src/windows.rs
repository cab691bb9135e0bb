//! What Windows answers, and what it means.
use vstd::prelude::*;

verus! {

/// Windows, as the manager finds it.
#[derive(Clone, Copy, Debug, PartialEq, Eq, Structural)]
pub struct WindowsAdapter;

/// The answer of the registry when the value that is to be deleted is not there.
pub const VALUE_MISSING: u32 = 2;

/// The largest answer of the shell that stands for a failure to open something.
pub const SHELL_FAILURE: isize = 32;

/// The bits of a language that tell the language without its variety.
pub const PRIMARY_LANGUAGE: u16 = 0x3ff;

/// Chinese, without its variety.
pub const CHINESE: u16 = 0x4;

impl WindowsAdapter {
    /// Whether the registry has done as it was asked: to set the value that starts the manager
    /// with the session, or to delete it. It need not be there to be deleted.
    pub fn autostart_is_set(self, enabled: bool, answer: u32) -> (done: bool)
        ensures
            done == (answer == 0 || (answer == 2 && !enabled)),
    {
        answer == 0 || (answer == VALUE_MISSING && !enabled)
    }

    /// Whether the shell has opened what it was asked to.
    pub fn is_opened(self, answer: isize) -> (opened: bool)
        ensures
            opened == (answer > 32),
    {
        answer > SHELL_FAILURE
    }

    /// Whether a language is Chinese, of whatever variety.
    pub fn is_chinese(self, language: u16) -> (chinese: bool)
        ensures
            chinese == (language % 0x400 == 4),
    {
        assert(language & PRIMARY_LANGUAGE == language % 0x400) by {
            assert(language & 0x3ff == language % 0x400) by (bit_vector);
        }
        language & PRIMARY_LANGUAGE == CHINESE
    }
}

} // verus!
