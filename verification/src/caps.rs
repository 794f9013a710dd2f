//! Capabilities are probed once at startup, not at the moment of use.
//! Discovering that import is unavailable after picking a file is the worst
//! possible time to find out.

use vstd::prelude::*;

use crate::i18n::n;

verus! {

#[derive(Clone, Copy, PartialEq, Eq, Debug, Structural)]
pub struct Caps {
    pub ffmpeg: bool,
    pub ffprobe: bool,
    /// Optional. Without it, exports skip the -O3 pass and stay valid GIFs.
    pub gifsicle: bool,
}

impl Default for Caps {
    fn default() -> (r: Caps)
        ensures
            r == (Caps { ffmpeg: false, ffprobe: false, gifsicle: false }),
    {
        Caps { ffmpeg: false, ffprobe: false, gifsicle: false }
    }
}

impl Caps {
    /// The capabilities, given which of the programs run.
    pub fn probe(ffmpeg: bool, ffprobe: bool, gifsicle: bool) -> (r: Caps)
        ensures
            r == (Caps { ffmpeg, ffprobe, gifsicle }),
    {
        Caps { ffmpeg, ffprobe, gifsicle }
    }

    /// Import needs both halves of ffmpeg: ffprobe plans the decode and ffmpeg
    /// runs it.
    pub fn can_import(&self) -> (r: bool)
        ensures
            r == (self.ffmpeg && self.ffprobe),
    {
        self.ffmpeg && self.ffprobe
    }

    /// Reason to attach to a disabled action, or None when it works.
    pub fn import_blocker(&self) -> (r: Option<&'static str>)
        ensures
            match r {
                Some(reason) => !(self.ffmpeg && self.ffprobe) && reason@
                    == "ffmpeg is not available in this runtime"@,
                None => self.ffmpeg && self.ffprobe,
            },
    {
        if self.can_import() {
            None
        } else {
            Some(n("ffmpeg is not available in this runtime"))
        }
    }
}

} // verus!
