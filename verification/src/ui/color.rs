//! ANSI colours, switched off by `NO_COLOR`.
use vstd::prelude::*;
use crate::text::copy_str;

verus! {

/// Whether output is coloured.
pub struct Colors {
    enabled: bool,
}

/// `s` wrapped in the ANSI sequence that starts with `code` and a reset.
pub open spec fn painted(enabled: bool, code: Seq<char>, s: Seq<char>) -> Seq<char> {
    if enabled {
        code + s + "\x1b[0m"@
    } else {
        s
    }
}

/// With colours on, text is wrapped in its colour code and the reset
/// `ESC[0m`; with colours off it is left as it is.
pub proof fn law_painting(code: Seq<char>, s: Seq<char>)
    ensures
        painted(true, code, s) == code + s + "\x1b[0m"@,
        painted(false, code, s) == s,
{
}

impl Colors {
    pub closed spec fn is_enabled(&self) -> bool {
        self.enabled
    }

    /// Colours are on unless `NO_COLOR` is set (`no_color`).
    pub fn new(no_color: bool) -> (r: Self)
        ensures
            r.is_enabled() == !no_color,
    {
        Colors { enabled: !no_color }
    }

    /// `s` in cyan.
    pub fn cyan(&self, s: &str) -> (r: String)
        ensures
            r@ == painted(self.is_enabled(), "\x1b[36m"@, s@),
    {
        if self.enabled {
            let mut out = String::new();
            out.append("\x1b[36m");
            out.append(s);
            out.append("\x1b[0m");
            out
        } else {
            copy_str(s)
        }
    }

    /// `s` in red.
    pub fn red(&self, s: &str) -> (r: String)
        ensures
            r@ == painted(self.is_enabled(), "\x1b[31m"@, s@),
    {
        if self.enabled {
            let mut out = String::new();
            out.append("\x1b[31m");
            out.append(s);
            out.append("\x1b[0m");
            out
        } else {
            copy_str(s)
        }
    }
}

} // verus!
