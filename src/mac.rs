//! A modeless handler with the platform's control-key bindings.
use crate::strs::str_eq;
use vstd::prelude::*;

verus! {

/// The modifier keys held with a key event.
#[derive(PartialEq, Eq, Structural, Clone, Copy, Debug)]
pub struct Modifiers {
    pub cmd: bool,
    pub opt: bool,
    pub ctrl: bool,
}

pub const CTRL_BIT: u32 = 18;
pub const OPT_BIT: u32 = 19;
pub const CMD_BIT: u32 = 20;

impl Modifiers {
    /// Reads the modifier mask: bit 18 is control, 19 option, 20 command.
    pub fn from_mask(mask: u32) -> (r: Modifiers)
        ensures
            r.ctrl == (mask & (1u32 << CTRL_BIT) != 0),
            r.opt == (mask & (1u32 << OPT_BIT) != 0),
            r.cmd == (mask & (1u32 << CMD_BIT) != 0),
    {
        let ctrl = mask & (1u32 << CTRL_BIT) != 0;
        let opt = mask & (1u32 << OPT_BIT) != 0;
        let cmd = mask & (1u32 << CMD_BIT) != 0;
        Modifiers { cmd, opt, ctrl }
    }

    /// The modifiers as text, in the order command, option, control.
    pub open spec fn spec_canonical(&self) -> Seq<char> {
        if self.cmd && self.opt && self.ctrl {
            "cmd+opt+ctrl"@
        } else if self.cmd && self.opt {
            "cmd+opt"@
        } else if self.cmd && self.ctrl {
            "cmd+ctrl"@
        } else if self.opt && self.ctrl {
            "opt+ctrl"@
        } else if self.cmd {
            "cmd"@
        } else if self.opt {
            "opt"@
        } else if self.ctrl {
            "ctrl"@
        } else {
            ""@
        }
    }

    pub fn canonical_str(&self) -> (r: &'static str)
        ensures
            r@ == self.spec_canonical(),
    {
        match (self.cmd, self.opt, self.ctrl) {
            (true, true, true) => "cmd+opt+ctrl",
            (true, true, false) => "cmd+opt",
            (true, false, true) => "cmd+ctrl",
            (false, true, true) => "opt+ctrl",
            (true, false, false) => "cmd",
            (false, true, false) => "opt",
            (false, false, true) => "ctrl",
            (false, false, false) => "",
        }
    }
}

/// The selector bound to control plus `c`, if any.
pub open spec fn ctrl_binding(c: Seq<char>) -> Option<Seq<char>> {
    if c == "a"@ {
        Some("moveToBeginningOfParagraph:"@)
    } else if c == "b"@ {
        Some("moveBackward:"@)
    } else if c == "d"@ {
        Some("deleteForward:"@)
    } else if c == "e"@ {
        Some("moveToEndOfParagraph:"@)
    } else if c == "f"@ {
        Some("moveForward:"@)
    } else if c == "h"@ {
        Some("deleteBackward:"@)
    } else if c == "k"@ {
        Some("deleteToEndOfParagraph:"@)
    } else if c == "l"@ {
        Some("centerSelectionInVisibleArea:"@)
    } else if c == "n"@ {
        Some("moveDown:"@)
    } else if c == "p"@ {
        Some("moveUp:"@)
    } else if c == "t"@ {
        Some("transpose:"@)
    } else if c == "v"@ {
        Some("pageDown:"@)
    } else {
        None
    }
}

fn ctrl_selector(c: &str) -> (r: Option<&'static str>)
    ensures
        ctrl_binding(c@) == (match r { Some(s) => Some(s@), None => None::<Seq<char>> }),
{
    if str_eq(c, "a") {
        Some("moveToBeginningOfParagraph:")
    } else if str_eq(c, "b") {
        Some("moveBackward:")
    } else if str_eq(c, "d") {
        Some("deleteForward:")
    } else if str_eq(c, "e") {
        Some("moveToEndOfParagraph:")
    } else if str_eq(c, "f") {
        Some("moveForward:")
    } else if str_eq(c, "h") {
        Some("deleteBackward:")
    } else if str_eq(c, "k") {
        Some("deleteToEndOfParagraph:")
    } else if str_eq(c, "l") {
        Some("centerSelectionInVisibleArea:")
    } else if str_eq(c, "n") {
        Some("moveDown:")
    } else if str_eq(c, "p") {
        Some("moveUp:")
    } else if str_eq(c, "t") {
        Some("transpose:")
    } else if str_eq(c, "v") {
        Some("pageDown:")
    } else {
        None
    }
}

/// The modeless handler.
pub struct Mac;

impl Mac {
    /// The selector to send for a key event, if its key is bound: control
    /// alone with one of the bound letters. Otherwise the event goes on to
    /// the host's input method; a bound key's event is freed.
    pub fn handle_event(&mut self, modifiers: u32, characters: &str) -> (r: Option<&'static str>)
        ensures
            (match r { Some(s) => Some(s@), None => None::<Seq<char>> }) == (if Modifiers::from_mask_spec(modifiers).spec_canonical() == "ctrl"@ {
                ctrl_binding(characters@)
            } else {
                None
            }),
    {
        let m = Modifiers::from_mask(modifiers);
        if str_eq(m.canonical_str(), "ctrl") {
            ctrl_selector(characters)
        } else {
            None
        }
    }
}

impl Modifiers {
    pub open spec fn from_mask_spec(mask: u32) -> Modifiers {
        Modifiers {
            ctrl: mask & (1u32 << CTRL_BIT) != 0,
            opt: mask & (1u32 << OPT_BIT) != 0,
            cmd: mask & (1u32 << CMD_BIT) != 0,
        }
    }
}

} // verus!
