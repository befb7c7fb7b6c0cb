use vstd::prelude::*;

verus! {

/// The glyphs that the widgets' logic picks.
#[derive(Debug, Clone, Copy, PartialEq, Eq, Structural)]
pub enum Icon {
    Info,
    Success,
    Warning,
    Error,
    Close,
    Calendar,
    Clock,
    Eye,
    EyeOff,
    Lock,
    Unlock,
    Select,
    NoSelect,
}

/// The colour role of a glyph.
#[derive(Debug, Clone, Copy, PartialEq, Eq, Structural)]
pub enum Tone {
    Accent,
    Success,
    Warning,
    Danger,
    Muted,
}

} // verus!
