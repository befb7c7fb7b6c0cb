//! How important a piece of feedback is: notifications, banners and empty or
//! error states share the same four levels and colours.
use vstd::prelude::*;

use crate::icon::{Icon, Tone};

verus! {

/// The importance of a notification.
#[derive(Debug, Clone, Copy, PartialEq, Eq, Structural)]
pub enum Severity {
    /// Information: something was done or changed.
    Info,
    /// A long or important job finished successfully.
    Success,
    /// Attention: done, but not as expected.
    Warning,
    /// The job could not be done.
    Error,
}

impl Default for Severity {
    fn default() -> (s: Self)
        ensures
            s == Severity::Info,
    {
        Severity::Info
    }
}

/// The glyph of each level.
pub open spec fn severity_icon(s: Severity) -> Icon {
    match s {
        Severity::Info => Icon::Info,
        Severity::Success => Icon::Success,
        Severity::Warning => Icon::Warning,
        Severity::Error => Icon::Error,
    }
}

/// The tone of each level's glyph.
pub open spec fn severity_tone(s: Severity) -> Tone {
    match s {
        Severity::Info => Tone::Accent,
        Severity::Success => Tone::Success,
        Severity::Warning => Tone::Warning,
        Severity::Error => Tone::Danger,
    }
}

/// The name of each level, for screen readers and logs.
pub open spec fn severity_label(s: Severity) -> Seq<char> {
    match s {
        Severity::Info => "Bilgi"@,
        Severity::Success => "Tamamlandı"@,
        Severity::Warning => "Uyarı"@,
        Severity::Error => "Hata"@,
    }
}

impl Severity {
    pub fn icon(self) -> (i: Icon)
        ensures
            i == severity_icon(self),
    {
        match self {
            Severity::Info => Icon::Info,
            Severity::Success => Icon::Success,
            Severity::Warning => Icon::Warning,
            Severity::Error => Icon::Error,
        }
    }

    /// The tone of the glyph.
    pub fn tone(self) -> (t: Tone)
        ensures
            t == severity_tone(self),
    {
        match self {
            Severity::Info => Tone::Accent,
            Severity::Success => Tone::Success,
            Severity::Warning => Tone::Warning,
            Severity::Error => Tone::Danger,
        }
    }

    /// The name, for screen readers and logs.
    pub fn label(self) -> (l: &'static str)
        ensures
            l@ == severity_label(self),
    {
        match self {
            Severity::Info => "Bilgi",
            Severity::Success => "Tamamlandı",
            Severity::Warning => "Uyarı",
            Severity::Error => "Hata",
        }
    }
}

} // verus!
