//! The status of a discovered directory, with its label and colours.

use vstd::prelude::*;

verus! {

/// Where one discovered directory stands in its life cycle.
///
/// An entry starts as `Loading`. Measuring ends in `Ready` or `Error`.
/// Only a `Ready` entry can go on to `Deleting`, and from there to `Deleted`.
#[derive(Clone, Copy, Debug, PartialEq, Eq, Structural)]
pub enum DirStatus {
    Loading,
    Ready,
    Deleting,
    Deleted,
    Error,
}

/// The colours a status is drawn in.
#[derive(Clone, Copy, Debug, PartialEq, Eq, Structural)]
pub enum StatusColor {
    Green,
    Yellow,
    White,
    Red,
    LightBlue,
}

impl DirStatus {
    /// The word shown for a status.
    pub open spec fn label_text(self) -> Seq<char> {
        match self {
            DirStatus::Loading => "LOADING"@,
            DirStatus::Ready => "READY"@,
            DirStatus::Deleting => "DELETING"@,
            DirStatus::Deleted => "DELETED"@,
            DirStatus::Error => "ERROR"@,
        }
    }

    /// Whether an entry in this status carries a measured size.
    pub open spec fn measured(self) -> bool {
        self is Ready || self is Deleting || self is Deleted
    }

    /// Foreground and, where there is one, background colour of a status.
    pub open spec fn colors_spec(self) -> (StatusColor, Option<StatusColor>) {
        match self {
            DirStatus::Ready => (StatusColor::Green, None),
            DirStatus::Deleting => (StatusColor::Yellow, None),
            DirStatus::Deleted => (StatusColor::Green, Some(StatusColor::White)),
            DirStatus::Error => (StatusColor::Red, None),
            DirStatus::Loading => (StatusColor::LightBlue, None),
        }
    }

    pub fn label(&self) -> (text: String)
        ensures
            text@ == self.label_text(),
    {
        match self {
            DirStatus::Loading => "LOADING".to_owned(),
            DirStatus::Ready => "READY".to_owned(),
            DirStatus::Deleting => "DELETING".to_owned(),
            DirStatus::Deleted => "DELETED".to_owned(),
            DirStatus::Error => "ERROR".to_owned(),
        }
    }

    pub fn colors(&self) -> (pair: (StatusColor, Option<StatusColor>))
        ensures
            pair == self.colors_spec(),
    {
        match self {
            DirStatus::Ready => (StatusColor::Green, None),
            DirStatus::Deleting => (StatusColor::Yellow, None),
            DirStatus::Deleted => (StatusColor::Green, Some(StatusColor::White)),
            DirStatus::Error => (StatusColor::Red, None),
            DirStatus::Loading => (StatusColor::LightBlue, None),
        }
    }
}

} // verus!
