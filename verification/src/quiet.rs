//! Which rung an unattended pass may wake up.
//!
//! An unattended pass may use the light local role and nothing else. A role
//! that declares no input window does not count, because without it there is
//! no telling whether a source fits. A source the light role cannot hold is
//! over the window: no request is made, and it is left for a press. A machine
//! with no light role is unconfigured, which is a fact about the machine
//! rather than about the item. There is never a fall-through to a stronger
//! role.

use vstd::prelude::*;

verus! {

/// What an unattended pass may do with one source.
#[derive(Debug, Clone, Copy, PartialEq, Eq, Structural)]
pub enum Rung {
    /// The light role can hold the source, prompt and reply together.
    Light,
    /// It cannot; no unattended pass reaches past it.
    OverWindow,
    /// The machine has no usable light role.
    Unconfigured,
}

/// The rung for a source, from the light role's declared window (outer
/// `None`: no light role; inner `None`: no declared window) and whether the
/// source and its reply fit that window.
pub open spec fn rung_of(light_window: Option<Option<u32>>, fits: bool) -> Rung {
    match light_window {
        Some(Some(_)) => if fits {
            Rung::Light
        } else {
            Rung::OverWindow
        },
        _ => Rung::Unconfigured,
    }
}

pub fn rung(light_window: Option<Option<u32>>, fits: bool) -> (r: Rung)
    ensures
        r == rung_of(light_window, fits),
{
    match light_window {
        Some(Some(_)) => if fits {
            Rung::Light
        } else {
            Rung::OverWindow
        },
        _ => Rung::Unconfigured,
    }
}

/// A light role without a declared window never counts, however small the
/// source.
pub proof fn an_undeclared_window_never_counts(fits: bool)
    ensures
        rung_of(Some(None), fits) == Rung::Unconfigured,
        rung_of(None, fits) == Rung::Unconfigured,
{
}

} // verus!
