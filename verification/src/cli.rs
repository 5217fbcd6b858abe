//! What the command line asks for.
use vstd::prelude::*;

verus! {

/// The options of the command line.
#[derive(Debug)]
pub struct Cli {
    /// What to compare: nothing for the default branch, a ref, `a..b` or `a...b`.
    pub revspec: Option<String>,
    /// Review the working tree against the last commit.
    pub uncommitted: bool,
    /// Force the single-column layout.
    pub unified: bool,
    /// Force the two-column layout.
    pub side_by_side: bool,
    /// Ignore any `.rudiff.toml` and group changes by directory.
    pub no_config: bool,
    /// The config file to use in place of a discovered one.
    pub config: Option<String>,
    /// Print the changeset as plain text and exit.
    pub print: bool,
    /// Render one frame of `WxH` off screen, print it and exit.
    pub snapshot: Option<String>,
    /// With a snapshot: the keys to press first.
    pub keys: Option<String>,
}

/// The layout that the command line forces.
#[derive(Clone, Copy, PartialEq, Eq, Debug, Structural)]
pub enum ForcedMode {
    Unified,
    SideBySide,
}

/// The layout that two flags force; single-column wins.
pub open spec fn forced_mode_v(unified: bool, side_by_side: bool) -> Option<ForcedMode> {
    if unified {
        Some(ForcedMode::Unified)
    } else if side_by_side {
        Some(ForcedMode::SideBySide)
    } else {
        None
    }
}

impl Cli {
    /// The layout that the command line forces, if any.
    pub fn forced_mode(&self) -> (r: Option<ForcedMode>)
        ensures
            r == forced_mode_v(self.unified, self.side_by_side),
    {
        match (self.unified, self.side_by_side) {
            (true, _) => Some(ForcedMode::Unified),
            (_, true) => Some(ForcedMode::SideBySide),
            _ => None,
        }
    }
}

/// The command line forces one column where it asks for one, two columns where it asks for those
/// alone, and else nothing.
pub proof fn law_forced_mode()
    ensures
        forced_mode_v(true, true) == Some(ForcedMode::Unified),
        forced_mode_v(true, false) == Some(ForcedMode::Unified),
        forced_mode_v(false, true) == Some(ForcedMode::SideBySide),
        forced_mode_v(false, false) is None,
{
}

} // verus!
