//! What the mod decides at startup, once the configuration is read and the
//! game build is known.
//!
//! Reading the configuration file, walking the process's headers and waiting
//! for the code section to be decrypted are the host's work; this module takes
//! their results and says what to install. The rule it keeps is the one every
//! patch rests on: nothing is written into the game unless the build's
//! addresses were verified.

use vstd::prelude::*;

use crate::config::Config;
use crate::game::{for_build, jan_2025_spec, Addresses, Build, SUPPORTED};

verus! {

/// What is known of the running build, for the log.
#[derive(Clone, Copy, Debug, PartialEq, Eq, Structural)]
pub enum BuildNote {
    /// The build the addresses were gathered against.
    Supported,
    /// A build was read, and it is another one.
    Unexpected,
    /// No build stamp could be read.
    Unknown,
}

/// The features to install and how.
pub struct StartupPlan {
    /// Slots per character the stores are set to.
    pub capacity: usize,
    pub build: BuildNote,
    /// The verified addresses, when there are any: without them nothing is
    /// patched, not the hooks, not the features, not the save hooks.
    pub addresses: Option<Addresses>,
    /// The item box's size, when the box is asked for and can be installed.
    pub item_box: Option<usize>,
    /// Whether the prompt archives are to be built beside the game.
    pub build_archives: bool,
    /// The door skip, when asked for and installable, with whether the
    /// fades are shortened too.
    pub doors: Option<bool>,
    /// The door skip was asked for, but this build cannot have it.
    pub doors_unavailable: bool,
}

pub open spec fn note_for(build: Option<Build>) -> BuildNote {
    match build {
        None => BuildNote::Unknown,
        Some(b) => if b.stamp@ == SUPPORTED@ {
            BuildNote::Supported
        } else {
            BuildNote::Unexpected
        },
    }
}

/// Whether `build` is the one whose addresses were verified.
pub open spec fn verified(build: Option<Build>) -> bool {
    build matches Some(b) && b.stamp@ == SUPPORTED@
}

/// Whether `p` is what a configuration `c` plans for `build`.
pub open spec fn planned(c: Config, build: Option<Build>, p: StartupPlan) -> bool {
    &&& p.capacity == c.slots
    &&& p.build == note_for(build)
    &&& p.addresses == if verified(build) {
        Some(jan_2025_spec())
    } else {
        None
    }
    &&& p.item_box == if c.item_box.enabled && verified(build) {
        Some(c.item_box.slots)
    } else {
        None
    }
    &&& p.build_archives == c.item_box.enabled
    &&& p.doors == if c.doors.skip && verified(build) {
        Some(c.doors.shorten_fades)
    } else {
        None
    }
    &&& p.doors_unavailable == (c.doors.skip && !verified(build))
}

/// Plans the startup for `config`, already sanitized, on `build`. `None` when
/// the configuration switches the mod off: then nothing at all is modified.
pub fn plan_startup(config: &Config, build: Option<&Build>) -> (r: Option<StartupPlan>)
    ensures
        !config.enabled <==> r is None,
        r matches Some(p) ==> planned(*config, match build {
            Some(b) => Some(*b),
            None => None,
        }, p),
{
    if !config.enabled {
        return None;
    }
    let ghost known: Option<Build> = match build {
        Some(b) => Some(*b),
        None => None,
    };
    let (note, addresses) = match build {
        None => (BuildNote::Unknown, None),
        Some(b) => {
            let note = if b.is_supported() {
                BuildNote::Supported
            } else {
                BuildNote::Unexpected
            };
            (note, for_build(b))
        },
    };
    let verified_build = addresses.is_some();
    let item_box = if config.item_box.enabled && verified_build {
        Some(config.item_box.slots)
    } else {
        None
    };
    let doors = if config.doors.skip && verified_build {
        Some(config.doors.shorten_fades)
    } else {
        None
    };
    let plan = StartupPlan {
        capacity: config.slots,
        build: note,
        addresses,
        item_box,
        build_archives: config.item_box.enabled,
        doors,
        doors_unavailable: config.doors.skip && !verified_build,
    };
    assert(planned(*config, known, plan));
    Some(plan)
}

/// On any build but the verified one the mod changes nothing: no addresses,
/// so no hooks, no feature and no save hooks are installed, whatever the
/// configuration asks for.
pub proof fn law_other_builds_are_left_alone(c: Config, build: Option<Build>, p: StartupPlan)
    requires
        planned(c, build, p),
        !verified(build),
    ensures
        p.addresses is None,
        p.item_box is None,
        p.doors is None,
{
}

} // verus!
