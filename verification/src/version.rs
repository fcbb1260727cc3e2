//! Build / release metadata reported by `info`.

use vstd::prelude::*;

verus! {

/// Version strings of this build.
#[derive(Clone, Debug, PartialEq, Eq)]
pub struct Info {
    pub version: String,
    pub build_commit: String,
    pub tag_commit: String,
    pub build_time: String,
}

} // verus!
