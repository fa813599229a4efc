//! Command-line level requests the synchronization jobs support.

use vstd::prelude::*;

verus! {

/// The actions a single invocation can ask for. Exactly one of `daemon`,
/// `load_new`, `refresh`, `add_artist` and `remove_artist` is meant to be
/// chosen; the artist commands also need `site`.
#[derive(Debug)]
pub struct Args {
    pub daemon: bool,
    pub load_new: bool,
    pub also_new_unavailable: bool,
    pub refresh: bool,
    pub add_artist: Option<String>,
    pub remove_artist: Option<String>,
    pub site: Option<String>,
}

impl Args {
    /// The artist commands carry the site they apply to.
    pub open spec fn spec_site_ok(&self) -> bool {
        (self.add_artist is Some || self.remove_artist is Some) ==> self.site is Some
    }

    /// Executable mirror of [`Args::spec_site_ok`].
    pub fn site_ok(&self) -> (r: bool)
        ensures
            r == self.spec_site_ok(),
    {
        !(self.add_artist.is_some() || self.remove_artist.is_some()) || self.site.is_some()
    }
}

} // verus!
