//! Catalog synchronization engine for tracking per-artist product listings
//! on an external marketplace.
//!
//! The library keeps a persisted catalog model ([`catalog::Catalog`]) of
//! artists, products, skip records and title filters, and drives two passes
//! over it: Discover (find brand-new listings) and Refresh (re-check known
//! listings for availability changes). All network and storage traffic is
//! performed by the caller, which feeds fetch results back into the pass
//! state machines as events.

pub mod catalog;
pub mod cli;
pub mod config;
pub mod engine;
pub mod model;
pub mod notification;
pub mod pacing;
pub mod seqs;
pub mod strings;

use vstd::prelude::*;

verus! {

use crate::catalog::{artists_after_add, cleared_skips, Catalog};
use crate::model::Availability;

/// Register one artist under `site`. The artist must not be registered yet;
/// stale skip records of the artist's urls are cleared, so its previously
/// rejected urls will be evaluated again.
pub fn add_artist(catalog: &mut Catalog, artist: &str, site: &str)
    requires
        old(catalog).wf(),
        !old(catalog).spec_has_artist(artist@, site@),
    ensures
        final(catalog).wf(),
        final(catalog).artists_v() == artists_after_add(old(catalog).artists_v(), artist@, site@),
        final(catalog).skips_v() == cleared_skips(old(catalog).skips_v(), artist@),
        final(catalog).products_v() == old(catalog).products_v(),
        final(catalog).title_skips_v() == old(catalog).title_skips_v(),
        final(catalog).spec_has_artist(artist@, site@),
    {
    let mut names: Vec<String> = Vec::new();
    let n = artist.to_owned();
    let ghost gn = n;
    let ghost pre_names = names;
    names.push(n);
    proof {
        crate::seqs::lemma_vec_push_deep_view(pre_names, names, gn);
        assert(pre_names.deep_view() =~= Seq::<Seq<char>>::empty());
        assert(gn@ == artist@);
        assert(gn.deep_view() == artist@);
        assert(names.deep_view().len() == 1);
        assert(names.deep_view()[0] == artist@);
    }
    catalog.add_artists(site, &names);
    proof {
        let all = names.deep_view();
        assert(all.skip(1).len() == 0);
        let a1 = artists_after_add(old(catalog).artists_v(), artist@, site@);
        let k1 = cleared_skips(old(catalog).skips_v(), artist@);
        assert(crate::catalog::after_add_artists(a1, k1, site@, all.skip(1)) == (a1, k1));
        assert(crate::catalog::after_add_artists(
            old(catalog).artists_v(),
            old(catalog).skips_v(),
            site@,
            all,
        ) == (a1, k1));
        assert(all.contains(artist@)) by {
            assert(all[0] == artist@);
        }
    }
}

/// Remove the artist registered as `(name, site)`; the artist's products and
/// title filters for that site are removed with it.
pub fn remove_artist(catalog: &mut Catalog, artist: &str, site: &str)
    requires
        old(catalog).wf(),
    ensures
        final(catalog).wf(),
        final(catalog).artists_v() == crate::catalog::artists_without(
            old(catalog).artists_v(),
            artist@,
            site@,
        ),
        final(catalog).products_v() == crate::catalog::products_without_artist(
            old(catalog).products_v(),
            artist@,
            site@,
        ),
        final(catalog).title_skips_v() == crate::catalog::title_skips_without_artist(
            old(catalog).title_skips_v(),
            artist@,
            site@,
        ),
        final(catalog).skips_v() == old(catalog).skips_v(),
        !final(catalog).spec_has_artist(artist@, site@),
{
    catalog.remove_artist(site, artist);
}

/// The fixed set of availability states a Refresh pass re-checks:
/// live listings only, never `NotAvailable` or the terminal `Deleted`.
pub fn tracked_types() -> (r: Vec<Availability>)
    ensures
        r@.len() == 2,
        r@[0] == Availability::Available,
        r@[1] == Availability::Preorder,
{
    let mut v: Vec<Availability> = Vec::new();
    v.push(Availability::Available);
    v.push(Availability::Preorder);
    v
}

} // verus!
