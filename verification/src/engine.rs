//! The synchronization engine: candidate classification for a Discover pass,
//! and the Discover and Refresh pass state machines.
//!
//! The engine never talks to the network or to storage itself. A pass is a
//! state machine over the in-memory [`Catalog`]: each step consumes the
//! outcome of the previous fetch (the event) and answers with what to do
//! next (the actions). The caller performs the fetches, delivers the
//! notification batches and applies the pacing delays between steps.

use vstd::prelude::*;

use crate::catalog::{
    deleted_at, has_artist, has_skip, has_url, products_after_store, products_after_update,
    products_of_site, title_skip_applies, unavailable_at, Catalog, SkipView, StoredProductView,
};
use crate::model::{Availability, Product, ProductView, SourceError};
use crate::strings::str_eq;

verus! {

// ---------------------------------------------------------------------------
// Candidate classification for a Discover pass
// ---------------------------------------------------------------------------

/// The unknown-new candidates among the listed urls, in source order: the
/// first occurrence of every url that is neither skip-listed for the artist
/// nor already stored.
pub open spec fn new_candidates(
    p: Seq<StoredProductView>,
    k: Seq<SkipView>,
    artist: Seq<char>,
    s: Seq<Seq<char>>,
) -> Seq<Seq<char>>
    decreases s.len(),
{
    if s.len() == 0 {
        Seq::empty()
    } else {
        let pre = new_candidates(p, k, artist, s.drop_last());
        let u = s.last();
        if !s.drop_last().contains(u) && !has_skip(k, u, artist) && !has_url(p, u) {
            pre.push(u)
        } else {
            pre
        }
    }
}

/// The came-back candidates among the listed urls, in source order: the
/// first occurrence of every url that is not skip-listed for the artist,
/// already stored, and currently inactive. Only a listing restricted to
/// active items (`include_unavailable` false) yields came-back candidates:
/// such a listing is the only way to observe a restock.
pub open spec fn comeback_candidates(
    p: Seq<StoredProductView>,
    k: Seq<SkipView>,
    artist: Seq<char>,
    include_unavailable: bool,
    s: Seq<Seq<char>>,
) -> Seq<Seq<char>>
    decreases s.len(),
{
    if s.len() == 0 || include_unavailable {
        Seq::empty()
    } else {
        let pre = comeback_candidates(p, k, artist, include_unavailable, s.drop_last());
        let u = s.last();
        if !s.drop_last().contains(u) && !has_skip(k, u, artist) && has_url(p, u)
            && unavailable_at(p, u) {
            pre.push(u)
        } else {
            pre
        }
    }
}

/// Does `s` occur among the first `end` elements of `v`?
fn str_in_prefix(v: &Vec<String>, end: usize, s: &str) -> (r: bool)
    requires
        end <= v@.len(),
    ensures
        r == v.deep_view().take(end as int).contains(s@),
{
    let ghost pref = v.deep_view().take(end as int);
    let mut j: usize = 0;
    while j < end
        invariant
            0 <= j <= end <= v@.len(),
            pref == v.deep_view().take(end as int),
            forall|k: int| 0 <= k < j ==> pref[k] != s@,
        decreases end - j,
    {
        if str_eq(v[j].as_str(), s) {
            proof {
                assert(pref[j as int] == s@);
            }
            return true;
        }
        j = j + 1;
    }
    proof {
        if pref.contains(s@) {
            let k = choose|k: int| 0 <= k < pref.len() && pref[k] == s@;
        }
    }
    false
}

/// Partition the listed candidate urls of one artist for a Discover pass:
/// duplicates and skip-listed urls are dropped; urls already stored are
/// kept only as came-back candidates (inactive ones, and only when the
/// listing excluded inactive items); the rest are unknown-new.
pub fn partition_candidates(
    catalog: &Catalog,
    artist: &str,
    include_unavailable: bool,
    urls: &Vec<String>,
) -> (r: (Vec<String>, Vec<String>))
    ensures
        r.0.deep_view() == new_candidates(
            catalog.products_v(),
            catalog.skips_v(),
            artist@,
            urls.deep_view(),
        ),
        r.1.deep_view() == comeback_candidates(
            catalog.products_v(),
            catalog.skips_v(),
            artist@,
            include_unavailable,
            urls.deep_view(),
        ),
{
    let ghost all = urls.deep_view();
    let ghost p = catalog.products_v();
    let ghost k = catalog.skips_v();
    let mut new_urls: Vec<String> = Vec::new();
    let mut comeback: Vec<String> = Vec::new();
    let mut i: usize = 0;
    proof {
        assert(all.take(0) =~= Seq::<Seq<char>>::empty());
        assert(new_urls.deep_view() =~= new_candidates(p, k, artist@, all.take(0)));
        assert(comeback.deep_view() =~= comeback_candidates(
            p,
            k,
            artist@,
            include_unavailable,
            all.take(0),
        ));
    }
    while i < urls.len()
        invariant
            0 <= i <= urls@.len(),
            all == urls.deep_view(),
            p == catalog.products_v(),
            k == catalog.skips_v(),
            new_urls.deep_view() == new_candidates(p, k, artist@, all.take(i as int)),
            comeback.deep_view() == comeback_candidates(
                p,
                k,
                artist@,
                include_unavailable,
                all.take(i as int),
            ),
        decreases urls@.len() - i,
    {
        proof {
            assert(all.take(i + 1).drop_last() =~= all.take(i as int));
            assert(all.take(i + 1).last() == all[i as int]);
        }
        let seen = str_in_prefix(urls, i, urls[i].as_str());
        if !seen && !catalog.is_skipped(urls[i].as_str(), artist) {
            if catalog.contains_product(urls[i].as_str()) {
                if !include_unavailable && catalog.is_unavailable(urls[i].as_str()) {
                    let ghost pre = comeback;
                    let x = urls[i].clone();
                    let ghost gx = x;
                    comeback.push(x);
                    proof {
                        crate::seqs::lemma_vec_push_deep_view(pre, comeback, gx);
                    }
                }
            } else {
                let ghost pre = new_urls;
                let x = urls[i].clone();
                let ghost gx = x;
                new_urls.push(x);
                proof {
                    crate::seqs::lemma_vec_push_deep_view(pre, new_urls, gx);
                }
            }
        }
        proof {
            assert(new_urls.deep_view() =~= new_candidates(p, k, artist@, all.take(i + 1)));
            assert(comeback.deep_view() =~= comeback_candidates(
                p,
                k,
                artist@,
                include_unavailable,
                all.take(i + 1),
            ));
        }
        i = i + 1;
    }
    proof {
        crate::seqs::lemma_take_full(all);
    }
    (new_urls, comeback)
}

/// What membership in the unknown-new candidate list means: the url was
/// listed, is not stored, is not skip-listed for the artist — and the list
/// repeats nothing.
pub proof fn lemma_new_candidates_props(
    p: Seq<StoredProductView>,
    k: Seq<SkipView>,
    artist: Seq<char>,
    s: Seq<Seq<char>>,
)
    ensures
        forall|i: int|
            0 <= i < new_candidates(p, k, artist, s).len() ==> {
                let u = #[trigger] new_candidates(p, k, artist, s)[i];
                s.contains(u) && !has_url(p, u) && !has_skip(k, u, artist)
            },
        forall|i: int, j: int|
            0 <= i < j < new_candidates(p, k, artist, s).len()
                ==> #[trigger] new_candidates(p, k, artist, s)[i] != #[trigger] new_candidates(
                p,
                k,
                artist,
                s,
            )[j],
    decreases s.len(),
{
    if s.len() > 0 {
        let dl = s.drop_last();
        lemma_new_candidates_props(p, k, artist, dl);
        let pre = new_candidates(p, k, artist, dl);
        let cur = new_candidates(p, k, artist, s);
        assert forall|i: int| 0 <= i < cur.len() implies {
            let u = #[trigger] cur[i];
            s.contains(u) && !has_url(p, u) && !has_skip(k, u, artist)
        } by {
            if i < pre.len() {
                assert(cur[i] == pre[i]);
                assert(dl.contains(pre[i]));
                let m = choose|m: int| 0 <= m < dl.len() && dl[m] == pre[i];
                assert(s[m] == pre[i]);
            } else {
                assert(cur[i] == s.last());
                assert(s[s.len() - 1] == s.last());
            }
        }
        assert forall|i: int, j: int| 0 <= i < j < cur.len() implies #[trigger] cur[i]
            != #[trigger] cur[j] by {
            if j < pre.len() {
            } else if j == pre.len() && cur.len() > pre.len() {
                // the appended url has no earlier occurrence, while every
                // earlier candidate was listed before it
                assert(cur[j] == s.last());
                assert(!dl.contains(s.last()));
                assert(cur[i] == pre[i]);
                assert(dl.contains(pre[i]));
            }
        }
    }
}

/// What membership in the came-back candidate list means: listed, stored,
/// currently inactive, not skip-listed; and a listing that already includes
/// inactive items yields none.
pub proof fn lemma_comeback_candidates_props(
    p: Seq<StoredProductView>,
    k: Seq<SkipView>,
    artist: Seq<char>,
    include_unavailable: bool,
    s: Seq<Seq<char>>,
)
    ensures
        forall|i: int|
            0 <= i < comeback_candidates(p, k, artist, include_unavailable, s).len() ==> {
                let u = #[trigger] comeback_candidates(p, k, artist, include_unavailable, s)[i];
                s.contains(u) && has_url(p, u) && unavailable_at(p, u) && !has_skip(k, u, artist)
            },
        include_unavailable ==> comeback_candidates(p, k, artist, include_unavailable, s).len()
            == 0,
    decreases s.len(),
{
    if s.len() > 0 && !include_unavailable {
        let dl = s.drop_last();
        lemma_comeback_candidates_props(p, k, artist, include_unavailable, dl);
        let pre = comeback_candidates(p, k, artist, include_unavailable, dl);
        let cur = comeback_candidates(p, k, artist, include_unavailable, s);
        assert forall|i: int| 0 <= i < cur.len() implies {
            let u = #[trigger] cur[i];
            s.contains(u) && has_url(p, u) && unavailable_at(p, u) && !has_skip(k, u, artist)
        } by {
            if i < pre.len() {
                assert(cur[i] == pre[i]);
                assert(dl.contains(pre[i]));
                let m = choose|m: int| 0 <= m < dl.len() && dl[m] == pre[i];
                assert(s[m] == pre[i]);
            } else {
                assert(cur[i] == s.last());
                assert(s[s.len() - 1] == s.last());
            }
        }
    }
}

/// Idempotence of Discover's selection: when every listed url is already
/// stored or skip-listed for the artist — as after a completed pass with no
/// remote-side change — nothing is selected for first-time fetching, so
/// nothing is stored or skip-listed again.
pub proof fn lemma_discover_idempotent(
    p: Seq<StoredProductView>,
    k: Seq<SkipView>,
    artist: Seq<char>,
    s: Seq<Seq<char>>,
)
    requires
        forall|i: int| 0 <= i < s.len() ==> has_url(p, #[trigger] s[i]) || has_skip(k, s[i], artist),
    ensures
        new_candidates(p, k, artist, s).len() == 0,
    decreases s.len(),
{
    if s.len() > 0 {
        let dl = s.drop_last();
        assert(forall|i: int| 0 <= i < dl.len() ==> #[trigger] dl[i] == s[i]);
        lemma_discover_idempotent(p, k, artist, dl);
        assert(s[s.len() - 1] == s.last());
    }
}

// ---------------------------------------------------------------------------
// Discover pass: events, actions, state
// ---------------------------------------------------------------------------

/// What the caller feeds into a Discover step: the start signal, the outcome
/// of the listing fetch it was asked for, or the outcome of the detail fetch
/// it was asked for.
#[derive(Debug)]
pub enum DiscoverEvent {
    Start,
    Listing { result: Result<Vec<String>, SourceError> },
    Detail { result: Result<Product, SourceError> },
}

/// What a Discover step asks the caller to do next. `NotifyNew` and
/// `NotifyReruns` carry a whole per-artist batch; the fetch actions expect
/// the matching event at the next step; `Done` and `Failed` end the pass.
#[derive(Debug)]
pub enum DiscoverAction {
    FetchListing { artist: String },
    FetchDetail { artist: String, url: String },
    NotifyNew { artist: String, products: Vec<Product> },
    NotifyReruns { artist: String, products: Vec<Product> },
    Done,
    Failed { error: SourceError },
}

/// Where a Discover pass stands: between artists, or waiting for one fetch,
/// with the per-artist work queues and notification batches.
#[derive(Debug)]
pub enum DiscoverPhase {
    Starting,
    AwaitListing { artist: String },
    AwaitNewDetail {
        artist: String,
        pending_new: Vec<String>,
        comeback: Vec<String>,
        new_batch: Vec<Product>,
    },
    AwaitComebackDetail { artist: String, pending_comeback: Vec<String>, rerun_batch: Vec<Product> },
    Done,
    Failed,
}

/// A Discover pass over one site.
#[derive(Debug)]
pub struct DiscoverPass {
    pub site: String,
    pub include_unavailable: bool,
    pub pending_artists: Vec<String>,
    pub phase: DiscoverPhase,
}

/// Mathematical model of a [`DiscoverEvent`].
pub enum EventV {
    Start,
    Listing { result: Result<Seq<Seq<char>>, SourceError> },
    Detail { result: Result<ProductView, SourceError> },
}

impl DeepView for DiscoverEvent {
    type V = EventV;

    open spec fn deep_view(&self) -> EventV {
        match self {
            DiscoverEvent::Start => EventV::Start,
            DiscoverEvent::Listing { result } => EventV::Listing {
                result: match result {
                    Ok(urls) => Ok(urls.deep_view()),
                    Err(e) => Err(*e),
                },
            },
            DiscoverEvent::Detail { result } => EventV::Detail {
                result: match result {
                    Ok(p) => Ok(p@),
                    Err(e) => Err(*e),
                },
            },
        }
    }
}

/// Mathematical model of a [`DiscoverAction`].
pub enum ActionV {
    FetchListing { artist: Seq<char> },
    FetchDetail { artist: Seq<char>, url: Seq<char> },
    NotifyNew { artist: Seq<char>, products: Seq<ProductView> },
    NotifyReruns { artist: Seq<char>, products: Seq<ProductView> },
    Done,
    Failed { error: SourceError },
}

impl DeepView for DiscoverAction {
    type V = ActionV;

    open spec fn deep_view(&self) -> ActionV {
        match self {
            DiscoverAction::FetchListing { artist } => ActionV::FetchListing { artist: artist@ },
            DiscoverAction::FetchDetail { artist, url } => ActionV::FetchDetail {
                artist: artist@,
                url: url@,
            },
            DiscoverAction::NotifyNew { artist, products } => ActionV::NotifyNew {
                artist: artist@,
                products: products.deep_view(),
            },
            DiscoverAction::NotifyReruns { artist, products } => ActionV::NotifyReruns {
                artist: artist@,
                products: products.deep_view(),
            },
            DiscoverAction::Done => ActionV::Done,
            DiscoverAction::Failed { error } => ActionV::Failed { error: *error },
        }
    }
}

/// Mathematical model of a [`DiscoverPhase`].
pub enum PhaseV {
    Starting,
    AwaitListing { artist: Seq<char> },
    AwaitNewDetail {
        artist: Seq<char>,
        pending_new: Seq<Seq<char>>,
        comeback: Seq<Seq<char>>,
        new_batch: Seq<ProductView>,
    },
    AwaitComebackDetail {
        artist: Seq<char>,
        pending_comeback: Seq<Seq<char>>,
        rerun_batch: Seq<ProductView>,
    },
    Done,
    Failed,
}

impl DeepView for DiscoverPhase {
    type V = PhaseV;

    open spec fn deep_view(&self) -> PhaseV {
        match self {
            DiscoverPhase::Starting => PhaseV::Starting,
            DiscoverPhase::AwaitListing { artist } => PhaseV::AwaitListing { artist: artist@ },
            DiscoverPhase::AwaitNewDetail { artist, pending_new, comeback, new_batch } => {
                PhaseV::AwaitNewDetail {
                    artist: artist@,
                    pending_new: pending_new.deep_view(),
                    comeback: comeback.deep_view(),
                    new_batch: new_batch.deep_view(),
                }
            },
            DiscoverPhase::AwaitComebackDetail { artist, pending_comeback, rerun_batch } => {
                PhaseV::AwaitComebackDetail {
                    artist: artist@,
                    pending_comeback: pending_comeback.deep_view(),
                    rerun_batch: rerun_batch.deep_view(),
                }
            },
            DiscoverPhase::Done => PhaseV::Done,
            DiscoverPhase::Failed => PhaseV::Failed,
        }
    }
}

/// Mathematical model of a [`DiscoverPass`].
#[verifier::ext_equal]
pub struct PassV {
    pub site: Seq<char>,
    pub include_unavailable: bool,
    pub pending_artists: Seq<Seq<char>>,
    pub phase: PhaseV,
}

impl DeepView for DiscoverPass {
    type V = PassV;

    open spec fn deep_view(&self) -> PassV {
        PassV {
            site: self.site@,
            include_unavailable: self.include_unavailable,
            pending_artists: self.pending_artists.deep_view(),
            phase: self.phase.deep_view(),
        }
    }
}

// ---------------------------------------------------------------------------
// Discover pass: the transition function, as a mathematical relation
// ---------------------------------------------------------------------------

/// Move to the next artist: fetch its listing, or end the pass when none is
/// left. Yields the next phase, the remaining artists and the actions.
pub open spec fn advance_spec(pending: Seq<Seq<char>>) -> (PhaseV, Seq<Seq<char>>, Seq<ActionV>) {
    if pending.len() == 0 {
        (PhaseV::Done, pending, seq![ActionV::Done])
    } else {
        (
            PhaseV::AwaitListing { artist: pending[0] },
            pending.skip(1),
            seq![ActionV::FetchListing { artist: pending[0] }],
        )
    }
}

/// Finish one artist: flush the rerun batch (only when it is non-empty: an
/// empty batch never reaches the notifier), then move on.
pub open spec fn finish_artist_spec(
    artist: Seq<char>,
    rerun_batch: Seq<ProductView>,
    pending: Seq<Seq<char>>,
) -> (PhaseV, Seq<Seq<char>>, Seq<ActionV>) {
    let t = advance_spec(pending);
    if rerun_batch.len() > 0 {
        (t.0, t.1, seq![ActionV::NotifyReruns { artist, products: rerun_batch }] + t.2)
    } else {
        t
    }
}

/// Work through the came-back queue: fetch the detail of its head, or finish
/// the artist when it is empty.
pub open spec fn comeback_step_spec(
    artist: Seq<char>,
    queue: Seq<Seq<char>>,
    rerun_batch: Seq<ProductView>,
    pending: Seq<Seq<char>>,
) -> (PhaseV, Seq<Seq<char>>, Seq<ActionV>) {
    if queue.len() > 0 {
        (
            PhaseV::AwaitComebackDetail { artist, pending_comeback: queue, rerun_batch },
            pending,
            seq![ActionV::FetchDetail { artist, url: queue[0] }],
        )
    } else {
        finish_artist_spec(artist, rerun_batch, pending)
    }
}

/// Work through the unknown-new queue: fetch the detail of its head, or
/// flush the new batch (when non-empty) and turn to the came-back queue.
pub open spec fn new_step_spec(
    artist: Seq<char>,
    queue: Seq<Seq<char>>,
    comeback: Seq<Seq<char>>,
    new_batch: Seq<ProductView>,
    pending: Seq<Seq<char>>,
) -> (PhaseV, Seq<Seq<char>>, Seq<ActionV>) {
    if queue.len() > 0 {
        (
            PhaseV::AwaitNewDetail { artist, pending_new: queue, comeback, new_batch },
            pending,
            seq![ActionV::FetchDetail { artist, url: queue[0] }],
        )
    } else {
        let t = comeback_step_spec(artist, comeback, seq![], pending);
        if new_batch.len() > 0 {
            (t.0, t.1, seq![ActionV::NotifyNew { artist, products: new_batch }] + t.2)
        } else {
            t
        }
    }
}

/// The catalog is unchanged.
pub open spec fn cat_unchanged(c0: Catalog, c1: Catalog) -> bool {
    &&& c1.artists_v() == c0.artists_v()
    &&& c1.products_v() == c0.products_v()
    &&& c1.skips_v() == c0.skips_v()
    &&& c1.title_skips_v() == c0.title_skips_v()
}

/// Only the product rows changed, to exactly `p`.
pub open spec fn cat_products_set(c0: Catalog, c1: Catalog, p: Seq<StoredProductView>) -> bool {
    &&& c1.artists_v() == c0.artists_v()
    &&& c1.products_v() == p
    &&& c1.skips_v() == c0.skips_v()
    &&& c1.title_skips_v() == c0.title_skips_v()
}

/// Only the skip records changed, to exactly `k`.
pub open spec fn cat_skips_set(c0: Catalog, c1: Catalog, k: Seq<SkipView>) -> bool {
    &&& c1.artists_v() == c0.artists_v()
    &&& c1.products_v() == c0.products_v()
    &&& c1.skips_v() == k
    &&& c1.title_skips_v() == c0.title_skips_v()
}

/// The complete transition relation of one Discover step: given the prior
/// pass state, catalog and event, it determines the next pass state, the
/// catalog writes, and the actions handed back to the caller.
pub open spec fn discover_transition(
    pre: PassV,
    c0: Catalog,
    ev: EventV,
    post: PassV,
    c1: Catalog,
    acts: Seq<ActionV>,
) -> bool {
    &&& post.site == pre.site
    &&& post.include_unavailable == pre.include_unavailable
    &&& match (pre.phase, ev) {
        (PhaseV::Starting, EventV::Start) => {
            let t = advance_spec(pre.pending_artists);
            &&& cat_unchanged(c0, c1)
            &&& post.phase == t.0
            &&& post.pending_artists == t.1
            &&& acts == t.2
        },
        (PhaseV::AwaitListing { artist }, EventV::Listing { result }) => match result {
            Ok(urls) => {
                let nc = new_candidates(c0.products_v(), c0.skips_v(), artist, urls);
                let cb = comeback_candidates(
                    c0.products_v(),
                    c0.skips_v(),
                    artist,
                    pre.include_unavailable,
                    urls,
                );
                let t = new_step_spec(artist, nc, cb, seq![], pre.pending_artists);
                &&& cat_unchanged(c0, c1)
                &&& post.phase == t.0
                &&& post.pending_artists == t.1
                &&& acts == t.2
            },
            Err(e) => {
                &&& cat_unchanged(c0, c1)
                &&& post.phase == PhaseV::Failed
                &&& post.pending_artists == pre.pending_artists
                &&& acts == seq![ActionV::Failed { error: e }]
            },
        },
        (
            PhaseV::AwaitNewDetail { artist, pending_new, comeback, new_batch },
            EventV::Detail { result },
        ) => match result {
            Ok(p) => {
                let t = new_step_spec(
                    artist,
                    pending_new.skip(1),
                    comeback,
                    if p.artists.contains(artist) {
                        new_batch.push(p)
                    } else {
                        new_batch
                    },
                    pre.pending_artists,
                );
                &&& if p.artists.contains(artist) {
                    cat_products_set(
                        c0,
                        c1,
                        products_after_store(c0.products_v(), pre.site, p),
                    )
                } else {
                    cat_skips_set(
                        c0,
                        c1,
                        c0.skips_v().push(SkipView { url: pending_new[0], artist }),
                    )
                }
                &&& post.phase == t.0
                &&& post.pending_artists == t.1
                &&& acts == t.2
            },
            Err(SourceError::NotFound) => {
                // the candidate vanished between listing and fetch: not an
                // error, simply no longer a candidate
                let t = new_step_spec(
                    artist,
                    pending_new.skip(1),
                    comeback,
                    new_batch,
                    pre.pending_artists,
                );
                &&& cat_unchanged(c0, c1)
                &&& post.phase == t.0
                &&& post.pending_artists == t.1
                &&& acts == t.2
            },
            Err(e) => {
                &&& cat_unchanged(c0, c1)
                &&& post.phase == PhaseV::Failed
                &&& post.pending_artists == pre.pending_artists
                &&& acts == seq![ActionV::Failed { error: e }]
            },
        },
        (
            PhaseV::AwaitComebackDetail { artist, pending_comeback, rerun_batch },
            EventV::Detail { result },
        ) => match result {
            Ok(p) => {
                let hit = p.availability != Availability::NotAvailable;
                let noted = hit && !title_skip_applies(
                    c0.title_skips_v(),
                    p.associated_artist,
                    pre.site,
                    p.title,
                );
                let t = comeback_step_spec(
                    artist,
                    pending_comeback.skip(1),
                    if noted {
                        rerun_batch.push(p)
                    } else {
                        rerun_batch
                    },
                    pre.pending_artists,
                );
                &&& if hit {
                    cat_products_set(
                        c0,
                        c1,
                        products_after_update(c0.products_v(), pending_comeback[0], p.availability),
                    )
                } else {
                    cat_unchanged(c0, c1)
                }
                &&& post.phase == t.0
                &&& post.pending_artists == t.1
                &&& acts == t.2
            },
            Err(SourceError::NotFound) => {
                // the explicit not-found signal: the product is gone
                let t = comeback_step_spec(
                    artist,
                    pending_comeback.skip(1),
                    rerun_batch,
                    pre.pending_artists,
                );
                &&& cat_products_set(
                    c0,
                    c1,
                    products_after_update(
                        c0.products_v(),
                        pending_comeback[0],
                        Availability::Deleted,
                    ),
                )
                &&& post.phase == t.0
                &&& post.pending_artists == t.1
                &&& acts == t.2
            },
            Err(e) => {
                &&& cat_unchanged(c0, c1)
                &&& post.phase == PhaseV::Failed
                &&& post.pending_artists == pre.pending_artists
                &&& acts == seq![ActionV::Failed { error: e }]
            },
        },
        _ => false,
    }
}

// ---------------------------------------------------------------------------
// Discover pass: invariant and event fit
// ---------------------------------------------------------------------------

/// Every url queued for first-time fetching is neither stored nor
/// skip-listed for the artist, and queued at most once.
pub open spec fn queue_new_ok(catalog: &Catalog, artist: Seq<char>, q: Seq<Seq<char>>) -> bool {
    &&& forall|i: int|
        0 <= i < q.len() ==> !has_url(catalog.products_v(), #[trigger] q[i]) && !has_skip(
            catalog.skips_v(),
            q[i],
            artist,
        )
    &&& forall|i: int, j: int| 0 <= i < j < q.len() ==> q[i] != q[j]
}

/// Every url queued for a came-back re-check is stored and not skip-listed
/// for the artist.
pub open spec fn queue_comeback_ok(catalog: &Catalog, artist: Seq<char>, q: Seq<Seq<char>>) -> bool {
    forall|i: int|
        0 <= i < q.len() ==> has_url(catalog.products_v(), #[trigger] q[i]) && !has_skip(
            catalog.skips_v(),
            q[i],
            artist,
        )
}

/// What must hold of a phase against the catalog.
pub open spec fn phase_inv(ph: PhaseV, catalog: &Catalog, site: Seq<char>) -> bool {
    match ph {
        PhaseV::AwaitListing { artist } => has_artist(catalog.artists_v(), artist, site),
        PhaseV::AwaitNewDetail { artist, pending_new, comeback, new_batch } => {
            &&& pending_new.len() > 0
            &&& has_artist(catalog.artists_v(), artist, site)
            &&& queue_new_ok(catalog, artist, pending_new)
            &&& queue_comeback_ok(catalog, artist, comeback)
        },
        PhaseV::AwaitComebackDetail { artist, pending_comeback, rerun_batch } => {
            &&& pending_comeback.len() > 0
            &&& has_artist(catalog.artists_v(), artist, site)
            &&& queue_comeback_ok(catalog, artist, pending_comeback)
        },
        _ => true,
    }
}

impl DiscoverPass {
    /// All artists still to visit are registered for the site.
    pub open spec fn artists_ok(&self, catalog: &Catalog) -> bool {
        forall|i: int|
            0 <= i < self.pending_artists.deep_view().len() ==> has_artist(
                catalog.artists_v(),
                #[trigger] self.pending_artists.deep_view()[i],
                self.site@,
            )
    }

    /// The pass invariant: a well-formed catalog, registered artists, and
    /// work queues that fit the catalog.
    pub open spec fn inv(&self, catalog: &Catalog) -> bool {
        &&& catalog.wf()
        &&& self.artists_ok(catalog)
        &&& phase_inv(self.phase.deep_view(), catalog, self.site@)
    }

    /// The pass still accepts events.
    pub open spec fn running(&self) -> bool {
        !(self.phase.deep_view() is Done) && !(self.phase.deep_view() is Failed)
    }

    /// The event fits the phase: it answers the fetch the pass asked for.
    /// A successful detail fetch carries the product of the requested url,
    /// attributed to the queried artist, and a source never reports
    /// `Deleted` (that state exists only behind the not-found signal).
    pub open spec fn expects(&self, event: DiscoverEvent) -> bool {
        match (self.phase.deep_view(), event.deep_view()) {
            (PhaseV::Starting, EventV::Start) => true,
            (PhaseV::AwaitListing { .. }, EventV::Listing { .. }) => true,
            (PhaseV::AwaitNewDetail { artist, pending_new, .. }, EventV::Detail { result }) => {
                match result {
                    Ok(p) => p.url == pending_new[0] && p.associated_artist == artist
                        && p.availability != Availability::Deleted,
                    Err(_) => true,
                }
            },
            (
                PhaseV::AwaitComebackDetail { artist, pending_comeback, .. },
                EventV::Detail { result },
            ) => match result {
                Ok(p) => p.url == pending_comeback[0] && p.associated_artist == artist
                    && p.availability != Availability::Deleted,
                Err(_) => true,
            },
            _ => false,
        }
    }
}

/// Rerun detection is complete: a stored product that is currently inactive,
/// listed under the artist, and not skip-listed, is selected for re-checking
/// whenever the listing excluded inactive items.
pub proof fn lemma_comeback_selected(
    p: Seq<StoredProductView>,
    k: Seq<SkipView>,
    artist: Seq<char>,
    s: Seq<Seq<char>>,
    u: Seq<char>,
)
    requires
        s.contains(u),
        has_url(p, u),
        unavailable_at(p, u),
        !has_skip(k, u, artist),
    ensures
        comeback_candidates(p, k, artist, false, s).contains(u),
    decreases s.len(),
{
    let dl = s.drop_last();
    let cur = comeback_candidates(p, k, artist, false, s);
    let pre = comeback_candidates(p, k, artist, false, dl);
    if s.last() == u && !dl.contains(u) {
        assert(cur == pre.push(u));
        assert(cur[cur.len() - 1] == u);
    } else {
        assert(dl.contains(u)) by {
            let m = choose|m: int| 0 <= m < s.len() && s[m] == u;
            if m < s.len() - 1 {
                assert(dl[m] == u);
            } else {
                assert(s.last() == u);
                let m2 = choose|m2: int| 0 <= m2 < dl.len() && dl[m2] == u;
            }
        }
        lemma_comeback_selected(p, k, artist, dl, u);
        let m = choose|m: int| 0 <= m < pre.len() && pre[m] == u;
        assert(cur.len() >= pre.len() && cur[m] == pre[m]);
    }
}

// ---------------------------------------------------------------------------
// Discover pass: the executable machine
// ---------------------------------------------------------------------------

/// Does `v` hold a string equal to `s`?
fn contains_string(v: &Vec<String>, s: &str) -> (r: bool)
    ensures
        r == v.deep_view().contains(s@),
{
    let mut j: usize = 0;
    while j < v.len()
        invariant
            0 <= j <= v@.len(),
            forall|k: int| 0 <= k < j ==> v.deep_view()[k] != s@,
        decreases v@.len() - j,
    {
        if str_eq(v[j].as_str(), s) {
            proof {
                assert(v.deep_view()[j as int] == s@);
            }
            return true;
        }
        j = j + 1;
    }
    proof {
        if v.deep_view().contains(s@) {
            let k = choose|k: int| 0 <= k < v.deep_view().len() && v.deep_view()[k] == s@;
        }
    }
    false
}

/// Every artist name a site query yields is a registered artist of the site.
pub proof fn lemma_artists_of_site_registered(
    a: Seq<crate::catalog::ArtistView>,
    site: Seq<char>,
)
    ensures
        forall|k: int|
            0 <= k < crate::catalog::artists_of_site(a, site).len() ==> has_artist(
                a,
                #[trigger] crate::catalog::artists_of_site(a, site)[k],
                site,
            ),
{
    let pred = |x: crate::catalog::ArtistView| x.site == site;
    let f = a.filter(pred);
    crate::seqs::lemma_filter_subset(a, pred);
    crate::seqs::lemma_filter_membership(a, pred);
    assert forall|k: int| 0 <= k < crate::catalog::artists_of_site(a, site).len() implies
        has_artist(a, #[trigger] crate::catalog::artists_of_site(a, site)[k], site) by {
        assert(crate::catalog::artists_of_site(a, site)[k] == f[k].name);
        assert(a.contains(f[k]));
        let m = choose|m: int| 0 <= m < a.len() && a[m] == f[k];
        assert(pred(f[k]));
        assert(a[m].name == f[k].name && a[m].site == site);
    }
}

impl DiscoverPass {
    /// Start a Discover pass over `site`: it will visit the site's artists
    /// in the repository's lexicographic order. The first step takes the
    /// start event.
    pub fn new(catalog: &Catalog, site: &str, include_unavailable: bool) -> (r: DiscoverPass)
        requires
            catalog.wf(),
        ensures
            r.inv(catalog),
            r.running(),
            r.deep_view() == (PassV {
                site: site@,
                include_unavailable,
                pending_artists: crate::catalog::artists_of_site(catalog.artists_v(), site@),
                phase: PhaseV::Starting,
            }),
    {
        let pending = catalog.get_artists(site);
        proof {
            lemma_artists_of_site_registered(catalog.artists_v(), site@);
        }
        let r = DiscoverPass {
            site: site.to_owned(),
            include_unavailable,
            pending_artists: pending,
            phase: DiscoverPhase::Starting,
        };
        proof {
            assert(r.deep_view() =~= (PassV {
                site: site@,
                include_unavailable,
                pending_artists: crate::catalog::artists_of_site(catalog.artists_v(), site@),
                phase: PhaseV::Starting,
            }));
        }
        r
    }

    /// Turn to the next artist, or end the pass.
    fn advance_exec(&mut self, catalog: &Catalog) -> (acts: Vec<DiscoverAction>)
        requires
            catalog.wf(),
            old(self).artists_ok(catalog),
        ensures
            final(self).site == old(self).site,
            final(self).include_unavailable == old(self).include_unavailable,
            final(self).inv(catalog),
            ({
                let t = advance_spec(old(self).pending_artists.deep_view());
                &&& final(self).phase.deep_view() == t.0
                &&& final(self).pending_artists.deep_view() == t.1
                &&& acts.deep_view() == t.2
            }),
            forall|i: int|
                0 <= i < acts.deep_view().len() ==> !((#[trigger] acts.deep_view()[i])
                    is FetchDetail),
    {
        if self.pending_artists.len() == 0 {
            self.phase = DiscoverPhase::Done;
            let mut acts: Vec<DiscoverAction> = Vec::new();
            let ghost pre = acts;
            acts.push(DiscoverAction::Done);
            proof {
                crate::seqs::lemma_vec_push_deep_view(pre, acts, DiscoverAction::Done);
                assert(acts.deep_view() =~= seq![ActionV::Done]);
            }
            acts
        } else {
            let ghost pre_pending = self.pending_artists;
            let artist = self.pending_artists.remove(0);
            let act_artist = artist.clone();
            self.phase = DiscoverPhase::AwaitListing { artist };
            let mut acts: Vec<DiscoverAction> = Vec::new();
            let ghost pre = acts;
            let a = DiscoverAction::FetchListing { artist: act_artist };
            let ghost ga = a;
            acts.push(a);
            proof {
                crate::seqs::lemma_vec_remove_deep_view(pre_pending, self.pending_artists, 0);
                assert(self.pending_artists.deep_view() =~= pre_pending.deep_view().skip(1));
                crate::seqs::lemma_vec_push_deep_view(pre, acts, ga);
                assert(acts.deep_view() =~= seq![
                    ActionV::FetchListing { artist: pre_pending.deep_view()[0] },
                ]);
                assert forall|i: int| 0 <= i < self.pending_artists.deep_view().len() implies
                    has_artist(
                    catalog.artists_v(),
                    #[trigger] self.pending_artists.deep_view()[i],
                    self.site@,
                ) by {
                    assert(self.pending_artists.deep_view()[i] == pre_pending.deep_view()[i + 1]);
                }
            }
            acts
        }
    }

    /// Flush the rerun batch (when non-empty) and turn to the next artist.
    fn finish_artist_exec(
        &mut self,
        catalog: &Catalog,
        artist: String,
        rerun_batch: Vec<Product>,
    ) -> (acts: Vec<DiscoverAction>)
        requires
            catalog.wf(),
            old(self).artists_ok(catalog),
        ensures
            final(self).site == old(self).site,
            final(self).include_unavailable == old(self).include_unavailable,
            final(self).inv(catalog),
            ({
                let t = finish_artist_spec(
                    artist@,
                    rerun_batch.deep_view(),
                    old(self).pending_artists.deep_view(),
                );
                &&& final(self).phase.deep_view() == t.0
                &&& final(self).pending_artists.deep_view() == t.1
                &&& acts.deep_view() == t.2
            }),
            forall|i: int|
                0 <= i < acts.deep_view().len() ==> !((#[trigger] acts.deep_view()[i])
                    is FetchDetail),
    {
        if rerun_batch.len() > 0 {
            let mut acts: Vec<DiscoverAction> = Vec::new();
            let ghost pre0 = acts;
            let n = DiscoverAction::NotifyReruns { artist, products: rerun_batch };
            let ghost gn = n;
            acts.push(n);
            proof {
                crate::seqs::lemma_vec_push_deep_view(pre0, acts, gn);
            }
            let mut tail = self.advance_exec(catalog);
            let ghost pre1 = acts;
            let ghost gtail = tail;
            acts.append(&mut tail);
            proof {
                crate::seqs::lemma_vec_concat_deep_view(pre1, gtail, acts);
                assert(acts.deep_view() =~= seq![
                    ActionV::NotifyReruns { artist: artist@, products: rerun_batch.deep_view() },
                ] + gtail.deep_view());
            }
            acts
        } else {
            self.advance_exec(catalog)
        }
    }

    /// Work through the came-back queue: ask for its head's detail, or
    /// finish the artist.
    fn comeback_step_exec(
        &mut self,
        catalog: &Catalog,
        artist: String,
        queue: Vec<String>,
        rerun_batch: Vec<Product>,
    ) -> (acts: Vec<DiscoverAction>)
        requires
            catalog.wf(),
            old(self).artists_ok(catalog),
            has_artist(catalog.artists_v(), artist@, old(self).site@),
            queue_comeback_ok(catalog, artist@, queue.deep_view()),
        ensures
            final(self).site == old(self).site,
            final(self).include_unavailable == old(self).include_unavailable,
            final(self).inv(catalog),
            ({
                let t = comeback_step_spec(
                    artist@,
                    queue.deep_view(),
                    rerun_batch.deep_view(),
                    old(self).pending_artists.deep_view(),
                );
                &&& final(self).phase.deep_view() == t.0
                &&& final(self).pending_artists.deep_view() == t.1
                &&& acts.deep_view() == t.2
            }),
            forall|i: int|
                0 <= i < acts.deep_view().len() ==> ((#[trigger] acts.deep_view()[i]) matches
                    ActionV::FetchDetail { artist: a2, url } ==> !has_skip(
                    catalog.skips_v(),
                    url,
                    a2,
                )),
    {
        if queue.len() > 0 {
            let act = DiscoverAction::FetchDetail { artist: artist.clone(), url: queue[0].clone() };
            let ghost gact = act;
            let ghost gqueue = queue.deep_view();
            self.phase = DiscoverPhase::AwaitComebackDetail {
                artist,
                pending_comeback: queue,
                rerun_batch,
            };
            let mut acts: Vec<DiscoverAction> = Vec::new();
            let ghost pre = acts;
            acts.push(act);
            proof {
                crate::seqs::lemma_vec_push_deep_view(pre, acts, gact);
                assert(acts.deep_view() =~= seq![
                    ActionV::FetchDetail { artist: artist@, url: gqueue[0] },
                ]);
            }
            acts
        } else {
            self.finish_artist_exec(catalog, artist, rerun_batch)
        }
    }

    /// Work through the unknown-new queue: ask for its head's detail, or
    /// flush the new batch (when non-empty) and turn to the came-back queue.
    fn new_step_exec(
        &mut self,
        catalog: &Catalog,
        artist: String,
        queue: Vec<String>,
        comeback: Vec<String>,
        new_batch: Vec<Product>,
    ) -> (acts: Vec<DiscoverAction>)
        requires
            catalog.wf(),
            old(self).artists_ok(catalog),
            has_artist(catalog.artists_v(), artist@, old(self).site@),
            queue_new_ok(catalog, artist@, queue.deep_view()),
            queue_comeback_ok(catalog, artist@, comeback.deep_view()),
        ensures
            final(self).site == old(self).site,
            final(self).include_unavailable == old(self).include_unavailable,
            final(self).inv(catalog),
            ({
                let t = new_step_spec(
                    artist@,
                    queue.deep_view(),
                    comeback.deep_view(),
                    new_batch.deep_view(),
                    old(self).pending_artists.deep_view(),
                );
                &&& final(self).phase.deep_view() == t.0
                &&& final(self).pending_artists.deep_view() == t.1
                &&& acts.deep_view() == t.2
            }),
            forall|i: int|
                0 <= i < acts.deep_view().len() ==> ((#[trigger] acts.deep_view()[i]) matches
                    ActionV::FetchDetail { artist: a2, url } ==> !has_skip(
                    catalog.skips_v(),
                    url,
                    a2,
                )),
    {
        if queue.len() > 0 {
            let act = DiscoverAction::FetchDetail { artist: artist.clone(), url: queue[0].clone() };
            let ghost gact = act;
            let ghost gqueue = queue.deep_view();
            self.phase = DiscoverPhase::AwaitNewDetail {
                artist,
                pending_new: queue,
                comeback,
                new_batch,
            };
            let mut acts: Vec<DiscoverAction> = Vec::new();
            let ghost pre = acts;
            acts.push(act);
            proof {
                crate::seqs::lemma_vec_push_deep_view(pre, acts, gact);
                assert(acts.deep_view() =~= seq![
                    ActionV::FetchDetail { artist: artist@, url: gqueue[0] },
                ]);
            }
            acts
        } else {
            if new_batch.len() > 0 {
                let mut acts: Vec<DiscoverAction> = Vec::new();
                let ghost pre0 = acts;
                let ghost gbatch = new_batch.deep_view();
                let n = DiscoverAction::NotifyNew { artist: artist.clone(), products: new_batch };
                let ghost gn = n;
                acts.push(n);
                proof {
                    crate::seqs::lemma_vec_push_deep_view(pre0, acts, gn);
                }
                let empty_batch: Vec<Product> = Vec::new();
                proof {
                    assert(empty_batch.deep_view() =~= Seq::<ProductView>::empty());
                }
                let mut tail = self.comeback_step_exec(catalog, artist, comeback, empty_batch);
                let ghost pre1 = acts;
                let ghost gtail = tail;
                acts.append(&mut tail);
                proof {
                    crate::seqs::lemma_vec_concat_deep_view(pre1, gtail, acts);
                    assert(acts.deep_view() =~= seq![
                        ActionV::NotifyNew { artist: artist@, products: gbatch },
                    ] + gtail.deep_view());
                }
                acts
            } else {
                let empty_batch: Vec<Product> = Vec::new();
                proof {
                    assert(empty_batch.deep_view() =~= Seq::<ProductView>::empty());
                }
                self.comeback_step_exec(catalog, artist, comeback, empty_batch)
            }
        }
    }

    /// One step of the Discover pass: consume the event the previous action
    /// asked for, classify it, write the catalog updates it implies, and
    /// answer with the next actions (notification batches to deliver,
    /// followed by one fetch request, or the end of the pass).
    ///
    /// The returned actions never ask to fetch the detail of a `(url,
    /// artist)` pair that is skip-listed.
    pub fn step(&mut self, catalog: &mut Catalog, event: DiscoverEvent) -> (acts: Vec<
        DiscoverAction,
    >)
        requires
            old(self).inv(old(catalog)),
            old(self).running(),
            old(self).expects(event),
        ensures
            final(self).inv(final(catalog)),
            discover_transition(
                old(self).deep_view(),
                *old(catalog),
                event.deep_view(),
                final(self).deep_view(),
                *final(catalog),
                acts.deep_view(),
            ),
            final(catalog).artists_v() == old(catalog).artists_v(),
            forall|i: int|
                0 <= i < acts.deep_view().len() ==> ((#[trigger] acts.deep_view()[i]) matches
                    ActionV::FetchDetail { artist, url } ==> !final(catalog).spec_is_skipped(
                    url,
                    artist,
                )),
    {
        let mut ph = DiscoverPhase::Starting;
        core::mem::swap(&mut ph, &mut self.phase);
        match (ph, event) {
            (DiscoverPhase::Starting, DiscoverEvent::Start) => {
                let acts = self.advance_exec(catalog);
                acts
            },
            (DiscoverPhase::AwaitListing { artist }, DiscoverEvent::Listing { result }) => {
                match result {
                    Ok(urls) => {
                        let ghost nc = new_candidates(
                            catalog.products_v(),
                            catalog.skips_v(),
                            artist@,
                            urls.deep_view(),
                        );
                        let ghost cb = comeback_candidates(
                            catalog.products_v(),
                            catalog.skips_v(),
                            artist@,
                            self.include_unavailable,
                            urls.deep_view(),
                        );
                        let pair = partition_candidates(
                            catalog,
                            artist.as_str(),
                            self.include_unavailable,
                            &urls,
                        );
                        proof {
                            lemma_new_candidates_props(
                                catalog.products_v(),
                                catalog.skips_v(),
                                artist@,
                                urls.deep_view(),
                            );
                            lemma_comeback_candidates_props(
                                catalog.products_v(),
                                catalog.skips_v(),
                                artist@,
                                self.include_unavailable,
                                urls.deep_view(),
                            );
                        }
                        let empty_b: Vec<Product> = Vec::new();
                        proof {
                            assert(empty_b.deep_view() =~= Seq::<ProductView>::empty());
                        }
                        let acts = self.new_step_exec(catalog, artist, pair.0, pair.1, empty_b);
                        acts
                    },
                    Err(e) => {
                        self.phase = DiscoverPhase::Failed;
                        let mut acts: Vec<DiscoverAction> = Vec::new();
                        let ghost pre = acts;
                        acts.push(DiscoverAction::Failed { error: e });
                        proof {
                            crate::seqs::lemma_vec_push_deep_view(
                                pre,
                                acts,
                                DiscoverAction::Failed { error: e },
                            );
                            assert(acts.deep_view() =~= seq![ActionV::Failed { error: e }]);
                        }
                        acts
                    },
                }
            },
            (
                DiscoverPhase::AwaitNewDetail { artist, mut pending_new, comeback, mut new_batch },
                DiscoverEvent::Detail { result },
            ) => {
                let ghost q0 = pending_new.deep_view();
                let ghost b0 = new_batch.deep_view();
                match result {
                    Ok(p) => {
                        let ghost gp = p@;
                        let ghost pre_pn = pending_new;
                        let url = pending_new.remove(0);
                        proof {
                            crate::seqs::lemma_vec_remove_deep_view(pre_pn, pending_new, 0);
                            assert(pending_new.deep_view() =~= q0.skip(1));
                            assert(url@ == q0[0]);
                        }
                        if contains_string(&p.artists, artist.as_str()) {
                            let copy = p.clone();
                            let ghost gcopy = copy;
                            catalog.store_product(self.site.as_str(), p);
                            let ghost pre_nb = new_batch;
                            new_batch.push(copy);
                            proof {
                                crate::seqs::lemma_vec_push_deep_view(pre_nb, new_batch, gcopy);
                                assert(new_batch.deep_view() =~= b0.push(gp));
                                assert forall|i: int|
                                    0 <= i < pending_new.deep_view().len() implies !has_url(
                                    catalog.products_v(),
                                    #[trigger] pending_new.deep_view()[i],
                                ) && !has_skip(
                                    catalog.skips_v(),
                                    pending_new.deep_view()[i],
                                    artist@,
                                ) by {
                                    assert(pending_new.deep_view()[i] == q0[i + 1]);
                                    assert(q0[i + 1] != q0[0]);
                                    assert(!old(catalog).spec_contains_product(q0[i + 1]));
                                    assert(!catalog.spec_contains_product(q0[i + 1]));
                                    assert(!old(catalog).spec_is_skipped(q0[i + 1], artist@));
                                    assert(!catalog.spec_is_skipped(q0[i + 1], artist@));
                                }
                                assert forall|i: int|
                                    0 <= i < comeback.deep_view().len() implies has_url(
                                    catalog.products_v(),
                                    #[trigger] comeback.deep_view()[i],
                                ) && !has_skip(
                                    catalog.skips_v(),
                                    comeback.deep_view()[i],
                                    artist@,
                                ) by {
                                    assert(old(catalog).spec_contains_product(
                                        comeback.deep_view()[i],
                                    ));
                                    assert(catalog.spec_contains_product(comeback.deep_view()[i]));
                                    assert(!old(catalog).spec_is_skipped(
                                        comeback.deep_view()[i],
                                        artist@,
                                    ));
                                    assert(!catalog.spec_is_skipped(
                                        comeback.deep_view()[i],
                                        artist@,
                                    ));
                                }
                            }
                            let acts = self.new_step_exec(
                                catalog,
                                artist,
                                pending_new,
                                comeback,
                                new_batch,
                            );
                            acts
                        } else {
                            catalog.add_skip(url.as_str(), artist.as_str());
                            proof {
                                assert forall|i: int|
                                    0 <= i < pending_new.deep_view().len() implies !has_url(
                                    catalog.products_v(),
                                    #[trigger] pending_new.deep_view()[i],
                                ) && !has_skip(
                                    catalog.skips_v(),
                                    pending_new.deep_view()[i],
                                    artist@,
                                ) by {
                                    assert(pending_new.deep_view()[i] == q0[i + 1]);
                                    assert(q0[i + 1] != q0[0]);
                                    assert(!old(catalog).spec_is_skipped(q0[i + 1], artist@));
                                    assert(!catalog.spec_is_skipped(q0[i + 1], artist@));
                                }
                                assert forall|i: int|
                                    0 <= i < comeback.deep_view().len() implies has_url(
                                    catalog.products_v(),
                                    #[trigger] comeback.deep_view()[i],
                                ) && !has_skip(
                                    catalog.skips_v(),
                                    comeback.deep_view()[i],
                                    artist@,
                                ) by {
                                    assert(!has_url(catalog.products_v(), q0[0]));
                                    assert(comeback.deep_view()[i] != q0[0]);
                                    assert(!old(catalog).spec_is_skipped(
                                        comeback.deep_view()[i],
                                        artist@,
                                    ));
                                    assert(!catalog.spec_is_skipped(
                                        comeback.deep_view()[i],
                                        artist@,
                                    ));
                                }
                            }
                            let acts = self.new_step_exec(
                                catalog,
                                artist,
                                pending_new,
                                comeback,
                                new_batch,
                            );
                            acts
                        }
                    },
                    Err(e) => {
                        if let SourceError::NotFound = e {
                            let ghost pre_pn = pending_new;
                            let _url = pending_new.remove(0);
                            proof {
                                crate::seqs::lemma_vec_remove_deep_view(pre_pn, pending_new, 0);
                                assert(pending_new.deep_view() =~= q0.skip(1));
                                assert forall|i: int|
                                    0 <= i < pending_new.deep_view().len() implies !has_url(
                                    catalog.products_v(),
                                    #[trigger] pending_new.deep_view()[i],
                                ) && !has_skip(
                                    catalog.skips_v(),
                                    pending_new.deep_view()[i],
                                    artist@,
                                ) by {
                                    assert(pending_new.deep_view()[i] == q0[i + 1]);
                                }
                            }
                            let acts = self.new_step_exec(
                                catalog,
                                artist,
                                pending_new,
                                comeback,
                                new_batch,
                            );
                            acts
                        } else {
                            self.phase = DiscoverPhase::Failed;
                            let mut acts: Vec<DiscoverAction> = Vec::new();
                            let ghost pre = acts;
                            acts.push(DiscoverAction::Failed { error: e });
                            proof {
                                crate::seqs::lemma_vec_push_deep_view(
                                    pre,
                                    acts,
                                    DiscoverAction::Failed { error: e },
                                );
                                assert(acts.deep_view() =~= seq![ActionV::Failed { error: e }]);
                            }
                            acts
                        }
                    },
                }
            },
            (
                DiscoverPhase::AwaitComebackDetail { artist, mut pending_comeback, mut rerun_batch },
                DiscoverEvent::Detail { result },
            ) => {
                let ghost cq0 = pending_comeback.deep_view();
                let ghost rb0 = rerun_batch.deep_view();
                match result {
                    Ok(p) => {
                        let ghost gp = p@;
                        let ghost pre_cq = pending_comeback;
                        let url = pending_comeback.remove(0);
                        proof {
                            crate::seqs::lemma_vec_remove_deep_view(pre_cq, pending_comeback, 0);
                            assert(pending_comeback.deep_view() =~= cq0.skip(1));
                            assert(url@ == cq0[0]);
                        }
                        if p.availability != Availability::NotAvailable {
                            catalog.update_availability(url.as_str(), p.availability);
                            let skip_title = catalog.title_matches_skip_sequence(
                                p.associated_artist.as_str(),
                                self.site.as_str(),
                                p.title.as_str(),
                            );
                            if !skip_title {
                                let ghost pre_rb = rerun_batch;
                                let ghost gpv = p;
                                rerun_batch.push(p);
                                proof {
                                    crate::seqs::lemma_vec_push_deep_view(
                                        pre_rb,
                                        rerun_batch,
                                        gpv,
                                    );
                                    assert(rerun_batch.deep_view() =~= rb0.push(gp));
                                }
                            }
                            proof {
                                assert forall|i: int|
                                    0 <= i < pending_comeback.deep_view().len() implies has_url(
                                    catalog.products_v(),
                                    #[trigger] pending_comeback.deep_view()[i],
                                ) && !has_skip(
                                    catalog.skips_v(),
                                    pending_comeback.deep_view()[i],
                                    artist@,
                                ) by {
                                    assert(pending_comeback.deep_view()[i] == cq0[i + 1]);
                                    assert(old(catalog).spec_contains_product(cq0[i + 1]));
                                    assert(catalog.spec_contains_product(cq0[i + 1]));
                                    assert(!old(catalog).spec_is_skipped(cq0[i + 1], artist@));
                                    assert(!catalog.spec_is_skipped(cq0[i + 1], artist@));
                                }
                            }
                            let acts = self.comeback_step_exec(
                                catalog,
                                artist,
                                pending_comeback,
                                rerun_batch,
                            );
                            acts
                        } else {
                            proof {
                                assert forall|i: int|
                                    0 <= i < pending_comeback.deep_view().len() implies has_url(
                                    catalog.products_v(),
                                    #[trigger] pending_comeback.deep_view()[i],
                                ) && !has_skip(
                                    catalog.skips_v(),
                                    pending_comeback.deep_view()[i],
                                    artist@,
                                ) by {
                                    assert(pending_comeback.deep_view()[i] == cq0[i + 1]);
                                    assert(old(catalog).spec_contains_product(cq0[i + 1]));
                                    assert(catalog.spec_contains_product(cq0[i + 1]));
                                    assert(!old(catalog).spec_is_skipped(cq0[i + 1], artist@));
                                    assert(!catalog.spec_is_skipped(cq0[i + 1], artist@));
                                }
                            }
                            let acts = self.comeback_step_exec(
                                catalog,
                                artist,
                                pending_comeback,
                                rerun_batch,
                            );
                            acts
                        }
                    },
                    Err(e) => {
                        if let SourceError::NotFound = e {
                            let ghost pre_cq = pending_comeback;
                            let url = pending_comeback.remove(0);
                            proof {
                                crate::seqs::lemma_vec_remove_deep_view(
                                    pre_cq,
                                    pending_comeback,
                                    0,
                                );
                                assert(pending_comeback.deep_view() =~= cq0.skip(1));
                                assert(url@ == cq0[0]);
                            }
                            catalog.update_availability(url.as_str(), Availability::Deleted);
                            proof {
                                assert forall|i: int|
                                    0 <= i < pending_comeback.deep_view().len() implies has_url(
                                    catalog.products_v(),
                                    #[trigger] pending_comeback.deep_view()[i],
                                ) && !has_skip(
                                    catalog.skips_v(),
                                    pending_comeback.deep_view()[i],
                                    artist@,
                                ) by {
                                    assert(pending_comeback.deep_view()[i] == cq0[i + 1]);
                                    assert(old(catalog).spec_contains_product(cq0[i + 1]));
                                    assert(catalog.spec_contains_product(cq0[i + 1]));
                                    assert(!old(catalog).spec_is_skipped(cq0[i + 1], artist@));
                                    assert(!catalog.spec_is_skipped(cq0[i + 1], artist@));
                                }
                            }
                            let acts = self.comeback_step_exec(
                                catalog,
                                artist,
                                pending_comeback,
                                rerun_batch,
                            );
                            acts
                        } else {
                            self.phase = DiscoverPhase::Failed;
                            let mut acts: Vec<DiscoverAction> = Vec::new();
                            let ghost pre = acts;
                            acts.push(DiscoverAction::Failed { error: e });
                            proof {
                                crate::seqs::lemma_vec_push_deep_view(
                                    pre,
                                    acts,
                                    DiscoverAction::Failed { error: e },
                                );
                                assert(acts.deep_view() =~= seq![ActionV::Failed { error: e }]);
                            }
                            acts
                        }
                    },
                }
            },
            _ => {
                proof {
                    assert(false);
                }
                Vec::new()
            },
        }
    }
}

// ---------------------------------------------------------------------------
// Refresh pass
// ---------------------------------------------------------------------------

/// What the caller feeds into a Refresh step.
#[derive(Debug)]
pub enum RefreshEvent {
    Start,
    Detail { result: Result<Product, SourceError> },
}

/// What a Refresh step asks the caller to do next.
#[derive(Debug)]
pub enum RefreshAction {
    FetchDetail { artist: String, url: String },
    Done,
    Failed { error: SourceError },
}

/// Where a Refresh pass stands.
#[derive(Clone, Copy, Debug, PartialEq, Eq, Structural)]
pub enum RefreshPhase {
    Starting,
    AwaitDetail,
    Done,
    Failed,
}

/// A Refresh pass over one site: re-check the availability of every stored
/// product whose current state is states, newest first.
#[derive(Debug)]
pub struct RefreshPass {
    pub site: String,
    pub pending: Vec<Product>,
    pub processed: u64,
    pub retried: bool,
    pub phase: RefreshPhase,
}

/// Mathematical model of a [`RefreshEvent`].
pub enum REventV {
    Start,
    Detail { result: Result<ProductView, SourceError> },
}

impl DeepView for RefreshEvent {
    type V = REventV;

    open spec fn deep_view(&self) -> REventV {
        match self {
            RefreshEvent::Start => REventV::Start,
            RefreshEvent::Detail { result } => REventV::Detail {
                result: match result {
                    Ok(p) => Ok(p@),
                    Err(e) => Err(*e),
                },
            },
        }
    }
}

/// Mathematical model of a [`RefreshAction`].
pub enum RActionV {
    FetchDetail { artist: Seq<char>, url: Seq<char> },
    Done,
    Failed { error: SourceError },
}

impl DeepView for RefreshAction {
    type V = RActionV;

    open spec fn deep_view(&self) -> RActionV {
        match self {
            RefreshAction::FetchDetail { artist, url } => RActionV::FetchDetail {
                artist: artist@,
                url: url@,
            },
            RefreshAction::Done => RActionV::Done,
            RefreshAction::Failed { error } => RActionV::Failed { error: *error },
        }
    }
}

/// The products a Refresh pass visits: those whose persisted availability is
/// in the states set, in the repository's order.
pub open spec fn tracked_products(list: Seq<ProductView>, states: Seq<Availability>) -> Seq<
    ProductView,
> {
    list.filter(|p: ProductView| states.contains(p.availability))
}

/// Ask for the next pending product's detail, or end the pass.
pub open spec fn refresh_next(pending: Seq<ProductView>) -> (RefreshPhase, RActionV) {
    if pending.len() == 0 {
        (RefreshPhase::Done, RActionV::Done)
    } else {
        (
            RefreshPhase::AwaitDetail,
            RActionV::FetchDetail { artist: pending[0].associated_artist, url: pending[0].url },
        )
    }
}

/// The complete transition relation of one Refresh step. A successful fetch
/// or the not-found signal settles the head product (overwriting its
/// availability, `Deleted` for not-found) and moves on. A timeout is retried
/// exactly once, immediately, without touching the catalog; a second timeout,
/// or a parse error, aborts the pass with nothing written for that product.
pub open spec fn refresh_transition(
    pre: RefreshPass,
    c0: Catalog,
    ev: REventV,
    post: RefreshPass,
    c1: Catalog,
    act: RActionV,
) -> bool {
    &&& post.site@ == pre.site@
    &&& match (pre.phase, ev) {
        (RefreshPhase::Starting, REventV::Start) => {
            let t = refresh_next(pre.pending.deep_view());
            &&& cat_unchanged(c0, c1)
            &&& post.pending.deep_view() == pre.pending.deep_view()
            &&& post.processed == pre.processed
            &&& post.phase == t.0
            &&& act == t.1
        },
        (RefreshPhase::AwaitDetail, REventV::Detail { result }) => match result {
            Ok(p) => {
                let t = refresh_next(pre.pending.deep_view().skip(1));
                &&& cat_products_set(
                    c0,
                    c1,
                    products_after_update(
                        c0.products_v(),
                        pre.pending.deep_view()[0].url,
                        p.availability,
                    ),
                )
                &&& post.pending.deep_view() == pre.pending.deep_view().skip(1)
                &&& post.processed == pre.processed + 1
                &&& post.retried == false
                &&& post.phase == t.0
                &&& act == t.1
            },
            Err(SourceError::NotFound) => {
                let t = refresh_next(pre.pending.deep_view().skip(1));
                &&& cat_products_set(
                    c0,
                    c1,
                    products_after_update(
                        c0.products_v(),
                        pre.pending.deep_view()[0].url,
                        Availability::Deleted,
                    ),
                )
                &&& post.pending.deep_view() == pre.pending.deep_view().skip(1)
                &&& post.processed == pre.processed + 1
                &&& post.retried == false
                &&& post.phase == t.0
                &&& act == t.1
            },
            Err(SourceError::Timeout) => {
                if !pre.retried {
                    &&& cat_unchanged(c0, c1)
                    &&& post.pending.deep_view() == pre.pending.deep_view()
                    &&& post.processed == pre.processed
                    &&& post.retried == true
                    &&& post.phase == RefreshPhase::AwaitDetail
                    &&& act == (RActionV::FetchDetail {
                        artist: pre.pending.deep_view()[0].associated_artist,
                        url: pre.pending.deep_view()[0].url,
                    })
                } else {
                    &&& cat_unchanged(c0, c1)
                    &&& post.pending.deep_view() == pre.pending.deep_view()
                    &&& post.processed == pre.processed
                    &&& post.phase == RefreshPhase::Failed
                    &&& act == (RActionV::Failed { error: SourceError::Timeout })
                }
            },
            Err(SourceError::ParseError) => {
                &&& cat_unchanged(c0, c1)
                &&& post.pending.deep_view() == pre.pending.deep_view()
                &&& post.processed == pre.processed
                &&& post.phase == RefreshPhase::Failed
                &&& act == (RActionV::Failed { error: SourceError::ParseError })
            },
        },
        _ => false,
    }
}

impl RefreshPass {
    /// The pending products are stored, have distinct urls, and none of
    /// them is `Deleted` — so the pass, which only ever rewrites pending
    /// heads, can never move a product out of `Deleted`.
    pub open spec fn pending_ok(&self, catalog: &Catalog) -> bool {
        &&& forall|i: int|
            0 <= i < self.pending.deep_view().len() ==> has_url(
                catalog.products_v(),
                (#[trigger] self.pending.deep_view()[i]).url,
            ) && !deleted_at(catalog.products_v(), self.pending.deep_view()[i].url)
        &&& forall|i: int, j: int|
            0 <= i < j < self.pending.deep_view().len()
                ==> (#[trigger] self.pending.deep_view()[i]).url
                != (#[trigger] self.pending.deep_view()[j]).url
        &&& self.processed as int + self.pending.deep_view().len() <= u64::MAX as int
    }

    /// The pass invariant.
    pub open spec fn inv(&self, catalog: &Catalog) -> bool {
        &&& catalog.wf()
        &&& self.pending_ok(catalog)
        &&& (self.phase == RefreshPhase::AwaitDetail ==> self.pending.deep_view().len() > 0)
    }

    /// The pass still accepts events.
    pub open spec fn running(&self) -> bool {
        self.phase != RefreshPhase::Done && self.phase != RefreshPhase::Failed
    }

    /// The event fits the phase. A successful fetch carries the product of
    /// the requested url, attributed to the queried artist; a source never
    /// reports `Deleted`.
    pub open spec fn expects(&self, event: RefreshEvent) -> bool {
        match (self.phase, event.deep_view()) {
            (RefreshPhase::Starting, REventV::Start) => true,
            (RefreshPhase::AwaitDetail, REventV::Detail { result }) => match result {
                Ok(p) => p.url == self.pending.deep_view()[0].url && p.associated_artist
                    == self.pending.deep_view()[0].associated_artist && p.availability
                    != Availability::Deleted,
                Err(_) => true,
            },
            _ => false,
        }
    }

    /// Start a Refresh pass over `site`, restricted to the products whose
    /// persisted availability is in `states` — the live states, never
    /// `Deleted`: a deleted product is terminal and is never re-checked.
    pub fn new(catalog: &Catalog, site: &str, states: &Vec<Availability>) -> (r: RefreshPass)
        requires
            catalog.wf(),
            !states@.contains(Availability::Deleted),
        ensures
            r.inv(catalog),
            r.running(),
            r.phase == RefreshPhase::Starting,
            r.site@ == site@,
            r.processed == 0,
            r.retried == false,
            r.pending.deep_view() == tracked_products(
                products_of_site(catalog.products_v(), site@),
                states@,
            ),
    {
        let prods = catalog.get_products(site);
        let ghost all = prods.deep_view();
        let ghost pred = |p: ProductView| states@.contains(p.availability);
        let mut pending: Vec<Product> = Vec::new();
        let mut i: usize = 0;
        proof {
            crate::seqs::lemma_filter_take_zero(all, pred);
            assert(pending.deep_view() =~= all.take(0).filter(pred));
        }
        while i < prods.len()
            invariant
                0 <= i <= prods@.len(),
                all == prods.deep_view(),
                pending.deep_view() == all.take(i as int).filter(pred),
                pred == (|p: ProductView| states@.contains(p.availability)),
            decreases prods@.len() - i,
        {
            proof {
                crate::seqs::lemma_filter_take_step(all, pred, i as int);
            }
            if contains_availability(states, &prods[i].availability) {
                let ghost pre = pending;
                let x = prods[i].clone();
                let ghost gx = x;
                pending.push(x);
                proof {
                    crate::seqs::lemma_vec_push_deep_view(pre, pending, gx);
                    assert(pending.deep_view() =~= all.take(i + 1).filter(pred));
                }
            } else {
                proof {
                    assert(pending.deep_view() =~= all.take(i + 1).filter(pred));
                }
            }
            i = i + 1;
        }
        proof {
            crate::seqs::lemma_take_full(all);
        }
        let r = RefreshPass {
            site: site.to_owned(),
            pending,
            processed: 0,
            retried: false,
            phase: RefreshPhase::Starting,
        };
        proof {
            let ps = catalog.products_v();
            let site_pred = |sp: StoredProductView| sp.site == site@;
            let f = ps.filter(site_pred);
            crate::seqs::lemma_filter_subset(ps, site_pred);
            crate::seqs::lemma_filter_membership(ps, site_pred);
            crate::seqs::lemma_filter_pairwise(
                ps,
                site_pred,
                |a: StoredProductView, b: StoredProductView| a.product.url != b.product.url,
            );
            crate::seqs::lemma_filter_subset(all, pred);
            crate::seqs::lemma_filter_membership(all, pred);
            assert(all == products_of_site(ps, site@));
            assert(forall|m: int| 0 <= m < all.len() ==> #[trigger] all[m] == f[m].product);
            crate::seqs::lemma_filter_pairwise(
                all,
                pred,
                |a: ProductView, b: ProductView| a.url != b.url,
            );
            assert forall|m: int, n: int| 0 <= m < n < all.len() implies (#[trigger] all[m]).url
                != (#[trigger] all[n]).url by {
                assert(all[m] == f[m].product && all[n] == f[n].product);
            }
            assert forall|m: int| 0 <= m < r.pending.deep_view().len() implies has_url(
                ps,
                (#[trigger] r.pending.deep_view()[m]).url,
            ) && !deleted_at(ps, r.pending.deep_view()[m].url) by {
                let pv = r.pending.deep_view()[m];
                assert(all.contains(pv));
                let a = choose|a: int| 0 <= a < all.len() && all[a] == pv;
                assert(all[a] == f[a].product);
                assert(f.contains(f[a]));
                let b = choose|b: int| 0 <= b < ps.len() && ps[b] == f[a];
                assert(ps[b].product.url == pv.url);
                assert(pred(pv));
                assert(pv.availability != Availability::Deleted);
                if deleted_at(ps, pv.url) {
                    let c = choose|c: int|
                        0 <= c < ps.len() && ps[c].product.url == pv.url
                            && ps[c].product.availability == Availability::Deleted;
                    assert(c == b);
                }
            }
        }
        r
    }

    /// Ask for the head pending product, or end the pass.
    fn next_fetch(&mut self, catalog: &Catalog) -> (act: RefreshAction)
        requires
            catalog.wf(),
            old(self).pending_ok(catalog),
        ensures
            final(self).inv(catalog),
            final(self).site == old(self).site,
            final(self).pending == old(self).pending,
            final(self).processed == old(self).processed,
            final(self).retried == old(self).retried,
            ({
                let t = refresh_next(old(self).pending.deep_view());
                final(self).phase == t.0 && act.deep_view() == t.1
            }),
    {
        if self.pending.len() == 0 {
            self.phase = RefreshPhase::Done;
            RefreshAction::Done
        } else {
            self.phase = RefreshPhase::AwaitDetail;
            let act = RefreshAction::FetchDetail {
                artist: self.pending[0].associated_artist.clone(),
                url: self.pending[0].url.clone(),
            };
            proof {
                assert(self.pending.deep_view()[0] == self.pending@[0]@);
            }
            act
        }
    }

    /// One step of the Refresh pass: consume the fetch outcome, settle the
    /// head product, and ask for the next fetch — or retry a first timeout,
    /// or abort.
    ///
    /// A product whose persisted availability is `Deleted` is never selected
    /// and never touched: whatever was `Deleted` before the step is still
    /// `Deleted` after it.
    pub fn step(&mut self, catalog: &mut Catalog, event: RefreshEvent) -> (act: RefreshAction)
        requires
            old(self).inv(old(catalog)),
            old(self).running(),
            old(self).expects(event),
        ensures
            final(self).inv(final(catalog)),
            refresh_transition(
                *old(self),
                *old(catalog),
                event.deep_view(),
                *final(self),
                *final(catalog),
                act.deep_view(),
            ),
            final(catalog).artists_v() == old(catalog).artists_v(),
            final(catalog).skips_v() == old(catalog).skips_v(),
            final(catalog).title_skips_v() == old(catalog).title_skips_v(),
            forall|u: Seq<char>|
                deleted_at(old(catalog).products_v(), u) ==> deleted_at(
                    final(catalog).products_v(),
                    u,
                ),
    {
        match (self.phase, event) {
            (RefreshPhase::Starting, RefreshEvent::Start) => {
                let act = self.next_fetch(catalog);
                act
            },
            (RefreshPhase::AwaitDetail, RefreshEvent::Detail { result }) => {
                match result {
                    Ok(p) => {
                        let ghost pen0 = self.pending.deep_view();
                        let ghost pre_p = self.pending;
                        let head = self.pending.remove(0);
                        proof {
                            crate::seqs::lemma_vec_remove_deep_view(pre_p, self.pending, 0);
                            assert(self.pending.deep_view() =~= pen0.skip(1));
                            assert(head@ == pen0[0]);
                        }
                        catalog.update_availability(head.url.as_str(), p.availability);
                        self.processed = self.processed + 1;
                        self.retried = false;
                        proof {
                            self.settle_preserves(catalog, old(catalog), pen0, p@.availability);
                        }
                        let act = self.next_fetch(catalog);
                        act
                    },
                    Err(e) => {
                        if let SourceError::NotFound = e {
                            let ghost pen0 = self.pending.deep_view();
                            let ghost pre_p = self.pending;
                            let head = self.pending.remove(0);
                            proof {
                                crate::seqs::lemma_vec_remove_deep_view(pre_p, self.pending, 0);
                                assert(self.pending.deep_view() =~= pen0.skip(1));
                                assert(head@ == pen0[0]);
                            }
                            catalog.update_availability(head.url.as_str(), Availability::Deleted);
                            self.processed = self.processed + 1;
                            self.retried = false;
                            proof {
                                self.settle_preserves(
                                    catalog,
                                    old(catalog),
                                    pen0,
                                    Availability::Deleted,
                                );
                            }
                            let act = self.next_fetch(catalog);
                            act
                        } else if let SourceError::Timeout = e {
                            if !self.retried {
                                self.retried = true;
                                self.phase = RefreshPhase::AwaitDetail;
                                let act = RefreshAction::FetchDetail {
                                    artist: self.pending[0].associated_artist.clone(),
                                    url: self.pending[0].url.clone(),
                                };
                                proof {
                                    assert(self.pending.deep_view()[0] == self.pending@[0]@);
                                }
                                act
                            } else {
                                self.phase = RefreshPhase::Failed;
                                RefreshAction::Failed { error: e }
                            }
                        } else {
                            self.phase = RefreshPhase::Failed;
                            RefreshAction::Failed { error: e }
                        }
                    },
                }
            },
            _ => {
                proof {
                    assert(false);
                }
                RefreshAction::Done
            },
        }
    }

    /// After settling the head product (whose persisted state was not
    /// `Deleted`), the remaining pending products are still stored, still
    /// not `Deleted`, and everything `Deleted` before stays `Deleted`.
    proof fn settle_preserves(
        &self,
        catalog: &Catalog,
        c0: &Catalog,
        pen0: Seq<ProductView>,
        availability: Availability,
    )
        requires
            pen0.len() > 0,
            c0.wf(),
            forall|i: int|
                0 <= i < pen0.len() ==> has_url(c0.products_v(), (#[trigger] pen0[i]).url)
                    && !deleted_at(c0.products_v(), pen0[i].url),
            forall|i: int, j: int|
                0 <= i < j < pen0.len() ==> (#[trigger] pen0[i]).url != (#[trigger] pen0[j]).url,
            self.pending.deep_view() == pen0.skip(1),
            catalog.artists_v() == c0.artists_v(),
            catalog.skips_v() == c0.skips_v(),
            catalog.title_skips_v() == c0.title_skips_v(),
            forall|u: Seq<char>|
                catalog.spec_contains_product(u) <==> c0.spec_contains_product(u),
            forall|u: Seq<char>|
                u != pen0[0].url ==> (deleted_at(catalog.products_v(), u) <==> deleted_at(
                    c0.products_v(),
                    u,
                )),
            c0.spec_contains_product(pen0[0].url) ==> (deleted_at(
                catalog.products_v(),
                pen0[0].url,
            ) <==> availability == Availability::Deleted),
        ensures
            forall|i: int|
                0 <= i < self.pending.deep_view().len() ==> has_url(
                    catalog.products_v(),
                    (#[trigger] self.pending.deep_view()[i]).url,
                ) && !deleted_at(catalog.products_v(), self.pending.deep_view()[i].url),
            forall|i: int, j: int|
                0 <= i < j < self.pending.deep_view().len()
                    ==> (#[trigger] self.pending.deep_view()[i]).url
                    != (#[trigger] self.pending.deep_view()[j]).url,
            forall|u: Seq<char>|
                deleted_at(c0.products_v(), u) ==> deleted_at(catalog.products_v(), u),
    {
        assert forall|i: int| 0 <= i < self.pending.deep_view().len() implies has_url(
            catalog.products_v(),
            (#[trigger] self.pending.deep_view()[i]).url,
        ) && !deleted_at(catalog.products_v(), self.pending.deep_view()[i].url) by {
            assert(self.pending.deep_view()[i] == pen0[i + 1]);
            assert(pen0[i + 1].url != pen0[0].url);
            assert(c0.spec_contains_product(pen0[i + 1].url));
            assert(catalog.spec_contains_product(pen0[i + 1].url));
        }
        assert forall|i: int, j: int| 0 <= i < j < self.pending.deep_view().len() implies (
        #[trigger] self.pending.deep_view()[i]).url != (#[trigger] self.pending.deep_view()[j]).url
            by {
            assert(self.pending.deep_view()[i] == pen0[i + 1]);
            assert(self.pending.deep_view()[j] == pen0[j + 1]);
        }
        assert forall|u: Seq<char>| deleted_at(c0.products_v(), u) implies deleted_at(
            catalog.products_v(),
            u,
        ) by {
            assert(!deleted_at(c0.products_v(), pen0[0].url));
        }
    }
}

/// Deleted is terminal for Refresh: a pass over live states never selects a
/// product whose persisted availability is `Deleted`, so it never asks to
/// fetch it and never rewrites it.
pub proof fn lemma_refresh_never_selects_deleted(pass: RefreshPass, catalog: &Catalog, u: Seq<char>)
    requires
        pass.inv(catalog),
        deleted_at(catalog.products_v(), u),
    ensures
        forall|i: int|
            0 <= i < pass.pending.deep_view().len() ==> (#[trigger] pass.pending.deep_view()[i]).url
                != u,
{
}

/// Does `v` hold this availability?
fn contains_availability(v: &Vec<Availability>, a: &Availability) -> (r: bool)
    ensures
        r == v@.contains(*a),
{
    let mut j: usize = 0;
    while j < v.len()
        invariant
            0 <= j <= v@.len(),
            forall|k: int| 0 <= k < j ==> v@[k] != *a,
        decreases v@.len() - j,
    {
        if v[j] == *a {
            proof {
                assert(v@[j as int] == *a);
            }
            return true;
        }
        j = j + 1;
    }
    proof {
        if v@.contains(*a) {
            let k = choose|k: int| 0 <= k < v@.len() && v@[k] == *a;
        }
    }
    false
}

} // verus!

