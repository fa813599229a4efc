//! Pass-level tests: Discover and Refresh state machines driven with
//! concrete fetch outcomes.

use melonbooks_sync::add_artist;
use melonbooks_sync::catalog::Catalog;
use melonbooks_sync::engine::{
    DiscoverAction, DiscoverEvent, DiscoverPass, RefreshAction, RefreshEvent, RefreshPass,
};
use melonbooks_sync::model::{Availability, Date, Product, SourceError};
use melonbooks_sync::tracked_types;

fn product(url: &str, title: &str, artist: &str, credited: Vec<&str>, a: Availability) -> Product {
    Product::new(
        url.to_string(),
        title.to_string(),
        artist.to_string(),
        credited.into_iter().map(|s| s.to_string()).collect(),
        format!("img-{}", url),
        Date::new(2023, 1, 15),
        a,
    )
}

fn fetch_listing_artist(act: &DiscoverAction) -> &str {
    match act {
        DiscoverAction::FetchListing { artist } => artist.as_str(),
        other => panic!("expected a listing fetch, got {:?}", other),
    }
}

fn fetch_detail_url(act: &DiscoverAction) -> &str {
    match act {
        DiscoverAction::FetchDetail { url, .. } => url.as_str(),
        other => panic!("expected a detail fetch, got {:?}", other),
    }
}

#[test]
fn scenario_mafuyu_two_candidates() {
    // artist "mafuyu" has zero persisted products; the listing yields A and
    // B; A is credited to mafuyu and persisted, B is credited to someone
    // else and skip-listed; the new-batch is [A], notified exactly once.
    let mut db = Catalog::new();
    add_artist(&mut db, "mafuyu", "melonbooks");
    let mut pass = DiscoverPass::new(&db, "melonbooks", false);

    let acts = pass.step(&mut db, DiscoverEvent::Start);
    assert_eq!(acts.len(), 1);
    assert_eq!(fetch_listing_artist(&acts[0]), "mafuyu");

    let acts = pass.step(
        &mut db,
        DiscoverEvent::Listing { result: Ok(vec!["urlA".to_string(), "urlB".to_string()]) },
    );
    assert_eq!(acts.len(), 1);
    assert_eq!(fetch_detail_url(&acts[0]), "urlA");

    let prod_a = product("urlA", "workA", "mafuyu", vec!["mafuyu"], Availability::Available);
    let acts = pass.step(&mut db, DiscoverEvent::Detail { result: Ok(prod_a.clone()) });
    assert_eq!(acts.len(), 1);
    assert_eq!(fetch_detail_url(&acts[0]), "urlB");

    let prod_b = product("urlB", "workB", "mafuyu", vec!["other"], Availability::Available);
    let acts = pass.step(&mut db, DiscoverEvent::Detail { result: Ok(prod_b) });
    assert_eq!(acts.len(), 2);
    match &acts[0] {
        DiscoverAction::NotifyNew { artist, products } => {
            assert_eq!(artist, "mafuyu");
            assert_eq!(products.len(), 1);
            assert_eq!(products[0], prod_a);
        },
        other => panic!("expected the new-batch notification, got {:?}", other),
    }
    assert!(matches!(acts[1], DiscoverAction::Done));

    assert!(db.contains_product("urlA"));
    assert!(!db.contains_product("urlB"));
    assert!(db.is_skipped("urlB", "mafuyu"));
    assert!(!db.is_skipped("urlA", "mafuyu"));
}

#[test]
fn discover_twice_is_idempotent() {
    // a second Discover over an unchanged listing fetches nothing, stores
    // nothing and writes no second skip record
    let mut db = Catalog::new();
    add_artist(&mut db, "mafuyu", "melonbooks");

    let listing = vec!["urlA".to_string(), "urlB".to_string()];
    let mut pass = DiscoverPass::new(&db, "melonbooks", false);
    pass.step(&mut db, DiscoverEvent::Start);
    pass.step(&mut db, DiscoverEvent::Listing { result: Ok(listing.clone()) });
    let prod_a = product("urlA", "workA", "mafuyu", vec!["mafuyu"], Availability::Available);
    pass.step(&mut db, DiscoverEvent::Detail { result: Ok(prod_a) });
    let prod_b = product("urlB", "workB", "mafuyu", vec!["other"], Availability::Available);
    pass.step(&mut db, DiscoverEvent::Detail { result: Ok(prod_b) });

    let products_before = db.get_products("melonbooks").len();
    assert_eq!(products_before, 1);

    // second run, same remote state
    let mut pass = DiscoverPass::new(&db, "melonbooks", false);
    let acts = pass.step(&mut db, DiscoverEvent::Start);
    assert_eq!(fetch_listing_artist(&acts[0]), "mafuyu");
    let acts = pass.step(&mut db, DiscoverEvent::Listing { result: Ok(listing) });
    // urlA is stored and available, urlB is skip-listed: no fetch at all
    assert_eq!(acts.len(), 1);
    assert!(matches!(acts[0], DiscoverAction::Done));
    assert_eq!(db.get_products("melonbooks").len(), 1);
    assert!(db.is_skipped("urlB", "mafuyu"));
}

#[test]
fn duplicate_listing_entries_fetched_once() {
    let mut db = Catalog::new();
    add_artist(&mut db, "mafuyu", "melonbooks");
    let mut pass = DiscoverPass::new(&db, "melonbooks", false);
    pass.step(&mut db, DiscoverEvent::Start);
    let acts = pass.step(
        &mut db,
        DiscoverEvent::Listing {
            result: Ok(vec!["urlA".to_string(), "urlA".to_string(), "urlA".to_string()]),
        },
    );
    assert_eq!(acts.len(), 1);
    assert_eq!(fetch_detail_url(&acts[0]), "urlA");
    let prod_a = product("urlA", "workA", "mafuyu", vec!["mafuyu"], Availability::Available);
    let acts = pass.step(&mut db, DiscoverEvent::Detail { result: Ok(prod_a) });
    // one store, one notification, done: the duplicates were dropped
    assert_eq!(acts.len(), 2);
    assert!(matches!(acts[0], DiscoverAction::NotifyNew { .. }));
    assert!(matches!(acts[1], DiscoverAction::Done));
    assert_eq!(db.get_products("melonbooks").len(), 1);
}

#[test]
fn rerun_detected_and_notified() {
    // a product persisted as NotAvailable is re-checked when the listing
    // excludes inactive items; the source now reports Available: one rerun
    // entry is produced and the availability is updated
    let mut db = Catalog::new();
    add_artist(&mut db, "mafuyu", "melonbooks");
    db.store_products(
        "melonbooks",
        &vec![product("urlR", "restocked", "mafuyu", vec!["mafuyu"], Availability::NotAvailable)],
    );

    let mut pass = DiscoverPass::new(&db, "melonbooks", false);
    pass.step(&mut db, DiscoverEvent::Start);
    let acts =
        pass.step(&mut db, DiscoverEvent::Listing { result: Ok(vec!["urlR".to_string()]) });
    assert_eq!(acts.len(), 1);
    assert_eq!(fetch_detail_url(&acts[0]), "urlR");

    let fresh = product("urlR", "restocked", "mafuyu", vec!["mafuyu"], Availability::Available);
    let acts = pass.step(&mut db, DiscoverEvent::Detail { result: Ok(fresh.clone()) });
    assert_eq!(acts.len(), 2);
    match &acts[0] {
        DiscoverAction::NotifyReruns { artist, products } => {
            assert_eq!(artist, "mafuyu");
            assert_eq!(products.len(), 1);
            assert_eq!(products[0], fresh);
        },
        other => panic!("expected the rerun notification, got {:?}", other),
    }
    assert!(matches!(acts[1], DiscoverAction::Done));
    assert!(!db.is_unavailable("urlR"));
}

#[test]
fn rerun_with_title_filter_updates_silently() {
    // the availability is updated, but a matching title filter suppresses
    // the notification entry
    let mut db = Catalog::new();
    add_artist(&mut db, "mafuyu", "melonbooks");
    db.add_title_skip("mafuyu", "melonbooks", "badge");
    db.store_products(
        "melonbooks",
        &vec![product(
            "urlR",
            "mafuyu badge reissue",
            "mafuyu",
            vec!["mafuyu"],
            Availability::NotAvailable,
        )],
    );

    let mut pass = DiscoverPass::new(&db, "melonbooks", false);
    pass.step(&mut db, DiscoverEvent::Start);
    pass.step(&mut db, DiscoverEvent::Listing { result: Ok(vec!["urlR".to_string()]) });
    let fresh = product(
        "urlR",
        "mafuyu badge reissue",
        "mafuyu",
        vec!["mafuyu"],
        Availability::Available,
    );
    let acts = pass.step(&mut db, DiscoverEvent::Detail { result: Ok(fresh) });
    // updated, but no notification at all
    assert_eq!(acts.len(), 1);
    assert!(matches!(acts[0], DiscoverAction::Done));
    assert!(!db.is_unavailable("urlR"));
}

#[test]
fn rerun_not_checked_when_listing_includes_unavailable() {
    // with include_unavailable, the listing already shows inactive items:
    // known urls are not re-checked
    let mut db = Catalog::new();
    add_artist(&mut db, "mafuyu", "melonbooks");
    db.store_products(
        "melonbooks",
        &vec![product("urlR", "restocked", "mafuyu", vec!["mafuyu"], Availability::NotAvailable)],
    );
    let mut pass = DiscoverPass::new(&db, "melonbooks", true);
    pass.step(&mut db, DiscoverEvent::Start);
    let acts =
        pass.step(&mut db, DiscoverEvent::Listing { result: Ok(vec!["urlR".to_string()]) });
    assert_eq!(acts.len(), 1);
    assert!(matches!(acts[0], DiscoverAction::Done));
    assert!(db.is_unavailable("urlR"));
}

#[test]
fn discover_listing_failure_aborts() {
    let mut db = Catalog::new();
    add_artist(&mut db, "mafuyu", "melonbooks");
    let mut pass = DiscoverPass::new(&db, "melonbooks", false);
    pass.step(&mut db, DiscoverEvent::Start);
    let acts = pass.step(
        &mut db,
        DiscoverEvent::Listing { result: Err(SourceError::ParseError) },
    );
    assert_eq!(acts.len(), 1);
    assert!(matches!(acts[0], DiscoverAction::Failed { error: SourceError::ParseError }));
}

#[test]
fn discover_detail_timeout_aborts() {
    let mut db = Catalog::new();
    add_artist(&mut db, "mafuyu", "melonbooks");
    let mut pass = DiscoverPass::new(&db, "melonbooks", false);
    pass.step(&mut db, DiscoverEvent::Start);
    pass.step(&mut db, DiscoverEvent::Listing { result: Ok(vec!["urlA".to_string()]) });
    let acts = pass.step(
        &mut db,
        DiscoverEvent::Detail { result: Err(SourceError::Timeout) },
    );
    assert_eq!(acts.len(), 1);
    assert!(matches!(acts[0], DiscoverAction::Failed { error: SourceError::Timeout }));
    assert!(!db.contains_product("urlA"));
}

#[test]
fn discover_vanished_candidate_is_dropped() {
    // a not-found during Discover's new-candidate fetch is not an error:
    // the candidate is dropped and nothing is written for it
    let mut db = Catalog::new();
    add_artist(&mut db, "mafuyu", "melonbooks");
    let mut pass = DiscoverPass::new(&db, "melonbooks", false);
    pass.step(&mut db, DiscoverEvent::Start);
    pass.step(&mut db, DiscoverEvent::Listing { result: Ok(vec!["urlA".to_string()]) });
    let acts = pass.step(
        &mut db,
        DiscoverEvent::Detail { result: Err(SourceError::NotFound) },
    );
    assert_eq!(acts.len(), 1);
    assert!(matches!(acts[0], DiscoverAction::Done));
    assert!(!db.contains_product("urlA"));
    assert!(!db.is_skipped("urlA", "mafuyu"));
}

#[test]
fn refresh_updates_and_deletes() {
    let mut db = Catalog::new();
    add_artist(&mut db, "mafuyu", "melonbooks");
    db.store_products(
        "melonbooks",
        &vec![
            product("url1", "one", "mafuyu", vec!["mafuyu"], Availability::Available),
            product("url2", "two", "mafuyu", vec!["mafuyu"], Availability::Preorder),
        ],
    );
    let mut pass = RefreshPass::new(&db, "melonbooks", &tracked_types());
    let act = pass.step(&mut db, RefreshEvent::Start);
    let first_url = match &act {
        RefreshAction::FetchDetail { url, .. } => url.clone(),
        other => panic!("expected a detail fetch, got {:?}", other),
    };
    // the first product went out of stock
    let fetched = product(
        first_url.as_str(),
        "one",
        "mafuyu",
        vec!["mafuyu"],
        Availability::NotAvailable,
    );
    let act = pass.step(&mut db, RefreshEvent::Detail { result: Ok(fetched) });
    assert!(db.is_unavailable(first_url.as_str()));
    // the second is gone entirely
    match &act {
        RefreshAction::FetchDetail { url, .. } => {
            let second = url.clone();
            let act =
                pass.step(&mut db, RefreshEvent::Detail { result: Err(SourceError::NotFound) });
            assert!(matches!(act, RefreshAction::Done));
            assert!(db.is_unavailable(second.as_str()));
        },
        other => panic!("expected a second detail fetch, got {:?}", other),
    }
    assert_eq!(pass.processed, 2);
}

#[test]
fn refresh_retries_timeout_once_then_aborts() {
    // one timeout triggers exactly one immediate retry; a second timeout
    // aborts the pass without updating that product, and no later product
    // is processed
    let mut db = Catalog::new();
    add_artist(&mut db, "mafuyu", "melonbooks");
    db.store_products(
        "melonbooks",
        &vec![
            product("url1", "one", "mafuyu", vec!["mafuyu"], Availability::Available),
            product("url2", "two", "mafuyu", vec!["mafuyu"], Availability::Available),
        ],
    );
    let mut pass = RefreshPass::new(&db, "melonbooks", &tracked_types());
    let act = pass.step(&mut db, RefreshEvent::Start);
    let first_url = match &act {
        RefreshAction::FetchDetail { url, .. } => url.clone(),
        other => panic!("expected a detail fetch, got {:?}", other),
    };
    let act = pass.step(&mut db, RefreshEvent::Detail { result: Err(SourceError::Timeout) });
    // exactly one retry, for the same url
    match &act {
        RefreshAction::FetchDetail { url, .. } => assert_eq!(url, &first_url),
        other => panic!("expected the retry fetch, got {:?}", other),
    }
    let act = pass.step(&mut db, RefreshEvent::Detail { result: Err(SourceError::Timeout) });
    assert!(matches!(act, RefreshAction::Failed { error: SourceError::Timeout }));
    // nothing was written, nothing further processed
    assert!(!db.is_unavailable(first_url.as_str()));
    assert!(!db.is_unavailable("url2"));
    assert_eq!(pass.processed, 0);
}

#[test]
fn refresh_never_selects_deleted() {
    // once a url is Deleted, a Refresh over the live states does not select
    // it, and it stays Deleted
    let mut db = Catalog::new();
    add_artist(&mut db, "mafuyu", "melonbooks");
    db.store_products(
        "melonbooks",
        &vec![product("urlD", "gone", "mafuyu", vec!["mafuyu"], Availability::Available)],
    );
    db.update_availability("urlD", Availability::Deleted);
    let mut pass = RefreshPass::new(&db, "melonbooks", &tracked_types());
    let act = pass.step(&mut db, RefreshEvent::Start);
    assert!(matches!(act, RefreshAction::Done));
    assert!(db.is_unavailable("urlD"));
    assert_eq!(pass.processed, 0);
}

#[test]
fn discover_without_artists_is_done() {
    let mut db = Catalog::new();
    let mut pass = DiscoverPass::new(&db, "melonbooks", false);
    let acts = pass.step(&mut db, DiscoverEvent::Start);
    assert_eq!(acts.len(), 1);
    assert!(matches!(acts[0], DiscoverAction::Done));
}

#[test]
fn discover_visits_artists_in_name_order() {
    let mut db = Catalog::new();
    add_artist(&mut db, "zeta", "melonbooks");
    add_artist(&mut db, "alpha", "melonbooks");
    let mut pass = DiscoverPass::new(&db, "melonbooks", false);
    let acts = pass.step(&mut db, DiscoverEvent::Start);
    assert_eq!(fetch_listing_artist(&acts[0]), "alpha");
    let acts = pass.step(&mut db, DiscoverEvent::Listing { result: Ok(vec![]) });
    assert_eq!(fetch_listing_artist(&acts[0]), "zeta");
    let acts = pass.step(&mut db, DiscoverEvent::Listing { result: Ok(vec![]) });
    assert_eq!(acts.len(), 1);
    assert!(matches!(acts[0], DiscoverAction::Done));
}

#[test]
fn refresh_parse_error_aborts() {
    let mut db = Catalog::new();
    add_artist(&mut db, "mafuyu", "melonbooks");
    db.store_products(
        "melonbooks",
        &vec![product("url1", "one", "mafuyu", vec!["mafuyu"], Availability::Available)],
    );
    let mut pass = RefreshPass::new(&db, "melonbooks", &tracked_types());
    pass.step(&mut db, RefreshEvent::Start);
    let act = pass.step(&mut db, RefreshEvent::Detail { result: Err(SourceError::ParseError) });
    assert!(matches!(act, RefreshAction::Failed { error: SourceError::ParseError }));
    assert!(!db.is_unavailable("url1"));
}
