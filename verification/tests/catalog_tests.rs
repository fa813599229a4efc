//! Repository-level tests: artists, products, skip records and title
//! filters of the catalog.

use std::fmt::Debug;

use melonbooks_sync::catalog::Catalog;
use melonbooks_sync::model::{Availability, Date, Product};

fn mafuyu() -> String {
    "mafuyu".to_string()
}

fn kantoku() -> String {
    "kantoku".to_string()
}

fn melonbooks() -> String {
    "melonbooks".to_string()
}

fn prod1() -> Product {
    Product::new(
        "url123".to_string(),
        "title1".to_string(),
        mafuyu(),
        vec![mafuyu()],
        "url1".to_string(),
        Date::new(2022, 9, 13),
        Availability::Available,
    )
}

fn prod1_v2() -> Product {
    Product::new(
        "url123".to_string(),
        "title1".to_string(),
        mafuyu(),
        vec![mafuyu()],
        "url1".to_string(),
        Date::new(2022, 9, 13),
        Availability::NotAvailable,
    )
}

fn prod2() -> Product {
    Product::new(
        "url456".to_string(),
        "mafuyu leo badge".to_string(),
        mafuyu(),
        vec![mafuyu()],
        "url44".to_string(),
        Date::new(2021, 12, 1),
        Availability::Available,
    )
}

fn prod3() -> Product {
    Product::new(
        "url789".to_string(),
        "title1".to_string(),
        kantoku(),
        vec![kantoku()],
        "url55".to_string(),
        Date::new(2022, 3, 13),
        Availability::Preorder,
    )
}

fn prod4() -> Product {
    Product::new(
        "url101112".to_string(),
        "sasaki to pii-chan e4".to_string(),
        kantoku(),
        vec![kantoku()],
        "url007".to_string(),
        Date::new(2020, 3, 13),
        Availability::NotAvailable,
    )
}

fn remove_artists(db: &mut Catalog) {
    db.remove_artist(melonbooks().as_str(), kantoku().as_str());
    db.remove_artist(melonbooks().as_str(), mafuyu().as_str());
}

fn remove_products(db: &mut Catalog) {
    db.remove_product(prod1().url.as_str());
    db.remove_product(prod2().url.as_str());
    db.remove_product(prod1_v2().url.as_str());
    db.remove_product(prod3().url.as_str());
    db.remove_product(prod4().url.as_str());
}

fn assert_eq_unsorted<T: Ord + Debug>(v1: Vec<T>, v2: Vec<T>) {
    let mut v1s = Vec::from(v1);
    v1s.sort();
    let mut v2s = Vec::from(v2);
    v2s.sort();
    assert_eq!(v1s, v2s);
}

#[test]
fn test_artist() {
    let mut db = Catalog::new();
    let artists = vec![mafuyu(), kantoku()];
    remove_artists(&mut db);
    db.add_artists(melonbooks().as_str(), &artists);
    let res = db.get_artists(melonbooks().as_str());
    assert_eq_unsorted(artists, res);
}

#[test]
fn test_product() {
    let mut db = Catalog::new();
    remove_products(&mut db);
    let artists = vec![mafuyu(), kantoku()];
    remove_artists(&mut db);
    db.add_artists(melonbooks().as_str(), &artists);
    let products = vec![prod1(), prod2(), prod3(), prod4()];
    db.store_products(melonbooks().as_str(), &products);
    let res = db.get_products(melonbooks().as_str());
    assert_eq_unsorted(products, res);
}

#[test]
fn test_remove_product() {
    let mut db = Catalog::new();
    remove_products(&mut db);
    let artists = vec![mafuyu(), kantoku()];
    remove_artists(&mut db);
    db.add_artists(melonbooks().as_str(), &artists);
    let products = vec![prod1(), prod2(), prod3(), prod4()];
    let less_products = vec![prod1(), prod2(), prod4()];
    db.store_products(melonbooks().as_str(), &products);
    db.remove_product(prod3().url.as_str());
    let res = db.get_products(melonbooks().as_str());
    assert_eq_unsorted(less_products, res);
}

#[test]
fn test_remove_artist() {
    let mut db = Catalog::new();
    remove_products(&mut db);
    let artists = vec![mafuyu(), kantoku()];
    remove_artists(&mut db);
    db.add_artists(melonbooks().as_str(), &artists);
    let products = vec![prod1(), prod2(), prod3(), prod4()];
    db.store_products(melonbooks().as_str(), &products);
    let res = db.get_products(melonbooks().as_str());
    assert_eq!(res.len(), 4);
    db.remove_artist(melonbooks().as_str(), kantoku().as_str());
    let res = db.get_products(melonbooks().as_str());
    assert_eq!(res.len(), 2);
}

#[test]
fn test_update_product() {
    let mut db = Catalog::new();
    remove_products(&mut db);
    let artists = vec![mafuyu(), kantoku()];
    remove_artists(&mut db);
    db.add_artists(melonbooks().as_str(), &artists);
    let products = vec![prod1(), prod2()];
    db.store_products(melonbooks().as_str(), &products);
    db.update_availability(prod1_v2().url.as_str(), prod1_v2().availability);
    let res = db.get_products(melonbooks().as_str());
    assert_eq_unsorted(vec![prod1_v2(), prod2()], res);
}

#[test]
fn test_title_skip_sequence() {
    let mut db = Catalog::new();
    remove_products(&mut db);
    let artists = vec![mafuyu(), kantoku()];
    remove_artists(&mut db);
    db.add_artists(melonbooks().as_str(), &artists);
    db.add_title_skip(&mafuyu(), &melonbooks(), "leo");
    db.add_title_skip(&kantoku(), &melonbooks(), "pii-chan");
    let products = vec![prod1(), prod2(), prod3(), prod4()];
    let skipped_products = products
        .iter()
        .filter(|p| {
            db.title_matches_skip_sequence(
                p.associated_artist.as_str(),
                melonbooks().as_str(),
                p.title.as_str(),
            )
        })
        .collect::<Vec<&Product>>();
    assert_eq_unsorted(vec![&prod2(), &prod4()], skipped_products);
}

#[test]
fn test_get_artists_sorted() {
    let mut db = Catalog::new();
    db.add_artists(
        "melonbooks",
        &vec!["zeta".to_string(), "alpha".to_string(), "mika".to_string()],
    );
    db.add_artists("othersite", &vec!["beta".to_string()]);
    assert_eq!(
        db.get_artists("melonbooks"),
        vec!["alpha".to_string(), "mika".to_string(), "zeta".to_string()]
    );
    assert_eq!(db.get_artists("othersite"), vec!["beta".to_string()]);
}

#[test]
fn test_get_products_ordered() {
    // date added descending, then associated artist ascending
    let mut db = Catalog::new();
    db.add_artists("melonbooks", &vec![mafuyu(), kantoku()]);
    db.store_products(
        "melonbooks",
        &vec![prod1(), prod2(), prod3(), prod4()],
    );
    let res = db.get_products("melonbooks");
    let urls: Vec<&str> = res.iter().map(|p| p.url.as_str()).collect();
    // prod1: 2022-09-13 mafuyu, prod3: 2022-03-13 kantoku,
    // prod2: 2021-12-01 mafuyu, prod4: 2020-03-13 kantoku
    assert_eq!(urls, vec!["url123", "url789", "url456", "url101112"]);
}

#[test]
fn test_is_unavailable() {
    let mut db = Catalog::new();
    db.add_artists("melonbooks", &vec![mafuyu()]);
    db.store_products("melonbooks", &vec![prod1()]);
    assert!(!db.is_unavailable(prod1().url.as_str()));
    db.update_availability(prod1().url.as_str(), Availability::NotAvailable);
    assert!(db.is_unavailable(prod1().url.as_str()));
    db.update_availability(prod1().url.as_str(), Availability::Deleted);
    assert!(db.is_unavailable(prod1().url.as_str()));
    assert!(!db.is_unavailable("no-such-url"));
}

#[test]
fn test_add_artist_clears_stale_skips() {
    // re-adding an artist clears every skip record of the urls that were
    // skip-listed for it
    let mut db = Catalog::new();
    db.add_artists("melonbooks", &vec![kantoku()]);
    db.add_skip("url-a", mafuyu().as_str());
    db.add_skip("url-a", kantoku().as_str());
    db.add_skip("url-b", kantoku().as_str());
    melonbooks_sync::add_artist(&mut db, mafuyu().as_str(), "melonbooks");
    // url-a was skip-listed for mafuyu: both of its records are gone
    assert!(!db.is_skipped("url-a", mafuyu().as_str()));
    assert!(!db.is_skipped("url-a", kantoku().as_str()));
    // url-b was not skip-listed for mafuyu: its record stays
    assert!(db.is_skipped("url-b", kantoku().as_str()));
}

#[test]
fn test_availability_names() {
    assert_eq!(Availability::Available.name(), "Available");
    assert_eq!(Availability::Deleted.name(), "Deleted");
    assert_eq!(
        Availability::parse("NotAvailable"),
        Some(Availability::NotAvailable)
    );
    assert_eq!(Availability::parse("Preorder"), Some(Availability::Preorder));
    assert_eq!(Availability::parse("gone"), None);
    for a in [
        Availability::Available,
        Availability::Preorder,
        Availability::NotAvailable,
        Availability::Deleted,
    ] {
        assert_eq!(Availability::parse(a.name()), Some(a));
    }
}
