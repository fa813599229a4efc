//! Notification batching and pacing tests.

use melonbooks_sync::model::{Availability, Date, Product};
use melonbooks_sync::notification::{chunk_batches, chunk_delay_secs};
use melonbooks_sync::pacing;

fn product(n: usize) -> Product {
    Product::new(
        format!("url{}", n),
        format!("title{}", n),
        "mafuyu".to_string(),
        vec!["mafuyu".to_string()],
        format!("img{}", n),
        Date::new(2023, 1, 15),
        Availability::Available,
    )
}

#[test]
fn twelve_products_make_three_chunks() {
    // 12 changed products: exactly 3 deliveries, of 5, 5 and 2
    let batch: Vec<Product> = (0..12).map(product).collect();
    let chunks = chunk_batches(&batch);
    assert_eq!(chunks.len(), 3);
    assert_eq!(chunks[0].len(), 5);
    assert_eq!(chunks[1].len(), 5);
    assert_eq!(chunks[2].len(), 2);
    let flattened: Vec<Product> = chunks.into_iter().flatten().collect();
    assert_eq!(flattened, batch);
    assert_eq!(chunk_delay_secs(), 1);
}

#[test]
fn empty_batch_makes_no_chunks() {
    // 0 changed products: the notifier is never invoked
    let chunks = chunk_batches(&Vec::new());
    assert_eq!(chunks.len(), 0);
}

#[test]
fn exact_multiple_has_full_chunks() {
    let batch: Vec<Product> = (0..10).map(product).collect();
    let chunks = chunk_batches(&batch);
    assert_eq!(chunks.len(), 2);
    assert_eq!(chunks[0].len(), 5);
    assert_eq!(chunks[1].len(), 5);
}

#[test]
fn pacing_values() {
    assert_eq!(pacing::detail_delay_ms(), 500);
    assert_eq!(pacing::artist_delay_ms(), 500);
    assert_eq!(pacing::cooldown_secs(), 30);
    assert!(!pacing::cooldown_due(0));
    assert!(!pacing::cooldown_due(63));
    assert!(pacing::cooldown_due(64));
    assert!(!pacing::cooldown_due(65));
    assert!(pacing::cooldown_due(128));
}
