use agentix::ingest::{repo_row, repo_table_header, Batcher, CODE_EMBED_BATCH, DOC_EMBED_BATCH};

#[test]
fn batcher_hands_back_full_batches_in_order() {
    let mut b: Batcher<u32> = Batcher::new(2);
    let mut flushed: Vec<Vec<u32>> = Vec::new();
    for i in 1..=5u32 {
        if let Some(batch) = b.push(i) {
            flushed.push(batch);
        }
    }
    let rest = b.finish();
    assert_eq!(flushed, vec![vec![1, 2], vec![3, 4]]);
    assert_eq!(rest, vec![5]);
}

#[test]
fn batcher_exact_multiple_leaves_nothing() {
    let mut b: Batcher<&str> = Batcher::new(3);
    assert!(b.push("a").is_none());
    assert!(b.push("b").is_none());
    assert_eq!(b.push("c"), Some(vec!["a", "b", "c"]));
    assert!(b.finish().is_empty());
}

#[test]
fn batcher_of_one_flushes_every_item() {
    let mut b: Batcher<u8> = Batcher::new(1);
    assert_eq!(b.push(7), Some(vec![7]));
    assert_eq!(b.push(8), Some(vec![8]));
    assert!(b.finish().is_empty());
}

#[test]
fn embed_batch_sizes() {
    assert_eq!(CODE_EMBED_BATCH, 16);
    assert_eq!(DOC_EMBED_BATCH, 8);
    let mut b: Batcher<usize> = Batcher::new(CODE_EMBED_BATCH);
    let mut count = 0;
    for i in 0..40usize {
        if let Some(batch) = b.push(i) {
            assert_eq!(batch.len(), 16);
            assert_eq!(batch[0], count * 16);
            count += 1;
        }
    }
    assert_eq!(count, 2);
    assert_eq!(b.finish(), (32..40).collect::<Vec<usize>>());
}

#[test]
fn repository_listing_lines() {
    let header = repo_table_header();
    assert_eq!(header, format!("{:<55} {:<10} {:<20} version", "repo_path", "kind", "package"));
    let row = repo_row("/src/agentix", "local", None, None);
    assert_eq!(row, format!("{:<55} {:<10} {:<20} {}", "/src/agentix", "local", "-", "-"));
    let row = repo_row("hackage::serialise-0.2.6.1", "hackage", Some("serialise"), Some("0.2.6.1"));
    assert_eq!(row.len(), 55 + 1 + 10 + 1 + 20 + 1 + 7);
    assert!(row.ends_with(" 0.2.6.1"));
    // A value wider than its column is not cut.
    let long = "x".repeat(60);
    assert!(repo_row(&long, "k", Some("p"), Some("v")).starts_with(&format!("{long} k")));
}
