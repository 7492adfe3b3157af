use logfetch::address::Address;
use logfetch::config::RunConfig;
use logfetch::config::DEFAULT_PAGE_WIDTH;
use logfetch::config::DEFAULT_PARALLELISM;
use logfetch::range::plan;
use logfetch::range::BlockRange;

fn bounds(pages: &[BlockRange]) -> Vec<(u64, u64)> {
    pages.iter().map(|page| (page.start(), page.end())).collect()
}

#[test]
fn plan_head_zero_is_one_page() {
    let pages = plan(0, 9999);
    assert_eq!(bounds(&pages), vec![(0, 0)]);
}

#[test]
fn plan_head_below_width_is_one_page() {
    let pages = plan(9998, 9999);
    assert_eq!(bounds(&pages), vec![(0, 9998)]);
    let pages = plan(5, 9999);
    assert_eq!(bounds(&pages), vec![(0, 5)]);
}

#[test]
fn plan_head_equal_to_width_is_one_page() {
    let pages = plan(9999, 9999);
    assert_eq!(bounds(&pages), vec![(0, 9999)]);
}

#[test]
fn plan_head_past_width_starts_a_second_page() {
    let pages = plan(10000, 9999);
    assert_eq!(bounds(&pages), vec![(0, 9999), (10000, 10000)]);
}

#[test]
fn plan_twenty_thousand_is_three_pages() {
    let pages = plan(20000, 9999);
    assert_eq!(bounds(&pages), vec![(0, 9999), (10000, 19999), (20000, 20000)]);
}

#[test]
fn plan_last_page_may_be_full() {
    let pages = plan(19999, 9999);
    assert_eq!(bounds(&pages), vec![(0, 9999), (10000, 19999)]);
}

#[test]
fn plan_width_one_gives_two_blocks_per_page() {
    let pages = plan(4, 1);
    assert_eq!(bounds(&pages), vec![(0, 1), (2, 3), (4, 4)]);
    let pages = plan(3, 1);
    assert_eq!(bounds(&pages), vec![(0, 1), (2, 3)]);
}

#[test]
fn plan_is_the_same_every_time() {
    assert_eq!(plan(123_456, 1000), plan(123_456, 1000));
}

#[test]
fn plan_pages_tile_the_range() {
    let cases: [(u64, u64); 9] = [
        (0, 1),
        (1, 1),
        (2, 1),
        (17, 5),
        (23, 5),
        (24, 5),
        (100, 7),
        (9999, 10_000),
        (65_536, 4095),
    ];
    for (head, width) in cases {
        let pages = plan(head, width);
        assert_eq!(pages.len() as u64, head / (width + 1) + 1);
        assert_eq!(pages[0].start(), 0);
        assert_eq!(pages[pages.len() - 1].end(), head);
        for (i, page) in pages.iter().enumerate() {
            assert!(page.start() <= page.end());
            assert!(page.end() <= head);
            assert!(page.width() <= width);
            assert_eq!(page.start(), i as u64 * (width + 1));
            if i + 1 < pages.len() {
                assert_eq!(pages[i + 1].start(), page.end() + 1);
                assert_eq!(page.width(), width);
                assert_eq!(page.block_count(), width as u128 + 1);
            }
        }
        for block in 0..=head {
            let holders = pages.iter().filter(|page| page.contains(block)).count();
            assert_eq!(holders, 1);
            assert!(pages[(block / (width + 1)) as usize].contains(block));
        }
        assert!(pages.iter().all(|page| !page.contains(head + 1)));
    }
}

#[test]
fn plan_full_pages_span_the_width() {
    for head in [9999u64, 10000, 19999, 20000, 123_456] {
        let pages = plan(head, 9999);
        assert_eq!(pages.len() as u64, head / 10000 + 1);
        for (k, page) in pages.iter().enumerate() {
            let first = 10000 * k as u64;
            assert_eq!((page.start(), page.end()), (first, (first + 9999).min(head)));
            assert!(page.end() - page.start() <= 9999);
            if k + 1 < pages.len() {
                assert_eq!(page.end() - page.start(), 9999);
            }
        }
    }
}

#[test]
fn plan_reaches_the_largest_block_number() {
    let pages = plan(u64::MAX, u64::MAX);
    assert_eq!(bounds(&pages), vec![(0, u64::MAX)]);
    let pages = plan(u64::MAX, u64::MAX - 1);
    assert_eq!(bounds(&pages), vec![(0, u64::MAX - 1), (u64::MAX, u64::MAX)]);
    let pages = plan(u64::MAX, (1 << 63) - 1);
    assert_eq!(bounds(&pages), vec![(0, (1 << 63) - 1), (1 << 63, u64::MAX)]);
    let pages = plan(u64::MAX - 1, u64::MAX);
    assert_eq!(bounds(&pages), vec![(0, u64::MAX - 1)]);
}

#[test]
fn block_range_new_wants_start_before_end() {
    assert!(BlockRange::new(4, 3).is_none());
    let single = BlockRange::new(3, 3).unwrap();
    assert_eq!((single.start(), single.end()), (3, 3));
    let range = BlockRange::new(3, 9).unwrap();
    assert_eq!((range.start(), range.end()), (3, 9));
}

#[test]
fn block_range_width_is_last_minus_first() {
    assert_eq!(BlockRange::new(0, 0).unwrap().width(), 0);
    assert_eq!(BlockRange::new(10000, 19999).unwrap().width(), 9999);
    assert_eq!(BlockRange::new(0, u64::MAX).unwrap().width(), u64::MAX);
}

#[test]
fn block_range_block_count_counts_both_ends() {
    assert_eq!(BlockRange::new(0, 0).unwrap().block_count(), 1);
    assert_eq!(BlockRange::new(10000, 19999).unwrap().block_count(), 10000);
    assert_eq!(BlockRange::new(0, u64::MAX).unwrap().block_count(), 1u128 << 64);
}

#[test]
fn block_range_contains_its_ends_only_inside() {
    let range = BlockRange::new(10, 20).unwrap();
    assert!(range.contains(10));
    assert!(range.contains(15));
    assert!(range.contains(20));
    assert!(!range.contains(9));
    assert!(!range.contains(21));
}

#[test]
fn run_config_rejects_zero_limits() {
    let address = Address::from_bytes([7u8; 20]);
    assert!(RunConfig::new(address, 0, 9999).is_none());
    assert!(RunConfig::new(address, 10, 0).is_none());
    assert!(RunConfig::new(address, 0, 0).is_none());
    let config = RunConfig::new(address, 3, 50).unwrap();
    assert_eq!(config.max_parallelism(), 3);
    assert_eq!(config.max_page_width(), 50);
    assert_eq!(config.contract_address().bytes(), [7u8; 20]);
}

#[test]
fn run_config_defaults() {
    let config = RunConfig::with_defaults(Address::from_bytes([0u8; 20]));
    assert_eq!(DEFAULT_PAGE_WIDTH, 9999);
    assert_eq!(DEFAULT_PARALLELISM, 10);
    assert_eq!(config.max_parallelism(), 10);
    assert_eq!(config.max_page_width(), 9999);
}

#[test]
fn build_page_vector_uses_the_configured_width() {
    let address = Address::from_bytes([1u8; 20]);
    let config = RunConfig::new(address, 2, 100).unwrap();
    let pages = config.build_page_vector(250);
    assert_eq!(bounds(&pages), vec![(0, 100), (101, 201), (202, 250)]);
    let defaults = RunConfig::with_defaults(address);
    assert_eq!(bounds(&defaults.build_page_vector(9999)), vec![(0, 9999)]);
    assert_eq!(
        bounds(&defaults.build_page_vector(20000)),
        vec![(0, 9999), (10000, 19999), (20000, 20000)]
    );
}
