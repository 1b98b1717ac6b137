use otty_surface::block::metrics::{BlockMemoryMetrics, BlockUsage};

#[test]
fn metrics_split_finished_and_active_blocks() {
    let metrics = BlockMemoryMetrics::from_blocks(&[
        BlockUsage { finished: true, lines: 10, bytes: 100 },
        BlockUsage { finished: false, lines: 3, bytes: 40 },
        BlockUsage { finished: true, lines: 5, bytes: 60 },
    ]);

    assert_eq!(metrics.finished_block_count(), 2);
    assert_eq!(metrics.active_block_count(), 1);
    assert_eq!(metrics.finished_lines(), 15);
    assert_eq!(metrics.active_lines(), 3);
    assert_eq!(metrics.finished_bytes(), 160);
    assert_eq!(metrics.active_bytes(), 40);
    assert_eq!(metrics.total_bytes(), 200);
}

#[test]
fn no_blocks_give_empty_metrics() {
    let metrics = BlockMemoryMetrics::from_blocks(&[]);

    assert_eq!(metrics, BlockMemoryMetrics::default());
    assert_eq!(metrics.total_bytes(), 0);
}
