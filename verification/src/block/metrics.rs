//! Approximate memory retained by block content.

use vstd::prelude::*;

verus! {

/// Approximate memory retained by mutable and finished block content.
#[derive(Clone, Copy, Debug, PartialEq, Eq, Structural)]
pub struct BlockMemoryMetrics {
    active_block_count: usize,
    finished_block_count: usize,
    active_lines: usize,
    finished_lines: usize,
    active_bytes: usize,
    finished_bytes: usize,
}

impl Default for BlockMemoryMetrics {
    /// Metrics of no block at all.
    fn default() -> (metrics: Self)
        ensures
            metrics@ == (MetricsView {
                active_block_count: 0,
                finished_block_count: 0,
                active_lines: 0,
                finished_lines: 0,
                active_bytes: 0,
                finished_bytes: 0,
            }),
    {
        BlockMemoryMetrics {
            active_block_count: 0,
            finished_block_count: 0,
            active_lines: 0,
            finished_lines: 0,
            active_bytes: 0,
            finished_bytes: 0,
        }
    }
}

/// Abstract content of [`BlockMemoryMetrics`].
pub ghost struct MetricsView {
    pub active_block_count: nat,
    pub finished_block_count: nat,
    pub active_lines: nat,
    pub finished_lines: nat,
    pub active_bytes: nat,
    pub finished_bytes: nat,
}

impl View for BlockMemoryMetrics {
    type V = MetricsView;

    closed spec fn view(&self) -> MetricsView {
        MetricsView {
            active_block_count: self.active_block_count as nat,
            finished_block_count: self.finished_block_count as nat,
            active_lines: self.active_lines as nat,
            finished_lines: self.finished_lines as nat,
            active_bytes: self.active_bytes as nat,
            finished_bytes: self.finished_bytes as nat,
        }
    }
}

impl BlockMemoryMetrics {
    /// Return the number of mutable blocks.
    pub fn active_block_count(&self) -> (count: usize)
        ensures
            count == self@.active_block_count,
    {
        self.active_block_count
    }

    /// Return the number of finished history blocks.
    pub fn finished_block_count(&self) -> (count: usize)
        ensures
            count == self@.finished_block_count,
    {
        self.finished_block_count
    }

    /// Return logical lines retained by mutable blocks.
    pub fn active_lines(&self) -> (lines: usize)
        ensures
            lines == self@.active_lines,
    {
        self.active_lines
    }

    /// Return logical lines retained by finished history.
    pub fn finished_lines(&self) -> (lines: usize)
        ensures
            lines == self@.finished_lines,
    {
        self.finished_lines
    }

    /// Return approximate bytes retained by mutable blocks.
    pub fn active_bytes(&self) -> (bytes: usize)
        ensures
            bytes == self@.active_bytes,
    {
        self.active_bytes
    }

    /// Return approximate bytes retained by finished history.
    pub fn finished_bytes(&self) -> (bytes: usize)
        ensures
            bytes == self@.finished_bytes,
    {
        self.finished_bytes
    }

    /// Return approximate bytes retained by all blocks.
    pub fn total_bytes(&self) -> (bytes: usize)
        requires
            self@.active_bytes + self@.finished_bytes <= usize::MAX,
        ensures
            bytes == self@.active_bytes + self@.finished_bytes,
    {
        self.active_bytes + self.finished_bytes
    }
}

/// What one block contributes to the metrics: whether it is finished, its
/// logical lines and its estimated bytes.
#[derive(Clone, Copy, Debug, PartialEq, Eq, Structural)]
pub struct BlockUsage {
    /// Whether the block has finished.
    pub finished: bool,
    /// Logical lines retained by the block's grid.
    pub lines: usize,
    /// Estimated bytes retained by the block.
    pub bytes: usize,
}

/// Metrics of a sequence of blocks: counts, lines and bytes summed
/// separately over finished and unfinished blocks.
pub open spec fn metrics_of(usages: Seq<BlockUsage>) -> MetricsView
    decreases usages.len(),
{
    if usages.len() == 0 {
        MetricsView {
            active_block_count: 0,
            finished_block_count: 0,
            active_lines: 0,
            finished_lines: 0,
            active_bytes: 0,
            finished_bytes: 0,
        }
    } else {
        let before = metrics_of(usages.drop_last());
        let usage = usages.last();
        if usage.finished {
            MetricsView {
                finished_block_count: before.finished_block_count + 1,
                finished_lines: before.finished_lines + usage.lines as nat,
                finished_bytes: before.finished_bytes + usage.bytes as nat,
                ..before
            }
        } else {
            MetricsView {
                active_block_count: before.active_block_count + 1,
                active_lines: before.active_lines + usage.lines as nat,
                active_bytes: before.active_bytes + usage.bytes as nat,
                ..before
            }
        }
    }
}

/// Whether every sum of the metrics fits in a `usize`.
pub open spec fn metrics_fit(metrics: MetricsView) -> bool {
    &&& metrics.active_block_count <= usize::MAX
    &&& metrics.finished_block_count <= usize::MAX
    &&& metrics.active_lines <= usize::MAX
    &&& metrics.finished_lines <= usize::MAX
    &&& metrics.active_bytes <= usize::MAX
    &&& metrics.finished_bytes <= usize::MAX
}

/// Sums over a prefix never exceed the sums over the whole.
proof fn lemma_prefix_metrics_within(usages: Seq<BlockUsage>, i: int)
    requires
        0 <= i <= usages.len(),
    ensures
        metrics_of(usages.take(i)).active_block_count <= metrics_of(usages).active_block_count,
        metrics_of(usages.take(i)).finished_block_count <= metrics_of(usages).finished_block_count,
        metrics_of(usages.take(i)).active_lines <= metrics_of(usages).active_lines,
        metrics_of(usages.take(i)).finished_lines <= metrics_of(usages).finished_lines,
        metrics_of(usages.take(i)).active_bytes <= metrics_of(usages).active_bytes,
        metrics_of(usages.take(i)).finished_bytes <= metrics_of(usages).finished_bytes,
    decreases usages.len() - i,
{
    if i < usages.len() {
        assert(usages.take(i + 1).drop_last() =~= usages.take(i));
        lemma_prefix_metrics_within(usages, i + 1);
    } else {
        assert(usages.take(i) =~= usages);
    }
}

impl BlockMemoryMetrics {
    /// Aggregate the usage of every block.
    pub fn from_blocks(blocks: &[BlockUsage]) -> (metrics: Self)
        requires
            metrics_fit(metrics_of(blocks@)),
        ensures
            metrics@ == metrics_of(blocks@),
    {
        let mut metrics = BlockMemoryMetrics {
            active_block_count: 0,
            finished_block_count: 0,
            active_lines: 0,
            finished_lines: 0,
            active_bytes: 0,
            finished_bytes: 0,
        };
        let mut i: usize = 0;
        proof {
            assert(blocks@.take(0) =~= Seq::<BlockUsage>::empty());
        }
        while i < blocks.len()
            invariant
                i <= blocks@.len(),
                metrics_fit(metrics_of(blocks@)),
                metrics@ == metrics_of(blocks@.take(i as int)),
            decreases blocks@.len() - i,
        {
            let usage = blocks[i];
            proof {
                assert(blocks@.take(i + 1).drop_last() =~= blocks@.take(i as int));
                assert(blocks@.take(i + 1).last() == usage);
                lemma_prefix_metrics_within(blocks@, i + 1);
            }
            if usage.finished {
                metrics.finished_block_count = metrics.finished_block_count + 1;
                metrics.finished_lines = metrics.finished_lines + usage.lines;
                metrics.finished_bytes = metrics.finished_bytes + usage.bytes;
            } else {
                metrics.active_block_count = metrics.active_block_count + 1;
                metrics.active_lines = metrics.active_lines + usage.lines;
                metrics.active_bytes = metrics.active_bytes + usage.bytes;
            }
            i = i + 1;
        }
        proof {
            assert(blocks@.take(i as int) =~= blocks@);
        }
        metrics
    }
}

} // verus!
