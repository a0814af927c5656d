//! The shared block watcher: one scan loop per network, a monotonic cursor
//! per network, and block events whose heights are contiguous and ascending.
//!
//! The watcher owns the registry of networks and the per-network scan state.
//! The surrounding application drives the loop: it reads the latest height
//! over RPC, asks `plan_block_range` what to fetch, fetches and broadcasts,
//! and then commits the range's end through `record_processed`. The lease check
//! `begin_scan` hands out at most one running scan per network slug.

use vstd::prelude::*;

use vstd::arithmetic::power2::pow2;

use crate::config::SharedBlockWatcherConfig;
use crate::text::string_eq_str;

verus! {

/// The kind of chain behind a network.
#[derive(Debug, Clone, Copy, PartialEq, Eq, Structural)]
pub enum BlockChainType {
    /// An EVM-compatible chain.
    Evm,
    /// A Stellar chain.
    Stellar,
    /// Anything else; such networks are registered but not scanned.
    Other,
}

/// An immutable description of a network to watch.
#[derive(Debug, Clone)]
pub struct Network {
    /// Stable, human-readable network identifier.
    pub slug: String,
    /// The kind of chain.
    pub network_type: BlockChainType,
    /// Depth below the tip considered final.
    pub confirmation_blocks: u64,
    /// RPC endpoints for the chain.
    pub rpc_urls: Vec<String>,
    /// Opaque poll schedule hint.
    pub cron_schedule: String,
}

/// A batch of confirmed blocks announced to the workers, identified by
/// their heights.
#[derive(Debug, Clone)]
pub struct BlockEvent {
    /// The network the blocks belong to.
    pub network: Network,
    /// The block heights, non-empty, contiguous and ascending.
    pub blocks: Vec<u64>,
    /// When the event was built, in seconds.
    pub timestamp: u64,
}

/// A block event's structural invariant: at least one height, and each
/// height one above the previous.
pub open spec fn event_wf(e: BlockEvent) -> bool {
    &&& e.blocks@.len() > 0
    &&& forall|i: int| 0 <= i < e.blocks@.len() ==> #[trigger] e.blocks@[i] == e.blocks@[0] + i
}

/// Build the event announcing heights `start..=end` for a network.
pub fn make_block_event(network: Network, start: u64, end: u64, timestamp: u64) -> (e: BlockEvent)
    requires
        start <= end,
    ensures
        event_wf(e),
        e.network == network,
        e.timestamp == timestamp,
        e.blocks@.len() == end - start + 1,
        e.blocks@[0] == start,
        e.blocks@[e.blocks@.len() - 1] == end,
        forall|i: int| 0 <= i < e.blocks@.len() ==> #[trigger] e.blocks@[i] == start + i,
{
    let mut blocks: Vec<u64> = Vec::new();
    let mut h: u64 = start;
    while h < end
        invariant
            start <= h <= end,
            blocks@.len() == h - start,
            forall|i: int| 0 <= i < blocks@.len() ==> #[trigger] blocks@[i] == start + i,
        decreases end - h,
    {
        blocks.push(h);
        h = h + 1;
    }
    blocks.push(end);
    BlockEvent { network, blocks, timestamp }
}

/// Scan state for one network.
#[derive(Debug, Clone)]
pub struct NetworkWatcherState {
    /// The network being watched.
    pub network: Network,
    /// The height of the last block handed to the workers; 0 before the
    /// first successful iteration.
    pub last_processed_block: u64,
    /// Whether a scan loop currently runs for this network.
    pub is_running: bool,
}

/// There is a registered network with this slug.
pub open spec fn has_network(ns: Seq<NetworkWatcherState>, slug: Seq<char>) -> bool {
    exists|i: int| 0 <= i < ns.len() && (#[trigger] ns[i]).network.slug@ == slug
}

/// No two registered networks share a slug.
pub open spec fn networks_distinct(ns: Seq<NetworkWatcherState>) -> bool {
    forall|i: int, j: int|
        0 <= i < j < ns.len() ==> (#[trigger] ns[i]).network.slug@ != (#[trigger] ns[j]).network.slug@
}

/// The index of the state for this slug, where one exists.
pub open spec fn network_index(ns: Seq<NetworkWatcherState>, slug: Seq<char>) -> int {
    choose|i: int| 0 <= i < ns.len() && (#[trigger] ns[i]).network.slug@ == slug
}

/// A scan loop runs for this slug.
pub open spec fn spec_is_running(ns: Seq<NetworkWatcherState>, slug: Seq<char>) -> bool {
    has_network(ns, slug) && ns[network_index(ns, slug)].is_running
}

/// The lease for this slug is free to take.
pub open spec fn spec_can_begin(ns: Seq<NetworkWatcherState>, slug: Seq<char>) -> bool {
    has_network(ns, slug) && !ns[network_index(ns, slug)].is_running
}

/// The latest height considered confirmed: `latest` minus the confirmation
/// depth, floored at zero.
pub open spec fn spec_latest_confirmed(latest: u64, conf: u64) -> int {
    if latest >= conf {
        latest - conf
    } else {
        0
    }
}

/// The range a scan iteration fetches, given the cursor it read and the
/// latest height: from the cursor's successor (or, on a cold start, the
/// latest confirmed block alone) up to the latest confirmed block, capped
/// at the batch size; nothing when the chain has not advanced.
pub open spec fn spec_scan_range(last: u64, latest: u64, conf: u64, maxf: u64) -> Option<(int, int)> {
    let lc = spec_latest_confirmed(latest, conf);
    let start = if last == 0 {
        lc
    } else {
        last + 1
    };
    if start > lc {
        None
    } else {
        Some((start, if lc < start + maxf - 1 {
            lc
        } else {
            start + maxf - 1
        }))
    }
}

/// Plan a scan iteration. `None` means there is nothing to fetch yet.
pub fn plan_block_range(last: u64, latest: u64, confirmation_blocks: u64, max_blocks_per_fetch: u64) -> (r:
    Option<(u64, u64)>)
    requires
        max_blocks_per_fetch >= 1,
    ensures
        match r {
            Some(p) => spec_scan_range(last, latest, confirmation_blocks, max_blocks_per_fetch)
                == Some((p.0 as int, p.1 as int)) && p.0 <= p.1,
            None => spec_scan_range(last, latest, confirmation_blocks, max_blocks_per_fetch)
                is None,
        },
{
    let latest_confirmed: u64 = if latest >= confirmation_blocks {
        latest - confirmation_blocks
    } else {
        0
    };
    if last == 0 {
        let end = if latest_confirmed < latest_confirmed.saturating_add(max_blocks_per_fetch - 1) {
            latest_confirmed
        } else {
            latest_confirmed.saturating_add(max_blocks_per_fetch - 1)
        };
        Some((latest_confirmed, end))
    } else {
        if last == u64::MAX {
            return None;
        }
        let start = last + 1;
        if start > latest_confirmed {
            return None;
        }
        let cap = start.saturating_add(max_blocks_per_fetch - 1);
        let end = if latest_confirmed < cap {
            latest_confirmed
        } else {
            cap
        };
        Some((start, end))
    }
}

/// Monotonicity: a successful iteration's upper bound is never below the
/// cursor it read, so committing it never lowers the cursor.
pub proof fn lemma_scan_monotonic(last: u64, latest: u64, conf: u64, maxf: u64, s: int, e: int)
    requires
        maxf >= 1,
        spec_scan_range(last, latest, conf, maxf) == Some((s, e)),
    ensures
        e >= last,
        e >= s,
{
}

/// Contiguity: once an iteration has committed upper bound `b`, the next
/// successful iteration fetches a range that starts exactly at `b + 1` —
/// no gap and no overlap, however many failed iterations came between.
pub proof fn lemma_scan_contiguous(b: u64, latest: u64, conf: u64, maxf: u64, s: int, e: int)
    requires
        b > 0,
        maxf >= 1,
        spec_scan_range(b, latest, conf, maxf) == Some((s, e)),
    ensures
        s == b + 1,
{
}

/// The shared block watcher: registered networks and the broadcastable
/// configuration. One logical scanner per network, however many workers
/// subscribe.
pub struct SharedBlockWatcher {
    /// Per-network scan state, one entry per slug.
    pub networks: Vec<NetworkWatcherState>,
    /// The watcher's configuration.
    pub config: SharedBlockWatcherConfig,
}

impl SharedBlockWatcher {
    /// The watcher's structural invariant.
    pub open spec fn wf(&self) -> bool {
        &&& self.config.valid()
        &&& networks_distinct(self.networks@)
    }

    /// A watcher with no networks registered.
    pub fn new(config: SharedBlockWatcherConfig) -> (w: Self)
        requires
            config.valid(),
        ensures
            w.wf(),
            w.networks@.len() == 0,
            w.config == config,
    {
        SharedBlockWatcher { networks: Vec::new(), config }
    }

    /// The index of the state for this slug, if registered.
    fn find_network(&self, slug: &str) -> (r: Option<usize>)
        ensures
            match r {
                Some(i) => i < self.networks@.len() && self.networks@[i as int].network.slug@
                    == slug@,
                None => !has_network(self.networks@, slug@),
            },
    {
        let mut i: usize = 0;
        while i < self.networks.len()
            invariant
                i <= self.networks@.len(),
                forall|j: int|
                    0 <= j < i ==> (#[trigger] self.networks@[j]).network.slug@ != slug@,
            decreases self.networks@.len() - i,
        {
            if string_eq_str(&self.networks[i].network.slug, slug) {
                return Some(i);
            }
            i = i + 1;
        }
        None
    }

    /// Register a network. Re-adding a known slug is a no-op that reports
    /// success; a new slug starts with a zero cursor and no loop running.
    pub fn add_network(&mut self, network: Network)
        requires
            old(self).wf(),
        ensures
            final(self).wf(),
            final(self).config == old(self).config,
            has_network(final(self).networks@, network.slug@),
            has_network(old(self).networks@, network.slug@) ==> *final(self) == *old(self),
            !has_network(old(self).networks@, network.slug@) ==> final(self).networks@ == old(self).networks@.push(
                NetworkWatcherState { network: network, last_processed_block: 0, is_running: false },
            ),
    {
        match self.find_network(network.slug.as_str()) {
            Some(i) => {
                proof {
                    assert(self.networks@[i as int].network.slug@ == network.slug@);
                }
            },
            None => {
                let state = NetworkWatcherState {
                    network,
                    last_processed_block: 0,
                    is_running: false,
                };
                self.networks.push(state);
                proof {
                    let news = self.networks@;
                    assert(news[news.len() - 1].network.slug@ == news[news.len()
                        - 1].network.slug@);
                    assert forall|a: int, b: int| 0 <= a < b < news.len() implies (#[trigger] news[a]).network.slug@
                        != (#[trigger] news[b]).network.slug@ by {}
                }
            },
        }
    }

    /// Drop a network from the registry; its scan loop, seeing its state
    /// gone, stops on its next iteration.
    pub fn remove_network(&mut self, network_slug: &str)
        requires
            old(self).wf(),
        ensures
            final(self).wf(),
            final(self).config == old(self).config,
            !has_network(final(self).networks@, network_slug@),
            forall|x: NetworkWatcherState|
                #[trigger] final(self).networks@.contains(x) ==> old(self).networks@.contains(x)
                    && x.network.slug@ != network_slug@,
            forall|x: NetworkWatcherState|
                #[trigger] old(self).networks@.contains(x) && x.network.slug@ != network_slug@
                    ==> final(self).networks@.contains(x),
    {
        match self.find_network(network_slug) {
            Some(i) => {
                let ghost olds = self.networks@;
                self.networks.remove(i);
                proof {
                    let news = self.networks@;
                    assert forall|x: NetworkWatcherState| #[trigger]
                        news.contains(x) implies olds.contains(x) && x.network.slug@
                        != network_slug@ by {
                        let j = choose|j: int| 0 <= j < news.len() && news[j] == x;
                        if j < i {
                            assert(olds[j] == x);
                            assert(olds[j].network.slug@ != olds[i as int].network.slug@);
                        } else {
                            assert(olds[j + 1] == x);
                            assert(olds[i as int].network.slug@ != olds[j + 1].network.slug@);
                        }
                    }
                    assert forall|x: NetworkWatcherState|
                        #[trigger] olds.contains(x) && x.network.slug@ != network_slug@ implies news
                        .contains(x) by {
                        let j = choose|j: int| 0 <= j < olds.len() && olds[j] == x;
                        if j < i {
                            assert(news[j] == x);
                        } else {
                            assert(j != i);
                            assert(news[j - 1] == x);
                        }
                    }
                    if has_network(news, network_slug@) {
                        let j = choose|j: int|
                            0 <= j < news.len() && (#[trigger] news[j]).network.slug@
                                == network_slug@;
                        assert(news.contains(news[j]));
                    }
                }
            },
            None => {
                proof {
                    assert forall|x: NetworkWatcherState| #[trigger]
                        self.networks@.contains(x) implies x.network.slug@ != network_slug@ by {
                        let j = choose|j: int|
                            0 <= j < self.networks@.len() && self.networks@[j] == x;
                    }
                }
            },
        }
    }

    /// The slugs of registered networks whose scan loop is not running, in
    /// registry order: the loops that `start` should launch.
    pub fn networks_to_start(&self) -> (slugs: Vec<String>)
        ensures
            slugs@.len() == self.networks@.filter(|st: NetworkWatcherState| !st.is_running).len(),
            forall|x: int|
                0 <= x < slugs@.len() ==> (#[trigger] slugs@[x])@ == self.networks@.filter(
                    |st: NetworkWatcherState| !st.is_running,
                )[x].network.slug@,
    {
        let mut slugs: Vec<String> = Vec::new();
        let mut i: usize = 0;
        proof {
            assert(self.networks@.take(0) =~= Seq::<NetworkWatcherState>::empty());
            reveal(Seq::filter);
        }
        while i < self.networks.len()
            invariant
                i <= self.networks@.len(),
                slugs@.len() == self.networks@.take(i as int).filter(
                    |st: NetworkWatcherState| !st.is_running,
                ).len(),
                forall|x: int|
                    0 <= x < slugs@.len() ==> (#[trigger] slugs@[x])@ == self.networks@.take(
                        i as int,
                    ).filter(|st: NetworkWatcherState| !st.is_running)[x].network.slug@,
            decreases self.networks@.len() - i,
        {
            proof {
                assert(self.networks@.take(i + 1).drop_last() =~= self.networks@.take(i as int));
                assert(self.networks@.take(i + 1).last() == self.networks@[i as int]);
                reveal(Seq::filter);
            }
            if !self.networks[i].is_running {
                slugs.push(self.networks[i].network.slug.clone());
                proof {
                    reveal(Seq::filter);
                    assert(self.networks@.take(i + 1).filter(
                        |st: NetworkWatcherState| !st.is_running,
                    ) == self.networks@.take(i as int).filter(
                        |st: NetworkWatcherState| !st.is_running,
                    ).push(self.networks@[i as int]));
                }
            } else {
                proof {
                    reveal(Seq::filter);
                    assert(self.networks@.take(i + 1).filter(
                        |st: NetworkWatcherState| !st.is_running,
                    ) == self.networks@.take(i as int).filter(
                        |st: NetworkWatcherState| !st.is_running,
                    ));
                }
            }
            i = i + 1;
        }
        proof {
            assert(self.networks@.take(self.networks@.len() as int) =~= self.networks@);
        }
        slugs
    }

    /// Try to take the scan lease for a slug: succeeds exactly when the
    /// network is registered and no loop runs for it, and then marks it
    /// running. This check-and-set is what keeps the scanner single-writer
    /// per network.
    pub fn begin_scan(&mut self, slug: &str) -> (started: bool)
        requires
            old(self).wf(),
        ensures
            final(self).wf(),
            final(self).config == old(self).config,
            started == spec_can_begin(old(self).networks@, slug@),
            started ==> spec_is_running(final(self).networks@, slug@),
            started ==> final(self).networks@.len() == old(self).networks@.len() && (forall|j: int|
                0 <= j < final(self).networks@.len()
                    && (#[trigger] final(self).networks@[j]).network.slug@ != slug@ ==> final(self).networks@[j]
                    == old(self).networks@[j]) && (forall|j: int|
                0 <= j < final(self).networks@.len()
                    && (#[trigger] final(self).networks@[j]).network.slug@ == slug@ ==> final(self).networks@[j]
                    == (NetworkWatcherState { is_running: true, ..old(self).networks@[j] })),
            !started ==> *final(self) == *old(self),
    {
        match self.find_network(slug) {
            Some(i) => {
                proof {
                    let ci = network_index(self.networks@, slug@);
                    assert(self.networks@[ci].network.slug@ == slug@);
                    assert(ci == i);
                }
                if self.networks[i].is_running {
                    proof {
                        assert(!spec_can_begin(self.networks@, slug@));
                    }
                    false
                } else {
                    let ghost olds = self.networks@;
                    let mut st = self.networks.remove(i);
                    st.is_running = true;
                    proof {
                        assert(st == (NetworkWatcherState { is_running: true, ..olds[i as int] }));
                    }
                    self.networks.insert(i, st);
                    proof {
                        assert(self.networks@ =~= olds.update(
                            i as int,
                            (NetworkWatcherState { is_running: true, ..olds[i as int] }),
                        ));
                    }
                    proof {
                        let news = self.networks@;
                        assert forall|a: int, b: int| 0 <= a < b < news.len() implies (#[trigger] news[a]).network.slug@
                            != (#[trigger] news[b]).network.slug@ by {
                            assert(olds[a].network.slug@ != olds[b].network.slug@);
                            if a != i {
                                assert(news[a] == olds[a]);
                            }
                            if b != i {
                                assert(news[b] == olds[b]);
                            }
                        }
                        let ci2 = network_index(news, slug@);
                        assert(news[i as int].network.slug@ == slug@);
                        assert(has_network(news, slug@));
                        assert(news[ci2].network.slug@ == slug@);
                        assert(ci2 == i);
                    }
                    true
                }
            },
            None => {
                proof {
                    assert(!spec_can_begin(self.networks@, slug@));
                }
                false
            },
        }
    }

    /// Release the scan lease for a slug, if its network is still
    /// registered: the loop has exited.
    pub fn end_scan(&mut self, slug: &str)
        requires
            old(self).wf(),
        ensures
            final(self).wf(),
            final(self).config == old(self).config,
            !spec_is_running(final(self).networks@, slug@),
            final(self).networks@.len() == old(self).networks@.len(),
            forall|j: int|
                0 <= j < final(self).networks@.len()
                    && (#[trigger] final(self).networks@[j]).network.slug@ != slug@ ==> final(self).networks@[j]
                    == old(self).networks@[j],
            forall|j: int|
                0 <= j < final(self).networks@.len()
                    && (#[trigger] final(self).networks@[j]).network.slug@ == slug@ ==> final(self).networks@[j]
                    == (NetworkWatcherState { is_running: false, ..old(self).networks@[j] }),
    {
        match self.find_network(slug) {
            Some(i) => {
                let ghost olds = self.networks@;
                let mut st = self.networks.remove(i);
                st.is_running = false;
                proof {
                    assert(st == (NetworkWatcherState { is_running: false, ..olds[i as int] }));
                }
                self.networks.insert(i, st);
                proof {
                    assert(self.networks@ =~= olds.update(
                        i as int,
                        (NetworkWatcherState { is_running: false, ..olds[i as int] }),
                    ));
                }
                proof {
                    let news = self.networks@;
                    assert forall|a: int, b: int| 0 <= a < b < news.len() implies (#[trigger] news[a]).network.slug@
                        != (#[trigger] news[b]).network.slug@ by {
                        assert(olds[a].network.slug@ != olds[b].network.slug@);
                        if a != i {
                            assert(news[a] == olds[a]);
                        }
                        if b != i {
                            assert(news[b] == olds[b]);
                        }
                    }
                    if has_network(news, slug@) {
                        let ci = network_index(news, slug@);
                        assert(news[ci].network.slug@ == slug@);
                        assert(ci == i);
                    }
                }
            },
            None => {
                proof {
                    if has_network(self.networks@, slug@) {
                        let ci = network_index(self.networks@, slug@);
                        assert(self.networks@[ci].network.slug@ == slug@);
                        assert(has_network(self.networks@, slug@));
                    }
                }
            },
        }
    }

    /// The cursor for a slug, if its network is registered.
    pub fn last_processed(&self, slug: &str) -> (r: Option<u64>)
        requires
            self.wf(),
        ensures
            match r {
                Some(v) => has_network(self.networks@, slug@) && v == self.networks@[network_index(
                    self.networks@,
                    slug@,
                )].last_processed_block,
                None => !has_network(self.networks@, slug@),
            },
    {
        match self.find_network(slug) {
            Some(i) => {
                proof {
                    let ci = network_index(self.networks@, slug@);
                    assert(self.networks@[ci].network.slug@ == slug@);
                    assert(ci == i);
                }
                Some(self.networks[i].last_processed_block)
            },
            None => None,
        }
    }

    /// Commit a successful iteration: advance the cursor for the slug to
    /// the committed upper bound. The cursor never moves backwards.
    pub fn record_processed(&mut self, slug: &str, end: u64)
        requires
            old(self).wf(),
            has_network(old(self).networks@, slug@) ==> end >= old(self).networks@[network_index(
                old(self).networks@,
                slug@,
            )].last_processed_block,
        ensures
            final(self).wf(),
            final(self).config == old(self).config,
            final(self).networks@.len() == old(self).networks@.len(),
            forall|j: int|
                0 <= j < final(self).networks@.len()
                    && (#[trigger] final(self).networks@[j]).network.slug@ != slug@ ==> final(self).networks@[j]
                    == old(self).networks@[j],
            forall|j: int|
                0 <= j < final(self).networks@.len()
                    && (#[trigger] final(self).networks@[j]).network.slug@ == slug@ ==> final(self).networks@[j]
                    == (NetworkWatcherState { last_processed_block: end, ..old(self).networks@[j] })
                    && final(self).networks@[j].last_processed_block
                    >= old(self).networks@[j].last_processed_block,
    {
        match self.find_network(slug) {
            Some(i) => {
                let ghost olds = self.networks@;
                proof {
                    let ci = network_index(olds, slug@);
                    assert(olds[ci].network.slug@ == slug@);
                    assert(ci == i);
                }
                let mut st = self.networks.remove(i);
                st.last_processed_block = end;
                proof {
                    assert(st == (NetworkWatcherState {
                        last_processed_block: end,
                        ..olds[i as int]
                    }));
                }
                self.networks.insert(i, st);
                proof {
                    assert(self.networks@ =~= olds.update(
                        i as int,
                        (NetworkWatcherState { last_processed_block: end, ..olds[i as int] }),
                    ));
                }
                proof {
                    let news = self.networks@;
                    assert forall|a: int, b: int| 0 <= a < b < news.len() implies (#[trigger] news[a]).network.slug@
                        != (#[trigger] news[b]).network.slug@ by {
                        assert(olds[a].network.slug@ != olds[b].network.slug@);
                        if a != i {
                            assert(news[a] == olds[a]);
                        }
                        if b != i {
                            assert(news[b] == olds[b]);
                        }
                    }
                }
            },
            None => {
                proof {
                    assert forall|j: int|
                        0 <= j < self.networks@.len()
                            && (#[trigger] self.networks@[j]).network.slug@ == slug@ implies false by {
                        assert(has_network(self.networks@, slug@));
                    }
                }
            },
        }
    }
}

/// Single-writer: while a scan loop runs for a slug, `begin_scan` refuses to
/// hand out a second lease for it, so at any instant at most one loop runs
/// per network.
pub proof fn lemma_single_writer(ns: Seq<NetworkWatcherState>, slug: Seq<char>)
    requires
        networks_distinct(ns),
        spec_is_running(ns, slug),
    ensures
        !spec_can_begin(ns, slug),
{
}

/// How long a scan loop sleeps between iterations, by chain kind: EVM
/// chains 15 seconds, Stellar 5, anything else 30.
pub fn calculate_sleep_duration(network: &Network) -> (secs: u64)
    ensures
        secs == match network.network_type {
            BlockChainType::Evm => 15u64,
            BlockChainType::Stellar => 5u64,
            BlockChainType::Other => 30u64,
        },
{
    match network.network_type {
        BlockChainType::Evm => 15,
        BlockChainType::Stellar => 5,
        BlockChainType::Other => 30,
    }
}

/// The delay before retry attempt `attempt` (1-indexed): pure exponential
/// backoff, `base_delay_ms * 2^(attempt - 1)`, no jitter.
pub fn retry_delay_ms(base_delay_ms: u64, attempt: u32) -> (d: u64)
    requires
        attempt >= 1,
        attempt <= 64,
        base_delay_ms * pow2((attempt - 1) as nat) <= u64::MAX,
    ensures
        d == base_delay_ms * pow2((attempt - 1) as nat),
{
    if base_delay_ms == 0 {
        return 0;
    }
    let mut d: u64 = base_delay_ms;
    let mut k: u32 = 1;
    proof {
        vstd::arithmetic::power2::lemma2_to64();
        assert(pow2(0) == 1);
        assert(d == base_delay_ms * pow2(0));
    }
    while k < attempt
        invariant
            1 <= k <= attempt,
            attempt <= 64,
            d == base_delay_ms * pow2((k - 1) as nat),
            base_delay_ms >= 1,
            base_delay_ms * pow2((attempt - 1) as nat) <= u64::MAX,
        decreases attempt - k,
    {
        proof {
            assert(pow2(k as nat) == 2 * pow2((k - 1) as nat)) by {
                vstd::arithmetic::power2::lemma_pow2_adds(1, (k - 1) as nat);
                vstd::arithmetic::power2::lemma2_to64();
            }
            if k < attempt - 1 {
                vstd::arithmetic::power2::lemma_pow2_strictly_increases(
                    k as nat,
                    (attempt - 1) as nat,
                );
            }
            assert(pow2(k as nat) <= pow2((attempt - 1) as nat));
            assert(d * 2 == base_delay_ms * pow2(k as nat)) by (nonlinear_arith)
                requires
                    d == base_delay_ms * pow2((k - 1) as nat),
                    pow2(k as nat) == 2 * pow2((k - 1) as nat),
            ;
            assert(base_delay_ms * pow2(k as nat) <= base_delay_ms * pow2(
                (attempt - 1) as nat,
            )) by (nonlinear_arith)
                requires
                    pow2(k as nat) <= pow2((attempt - 1) as nat),
            ;
        }
        d = d * 2;
        k = k + 1;
    }
    d
}

} // verus!
