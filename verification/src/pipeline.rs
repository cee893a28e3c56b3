use vstd::prelude::*;

verus! {

/// The key of a cached pipeline: a device identifier and a kernel-function
/// identifier, both interned integers handed out by the device layer.
pub type PipelineKey = (u64, u64);

/// What a lookup-or-compile returns over a cache state: the pipeline already
/// cached under the key where there is one, else the freshly compiled one.
pub open spec fn served(m: Map<PipelineKey, u64>, device: u64, function: u64, compiled: u64) -> u64 {
    if m.contains_key((device, function)) {
        m[(device, function)]
    } else {
        compiled
    }
}

/// The cache state after a lookup-or-compile: unchanged on a hit, extended by
/// the freshly compiled pipeline on a miss.
pub open spec fn cached_after(
    m: Map<PipelineKey, u64>,
    device: u64,
    function: u64,
    compiled: u64,
) -> Map<PipelineKey, u64> {
    if m.contains_key((device, function)) {
        m
    } else {
        m.insert((device, function), compiled)
    }
}

/// First-writer-wins: once one lookup-or-compile for a key has completed,
/// every later lookup-or-compile for the same key — whatever it compiled —
/// returns the pipeline that call cached and leaves the cache unchanged. Two
/// racing compilations therefore never leave divergent entries for one key:
/// all callers observe the first writer's pipeline.
pub proof fn lemma_cache_single_winner(
    m: Map<PipelineKey, u64>,
    device: u64,
    function: u64,
    p1: u64,
    p2: u64,
)
    ensures
        served(cached_after(m, device, function, p1), device, function, p2) == served(
            m,
            device,
            function,
            p1,
        ),
        cached_after(cached_after(m, device, function, p1), device, function, p2) == cached_after(
            m,
            device,
            function,
            p1,
        ),
{
}

/// The cache entries as a map from key to pipeline handle.
pub(crate) open spec fn entries_map(s: Seq<(u64, u64, u64)>) -> Map<PipelineKey, u64>
    decreases s.len(),
{
    if s.len() == 0 {
        Map::empty()
    } else {
        entries_map(s.drop_last()).insert((s.last().0, s.last().1), s.last().2)
    }
}

/// No two entries share a key.
pub(crate) open spec fn entries_unique(s: Seq<(u64, u64, u64)>) -> bool {
    forall|i: int, j: int|
        0 <= i < j < s.len() ==> (#[trigger] s[i].0, s[i].1) != (#[trigger] s[j].0, s[j].1)
}

/// Entry `i` is visible in the entry map under its own key.
pub(crate) proof fn lemma_entries_map_get(s: Seq<(u64, u64, u64)>, i: int)
    requires
        entries_unique(s),
        0 <= i < s.len(),
    ensures
        entries_map(s).contains_key((s[i].0, s[i].1)),
        entries_map(s)[(s[i].0, s[i].1)] == s[i].2,
    decreases s.len(),
{
    if i == s.len() - 1 {
    } else {
        assert(entries_unique(s.drop_last())) by {
            assert(forall|a: int|
                0 <= a < s.drop_last().len() ==> #[trigger] s.drop_last()[a] == s[a]);
        }
        lemma_entries_map_get(s.drop_last(), i);
        assert((s[i].0, s[i].1) != (s.last().0, s.last().1));
    }
}

/// A key held by no entry is not in the entry map.
pub(crate) proof fn lemma_entries_map_none(s: Seq<(u64, u64, u64)>, k: PipelineKey)
    requires
        forall|i: int| 0 <= i < s.len() ==> (#[trigger] s[i].0, s[i].1) != k,
    ensures
        !entries_map(s).contains_key(k),
    decreases s.len(),
{
    if s.len() > 0 {
        lemma_entries_map_none(s.drop_last(), k);
    }
}

/// A process-wide cache of compiled compute pipelines, keyed by device and
/// kernel function. A lookup-or-compile that races another for the same key
/// keeps the entry that arrived first and returns it, so all callers observe
/// one pipeline per key.
pub struct PipelineCache {
    entries: Vec<(u64, u64, u64)>,
}

impl PipelineCache {
    /// The cached pipelines, as a map from key to pipeline handle.
    pub closed spec fn cache_map(self) -> Map<PipelineKey, u64> {
        entries_map(self.entries@)
    }

    /// No two cache entries share a key.
    pub closed spec fn wf(self) -> bool {
        entries_unique(self.entries@)
    }

    /// The empty cache.
    pub fn new() -> (c: PipelineCache)
        ensures
            c.wf(),
            c.cache_map() == Map::<PipelineKey, u64>::empty(),
    {
        PipelineCache { entries: Vec::new() }
    }

    /// Returns the pipeline cached for the device and function, where one is.
    pub fn lookup(&self, device: u64, function: u64) -> (r: Option<u64>)
        requires
            self.wf(),
        ensures
            match r {
                Some(p) => self.cache_map().contains_key((device, function)) && p
                    == self.cache_map()[(device, function)],
                None => !self.cache_map().contains_key((device, function)),
            },
    {
        let n = self.entries.len();
        let mut i: usize = 0;
        while i < n
            invariant
                0 <= i <= n,
                n == self.entries@.len(),
                entries_unique(self.entries@),
                forall|j: int|
                    0 <= j < i ==> (#[trigger] self.entries@[j].0, self.entries@[j].1) != (
                    device,
                    function,
                ),
            decreases n - i,
        {
            let e = self.entries[i];
            if e.0 == device && e.1 == function {
                proof {
                    lemma_entries_map_get(self.entries@, i as int);
                }
                return Some(e.2);
            }
            i += 1;
        }
        proof {
            lemma_entries_map_none(self.entries@, (device, function));
        }
        None
    }

    /// Looks the key up and, where nothing is cached yet, caches `compiled`:
    /// the first writer wins, and the returned pipeline is the cached one on
    /// a hit and `compiled` on a miss.
    pub fn get_or_insert(&mut self, device: u64, function: u64, compiled: u64) -> (r: u64)
        requires
            old(self).wf(),
        ensures
            final(self).wf(),
            r == served(old(self).cache_map(), device, function, compiled),
            final(self).cache_map() == cached_after(old(self).cache_map(), device, function, compiled),
            final(self).cache_map().contains_key((device, function)),
    {
        match self.lookup(device, function) {
            Some(p) => p,
            None => {
                let ghost s0 = self.entries@;
                proof {
                    assert forall|j: int|
                        0 <= j < s0.len() implies (#[trigger] s0[j].0, s0[j].1) != (
                    device,
                    function,
                    ) by {
                        if (s0[j].0, s0[j].1) == (device, function) {
                            lemma_entries_map_get(s0, j);
                        }
                    }
                }
                self.entries.push((device, function, compiled));
                proof {
                    assert(self.entries@.drop_last() =~= s0);
                    assert(self.entries@.last() == (device, function, compiled));
                    assert(entries_unique(self.entries@)) by {
                        assert(forall|j: int|
                            0 <= j < s0.len() ==> #[trigger] self.entries@[j] == s0[j]);
                        assert(forall|j: int|
                            0 <= j < s0.len() ==> (#[trigger] s0[j].0, s0[j].1) != (
                            device,
                            function,
                            ));
                    }
                }
                compiled
            },
        }
    }
}

} // verus!
