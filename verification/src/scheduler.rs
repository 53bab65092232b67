//! The cache scheduler's decision core: a bounded FIFO job queue, per-kind
//! status records, and the shared generation context. The surrounding
//! process owns the single worker thread; it drives this state machine
//! through `try_schedule`, `worker_take` and `record_result`, so exactly one
//! job is ever marked running.
use vstd::prelude::*;
use crate::kmap::{KMap, MapKey};
use crate::types::{KPIConfig, Mapping};

verus! {

/// The three regenerable cache layers, in dependency order.
#[derive(Clone, Copy, PartialEq, Eq, Structural, Debug)]
pub enum CacheType {
    MissionRaw,
    MissionKPIRaw,
    GlobalKPIState,
}

impl MapKey for CacheType {
    type KV = CacheType;

    open spec fn key_view(&self) -> CacheType {
        *self
    }

    fn key_eq(&self, other: &Self) -> (r: bool) {
        *self == *other
    }

    fn key_dup(&self) -> (r: Self) {
        *self
    }
}

impl CacheType {
    /// The request path that triggers regeneration of this layer.
    pub fn url_path(&self) -> (r: &'static str)
        ensures
            r@ == spec_url_path(*self),
    {
        match self {
            CacheType::MissionRaw => "/cache/update_mission_raw",
            CacheType::MissionKPIRaw => "/cache/update_mission_kpi_raw",
            CacheType::GlobalKPIState => "/cache/update_global_kpi_state",
        }
    }
}

pub open spec fn spec_url_path(t: CacheType) -> Seq<char> {
    match t {
        CacheType::MissionRaw => "/cache/update_mission_raw"@,
        CacheType::MissionKPIRaw => "/cache/update_mission_kpi_raw"@,
        CacheType::GlobalKPIState => "/cache/update_global_kpi_state"@,
    }
}

/// The cache kinds a caller may request, `All` standing for the three in
/// dependency order.
#[derive(Clone, Copy, PartialEq, Eq, Structural, Debug)]
pub enum APICacheType {
    MissionRaw,
    MissionKPIRaw,
    GlobalKPIState,
    All,
}

/// A failure of one generation job.
pub enum CacheGenerationError {
    InternalError(String),
    ConfigError(String),
}

/// A failure on the cache read side: never generated, corrupted, or the
/// store was unreachable.
pub enum CacheError {
    NoData,
    MalformedData(String),
    InternalError(String),
}

/// Timing of one generation run: items processed, milliseconds loading from
/// the store, milliseconds computing.
#[derive(Clone, Copy, PartialEq, Eq, Structural, Debug)]
pub struct CacheTimeInfo {
    pub count: usize,
    pub load_from_db_ms: u64,
    pub generate_ms: u64,
}

/// The outcome of a scheduling request.
#[derive(Clone, Copy, PartialEq, Eq, Structural, Debug)]
pub enum ScheduleOutcome {
    Accepted,
    Busy,
    Dead,
}

/// The scheduler state: the bounded job queue, the worker's liveness and
/// busy flags, the per-kind status records, and the generation context.
pub struct CacheManager {
    /// Pending jobs, oldest first; never longer than `capacity`.
    pub queue: Vec<CacheType>,
    /// The queue bound; accepting past it would let callers pile up work.
    pub capacity: usize,
    /// False once the worker has terminated: scheduling is then impossible.
    pub worker_alive: bool,
    /// True exactly while the worker runs a job.
    pub working: bool,
    /// Per kind: timestamp of the last run and its outcome.
    pub cache_status: KMap<CacheType, (i64, Result<CacheTimeInfo, CacheGenerationError>)>,
    /// The content mappings the generators read.
    pub mapping: Mapping,
    /// The weight configuration; `None` until supplied.
    pub kpi_config: Option<KPIConfig>,
}

/// The sequence `try_schedule_all` submits, in dependency order.
pub open spec fn spec_all_order() -> Seq<CacheType> {
    seq![CacheType::MissionRaw, CacheType::MissionKPIRaw, CacheType::GlobalKPIState]
}

impl CacheManager {
    pub open spec fn wf(&self) -> bool {
        &&& self.queue@.len() <= self.capacity
        &&& self.cache_status.wf()
        &&& self.mapping.wf()
        &&& match self.kpi_config {
            Some(c) => c.wf(),
            None => true,
        }
    }

    /// A fresh scheduler with an empty queue and a live worker.
    pub fn new(capacity: usize, mapping: Mapping, kpi_config: Option<KPIConfig>) -> (r:
        CacheManager)
        requires
            mapping.wf(),
            match kpi_config {
                Some(c) => c.wf(),
                None => true,
            },
        ensures
            r.wf(),
            r.queue@.len() == 0,
            r.capacity == capacity,
            r.worker_alive,
            !r.working,
            r.cache_status.spec_len() == 0,
            r.mapping == mapping,
            r.kpi_config == kpi_config,
    {
        CacheManager {
            queue: Vec::new(),
            capacity,
            worker_alive: true,
            working: false,
            cache_status: KMap::empty(),
            mapping,
            kpi_config,
        }
    }

    /// Attempt a non-blocking enqueue. A full queue answers `Busy` and
    /// changes nothing: deliberate backpressure, not an error. `Dead` comes
    /// only once the worker has terminated.
    pub fn try_schedule(&mut self, cache_type: CacheType) -> (r: ScheduleOutcome)
        requires
            old(self).wf(),
        ensures
            final(self).wf(),
            final(self).capacity == old(self).capacity,
            final(self).worker_alive == old(self).worker_alive,
            final(self).working == old(self).working,
            final(self).cache_status == old(self).cache_status,
            final(self).mapping == old(self).mapping,
            final(self).kpi_config == old(self).kpi_config,
            !old(self).worker_alive ==> r == ScheduleOutcome::Dead && final(self).queue
                == old(self).queue,
            old(self).worker_alive && old(self).queue@.len() >= old(self).capacity ==> r
                == ScheduleOutcome::Busy && final(self).queue == old(self).queue,
            old(self).worker_alive && old(self).queue@.len() < old(self).capacity ==> r
                == ScheduleOutcome::Accepted && final(self).queue@ == old(self).queue@.push(
                cache_type,
            ),
    {
        if !self.worker_alive {
            ScheduleOutcome::Dead
        } else if self.queue.len() >= self.capacity {
            ScheduleOutcome::Busy
        } else {
            self.queue.push(cache_type);
            ScheduleOutcome::Accepted
        }
    }

    /// Attempt to enqueue all three kinds in dependency order, stopping at
    /// the first kind the queue cannot take; kinds already enqueued stay.
    pub fn try_schedule_all(&mut self) -> (r: ScheduleOutcome)
        requires
            old(self).wf(),
        ensures
            final(self).wf(),
            final(self).capacity == old(self).capacity,
            final(self).worker_alive == old(self).worker_alive,
            final(self).cache_status == old(self).cache_status,
            !old(self).worker_alive ==> r == ScheduleOutcome::Dead && final(self).queue
                == old(self).queue,
            old(self).worker_alive ==> {
                let free = old(self).capacity - old(self).queue@.len();
                if free >= 3 {
                    r == ScheduleOutcome::Accepted && final(self).queue@ == old(self).queue@
                        + spec_all_order()
                } else {
                    r == ScheduleOutcome::Busy && final(self).queue@ == old(self).queue@
                        + spec_all_order().take(free as int)
                }
            },
    {
        if !self.worker_alive {
            return ScheduleOutcome::Dead;
        }
        let kinds = [CacheType::MissionRaw, CacheType::MissionKPIRaw, CacheType::GlobalKPIState];
        let ghost q0 = self.queue@;
        let mut i: usize = 0;
        while i < 3
            invariant
                self.wf(),
                self.capacity == old(self).capacity,
                self.worker_alive == old(self).worker_alive,
                self.working == old(self).working,
                self.cache_status == old(self).cache_status,
                self.mapping == old(self).mapping,
                self.kpi_config == old(self).kpi_config,
                q0 == old(self).queue@,
                kinds@ =~= spec_all_order(),
                0 <= i <= 3,
                old(self).worker_alive,
                i as int <= old(self).capacity - q0.len(),
                self.queue@ == q0 + spec_all_order().take(i as int),
            decreases 3 - i,
        {
            let outcome = self.try_schedule(kinds[i]);
            match outcome {
                ScheduleOutcome::Accepted => {
                    proof {
                        assert(self.queue@ =~= q0 + spec_all_order().take(i as int + 1));
                    }
                },
                _ => {
                    proof {
                        assert(self.queue@.len() == old(self).capacity);
                        assert(self.queue@ =~= q0 + spec_all_order().take(
                            old(self).capacity - q0.len(),
                        ));
                    }
                    return ScheduleOutcome::Busy;
                },
            }
            i += 1;
        }
        proof {
            assert(spec_all_order().take(3) =~= spec_all_order());
        }
        ScheduleOutcome::Accepted
    }

    /// The worker takes the oldest pending job and marks itself busy; with
    /// nothing pending it stays idle.
    pub fn worker_take(&mut self) -> (r: Option<CacheType>)
        requires
            old(self).wf(),
        ensures
            final(self).wf(),
            final(self).capacity == old(self).capacity,
            final(self).worker_alive == old(self).worker_alive,
            final(self).cache_status == old(self).cache_status,
            final(self).mapping == old(self).mapping,
            final(self).kpi_config == old(self).kpi_config,
            match r {
                Some(t) => old(self).queue@.len() > 0 && t == old(self).queue@[0]
                    && final(self).queue@ == old(self).queue@.skip(1) && final(self).working,
                None => old(self).queue@.len() == 0 && final(self).queue == old(self).queue
                    && final(self).working == old(self).working,
            },
    {
        if self.queue.len() == 0 {
            None
        } else {
            let t = self.queue.remove(0);
            self.working = true;
            Some(t)
        }
    }

    /// The worker records a finished job's outcome and goes idle. The
    /// scheduler never fails on a failed job: it is recorded and later jobs
    /// still run.
    pub fn record_result(
        &mut self,
        cache_type: CacheType,
        timestamp: i64,
        result: Result<CacheTimeInfo, CacheGenerationError>,
    )
        requires
            old(self).wf(),
        ensures
            final(self).wf(),
            final(self).capacity == old(self).capacity,
            final(self).worker_alive == old(self).worker_alive,
            final(self).queue == old(self).queue,
            final(self).mapping == old(self).mapping,
            final(self).kpi_config == old(self).kpi_config,
            !final(self).working,
            final(self).cache_status.spec_get(cache_type) == Some((timestamp, result)),
            forall|t: CacheType|
                t != cache_type ==> final(self).cache_status.spec_get(t) == old(
                    self,
                ).cache_status.spec_get(t),
    {
        self.cache_status.set(&cache_type, (timestamp, result));
        self.working = false;
    }

    /// A read-only look at one kind's last outcome; never blocks on the
    /// worker.
    pub fn get_cache_status(&self, cache_type: &CacheType) -> (r: Option<
        &(i64, Result<CacheTimeInfo, CacheGenerationError>),
    >)
        requires
            self.wf(),
        ensures
            match r {
                Some(v) => self.cache_status.spec_get(*cache_type) == Some(*v),
                None => self.cache_status.spec_get(*cache_type) is None,
            },
    {
        self.cache_status.get(cache_type)
    }

    /// Replace the content mappings; takes effect on the next job.
    pub fn update_mapping(&mut self, mapping: Mapping)
        requires
            old(self).wf(),
            mapping.wf(),
        ensures
            final(self).wf(),
            final(self).mapping == mapping,
            final(self).queue == old(self).queue,
            final(self).capacity == old(self).capacity,
            final(self).worker_alive == old(self).worker_alive,
            final(self).working == old(self).working,
            final(self).cache_status == old(self).cache_status,
            final(self).kpi_config == old(self).kpi_config,
    {
        self.mapping = mapping;
    }

    /// Replace the weight configuration; takes effect on the next job.
    pub fn update_kpi_config(&mut self, kpi_config: KPIConfig)
        requires
            old(self).wf(),
            kpi_config.wf(),
        ensures
            final(self).wf(),
            final(self).kpi_config == Some(kpi_config),
            final(self).queue == old(self).queue,
            final(self).capacity == old(self).capacity,
            final(self).worker_alive == old(self).worker_alive,
            final(self).working == old(self).working,
            final(self).cache_status == old(self).cache_status,
            final(self).mapping == old(self).mapping,
    {
        self.kpi_config = Some(kpi_config);
    }

    pub fn is_working(&self) -> (r: bool)
        ensures
            r == self.working,
    {
        self.working
    }

    /// The KPI-dependent kinds are refused up front while no weight
    /// configuration has been supplied, distinctly from internal errors.
    pub fn require_kpi_config(&self) -> (r: Result<&KPIConfig, CacheGenerationError>)
        requires
            self.wf(),
        ensures
            match r {
                Ok(c) => self.kpi_config == Some(*c),
                Err(e) => self.kpi_config is None && e is ConfigError,
            },
            r is Ok <==> self.kpi_config is Some,
    {
        match &self.kpi_config {
            Some(c) => Ok(c),
            None => Err(CacheGenerationError::ConfigError("kpi config is not set".to_owned())),
        }
    }
}

} // verus!
