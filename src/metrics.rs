//! The metrics snapshot that the proxy sends: values grouped by scope (the
//! main process, each worker, each application cluster, each backend).
//!
//! Maps of the snapshot are held as vectors of `(key, value)` entries, in the
//! order in which they are walked (the proxy sends them sorted by key).

use vstd::prelude::*;

use crate::text::{decimal_text, push_decimal};

verus! {

/// A decimal number, `magnitude × 10^-scale`, negated when `negative` is set:
/// histogram bounds and sums such as `0.5` or `12.5`.
#[derive(Clone, Copy, Debug, PartialEq, Eq, Structural)]
pub struct Decimal {
    pub negative: bool,
    pub magnitude: u64,
    pub scale: u8,
}

impl Decimal {
    /// The whole number `n`.
    pub fn from_u64(n: u64) -> (r: Decimal)
        ensures
            r == (Decimal { negative: false, magnitude: n, scale: 0 }),
    {
        Decimal { negative: false, magnitude: n, scale: 0 }
    }

    /// The number `magnitude × 10^-scale`.
    pub fn new(magnitude: u64, scale: u8) -> (r: Decimal)
        ensures
            r == (Decimal { negative: false, magnitude, scale }),
    {
        Decimal { negative: false, magnitude, scale }
    }

    /// The shortest decimal text of the number (`0.5`, `12.5`; `1` for one).
    pub open spec fn text(self) -> Seq<char> {
        decimal_text(self.negative, self.magnitude as nat, self.scale as nat)
    }

    /// Appends the number's text to `out`.
    pub fn write_to(&self, out: &mut String)
        ensures
            final(out)@ == old(out)@ + self.text(),
    {
        push_decimal(out, self.negative, self.magnitude, self.scale)
    }

    /// The number's text.
    pub fn to_text(&self) -> (r: String)
        ensures
            r@ == self.text(),
    {
        let mut out = String::new();
        self.write_to(&mut out);
        out
    }
}

/// A count given as an unsigned number, capped at the largest `i64`.
pub fn saturating_count(v: u64) -> (r: i64)
    ensures
        r as int == if v <= i64::MAX as u64 {
            v as int
        } else {
            i64::MAX as int
        },
{
    if v <= i64::MAX as u64 {
        v as i64
    } else {
        i64::MAX
    }
}

/// One bucket of a histogram: how many observations were at most `le`.
#[derive(Clone, Copy, Debug, PartialEq, Eq, Structural)]
pub struct Bucket {
    pub le: Decimal,
    pub count: i64,
}

/// A histogram: its buckets in ascending bound order, the sum of the
/// observations and their number.
#[derive(Clone, Debug, PartialEq)]
pub struct Histogram {
    pub buckets: Vec<Bucket>,
    pub sum: Decimal,
    pub count: i64,
}

/// One observed value. `Unsupported` stands for what the exposition does not
/// carry (percentile summaries, time series) and for an absent value.
#[derive(Clone, Debug, PartialEq)]
pub enum MetricValue {
    Gauge(i64),
    Counter(i64),
    Duration(i64),
    Histogram(Histogram),
    Unsupported,
}

/// The kind that a value is announced with in the exposition.
#[derive(Clone, Copy, Debug, PartialEq, Eq, Structural)]
pub enum MetricType {
    Counter,
    Gauge,
    Histogram,
    Unsupported,
}

/// The exposition kind of a value: durations go with the unsupported ones.
pub open spec fn kind_of(v: MetricValue) -> MetricType {
    match v {
        MetricValue::Gauge(_) => MetricType::Gauge,
        MetricValue::Counter(_) => MetricType::Counter,
        MetricValue::Histogram(_) => MetricType::Histogram,
        MetricValue::Duration(_) => MetricType::Unsupported,
        MetricValue::Unsupported => MetricType::Unsupported,
    }
}

impl MetricValue {
    /// The exposition kind of this value.
    pub fn metric_type(&self) -> (r: MetricType)
        ensures
            r == kind_of(*self),
    {
        match self {
            MetricValue::Gauge(_) => MetricType::Gauge,
            MetricValue::Counter(_) => MetricType::Counter,
            MetricValue::Histogram(_) => MetricType::Histogram,
            MetricValue::Duration(_) => MetricType::Unsupported,
            MetricValue::Unsupported => MetricType::Unsupported,
        }
    }
}

impl MetricType {
    /// The word that names the kind on a `# TYPE` line.
    pub open spec fn name(self) -> Seq<char> {
        match self {
            MetricType::Counter => "counter"@,
            MetricType::Gauge => "gauge"@,
            MetricType::Histogram => "histogram"@,
            MetricType::Unsupported => "unsupported"@,
        }
    }

    /// The word that names the kind on a `# TYPE` line.
    pub fn as_str(&self) -> (r: &'static str)
        ensures
            r@ == self.name(),
    {
        match self {
            MetricType::Counter => "counter",
            MetricType::Gauge => "gauge",
            MetricType::Histogram => "histogram",
            MetricType::Unsupported => "unsupported",
        }
    }
}

/// Metric name → value, for one scope.
pub type MetricMap = Vec<(String, MetricValue)>;

/// The metrics of one backend of a cluster.
#[derive(Clone, Debug, PartialEq)]
pub struct BackendMetrics {
    pub backend_id: String,
    pub metrics: MetricMap,
}

/// The metrics of one application cluster: its own, then those of each of
/// its backends.
#[derive(Clone, Debug, PartialEq)]
pub struct ClusterMetrics {
    pub cluster: MetricMap,
    pub backends: Vec<BackendMetrics>,
}

/// The metrics of one proxy worker: its proxy-level ones, and its clusters
/// by cluster id.
#[derive(Clone, Debug, PartialEq)]
pub struct WorkerMetrics {
    pub proxy: MetricMap,
    pub clusters: Vec<(String, ClusterMetrics)>,
}

/// One complete metrics reply: the main process's metrics, each worker's by
/// worker id, and the clusters' metrics merged across workers by cluster id.
#[derive(Clone, Debug, PartialEq)]
pub struct Snapshot {
    pub main: MetricMap,
    pub workers: Vec<(String, WorkerMetrics)>,
    pub clusters: Vec<(String, ClusterMetrics)>,
}

impl Default for Snapshot {
    /// A snapshot without any value.
    fn default() -> (r: Snapshot)
        ensures
            r.main@.len() == 0,
            r.workers@.len() == 0,
            r.clusters@.len() == 0,
    {
        Snapshot { main: Vec::new(), workers: Vec::new(), clusters: Vec::new() }
    }
}

} // verus!
