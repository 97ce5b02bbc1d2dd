//! The conversion engine: a metrics snapshot becomes exposition text, one
//! `# TYPE` line for each metric name followed by the lines of its samples.

use vstd::prelude::*;

use crate::metrics::{
    kind_of, BackendMetrics, Bucket, ClusterMetrics, Decimal, Histogram, MetricMap, MetricType, MetricValue,
    Snapshot, WorkerMetrics,
};
use crate::percent::{url_encode, url_encoded};
use crate::text::{int_text, push_char, push_int, push_str};

verus! {

/// A label as it is written: its key and its percent-encoded value.
pub type LabelText = (Seq<char>, Seq<char>);

/// What a labeled metric stands for: the metric's name as the proxy gave it,
/// the labels of its scope, and its value.
pub struct SampleView {
    pub name: Seq<char>,
    pub labels: Seq<LabelText>,
    pub value: MetricValue,
}

/// One value of a snapshot with the labels of the scope it was found in.
pub struct LabeledMetric {
    pub metric_name: String,
    /// Keys and percent-encoded values, in the order they were added.
    pub labels: Vec<(String, String)>,
    pub value: MetricValue,
}

/// The labels as they are written.
pub open spec fn label_texts(labels: Seq<(String, String)>) -> Seq<LabelText> {
    labels.map_values(|l: (String, String)| (l.0@, l.1@))
}

impl View for LabeledMetric {
    type V = SampleView;

    open spec fn view(&self) -> SampleView {
        SampleView {
            name: self.metric_name@,
            labels: label_texts(self.labels@),
            value: self.value,
        }
    }
}

/// A metric name as the exposition writes it: each `.` becomes `_`.
pub open spec fn sanitized(name: Seq<char>) -> Seq<char> {
    name.map_values(|c: char| if c == '.' { '_' } else { c })
}

/// One label written out: `key="value"`.
pub open spec fn label_text(l: LabelText) -> Seq<char> {
    l.0 + "=\""@ + l.1 + "\""@
}

/// The labels written out, joined by commas (nothing for no label).
pub open spec fn labels_text(labels: Seq<LabelText>) -> Seq<char>
    decreases labels.len(),
{
    if labels.len() == 0 {
        Seq::<char>::empty()
    } else if labels.len() == 1 {
        label_text(labels[0])
    } else {
        labels_text(labels.drop_last()) + seq![','] + label_text(labels.last())
    }
}

/// A sample line: `<name><suffix>{<labels>} <value>`.
pub open spec fn series_line(
    name: Seq<char>,
    suffix: Seq<char>,
    labels: Seq<LabelText>,
    value: Seq<char>,
) -> Seq<char> {
    name + suffix + seq!['{'] + labels_text(labels) + seq!['}', ' '] + value
}

/// The line of one histogram bucket: its bound is one more label, `le`.
pub open spec fn bucket_line(name: Seq<char>, labels: Seq<LabelText>, b: Bucket) -> Seq<char> {
    series_line(name, "_bucket"@, labels.push(("le"@, b.le.text())), int_text(b.count as int))
}

/// The lines of a histogram: one per bucket, then the sum and the count.
pub open spec fn histogram_lines(name: Seq<char>, labels: Seq<LabelText>, h: Histogram) -> Seq<
    Seq<char>,
> {
    h.buckets@.map_values(|b: Bucket| bucket_line(name, labels, b)) + seq![
        series_line(name, "_sum"@, labels, h.sum.text()),
        series_line(name, "_count"@, labels, int_text(h.count as int)),
    ]
}

/// The lines that one value is written as, under the printable name `name`:
/// one for a counter or a gauge; one per bucket, then the sum and the count,
/// for a histogram; one empty line for a value that is not carried.
pub open spec fn value_lines(name: Seq<char>, labels: Seq<LabelText>, v: MetricValue) -> Seq<
    Seq<char>,
> {
    match v {
        MetricValue::Gauge(x) => seq![series_line(name, Seq::empty(), labels, int_text(x as int))],
        MetricValue::Counter(x) => seq![
            series_line(name, Seq::empty(), labels, int_text(x as int)),
        ],
        MetricValue::Histogram(h) => histogram_lines(name, labels, h),
        _ => seq![Seq::<char>::empty()],
    }
}

/// The `# TYPE` line of a metric name.
pub open spec fn type_line_text(name: Seq<char>, kind: MetricType) -> Seq<char> {
    "# TYPE "@ + sanitized(name) + seq![' '] + kind.name()
}

/// The lines of text that one sample is written as.
pub open spec fn sample_texts(m: SampleView) -> Seq<Seq<char>> {
    value_lines(sanitized(m.name), m.labels, m.value)
}

/// Text lines joined into one text, each ended by a line break.
pub open spec fn joined(lines: Seq<Seq<char>>) -> Seq<char> {
    lines.map_values(|l: Seq<char>| l.push('\n')).flatten()
}

impl LabeledMetric {
    /// A metric with no name and no label yet.
    pub fn new(value: MetricValue) -> (r: LabeledMetric)
        ensures
            r@ == (SampleView { name: Seq::empty(), labels: Seq::empty(), value }),
    {
        let r = LabeledMetric { metric_name: String::new(), labels: Vec::new(), value };
        assert(r@.labels =~= Seq::<LabelText>::empty());
        r
    }

    /// Sets the metric's name.
    pub fn with_name(&mut self, name: &str)
        ensures
            final(self)@ == (SampleView { name: name@, ..old(self)@ }),
    {
        self.metric_name = name.to_owned();
    }

    /// Adds a label; its value is percent-encoded.
    pub fn with_label(&mut self, label_name: &str, label_value: &str)
        ensures
            final(self)@ == (SampleView {
                labels: old(self)@.labels.push((label_name@, url_encoded(label_value@))),
                ..old(self)@
            }),
    {
        let encoded = url_encode(label_value);
        self.labels.push((label_name.to_owned(), encoded));
        assert(self@.labels =~= old(self)@.labels.push((label_name@, url_encoded(label_value@))));
    }

    /// The exposition kind of the value.
    pub fn metric_type(&self) -> (r: MetricType)
        ensures
            r == kind_of(self.value),
    {
        self.value.metric_type()
    }

    /// The name with each `.` replaced by `_`.
    pub fn printable_name(&self) -> (r: String)
        ensures
            r@ == sanitized(self.metric_name@),
    {
        replace_dots_with_underscores(self.metric_name.as_str())
    }

    /// The `# TYPE` line of this metric (without its line break), as in
    /// `# TYPE protocol_https gauge`.
    pub fn type_line(&self) -> (r: String)
        ensures
            r@ == type_line_text(self.metric_name@, kind_of(self.value)),
    {
        let mut out = String::new();
        push_str(&mut out, "# TYPE ");
        let name = self.printable_name();
        push_str(&mut out, name.as_str());
        push_char(&mut out, ' ');
        push_str(&mut out, self.metric_type().as_str());
        assert(out@ =~= type_line_text(self.metric_name@, kind_of(self.value)));
        out
    }

    /// Appends the lines of this sample, each ended by a line break: one
    /// for a counter or a gauge, one per bucket then the sum and the count
    /// for a histogram, and an empty one for a value that is not carried.
    pub fn write_metric_lines(&self, out: &mut String)
        ensures
            final(out)@ == old(out)@ + joined(sample_texts(self@)),
    {
        let name = self.printable_name();
        let ghost p = name@;
        let ghost labels = self@.labels;
        let ghost start = out@;
        proof {
            reveal_strlit("");
        }
        match &self.value {
            MetricValue::Gauge(x) => {
                write_series_head(out, name.as_str(), "", &self.labels, None);
                push_int(out, *x);
                push_char(out, '\n');
                proof {
                    lemma_joined_one(series_line(p, Seq::empty(), labels, int_text(*x as int)));
                }
                assert(out@ =~= start + joined(sample_texts(self@)));
            },
            MetricValue::Counter(x) => {
                write_series_head(out, name.as_str(), "", &self.labels, None);
                push_int(out, *x);
                push_char(out, '\n');
                proof {
                    lemma_joined_one(series_line(p, Seq::empty(), labels, int_text(*x as int)));
                }
                assert(out@ =~= start + joined(sample_texts(self@)));
            },
            MetricValue::Histogram(h) => {
                write_histogram_lines(out, &name, &self.labels, h);
            },
            _ => {
                push_char(out, '\n');
                proof {
                    lemma_joined_one(Seq::empty());
                }
                assert(out@ =~= start + joined(sample_texts(self@)));
            },
        }
    }

    /// The labels written out and comma-joined, as in
    /// `worker="0",cluster_id="api"`.
    pub fn formatted_labels(&self) -> (r: String)
        ensures
            r@ == labels_text(self@.labels),
    {
        let mut out = String::new();
        write_labels(&mut out, &self.labels, None);
        assert(label_texts(self.labels@) == self@.labels);
        out
    }
}

/// Joining one more line adds it and its line break at the end.
proof fn lemma_joined_push(lines: Seq<Seq<char>>, l: Seq<char>)
    ensures
        joined(lines.push(l)) == joined(lines) + l.push('\n'),
{
    let f = |x: Seq<char>| x.push('\n');
    assert(lines.push(l).map_values(f) =~= lines.map_values(f).push(l.push('\n')));
    lines.map_values(f).lemma_flatten_push(l.push('\n'));
}

/// One line joined is that line and its line break.
proof fn lemma_joined_one(l: Seq<char>)
    ensures
        joined(seq![l]) == l.push('\n'),
{
    lemma_joined_push(Seq::empty(), l);
    assert(Seq::<Seq<char>>::empty().push(l) =~= seq![l]);
    assert(joined(Seq::<Seq<char>>::empty()) =~= Seq::<char>::empty());
}

/// Joining two runs of lines is joining each and putting them together.
proof fn lemma_joined_concat(a: Seq<Seq<char>>, b: Seq<Seq<char>>)
    ensures
        joined(a + b) == joined(a) + joined(b),
{
    let f = |x: Seq<char>| x.push('\n');
    assert((a + b).map_values(f) =~= a.map_values(f) + b.map_values(f));
    vstd::seq_lib::lemma_flatten_concat(a.map_values(f), b.map_values(f));
}

/// Appends the line of one histogram bucket and its line break.
fn write_bucket_line(out: &mut String, name: &String, labels: &Vec<(String, String)>, b: Bucket)
    ensures
        final(out)@ == old(out)@ + bucket_line(name@, label_texts(labels@), b).push('\n'),
{
    let le = b.le.to_text();
    write_series_head(out, name.as_str(), "_bucket", labels, Some(&le));
    push_int(out, b.count);
    push_char(out, '\n');
    assert(final(out)@ =~= old(out)@ + bucket_line(name@, label_texts(labels@), b).push('\n'));
}

/// Appends the lines of a histogram, each ended by a line break.
fn write_histogram_lines(
    out: &mut String,
    name: &String,
    labels: &Vec<(String, String)>,
    h: &Histogram,
)
    ensures
        final(out)@ == old(out)@ + joined(histogram_lines(name@, label_texts(labels@), *h)),
{
    let ghost p = name@;
    let ghost ls = label_texts(labels@);
    let ghost start = out@;
    let ghost texts = h.buckets@.map_values(|b: Bucket| bucket_line(p, ls, b));
    let n = h.buckets.len();
    for i in 0..n
        invariant
            n == h.buckets@.len(),
            texts == h.buckets@.map_values(|b: Bucket| bucket_line(p, ls, b)),
            p == name@,
            ls == label_texts(labels@),
            out@ == start + joined(texts.take(i as int)),
    {
        write_bucket_line(out, name, labels, h.buckets[i]);
        proof {
            lemma_joined_push(texts.take(i as int), texts[i as int]);
            assert(texts.take(i as int + 1) =~= texts.take(i as int).push(texts[i as int]));
        }
        assert(out@ =~= start + joined(texts.take(i as int + 1)));
    }
    assert(texts.take(n as int) =~= texts);
    let ghost after_buckets = out@;
    write_sum_and_count_lines(out, name, labels, h.sum, h.count);
    proof {
        let tail = seq![
            series_line(p, "_sum"@, ls, h.sum.text()),
            series_line(p, "_count"@, ls, int_text(h.count as int)),
        ];
        lemma_joined_concat(texts, tail);
    }
}

/// Appends the sum line and the count line of a histogram.
fn write_sum_and_count_lines(
    out: &mut String,
    name: &String,
    labels: &Vec<(String, String)>,
    sum: Decimal,
    count: i64,
)
    ensures
        final(out)@ == old(out)@ + joined(
            seq![
                series_line(name@, "_sum"@, label_texts(labels@), sum.text()),
                series_line(name@, "_count"@, label_texts(labels@), int_text(count as int)),
            ],
        ),
{
    let ghost p = name@;
    let ghost ls = label_texts(labels@);
    write_series_head(out, name.as_str(), "_sum", labels, None);
    sum.write_to(out);
    push_char(out, '\n');
    let ghost sum_line = series_line(p, "_sum"@, ls, sum.text());
    assert(out@ =~= old(out)@ + sum_line.push('\n'));
    let ghost after_sum = out@;
    write_series_head(out, name.as_str(), "_count", labels, None);
    push_int(out, count);
    push_char(out, '\n');
    let ghost count_line = series_line(p, "_count"@, ls, int_text(count as int));
    assert(out@ =~= after_sum + count_line.push('\n'));
    proof {
        lemma_joined_push(seq![sum_line], count_line);
        lemma_joined_one(sum_line);
        assert(seq![sum_line].push(count_line) =~= seq![sum_line, count_line]);
    }
}

/// Appends the head of a sample line: `<name><suffix>{<labels>} `, with the
/// bucket bound `le` as a last label if one is given.
fn write_series_head(
    out: &mut String,
    name: &str,
    suffix: &str,
    labels: &Vec<(String, String)>,
    le: Option<&String>,
)
    ensures
        final(out)@ == old(out)@ + name@ + suffix@ + seq!['{'] + labels_text(
            match le {
                Some(b) => label_texts(labels@).push(("le"@, b@)),
                None => label_texts(labels@),
            },
        ) + seq!['}', ' '],
{
    push_str(out, name);
    push_str(out, suffix);
    push_char(out, '{');
    write_labels(out, labels, le);
    push_char(out, '}');
    push_char(out, ' ');
    assert(final(out)@ =~= old(out)@ + name@ + suffix@ + seq!['{'] + labels_text(
        match le {
            Some(b) => label_texts(labels@).push(("le"@, b@)),
            None => label_texts(labels@),
        },
    ) + seq!['}', ' ']);
}

/// Appends `labels`, comma-joined, then the bucket bound `le` if one is
/// given.
fn write_labels(out: &mut String, labels: &Vec<(String, String)>, le: Option<&String>)
    ensures
        final(out)@ == old(out)@ + labels_text(
            match le {
                Some(b) => label_texts(labels@).push(("le"@, b@)),
                None => label_texts(labels@),
            },
        ),
{
    let ghost start = out@;
    let n = labels.len();
    let mut i: usize = 0;
    while i < n
        invariant
            n == labels@.len(),
            i <= n,
            out@ == start + labels_text(label_texts(labels@).take(i as int)),
        decreases n - i,
    {
        let ghost before = label_texts(labels@).take(i as int);
        let ghost after = label_texts(labels@).take(i as int + 1);
        assert(after.drop_last() =~= before);
        assert(after.last() == (labels@[i as int].0@, labels@[i as int].1@));
        if i > 0 {
            push_char(out, ',');
        }
        push_label(out, labels[i].0.as_str(), labels[i].1.as_str());
        i = i + 1;
        assert(out@ =~= start + labels_text(after));
    }
    assert(label_texts(labels@).take(n as int) =~= label_texts(labels@));
    match le {
        Some(b) => {
            let ghost all = label_texts(labels@);
            let ghost with_le = all.push(("le"@, b@));
            assert(with_le.drop_last() =~= all);
            if n > 0 {
                push_char(out, ',');
            }
            push_label(out, "le", b.as_str());
            assert(out@ =~= start + labels_text(with_le));
        },
        None => {},
    }
}

/// Appends `key="value"`.
fn push_label(out: &mut String, key: &str, value: &str)
    ensures
        final(out)@ == old(out)@ + label_text((key@, value@)),
{
    push_str(out, key);
    push_str(out, "=\"");
    push_str(out, value);
    push_str(out, "\"");
    assert(out@ =~= old(out)@ + label_text((key@, value@)));
}

/// The name with each `.` replaced by `_`.
pub fn replace_dots_with_underscores(s: &str) -> (r: String)
    ensures
        r@ == sanitized(s@),
{
    let mut out = String::new();
    let ghost chars = s@;
    for c in it: s.chars()
        invariant
            it.seq() == chars,
            out@ == sanitized(chars.take(it.index() as int)),
    {
        push_char(&mut out, if c == '.' { '_' } else { c });
        assert(out@ =~= sanitized(chars.take(it.index() as int + 1)));
    }
    assert(chars.take(chars.len() as int) =~= chars);
    out
}

/// The label `key` with the percent-encoded `value`, where there is a value.
pub open spec fn optional_label(key: Seq<char>, value: Option<Seq<char>>) -> Seq<LabelText> {
    match value {
        Some(v) => seq![(key, url_encoded(v))],
        None => Seq::empty(),
    }
}

/// The labels of a scope: the worker, the cluster and the backend that it
/// lies in, each where there is one, in that order.
pub open spec fn scope_labels(
    worker: Option<Seq<char>>,
    cluster: Option<Seq<char>>,
    backend: Option<Seq<char>>,
) -> Seq<LabelText> {
    optional_label("worker"@, worker) + optional_label("cluster_id"@, cluster) + optional_label(
        "backend_id"@,
        backend,
    )
}

/// The samples of one scope's metric map, in the map's order.
pub open spec fn scope_samples(entries: Seq<(String, MetricValue)>, labels: Seq<LabelText>) -> Seq<
    SampleView,
> {
    entries.map_values(
        |e: (String, MetricValue)| SampleView { name: e.0@, labels: labels, value: e.1 },
    )
}

/// The samples of one cluster: its own metrics, then each backend's.
pub open spec fn cluster_samples(
    worker: Option<Seq<char>>,
    id: Seq<char>,
    c: ClusterMetrics,
) -> Seq<SampleView> {
    scope_samples(c.cluster@, scope_labels(worker, Some(id), None)) + c.backends@.map_values(
        |b: BackendMetrics|
            scope_samples(b.metrics@, scope_labels(worker, Some(id), Some(b.backend_id@))),
    ).flatten()
}

/// The samples of a map of clusters, cluster after cluster.
pub open spec fn clusters_samples(
    worker: Option<Seq<char>>,
    clusters: Seq<(String, ClusterMetrics)>,
) -> Seq<SampleView> {
    clusters.map_values(|e: (String, ClusterMetrics)| cluster_samples(worker, e.0@, e.1)).flatten()
}

/// The samples of one worker: its proxy metrics, then its clusters'.
pub open spec fn worker_samples(id: Seq<char>, w: WorkerMetrics) -> Seq<SampleView> {
    scope_samples(w.proxy@, scope_labels(Some(id), None, None)) + clusters_samples(
        Some(id),
        w.clusters@,
    )
}

/// The samples of a snapshot, depth first: the main process, each worker
/// (its proxy metrics, then its clusters and their backends), then the
/// clusters merged across workers and their backends.
pub open spec fn snapshot_samples(s: Snapshot) -> Seq<SampleView> {
    scope_samples(s.main@, Seq::empty()) + s.workers@.map_values(
        |e: (String, WorkerMetrics)| worker_samples(e.0@, e.1),
    ).flatten() + clusters_samples(None, s.clusters@)
}

/// What a vector of labeled metrics stands for.
pub open spec fn views(ms: Seq<LabeledMetric>) -> Seq<SampleView> {
    ms.map_values(|m: LabeledMetric| m@)
}

/// The text of an optional identifier.
pub open spec fn optional_text(o: Option<&String>) -> Option<Seq<char>> {
    match o {
        Some(s) => Some(s@),
        None => None,
    }
}

/// Taking one more element of a sequence adds its image at the end of a
/// flattened map.
proof fn lemma_flatten_map_take<A, B>(xs: Seq<A>, f: spec_fn(A) -> Seq<B>, i: int)
    requires
        0 <= i < xs.len(),
    ensures
        xs.take(i + 1).map_values(f).flatten() == xs.take(i).map_values(f).flatten() + f(xs[i]),
{
    assert(xs.take(i + 1).map_values(f) =~= xs.take(i).map_values(f).push(f(xs[i])));
    xs.take(i).map_values(f).lemma_flatten_push(f(xs[i]));
}

/// A labeled metric for a value found in a scope.
fn scoped_metric(
    value: MetricValue,
    name: &str,
    worker: Option<&String>,
    cluster: Option<&String>,
    backend: Option<&String>,
) -> (r: LabeledMetric)
    ensures
        r@ == (SampleView {
            name: name@,
            labels: scope_labels(
                optional_text(worker),
                optional_text(cluster),
                optional_text(backend),
            ),
            value,
        }),
{
    let mut m = LabeledMetric::new(value);
    m.with_name(name);
    let ghost after_worker = optional_label("worker"@, optional_text(worker));
    let ghost after_cluster = after_worker + optional_label("cluster_id"@, optional_text(cluster));
    match worker {
        Some(w) => m.with_label("worker", w.as_str()),
        None => {},
    }
    assert(m@.labels =~= after_worker);
    match cluster {
        Some(c) => m.with_label("cluster_id", c.as_str()),
        None => {},
    }
    assert(m@.labels =~= after_cluster);
    match backend {
        Some(b) => m.with_label("backend_id", b.as_str()),
        None => {},
    }
    assert(m@.labels =~= scope_labels(
        optional_text(worker),
        optional_text(cluster),
        optional_text(backend),
    ));
    m
}

/// Appends the samples of one scope's metric map.
fn add_scope(
    out: &mut Vec<LabeledMetric>,
    entries: MetricMap,
    worker: Option<&String>,
    cluster: Option<&String>,
    backend: Option<&String>,
)
    ensures
        views(final(out)@) == views(old(out)@) + scope_samples(
            entries@,
            scope_labels(optional_text(worker), optional_text(cluster), optional_text(backend)),
        ),
{
    let ghost all = entries@;
    let ghost labels = scope_labels(
        optional_text(worker),
        optional_text(cluster),
        optional_text(backend),
    );
    let ghost start = views(out@);
    for entry in it: entries
        invariant
            it.seq() == all,
            labels == scope_labels(
                optional_text(worker),
                optional_text(cluster),
                optional_text(backend),
            ),
            views(out@) == start + scope_samples(all.take(it.index() as int), labels),
    {
        let ghost i = it.index() as int;
        let ghost before = out@;
        let (name, value) = entry;
        let m = scoped_metric(value, name.as_str(), worker, cluster, backend);
        assert(m@ == (SampleView { name: all[i].0@, labels: labels, value: all[i].1 }));
        out.push(m);
        assert(views(out@) =~= views(before).push(m@));
        assert(scope_samples(all.take(i + 1), labels) =~= scope_samples(all.take(i), labels).push(
            m@,
        ));
        assert(views(out@) =~= start + scope_samples(all.take(i + 1), labels));
    }
    assert(all.take(all.len() as int) =~= all);
}

/// Appends the samples of a map of clusters and of their backends.
fn add_clusters(
    out: &mut Vec<LabeledMetric>,
    clusters: Vec<(String, ClusterMetrics)>,
    worker: Option<&String>,
)
    ensures
        views(final(out)@) == views(old(out)@) + clusters_samples(optional_text(worker), clusters@),
{
    let ghost all = clusters@;
    let ghost w = optional_text(worker);
    let ghost f = |e: (String, ClusterMetrics)| cluster_samples(w, e.0@, e.1);
    let ghost start = views(out@);
    for entry in it: clusters
        invariant
            it.seq() == all,
            w == optional_text(worker),
            f == (|e: (String, ClusterMetrics)| cluster_samples(w, e.0@, e.1)),
            views(out@) == start + all.take(it.index() as int).map_values(f).flatten(),
    {
        let ghost i = it.index() as int;
        let ghost before = views(out@);
        let (id, c) = entry;
        let ClusterMetrics { cluster, backends } = c;
        let ghost own = scope_samples(cluster@, scope_labels(w, Some(id@), None));
        let ghost g = |b: BackendMetrics|
            scope_samples(b.metrics@, scope_labels(w, Some(id@), Some(b.backend_id@)));
        let ghost all_backends = backends@;
        add_scope(out, cluster, worker, Some(&id), None);
        for backend in bit: backends
            invariant
                bit.seq() == all_backends,
                w == optional_text(worker),
                g == (|b: BackendMetrics|
                    scope_samples(b.metrics@, scope_labels(w, Some(id@), Some(b.backend_id@)))),
                views(out@) == before + own + all_backends.take(bit.index() as int).map_values(
                    g,
                ).flatten(),
        {
            proof {
                lemma_flatten_map_take(all_backends, g, bit.index() as int);
            }
            let BackendMetrics { backend_id, metrics } = backend;
            add_scope(out, metrics, worker, Some(&id), Some(&backend_id));
            assert(views(out@) =~= before + own + all_backends.take(
                bit.index() as int + 1,
            ).map_values(g).flatten());
        }
        proof {
            assert(all_backends.take(all_backends.len() as int) =~= all_backends);
            lemma_flatten_map_take(all, f, i);
            assert(all[i] == (id, c));
        }
        assert(views(out@) =~= start + all.take(i + 1).map_values(f).flatten());
    }
    assert(all.take(all.len() as int) =~= all);
}

/// The labeled metrics of a snapshot, in the order in which it is walked
/// depth first.
pub fn apply_labels(snapshot: Snapshot) -> (r: Vec<LabeledMetric>)
    ensures
        views(r@) == snapshot_samples(snapshot),
{
    let ghost whole = snapshot;
    let Snapshot { main, workers, clusters } = snapshot;
    let mut out: Vec<LabeledMetric> = Vec::new();
    add_scope(&mut out, main, None, None, None);
    assert(scope_labels(None, None, None) =~= Seq::<LabelText>::empty());
    let ghost after_main = views(out@);
    let ghost all = workers@;
    let ghost f = |e: (String, WorkerMetrics)| worker_samples(e.0@, e.1);
    for entry in it: workers
        invariant
            it.seq() == all,
            f == (|e: (String, WorkerMetrics)| worker_samples(e.0@, e.1)),
            views(out@) == after_main + all.take(it.index() as int).map_values(f).flatten(),
    {
        let ghost i = it.index() as int;
        let ghost before = views(out@);
        proof {
            lemma_flatten_map_take(all, f, i);
        }
        let (id, w) = entry;
        let WorkerMetrics { proxy, clusters: worker_clusters } = w;
        add_scope(&mut out, proxy, Some(&id), None, None);
        add_clusters(&mut out, worker_clusters, Some(&id));
        assert(all[i] == (id, w));
        assert(views(out@) =~= after_main + all.take(i + 1).map_values(f).flatten());
    }
    assert(all.take(all.len() as int) =~= all);
    add_clusters(&mut out, clusters, None);
    assert(views(out@) =~= snapshot_samples(whole));
    out
}

/// The distinct metric names of a run of samples, in first-seen order.
pub open spec fn distinct_names(samples: Seq<SampleView>) -> Seq<Seq<char>>
    decreases samples.len(),
{
    if samples.len() == 0 {
        Seq::empty()
    } else {
        let seen = distinct_names(samples.drop_last());
        if seen.contains(samples.last().name) {
            seen
        } else {
            seen.push(samples.last().name)
        }
    }
}

/// The samples that carry the metric name `name`, in their order.
pub open spec fn named(samples: Seq<SampleView>, name: Seq<char>) -> Seq<SampleView> {
    samples.filter(|m: SampleView| m.name == name)
}

/// One line of the exposition, with the metric name it belongs to and
/// whether it is that name's `# TYPE` line.
pub struct ExpositionLine {
    pub name: Seq<char>,
    pub is_type: bool,
    pub text: Seq<char>,
}

/// The lines of one sample.
pub open spec fn sample_lines(m: SampleView) -> Seq<ExpositionLine> {
    sample_texts(m).map_values(|t: Seq<char>| ExpositionLine { name: m.name, is_type: false, text: t })
}

/// The `# TYPE` line of a metric name, with the kind of its first sample.
pub open spec fn type_line_of(samples: Seq<SampleView>, name: Seq<char>) -> ExpositionLine {
    ExpositionLine {
        name: name,
        is_type: true,
        text: type_line_text(name, kind_of(named(samples, name)[0].value)),
    }
}

/// The lines of a run of samples, one sample after the other.
pub open spec fn group_lines(group: Seq<SampleView>) -> Seq<ExpositionLine> {
    group.map_values(|m: SampleView| sample_lines(m)).flatten()
}

proof fn lemma_group_lines_push(group: Seq<SampleView>, m: SampleView)
    ensures
        group_lines(group.push(m)) == group_lines(group) + sample_lines(m),
{
    let g = |m: SampleView| sample_lines(m);
    assert(group.push(m).map_values(g) =~= group.map_values(g).push(sample_lines(m)));
    group.map_values(g).lemma_flatten_push(sample_lines(m));
}

/// The lines of one metric name: nothing where the first sample of that
/// name is of an unsupported kind; else the `# TYPE` line, with the kind of
/// the first sample, then the lines of every sample of that name in order.
pub open spec fn block_lines(samples: Seq<SampleView>, name: Seq<char>) -> Seq<ExpositionLine> {
    let group = named(samples, name);
    if group.len() == 0 || kind_of(group[0].value) == MetricType::Unsupported {
        Seq::empty()
    } else {
        seq![type_line_of(samples, name)] + group_lines(group)
    }
}

/// The lines of the exposition: the blocks of the distinct names, in
/// first-seen order.
pub open spec fn exposition_lines(samples: Seq<SampleView>) -> Seq<ExpositionLine> {
    blocks(samples, distinct_names(samples))
}

/// The blocks of the given names, one after the other.
pub open spec fn blocks(samples: Seq<SampleView>, names: Seq<Seq<char>>) -> Seq<ExpositionLine> {
    names.map_values(|n: Seq<char>| block_lines(samples, n)).flatten()
}

proof fn lemma_blocks_take(samples: Seq<SampleView>, names: Seq<Seq<char>>, i: int)
    requires
        0 <= i < names.len(),
    ensures
        blocks(samples, names.take(i + 1)) == blocks(samples, names.take(i)) + block_lines(
            samples,
            names[i],
        ),
{
    lemma_flatten_map_take(names, |n: Seq<char>| block_lines(samples, n), i);
}

/// Lines written out, each ended by a line break.
pub open spec fn lines_text(lines: Seq<ExpositionLine>) -> Seq<char> {
    joined(lines.map_values(|l: ExpositionLine| l.text))
}

/// The exposition text of a run of samples.
pub open spec fn exposition_text(samples: Seq<SampleView>) -> Seq<char> {
    lines_text(exposition_lines(samples))
}

/// Writing out two runs of lines is writing out each, one after the other.
proof fn lemma_lines_text_concat(a: Seq<ExpositionLine>, b: Seq<ExpositionLine>)
    ensures
        lines_text(a + b) == lines_text(a) + lines_text(b),
{
    let f = |l: ExpositionLine| l.text;
    assert((a + b).map_values(f) =~= a.map_values(f) + b.map_values(f));
    lemma_joined_concat(a.map_values(f), b.map_values(f));
}

proof fn lemma_sample_lines_text(m: SampleView)
    ensures
        lines_text(sample_lines(m)) == joined(sample_texts(m)),
{
    assert(sample_lines(m).map_values(|l: ExpositionLine| l.text) =~= sample_texts(m));
}

proof fn lemma_named_take(samples: Seq<SampleView>, name: Seq<char>, i: int)
    requires
        0 <= i < samples.len(),
    ensures
        named(samples.take(i + 1), name) == if samples[i].name == name {
            named(samples.take(i), name).push(samples[i])
        } else {
            named(samples.take(i), name)
        },
{
    reveal(Seq::filter);
    let t = samples.take(i + 1);
    assert(t.drop_last() =~= samples.take(i));
    assert(t.last() == samples[i]);
}

proof fn lemma_first_named(samples: Seq<SampleView>, name: Seq<char>, i: int)
    requires
        0 <= i < samples.len(),
        samples[i].name == name,
        named(samples.take(i), name).len() == 0,
    ensures
        named(samples, name).len() > 0,
        named(samples, name)[0] == samples[i],
{
    let p = |m: SampleView| m.name == name;
    lemma_named_take(samples, name, i);
    assert(samples =~= samples.take(i + 1) + samples.skip(i + 1));
    Seq::filter_distributes_over_add(samples.take(i + 1), samples.skip(i + 1), p);
    assert(named(samples.take(i + 1), name) =~= seq![samples[i]]);
    assert(named(samples, name) == named(samples.take(i + 1), name) + named(samples.skip(i + 1), name));
}

/// Whether `names` holds `name`.
fn contains_name(names: &Vec<String>, name: &String) -> (r: bool)
    ensures
        r == names@.map_values(|s: String| s@).contains(name@),
{
    let ghost texts = names@.map_values(|s: String| s@);
    let n = names.len();
    for i in 0..n
        invariant
            n == names@.len(),
            texts == names@.map_values(|s: String| s@),
            forall|j: int| 0 <= j < i ==> texts[j] != name@,
    {
        if names[i] == *name {
            assert(texts[i as int] == name@);
            return true;
        }
    }
    false
}

/// The distinct metric names of the labeled metrics, in first-seen order.
pub fn get_unique_metric_names(labeled_metrics: &Vec<LabeledMetric>) -> (r: Vec<String>)
    ensures
        r@.map_values(|s: String| s@) == distinct_names(views(labeled_metrics@)),
{
    let ghost all = views(labeled_metrics@);
    let mut names: Vec<String> = Vec::new();
    let n = labeled_metrics.len();
    for i in 0..n
        invariant
            n == labeled_metrics@.len(),
            all == views(labeled_metrics@),
            names@.map_values(|s: String| s@) == distinct_names(all.take(i as int)),
    {
        let ghost before = names@;
        assert(all.take(i as int + 1).drop_last() =~= all.take(i as int));
        assert(all.take(i as int + 1).last() == labeled_metrics@[i as int]@);
        let name = &labeled_metrics[i].metric_name;
        if !contains_name(&names, name) {
            names.push(name.clone());
            assert(names@.map_values(|s: String| s@) =~= before.map_values(|s: String| s@).push(
                name@,
            ));
        }
    }
    assert(all.take(n as int) =~= all);
    names
}

/// The lines of one metric name, each ended by a line break: its `# TYPE`
/// line, then the lines of each of its samples; nothing where the first
/// sample of that name is of an unsupported kind.
pub fn produce_lines_for_one_metric_name(
    labeled_metrics: &Vec<LabeledMetric>,
    metric_name: &String,
) -> (r: String)
    ensures
        r@ == lines_text(block_lines(views(labeled_metrics@), metric_name@)),
{
    let ghost all = views(labeled_metrics@);
    let ghost n_name = metric_name@;
    let mut out = String::new();
    let mut found = false;
    let n = labeled_metrics.len();
    for i in 0..n
        invariant
            n == labeled_metrics@.len(),
            all == views(labeled_metrics@),
            n_name == metric_name@,
            found == (named(all.take(i as int), n_name).len() > 0),
            !found ==> out@ == Seq::<char>::empty(),
            found ==> named(all, n_name).len() > 0 && named(all.take(i as int), n_name)[0]
                == named(all, n_name)[0] && kind_of(named(all, n_name)[0].value)
                != MetricType::Unsupported,
            found ==> out@ == lines_text(
                seq![type_line_of(all, n_name)] + group_lines(named(all.take(i as int), n_name)),
            ),
    {
        let ghost group = named(all.take(i as int), n_name);
        let m = &labeled_metrics[i];
        assert(all[i as int] == m@);
        proof {
            lemma_named_take(all, n_name, i as int);
        }
        if m.metric_name == *metric_name {
            if !found {
                proof {
                    lemma_first_named(all, n_name, i as int);
                }
                if m.metric_type() == MetricType::Unsupported {
                    assert(block_lines(all, n_name) == Seq::<ExpositionLine>::empty());
                    assert(lines_text(Seq::<ExpositionLine>::empty()) =~= Seq::<char>::empty());
                    return String::new();
                }
                let t = m.type_line();
                push_str(&mut out, t.as_str());
                push_char(&mut out, '\n');
                found = true;
                proof {
                    let tl = seq![type_line_of(all, n_name)];
                    assert(named(all, n_name)[0] == m@);
                    assert(t@ == type_line_of(all, n_name).text);
                    assert(out@ =~= t@.push('\n'));
                    lemma_joined_one(t@);
                    assert(tl.map_values(|l: ExpositionLine| l.text) =~= seq![t@]);
                    assert(group_lines(group) =~= Seq::<ExpositionLine>::empty());
                    assert(tl + group_lines(group) =~= tl);
                    assert(out@ == lines_text(tl + group_lines(group)));
                }
            }
            let ghost before = out@;
            m.write_metric_lines(&mut out);
            proof {
                let tl = seq![type_line_of(all, n_name)];
                assert(named(all.take(i as int + 1), n_name) == group.push(m@));
                assert(before == lines_text(tl + group_lines(group)));
                lemma_sample_lines_text(m@);
                assert(out@ == before + lines_text(sample_lines(m@)));
                lemma_group_lines_push(group, m@);
                lemma_lines_text_concat(tl + group_lines(group), sample_lines(m@));
                assert(tl + group_lines(group.push(m@)) =~= (tl + group_lines(group)) + sample_lines(
                    m@,
                ));
            }
        } else {
            assert(named(all.take(i as int + 1), n_name) == group);
        }
    }
    proof {
        assert(all.take(n as int) =~= all);
        if found {
            assert(block_lines(all, n_name) == seq![type_line_of(all, n_name)] + group_lines(
                named(all, n_name),
            ));
        } else {
            assert(block_lines(all, n_name) == Seq::<ExpositionLine>::empty());
            assert(lines_text(Seq::<ExpositionLine>::empty()) =~= Seq::<char>::empty());
        }
    }
    out
}

/// Converts a metrics snapshot into exposition text: for each distinct
/// metric name, in first-seen order, its `# TYPE` line and its sample lines.
pub fn convert_metrics_to_prometheus(aggregated_metrics: Snapshot) -> (r: String)
    ensures
        r@ == exposition_text(snapshot_samples(aggregated_metrics)),
{
    let labeled_metrics = apply_labels(aggregated_metrics);
    let metric_names = get_unique_metric_names(&labeled_metrics);
    let ghost all = views(labeled_metrics@);
    let ghost names = metric_names@.map_values(|s: String| s@);
    let mut prometheus_metrics = String::new();
    let n = metric_names.len();
    for i in 0..n
        invariant
            n == metric_names@.len(),
            all == views(labeled_metrics@),
            names == metric_names@.map_values(|s: String| s@),
            prometheus_metrics@ == lines_text(blocks(all, names.take(i as int))),
    {
        let block = produce_lines_for_one_metric_name(&labeled_metrics, &metric_names[i]);
        push_str(&mut prometheus_metrics, block.as_str());
        proof {
            assert(names[i as int] == metric_names@[i as int]@);
            lemma_blocks_take(all, names, i as int);
            lemma_lines_text_concat(blocks(all, names.take(i as int)), block_lines(all, names[i as int]));
        }
    }
    assert(names.take(n as int) =~= names);
    prometheus_metrics
}

proof fn lemma_distinct_names(samples: Seq<SampleView>)
    ensures
        distinct_names(samples).no_duplicates(),
        forall|i: int|
            0 <= i < samples.len() ==> distinct_names(samples).contains(#[trigger] samples[i].name),
    decreases samples.len(),
{
    if samples.len() > 0 {
        let init = samples.drop_last();
        lemma_distinct_names(init);
        let seen = distinct_names(init);
        assert forall|i: int| 0 <= i < samples.len() implies distinct_names(samples).contains(
            #[trigger] samples[i].name,
        ) by {
            if i < init.len() {
                assert(init[i] == samples[i]);
                assert(seen.contains(init[i].name));
                if !seen.contains(samples.last().name) {
                    let k = choose|k: int| 0 <= k < seen.len() && seen[k] == init[i].name;
                    assert(seen.push(samples.last().name)[k] == samples[i].name);
                }
            } else {
                if !seen.contains(samples.last().name) {
                    assert(seen.push(samples.last().name)[seen.len() as int] == samples[i].name);
                }
            }
        }
    }
}

proof fn lemma_group_line_names(group: Seq<SampleView>, name: Seq<char>)
    requires
        forall|i: int| 0 <= i < group.len() ==> (#[trigger] group[i]).name == name,
    ensures
        forall|j: int|
            0 <= j < group_lines(group).len() ==> (#[trigger] group_lines(group)[j]).name == name
                && !group_lines(group)[j].is_type,
    decreases group.len(),
{
    if group.len() == 0 {
        assert(group_lines(group) =~= Seq::<ExpositionLine>::empty());
    } else {
        let init = group.drop_last();
        let last = group.last();
        assert(forall|i: int| 0 <= i < init.len() ==> init[i] == group[i]);
        lemma_group_line_names(init, name);
        assert(init.push(last) =~= group);
        lemma_group_lines_push(init, last);
        let a = group_lines(init);
        let b = sample_lines(last);
        assert forall|j: int| 0 <= j < group_lines(group).len() implies (#[trigger] group_lines(
            group,
        )[j]).name == name && !group_lines(group)[j].is_type by {
            if j >= a.len() {
                assert((a + b)[j] == b[j - a.len()]);
            } else {
                assert((a + b)[j] == a[j]);
            }
        }
    }
}

proof fn lemma_block_line_names(samples: Seq<SampleView>, name: Seq<char>)
    ensures
        forall|j: int|
            0 <= j < block_lines(samples, name).len() ==> (#[trigger] block_lines(
                samples,
                name,
            )[j]).name == name,
        forall|j: int|
            0 < j < block_lines(samples, name).len() ==> !(#[trigger] block_lines(
                samples,
                name,
            )[j]).is_type,
{
    let group = named(samples, name);
    assert forall|i: int| 0 <= i < group.len() implies (#[trigger] group[i]).name == name by {
        samples.lemma_filter_pred(|m: SampleView| m.name == name, i);
    }
    lemma_group_line_names(group, name);
    if block_lines(samples, name).len() > 0 {
        let t = seq![type_line_of(samples, name)];
        let g = group_lines(group);
        assert forall|j: int| 0 < j < (t + g).len() implies (t + g)[j] == g[j - 1] by {}
    }
}

proof fn lemma_blocks_concat(samples: Seq<SampleView>, a: Seq<Seq<char>>, b: Seq<Seq<char>>)
    ensures
        blocks(samples, a + b) == blocks(samples, a) + blocks(samples, b),
{
    let f = |n: Seq<char>| block_lines(samples, n);
    assert((a + b).map_values(f) =~= a.map_values(f) + b.map_values(f));
    vstd::seq_lib::lemma_flatten_concat(a.map_values(f), b.map_values(f));
}

proof fn lemma_blocks_exclude(samples: Seq<SampleView>, names: Seq<Seq<char>>, name: Seq<char>)
    requires
        !names.contains(name),
    ensures
        forall|j: int|
            0 <= j < blocks(samples, names).len() ==> (#[trigger] blocks(samples, names)[j]).name
                != name,
    decreases names.len(),
{
    if names.len() == 0 {
        assert(blocks(samples, names) =~= Seq::<ExpositionLine>::empty());
    } else {
        let init = names.drop_last();
        let last = names.last();
        assert(!init.contains(name)) by {
            if init.contains(name) {
                let k = choose|k: int| 0 <= k < init.len() && init[k] == name;
                assert(names[k] == name);
            }
        }
        lemma_blocks_exclude(samples, init, name);
        assert(names.take(names.len() - 1) =~= init);
        assert(names.take(names.len() as int) =~= names);
        lemma_blocks_take(samples, names, names.len() - 1);
        lemma_block_line_names(samples, last);
        assert(last != name) by {
            assert(names[names.len() - 1] == last);
        }
        let a = blocks(samples, init);
        let b = block_lines(samples, last);
        assert forall|j: int| 0 <= j < (a + b).len() implies (#[trigger] (a + b)[j]).name
            != name by {
            if j >= a.len() {
                assert((a + b)[j] == b[j - a.len()]);
            } else {
                assert((a + b)[j] == a[j]);
            }
        }
    }
}

proof fn lemma_exposition_split(samples: Seq<SampleView>, name: Seq<char>) -> (k: int)
    requires
        distinct_names(samples).contains(name),
    ensures
        0 <= k,
        exposition_lines(samples) == blocks(samples, distinct_names(samples).take(k))
            + block_lines(samples, name) + blocks(
            samples,
            distinct_names(samples).skip(k + 1),
        ),
        forall|j: int|
            0 <= j < blocks(samples, distinct_names(samples).take(k)).len() ==> (
            #[trigger] blocks(samples, distinct_names(samples).take(k))[j]).name != name,
        forall|j: int|
            0 <= j < blocks(samples, distinct_names(samples).skip(k + 1)).len() ==> (
            #[trigger] blocks(samples, distinct_names(samples).skip(k + 1))[j]).name != name,
{
    let names = distinct_names(samples);
    lemma_distinct_names(samples);
    let k = choose|k: int| 0 <= k < names.len() && names[k] == name;
    let before = names.take(k);
    let after = names.skip(k + 1);
    assert(names =~= before + seq![name] + after);
    lemma_blocks_concat(samples, before + seq![name], after);
    lemma_blocks_concat(samples, before, seq![name]);
    assert(blocks(samples, seq![name]) == block_lines(samples, name)) by {
        let f = |n: Seq<char>| block_lines(samples, n);
        assert(seq![name].map_values(f) =~= seq![block_lines(samples, name)]);
        seq![block_lines(samples, name)].lemma_flatten_one_element();
    }
    assert(!before.contains(name)) by {
        if before.contains(name) {
            let i = choose|i: int| 0 <= i < before.len() && before[i] == name;
            assert(names[i] == names[k]);
        }
    }
    assert(!after.contains(name)) by {
        if after.contains(name) {
            let i = choose|i: int| 0 <= i < after.len() && after[i] == name;
            assert(names[k + 1 + i] == names[k]);
        }
    }
    lemma_blocks_exclude(samples, before, name);
    lemma_blocks_exclude(samples, after, name);
    k
}

/// `lines[t]` is the only `# TYPE` line of `name` in `lines`, and every
/// other line of `name` comes after it.
pub open spec fn heads_its_name(lines: Seq<ExpositionLine>, t: int, name: Seq<char>) -> bool {
    &&& 0 <= t < lines.len()
    &&& lines[t].name == name
    &&& lines[t].is_type
    &&& forall|j: int|
        0 <= j < lines.len() && (#[trigger] lines[j]).name == name && lines[j].is_type ==> j == t
    &&& forall|j: int|
        0 <= j < lines.len() && (#[trigger] lines[j]).name == name && !lines[j].is_type ==> t < j
}

/// Rendering is a function of the snapshot alone: equal snapshots give the
/// same text, whenever and however often they are rendered.
pub proof fn lemma_render_is_deterministic(a: Snapshot, b: Snapshot)
    requires
        a == b,
    ensures
        exposition_text(snapshot_samples(a)) == exposition_text(snapshot_samples(b)),
{
}

/// Each metric name that a snapshot holds, whose first sample is of a
/// supported kind, gets exactly one `# TYPE` line, which states that kind
/// (`type_line_of`) and comes before every sample line of the name.
pub proof fn lemma_one_type_line_per_name(s: Snapshot, name: Seq<char>)
    requires
        exists|i: int|
            0 <= i < snapshot_samples(s).len() && (#[trigger] snapshot_samples(s)[i]).name == name,
        named(snapshot_samples(s), name).len() > 0 ==> kind_of(
            named(snapshot_samples(s), name)[0].value,
        ) != MetricType::Unsupported,
    ensures
        named(snapshot_samples(s), name).len() > 0,
        exists|t: int|
            #[trigger] heads_its_name(exposition_lines(snapshot_samples(s)), t, name)
                && exposition_lines(snapshot_samples(s))[t] == type_line_of(
                snapshot_samples(s),
                name,
            ),
{
    let samples = snapshot_samples(s);
    let i = choose|i: int| 0 <= i < samples.len() && (#[trigger] samples[i]).name == name;
    samples.lemma_filter_contains(|m: SampleView| m.name == name, i);
    lemma_distinct_names(samples);
    assert(distinct_names(samples).contains(samples[i].name));
    let k = lemma_exposition_split(samples, name);
    let names = distinct_names(samples);
    let a = blocks(samples, names.take(k));
    let b = block_lines(samples, name);
    let c = blocks(samples, names.skip(k + 1));
    let lines = exposition_lines(samples);
    lemma_block_line_names(samples, name);
    let t = a.len() as int;
    assert(lines == a + b + c);
    assert(b[0] == type_line_of(samples, name));
    assert(lines[t] == b[0]);
    assert forall|j: int|
        0 <= j < lines.len() && (#[trigger] lines[j]).name == name implies (lines[j].is_type
        ==> j == t) && (!lines[j].is_type ==> t < j) by {
        if j < a.len() {
            assert(lines[j] == a[j]);
        } else if j < a.len() + b.len() {
            assert(lines[j] == b[j - a.len()]);
        } else {
            assert(lines[j] == c[j - a.len() - b.len()]);
        }
    }
    assert(heads_its_name(lines, t, name));
}

/// A metric name whose first sample is of an unsupported kind gives no line
/// at all: neither a `# TYPE` line nor a sample line.
pub proof fn lemma_unsupported_name_is_omitted(s: Snapshot, name: Seq<char>)
    requires
        named(snapshot_samples(s), name).len() > 0,
        kind_of(named(snapshot_samples(s), name)[0].value) == MetricType::Unsupported,
    ensures
        forall|j: int|
            0 <= j < exposition_lines(snapshot_samples(s)).len() ==> (
            #[trigger] exposition_lines(snapshot_samples(s))[j]).name != name,
{
    let samples = snapshot_samples(s);
    let m = named(samples, name)[0];
    samples.lemma_filter_pred(|m: SampleView| m.name == name, 0);
    samples.lemma_filter_contains_rev(|m: SampleView| m.name == name, m);
    let i = choose|i: int| 0 <= i < samples.len() && samples[i] == m;
    lemma_distinct_names(samples);
    assert(distinct_names(samples).contains(samples[i].name));
    let k = lemma_exposition_split(samples, name);
    let names = distinct_names(samples);
    let a = blocks(samples, names.take(k));
    let c = blocks(samples, names.skip(k + 1));
    assert(block_lines(samples, name) == Seq::<ExpositionLine>::empty());
    assert(exposition_lines(samples) == a + c) by {
        assert(a + Seq::<ExpositionLine>::empty() =~= a);
    }
    assert forall|j: int| 0 <= j < (a + c).len() implies (#[trigger] (a + c)[j]).name != name by {
        if j < a.len() {
            assert((a + c)[j] == a[j]);
        } else {
            assert((a + c)[j] == c[j - a.len()]);
        }
    }
}

} // verus!

