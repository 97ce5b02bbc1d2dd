use std::collections::BTreeMap;

use sozu_prometheus_connector::metrics::{
    saturating_count, BackendMetrics, Bucket, ClusterMetrics, Decimal, Histogram, MetricType, MetricValue, Snapshot,
    WorkerMetrics,
};
use sozu_prometheus_connector::prometheus::{
    apply_labels, convert_metrics_to_prometheus, get_unique_metric_names,
    produce_lines_for_one_metric_name, replace_dots_with_underscores, LabeledMetric,
};

fn entry(name: &str, value: MetricValue) -> (String, MetricValue) {
    (name.to_string(), value)
}

fn cluster(metrics: Vec<(String, MetricValue)>) -> ClusterMetrics {
    ClusterMetrics { cluster: metrics, backends: Vec::new() }
}

#[test]
fn encode_one_counter() {
    let cluster_id = "http://my-cluster-id.com/api?param=value".to_string();

    let metric_name = "http_response_status";
    let one_filtered_metric = MetricValue::Gauge(3);
    let mut cluster = BTreeMap::new();
    cluster.insert(metric_name.to_owned(), one_filtered_metric);

    let cluster_metrics = ClusterMetrics { cluster: cluster.into_iter().collect(), backends: Vec::new() };

    let mut clusters = BTreeMap::new();
    clusters.insert(cluster_id, cluster_metrics);

    let aggregated_metrics = Snapshot { clusters: clusters.into_iter().collect(), ..Default::default() };

    let prometheus_metrics = convert_metrics_to_prometheus(aggregated_metrics);

    let expected = r#"# TYPE http_response_status gauge
http_response_status{cluster_id="http%3A%2F%2Fmy-cluster-id.com%2Fapi%3Fparam%3Dvalue"} 3
"#;

    assert_eq!(expected.to_string(), prometheus_metrics);
}

#[test]
fn format_labels() {
    let metric = MetricValue::Counter(3);
    let mut labeled_metric = LabeledMetric::new(metric);

    assert_eq!(labeled_metric.formatted_labels(), "");

    labeled_metric.with_label("le", "3");

    assert_eq!(labeled_metric.formatted_labels(), r#"le="3""#);

    labeled_metric.with_label("cluster_id", "http://my-cluster-id.com/api?param=value");

    assert_eq!(
        labeled_metric.formatted_labels(),
        r#"le="3",cluster_id="http%3A%2F%2Fmy-cluster-id.com%2Fapi%3Fparam%3Dvalue""#
    )
}

#[test]
fn main_gauge_renders_with_empty_braces() {
    let snapshot = Snapshot { main: vec![entry("pool.size", MetricValue::Gauge(7))], ..Default::default() };
    assert_eq!(convert_metrics_to_prometheus(snapshot), "# TYPE pool_size gauge\npool_size{} 7\n");
}

#[test]
fn empty_snapshot_renders_nothing() {
    assert_eq!(convert_metrics_to_prometheus(Snapshot::default()), "");
}

#[test]
fn histogram_renders_buckets_sum_and_count() {
    let histogram = Histogram {
        buckets: vec![
            Bucket { le: Decimal::new(5, 1), count: 1 },
            Bucket { le: Decimal::new(9, 1), count: 3 },
            Bucket { le: Decimal::new(10, 1), count: 4 },
        ],
        sum: Decimal::new(125, 1),
        count: 4,
    };
    let snapshot = Snapshot {
        clusters: vec![("c1".to_string(), cluster(vec![entry("name", MetricValue::Histogram(histogram))]))],
        ..Default::default()
    };
    let expected = "# TYPE name histogram\n\
name_bucket{cluster_id=\"c1\",le=\"0.5\"} 1\n\
name_bucket{cluster_id=\"c1\",le=\"0.9\"} 3\n\
name_bucket{cluster_id=\"c1\",le=\"1\"} 4\n\
name_sum{cluster_id=\"c1\"} 12.5\n\
name_count{cluster_id=\"c1\"} 4\n";
    assert_eq!(convert_metrics_to_prometheus(snapshot), expected);
}

#[test]
fn histogram_without_labels_has_only_the_bound() {
    let histogram = Histogram {
        buckets: vec![Bucket { le: Decimal::from_u64(100), count: 2 }],
        sum: Decimal::from_u64(150),
        count: 2,
    };
    let snapshot = Snapshot { main: vec![entry("latency", MetricValue::Histogram(histogram))], ..Default::default() };
    assert_eq!(
        convert_metrics_to_prometheus(snapshot),
        "# TYPE latency histogram\nlatency_bucket{le=\"100\"} 2\nlatency_sum{} 150\nlatency_count{} 2\n"
    );
}

#[test]
fn rendering_twice_gives_the_same_text() {
    let snapshot = Snapshot {
        main: vec![entry("a.b", MetricValue::Counter(5)), entry("c", MetricValue::Gauge(-2))],
        workers: vec![(
            "0".to_string(),
            WorkerMetrics { proxy: vec![entry("a.b", MetricValue::Counter(9))], clusters: Vec::new() },
        )],
        ..Default::default()
    };
    let first = convert_metrics_to_prometheus(snapshot.clone());
    let second = convert_metrics_to_prometheus(snapshot);
    assert_eq!(first, second);
    assert!(!first.is_empty());
}

#[test]
fn one_type_line_for_a_name_shared_by_scopes() {
    let worker = |n: i64| WorkerMetrics {
        proxy: vec![entry("http.requests", MetricValue::Counter(n))],
        clusters: Vec::new(),
    };
    let snapshot = Snapshot {
        main: vec![entry("uptime", MetricValue::Gauge(1))],
        workers: vec![("0".to_string(), worker(10)), ("1".to_string(), worker(20))],
        ..Default::default()
    };
    let expected = "# TYPE uptime gauge\nuptime{} 1\n\
# TYPE http_requests counter\n\
http_requests{worker=\"0\"} 10\n\
http_requests{worker=\"1\"} 20\n";
    let text = convert_metrics_to_prometheus(snapshot);
    assert_eq!(text, expected);
    assert_eq!(text.matches("# TYPE http_requests").count(), 1);
}

#[test]
fn unsupported_first_kind_omits_the_name() {
    let snapshot = Snapshot {
        main: vec![entry("request.time", MetricValue::Duration(12)), entry("up", MetricValue::Gauge(1))],
        workers: vec![(
            "0".to_string(),
            WorkerMetrics { proxy: vec![entry("request.time", MetricValue::Gauge(4))], clusters: Vec::new() },
        )],
        ..Default::default()
    };
    let text = convert_metrics_to_prometheus(snapshot);
    assert_eq!(text, "# TYPE up gauge\nup{} 1\n");
    assert!(!text.contains("request_time"));
}

#[test]
fn unsupported_value_under_supported_name_is_an_empty_line() {
    let snapshot = Snapshot {
        main: vec![entry("m", MetricValue::Gauge(1))],
        workers: vec![(
            "0".to_string(),
            WorkerMetrics { proxy: vec![entry("m", MetricValue::Unsupported)], clusters: Vec::new() },
        )],
        ..Default::default()
    };
    assert_eq!(convert_metrics_to_prometheus(snapshot), "# TYPE m gauge\nm{} 1\n\n");
}

#[test]
fn reserved_characters_in_label_values_are_encoded() {
    let value = "a \"b\"=c/d?e,f}";
    let snapshot = Snapshot {
        clusters: vec![(value.to_string(), cluster(vec![entry("hits", MetricValue::Counter(1))]))],
        ..Default::default()
    };
    let text = convert_metrics_to_prometheus(snapshot);
    let expected_value = "a%20%22b%22%3Dc%2Fd%3Fe%2Cf%7D";
    assert_eq!(text, format!("# TYPE hits counter\nhits{{cluster_id=\"{}\"}} 1\n", expected_value));
    assert_eq!(urlencoding::decode(expected_value).unwrap(), value);
}

#[test]
fn non_ascii_label_values_are_encoded_by_bytes() {
    let mut metric = LabeledMetric::new(MetricValue::Gauge(0));
    metric.with_label("cluster_id", "é-1");
    assert_eq!(metric.formatted_labels(), "cluster_id=\"%C3%A9-1\"");
    assert_eq!(urlencoding::decode("%C3%A9-1").unwrap(), "é-1");
}

#[test]
fn worker_cluster_and_backend_scopes_carry_their_labels() {
    let clusters = vec![(
        "api".to_string(),
        ClusterMetrics {
            cluster: vec![entry("conn", MetricValue::Gauge(2))],
            backends: vec![
                BackendMetrics { backend_id: "b1".to_string(), metrics: vec![entry("conn", MetricValue::Gauge(1))] },
                BackendMetrics { backend_id: "b2".to_string(), metrics: vec![entry("conn", MetricValue::Gauge(1))] },
            ],
        },
    )];
    let snapshot = Snapshot {
        workers: vec![("3".to_string(), WorkerMetrics { proxy: Vec::new(), clusters: clusters.clone() })],
        clusters,
        ..Default::default()
    };
    let expected = "# TYPE conn gauge\n\
conn{worker=\"3\",cluster_id=\"api\"} 2\n\
conn{worker=\"3\",cluster_id=\"api\",backend_id=\"b1\"} 1\n\
conn{worker=\"3\",cluster_id=\"api\",backend_id=\"b2\"} 1\n\
conn{cluster_id=\"api\"} 2\n\
conn{cluster_id=\"api\",backend_id=\"b1\"} 1\n\
conn{cluster_id=\"api\",backend_id=\"b2\"} 1\n";
    assert_eq!(convert_metrics_to_prometheus(snapshot), expected);
}

#[test]
fn names_are_grouped_in_first_seen_order() {
    let snapshot = Snapshot {
        main: vec![entry("b", MetricValue::Gauge(1)), entry("a", MetricValue::Gauge(2))],
        workers: vec![(
            "0".to_string(),
            WorkerMetrics {
                proxy: vec![entry("a", MetricValue::Gauge(3)), entry("c", MetricValue::Counter(4))],
                clusters: Vec::new(),
            },
        )],
        ..Default::default()
    };
    let labeled = apply_labels(snapshot);
    assert_eq!(labeled.len(), 4);
    assert_eq!(get_unique_metric_names(&labeled), vec!["b".to_string(), "a".to_string(), "c".to_string()]);
    assert_eq!(
        produce_lines_for_one_metric_name(&labeled, &"a".to_string()),
        "# TYPE a gauge\na{} 2\na{worker=\"0\"} 3\n"
    );
    assert_eq!(produce_lines_for_one_metric_name(&labeled, &"zzz".to_string()), "");
}

#[test]
fn integer_extremes_render_exactly() {
    let snapshot = Snapshot {
        main: vec![entry("low", MetricValue::Gauge(i64::MIN)), entry("high", MetricValue::Counter(i64::MAX))],
        ..Default::default()
    };
    assert_eq!(
        convert_metrics_to_prometheus(snapshot),
        "# TYPE low gauge\nlow{} -9223372036854775808\n# TYPE high counter\nhigh{} 9223372036854775807\n"
    );
}

#[test]
fn decimals_render_in_shortest_form() {
    assert_eq!(Decimal::new(5, 1).to_text(), "0.5");
    assert_eq!(Decimal::new(125, 1).to_text(), "12.5");
    assert_eq!(Decimal::new(10, 1).to_text(), "1");
    assert_eq!(Decimal::new(5, 3).to_text(), "0.005");
    assert_eq!(Decimal::new(1500, 2).to_text(), "15");
    assert_eq!(Decimal::new(0, 4).to_text(), "0");
    assert_eq!(Decimal::from_u64(42).to_text(), "42");
    assert_eq!(Decimal { negative: true, magnitude: 25, scale: 1 }.to_text(), "-2.5");
}

#[test]
fn type_line_and_kinds() {
    let mut metric = LabeledMetric::new(MetricValue::Counter(1));
    metric.with_name("protocol.https");
    assert_eq!(metric.printable_name(), "protocol_https");
    assert_eq!(metric.type_line(), "# TYPE protocol_https counter");
    assert_eq!(metric.metric_type(), MetricType::Counter);
    assert_eq!(MetricValue::Duration(1).metric_type(), MetricType::Unsupported);
    assert_eq!(MetricType::Histogram.as_str(), "histogram");
}

#[test]
fn dots_become_underscores() {
    assert_eq!(replace_dots_with_underscores("a.b.c_d"), "a_b_c_d");
    assert_eq!(replace_dots_with_underscores(""), "");
}

#[test]
fn unsigned_counts_saturate() {
    assert_eq!(saturating_count(7), 7);
    assert_eq!(saturating_count(u64::MAX), i64::MAX);
    assert_eq!(saturating_count(i64::MAX as u64), i64::MAX);
}
