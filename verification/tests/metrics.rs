use matmul::metrics::amap::AmapMetrics;
use matmul::metrics::Metrics;
use matmul::MetricsError;

#[test]
fn metrics_counters_start_at_zero_and_move_by_one() {
    let mut m = Metrics::new();
    m.inc(&"req".to_string()).unwrap();
    m.inc(&"req".to_string()).unwrap();
    m.inc(&"err".to_string()).unwrap();
    m.dec(&"req".to_string()).unwrap();
    let snap = m.snapshot();
    assert_eq!(
        snap,
        vec![("req".to_string(), 1i64), ("err".to_string(), 1i64)]
    );
}

#[test]
fn metrics_dec_on_fresh_name_goes_negative() {
    let mut m = Metrics::new();
    m.dec(&"gone".to_string()).unwrap();
    assert_eq!(m.snapshot(), vec![("gone".to_string(), -1i64)]);
}

#[test]
fn metrics_counter_at_upper_limit_is_reported() {
    let mut m = Metrics {
        keys: vec!["k".to_string()],
        counts: vec![i64::MAX],
    };
    assert_eq!(
        m.inc(&"k".to_string()),
        Err(MetricsError::CounterOverflow)
    );
    assert_eq!(m.snapshot(), vec![("k".to_string(), i64::MAX)]);
}

#[test]
fn metrics_counter_at_lower_limit_is_reported() {
    let mut m = Metrics {
        keys: vec!["k".to_string()],
        counts: vec![i64::MIN],
    };
    assert_eq!(
        m.dec(&"k".to_string()),
        Err(MetricsError::CounterUnderflow)
    );
}

#[test]
fn metrics_render_one_line_per_counter() {
    let mut m = Metrics::new();
    m.inc(&"a".to_string()).unwrap();
    m.dec(&"b".to_string()).unwrap();
    m.dec(&"b".to_string()).unwrap();
    assert_eq!(m.render(), "a: 1\nb: -2\n");
}

#[test]
fn metrics_render_empty_is_a_single_newline() {
    let m = Metrics::new();
    assert_eq!(m.render(), "\n");
}

#[test]
fn metrics_default_is_empty() {
    let m = Metrics::default();
    assert_eq!(m.snapshot(), vec![]);
}

#[test]
fn amap_counts_only_registered_names() {
    let mut m = AmapMetrics::new(vec!["x".to_string(), "y".to_string()]);
    m.inc(&"x".to_string()).unwrap();
    m.inc(&"x".to_string()).unwrap();
    m.dec(&"y".to_string()).unwrap();
    assert_eq!(m.render(), "x: 2\ny: -1\n");
}

#[test]
fn amap_rejects_unknown_name() {
    let mut m = AmapMetrics::new(vec!["x".to_string()]);
    assert_eq!(
        m.inc(&"missing".to_string()),
        Err(MetricsError::KeyNotFound)
    );
    assert_eq!(
        m.dec(&"missing".to_string()),
        Err(MetricsError::KeyNotFound)
    );
    assert_eq!(m.render(), "x: 0\n");
}

#[test]
fn amap_repeated_name_makes_one_counter() {
    let mut m = AmapMetrics::new(vec!["x".to_string(), "x".to_string()]);
    m.inc(&"x".to_string()).unwrap();
    assert_eq!(m.render(), "x: 1\n");
}

#[test]
fn amap_counter_at_limits_is_reported() {
    let mut m = AmapMetrics {
        keys: vec!["k".to_string()],
        counts: vec![i64::MAX],
    };
    assert_eq!(
        m.inc(&"k".to_string()),
        Err(MetricsError::CounterOverflow)
    );
    m.counts[0] = i64::MIN;
    assert_eq!(
        m.dec(&"k".to_string()),
        Err(MetricsError::CounterUnderflow)
    );
}
