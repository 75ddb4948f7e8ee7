use presentation::json::{Field, Json, JsonNumber};
use presentation::registry::{
    builtin_fields, default_renderer, field_warnings, fields_from_json, type_matches, RegistryError,
};
use presentation::render::chart::{
    bar_chart, bar_width, extract_series, line_chart, pie_chart, BarPoint, ChartRenderer,
    ChartType,
};
use presentation::render::insights::{analyze, label_of};
use presentation::render::map::{style_node, MapRenderer};
use presentation::render::rows::RenderOptions;
use presentation::strmap::StrMap;

fn number_key(x: f64) -> u64 {
    let x = if x == 0.0 { 0.0 } else { x };
    presentation::json::order_key(x.to_bits())
}

fn json(v: &serde_json::Value) -> Json {
    match v {
        serde_json::Value::Null => Json::Null,
        serde_json::Value::Bool(b) => Json::Bool(*b),
        serde_json::Value::Number(n) => Json::Number(JsonNumber {
            text: n.to_string(),
            key: number_key(n.as_f64().unwrap_or(0.0)),
        }),
        serde_json::Value::String(s) => Json::Str(s.clone()),
        serde_json::Value::Array(items) => Json::Array {
            items: items.iter().map(json).collect(),
            text: v.to_string(),
        },
        serde_json::Value::Object(map) => Json::Object {
            fields: map
                .iter()
                .map(|(k, x)| Field {
                    key: k.clone(),
                    value: json(x),
                })
                .collect(),
            text: v.to_string(),
        },
    }
}

fn parse(text: &str) -> Json {
    json(&serde_json::from_str::<serde_json::Value>(text).unwrap())
}

fn rows(texts: &[&str]) -> Vec<Json> {
    texts.iter().map(|t| parse(t)).collect()
}

fn opts() -> RenderOptions {
    RenderOptions {
        sort: None,
        filter: None,
        width: None,
        color: false,
    }
}

fn all(n: usize) -> Vec<usize> {
    (0..n).collect()
}

fn number_of(n: &JsonNumber) -> f64 {
    n.text.parse().unwrap()
}

// ---- registry ----

#[test]
fn default_renderer_covers_the_documented_table() {
    assert_eq!(default_renderer("network.ip"), Some("map"));
    assert_eq!(default_renderer("network.wifi"), Some("dashboard"));
    assert_eq!(default_renderer("logs.events"), Some("timeline"));
    assert_eq!(default_renderer("fs.directory"), Some("table"));
    assert_eq!(default_renderer("docker.stats"), Some("dashboard"));
    assert_eq!(default_renderer("k8s.pods"), Some("table"));
    assert_eq!(default_renderer("system.perf.cpu"), Some("chart"));
    assert_eq!(default_renderer("system.perf.memory"), Some("chart"));
    assert_eq!(default_renderer("unknown.schema"), None);
}

#[test]
fn docker_stats_and_k8s_pods_have_no_documented_fields() {
    assert!(builtin_fields("docker.stats").is_none());
    assert!(builtin_fields("k8s.pods").is_none());
    assert!(builtin_fields("network.ip").is_some());
}

#[test]
fn type_matches_checks_the_base_type_only() {
    assert!(type_matches("string", &parse("\"x\"")));
    assert!(!type_matches("string", &parse("1")));
    assert!(type_matches("number", &parse("1.5")));
    assert!(type_matches("boolean", &parse("true")));
    assert!(type_matches("array<string>", &parse("[\"a\"]")));
    assert!(!type_matches("array<string>", &parse("\"not an array\"")));
}

fn defs(pairs: &[(&str, &str)]) -> StrMap<String> {
    let mut m = StrMap::new();
    for (k, v) in pairs {
        m.insert(k.to_string(), v.to_string());
    }
    m
}

#[test]
fn field_warnings_null_on_a_nullable_field_is_not_a_warning() {
    let rows = rows(&[r#"{"ipv6": null}"#]);
    let fields = defs(&[("ipv6", "string|null")]);
    assert!(field_warnings(&rows, &fields).is_empty());
}

#[test]
fn field_warnings_null_on_a_required_field_is_a_warning() {
    let rows = rows(&[r#"{"status": null}"#]);
    let fields = defs(&[("status", "string")]);
    let warnings = field_warnings(&rows, &fields);
    assert_eq!(warnings.len(), 1);
    assert!(warnings[0].contains("not nullable"));
}

#[test]
fn field_warnings_missing_required_field() {
    let rows = rows(&["{}"]);
    let fields = defs(&[("status", "string")]);
    let warnings = field_warnings(&rows, &fields);
    assert_eq!(
        warnings,
        vec!["record 1: missing required field 'status'".to_string()]
    );
}

#[test]
fn field_warnings_missing_nullable_field_is_fine() {
    let rows = rows(&["{}"]);
    let fields = defs(&[("gateway", "string|null")]);
    assert!(field_warnings(&rows, &fields).is_empty());
}

#[test]
fn field_warnings_unknown_extra_field_is_ignored() {
    let rows = rows(&[r#"{"status": "up", "extra": "whatever"}"#]);
    let fields = defs(&[("status", "string")]);
    assert!(field_warnings(&rows, &fields).is_empty());
}

#[test]
fn field_warnings_type_mismatch() {
    let rows = rows(&[r#"{"ipv4": 123}"#]);
    let fields = defs(&[("ipv4", "string")]);
    let warnings = field_warnings(&rows, &fields);
    assert_eq!(warnings.len(), 1);
    assert!(warnings[0].contains("expected string but got number"));
}

#[test]
fn parse_fields_file_accepts_a_flat_field_map() {
    let fields = fields_from_json(&parse(r#"{"a": "string", "b": "number"}"#)).unwrap();
    assert_eq!(fields.get("a"), Some(&"string".to_string()));
    assert_eq!(fields.get("b"), Some(&"number".to_string()));
}

#[test]
fn parse_fields_file_accepts_the_nested_schema_entry_shape() {
    let fields = fields_from_json(&parse(
        r#"{"version": "1.0", "default_renderer": "chart", "fields": {"name": "string"}}"#,
    ))
    .unwrap();
    // Only the nested "fields" map is extracted, not "version"/"default_renderer".
    assert_eq!(fields.len(), 1);
    assert_eq!(fields.get("name"), Some(&"string".to_string()));
}

#[test]
fn fields_file_that_is_not_an_object_is_refused() {
    match fields_from_json(&parse("[1, 2]")) {
        Err(e) => {
            assert!(matches!(e, RegistryError::FieldsNotAnObject));
            assert_eq!(e.message(), "fields file must contain a JSON object");
        }
        Ok(_) => panic!("an array is not a field map"),
    }
}

#[test]
fn fields_file_skips_non_string_types() {
    let fields = fields_from_json(&parse(r#"{"a": "string", "b": 3}"#)).unwrap();
    assert_eq!(fields.len(), 1);
    assert!(fields.get("b").is_none());
}

// ---- chart ----

#[test]
fn extract_series_prefers_named_fields() {
    let rows = rows(&[r#"{"name": "requests", "value": 1200.0}"#]);
    let series = extract_series(&rows);
    assert_eq!(series.len(), 1);
    assert_eq!(series[0].0, "requests");
    assert_eq!(number_of(series[0].1), 1200.0);
}

#[test]
fn extract_series_falls_back_to_first_numeric_and_index_label() {
    let rows = rows(&[r#"{"reading": 42.0}"#]);
    let series = extract_series(&rows);
    assert_eq!(series.len(), 1);
    assert_eq!(series[0].0, "#1");
    assert_eq!(number_of(series[0].1), 42.0);
}

#[test]
fn extract_series_empty_when_no_numeric_field() {
    let rows = rows(&[r#"{"name": "x"}"#]);
    assert!(extract_series(&rows).is_empty());
}

#[test]
fn extract_series_skips_records_without_the_value() {
    let rows = rows(&[
        r#"{"name": "a", "value": 1}"#,
        r#"{"name": "b"}"#,
        r#"{"value": 3}"#,
    ]);
    let series = extract_series(&rows);
    let labels: Vec<&str> = series.iter().map(|p| p.0.as_str()).collect();
    assert_eq!(labels, vec!["a", "#3"]);
}

#[test]
fn chart_empty_data_renders_empty_string() {
    let renderer = ChartRenderer {
        chart_type: ChartType::Bar,
    };
    assert!(renderer.series(&[], &opts()).is_empty());
}

#[test]
fn chart_width_defaults_to_fifty_and_is_at_least_twenty() {
    let renderer = ChartRenderer {
        chart_type: ChartType::Line,
    };
    assert_eq!(renderer.chart_width(&opts()), 50);
    let narrow = RenderOptions {
        width: Some(5),
        ..opts()
    };
    assert_eq!(renderer.chart_width(&narrow), 20);
}

#[test]
fn bar_chart_fills_proportionally_to_max() {
    let labels = vec!["a".to_string(), "b".to_string()];
    let values = [50.0f64, 100.0];
    let cells = bar_width(&labels, 50);
    assert_eq!(cells, 37);
    let max = values.iter().fold(0.0f64, |m, v| m.max(v.abs())).max(1.0);
    let points: Vec<BarPoint> = values
        .iter()
        .map(|v| BarPoint {
            filled: ((v.abs() / max) * cells as f64).round() as usize,
            value: format!("{v:.2}"),
        })
        .collect();
    let out = bar_chart(&labels, &points, 50, false);
    let lines: Vec<&str> = out.lines().collect();
    let a_filled = lines[0].matches('█').count();
    let b_filled = lines[1].matches('█').count();
    assert_eq!(b_filled, 37); // max value fills the whole bar
    assert!(a_filled < b_filled && a_filled > 0);
}

#[test]
fn bar_chart_line_layout() {
    let labels = vec!["ab".to_string(), "c".to_string()];
    let points = vec![
        BarPoint {
            filled: 2,
            value: "1.50".to_string(),
        },
        BarPoint {
            filled: 0,
            value: "0.00".to_string(),
        },
    ];
    // width 0 leaves the minimum of ten cells
    let out = bar_chart(&labels, &points, 0, false);
    assert_eq!(
        out,
        "ab | ██░░░░░░░░     1.50\nc  | ░░░░░░░░░░     0.00\n"
    );
}

#[test]
fn line_chart_maps_min_and_max_to_endpoints_of_the_spark_ramp() {
    let labels = vec!["a".to_string(), "b".to_string()];
    let values = [0.0f64, 100.0];
    let min = values.iter().cloned().fold(f64::INFINITY, f64::min);
    let max = values.iter().cloned().fold(f64::NEG_INFINITY, f64::max);
    let range = (max - min).max(f64::EPSILON);
    let levels: Vec<usize> = values
        .iter()
        .map(|v| ((((v - min) / range) * 7.0).round() as usize).min(7))
        .collect();
    let out = line_chart(
        &labels,
        &levels,
        &format!("{min:.2}"),
        &format!("{max:.2}"),
        false,
    );
    let spark_line = out.lines().next().unwrap();
    assert_eq!(spark_line.chars().next().unwrap(), '▁');
    assert_eq!(spark_line.chars().nth(1).unwrap(), '█');
}

#[test]
fn line_chart_prints_the_range_between_the_end_labels() {
    let labels = vec!["first".to_string(), "last".to_string()];
    let out = line_chart(&labels, &vec![3, 4], "1.00", "2.00", false);
    let expected = format!(
        "▄▅\n{:<20} min 1.00   max 2.00   {:>20}\n",
        "first", "last"
    );
    assert_eq!(out, expected);
}

fn pie_parts(values: &[f64], width: usize) -> (Vec<usize>, Vec<String>) {
    let total = values.iter().map(|v| v.abs()).sum::<f64>().max(f64::EPSILON);
    let cells = width.min(60);
    let asked = values
        .iter()
        .map(|v| ((v.abs() / total * 100.0) / 100.0 * cells as f64).round() as usize)
        .collect();
    let percents = values
        .iter()
        .map(|v| format!("{:.1}", v.abs() / total * 100.0))
        .collect();
    (asked, percents)
}

#[test]
fn pie_chart_percentages_sum_to_total() {
    let labels = vec!["a".to_string(), "b".to_string()];
    let (asked, percents) = pie_parts(&[25.0, 75.0], 40);
    let out = pie_chart(&labels, &asked, &percents, 40, false);
    assert!(out.contains("a: 25.0%"));
    assert!(out.contains("b: 75.0%"));
}

#[test]
fn pie_chart_uses_distinct_glyphs_without_color() {
    let labels = vec!["a".to_string(), "b".to_string()];
    let (asked, percents) = pie_parts(&[50.0, 50.0], 40);
    let out = pie_chart(&labels, &asked, &percents, 40, false);
    let bar_line = out.lines().next().unwrap();
    assert!(bar_line.contains('█'));
    assert!(bar_line.contains('▓'));
}

#[test]
fn pie_slices_never_overflow_the_bar() {
    let labels = vec!["a".to_string(), "b".to_string()];
    let out = pie_chart(&labels, &vec![8, 8], &vec!["x".into(), "y".into()], 10, false);
    assert_eq!(out, "[████████▓▓]\n█ a: x%\n▓ b: y%\n");
    let short = pie_chart(&labels, &vec![1, 1], &vec!["x".into(), "y".into()], 5, false);
    assert!(short.starts_with("[█▓   ]\n"));
}

// ---- insights ----

#[test]
fn numeric_insight_skipped_when_field_is_not_numeric_on_every_row() {
    let data = rows(&[r#"{"speed": "1Gbps"}"#, r#"{"speed": null}"#]);
    let insights = analyze(&data, &all(data.len()));
    assert!(insights.numeric.iter().all(|n| n != "speed"));
}

#[test]
fn numeric_columns_are_those_numeric_on_every_row() {
    let data = rows(&[r#"{"cpu": 10.0, "mem": 1}"#, r#"{"cpu": 20.0, "mem": "x"}"#]);
    let insights = analyze(&data, &all(data.len()));
    assert_eq!(insights.numeric, vec!["cpu".to_string()]);
    assert_eq!(insights.total, 2);
}

#[test]
fn status_insight_lists_flagged_records_by_label() {
    let data = rows(&[
        r#"{"name": "web", "status": "up"}"#,
        r#"{"name": "db", "status": "down"}"#,
    ]);
    let insights = analyze(&data, &all(data.len()));
    let status = insights.status.unwrap();
    assert_eq!(status.field, "status");
    assert_eq!(status.flagged, vec!["db".to_string()]);
}

#[test]
fn hostname_is_recognized_as_a_label_field() {
    let data = rows(&[
        r#"{"hostname": "web-01", "status": "up"}"#,
        r#"{"hostname": "web-02", "status": "down"}"#,
    ]);
    let insights = analyze(&data, &all(data.len()));
    assert_eq!(insights.status.unwrap().flagged, vec!["web-02".to_string()]);
}

#[test]
fn record_label_falls_back_to_index_when_label_is_empty() {
    let row = parse(r#"{"name": ""}"#);
    assert_eq!(label_of(&row, 0, &Some("name".to_string())), "#1");
}

#[test]
fn no_status_field_means_no_status_insight() {
    let data = rows(&[r#"{"a": 1}"#]);
    assert!(analyze(&data, &all(data.len())).status.is_none());
}

// ---- map ----

#[test]
fn builds_full_three_level_tree() {
    let data = rows(&[
        r#"{"interface": "Ethernet", "gateway": "192.168.1.1", "dns": ["8.8.8.8", "1.1.1.1"], "status": "Up"}"#,
    ]);
    let out = MapRenderer.render_map(&data, &opts());
    let expected = [
        "PC",
        "└─ Ethernet",
        "   ├─ 192.168.1.1",
        "   │  ├─ 8.8.8.8",
        "   │  └─ 1.1.1.1",
        "",
    ]
    .join("\n");
    assert_eq!(out, expected);
}

#[test]
fn node_without_gateway_or_dns_is_a_bare_leaf() {
    let data = rows(&[r#"{"interface": "vEthernet"}"#]);
    let out = MapRenderer.render_map(&data, &opts());
    assert_eq!(out, "PC\n└─ vEthernet\n");
}

#[test]
fn missing_node_name_falls_back_to_index_label() {
    let data = rows(&[r#"{"gateway": "1.1.1.1"}"#]);
    let out = MapRenderer.render_map(&data, &opts());
    assert!(out.contains("└─ #1"));
}

#[test]
fn empty_dns_array_is_treated_like_no_dns() {
    let data = rows(&[r#"{"interface": "eth0", "gateway": "1.1.1.1", "dns": []}"#]);
    let out = MapRenderer.render_map(&data, &opts());
    assert!(out.contains("└─ 1.1.1.1"));
    assert!(!out.contains("├─ 1.1.1.1"));
}

#[test]
fn map_empty_data_renders_empty_string() {
    assert_eq!(MapRenderer.render_map(&[], &opts()), "");
}

#[test]
fn style_node_without_color_returns_plain_label() {
    assert_eq!(style_node("eth0", &Some("down".to_string()), false), "eth0");
}

#[test]
fn map_draws_dns_without_gateway_under_the_node() {
    let data = rows(&[
        r#"{"interface": "a", "dns": ["x"]}"#,
        r#"{"interface": "b"}"#,
    ]);
    let out = MapRenderer.render_map(&data, &opts());
    assert_eq!(out, "PC\n├─ a\n│  └─ x\n└─ b\n");
}

#[test]
fn style_node_paints_up_nodes_green() {
    let shown = style_node("eth0", &Some("UP".to_string()), true);
    // crossterm's green, or the plain forms it falls back to
    assert!(
        shown == "\u{1b}[38;5;10meth0\u{1b}[39m"
            || shown == "\u{1b}[meth0\u{1b}[m"
            || shown.is_empty()
    );
    assert_ne!(shown, "eth0");
}

#[test]
fn order_keys_follow_numeric_order() {
    let values = [-1e30, -2.5, -1.0, 0.0, 1e-300, 0.5, 2.0, 1e30];
    let keys: Vec<u64> = values.iter().map(|v| number_key(*v)).collect();
    assert!(keys.windows(2).all(|w| w[0] < w[1]));
    assert_eq!(number_key(-0.0), number_key(0.0));
}
