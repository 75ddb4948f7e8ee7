use presentation::export::{apply, ExportFormat};
use presentation::json::{Field, Json, JsonNumber};
use presentation::mode::{resolve_mode, Mode};
use presentation::protocol::Envelope;
use presentation::registry::{fields_from_json, register, validate, RegistryError, RegistryFile};
use presentation::render::ai_summary::AiSummaryRenderer;
use presentation::render::chart::{bar_width, pie_width, BarPoint, ChartRenderer, ChartScale, ChartType};
use presentation::render::dashboard::{gauge_numbers, DashboardRenderer, GaugeReading};
use presentation::render::explain::{ColumnStats, ExplainLevel, ExplainRenderer};
use presentation::render::html::HtmlRenderer;
use presentation::render::insights::analyze;
use presentation::render::map::MapRenderer;
use presentation::render::md::MarkdownRenderer;
use presentation::render::rows::{sorted_filtered_indices, RenderOptions};
use presentation::render::table::TableRenderer;
use presentation::render::timeline::TimelineRenderer;
use presentation::session::{frame_text, live_notice, live_step, split_filter, LiveStep};
use presentation::term::TermColor;

const NETWORK_IP: &str = r#"{"schema":"network.ip","data":[{"interface":"eth0","gateway":"1.1.1.1","dns":["8.8.8.8"],"status":"Up"}]}"#;
const DOCKER_STATS: &str = r#"{"schema":"docker.stats","data":[{"name":"web","cpu_percent":40}]}"#;
const LOGS_EVENTS: &str =
    r#"{"schema":"logs.events","data":[{"timestamp":"10:00","level":"info","message":"started"}]}"#;
const SYSTEM_PERF_CPU: &str =
    r#"{"schema":"system.perf.cpu","data":[{"timestamp":"t1","usage":10.0}]}"#;
const K8S_PODS: &str = r#"{"schema":"k8s.pods","data":[{"name":"pod-a","status":"Running"}]}"#;
const PLAIN: &str = r#"{"data":[{"a":1,"b":2}]}"#;

fn number_key(x: f64) -> u64 {
    let x = if x == 0.0 { 0.0 } else { x };
    presentation::json::order_key(x.to_bits())
}

fn json(v: &serde_json::Value) -> Json {
    match v {
        serde_json::Value::Null => Json::Null,
        serde_json::Value::Bool(b) => Json::Bool(*b),
        serde_json::Value::Number(n) => Json::Number(JsonNumber {
            text: n.to_string(),
            key: number_key(n.as_f64().unwrap_or(0.0)),
        }),
        serde_json::Value::String(s) => Json::Str(s.clone()),
        serde_json::Value::Array(items) => Json::Array {
            items: items.iter().map(json).collect(),
            text: v.to_string(),
        },
        serde_json::Value::Object(map) => Json::Object {
            fields: map
                .iter()
                .map(|(k, x)| Field {
                    key: k.clone(),
                    value: json(x),
                })
                .collect(),
            text: v.to_string(),
        },
    }
}

fn envelope(text: &str) -> Envelope {
    let v: serde_json::Value = serde_json::from_str(text).unwrap();
    Envelope {
        schema: v.get("schema").and_then(|s| s.as_str()).map(str::to_string),
        data: v["data"].as_array().unwrap().iter().map(json).collect(),
    }
}

fn opts() -> RenderOptions {
    RenderOptions {
        sort: None,
        filter: None,
        width: None,
        color: false,
    }
}

fn number(n: &JsonNumber) -> f64 {
    n.text.parse().unwrap()
}

fn gauge_reading(n: &JsonNumber) -> GaugeReading {
    let clamped = number(n).clamp(0.0, 100.0);
    let filled = ((clamped / 100.0) * 20.0).round() as usize;
    let color = if clamped >= 70.0 {
        TermColor::Green
    } else if clamped >= 40.0 {
        TermColor::Yellow
    } else {
        TermColor::Red
    };
    GaugeReading {
        filled,
        percent: format!("{clamped:.0}"),
        color,
    }
}

fn column_stats(data: &[Json], options: &RenderOptions) -> Vec<ColumnStats> {
    let idx = sorted_filtered_indices(data, options);
    let insights = analyze(data, &idx);
    insights
        .numeric
        .iter()
        .map(|field| {
            let values: Vec<f64> = idx
                .iter()
                .filter_map(|&i| match data[i].get(field) {
                    Some(Json::Number(n)) => Some(number(n)),
                    _ => None,
                })
                .collect();
            let min = values.iter().cloned().fold(f64::INFINITY, f64::min);
            let max = values.iter().cloned().fold(f64::NEG_INFINITY, f64::max);
            let avg = values.iter().sum::<f64>() / values.len() as f64;
            ColumnStats {
                min: format!("{min:.1}"),
                max: format!("{max:.1}"),
                avg: format!("{avg:.1}"),
            }
        })
        .collect()
}

fn chart(kind: ChartType, data: &[Json], options: &RenderOptions) -> String {
    let renderer = ChartRenderer { chart_type: kind };
    let series = renderer.series(data, options);
    let width = renderer.chart_width(options);
    let labels: Vec<String> = series.iter().map(|p| p.0.clone()).collect();
    let values: Vec<f64> = series.iter().map(|p| number(p.1)).collect();
    let scale = match kind {
        ChartType::Pie => {
            let total = values.iter().map(|v| v.abs()).sum::<f64>().max(f64::EPSILON);
            let cells = pie_width(width);
            let asked = values
                .iter()
                .map(|v| ((v.abs() / total * 100.0) / 100.0 * cells as f64).round() as usize)
                .collect();
            let percents = values
                .iter()
                .map(|v| format!("{:.1}", v.abs() / total * 100.0))
                .collect();
            ChartScale::Pie { asked, percents }
        }
        _ => {
            let max = values.iter().fold(0.0f64, |m, v| m.max(v.abs())).max(1.0);
            let cells = bar_width(&labels, width);
            let points = values
                .iter()
                .map(|v| BarPoint {
                    filled: ((v.abs() / max) * cells as f64).round() as usize,
                    value: format!("{v:.2}"),
                })
                .collect();
            ChartScale::Bars(points)
        }
    };
    let renderer = ChartRenderer {
        chart_type: match kind {
            ChartType::Pie => ChartType::Pie,
            _ => ChartType::Bar,
        },
    };
    renderer.render_chart(data, options, &scale)
}

fn show(mode: Mode, data: &[Json], options: &RenderOptions) -> String {
    match mode {
        Mode::Table => TableRenderer.render_table(data, options),
        Mode::Dashboard => {
            let readings = gauge_numbers(data, options)
                .into_iter()
                .map(gauge_reading)
                .collect();
            DashboardRenderer.render_dashboard(data, options, &readings)
        }
        Mode::Chart => chart(ChartType::Bar, data, options),
        Mode::Timeline => TimelineRenderer.render_timeline(data, options),
        Mode::Topology => MapRenderer.render_map(data, options),
        Mode::Html => HtmlRenderer.render_html(data, options),
        Mode::Md => MarkdownRenderer.render_md(data, options),
        Mode::Explain => ExplainRenderer {
            level: ExplainLevel::Brief,
        }
        .render_explain(data, options, &column_stats(data, options), &Vec::new()),
        Mode::AiSummary => AiSummaryRenderer {
            level: ExplainLevel::Brief,
        }
        .render_summary(data, options, &column_stats(data, options)),
    }
}

/// Resolves the mode as a run without a user registry would, and renders.
fn auto(text: &str) -> (String, Option<String>) {
    let env = envelope(text);
    let user = RegistryFile::empty();
    let (mode, warning) = resolve_mode(None, env.schema.as_deref(), Some(&user));
    (show(mode, &env.data, &opts()), warning)
}

// ---- golden path per explicit mode ----

#[test]
fn table_mode_renders_a_table() {
    let out = show(Mode::Table, &envelope(PLAIN).data, &opts());
    assert!(out.contains("a | b"));
    match apply(ExportFormat::Pdf, &out) {
        Err(e) => assert!(e.message().contains("not implemented")),
        Ok(_) => panic!("pdf export must fail"),
    }
}

#[test]
fn dashboard_mode_renders_panels() {
    let env = envelope(r#"{"data":[{"name":"web","cpu_percent":50}]}"#);
    let out = show(Mode::Dashboard, &env.data, &opts());
    assert!(out.contains("┌─ web"));
    assert!(out.contains('%'));
}

#[test]
fn chart_mode_renders_bars_by_default() {
    let env = envelope(r#"{"data":[{"name":"requests","value":10}]}"#);
    let out = chart(ChartType::Bar, &env.data, &opts());
    assert!(out.contains("requests"));
}

#[test]
fn chart_of_records_without_numbers_is_empty() {
    let env = envelope(r#"{"data":[{"name":"a"}]}"#);
    let renderer = ChartRenderer {
        chart_type: ChartType::Bar,
    };
    assert_eq!(renderer.render_chart(&env.data, &opts(), &ChartScale::Bars(Vec::new())), "");
    let out = chart(ChartType::Bar, &envelope(r#"{"data":[{"name":"a","value":2}]}"#).data, &opts());
    assert_eq!(out, format!("a | {} {:>8}\n", "█".repeat(37), "2.00"));
}

#[test]
fn chart_mode_respects_chart_type_flag() {
    let env = envelope(r#"{"data":[{"name":"a","value":1}]}"#);
    let out = chart(ChartType::Pie, &env.data, &opts());
    assert!(out.starts_with('['));
}

#[test]
fn timeline_mode_renders_chronologically() {
    let env = envelope(
        r#"{"data":[{"timestamp":"10:05","message":"later"},{"timestamp":"10:00","message":"earlier"}]}"#,
    );
    let out = show(Mode::Timeline, &env.data, &opts());
    assert!(out.find("earlier").unwrap() < out.find("later").unwrap());
}

#[test]
fn map_mode_renders_a_tree() {
    let out = show(Mode::Topology, &envelope(NETWORK_IP).data, &opts());
    assert!(out.starts_with("PC\n"));
    assert!(out.contains("eth0"));
}

#[test]
fn html_mode_renders_a_document() {
    let out = show(Mode::Html, &envelope(PLAIN).data, &opts());
    assert!(out.contains("<!doctype html>"));
    assert!(out.contains("<table>"));
}

#[test]
fn md_mode_renders_a_table() {
    let out = show(Mode::Md, &envelope(PLAIN).data, &opts());
    assert!(out.contains("| a | b |"));
}

#[test]
fn explain_mode_describes_the_data() {
    let env = envelope(r#"{"data":[{"status":"up"}]}"#);
    let out = show(Mode::Explain, &env.data, &opts());
    assert!(out.contains("record(s)"));
}

#[test]
fn ai_summary_mode_is_a_single_condensed_line() {
    let env = envelope(r#"{"data":[{"status":"up"}]}"#);
    let out = show(Mode::AiSummary, &env.data, &opts());
    assert_eq!(out.lines().count(), 1);
}

// ---- schema-based auto-selection ----

#[test]
fn auto_selects_dashboard_for_docker_stats() {
    let (out, warning) = auto(DOCKER_STATS);
    assert!(warning.is_none());
    assert!(out.contains("┌─"));
}

#[test]
fn auto_selects_map_for_network_ip() {
    let (out, warning) = auto(NETWORK_IP);
    assert!(warning.is_none());
    assert!(out.starts_with("PC\n"));
}

#[test]
fn auto_selects_timeline_for_logs_events() {
    let (out, warning) = auto(LOGS_EVENTS);
    assert!(warning.is_none());
    assert!(out.contains("├─") || out.contains("└─"));
}

#[test]
fn auto_selects_chart_for_system_perf_wildcard() {
    let (out, warning) = auto(SYSTEM_PERF_CPU);
    assert!(warning.is_none());
    assert!(out.contains("t1"));
}

#[test]
fn auto_selects_table_for_k8s_pods() {
    let (out, warning) = auto(K8S_PODS);
    assert!(warning.is_none());
    assert!(out.contains("pod-a"));
}

#[test]
fn explicit_mode_overrides_schema_auto_selection() {
    let env = envelope(DOCKER_STATS);
    let (mode, warning) = resolve_mode(Some(Mode::Table), env.schema.as_deref(), None);
    assert!(mode == Mode::Table && warning.is_none());
    // Explicit table mode must win over docker.stats' dashboard default.
    assert!(show(mode, &env.data, &opts()).contains("cpu_percent | name"));
}

#[test]
fn unknown_schema_warns_and_falls_back_to_table() {
    let (out, warning) = auto(r#"{"schema":"totally.unknown","data":[{"a":1}]}"#);
    assert!(warning.unwrap().contains("unknown schema"));
    assert!(out.contains('a'));
}

// ---- sort / filter ----

#[test]
fn sort_orders_rows_numerically() {
    let env = envelope(r#"{"data":[{"v":3},{"v":1},{"v":2}]}"#);
    let options = RenderOptions {
        sort: Some("v".to_string()),
        ..opts()
    };
    let out = show(Mode::Table, &env.data, &options);
    let lines: Vec<&str> = out.lines().skip(2).collect(); // skip header + divider
    assert_eq!(lines, vec!["1", "2", "3"]);
}

#[test]
fn filter_keeps_only_matching_rows() {
    let env = envelope(r#"{"data":[{"status":"up"},{"status":"down"}]}"#);
    let options = RenderOptions {
        filter: split_filter("status=down"),
        ..opts()
    };
    let out = show(Mode::Table, &env.data, &options);
    assert!(!out.contains("up") || out.matches("down").count() >= out.matches("up").count());
    assert!(out.contains("down"));
    assert_eq!(out.lines().count(), 3); // header + divider + one row
}

#[test]
fn filter_splits_at_the_first_equals_sign() {
    assert_eq!(
        split_filter("expr=a=b"),
        Some(("expr".to_string(), "a=b".to_string()))
    );
    assert_eq!(split_filter("=x"), Some((String::new(), "x".to_string())));
    assert_eq!(split_filter("novalue"), None);
}

// ---- --export ----

#[test]
fn export_html_wraps_any_modes_output() {
    let out = apply(ExportFormat::Html, &show(Mode::Table, &envelope(PLAIN).data, &opts())).unwrap();
    assert!(out.contains("<!doctype html>"));
    assert!(out.contains("<pre>"));
}

#[test]
fn export_md_wraps_in_a_fenced_code_block() {
    let out = apply(ExportFormat::Md, &show(Mode::Table, &envelope(PLAIN).data, &opts())).unwrap();
    assert!(out.starts_with("```text\n"));
}

#[test]
fn export_svg_produces_an_svg_document() {
    let out = apply(ExportFormat::Svg, &show(Mode::Table, &envelope(PLAIN).data, &opts())).unwrap();
    assert!(out.starts_with("<svg "));
}

#[test]
fn export_pdf_fails_cleanly() {
    let rendered = show(Mode::Table, &envelope(PLAIN).data, &opts());
    match apply(ExportFormat::Pdf, &rendered) {
        Err(e) => assert!(e.message().contains("not implemented")),
        Ok(_) => panic!("pdf export must fail"),
    }
}

// ---- --live ----

/// Runs the live loop over the lines of `input` the way the command does.
fn live(mode: Mode, input: &str) -> (String, Option<String>) {
    let notice = live_notice(mode);
    let mut out = String::new();
    let mut drawn = 0usize;
    for line in input.lines() {
        match live_step(mode, line, drawn) {
            LiveStep::Stop => break,
            LiveStep::Skip => {}
            LiveStep::Render => {
                out.push_str(&show(mode, &envelope(line).data, &opts()));
                drawn += 1;
            }
        }
    }
    (out, notice)
}

#[test]
fn live_dashboard_renders_every_frame() {
    let frames = "{\"data\":[{\"name\":\"web\",\"cpu_percent\":10}]}\n{\"data\":[{\"name\":\"web\",\"cpu_percent\":90}]}\n";
    let (out, notice) = live(Mode::Dashboard, frames);
    assert!(notice.is_none());
    assert_eq!(out.matches("┌─ web").count(), 2);
    assert!(out.contains("10%"));
    assert!(out.contains("90%"));
}

#[test]
fn live_with_unsupported_mode_warns_and_renders_once() {
    let frames = "{\"data\":[{\"a\":1}]}\n{\"data\":[{\"a\":2}]}\n";
    let (out, notice) = live(Mode::Table, frames);
    assert!(notice.unwrap().contains("only supports dashboard/timeline"));
    assert_eq!(out.matches('a').count(), 1); // header only, one frame rendered
}

#[test]
fn live_with_empty_stdin_exits_cleanly() {
    let (out, notice) = live(Mode::Dashboard, "");
    assert!(notice.is_none());
    assert_eq!(out, "");
}

#[test]
fn live_skips_blank_lines() {
    assert_eq!(live_step(Mode::Timeline, "  \t", 0), LiveStep::Skip);
    assert_eq!(live_step(Mode::Timeline, "{}", 3), LiveStep::Render);
    assert_eq!(live_step(Mode::Md, "{}", 1), LiveStep::Stop);
    assert_eq!(live_step(Mode::Md, "{}", 0), LiveStep::Render);
}

#[test]
fn live_frames_replace_each_other_on_a_terminal() {
    assert_eq!(frame_text("x\n", true), "\u{1b}[2J\u{1b}[Hx\n");
    assert_eq!(frame_text("x\n", false), "x\n");
}

// ---- register / validate ----

#[test]
fn validate_with_no_schema_is_always_ok() {
    let out = validate(&envelope(PLAIN), &Ok(RegistryFile::empty())).unwrap();
    assert!(out.contains("No schema specified"));
}

#[test]
fn validate_unknown_schema_fails() {
    match validate(
        &envelope(r#"{"schema":"nope.nope","data":[]}"#),
        &Ok(RegistryFile::empty()),
    ) {
        Err(e) => {
            assert!(matches!(e, RegistryError::SchemaNotFound(_)));
            assert!(e.message().contains("SRD_SCHEMA_NOT_FOUND"));
        }
        Ok(_) => panic!("an unknown schema must fail validation"),
    }
}

#[test]
fn validate_builtin_schema_flags_missing_required_field() {
    let data = r#"{"schema":"network.ip","data":[{"ipv4":"1.2.3.4"}]}"#;
    let out = validate(&envelope(data), &Ok(RegistryFile::empty())).unwrap();
    assert!(out.contains("missing required field 'interface'"));
}

#[test]
fn register_then_validate_and_render_round_trip() {
    let mut registry = RegistryFile::empty();
    let fields_file: serde_json::Value =
        serde_json::from_str(r#"{"name": "string", "value": "number"}"#).unwrap();
    let fields = fields_from_json(&json(&fields_file)).unwrap();
    let message = register(
        &mut registry,
        "acme.widgets",
        "chart",
        fields,
        "/home/u/.presentation/registry.json",
    );
    assert!(message.contains("Registered schema 'acme.widgets' -> chart"));

    let payload = r#"{"schema":"acme.widgets","data":[{"name":"requests","value":100}]}"#;
    let user: Result<RegistryFile, String> = Ok(registry);
    let val_out = validate(&envelope(payload), &user).unwrap();
    assert!(val_out.contains("match schema 'acme.widgets'"));
    assert!(val_out.contains("user-registered"));

    // The registered schema must actually drive rendering, not just validate.
    let env = envelope(payload);
    let registry = user.unwrap();
    let (mode, warning) = resolve_mode(None, env.schema.as_deref(), Some(&registry));
    assert!(mode == Mode::Chart && warning.is_none());
    assert!(show(mode, &env.data, &opts()).contains("requests")); // chart mode renders the label
}

#[test]
fn corrupt_registry_file_fails_validate_but_not_rendering() {
    let unreadable: Result<RegistryFile, String> = Err(
        "registry file /home/u/.presentation/registry.json is corrupt: expected value at line 1 column 1"
            .to_string(),
    );
    match validate(&envelope(NETWORK_IP), &unreadable) {
        Err(e) => {
            assert!(matches!(e, RegistryError::Unavailable(_)));
            assert!(e.message().contains("corrupt"));
        }
        Ok(_) => panic!("a corrupt registry must fail validation"),
    }

    // Rendering must still work: a broken user registry falls back to the
    // built-in table rather than breaking normal use.
    let env = envelope(NETWORK_IP);
    let (mode, _) = resolve_mode(Some(Mode::Topology), env.schema.as_deref(), None);
    assert!(show(mode, &env.data, &opts()).starts_with("PC\n"));
}
