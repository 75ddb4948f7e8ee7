use presentation::export::{apply, ExportFormat};
use presentation::json::{Field, Json, JsonNumber};
use presentation::mode::{mode_from_name, resolve_mode, Mode};
use presentation::registry::{
    builtin_fields, corrupt_registry, sort_by_name, register, registry_path, resolve_renderer, validate, RegistryFile,
};
use presentation::render::ai_summary::AiSummaryRenderer;
use presentation::render::dashboard::{gauge_name, gauge_numbers, DashboardRenderer, GaugeReading};
use presentation::render::explain::{ColumnStats, ExplainLevel, ExplainRenderer};
use presentation::render::html::{escape, HtmlRenderer};
use presentation::render::md::{MarkdownRenderer};
use presentation::render::rows::{sorted_filtered_indices, RenderOptions};
use presentation::render::table::{truncate, TableRenderer};
use presentation::render::timeline::TimelineRenderer;
use presentation::strmap::StrMap;
use presentation::term::TermColor;
use presentation::protocol::Envelope;

fn number_key(x: f64) -> u64 {
    let x = if x == 0.0 { 0.0 } else { x };
    presentation::json::order_key(x.to_bits())
}

fn json(v: &serde_json::Value) -> Json {
    match v {
        serde_json::Value::Null => Json::Null,
        serde_json::Value::Bool(b) => Json::Bool(*b),
        serde_json::Value::Number(n) => Json::Number(JsonNumber {
            text: n.to_string(),
            key: number_key(n.as_f64().unwrap_or(0.0)),
        }),
        serde_json::Value::String(s) => Json::Str(s.clone()),
        serde_json::Value::Array(items) => Json::Array {
            items: items.iter().map(json).collect(),
            text: v.to_string(),
        },
        serde_json::Value::Object(map) => Json::Object {
            fields: map
                .iter()
                .map(|(k, x)| Field {
                    key: k.clone(),
                    value: json(x),
                })
                .collect(),
            text: v.to_string(),
        },
    }
}

fn data(text: &str) -> Vec<Json> {
    let v: serde_json::Value = serde_json::from_str(text).unwrap();
    v.as_array().unwrap().iter().map(json).collect()
}

fn opts() -> RenderOptions {
    RenderOptions {
        sort: None,
        filter: None,
        width: None,
        color: false,
    }
}

// ---- table ----

#[test]
fn table_caps_columns_by_width_and_truncates() {
    let rows = data(r#"[{"name": "alpha-long", "v": 1}]"#);
    let options = RenderOptions {
        width: Some(10),
        ..opts()
    };
    let out = TableRenderer.render_table(&rows, &options);
    assert_eq!(out, "name  | v\n---------\nalph… | 1\n");
}

#[test]
fn table_of_no_records_is_empty() {
    assert_eq!(TableRenderer.render_table(&[], &opts()), "");
}

#[test]
fn table_sorts_numbers_before_text_and_keeps_ties_in_order() {
    let rows = data(r#"[{"k": "b", "n": 1}, {"k": 10, "n": 2}, {"k": "a", "n": 3}, {"k": 2, "n": 4}, {"k": "a", "n": 5}]"#);
    let options = RenderOptions {
        sort: Some("k".to_string()),
        ..opts()
    };
    let out = TableRenderer.render_table(&rows, &options);
    let order: Vec<&str> = out.lines().skip(2).collect();
    assert_eq!(order, vec!["2  | 4", "10 | 2", "a  | 3", "a  | 5", "b  | 1"]);
}

#[test]
fn truncate_marks_the_cut_with_an_ellipsis() {
    assert_eq!(truncate("abcdef", 4), "abc…");
    assert_eq!(truncate("abc", 3), "abc");
    assert_eq!(truncate("abc", 0), "");
}

#[test]
fn table_paints_down_status_cells_when_color_is_on() {
    let rows = data(r#"[{"status": "down"}]"#);
    let options = RenderOptions {
        color: true,
        ..opts()
    };
    let out = TableRenderer.render_table(&rows, &options);
    let plain = TableRenderer.render_table(&rows, &opts());
    assert_eq!(plain, "status\n------\ndown  \n");
    assert_ne!(out, plain);
}

// ---- html / md ----

#[test]
fn escape_replaces_markup_characters() {
    assert_eq!(escape("<a href='x'>&\"</a>"), "&lt;a href=&#39;x&#39;&gt;&amp;&quot;&lt;/a&gt;");
    assert_eq!(escape("plain text"), "plain text");
}

#[test]
fn html_report_flags_down_records() {
    let rows = data(r#"[{"name": "a", "status": "up"}, {"name": "b", "status": "down"}]"#);
    let out = HtmlRenderer.render_html(&rows, &opts());
    assert!(out.contains("<p class=\"summary\">2 record(s), <span class=\"flag-down\">1 flagged</span>.</p>\n"));
    assert!(out.contains("<tr><td class=\"\">a</td><td class=\"flag-up\">up</td></tr>\n"));
    assert!(out.contains("<tr><td class=\"\">b</td><td class=\"flag-down\">down</td></tr>\n"));
    assert!(out.ends_with("</tbody>\n</table>\n</body>\n</html>\n"));
}

#[test]
fn html_report_of_no_records_says_so() {
    let out = HtmlRenderer.render_html(&[], &opts());
    assert!(out.contains("<p class=\"summary\">0 record(s).</p>\n<p class=\"empty\">No data.</p>\n"));
}

#[test]
fn md_report_escapes_cells_and_bolds_flags() {
    let rows = data(r#"[{"note": "a|b", "status": "DOWN"}]"#);
    let out = MarkdownRenderer.render_md(&rows, &opts());
    assert_eq!(
        out,
        "# Presentation Report\n\n1 record(s), **1 flagged**.\n\n| note | status |\n| --- | --- |\n| a\\|b | **DOWN** |\n"
    );
}

#[test]
fn md_report_of_no_records() {
    assert_eq!(
        MarkdownRenderer.render_md(&[], &opts()),
        "# Presentation Report\n\n0 record(s).\n\n_No data._\n"
    );
}

// ---- timeline ----

#[test]
fn timeline_orders_by_time_and_pads_columns() {
    let rows = data(
        r#"[{"timestamp": "10:05", "level": "warn", "message": "disk", "host": "a"},
            {"timestamp": "10:00", "level": "info", "message": "boot"}]"#,
    );
    let out = TimelineRenderer.render_timeline(&rows, &opts());
    assert_eq!(
        out,
        "│\n├─ 10:00  [INFO]  boot  ()\n└─ 10:05  [WARN]  disk  (a)\n"
    );
}

#[test]
fn timeline_without_message_lists_the_other_fields() {
    let rows = data(r#"[{"time": "1", "x": "y", "z": 2}]"#);
    let out = TimelineRenderer.render_timeline(&rows, &opts());
    assert_eq!(out, "│\n└─ 1    x=y, z=2\n");
}

#[test]
fn timeline_width_bounds_the_message() {
    let rows = data(r#"[{"time": "1", "message": "abcdefghijklmnopqrstuvwxy"}]"#);
    let options = RenderOptions {
        width: Some(30),
        ..opts()
    };
    let out = TimelineRenderer.render_timeline(&rows, &options);
    assert_eq!(out, "│\n└─ 1    abcdefghijklmnopqr…\n");
}

#[test]
fn timeline_keeps_an_explicit_sort() {
    let rows = data(r#"[{"time": "2", "n": 1}, {"time": "1", "n": 2}]"#);
    let options = RenderOptions {
        sort: Some("n".to_string()),
        ..opts()
    };
    let out = TimelineRenderer.render_timeline(&rows, &options);
    assert!(out.find("n=1").unwrap() < out.find("n=2").unwrap());
}

#[test]
fn timeline_of_non_objects_is_empty() {
    assert_eq!(TimelineRenderer.render_timeline(&data("[1, 2]"), &opts()), "");
}

// ---- dashboard ----

#[test]
fn dashboard_panel_layout() {
    let rows = data(r#"[{"name": "web", "cpu": 50, "os": "linux"}, 7]"#);
    let numbers = gauge_numbers(&rows, &opts());
    assert_eq!(numbers.len(), 1);
    assert_eq!(numbers[0].text, "50");
    let readings = vec![GaugeReading {
        filled: 10,
        percent: "50".to_string(),
        color: TermColor::Yellow,
    }];
    let out = DashboardRenderer.render_dashboard(&rows, &opts(), &readings);
    let expected = format!(
        "┌─ web {}\n│ cpu: [{}{}] 50%\n│ name: web\n│ os: linux\n└{}\n",
        "─".repeat(38),
        "█".repeat(10),
        "░".repeat(10),
        "─".repeat(44)
    );
    assert_eq!(out, expected);
}

#[test]
fn dashboard_title_falls_back_to_panel_and_width_to_forty() {
    let rows = data(r#"[{"load": "high"}]"#);
    let options = RenderOptions {
        width: Some(3),
        ..opts()
    };
    let out = DashboardRenderer.render_dashboard(&rows, &options, &Vec::new());
    let expected = format!("┌─ panel {}\n│ load: high\n└{}\n", "─".repeat(32), "─".repeat(40));
    assert_eq!(out, expected);
}

#[test]
fn gauge_names_match_case_insensitively() {
    assert!(gauge_name("CPU_percent"));
    assert!(gauge_name("battery"));
    assert!(!gauge_name("name"));
}

// ---- explain / ai-summary ----

fn stats() -> Vec<ColumnStats> {
    vec![ColumnStats {
        min: "10.0".to_string(),
        max: "30.0".to_string(),
        avg: "20.0".to_string(),
    }]
}

fn fleet() -> Vec<Json> {
    data(r#"[{"name": "a", "cpu": 10, "status": "up"}, {"name": "b", "cpu": 30, "status": "down"}]"#)
}

#[test]
fn explain_brief_and_detailed() {
    let rows = fleet();
    let brief = ExplainRenderer {
        level: ExplainLevel::Brief,
    }
    .render_explain(&rows, &opts(), &stats(), &Vec::new());
    let head = "This dataset has 2 record(s).\n1 record(s) are flagged on `status`: b.\n`cpu` ranges from 10.0 to 30.0 (average 20.0).\n";
    assert_eq!(brief, head);
    let readings = vec![vec!["10.0 (low)".to_string()], vec!["30.0 (high)".to_string()]];
    let detailed = ExplainRenderer {
        level: ExplainLevel::Detailed,
    }
    .render_explain(&rows, &opts(), &stats(), &readings);
    assert_eq!(
        detailed,
        format!("{head}\n- a: status is up, cpu is 10.0 (low).\n- b: status is down, cpu is 30.0 (high).\n")
    );
}

#[test]
fn explain_healthy_and_empty() {
    let rows = data(r#"[{"state": "ok"}]"#);
    let out = ExplainRenderer {
        level: ExplainLevel::Detailed,
    }
    .render_explain(&rows, &opts(), &Vec::new(), &vec![Vec::new()]);
    assert_eq!(
        out,
        "This dataset has 1 record(s).\nAll records look healthy on `state`.\n\n- #1: state is ok.\n"
    );
    let none = ExplainRenderer {
        level: ExplainLevel::Brief,
    }
    .render_explain(&[], &opts(), &Vec::new(), &Vec::new());
    assert_eq!(none, "No data to explain.\n");
}

#[test]
fn ai_summary_brief_and_detailed() {
    let rows = fleet();
    let brief = AiSummaryRenderer {
        level: ExplainLevel::Brief,
    }
    .render_summary(&rows, &opts(), &stats());
    assert_eq!(brief, "2 record(s), 1 flagged on status (b); cpu 10.0-30.0.\n");
    let detailed = AiSummaryRenderer {
        level: ExplainLevel::Detailed,
    }
    .render_summary(&rows, &opts(), &stats());
    assert_eq!(
        detailed,
        "2 record(s), 1 flagged on status (b); cpu avg 20.0 (range 10.0-30.0).\n"
    );
    let none = AiSummaryRenderer {
        level: ExplainLevel::Brief,
    }
    .render_summary(&[], &opts(), &Vec::new());
    assert_eq!(none, "No data to summarize.\n");
}

#[test]
fn filter_applies_before_every_renderer() {
    let rows = fleet();
    let options = RenderOptions {
        filter: Some(("status".to_string(), "down".to_string())),
        ..opts()
    };
    assert_eq!(sorted_filtered_indices(&rows, &options), vec![1]);
    let out = AiSummaryRenderer {
        level: ExplainLevel::Brief,
    }
    .render_summary(&rows, &options, &vec![ColumnStats {
        min: "30.0".to_string(),
        max: "30.0".to_string(),
        avg: "30.0".to_string(),
    }]);
    assert_eq!(out, "1 record(s), 1 flagged on status (b); cpu 30.0-30.0.\n");
}

// ---- export ----

#[test]
fn export_md_fence_outgrows_backticks_in_the_content() {
    assert_eq!(apply(ExportFormat::Md, "a").unwrap(), "```text\na\n```\n");
    assert_eq!(
        apply(ExportFormat::Md, "x ```` y\n").unwrap(),
        "`````text\nx ```` y\n`````\n"
    );
}

#[test]
fn export_html_escapes_the_content() {
    let out = apply(ExportFormat::Html, "<b>").unwrap();
    assert!(out.contains("<pre>&lt;b&gt;</pre>"));
}

#[test]
fn export_svg_sizes_to_the_text() {
    let out = apply(ExportFormat::Svg, "ab\r\nc").unwrap();
    assert!(out.starts_with(
        "<svg xmlns=\"http://www.w3.org/2000/svg\" width=\"200\" height=\"56\" viewBox=\"0 0 200 56\">\n"
    ));
    assert!(out.contains("y=\"24.0\""));
    assert!(out.contains("y=\"42.0\""));
    assert!(out.ends_with("</svg>\n"));
}

// ---- modes and the registry ----

#[test]
fn renderer_names_map_to_modes() {
    assert!(mode_from_name("ai-summary") == Some(Mode::AiSummary));
    assert!(mode_from_name("map") == Some(Mode::Topology));
    assert!(mode_from_name("graph").is_none());
}

#[test]
fn unimplemented_renderer_warns_and_falls_back_to_table() {
    let mut reg = RegistryFile::empty();
    register(&mut reg, "x.y", "graph", StrMap::new(), "p");
    let (mode, warning) = resolve_mode(None, Some("x.y"), Some(&reg));
    assert!(mode == Mode::Table);
    assert_eq!(
        warning.unwrap(),
        "presentation: renderer 'graph' for schema 'x.y' is not implemented yet; falling back to table"
    );
    let (mode, warning) = resolve_mode(None, None, Some(&reg));
    assert!(mode == Mode::Table && warning.is_none());
}

#[test]
fn user_registry_wins_over_builtin() {
    let mut reg = RegistryFile::empty();
    assert_eq!(resolve_renderer("network.ip", Some(&reg)), Some("map".to_string()));
    let message = register(&mut reg, "network.ip", "table", StrMap::new(), "/h/r.json");
    assert_eq!(message, "Registered schema 'network.ip' -> table (0 field(s)) in /h/r.json\n");
    assert_eq!(resolve_renderer("network.ip", Some(&reg)), Some("table".to_string()));
    assert_eq!(resolve_renderer("network.ip", None), Some("map".to_string()));
    assert_eq!(resolve_renderer("network.wifi", Some(&reg)), Some("dashboard".to_string()));
}

#[test]
fn validate_reports_warnings_line_by_line() {
    let env = Envelope {
        schema: Some("network.ip".to_string()),
        data: data(r#"[{"interface": 5}]"#),
    };
    let out = validate(&env, &Ok(RegistryFile::empty())).unwrap();
    assert!(out.starts_with("1 record(s) checked against schema 'network.ip' (built-in, renderer: map): "));
    assert!(out.contains("  WARN: record 1: field 'interface' expected string but got number\n"));
}

#[test]
fn validate_without_definitions_says_so() {
    let env = Envelope {
        schema: Some("k8s.pods".to_string()),
        data: Vec::new(),
    };
    assert_eq!(
        validate(&env, &Ok(RegistryFile::empty())).unwrap(),
        "OK: 0 record(s), schema 'k8s.pods' recognized (built-in, renderer: table). No field definitions to validate against.\n"
    );
}

#[test]
fn registry_lives_under_the_home_directory() {
    assert_eq!(
        registry_path(Some("/home/u")).unwrap(),
        "/home/u/.presentation/registry.json"
    );
    assert_eq!(
        registry_path(Some("/home/u/")).unwrap(),
        "/home/u/.presentation/registry.json"
    );
    assert!(registry_path(None).unwrap_err().contains("HOME/USERPROFILE"));
    assert_eq!(
        corrupt_registry("/r.json", "bad"),
        "registry file /r.json is corrupt: bad"
    );
}

#[test]
fn strmap_keeps_one_value_per_key() {
    let mut m: StrMap<String> = StrMap::new();
    assert!(m.is_empty());
    m.insert("b".to_string(), "1".to_string());
    m.insert("a".to_string(), "2".to_string());
    m.insert("b".to_string(), "3".to_string());
    assert_eq!(m.len(), 2);
    assert_eq!(m.get("b"), Some(&"3".to_string()));
    assert_eq!(m.entry(0).0, "a");
    assert!(m.get("c").is_none());
}

#[test]
fn dashboard_title_recognizes_hostname() {
    let rows = data(r#"[{"hostname": "web-01"}]"#);
    let out = DashboardRenderer.render_dashboard(&rows, &opts(), &Vec::new());
    let expected = "┌─ web-01 ".to_string()
        + &"─".repeat(35)
        + "\n│ hostname: web-01\n└"
        + &"─".repeat(44)
        + "\n";
    assert_eq!(out, expected);
}

#[test]
fn builtin_fields_keep_documented_order() {
    let fields = builtin_fields("network.ip").unwrap();
    let names: Vec<&str> = fields.iter().map(|p| p.0.as_str()).collect();
    assert_eq!(
        names,
        vec!["interface", "ipv4", "ipv6", "gateway", "dns", "status", "speed"]
    );
    let sorted = sort_by_name(&fields);
    let names: Vec<&str> = sorted.iter().map(|p| p.0.as_str()).collect();
    assert_eq!(
        names,
        vec!["dns", "gateway", "interface", "ipv4", "ipv6", "speed", "status"]
    );
    assert_eq!(sorted[0].1, "array<string>");
}

#[test]
fn validate_checks_builtin_fields_in_name_order() {
    let env = Envelope {
        schema: Some("network.ip".to_string()),
        data: data("[{}]"),
    };
    let out = validate(&env, &Ok(RegistryFile::empty())).unwrap();
    assert_eq!(
        out,
        "1 record(s) checked against schema 'network.ip' (built-in, renderer: map): 3 warning(s).\n  WARN: record 1: missing required field 'dns'\n  WARN: record 1: missing required field 'interface'\n  WARN: record 1: missing required field 'status'\n"
    );
}

#[test]
fn export_md_fence_is_longer_than_every_line_run() {
    assert_eq!(
        apply(ExportFormat::Md, "a``\nb```").unwrap(),
        "````text\na``\nb```\n````\n"
    );
}

#[test]
fn export_svg_escapes_each_line() {
    let out = apply(ExportFormat::Svg, "<a>").unwrap();
    assert!(out.contains("width=\"200\" height=\"40\""));
    assert!(out.contains(">&lt;a&gt;</text>\n"));
    assert!(!out.contains("<a>"));
}

#[test]
fn html_report_escapes_cells() {
    let rows = data(r#"[{"a": "<script>x</script>"}]"#);
    let out = HtmlRenderer.render_html(&rows, &opts());
    assert!(out.contains("&lt;script&gt;x&lt;/script&gt;"));
    assert!(!out.contains("<script>"));
}

#[test]
fn colored_table_keeps_its_layout() {
    let rows = data(r#"[{"name": "a", "status": "up"}, {"name": "b", "status": "down"}]"#);
    let options = RenderOptions {
        color: true,
        ..opts()
    };
    let out = TableRenderer.render_table(&rows, &options);
    let lines: Vec<&str> = out.lines().collect();
    assert_eq!(lines.len(), 4);
    assert_eq!(lines[0], "name | status");
    assert_eq!(lines[1], "-------------");
    assert!(lines[2].starts_with("a    | "));
    assert!(out.ends_with('\n'));
}

#[test]
fn colored_timeline_keeps_its_layout() {
    let rows = data(
        r#"[{"time": "1", "level": "error", "message": "a"}, {"time": "2", "level": "info", "message": "b"}]"#,
    );
    let options = RenderOptions {
        color: true,
        ..opts()
    };
    let out = TimelineRenderer.render_timeline(&rows, &options);
    let lines: Vec<&str> = out.lines().collect();
    assert_eq!(lines.len(), 3);
    assert_eq!(lines[0], "│");
    assert!(lines[1].starts_with("├─ 1  "));
    assert!(lines[2].starts_with("└─ 2  "));
}
