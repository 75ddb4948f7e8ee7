//! Choosing the renderer: an explicit mode wins; otherwise the payload's
//! schema picks one through the registry, falling back to `table`.
use vstd::prelude::*;
use crate::registry::{RegistryFile, resolve_renderer, resolved_renderer};
use crate::text::{owned, push_str, str_eq};

verus! {

#[derive(Clone, Copy, Debug, PartialEq, Eq, Structural)]
pub enum Mode {
    Table,
    Dashboard,
    Chart,
    Timeline,
    Topology,
    Html,
    Md,
    Explain,
    AiSummary,
}

/// The mode a renderer name stands for.
pub open spec fn mode_named(name: Seq<char>) -> Option<Mode> {
    if name == "table"@ {
        Some(Mode::Table)
    } else if name == "dashboard"@ {
        Some(Mode::Dashboard)
    } else if name == "chart"@ {
        Some(Mode::Chart)
    } else if name == "timeline"@ {
        Some(Mode::Timeline)
    } else if name == "map"@ {
        Some(Mode::Topology)
    } else if name == "html"@ {
        Some(Mode::Html)
    } else if name == "md"@ {
        Some(Mode::Md)
    } else if name == "explain"@ {
        Some(Mode::Explain)
    } else if name == "ai-summary"@ {
        Some(Mode::AiSummary)
    } else {
        None
    }
}

pub fn mode_from_name(name: &str) -> (r: Option<Mode>)
    ensures
        r == mode_named(name@),
{
    if str_eq(name, "table") {
        Some(Mode::Table)
    } else if str_eq(name, "dashboard") {
        Some(Mode::Dashboard)
    } else if str_eq(name, "chart") {
        Some(Mode::Chart)
    } else if str_eq(name, "timeline") {
        Some(Mode::Timeline)
    } else if str_eq(name, "map") {
        Some(Mode::Topology)
    } else if str_eq(name, "html") {
        Some(Mode::Html)
    } else if str_eq(name, "md") {
        Some(Mode::Md)
    } else if str_eq(name, "explain") {
        Some(Mode::Explain)
    } else if str_eq(name, "ai-summary") {
        Some(Mode::AiSummary)
    } else {
        None
    }
}

/// The name each mode goes by, on the command line and as a schema's
/// renderer in the registry.
pub open spec fn mode_label(m: Mode) -> Seq<char> {
    match m {
        Mode::Table => "table"@,
        Mode::Dashboard => "dashboard"@,
        Mode::Chart => "chart"@,
        Mode::Timeline => "timeline"@,
        Mode::Topology => "map"@,
        Mode::Html => "html"@,
        Mode::Md => "md"@,
        Mode::Explain => "explain"@,
        Mode::AiSummary => "ai-summary"@,
    }
}

/// Every mode's own name selects that mode, and a name selects a mode only
/// if it is that mode's name: the nine names stand for nine distinct modes.
pub proof fn law_names_select_their_modes(name: Seq<char>, m: Mode)
    ensures
        mode_named(mode_label(m)) == Some(m),
        mode_named(name) == Some(m) ==> name == mode_label(m),
        mode_named(name) is None <==> forall|k: Mode| name != #[trigger] mode_label(k),
{
    reveal_strlit("table");
    reveal_strlit("dashboard");
    reveal_strlit("chart");
    reveal_strlit("timeline");
    reveal_strlit("map");
    reveal_strlit("html");
    reveal_strlit("md");
    reveal_strlit("explain");
    reveal_strlit("ai-summary");
    assert("table"@.len() == 5 && "dashboard"@.len() == 9 && "chart"@.len() == 5);
    assert("chart"@[0] != "table"@[0]);
    assert("timeline"@.len() == 8 && "map"@.len() == 3 && "html"@.len() == 4 && "md"@.len() == 2);
    assert("explain"@.len() == 7 && "ai-summary"@.len() == 10);
    assert("map"@[0] != "md"@[0] || "map"@[1] != "md"@[1]);
    assert("html"@ != "md"@);
    assert("table"@ != "chart"@);
    match m {
        Mode::Table => {},
        Mode::Dashboard => {},
        Mode::Chart => {},
        Mode::Timeline => {},
        Mode::Topology => {},
        Mode::Html => {},
        Mode::Md => {},
        Mode::Explain => {},
        Mode::AiSummary => {},
    }
    if mode_named(name) is None {
        assert forall|k: Mode| name != #[trigger] mode_label(k) by {
            match k {
                Mode::Table => {},
                Mode::Dashboard => {},
                Mode::Chart => {},
                Mode::Timeline => {},
                Mode::Topology => {},
                Mode::Html => {},
                Mode::Md => {},
                Mode::Explain => {},
                Mode::AiSummary => {},
            }
        }
    } else {
        let k = mode_named(name)->0;
        assert(name == mode_label(k));
    }
}

/// A schema whose renderer is a mode's name is shown in that mode, with no
/// warning, when no mode is given.
pub proof fn law_schema_renderer_selects_its_mode(
    schema: Seq<char>,
    user: Option<&RegistryFile>,
    m: Mode,
)
    requires
        resolved_renderer(schema, user) == Some(mode_label(m)),
    ensures
        chosen_mode(None, Some(schema), user) == (m, Option::<Seq<char>>::None),
{
    law_names_select_their_modes(mode_label(m), m);
}

/// The chosen mode and the warning printed on the way (if any).
pub open spec fn chosen_mode(
    cli_mode: Option<Mode>,
    schema: Option<Seq<char>>,
    user: Option<&RegistryFile>,
) -> (Mode, Option<Seq<char>>) {
    match cli_mode {
        Some(m) => (m, None),
        None => match schema {
            None => (Mode::Table, None),
            Some(s) => match resolved_renderer(s, user) {
                None => (
                    Mode::Table,
                    Some("presentation: unknown schema '"@ + s + "'; falling back to table"@),
                ),
                Some(name) => match mode_named(name) {
                    Some(m) => (m, None),
                    None => (
                        Mode::Table,
                        Some(
                            "presentation: renderer '"@ + name + "' for schema '"@ + s
                                + "' is not implemented yet; falling back to table"@,
                        ),
                    ),
                },
            },
        },
    }
}

pub open spec fn opt_view(s: Option<&str>) -> Option<Seq<char>> {
    match s {
        Some(t) => Some(t@),
        None => None,
    }
}

/// Resolves the renderer: an explicit mode wins outright; otherwise the
/// payload's schema is looked up (user registry first, then the built-in
/// table). A schema that is unknown, or that maps to a renderer this build
/// doesn't implement, yields a warning and `table`.
pub fn resolve_mode(
    cli_mode: Option<Mode>,
    schema: Option<&str>,
    user: Option<&RegistryFile>,
) -> (r: (Mode, Option<String>))
    ensures
        r.0 == chosen_mode(cli_mode, opt_view(schema), user).0,
        r.1 matches Some(w) ==> chosen_mode(cli_mode, opt_view(schema), user).1 == Some(w@),
        r.1 is None ==> chosen_mode(cli_mode, opt_view(schema), user).1 is None,
{
    if let Some(m) = cli_mode {
        return (m, None);
    }
    let s = match schema {
        None => {
            return (Mode::Table, None);
        },
        Some(s) => s,
    };
    match resolve_renderer(s, user) {
        None => {
            let mut w = owned("presentation: unknown schema '");
            push_str(&mut w, s);
            push_str(&mut w, "'; falling back to table");
            (Mode::Table, Some(w))
        },
        Some(name) => match mode_from_name(name.as_str()) {
            Some(m) => (m, None),
            None => {
                let mut w = owned("presentation: renderer '");
                push_str(&mut w, name.as_str());
                push_str(&mut w, "' for schema '");
                push_str(&mut w, s);
                push_str(&mut w, "' is not implemented yet; falling back to table");
                (Mode::Table, Some(w))
            },
        },
    }
}

/// An explicit mode always wins over the payload's schema.
pub proof fn law_explicit_mode_wins(
    m: Mode,
    schema: Option<Seq<char>>,
    user: Option<&RegistryFile>,
)
    ensures
        chosen_mode(Some(m), schema, user) == (m, Option::<Seq<char>>::None),
{
}

/// Without a mode, a payload without a schema, or with a schema that
/// resolves to no renderer, is shown as a table.
pub proof fn law_fallback_is_table(schema: Option<Seq<char>>, user: Option<&RegistryFile>)
    requires
        schema matches Some(s) ==> resolved_renderer(s, user) is None,
    ensures
        chosen_mode(None, schema, user).0 == Mode::Table,
{
}

} // verus!
