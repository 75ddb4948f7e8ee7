//! `map` mode: a fixed three-level topology — a "PC" root, one branch per
//! record (its interface/node name), then that node's gateway, then the
//! gateway's DNS/downstream targets. Field names are picked from the first
//! record. With color on, up nodes are painted green and down/disabled
//! ones dark grey.
use vstd::prelude::*;
use crate::json::{Json, cell_text, cell_text_of, json_get, keys_of, value_text, value_text_of};
use crate::render::rows::{RenderOptions, Renderer, indices_in, leads_with_object, pick, pick_field, rows_at,
    sorted_filtered, sorted_filtered_indices, str_views};
use crate::term::{TermColor, paint, painted};
use crate::text::{ascii_lower, decimal, opt_seq, owned, push_str, str_eq, to_lower, usize_text, views};

verus! {

pub open spec fn node_fields() -> Seq<Seq<char>> {
    seq!["interface"@, "name"@, "id"@]
}

pub open spec fn gateway_fields() -> Seq<Seq<char>> {
    seq!["gateway"@, "parent"@, "target"@]
}

pub open spec fn dns_fields() -> Seq<Seq<char>> {
    seq!["dns"@, "children"@, "targets"@]
}

pub open spec fn status_fields() -> Seq<Seq<char>> {
    seq!["status"@, "state"@]
}

pub open spec fn branch(last: bool) -> Seq<char> {
    if last {
        "└─"@
    } else {
        "├─"@
    }
}

pub open spec fn leaf_line(prefix: Seq<char>, leaves: Seq<Seq<char>>, i: int) -> Seq<char> {
    prefix + branch(i + 1 == leaves.len()) + " "@ + leaves[i] + "\n"@
}

pub open spec fn leaf_block(prefix: Seq<char>, leaves: Seq<Seq<char>>, k: nat) -> Seq<char>
    decreases k,
{
    if k == 0 {
        Seq::empty()
    } else {
        leaf_block(prefix, leaves, (k - 1) as nat) + leaf_line(prefix, leaves, k - 1)
    }
}

/// One line per leaf under `prefix`; the last uses the corner connector.
pub open spec fn leaves_text(prefix: Seq<char>, leaves: Seq<Seq<char>>) -> Seq<char> {
    leaf_block(prefix, leaves, leaves.len())
}

fn push_leaves(out: &mut String, prefix: &str, leaves: &Vec<String>)
    ensures
        final(out)@ == old(out)@ + leaves_text(prefix@, views(leaves@)),
{
    let ghost start = out@;
    let mut i: usize = 0;
    assert(start + leaf_block(prefix@, views(leaves@), 0) =~= start);
    while i < leaves.len()
        invariant
            i <= leaves@.len(),
            out@ == start + leaf_block(prefix@, views(leaves@), i as nat),
        decreases leaves.len() - i,
    {
        push_str(out, prefix);
        if i + 1 == leaves.len() {
            push_str(out, "└─");
        } else {
            push_str(out, "├─");
        }
        push_str(out, " ");
        push_str(out, leaves[i].as_str());
        push_str(out, "\n");
        i = i + 1;
    }
}

/// Non-empty display texts of an array's items.
pub open spec fn nonempty_texts(items: Seq<Json>) -> Seq<Seq<char>>
    decreases items.len(),
{
    if items.len() == 0 {
        Seq::empty()
    } else {
        let r = nonempty_texts(items.drop_last());
        if value_text(items.last()).len() > 0 {
            r.push(value_text(items.last()))
        } else {
            r
        }
    }
}

/// The leaves under a node: the non-empty items of its DNS-like array.
pub open spec fn dns_list(row: Json, field: Option<Seq<char>>) -> Seq<Seq<char>> {
    match field {
        Some(f) => match json_get(row, f) {
            Some(Json::Array { items, .. }) => nonempty_texts(items@),
            _ => Seq::empty(),
        },
        None => Seq::empty(),
    }
}

/// The node's gateway, when it has a non-empty one.
pub open spec fn gateway_of(row: Json, field: Option<Seq<char>>) -> Option<Seq<char>> {
    match field {
        Some(f) => if cell_text(row, f).len() > 0 {
            Some(cell_text(row, f))
        } else {
            None
        },
        None => None,
    }
}

pub open spec fn node_label(row: Json, index: int, field: Option<Seq<char>>) -> Seq<char> {
    match field {
        Some(f) => cell_text(row, f),
        None => "#"@ + decimal((index + 1) as nat),
    }
}

pub open spec fn node_color(status: Option<Seq<char>>) -> Option<TermColor> {
    match status {
        Some(s) => {
            let l = ascii_lower(s);
            if l == "up"@ || l == "active"@ || l == "ok"@ || l == "online"@ {
                Some(TermColor::Green)
            } else if l == "down"@ || l == "disabled"@ || l == "inactive"@ || l == "offline"@ {
                Some(TermColor::DarkGrey)
            } else {
                None
            }
        },
        None => None,
    }
}

/// A node label as shown: as it is without color, else painted by status.
pub open spec fn node_shown(
    display: Seq<char>,
    label: Seq<char>,
    status: Option<Seq<char>>,
    color: bool,
) -> bool {
    match node_color(status) {
        Some(c) if color => painted(display, label, c),
        _ => display == label,
    }
}

fn style_color(status: &Option<String>) -> (r: Option<TermColor>)
    ensures
        r == node_color(match status {
            Some(s) => Some(s@),
            None => None,
        }),
{
    match status {
        Some(s) => {
            let l = to_lower(s.as_str());
            let l = l.as_str();
            if str_eq(l, "up") || str_eq(l, "active") || str_eq(l, "ok") || str_eq(l, "online") {
                Some(TermColor::Green)
            } else if str_eq(l, "down") || str_eq(l, "disabled") || str_eq(l, "inactive")
                || str_eq(l, "offline") {
                Some(TermColor::DarkGrey)
            } else {
                None
            }
        },
        None => None,
    }
}

/// The node label as shown (see `node_shown`).
pub fn style_node(label: &str, status: &Option<String>, color: bool) -> (r: String)
    ensures
        node_shown(
            r@,
            label@,
            match status {
                Some(s) => Some(s@),
                None => None,
            },
            color,
        ),
{
    if !color {
        return owned(label);
    }
    match style_color(status) {
        Some(c) => paint(label, c),
        None => owned(label),
    }
}

/// The fields the map reads, picked from the first record.
pub struct MapFields {
    pub node: Option<Seq<char>>,
    pub gateway: Option<Seq<char>>,
    pub dns: Option<Seq<char>>,
    pub status: Option<Seq<char>>,
}

pub open spec fn map_fields(first: Json) -> MapFields {
    let keys = keys_of(first);
    MapFields {
        node: pick(keys, node_fields()),
        gateway: pick(keys, gateway_fields()),
        dns: pick(keys, dns_fields()),
        status: pick(keys, status_fields()),
    }
}

pub open spec fn status_of(row: Json, fields: MapFields) -> Option<Seq<char>> {
    match fields.status {
        Some(f) => Some(cell_text(row, f)),
        None => None,
    }
}

/// A record's branch: its node line, then its gateway and leaves.
pub open spec fn branch_text(
    row: Json,
    index: int,
    count: int,
    gateway_field: Option<Seq<char>>,
    dns_field: Option<Seq<char>>,
    display: Seq<char>,
) -> Seq<char> {
    let last = index + 1 == count;
    let child = if last {
        "   "@
    } else {
        "│  "@
    };
    let dns = dns_list(row, dns_field);
    let has_dns = dns.len() > 0;
    branch(last) + " "@ + display + "\n"@ + match gateway_of(row, gateway_field) {
        Some(g) => child + branch(!has_dns) + " "@ + g + "\n"@ + leaves_text(
            child + if has_dns {
                "│  "@
            } else {
                "   "@
            },
            dns,
        ),
        None => leaves_text(child, dns),
    }
}

pub open spec fn branches(
    rows: Seq<Json>,
    fields: MapFields,
    displays: Seq<Seq<char>>,
    k: nat,
) -> Seq<char>
    decreases k,
{
    if k == 0 {
        Seq::empty()
    } else {
        branches(rows, fields, displays, (k - 1) as nat) + branch_text(
            rows[k - 1],
            k - 1,
            rows.len() as int,
            fields.gateway,
            fields.dns,
            displays[k - 1],
        )
    }
}

/// The tree, given how each node's label shows.
pub open spec fn map_text(data: Seq<Json>, options: RenderOptions, displays: Seq<Seq<char>>) -> Seq<
    char,
> {
    let rows = sorted_filtered(data, options);
    if rows.len() == 0 || !(rows[0] is Object) {
        Seq::empty()
    } else {
        "PC\n"@ + branches(rows, map_fields(rows[0]), displays, rows.len())
    }
}

/// How node `i` may show.
pub open spec fn shown_node(data: Seq<Json>, options: RenderOptions, i: int, display: Seq<char>) -> bool {
    let rows = sorted_filtered(data, options);
    let fields = map_fields(rows[0]);
    node_shown(
        display,
        node_label(rows[i], i, fields.node),
        status_of(rows[i], fields),
        options.color,
    )
}

/// The tree without colors.
pub open spec fn plain_map(data: Seq<Json>, options: RenderOptions) -> Seq<char> {
    let rows = sorted_filtered(data, options);
    map_text(
        data,
        options,
        Seq::new(rows.len(), |i: int| node_label(rows[i], i, map_fields(rows[0]).node)),
    )
}

fn dns_items(row: &Json, field: &Option<String>) -> (r: Vec<String>)
    ensures
        views(r@) == dns_list(
            *row,
            match field {
                Some(f) => Some(f@),
                None => None,
            },
        ),
{
    let mut r: Vec<String> = Vec::new();
    let f = match field {
        Some(f) => f,
        None => {
            return r;
        },
    };
    let items = match row.get(f.as_str()) {
        Some(Json::Array { items, .. }) => items,
        _ => {
            return r;
        },
    };
    let mut i: usize = 0;
    while i < items.len()
        invariant
            i <= items@.len(),
            views(r@) == nonempty_texts(items@.take(i as int)),
        decreases items.len() - i,
    {
        assert(items@.take(i + 1).drop_last() =~= items@.take(i as int));
        assert(items@.take(i + 1).last() == items@[i as int]);
        let t = value_text_of(&items[i]);
        if t.as_str().unicode_len() > 0 {
            let ghost before = views(r@);
            r.push(t);
            assert(views(r@) =~= before.push(value_text(items@[i as int])));
        }
        i = i + 1;
    }
    assert(items@.take(items@.len() as int) =~= items@);
    r
}

fn push_branch(
    out: &mut String,
    row: &Json,
    index: usize,
    count: usize,
    gateway_field: &Option<String>,
    dns_field: &Option<String>,
    display: &str,
)
    requires
        index < count,
    ensures
        final(out)@ == old(out)@ + branch_text(
            *row,
            index as int,
            count as int,
            opt_seq(*gateway_field),
            opt_seq(*dns_field),
            display@,
        ),
{
    let last = index + 1 == count;
    push_str(out, if last { "└─" } else { "├─" });
    push_str(out, " ");
    push_str(out, display);
    push_str(out, "\n");
    let child: &str = if last { "   " } else { "│  " };
    let gateway: Option<String> = match gateway_field {
        Some(f) => {
            let g = cell_text_of(row, f.as_str());
            if g.as_str().unicode_len() > 0 {
                Some(g)
            } else {
                None
            }
        },
        None => None,
    };
    let dns = dns_items(row, dns_field);
    match &gateway {
        Some(g) => {
            let has_dns = dns.len() > 0;
            push_str(out, child);
            push_str(out, if has_dns { "├─" } else { "└─" });
            push_str(out, " ");
            push_str(out, g.as_str());
            push_str(out, "\n");
            let mut leaf_prefix = owned(child);
            push_str(&mut leaf_prefix, if has_dns { "│  " } else { "   " });
            push_leaves(out, leaf_prefix.as_str(), &dns);
        },
        None => {
            push_leaves(out, child, &dns);
        },
    }
}

pub struct MapRenderer;

impl MapRenderer {
    pub fn render_map(&self, data: &[Json], options: &RenderOptions) -> (r: String)
        ensures
            !leads_with_object(data@, *options) ==> r@ == Seq::<char>::empty(),
            leads_with_object(data@, *options) ==> exists|displays: Seq<Seq<char>>|
                displays.len() == sorted_filtered(data@, *options).len() && (forall|i: int|
                    0 <= i < displays.len() ==> shown_node(data@, *options, i, #[trigger] displays[i]))
                    && r@ == map_text(data@, *options, displays),
            !options.color ==> r@ == plain_map(data@, *options),
    {
        let idx = sorted_filtered_indices(data, options);
        let ghost rows = rows_at(data@, idx@);
        if idx.len() == 0 || !data[idx[0]].is_object() {
            let r = String::new();
            proof {
                if rows.len() > 0 {
                    assert(!(rows[0] is Object));
                }
                if !options.color {
                    assert(r@ =~= plain_map(data@, *options));
                }
            }
            return r;
        }
        let keys = data[idx[0]].keys();
        assert(views(keys@) =~= keys_of(rows[0]));
        let node_field = pick_field(&keys, &vec!["interface", "name", "id"]);
        let gateway_field = pick_field(&keys, &vec!["gateway", "parent", "target"]);
        let dns_field = pick_field(&keys, &vec!["dns", "children", "targets"]);
        let status_field = pick_field(&keys, &vec!["status", "state"]);
        let ghost fields = map_fields(rows[0]);
        proof {
            assert(str_views(seq!["interface", "name", "id"]) =~= node_fields());
            assert(str_views(seq!["gateway", "parent", "target"]) =~= gateway_fields());
            assert(str_views(seq!["dns", "children", "targets"]) =~= dns_fields());
            assert(str_views(seq!["status", "state"]) =~= status_fields());
        }
        assert(opt_seq(node_field) == fields.node);
        assert(opt_seq(gateway_field) == fields.gateway);
        assert(opt_seq(dns_field) == fields.dns);
        assert(opt_seq(status_field) == fields.status);
        let mut out = owned("PC\n");
        let ghost mut displays = Seq::<Seq<char>>::empty();
        let n = idx.len();
        let mut i: usize = 0;
        while i < n
            invariant
                n == idx@.len(),
                indices_in(idx@, data@.len()),
                rows == rows_at(data@, idx@),
                rows == sorted_filtered(data@, *options),
                rows.len() > 0,
                fields == map_fields(rows[0]),
                opt_seq(node_field) == fields.node,
                opt_seq(gateway_field) == fields.gateway,
                opt_seq(dns_field) == fields.dns,
                opt_seq(status_field) == fields.status,
                i <= n,
                displays.len() == i,
                forall|q: int| 0 <= q < i ==> shown_node(data@, *options, q, #[trigger] displays[q]),
                !options.color ==> forall|q: int|
                    0 <= q < i ==> #[trigger] displays[q] == node_label(rows[q], q, fields.node),
                out@ == "PC\n"@ + branches(rows, fields, displays, i as nat),
            decreases n - i,
        {
            let row = &data[idx[i]];
            assert(rows[i as int] == *row);
            let label = match &node_field {
                Some(f) => cell_text_of(row, f.as_str()),
                None => {
                    let mut l = owned("#");
                    push_str(&mut l, usize_text(i + 1).as_str());
                    l
                },
            };
            let status: Option<String> = match &status_field {
                Some(f) => Some(cell_text_of(row, f.as_str())),
                None => None,
            };
            let display = style_node(label.as_str(), &status, options.color);
            push_branch(&mut out, row, i, n, &gateway_field, &dns_field, display.as_str());
            proof {
                let old_d = displays;
                displays = displays.push(display@);
                assert(displays.drop_last() =~= old_d);
                assert(displays[i as int] == display@);
                assert(branches(rows, fields, old_d, i as nat) == branches(rows, fields, displays, i as nat)) by {
                    lemma_branches_prefix(rows, fields, old_d, displays, i as nat);
                }
                assert(out@ =~= "PC\n"@ + branches(rows, fields, displays, (i + 1) as nat));
                assert forall|q: int| 0 <= q < i + 1 implies shown_node(
                    data@,
                    *options,
                    q,
                    #[trigger] displays[q],
                ) by {
                    if q < i {
                        assert(displays[q] == old_d[q]);
                    }
                }
                if !options.color {
                    assert forall|q: int| 0 <= q < i + 1 implies #[trigger] displays[q]
                        == node_label(rows[q], q, fields.node) by {
                        if q < i {
                            assert(displays[q] == old_d[q]);
                        }
                    }
                }
            }
            i = i + 1;
        }
        proof {
            assert(rows.len() == n);
            assert(out@ == map_text(data@, *options, displays));
            assert(displays.len() == rows.len());
            if !options.color {
                assert(displays =~= Seq::new(rows.len(), |q: int| node_label(rows[q], q, fields.node)));
            }
        }
        out
    }
}

proof fn lemma_branches_prefix(
    rows: Seq<Json>,
    fields: MapFields,
    a: Seq<Seq<char>>,
    b: Seq<Seq<char>>,
    k: nat,
)
    requires
        k <= a.len(),
        k <= b.len(),
        forall|q: int| 0 <= q < k ==> a[q] == b[q],
    ensures
        branches(rows, fields, a, k) == branches(rows, fields, b, k),
    decreases k,
{
    if k > 0 {
        lemma_branches_prefix(rows, fields, a, b, (k - 1) as nat);
    }
}

impl Renderer for MapRenderer {
    fn render(&self, data: &[Json], options: &RenderOptions) -> (r: String)
        ensures
            !leads_with_object(data@, *options) ==> r@ == Seq::<char>::empty(),
            leads_with_object(data@, *options) ==> exists|displays: Seq<Seq<char>>|
                displays.len() == sorted_filtered(data@, *options).len() && (forall|i: int|
                    0 <= i < displays.len() ==> shown_node(data@, *options, i, #[trigger] displays[i]))
                    && r@ == map_text(data@, *options, displays),
            !options.color ==> r@ == plain_map(data@, *options),
    {
        self.render_map(data, options)
    }
}

} // verus!
