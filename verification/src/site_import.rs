//! Import of site exports: the components and connections of a microgrid, as
//! its API lists them, become one Lisp form that builds their simulated twins.

use crate::double::Double;
use crate::lisp_text::{esc, lisp_float};
use crate::text::{parse_unsigned, push_decimal, push_text, same_text, strip_prefix};
use vstd::prelude::*;
use vstd::string::*;

verus! {

/// An id in an export: a number, or a text that holds one.
#[derive(Debug)]
pub enum ApiId {
    Number(u64),
    Text(String),
}

/// A number in an export, with its shortest decimal notation.
#[derive(Debug)]
pub struct Figure {
    pub value: Double,
    pub shown: String,
}

#[derive(Debug)]
pub struct ConfigBounds {
    pub lower: Option<Figure>,
    pub upper: Option<Figure>,
}

/// The configured bounds of one metric, such as the rated power, the capacity
/// or the range of charge.
#[derive(Debug)]
pub struct MetricConfigBounds {
    pub metric: Option<String>,
    pub config_bounds: Option<ConfigBounds>,
}

#[derive(Debug)]
pub struct ApiComponent {
    pub id: ApiId,
    pub name: Option<String>,
    pub category: String,
    pub category_specific_info: Option<CategoryInfo>,
    pub metric_config_bounds: Vec<MetricConfigBounds>,
}

#[derive(Debug)]
pub struct CategoryInfo {
    pub inverter: Option<TypedInfo>,
    pub grid_connection_point: Option<GridInfo>,
}

#[derive(Debug)]
pub struct TypedInfo {
    pub kind: Option<String>,
}

#[derive(Debug)]
pub struct GridInfo {
    pub rated_fuse_current: Option<u32>,
}

#[derive(Debug)]
pub struct ComponentsFile {
    pub electrical_components: Vec<ApiComponent>,
}

#[derive(Debug)]
pub struct ApiConnection {
    pub source_electrical_component_id: ApiId,
    pub destination_electrical_component_id: ApiId,
}

#[derive(Debug)]
pub struct ConnectionsFile {
    pub electrical_component_connections: Vec<ApiConnection>,
}

/// A component of an export as the function that makes its simulated twin,
/// with the arguments that the export gives it in Lisp syntax.
#[derive(Debug)]
pub struct ImportedComponent {
    pub id: u64,
    pub make_fn: &'static str,
    pub kwargs: Vec<(&'static str, String)>,
}

pub struct ImportedView {
    pub id: u64,
    pub make_fn: Seq<char>,
    pub kwargs: Seq<(Seq<char>, Seq<char>)>,
}

impl View for ImportedComponent {
    type V = ImportedView;

    open spec fn view(&self) -> ImportedView {
        ImportedView { id: self.id, make_fn: self.make_fn@, kwargs: arguments(self.kwargs@) }
    }
}

/// Arguments as texts.
pub open spec fn arguments(kw: Seq<(&'static str, String)>) -> Seq<(Seq<char>, Seq<char>)> {
    kw.map_values(|x: (&'static str, String)| (x.0@, x.1@))
}

/// The components as their views.
pub open spec fn imported_views(c: Seq<ImportedComponent>) -> Seq<ImportedView> {
    c.map_values(|x: ImportedComponent| x@)
}

/// A parsed export.
#[derive(Debug)]
pub struct SiteImport {
    pub components: Vec<ImportedComponent>,
    pub connections: Vec<(u64, u64)>,
}

impl ApiId {
    /// The number of an id, or what is wrong with it.
    pub open spec fn parsed(self) -> Result<u64, Seq<char>> {
        match self {
            ApiId::Number(n) => Ok(n),
            ApiId::Text(t) => if crate::text::is_unsigned(t@) {
                Ok(crate::text::digits_value(crate::text::unsigned_digits(t@)) as u64)
            } else {
                Err("bad component id: "@ + t@)
            },
        }
    }

    pub fn parse(&self) -> (r: Result<u64, String>)
        ensures
            match self.parsed() {
                Ok(n) => r == Ok::<u64, String>(n),
                Err(e) => r matches Err(s) && s@ == e,
            },
    {
        match self {
            ApiId::Number(n) => Ok(*n),
            ApiId::Text(t) => match parse_unsigned(t.as_str()) {
                Some(n) => Ok(n),
                None => {
                    let mut out = String::new();
                    push_text(&mut out, "bad component id: ");
                    push_text(&mut out, t.as_str());
                    assert(Seq::<char>::empty() + "bad component id: "@ =~= "bad component id: "@);
                    Err(out)
                },
            },
        }
    }
}

/// The token without the first of the prefixes that it begins with.
pub open spec fn stripped(token: Seq<char>, prefixes: Seq<&'static str>) -> Seq<char>
    decreases prefixes.len(),
{
    if prefixes.len() == 0 {
        token
    } else if crate::text::has_prefix(token, prefixes[0]@) {
        token.skip(prefixes[0]@.len() as int)
    } else {
        stripped(token, prefixes.skip(1))
    }
}

pub fn strip_prefixes<'a>(token: &'a str, prefixes: &[&'static str]) -> (r: &'a str)
    ensures
        r@ == stripped(token@, prefixes@),
{
    let mut i: usize = 0;
    assert(prefixes@.skip(0) =~= prefixes@);
    while i < prefixes.len()
        invariant
            i <= prefixes@.len(),
            stripped(token@, prefixes@.skip(i as int)) == stripped(token@, prefixes@),
        decreases prefixes@.len() - i,
    {
        proof {
            assert(prefixes@.skip(i as int)[0] == prefixes@[i as int]);
            assert(prefixes@.skip(i as int).skip(1) =~= prefixes@.skip(i + 1));
        }
        if let Some(rest) = strip_prefix(token, prefixes[i]) {
            return rest;
        }
        i += 1;
    }
    token
}

/// The prefixes of category tokens, the present one and the older one.
pub open spec fn category_prefixes() -> Seq<&'static str> {
    seq!["ELECTRICAL_COMPONENT_CATEGORY_", "COMPONENT_CATEGORY_"]
}

impl ApiComponent {
    /// The category's token without its prefix.
    pub open spec fn suffix(self) -> Seq<char> {
        stripped(self.category@, category_prefixes())
    }

    /// The inverter's token without its prefix.
    pub open spec fn inverter_suffix(self) -> Seq<char> {
        match self.category_specific_info {
            Some(CategoryInfo {
                inverter: Some(TypedInfo { kind: Some(t) }),
                grid_connection_point,
            }) => stripped(t@, seq!["INVERTER_TYPE_"]),
            _ => "UNSPECIFIED"@,
        }
    }

    /// The rated current of the grid connection's fuse.
    pub open spec fn fuse(self) -> Option<u32> {
        match self.category_specific_info {
            Some(CategoryInfo {
                inverter,
                grid_connection_point: Some(GridInfo { rated_fuse_current }),
            }) => rated_fuse_current,
            _ => None,
        }
    }
}

/// The bounds are those of a metric.
pub open spec fn is_of(b: MetricConfigBounds, suffix: Seq<char>) -> bool {
    &&& b.metric matches Some(token) && stripped(token@, seq!["METRIC_"]) == suffix
    &&& b.config_bounds is Some
}

/// The first bounds of a metric.
pub open spec fn first_bounds(bounds: Seq<MetricConfigBounds>, suffix: Seq<char>) -> Option<
    ConfigBounds,
>
    decreases bounds.len(),
{
    if bounds.len() == 0 {
        None
    } else if is_of(bounds[0], suffix) {
        bounds[0].config_bounds
    } else {
        first_bounds(bounds.skip(1), suffix)
    }
}

/// The bounds of a metric, by its token's suffix.
pub fn bounds_for<'a>(c: &'a ApiComponent, suffix: &str) -> (r: Option<&'a ConfigBounds>)
    ensures
        match first_bounds(c.metric_config_bounds@, suffix@) {
            Some(b) => r matches Some(found) && *found == b,
            None => r is None,
        },
{
    let ghost all = c.metric_config_bounds@;
    let mut i: usize = 0;
    assert(all.skip(0) =~= all);
    while i < c.metric_config_bounds.len()
        invariant
            i <= all.len(),
            all == c.metric_config_bounds@,
            first_bounds(all.skip(i as int), suffix@) == first_bounds(all, suffix@),
        decreases all.len() - i,
    {
        proof {
            assert(all.skip(i as int)[0] == all[i as int]);
            assert(all.skip(i as int).skip(1) =~= all.skip(i + 1));
        }
        let b = &c.metric_config_bounds[i];
        if let Some(token) = &b.metric {
            let prefixes: Vec<&'static str> = vec!["METRIC_"];
            assert(prefixes@ =~= seq!["METRIC_"]);
            if same_text(strip_prefixes(token.as_str(), prefixes.as_slice()), suffix) {
                if let Some(found) = &b.config_bounds {
                    return Some(found);
                }
            }
        }
        i += 1;
    }
    None
}

/// An argument for a number that the export gives.
pub open spec fn figure_argument(key: Seq<char>, f: Option<Figure>) -> Seq<
    (Seq<char>, Seq<char>),
> {
    match f {
        Some(f) => seq![(key, crate::lisp_text::number_text(f.value, f.shown@))],
        None => Seq::empty(),
    }
}

/// The pair of the rated power's arguments, where the export gives both edges.
pub open spec fn rated_arguments(c: ApiComponent) -> Seq<(Seq<char>, Seq<char>)> {
    match first_bounds(c.metric_config_bounds@, "AC_POWER_ACTIVE"@) {
        Some(b) => if b.lower is Some && b.upper is Some {
            figure_argument(":rated-lower"@, b.lower) + figure_argument(":rated-upper"@, b.upper)
        } else {
            Seq::empty()
        },
        None => Seq::empty(),
    }
}

/// The arguments of what stores energy: its capacity, of which the upper bound
/// counts first, and its range of charge.
pub open spec fn storage_arguments(c: ApiComponent) -> Seq<(Seq<char>, Seq<char>)> {
    let capacity = match first_bounds(c.metric_config_bounds@, "BATTERY_CAPACITY"@) {
        Some(b) => if b.upper is Some {
            b.upper
        } else {
            b.lower
        },
        None => None,
    };
    let soc = match first_bounds(c.metric_config_bounds@, "BATTERY_SOC_PCT"@) {
        Some(b) => figure_argument(":soc-lower"@, b.lower) + figure_argument(
            ":soc-upper"@,
            b.upper,
        ),
        None => Seq::empty(),
    };
    figure_argument(":capacity"@, capacity) + soc
}

fn push_argument(out: &mut Vec<(&'static str, String)>, key: &'static str, value: String)
    ensures
        arguments(final(out)@) == arguments(old(out)@).push((key@, value@)),
{
    let ghost pair = (key@, value@);
    out.push((key, value));
    assert(arguments(out@) =~= arguments(old(out)@).push(pair));
}

fn push_figure(out: &mut Vec<(&'static str, String)>, key: &'static str, f: &Option<Figure>)
    ensures
        arguments(final(out)@) == arguments(old(out)@) + figure_argument(key@, *f),
{
    let ghost before = arguments(out@);
    if let Some(f) = f {
        push_argument(out, key, lisp_float(f.value, f.shown.as_str()));
    }
    assert(arguments(out@) =~= before + figure_argument(key@, *f));
}

pub fn rated_kwargs(c: &ApiComponent, out: &mut Vec<(&'static str, String)>)
    ensures
        arguments(final(out)@) == arguments(old(out)@) + rated_arguments(*c),
{
    let ghost before = arguments(out@);
    if let Some(b) = bounds_for(c, "AC_POWER_ACTIVE") {
        if b.lower.is_some() && b.upper.is_some() {
            push_figure(out, ":rated-lower", &b.lower);
            push_figure(out, ":rated-upper", &b.upper);
        }
    }
    assert(arguments(out@) =~= before + rated_arguments(*c));
}

pub fn storage_kwargs(c: &ApiComponent, out: &mut Vec<(&'static str, String)>)
    ensures
        arguments(final(out)@) == arguments(old(out)@) + storage_arguments(*c),
{
    let ghost before = arguments(out@);
    if let Some(b) = bounds_for(c, "BATTERY_CAPACITY") {
        if b.upper.is_some() {
            push_figure(out, ":capacity", &b.upper);
        } else {
            push_figure(out, ":capacity", &b.lower);
        }
    }
    if let Some(b) = bounds_for(c, "BATTERY_SOC_PCT") {
        push_figure(out, ":soc-lower", &b.lower);
        push_figure(out, ":soc-upper", &b.upper);
    }
    assert(arguments(out@) =~= before + storage_arguments(*c));
}

/// The name's argument; an empty name has none.
pub open spec fn name_argument(c: ApiComponent) -> Seq<(Seq<char>, Seq<char>)> {
    match c.name {
        Some(name) => if name@.len() > 0 {
            seq![(":name"@, "\""@ + crate::lisp_text::escaped(name@) + "\""@)]
        } else {
            Seq::empty()
        },
        None => Seq::empty(),
    }
}

pub open spec fn fuse_argument(c: ApiComponent) -> Seq<(Seq<char>, Seq<char>)> {
    match c.fuse() {
        Some(fuse) => seq![(":rated-fuse-current"@, crate::text::decimal(fuse as nat))],
        None => Seq::empty(),
    }
}

/// The function that makes a component, with the arguments beside its name;
/// or what cannot be simulated.
pub open spec fn made_by(id: u64, c: ApiComponent) -> Result<
    (Seq<char>, Seq<(Seq<char>, Seq<char>)>),
    Seq<char>,
> {
    let suffix = c.suffix();
    if suffix == "GRID_CONNECTION_POINT"@ || suffix == "GRID"@ {
        Ok(("make-grid-connection-point"@, fuse_argument(c) + rated_arguments(c)))
    } else if suffix == "METER"@ {
        Ok(("make-meter"@, Seq::empty()))
    } else if suffix == "INVERTER"@ {
        let kind = c.inverter_suffix();
        if kind == "BATTERY"@ {
            Ok(("make-battery-inverter"@, rated_arguments(c)))
        } else if kind == "PV"@ || kind == "SOLAR"@ {
            Ok(("make-solar-inverter"@, rated_arguments(c)))
        } else {
            Err(
                "component "@ + crate::text::decimal(id as nat)
                    + ": cannot simulate an inverter of type "@ + kind
                    + " (only battery and PV inverters exist here)"@,
            )
        }
    } else if suffix == "BATTERY"@ {
        Ok(("make-battery"@, storage_arguments(c) + rated_arguments(c)))
    } else if suffix == "EV_CHARGER"@ {
        Ok(("make-ev-charger"@, storage_arguments(c) + rated_arguments(c)))
    } else if suffix == "CHP"@ {
        Ok(("make-chp"@, Seq::empty()))
    } else {
        Err(
            "component "@ + crate::text::decimal(id as nat) + ": cannot simulate category "@
                + suffix,
        )
    }
}

/// A component of an export as it is imported, or why it cannot be.
pub open spec fn lifted(c: ApiComponent) -> Result<ImportedView, Seq<char>> {
    match c.id.parsed() {
        Err(e) => Err(e),
        Ok(id) => match made_by(id, c) {
            Err(e) => Err(e),
            Ok(made) => Ok(
                ImportedView { id, make_fn: made.0, kwargs: name_argument(c) + made.1 },
            ),
        },
    }
}

fn quoted(s: &str) -> (r: String)
    ensures
        r@ == "\""@ + crate::lisp_text::escaped(s@) + "\""@,
{
    let mut out = String::new();
    push_text(&mut out, "\"");
    let inside = esc(s);
    push_text(&mut out, inside.as_str());
    push_text(&mut out, "\"");
    assert(Seq::<char>::empty() + "\""@ =~= "\""@);
    out
}

/// What is wrong with a component, by its id.
fn complaint(id: u64, middle: &str, word: &str, end: &str) -> (r: String)
    ensures
        r@ == "component "@ + crate::text::decimal(id as nat) + middle@ + word@ + end@,
{
    let mut out = String::new();
    push_text(&mut out, "component ");
    push_decimal(&mut out, id as u128);
    push_text(&mut out, middle);
    push_text(&mut out, word);
    push_text(&mut out, end);
    assert(Seq::<char>::empty() + "component "@ =~= "component "@);
    out
}

/// Lifts a component out of an export. A category that cannot be simulated is
/// an error: a site without it would look complete and have a hole.
pub fn lift(c: &ApiComponent) -> (r: Result<ImportedComponent, String>)
    ensures
        match lifted(*c) {
            Ok(v) => r matches Ok(x) && x@ == v,
            Err(e) => r matches Err(s) && s@ == e,
        },
        r is Ok <==> c.id.parsed() is Ok && crate::import_laws::is_simulated(
            c.suffix(),
            c.inverter_suffix(),
        ),
        r matches Ok(x) ==> crate::import_laws::makes_its_category(*c, x.make_fn@),
{
    proof {
        crate::import_laws::law_simulated_categories_are_imported(*c);
        if lifted(*c) is Ok {
            crate::import_laws::law_maker_is_of_the_category(*c);
        }
    }
    let id: u64 = match c.id.parse() {
        Ok(id) => id,
        Err(e) => {
            return Err(e);
        },
    };
    let prefixes: Vec<&'static str> = vec!["ELECTRICAL_COMPONENT_CATEGORY_", "COMPONENT_CATEGORY_"];
    assert(prefixes@ =~= category_prefixes());
    let suffix = strip_prefixes(c.category.as_str(), prefixes.as_slice());
    let mut kwargs: Vec<(&'static str, String)> = Vec::new();
    assert(arguments(kwargs@) =~= Seq::empty());
    if let Some(name) = &c.name {
        if name.as_str().unicode_len() > 0 {
            push_argument(&mut kwargs, ":name", quoted(name.as_str()));
        }
    }
    assert(arguments(kwargs@) =~= name_argument(*c));
    let make_fn: &'static str = if same_text(suffix, "GRID_CONNECTION_POINT") || same_text(
        suffix,
        "GRID",
    ) {
        let rated = match &c.category_specific_info {
            Some(info) => match &info.grid_connection_point {
                Some(grid) => grid.rated_fuse_current,
                None => None,
            },
            None => None,
        };
        assert(rated == c.fuse());
        if let Some(fuse) = rated {
            let mut text = String::new();
            push_decimal(&mut text, fuse as u128);
            assert(text@ =~= crate::text::decimal(fuse as nat));
            push_argument(&mut kwargs, ":rated-fuse-current", text);
        }
        assert(arguments(kwargs@) =~= name_argument(*c) + fuse_argument(*c));
        rated_kwargs(c, &mut kwargs);
        assert(arguments(kwargs@) =~= name_argument(*c) + (fuse_argument(*c) + rated_arguments(
            *c,
        )));
        "make-grid-connection-point"
    } else if same_text(suffix, "METER") {
        "make-meter"
    } else if same_text(suffix, "INVERTER") {
        let tokens: Vec<&'static str> = vec!["INVERTER_TYPE_"];
        assert(tokens@ =~= seq!["INVERTER_TYPE_"]);
        let kind = match &c.category_specific_info {
            Some(info) => match &info.inverter {
                Some(inverter) => match &inverter.kind {
                    Some(t) => strip_prefixes(t.as_str(), tokens.as_slice()),
                    None => "UNSPECIFIED",
                },
                None => "UNSPECIFIED",
            },
            None => "UNSPECIFIED",
        };
        assert(kind@ == c.inverter_suffix());
        rated_kwargs(c, &mut kwargs);
        if same_text(kind, "BATTERY") {
            "make-battery-inverter"
        } else if same_text(kind, "PV") || same_text(kind, "SOLAR") {
            "make-solar-inverter"
        } else {
            return Err(
                complaint(
                    id,
                    ": cannot simulate an inverter of type ",
                    kind,
                    " (only battery and PV inverters exist here)",
                ),
            );
        }
    } else if same_text(suffix, "BATTERY") {
        storage_kwargs(c, &mut kwargs);
        rated_kwargs(c, &mut kwargs);
        assert(arguments(kwargs@) =~= name_argument(*c) + (storage_arguments(*c)
            + rated_arguments(*c)));
        "make-battery"
    } else if same_text(suffix, "EV_CHARGER") {
        storage_kwargs(c, &mut kwargs);
        rated_kwargs(c, &mut kwargs);
        assert(arguments(kwargs@) =~= name_argument(*c) + (storage_arguments(*c)
            + rated_arguments(*c)));
        "make-ev-charger"
    } else if same_text(suffix, "CHP") {
        "make-chp"
    } else {
        let e = complaint(id, ": cannot simulate category ", suffix, "");
        proof {
            reveal_strlit("");
            assert(e@ =~= "component "@ + crate::text::decimal(id as nat)
                + ": cannot simulate category "@ + suffix@);
        }
        return Err(e);
    };
    assert(name_argument(*c) + Seq::empty() =~= name_argument(*c));
    Ok(ImportedComponent { id, make_fn, kwargs })
}

/// Some component has the id.
pub open spec fn carried(components: Seq<ImportedView>, id: u64) -> bool {
    exists|i: int| 0 <= i < components.len() && (#[trigger] components[i]).id == id
}

/// The components of an export, or what is wrong with the first that cannot be
/// imported.
pub open spec fn parsed_components(file: Seq<ApiComponent>) -> Result<Seq<ImportedView>, Seq<char>>
    decreases file.len(),
{
    if file.len() == 0 {
        Ok(Seq::empty())
    } else {
        match parsed_components(file.drop_last()) {
            Err(e) => Err(e),
            Ok(before) => match lifted(file.last()) {
                Err(e) => Err(e),
                Ok(c) => if carried(before, c.id) {
                    Err("component id "@ + crate::text::decimal(c.id as nat) + " appears twice"@)
                } else {
                    Ok(before.push(c))
                },
            },
        }
    }
}

/// The connections of an export, each once, or what is wrong with the first
/// that cannot be imported.
pub open spec fn parsed_edges(
    components: Seq<ImportedView>,
    rows: Seq<ApiConnection>,
) -> Result<Seq<(u64, u64)>, Seq<char>>
    decreases rows.len(),
{
    if rows.len() == 0 {
        Ok(Seq::empty())
    } else {
        match parsed_edges(components, rows.drop_last()) {
            Err(e) => Err(e),
            Ok(before) => match rows.last().source_electrical_component_id.parsed() {
                Err(e) => Err(e),
                Ok(from) => match rows.last().destination_electrical_component_id.parsed() {
                    Err(e) => Err(e),
                    Ok(to) => if !carried(components, from) || !carried(components, to) {
                        Err(
                            "connection "@ + crate::text::decimal(from as nat) + " → "@
                                + crate::text::decimal(to as nat)
                                + " references a component the export does not carry"@,
                        )
                    } else if before.contains((from, to)) {
                        Ok(before)
                    } else {
                        Ok(before.push((from, to)))
                    },
                },
            },
        }
    }
}

/// The rows of connections; none without a file.
pub open spec fn rows(connections: Option<ConnectionsFile>) -> Seq<ApiConnection> {
    match connections {
        Some(f) => f.electrical_component_connections@,
        None => Seq::empty(),
    }
}

/// An export as components and connections, or what is wrong with it.
pub open spec fn parsed(
    components: ComponentsFile,
    connections: Option<ConnectionsFile>,
) -> Result<(Seq<ImportedView>, Seq<(u64, u64)>), Seq<char>> {
    if components.electrical_components@.len() == 0 {
        Err("the export has no components"@)
    } else {
        match parsed_components(components.electrical_components@) {
            Err(e) => Err(e),
            Ok(c) => match parsed_edges(c, rows(connections)) {
                Err(e) => Err(e),
                Ok(edges) => Ok((c, edges)),
            },
        }
    }
}

/// An error in the first rows is the error of all.
proof fn lemma_component_error_stays(file: Seq<ApiComponent>, n: int)
    requires
        0 <= n <= file.len(),
        parsed_components(file.take(n)) is Err,
    ensures
        parsed_components(file) == parsed_components(file.take(n)),
    decreases file.len() - n,
{
    if n < file.len() {
        assert(file.take(n + 1).drop_last() =~= file.take(n));
        lemma_component_error_stays(file, n + 1);
    } else {
        assert(file.take(n) =~= file);
    }
}

proof fn lemma_edge_error_stays(components: Seq<ImportedView>, rows: Seq<ApiConnection>, n: int)
    requires
        0 <= n <= rows.len(),
        parsed_edges(components, rows.take(n)) is Err,
    ensures
        parsed_edges(components, rows) == parsed_edges(components, rows.take(n)),
    decreases rows.len() - n,
{
    if n < rows.len() {
        assert(rows.take(n + 1).drop_last() =~= rows.take(n));
        lemma_edge_error_stays(components, rows, n + 1);
    } else {
        assert(rows.take(n) =~= rows);
    }
}

fn carries(components: &Vec<ImportedComponent>, id: u64) -> (r: bool)
    ensures
        r == carried(imported_views(components@), id),
{
    let mut i: usize = 0;
    while i < components.len()
        invariant
            i <= components@.len(),
            forall|k: int| 0 <= k < i ==> (#[trigger] components@[k]).id != id,
        decreases components@.len() - i,
    {
        if components[i].id == id {
            assert(imported_views(components@)[i as int].id == id);
            return true;
        }
        i += 1;
    }
    proof {
        let views = imported_views(components@);
        assert forall|k: int| 0 <= k < views.len() implies (#[trigger] views[k]).id != id by {
            assert(views[k].id == components@[k].id);
        }
    }
    false
}

fn parse_components(file: &Vec<ApiComponent>) -> (r: Result<Vec<ImportedComponent>, String>)
    ensures
        match parsed_components(file@) {
            Ok(v) => r matches Ok(c) && imported_views(c@) == v,
            Err(e) => r matches Err(s) && s@ == e,
        },
{
    let mut out: Vec<ImportedComponent> = Vec::new();
    let mut i: usize = 0;
    assert(file@.take(0) =~= Seq::empty());
    assert(imported_views(out@) =~= Seq::empty());
    while i < file.len()
        invariant
            i <= file@.len(),
            parsed_components(file@.take(i as int)) == Ok::<Seq<ImportedView>, Seq<char>>(
                imported_views(out@),
            ),
        decreases file@.len() - i,
    {
        proof {
            assert(file@.take(i + 1).drop_last() =~= file@.take(i as int));
            assert(file@.take(i + 1).last() == file@[i as int]);
        }
        let ghost before = imported_views(out@);
        let c = match lift(&file[i]) {
            Ok(c) => c,
            Err(e) => {
                proof {
                    lemma_component_error_stays(file@, i + 1);
                }
                return Err(e);
            },
        };
        if carries(&out, c.id) {
            let mut e = String::new();
            push_text(&mut e, "component id ");
            push_decimal(&mut e, c.id as u128);
            push_text(&mut e, " appears twice");
            proof {
                assert(Seq::<char>::empty() + "component id "@ =~= "component id "@);
                lemma_component_error_stays(file@, i + 1);
            }
            return Err(e);
        }
        let ghost view = c@;
        out.push(c);
        assert(imported_views(out@) =~= before.push(view));
        i += 1;
    }
    assert(file@.take(file@.len() as int) =~= file@);
    Ok(out)
}

fn has_edge(edges: &Vec<(u64, u64)>, from: u64, to: u64) -> (r: bool)
    ensures
        r == edges@.contains((from, to)),
{
    let mut i: usize = 0;
    while i < edges.len()
        invariant
            i <= edges@.len(),
            forall|k: int| 0 <= k < i ==> #[trigger] edges@[k] != (from, to),
        decreases edges@.len() - i,
    {
        if edges[i].0 == from && edges[i].1 == to {
            assert(edges@[i as int] == (from, to));
            return true;
        }
        i += 1;
    }
    false
}

fn parse_edges(components: &Vec<ImportedComponent>, list: &Vec<ApiConnection>) -> (r: Result<
    Vec<(u64, u64)>,
    String,
>)
    ensures
        match parsed_edges(imported_views(components@), list@) {
            Ok(v) => r matches Ok(edges) && edges@ == v,
            Err(e) => r matches Err(s) && s@ == e,
        },
{
    let ghost views = imported_views(components@);
    let mut out: Vec<(u64, u64)> = Vec::new();
    let mut i: usize = 0;
    assert(list@.take(0) =~= Seq::empty());
    while i < list.len()
        invariant
            i <= list@.len(),
            views == imported_views(components@),
            parsed_edges(views, list@.take(i as int)) == Ok::<Seq<(u64, u64)>, Seq<char>>(out@),
        decreases list@.len() - i,
    {
        proof {
            assert(list@.take(i + 1).drop_last() =~= list@.take(i as int));
            assert(list@.take(i + 1).last() == list@[i as int]);
            if parsed_edges(views, list@.take(i + 1)) is Err {
                lemma_edge_error_stays(views, list@, i + 1);
            }
        }
        let from: u64 = match list[i].source_electrical_component_id.parse() {
            Ok(id) => id,
            Err(e) => {
                return Err(e);
            },
        };
        let to: u64 = match list[i].destination_electrical_component_id.parse() {
            Ok(id) => id,
            Err(e) => {
                return Err(e);
            },
        };
        if !carries(components, from) || !carries(components, to) {
            let mut e = String::new();
            push_text(&mut e, "connection ");
            push_decimal(&mut e, from as u128);
            push_text(&mut e, " → ");
            push_decimal(&mut e, to as u128);
            push_text(&mut e, " references a component the export does not carry");
            assert(Seq::<char>::empty() + "connection "@ =~= "connection "@);
            return Err(e);
        }
        if !has_edge(&out, from, to) {
            out.push((from, to));
        }
        i += 1;
    }
    assert(list@.take(list@.len() as int) =~= list@);
    Ok(out)
}

/// Parses an export. An error names the component or the connection that it
/// is about; a repeated connection is kept once.
pub fn parse(components: ComponentsFile, connections: Option<ConnectionsFile>) -> (r: Result<
    SiteImport,
    String,
>)
    ensures
        match parsed(components, connections) {
            Ok(v) => r matches Ok(site) && imported_views(site.components@) == v.0
                && site.connections@ == v.1,
            Err(e) => r matches Err(s) && s@ == e,
        },
{
    if components.electrical_components.len() == 0 {
        return Err(String::from_str("the export has no components"));
    }
    let lifted = match parse_components(&components.electrical_components) {
        Ok(c) => c,
        Err(e) => {
            return Err(e);
        },
    };
    let list: Vec<ApiConnection> = match connections {
        Some(f) => f.electrical_component_connections,
        None => Vec::new(),
    };
    assert(list@ =~= rows(connections));
    match parse_edges(&lifted, &list) {
        Ok(edges) => Ok(SiteImport { components: lifted, connections: edges }),
        Err(e) => Err(e),
    }
}

/// The arguments of a form, each with a space before its key and its value.
pub open spec fn argument_text(kwargs: Seq<(Seq<char>, Seq<char>)>) -> Seq<char>
    decreases kwargs.len(),
{
    if kwargs.len() == 0 {
        Seq::empty()
    } else {
        argument_text(kwargs.drop_last()) + " "@ + kwargs.last().0 + " "@ + kwargs.last().1
    }
}

/// The form that makes a component, on a line of its own.
pub open spec fn make_text(c: ImportedView) -> Seq<char> {
    "  ("@ + c.make_fn + " :id "@ + crate::text::decimal(c.id as nat) + argument_text(c.kwargs)
        + ")\n"@
}

/// The forms that make the components.
pub open spec fn makes_text(components: Seq<ImportedView>) -> Seq<char>
    decreases components.len(),
{
    if components.len() == 0 {
        Seq::empty()
    } else {
        makes_text(components.drop_last()) + make_text(components.last())
    }
}

/// The form that connects two components, on a line of its own.
pub open spec fn connect_text(edge: (u64, u64)) -> Seq<char> {
    "  (connect "@ + crate::text::decimal(edge.0 as nat) + " "@ + crate::text::decimal(
        edge.1 as nat,
    ) + ")\n"@
}

/// The forms that connect the components.
pub open spec fn connects_text(edges: Seq<(u64, u64)>) -> Seq<char>
    decreases edges.len(),
{
    if edges.len() == 0 {
        Seq::empty()
    } else {
        connects_text(edges.drop_last()) + connect_text(edges.last())
    }
}

fn push_arguments(out: &mut String, kwargs: &Vec<(&'static str, String)>)
    ensures
        final(out)@ == old(out)@ + argument_text(arguments(kwargs@)),
{
    let ghost all = arguments(kwargs@);
    let ghost before = out@;
    let mut i: usize = 0;
    assert(all.take(0) =~= Seq::empty());
    assert(out@ =~= before + argument_text(all.take(0)));
    while i < kwargs.len()
        invariant
            i <= kwargs@.len(),
            all == arguments(kwargs@),
            out@ == before + argument_text(all.take(i as int)),
        decreases kwargs@.len() - i,
    {
        proof {
            assert(all.take(i + 1).drop_last() =~= all.take(i as int));
            assert(all.take(i + 1).last() == (kwargs@[i as int].0@, kwargs@[i as int].1@));
        }
        push_text(out, " ");
        push_text(out, kwargs[i].0);
        push_text(out, " ");
        push_text(out, kwargs[i].1.as_str());
        assert(out@ =~= before + argument_text(all.take(i + 1)));
        i += 1;
    }
    assert(all.take(all.len() as int) =~= all);
}

fn push_make(out: &mut String, c: &ImportedComponent)
    ensures
        final(out)@ == old(out)@ + make_text(c@),
{
    let ghost before = out@;
    push_text(out, "  (");
    push_text(out, c.make_fn);
    push_text(out, " :id ");
    push_decimal(out, c.id as u128);
    push_arguments(out, &c.kwargs);
    push_text(out, ")\n");
    assert(out@ =~= before + make_text(c@));
}

fn push_connect(out: &mut String, from: u64, to: u64)
    ensures
        final(out)@ == old(out)@ + connect_text((from, to)),
{
    let ghost before = out@;
    push_text(out, "  (connect ");
    push_decimal(out, from as u128);
    push_text(out, " ");
    push_decimal(out, to as u128);
    push_text(out, ")\n");
    assert(out@ =~= before + connect_text((from, to)));
}

impl SiteImport {
    /// The highest id of the components, zero without any: ids that are handed
    /// out later have to lie past it.
    pub fn max_id(&self) -> (r: u64)
        ensures
            forall|i: int|
                0 <= i < self.components@.len() ==> (#[trigger] self.components@[i]).id <= r,
            r == 0 || carried(imported_views(self.components@), r),
    {
        let mut max: u64 = 0;
        let mut i: usize = 0;
        let ghost views = imported_views(self.components@);
        while i < self.components.len()
            invariant
                i <= self.components@.len(),
                views == imported_views(self.components@),
                forall|k: int| 0 <= k < i ==> (#[trigger] self.components@[k]).id <= max,
                max == 0 || carried(views, max),
            decreases self.components@.len() - i,
        {
            if self.components[i].id > max {
                max = self.components[i].id;
                assert(views[i as int].id == max);
            }
            i += 1;
        }
        max
    }

    /// One form that makes the components and connects them.
    pub fn forms(&self) -> (r: String)
        ensures
            r@ == "(progn\n"@ + makes_text(imported_views(self.components@)) + connects_text(
                self.connections@,
            ) + ")"@,
    {
        let mut out = String::new();
        let ghost views = imported_views(self.components@);
        let ghost edges = self.connections@;
        push_text(&mut out, "(progn\n");
        let ghost head = "(progn\n"@;
        let mut i: usize = 0;
        proof {
            assert(views.take(0) =~= Seq::empty());
            assert(out@ =~= head + makes_text(views.take(0)));
        }
        while i < self.components.len()
            invariant
                i <= self.components@.len(),
                views == imported_views(self.components@),
                out@ == head + makes_text(views.take(i as int)),
            decreases self.components@.len() - i,
        {
            proof {
                assert(views.take(i + 1).drop_last() =~= views.take(i as int));
                assert(views.take(i + 1).last() == self.components@[i as int]@);
            }
            push_make(&mut out, &self.components[i]);
            assert(out@ =~= head + makes_text(views.take(i + 1)));
            i += 1;
        }
        let ghost body = head + makes_text(views);
        let mut j: usize = 0;
        proof {
            assert(views.take(views.len() as int) =~= views);
            assert(edges.take(0) =~= Seq::empty());
            assert(out@ =~= body + connects_text(edges.take(0)));
        }
        while j < self.connections.len()
            invariant
                j <= self.connections@.len(),
                edges == self.connections@,
                out@ == body + connects_text(edges.take(j as int)),
            decreases self.connections@.len() - j,
        {
            proof {
                assert(edges.take(j + 1).drop_last() =~= edges.take(j as int));
                assert(edges.take(j + 1).last() == edges[j as int]);
            }
            push_connect(&mut out, self.connections[j].0, self.connections[j].1);
            assert(out@ =~= body + connects_text(edges.take(j + 1)));
            j += 1;
        }
        assert(edges.take(edges.len() as int) =~= edges);
        push_text(&mut out, ")");
        out
    }
}

/// An import holds every component of its export, in order: none is left out
/// silently.
pub proof fn law_import_is_complete(file: Seq<ApiComponent>)
    requires
        parsed_components(file) is Ok,
    ensures
        (parsed_components(file)->Ok_0).len() == file.len(),
        forall|i: int|
            0 <= i < file.len() ==> lifted(#[trigger] file[i]) == Ok::<ImportedView, Seq<char>>(
                (parsed_components(file)->Ok_0)[i],
            ),
    decreases file.len(),
{
    if file.len() > 0 {
        law_import_is_complete(file.drop_last());
        let before = parsed_components(file.drop_last())->Ok_0;
        assert forall|i: int| 0 <= i < file.len() implies lifted(#[trigger] file[i]) == Ok::<
            ImportedView,
            Seq<char>,
        >((parsed_components(file)->Ok_0)[i]) by {
            if i < file.len() - 1 {
                assert(file.drop_last()[i] == file[i]);
            }
        }
    }
}

/// No two components of an import have one id.
pub proof fn law_imported_ids_are_distinct(file: Seq<ApiComponent>, i: int, j: int)
    requires
        parsed_components(file) is Ok,
        0 <= i < j < file.len(),
    ensures
        (parsed_components(file)->Ok_0)[i].id != (parsed_components(file)->Ok_0)[j].id,
    decreases file.len(),
{
    law_import_is_complete(file);
    law_import_is_complete(file.drop_last());
    let before = parsed_components(file.drop_last())->Ok_0;
    if j == file.len() - 1 {
        assert(before[i].id == (parsed_components(file)->Ok_0)[i].id);
    } else {
        law_imported_ids_are_distinct(file.drop_last(), i, j);
    }
}

/// No connection is imported twice, and each connects components of the
/// import.
pub proof fn law_imported_edges_are_sound(components: Seq<ImportedView>, rows: Seq<ApiConnection>)
    requires
        parsed_edges(components, rows) is Ok,
    ensures
        (parsed_edges(components, rows)->Ok_0).no_duplicates(),
        forall|i: int|
            0 <= i < (parsed_edges(components, rows)->Ok_0).len() ==> {
                let edge = #[trigger] (parsed_edges(components, rows)->Ok_0)[i];
                carried(components, edge.0) && carried(components, edge.1)
            },
    decreases rows.len(),
{
    if rows.len() > 0 {
        law_imported_edges_are_sound(components, rows.drop_last());
    }
}

} // verus!
