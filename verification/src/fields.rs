//! What is configurable: the settings document's fields, and how Preferences
//! groups them.
//!
//! One description of the workbench's options, reached two ways: the
//! Settings editor shows the fields as one flat list you can split beside
//! your work, Preferences shows them sectioned in a window you open and
//! close. Every field is in exactly one section.
//!
//! A field names a JSON pointer into the settings document, how to edit it
//! and, when it has one, its factory value. Widget bounds are held in
//! millionths, as the library holds every fractional number.

use vstd::prelude::*;

use crate::json::{Json, JsonV, Number};
use crate::text::str_eq;
use crate::theme::{theme_table, themes};

verus! {

/// How a field is edited.
pub enum FieldKind {
    Text,
    /// A number box, with optional bounds and step, in millionths.
    Number { min: Option<i64>, max: Option<i64>, step: Option<i64> },
    /// A value slider with a filled track; bounds and step in millionths.
    Slider { min: i64, max: i64, step: i64 },
    Bool,
    /// `(value, label)` pairs for a dropdown.
    Select(Vec<(String, String)>),
    /// `(value, label)` pairs shown as a row of buttons.
    Radio(Vec<(String, String)>),
    /// A bool shown as one pressable button.
    Toggle,
    /// Several numbers on one row, addressed as a JSON array; the labels
    /// name the components. The step is in millionths.
    Vector { labels: Vec<String>, step: Option<i64> },
    /// A `#rrggbb` colour.
    Color,
}

pub enum FieldKindV {
    Text,
    Number { min: Option<i64>, max: Option<i64>, step: Option<i64> },
    Slider { min: i64, max: i64, step: i64 },
    Bool,
    Select(Seq<(Seq<char>, Seq<char>)>),
    Radio(Seq<(Seq<char>, Seq<char>)>),
    Toggle,
    Vector { labels: Seq<Seq<char>>, step: Option<i64> },
    Color,
}

pub open spec fn options_view(v: Seq<(String, String)>) -> Seq<(Seq<char>, Seq<char>)> {
    Seq::new(v.len(), |i: int| (v[i].0@, v[i].1@))
}

impl View for FieldKind {
    type V = FieldKindV;

    open spec fn view(&self) -> FieldKindV {
        match self {
            FieldKind::Text => FieldKindV::Text,
            FieldKind::Number { min, max, step } => FieldKindV::Number { min: *min, max: *max, step: *step },
            FieldKind::Slider { min, max, step } => FieldKindV::Slider { min: *min, max: *max, step: *step },
            FieldKind::Bool => FieldKindV::Bool,
            FieldKind::Select(o) => FieldKindV::Select(options_view(o@)),
            FieldKind::Radio(o) => FieldKindV::Radio(options_view(o@)),
            FieldKind::Toggle => FieldKindV::Toggle,
            FieldKind::Vector { labels, step } => FieldKindV::Vector {
                labels: crate::treebank::strings_view(labels@),
                step: *step,
            },
            FieldKind::Color => FieldKindV::Color,
        }
    }
}

/// One editable spot in the settings document.
pub struct Field {
    /// JSON pointer, e.g. `/accent`.
    pub path: String,
    pub label: String,
    pub kind: FieldKind,
    pub hint: Option<String>,
    /// The factory value, which "Reset to default" sets the pointer back to.
    pub default: Option<Json>,
}

pub struct FieldV {
    pub path: Seq<char>,
    pub label: Seq<char>,
    pub kind: FieldKindV,
    pub hint: Option<Seq<char>>,
    pub default: Option<JsonV>,
}

impl View for Field {
    type V = FieldV;

    open spec fn view(&self) -> FieldV {
        FieldV {
            path: self.path@,
            label: self.label@,
            kind: self.kind@,
            hint: match self.hint {
                Some(h) => Some(h@),
                None => None,
            },
            default: match self.default {
                Some(d) => Some(d@),
                None => None,
            },
        }
    }
}

pub open spec fn fields_view(v: Seq<Field>) -> Seq<FieldV> {
    Seq::new(v.len(), |i: int| v[i]@)
}

impl Field {
    /// A field with no hint and no default.
    pub fn new(path: &str, label: &str, kind: FieldKind) -> (r: Field)
        ensures
            r@ == (FieldV { path: path@, label: label@, kind: kind@, hint: None, default: None }),
    {
        Field { path: path.to_owned(), label: label.to_owned(), kind, hint: None, default: None }
    }

    /// The field with a hint shown beside it.
    pub fn with_hint(self, hint: &str) -> (r: Field)
        ensures
            r@ == (FieldV { hint: Some(hint@), ..self@ }),
    {
        Field { hint: Some(hint.to_owned()), ..self }
    }

    /// The field with a factory value.
    pub fn with_default(self, default: Json) -> (r: Field)
        ensures
            r@ == (FieldV { default: Some(default@), ..self@ }),
    {
        Field { default: Some(default), ..self }
    }
}

/// Every theme as a choice, its name both value and label.
pub open spec fn theme_options() -> Seq<(Seq<char>, Seq<char>)> {
    Seq::new(theme_table().len(), |i: int| (theme_table()[i].0, theme_table()[i].0))
}

pub open spec fn field_v(
    path: Seq<char>,
    label: Seq<char>,
    kind: FieldKindV,
    hint: Option<Seq<char>>,
    default: Option<JsonV>,
) -> FieldV {
    FieldV { path, label, kind, hint, default }
}

pub open spec fn pos(n: u64) -> JsonV {
    JsonV::Num(Number::PosInt(n))
}

/// The settings, in the order the Settings editor lists them.
pub open spec fn settings_table() -> Seq<FieldV> {
    seq![
        field_v("/accent"@, "Accent color"@, FieldKindV::Color, Some("the widget-blue used across the workbench"@), Some(JsonV::Str("#5680c2"@))),
        field_v("/poll_ms"@, "Refresh interval"@, FieldKindV::Slider { min: 250_000_000, max: 5_000_000_000, step: 250_000_000 }, Some("how often the page repolls, in ms"@), Some(pos(1000))),
        field_v("/splash_on_start"@, "Splash on startup"@, FieldKindV::Bool, None, Some(JsonV::Bool(true))),
        field_v("/tooltips_on"@, "Tooltips"@, FieldKindV::Toggle, Some("hover help on the workbench controls"@), Some(JsonV::Bool(true))),
        field_v("/sweep_limit"@, "Default sweep limit"@, FieldKindV::Number { min: Some(1_000_000), max: Some(1_000_000_000), step: Some(50_000_000) }, Some("packages per ecosystem the daily sweep fetches"@), Some(pos(100))),
        field_v("/theme"@, "Theme"@, FieldKindV::Select(theme_options()), Some("the workbench palette; accent stays your own"@), None),
        field_v("/chart_window"@, "Chart window"@, FieldKindV::Vector { labels: seq!["H"@, "N"@, "S"@], step: Some(1_000_000) }, Some("hours shown, samples, smoothing"@), Some(JsonV::Array(seq![pos(1), pos(60), pos(3)]))),
        field_v("/diff_split"@, "Split diffs"@, FieldKindV::Toggle, Some("show diffs side by side rather than stacked"@), Some(JsonV::Bool(false))),
        field_v("/ui_scale"@, "Resolution scale"@, FieldKindV::Slider { min: 800_000, max: 1_600_000, step: 50_000 }, Some("size of the whole interface"@), Some(JsonV::Num(Number::Float(1_000_000)))),
        field_v("/density"@, "Density"@, FieldKindV::Radio(seq![("cozy"@, "Cozy"@), ("compact"@, "Compact"@)]), None, Some(JsonV::Str("cozy"@))),
    ]
}

/// Preferences' sections, each with the places in [`settings_table`] of the
/// fields it shows, in the order it shows them.
pub open spec fn section_picks() -> Seq<(Seq<char>, Seq<int>)> {
    seq![
        ("Interface"@, seq![5int, 0, 8, 9, 3]),
        ("Editing"@, seq![7int, 6]),
        ("Startup"@, seq![2int]),
        ("System"@, seq![1int, 4]),
    ]
}

/// Preferences' sections, with their fields.
pub open spec fn section_table() -> Seq<(Seq<char>, Seq<FieldV>)> {
    Seq::new(
        section_picks().len(),
        |j: int| (section_picks()[j].0, Seq::new(section_picks()[j].1.len(), |k: int| settings_table()[section_picks()[j].1[k]])),
    )
}

/// Every field shown by some section, section after section.
pub open spec fn shown_paths() -> Seq<Seq<char>> {
    let t = section_table();
    t[0].1.map_values(|f: FieldV| f.path) + t[1].1.map_values(|f: FieldV| f.path) + t[2].1.map_values(
        |f: FieldV| f.path,
    ) + t[3].1.map_values(|f: FieldV| f.path)
}

/// How often `p` occurs in `s`.
pub open spec fn occurrences(s: Seq<Seq<char>>, p: Seq<char>) -> nat
    decreases s.len(),
{
    if s.len() == 0 {
        0
    } else {
        occurrences(s.drop_last(), p) + if s.last() == p { 1nat } else { 0nat }
    }
}

fn options(pairs: Vec<(&str, &str)>) -> (r: Vec<(String, String)>)
    ensures
        options_view(r@) == Seq::new(pairs@.len(), |i: int| (pairs@[i].0@, pairs@[i].1@)),
{
    let mut out: Vec<(String, String)> = Vec::new();
    let mut i: usize = 0;
    while i < pairs.len()
        invariant
            i <= pairs@.len(),
            out@.len() == i,
            forall|k: int| 0 <= k < i ==> (#[trigger] out@[k]).0@ == pairs@[k].0@ && out@[k].1@ == pairs@[k].1@,
        decreases pairs.len() - i,
    {
        out.push((pairs[i].0.to_owned(), pairs[i].1.to_owned()));
        i += 1;
    }
    assert(options_view(out@) =~= Seq::new(pairs@.len(), |i: int| (pairs@[i].0@, pairs@[i].1@)));
    out
}

fn theme_choices() -> (r: Vec<(String, String)>)
    ensures
        options_view(r@) == theme_options(),
{
    let ts = themes();
    let mut out: Vec<(String, String)> = Vec::new();
    let mut i: usize = 0;
    while i < ts.len()
        invariant
            i <= ts@.len(),
            ts@.len() == theme_table().len(),
            forall|k: int| 0 <= k < ts@.len() ==> (#[trigger] ts@[k]).name_view() == theme_table()[k].0,
            out@.len() == i,
            forall|k: int| 0 <= k < i ==> (#[trigger] out@[k]).0@ == theme_table()[k].0 && out@[k].1@ == theme_table()[k].0,
        decreases ts.len() - i,
    {
        let n = ts[i].name();
        assert(n@ == ts@[i as int].name_view());
        out.push((n.to_owned(), n.to_owned()));
        i += 1;
    }
    assert(options_view(out@) =~= theme_options());
    out
}

/// The settings, in the order the Settings editor lists them.
pub fn settings_fields() -> (r: Vec<Field>)
    ensures
        fields_view(r@) == settings_table(),
{
    let mut r: Vec<Field> = Vec::new();
    r.push(
        Field::new("/accent", "Accent color", FieldKind::Color).with_hint(
            "the widget-blue used across the workbench",
        ).with_default(Json::Str("#5680c2".to_owned())),
    );
    r.push(
        Field::new(
            "/poll_ms",
            "Refresh interval",
            FieldKind::Slider { min: 250_000_000, max: 5_000_000_000, step: 250_000_000 },
        ).with_hint("how often the page repolls, in ms").with_default(Json::Num(Number::PosInt(1000))),
    );
    r.push(Field::new("/splash_on_start", "Splash on startup", FieldKind::Bool).with_default(Json::Bool(true)));
    r.push(
        Field::new("/tooltips_on", "Tooltips", FieldKind::Toggle).with_hint(
            "hover help on the workbench controls",
        ).with_default(Json::Bool(true)),
    );
    r.push(
        Field::new(
            "/sweep_limit",
            "Default sweep limit",
            FieldKind::Number { min: Some(1_000_000), max: Some(1_000_000_000), step: Some(50_000_000) },
        ).with_hint("packages per ecosystem the daily sweep fetches").with_default(Json::Num(Number::PosInt(100))),
    );
    r.push(
        Field::new("/theme", "Theme", FieldKind::Select(theme_choices())).with_hint(
            "the workbench palette; accent stays your own",
        ),
    );
    let mut labels: Vec<String> = Vec::new();
    labels.push("H".to_owned());
    labels.push("N".to_owned());
    labels.push("S".to_owned());
    assert(crate::treebank::strings_view(labels@) =~= seq!["H"@, "N"@, "S"@]);
    let mut window: Vec<Json> = Vec::new();
    window.push(Json::Num(Number::PosInt(1)));
    window.push(Json::Num(Number::PosInt(60)));
    window.push(Json::Num(Number::PosInt(3)));
    proof {
        crate::json::lemma_jsons_of(window@);
    }
    assert(crate::json::jsons_of(window@) =~= seq![pos(1), pos(60), pos(3)]);
    r.push(
        Field::new("/chart_window", "Chart window", FieldKind::Vector { labels, step: Some(1_000_000) }).with_hint(
            "hours shown, samples, smoothing",
        ).with_default(Json::Array(window)),
    );
    r.push(
        Field::new("/diff_split", "Split diffs", FieldKind::Toggle).with_hint(
            "show diffs side by side rather than stacked",
        ).with_default(Json::Bool(false)),
    );
    r.push(
        Field::new(
            "/ui_scale",
            "Resolution scale",
            FieldKind::Slider { min: 800_000, max: 1_600_000, step: 50_000 },
        ).with_hint("size of the whole interface").with_default(Json::Num(Number::Float(1_000_000))),
    );
    let mut density: Vec<(&str, &str)> = Vec::new();
    density.push(("cozy", "Cozy"));
    density.push(("compact", "Compact"));
    let density = options(density);
    assert(options_view(density@) =~= seq![("cozy"@, "Cozy"@), ("compact"@, "Compact"@)]);
    r.push(Field::new("/density", "Density", FieldKind::Radio(density)).with_default(Json::Str("cozy".to_owned())));
    let ghost t = settings_table();
    assert(r@[0]@ =~~= t[0]);
    assert(r@[1]@ =~~= t[1]);
    assert(r@[2]@ =~~= t[2]);
    assert(r@[3]@ =~~= t[3]);
    assert(r@[4]@ =~~= t[4]);
    assert(r@[5]@ =~~= t[5]);
    assert(r@[6]@ =~~= t[6]);
    assert(r@[7]@ =~~= t[7]);
    assert(r@[8]@ =~~= t[8]);
    assert(r@[9]@ =~~= t[9]);
    assert(fields_view(r@) =~= t);
    r
}

impl FieldKind {
    /// An exact copy.
    pub fn copy(&self) -> (r: FieldKind)
        ensures
            r@ == self@,
    {
        match self {
            FieldKind::Text => FieldKind::Text,
            FieldKind::Number { min, max, step } => FieldKind::Number { min: *min, max: *max, step: *step },
            FieldKind::Slider { min, max, step } => FieldKind::Slider { min: *min, max: *max, step: *step },
            FieldKind::Bool => FieldKind::Bool,
            FieldKind::Select(o) => FieldKind::Select(copy_options(o)),
            FieldKind::Radio(o) => FieldKind::Radio(copy_options(o)),
            FieldKind::Toggle => FieldKind::Toggle,
            FieldKind::Vector { labels, step } => {
                let mut out: Vec<String> = Vec::new();
                let mut i: usize = 0;
                while i < labels.len()
                    invariant
                        i <= labels@.len(),
                        out@.len() == i,
                        forall|k: int| 0 <= k < i ==> (#[trigger] out@[k])@ == labels@[k]@,
                    decreases labels.len() - i,
                {
                    out.push(labels[i].clone());
                    i += 1;
                }
                assert(crate::treebank::strings_view(out@) =~= crate::treebank::strings_view(labels@));
                FieldKind::Vector { labels: out, step: *step }
            },
            FieldKind::Color => FieldKind::Color,
        }
    }
}

fn copy_options(o: &Vec<(String, String)>) -> (r: Vec<(String, String)>)
    ensures
        options_view(r@) == options_view(o@),
{
    let mut out: Vec<(String, String)> = Vec::new();
    let mut i: usize = 0;
    while i < o.len()
        invariant
            i <= o@.len(),
            out@.len() == i,
            forall|k: int| 0 <= k < i ==> (#[trigger] out@[k]).0@ == o@[k].0@ && out@[k].1@ == o@[k].1@,
        decreases o.len() - i,
    {
        out.push((o[i].0.clone(), o[i].1.clone()));
        i += 1;
    }
    assert(options_view(out@) =~= options_view(o@));
    out
}

impl Field {
    /// An exact copy.
    pub fn copy(&self) -> (r: Field)
        ensures
            r@ == self@,
    {
        Field {
            path: self.path.clone(),
            label: self.label.clone(),
            kind: self.kind.copy(),
            hint: match &self.hint {
                Some(h) => Some(h.clone()),
                None => None,
            },
            default: match &self.default {
                Some(d) => Some(d.copy()),
                None => None,
            },
        }
    }
}

/// The first of `all` at `path`, copied.
fn pick(all: &Vec<Field>, path: &str) -> (r: Option<Field>)
    ensures
        match r {
            Some(f) => exists|i: int| 0 <= i < all@.len() && all@[i]@ == f@ && all@[i].path@ == path@ && forall|k: int| 0 <= k < i ==> all@[k].path@ != path@,
            None => forall|k: int| 0 <= k < all@.len() ==> all@[k].path@ != path@,
        },
{
    let mut i: usize = 0;
    while i < all.len()
        invariant
            i <= all@.len(),
            forall|k: int| 0 <= k < i ==> all@[k].path@ != path@,
        decreases all.len() - i,
    {
        if str_eq(all[i].path.as_str(), path) {
            return Some(all[i].copy());
        }
        i += 1;
    }
    None
}

pub open spec fn sections_view(v: Seq<(&'static str, Vec<Field>)>) -> Seq<(Seq<char>, Seq<FieldV>)> {
    Seq::new(v.len(), |j: int| (v[j].0@, fields_view(v[j].1@)))
}

/// No two settings share a pointer.
pub proof fn law_no_two_settings_share_a_path()
    ensures
        forall|i: int, j: int|
            0 <= i < j < settings_table().len() ==> #[trigger] settings_table()[i].path != #[trigger] settings_table()[j].path,
{
    reveal_strlit("/accent");
    reveal_strlit("/poll_ms");
    reveal_strlit("/splash_on_start");
    reveal_strlit("/tooltips_on");
    reveal_strlit("/sweep_limit");
    reveal_strlit("/theme");
    reveal_strlit("/chart_window");
    reveal_strlit("/diff_split");
    reveal_strlit("/ui_scale");
    reveal_strlit("/density");
    let t = settings_table();
    assert forall|i: int, j: int| 0 <= i < j < t.len() implies #[trigger] t[i].path != #[trigger] t[j].path by {
        if t[i].path == t[j].path {
            assert(t[i].path.len() == t[j].path.len());
            assert(t[i].path[2] == t[j].path[2]);
            assert(t[i].path[1] == t[j].path[1]);
        }
    }
}

/// The fields of one section, picked from `all` by pointer.
fn pick_all(all: &Vec<Field>, paths: Vec<&str>, places: Ghost<Seq<int>>) -> (r: Vec<Field>)
    requires
        fields_view(all@) == settings_table(),
        paths@.len() == places@.len(),
        forall|k: int| 0 <= k < paths@.len() ==> 0 <= #[trigger] places@[k] < 10,
        forall|k: int| 0 <= k < paths@.len() ==> (#[trigger] paths@[k])@ == settings_table()[places@[k]].path,
    ensures
        fields_view(r@) == Seq::new(places@.len(), |k: int| settings_table()[places@[k]]),
{
    proof {
        law_no_two_settings_share_a_path();
    }
    let mut out: Vec<Field> = Vec::new();
    let mut k: usize = 0;
    assert(fields_view(out@) =~= Seq::new(0 as nat, |q: int| settings_table()[places@[q]]));
    while k < paths.len()
        invariant
            k <= paths@.len(),
            fields_view(all@) == settings_table(),
            paths@.len() == places@.len(),
            forall|q: int| 0 <= q < paths@.len() ==> 0 <= #[trigger] places@[q] < 10,
            forall|q: int| 0 <= q < paths@.len() ==> (#[trigger] paths@[q])@ == settings_table()[places@[q]].path,
            forall|i: int, j: int|
                0 <= i < j < settings_table().len() ==> #[trigger] settings_table()[i].path != #[trigger] settings_table()[j].path,
            fields_view(out@) == Seq::new(k as nat, |q: int| settings_table()[places@[q]]),
        decreases paths.len() - k,
    {
        let ghost at = places@[k as int];
        assert(settings_table().len() == 10);
        assert(fields_view(all@)[at] == all@[at]@);
        assert(all@[at]@ == settings_table()[at]);
        match pick(all, paths[k]) {
            Some(f) => {
                let ghost w = choose|i: int|
                    0 <= i < all@.len() && all@[i]@ == f@ && all@[i].path@ == paths@[k as int]@ && forall|q: int|
                        0 <= q < i ==> all@[q].path@ != paths@[k as int]@;
                proof {
                    assert(all@[w]@ == settings_table()[w]);
                    if w < at {
                        assert(settings_table()[w].path != settings_table()[at].path);
                    } else if w > at {
                        assert(all@[at].path@ != paths@[k as int]@);
                    }
                }
                let ghost before = fields_view(out@);
                let ghost fv = f@;
                out.push(f);
                assert(fields_view(out@) =~= before.push(fv));
                assert(fields_view(out@) =~= Seq::new((k + 1) as nat, |q: int| settings_table()[places@[q]]));
            },
            None => {
                assert(all@[at].path@ != paths@[k as int]@);
            },
        }
        k += 1;
    }
    out
}

/// Preferences' sections: a list down the left, that section's fields on
/// the right.
pub fn preference_sections() -> (r: Vec<(&'static str, Vec<Field>)>)
    ensures
        sections_view(r@) == section_table(),
{
    let all = settings_fields();
    let mut r: Vec<(&'static str, Vec<Field>)> = Vec::new();
    let mut p: Vec<&str> = Vec::new();
    p.push("/theme");
    p.push("/accent");
    p.push("/ui_scale");
    p.push("/density");
    p.push("/tooltips_on");
    let ghost q = seq![5int, 0, 8, 9, 3];
    let interface = pick_all(&all, p, Ghost(q));
    r.push(("Interface", interface));
    let mut p: Vec<&str> = Vec::new();
    p.push("/diff_split");
    p.push("/chart_window");
    let ghost q = seq![7int, 6];
    let editing = pick_all(&all, p, Ghost(q));
    r.push(("Editing", editing));
    let mut p: Vec<&str> = Vec::new();
    p.push("/splash_on_start");
    let ghost q = seq![2int];
    let startup = pick_all(&all, p, Ghost(q));
    r.push(("Startup", startup));
    let mut p: Vec<&str> = Vec::new();
    p.push("/poll_ms");
    p.push("/sweep_limit");
    let ghost q = seq![1int, 4];
    let system = pick_all(&all, p, Ghost(q));
    r.push(("System", system));
    let ghost t = section_table();
    assert(sections_view(r@)[0] =~~= t[0]);
    assert(sections_view(r@)[1] =~~= t[1]);
    assert(sections_view(r@)[2] =~~= t[2]);
    assert(sections_view(r@)[3] =~~= t[3]);
    assert(sections_view(r@) =~= t);
    r
}

/// Every setting is shown by exactly one section of Preferences, and the
/// sections show nothing else: a setting reachable from the Settings editor
/// is reachable from Preferences too.
pub proof fn law_every_setting_is_in_exactly_one_section()
    ensures
        shown_paths().len() == settings_table().len(),
        forall|i: int| 0 <= i < settings_table().len() ==> occurrences(shown_paths(), #[trigger] settings_table()[i].path) == 1,
{
    law_no_two_settings_share_a_path();
    let t = settings_table();
    let s = shown_paths();
    let want = seq![t[5].path, t[0].path, t[8].path, t[9].path, t[3].path, t[7].path, t[6].path, t[2].path, t[1].path, t[4].path];
    let st = section_table();
    assert(st[0].1.map_values(|f: FieldV| f.path) =~= seq![t[5].path, t[0].path, t[8].path, t[9].path, t[3].path]);
    assert(st[1].1.map_values(|f: FieldV| f.path) =~= seq![t[7].path, t[6].path]);
    assert(st[2].1.map_values(|f: FieldV| f.path) =~= seq![t[2].path]);
    assert(st[3].1.map_values(|f: FieldV| f.path) =~= seq![t[1].path, t[4].path]);
    assert(s =~= want);
    assert forall|i: int| 0 <= i < t.len() implies occurrences(s, #[trigger] t[i].path) == 1 by {
        reveal_with_fuel(occurrences, 11);
    }
}

} // verus!
