//! Themes: the flat skin as swappable token sets.
//!
//! Every colour is an `--im-*` custom property with a fallback, so the base
//! stylesheet renders standalone. A theme is a named set of values for those
//! properties, emitted as a `:root { ... }` block the host injects after the
//! base CSS. Accent is not a theme token: it is the user's own highlight,
//! applied over the theme.

use vstd::prelude::*;

use crate::pairs::pairs_view;
use crate::text::{concat, push_str};

verus! {

/// A named palette: `(token without the --im- prefix, value)` pairs.
pub struct Theme {
    pub name: &'static str,
    tokens: Vec<(&'static str, &'static str)>,
}

impl Theme {
    pub closed spec fn name_view(&self) -> Seq<char> {
        self.name@
    }

    pub closed spec fn tokens_view(&self) -> Seq<(Seq<char>, Seq<char>)> {
        pairs_view(self.tokens@)
    }

    /// The preset's name.
    pub fn name(&self) -> (r: &'static str)
        ensures
            r@ == self.name_view(),
    {
        self.name
    }

    /// The palette's `(token, value)` pairs, in order.
    pub fn tokens(&self) -> (r: &Vec<(&'static str, &'static str)>)
        ensures
            pairs_view(r@) == self.tokens_view(),
    {
        &self.tokens
    }
}

/// The presets, first the default (Blender's dark), whose values match the
/// base stylesheet's fallbacks.
pub open spec fn theme_table() -> Seq<(Seq<char>, Seq<(Seq<char>, Seq<char>)>)> {
    seq![
        ("Blender Dark"@, seq![("bg"@, "#1a1a1d"@), ("panel"@, "#2b2b30"@), ("header"@, "#33333a"@), ("surface"@, "#232327"@), ("input-bg"@, "#232327"@), ("border"@, "#47474f"@), ("seam"@, "#0e0e10"@), ("text"@, "#e8e8e4"@), ("text-muted"@, "#a2a29c"@)]),
        ("Graphite"@, seq![("bg"@, "#202022"@), ("panel"@, "#2c2c30"@), ("header"@, "#3b3b41"@), ("surface"@, "#28282b"@), ("input-bg"@, "#252528"@), ("border"@, "#4f4f56"@), ("seam"@, "#141416"@), ("text"@, "#ededed"@), ("text-muted"@, "#aaaaa4"@)]),
        ("Light"@, seq![("bg"@, "#d6d6d8"@), ("panel"@, "#cacace"@), ("header"@, "#cdcdd2"@), ("surface"@, "#e6e6e8"@), ("input-bg"@, "#f2f2f4"@), ("border"@, "#9c9ca3"@), ("seam"@, "#9a9a9e"@), ("text"@, "#1c1c1f"@), ("text-muted"@, "#54545b"@)])
    ]
}

/// The built-in presets.
pub fn themes() -> (t: Vec<Theme>)
    ensures
        t@.len() == theme_table().len(),
        forall|i: int|
            0 <= i < t@.len() ==> (#[trigger] t@[i]).name_view() == theme_table()[i].0
                && t@[i].tokens_view() == theme_table()[i].1,
{
    let mut t: Vec<Theme> = Vec::new();
    let mut k: Vec<(&'static str, &'static str)> = Vec::new();
    k.push(("bg", "#1a1a1d"));
    k.push(("panel", "#2b2b30"));
    k.push(("header", "#33333a"));
    k.push(("surface", "#232327"));
    k.push(("input-bg", "#232327"));
    k.push(("border", "#47474f"));
    k.push(("seam", "#0e0e10"));
    k.push(("text", "#e8e8e4"));
    k.push(("text-muted", "#a2a29c"));
    t.push(Theme { name: "Blender Dark", tokens: k });
    let mut k: Vec<(&'static str, &'static str)> = Vec::new();
    k.push(("bg", "#202022"));
    k.push(("panel", "#2c2c30"));
    k.push(("header", "#3b3b41"));
    k.push(("surface", "#28282b"));
    k.push(("input-bg", "#252528"));
    k.push(("border", "#4f4f56"));
    k.push(("seam", "#141416"));
    k.push(("text", "#ededed"));
    k.push(("text-muted", "#aaaaa4"));
    t.push(Theme { name: "Graphite", tokens: k });
    let mut k: Vec<(&'static str, &'static str)> = Vec::new();
    k.push(("bg", "#d6d6d8"));
    k.push(("panel", "#cacace"));
    k.push(("header", "#cdcdd2"));
    k.push(("surface", "#e6e6e8"));
    k.push(("input-bg", "#f2f2f4"));
    k.push(("border", "#9c9ca3"));
    k.push(("seam", "#9a9a9e"));
    k.push(("text", "#1c1c1f"));
    k.push(("text-muted", "#54545b"));
    t.push(Theme { name: "Light", tokens: k });
    proof {
        assert(t@[0].tokens_view() =~= theme_table()[0].1);
        assert(t@[1].tokens_view() =~= theme_table()[1].1);
        assert(t@[2].tokens_view() =~= theme_table()[2].1);
    }
    t
}

/// Where a theme named `name` is in the table; the first preset for a name
/// nobody defined, so a stale setting never yields an unstyled page.
pub open spec fn theme_index(name: Seq<char>) -> int {
    if name == theme_table()[1].0 {
        1
    } else if name == theme_table()[2].0 {
        2
    } else {
        0
    }
}

/// The declarations `--im-k: v;` joined by single spaces.
pub open spec fn declarations(tokens: Seq<(Seq<char>, Seq<char>)>) -> Seq<char>
    decreases tokens.len(),
{
    if tokens.len() == 0 {
        seq![]
    } else if tokens.len() == 1 {
        "--im-"@ + tokens[0].0 + ": "@ + tokens[0].1 + ";"@
    } else {
        declarations(tokens.drop_last()) + " "@ + "--im-"@ + tokens.last().0 + ": "@ + tokens.last().1
            + ";"@
    }
}

/// A theme nobody defined is styled as the first preset, never left
/// unstyled: its block is the first preset's declarations, and they are not
/// empty.
pub proof fn law_an_unknown_theme_falls_back_to_the_first(name: Seq<char>)
    requires
        forall|i: int| 0 <= i < theme_table().len() ==> #[trigger] theme_table()[i].0 != name,
    ensures
        theme_index(name) == 0,
        declarations(theme_table()[theme_index(name)].1) == declarations(theme_table()[0].1),
        declarations(theme_table()[0].1).len() > 0,
{
    assert(theme_table()[1].0 != name);
    assert(theme_table()[2].0 != name);
    reveal_strlit(";");
    let t = theme_table()[0].1;
    assert(t.len() > 1);
    assert(declarations(t) == declarations(t.drop_last()) + " "@ + "--im-"@ + t.last().0 + ": "@ + t.last().1 + ";"@);
}

/// The `:root { ... }` block for a named theme.
pub fn theme_css(name: &str) -> (r: String)
    ensures
        r@ == ":root { "@ + declarations(theme_table()[theme_index(name@)].1) + " }"@,
{
    let all = themes();
    let pick: usize = if crate::text::str_eq(name, all[1].name) {
        1
    } else if crate::text::str_eq(name, all[2].name) {
        2
    } else {
        0
    };
    proof {
        assert(all@[1].name_view() == theme_table()[1].0);
        assert(all@[2].name_view() == theme_table()[2].0);
    }
    let tokens = &all[pick].tokens;
    let mut body = String::new();
    let mut k: usize = 0;
    while k < tokens.len()
        invariant
            k <= tokens@.len(),
            pairs_view(tokens@) == theme_table()[pick as int].1,
            body@ == declarations(pairs_view(tokens@).subrange(0, k as int)),
        decreases tokens.len() - k,
    {
        let ghost pv = pairs_view(tokens@);
        assert(pv.subrange(0, k + 1).drop_last() =~= pv.subrange(0, k as int));
        if k > 0 {
            push_str(&mut body, " ");
        }
        push_str(&mut body, "--im-");
        push_str(&mut body, tokens[k].0);
        push_str(&mut body, ": ");
        push_str(&mut body, tokens[k].1);
        push_str(&mut body, ";");
        proof {
            if k == 0 {
                assert(body@ =~= declarations(pv.subrange(0, 1)));
            } else {
                assert(body@ =~= declarations(pv.subrange(0, k + 1)));
            }
        }
        k += 1;
    }
    assert(pairs_view(tokens@).subrange(0, tokens@.len() as int) =~= pairs_view(tokens@));
    let mut css = concat(":root { ", body.as_str());
    push_str(&mut css, " }");
    css
}

} // verus!
