//! Demo mode's fabricated files.
//!
//! A public demo instance has no checkout to browse, so the file browser,
//! the code viewer and the diff viewer read one fabricated table instead.
//! What the browser lists is exactly what the viewers can open; two files
//! carry a patch, so the diff viewer has both a changed file and the
//! "matches HEAD" case to show.

use vstd::prelude::*;

use crate::order::stable_sorted;

use crate::pairs::{lookup_pair, pair_lookup, pairs_view};
use crate::text::{decimal, push_char, push_decimal, push_str, str_eq};
use crate::tree::{list_rows, listed, rows_view, RowV, TreeRow};

verus! {

/// `(path, contents)`: a directory is listed with a trailing `/` and no
/// contents.
pub open spec fn file_table() -> Seq<(Seq<char>, Seq<char>)> {
    seq![
        ("/README.md"@, "# powderman\n\nDurable workflows on a Blender-style workbench.\n\n## What this is\n\nA daemon that runs long jobs and survives restarts, and a tiled workbench for\nwatching them. Every mutation goes through one command bus, so a header\nbutton, a keystroke and an agent's tool call are the same operation.\n\n## Running it\n\n    cargo run -p powderman -- --db ~/.powderman.db --port 7777\n\nSchedules are on by default. `POWDERMAN_SCHEDULES=0` makes an instance\nview-only on the clock, which is what a second instance beside the real one\nshould be.\n\n## The demo\n\n`POWDERMAN_DEMO=1` seeds a fabricated history and refuses to run anything.\nThe instance you are reading this on is one of those: the runs, the fleet,\nthe metrics and this file are all made up.\n"@),
        ("/Cargo.toml"@, "[workspace]\nmembers = [\"immersion\", \"powderman\"]\nresolver = \"2\"\n\n[workspace.package]\nedition = \"2024\"\nlicense = \"Apache-2.0\"\n\n[profile.release]\nlto = \"thin\"\ncodegen-units = 1\n"@),
        ("/docs/"@, ""@),
        ("/docs/roadmap.md"@, "# The workbench, honestly\n\n## Where we are\n\nAreas with n-ary splits, regions, workspaces, menus, a command palette, a\nkeymap with rebinding, a widget kit bound to serde documents by pointer, and\na tree view with two editors over it.\n\n## Where we are going\n\n1. Parity made honest — enforced, not asserted.\n2. Errors surface — one type, two surfaces.\n3. The tree view, and the data editor over it.\n4. Editors have targets.\n5. Code and diff viewers.\n6. Charts as Vega-Lite documents.\n\n## What we are not doing\n\nRuntime extensibility. Hosts add editors and commands at compile time; there\nis no plugin loading and no runtime schema registry.\n"@),
        ("/immersion/"@, ""@),
        ("/immersion/src/"@, ""@),
        ("/immersion/src/tree.rs"@, "//! The tree view: expandable rows over any hierarchical value.\n//!\n//! One component, many editors. The host supplies children through a\n//! callback, so the same view walks a serde document, a directory, or\n//! anything else that answers \"what is under this node\".\n\nuse dioxus::prelude::*;\n\n/// One row the host hands back from its children callback.\n#[derive(Debug, Clone, PartialEq)]\npub struct TreeRow {\n    /// Where this node lives. Opaque to the component.\n    pub pointer: String,\n    /// The name shown on the row.\n    pub label: String,\n    /// A short value preview, dimmed, after the label.\n    pub preview: String,\n    /// Whether the row can expand.\n    pub has_children: bool,\n}\n\n/// Children of a node inside a serde document.\npub fn value_children(doc: &serde_json::Value, pointer: &str) -> Vec<TreeRow> {\n    let Some(node) = doc.pointer(pointer) else {\n        return Vec::new();\n    };\n    match node {\n        serde_json::Value::Object(map) => map\n            .iter()\n            .map(|(k, v)| TreeRow {\n                pointer: format!(\"{pointer}/{k}\"),\n                label: k.clone(),\n                preview: preview(v),\n                has_children: branches(v),\n            })\n            .collect(),\n        _ => Vec::new(),\n    }\n}\n"@),
        ("/immersion/src/area.rs"@, "//! The layout tree: areas, splits, and the operations on them.\n//!\n//! An area is a leaf with an editor, or a split with children and the sizes\n//! between them. That is the whole model — no tabs, no floating panels, no\n//! z-order — so persistence and undo are serialization, not integration.\n\nuse serde::{Deserialize, Serialize};\n\npub type AreaId = u64;\n\n#[derive(Debug, Clone, PartialEq, Serialize, Deserialize)]\n#[serde(tag = \"kind\", rename_all = \"lowercase\")]\npub enum Area {\n    Leaf {\n        id: AreaId,\n        editor: String,\n        arg: Option<String>,\n    },\n    Split {\n        id: AreaId,\n        dir: Dir,\n        sizes: Vec<f32>,\n        children: Vec<Area>,\n    },\n}\n\nimpl Layout {\n    /// Split an area in two. Returns the new leaf's id, or None if the\n    /// target is not a leaf.\n    pub fn split(&mut self, target: AreaId, dir: Dir, ratio: f32) -> Option<AreaId> {\n        let id = self.next_id;\n        self.next_id += 1;\n        Some(id)\n    }\n}\n"@),
        ("/immersion/ts/"@, ""@),
        ("/immersion/ts/gestures.ts"@, "// The gesture shim: corner drags, seam drags, and the drop targets.\n//\n// Everything here is frame-path work — pointer moves, a preview rectangle —\n// and it commits exactly one message on release. The server never sees the\n// drag, only its result.\n\nimport { once } from \"./types\";\nimport type { Gesture as GestureMsg } from \"./generated/Gesture\";\n\nconst THRESHOLD = 4;\n\nif (once(\"__imGestures\")) {\n  let seam: { splitId: number; index: number } | null = null;\n\n  const send = (msg: GestureMsg): void => {\n    try {\n      dioxus.send(JSON.stringify(msg));\n    } catch {\n      /* channel gone; a reload re-installs */\n    }\n  };\n\n  document.addEventListener(\"pointerup\", (e) => {\n    if (!seam) return;\n    send({ t: \"ratio\", id: seam.splitId, index: seam.index, ratio: seamRatio(e) });\n    seam = null;\n  });\n}\n"@),
        ("/powderman/"@, ""@),
        ("/powderman/src/"@, ""@),
        ("/powderman/src/daemon.rs"@, "//! The daemon: state, the command bus, and the routes.\n\nuse anyhow::Result;\n\n/// Run a layout command and hand back the new workbench. THE one write path:\n/// every UI mutation arrives here as a named command, is applied to the\n/// workspace value, and persisted.\npub fn dispatch_from(\n    source: &str,\n    name: &str,\n    params: serde_json::Value,\n) -> Result<immersion::Workspaces> {\n    let s = shared();\n    let mut w = s.workspaces.lock().expect(\"workspaces\");\n    // The command runs against a clone, so a failure leaves the live\n    // workspace untouched and undo is recorded only on success.\n    let mut candidate = w.clone();\n    let outcome = s.commands.run(&mut candidate, name, &params);\n    log_command(source, name, params.clone(), outcome.is_ok());\n    outcome?;\n    if s.commands.records_undo(name) {\n        s.undo.lock().expect(\"undo\").push(w.clone());\n        s.redo.lock().expect(\"redo\").clear();\n    }\n    *w = candidate;\n    persist_workspaces(&s, &w);\n    Ok(w.clone())\n}\n"@),
        ("/powderman/src/workflows.rs"@, "//! The workflow registry: what this daemon knows how to run.\n\nuse crate::engine::{Registry, WorkflowDef};\n\npub fn registry() -> Registry {\n    let mut r = Registry::new();\n    r.insert(\n        \"treebank_sweep\",\n        WorkflowDef {\n            description: \"Pull, build, then rank every grammar; hand any with gaps to a fix run.\",\n            example: Some(\"{\\\"limit\\\": 100}\"),\n            schedule: Some(\"0 6 * * *\"),\n            cwd: None,\n            run: crate::treebank::sweep_all,\n        },\n    );\n    r\n}\n"@)
    ]
}

/// The fabricated checkout: each file's path and contents.
pub fn files() -> (t: Vec<(&'static str, &'static str)>)
    ensures
        pairs_view(t@) == file_table(),
{
    let mut t: Vec<(&'static str, &'static str)> = Vec::new();
    t.push(("/README.md", "# powderman\n\nDurable workflows on a Blender-style workbench.\n\n## What this is\n\nA daemon that runs long jobs and survives restarts, and a tiled workbench for\nwatching them. Every mutation goes through one command bus, so a header\nbutton, a keystroke and an agent's tool call are the same operation.\n\n## Running it\n\n    cargo run -p powderman -- --db ~/.powderman.db --port 7777\n\nSchedules are on by default. `POWDERMAN_SCHEDULES=0` makes an instance\nview-only on the clock, which is what a second instance beside the real one\nshould be.\n\n## The demo\n\n`POWDERMAN_DEMO=1` seeds a fabricated history and refuses to run anything.\nThe instance you are reading this on is one of those: the runs, the fleet,\nthe metrics and this file are all made up.\n"));
    t.push(("/Cargo.toml", "[workspace]\nmembers = [\"immersion\", \"powderman\"]\nresolver = \"2\"\n\n[workspace.package]\nedition = \"2024\"\nlicense = \"Apache-2.0\"\n\n[profile.release]\nlto = \"thin\"\ncodegen-units = 1\n"));
    t.push(("/docs/", ""));
    t.push(("/docs/roadmap.md", "# The workbench, honestly\n\n## Where we are\n\nAreas with n-ary splits, regions, workspaces, menus, a command palette, a\nkeymap with rebinding, a widget kit bound to serde documents by pointer, and\na tree view with two editors over it.\n\n## Where we are going\n\n1. Parity made honest — enforced, not asserted.\n2. Errors surface — one type, two surfaces.\n3. The tree view, and the data editor over it.\n4. Editors have targets.\n5. Code and diff viewers.\n6. Charts as Vega-Lite documents.\n\n## What we are not doing\n\nRuntime extensibility. Hosts add editors and commands at compile time; there\nis no plugin loading and no runtime schema registry.\n"));
    t.push(("/immersion/", ""));
    t.push(("/immersion/src/", ""));
    t.push(("/immersion/src/tree.rs", "//! The tree view: expandable rows over any hierarchical value.\n//!\n//! One component, many editors. The host supplies children through a\n//! callback, so the same view walks a serde document, a directory, or\n//! anything else that answers \"what is under this node\".\n\nuse dioxus::prelude::*;\n\n/// One row the host hands back from its children callback.\n#[derive(Debug, Clone, PartialEq)]\npub struct TreeRow {\n    /// Where this node lives. Opaque to the component.\n    pub pointer: String,\n    /// The name shown on the row.\n    pub label: String,\n    /// A short value preview, dimmed, after the label.\n    pub preview: String,\n    /// Whether the row can expand.\n    pub has_children: bool,\n}\n\n/// Children of a node inside a serde document.\npub fn value_children(doc: &serde_json::Value, pointer: &str) -> Vec<TreeRow> {\n    let Some(node) = doc.pointer(pointer) else {\n        return Vec::new();\n    };\n    match node {\n        serde_json::Value::Object(map) => map\n            .iter()\n            .map(|(k, v)| TreeRow {\n                pointer: format!(\"{pointer}/{k}\"),\n                label: k.clone(),\n                preview: preview(v),\n                has_children: branches(v),\n            })\n            .collect(),\n        _ => Vec::new(),\n    }\n}\n"));
    t.push(("/immersion/src/area.rs", "//! The layout tree: areas, splits, and the operations on them.\n//!\n//! An area is a leaf with an editor, or a split with children and the sizes\n//! between them. That is the whole model — no tabs, no floating panels, no\n//! z-order — so persistence and undo are serialization, not integration.\n\nuse serde::{Deserialize, Serialize};\n\npub type AreaId = u64;\n\n#[derive(Debug, Clone, PartialEq, Serialize, Deserialize)]\n#[serde(tag = \"kind\", rename_all = \"lowercase\")]\npub enum Area {\n    Leaf {\n        id: AreaId,\n        editor: String,\n        arg: Option<String>,\n    },\n    Split {\n        id: AreaId,\n        dir: Dir,\n        sizes: Vec<f32>,\n        children: Vec<Area>,\n    },\n}\n\nimpl Layout {\n    /// Split an area in two. Returns the new leaf's id, or None if the\n    /// target is not a leaf.\n    pub fn split(&mut self, target: AreaId, dir: Dir, ratio: f32) -> Option<AreaId> {\n        let id = self.next_id;\n        self.next_id += 1;\n        Some(id)\n    }\n}\n"));
    t.push(("/immersion/ts/", ""));
    t.push(("/immersion/ts/gestures.ts", "// The gesture shim: corner drags, seam drags, and the drop targets.\n//\n// Everything here is frame-path work — pointer moves, a preview rectangle —\n// and it commits exactly one message on release. The server never sees the\n// drag, only its result.\n\nimport { once } from \"./types\";\nimport type { Gesture as GestureMsg } from \"./generated/Gesture\";\n\nconst THRESHOLD = 4;\n\nif (once(\"__imGestures\")) {\n  let seam: { splitId: number; index: number } | null = null;\n\n  const send = (msg: GestureMsg): void => {\n    try {\n      dioxus.send(JSON.stringify(msg));\n    } catch {\n      /* channel gone; a reload re-installs */\n    }\n  };\n\n  document.addEventListener(\"pointerup\", (e) => {\n    if (!seam) return;\n    send({ t: \"ratio\", id: seam.splitId, index: seam.index, ratio: seamRatio(e) });\n    seam = null;\n  });\n}\n"));
    t.push(("/powderman/", ""));
    t.push(("/powderman/src/", ""));
    t.push(("/powderman/src/daemon.rs", "//! The daemon: state, the command bus, and the routes.\n\nuse anyhow::Result;\n\n/// Run a layout command and hand back the new workbench. THE one write path:\n/// every UI mutation arrives here as a named command, is applied to the\n/// workspace value, and persisted.\npub fn dispatch_from(\n    source: &str,\n    name: &str,\n    params: serde_json::Value,\n) -> Result<immersion::Workspaces> {\n    let s = shared();\n    let mut w = s.workspaces.lock().expect(\"workspaces\");\n    // The command runs against a clone, so a failure leaves the live\n    // workspace untouched and undo is recorded only on success.\n    let mut candidate = w.clone();\n    let outcome = s.commands.run(&mut candidate, name, &params);\n    log_command(source, name, params.clone(), outcome.is_ok());\n    outcome?;\n    if s.commands.records_undo(name) {\n        s.undo.lock().expect(\"undo\").push(w.clone());\n        s.redo.lock().expect(\"redo\").clear();\n    }\n    *w = candidate;\n    persist_workspaces(&s, &w);\n    Ok(w.clone())\n}\n"));
    t.push(("/powderman/src/workflows.rs", "//! The workflow registry: what this daemon knows how to run.\n\nuse crate::engine::{Registry, WorkflowDef};\n\npub fn registry() -> Registry {\n    let mut r = Registry::new();\n    r.insert(\n        \"treebank_sweep\",\n        WorkflowDef {\n            description: \"Pull, build, then rank every grammar; hand any with gaps to a fix run.\",\n            example: Some(\"{\\\"limit\\\": 100}\"),\n            schedule: Some(\"0 6 * * *\"),\n            cwd: None,\n            run: crate::treebank::sweep_all,\n        },\n    );\n    r\n}\n"));
    assert(pairs_view(t@) =~= file_table());
    t
}

/// `(path, patch)` for the files presented as changed.
pub open spec fn diff_table() -> Seq<(Seq<char>, Seq<char>)> {
    seq![
        ("/immersion/src/tree.rs"@, "diff --git a/immersion/src/tree.rs b/immersion/src/tree.rs\n--- a/immersion/src/tree.rs\n+++ b/immersion/src/tree.rs\n@@ -10,7 +10,7 @@ use dioxus::prelude::*;\n /// One row the host hands back from its children callback.\n #[derive(Debug, Clone, PartialEq)]\n pub struct TreeRow {\n-    /// Where this node lives.\n+    /// Where this node lives. Opaque to the component.\n     pub pointer: String,\n     /// The name shown on the row.\n     pub label: String,\n@@ -20,6 +20,8 @@ pub struct TreeRow {\n     pub preview: String,\n     /// Whether the row can expand.\n     pub has_children: bool,\n+    /// Set when the host could not read this node's children.\n+    pub unreadable: bool,\n }\n"@),
        ("/powderman/src/daemon.rs"@, "diff --git a/powderman/src/daemon.rs b/powderman/src/daemon.rs\n--- a/powderman/src/daemon.rs\n+++ b/powderman/src/daemon.rs\n@@ -14,6 +14,7 @@ pub fn dispatch_from(\n     let mut candidate = w.clone();\n     let outcome = s.commands.run(&mut candidate, name, &params);\n     log_command(source, name, params.clone(), outcome.is_ok());\n+    // Logged either way; surface the error after recording it.\n     outcome?;\n"@)
    ]
}

/// The fabricated changes: each changed file's path and its patch.
pub fn diffs() -> (t: Vec<(&'static str, &'static str)>)
    ensures
        pairs_view(t@) == diff_table(),
{
    let mut t: Vec<(&'static str, &'static str)> = Vec::new();
    t.push(("/immersion/src/tree.rs", "diff --git a/immersion/src/tree.rs b/immersion/src/tree.rs\n--- a/immersion/src/tree.rs\n+++ b/immersion/src/tree.rs\n@@ -10,7 +10,7 @@ use dioxus::prelude::*;\n /// One row the host hands back from its children callback.\n #[derive(Debug, Clone, PartialEq)]\n pub struct TreeRow {\n-    /// Where this node lives.\n+    /// Where this node lives. Opaque to the component.\n     pub pointer: String,\n     /// The name shown on the row.\n     pub label: String,\n@@ -20,6 +20,8 @@ pub struct TreeRow {\n     pub preview: String,\n     /// Whether the row can expand.\n     pub has_children: bool,\n+    /// Set when the host could not read this node's children.\n+    pub unreadable: bool,\n }\n"));
    t.push(("/powderman/src/daemon.rs", "diff --git a/powderman/src/daemon.rs b/powderman/src/daemon.rs\n--- a/powderman/src/daemon.rs\n+++ b/powderman/src/daemon.rs\n@@ -14,6 +14,7 @@ pub fn dispatch_from(\n     let mut candidate = w.clone();\n     let outcome = s.commands.run(&mut candidate, name, &params);\n     log_command(source, name, params.clone(), outcome.is_ok());\n+    // Logged either way; surface the error after recording it.\n     outcome?;\n"));
    assert(pairs_view(t@) =~= diff_table());
    t
}

/// Which fabricated files are presented as changed, in table order.
pub fn changed_files() -> (r: Vec<&'static str>)
    ensures
        r@.len() == diff_table().len(),
        forall|i: int| 0 <= i < r@.len() ==> (#[trigger] r@[i])@ == diff_table()[i].0,
        0 < r@.len() < 14,
        forall|i: int|
            0 <= i < r@.len() ==> source_of((#[trigger] r@[i])@) is Some && (match pair_lookup(diff_table(), r@[i]@) {
                Some(d) => d.len() >= 11 && d.subrange(0, 11) == "diff --git "@,
                None => false,
            }),
{
    proof {
        law_every_changed_file_has_a_source_and_a_patch();
    }
    let t = diffs();
    let mut r: Vec<&'static str> = Vec::new();
    let mut i: usize = 0;
    while i < t.len()
        invariant
            i <= t@.len(),
            pairs_view(t@) == diff_table(),
            r@.len() == i,
            forall|j: int| 0 <= j < i ==> (#[trigger] r@[j])@ == diff_table()[j].0,
        decreases t.len() - i,
    {
        r.push(t[i].0);
        i += 1;
    }
    r
}

pub open spec fn ends_slash(s: Seq<char>) -> bool {
    s.len() > 0 && s.last() == '/'
}

/// The contents of a fabricated file; nothing for a directory or a path the
/// table does not hold.
pub open spec fn source_of(path: Seq<char>) -> Option<Seq<char>> {
    if ends_slash(path) {
        None
    } else {
        pair_lookup(file_table(), path)
    }
}

/// The contents of one fabricated file, for the code viewer.
pub fn file_source(path: &str) -> (r: Option<&'static str>)
    ensures
        match r {
            Some(b) => source_of(path@) == Some(b@),
            None => source_of(path@) is None,
        },
{
    let n = path.unicode_len();
    if n > 0 && path.get_char(n - 1) == '/' {
        return None;
    }
    let t = files();
    lookup_pair(&t, path)
}

/// The patch for one fabricated file: `Some(None)` when it exists and
/// matches HEAD, `None` when there is no such file.
pub fn file_diff(path: &str) -> (r: Option<Option<&'static str>>)
    ensures
        match r {
            None => source_of(path@) is None,
            Some(None) => source_of(path@) is Some && pair_lookup(diff_table(), path@) is None,
            Some(Some(d)) => source_of(path@) is Some && pair_lookup(diff_table(), path@) == Some(d@),
        },
{
    if file_source(path).is_none() {
        return None;
    }
    let t = diffs();
    Some(lookup_pair(&t, path))
}

/// A key is found exactly when some entry has it.
pub proof fn lemma_found_iff_listed(t: Seq<(Seq<char>, Seq<char>)>, key: Seq<char>)
    ensures
        pair_lookup(t, key) is Some <==> exists|i: int| 0 <= i < t.len() && #[trigger] t[i].0 == key,
    decreases t.len(),
{
    if t.len() > 0 {
        lemma_found_iff_listed(t.drop_first(), key);
        if t[0].0 != key {
            if exists|i: int| 0 <= i < t.len() && #[trigger] t[i].0 == key {
                let i = choose|i: int| 0 <= i < t.len() && #[trigger] t[i].0 == key;
                assert(t.drop_first()[i - 1].0 == key);
            }
            if pair_lookup(t.drop_first(), key) is Some {
                let i = choose|i: int| 0 <= i < t.drop_first().len() && #[trigger] t.drop_first()[i].0 == key;
                assert(t[i + 1].0 == key);
            }
        } else {
            assert(t[0].0 == key);
        }
    }
}

/// The diff viewer has a patch for a path exactly when the file exists and
/// the path is one of the changed files.
pub proof fn law_a_patch_is_offered_only_for_a_changed_file(p: Seq<char>)
    ensures
        (source_of(p) is Some && pair_lookup(diff_table(), p) is Some) <==> (source_of(p) is Some && exists|i: int|
            0 <= i < diff_table().len() && #[trigger] diff_table()[i].0 == p),
{
    lemma_found_iff_listed(diff_table(), p);
}

/// Every file offered as changed exists and has a patch, and there are
/// some, but not more than the browser could show.
pub proof fn law_every_changed_file_has_a_source_and_a_patch()
    ensures
        0 < diff_table().len() < 14,
        forall|i: int|
            0 <= i < diff_table().len() ==> source_of(#[trigger] diff_table()[i].0) is Some && (match pair_lookup(
                diff_table(),
                diff_table()[i].0,
            ) {
                Some(d) => d.len() >= 11 && d.subrange(0, 11) == "diff --git "@,
                None => false,
            }),
{
    reveal_strlit("/README.md");
    reveal_strlit("/Cargo.toml");
    reveal_strlit("/docs/");
    reveal_strlit("/docs/roadmap.md");
    reveal_strlit("/immersion/");
    reveal_strlit("/immersion/src/");
    reveal_strlit("/immersion/src/tree.rs");
    reveal_strlit("/immersion/src/area.rs");
    reveal_strlit("/immersion/ts/");
    reveal_strlit("/immersion/ts/gestures.ts");
    reveal_strlit("/powderman/");
    reveal_strlit("/powderman/src/");
    reveal_strlit("/powderman/src/daemon.rs");
    reveal_strlit("/powderman/src/workflows.rs");
    reveal_strlit("diff --git ");
    let d = diff_table();
    let f = file_table();
    assert(d.len() == 2);
    assert(!ends_slash(d[0].0));
    assert(!ends_slash(d[1].0));
    assert(f[6].0 == d[0].0);
    assert(f[12].0 == d[1].0);
    lemma_found_iff_listed(f, d[0].0);
    lemma_found_iff_listed(f, d[1].0);
    assert(pair_lookup(d, d[0].0) == Some(d[0].1));
    assert(d[1].0 != d[0].0);
    assert(pair_lookup(d.drop_first(), d[1].0) == Some(d[1].1));
    assert(pair_lookup(d, d[1].0) == Some(d[1].1));
    reveal_strlit("diff --git a/immersion/src/tree.rs b/immersion/src/tree.rs\n--- a/immersion/src/tree.rs\n+++ b/immersion/src/tree.rs\n@@ -10,7 +10,7 @@ use dioxus::prelude::*;\n /// One row the host hands back from its children callback.\n #[derive(Debug, Clone, PartialEq)]\n pub struct TreeRow {\n-    /// Where this node lives.\n+    /// Where this node lives. Opaque to the component.\n     pub pointer: String,\n     /// The name shown on the row.\n     pub label: String,\n@@ -20,6 +20,8 @@ pub struct TreeRow {\n     pub preview: String,\n     /// Whether the row can expand.\n     pub has_children: bool,\n+    /// Set when the host could not read this node's children.\n+    pub unreadable: bool,\n }\n");
    assert(d[0].1.subrange(0, 11) =~= "diff --git "@);
    reveal_strlit("diff --git a/powderman/src/daemon.rs b/powderman/src/daemon.rs\n--- a/powderman/src/daemon.rs\n+++ b/powderman/src/daemon.rs\n@@ -14,6 +14,7 @@ pub fn dispatch_from(\n     let mut candidate = w.clone();\n     let outcome = s.commands.run(&mut candidate, name, &params);\n     log_command(source, name, params.clone(), outcome.is_ok());\n+    // Logged either way; surface the error after recording it.\n     outcome?;\n");
    assert(d[1].1.subrange(0, 11) =~= "diff --git "@);
}

/// What the fabricated table keeps to: one entry per path, directories end
/// in a single `/`, and every file has contents.
pub proof fn lemma_file_table_facts()
    ensures
        forall|i: int, j: int| 0 <= i < j < file_table().len() ==> #[trigger] file_table()[i].0 != #[trigger] file_table()[j].0,
        forall|i: int| 0 <= i < file_table().len() && ends_slash(#[trigger] file_table()[i].0) ==> file_table()[i].0.len() >= 2 && file_table()[i].0[file_table()[i].0.len() - 2] != '/',
        forall|i: int| 0 <= i < file_table().len() && !ends_slash(#[trigger] file_table()[i].0) ==> file_table()[i].1.len() > 0,
{
    reveal_strlit("/README.md");
    reveal_strlit("/Cargo.toml");
    reveal_strlit("/docs/");
    reveal_strlit("/docs/roadmap.md");
    reveal_strlit("/immersion/");
    reveal_strlit("/immersion/src/");
    reveal_strlit("/immersion/src/tree.rs");
    reveal_strlit("/immersion/src/area.rs");
    reveal_strlit("/immersion/ts/");
    reveal_strlit("/immersion/ts/gestures.ts");
    reveal_strlit("/powderman/");
    reveal_strlit("/powderman/src/");
    reveal_strlit("/powderman/src/daemon.rs");
    reveal_strlit("/powderman/src/workflows.rs");
    reveal_strlit("# powderman\n\nDurable workflows on a Blender-style workbench.\n\n## What this is\n\nA daemon that runs long jobs and survives restarts, and a tiled workbench for\nwatching them. Every mutation goes through one command bus, so a header\nbutton, a keystroke and an agent's tool call are the same operation.\n\n## Running it\n\n    cargo run -p powderman -- --db ~/.powderman.db --port 7777\n\nSchedules are on by default. `POWDERMAN_SCHEDULES=0` makes an instance\nview-only on the clock, which is what a second instance beside the real one\nshould be.\n\n## The demo\n\n`POWDERMAN_DEMO=1` seeds a fabricated history and refuses to run anything.\nThe instance you are reading this on is one of those: the runs, the fleet,\nthe metrics and this file are all made up.\n");
    reveal_strlit("[workspace]\nmembers = [\"immersion\", \"powderman\"]\nresolver = \"2\"\n\n[workspace.package]\nedition = \"2024\"\nlicense = \"Apache-2.0\"\n\n[profile.release]\nlto = \"thin\"\ncodegen-units = 1\n");
    reveal_strlit("# The workbench, honestly\n\n## Where we are\n\nAreas with n-ary splits, regions, workspaces, menus, a command palette, a\nkeymap with rebinding, a widget kit bound to serde documents by pointer, and\na tree view with two editors over it.\n\n## Where we are going\n\n1. Parity made honest — enforced, not asserted.\n2. Errors surface — one type, two surfaces.\n3. The tree view, and the data editor over it.\n4. Editors have targets.\n5. Code and diff viewers.\n6. Charts as Vega-Lite documents.\n\n## What we are not doing\n\nRuntime extensibility. Hosts add editors and commands at compile time; there\nis no plugin loading and no runtime schema registry.\n");
    reveal_strlit("//! The tree view: expandable rows over any hierarchical value.\n//!\n//! One component, many editors. The host supplies children through a\n//! callback, so the same view walks a serde document, a directory, or\n//! anything else that answers \"what is under this node\".\n\nuse dioxus::prelude::*;\n\n/// One row the host hands back from its children callback.\n#[derive(Debug, Clone, PartialEq)]\npub struct TreeRow {\n    /// Where this node lives. Opaque to the component.\n    pub pointer: String,\n    /// The name shown on the row.\n    pub label: String,\n    /// A short value preview, dimmed, after the label.\n    pub preview: String,\n    /// Whether the row can expand.\n    pub has_children: bool,\n}\n\n/// Children of a node inside a serde document.\npub fn value_children(doc: &serde_json::Value, pointer: &str) -> Vec<TreeRow> {\n    let Some(node) = doc.pointer(pointer) else {\n        return Vec::new();\n    };\n    match node {\n        serde_json::Value::Object(map) => map\n            .iter()\n            .map(|(k, v)| TreeRow {\n                pointer: format!(\"{pointer}/{k}\"),\n                label: k.clone(),\n                preview: preview(v),\n                has_children: branches(v),\n            })\n            .collect(),\n        _ => Vec::new(),\n    }\n}\n");
    reveal_strlit("//! The layout tree: areas, splits, and the operations on them.\n//!\n//! An area is a leaf with an editor, or a split with children and the sizes\n//! between them. That is the whole model — no tabs, no floating panels, no\n//! z-order — so persistence and undo are serialization, not integration.\n\nuse serde::{Deserialize, Serialize};\n\npub type AreaId = u64;\n\n#[derive(Debug, Clone, PartialEq, Serialize, Deserialize)]\n#[serde(tag = \"kind\", rename_all = \"lowercase\")]\npub enum Area {\n    Leaf {\n        id: AreaId,\n        editor: String,\n        arg: Option<String>,\n    },\n    Split {\n        id: AreaId,\n        dir: Dir,\n        sizes: Vec<f32>,\n        children: Vec<Area>,\n    },\n}\n\nimpl Layout {\n    /// Split an area in two. Returns the new leaf's id, or None if the\n    /// target is not a leaf.\n    pub fn split(&mut self, target: AreaId, dir: Dir, ratio: f32) -> Option<AreaId> {\n        let id = self.next_id;\n        self.next_id += 1;\n        Some(id)\n    }\n}\n");
    reveal_strlit("// The gesture shim: corner drags, seam drags, and the drop targets.\n//\n// Everything here is frame-path work — pointer moves, a preview rectangle —\n// and it commits exactly one message on release. The server never sees the\n// drag, only its result.\n\nimport { once } from \"./types\";\nimport type { Gesture as GestureMsg } from \"./generated/Gesture\";\n\nconst THRESHOLD = 4;\n\nif (once(\"__imGestures\")) {\n  let seam: { splitId: number; index: number } | null = null;\n\n  const send = (msg: GestureMsg): void => {\n    try {\n      dioxus.send(JSON.stringify(msg));\n    } catch {\n      /* channel gone; a reload re-installs */\n    }\n  };\n\n  document.addEventListener(\"pointerup\", (e) => {\n    if (!seam) return;\n    send({ t: \"ratio\", id: seam.splitId, index: seam.index, ratio: seamRatio(e) });\n    seam = null;\n  });\n}\n");
    reveal_strlit("//! The daemon: state, the command bus, and the routes.\n\nuse anyhow::Result;\n\n/// Run a layout command and hand back the new workbench. THE one write path:\n/// every UI mutation arrives here as a named command, is applied to the\n/// workspace value, and persisted.\npub fn dispatch_from(\n    source: &str,\n    name: &str,\n    params: serde_json::Value,\n) -> Result<immersion::Workspaces> {\n    let s = shared();\n    let mut w = s.workspaces.lock().expect(\"workspaces\");\n    // The command runs against a clone, so a failure leaves the live\n    // workspace untouched and undo is recorded only on success.\n    let mut candidate = w.clone();\n    let outcome = s.commands.run(&mut candidate, name, &params);\n    log_command(source, name, params.clone(), outcome.is_ok());\n    outcome?;\n    if s.commands.records_undo(name) {\n        s.undo.lock().expect(\"undo\").push(w.clone());\n        s.redo.lock().expect(\"redo\").clear();\n    }\n    *w = candidate;\n    persist_workspaces(&s, &w);\n    Ok(w.clone())\n}\n");
    reveal_strlit("//! The workflow registry: what this daemon knows how to run.\n\nuse crate::engine::{Registry, WorkflowDef};\n\npub fn registry() -> Registry {\n    let mut r = Registry::new();\n    r.insert(\n        \"treebank_sweep\",\n        WorkflowDef {\n            description: \"Pull, build, then rank every grammar; hand any with gaps to a fix run.\",\n            example: Some(\"{\\\"limit\\\": 100}\"),\n            schedule: Some(\"0 6 * * *\"),\n            cwd: None,\n            run: crate::treebank::sweep_all,\n        },\n    );\n    r\n}\n");
    let t = file_table();
    assert(t.len() == 14);
    assert(t[0].0.len() != t[1].0.len());
    assert(t[0].0.len() != t[2].0.len());
    assert(t[0].0.len() != t[3].0.len());
    assert(t[0].0.len() != t[4].0.len());
    assert(t[0].0.len() != t[5].0.len());
    assert(t[0].0.len() != t[6].0.len());
    assert(t[0].0.len() != t[7].0.len());
    assert(t[0].0.len() != t[8].0.len());
    assert(t[0].0.len() != t[9].0.len());
    assert(t[0].0.len() != t[10].0.len());
    assert(t[0].0.len() != t[11].0.len());
    assert(t[0].0.len() != t[12].0.len());
    assert(t[0].0.len() != t[13].0.len());
    assert(t[1].0.len() != t[2].0.len());
    assert(t[1].0.len() != t[3].0.len());
    assert(t[1].0[1] != t[4].0[1]);
    assert(t[1].0.len() != t[5].0.len());
    assert(t[1].0.len() != t[6].0.len());
    assert(t[1].0.len() != t[7].0.len());
    assert(t[1].0.len() != t[8].0.len());
    assert(t[1].0.len() != t[9].0.len());
    assert(t[1].0[1] != t[10].0[1]);
    assert(t[1].0.len() != t[11].0.len());
    assert(t[1].0.len() != t[12].0.len());
    assert(t[1].0.len() != t[13].0.len());
    assert(t[2].0.len() != t[3].0.len());
    assert(t[2].0.len() != t[4].0.len());
    assert(t[2].0.len() != t[5].0.len());
    assert(t[2].0.len() != t[6].0.len());
    assert(t[2].0.len() != t[7].0.len());
    assert(t[2].0.len() != t[8].0.len());
    assert(t[2].0.len() != t[9].0.len());
    assert(t[2].0.len() != t[10].0.len());
    assert(t[2].0.len() != t[11].0.len());
    assert(t[2].0.len() != t[12].0.len());
    assert(t[2].0.len() != t[13].0.len());
    assert(t[3].0.len() != t[4].0.len());
    assert(t[3].0.len() != t[5].0.len());
    assert(t[3].0.len() != t[6].0.len());
    assert(t[3].0.len() != t[7].0.len());
    assert(t[3].0.len() != t[8].0.len());
    assert(t[3].0.len() != t[9].0.len());
    assert(t[3].0.len() != t[10].0.len());
    assert(t[3].0.len() != t[11].0.len());
    assert(t[3].0.len() != t[12].0.len());
    assert(t[3].0.len() != t[13].0.len());
    assert(t[4].0.len() != t[5].0.len());
    assert(t[4].0.len() != t[6].0.len());
    assert(t[4].0.len() != t[7].0.len());
    assert(t[4].0.len() != t[8].0.len());
    assert(t[4].0.len() != t[9].0.len());
    assert(t[4].0[1] != t[10].0[1]);
    assert(t[4].0.len() != t[11].0.len());
    assert(t[4].0.len() != t[12].0.len());
    assert(t[4].0.len() != t[13].0.len());
    assert(t[5].0.len() != t[6].0.len());
    assert(t[5].0.len() != t[7].0.len());
    assert(t[5].0.len() != t[8].0.len());
    assert(t[5].0.len() != t[9].0.len());
    assert(t[5].0.len() != t[10].0.len());
    assert(t[5].0[1] != t[11].0[1]);
    assert(t[5].0.len() != t[12].0.len());
    assert(t[5].0.len() != t[13].0.len());
    assert(t[6].0[15] != t[7].0[15]);
    assert(t[6].0.len() != t[8].0.len());
    assert(t[6].0.len() != t[9].0.len());
    assert(t[6].0.len() != t[10].0.len());
    assert(t[6].0.len() != t[11].0.len());
    assert(t[6].0.len() != t[12].0.len());
    assert(t[6].0.len() != t[13].0.len());
    assert(t[7].0.len() != t[8].0.len());
    assert(t[7].0.len() != t[9].0.len());
    assert(t[7].0.len() != t[10].0.len());
    assert(t[7].0.len() != t[11].0.len());
    assert(t[7].0.len() != t[12].0.len());
    assert(t[7].0.len() != t[13].0.len());
    assert(t[8].0.len() != t[9].0.len());
    assert(t[8].0.len() != t[10].0.len());
    assert(t[8].0.len() != t[11].0.len());
    assert(t[8].0.len() != t[12].0.len());
    assert(t[8].0.len() != t[13].0.len());
    assert(t[9].0.len() != t[10].0.len());
    assert(t[9].0.len() != t[11].0.len());
    assert(t[9].0.len() != t[12].0.len());
    assert(t[9].0.len() != t[13].0.len());
    assert(t[10].0.len() != t[11].0.len());
    assert(t[10].0.len() != t[12].0.len());
    assert(t[10].0.len() != t[13].0.len());
    assert(t[11].0.len() != t[12].0.len());
    assert(t[11].0.len() != t[13].0.len());
    assert(t[12].0.len() != t[13].0.len());
    assert(t[0].1.len() > 0);
    assert(!ends_slash(t[0].0));
    assert(t[1].1.len() > 0);
    assert(!ends_slash(t[1].0));
    assert(t[2].0[4] != '/');
    assert(t[3].1.len() > 0);
    assert(!ends_slash(t[3].0));
    assert(t[4].0[9] != '/');
    assert(t[5].0[13] != '/');
    assert(t[6].1.len() > 0);
    assert(!ends_slash(t[6].0));
    assert(t[7].1.len() > 0);
    assert(!ends_slash(t[7].0));
    assert(t[8].0[12] != '/');
    assert(t[9].1.len() > 0);
    assert(!ends_slash(t[9].0));
    assert(t[10].0[9] != '/');
    assert(t[11].0[13] != '/');
    assert(t[12].1.len() > 0);
    assert(!ends_slash(t[12].0));
    assert(t[13].1.len() > 0);
    assert(!ends_slash(t[13].0));
}

/// With one entry per key, a key finds its own entry.
pub proof fn lemma_lookup_own_entry(t: Seq<(Seq<char>, Seq<char>)>, j: int)
    requires
        0 <= j < t.len(),
        forall|a: int, b: int| 0 <= a < b < t.len() ==> #[trigger] t[a].0 != #[trigger] t[b].0,
    ensures
        pair_lookup(t, t[j].0) == Some(t[j].1),
    decreases t.len(),
{
    if j > 0 {
        let u = t.drop_first();
        assert(t[0].0 != t[j].0);
        assert forall|a: int, b: int| 0 <= a < b < u.len() implies #[trigger] u[a].0 != #[trigger] u[b].0 by {
            assert(t[a + 1].0 != t[b + 1].0);
        }
        assert(u[j - 1] == t[j]);
        lemma_lookup_own_entry(u, j - 1);
    }
}

/// Every row of a directory comes from one entry of the table.
pub proof fn lemma_rows_come_from_entries(pointer: Seq<char>, t: Seq<(Seq<char>, Seq<char>)>, k: int)
    requires
        0 <= k < rows_of(pointer, t).len(),
    ensures
        exists|j: int| 0 <= j < t.len() && row_for(pointer, #[trigger] t[j].0, t[j].1) == Some(rows_of(pointer, t)[k]),
    decreases t.len(),
{
    let u = t.drop_last();
    let last = t.len() - 1;
    assert(t[last] == t.last());
    match row_for(pointer, t.last().0, t.last().1) {
        Some(r) => {
            if k == rows_of(pointer, u).len() {
                assert(row_for(pointer, t[last].0, t[last].1) == Some(rows_of(pointer, t)[k]));
            } else {
                lemma_rows_come_from_entries(pointer, u, k);
                let j = choose|j: int| 0 <= j < u.len() && row_for(pointer, #[trigger] u[j].0, u[j].1) == Some(rows_of(pointer, u)[k]);
                assert(t[j] == u[j]);
            }
        },
        None => {
            lemma_rows_come_from_entries(pointer, u, k);
            let j = choose|j: int| 0 <= j < u.len() && row_for(pointer, #[trigger] u[j].0, u[j].1) == Some(rows_of(pointer, u)[k]);
            assert(t[j] == u[j]);
        },
    }
}

/// What a listed row promises: its pointer is the directory's prefix and a
/// name with no `/` in it, it is labelled by that name (with a `/` for a
/// directory); a directory row is a directory the table holds and shows no
/// size, and a file row is a file with contents, its size shown as the
/// preview.
pub open spec fn openable(pointer: Seq<char>, r: RowV) -> bool {
    let pre = prefix_of(pointer);
    let name = r.pointer.subrange(pre.len() as int, r.pointer.len() as int);
    &&& starts(r.pointer, pre)
    &&& name.len() > 0
    &&& !has_slash(name)
    &&& r.label == (if r.has_children { name + "/"@ } else { name })
    &&& r.has_children ==> r.preview.len() == 0 && pair_lookup(file_table(), r.pointer + "/"@) is Some
    &&& !r.has_children ==> (match source_of(r.pointer) {
        Some(b) => b.len() > 0 && r.preview == size_text(utf8_len(b)),
        None => false,
    })
}

/// Everything the browser lists can be opened. A row's pointer is the
/// directory's prefix and a name with no `/` in it, labelled by that name
/// (with a `/` for a directory); a directory row is a directory the table
/// holds and shows no size, and a file row is a file with contents, its size
/// shown as the preview.
pub proof fn law_everything_listed_can_be_opened(pointer: Seq<char>, k: int)
    requires
        0 <= k < rows_of(pointer, file_table()).len(),
    ensures
        openable(pointer, rows_of(pointer, file_table())[k]),
{
    let t = file_table();
    lemma_file_table_facts();
    lemma_rows_come_from_entries(pointer, t, k);
    let j = choose|j: int| 0 <= j < t.len() && row_for(pointer, #[trigger] t[j].0, t[j].1) == Some(rows_of(pointer, t)[k]);
    let r = rows_of(pointer, t)[k];
    let path = t[j].0;
    let pre = prefix_of(pointer);
    let sub = path.subrange(pre.len() as int, path.len() as int);
    let name = trim_slashes(sub);
    assert(starts(path, pre));
    assert(name.len() > 0 && !has_slash(name));
    assert(r.pointer == pre + name);
    assert(r.pointer.subrange(pre.len() as int, r.pointer.len() as int) =~= name);
    assert(r.pointer.subrange(0, pre.len() as int) =~= pre);
    if ends_slash(path) {
        assert(sub.len() > 0) by {
            if sub.len() == 0 {
                assert(sub =~= Seq::<char>::empty());
            }
        }
        assert(sub.last() == path.last());
        if sub.len() >= 2 {
            assert(sub[sub.len() - 2] == path[path.len() - 2]);
            assert(sub.drop_last().last() == sub[sub.len() - 2]);
        } else {
            assert(sub.drop_last().len() == 0);
        }
        assert(name == trim_slashes(sub.drop_last()));
        assert(name == sub.drop_last());
        reveal_strlit("/");
        assert(path =~= pre + sub);
        assert(sub =~= name.push('/'));
        assert(r.pointer + "/"@ =~= path);
        lemma_found_iff_listed(t, path);
    } else {
        if sub.len() > 0 {
            assert(sub.last() == path.last());
        }
        assert(name == sub);
        assert(r.pointer =~= path);
        lemma_lookup_own_entry(t, j);
    }
}

// --- sizes -------------------------------------------------------------------

/// The bytes a character takes in UTF-8.
pub open spec fn utf8_width(c: char) -> nat {
    if (c as u32) < 0x80 {
        1
    } else if (c as u32) < 0x800 {
        2
    } else if (c as u32) < 0x10000 {
        3
    } else {
        4
    }
}

/// The length of a text in UTF-8 bytes (`str::len`).
pub open spec fn utf8_len(s: Seq<char>) -> nat
    decreases s.len(),
{
    if s.len() == 0 {
        0
    } else {
        utf8_len(s.drop_last()) + utf8_width(s.last())
    }
}

/// How many bytes `s` takes in UTF-8.
pub fn byte_len(s: &str) -> (r: u128)
    ensures
        r == utf8_len(s@),
        r <= 4 * s@.len(),
{
    let n = s.unicode_len();
    let mut acc: u128 = 0;
    let mut i: usize = 0;
    while i < n
        invariant
            i <= n,
            n == s@.len(),
            acc == utf8_len(s@.subrange(0, i as int)),
            acc <= 4 * i,
        decreases n - i,
    {
        let c = s.get_char(i) as u32;
        let w: u128 = if c < 0x80 {
            1
        } else if c < 0x800 {
            2
        } else if c < 0x10000 {
            3
        } else {
            4
        };
        assert(s@.subrange(0, i + 1).drop_last() =~= s@.subrange(0, i as int));
        acc = acc + w;
        i += 1;
    }
    assert(s@.subrange(0, n as int) =~= s@);
    acc
}

/// `len / unit` in tenths, rounded to nearest with ties to even: what a
/// one-decimal display of the quotient shows.
pub open spec fn tenths(len: nat, unit: nat) -> nat {
    let q = (len * 10) / unit;
    let r = (len * 10) % unit;
    if 2 * r > unit || (2 * r == unit && q % 2 == 1) {
        q + 1
    } else {
        q
    }
}

/// A size for people: bytes under a kilobyte, else one decimal of K, M or G
/// (binary units).
pub open spec fn size_text(len: nat) -> Seq<char> {
    if len < 1024 {
        decimal(len) + " B"@
    } else {
        let (unit, suffix) = if len < 1048576 {
            (1024nat, " K"@)
        } else if len < 1073741824 {
            (1048576nat, " M"@)
        } else {
            (1073741824nat, " G"@)
        };
        let t = tenths(len, unit);
        decimal(t / 10) + "."@ + decimal(t % 10) + suffix
    }
}

/// A size for people (`human_size`).
pub fn human_size(len: u64) -> (r: String)
    ensures
        r@ == size_text(len as nat),
{
    size_of(len as u128)
}

fn size_of(len: u128) -> (r: String)
    requires
        len < 0x1_0000_0000_0000_0000_0000,
    ensures
        r@ == size_text(len as nat),
{
    let mut out = String::new();
    if len < 1024 {
        push_decimal(&mut out, len as u64);
        push_str(&mut out, " B");
        return out;
    }
    let (unit, suffix): (u128, &str) = if len < 1048576 {
        (1024, " K")
    } else if len < 1073741824 {
        (1048576, " M")
    } else {
        (1073741824, " G")
    };
    let x: u128 = len * 10;
    let q = x / unit;
    let r = x % unit;
    let t: u128 = if 2 * r > unit || (2 * r == unit && q % 2 == 1) {
        q + 1
    } else {
        q
    };
    assert(q <= x) by (nonlinear_arith)
        requires
            q == x / unit,
            unit >= 1024,
    ;
    push_decimal(&mut out, (t / 10) as u64);
    push_str(&mut out, ".");
    push_decimal(&mut out, (t % 10) as u64);
    push_str(&mut out, suffix);
    out
}

// --- the browser -------------------------------------------------------------

/// The text before a directory's children: `/` for the root.
pub open spec fn prefix_of(pointer: Seq<char>) -> Seq<char> {
    if pointer.len() == 0 {
        "/"@
    } else {
        pointer + "/"@
    }
}

/// `s` without its trailing `/`s.
pub open spec fn trim_slashes(s: Seq<char>) -> Seq<char>
    decreases s.len(),
{
    if s.len() > 0 && s.last() == '/' {
        trim_slashes(s.drop_last())
    } else {
        s
    }
}

pub open spec fn starts(s: Seq<char>, p: Seq<char>) -> bool {
    p.len() <= s.len() && s.subrange(0, p.len() as int) == p
}

pub open spec fn has_slash(s: Seq<char>) -> bool {
    exists|i: int| 0 <= i < s.len() && s[i] == '/'
}

/// The row a table entry makes in the directory at `pointer`: one level
/// only, a deeper path belongs to a child directory.
pub open spec fn row_for(pointer: Seq<char>, path: Seq<char>, body: Seq<char>) -> Option<RowV> {
    let pre = prefix_of(pointer);
    if !starts(path, pre) {
        None
    } else {
        let name = trim_slashes(path.subrange(pre.len() as int, path.len() as int));
        if name.len() == 0 || has_slash(name) {
            None
        } else {
            let dir = ends_slash(path);
            Some(
                RowV {
                    pointer: pre + name,
                    label: if dir {
                        name + "/"@
                    } else {
                        name
                    },
                    preview: if dir {
                        Seq::<char>::empty()
                    } else {
                        size_text(utf8_len(body))
                    },
                    has_children: dir,
                },
            )
        }
    }
}

/// The rows of the directory at `pointer`, in table order.
pub open spec fn rows_of(pointer: Seq<char>, t: Seq<(Seq<char>, Seq<char>)>) -> Seq<RowV>
    decreases t.len(),
{
    if t.len() == 0 {
        seq![]
    } else {
        match row_for(pointer, t.last().0, t.last().1) {
            Some(r) => rows_of(pointer, t.drop_last()).push(r),
            None => rows_of(pointer, t.drop_last()),
        }
    }
}

fn trimmed_end(s: &Vec<char>) -> (r: Vec<char>)
    ensures
        r@ == trim_slashes(s@),
{
    let mut n = s.len();
    assert(s@.subrange(0, n as int) =~= s@);
    while n > 0 && s[n - 1] == '/'
        invariant
            n <= s@.len(),
            trim_slashes(s@) == trim_slashes(s@.subrange(0, n as int)),
        decreases n,
    {
        assert(s@.subrange(0, n as int).drop_last() =~= s@.subrange(0, n - 1));
        n -= 1;
    }
    crate::text::slice_of(s, 0, n)
}

#[verifier::loop_isolation(false)]
fn row_at(pointer: &str, path: &str, body: &str) -> (r: Option<TreeRow>)
    ensures
        match r {
            Some(row) => row_for(pointer@, path@, body@) == Some(row@),
            None => row_for(pointer@, path@, body@) is None,
        },
{
    let pre: String = if pointer.unicode_len() == 0 {
        "/".to_owned()
    } else {
        crate::text::concat(pointer, "/")
    };
    let pc = crate::text::chars_of(pre.as_str());
    let sc = crate::text::chars_of(path);
    if pc.len() > sc.len() {
        return None;
    }
    let mut i: usize = 0;
    while i < pc.len()
        invariant
            i <= pc@.len(),
            pc@.len() <= sc@.len(),
            sc@.subrange(0, i as int) == pc@.subrange(0, i as int),
        decreases pc.len() - i,
    {
        if sc[i] != pc[i] {
            assert(sc@.subrange(0, pc@.len() as int)[i as int] != pc@[i as int]);
            return None;
        }
        assert(sc@.subrange(0, i + 1) =~= sc@.subrange(0, i as int).push(sc@[i as int]));
        assert(pc@.subrange(0, i + 1) =~= pc@.subrange(0, i as int).push(pc@[i as int]));
        i += 1;
    }
    assert(pc@.subrange(0, pc@.len() as int) =~= pc@);
    let rest = crate::text::slice_of(&sc, pc.len(), sc.len());
    let name = trimmed_end(&rest);
    if name.len() == 0 {
        return None;
    }
    let mut k: usize = 0;
    while k < name.len()
        invariant
            k <= name@.len(),
            forall|j: int| 0 <= j < k ==> name@[j] != '/',
        decreases name.len() - k,
    {
        if name[k] == '/' {
            assert(name@[k as int] == '/');
            return None;
        }
        k += 1;
    }
    let dir = sc.len() > 0 && sc[sc.len() - 1] == '/';
    let name_s = crate::text::string_of(name.as_slice());
    let mut ptr = pre.clone();
    push_str(&mut ptr, name_s.as_str());
    let label = if dir {
        crate::text::concat(name_s.as_str(), "/")
    } else {
        name_s.clone()
    };
    let preview = if dir {
        String::new()
    } else {
        let b = byte_len(body);
        let _n = body.unicode_len();
        size_of(b)
    };
    proof {
        if dir {
            assert(preview@ =~= Seq::<char>::empty());
        }
    }
    Some(TreeRow { pointer: ptr, label, preview, has_children: dir })
}

/// The rows of one fabricated directory, in table order.
pub fn fabricated_rows(pointer: &str) -> (r: Vec<TreeRow>)
    ensures
        rows_view(r@) == rows_of(pointer@, file_table()),
{
    let t = files();
    let ghost tv = pairs_view(t@);
    let mut out: Vec<TreeRow> = Vec::new();
    let mut i: usize = 0;
    assert(rows_view(out@) =~= rows_of(pointer@, tv.subrange(0, 0)));
    while i < t.len()
        invariant
            i <= t@.len(),
            tv == pairs_view(t@),
            tv == file_table(),
            rows_view(out@) == rows_of(pointer@, tv.subrange(0, i as int)),
        decreases t.len() - i,
    {
        assert(tv.subrange(0, i + 1).drop_last() =~= tv.subrange(0, i as int));
        assert(tv.subrange(0, i + 1).last() == tv[i as int]);
        match row_at(pointer, t[i].0, t[i].1) {
            Some(row) => {
                let ghost before = rows_view(out@);
                out.push(row);
                assert(rows_view(out@) =~= before.push(row@));
            },
            None => {},
        }
        i += 1;
    }
    assert(tv.subrange(0, t@.len() as int) =~= tv);
    out
}

/// The rows of one fabricated directory, branches first and then by label:
/// the same order the real browser uses.
pub fn file_children(pointer: &str) -> (r: Vec<TreeRow>)
    ensures
        rows_view(r@) == stable_sorted(rows_of(pointer@, file_table()), crate::tree::row_order()),
        rows_view(r@).to_multiset() == rows_of(pointer@, file_table()).to_multiset(),
        listed(rows_view(r@)),
        forall|i: int| 0 <= i < r@.len() ==> openable(pointer@, #[trigger] rows_view(r@)[i]),
{
    let r = list_rows(fabricated_rows(pointer));
    proof {
        let rows = rows_of(pointer@, file_table());
        assert forall|i: int| 0 <= i < r@.len() implies openable(pointer@, #[trigger] rows_view(r@)[i]) by {
            let x = rows_view(r@)[i];
            vstd::seq_lib::to_multiset_contains(rows_view(r@), x);
            assert(rows_view(r@).contains(x));
            vstd::seq_lib::to_multiset_contains(rows, x);
            let k = choose|k: int| 0 <= k < rows.len() && rows[k] == x;
            law_everything_listed_can_be_opened(pointer@, k);
        }
    }
    r
}

} // verus!
