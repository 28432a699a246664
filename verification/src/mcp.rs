//! The agent-facing tools: their arguments and the command each one runs.
//!
//! Every layout command is a typed tool an agent discovers; each tool's
//! arguments become the parameter document of the command it runs through
//! the same bus a keypress reaches, so an agent's call and a click land on
//! one write path with one undo history.

use vstd::prelude::*;

use crate::json::{Json, JsonV, Member, Number};

verus! {

/// A JSON integer, as a parser classifies it.
pub open spec fn delta_json(d: i64) -> JsonV {
    if d >= 0 {
        JsonV::Num(Number::PosInt(d as u64))
    } else {
        JsonV::Num(Number::NegInt(d))
    }
}

pub(crate) fn delta_value(d: i64) -> (j: Json)
    ensures
        j@ == delta_json(d),
{
    if d >= 0 {
        Json::Num(Number::PosInt(d as u64))
    } else {
        Json::Num(Number::NegInt(d))
    }
}

/// Point every unpinned area of a kind at one thing.
pub struct SelectArgs {
    pub kind: String,
    pub value: String,
    pub mode: Option<String>,
}

impl SelectArgs {
    /// The parameters of the `select` command this tool runs.
    pub open spec fn params_spec(&self) -> JsonV {
        JsonV::Object(seq![("kind"@, JsonV::Str(self.kind@)), ("mode"@, JsonV::Str(match self.mode { Some(m) => m@, None => "replace"@ })), ("value"@, JsonV::Str(self.value@))])
    }

    /// The parameter document (`params_spec`).
    pub fn params(&self) -> (p: Json)
        ensures
            p@ == self.params_spec(),
    {
        let mut ms: Vec<Member> = Vec::new();
        ms.push(Member { key: "kind".to_owned(), value: Json::Str(self.kind.clone()) });
        ms.push(Member { key: "mode".to_owned(), value: Json::Str(match &self.mode { Some(m) => m.clone(), None => "replace".to_owned() }) });
        ms.push(Member { key: "value".to_owned(), value: Json::Str(self.value.clone()) });
        let p = Json::Object(ms);
        proof {
            crate::json::lemma_members_of(ms@);
            assert(crate::json::members_of(ms@) =~= seq![("kind"@, JsonV::Str(self.kind@)), ("mode"@, JsonV::Str(match self.mode { Some(m) => m@, None => "replace"@ })), ("value"@, JsonV::Str(self.value@))]);
        }
        p
    }
}

/// Freeze an area on what it shows, or let it follow again.
pub struct PinArgs {
    pub id: u64,
    pub pinned: bool,
}

impl PinArgs {
    /// The parameters of the `set_pinned` command this tool runs.
    pub open spec fn params_spec(&self) -> JsonV {
        JsonV::Object(seq![("id"@, JsonV::Num(Number::PosInt(self.id))), ("pinned"@, JsonV::Bool(self.pinned))])
    }

    /// The parameter document (`params_spec`).
    pub fn params(&self) -> (p: Json)
        ensures
            p@ == self.params_spec(),
    {
        let mut ms: Vec<Member> = Vec::new();
        ms.push(Member { key: "id".to_owned(), value: Json::Num(Number::PosInt(self.id)) });
        ms.push(Member { key: "pinned".to_owned(), value: Json::Bool(self.pinned) });
        let p = Json::Object(ms);
        proof {
            crate::json::lemma_members_of(ms@);
            assert(crate::json::members_of(ms@) =~= seq![("id"@, JsonV::Num(Number::PosInt(self.id))), ("pinned"@, JsonV::Bool(self.pinned))]);
        }
        p
    }
}

/// An area by id.
pub struct IdArgs {
    pub id: u64,
}

impl IdArgs {
    /// The parameters of the `join` command this tool runs.
    pub open spec fn params_spec(&self) -> JsonV {
        JsonV::Object(seq![("id"@, JsonV::Num(Number::PosInt(self.id)))])
    }

    /// The parameter document (`params_spec`).
    pub fn params(&self) -> (p: Json)
        ensures
            p@ == self.params_spec(),
    {
        let mut ms: Vec<Member> = Vec::new();
        ms.push(Member { key: "id".to_owned(), value: Json::Num(Number::PosInt(self.id)) });
        let p = Json::Object(ms);
        proof {
            crate::json::lemma_members_of(ms@);
            assert(crate::json::members_of(ms@) =~= seq![("id"@, JsonV::Num(Number::PosInt(self.id)))]);
        }
        p
    }
}

/// The area that stays and the one that closes.
pub struct JoinIntoArgs {
    pub survivor: u64,
    pub victim: u64,
}

impl JoinIntoArgs {
    /// The parameters of the `join_into` command this tool runs.
    pub open spec fn params_spec(&self) -> JsonV {
        JsonV::Object(seq![("survivor"@, JsonV::Num(Number::PosInt(self.survivor))), ("victim"@, JsonV::Num(Number::PosInt(self.victim)))])
    }

    /// The parameter document (`params_spec`).
    pub fn params(&self) -> (p: Json)
        ensures
            p@ == self.params_spec(),
    {
        let mut ms: Vec<Member> = Vec::new();
        ms.push(Member { key: "survivor".to_owned(), value: Json::Num(Number::PosInt(self.survivor)) });
        ms.push(Member { key: "victim".to_owned(), value: Json::Num(Number::PosInt(self.victim)) });
        let p = Json::Object(ms);
        proof {
            crate::json::lemma_members_of(ms@);
            assert(crate::json::members_of(ms@) =~= seq![("survivor"@, JsonV::Num(Number::PosInt(self.survivor))), ("victim"@, JsonV::Num(Number::PosInt(self.victim)))]);
        }
        p
    }
}

/// An area and the editor it should show.
pub struct SetEditorArgs {
    pub id: u64,
    pub editor: String,
}

impl SetEditorArgs {
    /// The parameters of the `set_editor` command this tool runs.
    pub open spec fn params_spec(&self) -> JsonV {
        JsonV::Object(seq![("editor"@, JsonV::Str(self.editor@)), ("id"@, JsonV::Num(Number::PosInt(self.id)))])
    }

    /// The parameter document (`params_spec`).
    pub fn params(&self) -> (p: Json)
        ensures
            p@ == self.params_spec(),
    {
        let mut ms: Vec<Member> = Vec::new();
        ms.push(Member { key: "editor".to_owned(), value: Json::Str(self.editor.clone()) });
        ms.push(Member { key: "id".to_owned(), value: Json::Num(Number::PosInt(self.id)) });
        let p = Json::Object(ms);
        proof {
            crate::json::lemma_members_of(ms@);
            assert(crate::json::members_of(ms@) =~= seq![("editor"@, JsonV::Str(self.editor@)), ("id"@, JsonV::Num(Number::PosInt(self.id)))]);
        }
        p
    }
}

/// An area, an editor and its argument.
pub struct OpenEditorArgs {
    pub id: u64,
    pub editor: String,
    pub arg: String,
}

impl OpenEditorArgs {
    /// The parameters of the `open_editor` command this tool runs.
    pub open spec fn params_spec(&self) -> JsonV {
        JsonV::Object(seq![("arg"@, JsonV::Str(self.arg@)), ("editor"@, JsonV::Str(self.editor@)), ("id"@, JsonV::Num(Number::PosInt(self.id)))])
    }

    /// The parameter document (`params_spec`).
    pub fn params(&self) -> (p: Json)
        ensures
            p@ == self.params_spec(),
    {
        let mut ms: Vec<Member> = Vec::new();
        ms.push(Member { key: "arg".to_owned(), value: Json::Str(self.arg.clone()) });
        ms.push(Member { key: "editor".to_owned(), value: Json::Str(self.editor.clone()) });
        ms.push(Member { key: "id".to_owned(), value: Json::Num(Number::PosInt(self.id)) });
        let p = Json::Object(ms);
        proof {
            crate::json::lemma_members_of(ms@);
            assert(crate::json::members_of(ms@) =~= seq![("arg"@, JsonV::Str(self.arg@)), ("editor"@, JsonV::Str(self.editor@)), ("id"@, JsonV::Num(Number::PosInt(self.id)))]);
        }
        p
    }
}

/// The area to split and the run to open beside it.
pub struct OpenRunArgs {
    pub area: u64,
    pub run: String,
}

impl OpenRunArgs {
    /// The parameters of the `open_run` command this tool runs.
    pub open spec fn params_spec(&self) -> JsonV {
        JsonV::Object(seq![("area"@, JsonV::Num(Number::PosInt(self.area))), ("run"@, JsonV::Str(self.run@))])
    }

    /// The parameter document (`params_spec`).
    pub fn params(&self) -> (p: Json)
        ensures
            p@ == self.params_spec(),
    {
        let mut ms: Vec<Member> = Vec::new();
        ms.push(Member { key: "area".to_owned(), value: Json::Num(Number::PosInt(self.area)) });
        ms.push(Member { key: "run".to_owned(), value: Json::Str(self.run.clone()) });
        let p = Json::Object(ms);
        proof {
            crate::json::lemma_members_of(ms@);
            assert(crate::json::members_of(ms@) =~= seq![("area"@, JsonV::Num(Number::PosInt(self.area))), ("run"@, JsonV::Str(self.run@))]);
        }
        p
    }
}

/// A workspace tab by index.
pub struct IndexArgs {
    pub index: u64,
}

impl IndexArgs {
    /// The parameters of the `workspace.switch` command this tool runs.
    pub open spec fn params_spec(&self) -> JsonV {
        JsonV::Object(seq![("index"@, JsonV::Num(Number::PosInt(self.index)))])
    }

    /// The parameter document (`params_spec`).
    pub fn params(&self) -> (p: Json)
        ensures
            p@ == self.params_spec(),
    {
        let mut ms: Vec<Member> = Vec::new();
        ms.push(Member { key: "index".to_owned(), value: Json::Num(Number::PosInt(self.index)) });
        let p = Json::Object(ms);
        proof {
            crate::json::lemma_members_of(ms@);
            assert(crate::json::members_of(ms@) =~= seq![("index"@, JsonV::Num(Number::PosInt(self.index)))]);
        }
        p
    }
}

/// How many tabs to step, forward when positive.
pub struct CycleArgs {
    pub delta: Option<i64>,
}

impl CycleArgs {
    /// The parameters of the `workspace.cycle` command this tool runs.
    pub open spec fn params_spec(&self) -> JsonV {
        JsonV::Object(seq![("delta"@, delta_json(match self.delta { Some(d) => d, None => 1 }))])
    }

    /// The parameter document (`params_spec`).
    pub fn params(&self) -> (p: Json)
        ensures
            p@ == self.params_spec(),
    {
        let mut ms: Vec<Member> = Vec::new();
        ms.push(Member { key: "delta".to_owned(), value: delta_value(match self.delta { Some(d) => d, None => 1 }) });
        let p = Json::Object(ms);
        proof {
            crate::json::lemma_members_of(ms@);
            assert(crate::json::members_of(ms@) =~= seq![("delta"@, delta_json(match self.delta { Some(d) => d, None => 1 }))]);
        }
        p
    }
}

/// A tab and its new name.
pub struct RenameArgs {
    pub index: u64,
    pub name: String,
}

impl RenameArgs {
    /// The parameters of the `workspace.rename` command this tool runs.
    pub open spec fn params_spec(&self) -> JsonV {
        JsonV::Object(seq![("index"@, JsonV::Num(Number::PosInt(self.index))), ("name"@, JsonV::Str(self.name@))])
    }

    /// The parameter document (`params_spec`).
    pub fn params(&self) -> (p: Json)
        ensures
            p@ == self.params_spec(),
    {
        let mut ms: Vec<Member> = Vec::new();
        ms.push(Member { key: "index".to_owned(), value: Json::Num(Number::PosInt(self.index)) });
        ms.push(Member { key: "name".to_owned(), value: Json::Str(self.name.clone()) });
        let p = Json::Object(ms);
        proof {
            crate::json::lemma_members_of(ms@);
            assert(crate::json::members_of(ms@) =~= seq![("index"@, JsonV::Num(Number::PosInt(self.index))), ("name"@, JsonV::Str(self.name@))]);
        }
        p
    }
}

/// An area and what it should look at; empty clears it.
pub struct SetTargetArgs {
    pub id: u64,
    pub target: String,
}

impl SetTargetArgs {
    /// The parameters of the `set_target` command this tool runs.
    pub open spec fn params_spec(&self) -> JsonV {
        JsonV::Object(seq![("id"@, JsonV::Num(Number::PosInt(self.id))), ("target"@, JsonV::Str(self.target@))])
    }

    /// The parameter document (`params_spec`).
    pub fn params(&self) -> (p: Json)
        ensures
            p@ == self.params_spec(),
    {
        let mut ms: Vec<Member> = Vec::new();
        ms.push(Member { key: "id".to_owned(), value: Json::Num(Number::PosInt(self.id)) });
        ms.push(Member { key: "target".to_owned(), value: Json::Str(self.target.clone()) });
        let p = Json::Object(ms);
        proof {
            crate::json::lemma_members_of(ms@);
            assert(crate::json::members_of(ms@) =~= seq![("id"@, JsonV::Num(Number::PosInt(self.id))), ("target"@, JsonV::Str(self.target@))]);
        }
        p
    }
}

/// A tab's position and where it should go.
pub struct MoveArgs {
    pub from: u64,
    pub to: u64,
}

impl MoveArgs {
    /// The parameters of the `workspace.move` command this tool runs.
    pub open spec fn params_spec(&self) -> JsonV {
        JsonV::Object(seq![("from"@, JsonV::Num(Number::PosInt(self.from))), ("to"@, JsonV::Num(Number::PosInt(self.to)))])
    }

    /// The parameter document (`params_spec`).
    pub fn params(&self) -> (p: Json)
        ensures
            p@ == self.params_spec(),
    {
        let mut ms: Vec<Member> = Vec::new();
        ms.push(Member { key: "from".to_owned(), value: Json::Num(Number::PosInt(self.from)) });
        ms.push(Member { key: "to".to_owned(), value: Json::Num(Number::PosInt(self.to)) });
        let p = Json::Object(ms);
        proof {
            crate::json::lemma_members_of(ms@);
            assert(crate::json::members_of(ms@) =~= seq![("from"@, JsonV::Num(Number::PosInt(self.from))), ("to"@, JsonV::Num(Number::PosInt(self.to)))]);
        }
        p
    }
}

/// Two areas that exchange what they show.
pub struct SwapArgs {
    pub a: u64,
    pub b: u64,
}

impl SwapArgs {
    /// The parameters of the `swap` command this tool runs.
    pub open spec fn params_spec(&self) -> JsonV {
        JsonV::Object(seq![("a"@, JsonV::Num(Number::PosInt(self.a))), ("b"@, JsonV::Num(Number::PosInt(self.b)))])
    }

    /// The parameter document (`params_spec`).
    pub fn params(&self) -> (p: Json)
        ensures
            p@ == self.params_spec(),
    {
        let mut ms: Vec<Member> = Vec::new();
        ms.push(Member { key: "a".to_owned(), value: Json::Num(Number::PosInt(self.a)) });
        ms.push(Member { key: "b".to_owned(), value: Json::Num(Number::PosInt(self.b)) });
        let p = Json::Object(ms);
        proof {
            crate::json::lemma_members_of(ms@);
            assert(crate::json::members_of(ms@) =~= seq![("a"@, JsonV::Num(Number::PosInt(self.a))), ("b"@, JsonV::Num(Number::PosInt(self.b)))]);
        }
        p
    }
}

/// An area and the region to show or hide.
pub struct RegionArgs {
    pub id: u64,
    pub region: String,
}

impl RegionArgs {
    /// The parameters of the `toggle_region` command this tool runs.
    pub open spec fn params_spec(&self) -> JsonV {
        JsonV::Object(seq![("id"@, JsonV::Num(Number::PosInt(self.id))), ("region"@, JsonV::Str(self.region@))])
    }

    /// The parameter document (`params_spec`).
    pub fn params(&self) -> (p: Json)
        ensures
            p@ == self.params_spec(),
    {
        let mut ms: Vec<Member> = Vec::new();
        ms.push(Member { key: "id".to_owned(), value: Json::Num(Number::PosInt(self.id)) });
        ms.push(Member { key: "region".to_owned(), value: Json::Str(self.region.clone()) });
        let p = Json::Object(ms);
        proof {
            crate::json::lemma_members_of(ms@);
            assert(crate::json::members_of(ms@) =~= seq![("id"@, JsonV::Num(Number::PosInt(self.id))), ("region"@, JsonV::Str(self.region@))]);
        }
        p
    }
}

/// An area, a region and its new width in pixels.
pub struct RegionWidthArgs {
    pub id: u64,
    pub region: String,
    pub w: u64,
}

impl RegionWidthArgs {
    /// The parameters of the `set_region_width` command this tool runs.
    pub open spec fn params_spec(&self) -> JsonV {
        JsonV::Object(seq![("id"@, JsonV::Num(Number::PosInt(self.id))), ("region"@, JsonV::Str(self.region@)), ("w"@, JsonV::Num(Number::PosInt(self.w)))])
    }

    /// The parameter document (`params_spec`).
    pub fn params(&self) -> (p: Json)
        ensures
            p@ == self.params_spec(),
    {
        let mut ms: Vec<Member> = Vec::new();
        ms.push(Member { key: "id".to_owned(), value: Json::Num(Number::PosInt(self.id)) });
        ms.push(Member { key: "region".to_owned(), value: Json::Str(self.region.clone()) });
        ms.push(Member { key: "w".to_owned(), value: Json::Num(Number::PosInt(self.w)) });
        let p = Json::Object(ms);
        proof {
            crate::json::lemma_members_of(ms@);
            assert(crate::json::members_of(ms@) =~= seq![("id"@, JsonV::Num(Number::PosInt(self.id))), ("region"@, JsonV::Str(self.region@)), ("w"@, JsonV::Num(Number::PosInt(self.w)))]);
        }
        p
    }
}

/// A tab name and the layout it starts from.
pub struct WorkspaceAddArgs {
    pub name: String,
    pub layout: Json,
}

impl WorkspaceAddArgs {
    /// The parameters of the `workspace.add` command this tool runs.
    pub open spec fn params_spec(&self) -> JsonV {
        JsonV::Object(seq![("layout"@, self.layout@), ("name"@, JsonV::Str(self.name@))])
    }

    /// The parameter document (`params_spec`).
    pub fn params(&self) -> (p: Json)
        ensures
            p@ == self.params_spec(),
    {
        let mut ms: Vec<Member> = Vec::new();
        ms.push(Member { key: "layout".to_owned(), value: self.layout.copy() });
        ms.push(Member { key: "name".to_owned(), value: Json::Str(self.name.clone()) });
        let p = Json::Object(ms);
        proof {
            crate::json::lemma_members_of(ms@);
            assert(crate::json::members_of(ms@) =~= seq![("layout"@, self.layout@), ("name"@, JsonV::Str(self.name@))]);
        }
        p
    }
}

/// How many undo steps to take at once.
pub struct DepthArgs {
    pub depth: usize,
}

/// A run by id.
pub struct RunArgs {
    pub id: String,
}

/// A settings pointer and the value to write there.
pub struct SetSettingArgs {
    pub pointer: String,
    pub value: Json,
}

/// A Quick Favourites entry: its label, the command it runs and its params.
pub struct FavoriteAddArgs {
    pub label: String,
    pub action: String,
    pub params: Json,
}

/// A tool's name for a command: tool names are snake_case, command names
/// use dots (`workspace.add`).
pub open spec fn tool_name_of(command: Seq<char>) -> Seq<char> {
    Seq::new(command.len(), |i: int| if command[i] == '.' { '_' } else { command[i] })
}

/// A tool's name for a command (`tool_name_of`).
pub fn tool_name(command: &str) -> (r: String)
    ensures
        r@ == tool_name_of(command@),
{
    let mut out: Vec<char> = Vec::new();
    let n = command.unicode_len();
    let mut i: usize = 0;
    while i < n
        invariant
            i <= n,
            n == command@.len(),
            out@ == Seq::new(i as nat, |k: int| if command@[k] == '.' { '_' } else { command@[k] }),
        decreases n - i,
    {
        let c = command.get_char(i);
        out.push(if c == '.' { '_' } else { c });
        assert(out@ =~= Seq::new((i + 1) as nat, |k: int| if command@[k] == '.' { '_' } else { command@[k] }));
        i += 1;
    }
    crate::text::string_of(out.as_slice())
}

} // verus!
