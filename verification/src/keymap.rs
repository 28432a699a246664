//! The keymap: chords bound to actions.
//!
//! A binding names an action and its params, the shape a command bus call
//! takes, so a shortcut and a button are the same operation. Chords use
//! `Mod` for the platform command key (Ctrl, or Cmd on a Mac); `Ctrl` means
//! the Control key everywhere.

use vstd::prelude::*;

use crate::cron::{pieces, split_pieces, vviews};
use crate::json::{Json, JsonV, Member, Number};
use crate::text::{push_str, str_eq};

verus! {

/// One chord bound to an action.
pub struct Binding {
    /// e.g. `Alt+PageUp`, `Mod+Z`, `Mod+Shift+Space`.
    pub chord: String,
    /// A command name, or an action the host handles (`undo`, `maximize`).
    pub action: String,
    /// What it does, for hints, the cheat sheet and the keymap editor.
    pub description: String,
    pub params: Json,
}

pub open spec fn binding_view(b: Binding) -> (Seq<char>, Seq<char>, Seq<char>, JsonV) {
    (b.chord@, b.action@, b.description@, b.params@)
}

/// The default bindings: Blender's where the browser leaves them free.
pub open spec fn default_bindings() -> Seq<(Seq<char>, Seq<char>, Seq<char>, JsonV)> {
    seq![
        ("Alt+PageDown"@, "workspace.cycle"@, "Next workspace"@, JsonV::Object(seq![("delta"@, JsonV::Num(Number::PosInt(1)))])),
        ("Alt+PageUp"@, "workspace.cycle"@, "Previous workspace"@, JsonV::Object(seq![("delta"@, JsonV::Num(Number::NegInt(-1i64)))])),
        ("Shift+R"@, "repeat_last"@, "Repeat last command"@, JsonV::Null),
        ("Mod+Z"@, "undo"@, "Undo"@, JsonV::Null),
        ("Mod+Shift+Z"@, "redo"@, "Redo"@, JsonV::Null),
        ("Mod+Shift+F"@, "fullscreen"@, "Distraction-free fullscreen"@, JsonV::Null),
        ("Mod+Shift+Space"@, "maximize"@, "Maximize area"@, JsonV::Null),
        ("F3"@, "palette"@, "Command palette"@, JsonV::Null),
        ("F1"@, "cheatsheet"@, "Keyboard shortcuts"@, JsonV::Null),
        ("`"@, "pie"@, "Area pie menu"@, JsonV::Null),
        ("Q"@, "favorites"@, "Quick favourites"@, JsonV::Null),
        ("F9"@, "adjust_last"@, "Adjust last operation"@, JsonV::Null)
    ]
}

fn delta(n: Number) -> (j: Json)
    ensures
        j@ == JsonV::Object(seq![("delta"@, JsonV::Num(n))]),
{
    let mut ms: Vec<Member> = Vec::new();
    ms.push(Member { key: "delta".to_owned(), value: Json::Num(n) });
    let j = Json::Object(ms);
    proof {
        crate::json::lemma_members_of(ms@);
        assert(crate::json::members_of(ms@) =~= seq![("delta"@, JsonV::Num(n))]);
    }
    j
}

/// The default bindings.
pub fn default_keymap() -> (r: Vec<Binding>)
    ensures
        r@.len() == default_bindings().len(),
        forall|i: int| 0 <= i < r@.len() ==> binding_view(#[trigger] r@[i]) == default_bindings()[i],
{
    let mut out: Vec<Binding> = Vec::new();
    out.push(Binding { chord: "Alt+PageDown".to_owned(), action: "workspace.cycle".to_owned(), description: "Next workspace".to_owned(), params: delta(Number::PosInt(1)) });
    out.push(Binding { chord: "Alt+PageUp".to_owned(), action: "workspace.cycle".to_owned(), description: "Previous workspace".to_owned(), params: delta(Number::NegInt(-1)) });
    out.push(Binding { chord: "Shift+R".to_owned(), action: "repeat_last".to_owned(), description: "Repeat last command".to_owned(), params: Json::Null });
    out.push(Binding { chord: "Mod+Z".to_owned(), action: "undo".to_owned(), description: "Undo".to_owned(), params: Json::Null });
    out.push(Binding { chord: "Mod+Shift+Z".to_owned(), action: "redo".to_owned(), description: "Redo".to_owned(), params: Json::Null });
    out.push(Binding { chord: "Mod+Shift+F".to_owned(), action: "fullscreen".to_owned(), description: "Distraction-free fullscreen".to_owned(), params: Json::Null });
    out.push(Binding { chord: "Mod+Shift+Space".to_owned(), action: "maximize".to_owned(), description: "Maximize area".to_owned(), params: Json::Null });
    out.push(Binding { chord: "F3".to_owned(), action: "palette".to_owned(), description: "Command palette".to_owned(), params: Json::Null });
    out.push(Binding { chord: "F1".to_owned(), action: "cheatsheet".to_owned(), description: "Keyboard shortcuts".to_owned(), params: Json::Null });
    out.push(Binding { chord: "`".to_owned(), action: "pie".to_owned(), description: "Area pie menu".to_owned(), params: Json::Null });
    out.push(Binding { chord: "Q".to_owned(), action: "favorites".to_owned(), description: "Quick favourites".to_owned(), params: Json::Null });
    out.push(Binding { chord: "F9".to_owned(), action: "adjust_last".to_owned(), description: "Adjust last operation".to_owned(), params: Json::Null });
    proof {
        assert forall|i: int| 0 <= i < out@.len() implies binding_view(#[trigger] out@[i])
            == default_bindings()[i] by {
            assert(default_bindings().len() == 12);
        }
    }
    out
}

/// The action and params bound to `chord`: the first binding that has it.
pub open spec fn bound_to(b: Seq<(Seq<char>, Seq<char>, Seq<char>, JsonV)>, chord: Seq<char>) -> Option<
    (Seq<char>, JsonV),
>
    decreases b.len(),
{
    if b.len() == 0 {
        None
    } else if b[0].0 == chord {
        Some((b[0].1, b[0].3))
    } else {
        bound_to(b.drop_first(), chord)
    }
}

pub open spec fn bindings_view(b: Seq<Binding>) -> Seq<(Seq<char>, Seq<char>, Seq<char>, JsonV)> {
    Seq::new(b.len(), |i: int| binding_view(b[i]))
}

/// What a pressed chord does under the current keymap.
pub fn chord_action(bindings: &Vec<Binding>, chord: &str) -> (r: Option<(String, Json)>)
    ensures
        match r {
            Some((a, p)) => bound_to(bindings_view(bindings@), chord@) == Some((a@, p@)),
            None => bound_to(bindings_view(bindings@), chord@) is None,
        },
{
    let ghost all = bindings_view(bindings@);
    let mut i: usize = 0;
    assert(all.skip(0) =~= all);
    while i < bindings.len()
        invariant
            i <= bindings@.len(),
            all == bindings_view(bindings@),
            bound_to(all, chord@) == bound_to(all.skip(i as int), chord@),
        decreases bindings.len() - i,
    {
        let ghost rest = all.skip(i as int);
        assert(rest[0] == all[i as int]);
        assert(rest.drop_first() =~= all.skip(i + 1));
        if str_eq(bindings[i].chord.as_str(), chord) {
            return Some((bindings[i].action.clone(), bindings[i].params.copy()));
        }
        i += 1;
    }
    assert(all.skip(i as int).len() == 0);
    None
}

// --- writing chords ----------------------------------------------------------

/// `s` with every `Mod` written `Ctrl`, scanning left to right.
pub open spec fn ctrl_for_mod(s: Seq<char>) -> Seq<char>
    decreases s.len(),
{
    if s.len() == 0 {
        seq![]
    } else if s.len() >= 3 && s[0] == 'M' && s[1] == 'o' && s[2] == 'd' {
        seq!['C', 't', 'r', 'l'] + ctrl_for_mod(s.skip(3))
    } else {
        seq![s[0]] + ctrl_for_mod(s.skip(1))
    }
}

/// A chord part the Mac way.
pub open spec fn glyph(part: Seq<char>) -> Seq<char> {
    if part == "Mod"@ {
        "\u{2318}"@
    } else if part == "Ctrl"@ {
        "\u{2303}"@
    } else if part == "Alt"@ {
        "\u{2325}"@
    } else if part == "Shift"@ {
        "\u{21e7}"@
    } else {
        part
    }
}

/// The parts the Mac way, run together.
pub open spec fn glyphs(parts: Seq<Seq<char>>) -> Seq<char>
    decreases parts.len(),
{
    if parts.len() == 0 {
        seq![]
    } else {
        glyphs(parts.drop_last()) + glyph(parts.last())
    }
}

/// A chord the way the platform writes it: `⌘⇧Z` on a Mac, `Ctrl+Shift+Z`
/// elsewhere.
pub open spec fn chord_text(chord: Seq<char>, mac: bool) -> Seq<char> {
    if mac {
        glyphs(pieces(chord, '+'))
    } else {
        ctrl_for_mod(chord)
    }
}

fn glyph_of(part: &Vec<char>) -> (r: String)
    ensures
        r@ == glyph(part@),
{
    let s = crate::text::string_of(part.as_slice());
    if str_eq(s.as_str(), "Mod") {
        "\u{2318}".to_owned()
    } else if str_eq(s.as_str(), "Ctrl") {
        "\u{2303}".to_owned()
    } else if str_eq(s.as_str(), "Alt") {
        "\u{2325}".to_owned()
    } else if str_eq(s.as_str(), "Shift") {
        "\u{21e7}".to_owned()
    } else {
        s
    }
}

/// A chord the way the platform writes it.
pub fn pretty_chord(chord: &str, mac: bool) -> (r: String)
    ensures
        r@ == chord_text(chord@, mac),
{
    let cs = crate::text::chars_of(chord);
    if mac {
        let parts = split_pieces(&cs, '+');
        let ghost pv = vviews(parts@);
        let mut out = String::new();
        let mut i: usize = 0;
        assert(pv.subrange(0, 0) =~= Seq::<Seq<char>>::empty());
        while i < parts.len()
            invariant
                i <= parts@.len(),
                pv == vviews(parts@),
                out@ == glyphs(pv.subrange(0, i as int)),
            decreases parts.len() - i,
        {
            assert(pv.subrange(0, i + 1).drop_last() =~= pv.subrange(0, i as int));
            let g = glyph_of(&parts[i]);
            push_str(&mut out, g.as_str());
            i += 1;
        }
        assert(pv.subrange(0, parts@.len() as int) =~= pv);
        out
    } else {
        let mut out: Vec<char> = Vec::new();
        let n = cs.len();
        let mut i: usize = 0;
        assert(cs@.skip(0) =~= cs@);
        while i < n
            invariant
                i <= n,
                n == cs@.len(),
                cs@ == chord@,
                out@ + ctrl_for_mod(cs@.skip(i as int)) == ctrl_for_mod(chord@),
            decreases n - i,
        {
            let ghost rest = cs@.skip(i as int);
            if n - i >= 3 && cs[i] == 'M' && cs[i + 1] == 'o' && cs[i + 2] == 'd' {
                assert(rest.skip(3) =~= cs@.skip(i + 3));
                out.push('C');
                out.push('t');
                out.push('r');
                out.push('l');
                assert(out@ + ctrl_for_mod(cs@.skip(i + 3)) =~= ctrl_for_mod(chord@));
                i += 3;
            } else {
                assert(rest.skip(1) =~= cs@.skip(i + 1));
                out.push(cs[i]);
                assert(out@ + ctrl_for_mod(cs@.skip(i + 1)) =~= ctrl_for_mod(chord@));
                i += 1;
            }
        }
        assert(cs@.skip(n as int).len() == 0);
        assert(out@ =~= ctrl_for_mod(chord@));
        crate::text::string_of(out.as_slice())
    }
}

} // verus!
