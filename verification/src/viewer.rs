//! The code viewer's own decisions: what a file reads as, whether it can be
//! shown at all, and the line its footer states.
//!
//! The host reads the file; this module says what the bytes it found mean
//! for the viewer. A viewer that hangs the workbench on a huge file, or fills
//! a page with replacement characters for a binary one, is worse than one
//! that declines with a reason.

use vstd::prelude::*;

use crate::cron::{pieces, split_pieces, vviews};
use crate::demo::size_text;
use crate::text::{concat, decimal, push_decimal, push_str, str_eq, string_of};

verus! {

// --- language ----------------------------------------------------------------

/// What follows the last dot of a path; the whole path when it has none
/// (`rsplit('.').next()`).
pub open spec fn extension(path: Seq<char>) -> Seq<char> {
    pieces(path, '.').last()
}

/// The language a path reads as, by its extension; `Text` for one nobody
/// named.
pub open spec fn language_name(path: Seq<char>) -> Seq<char> {
    let e = extension(path);
    if e == "rs"@ {
        "Rust"@
    } else if e == "ts"@ || e == "tsx"@ {
        "TypeScript"@
    } else if e == "js"@ || e == "jsx"@ || e == "mjs"@ {
        "JavaScript"@
    } else if e == "py"@ {
        "Python"@
    } else if e == "go"@ {
        "Go"@
    } else if e == "c"@ || e == "h"@ {
        "C"@
    } else if e == "cpp"@ || e == "cc"@ || e == "hpp"@ {
        "C++"@
    } else if e == "css"@ {
        "CSS"@
    } else if e == "html"@ {
        "HTML"@
    } else if e == "json"@ {
        "JSON"@
    } else if e == "toml"@ {
        "TOML"@
    } else if e == "yaml"@ || e == "yml"@ {
        "YAML"@
    } else if e == "md"@ {
        "Markdown"@
    } else if e == "sh"@ || e == "bash"@ {
        "Shell"@
    } else if e == "sql"@ {
        "SQL"@
    } else {
        "Text"@
    }
}

/// The extensions the code viewer names, with the language each reads as.
pub open spec fn language_table() -> Seq<(Seq<char>, Seq<char>)> {
    seq![
        ("rs"@, "Rust"@),
        ("ts"@, "TypeScript"@),
        ("tsx"@, "TypeScript"@),
        ("js"@, "JavaScript"@),
        ("jsx"@, "JavaScript"@),
        ("mjs"@, "JavaScript"@),
        ("py"@, "Python"@),
        ("go"@, "Go"@),
        ("c"@, "C"@),
        ("h"@, "C"@),
        ("cpp"@, "C++"@),
        ("cc"@, "C++"@),
        ("hpp"@, "C++"@),
        ("css"@, "CSS"@),
        ("html"@, "HTML"@),
        ("json"@, "JSON"@),
        ("toml"@, "TOML"@),
        ("yaml"@, "YAML"@),
        ("yml"@, "YAML"@),
        ("md"@, "Markdown"@),
        ("sh"@, "Shell"@),
        ("bash"@, "Shell"@),
        ("sql"@, "SQL"@),
    ]
}

/// Every listed extension reads as its language, whatever the rest of the
/// path; an extension nobody listed reads as `Text`.
pub proof fn law_an_extension_names_its_language(path: Seq<char>)
    ensures
        forall|k: int| 0 <= k < language_table().len() && extension(path) == #[trigger] language_table()[k].0
            ==> language_name(path) == language_table()[k].1,
        (forall|k: int| 0 <= k < language_table().len() ==> extension(path) != #[trigger] language_table()[k].0)
            ==> language_name(path) == "Text"@,
{
    reveal_strlit("rs");
    reveal_strlit("ts");
    reveal_strlit("tsx");
    reveal_strlit("js");
    reveal_strlit("jsx");
    reveal_strlit("mjs");
    reveal_strlit("py");
    reveal_strlit("go");
    reveal_strlit("c");
    reveal_strlit("h");
    reveal_strlit("cpp");
    reveal_strlit("cc");
    reveal_strlit("hpp");
    reveal_strlit("css");
    reveal_strlit("html");
    reveal_strlit("json");
    reveal_strlit("toml");
    reveal_strlit("yaml");
    reveal_strlit("yml");
    reveal_strlit("md");
    reveal_strlit("sh");
    reveal_strlit("bash");
    reveal_strlit("sql");
    let t = language_table();
    let e = extension(path);
    assert forall|k: int| 0 <= k < t.len() && e == #[trigger] t[k].0 implies language_name(path) == t[k].1 by {
        if k == 0 {
            assert(e =~= seq!['r', 's']);
        }
        if k == 1 {
            assert(e =~= seq!['t', 's']);
        }
        if k == 2 {
            assert(e =~= seq!['t', 's', 'x']);
        }
        if k == 3 {
            assert(e =~= seq!['j', 's']);
        }
        if k == 4 {
            assert(e =~= seq!['j', 's', 'x']);
        }
        if k == 5 {
            assert(e =~= seq!['m', 'j', 's']);
        }
        if k == 6 {
            assert(e =~= seq!['p', 'y']);
        }
        if k == 7 {
            assert(e =~= seq!['g', 'o']);
        }
        if k == 8 {
            assert(e =~= seq!['c']);
        }
        if k == 9 {
            assert(e =~= seq!['h']);
        }
        if k == 10 {
            assert(e =~= seq!['c', 'p', 'p']);
        }
        if k == 11 {
            assert(e =~= seq!['c', 'c']);
        }
        if k == 12 {
            assert(e =~= seq!['h', 'p', 'p']);
        }
        if k == 13 {
            assert(e =~= seq!['c', 's', 's']);
        }
        if k == 14 {
            assert(e =~= seq!['h', 't', 'm', 'l']);
        }
        if k == 15 {
            assert(e =~= seq!['j', 's', 'o', 'n']);
        }
        if k == 16 {
            assert(e =~= seq!['t', 'o', 'm', 'l']);
        }
        if k == 17 {
            assert(e =~= seq!['y', 'a', 'm', 'l']);
        }
        if k == 18 {
            assert(e =~= seq!['y', 'm', 'l']);
        }
        if k == 19 {
            assert(e =~= seq!['m', 'd']);
        }
        if k == 20 {
            assert(e =~= seq!['s', 'h']);
        }
        if k == 21 {
            assert(e =~= seq!['b', 'a', 's', 'h']);
        }
        if k == 22 {
            assert(e =~= seq!['s', 'q', 'l']);
        }
    }
    if forall|k: int| 0 <= k < t.len() ==> e != #[trigger] t[k].0 {
        assert(e != t[0].0);
        assert(e != t[1].0);
        assert(e != t[2].0);
        assert(e != t[3].0);
        assert(e != t[4].0);
        assert(e != t[5].0);
        assert(e != t[6].0);
        assert(e != t[7].0);
        assert(e != t[8].0);
        assert(e != t[9].0);
        assert(e != t[10].0);
        assert(e != t[11].0);
        assert(e != t[12].0);
        assert(e != t[13].0);
        assert(e != t[14].0);
        assert(e != t[15].0);
        assert(e != t[16].0);
        assert(e != t[17].0);
        assert(e != t[18].0);
        assert(e != t[19].0);
        assert(e != t[20].0);
        assert(e != t[21].0);
        assert(e != t[22].0);
    }
}

/// The language a path reads as (`language_name`).
pub fn language_of(path: &str) -> (r: &'static str)
    ensures
        r@ == language_name(path@),
{
    let cs = crate::text::chars_of(path);
    let parts = split_pieces(&cs, '.');
    proof {
        crate::cron::lemma_pieces_len(cs@, '.');
    }
    let last = string_of(parts[parts.len() - 1].as_slice());
    assert(last@ == extension(path@));
    let e = last.as_str();
    if str_eq(e, "rs") {
        "Rust"
    } else if str_eq(e, "ts") || str_eq(e, "tsx") {
        "TypeScript"
    } else if str_eq(e, "js") || str_eq(e, "jsx") || str_eq(e, "mjs") {
        "JavaScript"
    } else if str_eq(e, "py") {
        "Python"
    } else if str_eq(e, "go") {
        "Go"
    } else if str_eq(e, "c") || str_eq(e, "h") {
        "C"
    } else if str_eq(e, "cpp") || str_eq(e, "cc") || str_eq(e, "hpp") {
        "C++"
    } else if str_eq(e, "css") {
        "CSS"
    } else if str_eq(e, "html") {
        "HTML"
    } else if str_eq(e, "json") {
        "JSON"
    } else if str_eq(e, "toml") {
        "TOML"
    } else if str_eq(e, "yaml") || str_eq(e, "yml") {
        "YAML"
    } else if str_eq(e, "md") {
        "Markdown"
    } else if str_eq(e, "sh") || str_eq(e, "bash") {
        "Shell"
    } else if str_eq(e, "sql") {
        "SQL"
    } else {
        "Text"
    }
}

// --- lines -------------------------------------------------------------------

/// How many line breaks `s` holds.
pub open spec fn breaks(s: Seq<char>) -> nat
    decreases s.len(),
{
    if s.len() == 0 {
        0
    } else {
        breaks(s.drop_last()) + if s.last() == '\n' {
            1nat
        } else {
            0nat
        }
    }
}

proof fn lemma_breaks_len(s: Seq<char>)
    ensures
        breaks(s) <= s.len(),
    decreases s.len(),
{
    if s.len() > 0 {
        lemma_breaks_len(s.drop_last());
    }
}

/// How many lines `s` has (`str::lines().count()`): one per line break, and
/// one more for text after the last.
pub open spec fn line_count(s: Seq<char>) -> nat {
    breaks(s) + if s.len() > 0 && s.last() != '\n' {
        1nat
    } else {
        0nat
    }
}

/// How many lines a text has (`line_count`).
pub fn lines_in(src: &str) -> (r: u64)
    ensures
        r == line_count(src@),
{
    let n = src.unicode_len();
    let mut count: u64 = 0;
    let mut i: usize = 0;
    while i < n
        invariant
            i <= n,
            n == src@.len(),
            count == breaks(src@.subrange(0, i as int)),
            count <= i,
        decreases n - i,
    {
        assert(src@.subrange(0, i + 1).drop_last() =~= src@.subrange(0, i as int));
        if src.get_char(i) == '\n' {
            count = count + 1;
        }
        i += 1;
    }
    assert(src@.subrange(0, n as int) =~= src@);
    if n > 0 && src.get_char(n - 1) != '\n' {
        proof {
            lemma_breaks_len(src@.drop_last());
        }
        count + 1
    } else {
        count
    }
}

/// The code viewer's footer: the language and how long the file is.
pub open spec fn code_footer_text(path: Seq<char>, src: Seq<char>) -> Seq<char> {
    language_name(path) + " \u{b7} "@ + decimal(line_count(src)) + " lines"@
}

/// The code viewer's footer (`code_footer_text`).
pub fn code_footer(path: &str, src: &str) -> (r: String)
    ensures
        r@ == code_footer_text(path@, src@),
{
    let mut out = concat(language_of(path), " \u{b7} ");
    push_decimal(&mut out, lines_in(src));
    push_str(&mut out, " lines");
    out
}

// --- whether to show a file --------------------------------------------------

/// The largest file the viewer draws: past this the page is the bottleneck.
pub const MAX_SOURCE: u64 = 2_097_152;

/// How far into a file a NUL marks it binary.
pub const SNIFF: usize = 8000;

/// Why a file of this kind and size cannot be shown, if it cannot.
pub open spec fn size_refusal(rel: Seq<char>, is_dir: bool, len: u64) -> Option<Seq<char>> {
    if is_dir {
        Some(rel + " is a directory"@)
    } else if len > MAX_SOURCE {
        Some(rel + " is "@ + size_text(len as nat) + " \u{2014} too large to display"@)
    } else {
        None
    }
}

/// Whether a directory or a file of `len` bytes can be shown; the reason
/// when not.
pub fn size_verdict(rel: &str, is_dir: bool, len: u64) -> (r: Result<(), String>)
    ensures
        match r {
            Ok(()) => size_refusal(rel@, is_dir, len) is None,
            Err(m) => size_refusal(rel@, is_dir, len) == Some(m@),
        },
{
    if is_dir {
        return Err(concat(rel, " is a directory"));
    }
    if len > MAX_SOURCE {
        let mut m = concat(rel, " is ");
        push_str(&mut m, crate::demo::human_size(len).as_str());
        push_str(&mut m, " \u{2014} too large to display");
        return Err(m);
    }
    Ok(())
}

/// A NUL among the first bytes: the tell `grep` uses for a binary.
pub open spec fn looks_binary(bytes: Seq<u8>) -> bool {
    exists|i: int| 0 <= i < bytes.len() && i < SNIFF && bytes[i] == 0
}

/// The text the bytes decode to as UTF-8, or nothing when they are not
/// well-formed UTF-8 (vstd's statement of the encoding: the leading and
/// continuation bit patterns, no overlong encoding, no surrogate, nothing
/// past U+10FFFF).
pub open spec fn utf8_text(bytes: Seq<u8>) -> Option<Seq<char>> {
    if vstd::utf8::valid_utf8(bytes) {
        Some(vstd::utf8::decode_utf8(bytes))
    } else {
        None
    }
}

/// `String::from_utf8`: the text the bytes encode when they are well-formed
/// UTF-8, and an error exactly when they are not, as std documents it.
#[verifier::external_body]
fn decode_utf8(bytes: Vec<u8>) -> (r: Option<String>)
    ensures
        match r {
            Some(s) => utf8_text(bytes@) == Some(s@),
            None => utf8_text(bytes@) is None,
        },
{
    String::from_utf8(bytes).ok()
}

/// What the viewer shows of a file's bytes: its text, or why not.
pub open spec fn source_text(rel: Seq<char>, bytes: Seq<u8>) -> Result<Seq<char>, Seq<char>> {
    if looks_binary(bytes) {
        Err(rel + " is binary"@)
    } else {
        match utf8_text(bytes) {
            Some(t) => Ok(t),
            None => Err(rel + " is not valid UTF-8"@),
        }
    }
}

/// A file's bytes as the text the viewer shows (`source_text`).
pub fn text_of(rel: &str, bytes: Vec<u8>) -> (r: Result<String, String>)
    ensures
        match r {
            Ok(t) => source_text(rel@, bytes@) == Ok::<Seq<char>, Seq<char>>(t@),
            Err(m) => source_text(rel@, bytes@) == Err::<Seq<char>, Seq<char>>(m@),
        },
{
    let mut i: usize = 0;
    while i < bytes.len() && i < SNIFF
        invariant
            i <= bytes@.len(),
            i <= SNIFF,
            forall|j: int| 0 <= j < i ==> bytes@[j] != 0,
        decreases bytes.len() - i,
    {
        if bytes[i] == 0 {
            return Err(concat(rel, " is binary"));
        }
        i += 1;
    }
    assert(!looks_binary(bytes@));
    match decode_utf8(bytes) {
        Some(t) => Ok(t),
        None => Err(concat(rel, " is not valid UTF-8")),
    }
}

// --- which editor wants what -------------------------------------------------

/// What kind of thing an editor's target is, for the picker's icon.
pub open spec fn target_kind_of(editor: Seq<char>) -> Option<Seq<char>> {
    if editor == "code"@ || editor == "diff"@ {
        Some("file"@)
    } else if editor == "files"@ {
        Some("folder"@)
    } else if editor == "run"@ {
        Some("run"@)
    } else if editor == "chart"@ {
        Some("chart"@)
    } else if editor == "data"@ {
        Some("data"@)
    } else {
        None
    }
}

/// What kind of thing an editor's target is (`target_kind_of`).
pub fn target_kind(editor: &str) -> (r: Option<&'static str>)
    ensures
        match r {
            Some(k) => target_kind_of(editor@) == Some(k@),
            None => target_kind_of(editor@) is None,
        },
{
    if str_eq(editor, "code") || str_eq(editor, "diff") {
        Some("file")
    } else if str_eq(editor, "files") {
        Some("folder")
    } else if str_eq(editor, "run") {
        Some("run")
    } else if str_eq(editor, "chart") {
        Some("chart")
    } else if str_eq(editor, "data") {
        Some("data")
    } else {
        None
    }
}

/// What the picker calls the thing being chosen.
pub open spec fn target_noun_of(editor: Seq<char>) -> Seq<char> {
    if editor == "files"@ || editor == "code"@ {
        "File"@
    } else if editor == "diff"@ {
        "Changed file"@
    } else if editor == "chart"@ {
        "Chart"@
    } else if editor == "run"@ {
        "Run"@
    } else {
        "Target"@
    }
}

/// What the picker calls the thing being chosen (`target_noun_of`).
pub fn target_noun(editor: &str) -> (r: &'static str)
    ensures
        r@ == target_noun_of(editor@),
{
    if str_eq(editor, "files") || str_eq(editor, "code") {
        "File"
    } else if str_eq(editor, "diff") {
        "Changed file"
    } else if str_eq(editor, "chart") {
        "Chart"
    } else if str_eq(editor, "run") {
        "Run"
    } else {
        "Target"
    }
}

} // verus!
