//! What changed in a file, as the patch the code renderer draws.
//!
//! The line diff itself is `similar`'s; this module decides when there is
//! anything to show and frames the result with the git file header the
//! renderer looks for, which `similar`'s unified output leaves out.

use vstd::prelude::*;

use crate::cron::index_of;
use crate::status::{find_text, lemma_find_text};
use crate::text::{chars_of, find_first, push_str, slice_of, str_eq, string_of};

verus! {

/// The unified diff `similar` writes of two texts compared line by line,
/// with `radius` lines of context around each change and `--- a` / `+++ b`
/// as its header.
pub uninterp spec fn unified_text(old: Seq<char>, new: Seq<char>, radius: usize, a: Seq<char>, b: Seq<char>) -> Seq<char>;

/// `similar::TextDiff::from_lines(old, new).unified_diff()` with the given
/// context radius and header, written out with `to_string`. Its text is a
/// function of the arguments alone, named `unified_text`; nothing more is
/// claimed of it. The grouping doubles the radius, so a radius past half
/// the machine's range is left out.
#[verifier::external_body]
fn unified_diff(old: &str, new: &str, radius: usize, a: &str, b: &str) -> (r: String)
    requires
        radius <= usize::MAX / 2,
    ensures
        r@ == unified_text(old@, new@, radius, a@, b@),
{
    similar::TextDiff::from_lines(old, new).unified_diff().context_radius(radius).header(a, b).to_string()
}

/// Lines of context around each change.
pub const CONTEXT: usize = 3;

/// What follows the line that starts the first `+++ `: the hunks of a
/// unified diff without its file header. A text without such a line is
/// kept whole.
pub open spec fn after_header(patch: Seq<char>) -> Seq<char> {
    let i = find_text(patch, "+++ "@);
    if i < 0 {
        patch
    } else {
        let rest = patch.subrange(i + 4, patch.len() as int);
        let j = index_of(rest, '\n');
        if j < 0 {
            patch
        } else {
            rest.subrange(j + 1, rest.len() as int)
        }
    }
}

/// The git file header for a path relative to the repository root.
pub open spec fn git_header(inside: Seq<char>) -> Seq<char> {
    "diff --git a/"@ + inside + " b/"@ + inside + "\n--- a/"@ + inside + "\n+++ b/"@ + inside + "\n"@
}

/// A unified diff of the file `inside`, reframed under the git header.
pub open spec fn git_patch_text(inside: Seq<char>, unified: Seq<char>) -> Seq<char> {
    git_header(inside) + after_header(unified)
}

/// The patch for `inside` given `similar`'s unified diff of it.
pub fn frame_patch(inside: &str, unified: &str) -> (r: String)
    ensures
        r@ == git_patch_text(inside@, unified@),
{
    let mut out = "diff --git a/".to_owned();
    push_str(&mut out, inside);
    push_str(&mut out, " b/");
    push_str(&mut out, inside);
    push_str(&mut out, "\n--- a/");
    push_str(&mut out, inside);
    push_str(&mut out, "\n+++ b/");
    push_str(&mut out, inside);
    push_str(&mut out, "\n");
    let cs = chars_of(unified);
    let marker = chars_of("+++ ");
    proof {
        reveal_strlit("+++ ");
        lemma_find_text(unified@, "+++ "@);
    }
    assert(marker@.len() == 4);
    let ghost i = find_text(unified@, "+++ "@);
    match find_first(&cs, &marker) {
        Some(a) => {
            proof {
                if i < 0 || a < i {
                    assert(!crate::text::occurs_at(unified@, "+++ "@, a as int));
                }
                if i >= 0 && i < a {
                    assert(!crate::text::occurs_at(cs@, marker@, i));
                }
            }
            assert(a == i);
            assert(crate::text::occurs_at(cs@, marker@, a as int));
            let n = cs.len();
            assert(a + 4 <= n);
            let rest = slice_of(&cs, a + 4, n);
            proof {
                crate::cron::lemma_index_of(rest@, '\n');
            }
            let mut j: usize = 0;
            while j < rest.len() && rest[j] != '\n'
                invariant
                    j <= rest@.len(),
                    forall|k: int| 0 <= k < j ==> rest@[k] != '\n',
                decreases rest.len() - j,
            {
                j += 1;
            }
            proof {
                let x = index_of(rest@, '\n');
                if j < rest.len() {
                    if x < 0 || j < x {
                        assert(rest@[j as int] != '\n');
                    }
                    if x >= 0 && x < j {
                        assert(rest@[x] != '\n');
                    }
                } else if x >= 0 {
                    assert(rest@[x] != '\n');
                }
            }
            if j < rest.len() {
                let body = slice_of(&rest, j + 1, rest.len());
                push_str(&mut out, string_of(body.as_slice()).as_str());
            } else {
                push_str(&mut out, unified);
            }
        },
        None => {
            proof {
                if i >= 0 {
                    assert(crate::text::occurs_at(unified@, "+++ "@, i));
                }
            }
            push_str(&mut out, unified);
        },
    }
    out
}

/// The patch of a working file against its committed text, or nothing when
/// they are the same: a line diff with `CONTEXT` lines around each change,
/// under the git file header for `inside`.
pub fn git_patch(inside: &str, head: &str, working: &str) -> (r: Option<String>)
    ensures
        match r {
            None => head@ == working@,
            Some(p) => head@ != working@ && p@ == git_patch_text(
                inside@,
                unified_text(head@, working@, CONTEXT, "a/"@ + inside@, "b/"@ + inside@),
            ),
        },
{
    if str_eq(head, working) {
        return None;
    }
    let a = crate::text::concat("a/", inside);
    let b = crate::text::concat("b/", inside);
    let unified = unified_diff(head, working, CONTEXT, a.as_str(), b.as_str());
    Some(frame_patch(inside, unified.as_str()))
}

} // verus!
