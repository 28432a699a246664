//! The vendored renderers and the one rule for serving them.
//!
//! Two bundles, `diffs` (code and changes) and `vega` (charts), each a flat
//! directory entered through `entry.js`, served under `MOUNT`. A request
//! names a bundle and a file; a name with a separator or a `..` in it is
//! never one of ours, so a path from a request cannot leave its bundle.

use vstd::prelude::*;

use crate::text::{push_str, str_eq};

verus! {

/// Where the bundles are served from.
pub const MOUNT: &'static str = "/vendor";

/// The bundles a page loads, in order.
pub open spec fn bundle_names() -> Seq<Seq<char>> {
    seq!["diffs"@, "vega"@]
}

/// The bundles a page loads, in order (`bundle_names`).
pub fn bundles() -> (r: Vec<&'static str>)
    ensures
        r@.len() == 2,
        r@[0]@ == bundle_names()[0],
        r@[1]@ == bundle_names()[1],
{
    let mut r: Vec<&'static str> = Vec::new();
    r.push("diffs");
    r.push("vega");
    r
}

/// The files of each bundle, by name.
pub struct BundleFiles {
    pub diffs: Vec<(String, Vec<u8>)>,
    pub vega: Vec<(String, Vec<u8>)>,
}

/// Whether `s` holds `c`.
pub open spec fn holds_char(s: Seq<char>, c: char) -> bool {
    exists|i: int| 0 <= i < s.len() && s[i] == c
}

/// Whether `s` holds two dots in a row.
pub open spec fn holds_dots(s: Seq<char>) -> bool {
    exists|i: int| 0 <= i < s.len() - 1 && #[trigger] s[i] == '.' && s[i + 1] == '.'
}

/// A file name that stays inside its bundle.
pub open spec fn flat_name(name: Seq<char>) -> bool {
    !holds_char(name, '/') && !holds_dots(name)
}

/// The bytes stored under `name` in a file list, the first match.
pub open spec fn file_in(files: Seq<(String, Vec<u8>)>, name: Seq<char>) -> Option<Seq<u8>>
    decreases files.len(),
{
    if files.len() == 0 {
        None
    } else if files[0].0@ == name {
        Some(files[0].1@)
    } else {
        file_in(files.drop_first(), name)
    }
}

fn is_flat(name: &str) -> (r: bool)
    ensures
        r == flat_name(name@),
{
    let n = name.unicode_len();
    let mut i: usize = 0;
    while i < n
        invariant
            i <= n,
            n == name@.len(),
            forall|j: int| 0 <= j < i ==> #[trigger] name@[j] != '/',
            forall|j: int| 0 <= j < i && j + 1 < n ==> !(#[trigger] name@[j] == '.' && name@[j + 1] == '.'),
        decreases n - i,
    {
        let c = name.get_char(i);
        if c == '/' {
            return false;
        }
        if c == '.' && i + 1 < n && name.get_char(i + 1) == '.' {
            return false;
        }
        i += 1;
    }
    true
}

fn find_file<'a>(files: &'a Vec<(String, Vec<u8>)>, name: &str) -> (r: Option<&'a Vec<u8>>)
    ensures
        match r {
            Some(b) => file_in(files@, name@) == Some(b@),
            None => file_in(files@, name@) is None,
        },
{
    let mut i: usize = 0;
    assert(files@.skip(0) =~= files@);
    while i < files.len()
        invariant
            i <= files@.len(),
            file_in(files@, name@) == file_in(files@.skip(i as int), name@),
        decreases files.len() - i,
    {
        let ghost rest = files@.skip(i as int);
        assert(rest[0] == files@[i as int]);
        assert(rest.drop_first() =~= files@.skip(i + 1));
        if str_eq(files[i].0.as_str(), name) {
            return Some(&files[i].1);
        }
        i += 1;
    }
    None
}

/// One vendored file, by bundle and name. Nothing for a name that is not
/// flat, for a bundle that is not vendored, or for a file the bundle lacks:
/// a path from a request never reaches anything else.
pub fn asset<'a>(files: &'a BundleFiles, bundle: &str, name: &str) -> (r: Option<&'a Vec<u8>>)
    ensures
        match r {
            Some(b) => flat_name(name@) && (if bundle@ == "diffs"@ {
                file_in(files.diffs@, name@) == Some(b@)
            } else {
                bundle@ == "vega"@ && file_in(files.vega@, name@) == Some(b@)
            }),
            None => !flat_name(name@) || (if bundle@ == "diffs"@ {
                file_in(files.diffs@, name@) is None
            } else if bundle@ == "vega"@ {
                file_in(files.vega@, name@) is None
            } else {
                true
            }),
        },
{
    if !is_flat(name) {
        return None;
    }
    if str_eq(bundle, "diffs") {
        find_file(&files.diffs, name)
    } else if str_eq(bundle, "vega") {
        find_file(&files.vega, name)
    } else {
        None
    }
}

/// The tag that loads one bundle.
pub open spec fn tag(b: Seq<char>) -> Seq<char> {
    "<script type=\"module\" src=\""@ + "/vendor"@ + "/"@ + b + "/entry.js\"></script>"@
}

/// The `<script>` tags the page needs, one module per bundle, in order.
pub fn script_tag() -> (r: String)
    ensures
        r@ == tag(bundle_names()[0]) + tag(bundle_names()[1]),
{
    let bs = bundles();
    let mut out = String::new();
    let mut i: usize = 0;
    while i < 2
        invariant
            i <= 2,
            bs@.len() == 2,
            bs@[0]@ == bundle_names()[0],
            bs@[1]@ == bundle_names()[1],
            out@ == if i == 0 {
                Seq::<char>::empty()
            } else if i == 1 {
                tag(bundle_names()[0])
            } else {
                tag(bundle_names()[0]) + tag(bundle_names()[1])
            },
        decreases 2 - i,
    {
        let ghost before = out@;
        push_str(&mut out, "<script type=\"module\" src=\"");
        push_str(&mut out, MOUNT);
        push_str(&mut out, "/");
        push_str(&mut out, bs[i]);
        push_str(&mut out, "/entry.js\"></script>");
        assert(out@ =~= before + tag(bs@[i as int]@));
        i += 1;
    }
    out
}

} // verus!
