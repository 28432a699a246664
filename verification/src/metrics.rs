//! Where the box's own numbers come from: the user's cgroup and uid.

use vstd::prelude::*;

use crate::cron::{parse_u32, pieces, split_pieces, split_words, vviews, words};
use crate::text::{chars_of, decimal, push_decimal, push_str};

verus! {

/// Whether `line` starts with `Uid:`.
pub open spec fn uid_line(line: Seq<char>) -> bool {
    line.len() >= 4 && line.subrange(0, 4) == seq!['U', 'i', 'd', ':']
}

/// The uid a process status text reports: the second field of its first
/// `Uid:` line, or 1000 when that is missing or not a number.
pub open spec fn uid_of(status: Seq<char>) -> u32 {
    let lines = pieces(status, '\n');
    let i = first_uid_line(lines);
    if i < 0 {
        1000
    } else {
        let w = words(lines[i]);
        if w.len() < 2 {
            1000
        } else {
            match parse_u32(w[1]) {
                Some(n) => n,
                None => 1000,
            }
        }
    }
}

/// Where the first `Uid:` line is, or `-1`.
pub open spec fn first_uid_line(lines: Seq<Seq<char>>) -> int
    decreases lines.len(),
{
    if lines.len() == 0 {
        -1
    } else if uid_line(lines[0]) {
        0
    } else {
        let r = first_uid_line(lines.drop_first());
        if r < 0 {
            -1
        } else {
            r + 1
        }
    }
}

proof fn lemma_first_uid_line(lines: Seq<Seq<char>>)
    ensures
        -1 <= first_uid_line(lines) < lines.len(),
        first_uid_line(lines) >= 0 ==> uid_line(lines[first_uid_line(lines)]),
        forall|i: int|
            0 <= i < lines.len() && (first_uid_line(lines) < 0 || i < first_uid_line(lines))
                ==> !uid_line(#[trigger] lines[i]),
    decreases lines.len(),
{
    if lines.len() > 0 && !uid_line(lines[0]) {
        lemma_first_uid_line(lines.drop_first());
        assert forall|i: int|
            0 <= i < lines.len() && (first_uid_line(lines) < 0 || i < first_uid_line(lines))
                implies !uid_line(#[trigger] lines[i]) by {
            if i > 0 {
                assert(lines[i] == lines.drop_first()[i - 1]);
            }
        }
    }
}

/// The uid a process status text reports (`/proc/self/status`).
#[verifier::loop_isolation(false)]
pub fn nix_uid(status: &str) -> (r: u32)
    ensures
        r == uid_of(status@),
{
    let cs = chars_of(status);
    let lines = split_pieces(&cs, '\n');
    let ghost lv = vviews(lines@);
    proof {
        lemma_first_uid_line(lv);
    }
    let mut i: usize = 0;
    while i < lines.len()
        invariant
            i <= lines@.len(),
            lv == vviews(lines@),
            lv == pieces(status@, '\n'),
            forall|j: int| 0 <= j < i ==> !uid_line(#[trigger] lv[j]),
        decreases lines.len() - i,
    {
        let l = &lines[i];
        if l.len() >= 4 && l[0] == 'U' && l[1] == 'i' && l[2] == 'd' && l[3] == ':' {
            assert(l@.subrange(0, 4) =~= seq!['U', 'i', 'd', ':']);
            assert(uid_line(lv[i as int]));
            proof {
                let k = first_uid_line(lv);
                if k < 0 || i < k {
                    assert(!uid_line(lv[i as int]));
                }
                if k >= 0 && k < i {
                    assert(!uid_line(lv[k]));
                }
            }
            let w = split_words(l);
            if w.len() < 2 {
                return 1000;
            }
            return match crate::cron::parse_u32_exec(&w[1]) {
                Some(n) => n,
                None => 1000,
            };
        }
        proof {
            if l@.len() >= 4 {
                assert(l@.subrange(0, 4) != seq!['U', 'i', 'd', ':'] || !(l@[0] == 'U' && l@[1] == 'i'
                    && l@[2] == 'd' && l@[3] == ':'));
            }
        }
        i += 1;
    }
    proof {
        let k = first_uid_line(lv);
        if k >= 0 {
            assert(!uid_line(lv[k]));
        }
    }
    1000
}

/// The user's app slice in the cgroup tree, where the units it starts live.
pub fn app_slice(uid: u32) -> (r: String)
    ensures
        r@ == "/sys/fs/cgroup/user.slice/user-"@ + decimal(uid as nat) + ".slice/user@"@ + decimal(
            uid as nat,
        ) + ".service/app.slice"@,
{
    let mut s = "/sys/fs/cgroup/user.slice/user-".to_owned();
    push_decimal(&mut s, uid as u64);
    push_str(&mut s, ".slice/user@");
    push_decimal(&mut s, uid as u64);
    push_str(&mut s, ".service/app.slice");
    s
}

} // verus!
