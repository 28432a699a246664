//! The durable-step engine's decisions.
//!
//! A workflow is re-invoked from the top; every `step` has a key (the nth
//! occurrence of its name in the run) and a recorded row answers it on
//! replay. This module holds what decides: the keys, what a recorded row
//! means for a step, a park and a sleep, how a run's status reads, and the
//! run id's text. The database and the clock stay with the caller.

use vstd::prelude::*;

use crate::json::Json;
use crate::text::{decimal, push_char, push_decimal, push_str, str_eq};

verus! {

/// Where a run stands.
#[derive(Debug, Clone, Copy, PartialEq, Eq, Structural)]
pub enum Status {
    Running,
    Suspended,
    Done,
    Failed,
}

pub open spec fn status_name(s: Status) -> Seq<char> {
    match s {
        Status::Running => "running"@,
        Status::Suspended => "suspended"@,
        Status::Done => "done"@,
        Status::Failed => "failed"@,
    }
}

impl Status {
    /// The name stored in the runs table.
    pub fn as_str(self) -> (r: &'static str)
        ensures
            r@ == status_name(self),
    {
        match self {
            Status::Running => "running",
            Status::Suspended => "suspended",
            Status::Done => "done",
            Status::Failed => "failed",
        }
    }
}

/// A stored status that ends a run: re-invoking it runs nothing.
pub fn terminal(stored: &str) -> (r: Option<Status>)
    ensures
        r == if stored@ == "done"@ {
            Some(Status::Done)
        } else if stored@ == "failed"@ {
            Some(Status::Failed)
        } else {
            None::<Status>
        },
{
    if str_eq(stored, "done") {
        Some(Status::Done)
    } else if str_eq(stored, "failed") {
        Some(Status::Failed)
    } else {
        None
    }
}

/// A workflow parking: with a deadline it is due again then; without one
/// only a person or an event moves it.
pub struct Suspend {
    pub wake_at: Option<i64>,
    pub note: String,
}

/// What one invocation of a run came to.
pub struct Outcome {
    pub status: Status,
    pub result: Option<Json>,
    pub error: Option<String>,
    pub wake_at: Option<i64>,
    pub note: Option<String>,
}

/// The outcome of re-invoking a run that already ended: its status and
/// nothing else.
pub fn settled(status: Status) -> (o: Outcome)
    ensures
        o.status == status,
        o.result is None,
        o.error is None,
        o.wake_at is None,
        o.note is None,
{
    Outcome { status, result: None, error: None, wake_at: None, note: None }
}

/// The outcome of a run that parked.
pub fn parked(s: Suspend) -> (o: Outcome)
    ensures
        o.status == Status::Suspended,
        o.result is None,
        o.error is None,
        o.wake_at == s.wake_at,
        o.note == Some(s.note),
{
    Outcome { status: Status::Suspended, result: None, error: None, wake_at: s.wake_at, note: Some(s.note) }
}

/// How a workflow body ended.
pub enum Ended {
    /// It returned this result.
    Returned(Json),
    /// It parked.
    Parked(Suspend),
    /// It failed with this message.
    Errored(String),
}

/// What a run's row is updated to once its body ended: `done` with no wake
/// time and no note; `suspended` with its wake time and note; `failed` with
/// the error and no wake time.
pub enum RowUpdate {
    Done,
    Suspended { wake_at: Option<i64>, note: String },
    Failed { error: String },
}

/// The status a row update stores.
pub open spec fn stored_status(u: RowUpdate) -> Status {
    match u {
        RowUpdate::Done => Status::Done,
        RowUpdate::Suspended { .. } => Status::Suspended,
        RowUpdate::Failed { .. } => Status::Failed,
    }
}

/// What to do with a run, by the status its row holds.
pub enum RunStart {
    /// It already ended: answer this, and run nothing.
    Replay(Outcome),
    /// Drive its body (again), replaying what it recorded.
    Drive,
}

/// The status a stored name ends a run with, if it does.
pub open spec fn ended_status(stored: Seq<char>) -> Option<Status> {
    if stored == "done"@ {
        Some(Status::Done)
    } else if stored == "failed"@ {
        Some(Status::Failed)
    } else {
        None
    }
}

/// What invoking a run starts with: a run whose row says it ended is
/// answered with its status and nothing else; any other is driven.
pub fn run_start(stored: &str) -> (r: RunStart)
    ensures
        match r {
            RunStart::Replay(o) => ended_status(stored@) == Some(o.status) && o.result is None && o.error is None
                && o.wake_at is None && o.note is None,
            RunStart::Drive => ended_status(stored@) is None,
        },
{
    match terminal(stored) {
        Some(st) => RunStart::Replay(settled(st)),
        None => RunStart::Drive,
    }
}

/// What a driven run comes to, and what its row is updated to.
pub fn run_end(e: Ended) -> (r: (Outcome, RowUpdate))
    ensures
        match e {
            Ended::Returned(j) => r.0.status == Status::Done && r.0.result == Some(j) && r.0.error is None
                && r.0.wake_at is None && r.0.note is None && r.1 is Done,
            Ended::Parked(s) => r.0.status == Status::Suspended && r.0.result is None && r.0.error is None
                && r.0.wake_at == s.wake_at && r.0.note == Some(s.note) && r.1 == (RowUpdate::Suspended {
                wake_at: s.wake_at,
                note: s.note,
            }),
            Ended::Errored(m) => r.0.status == Status::Failed && r.0.result is None && r.0.error == Some(m)
                && r.0.wake_at is None && r.0.note is None && r.1 == (RowUpdate::Failed { error: m }),
        },
        stored_status(r.1) == r.0.status,
{
    match e {
        Ended::Returned(j) => (
            Outcome { status: Status::Done, result: Some(j), error: None, wake_at: None, note: None },
            RowUpdate::Done,
        ),
        Ended::Parked(s) => {
            let u = RowUpdate::Suspended { wake_at: s.wake_at, note: s.note.clone() };
            (parked(s), u)
        },
        Ended::Errored(m) => {
            let u = RowUpdate::Failed { error: m.clone() };
            (Outcome { status: Status::Failed, result: None, error: Some(m), wake_at: None, note: None }, u)
        },
    }
}

/// Invoking a run again once it finished replays its status and runs
/// nothing: whatever a body that returned or failed stored, the next
/// invocation is answered with that status alone.
pub proof fn law_a_finished_run_replays_its_status(u: RowUpdate)
    requires
        stored_status(u) != Status::Suspended,
    ensures
        ended_status(status_name(stored_status(u))) == Some(stored_status(u)),
{
    reveal_strlit("done");
    reveal_strlit("failed");
    assert("failed"@.len() != "done"@.len());
}

// --- step keys ---------------------------------------------------------------

/// How many times each step name has come up in this invocation.
pub struct StepKeys {
    seen: Vec<(String, u32)>,
}

/// The count recorded for `name`, zero if none.
pub open spec fn count_of(seen: Seq<(Seq<char>, u32)>, name: Seq<char>) -> nat
    decreases seen.len(),
{
    if seen.len() == 0 {
        0
    } else if seen.last().0 == name {
        seen.last().1 as nat
    } else {
        count_of(seen.drop_last(), name)
    }
}

impl StepKeys {
    pub closed spec fn counts(&self) -> Seq<(Seq<char>, u32)> {
        Seq::new(self.seen@.len(), |i: int| (self.seen@[i].0@, self.seen@[i].1))
    }

    /// How many times `name` has had a key.
    pub open spec fn count(&self, name: Seq<char>) -> nat {
        count_of(self.counts(), name)
    }

    /// No step has come up yet.
    pub fn new() -> (k: StepKeys)
        ensures
            forall|n: Seq<char>| #[trigger] k.count(n) == 0,
    {
        let k = StepKeys { seen: Vec::new() };
        assert(k.counts() =~= Seq::<(Seq<char>, u32)>::empty());
        k
    }

    /// The newest entry for `name`.
    fn last_index(&self, name: &str) -> (r: Option<usize>)
        ensures
            match r {
                Some(j) => j < self.seen@.len() && count_of(self.counts(), name@) == self.seen@[j as int].1,
                None => count_of(self.counts(), name@) == 0,
            },
    {
        let ghost all = self.counts();
        let mut i: usize = self.seen.len();
        assert(all.subrange(0, i as int) =~= all);
        while i > 0
            invariant
                i <= self.seen@.len(),
                all == self.counts(),
                all.len() == self.seen@.len(),
                count_of(all, name@) == count_of(all.subrange(0, i as int), name@),
            decreases i,
        {
            let ghost pre = all.subrange(0, i as int);
            assert(pre.drop_last() =~= all.subrange(0, i - 1));
            assert(pre.last() == all[i - 1]);
            if str_eq(self.seen[i - 1].0.as_str(), name) {
                return Some(i - 1);
            }
            i -= 1;
        }
        assert(all.subrange(0, 0) =~= Seq::<(Seq<char>, u32)>::empty());
        None
    }

    /// The key of the next occurrence of `name`: `name#n` for the nth. The
    /// nth occurrence of a name is its identity, stable across replays
    /// because the workflow body is deterministic.
    pub fn next_key(&mut self, name: &str) -> (key: String)
        requires
            old(self).count(name@) < u32::MAX,
        ensures
            key@ == name@ + "#"@ + decimal(old(self).count(name@) + 1),
            final(self).count(name@) == old(self).count(name@) + 1,
            forall|n: Seq<char>| n != name@ ==> #[trigger] final(self).count(n) == old(self).count(n),
    {
        let ghost before = self.counts();
        let n: u32 = match self.last_index(name) {
            Some(j) => self.seen[j].1,
            None => 0,
        };
        assert(n == count_of(before, name@));
        let next = n + 1;
        self.seen.push((name.to_owned(), next));
        assert(self.counts() =~= before.push((name@, next)));
        assert(self.counts().drop_last() =~= before);
        assert forall|m: Seq<char>| m != name@ implies #[trigger] self.count(m) == count_of(before, m) by {
            assert(self.counts().last().0 == name@);
        }
        let mut key = name.to_owned();
        push_char(&mut key, '#');
        push_decimal(&mut key, next as u64);
        proof {
            assert(seq!['#'] =~= "#"@) by {
                reveal_strlit("#");
            }
        }
        key
    }
}

// --- what a recorded row means ------------------------------------------------

/// A recorded step row: its JSON result text, or the error recorded instead.
pub struct Recorded {
    pub result: Option<String>,
    pub error: Option<String>,
}

/// What a step does, given its row (if any).
pub enum Replay {
    /// No row: run the step now and record what it returns.
    Execute,
    /// The recorded result text, to decode (`null` when none was stored).
    Value(String),
    /// The recorded error, raised again.
    Fail(String),
}

/// A step replays its recorded error, else its recorded result, else runs.
pub fn replay_step(row: Option<&Recorded>) -> (r: Replay)
    ensures
        match row {
            None => r is Execute,
            Some(rec) => match rec.error {
                Some(e) => r matches Replay::Fail(m) && m@ == e@,
                None => r matches Replay::Value(v) && v@ == match rec.result {
                    Some(t) => t@,
                    None => "null"@,
                },
            },
        },
{
    match row {
        None => Replay::Execute,
        Some(rec) => match &rec.error {
            Some(e) => Replay::Fail(e.clone()),
            None => match &rec.result {
                Some(t) => Replay::Value(t.clone()),
                None => Replay::Value("null".to_owned()),
            },
        },
    }
}

/// What a park does, given its row (if any).
pub enum ParkStep {
    /// No row: record the park as `"parked"` and suspend.
    RecordAndSuspend,
    /// Released by a person: carry on past it.
    Proceed,
    /// Still parked: suspend again against the same note, recording nothing.
    Suspend,
    /// The recorded error, raised again.
    Fail(String),
}

/// The recorded value of a park that a person released.
pub open spec fn released_text() -> Seq<char> {
    "\"released\""@
}

/// A park is satisfiable: released, it lets the run through; otherwise it
/// suspends, recording the park only the first time.
pub fn replay_park(row: Option<&Recorded>) -> (r: ParkStep)
    ensures
        match row {
            None => r is RecordAndSuspend,
            Some(rec) => match rec.error {
                Some(e) => r matches ParkStep::Fail(m) && m@ == e@,
                None => if rec.result matches Some(t) && t@ == released_text() {
                    r is Proceed
                } else {
                    r is Suspend
                },
            },
        },
{
    match row {
        None => ParkStep::RecordAndSuspend,
        Some(rec) => match &rec.error {
            Some(e) => ParkStep::Fail(e.clone()),
            None => match &rec.result {
                Some(t) => if str_eq(t.as_str(), "\"released\"") {
                    ParkStep::Proceed
                } else {
                    ParkStep::Suspend
                },
                None => ParkStep::Suspend,
            },
        },
    }
}

/// A sleep's deadline is a step, so it is fixed the first time the line is
/// reached; before it the run parks until then, after it the run goes on.
pub fn sleep_wait(now: i64, deadline: i64, until: &str) -> (r: Option<Suspend>)
    ensures
        match r {
            Some(s) => now < deadline && s.wake_at == Some(deadline) && s.note@ == "sleeping until "@
                + until@,
            None => now >= deadline,
        },
{
    if now < deadline {
        let mut note = "sleeping until ".to_owned();
        push_str(&mut note, until);
        Some(Suspend { wake_at: Some(deadline), note })
    } else {
        None
    }
}

// --- ids and unit names ------------------------------------------------------

pub open spec fn hex_digit(d: nat) -> char {
    if d < 10 {
        ((d + 48) as u32) as char
    } else {
        ((d + 87) as u32) as char
    }
}

/// A byte as two lower-case hex digits.
pub open spec fn hex_byte(b: u8) -> Seq<char> {
    seq![hex_digit((b / 16) as nat), hex_digit((b % 16) as nat)]
}

/// Bytes as lower-case hex.
pub open spec fn hex(bs: Seq<u8>) -> Seq<char>
    decreases bs.len(),
{
    if bs.len() == 0 {
        seq![]
    } else {
        hex(bs.drop_last()) + hex_byte(bs.last())
    }
}

/// The 16 bytes of a version-4 UUID: the version nibble set to 4 and the
/// variant bits to `10`.
pub open spec fn uuid_bytes(b: Seq<u8>) -> Seq<u8> {
    b.update(6, (b[6] & 0x0f) | 0x40).update(8, (b[8] & 0x3f) | 0x80)
}

/// The canonical text: hex in groups of 8, 4, 4, 4 and 12, joined by `-`.
pub open spec fn uuid_text(b: Seq<u8>) -> Seq<char> {
    let h = hex(uuid_bytes(b));
    h.subrange(0, 8) + seq!['-'] + h.subrange(8, 12) + seq!['-'] + h.subrange(12, 16) + seq!['-']
        + h.subrange(16, 20) + seq!['-'] + h.subrange(20, 32)
}

fn hex_char(d: u8) -> (c: char)
    requires
        d < 16,
    ensures
        c == hex_digit(d as nat),
{
    if d < 10 {
        (d + 48) as char
    } else {
        (d + 87) as char
    }
}

proof fn lemma_hex_len(bs: Seq<u8>)
    ensures
        hex(bs).len() == 2 * bs.len(),
    decreases bs.len(),
{
    if bs.len() > 0 {
        lemma_hex_len(bs.drop_last());
    }
}

/// A version-4 UUID from 16 random bytes, which the caller draws.
pub fn uuid_v4(random: &[u8; 16]) -> (r: String)
    ensures
        r@ == uuid_text(random@),
{
    let mut b: Vec<u8> = Vec::new();
    let mut i: usize = 0;
    while i < 16
        invariant
            i <= 16,
            random@.len() == 16,
            b@ == random@.subrange(0, i as int),
        decreases 16 - i,
    {
        b.push(random[i]);
        i += 1;
    }
    assert(b@ =~= random@);
    let b6 = (b[6] & 0x0f) | 0x40;
    b.set(6, b6);
    let b8 = (b[8] & 0x3f) | 0x80;
    b.set(8, b8);
    assert(b@ =~= uuid_bytes(random@));
    let mut h: Vec<char> = Vec::new();
    let mut j: usize = 0;
    while j < 16
        invariant
            j <= 16,
            b@.len() == 16,
            h@ == hex(b@.subrange(0, j as int)),
        decreases 16 - j,
    {
        let x = b[j];
        assert(b@.subrange(0, j + 1).drop_last() =~= b@.subrange(0, j as int));
        h.push(hex_char(x / 16));
        h.push(hex_char(x % 16));
        assert(h@ =~= hex(b@.subrange(0, j as int)) + hex_byte(x));
        j += 1;
    }
    assert(b@.subrange(0, 16) =~= b@);
    proof {
        lemma_hex_len(b@);
    }
    let mut out = String::new();
    push_range(&mut out, &h, 0, 8);
    push_char(&mut out, '-');
    push_range(&mut out, &h, 8, 12);
    push_char(&mut out, '-');
    push_range(&mut out, &h, 12, 16);
    push_char(&mut out, '-');
    push_range(&mut out, &h, 16, 20);
    push_char(&mut out, '-');
    push_range(&mut out, &h, 20, 32);
    assert(out@ =~= uuid_text(random@));
    out
}

/// Appends `h[a..b]`.
fn push_range(out: &mut String, h: &Vec<char>, a: usize, b: usize)
    requires
        a <= b <= h@.len(),
    ensures
        final(out)@ == old(out)@ + h@.subrange(a as int, b as int),
{
    let mut k = a;
    while k < b
        invariant
            a <= k <= b,
            b <= h@.len(),
            out@ == old(out)@ + h@.subrange(a as int, k as int),
        decreases b - k,
    {
        push_char(out, h[k]);
        assert(h@.subrange(a as int, k + 1) =~= h@.subrange(a as int, k as int).push(h@[k as int]));
        k += 1;
    }
}

pub open spec fn is_ascii_alnum(c: char) -> bool {
    ('0' <= c && c <= '9') || ('a' <= c && c <= 'z') || ('A' <= c && c <= 'Z')
}

/// A step key made safe for a unit name: every character that is not an
/// ASCII letter or digit becomes `-`.
pub open spec fn slug(key: Seq<char>) -> Seq<char> {
    Seq::new(key.len(), |i: int| if is_ascii_alnum(key[i]) { key[i] } else { '-' })
}

/// The first `n` bytes of a text in UTF-8, as whole characters: a character
/// that starts before byte `n` is taken whole.
pub open spec fn byte_prefix(s: Seq<char>, n: int) -> Seq<char>
    decreases s.len(),
{
    if s.len() == 0 || n <= 0 {
        seq![]
    } else {
        seq![s[0]] + byte_prefix(s.drop_first(), n - crate::demo::utf8_width(s[0]))
    }
}

/// How many bytes a text takes in UTF-8, counted from the front.
pub open spec fn bytes_in(s: Seq<char>) -> int
    decreases s.len(),
{
    if s.len() == 0 {
        0
    } else {
        crate::demo::utf8_width(s[0]) + bytes_in(s.drop_first())
    }
}

proof fn lemma_bytes_in_front(c: char, t: Seq<char>)
    ensures
        bytes_in(seq![c] + t) == crate::demo::utf8_width(c) + bytes_in(t),
{
    assert((seq![c] + t).drop_first() =~= t);
}

proof fn lemma_bytes_in_nonneg(s: Seq<char>)
    ensures
        bytes_in(s) >= 0,
    decreases s.len(),
{
    if s.len() > 0 {
        lemma_bytes_in_nonneg(s.drop_first());
    }
}

fn char_width(c: char) -> (w: i64)
    ensures
        w == crate::demo::utf8_width(c),
{
    let v = c as u32;
    if v < 0x80 {
        1
    } else if v < 0x800 {
        2
    } else if v < 0x10000 {
        3
    } else {
        4
    }
}

/// The transient unit a step's command runs under: `pm-`, the run id's
/// first eight bytes, `-`, and the step key made safe. Stable across
/// replays because the step key is. The run id must hold eight bytes that
/// end on a character boundary (slicing it there panics otherwise).
pub fn unit_name(run_id: &str, key: &str) -> (r: String)
    requires
        bytes_in(byte_prefix(run_id@, 8)) == 8,
    ensures
        r@ == "pm-"@ + byte_prefix(run_id@, 8) + "-"@ + slug(key@),
{
    let mut out = "pm-".to_owned();
    let n = run_id.unicode_len();
    let mut i: usize = 0;
    let mut rem: i64 = 8;
    assert(run_id@.skip(0) =~= run_id@);
    assert(run_id@.subrange(0, 0) =~= Seq::<char>::empty());
    while rem > 0
        invariant
            i <= n,
            n == run_id@.len(),
            rem <= 8,
            byte_prefix(run_id@, 8) == run_id@.subrange(0, i as int) + byte_prefix(run_id@.skip(i as int), rem as int),
            bytes_in(byte_prefix(run_id@.skip(i as int), rem as int)) == rem,
            out@ == "pm-"@ + run_id@.subrange(0, i as int),
        decreases rem,
    {
        let ghost t = run_id@.skip(i as int);
        if i >= n {
            assert(t.len() == 0);
            assert(false);
        }
        let c = run_id.get_char(i);
        assert(t[0] == c);
        assert(t.drop_first() =~= run_id@.skip(i + 1));
        let w = char_width(c);
        let ghost rest = byte_prefix(run_id@.skip(i + 1), rem - w);
        assert(byte_prefix(t, rem as int) == seq![c] + rest);
        proof {
            lemma_bytes_in_front(c, rest);
            lemma_bytes_in_nonneg(rest);
        }
        push_char(&mut out, c);
        assert(run_id@.subrange(0, i + 1) =~= run_id@.subrange(0, i as int).push(c));
        assert(run_id@.subrange(0, i as int) + (seq![c] + rest) =~= run_id@.subrange(0, i + 1) + rest);
        i += 1;
        rem = rem - w;
    }
    assert(byte_prefix(run_id@.skip(i as int), rem as int) =~= Seq::<char>::empty());
    assert(run_id@.subrange(0, i as int) + Seq::<char>::empty() =~= run_id@.subrange(0, i as int));
    push_str(&mut out, "-");
    let ghost base = out@;
    let n = key.unicode_len();
    let mut j: usize = 0;
    while j < n
        invariant
            j <= n,
            n == key@.len(),
            out@ == base + slug(key@).subrange(0, j as int),
        decreases n - j,
    {
        let c = key.get_char(j);
        let d = if ('0' <= c && c <= '9') || ('a' <= c && c <= 'z') || ('A' <= c && c <= 'Z') {
            c
        } else {
            '-'
        };
        push_char(&mut out, d);
        assert(slug(key@).subrange(0, j + 1) =~= slug(key@).subrange(0, j as int).push(d));
        j += 1;
    }
    assert(slug(key@).subrange(0, n as int) =~= slug(key@));
    out
}

} // verus!
