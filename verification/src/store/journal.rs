//! The command journal: append-only history.
//!
//! Undo does not rewind or delete entries — it *appends* an undo marker naming
//! the gesture it reversed, and redo appends in turn. The functions here decide,
//! over the journal's rows in journal order, what undo and redo act on next.
use vstd::prelude::*;

verus! {

pub const KIND_COMMAND: &'static str = "command";
pub const KIND_UNDO: &'static str = "undo";
pub const KIND_REDO: &'static str = "redo";

/// One journal entry, as replay walks it.
pub struct Entry {
    pub seq: i64,
    pub gesture: i64,
    pub kind: String,
    pub target_gesture: Option<i64>,
}

/// Does `e` have kind `k`?
pub open spec fn has_kind(e: Entry, k: Seq<char>) -> bool {
    e.kind@ == k
}

pub open spec fn is_command(e: Entry) -> bool {
    has_kind(e, KIND_COMMAND@)
}

pub open spec fn is_undo(e: Entry) -> bool {
    has_kind(e, KIND_UNDO@)
}

pub open spec fn is_redo(e: Entry) -> bool {
    has_kind(e, KIND_REDO@)
}

/// The three kinds are distinct words.
pub proof fn lemma_kinds_distinct()
    ensures
        KIND_COMMAND@ != KIND_UNDO@,
        KIND_COMMAND@ != KIND_REDO@,
        KIND_UNDO@ != KIND_REDO@,
{
    reveal_strlit("command");
    reveal_strlit("undo");
    reveal_strlit("redo");
    assert(KIND_COMMAND@.len() != KIND_UNDO@.len());
    assert(KIND_COMMAND@.len() != KIND_REDO@.len());
    assert(KIND_UNDO@[0] != KIND_REDO@[0]);
}

fn kind_is(e: &Entry, k: &String) -> (r: bool)
    ensures
        r == (e.kind@ == k@),
{
    e.kind == *k
}


// ── The journal's meaning, over its rows in journal order ────────────────────

/// The highest gesture number in the journal, if it has any entry.
pub open spec fn highest_gesture(s: Seq<Entry>) -> Option<i64>
    decreases s.len(),
{
    if s.len() == 0 {
        None
    } else {
        match highest_gesture(s.drop_last()) {
            None => Some(s.last().gesture),
            Some(h) => Some(if s.last().gesture > h { s.last().gesture } else { h }),
        }
    }
}

/// How many markers of kind `k` name gesture `g`.
pub open spec fn marker_count(s: Seq<Entry>, k: Seq<char>, g: i64) -> nat
    decreases s.len(),
{
    if s.len() == 0 {
        0
    } else {
        marker_count(s.drop_last(), k, g) + if has_kind(s.last(), k) && s.last().target_gesture
            == Some(g) {
            1nat
        } else {
            0nat
        }
    }
}

/// A gesture is currently undone when it has been undone more often than redone.
pub open spec fn undone(s: Seq<Entry>, g: i64) -> bool {
    marker_count(s, KIND_UNDO@, g) > marker_count(s, KIND_REDO@, g)
}

/// Some command entry belongs to gesture `g`.
pub open spec fn has_command(s: Seq<Entry>, g: i64) -> bool {
    exists|i: int| 0 <= i < s.len() && is_command(#[trigger] s[i]) && s[i].gesture == g
}

/// A gesture undo could act on: it ran commands and is not currently undone.
pub open spec fn undoable(s: Seq<Entry>, g: i64) -> bool {
    has_command(s, g) && !undone(s, g)
}

/// A gesture redo can still reach: one on the live redo stack. A gesture
/// undone before the latest command is no longer among them.
pub open spec fn redoable(s: Seq<Entry>, g: i64) -> bool {
    live_stack(s).contains(g)
}

/// Where the live run of markers begins: just past the last command entry.
pub open spec fn live_start(s: Seq<Entry>) -> int
    decreases s.len(),
{
    if s.len() == 0 {
        0
    } else if is_command(s.last()) {
        s.len() as int
    } else {
        live_start(s.drop_last())
    }
}

/// The redo stack a run of markers leaves: each undo pushes the gesture it
/// undid, each redo pops.
pub open spec fn redo_stack(run: Seq<Entry>) -> Seq<i64>
    decreases run.len(),
{
    if run.len() == 0 {
        seq![]
    } else {
        let below = redo_stack(run.drop_last());
        let e = run.last();
        if is_undo(e) && e.target_gesture is Some {
            below.push(e.target_gesture->0)
        } else if is_redo(e) {
            if below.len() > 0 {
                below.drop_last()
            } else {
                below
            }
        } else {
            below
        }
    }
}

/// The live redo stack: the stack the run of markers after the last command
/// entry leaves.
pub open spec fn live_stack(s: Seq<Entry>) -> Seq<i64> {
    redo_stack(s.skip(live_start(s)))
}

/// The gesture redo acts on: the top of the live run's stack.
pub open spec fn redo_target(s: Seq<Entry>) -> Option<i64> {
    let stack = live_stack(s);
    if stack.len() == 0 {
        None
    } else {
        Some(stack.last())
    }
}

/// The sequence numbers of gesture `g`'s command entries, in journal order.
pub open spec fn gesture_commands(s: Seq<Entry>, g: i64) -> Seq<i64>
    decreases s.len(),
{
    if s.len() == 0 {
        seq![]
    } else {
        let before = gesture_commands(s.drop_last(), g);
        if is_command(s.last()) && s.last().gesture == g {
            before.push(s.last().seq)
        } else {
            before
        }
    }
}

pub open spec fn undoable_set(s: Seq<Entry>) -> Set<i64> {
    Set::new(|g: i64| undoable(s, g))
}

pub open spec fn redoable_set(s: Seq<Entry>) -> Set<i64> {
    Set::new(|g: i64| redoable(s, g))
}


// ── Lemmas about journal prefixes ─────────────────────────────────────────────

proof fn lemma_take_step(s: Seq<Entry>, i: int)
    requires
        0 <= i < s.len(),
    ensures
        s.take(i + 1).drop_last() =~= s.take(i),
        s.take(i + 1).last() == s[i],
{
}

proof fn lemma_highest_bounds(s: Seq<Entry>)
    ensures
        highest_gesture(s) is None <==> s.len() == 0,
        highest_gesture(s) matches Some(h) ==> (forall|i: int|
            0 <= i < s.len() ==> #[trigger] s[i].gesture <= h) && exists|i: int|
            0 <= i < s.len() && #[trigger] s[i].gesture == h,
    decreases s.len(),
{
    if s.len() > 0 {
        let p = s.drop_last();
        lemma_highest_bounds(p);
        let last = s.len() - 1;
        let h = highest_gesture(s)->0;
        assert forall|i: int| 0 <= i < s.len() implies #[trigger] s[i].gesture <= h by {
            if i < last {
                assert(p[i] == s[i]);
            }
        }
        if let Some(hp) = highest_gesture(p) {
            let w = choose|i: int| 0 <= i < p.len() && #[trigger] p[i].gesture == hp;
            assert(p[w] == s[w]);
            if s.last().gesture <= hp {
                assert(s[w].gesture == h);
            } else {
                assert(s[last].gesture == h);
            }
        } else {
            assert(s[last].gesture == h);
        }
    }
}

proof fn lemma_has_command_step(s: Seq<Entry>, i: int, g: i64)
    requires
        0 <= i < s.len(),
    ensures
        has_command(s.take(i + 1), g) <==> (has_command(s.take(i), g) || (is_command(s[i])
            && s[i].gesture == g)),
{
    let a = s.take(i);
    let b = s.take(i + 1);
    if has_command(b, g) {
        let k = choose|k: int| 0 <= k < b.len() && is_command(#[trigger] b[k]) && b[k].gesture == g;
        if k < i {
            assert(a[k] == b[k]);
        }
    }
    if has_command(a, g) {
        let k = choose|k: int| 0 <= k < a.len() && is_command(#[trigger] a[k]) && a[k].gesture == g;
        assert(b[k] == a[k]);
    }
    if is_command(s[i]) && s[i].gesture == g {
        assert(b[i] == s[i]);
    }
}

// ── Executable rules ──────────────────────────────────────────────────────────

/// The next gesture number: one past the highest in the journal, or 1 for an
/// empty journal. Gestures are the undo unit; one gesture may hold several
/// commands, each with its own journal row.
pub fn next_gesture(entries: &[Entry]) -> (r: i64)
    requires
        forall|i: int| 0 <= i < entries@.len() ==> #[trigger] entries@[i].gesture < i64::MAX,
    ensures
        r == match highest_gesture(entries@) {
            Some(h) => h + 1,
            None => 1,
        },
        forall|i: int| 0 <= i < entries@.len() ==> #[trigger] entries@[i].gesture < r,
{
    let mut highest: Option<i64> = None;
    let mut i: usize = 0;
    while i < entries.len()
        invariant
            0 <= i <= entries@.len(),
            highest == highest_gesture(entries@.take(i as int)),
            highest matches Some(h) ==> h < i64::MAX,
            forall|k: int| 0 <= k < entries@.len() ==> #[trigger] entries@[k].gesture < i64::MAX,
        decreases entries@.len() - i,
    {
        proof {
            lemma_take_step(entries@, i as int);
        }
        let g = entries[i].gesture;
        highest = match highest {
            None => Some(g),
            Some(h) => Some(if g > h { g } else { h }),
        };
        i += 1;
    }
    proof {
        assert(entries@.take(entries@.len() as int) =~= entries@);
        lemma_highest_bounds(entries@);
    }
    match highest {
        Some(h) => h + 1,
        None => 1,
    }
}

/// How many undo and redo markers name gesture `g`.
fn marker_counts(entries: &[Entry], g: i64, undo: &String, redo: &String) -> (r: (usize, usize))
    requires
        undo@ == KIND_UNDO@,
        redo@ == KIND_REDO@,
    ensures
        r.0 == marker_count(entries@, KIND_UNDO@, g),
        r.1 == marker_count(entries@, KIND_REDO@, g),
{
    let mut u: usize = 0;
    let mut r: usize = 0;
    let mut i: usize = 0;
    while i < entries.len()
        invariant
            0 <= i <= entries@.len(),
            undo@ == KIND_UNDO@,
            redo@ == KIND_REDO@,
            u == marker_count(entries@.take(i as int), KIND_UNDO@, g),
            r == marker_count(entries@.take(i as int), KIND_REDO@, g),
            u <= i,
            r <= i,
        decreases entries@.len() - i,
    {
        proof {
            lemma_take_step(entries@, i as int);
        }
        let e = &entries[i];
        if e.target_gesture == Some(g) {
            if kind_is(e, undo) {
                u += 1;
            }
            if kind_is(e, redo) {
                r += 1;
            }
        }
        i += 1;
    }
    proof {
        assert(entries@.take(entries@.len() as int) =~= entries@);
    }
    (u, r)
}

/// The most recent gesture that is not currently undone, if any.
///
/// "Currently undone" is a count comparison rather than a flag, so a gesture
/// can be undone and redone any number of times without rewriting history.
pub fn next_undo(entries: &[Entry]) -> (r: Option<i64>)
    ensures
        match r {
            Some(g) => undoable(entries@, g) && forall|h: i64| #[trigger]
                undoable(entries@, h) ==> h <= g,
            None => forall|h: i64| !#[trigger] undoable(entries@, h),
        },
{
    let command = KIND_COMMAND.to_owned();
    let undo = KIND_UNDO.to_owned();
    let redo = KIND_REDO.to_owned();
    let ghost s = entries@;
    let mut best: Option<i64> = None;
    let mut i: usize = 0;
    while i < entries.len()
        invariant
            0 <= i <= s.len(),
            s == entries@,
            command@ == KIND_COMMAND@,
            undo@ == KIND_UNDO@,
            redo@ == KIND_REDO@,
            best matches Some(b) ==> undoable(s, b),
            forall|j: int|
                0 <= j < i && is_command(#[trigger] s[j]) && !undone(s, s[j].gesture) ==> (
                best matches Some(b) && s[j].gesture <= b),
        decreases s.len() - i,
    {
        let e = &entries[i];
        if kind_is(e, &command) {
            let better = match best {
                None => true,
                Some(b) => e.gesture > b,
            };
            if better {
                let (u, r) = marker_counts(entries, e.gesture, &undo, &redo);
                if u <= r {
                    proof {
                        assert(is_command(s[i as int]) && s[i as int].gesture == e.gesture);
                    }
                    best = Some(e.gesture);
                }
            }
        }
        i += 1;
    }
    proof {
        assert forall|h: i64| #[trigger] undoable(s, h) implies (best matches Some(b) && h <= b) by {
            let j = choose|j: int| 0 <= j < s.len() && is_command(#[trigger] s[j]) && s[j].gesture == h;
            assert(is_command(s[j]));
        }
    }
    best
}

/// The gesture to redo, if the redo stack is live.
///
/// **Redo undoes the last undo** — nothing else. A new command invalidates the
/// stack, so only the run of markers after the last command entry is live, and
/// within that run undo pushes and redo pops. The answer is the top of that stack.
pub fn next_redo(entries: &[Entry]) -> (r: Option<i64>)
    ensures
        r == redo_target(entries@),
{
    let mut stack = live_stack_of(entries);
    stack.pop()
}

/// The live redo stack, bottom first.
fn live_stack_of(entries: &[Entry]) -> (r: Vec<i64>)
    ensures
        r@ == live_stack(entries@),
{
    let command = KIND_COMMAND.to_owned();
    let undo = KIND_UNDO.to_owned();
    let redo = KIND_REDO.to_owned();
    let ghost s = entries@;
    let mut start: usize = 0;
    let mut i: usize = 0;
    while i < entries.len()
        invariant
            0 <= i <= s.len(),
            s == entries@,
            command@ == KIND_COMMAND@,
            start == live_start(s.take(i as int)),
            start <= i,
        decreases s.len() - i,
    {
        proof {
            lemma_take_step(s, i as int);
        }
        if kind_is(&entries[i], &command) {
            start = i + 1;
        }
        i += 1;
    }
    proof {
        assert(s.take(s.len() as int) =~= s);
        lemma_kinds_distinct();
    }
    let mut stack: Vec<i64> = Vec::new();
    let mut j: usize = start;
    while j < entries.len()
        invariant
            start <= j <= s.len(),
            s == entries@,
            start == live_start(s),
            undo@ == KIND_UNDO@,
            redo@ == KIND_REDO@,
            KIND_UNDO@ != KIND_REDO@,
            stack@ == redo_stack(s.subrange(start as int, j as int)),
        decreases s.len() - j,
    {
        proof {
            assert(s.subrange(start as int, j + 1).drop_last() =~= s.subrange(start as int, j as int));
        }
        let e = &entries[j];
        if kind_is(e, &undo) {
            if let Some(g) = e.target_gesture {
                stack.push(g);
            }
        } else if kind_is(e, &redo) {
            stack.pop();
        }
        j += 1;
    }
    proof {
        assert(s.skip(start as int) =~= s.subrange(start as int, s.len() as int));
    }
    stack
}

/// Does `v` hold `x`?
fn holds(v: &Vec<i64>, x: i64) -> (r: bool)
    ensures
        r == v@.contains(x),
{
    let mut i: usize = 0;
    while i < v.len()
        invariant
            0 <= i <= v@.len(),
            forall|k: int| 0 <= k < i ==> v@[k] != x,
        decreases v@.len() - i,
    {
        if v[i] == x {
            return true;
        }
        i += 1;
    }
    false
}

/// How many distinct values `v` holds.
fn distinct_count(v: &Vec<i64>) -> (r: usize)
    ensures
        v@.to_set().finite(),
        r == v@.to_set().len(),
{
    let mut seen: Vec<i64> = Vec::new();
    let mut i: usize = 0;
    proof {
        assert(seen@.to_set() =~= v@.take(0).to_set());
    }
    while i < v.len()
        invariant
            0 <= i <= v@.len(),
            seen@.no_duplicates(),
            seen@.to_set() == v@.take(i as int).to_set(),
            seen@.len() <= i,
        decreases v@.len() - i,
    {
        let x = v[i];
        let ghost before = seen@;
        let present = holds(&seen, x);
        if !present {
            seen.push(x);
            proof {
                assert forall|a: int, b: int| 0 <= a < b < seen@.len() implies seen@[a] != seen@[b] by {
                    if b == before.len() {
                        assert(seen@[a] == before[a]);
                        assert(before.contains(before[a]));
                    }
                }
            }
        }
        proof {
            let vt = v@.take(i as int);
            let vn = v@.take(i + 1);
            assert(vn =~= vt.push(x));
            assert(before.to_set() == vt.to_set());
            assert forall|y: i64| #[trigger] seen@.to_set().contains(y) == vn.to_set().contains(y) by {
                if seen@.contains(y) {
                    let k = choose|k: int| 0 <= k < seen@.len() && #[trigger] seen@[k] == y;
                    if k < before.len() {
                        assert(before[k] == y);
                        assert(before.to_set().contains(y));
                        assert(vt.contains(y));
                        let j = choose|j: int| 0 <= j < vt.len() && #[trigger] vt[j] == y;
                        assert(vn[j] == y);
                    } else {
                        assert(vn[i as int] == y);
                    }
                }
                if vn.contains(y) {
                    let j = choose|j: int| 0 <= j < vn.len() && #[trigger] vn[j] == y;
                    if j < i {
                        assert(vt[j] == y);
                        assert(vt.to_set().contains(y));
                        assert(before.contains(y));
                        let k = choose|k: int| 0 <= k < before.len() && #[trigger] before[k] == y;
                        assert(seen@[k] == y);
                    } else if present {
                        assert(y == x);
                        let k = choose|k: int| 0 <= k < before.len() && #[trigger] before[k] == x;
                        assert(seen@[k] == y);
                    } else {
                        assert(y == x);
                        assert(seen@[before.len() as int] == y);
                    }
                }
            }
            assert(seen@.to_set() =~= v@.take(i + 1).to_set());
        }
        i += 1;
    }
    proof {
        assert(v@.take(v@.len() as int) =~= v@);
        seen@.unique_seq_to_set();
        vstd::seq_lib::seq_to_set_is_finite(v@);
    }
    seen.len()
}


/// Sequence numbers of gesture `g`'s command entries in the order they were
/// applied — the rows whose resolved commands make up its redo payload.
pub fn redo_payload_seq(entries: &[Entry], gesture: i64) -> (r: Vec<i64>)
    ensures
        r@ == gesture_commands(entries@, gesture),
{
    let command = KIND_COMMAND.to_owned();
    let ghost s = entries@;
    let mut out: Vec<i64> = Vec::new();
    let mut i: usize = 0;
    while i < entries.len()
        invariant
            0 <= i <= s.len(),
            s == entries@,
            command@ == KIND_COMMAND@,
            out@ == gesture_commands(s.take(i as int), gesture),
        decreases s.len() - i,
    {
        proof {
            lemma_take_step(s, i as int);
        }
        let e = &entries[i];
        if kind_is(e, &command) && e.gesture == gesture {
            out.push(e.seq);
        }
        i += 1;
    }
    proof {
        assert(s.take(s.len() as int) =~= s);
    }
    out
}

/// Sequence numbers of gesture `g`'s command entries ordered to undo it: the
/// entries walked backwards. Each entry's own inverses stay in their order.
pub fn undo_payload_seq(entries: &[Entry], gesture: i64) -> (r: Vec<i64>)
    ensures
        r@ == gesture_commands(entries@, gesture).reverse(),
{
    let forward = redo_payload_seq(entries, gesture);
    let n = forward.len();
    let mut out: Vec<i64> = Vec::new();
    let mut k: usize = 0;
    while k < n
        invariant
            0 <= k <= n,
            n == forward@.len(),
            out@.len() == k,
            forall|m: int| 0 <= m < k ==> #[trigger] out@[m] == forward@[n - 1 - m],
        decreases n - k,
    {
        out.push(forward[n - 1 - k]);
        k += 1;
    }
    proof {
        assert(out@ =~= forward@.reverse());
    }
    out
}

/// Is there a command entry of gesture `g` before position `end`?
fn has_command_before(entries: &[Entry], end: usize, g: i64, command: &String) -> (r: bool)
    requires
        end <= entries@.len(),
        command@ == KIND_COMMAND@,
    ensures
        r == has_command(entries@.take(end as int), g),
{
    let ghost s = entries@;
    let mut i: usize = 0;
    while i < end
        invariant
            0 <= i <= end <= s.len(),
            s == entries@,
            command@ == KIND_COMMAND@,
            !has_command(s.take(i as int), g),
        decreases end - i,
    {
        proof {
            lemma_has_command_step(s, i as int, g);
        }
        let e = &entries[i];
        if kind_is(e, command) && e.gesture == g {
            proof {
                let t = s.take(end as int);
                assert(t[i as int] == s[i as int]);
                assert(is_command(t[i as int]));
            }
            return true;
        }
        i += 1;
    }
    proof {
        assert(s.take(end as int) =~= s.take(i as int));
    }
    false
}

proof fn lemma_prefix_set_step(s: Seq<Entry>, i: int, want_undone: bool)
    requires
        0 <= i < s.len(),
    ensures
        ({
            let before = Set::new(
                |g: i64| has_command(s.take(i), g) && undone(s, g) == want_undone,
            );
            let after = Set::new(
                |g: i64| has_command(s.take(i + 1), g) && undone(s, g) == want_undone,
            );
            let e = s[i];
            if is_command(e) && !has_command(s.take(i), e.gesture) && undone(s, e.gesture)
                == want_undone {
                after == before.insert(e.gesture) && !before.contains(e.gesture)
            } else {
                after == before
            }
        }),
{
    let before = Set::new(|g: i64| has_command(s.take(i), g) && undone(s, g) == want_undone);
    let after = Set::new(|g: i64| has_command(s.take(i + 1), g) && undone(s, g) == want_undone);
    let e = s[i];
    assert forall|g: i64| #[trigger] after.contains(g) == (before.contains(g) || (is_command(e)
        && e.gesture == g && undone(s, g) == want_undone)) by {
        lemma_has_command_step(s, i, g);
    }
    if is_command(e) && !has_command(s.take(i), e.gesture) && undone(s, e.gesture) == want_undone {
        assert(after =~= before.insert(e.gesture));
    } else {
        assert forall|g: i64| #[trigger] after.contains(g) == before.contains(g) by {
            lemma_has_command_step(s, i, g);
        }
        assert(after =~= before);
    }
}

/// How many gestures are available to undo and to redo — what an editor's
/// menu wants to know: the gestures undo could reverse, and the distinct
/// gestures on the live redo stack, which redo can still reach.
pub fn depth(entries: &[Entry]) -> (r: (usize, usize))
    ensures
        undoable_set(entries@).finite(),
        redoable_set(entries@).finite(),
        r.0 == undoable_set(entries@).len(),
        r.1 == redoable_set(entries@).len(),
{
    let command = KIND_COMMAND.to_owned();
    let undo = KIND_UNDO.to_owned();
    let redo = KIND_REDO.to_owned();
    let ghost s = entries@;
    let mut undoable_count: usize = 0;
    let mut i: usize = 0;
    proof {
        let u0 = Set::new(|g: i64| has_command(s.take(0), g) && undone(s, g) == false);
        assert(u0 =~= Set::empty());
    }
    while i < entries.len()
        invariant
            0 <= i <= s.len(),
            s == entries@,
            command@ == KIND_COMMAND@,
            undo@ == KIND_UNDO@,
            redo@ == KIND_REDO@,
            Set::new(|g: i64| has_command(s.take(i as int), g) && undone(s, g) == false).finite(),
            undoable_count == Set::new(
                |g: i64| has_command(s.take(i as int), g) && undone(s, g) == false,
            ).len(),
            undoable_count <= i,
        decreases s.len() - i,
    {
        proof {
            lemma_prefix_set_step(s, i as int, false);
        }
        let e = &entries[i];
        if kind_is(e, &command) {
            let seen = has_command_before(entries, i, e.gesture, &command);
            if !seen {
                let (u, r) = marker_counts(entries, e.gesture, &undo, &redo);
                if u <= r {
                    undoable_count += 1;
                }
            }
        }
        i += 1;
    }
    proof {
        assert(s.take(s.len() as int) =~= s);
        assert(undoable_set(s) =~= Set::new(
            |g: i64| has_command(s.take(s.len() as int), g) && undone(s, g) == false,
        ));
    }
    let stack = live_stack_of(entries);
    let redoable_count = distinct_count(&stack);
    proof {
        assert(redoable_set(s) =~= stack@.to_set());
    }
    (undoable_count, redoable_count)
}


// ── Laws ──────────────────────────────────────────────────────────────────────

proof fn lemma_live_start_bounds(s: Seq<Entry>)
    ensures
        0 <= live_start(s) <= s.len(),
    decreases s.len(),
{
    if s.len() > 0 {
        lemma_live_start_bounds(s.drop_last());
    }
}

/// A run with no command entries keeps the live start where it was.
proof fn lemma_live_start_after_run(s: Seq<Entry>, run: Seq<Entry>)
    requires
        forall|i: int| 0 <= i < run.len() ==> !is_command(#[trigger] run[i]),
    ensures
        live_start(s + run) == live_start(s),
    decreases run.len(),
{
    if run.len() > 0 {
        let shorter = run.drop_last();
        assert((s + run).drop_last() =~= s + shorter);
        assert((s + run).last() == run[run.len() - 1]);
        assert forall|i: int| 0 <= i < shorter.len() implies !is_command(#[trigger] shorter[i]) by {
            assert(shorter[i] == run[i]);
        }
        lemma_live_start_after_run(s, shorter);
    } else {
        assert(s + run =~= s);
    }
}

/// Every gesture on a run's redo stack was pushed there by an undo marker of
/// that run.
proof fn lemma_redo_stack_from_run(run: Seq<Entry>)
    ensures
        forall|k: int|
            0 <= k < redo_stack(run).len() ==> exists|i: int|
                0 <= i < run.len() && is_undo(#[trigger] run[i]) && run[i].target_gesture == Some(
                    #[trigger] redo_stack(run)[k],
                ),
    decreases run.len(),
{
    if run.len() > 0 {
        let shorter = run.drop_last();
        lemma_redo_stack_from_run(shorter);
        let below = redo_stack(shorter);
        let top = redo_stack(run);
        assert forall|k: int| #![trigger top[k]] 0 <= k < top.len() implies exists|i: int|
            0 <= i < run.len() && is_undo(#[trigger] run[i]) && run[i].target_gesture == Some(
                top[k],
            ) by {
            if k < below.len() {
                assert(top[k] == below[k]);
                let i = choose|i: int|
                    0 <= i < shorter.len() && is_undo(#[trigger] shorter[i])
                        && shorter[i].target_gesture == Some(below[k]);
                assert(run[i] == shorter[i]);
            } else {
                assert(run[run.len() - 1] == run.last());
            }
        }
    }
}

/// Redo undoes the last undo: once an undo marker naming gesture `g` is
/// appended, `g` is exactly what redo acts on next.
pub proof fn lemma_redo_undoes_the_last_undo(s: Seq<Entry>, marker: Entry)
    requires
        is_undo(marker),
        marker.target_gesture is Some,
    ensures
        redo_target(s.push(marker)) == marker.target_gesture,
{
    lemma_kinds_distinct();
    let t = s.push(marker);
    assert(t.drop_last() =~= s);
    let start = live_start(s);
    lemma_live_start_bounds(s);
    assert(live_start(t) == start);
    assert(t.skip(start).drop_last() =~= s.skip(start));
    assert(t.skip(start).last() == marker);
}

/// A new command closes the redo stack: nothing is left to redo after it.
pub proof fn lemma_a_command_closes_the_redo_stack(s: Seq<Entry>, command: Entry)
    requires
        is_command(command),
    ensures
        redo_target(s.push(command)) is None,
        redoable_set(s.push(command)) == Set::<i64>::empty(),
{
    let t = s.push(command);
    assert(live_start(t) == t.len());
    assert(t.skip(t.len() as int) =~= Seq::<Entry>::empty());
    assert(redoable_set(t) =~= Set::<i64>::empty());
}

/// A closed redo stack stays closed: after a command, redo can only reach a
/// gesture that an undo marker *after* that command named — never one undone
/// before it, however many markers follow.
pub proof fn lemma_redo_never_reaches_past_a_command(
    s: Seq<Entry>,
    command: Entry,
    run: Seq<Entry>,
)
    requires
        is_command(command),
        forall|i: int| 0 <= i < run.len() ==> !is_command(#[trigger] run[i]),
    ensures
        redo_target(s.push(command) + run) matches Some(g) ==> exists|i: int|
            0 <= i < run.len() && is_undo(#[trigger] run[i]) && run[i].target_gesture == Some(g),
{
    let head = s.push(command);
    lemma_live_start_after_run(head, run);
    assert(live_start(head) == head.len());
    assert((head + run).skip(head.len() as int) =~= run);
    lemma_redo_stack_from_run(run);
    let stack = redo_stack(run);
    if stack.len() > 0 {
        assert(stack.last() == stack[stack.len() - 1]);
    }
}

proof fn lemma_counts_after_marker(s: Seq<Entry>, m: Entry, k: Seq<char>, g: i64)
    ensures
        marker_count(s.push(m), k, g) == marker_count(s, k, g) + if has_kind(m, k)
            && m.target_gesture == Some(g) {
            1nat
        } else {
            0nat
        },
{
    assert(s.push(m).drop_last() =~= s);
}

proof fn lemma_has_command_after_marker(s: Seq<Entry>, m: Entry, g: i64)
    requires
        !is_command(m),
    ensures
        has_command(s.push(m), g) == has_command(s, g),
{
    let t = s.push(m);
    if has_command(t, g) {
        let i = choose|i: int| 0 <= i < t.len() && is_command(#[trigger] t[i]) && t[i].gesture == g;
        assert(i < s.len());
        assert(s[i] == t[i]);
    }
    if has_command(s, g) {
        let i = choose|i: int| 0 <= i < s.len() && is_command(#[trigger] s[i]) && s[i].gesture == g;
        assert(t[i] == s[i]);
    }
}

/// Undo takes effect: appending an undo marker for a gesture that was never
/// redone more often than undone leaves that gesture undone.
pub proof fn lemma_undo_takes_effect(s: Seq<Entry>, marker: Entry, g: i64)
    requires
        is_undo(marker),
        marker.target_gesture == Some(g),
        marker_count(s, KIND_REDO@, g) <= marker_count(s, KIND_UNDO@, g),
    ensures
        undone(s.push(marker), g),
        !undoable(s.push(marker), g),
{
    lemma_kinds_distinct();
    lemma_counts_after_marker(s, marker, KIND_UNDO@, g);
    lemma_counts_after_marker(s, marker, KIND_REDO@, g);
}

/// A gesture can be undone and redone any number of times: an undo marker
/// followed by a redo marker for the same gesture leaves what is undoable and
/// what is redoable exactly as it was.
pub proof fn lemma_undo_then_redo_is_neutral(s: Seq<Entry>, undo: Entry, redo: Entry)
    requires
        is_undo(undo),
        is_redo(redo),
        undo.target_gesture is Some,
        redo.target_gesture == undo.target_gesture,
    ensures
        forall|h: i64| #[trigger] undone(s.push(undo).push(redo), h) == undone(s, h),
        undoable_set(s.push(undo).push(redo)) == undoable_set(s),
        redoable_set(s.push(undo).push(redo)) == redoable_set(s),
{
    lemma_kinds_distinct();
    let t = s.push(undo);
    let w = t.push(redo);
    assert forall|h: i64| #[trigger] undone(w, h) == undone(s, h) by {
        lemma_counts_after_marker(s, undo, KIND_UNDO@, h);
        lemma_counts_after_marker(s, undo, KIND_REDO@, h);
        lemma_counts_after_marker(t, redo, KIND_UNDO@, h);
        lemma_counts_after_marker(t, redo, KIND_REDO@, h);
    }
    assert forall|h: i64| #[trigger] has_command(w, h) == has_command(s, h) by {
        lemma_has_command_after_marker(s, undo, h);
        lemma_has_command_after_marker(t, redo, h);
    }
    assert(undoable_set(w) =~= undoable_set(s));
    // The live run gains a push and its pop.
    let start = live_start(s);
    lemma_live_start_bounds(s);
    assert(t.drop_last() =~= s);
    assert(w.drop_last() =~= t);
    assert(live_start(t) == start);
    assert(live_start(w) == start);
    let run = s.skip(start);
    assert(w.skip(start).drop_last() =~= t.skip(start));
    assert(t.skip(start).drop_last() =~= run);
    assert(w.skip(start).last() == redo);
    assert(t.skip(start).last() == undo);
    assert(redo_stack(t.skip(start)) == redo_stack(run).push(undo.target_gesture->0));
    assert(redo_stack(w.skip(start)) =~= redo_stack(run));
    assert(redoable_set(w) =~= redoable_set(s));
}

} // verus!
