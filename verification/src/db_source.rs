//! The database-backed task source: discovers waiting invocations by
//! windowed, overlapping pagination, hands each out exactly once as an
//! invoke task, keeps the run mapping that routes live status updates, and
//! records terminal states. The persistence engine is an external
//! collaborator; its observable contents are carried here as a table model
//! the operations are verified against.

use vstd::prelude::*;
use crate::text::{dec_str, u32_to_string};
use crate::{InvocationFinishReason, InvokeTask};

verus! {

/// The window of candidate rows fetched per poll.
pub const WINDOW_SIZE: usize = 10;

/// How far the offset advances between polls; strictly smaller than the
/// window, so consecutive windows overlap.
pub const WINDOW_STEP: usize = 9;

/// Law: the fetch window is strictly larger than the step, so consecutive
/// windows overlap and a row sliding past a boundary under concurrent
/// mutation is still seen.
pub proof fn window_overlaps()
    ensures
        WINDOW_SIZE > WINDOW_STEP,
{
}

/// The lifecycle state of one invocation record.
#[derive(Clone, Copy, PartialEq, Eq, Structural, Debug)]
pub enum InvocationState {
    Waiting,
    Started,
    CompileError,
    InvokeFailed,
    JudgeDone,
}

/// One invocation record: which run it judges and at which revision.
#[derive(Clone, Copy, PartialEq, Eq, Structural, Debug)]
pub struct InvocationRow {
    pub id: u32,
    pub state: InvocationState,
    pub run_id: u32,
    pub revision: u32,
}

/// One run record: the submitted work an invocation judges.
#[derive(Clone, Debug)]
pub struct RunRow {
    pub id: u32,
    pub toolchain_id: String,
    pub problem_id: String,
}

/// The observable contents of the backing database.
#[derive(Clone, Debug)]
pub struct DbModel {
    pub invocations: Vec<InvocationRow>,
    pub runs: Vec<RunRow>,
    pub outcome_headers: Vec<(u32, String)>,
    pub kv: Vec<(String, String)>,
}

/// An operation was asked about a record the source does not know.
#[derive(Clone, Copy, PartialEq, Eq, Structural, Debug)]
pub enum DbError {
    UnknownInvocation,
    UnknownRun,
}

// --- the run mapping: a unique-key association from invocation id to run id

/// Keys are unique.
pub open spec fn umap_wf(m: Seq<(u32, u32)>) -> bool {
    forall|i: int, j: int| 0 <= i < j < m.len() ==> m[i].0 != m[j].0
}

/// The value bound to `k`, if any.
pub open spec fn umap_lookup(m: Seq<(u32, u32)>, k: u32) -> Option<u32>
    decreases m.len(),
{
    if m.len() == 0 {
        None
    } else if m[0].0 == k {
        Some(m[0].1)
    } else {
        umap_lookup(m.drop_first(), k)
    }
}

/// A key bound nowhere looks up to nothing.
proof fn lemma_umap_absent(m: Seq<(u32, u32)>, k: u32)
    requires
        forall|j: int| 0 <= j < m.len() ==> m[j].0 != k,
    ensures
        umap_lookup(m, k) is None,
    decreases m.len(),
{
    if m.len() > 0 {
        lemma_umap_absent(m.drop_first(), k);
    }
}

/// Appending a binding for an absent key adds it and changes no other.
proof fn lemma_umap_append(m: Seq<(u32, u32)>, k: u32, v: u32, appended: Seq<(u32, u32)>)
    requires
        umap_wf(m),
        forall|j: int| 0 <= j < m.len() ==> m[j].0 != k,
        appended.len() == m.len() + 1,
        forall|j: int| 0 <= j < m.len() ==> appended[j] == m[j],
        appended[m.len() as int] == (k, v),
    ensures
        umap_wf(appended),
        umap_lookup(appended, k) == Some(v),
        forall|k2: u32| k2 != k ==> umap_lookup(appended, k2) == umap_lookup(m, k2),
    decreases m.len(),
{
    if m.len() == 0 {
        assert forall|k2: u32| k2 != k implies
            umap_lookup(appended, k2) == umap_lookup(m, k2) by {
            assert(appended[0] == (k, v));
            assert(appended.drop_first() =~= Seq::<(u32, u32)>::empty());
            assert(umap_lookup(appended.drop_first(), k2) is None);
            assert(umap_lookup(m, k2) is None);
        }
        assert(umap_lookup(appended, k) == Some(v)) by {
            assert(appended[0] == (k, v));
        }
    } else {
        assert forall|j: int| 0 <= j < m.drop_first().len() implies
            appended.drop_first()[j] == m.drop_first()[j] by {
            assert(appended[j + 1] == m[j + 1]);
        }
        assert(appended.drop_first()[m.drop_first().len() as int] == appended[m.len() as int]);
        lemma_umap_append(m.drop_first(), k, v, appended.drop_first());
        assert forall|k2: u32| k2 != k implies
            umap_lookup(appended, k2) == umap_lookup(m, k2) by {
            if appended[0].0 != k2 {
                assert(umap_lookup(appended.drop_first(), k2) == umap_lookup(m.drop_first(), k2));
            }
        }
    }
}

/// Removing the one entry that holds `k` unbinds `k` and nothing else.
proof fn lemma_umap_remove(m: Seq<(u32, u32)>, i: int, k: u32, removed: Seq<(u32, u32)>)
    requires
        umap_wf(m),
        0 <= i < m.len(),
        m[i].0 == k,
        forall|j: int| 0 <= j < i ==> m[j].0 != k,
        removed == m.remove(i),
    ensures
        umap_wf(removed),
        umap_lookup(removed, k) is None,
        forall|k2: u32| k2 != k ==> umap_lookup(removed, k2) == umap_lookup(m, k2),
    decreases i,
{
    assert(removed.len() == m.len() - 1);
    if i == 0 {
        assert(removed =~= m.drop_first());
        assert forall|j: int| 0 <= j < removed.len() implies removed[j].0 != k by {
            assert(removed[j] == m[j + 1]);
        }
        lemma_umap_absent(removed, k);
    } else {
        assert(removed[0] == m[0]);
        assert(removed.drop_first() =~= m.drop_first().remove(i - 1));
        lemma_umap_remove(m.drop_first(), i - 1, k, removed.drop_first());
        assert forall|k2: u32| k2 != k implies
            umap_lookup(removed, k2) == umap_lookup(m, k2) by {
            if m[0].0 != k2 {
                assert(umap_lookup(removed.drop_first(), k2) == umap_lookup(m.drop_first(), k2));
            }
        }
        assert(umap_lookup(removed, k) is None) by {
            assert(m[0].0 != k);
        }
    }
}

/// Binds `v` to `k`, replacing any earlier binding; keys stay unique.
fn umap_insert(m: &mut Vec<(u32, u32)>, k: u32, v: u32)
    requires
        umap_wf(old(m)@),
    ensures
        umap_wf(final(m)@),
        umap_lookup(final(m)@, k) == Some(v),
        forall|k2: u32| k2 != k ==> umap_lookup(final(m)@, k2) == umap_lookup(old(m)@, k2),
{
    let n = m.len();
    let mut i: usize = 0;
    while i < n
        invariant
            n == m@.len(),
            i <= n,
            umap_wf(m@),
            m@ == old(m)@,
            forall|j: int| 0 <= j < i ==> m@[j].0 != k,
        decreases n - i,
    {
        if m[i].0 == k {
            m.set(i, (k, v));
            proof {
                lemma_umap_update(old(m)@, i as int, k, v, m@);
            }
            return;
        }
        i += 1;
    }
    m.push((k, v));
    proof {
        lemma_umap_append(old(m)@, k, v, m@);
    }
}

/// Replacing the entry that holds `k` rebinds `k` and nothing else.
proof fn lemma_umap_update(m: Seq<(u32, u32)>, i: int, k: u32, v: u32, updated: Seq<(u32, u32)>)
    requires
        umap_wf(m),
        0 <= i < m.len(),
        m[i].0 == k,
        forall|j: int| 0 <= j < i ==> m[j].0 != k,
        updated.len() == m.len(),
        updated[i] == (k, v),
        forall|j: int| 0 <= j < m.len() && j != i ==> updated[j] == m[j],
    ensures
        umap_wf(updated),
        umap_lookup(updated, k) == Some(v),
        forall|k2: u32| k2 != k ==> umap_lookup(updated, k2) == umap_lookup(m, k2),
    decreases m.len(),
{
    assert(forall|j: int| 0 <= j < m.len() ==> updated[j].0 == m[j].0);
    if i == 0 {
        assert forall|k2: u32| k2 != k implies
            umap_lookup(updated, k2) == umap_lookup(m, k2) by {
            assert(updated.drop_first() =~= m.drop_first());
        }
    } else {
        assert forall|j: int| 0 <= j < m.drop_first().len() && j != i - 1 implies
            updated.drop_first()[j] == m.drop_first()[j] by {
            assert(updated[j + 1] == m[j + 1]);
        }
        lemma_umap_update(m.drop_first(), i - 1, k, v, updated.drop_first());
        assert forall|k2: u32| k2 != k implies
            umap_lookup(updated, k2) == umap_lookup(m, k2) by {
            if updated[0].0 != k2 {
                assert(umap_lookup(updated.drop_first(), k2) == umap_lookup(m.drop_first(), k2));
            }
        }
        assert(umap_lookup(updated, k) == Some(v)) by {
            assert(updated[0].0 == m[0].0 && m[0].0 != k);
        }
    }
}

/// Unbinds `k` if it is bound; every other binding is kept.
fn umap_remove(m: &mut Vec<(u32, u32)>, k: u32)
    requires
        umap_wf(old(m)@),
    ensures
        umap_wf(final(m)@),
        umap_lookup(final(m)@, k) is None,
        forall|k2: u32| k2 != k ==> umap_lookup(final(m)@, k2) == umap_lookup(old(m)@, k2),
{
    let n = m.len();
    let mut i: usize = 0;
    while i < n
        invariant
            n == m@.len(),
            i <= n,
            umap_wf(m@),
            m@ == old(m)@,
            forall|j: int| 0 <= j < i ==> m@[j].0 != k,
        decreases n - i,
    {
        if m[i].0 == k {
            m.remove(i);
            proof {
                lemma_umap_remove(old(m)@, i as int, k, m@);
            }
            return;
        }
        i += 1;
    }
    proof {
        lemma_umap_absent(m@, k);
    }
}

/// The value bound to `k`, if any, as executable code.
fn umap_get(m: &Vec<(u32, u32)>, k: u32) -> (r: Option<u32>)
    ensures
        r == umap_lookup(m@, k),
{
    let n = m.len();
    let mut i: usize = 0;
    while i < n
        invariant
            n == m@.len(),
            i <= n,
            forall|j: int| 0 <= j < i ==> m@[j].0 != k,
        decreases n - i,
    {
        if m[i].0 == k {
            proof {
                lemma_umap_prefix(m@, i as int, k);
            }
            return Some(m[i].1);
        }
        i += 1;
    }
    proof {
        lemma_umap_absent(m@, k);
    }
    None
}

/// With every entry before `i` missing `k` and entry `i` holding it, the
/// lookup answers with entry `i`.
proof fn lemma_umap_prefix(m: Seq<(u32, u32)>, i: int, k: u32)
    requires
        0 <= i < m.len(),
        m[i].0 == k,
        forall|j: int| 0 <= j < i ==> m[j].0 != k,
    ensures
        umap_lookup(m, k) == Some(m[i].1),
    decreases i,
{
    if i > 0 {
        lemma_umap_prefix(m.drop_first(), i - 1, k);
    }
}

// --- run records

/// The first run record with the given id, if any.
pub open spec fn run_lookup(runs: Seq<RunRow>, id: u32) -> Option<RunRow>
    decreases runs.len(),
{
    if runs.len() == 0 {
        None
    } else if runs[0].id == id {
        Some(runs[0])
    } else {
        run_lookup(runs.drop_first(), id)
    }
}

/// A run id that some record carries is found.
proof fn lemma_run_lookup_found(runs: Seq<RunRow>, id: u32)
    requires
        exists|j: int| 0 <= j < runs.len() && runs[j].id == id,
    ensures
        run_lookup(runs, id) is Some,
    decreases runs.len(),
{
    if runs[0].id != id {
        let j = choose|j: int| 0 <= j < runs.len() && runs[j].id == id;
        assert(runs.drop_first()[j - 1] == runs[j]);
        lemma_run_lookup_found(runs.drop_first(), id);
    }
}

/// With every record before `i` missing `id` and record `i` holding it, the
/// lookup answers with record `i`.
proof fn lemma_run_lookup_prefix(runs: Seq<RunRow>, i: int, id: u32)
    requires
        0 <= i < runs.len(),
        runs[i].id == id,
        forall|j: int| 0 <= j < i ==> runs[j].id != id,
    ensures
        run_lookup(runs, id) == Some(runs[i]),
    decreases i,
{
    if i > 0 {
        lemma_run_lookup_prefix(runs.drop_first(), i - 1, id);
    }
}

// --- discovery of waiting rows

/// The indices of the waiting rows, in table order.
pub open spec fn waiting_indices(rows: Seq<InvocationRow>) -> Seq<int>
    decreases rows.len(),
{
    if rows.len() == 0 {
        Seq::<int>::empty()
    } else if rows.last().state == InvocationState::Waiting {
        waiting_indices(rows.drop_last()).push(rows.len() - 1)
    } else {
        waiting_indices(rows.drop_last())
    }
}

/// The waiting indices are exactly the indices of waiting rows, listed in
/// strictly ascending order.
proof fn lemma_waiting_indices(rows: Seq<InvocationRow>)
    ensures
        forall|t: int| 0 <= t < waiting_indices(rows).len() ==> {
            &&& 0 <= #[trigger] waiting_indices(rows)[t] < rows.len()
            &&& rows[waiting_indices(rows)[t]].state == InvocationState::Waiting
        },
        forall|t: int, u: int| 0 <= t < u < waiting_indices(rows).len() ==>
            waiting_indices(rows)[t] < waiting_indices(rows)[u],
        forall|j: int| 0 <= j < rows.len() && rows[j].state == InvocationState::Waiting ==>
            waiting_indices(rows).contains(j),
    decreases rows.len(),
{
    if rows.len() > 0 {
        lemma_waiting_indices(rows.drop_last());
        let wi = waiting_indices(rows);
        let wip = waiting_indices(rows.drop_last());
        assert(forall|j: int| 0 <= j < rows.len() - 1 ==> rows.drop_last()[j] == rows[j]);
        assert forall|j: int| 0 <= j < rows.len()
            && rows[j].state == InvocationState::Waiting implies wi.contains(j) by {
            if j < rows.len() - 1 {
                assert(wip.contains(j));
                let t = choose|t: int| 0 <= t < wip.len() && wip[t] == j;
                if rows.last().state == InvocationState::Waiting {
                    assert(wi[t] == j);
                } else {
                    assert(wi[t] == j);
                }
            } else {
                assert(rows.last().state == InvocationState::Waiting);
                assert(wi.last() == j);
            }
        }
    }
}

/// The window of waiting indices a poll at `offset` accepts: up to
/// `min(size, take)` of them, starting at rank `offset` (clipped to the end).
pub open spec fn window_of(wi: Seq<int>, offset: int, size: int, take: int) -> Seq<int> {
    let o = if offset <= wi.len() { offset } else { wi.len() as int };
    let avail = wi.len() - o;
    let cap = if size <= take { size } else { take };
    let m = if cap <= avail { cap } else { avail };
    wi.subrange(o, o + m)
}

/// Marks a row as started, keeping its identity fields.
pub open spec fn started(row: InvocationRow) -> InvocationRow {
    InvocationRow { state: InvocationState::Started, ..row }
}

impl DbModel {
    /// One poll of the waiting set: walks the table in order, accepts the
    /// waiting rows whose waiting-rank lies in `[offset, offset + size)`, at
    /// most `take` of them, and marks each accepted row as started.
    /// `load_tasks` polls this at offsets 0, `WINDOW_STEP`, 2 * `WINDOW_STEP`
    /// and so on, each with size `WINDOW_SIZE`, so consecutive polls overlap.
    pub fn take_waiting_window(&mut self, offset: usize, size: usize, take: usize) -> (acc: Vec<usize>)
        requires
            offset + size <= usize::MAX,
        ensures
            final(self).runs == old(self).runs,
            final(self).outcome_headers == old(self).outcome_headers,
            final(self).kv == old(self).kv,
            final(self).invocations@.len() == old(self).invocations@.len(),
            ({
                let rows0 = old(self).invocations@;
                let win = window_of(waiting_indices(rows0), offset as int, size as int, take as int);
                &&& acc@.len() == win.len()
                &&& (forall|t: int| 0 <= t < win.len() ==> acc@[t] == win[t])
                &&& (forall|j: int| 0 <= j < rows0.len() && win.contains(j) ==>
                    rows0[j].state == InvocationState::Waiting
                    && final(self).invocations@[j] == started(rows0[j]))
                &&& (forall|j: int| 0 <= j < rows0.len() && !win.contains(j) ==>
                    final(self).invocations@[j] == rows0[j])
            }),
    {
        proof {
            lemma_waiting_indices(old(self).invocations@);
        }
        let n = self.invocations.len();
        let mut acc: Vec<usize> = Vec::new();
        let mut rank: usize = 0;
        let mut i: usize = 0;
        while i < n
            invariant
                offset + size <= usize::MAX,
                n == old(self).invocations@.len(),
                self.invocations@.len() == n,
                self.runs == old(self).runs,
                self.outcome_headers == old(self).outcome_headers,
                self.kv == old(self).kv,
                i <= n,
                rank == waiting_indices(old(self).invocations@.take(i as int)).len(),
                rank <= i,
                acc@.len() <= take,
                ({
                    let rows0 = old(self).invocations@;
                    let winp = window_of(waiting_indices(rows0.take(i as int)), offset as int,
                        size as int, take as int);
                    &&& acc@.len() == winp.len()
                    &&& (forall|t: int| 0 <= t < winp.len() ==> acc@[t] == winp[t])
                    &&& (forall|j: int| 0 <= j < i && winp.contains(j) ==>
                        rows0[j].state == InvocationState::Waiting
                        && self.invocations@[j] == started(rows0[j]))
                    &&& (forall|j: int| 0 <= j < i && !winp.contains(j) ==>
                        self.invocations@[j] == rows0[j])
                    &&& (forall|j: int| i <= j < n ==> self.invocations@[j] == rows0[j])
                }),
            decreases n - i,
        {
            let ghost rows0 = old(self).invocations@;
            let ghost wip = waiting_indices(rows0.take(i as int));
            let ghost wiq = waiting_indices(rows0.take(i as int + 1));
            proof {
                assert(rows0.take(i as int + 1).drop_last() =~= rows0.take(i as int));
                assert(rows0.take(i as int + 1).last() == rows0[i as int]);
                lemma_waiting_indices(rows0.take(i as int));
                lemma_waiting_indices(rows0.take(i as int + 1));
            }
            let row = self.invocations[i];
            if matches!(row.state, InvocationState::Waiting) {
                proof {
                    assert(wiq =~= wip.push(i as int));
                    assert(wip.len() == rank);
                }
                if rank >= offset && rank < offset + size && acc.len() < take {
                    self.invocations.set(i, InvocationRow {
                        state: InvocationState::Started,
                        ..row
                    });
                    acc.push(i);
                    proof {
                        let winp = window_of(wip, offset as int, size as int, take as int);
                        let winq = window_of(wiq, offset as int, size as int, take as int);
                        assert(winq =~= winp.push(i as int));
                        assert forall|j: int| winq.contains(j) implies
                            winp.contains(j) || j == i as int by {
                            let t = choose|t: int| 0 <= t < winq.len() && winq[t] == j;
                            if t < winp.len() {
                                assert(winp[t] == j);
                            }
                        }
                        assert forall|j: int| winp.contains(j) implies winq.contains(j) by {
                            let t = choose|t: int| 0 <= t < winp.len() && winp[t] == j;
                            assert(winq[t] == j);
                        }
                        assert(winq[winp.len() as int] == i as int);
                        assert(winq.contains(i as int));
                        assert forall|j: int| winp.contains(j) implies 0 <= j < i as int by {
                            let t = choose|t: int| 0 <= t < winp.len() && winp[t] == j;
                            assert(wip[t + (if offset as int <= wip.len() { offset as int } else { wip.len() as int })] == j);
                        }
                    }
                } else {
                    proof {
                        let winp = window_of(wip, offset as int, size as int, take as int);
                        let winq = window_of(wiq, offset as int, size as int, take as int);
                        assert(winq =~= winp);
                        assert forall|j: int| winp.contains(j) implies 0 <= j < i as int by {
                            let t = choose|t: int| 0 <= t < winp.len() && winp[t] == j;
                            assert(wip[t + (if offset as int <= wip.len() { offset as int } else { wip.len() as int })] == j);
                        }
                        assert(!winq.contains(i as int));
                    }
                }
                rank += 1;
            } else {
                proof {
                    assert(wiq =~= wip);
                    let winp = window_of(wip, offset as int, size as int, take as int);
                    let winq = window_of(wiq, offset as int, size as int, take as int);
                    assert(winq =~= winp);
                    assert forall|j: int| winp.contains(j) implies 0 <= j < i as int by {
                        let t = choose|t: int| 0 <= t < winp.len() && winp[t] == j;
                        assert(wip[t + (if offset as int <= wip.len() { offset as int } else { wip.len() as int })] == j);
                    }
                    assert(!winq.contains(i as int));
                }
            }
            i += 1;
        }
        proof {
            assert(old(self).invocations@.take(n as int) =~= old(self).invocations@);
        }
        acc
    }

    /// The first run record with the given id, if any.
    fn run_find(&self, id: u32) -> (r: Option<&RunRow>)
        ensures
            match r {
                Some(run) => run_lookup(self.runs@, id) == Some(*run),
                None => run_lookup(self.runs@, id) is None,
            },
    {
        let n = self.runs.len();
        let mut i: usize = 0;
        while i < n
            invariant
                n == self.runs@.len(),
                i <= n,
                forall|j: int| 0 <= j < i ==> self.runs@[j].id != id,
            decreases n - i,
        {
            if self.runs[i].id == id {
                proof {
                    lemma_run_lookup_prefix(self.runs@, i as int, id);
                }
                return Some(&self.runs[i]);
            }
            i += 1;
        }
        proof {
            if run_lookup(self.runs@, id) is Some {
                lemma_run_lookup_misses(self.runs@, id);
            }
        }
        None
    }
}

/// A run id that no record carries is not found.
proof fn lemma_run_lookup_misses(runs: Seq<RunRow>, id: u32)
    requires
        forall|j: int| 0 <= j < runs.len() ==> runs[j].id != id,
    ensures
        run_lookup(runs, id) is None,
    decreases runs.len(),
{
    if runs.len() > 0 {
        lemma_run_lookup_misses(runs.drop_first(), id);
    }
}

// --- the source

/// The database-backed task source: the backing tables, the root the
/// per-run directories live under, and the run mapping.
#[derive(Clone, Debug)]
pub struct DbSource {
    pub db: DbModel,
    pub runs_dir: String,
    pub run_mapping: Vec<(u32, u32)>,
}

/// Some run record carries this id.
pub open spec fn run_id_known(db: DbModel, rid: u32) -> bool {
    exists|j: int| 0 <= j < db.runs@.len() && #[trigger] db.runs@[j].id == rid
}

/// Well-formed backing tables: invocation ids are unique and every
/// invocation's run record exists.
pub open spec fn db_wf(db: DbModel) -> bool {
    &&& (forall|i: int, j: int| 0 <= i < j < db.invocations@.len() ==>
        db.invocations@[i].id != db.invocations@[j].id)
    &&& (forall|i: int| 0 <= i < db.invocations@.len() ==>
        run_id_known(db, #[trigger] db.invocations@[i].run_id))
}

/// Tables whose run records are the same and whose invocations keep their
/// identity fields stay well formed.
proof fn lemma_db_wf_same_identity(db0: DbModel, db1: DbModel)
    requires
        db_wf(db0),
        db1.runs == db0.runs,
        db1.invocations@.len() == db0.invocations@.len(),
        forall|i: int| #![trigger db1.invocations@[i]] 0 <= i < db0.invocations@.len() ==>
            db1.invocations@[i].id == db0.invocations@[i].id
                && db1.invocations@[i].run_id == db0.invocations@[i].run_id,
    ensures
        db_wf(db1),
{
    assert forall|i: int| 0 <= i < db1.invocations@.len() implies
        run_id_known(db1, #[trigger] db1.invocations@[i].run_id) by {
        assert(run_id_known(db0, db0.invocations@[i].run_id));
        let j = choose|j: int| 0 <= j < db0.runs@.len()
            && #[trigger] db0.runs@[j].id == db0.invocations@[i].run_id;
        assert(0 <= j < db0.runs@.len() && db0.runs@[j].id == db0.invocations@[i].run_id);
        assert(db1.runs@ == db0.runs@);
        assert(db1.invocations@[i].id == db0.invocations@[i].id
            && db1.invocations@[i].run_id == db0.invocations@[i].run_id);
        assert(db1.runs@[j].id == db1.invocations@[i].run_id);
    }
}

/// A well-formed source: well-formed tables, a unique-key run mapping and a
/// unique-key live-status store.
pub open spec fn src_wf(s: DbSource) -> bool {
    &&& db_wf(s.db)
    &&& umap_wf(s.run_mapping@)
    &&& crate::sandbox::env_wf(s.db.kv@)
}

/// The directory of one run under the runs root.
pub open spec fn run_dir_of(runs_dir: Seq<char>, run_id: u32) -> Seq<char> {
    runs_dir + "/run."@ + dec_str(run_id as nat)
}

/// The directory of one invocation's revision under its run's directory.
pub open spec fn invocation_dir_of(runs_dir: Seq<char>, run_id: u32, revision: u32) -> Seq<char> {
    run_dir_of(runs_dir, run_id) + "/inv."@ + dec_str(revision as nat)
}

/// `t` is the invoke task derived from `row` and its run record.
pub open spec fn task_matches(t: InvokeTask, runs_dir: Seq<char>, row: InvocationRow, run: RunRow) -> bool {
    &&& t.revision == row.revision
    &&& t.invocation_id == row.id
    &&& t.toolchain_id@ == run.toolchain_id@
    &&& t.problem_id@ == run.problem_id@
    &&& t.run_dir@ == run_dir_of(runs_dir, row.run_id)
    &&& t.invocation_dir@ == invocation_dir_of(runs_dir, row.run_id, row.revision)
}

/// `t` is the invoke task derived from the invocation at table index `j` of
/// the source's database.
pub open spec fn task_ok(s: DbSource, j: int, t: InvokeTask) -> bool {
    let row = s.db.invocations@[j];
    match run_lookup(s.db.runs@, row.run_id) {
        Some(run) => task_matches(t, s.runs_dir@, row, run),
        None => false,
    }
}

/// `t` was derived from some row of `s0` that was then waiting; it names
/// that row's invocation id, and `map` routes that id to the row's
/// originating run.
pub open spec fn from_waiting_row(s0: DbSource, map: Seq<(u32, u32)>, t: InvokeTask) -> bool {
    exists|j: int| 0 <= j < s0.db.invocations@.len()
        && s0.db.invocations@[j].state == InvocationState::Waiting
        && #[trigger] task_ok(s0, j, t)
        && t.invocation_id == s0.db.invocations@[j].id
        && umap_lookup(map, s0.db.invocations@[j].id) == Some(s0.db.invocations@[j].run_id)
}

/// The state a finish reason persists as.
pub open spec fn state_for(reason: InvocationFinishReason) -> InvocationState {
    match reason {
        InvocationFinishReason::CompileError => InvocationState::CompileError,
        InvocationFinishReason::Fault => InvocationState::InvokeFailed,
        InvocationFinishReason::JudgeDone => InvocationState::JudgeDone,
    }
}

/// The live-status key of one run.
pub open spec fn lsu_key_of(run_id: u32) -> Seq<char> {
    "lsu-"@ + dec_str(run_id as nat)
}

/// The smaller of two.
pub open spec fn spec_min(a: int, b: int) -> int {
    if a <= b { a } else { b }
}

/// Builds the invoke task for one accepted invocation row.
fn build_task(runs_dir: &String, row: InvocationRow, run: &RunRow) -> (t: InvokeTask)
    ensures
        task_matches(t, runs_dir@, row, *run),
{
    let mut run_dir = runs_dir.clone();
    run_dir.append("/run.");
    let rid = u32_to_string(row.run_id);
    run_dir.append(rid.as_str());
    let mut invocation_dir = run_dir.clone();
    invocation_dir.append("/inv.");
    let rev = u32_to_string(row.revision);
    invocation_dir.append(rev.as_str());
    InvokeTask {
        revision: row.revision,
        toolchain_id: run.toolchain_id.clone(),
        problem_id: run.problem_id.clone(),
        invocation_id: row.id,
        run_dir,
        invocation_dir,
    }
}

impl DbSource {
    /// A source over the given tables, handing out run directories under
    /// `<data_dir>/var/runs`, with an empty run mapping.
    pub fn new(db: DbModel, data_dir: &str) -> (r: DbSource)
        ensures
            r.db == db,
            r.runs_dir@ == data_dir@ + "/var/runs"@,
            r.run_mapping@ == Seq::<(u32, u32)>::empty(),
    {
        let mut runs_dir = data_dir.to_owned();
        runs_dir.append("/var/runs");
        DbSource { db, runs_dir, run_mapping: Vec::new() }
    }

    /// Accepts one poll's rows: builds the invoke task of each accepted row,
    /// records its run mapping entry, and appends the tasks in window order.
    #[verifier::loop_isolation(false)]
    #[verifier::rlimit(100)]
    #[verifier::spinoff_prover]
    fn accept_window(
        &mut self,
        acc: &Vec<usize>,
        tasks: &mut Vec<InvokeTask>,
        Ghost(s0): Ghost<DbSource>,
        Ghost(rows_pre): Ghost<Seq<InvocationRow>>,
        Ghost(win): Ghost<Seq<int>>,
        Ghost(map0): Ghost<Seq<(u32, u32)>>,
        Ghost(virgin): Ghost<bool>,
    ) -> (r: Result<(), DbError>)
        requires
            src_wf(*old(self)),
            old(self).runs_dir == s0.runs_dir,
            old(self).db.runs == s0.db.runs,
            db_wf(s0.db),
            rows_pre.len() == s0.db.invocations@.len(),
            old(self).db.invocations@.len() == rows_pre.len(),
            acc@.len() == win.len(),
            forall|u: int| 0 <= u < win.len() ==> acc@[u] == win[u],
            forall|u: int| 0 <= u < win.len() ==> 0 <= #[trigger] win[u] < rows_pre.len(),
            forall|j: int| 0 <= j < rows_pre.len() && win.contains(j) ==>
                rows_pre[j].state == InvocationState::Waiting
                    && old(self).db.invocations@[j] == started(rows_pre[j]),
            forall|j: int| 0 <= j < s0.db.invocations@.len() ==>
                rows_pre[j] == s0.db.invocations@[j]
                    || (s0.db.invocations@[j].state == InvocationState::Waiting
                        && rows_pre[j] == started(s0.db.invocations@[j])),
            forall|u: int| 0 <= u < old(tasks)@.len() ==>
                umap_lookup(old(self).run_mapping@,
                    #[trigger] old(tasks)@[u].invocation_id) is Some,
            forall|u: int| 0 <= u < old(tasks)@.len() ==>
                #[trigger] from_waiting_row(s0, old(self).run_mapping@, old(tasks)@[u]),
            forall|k: u32| umap_lookup(old(self).run_mapping@, k) != umap_lookup(map0, k)
                ==> exists|u: int| 0 <= u < old(tasks)@.len()
                    && #[trigger] old(tasks)@[u].invocation_id == k,
            virgin ==> {
                &&& old(tasks)@.len() == 0
                &&& rows_pre == s0.db.invocations@
                &&& (forall|u: int| 0 <= u < win.len() ==>
                    #[trigger] win[u] == waiting_indices(s0.db.invocations@)[u])
                &&& win.len() <= waiting_indices(s0.db.invocations@).len()
            },
        ensures
            final(self).db == old(self).db,
            final(self).runs_dir == old(self).runs_dir,
            src_wf(*final(self)),
            r is Ok,
            final(tasks)@.len() == old(tasks)@.len() + win.len(),
            forall|u: int| 0 <= u < old(tasks)@.len() ==> final(tasks)@[u] == old(tasks)@[u],
            forall|u: int| 0 <= u < final(tasks)@.len() ==>
                umap_lookup(final(self).run_mapping@,
                    #[trigger] final(tasks)@[u].invocation_id) is Some,
            forall|u: int| 0 <= u < final(tasks)@.len() ==>
                #[trigger] from_waiting_row(s0, final(self).run_mapping@, final(tasks)@[u]),
            forall|k: u32| umap_lookup(final(self).run_mapping@, k) != umap_lookup(map0, k)
                ==> exists|u: int| 0 <= u < final(tasks)@.len()
                    && #[trigger] final(tasks)@[u].invocation_id == k,
            forall|u: int| old(tasks)@.len() <= u < final(tasks)@.len() ==>
                #[trigger] task_ok(s0, win[u - old(tasks)@.len()], final(tasks)@[u])
                    && final(tasks)@[u].invocation_id
                        == s0.db.invocations@[win[u - old(tasks)@.len()]].id,
            virgin ==> (forall|u: int| 0 <= u < final(tasks)@.len() ==>
                #[trigger] task_ok(s0, waiting_indices(s0.db.invocations@)[u], final(tasks)@[u])
                    && final(tasks)@[u].invocation_id
                        == s0.db.invocations@[waiting_indices(s0.db.invocations@)[u]].id),
    {
        let ghost rows0 = s0.db.invocations@;
        let ghost wi0 = waiting_indices(rows0);
        let taken = acc.len();
        let mut t: usize = 0;
        while t < taken
            invariant
                src_wf(*self),
                self.db == old(self).db,
                self.runs_dir == old(self).runs_dir,
                t <= taken,
                tasks@.len() == old(tasks)@.len() + t,
                forall|u: int| 0 <= u < old(tasks)@.len() ==> tasks@[u] == old(tasks)@[u],
                forall|u: int| 0 <= u < tasks@.len() ==>
                    umap_lookup(self.run_mapping@, #[trigger] tasks@[u].invocation_id) is Some,
                forall|u: int| 0 <= u < tasks@.len() ==>
                    #[trigger] from_waiting_row(s0, self.run_mapping@, tasks@[u]),
                forall|k: u32|
                    umap_lookup(self.run_mapping@, k) != umap_lookup(map0, k)
                        ==> exists|u: int| 0 <= u < tasks@.len()
                            && #[trigger] tasks@[u].invocation_id == k,
                forall|u: int| old(tasks)@.len() <= u < tasks@.len() ==>
                    #[trigger] task_ok(s0, win[u - old(tasks)@.len()], tasks@[u])
                        && tasks@[u].invocation_id == rows0[win[u - old(tasks)@.len()]].id,
                virgin ==> (forall|u: int| 0 <= u < tasks@.len() ==>
                    #[trigger] task_ok(s0, wi0[u], tasks@[u])
                        && tasks@[u].invocation_id == rows0[wi0[u]].id),
            decreases taken - t,
        {
            let idx = acc[t];
            proof {
                assert(win[t as int] == acc@[t as int]);
                assert(win.contains(win[t as int])) by {
                    assert(0 <= t < win.len());
                }
                assert(rows_pre[idx as int].state == InvocationState::Waiting);
                assert(rows_pre[idx as int] == rows0[idx as int]);
            }
            let row = self.db.invocations[idx];
            proof {
                assert(row == started(rows0[idx as int]));
                assert(run_id_known(s0.db, rows0[idx as int].run_id));
                let jw = choose|j: int| 0 <= j < s0.db.runs@.len()
                    && #[trigger] s0.db.runs@[j].id == rows0[idx as int].run_id;
                assert(self.db.runs@[jw].id == rows0[idx as int].run_id);
            }
            let run_found = self.db.run_find(row.run_id);
            match run_found {
                None => {
                    proof {
                        lemma_run_lookup_found(self.db.runs@, row.run_id);
                        assert(false);
                    }
                    return Err(DbError::UnknownRun);
                }
                Some(run) => {
                    let task = build_task(&self.runs_dir, InvocationRow {
                        state: InvocationState::Waiting,
                        ..row
                    }, run);
                    proof {
                        assert(task_matches(task, s0.runs_dir@, rows0[idx as int],
                            run_lookup(s0.db.runs@, rows0[idx as int].run_id)->Some_0));
                        assert(task_ok(s0, idx as int, task));
                        assert(task.invocation_id == rows0[idx as int].id);
                    }
                    let ghost map_before = self.run_mapping@;
                    let ghost tasks_before = tasks@;
                    umap_insert(&mut self.run_mapping, row.id, row.run_id);
                    tasks.push(task);
                    proof {
                        assert(umap_lookup(self.run_mapping@, rows0[idx as int].id)
                            == Some(rows0[idx as int].run_id));
                        assert(from_waiting_row(s0, self.run_mapping@, task));
                        // earlier tasks keep their routing: the inserted key
                        // either misses their witness row's id or, by id
                        // uniqueness, is that very row with the same run id
                        assert forall|u: int| 0 <= u < tasks_before.len() implies
                            #[trigger] from_waiting_row(s0, self.run_mapping@, tasks@[u]) by {
                            assert(tasks@[u] == tasks_before[u]);
                            assert(from_waiting_row(s0, map_before, tasks_before[u]));
                            let j = choose|j: int| 0 <= j < s0.db.invocations@.len()
                                && s0.db.invocations@[j].state == InvocationState::Waiting
                                && #[trigger] task_ok(s0, j, tasks_before[u])
                                && tasks_before[u].invocation_id == s0.db.invocations@[j].id
                                && umap_lookup(map_before, s0.db.invocations@[j].id)
                                    == Some(s0.db.invocations@[j].run_id);
                            if rows0[j].id == rows0[idx as int].id {
                                assert(j == idx as int) by {
                                    if j != idx as int {
                                        assert(rows0[j].id != rows0[idx as int].id);
                                    }
                                }
                                assert(umap_lookup(self.run_mapping@, rows0[j].id)
                                    == Some(rows0[j].run_id));
                            } else {
                                assert(umap_lookup(self.run_mapping@, rows0[j].id)
                                    == umap_lookup(map_before, rows0[j].id));
                            }
                            assert(task_ok(s0, j, tasks@[u]));
                        }
                        if virgin {
                            assert(win[t as int] == wi0[t as int]);
                            assert forall|u: int| 0 <= u < tasks@.len() implies
                                #[trigger] task_ok(s0, wi0[u], tasks@[u])
                                    && tasks@[u].invocation_id == rows0[wi0[u]].id by {
                                if u < tasks_before.len() {
                                    assert(tasks@[u] == tasks_before[u]);
                                    assert(task_ok(s0, wi0[u], tasks_before[u])
                                        && tasks_before[u].invocation_id
                                            == rows0[wi0[u]].id);
                                } else {
                                    assert(u == t as int);
                                    assert(wi0[u] == idx as int);
                                    assert(tasks@[u] == task);
                                }
                            }
                        }
                        assert forall|k: u32|
                            umap_lookup(self.run_mapping@, k) != umap_lookup(map0, k)
                            implies exists|u: int| 0 <= u < tasks@.len()
                                && #[trigger] tasks@[u].invocation_id == k by {
                            if k == row.id {
                                assert(tasks@[tasks@.len() - 1].invocation_id == k);
                            } else {
                                assert(umap_lookup(self.run_mapping@, k)
                                    == umap_lookup(map_before, k));
                                let u = choose|u: int| 0 <= u < tasks_before.len()
                                    && #[trigger] tasks_before[u].invocation_id == k;
                                assert(tasks@[u].invocation_id == k);
                            }
                        }
                        assert forall|u: int| 0 <= u < tasks@.len() implies
                            umap_lookup(self.run_mapping@,
                                #[trigger] tasks@[u].invocation_id) is Some by {
                            if u < tasks_before.len() {
                                if tasks@[u].invocation_id != row.id {
                                    assert(umap_lookup(self.run_mapping@,
                                        tasks@[u].invocation_id)
                                        == umap_lookup(map_before, tasks@[u].invocation_id));
                                    assert(tasks_before[u].invocation_id
                                        == tasks@[u].invocation_id);
                                }
                            }
                        }
                    }
                }
            }
            t += 1;
        }
        Ok(())
    }

    /// Discovers up to `cnt` waiting invocations by windowed, overlapping
    /// pagination, marks each discovered row as started, records its run
    /// mapping entry, and hands each out as one invoke task.
    ///
    /// Polls `take_waiting_window` at offsets 0, `WINDOW_STEP`,
    /// 2 * `WINDOW_STEP` and so on, each a window of `WINDOW_SIZE`, stopping
    /// once the request is satisfied or a window accepts nothing. Asked for
    /// at most a window's worth, it returns exactly
    /// `min(cnt, number of waiting rows)` tasks, in table order, and returns
    /// fewer than `cnt` exactly when no waiting row remains behind.
    #[verifier::loop_isolation(false)]
    #[verifier::rlimit(100)]
    #[verifier::spinoff_prover]
    pub fn load_tasks(&mut self, cnt: usize) -> (r: Result<Vec<InvokeTask>, DbError>)
        requires
            src_wf(*old(self)),
            old(self).db.invocations@.len() + 100 < usize::MAX,
        ensures
            src_wf(*final(self)),
            final(self).runs_dir == old(self).runs_dir,
            final(self).db.runs == old(self).db.runs,
            final(self).db.outcome_headers == old(self).db.outcome_headers,
            final(self).db.kv == old(self).db.kv,
            final(self).db.invocations@.len() == old(self).db.invocations@.len(),
            r is Ok,
            ({
                let tasks = r->Ok_0;
                let rows0 = old(self).db.invocations@;
                let wi0 = waiting_indices(rows0);
                &&& tasks@.len() <= cnt
                &&& tasks@.len() >= spec_min(cnt as int, spec_min(WINDOW_SIZE as int, wi0.len() as int))
                &&& (forall|t: int| 0 <= t < tasks@.len() ==>
                    umap_lookup(final(self).run_mapping@, #[trigger] tasks@[t].invocation_id) is Some)
                &&& (forall|t: int| 0 <= t < tasks@.len() ==>
                    #[trigger] from_waiting_row(*old(self), final(self).run_mapping@, tasks@[t]))
                &&& (forall|j: int| 0 <= j < rows0.len() ==>
                    final(self).db.invocations@[j] == rows0[j]
                        || (rows0[j].state == InvocationState::Waiting
                            && final(self).db.invocations@[j] == started(rows0[j])))
                &&& (forall|k: u32|
                    umap_lookup(final(self).run_mapping@, k) != umap_lookup(old(self).run_mapping@, k)
                        ==> exists|t: int| 0 <= t < tasks@.len()
                            && #[trigger] tasks@[t].invocation_id == k)
                &&& (cnt <= WINDOW_SIZE ==> {
                    &&& tasks@.len() == spec_min(cnt as int, wi0.len() as int)
                    &&& (forall|t: int| 0 <= t < tasks@.len() ==>
                        #[trigger] task_ok(*old(self), wi0[t], tasks@[t])
                            && tasks@[t].invocation_id == rows0[wi0[t]].id)
                    &&& (tasks@.len() < cnt ==> forall|j: int|
                        0 <= j < final(self).db.invocations@.len()
                            ==> final(self).db.invocations@[j].state != InvocationState::Waiting)
                })
            }),
    {
        let ghost rows0 = self.db.invocations@;
        let ghost wi0 = waiting_indices(rows0);
        let ghost map0 = self.run_mapping@;
        proof {
            lemma_waiting_indices(rows0);
            lemma_wi_len(rows0);
        }
        let mut tasks: Vec<InvokeTask> = Vec::new();
        let mut cnt_rem: usize = cnt;
        let mut offset: usize = 0;
        let mut stop: bool = false;
        while cnt_rem > 0 && !stop
            invariant
                src_wf(*self),
                self.runs_dir == old(self).runs_dir,
                self.db.runs == old(self).db.runs,
                self.db.outcome_headers == old(self).db.outcome_headers,
                self.db.kv == old(self).db.kv,
                self.db.invocations@.len() == rows0.len(),
                rows0 == old(self).db.invocations@,
                wi0 == waiting_indices(rows0),
                map0 == old(self).run_mapping@,
                rows0.len() + 100 < usize::MAX,
                offset <= rows0.len() + WINDOW_STEP,
                cnt_rem <= cnt,
                tasks@.len() == cnt - cnt_rem,
                forall|j: int| 0 <= j < rows0.len() ==>
                    self.db.invocations@[j] == rows0[j]
                        || (rows0[j].state == InvocationState::Waiting
                            && self.db.invocations@[j] == started(rows0[j])),
                forall|t: int| 0 <= t < tasks@.len() ==>
                    umap_lookup(self.run_mapping@, #[trigger] tasks@[t].invocation_id) is Some,
                forall|t: int| 0 <= t < tasks@.len() ==>
                    #[trigger] from_waiting_row(*old(self), self.run_mapping@, tasks@[t]),
                forall|k: u32|
                    umap_lookup(self.run_mapping@, k) != umap_lookup(map0, k)
                        ==> exists|t: int| 0 <= t < tasks@.len()
                            && #[trigger] tasks@[t].invocation_id == k,
                // before the first poll nothing has happened
                offset == 0 && !stop ==> cnt_rem == cnt && tasks@.len() == 0
                    && self.db.invocations@ == rows0 && self.run_mapping@ == map0,
                // after the first poll the counts are pinned from below
                offset != 0 || stop ==>
                    tasks@.len() >= spec_min(cnt as int, spec_min(WINDOW_SIZE as int, wi0.len() as int)),
                // and a one-window request is answered exactly
                (offset != 0 || stop) && cnt <= WINDOW_SIZE ==>
                    tasks@.len() == spec_min(cnt as int, wi0.len() as int),
                (offset != 0 || stop) && cnt <= WINDOW_SIZE ==>
                    (forall|t: int| 0 <= t < tasks@.len() ==>
                        #[trigger] task_ok(*old(self), wi0[t], tasks@[t])
                            && tasks@[t].invocation_id == rows0[wi0[t]].id),
                (offset != 0 || stop) && cnt <= WINDOW_SIZE && tasks@.len() < cnt ==>
                    (forall|j: int| 0 <= j < self.db.invocations@.len()
                        ==> self.db.invocations@[j].state != InvocationState::Waiting),
            decreases cnt_rem + (if stop { 0int } else { 1 }),
        {
            let ghost rows_pre = self.db.invocations@;
            let ghost wi_pre = waiting_indices(rows_pre);
            let ghost win = window_of(wi_pre, offset as int, WINDOW_SIZE as int, cnt_rem as int);
            let ghost tasks_entry = tasks@;
            let ghost offset_entry = offset as int;
            let ghost cnt_rem_entry = cnt_rem as int;
            let ghost virgin = offset == 0 && cnt_rem == cnt && tasks@.len() == 0
                && rows_pre == rows0 && self.run_mapping@ == map0;
            let ghost o_pre = if offset_entry <= wi_pre.len() { offset_entry } else { wi_pre.len() as int };
            proof {
                lemma_waiting_indices(rows_pre);
                lemma_wi_len(rows_pre);
            }
            let acc = self.db.take_waiting_window(offset, WINDOW_SIZE, cnt_rem);
            let ghost rows_mid = self.db.invocations@;
            proof {
                // identity fields survive the marking, so the tables stay
                // well formed
                assert forall|j: int| 0 <= j < rows0.len() implies
                    rows_mid[j].id == rows0[j].id && rows_mid[j].run_id == rows0[j].run_id
                    && (rows_mid[j] == rows0[j]
                        || (rows0[j].state == InvocationState::Waiting
                            && rows_mid[j] == started(rows0[j]))) by {
                    if win.contains(j) {
                        assert(rows_mid[j] == started(rows_pre[j]));
                        assert(rows_pre[j].state == InvocationState::Waiting);
                        assert(rows_pre[j] == rows0[j]);
                    }
                }
                lemma_db_wf_same_identity(old(self).db, self.db);
            }
            let taken = acc.len();
            proof {
                assert forall|u: int| 0 <= u < win.len() implies
                    0 <= #[trigger] win[u] < rows_pre.len() by {
                    assert(wi_pre[u + o_pre] == win[u]);
                }
                if virgin {
                    assert(o_pre == 0);
                    assert forall|u: int| 0 <= u < win.len() implies
                        #[trigger] win[u] == wi0[u] by {
                        assert(wi_pre[u] == win[u]);
                    }
                    assert(win.len() <= wi0.len());
                }
            }
            let res = self.accept_window(&acc, &mut tasks, Ghost(*old(self)),
                Ghost(rows_pre), Ghost(win), Ghost(map0), Ghost(virgin));
            match res {
                Err(e) => {
                    proof {
                        assert(false);
                    }
                    return Err(e);
                }
                Ok(()) => {}
            }
            if taken == 0 {
                stop = true;
            } else {
                proof {
                    assert(offset_entry <= wi_pre.len()) by {
                        if offset_entry > wi_pre.len() {
                            assert(o_pre == wi_pre.len());
                            assert(win.len() == 0);
                        }
                    }
                }
                cnt_rem = cnt_rem - taken;
                offset = offset + WINDOW_STEP;
            }
            proof {
                // establish the pinned-counts disjunct for the next round
                if virgin {
                    assert(o_pre == 0);
                    assert(wi_pre == wi0);
                    let cap = if WINDOW_SIZE as int <= cnt_rem_entry { WINDOW_SIZE as int } else { cnt_rem_entry };
                    let m = if cap <= wi0.len() as int { cap } else { wi0.len() as int };
                    assert(win =~= wi0.subrange(0, m));
                    assert(tasks@.len() == taken);
                    assert(taken == m);
                    assert(tasks@.len() >= spec_min(cnt as int,
                        spec_min(WINDOW_SIZE as int, wi0.len() as int)));
                    if cnt <= WINDOW_SIZE {
                        assert(cap == cnt_rem_entry && cnt_rem_entry == cnt as int);
                        assert(tasks@.len() == spec_min(cnt as int, wi0.len() as int));
                        assert forall|u: int| 0 <= u < tasks@.len() implies
                            #[trigger] task_ok(*old(self), wi0[u], tasks@[u])
                                && tasks@[u].invocation_id == rows0[wi0[u]].id by {
                            assert(task_ok(*old(self),
                                waiting_indices(old(self).db.invocations@)[u], tasks@[u])
                                && tasks@[u].invocation_id == old(self).db.invocations@[
                                    waiting_indices(old(self).db.invocations@)[u]].id);
                        }
                        if tasks@.len() < cnt {
                            assert(m == wi0.len());
                            assert(win =~= wi0);
                            assert forall|j: int| 0 <= j < rows_mid.len() implies
                                rows_mid[j].state != InvocationState::Waiting by {
                                if rows_pre[j].state == InvocationState::Waiting {
                                    assert(wi_pre.contains(j));
                                    assert(win.contains(j));
                                    assert(rows_mid[j] == started(rows_pre[j]));
                                } else {
                                    if win.contains(j) {
                                        assert(rows_pre[j].state == InvocationState::Waiting);
                                    }
                                    assert(rows_mid[j] == rows_pre[j]);
                                }
                            }
                        }
                    }
                } else {
                    // a later round: the pinned clauses carry over, and for a
                    // one-window request nothing more is ever accepted
                    assert(tasks_entry.len() >= spec_min(cnt as int,
                        spec_min(WINDOW_SIZE as int, wi0.len() as int)));
                    if cnt <= WINDOW_SIZE {
                        assert(tasks_entry.len() == spec_min(cnt as int, wi0.len() as int));
                        assert(tasks_entry.len() == cnt - cnt_rem_entry);
                        assert(cnt_rem_entry > 0);
                        assert(tasks_entry.len() < cnt);
                        assert forall|j: int| 0 <= j < rows_pre.len() implies
                            rows_pre[j].state != InvocationState::Waiting by {}
                        assert(wi_pre.len() == 0) by {
                            if wi_pre.len() > 0 {
                                assert(rows_pre[wi_pre[0]].state == InvocationState::Waiting);
                            }
                        }
                        assert(win.len() == 0);
                        assert(taken == 0);
                        assert(tasks@.len() == tasks_entry.len());
                        assert forall|u: int| 0 <= u < tasks@.len() implies
                            #[trigger] task_ok(*old(self), wi0[u], tasks@[u])
                                && tasks@[u].invocation_id == rows0[wi0[u]].id by {
                            assert(tasks@[u] == tasks_entry[u]);
                            assert(task_ok(*old(self), wi0[u], tasks_entry[u])
                                && tasks_entry[u].invocation_id == rows0[wi0[u]].id);
                        }
                        assert forall|j: int| 0 <= j < rows_mid.len() implies
                            rows_mid[j].state != InvocationState::Waiting by {
                            assert(rows_mid[j] == rows_pre[j]);
                        }
                    }
                }
                assert(self.db.invocations@ == rows_mid);
                assert(tasks@.len() >= spec_min(cnt as int,
                    spec_min(WINDOW_SIZE as int, wi0.len() as int)));
                if cnt <= WINDOW_SIZE {
                    assert(tasks@.len() == spec_min(cnt as int, wi0.len() as int));
                    assert(forall|t2: int| 0 <= t2 < tasks@.len() ==>
                        #[trigger] task_ok(*old(self), wi0[t2], tasks@[t2])
                            && tasks@[t2].invocation_id == rows0[wi0[t2]].id);
                    if tasks@.len() < cnt {
                        assert(forall|j: int| 0 <= j < self.db.invocations@.len() ==>
                            self.db.invocations@[j].state != InvocationState::Waiting);
                    }
                }
            }
        }
        Ok(tasks)
    }
}

impl DbSource {
    /// Records the terminal state of one invocation exactly once: the run
    /// mapping entry goes first, then the state is persisted. An unknown
    /// invocation id is a reportable error, never a crash, and still loses
    /// its mapping entry.
    #[verifier::loop_isolation(false)]
    pub fn set_finished(&mut self, invocation_id: u32, reason: InvocationFinishReason) -> (r:
        Result<(), DbError>)
        requires
            src_wf(*old(self)),
        ensures
            src_wf(*final(self)),
            final(self).runs_dir == old(self).runs_dir,
            final(self).db.runs == old(self).db.runs,
            final(self).db.outcome_headers == old(self).db.outcome_headers,
            final(self).db.kv == old(self).db.kv,
            umap_lookup(final(self).run_mapping@, invocation_id) is None,
            forall|k: u32| k != invocation_id ==>
                umap_lookup(final(self).run_mapping@, k)
                    == umap_lookup(old(self).run_mapping@, k),
            (r is Ok) == (exists|j: int| 0 <= j < old(self).db.invocations@.len()
                && #[trigger] old(self).db.invocations@[j].id == invocation_id),
            r is Err ==> r == Err::<(), DbError>(DbError::UnknownInvocation)
                && final(self).db.invocations == old(self).db.invocations,
            final(self).db.invocations@.len() == old(self).db.invocations@.len(),
            forall|j: int| 0 <= j < old(self).db.invocations@.len() ==>
                #[trigger] final(self).db.invocations@[j] == (if old(self).db.invocations@[j].id
                    == invocation_id {
                    InvocationRow { state: state_for(reason), ..old(self).db.invocations@[j] }
                } else {
                    old(self).db.invocations@[j]
                }),
    {
        umap_remove(&mut self.run_mapping, invocation_id);
        let state = match reason {
            InvocationFinishReason::CompileError => InvocationState::CompileError,
            InvocationFinishReason::Fault => InvocationState::InvokeFailed,
            InvocationFinishReason::JudgeDone => InvocationState::JudgeDone,
        };
        let n = self.db.invocations.len();
        let mut i: usize = 0;
        while i < n
            invariant
                n == self.db.invocations@.len(),
                i <= n,
                src_wf(*self),
                self.runs_dir == old(self).runs_dir,
                self.db.runs == old(self).db.runs,
                self.db.outcome_headers == old(self).db.outcome_headers,
                self.db.kv == old(self).db.kv,
                umap_lookup(self.run_mapping@, invocation_id) is None,
                forall|k: u32| k != invocation_id ==>
                    umap_lookup(self.run_mapping@, k) == umap_lookup(old(self).run_mapping@, k),
                self.db.invocations == old(self).db.invocations,
                state == state_for(reason),
                forall|j: int| 0 <= j < i ==>
                    #[trigger] self.db.invocations@[j].id != invocation_id,
            decreases n - i,
        {
            if self.db.invocations[i].id == invocation_id {
                let row = self.db.invocations[i];
                self.db.invocations.set(i, InvocationRow { state, ..row });
                proof {
                    assert forall|j: int| 0 <= j < old(self).db.invocations@.len() implies
                        #[trigger] self.db.invocations@[j] == (
                        if old(self).db.invocations@[j].id == invocation_id {
                            InvocationRow { state: state_for(reason),
                                ..old(self).db.invocations@[j] }
                        } else {
                            old(self).db.invocations@[j]
                        }) by {
                        if j != i && old(self).db.invocations@[j].id == invocation_id {
                            assert(old(self).db.invocations@[i as int].id == invocation_id);
                        }
                    }
                }
                proof {
                    lemma_db_wf_same_identity(old(self).db, self.db);
                }
                return Ok(());
            }
            i += 1;
        }
        Err(DbError::UnknownInvocation)
    }

    /// Attaches a structured outcome summary to a persisted invocation
    /// record; unknown records are a reportable error.
    #[verifier::loop_isolation(false)]
    pub fn add_outcome_header(&mut self, invocation_id: u32, header: String) -> (r: Result<
        (),
        DbError,
    >)
        requires
            src_wf(*old(self)),
        ensures
            src_wf(*final(self)),
            final(self).runs_dir == old(self).runs_dir,
            final(self).run_mapping == old(self).run_mapping,
            final(self).db.invocations == old(self).db.invocations,
            final(self).db.runs == old(self).db.runs,
            final(self).db.kv == old(self).db.kv,
            (r is Ok) == (exists|j: int| 0 <= j < old(self).db.invocations@.len()
                && #[trigger] old(self).db.invocations@[j].id == invocation_id),
            r is Ok ==> final(self).db.outcome_headers@
                == old(self).db.outcome_headers@.push((invocation_id, header)),
            r is Err ==> r == Err::<(), DbError>(DbError::UnknownInvocation)
                && final(self).db.outcome_headers == old(self).db.outcome_headers,
    {
        let n = self.db.invocations.len();
        let mut i: usize = 0;
        while i < n
            invariant
                n == self.db.invocations@.len(),
                i <= n,
                *self == *old(self),
                forall|j: int| 0 <= j < i ==>
                    #[trigger] self.db.invocations@[j].id != invocation_id,
            decreases n - i,
        {
            if self.db.invocations[i].id == invocation_id {
                self.db.outcome_headers.push((invocation_id, header));
                proof {
                    lemma_db_wf_same_identity(old(self).db, self.db);
                }
                return Ok(());
            }
            i += 1;
        }
        Err(DbError::UnknownInvocation)
    }

    /// Delivers a best-effort progress report: routed through the run
    /// mapping to the live-status store. A missing mapping entry is a
    /// bookkeeping fault reported loudly, not dropped.
    #[verifier::loop_isolation(false)]
    pub fn deliver_live_status_update(&mut self, invocation_id: u32, update: String) -> (r:
        Result<(), DbError>)
        requires
            src_wf(*old(self)),
        ensures
            src_wf(*final(self)),
            final(self).runs_dir == old(self).runs_dir,
            final(self).run_mapping == old(self).run_mapping,
            final(self).db.invocations == old(self).db.invocations,
            final(self).db.runs == old(self).db.runs,
            final(self).db.outcome_headers == old(self).db.outcome_headers,
            match umap_lookup(old(self).run_mapping@, invocation_id) {
                None => r == Err::<(), DbError>(DbError::UnknownInvocation)
                    && final(self).db.kv == old(self).db.kv,
                Some(run_id) => {
                    &&& r is Ok
                    &&& crate::sandbox::env_lookup(final(self).db.kv@, lsu_key_of(run_id))
                        == Some(update@)
                    &&& (forall|k: Seq<char>| k != lsu_key_of(run_id) ==>
                        crate::sandbox::env_lookup(final(self).db.kv@, k)
                            == crate::sandbox::env_lookup(old(self).db.kv@, k))
                },
            },
    {
        let run_id = match umap_get(&self.run_mapping, invocation_id) {
            Some(id) => id,
            None => {
                return Err(DbError::UnknownInvocation);
            }
        };
        let mut key = "lsu-".to_owned();
        let rid = u32_to_string(run_id);
        key.append(rid.as_str());
        crate::sandbox::assoc_put(&mut self.db.kv, key, update);
        proof {
            assert forall|i2: int| 0 <= i2 < self.db.invocations@.len() implies
                exists|j: int| 0 <= j < self.db.runs@.len()
                    && self.db.runs@[j].id
                == #[trigger] self.db.invocations@[i2].run_id by {
                let j = choose|j: int| 0 <= j < old(self).db.runs@.len()
                    && old(self).db.runs@[j].id
                == #[trigger] old(self).db.invocations@[i2].run_id;
                assert(self.db.runs@[j].id == self.db.invocations@[i2].run_id);
            }
            assert(db_wf(self.db));
        }
        Ok(())
    }
}

/// There are at most as many waiting indices as rows.
proof fn lemma_wi_len(rows: Seq<InvocationRow>)
    ensures
        waiting_indices(rows).len() <= rows.len(),
    decreases rows.len(),
{
    if rows.len() > 0 {
        lemma_wi_len(rows.drop_last());
    }
}

} // verus!
