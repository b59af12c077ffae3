//! The lane packer / pair enumerator.
//!
//! Given two columnar attribute tables, the enumerator walks table A in
//! contiguous chunks of one lane width (tail lanes past the end padded)
//! and, per chunk, slides table B's entities one at a time through a
//! rotating window of the same width, calling a consumer once per
//! insertion.  Each chunk makes up to two window passes, each starting
//! from a fresh, fully padded window:
//!
//! * in a self-comparison, a short *descending* pass inserts the chunk's
//!   own entities from `base + lanes - 1` down to `base + 1`; as they slide
//!   across the lanes this presents every unordered pair *within* the
//!   chunk exactly once, with the lower entity always on the A side --
//!   never an entity against itself, never a mirror duplicate;
//! * an *ascending* pass then inserts every B entity past the chunk (from
//!   the start of B for two distinct tables), running `lanes - 1` drain
//!   steps beyond the end of the table (padding inserted) so that the
//!   last entities reach every lane.
//!
//! Pairs whose mirror an earlier chunk presented are skipped; every
//! supported predicate is symmetric, so the skipped half is recoverable.
//!
//! The whole run is pinned publicly: the returned ghost trace equals
//! `schedule`, and the consumer's ghost log grows by exactly
//! `run_batches` -- one batch pair per scheduled step, the A side given by
//! `chunk_column` (padding included) and the B side by `window_column`.
//! The entities those batches carry, lane by lane, are `lane_pair`; the
//! coverage lemmas (`lemma_self_coverage`, `lemma_cross_coverage`) state
//! that the presented pairs are exactly the pair space, each pair at one
//! step and lane only.

use vstd::prelude::*;

verus! {

/// A view of a batch: one mathematical sequence per attribute column.
pub open spec fn batch_view<T>(b: &Vec<Vec<T>>) -> Seq<Seq<T>> {
    Seq::new(b@.len(), |k: int| b@[k]@)
}

/// Receives one batch pair per enumeration step: `a` is the chunk batch,
/// `b` the rotating-window batch, one column per attribute.  The ghost
/// `log` records every received pair in call order; `consume` must extend
/// it by exactly the pair it was handed, which is what lets the
/// enumerator's contract say what a consumer was shown.
pub trait BatchConsumer<T> {
    /// The batch pairs received so far, in call order.
    spec fn log(&self) -> Seq<(Seq<Seq<T>>, Seq<Seq<T>>)>;

    /// Called once per step with the current pair of batches.
    fn consume(&mut self, a: &Vec<Vec<T>>, b: &Vec<Vec<T>>)
        ensures
            final(self).log() == old(self).log().push((batch_view(a), batch_view(b))),
    ;
}

/// Receives batches with no verification obligation: the plain callback
/// interface for callers outside any proof.
pub trait BatchSink<T> {
    /// Called once per step with the current pair of batches.
    fn accept(&mut self, a: &Vec<Vec<T>>, b: &Vec<Vec<T>>);
}

/// Adapts a sink to a consumer: forwards every batch pair and keeps the
/// ghost log the consumer contract asks for.
pub struct LoggedSink<T, S> {
    pub sink: S,
    pub record: Ghost<Seq<(Seq<Seq<T>>, Seq<Seq<T>>)>>,
}

impl<T, S: BatchSink<T>> LoggedSink<T, S> {
    /// Wraps a sink, the log starting empty.
    pub fn new(sink: S) -> (r: LoggedSink<T, S>)
        ensures
            r.record@ == Seq::<(Seq<Seq<T>>, Seq<Seq<T>>)>::empty(),
            r.sink == sink,
    {
        LoggedSink { sink, record: Ghost(Seq::empty()) }
    }
}

impl<T, S: BatchSink<T>> BatchConsumer<T> for LoggedSink<T, S> {
    open spec fn log(&self) -> Seq<(Seq<Seq<T>>, Seq<Seq<T>>)> {
        self.record@
    }

    fn consume(&mut self, a: &Vec<Vec<T>>, b: &Vec<Vec<T>>) {
        self.sink.accept(a, b);
        self.record = Ghost(self.record@.push((batch_view(a), batch_view(b))));
    }
}

/// A columnar table: at least one column, all columns the same length.
pub open spec fn table_wf<T>(t: &Vec<Vec<T>>) -> bool {
    t@.len() >= 1 && forall|k: int| 0 <= k < t@.len() ==> (#[trigger] t@[k])@.len() == t@[0]@.len()
}

/// First inserted index of a chunk's ascending pass: just past the chunk
/// in a self-comparison, the start of B otherwise.
pub open spec fn pass_start(base: int, lanes: int, same_inputs: bool) -> int {
    if same_inputs {
        base + lanes
    } else {
        0
    }
}

/// The steps of the chunk at `base`, each step naming the index it
/// inserts: in a self-comparison first the descending pass (indices
/// `base + lanes - 1` down to `base + 1`), then the ascending pass from
/// `pass_start` up to `nb + lanes - 2` -- indices at or past `nb` insert
/// padding (the drain steps).
pub open spec fn chunk_sched(base: int, nb: int, lanes: int, same_inputs: bool) -> Seq<(int, int)> {
    let intra = if same_inputs {
        Seq::new((lanes - 1) as nat, |t: int| (base, base + lanes - 1 - t))
    } else {
        Seq::empty()
    };
    let first = pass_start(base, lanes, same_inputs);
    let asc = if nb > 0 && nb + lanes - 1 - first >= 0 {
        Seq::new((nb + lanes - 1 - first) as nat, |u: int| (base, first + u))
    } else {
        Seq::empty()
    };
    intra + asc
}

/// The full enumeration schedule from chunk base `base` on: each chunk's
/// steps, chunks advancing by the lane width until `na` is covered.
pub open spec fn schedule(base: int, na: int, nb: int, lanes: int, same_inputs: bool) -> Seq<
    (int, int),
>
    decreases na + lanes - base,
{
    if base >= na || lanes < 1 {
        Seq::empty()
    } else {
        chunk_sched(base, nb, lanes, same_inputs) + schedule(
            base + lanes,
            na,
            nb,
            lanes,
            same_inputs,
        )
    }
}

/// The A-side batch column for the chunk at `base`: lane `m` holds entity
/// `base + m`, lanes past the end of the table hold the pad value.
pub open spec fn chunk_column<T>(col: Seq<T>, base: int, lanes: nat, pad: T) -> Seq<T> {
    Seq::new(lanes, |m: int| if base + m < col.len() { col[base + m] } else { pad })
}

/// A fully padded column, the window's state at the start of each pass.
pub open spec fn pad_column<T>(lanes: nat, pad: T) -> Seq<T> {
    Seq::new(lanes, |m: int| pad)
}

/// The B entity held by lane `m` at the step of the chunk at `base` that
/// inserted index `e`, or `-1` where the lane holds padding.  During the
/// descending pass lane `m` holds entity `e + m`, during the ascending
/// pass entity `e - m` -- in both cases only once the pass has reached
/// the lane, and only for entities the table has.
pub open spec fn window_entity(
    base: int,
    e: int,
    m: int,
    nb: int,
    lanes: int,
    same_inputs: bool,
) -> int {
    if same_inputs && e < base + lanes {
        if m <= base + lanes - 1 - e && 0 <= e + m < nb {
            e + m
        } else {
            -1
        }
    } else {
        if m <= e - pass_start(base, lanes, same_inputs) && 0 <= e - m < nb {
            e - m
        } else {
            -1
        }
    }
}

/// One column of the B-side window at the given step: the attribute of
/// `window_entity`'s entity, the pad value where there is none.
pub open spec fn window_column<T>(
    col: Seq<T>,
    lanes: nat,
    pad: T,
    base: int,
    e: int,
    same_inputs: bool,
) -> Seq<T> {
    Seq::new(
        lanes,
        |m: int|
            {
                let ent = window_entity(base, e, m, col.len() as int, lanes as int, same_inputs);
                if ent >= 0 {
                    col[ent]
                } else {
                    pad
                }
            },
    )
}

/// The batch pair the consumer receives at one scheduled step.
pub open spec fn step_batches<T>(
    a: Seq<Seq<T>>,
    b: Seq<Seq<T>>,
    lanes: nat,
    pad: T,
    step: (int, int),
    same_inputs: bool,
) -> (Seq<Seq<T>>, Seq<Seq<T>>) {
    (
        Seq::new(a.len(), |k: int| chunk_column(a[k], step.0, lanes, pad)),
        Seq::new(b.len(), |k: int| window_column(b[k], lanes, pad, step.0, step.1, same_inputs)),
    )
}

/// Everything a run presents to its consumer: one batch pair per
/// scheduled step.
pub open spec fn run_batches<T>(
    a: Seq<Seq<T>>,
    b: Seq<Seq<T>>,
    lanes: nat,
    pad: T,
    sched: Seq<(int, int)>,
    same_inputs: bool,
) -> Seq<(Seq<Seq<T>>, Seq<Seq<T>>)> {
    Seq::new(sched.len(), |s: int| step_batches(a, b, lanes, pad, sched[s], same_inputs))
}

/// The (A entity, B entity) pair held by lane `m` of one scheduled step,
/// where both sides are real entities; `(-1, -1)` where either side is
/// padding.
pub open spec fn lane_pair(
    step: (int, int),
    m: int,
    na: int,
    nb: int,
    lanes: int,
    same_inputs: bool,
) -> (int, int) {
    let x = step.0 + m;
    let y = window_entity(step.0, step.1, m, nb, lanes, same_inputs);
    if 0 <= m < lanes && 0 <= x < na && y >= 0 {
        (x, y)
    } else {
        (-1, -1)
    }
}

/// Some step and lane of `sched` presents exactly the entity pair
/// `(x, y)`.
pub open spec fn pair_presented(
    sched: Seq<(int, int)>,
    x: int,
    y: int,
    na: int,
    nb: int,
    lanes: int,
    same_inputs: bool,
) -> bool {
    exists|s: int, m: int|
        0 <= s < sched.len() && 0 <= m < lanes && #[trigger] lane_pair(
            sched[s],
            m,
            na,
            nb,
            lanes,
            same_inputs,
        ) == (x, y)
}

/// The batches carry exactly the entities `lane_pair` names: at a
/// scheduled step whose lane holds a real pair, every attribute column of
/// the logged batch pair reads that attribute of the paired entities.
pub proof fn lemma_lane_pair_values<T>(
    a: Seq<Seq<T>>,
    b: Seq<Seq<T>>,
    lanes: nat,
    pad: T,
    sched: Seq<(int, int)>,
    same_inputs: bool,
    na: int,
    nb: int,
    s: int,
    m: int,
)
    requires
        0 <= s < sched.len(),
        0 <= m < lanes,
        forall|k: int| 0 <= k < a.len() ==> (#[trigger] a[k]).len() == na,
        forall|k: int| 0 <= k < b.len() ==> (#[trigger] b[k]).len() == nb,
        lane_pair(sched[s], m, na, nb, lanes as int, same_inputs).0 >= 0,
    ensures
        forall|k: int|
            0 <= k < a.len() ==> #[trigger] run_batches(a, b, lanes, pad, sched, same_inputs)[s].0[k][m]
                == a[k][lane_pair(sched[s], m, na, nb, lanes as int, same_inputs).0],
        forall|k: int|
            0 <= k < b.len() ==> #[trigger] run_batches(a, b, lanes, pad, sched, same_inputs)[s].1[k][m]
                == b[k][lane_pair(sched[s], m, na, nb, lanes as int, same_inputs).1],
{
    let p = lane_pair(sched[s], m, na, nb, lanes as int, same_inputs);
    assert forall|k: int|
        0 <= k < a.len() implies #[trigger] run_batches(a, b, lanes, pad, sched, same_inputs)[s].0[k][m]
        == a[k][p.0] by {
        assert(run_batches(a, b, lanes, pad, sched, same_inputs)[s].0[k] == chunk_column(
            a[k],
            sched[s].0,
            lanes,
            pad,
        ));
    }
    assert forall|k: int|
        0 <= k < b.len() implies #[trigger] run_batches(a, b, lanes, pad, sched, same_inputs)[s].1[k][m]
        == b[k][p.1] by {
        assert(run_batches(a, b, lanes, pad, sched, same_inputs)[s].1[k] == window_column(
            b[k],
            lanes,
            pad,
            sched[s].0,
            sched[s].1,
            same_inputs,
        ));
        assert(window_entity(sched[s].0, sched[s].1, m, nb, lanes as int, same_inputs) == p.1);
    }
}

/// A-side lanes past the end of the table are inert: in every batch pair
/// a run presents, a lane beyond the table's length carries the pad
/// value, never an entity.
pub proof fn lemma_padded_lanes_inert<T>(
    a: Seq<Seq<T>>,
    b: Seq<Seq<T>>,
    lanes: nat,
    pad: T,
    sched: Seq<(int, int)>,
    same_inputs: bool,
    s: int,
    k: int,
    m: int,
)
    requires
        0 <= s < sched.len(),
        0 <= k < a.len(),
        0 <= m < lanes,
        sched[s].0 + m >= a[k].len(),
    ensures
        run_batches(a, b, lanes, pad, sched, same_inputs)[s].0[k][m] == pad,
{
}

/// One step of the rotating window: every lane moves one place toward the
/// end, the newest value enters at lane zero, the oldest lane's value
/// leaves.
pub fn rotate_insert<T: Copy>(col: &Vec<T>, value: T) -> (r: Vec<T>)
    requires
        col@.len() >= 1,
    ensures
        r@.len() == col@.len(),
        r@[0] == value,
        forall|i: int| 1 <= i < r@.len() ==> r@[i] == col@[i - 1],
{
    let mut r: Vec<T> = Vec::new();
    r.push(value);
    let mut i: usize = 0;
    while i < col.len() - 1
        invariant
            col@.len() >= 1,
            i <= col@.len() - 1,
            r@.len() == i + 1,
            r@[0] == value,
            forall|q: int| 1 <= q <= i ==> r@[q] == col@[q - 1],
        decreases col@.len() - 1 - i,
    {
        r.push(col[i]);
        i = i + 1;
    }
    r
}

/// A fresh window: `width` columns, every lane holding the pad value.
fn pad_window<T: Copy>(width: usize, lanes: usize, pad: T) -> (w: Vec<Vec<T>>)
    ensures
        w@.len() == width,
        forall|k: int| 0 <= k < width ==> (#[trigger] w@[k])@ == pad_column(lanes as nat, pad),
{
    let mut w: Vec<Vec<T>> = Vec::new();
    let mut k: usize = 0;
    while k < width
        invariant
            k <= width,
            w@.len() == k,
            forall|q: int| 0 <= q < k ==> (#[trigger] w@[q])@ == pad_column(lanes as nat, pad),
        decreases width - k,
    {
        let mut colv: Vec<T> = Vec::new();
        let mut m: usize = 0;
        while m < lanes
            invariant
                m <= lanes,
                colv@.len() == m,
                forall|q: int| 0 <= q < m ==> colv@[q] == pad,
            decreases lanes - m,
        {
            colv.push(pad);
            m = m + 1;
        }
        proof {
            assert(colv@ =~= pad_column(lanes as nat, pad));
        }
        w.push(colv);
        k = k + 1;
    }
    w
}

/// Loads the A-side batch for the chunk at `base`: each attribute column
/// becomes `lanes` values, entity `base + m` in lane `m`, the pad value in
/// every lane past the end of the table.
fn load_chunk<T: Copy>(input: &Vec<Vec<T>>, base: usize, lanes: usize, pad: T) -> (batch: Vec<
    Vec<T>,
>)
    requires
        table_wf(input),
        base + lanes <= usize::MAX,
    ensures
        batch@.len() == input@.len(),
        forall|k: int|
            0 <= k < batch@.len() ==> (#[trigger] batch@[k])@ == chunk_column(
                input@[k]@,
                base as int,
                lanes as nat,
                pad,
            ),
{
    let width = input.len();
    let count = input[0].len();
    let mut batch: Vec<Vec<T>> = Vec::new();
    let mut k: usize = 0;
    while k < width
        invariant
            table_wf(input),
            base + lanes <= usize::MAX,
            width == input@.len(),
            count == input@[0]@.len(),
            k <= width,
            batch@.len() == k,
            forall|q: int|
                0 <= q < k ==> (#[trigger] batch@[q])@ == chunk_column(
                    input@[q]@,
                    base as int,
                    lanes as nat,
                    pad,
                ),
        decreases width - k,
    {
        let mut colv: Vec<T> = Vec::new();
        let mut m: usize = 0;
        while m < lanes
            invariant
                table_wf(input),
                base + lanes <= usize::MAX,
                count == input@[0]@.len(),
                k < width,
                width == input@.len(),
                m <= lanes,
                colv@.len() == m,
                forall|q: int|
                    0 <= q < m ==> colv@[q] == chunk_column(
                        input@[k as int]@,
                        base as int,
                        lanes as nat,
                        pad,
                    )[q],
            decreases lanes - m,
        {
            if base + m < count {
                colv.push(input[k][base + m]);
            } else {
                colv.push(pad);
            }
            m = m + 1;
        }
        proof {
            assert(colv@ =~= chunk_column(input@[k as int]@, base as int, lanes as nat, pad));
        }
        batch.push(colv);
        k = k + 1;
    }
    batch
}

/// Extending a run by one step extends its batch sequence by that step's
/// batch pair.
proof fn lemma_run_batches_push<T>(
    a: Seq<Seq<T>>,
    b: Seq<Seq<T>>,
    lanes: nat,
    pad: T,
    sched: Seq<(int, int)>,
    step: (int, int),
    same_inputs: bool,
)
    ensures
        run_batches(a, b, lanes, pad, sched.push(step), same_inputs) == run_batches(
            a,
            b,
            lanes,
            pad,
            sched,
            same_inputs,
        ).push(step_batches(a, b, lanes, pad, step, same_inputs)),
{
    assert(run_batches(a, b, lanes, pad, sched.push(step), same_inputs) =~= run_batches(
        a,
        b,
        lanes,
        pad,
        sched,
        same_inputs,
    ).push(step_batches(a, b, lanes, pad, step, same_inputs)));
}

/// Enumerates the pair space of two columnar tables in lane batches.
///
/// Table A is walked in chunks of `lanes` consecutive entities (the tail
/// chunk padded with `pad`); per chunk the consumer is called once per
/// window insertion, first over the descending in-chunk pass when
/// `same_inputs` holds, then over the ascending pass with its drain
/// steps.  The returned ghost trace pins the step order to `schedule`,
/// and the consumer's log grows by exactly `run_batches`: the batch
/// contents of every call are part of this contract.  Zero-length tables
/// get zero calls.
pub fn simd_permutations<T: Copy, C: BatchConsumer<T>>(
    lanes: usize,
    input_a: &Vec<Vec<T>>,
    input_b: &Vec<Vec<T>>,
    pad: T,
    same_inputs: bool,
    consumer: &mut C,
) -> (trace: Ghost<Seq<(int, int)>>)
    requires
        lanes >= 1,
        table_wf(input_a),
        table_wf(input_b),
        same_inputs ==> input_a@ == input_b@,
        input_a@[0]@.len() + lanes <= usize::MAX,
        input_b@[0]@.len() + lanes <= usize::MAX,
    ensures
        trace@ == schedule(
            0,
            input_a@[0]@.len() as int,
            input_b@[0]@.len() as int,
            lanes as int,
            same_inputs,
        ),
        final(consumer).log() == old(consumer).log() + run_batches(
            batch_view(input_a),
            batch_view(input_b),
            lanes as nat,
            pad,
            trace@,
            same_inputs,
        ),
{
    let na = input_a[0].len();
    let nb = input_b[0].len();
    let wb = input_b.len();
    let ghost va = batch_view(input_a);
    let ghost vb = batch_view(input_b);
    let ghost sched0 = schedule(0, na as int, nb as int, lanes as int, same_inputs);
    let ghost mut steps: Seq<(int, int)> = Seq::empty();
    proof {
        assert(steps + sched0 =~= sched0);
        assert(consumer.log() =~= old(consumer).log() + run_batches(
            va,
            vb,
            lanes as nat,
            pad,
            steps,
            same_inputs,
        ));
    }

    let mut base: usize = 0;
    while base < na
        invariant
            lanes >= 1,
            table_wf(input_a),
            table_wf(input_b),
            same_inputs ==> input_a@ == input_b@,
            na == input_a@[0]@.len(),
            nb == input_b@[0]@.len(),
            wb == input_b@.len(),
            na + lanes <= usize::MAX,
            nb + lanes <= usize::MAX,
            va == batch_view(input_a),
            vb == batch_view(input_b),
            sched0 == schedule(0, na as int, nb as int, lanes as int, same_inputs),
            steps + schedule(base as int, na as int, nb as int, lanes as int, same_inputs)
                == sched0,
            consumer.log() == old(consumer).log() + run_batches(
                va,
                vb,
                lanes as nat,
                pad,
                steps,
                same_inputs,
            ),
        decreases na + lanes - base,
    {
        let batch_a = load_chunk(input_a, base, lanes, pad);
        let ghost cs_intra = if same_inputs {
            Seq::new((lanes - 1) as nat, |t: int| (base as int, base + lanes - 1 - t))
        } else {
            Seq::<(int, int)>::empty()
        };
        let ghost first_spec = pass_start(base as int, lanes as int, same_inputs);
        let ghost cs_asc = if nb > 0 {
            Seq::new((nb + lanes - 1 - first_spec) as nat, |u: int| (base as int, first_spec + u))
        } else {
            Seq::<(int, int)>::empty()
        };
        proof {
            assert(nb > 0 ==> nb + lanes - 1 - first_spec >= 0);
            assert(chunk_sched(base as int, nb as int, lanes as int, same_inputs) == cs_intra
                + cs_asc);
            assert(schedule(base as int, na as int, nb as int, lanes as int, same_inputs)
                == chunk_sched(base as int, nb as int, lanes as int, same_inputs) + schedule(
                (base + lanes) as int,
                na as int,
                nb as int,
                lanes as int,
                same_inputs,
            ));
            assert(steps + (cs_intra + cs_asc + schedule(
                (base + lanes) as int,
                na as int,
                nb as int,
                lanes as int,
                same_inputs,
            )) =~= steps + cs_intra.skip(0) + cs_asc + schedule(
                (base + lanes) as int,
                na as int,
                nb as int,
                lanes as int,
                same_inputs,
            ));
        }
        if same_inputs {
            let mut window = pad_window(wb, lanes, pad);
            let mut t: usize = 0;
            while t < lanes - 1
                invariant
                    lanes >= 1,
                    same_inputs,
                    table_wf(input_b),
                    nb == input_b@[0]@.len(),
                    wb == input_b@.len(),
                    base + lanes <= usize::MAX,
                    t <= lanes - 1,
                    va == batch_view(input_a),
                    vb == batch_view(input_b),
                    batch_a@.len() == input_a@.len(),
                    forall|k: int|
                        0 <= k < batch_a@.len() ==> (#[trigger] batch_a@[k])@ == chunk_column(
                            input_a@[k]@,
                            base as int,
                            lanes as nat,
                            pad,
                        ),
                    cs_intra == Seq::new(
                        (lanes - 1) as nat,
                        |q: int| (base as int, base + lanes - 1 - q),
                    ),
                    window@.len() == wb,
                    forall|q: int|
                        0 <= q < wb ==> (#[trigger] window@[q])@ == (if t == 0 {
                            pad_column(lanes as nat, pad)
                        } else {
                            window_column(
                                input_b@[q]@,
                                lanes as nat,
                                pad,
                                base as int,
                                (base + lanes - t) as int,
                                true,
                            )
                        }),
                    steps + cs_intra.skip(t as int) + cs_asc + schedule(
                        (base + lanes) as int,
                        na as int,
                        nb as int,
                        lanes as int,
                        same_inputs,
                    ) == sched0,
                    consumer.log() == old(consumer).log() + run_batches(
                        va,
                        vb,
                        lanes as nat,
                        pad,
                        steps,
                        same_inputs,
                    ),
                decreases lanes - 1 - t,
            {
                let e = base + lanes - 1 - t;
                let mut k2: usize = 0;
                while k2 < wb
                    invariant
                        lanes >= 1,
                        table_wf(input_b),
                        nb == input_b@[0]@.len(),
                        wb == input_b@.len(),
                        t < lanes - 1,
                        e == base + lanes - 1 - t,
                        base + lanes <= usize::MAX,
                        k2 <= wb,
                        window@.len() == wb,
                        forall|q: int|
                            0 <= q < k2 ==> (#[trigger] window@[q])@ == window_column(
                                input_b@[q]@,
                                lanes as nat,
                                pad,
                                base as int,
                                e as int,
                                true,
                            ),
                        forall|q: int|
                            k2 <= q < wb ==> (#[trigger] window@[q])@ == (if t == 0 {
                                pad_column(lanes as nat, pad)
                            } else {
                                window_column(
                                    input_b@[q]@,
                                    lanes as nat,
                                    pad,
                                    base as int,
                                    (base + lanes - t) as int,
                                    true,
                                )
                            }),
                    decreases wb - k2,
                {
                    let v = if e < nb {
                        input_b[k2][e]
                    } else {
                        pad
                    };
                    let rotated = rotate_insert(&window[k2], v);
                    proof {
                        let colseq = input_b@[k2 as int]@;
                        let target = window_column(
                            colseq,
                            lanes as nat,
                            pad,
                            base as int,
                            e as int,
                            true,
                        );
                        assert forall|m: int| 0 <= m < lanes implies rotated@[m] == target[m] by {
                            if m >= 1 {
                                assert(rotated@[m] == window@[k2 as int]@[m - 1]);
                            }
                        }
                        assert(rotated@ =~= target);
                    }
                    window.set(k2, rotated);
                    k2 = k2 + 1;
                }
                consumer.consume(&batch_a, &window);
                proof {
                    let st = (base as int, e as int);
                    let sb = step_batches(va, vb, lanes as nat, pad, st, same_inputs);
                    assert(batch_view(&batch_a) =~= sb.0);
                    assert(batch_view(&window) =~= sb.1);
                    lemma_run_batches_push(va, vb, lanes as nat, pad, steps, st, same_inputs);
                    let before = steps;
                    steps = steps.push(st);
                    assert(cs_intra[t as int] == st);
                    assert(steps + cs_intra.skip(t as int + 1) =~= before + cs_intra.skip(
                        t as int,
                    ));
                }
                t = t + 1;
            }
            proof {
                assert(cs_intra.skip(lanes - 1) =~= Seq::<(int, int)>::empty());
                assert(steps + cs_asc + schedule(
                    (base + lanes) as int,
                    na as int,
                    nb as int,
                    lanes as int,
                    same_inputs,
                ) =~= steps + cs_intra.skip(lanes - 1) + cs_asc + schedule(
                    (base + lanes) as int,
                    na as int,
                    nb as int,
                    lanes as int,
                    same_inputs,
                ));
            }
        } else {
            proof {
                assert(cs_intra.skip(0) =~= cs_intra);
                assert(cs_intra =~= Seq::<(int, int)>::empty());
                assert(steps + cs_asc + schedule(
                    (base + lanes) as int,
                    na as int,
                    nb as int,
                    lanes as int,
                    same_inputs,
                ) =~= steps + cs_intra.skip(0) + cs_asc + schedule(
                    (base + lanes) as int,
                    na as int,
                    nb as int,
                    lanes as int,
                    same_inputs,
                ));
            }
        }
        if nb > 0 {
            let first = if same_inputs {
                base + lanes
            } else {
                0
            };
            let mut window = pad_window(wb, lanes, pad);
            let mut j = first;
            while j < nb + lanes - 1
                invariant
                    lanes >= 1,
                    table_wf(input_b),
                    nb == input_b@[0]@.len(),
                    nb > 0,
                    wb == input_b@.len(),
                    nb + lanes <= usize::MAX,
                    first == pass_start(base as int, lanes as int, same_inputs),
                    first == first_spec,
                    first <= j <= nb + lanes - 1,
                    va == batch_view(input_a),
                    vb == batch_view(input_b),
                    batch_a@.len() == input_a@.len(),
                    forall|k: int|
                        0 <= k < batch_a@.len() ==> (#[trigger] batch_a@[k])@ == chunk_column(
                            input_a@[k]@,
                            base as int,
                            lanes as nat,
                            pad,
                        ),
                    cs_asc == Seq::new(
                        (nb + lanes - 1 - first_spec) as nat,
                        |u: int| (base as int, first_spec + u),
                    ),
                    window@.len() == wb,
                    forall|q: int|
                        0 <= q < wb ==> (#[trigger] window@[q])@ == (if j == first {
                            pad_column(lanes as nat, pad)
                        } else {
                            window_column(
                                input_b@[q]@,
                                lanes as nat,
                                pad,
                                base as int,
                                j as int - 1,
                                same_inputs,
                            )
                        }),
                    steps + cs_asc.skip(j as int - first_spec) + schedule(
                        (base + lanes) as int,
                        na as int,
                        nb as int,
                        lanes as int,
                        same_inputs,
                    ) == sched0,
                    consumer.log() == old(consumer).log() + run_batches(
                        va,
                        vb,
                        lanes as nat,
                        pad,
                        steps,
                        same_inputs,
                    ),
                decreases nb + lanes - 1 - j,
            {
                let mut k2: usize = 0;
                while k2 < wb
                    invariant
                        lanes >= 1,
                        table_wf(input_b),
                        nb == input_b@[0]@.len(),
                        wb == input_b@.len(),
                        nb + lanes <= usize::MAX,
                        first == pass_start(base as int, lanes as int, same_inputs),
                        first <= j < nb + lanes - 1,
                        k2 <= wb,
                        window@.len() == wb,
                        forall|q: int|
                            0 <= q < k2 ==> (#[trigger] window@[q])@ == window_column(
                                input_b@[q]@,
                                lanes as nat,
                                pad,
                                base as int,
                                j as int,
                                same_inputs,
                            ),
                        forall|q: int|
                            k2 <= q < wb ==> (#[trigger] window@[q])@ == (if j == first {
                                pad_column(lanes as nat, pad)
                            } else {
                                window_column(
                                    input_b@[q]@,
                                    lanes as nat,
                                    pad,
                                    base as int,
                                    j as int - 1,
                                    same_inputs,
                                )
                            }),
                    decreases wb - k2,
                {
                    let v = if j < nb {
                        input_b[k2][j]
                    } else {
                        pad
                    };
                    let rotated = rotate_insert(&window[k2], v);
                    proof {
                        let colseq = input_b@[k2 as int]@;
                        let target = window_column(
                            colseq,
                            lanes as nat,
                            pad,
                            base as int,
                            j as int,
                            same_inputs,
                        );
                        assert forall|m: int| 0 <= m < lanes implies rotated@[m] == target[m] by {
                            if m >= 1 {
                                assert(rotated@[m] == window@[k2 as int]@[m - 1]);
                            }
                        }
                        assert(rotated@ =~= target);
                    }
                    window.set(k2, rotated);
                    k2 = k2 + 1;
                }
                consumer.consume(&batch_a, &window);
                proof {
                    let st = (base as int, j as int);
                    let sb = step_batches(va, vb, lanes as nat, pad, st, same_inputs);
                    assert(batch_view(&batch_a) =~= sb.0);
                    assert(batch_view(&window) =~= sb.1);
                    lemma_run_batches_push(va, vb, lanes as nat, pad, steps, st, same_inputs);
                    let before = steps;
                    steps = steps.push(st);
                    assert(cs_asc[j as int - first_spec] == st);
                    assert(steps + cs_asc.skip(j as int + 1 - first_spec) =~= before
                        + cs_asc.skip(j as int - first_spec));
                }
                j = j + 1;
            }
            proof {
                assert(cs_asc.skip(nb + lanes - 1 - first_spec) =~= Seq::<(int, int)>::empty());
                assert(steps + schedule(
                    (base + lanes) as int,
                    na as int,
                    nb as int,
                    lanes as int,
                    same_inputs,
                ) =~= steps + cs_asc.skip(nb + lanes - 1 - first_spec) + schedule(
                    (base + lanes) as int,
                    na as int,
                    nb as int,
                    lanes as int,
                    same_inputs,
                ));
            }
        } else {
            proof {
                assert(cs_asc =~= Seq::<(int, int)>::empty());
                assert(steps + schedule(
                    (base + lanes) as int,
                    na as int,
                    nb as int,
                    lanes as int,
                    same_inputs,
                ) =~= steps + cs_asc + schedule(
                    (base + lanes) as int,
                    na as int,
                    nb as int,
                    lanes as int,
                    same_inputs,
                ));
            }
        }
        base = base + lanes;
    }
    proof {
        assert(schedule(base as int, na as int, nb as int, lanes as int, same_inputs) == Seq::<
            (int, int),
        >::empty());
        assert(steps =~= steps + schedule(base as int, na as int, nb as int, lanes as int,
        same_inputs));
    }
    Ghost(steps)
}

/// A schedule entry lies in its chunk's two insertion ranges.
spec fn in_chunk_ranges(st: (int, int), nb: int, lanes: int, same_inputs: bool) -> bool {
    (same_inputs && st.0 + 1 <= st.1 <= st.0 + lanes - 1) || (pass_start(st.0, lanes, same_inputs)
        <= st.1 <= nb + lanes - 2 && nb > 0)
}

/// Shape of the schedule: every entry's chunk base lies between `base`
/// and `na`, its inserted index in that chunk's two ranges; entries never
/// repeat; and chunk bases of two entries are equal or a full lane width
/// apart.
proof fn lemma_schedule_shape(base: int, na: int, nb: int, lanes: int, same_inputs: bool)
    requires
        0 <= base,
        lanes >= 1,
    ensures
        forall|s: int|
            0 <= s < schedule(base, na, nb, lanes, same_inputs).len() ==> {
                let st = #[trigger] schedule(base, na, nb, lanes, same_inputs)[s];
                base <= st.0 < na && in_chunk_ranges(st, nb, lanes, same_inputs)
            },
        forall|s1: int, s2: int|
            0 <= s1 < s2 < schedule(base, na, nb, lanes, same_inputs).len() ==> schedule(
                base,
                na,
                nb,
                lanes,
                same_inputs,
            )[s1] != schedule(base, na, nb, lanes, same_inputs)[s2],
        forall|s1: int, s2: int|
            0 <= s1 <= s2 < schedule(base, na, nb, lanes, same_inputs).len() ==> (
            #[trigger] schedule(base, na, nb, lanes, same_inputs)[s1]).0 == (
            #[trigger] schedule(base, na, nb, lanes, same_inputs)[s2]).0 || schedule(
                base,
                na,
                nb,
                lanes,
                same_inputs,
            )[s1].0 + lanes <= schedule(base, na, nb, lanes, same_inputs)[s2].0,
    decreases na + lanes - base,
{
    if base >= na || lanes < 1 {
    } else {
        let cs = chunk_sched(base, nb, lanes, same_inputs);
        let rest = schedule(base + lanes, na, nb, lanes, same_inputs);
        let whole = schedule(base, na, nb, lanes, same_inputs);
        lemma_schedule_shape(base + lanes, na, nb, lanes, same_inputs);
        assert(whole == cs + rest);
        let intra_len: int = if same_inputs {
            lanes - 1
        } else {
            0
        };
        assert forall|s: int| 0 <= s < cs.len() implies cs[s].0 == base && in_chunk_ranges(
            cs[s],
            nb,
            lanes,
            same_inputs,
        ) by {
            if s >= intra_len {
                assert(cs[s] == (base, pass_start(base, lanes, same_inputs) + (s - intra_len)));
            }
        }
        assert forall|s: int|
            0 <= s < whole.len() implies {
            let st = #[trigger] whole[s];
            base <= st.0 < na && in_chunk_ranges(st, nb, lanes, same_inputs)
        } by {
            if s < cs.len() {
                assert(whole[s] == cs[s]);
            } else {
                assert(whole[s] == rest[s - cs.len()]);
            }
        }
        assert forall|s1: int, s2: int| 0 <= s1 < s2 < whole.len() implies whole[s1] != whole[s2] by {
            if s1 < cs.len() && s2 < cs.len() {
                assert(whole[s1] == cs[s1] && whole[s2] == cs[s2]);
                if s1 < intra_len && s2 < intra_len {
                    assert(cs[s1].1 == base + lanes - 1 - s1);
                    assert(cs[s2].1 == base + lanes - 1 - s2);
                } else if s1 < intra_len {
                    assert(cs[s1].1 == base + lanes - 1 - s1);
                    assert(cs[s2].1 == pass_start(base, lanes, same_inputs) + (s2 - intra_len));
                } else {
                    assert(cs[s1].1 == pass_start(base, lanes, same_inputs) + (s1 - intra_len));
                    assert(cs[s2].1 == pass_start(base, lanes, same_inputs) + (s2 - intra_len));
                }
            } else if s1 < cs.len() {
                assert(whole[s1] == cs[s1] && whole[s2] == rest[s2 - cs.len()]);
                assert(whole[s1].0 == base && whole[s2].0 >= base + lanes);
            } else {
                assert(whole[s1] == rest[s1 - cs.len()] && whole[s2] == rest[s2 - cs.len()]);
            }
        }
        assert forall|s1: int, s2: int|
            0 <= s1 <= s2 < whole.len() implies (#[trigger] whole[s1]).0 == (
        #[trigger] whole[s2]).0 || whole[s1].0 + lanes <= whole[s2].0 by {
            if s1 < cs.len() && s2 < cs.len() {
                assert(whole[s1] == cs[s1] && whole[s2] == cs[s2]);
            } else if s1 < cs.len() {
                assert(whole[s1] == cs[s1] && whole[s2] == rest[s2 - cs.len()]);
            } else {
                assert(whole[s1] == rest[s1 - cs.len()] && whole[s2] == rest[s2 - cs.len()]);
            }
        }
    }
}

/// The inductive half of self-comparison completeness: every pair with
/// both entities at or past `base` is presented by the schedule from
/// `base` on.
proof fn lemma_self_coverage_from(base: int, n: int, lanes: int)
    requires
        0 <= base,
        lanes >= 1,
    ensures
        forall|x: int, y: int|
            base <= x < y < n ==> #[trigger] pair_presented(
                schedule(base, n, n, lanes, true),
                x,
                y,
                n,
                n,
                lanes,
                true,
            ),
    decreases n + lanes - base,
{
    if base >= n {
    } else {
        let cs = chunk_sched(base, n, lanes, true);
        let rest = schedule(base + lanes, n, n, lanes, true);
        let whole = schedule(base, n, n, lanes, true);
        assert(whole == cs + rest);
        lemma_self_coverage_from(base + lanes, n, lanes);
        let intra_len: int = lanes - 1;
        assert(cs.len() == intra_len + (n - 1 - base));
        assert forall|x: int, y: int| base <= x < y < n implies #[trigger] pair_presented(
            whole,
            x,
            y,
            n,
            n,
            lanes,
            true,
        ) by {
            if x < base + lanes {
                let m = x - base;
                if y < base + lanes {
                    let e = y - m;
                    let s = base + lanes - 1 - e;
                    assert(0 <= s < intra_len);
                    assert(cs[s] == (base, e));
                    assert(whole[s] == (base, e));
                    assert(lane_pair(whole[s], m, n, n, lanes, true) == (x, y));
                } else {
                    let e = y + m;
                    let s = intra_len + (e - (base + lanes));
                    assert(cs[s] == (base, e));
                    assert(whole[s] == (base, e));
                    assert(lane_pair(whole[s], m, n, n, lanes, true) == (x, y));
                }
            } else {
                assert(pair_presented(rest, x, y, n, n, lanes, true));
                let (s, m) = choose|s: int, m: int|
                    0 <= s < rest.len() && 0 <= m < lanes && #[trigger] lane_pair(
                        rest[s],
                        m,
                        n,
                        n,
                        lanes,
                        true,
                    ) == (x, y);
                assert(whole[cs.len() + s] == rest[s]);
                assert(lane_pair(whole[cs.len() + s], m, n, n, lanes, true) == (x, y));
            }
        }
    }
}

/// Self-comparison coverage, any lane width: a lane holding two real
/// entities always pairs an entity with a strictly later one (so never
/// with itself, never as the mirror of another orientation, and never a
/// padded position); every unordered pair of distinct entities is
/// presented; and each pair appears at exactly one step and lane.
pub proof fn lemma_self_coverage(n: int, lanes: int)
    requires
        n >= 0,
        lanes >= 1,
    ensures
        forall|s: int, m: int|
            0 <= s < schedule(0, n, n, lanes, true).len() && 0 <= m < lanes ==> {
                let p = #[trigger] lane_pair(schedule(0, n, n, lanes, true)[s], m, n, n, lanes, true);
                p.0 >= 0 ==> 0 <= p.0 < p.1 < n
            },
        forall|x: int, y: int|
            0 <= x < y < n ==> #[trigger] pair_presented(
                schedule(0, n, n, lanes, true),
                x,
                y,
                n,
                n,
                lanes,
                true,
            ),
        forall|s1: int, m1: int, s2: int, m2: int|
            0 <= s1 < schedule(0, n, n, lanes, true).len() && 0 <= m1 < lanes && 0 <= s2 < schedule(
                0,
                n,
                n,
                lanes,
                true,
            ).len() && 0 <= m2 < lanes && lane_pair(
                schedule(0, n, n, lanes, true)[s1],
                m1,
                n,
                n,
                lanes,
                true,
            ) == lane_pair(schedule(0, n, n, lanes, true)[s2], m2, n, n, lanes, true) && lane_pair(
                schedule(0, n, n, lanes, true)[s1],
                m1,
                n,
                n,
                lanes,
                true,
            ).0 >= 0 ==> s1 == s2 && m1 == m2,
{
    let sched = schedule(0, n, n, lanes, true);
    lemma_schedule_shape(0, n, n, lanes, true);
    lemma_self_coverage_from(0, n, lanes);
    assert forall|s: int, m: int|
        0 <= s < sched.len() && 0 <= m < lanes implies {
        let p = #[trigger] lane_pair(sched[s], m, n, n, lanes, true);
        p.0 >= 0 ==> 0 <= p.0 < p.1 < n
    } by {
        let st = sched[s];
        assert(0 <= st.0 < n && in_chunk_ranges(st, n, lanes, true));
    }
    assert forall|s1: int, m1: int, s2: int, m2: int|
        0 <= s1 < sched.len() && 0 <= m1 < lanes && 0 <= s2 < sched.len() && 0 <= m2 < lanes
            && lane_pair(sched[s1], m1, n, n, lanes, true) == lane_pair(
            sched[s2],
            m2,
            n,
            n,
            lanes,
            true,
        ) && lane_pair(sched[s1], m1, n, n, lanes, true).0 >= 0 implies s1 == s2 && m1 == m2 by {
        let st1 = sched[s1];
        let st2 = sched[s2];
        assert(0 <= st1.0 < n && in_chunk_ranges(st1, n, lanes, true));
        assert(0 <= st2.0 < n && in_chunk_ranges(st2, n, lanes, true));
        if s1 <= s2 {
            assert(st1.0 == st2.0 || st1.0 + lanes <= st2.0);
        } else {
            assert(st2.0 == st1.0 || st2.0 + lanes <= st1.0);
        }
        assert(st1.0 == st2.0);
        assert(m1 == m2);
        assert(st1.1 == st2.1);
        if s1 != s2 {
            if s1 < s2 {
                assert(sched[s1] != sched[s2]);
            } else {
                assert(sched[s2] != sched[s1]);
            }
        }
    }
}

/// Number of chunks a table of `na` entities makes at lane width
/// `lanes`: the length divided by the width, rounded up.
pub open spec fn chunk_count(na: int, lanes: int) -> int
    decreases na + lanes,
{
    if lanes < 1 || na <= 0 {
        0
    } else {
        1 + chunk_count(na - lanes, lanes)
    }
}

/// Exact call count for two distinct tables: one call per scheduled
/// step, `nb + lanes - 1` insertions (drain steps included) for each of
/// the `chunk_count` chunks.
pub proof fn lemma_cross_schedule_len(na: int, nb: int, lanes: int)
    requires
        na >= 0,
        nb > 0,
        lanes >= 1,
    ensures
        schedule(0, na, nb, lanes, false).len() == chunk_count(na, lanes) * (nb + lanes - 1),
{
    lemma_cross_schedule_len_from(0, na, nb, lanes);
}

/// The inductive core of `lemma_cross_schedule_len`.
proof fn lemma_cross_schedule_len_from(base: int, na: int, nb: int, lanes: int)
    requires
        0 <= base,
        nb > 0,
        lanes >= 1,
    ensures
        schedule(base, na, nb, lanes, false).len() == chunk_count(na - base, lanes) * (nb + lanes
            - 1),
    decreases na + lanes - base,
{
    if base >= na {
        assert(chunk_count(na - base, lanes) == 0);
    } else {
        lemma_cross_schedule_len_from(base + lanes, na, nb, lanes);
        assert(chunk_sched(base, nb, lanes, false).len() == nb + lanes - 1);
        assert(chunk_count(na - base, lanes) == 1 + chunk_count(na - base - lanes, lanes));
        assert((1 + chunk_count(na - base - lanes, lanes)) * (nb + lanes - 1) == (nb + lanes - 1)
            + chunk_count(na - base - lanes, lanes) * (nb + lanes - 1)) by (nonlinear_arith);
    }
}

/// The inductive half of cross completeness.
proof fn lemma_cross_coverage_from(base: int, na: int, nb: int, lanes: int)
    requires
        0 <= base,
        lanes >= 1,
    ensures
        forall|x: int, y: int|
            base <= x < na && 0 <= y < nb ==> #[trigger] pair_presented(
                schedule(base, na, nb, lanes, false),
                x,
                y,
                na,
                nb,
                lanes,
                false,
            ),
    decreases na + lanes - base,
{
    if base >= na {
    } else {
        let cs = chunk_sched(base, nb, lanes, false);
        let rest = schedule(base + lanes, na, nb, lanes, false);
        let whole = schedule(base, na, nb, lanes, false);
        assert(whole == cs + rest);
        lemma_cross_coverage_from(base + lanes, na, nb, lanes);
        assert forall|x: int, y: int|
            base <= x < na && 0 <= y < nb implies #[trigger] pair_presented(
            whole,
            x,
            y,
            na,
            nb,
            lanes,
            false,
        ) by {
            if x < base + lanes {
                let m = x - base;
                let e = y + m;
                assert(cs.len() == nb + lanes - 1);
                assert(cs[e] == (base, e));
                assert(whole[e] == (base, e));
                assert(lane_pair(whole[e], m, na, nb, lanes, false) == (x, y));
            } else {
                assert(pair_presented(rest, x, y, na, nb, lanes, false));
                let (s, m) = choose|s: int, m: int|
                    0 <= s < rest.len() && 0 <= m < lanes && #[trigger] lane_pair(
                        rest[s],
                        m,
                        na,
                        nb,
                        lanes,
                        false,
                    ) == (x, y);
                assert(whole[cs.len() + s] == rest[s]);
                assert(lane_pair(whole[cs.len() + s], m, na, nb, lanes, false) == (x, y));
            }
        }
    }
}

/// Cross coverage, any lane width: enumerating two distinct tables
/// presents exactly the full ordered pair space -- every lane holding two
/// real entities is a pair of valid positions, every (A entity, B entity)
/// pair appears, and each at exactly one step and lane.
pub proof fn lemma_cross_coverage(na: int, nb: int, lanes: int)
    requires
        na >= 0,
        nb >= 0,
        lanes >= 1,
    ensures
        forall|s: int, m: int|
            0 <= s < schedule(0, na, nb, lanes, false).len() && 0 <= m < lanes ==> {
                let p = #[trigger] lane_pair(
                    schedule(0, na, nb, lanes, false)[s],
                    m,
                    na,
                    nb,
                    lanes,
                    false,
                );
                p.0 >= 0 ==> 0 <= p.0 < na && 0 <= p.1 < nb
            },
        forall|x: int, y: int|
            0 <= x < na && 0 <= y < nb ==> #[trigger] pair_presented(
                schedule(0, na, nb, lanes, false),
                x,
                y,
                na,
                nb,
                lanes,
                false,
            ),
        forall|s1: int, m1: int, s2: int, m2: int|
            0 <= s1 < schedule(0, na, nb, lanes, false).len() && 0 <= m1 < lanes && 0 <= s2
                < schedule(0, na, nb, lanes, false).len() && 0 <= m2 < lanes && lane_pair(
                schedule(0, na, nb, lanes, false)[s1],
                m1,
                na,
                nb,
                lanes,
                false,
            ) == lane_pair(schedule(0, na, nb, lanes, false)[s2], m2, na, nb, lanes, false)
                && lane_pair(schedule(0, na, nb, lanes, false)[s1], m1, na, nb, lanes, false).0
                >= 0 ==> s1 == s2 && m1 == m2,
{
    let sched = schedule(0, na, nb, lanes, false);
    lemma_schedule_shape(0, na, nb, lanes, false);
    lemma_cross_coverage_from(0, na, nb, lanes);
    assert forall|s1: int, m1: int, s2: int, m2: int|
        0 <= s1 < sched.len() && 0 <= m1 < lanes && 0 <= s2 < sched.len() && 0 <= m2 < lanes
            && lane_pair(sched[s1], m1, na, nb, lanes, false) == lane_pair(
            sched[s2],
            m2,
            na,
            nb,
            lanes,
            false,
        ) && lane_pair(sched[s1], m1, na, nb, lanes, false).0 >= 0 implies s1 == s2 && m1
        == m2 by {
        let st1 = sched[s1];
        let st2 = sched[s2];
        assert(0 <= st1.0 < na && in_chunk_ranges(st1, nb, lanes, false));
        assert(0 <= st2.0 < na && in_chunk_ranges(st2, nb, lanes, false));
        if s1 <= s2 {
            assert(st1.0 == st2.0 || st1.0 + lanes <= st2.0);
        } else {
            assert(st2.0 == st1.0 || st2.0 + lanes <= st1.0);
        }
        assert(st1.0 == st2.0);
        assert(m1 == m2);
        assert(st1.1 == st2.1);
        if s1 != s2 {
            if s1 < s2 {
                assert(sched[s1] != sched[s2]);
            } else {
                assert(sched[s2] != sched[s1]);
            }
        }
    }
}

} // verus!
