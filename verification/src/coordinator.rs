//! The load coordinator: the UI-facing state machine that drains finished
//! background loads each tick, collects the successes, and turns the first
//! failure into the terminal error screen.
//!
//! While loading, the screen shows the average of the in-flight tasks'
//! latest progress values, on a scale of 0 to [`PROGRESS_SCALE`]; a task
//! that has reported nothing counts as 0, and with no task left the bar is
//! full.

use vstd::prelude::*;

use crate::metadata::{Respack, RespackError, RespackResult, RespackView};

verus! {

/// Full progress, on the coordinator's fixed-point scale.
pub const PROGRESS_SCALE: u32 = 1000;

/// The screen the renderer is to paint: a loading bar, or a terminal
/// error message.
#[derive(Debug)]
pub enum Screen {
    Loading { progress: u32 },
    Error { message: String },
}

/// Mathematical model of a [`Screen`].
#[verifier::ext_equal]
pub enum ScreenView {
    Loading { progress: int },
    Error { message: Seq<char> },
}

impl View for Screen {
    type V = ScreenView;

    open spec fn view(&self) -> ScreenView {
        match self {
            Screen::Loading { progress } => ScreenView::Loading { progress: *progress as int },
            Screen::Error { message } => ScreenView::Error { message: message@ },
        }
    }
}

impl Default for Screen {
    /// The initial screen: loading, with no progress yet.
    fn default() -> (r: Screen)
        ensures
            r@ == (ScreenView::Loading { progress: 0 }),
    {
        Screen::Loading { progress: 0 }
    }
}

/// Mathematical model of a [`LoadCoordinator`].
#[verifier::ext_equal]
pub struct CoordView {
    pub screen: ScreenView,
    pub packs: Seq<RespackView>,
}

/// Tracks the screen state and the packs loaded so far.
#[derive(Debug)]
pub struct LoadCoordinator {
    screen: Screen,
    respacks: Vec<Respack>,
}

impl View for LoadCoordinator {
    type V = CoordView;

    closed spec fn view(&self) -> CoordView {
        CoordView { screen: self.screen@, packs: self.respacks@.map_values(|p: Respack| p@) }
    }
}

/// The views of a tick's drained results.
pub open spec fn results_view(rs: Seq<RespackResult<Respack>>) -> Seq<
    Result<RespackView, RespackError>,
> {
    rs.map_values(
        |r: RespackResult<Respack>|
            match r {
                Ok(p) => Ok(p@),
                Err(e) => Err(e),
            },
    )
}

/// Draining results in order: the packs after appending every success
/// before the first failure, and that failure, if any. Results after the
/// first failure are abandoned.
pub open spec fn drain_rec(
    packs: Seq<RespackView>,
    results: Seq<Result<RespackView, RespackError>>,
) -> (Seq<RespackView>, Option<RespackError>)
    decreases results.len(),
{
    if results.len() == 0 {
        (packs, None)
    } else {
        match results[0] {
            Ok(p) => drain_rec(packs.push(p), results.drop_first()),
            Err(e) => (packs, Some(e)),
        }
    }
}

/// The sum of the progress values from index `i` on.
pub open spec fn sum_from(progs: Seq<u32>, i: int) -> int
    decreases progs.len() - i,
{
    if i < 0 || i >= progs.len() {
        0
    } else {
        progs[i] + sum_from(progs, i + 1)
    }
}

/// The average progress of the tasks still in flight; full when none is
/// left.
pub open spec fn avg_spec(progs: Seq<u32>) -> int {
    if progs.len() == 0 {
        PROGRESS_SCALE as int
    } else {
        sum_from(progs, 0) / (progs.len() as int)
    }
}

/// One coordinator tick, at the model level. The error screen is
/// terminal; otherwise the drained results are folded in, and the screen
/// either turns into the first failure's message or shows the new average
/// progress.
pub open spec fn tick_spec(
    s: CoordView,
    results: Seq<Result<RespackView, RespackError>>,
    progs: Seq<u32>,
) -> CoordView {
    if s.screen is Error {
        s
    } else {
        let (packs2, err) = drain_rec(s.packs, results);
        match err {
            Some(e) => CoordView {
                screen: ScreenView::Error { message: e.describe_spec() },
                packs: packs2,
            },
            None => CoordView {
                screen: ScreenView::Loading { progress: avg_spec(progs) },
                packs: packs2,
            },
        }
    }
}

/// A partial sum of bounded values is bounded.
proof fn lemma_sum_from_bound(progs: Seq<u32>, i: int)
    requires
        forall|m: int| 0 <= m < progs.len() ==> #[trigger] progs[m] <= PROGRESS_SCALE,
        0 <= i <= progs.len(),
    ensures
        0 <= sum_from(progs, i) <= (progs.len() - i) * (PROGRESS_SCALE as int),
    decreases progs.len() - i,
{
    if i < progs.len() {
        lemma_sum_from_bound(progs, i + 1);
        assert((progs.len() - i) * (PROGRESS_SCALE as int) == (progs.len() - i - 1) * (
        PROGRESS_SCALE as int) + PROGRESS_SCALE) by (nonlinear_arith);
    }
}

/// The average of the progress values, on the fixed-point scale.
fn average_progress(progress: &Vec<u32>) -> (r: u32)
    requires
        forall|m: int| 0 <= m < progress@.len() ==> #[trigger] progress@[m] <= PROGRESS_SCALE,
        progress@.len() <= u32::MAX,
    ensures
        r as int == avg_spec(progress@),
        r <= PROGRESS_SCALE,
{
    let n = progress.len();
    if n == 0 {
        return PROGRESS_SCALE;
    }
    let mut sum: u64 = 0;
    let mut i: usize = 0;
    while i < n
        invariant
            0 <= i <= n,
            n == progress@.len(),
            n <= u32::MAX,
            forall|m: int| 0 <= m < progress@.len() ==> #[trigger] progress@[m] <= PROGRESS_SCALE,
            sum + sum_from(progress@, i as int) == sum_from(progress@, 0),
            sum <= i * (PROGRESS_SCALE as int),
        decreases n - i,
    {
        proof {
            lemma_sum_from_bound(progress@, i as int);
            assert(i * (PROGRESS_SCALE as int) + PROGRESS_SCALE == (i + 1) * (
            PROGRESS_SCALE as int)) by (nonlinear_arith);
            assert((i + 1) * (PROGRESS_SCALE as int) <= (u32::MAX as int + 1) * (
            PROGRESS_SCALE as int)) by (nonlinear_arith)
                requires
                    i + 1 <= u32::MAX as int + 1,
            ;
        }
        sum = sum + progress[i] as u64;
        i = i + 1;
    }
    proof {
        lemma_sum_from_bound(progress@, 0);
        assert(sum / (n as u64) <= PROGRESS_SCALE) by (nonlinear_arith)
            requires
                n >= 1,
                sum <= n * (PROGRESS_SCALE as int),
        ;
    }
    (sum / (n as u64)) as u32
}

impl LoadCoordinator {
    /// A fresh coordinator: loading from zero, nothing collected yet.
    pub fn new() -> (r: LoadCoordinator)
        ensures
            r@ == (CoordView { screen: ScreenView::Loading { progress: 0 }, packs: Seq::empty() }),
    {
        let r = LoadCoordinator { screen: Screen::default(), respacks: Vec::new() };
        proof {
            assert(r@.packs =~= Seq::<RespackView>::empty());
        }
        r
    }

    /// The screen the renderer is to paint.
    pub fn screen(&self) -> (r: &Screen)
        ensures
            r@ == self@.screen,
    {
        &self.screen
    }

    /// The packs loaded so far.
    pub fn packs(&self) -> (r: &Vec<Respack>)
        ensures
            r@.map_values(|p: Respack| p@) == self@.packs,
    {
        &self.respacks
    }

    /// One tick: drains the finished tasks' results in order, collecting
    /// the successes; the first failure turns the screen into the terminal
    /// error state, abandoning the rest; with no failure the screen shows
    /// the tasks' average progress. `progress` holds one latest-known
    /// value per task still in flight, each on the fixed-point scale.
    pub fn tick(&mut self, results: Vec<RespackResult<Respack>>, progress: &Vec<u32>)
        requires
            forall|m: int| 0 <= m < progress@.len() ==> #[trigger] progress@[m] <= PROGRESS_SCALE,
            progress@.len() <= u32::MAX,
        ensures
            final(self)@ == tick_spec(old(self)@, results_view(results@), progress@),
    {
        match &self.screen {
            Screen::Error { .. } => {
                return ;
            },
            _ => {},
        }
        let ghost r0 = results_view(results@);
        let ghost packs0 = old(self)@.packs;
        let mut remaining = results;
        while remaining.len() > 0
            invariant
                self.screen is Loading,
                self@.screen == old(self)@.screen,
                packs0 == old(self)@.packs,
                r0 == results_view(results@),
                drain_rec(packs0, r0) == drain_rec(self@.packs, results_view(remaining@)),
            decreases remaining@.len(),
        {
            let ghost pre_packs = self@.packs;
            let ghost pre_results = results_view(remaining@);
            let next = remaining.remove(0);
            proof {
                assert(results_view(remaining@) =~= pre_results.drop_first());
            }
            match next {
                Ok(pack) => {
                    let ghost gp = pack;
                    self.respacks.push(pack);
                    proof {
                        assert(pre_results[0] == Ok::<RespackView, RespackError>(gp@));
                        assert(self@.packs =~= pre_packs.push(gp@));
                    }
                },
                Err(e) => {
                    proof {
                        assert(pre_results[0] == Err::<RespackView, RespackError>(e));
                        assert(drain_rec(pre_packs, pre_results) == (pre_packs, Some(e)));
                    }
                    self.screen = Screen::Error { message: e.describe().to_owned() };
                    proof {
                        let target = tick_spec(old(self)@, r0, progress@);
                        assert(drain_rec(old(self)@.packs, r0) == (pre_packs, Some(e)));
                        assert(self@.packs == pre_packs);
                        assert(self@.screen =~= target.screen);
                        assert(self@ =~= target);
                    }
                    return ;
                },
            }
        }
        proof {
            assert(results_view(remaining@) =~= Seq::<Result<RespackView, RespackError>>::empty());
            assert(drain_rec(self@.packs, results_view(remaining@)) == (
                self@.packs,
                None::<RespackError>,
            ));
        }
        let avg = average_progress(progress);
        self.screen = Screen::Loading { progress: avg };
        proof {
            let target = tick_spec(old(self)@, r0, progress@);
            assert(self@.packs == target.packs);
            assert(self@.screen =~= target.screen);
            assert(self@ =~= target);
        }
    }
}

/// One tick's inputs, at the model level: the drained results, and one
/// latest-known progress value per task still in flight.
#[verifier::ext_equal]
pub struct TickView {
    pub results: Seq<Result<RespackView, RespackError>>,
    pub progress: Seq<u32>,
}

/// The coordinator state after a sequence of ticks.
pub open spec fn run_ticks(s: CoordView, ticks: Seq<TickView>) -> CoordView
    decreases ticks.len(),
{
    if ticks.len() == 0 {
        s
    } else {
        run_ticks(tick_spec(s, ticks[0].results, ticks[0].progress), ticks.drop_first())
    }
}

/// Every result of a tick succeeded.
pub open spec fn all_ok(results: Seq<Result<RespackView, RespackError>>) -> bool {
    forall|i: int| 0 <= i < results.len() ==> results[i] is Ok
}

/// The packs of a tick's successful results, in drain order.
pub open spec fn oks(results: Seq<Result<RespackView, RespackError>>) -> Seq<RespackView> {
    results.map_values(|r: Result<RespackView, RespackError>| r->Ok_0)
}

/// The packs of all ticks' results, in tick order.
pub open spec fn all_oks(ticks: Seq<TickView>) -> Seq<RespackView>
    decreases ticks.len(),
{
    if ticks.len() == 0 {
        Seq::empty()
    } else {
        oks(ticks[0].results) + all_oks(ticks.drop_first())
    }
}

/// Draining all-successful results appends exactly their packs.
proof fn lemma_drain_all_ok(
    packs: Seq<RespackView>,
    results: Seq<Result<RespackView, RespackError>>,
)
    requires
        all_ok(results),
    ensures
        drain_rec(packs, results) == (packs + oks(results), None::<RespackError>),
    decreases results.len(),
{
    if results.len() == 0 {
        assert(packs + oks(results) =~= packs);
    } else {
        assert(results[0] is Ok);
        let p = results[0]->Ok_0;
        assert(all_ok(results.drop_first())) by {
            assert forall|i: int|
                0 <= i < results.drop_first().len() implies results.drop_first()[i] is Ok by {
                assert(results.drop_first()[i] == results[i + 1]);
            }
        }
        lemma_drain_all_ok(packs.push(p), results.drop_first());
        assert(packs.push(p) + oks(results.drop_first()) =~= packs + oks(results)) by {
            assert forall|i: int|
                0 <= i < packs.len() + results.len() implies (packs.push(p) + oks(
                results.drop_first(),
            ))[i] == (packs + oks(results))[i] by {
                if i >= packs.len() + 1 {
                    assert(oks(results.drop_first())[i - packs.len() - 1] == results.drop_first()[i
                        - packs.len() - 1]->Ok_0);
                    assert(results.drop_first()[i - packs.len() - 1] == results[i - packs.len()]);
                    assert(oks(results)[i - packs.len()] == results[i - packs.len()]->Ok_0);
                }
            }
        }
    }
}

/// The error screen is terminal: no tick changes the state again.
pub proof fn lemma_error_terminal(
    s: CoordView,
    results: Seq<Result<RespackView, RespackError>>,
    progs: Seq<u32>,
)
    requires
        s.screen is Error,
    ensures
        tick_spec(s, results, progs) == s,
{
}

/// Dispatching any number of loads and draining every tick: while every
/// drained result is a success, the screen stays in the loading state and
/// the packs collected are exactly the drained successes, in drain order —
/// so N successful loads end as N packs, however the ticks deliver them.
pub proof fn lemma_all_successes_accumulate(s: CoordView, ticks: Seq<TickView>)
    requires
        s.screen is Loading,
        forall|t: int| 0 <= t < ticks.len() ==> all_ok(#[trigger] ticks[t].results),
    ensures
        run_ticks(s, ticks).screen is Loading,
        run_ticks(s, ticks).packs == s.packs + all_oks(ticks),
    decreases ticks.len(),
{
    if ticks.len() == 0 {
        assert(s.packs + all_oks(ticks) =~= s.packs);
    } else {
        lemma_drain_all_ok(s.packs, ticks[0].results);
        let s1 = tick_spec(s, ticks[0].results, ticks[0].progress);
        assert(s1.screen is Loading);
        assert(s1.packs == s.packs + oks(ticks[0].results));
        assert(forall|t: int|
            0 <= t < ticks.drop_first().len() ==> all_ok(
                #[trigger] ticks.drop_first()[t].results,
            )) by {
            assert forall|t: int|
                0 <= t < ticks.drop_first().len() implies all_ok(
                ticks.drop_first()[t].results,
            ) by {
                assert(ticks.drop_first()[t] == ticks[t + 1]);
            }
        }
        lemma_all_successes_accumulate(s1, ticks.drop_first());
        assert(s1.packs + all_oks(ticks.drop_first()) =~= s.packs + all_oks(ticks));
    }
}

} // verus!
