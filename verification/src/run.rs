//! Per-step app-surface screenshots during a recipe run: which steps get
//! one and where each PNG goes.

use vstd::prelude::*;

use crate::plan::{flatten, waves_view, PlannedStep};
use crate::record::{sanitize_chars, sanitized};
use crate::text::{push_char, push_chars, str_eq, string_of, zero_padded, zero_padded_string};

verus! {

/// A step id as a file-name stem: unsafe characters become `_`, and an
/// empty id becomes `step`.
pub fn sanitize_step_id(id: &str) -> (r: String)
    ensures
        r@ == if id@.len() == 0 { "step"@ } else { sanitized(id@) },
{
    let out = sanitize_chars(id);
    if out.len() == 0 {
        return "step".to_owned();
    }
    string_of(out.as_slice())
}

/// `PathBuf::join` of a relative name onto `dir` (Unix separators): no
/// separator is added to an empty directory or one that already ends
/// with `/`.
pub open spec fn join_path(dir: Seq<char>, name: Seq<char>) -> Seq<char> {
    if dir.len() == 0 || dir.last() == '/' {
        dir + name
    } else {
        dir + seq!['/'] + name
    }
}

/// `{index:03}-{sanitized step id}.png`.
pub open spec fn step_png(index: u32, step_id: Seq<char>) -> Seq<char> {
    zero_padded(index as nat, 3) + "-"@ + (if step_id.len() == 0 { "step"@ } else { sanitized(step_id) })
        + ".png"@
}

/// After selected recipe steps, ask the host to write an app-surface PNG:
/// every step, or with `flagged_only` only the steps flagged `screenshot`.
#[derive(Debug, Clone)]
pub struct ScreenshotCapture {
    pub dir: String,
    pub flagged_only: bool,
}

impl ScreenshotCapture {
    /// `{dir}/{index:03}-{sanitized}.png`.
    pub fn step_path(&self, index: u32, step_id: &str) -> (r: String)
        ensures
            r@ == join_path(self.dir@, step_png(index, step_id@)),
    {
        let mut name = string_of(zero_padded_string(index as u64, 3).as_slice());
        name.append("-");
        name.append(sanitize_step_id(step_id).as_str());
        name.append(".png");
        let mut out = self.dir.clone();
        let d = crate::text::chars_of(self.dir.as_str());
        if d.len() > 0 && d[d.len() - 1] != '/' {
            push_char(&mut out, '/');
        }
        out.append(name.as_str());
        out
    }

    /// Whether step `step` gets a screenshot.
    pub fn wants(&self, step: &PlannedStep) -> (r: bool)
        ensures
            r == (!self.flagged_only || step.screenshot),
    {
        !self.flagged_only || step.screenshot
    }

    /// The path to ask the host for after step `step` (the `index`-th,
    /// counting from 1), or `None` when this step is not captured.
    pub fn request_for(&self, index: u32, step: &PlannedStep) -> (r: Option<String>)
        ensures
            match r {
                Some(p) => (!self.flagged_only || step.screenshot) && p@ == join_path(
                    self.dir@,
                    step_png(index, step.id@),
                ),
                None => self.flagged_only && !step.screenshot,
            },
    {
        if self.wants(step) {
            Some(self.step_path(index, step.id.as_str()))
        } else {
            None
        }
    }
}

/// What a recipe run records of one screenshot request. `ok` is false
/// when the host answered `screenshot_unavailable` or any other error;
/// no file is invented then.
#[derive(Debug, Clone)]
pub struct ScreenshotReceipt {
    pub path: String,
    pub ok: bool,
    pub error: Option<String>,
}

/// The error recorded when the host refused a screenshot without saying why.
pub open spec fn screenshot_failed_spec() -> Seq<char> {
    "screenshot failed"@
}

/// The receipt for a screenshot request of `path`, from the host's reply:
/// `Ok((ok, error))` is a reply frame with its `ok` flag and `error`
/// field, `Err(e)` a transport failure.
pub fn screenshot_receipt(path: String, reply: Result<(bool, Option<String>), String>) -> (r:
    ScreenshotReceipt)
    ensures
        r.path@ == path@,
        match reply {
            Ok((true, _)) => r.ok && r.error is None,
            Ok((false, Some(e))) => !r.ok && r.error == Some(e),
            Ok((false, None)) => !r.ok && (r.error matches Some(e) && e@ == screenshot_failed_spec()),
            Err(e) => !r.ok && r.error == Some(e),
        },
{
    match reply {
        Ok((true, _)) => ScreenshotReceipt { path, ok: true, error: None },
        Ok((false, Some(e))) => ScreenshotReceipt { path, ok: false, error: Some(e) },
        Ok((false, None)) => ScreenshotReceipt {
            path,
            ok: false,
            error: Some("screenshot failed".to_owned()),
        },
        Err(e) => ScreenshotReceipt { path, ok: false, error: Some(e) },
    }
}


/// Why a recipe run stopped.
#[derive(Debug, Clone)]
pub enum RunError {
    /// The plan may exit the app and `--yes` was not given.
    NeedsYes,
    /// A step's request failed; the run stops there.
    Step { id: String, error: String },
}

pub open spec fn run_error_text(e: RunError) -> Seq<char> {
    match e {
        RunError::NeedsYes => "recipe has shutdown/exit effects; pass --yes to run it"@,
        RunError::Step { id, error } => "step `"@ + id@ + "` failed: "@ + error@,
    }
}

impl RunError {
    /// The error's message.
    pub fn message(&self) -> (r: String)
        ensures
            r@ == run_error_text(*self),
    {
        match self {
            RunError::NeedsYes => "recipe has shutdown/exit effects; pass --yes to run it".to_owned(),
            RunError::Step { id, error } => {
                let mut m = "step `".to_owned();
                m.append(id.as_str());
                m.append("` failed: ");
                m.append(error.as_str());
                m
            },
        }
    }
}

/// The index of the first planned step with id `id`.
pub open spec fn step_index(steps: Seq<PlannedStep>, id: Seq<char>, i: int) -> bool {
    &&& 0 <= i < steps.len()
    &&& steps[i].id@ == id
    &&& forall|j: int| 0 <= j < i ==> steps[j].id@ != id
}

pub open spec fn names_planned(steps: Seq<PlannedStep>, id: Seq<char>) -> bool {
    exists|i: int| 0 <= i < steps.len() && #[trigger] steps[i].id@ == id
}

/// Some planned step has the id `id`.
fn names_a_step(steps: &Vec<PlannedStep>, id: &String) -> (r: bool)
    ensures
        r == names_planned(steps@, id@),
{
    let mut i: usize = 0;
    while i < steps.len()
        invariant
            i <= steps@.len(),
            forall|j: int| 0 <= j < i ==> #[trigger] steps@[j].id@ != id@,
        decreases steps.len() - i,
    {
        if str_eq(steps[i].id.as_str(), id.as_str()) {
            return true;
        }
        i += 1;
    }
    false
}

/// An id is in the flattened waves iff some wave lists it.
proof fn lemma_flatten_contains(wv: Seq<Seq<Seq<char>>>, x: Seq<char>)
    ensures
        flatten(wv).contains(x) <==> exists|w: int, k: int|
            0 <= w < wv.len() && 0 <= k < wv[w].len() && #[trigger] wv[w][k] == x,
    decreases wv.len(),
{
    if wv.len() > 0 {
        let front = wv.drop_last();
        lemma_flatten_contains(front, x);
        let f = flatten(wv);
        assert(f == flatten(front) + wv.last());
        if f.contains(x) {
            let t = choose|t: int| 0 <= t < f.len() && f[t] == x;
            if t < flatten(front).len() {
                assert(flatten(front).contains(x));
                let (w, k) = choose|w: int, k: int|
                    0 <= w < front.len() && 0 <= k < front[w].len() && #[trigger] front[w][k] == x;
                assert(wv[w][k] == x);
            } else {
                let k = t - flatten(front).len();
                assert(wv[wv.len() - 1][k] == x);
            }
        }
        if exists|w: int, k: int| 0 <= w < wv.len() && 0 <= k < wv[w].len() && #[trigger] wv[w][k] == x {
            let (w, k) = choose|w: int, k: int|
                0 <= w < wv.len() && 0 <= k < wv[w].len() && #[trigger] wv[w][k] == x;
            if w < wv.len() - 1 {
                assert(front[w][k] == x);
                assert(flatten(front).contains(x));
                let t = choose|t: int| 0 <= t < flatten(front).len() && flatten(front)[t] == x;
                assert(f[t] == x);
            } else {
                assert(f[flatten(front).len() + k] == x);
            }
        }
    }
}

/// The first id, in wave order, that names no planned step; `None` when
/// every id does, which is what [`run_order`] requires.
pub fn first_unknown_wave_id(steps: &Vec<PlannedStep>, waves: &Vec<Vec<String>>) -> (r: Option<String>)
    ensures
        r is None <==> forall|x: Seq<char>| flatten(waves_view(waves@)).contains(x) ==> names_planned(steps@, x),
        r matches Some(id) ==> flatten(waves_view(waves@)).contains(id@) && !names_planned(steps@, id@),
{
    let ghost wv = waves_view(waves@);
    let mut w: usize = 0;
    while w < waves.len()
        invariant
            w <= waves@.len(),
            wv == waves_view(waves@),
            forall|a: int, k: int| 0 <= a < w && 0 <= k < wv[a].len() ==> names_planned(steps@, #[trigger] wv[a][k]),
        decreases waves.len() - w,
    {
        let wave = &waves[w];
        let mut k: usize = 0;
        while k < wave.len()
            invariant
                w < waves@.len(),
                *wave == waves@[w as int],
                wv == waves_view(waves@),
                k <= wave@.len(),
                forall|a: int, q: int| 0 <= a < w && 0 <= q < wv[a].len() ==> names_planned(steps@, #[trigger] wv[a][q]),
                forall|q: int| 0 <= q < k ==> names_planned(steps@, #[trigger] wv[w as int][q]),
            decreases wave.len() - k,
        {
            assert(wv[w as int][k as int] == wave@[k as int]@);
            if !names_a_step(steps, &wave[k]) {
                proof {
                    let x = wv[w as int][k as int];
                    lemma_flatten_contains(wv, x);
                    assert(flatten(wv).contains(x));
                }
                return Some(wave[k].clone());
            }
            k += 1;
        }
        proof {
            assert forall|a: int, q: int| 0 <= a < w + 1 && 0 <= q < wv[a].len() implies names_planned(steps@, #[trigger] wv[a][q]) by {
                if a == w {
                    assert(wv[a].len() == wave@.len());
                }
            }
        }
        w += 1;
    }
    proof {
        assert forall|x: Seq<char>| flatten(wv).contains(x) implies names_planned(steps@, x) by {
            lemma_flatten_contains(wv, x);
            let (a, q) = choose|a: int, q: int| 0 <= a < wv.len() && 0 <= q < wv[a].len() && #[trigger] wv[a][q] == x;
            assert(names_planned(steps@, wv[a][q]));
        }
    }
    None
}

fn find_step(steps: &Vec<PlannedStep>, id: &String) -> (r: usize)
    requires
        names_planned(steps@, id@),
    ensures
        step_index(steps@, id@, r as int),
{
    let mut i: usize = 0;
    while i < steps.len()
        invariant
            i <= steps@.len(),
            names_planned(steps@, id@),
            forall|j: int| 0 <= j < i ==> steps@[j].id@ != id@,
        decreases steps.len() - i,
    {
        if str_eq(steps[i].id.as_str(), id.as_str()) {
            return i;
        }
        i += 1;
    }
    proof {
        let k = choose|k: int| 0 <= k < steps@.len() && #[trigger] steps@[k].id@ == id@;
        assert(steps@[k].id@ != id@);
    }
    0
}

/// The steps in the order a run sends them: wave by wave, each wave in its
/// listed order.
pub fn run_order(steps: &Vec<PlannedStep>, waves: &Vec<Vec<String>>) -> (r: Vec<usize>)
    requires
        forall|x: Seq<char>| flatten(waves_view(waves@)).contains(x) ==> names_planned(steps@, x),
    ensures
        r@.len() == flatten(waves_view(waves@)).len(),
        forall|t: int|
            0 <= t < r@.len() ==> step_index(steps@, flatten(waves_view(waves@))[t], #[trigger] r@[t] as int),
{
    let ghost wv = waves_view(waves@);
    let mut out: Vec<usize> = Vec::new();
    let mut w: usize = 0;
    while w < waves.len()
        invariant
            w <= waves@.len(),
            wv == waves_view(waves@),
            forall|x: Seq<char>| flatten(wv).contains(x) ==> names_planned(steps@, x),
            out@.len() == flatten(wv.subrange(0, w as int)).len(),
            forall|t: int|
                0 <= t < out@.len() ==> step_index(steps@, flatten(wv.subrange(0, w as int))[t], #[trigger] out@[t] as int),
        decreases waves.len() - w,
    {
        let ghost pre = flatten(wv.subrange(0, w as int));
        assert(wv.subrange(0, w + 1).drop_last() =~= wv.subrange(0, w as int));
        let ghost next = flatten(wv.subrange(0, w + 1));
        assert(next == pre + wv[w as int]);
        proof {
            lemma_flatten_prefix(wv, w as int + 1);
        }
        let wave = &waves[w];
        let mut k: usize = 0;
        while k < wave.len()
            invariant
                w < waves@.len(),
                *wave == waves@[w as int],
                wv == waves_view(waves@),
                forall|x: Seq<char>| flatten(wv).contains(x) ==> names_planned(steps@, x),
                next == pre + wv[w as int],
                forall|t: int| 0 <= t < next.len() ==> flatten(wv).contains(#[trigger] next[t]),
                k <= wave@.len(),
                out@.len() == pre.len() + k,
                forall|t: int| 0 <= t < out@.len() ==> step_index(steps@, next[t], #[trigger] out@[t] as int),
            decreases wave.len() - k,
        {
            assert(wv[w as int][k as int] == wave@[k as int]@);
            assert(next[pre.len() + k] == wave@[k as int]@);
            assert(flatten(wv).contains(next[pre.len() + k]));
            let i = find_step(steps, &wave[k]);
            out.push(i);
            k += 1;
        }
        w += 1;
    }
    assert(wv.subrange(0, waves@.len() as int) =~= wv);
    out
}

proof fn lemma_flatten_prefix(wv: Seq<Seq<Seq<char>>>, w: int)
    requires
        0 <= w <= wv.len(),
    ensures
        forall|t: int| 0 <= t < flatten(wv.subrange(0, w)).len() ==> flatten(wv).contains(
            #[trigger] flatten(wv.subrange(0, w))[t],
        ),
    decreases wv.len() - w,
{
    if w < wv.len() {
        lemma_flatten_prefix(wv, w + 1);
        let a = flatten(wv.subrange(0, w));
        let b = flatten(wv.subrange(0, w + 1));
        assert(wv.subrange(0, w + 1).drop_last() =~= wv.subrange(0, w));
        assert forall|t: int| 0 <= t < a.len() implies flatten(wv).contains(#[trigger] a[t]) by {
            assert(b[t] == a[t]);
        }
    } else {
        assert(wv.subrange(0, w) =~= wv);
        assert forall|t: int| 0 <= t < flatten(wv).len() implies flatten(wv).contains(#[trigger] flatten(wv)[t]) by {}
    }
}

/// A recipe run as plain values: the order, how many steps were sent,
/// and why it stopped early, if it did.
pub struct RunView {
    pub order: Seq<usize>,
    pub sent: nat,
    pub stopped: Option<RunError>,
}

/// A recipe run in progress: steps are sent one at a time in run order,
/// and the first failure stops it (no next sibling, no next wave).
pub struct RecipeRun {
    order: Vec<usize>,
    sent: usize,
    stopped: Option<RunError>,
}

/// What became of one sent step.
#[derive(Debug, Clone)]
pub struct StepVerdict {
    pub ok: bool,
    pub error: Option<String>,
}

impl RecipeRun {
    pub closed spec fn view(&self) -> RunView {
        RunView { order: self.order@, sent: self.sent as nat, stopped: self.stopped }
    }

    /// No more steps are sent than the order holds.
    #[verifier::type_invariant]
    spec fn wf(self) -> bool {
        self.sent <= self.order@.len()
    }

    /// Start a run in the given order; a plan that may exit the app needs
    /// `yes`.
    pub fn start(order: Vec<usize>, requires_yes: bool, yes: bool) -> (r: Result<RecipeRun, RunError>)
        ensures
            requires_yes && !yes ==> r matches Err(RunError::NeedsYes),
            !(requires_yes && !yes) ==> (r matches Ok(run) && run.view() == (RunView {
                order: order@,
                sent: 0,
                stopped: None,
            })),
    {
        if requires_yes && !yes {
            return Err(RunError::NeedsYes);
        }
        Ok(RecipeRun { order, sent: 0, stopped: None })
    }

    /// The next step to send, if the run goes on.
    pub fn next_step(&self) -> (r: Option<usize>)
        ensures
            match r {
                Some(i) => self.view().stopped is None && self.view().sent < self.view().order.len()
                    && i == self.view().order[self.view().sent as int],
                None => self.view().stopped is Some || self.view().sent == self.view().order.len(),
            },
    {
        proof {
            use_type_invariant(self);
        }
        if self.stopped.is_some() || self.sent >= self.order.len() {
            None
        } else {
            Some(self.order[self.sent])
        }
    }

    /// The 1-based number of the step about to be recorded, for its
    /// screenshot's file name.
    pub fn shot_number(&self) -> (r: u64)
        requires
            self.view().sent < self.view().order.len(),
        ensures
            r == self.view().sent + 1,
    {
        proof {
            use_type_invariant(self);
            assert(self.sent < self.order.len());
        }
        self.sent as u64 + 1
    }

    /// Record the reply to the step `id` that [`Self::next_step`] named:
    /// `Ok((ok, error))` a reply frame, `Err(e)` a transport failure. A
    /// failed step stops the run with its error (`request failed` when the
    /// host gave none).
    pub fn record(&mut self, id: &str, reply: Result<(bool, Option<String>), String>) -> (r: StepVerdict)
        requires
            old(self).view().stopped is None,
            old(self).view().sent < old(self).view().order.len(),
        ensures
            final(self).view().order == old(self).view().order,
            final(self).view().sent == old(self).view().sent + 1,
            match reply {
                Ok((true, e)) => r.ok && r.error == e && final(self).view().stopped is None,
                Ok((false, e)) => !r.ok && r.error == e && (final(self).view().stopped matches Some(
                    RunError::Step { id: x, error: msg },
                ) && x@ == id@ && msg@ == match e {
                    Some(m) => m@,
                    None => "request failed"@,
                }),
                Err(e) => !r.ok && r.error == Some(e) && (final(self).view().stopped matches Some(
                    RunError::Step { id: x, error: msg },
                ) && x@ == id@ && msg@ == e@),
            },
    {
        proof {
            use_type_invariant(&*self);
            assert(self.sent < self.order.len());
        }
        self.sent = self.sent + 1;
        match reply {
            Ok((true, e)) => StepVerdict { ok: true, error: e },
            Ok((false, e)) => {
                let msg = match &e {
                    Some(m) => m.clone(),
                    None => "request failed".to_owned(),
                };
                self.stopped = Some(RunError::Step { id: id.to_owned(), error: msg });
                StepVerdict { ok: false, error: e }
            },
            Err(e) => {
                let msg = e.clone();
                self.stopped = Some(RunError::Step { id: id.to_owned(), error: msg });
                StepVerdict { ok: false, error: Some(e) }
            },
        }
    }

    /// How the run ended: the error that stopped it, or success.
    pub fn finish(self) -> (r: Result<(), RunError>)
        ensures
            match self.view().stopped {
                Some(e) => r == Err::<(), RunError>(e),
                None => r is Ok,
            },
    {
        match self.stopped {
            Some(e) => Err(e),
            None => Ok(()),
        }
    }
}
} // verus!
