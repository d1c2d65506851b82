//! The hill-climb driver: propose a change to one shape, render it, score
//! it, and keep it only if the score is strictly better.
//!
//! Between trials the state always equals what a render and an error
//! computation from nothing would give for the committed shape list. A
//! rejected trial leaves no trace.

use vstd::prelude::*;
use crate::canvas::{
    blank, draw, init_image, lemma_paint_all_outside, lemma_paint_all_shape, render, Canvas,
    CanvasView,
};
use crate::error_cache::{
    agree_on_rgb, error_matrix, fitness, lemma_objective_zero, lemma_patched_is_full, sum,
    ErrorCache, ErrorsView,
};
use crate::geometry::{
    all_within, is_footprint, lemma_footprint_within, scan_ordered, Point, Triangle,
};
use crate::layers::{lemma_layers_determined, LayerStack, LayersView};
use crate::mutation::{is_proposal, mutate};

verus! {

/// What an optimizer is to its contracts.
#[verifier::ext_equal]
pub struct OptimizerView {
    pub layers: LayersView,
    pub errors: ErrorsView,
    /// The objective of the committed state.
    pub current_best: nat,
}

impl OptimizerView {
    /// The caches are consistent with the committed shape list: the layer
    /// stack with its shapes, the error matrix with the committed render,
    /// and the best score with the matrix.
    pub open spec fn wf(self) -> bool {
        &&& self.layers.wf()
        &&& self.errors.wf()
        &&& self.errors.target.width == self.layers.width
        &&& self.errors.target.height == self.layers.height
        &&& self.errors.matches(self.layers.canvas)
        &&& self.current_best == self.errors.total()
    }

    /// The objective that the shape list would have with `candidate` in
    /// slot `i`, computed from nothing.
    pub open spec fn trial_total(self, i: int, candidate: Triangle) -> nat {
        sum(error_matrix(self.layers.render_with(i, candidate), self.errors.target))
    }

    /// The acceptance rule: strictly better, or not at all.
    pub open spec fn accepts(self, i: int, candidate: Triangle) -> bool {
        self.trial_total(i, candidate) < self.current_best
    }

    /// `after` is what a trial of `candidate` in slot `i` leaves of this
    /// state, and `accepted` says whether the candidate was taken: with a
    /// strictly better objective it is committed, and otherwise nothing
    /// changes.
    pub open spec fn tried(
        self,
        i: int,
        candidate: Triangle,
        after: OptimizerView,
        accepted: bool,
    ) -> bool {
        &&& after.wf()
        &&& accepted == self.accepts(i, candidate)
        &&& accepted ==> {
            &&& after.layers.shapes == self.layers.shapes.update(i, candidate)
            &&& after.errors.target == self.errors.target
            &&& after.current_best == self.trial_total(i, candidate)
        }
        &&& !accepted ==> after == self
    }

    /// `after` is what one epoch can leave of this state, and `accepted`
    /// says whether its proposal was taken: the outcome of the trial of some
    /// proposal that the proposer can make.
    pub open spec fn epoch_to(self, after: OptimizerView, accepted: bool) -> bool {
        exists|i: int, candidate: Triangle|
            is_proposal(
                self.layers.shapes,
                self.layers.width as int,
                self.layers.height as int,
                i,
                candidate,
            ) && #[trigger] self.tried(i, candidate, after, accepted)
    }

    /// `after` is what `epochs` epochs in a row can leave of this state,
    /// `accepted` of them with an accepted proposal.
    pub open spec fn runs_to(self, after: OptimizerView, epochs: nat, accepted: int) -> bool
        decreases epochs,
    {
        if epochs == 0 {
            after == self && accepted == 0
        } else {
            exists|before_last: OptimizerView, last: bool|
                #[trigger] before_last.epoch_to(after, last) && self.runs_to(
                    before_last,
                    (epochs - 1) as nat,
                    accepted - if last { 1int } else { 0int },
                )
        }
    }

    /// What is cached equals what a run from nothing gives: the canvas is
    /// the full render of the committed shapes, the matrix is the full error
    /// matrix of that render against the target, and the best score is its
    /// sum.
    pub open spec fn agrees_with_full_recompute(self) -> bool {
        &&& self.errors.target.width == self.layers.width
        &&& self.errors.target.height == self.layers.height
        &&& self.layers.canvas == render(self.layers.width, self.layers.height, self.layers.shapes)
        &&& self.errors.matrix == error_matrix(self.layers.canvas, self.errors.target)
        &&& self.current_best == sum(error_matrix(self.layers.canvas, self.errors.target))
    }
}

/// The whole state of a run: the layer stack, the error cache and the best
/// score so far.
pub struct Optimizer {
    layers: LayerStack,
    errors: ErrorCache,
    current_best: u128,
}

impl View for Optimizer {
    type V = OptimizerView;

    closed spec fn view(&self) -> OptimizerView {
        OptimizerView {
            layers: self.layers@,
            errors: self.errors@,
            current_best: self.current_best as nat,
        }
    }
}

/// A candidate that has been rendered and scored and not yet decided on.
/// While a trial is held the driver is proposing; deciding on it makes the
/// driver idle again.
pub struct Trial {
    index: usize,
    candidate: Triangle,
    canvas: Canvas,
    touched: Vec<Point>,
    score: u128,
}

/// What a trial is to its contracts.
#[verifier::ext_equal]
pub struct TrialView {
    /// The slot that is tried.
    pub index: int,
    /// The shape that is tried in it.
    pub candidate: Triangle,
    /// The render with the candidate in the slot.
    pub canvas: CanvasView,
    /// The pixels that the candidate paints.
    pub touched: Seq<Point>,
    /// The objective of that render.
    pub score: nat,
}

impl View for Trial {
    type V = TrialView;

    closed spec fn view(&self) -> TrialView {
        TrialView {
            index: self.index as int,
            candidate: self.candidate,
            canvas: self.canvas@,
            touched: self.touched@,
            score: self.score as nat,
        }
    }
}

impl TrialView {
    /// The trial is what evaluating its candidate on `state` gives: the
    /// full render with the candidate in its slot, the candidate's
    /// footprint, and the objective of that render.
    pub open spec fn evaluates(self, state: OptimizerView) -> bool {
        &&& 0 <= self.index < state.layers.shapes.len()
        &&& self.canvas == state.layers.render_with(self.index, self.candidate)
        &&& is_footprint(
            self.touched,
            self.candidate,
            state.layers.width as int,
            state.layers.height as int,
        )
        &&& scan_ordered(self.touched)
        &&& self.score == state.trial_total(self.index, self.candidate)
    }
}

impl Trial {
    /// The slot that is tried.
    pub fn index(&self) -> (index: usize)
        ensures
            index == self@.index,
    {
        self.index
    }

    /// The shape that is tried.
    pub fn candidate(&self) -> (candidate: Triangle)
        ensures
            candidate == self@.candidate,
    {
        self.candidate
    }

    /// The render with the candidate in its slot.
    pub fn canvas(&self) -> (canvas: &Canvas)
        ensures
            canvas@ == self@.canvas,
    {
        &self.canvas
    }

    /// The objective of that render.
    pub fn score(&self) -> (score: u128)
        ensures
            score == self@.score,
    {
        self.score
    }
}

/// With consistent caches, what the incremental machinery holds is what a
/// run from nothing gives, whatever sequence of accepted and rejected trials
/// led to the state.
pub proof fn lemma_incremental_is_full(state: OptimizerView)
    requires
        state.wf(),
    ensures
        state.agrees_with_full_recompute(),
{
}

/// With consistent caches, the best score is 0 exactly when the committed
/// render and the target agree on red, green and blue at every pixel.
pub proof fn lemma_best_zero(state: OptimizerView)
    requires
        state.wf(),
    ensures
        state.current_best == 0 <==> agree_on_rgb(state.layers.canvas, state.errors.target),
{
    lemma_objective_zero(state.layers.canvas, state.errors.target);
}

/// The target and the shape list determine the whole state: two consistent
/// states over the same target with the same shapes are equal, whatever
/// trials led to each.
pub proof fn lemma_state_determined(s1: OptimizerView, s2: OptimizerView)
    requires
        s1.wf(),
        s2.wf(),
        s1.errors.target == s2.errors.target,
        s1.layers.shapes == s2.layers.shapes,
    ensures
        s1 == s2,
{
    lemma_layers_determined(s1.layers, s2.layers);
}

/// However many epochs run and whatever is proposed in them, the best score
/// never goes up and the caches stay consistent. The target and the number
/// of shapes stay as they are, no more proposals are accepted than epochs
/// ran, and a run without an accepted proposal changes nothing.
pub proof fn lemma_run_never_worsens(
    start: OptimizerView,
    end: OptimizerView,
    epochs: nat,
    accepted: int,
)
    requires
        start.wf(),
        start.runs_to(end, epochs, accepted),
    ensures
        end.wf(),
        end.current_best <= start.current_best,
        end.errors.target == start.errors.target,
        end.layers.shapes.len() == start.layers.shapes.len(),
        0 <= accepted <= epochs,
        accepted == 0 ==> end == start,
        accepted > 0 ==> end.current_best < start.current_best,
    decreases epochs,
{
    if epochs > 0 {
        let (before_last, last) = choose|before_last: OptimizerView, last: bool|
            #[trigger] before_last.epoch_to(end, last) && start.runs_to(
                before_last,
                (epochs - 1) as nat,
                accepted - if last { 1int } else { 0int },
            );
        lemma_run_never_worsens(
            start,
            before_last,
            (epochs - 1) as nat,
            accepted - if last { 1int } else { 0int },
        );
    }
}

/// Committing the same shape into the same slot a second time changes
/// nothing: the state after the second commit is the state after the first,
/// shapes, canvas, error matrix and score.
pub proof fn lemma_commit_idempotent(
    start: OptimizerView,
    once: OptimizerView,
    twice: OptimizerView,
    i: int,
    shape: Triangle,
)
    requires
        0 <= i < start.layers.shapes.len(),
        once.wf(),
        twice.wf(),
        once.errors.target == start.errors.target,
        twice.errors.target == start.errors.target,
        once.layers.shapes == start.layers.shapes.update(i, shape),
        twice.layers.shapes == once.layers.shapes.update(i, shape),
    ensures
        twice == once,
{
    assert(twice.layers.shapes =~= once.layers.shapes);
    lemma_state_determined(once, twice);
}

/// Why a trial may score from the touched pixels alone. The trial's canvas
/// differs from the committed one only where the old or the new shape of the
/// slot paints, so recomputing the cells of those pixels turns the committed
/// error matrix into the full error matrix of the trial's canvas.
proof fn lemma_trial_patch_is_full(
    state: OptimizerView,
    i: int,
    candidate: Triangle,
    new_touched: Seq<Point>,
)
    requires
        state.wf(),
        0 <= i < state.layers.shapes.len(),
        is_footprint(
            new_touched,
            candidate,
            state.layers.width as int,
            state.layers.height as int,
        ),
    ensures
        state.layers.render_with(i, candidate).width == state.layers.width,
        state.layers.render_with(i, candidate).height == state.layers.height,
        all_within(
            state.layers.touched[i],
            state.layers.width as int,
            state.layers.height as int,
        ),
        all_within(new_touched, state.layers.width as int, state.layers.height as int),
        state.errors.patched(
            state.layers.touched[i],
            new_touched,
            state.layers.render_with(i, candidate),
        ) == error_matrix(state.layers.render_with(i, candidate), state.errors.target),
{
    let layers = state.layers;
    let background = blank(layers.width, layers.height);
    let trial = layers.render_with(i, candidate);
    lemma_paint_all_shape(background, layers.shapes.update(i, candidate), layers.shapes.len());
    lemma_footprint_within(
        layers.touched[i],
        layers.shapes[i],
        layers.width as int,
        layers.height as int,
    );
    lemma_footprint_within(new_touched, candidate, layers.width as int, layers.height as int);
    assert forall|x: int, y: int|
        state.errors.target.in_bounds(x, y) && !layers.touched[i].contains(
            Point { x: x as u32, y: y as u32 },
        ) && !new_touched.contains(Point { x: x as u32, y: y as u32 }) implies #[trigger] trial.at(
        x,
        y,
    ) == layers.canvas.at(x, y) by {
        lemma_paint_all_outside(background, layers.shapes, i, candidate, layers.shapes.len(), x, y);
    }
    lemma_patched_is_full(state.errors, layers.touched[i], new_touched, layers.canvas, trial);
}

impl Optimizer {
    /// Sets a run up: renders `shapes` on a white canvas of the target's
    /// dimensions and computes every pixel's error against the target.
    pub fn new(target: Canvas, shapes: Vec<Triangle>) -> (state: Optimizer)
        ensures
            state@.wf(),
            state@.errors.target == target@,
            state@.layers.shapes == shapes@,
    {
        let layers = LayerStack::new(target.duplicate(), shapes);
        let errors = ErrorCache::new(layers.canvas(), target);
        let current_best = errors.total();
        Optimizer { layers, errors, current_best }
    }

    /// The layer stack: shapes, canvas, snapshots and pixel lists.
    pub fn layers(&self) -> (layers: &LayerStack)
        ensures
            layers@ == self@.layers,
    {
        &self.layers
    }

    /// The error cache: target and matrix.
    pub fn errors(&self) -> (errors: &ErrorCache)
        ensures
            errors@ == self@.errors,
    {
        &self.errors
    }

    /// The committed shapes, bottom first.
    pub fn shapes(&self) -> (shapes: &Vec<Triangle>)
        ensures
            shapes@ == self@.layers.shapes,
    {
        self.layers.shapes()
    }

    /// The committed render.
    pub fn canvas(&self) -> (canvas: &Canvas)
        ensures
            canvas@ == self@.layers.canvas,
    {
        self.layers.canvas()
    }

    /// The objective of the committed state.
    pub fn current_best(&self) -> (best: u128)
        ensures
            best == self@.current_best,
    {
        self.current_best
    }

    /// Renders the committed shapes and computes their errors from nothing,
    /// the slow way, and says whether the canvas, the error matrix and the
    /// best score that are cached agree with that.
    pub fn recheck(&self) -> (ok: bool)
        ensures
            ok == self@.agrees_with_full_recompute(),
    {
        let target = self.errors.target();
        if target.width() != self.layers.width() || target.height() != self.layers.height() {
            return false;
        }
        let mut image = target.duplicate();
        init_image(&mut image);
        draw(&mut image, self.layers.shapes());
        if !image.same_as(self.layers.canvas()) {
            return false;
        }
        if !self.errors.matches(&image) {
            return false;
        }
        fitness(&image, target) == self.current_best
    }

    /// Renders and scores `candidate` in slot `index` without committing
    /// it: the render starts from the slot's snapshot, and the score
    /// recomputes only the pixels that the slot's old or new shape paints.
    /// The state is left as it is.
    pub fn evaluate(&self, index: usize, candidate: Triangle) -> (trial: Trial)
        requires
            self@.wf(),
            index < self@.layers.shapes.len(),
        ensures
            trial@.evaluates(self@),
            trial@.index == index,
            trial@.candidate == candidate,
            trial@.score == 0 <==> agree_on_rgb(trial@.canvas, self@.errors.target),
    {
        proof {
            lemma_objective_zero(
                self@.layers.render_with(index as int, candidate),
                self@.errors.target,
            );
        }
        let (canvas, touched) = self.layers.render_from(index, &candidate);
        proof {
            lemma_trial_patch_is_full(self@, index as int, candidate, touched@);
        }
        let score = self.errors.trial_score(self.layers.touched(index), &touched, &canvas);
        Trial { index, candidate, canvas, touched, score }
    }

    /// Decides on a trial: commits its candidate if and only if its score
    /// is strictly below the best so far, and drops it otherwise. A rejected
    /// trial leaves the state exactly as it was.
    pub fn decide(&mut self, trial: Trial) -> (accepted: bool)
        requires
            old(self)@.wf(),
            trial@.evaluates(old(self)@),
        ensures
            final(self)@.wf(),
            accepted == (trial@.score < old(self)@.current_best),
            accepted ==> final(self)@.layers.shapes == old(self)@.layers.shapes.update(
                trial@.index,
                trial@.candidate,
            ),
            accepted ==> final(self)@.layers.canvas == trial@.canvas,
            accepted ==> final(self)@.current_best == trial@.score,
            !accepted ==> final(self)@ == old(self)@,
            final(self)@.current_best <= old(self)@.current_best,
            final(self)@.errors.target == old(self)@.errors.target,
            final(self)@.layers.shapes.len() == old(self)@.layers.shapes.len(),
    {
        let Trial { index, candidate, canvas, touched, score } = trial;
        if score < self.current_best {
            proof {
                lemma_trial_patch_is_full(self@, index as int, candidate, touched@);
            }
            self.errors.commit(self.layers.touched(index), &touched, &canvas);
            self.layers.commit(index, candidate, touched, canvas);
            self.current_best = score;
            true
        } else {
            self.layers.discard(canvas, touched);
            false
        }
    }

    /// One trial of `candidate` in slot `index`: evaluates it and decides on
    /// it. The candidate is committed if and only if the objective with it
    /// is strictly below the best so far.
    pub fn step(&mut self, index: usize, candidate: Triangle) -> (accepted: bool)
        requires
            old(self)@.wf(),
            index < old(self)@.layers.shapes.len(),
        ensures
            final(self)@.wf(),
            accepted == old(self)@.accepts(index as int, candidate),
            accepted ==> final(self)@.layers.shapes == old(self)@.layers.shapes.update(
                index as int,
                candidate,
            ),
            accepted ==> final(self)@.current_best == old(self)@.trial_total(
                index as int,
                candidate,
            ),
            !accepted ==> final(self)@ == old(self)@,
            final(self)@.current_best <= old(self)@.current_best,
            final(self)@.errors.target == old(self)@.errors.target,
            final(self)@.layers.shapes.len() == old(self)@.layers.shapes.len(),
    {
        let trial = self.evaluate(index, candidate);
        self.decide(trial)
    }

    /// One epoch: a random proposal and its trial. Whatever the proposer
    /// drew, the state is left as the trial of that proposal leaves it: the
    /// proposal is committed if and only if it strictly improves the
    /// objective, and a rejected one changes nothing.
    pub fn epoch(&mut self) -> (accepted: bool)
        requires
            old(self)@.wf(),
            old(self)@.layers.shapes.len() > 0,
            old(self)@.layers.width > 0,
            old(self)@.layers.height > 0,
        ensures
            old(self)@.epoch_to(final(self)@, accepted),
            final(self)@.wf(),
            final(self)@.current_best <= old(self)@.current_best,
            accepted ==> final(self)@.current_best < old(self)@.current_best,
            !accepted ==> final(self)@ == old(self)@,
            final(self)@.errors.target == old(self)@.errors.target,
            final(self)@.layers.shapes.len() == old(self)@.layers.shapes.len(),
    {
        let (index, candidate) = mutate(
            self.layers.shapes(),
            self.layers.width(),
            self.layers.height(),
        );
        let accepted = self.step(index, candidate);
        assert(old(self)@.tried(index as int, candidate, self@, accepted));
        accepted
    }

    /// Runs the given number of epochs, one after the other, each on the
    /// state that the one before left, and says how many proposals were
    /// accepted. The best score never goes up.
    pub fn run(&mut self, epochs: u64) -> (accepted: u64)
        requires
            old(self)@.wf(),
            old(self)@.layers.shapes.len() > 0,
            old(self)@.layers.width > 0,
            old(self)@.layers.height > 0,
        ensures
            old(self)@.runs_to(final(self)@, epochs as nat, accepted as int),
            final(self)@.wf(),
            final(self)@.current_best <= old(self)@.current_best,
            accepted <= epochs,
            accepted == 0 ==> final(self)@ == old(self)@,
            final(self)@.errors.target == old(self)@.errors.target,
            final(self)@.layers.shapes.len() == old(self)@.layers.shapes.len(),
    {
        let mut accepted: u64 = 0;
        let mut done: u64 = 0;
        while done < epochs
            invariant
                done <= epochs,
                accepted <= done,
                old(self)@.runs_to(self@, done as nat, accepted as int),
                self@.wf(),
                self@.current_best <= old(self)@.current_best,
                accepted == 0 ==> self@ == old(self)@,
                self@.errors.target == old(self)@.errors.target,
                self@.layers.shapes.len() == old(self)@.layers.shapes.len(),
                self@.layers.shapes.len() > 0,
                self@.layers.width > 0,
                self@.layers.height > 0,
            decreases epochs - done,
        {
            let ghost before_last = self@;
            let last = self.epoch();
            if last {
                accepted = accepted + 1;
            }
            done = done + 1;
            assert(before_last.epoch_to(self@, last));
        }
        accepted
    }
}

} // verus!
