use vstd::prelude::*;

verus! {

/// Scores are normalized correlations scaled by this factor and rounded: `1_000_000` is a
/// perfect match.
pub const SCORE_SCALE: i64 = 1_000_000;

#[derive(Clone, Copy, Debug, PartialEq, Eq, Structural)]
pub enum Phase {
    /// Scoring positive templates.
    Positive,
    /// Scoring negative templates.
    Negative,
    /// The verdict is known.
    Done,
}

/// The outcome of matching one frame: whether it matched, with the best positive and negative
/// scores seen.
#[derive(Clone, Copy, Debug, PartialEq, Eq, Structural)]
pub struct Verdict {
    pub matched: bool,
    pub positive_score: i64,
    pub negative_score: i64,
}

/// What the evaluator needs next.
#[derive(Clone, Copy, Debug, PartialEq, Eq, Structural)]
pub enum Request {
    /// The score of the frame against this positive template.
    ScorePositive(usize),
    /// The score of the frame against this negative template.
    ScoreNegative(usize),
    /// Nothing more: this is the verdict.
    Finished(Verdict),
}

/// The evaluation of one frame against the templates.
#[derive(Clone, Copy, Debug, PartialEq, Eq, Structural)]
pub struct EvalState {
    pub positives: usize,
    pub negatives: usize,
    pub pos_threshold: Option<i64>,
    pub neg_threshold: Option<i64>,
    pub phase: Phase,
    /// The next template of the current phase to score.
    pub next: usize,
    /// The best positive score so far (never below zero).
    pub pos: i64,
    /// The best negative score so far (never below zero).
    pub neg: i64,
    /// Whether the positive templates reached their threshold.
    pub matched: bool,
}

impl EvalState {
    /// The phase's template index is in range.
    pub open spec fn wf(&self) -> bool {
        &&& self.phase == Phase::Positive ==> self.next < self.positives
        &&& self.phase == Phase::Negative ==> self.next < self.negatives
    }

    /// Once the positive templates are exhausted: negatives are scored only when no positive
    /// threshold was set at all (every template scored); otherwise the frame did not match.
    pub open spec fn after_positives(self) -> EvalState {
        if self.pos_threshold is None {
            self.enter_negatives()
        } else {
            EvalState { phase: Phase::Done, matched: false, ..self }
        }
    }

    pub open spec fn enter_negatives(self) -> EvalState {
        if self.negatives > 0 {
            EvalState { phase: Phase::Negative, next: 0, ..self }
        } else {
            EvalState { phase: Phase::Done, ..self }
        }
    }

    /// The state before any template is scored.
    pub open spec fn start(positives: usize, negatives: usize, pos_threshold: Option<i64>, neg_threshold: Option<i64>) -> EvalState {
        let s = EvalState {
            positives,
            negatives,
            pos_threshold,
            neg_threshold,
            phase: Phase::Positive,
            next: 0,
            pos: 0,
            neg: 0,
            matched: false,
        };
        if positives > 0 { s } else { s.after_positives() }
    }

    pub open spec fn request(self) -> Request {
        match self.phase {
            Phase::Positive => Request::ScorePositive(self.next),
            Phase::Negative => Request::ScoreNegative(self.next),
            Phase::Done => Request::Finished(
                Verdict { matched: self.matched, positive_score: self.pos, negative_score: self.neg },
            ),
        }
    }

    /// The state after the requested template scored `score`.
    pub open spec fn advance(self, score: i64) -> EvalState {
        match self.phase {
            Phase::Positive => {
                let pos = if score > self.pos { score } else { self.pos };
                let s = EvalState { pos, next: (self.next + 1) as usize, ..self };
                if self.pos_threshold is Some && pos >= self.pos_threshold->Some_0 {
                    if self.neg_threshold is None {
                        EvalState { phase: Phase::Done, matched: true, ..s }
                    } else {
                        EvalState { matched: true, ..s }.enter_negatives()
                    }
                } else if s.next < self.positives {
                    s
                } else {
                    s.after_positives()
                }
            },
            Phase::Negative => {
                let neg = if score > self.neg { score } else { self.neg };
                let s = EvalState { neg, next: (self.next + 1) as usize, ..self };
                if self.neg_threshold is Some && neg >= self.neg_threshold->Some_0 {
                    EvalState { phase: Phase::Done, matched: false, ..s }
                } else if s.next < self.negatives {
                    s
                } else {
                    EvalState { phase: Phase::Done, ..s }
                }
            },
            Phase::Done => self,
        }
    }
}

/// With a positive threshold and no negative threshold, the first positive template is scored
/// first, and a score that reaches the threshold ends the evaluation with a match: no later
/// template is scored.
pub proof fn lemma_first_positive_short_circuit(positives: usize, negatives: usize, threshold: i64, score: i64)
    requires
        positives >= 1,
        score >= threshold,
    ensures
        EvalState::start(positives, negatives, Some(threshold), None).request() == Request::ScorePositive(0),
        EvalState::start(positives, negatives, Some(threshold), None).advance(score).request()
            == Request::Finished(
                Verdict { matched: true, positive_score: if score > 0 { score } else { 0 }, negative_score: 0 },
            ),
{
}

/// Whenever a positive score reaches the positive threshold and no negative threshold is
/// set, the evaluation ends with a match.
pub proof fn lemma_positive_short_circuit(s: EvalState, score: i64)
    requires
        s.phase == Phase::Positive,
        s.pos_threshold is Some,
        s.neg_threshold is None,
        score >= s.pos_threshold->Some_0,
    ensures
        s.advance(score).phase == Phase::Done,
        s.advance(score).matched,
{
}

/// A negative score that reaches the negative threshold ends the evaluation without a match,
/// whatever the positive templates scored.
pub proof fn lemma_negative_override(s: EvalState, score: i64)
    requires
        s.phase == Phase::Negative,
        s.neg_threshold is Some,
        score >= s.neg_threshold->Some_0,
    ensures
        s.advance(score).phase == Phase::Done,
        !s.advance(score).matched,
{
}

/// With both thresholds set, a frame whose first positive template reaches the positive
/// threshold goes on to the negative templates, and a first negative score that reaches the
/// negative threshold makes the verdict "no match".
pub proof fn lemma_positive_then_negative(
    positives: usize,
    negatives: usize,
    pos_threshold: i64,
    neg_threshold: i64,
    pos_score: i64,
    neg_score: i64,
)
    requires
        positives >= 1,
        negatives >= 1,
        pos_score >= pos_threshold,
        neg_score >= neg_threshold,
    ensures
        ({
            let s0 = EvalState::start(positives, negatives, Some(pos_threshold), Some(neg_threshold));
            let s1 = s0.advance(pos_score);
            &&& s1.request() == Request::ScoreNegative(0)
            &&& s1.advance(neg_score).request() is Finished
            &&& !s1.advance(neg_score).matched
        }),
{
}

/// Decides, template by template, whether a frame matches: the caller scores the frame against
/// the template each request names and hands the score back.
pub struct Evaluator {
    state: EvalState,
}

impl Evaluator {
    #[verifier::type_invariant]
    spec fn state_wf(&self) -> bool {
        self.state.wf()
    }

    pub closed spec fn view(&self) -> EvalState {
        self.state
    }

    pub fn new(positives: usize, negatives: usize, pos_threshold: Option<i64>, neg_threshold: Option<i64>) -> (r: Evaluator)
        ensures
            r.view() == EvalState::start(positives, negatives, pos_threshold, neg_threshold),
    {
        let s = EvalState {
            positives,
            negatives,
            pos_threshold,
            neg_threshold,
            phase: Phase::Positive,
            next: 0,
            pos: 0,
            neg: 0,
            matched: false,
        };
        let state = if positives > 0 { s } else { after_positives(s) };
        Evaluator { state }
    }

    pub fn request(&self) -> (r: Request)
        ensures
            r == self.view().request(),
    {
        let s = self.state;
        match s.phase {
            Phase::Positive => Request::ScorePositive(s.next),
            Phase::Negative => Request::ScoreNegative(s.next),
            Phase::Done => Request::Finished(
                Verdict { matched: s.matched, positive_score: s.pos, negative_score: s.neg },
            ),
        }
    }

    /// Takes the score of the frame against the template that `request` named.
    pub fn record(&mut self, score: i64)
        ensures
            final(self).view() == old(self).view().advance(score),
    {
        proof {
            use_type_invariant(&*self);
        }
        let s = self.state;
        let next_state = match s.phase {
            Phase::Positive => {
                let pos = if score > s.pos { score } else { s.pos };
                let t = EvalState { pos, next: s.next + 1, ..s };
                let reached = match s.pos_threshold {
                    Some(th) => pos >= th,
                    None => false,
                };
                if reached {
                    if s.neg_threshold.is_none() {
                        EvalState { phase: Phase::Done, matched: true, ..t }
                    } else {
                        enter_negatives(EvalState { matched: true, ..t })
                    }
                } else if t.next < s.positives {
                    t
                } else {
                    after_positives(t)
                }
            },
            Phase::Negative => {
                let neg = if score > s.neg { score } else { s.neg };
                let t = EvalState { neg, next: s.next + 1, ..s };
                let reached = match s.neg_threshold {
                    Some(th) => neg >= th,
                    None => false,
                };
                if reached {
                    EvalState { phase: Phase::Done, matched: false, ..t }
                } else if t.next < s.negatives {
                    t
                } else {
                    EvalState { phase: Phase::Done, ..t }
                }
            },
            Phase::Done => s,
        };
        self.state = next_state;
    }
}

fn after_positives(s: EvalState) -> (r: EvalState)
    ensures
        r == s.after_positives(),
        r.wf(),
{
    if s.pos_threshold.is_none() {
        enter_negatives(s)
    } else {
        EvalState { phase: Phase::Done, matched: false, ..s }
    }
}

fn enter_negatives(s: EvalState) -> (r: EvalState)
    ensures
        r == s.enter_negatives(),
        r.wf(),
{
    if s.negatives > 0 {
        EvalState { phase: Phase::Negative, next: 0, ..s }
    } else {
        EvalState { phase: Phase::Done, ..s }
    }
}

} // verus!
