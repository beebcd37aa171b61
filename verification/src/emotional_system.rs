//! Appraisal-based emotion engine.
//!
//! Each character carries an [`EmotionalState`]: a list of accumulated
//! emotions (one entry per distinct [`EmotionType`]), a name-keyed goal list,
//! and a gain constant. Appraising a [`Belief`] moves the likelihood of the
//! affected goals and emits emotions whose intensity is `|utility * delta|`;
//! [`EmotionalState::get_pad`] folds the accumulated emotions into a bounded
//! Pleasure/Arousal/Dominance coordinate.
//!
//! All real-valued quantities are fixed-point thousandths (`1000` is `1.0`).

use vstd::prelude::*;
use vstd::seq_lib::*;
use vstd::set_lib::*;

verus! {

/// Upper bound kept on each accumulated emotion intensity, in
/// thousandths. The value is forced by `i64`: the mood computation sums,
/// per axis, at most sixteen entries of `intensity * component` with
/// components up to 1000, and `16 * INTENSITY_CAP * 1000` must stay below
/// `i64::MAX`. One appraisal emits at most 2.0 real units of intensity,
/// so reaching this bound (five hundred billion real units) would take
/// more than 10^11 appraisals; below it, accumulation is exactly
/// additive.
pub const INTENSITY_CAP: i64 = 500_000_000_000_000;

/// Upper bound on the gain constant (ten in real units).
pub const GAIN_MAX: i64 = 10_000;

/// The closed set of emotion types, each with a fixed
/// Pleasure/Arousal/Dominance vector.
#[derive(Debug, Clone, Copy, PartialEq, Eq, Hash, Structural)]
pub enum EmotionType {
    Distress,
    Fear,
    Hope,
    Joy,
    Satisfaction,
    FearConfirmed,
    Disappointment,
    Relief,
    HappyFor,
    Resentment,
    Pity,
    Gloating,
    Gratitude,
    Anger,
    Gratification,
    Remorse,
}

/// Display name of each emotion type.
pub open spec fn spec_emotion_name(t: EmotionType) -> Seq<char> {
    match t {
        EmotionType::Distress => "distress"@,
        EmotionType::Fear => "fear"@,
        EmotionType::Hope => "hope"@,
        EmotionType::Joy => "joy"@,
        EmotionType::Satisfaction => "satisfaction"@,
        EmotionType::FearConfirmed => "fear-confirmed"@,
        EmotionType::Disappointment => "disappointment"@,
        EmotionType::Relief => "relief"@,
        EmotionType::HappyFor => "happy-for"@,
        EmotionType::Resentment => "resentment"@,
        EmotionType::Pity => "pity"@,
        EmotionType::Gloating => "gloating"@,
        EmotionType::Gratitude => "gratitude"@,
        EmotionType::Anger => "anger"@,
        EmotionType::Gratification => "gratification"@,
        EmotionType::Remorse => "remorse"@,
    }
}

/// Pleasure component of an emotion type, in thousandths.
pub open spec fn pad_pleasure(t: EmotionType) -> int {
    match t {
        EmotionType::Distress => -610,
        EmotionType::Fear => -640,
        EmotionType::Hope => 510,
        EmotionType::Joy => 760,
        EmotionType::Satisfaction => 870,
        EmotionType::FearConfirmed => -610,
        EmotionType::Disappointment => -610,
        EmotionType::Relief => 290,
        EmotionType::HappyFor => 640,
        EmotionType::Resentment => -350,
        EmotionType::Pity => -520,
        EmotionType::Gloating => -450,
        EmotionType::Gratitude => 640,
        EmotionType::Anger => -510,
        EmotionType::Gratification => 690,
        EmotionType::Remorse => -570,
    }
}

/// Arousal component of an emotion type, in thousandths.
pub open spec fn pad_arousal(t: EmotionType) -> int {
    match t {
        EmotionType::Distress => 280,
        EmotionType::Fear => 600,
        EmotionType::Hope => 230,
        EmotionType::Joy => 480,
        EmotionType::Satisfaction => 200,
        EmotionType::FearConfirmed => 60,
        EmotionType::Disappointment => -150,
        EmotionType::Relief => -190,
        EmotionType::HappyFor => 350,
        EmotionType::Resentment => 350,
        EmotionType::Pity => 20,
        EmotionType::Gloating => 480,
        EmotionType::Gratitude => 160,
        EmotionType::Anger => 590,
        EmotionType::Gratification => 570,
        EmotionType::Remorse => 280,
    }
}

/// Dominance component of an emotion type, in thousandths.
pub open spec fn pad_dominance(t: EmotionType) -> int {
    match t {
        EmotionType::Distress => -360,
        EmotionType::Fear => -430,
        EmotionType::Hope => 140,
        EmotionType::Joy => 350,
        EmotionType::Satisfaction => 620,
        EmotionType::FearConfirmed => -320,
        EmotionType::Disappointment => -290,
        EmotionType::Relief => -280,
        EmotionType::HappyFor => 250,
        EmotionType::Resentment => 290,
        EmotionType::Pity => -210,
        EmotionType::Gloating => 420,
        EmotionType::Gratitude => -210,
        EmotionType::Anger => 250,
        EmotionType::Gratification => 630,
        EmotionType::Remorse => -340,
    }
}

/// Index of each emotion type in the closed 16-element vocabulary.
pub open spec fn emotion_type_index(t: EmotionType) -> int {
    match t {
        EmotionType::Distress => 0,
        EmotionType::Fear => 1,
        EmotionType::Hope => 2,
        EmotionType::Joy => 3,
        EmotionType::Satisfaction => 4,
        EmotionType::FearConfirmed => 5,
        EmotionType::Disappointment => 6,
        EmotionType::Relief => 7,
        EmotionType::HappyFor => 8,
        EmotionType::Resentment => 9,
        EmotionType::Pity => 10,
        EmotionType::Gloating => 11,
        EmotionType::Gratitude => 12,
        EmotionType::Anger => 13,
        EmotionType::Gratification => 14,
        EmotionType::Remorse => 15,
    }
}

impl EmotionType {
    /// Display name of the emotion type.
    pub fn as_str(&self) -> (r: &'static str)
        ensures
            r@ == spec_emotion_name(*self),
    {
        match self {
            EmotionType::Distress => "distress",
            EmotionType::Fear => "fear",
            EmotionType::Hope => "hope",
            EmotionType::Joy => "joy",
            EmotionType::Satisfaction => "satisfaction",
            EmotionType::FearConfirmed => "fear-confirmed",
            EmotionType::Disappointment => "disappointment",
            EmotionType::Relief => "relief",
            EmotionType::HappyFor => "happy-for",
            EmotionType::Resentment => "resentment",
            EmotionType::Pity => "pity",
            EmotionType::Gloating => "gloating",
            EmotionType::Gratitude => "gratitude",
            EmotionType::Anger => "anger",
            EmotionType::Gratification => "gratification",
            EmotionType::Remorse => "remorse",
        }
    }

    /// The fixed Pleasure/Arousal/Dominance vector of this type, in
    /// thousandths.
    pub fn pad_values(&self) -> (r: (i64, i64, i64))
        ensures
            r.0 == pad_pleasure(*self),
            r.1 == pad_arousal(*self),
            r.2 == pad_dominance(*self),
    {
        match self {
            EmotionType::Distress => (-610, 280, -360),
            EmotionType::Fear => (-640, 600, -430),
            EmotionType::Hope => (510, 230, 140),
            EmotionType::Joy => (760, 480, 350),
            EmotionType::Satisfaction => (870, 200, 620),
            EmotionType::FearConfirmed => (-610, 60, -320),
            EmotionType::Disappointment => (-610, -150, -290),
            EmotionType::Relief => (290, -190, -280),
            EmotionType::HappyFor => (640, 350, 250),
            EmotionType::Resentment => (-350, 350, 290),
            EmotionType::Pity => (-520, 20, -210),
            EmotionType::Gloating => (-450, 480, 420),
            EmotionType::Gratitude => (640, 160, -210),
            EmotionType::Anger => (-510, 590, 250),
            EmotionType::Gratification => (690, 570, 630),
            EmotionType::Remorse => (-570, 280, -340),
        }
    }
}

/// A goal: a name, a desire (utility) in `[-1, 1]`, a current likelihood in
/// `[-1, 1]` mutated by appraisal, and a maintenance flag.
#[derive(Debug, Clone)]
pub struct Goal {
    pub name: String,
    pub utility: i64,
    pub likelihood: i64,
    pub is_maintenance: bool,
}

/// Range invariant of a goal's numeric fields.
pub open spec fn goal_wf(g: Goal) -> bool {
    &&& -1000 <= g.utility <= 1000
    &&& -1000 <= g.likelihood <= 1000
}

impl Goal {
    /// A fresh goal with likelihood one half.
    pub fn new(name: String, utility: i64, is_maintenance: bool) -> (r: Goal)
        requires
            -1000 <= utility <= 1000,
        ensures
            r.name == name,
            r.utility == utility,
            r.likelihood == 500,
            r.is_maintenance == is_maintenance,
            goal_wf(r),
    {
        Goal { name, utility, likelihood: 500, is_maintenance }
    }
}

/// One accumulated emotion entry.
#[derive(Debug, Clone, Copy)]
pub struct Emotion {
    pub emotion_type: EmotionType,
    pub intensity: i64,
}

/// A belief to be appraised: an event likelihood in `[0, 1]`, the names of
/// the goals it affects, and positionally matched congruences in `[-1, 1]`.
#[derive(Debug, Clone)]
pub struct Belief {
    pub likelihood: i64,
    pub causal_agent_name: Option<String>,
    pub affected_goal_names: Vec<String>,
    pub goal_congruences: Vec<i64>,
    pub is_incremental: bool,
}

/// Range and shape invariant of a belief.
pub open spec fn belief_wf(b: Belief) -> bool {
    &&& 0 <= b.likelihood <= 1000
    &&& b.affected_goal_names@.len() == b.goal_congruences@.len()
    &&& forall|i: int|
        0 <= i < b.goal_congruences@.len() ==> -1000 <= #[trigger] b.goal_congruences@[i] <= 1000
}

/// Per-character emotional state: accumulated emotions (one entry per
/// distinct type), name-keyed goals, and the squashing gain.
#[derive(Debug, Clone)]
pub struct EmotionalState {
    pub emotions: Vec<Emotion>,
    pub goals: Vec<Goal>,
    pub gain: i64,
}

// ---------------------------------------------------------------------------
// Fixed-point helpers
// ---------------------------------------------------------------------------

/// Truncating product of two fixed-point thousandths values.
pub open spec fn mul_milli(a: int, b: int) -> int {
    if a * b >= 0 {
        (a * b) / 1000
    } else {
        -((-(a * b)) / 1000)
    }
}

/// Clamp into the fixed-point unit interval `[-1000, 1000]`.
pub open spec fn clamp_unit(x: int) -> int {
    if x < -1000 {
        -1000
    } else if x > 1000 {
        1000
    } else {
        x
    }
}

/// Absolute value.
pub open spec fn abs_val(x: int) -> int {
    if x < 0 {
        -x
    } else {
        x
    }
}

/// Truncating product of two thousandths values, executable form.
fn mul_milli_exec(a: i64, b: i64) -> (r: i64)
    requires
        -2000 <= a <= 2000,
        -2000 <= b <= 2000,
    ensures
        r == mul_milli(a as int, b as int),
        -4000 <= r <= 4000,
        abs_val(r as int) <= (abs_val(a as int) * abs_val(b as int)) / 1000,
{
    let neg: bool = (a < 0) != (b < 0);
    let aa: u64 = if a < 0 {
        (-a) as u64
    } else {
        a as u64
    };
    let bb: u64 = if b < 0 {
        (-b) as u64
    } else {
        b as u64
    };
    proof {
        assert(aa * bb == abs_val(a as int * b as int) && aa * bb <= 4_000_000)
            by (nonlinear_arith)
            requires
                aa == abs_val(a as int),
                bb == abs_val(b as int),
                aa <= 2000,
                bb <= 2000,
        ;
    }
    let m: u64 = (aa * bb) / 1000;
    proof {
        let p = a as int * b as int;
        assert(m == abs_val(p) / 1000);
        assert(m <= 4000);
        assert({
            &&& (((a > 0 && b > 0) || (a < 0 && b < 0)) ==> p > 0)
            &&& (((a < 0 && b > 0) || (a > 0 && b < 0)) ==> p < 0)
            &&& ((a == 0 || b == 0) ==> p == 0)
        }) by (nonlinear_arith)
            requires
                p == a as int * b as int,
        ;
    }
    if neg && m > 0 {
        -(m as i64)
    } else {
        m as i64
    }
}

// ---------------------------------------------------------------------------
// Likelihood update (appraisal core)
// ---------------------------------------------------------------------------

/// The likelihood a goal holds after one appraisal step.
///
/// A resolved (extreme) non-maintenance goal no longer moves; an incremental
/// belief shifts the likelihood by `belief_likelihood * congruence` and
/// clamps; an absolute belief replaces it with
/// `(congruence * belief_likelihood + 1) / 2`.
pub open spec fn new_likelihood(
    old_l: int,
    is_maintenance: bool,
    congruence: int,
    belief_likelihood: int,
    is_incremental: bool,
) -> int {
    if !is_maintenance && (old_l >= 1000 || old_l <= -1000) {
        old_l
    } else if is_incremental {
        clamp_unit(old_l + mul_milli(belief_likelihood, congruence))
    } else {
        (mul_milli(congruence, belief_likelihood) + 1000) / 2
    }
}

proof fn lemma_new_likelihood_bounds(
    old_l: int,
    is_maintenance: bool,
    congruence: int,
    belief_likelihood: int,
    is_incremental: bool,
)
    requires
        -1000 <= old_l <= 1000,
        -1000 <= congruence <= 1000,
        0 <= belief_likelihood <= 1000,
    ensures
        -1000 <= new_likelihood(old_l, is_maintenance, congruence, belief_likelihood,
            is_incremental) <= 1000,
{
    assert(-1_000_000 <= congruence * belief_likelihood <= 1_000_000) by (nonlinear_arith)
        requires
            -1000 <= congruence <= 1000,
            0 <= belief_likelihood <= 1000,
    ;
    assert(-1_000_000 <= belief_likelihood * congruence <= 1_000_000) by (nonlinear_arith)
        requires
            -1000 <= congruence <= 1000,
            0 <= belief_likelihood <= 1000,
    ;
}

/// Executable form of [`new_likelihood`]; also reports the old likelihood so
/// callers can form the delta.
fn new_likelihood_exec(goal: &Goal, congruence: i64, belief_likelihood: i64, is_incremental: bool)
    -> (r: i64)
    requires
        goal_wf(*goal),
        -1000 <= congruence <= 1000,
        0 <= belief_likelihood <= 1000,
    ensures
        r == new_likelihood(goal.likelihood as int, goal.is_maintenance, congruence as int,
            belief_likelihood as int, is_incremental),
        -1000 <= r <= 1000,
{
    proof {
        lemma_new_likelihood_bounds(goal.likelihood as int, goal.is_maintenance,
            congruence as int, belief_likelihood as int, is_incremental);
    }
    if !goal.is_maintenance && (goal.likelihood >= 1000 || goal.likelihood <= -1000) {
        goal.likelihood
    } else if is_incremental {
        let shift = mul_milli_exec(belief_likelihood, congruence);
        let next = goal.likelihood + shift;
        if next < -1000 {
            -1000
        } else if next > 1000 {
            1000
        } else {
            next
        }
    } else {
        let p = mul_milli_exec(congruence, belief_likelihood);
        proof {
            assert(abs_val(congruence as int) * abs_val(belief_likelihood as int) <= 1_000_000)
                by (nonlinear_arith)
                requires
                    abs_val(congruence as int) <= 1000,
                    abs_val(belief_likelihood as int) <= 1000,
            ;
            assert(abs_val(p as int) <= 1000int);
        }
        (p + 1000) / 2
    }
}

// ---------------------------------------------------------------------------
// State invariant
// ---------------------------------------------------------------------------

/// Invariant of an emotional state: one entry per emotion type, bounded
/// intensities, well-formed goals, bounded gain.
pub open spec fn state_wf(s: EmotionalState) -> bool {
    &&& s.emotions@.len() <= 16
    &&& forall|i: int, j: int|
        0 <= i < j < s.emotions@.len() ==> #[trigger] s.emotions@[i].emotion_type
            != #[trigger] s.emotions@[j].emotion_type
    &&& forall|i: int|
        0 <= i < s.emotions@.len() ==> 0 <= (#[trigger] s.emotions@[i]).intensity
            <= INTENSITY_CAP
    &&& forall|i: int| 0 <= i < s.goals@.len() ==> goal_wf(#[trigger] s.goals@[i])
    &&& 0 <= s.gain <= GAIN_MAX
}

/// The first index holding an emotion of type `t`, or the length if none
/// does.
pub open spec fn emotion_idx(s: Seq<Emotion>, t: EmotionType) -> int
    decreases s.len(),
{
    if s.len() == 0 {
        0
    } else if s[0].emotion_type == t {
        0
    } else {
        1 + emotion_idx(s.drop_first(), t)
    }
}

proof fn lemma_emotion_idx(s: Seq<Emotion>, t: EmotionType)
    ensures
        0 <= emotion_idx(s, t) <= s.len(),
        emotion_idx(s, t) < s.len() ==> s[emotion_idx(s, t)].emotion_type == t,
        forall|j: int| 0 <= j < emotion_idx(s, t) ==> s[j].emotion_type != t,
    decreases s.len(),
{
    if s.len() > 0 && s[0].emotion_type != t {
        lemma_emotion_idx(s.drop_first(), t);
        assert forall|j: int| 0 <= j < emotion_idx(s, t) implies s[j].emotion_type != t by {
            if j > 0 {
                assert(s.drop_first()[j - 1] == s[j]);
            }
        }
    }
}

/// Accumulation of one emotion: the first entry of the same type grows
/// additively, or a new entry is appended. The addition is exact below
/// [`INTENSITY_CAP`], an `i64`-forced bound no appraisal history can
/// reach, and saturates there.
pub open spec fn add_emotion(s: Seq<Emotion>, t: EmotionType, add: int) -> Seq<Emotion> {
    let i = emotion_idx(s, t);
    if i < s.len() {
        let ni = if s[i].intensity + add > INTENSITY_CAP {
            INTENSITY_CAP as int
        } else {
            s[i].intensity + add
        };
        s.update(i, Emotion { emotion_type: t, intensity: ni as i64 })
    } else {
        s.push(Emotion { emotion_type: t, intensity: add as i64 })
    }
}

/// There is room for one more distinct emotion type: a sequence of
/// pairwise-distinct types missing some type has at most fifteen entries.
proof fn lemma_emotion_room(s: Seq<Emotion>, t: EmotionType)
    requires
        forall|i: int, j: int|
            0 <= i < j < s.len() ==> #[trigger] s[i].emotion_type != #[trigger] s[j].emotion_type,
        forall|i: int| 0 <= i < s.len() ==> (#[trigger] s[i]).emotion_type != t,
    ensures
        s.len() <= 15,
{
    broadcast use vstd::set::group_set_axioms;

    let f = |e: Emotion| emotion_type_index(e.emotion_type);
    let idxs = s.map_values(f);
    assert(idxs.no_duplicates()) by {
        assert forall|i: int, j: int| 0 <= i < idxs.len() && 0 <= j < idxs.len() && i != j
            implies idxs[i] != idxs[j] by {
            assert(s[i].emotion_type != s[j].emotion_type);
        }
    }
    idxs.unique_seq_to_set();
    let full = set_int_range(0, 16);
    lemma_int_range(0, 16);
    let without = full.remove(emotion_type_index(t));
    assert(without.len() == 15);
    assert(idxs.to_set().subset_of(without)) by {
        assert forall|x: int| idxs.to_set().contains(x) implies without.contains(x) by {
            let i = choose|i: int| 0 <= i < idxs.len() && idxs[i] == x;
            assert(0 <= emotion_type_index(s[i].emotion_type) < 16);
            assert(s[i].emotion_type != t);
        }
    }
    lemma_len_subset(idxs.to_set(), without);
}

impl EmotionalState {
    /// A fresh emotional state: no emotions, no goals, unit gain.
    pub fn new() -> (r: EmotionalState)
        ensures
            r.emotions@ == Seq::<Emotion>::empty(),
            r.goals@ == Seq::<Goal>::empty(),
            r.gain == 1000,
            state_wf(r),
    {
        EmotionalState { emotions: Vec::new(), goals: Vec::new(), gain: 1000 }
    }

    /// Accumulate one emotion into the state: an existing entry of the
    /// same type grows by the new intensity (exactly, below the
    /// unreachable [`INTENSITY_CAP`]), or the emotion is appended.
    pub fn update_emotional_state(&mut self, new_emotion: Emotion)
        requires
            state_wf(*old(self)),
            0 <= new_emotion.intensity <= INTENSITY_CAP,
        ensures
            final(self).emotions@ == add_emotion(old(self).emotions@, new_emotion.emotion_type,
                new_emotion.intensity as int),
            final(self).goals == old(self).goals,
            final(self).gain == old(self).gain,
            state_wf(*final(self)),
    {
        proof {
            lemma_emotion_idx(self.emotions@, new_emotion.emotion_type);
        }
        let ghost s0 = self.emotions@;
        let n = self.emotions.len();
        let mut i: usize = 0;
        while i < n
            invariant
                state_wf(*old(self)),
                0 <= new_emotion.intensity <= INTENSITY_CAP,
                s0 == old(self).emotions@,
                n == self.emotions@.len(),
                0 <= i <= n,
                forall|j: int|
                    0 <= j < i ==> (#[trigger] self.emotions@[j]).emotion_type
                        != new_emotion.emotion_type,
                self.emotions@ == s0,
                self.goals == old(self).goals,
                self.gain == old(self).gain,
            decreases n - i,
        {
            if self.emotions[i].emotion_type == new_emotion.emotion_type {
                let cur = self.emotions[i];
                let sum = cur.intensity + new_emotion.intensity;
                let ni = if sum > INTENSITY_CAP {
                    INTENSITY_CAP
                } else {
                    sum
                };
                self.emotions.set(i, Emotion { emotion_type: cur.emotion_type, intensity: ni });
                proof {
                    lemma_emotion_idx(s0, new_emotion.emotion_type);
                    assert(emotion_idx(s0, new_emotion.emotion_type) == i);
                }
                return ;
            }
            i += 1;
        }
        proof {
            assert(emotion_idx(s0, new_emotion.emotion_type) == s0.len());
            lemma_emotion_room(s0, new_emotion.emotion_type);
        }
        self.emotions.push(
            Emotion {
                emotion_type: new_emotion.emotion_type,
                intensity: new_emotion.intensity,
            },
        );
    }
}

// ---------------------------------------------------------------------------
// Emotion emission
// ---------------------------------------------------------------------------

/// The appraisal outcome points the right way for the goal: good news for a
/// wanted goal, bad news for an unwanted one.
pub open spec fn positive_direction(utility: int, delta: int) -> bool {
    if utility >= 0 {
        delta >= 0
    } else {
        delta < 0
    }
}

/// The emotion types one appraisal outcome emits, in emission order, given
/// the goal's utility, the likelihood delta, and the resulting likelihood.
pub open spec fn emitted_types(utility: int, delta: int, likelihood: int) -> Seq<EmotionType> {
    if 0 < likelihood < 1000 {
        if positive_direction(utility, delta) {
            seq![EmotionType::Hope]
        } else {
            seq![EmotionType::Fear]
        }
    } else if likelihood == 1000 {
        if utility >= 0 {
            if delta < 500 {
                seq![EmotionType::Satisfaction, EmotionType::Joy]
            } else {
                seq![EmotionType::Joy]
            }
        } else {
            if delta < 500 {
                seq![EmotionType::FearConfirmed, EmotionType::Distress]
            } else {
                seq![EmotionType::Distress]
            }
        }
    } else if likelihood == 0 {
        if utility >= 0 {
            if delta > 500 {
                seq![EmotionType::Disappointment, EmotionType::Distress]
            } else {
                seq![EmotionType::Distress]
            }
        } else {
            if delta > 500 {
                seq![EmotionType::Relief, EmotionType::Joy]
            } else {
                seq![EmotionType::Joy]
            }
        }
    } else {
        seq![]
    }
}

/// Accumulate each listed type at the given intensity, in order.
pub open spec fn emit_list(s: Seq<Emotion>, ts: Seq<EmotionType>, intensity: int) -> Seq<Emotion>
    decreases ts.len(),
{
    if ts.len() == 0 {
        s
    } else {
        emit_list(add_emotion(s, ts[0], intensity), ts.drop_first(), intensity)
    }
}

/// Emotions after one appraisal outcome `(utility, delta, likelihood)`: the
/// emitted types accumulate at intensity `|utility * delta|`, and an
/// intensity of exactly zero emits nothing at all.
pub open spec fn emit_emotions(s: Seq<Emotion>, utility: int, delta: int, likelihood: int)
    -> Seq<Emotion> {
    let intensity = abs_val(mul_milli(utility, delta));
    if intensity > 0 {
        emit_list(s, emitted_types(utility, delta, likelihood), intensity)
    } else {
        s
    }
}

impl EmotionalState {
    /// Derive and accumulate the emotions of one appraisal outcome.
    fn evaluate_internal_emotion(&mut self, utility: i64, delta: i64, likelihood: i64)
        requires
            state_wf(*old(self)),
            -1000 <= utility <= 1000,
            -2000 <= delta <= 2000,
            -1000 <= likelihood <= 1000,
        ensures
            final(self).emotions@ == emit_emotions(old(self).emotions@, utility as int,
                delta as int, likelihood as int),
            final(self).goals == old(self).goals,
            final(self).gain == old(self).gain,
            state_wf(*final(self)),
    {
        let positive = if utility >= 0 {
            delta >= 0
        } else {
            delta < 0
        };
        let mut emotion_types: Vec<EmotionType> = Vec::new();
        if likelihood > 0 && likelihood < 1000 {
            if positive {
                emotion_types.push(EmotionType::Hope);
            } else {
                emotion_types.push(EmotionType::Fear);
            }
        } else if likelihood == 1000 {
            if utility >= 0 {
                if delta < 500 {
                    emotion_types.push(EmotionType::Satisfaction);
                }
                emotion_types.push(EmotionType::Joy);
            } else {
                if delta < 500 {
                    emotion_types.push(EmotionType::FearConfirmed);
                }
                emotion_types.push(EmotionType::Distress);
            }
        } else if likelihood == 0 {
            if utility >= 0 {
                if delta > 500 {
                    emotion_types.push(EmotionType::Disappointment);
                }
                emotion_types.push(EmotionType::Distress);
            } else {
                if delta > 500 {
                    emotion_types.push(EmotionType::Relief);
                }
                emotion_types.push(EmotionType::Joy);
            }
        }
        proof {
            assert(emotion_types@ =~= emitted_types(utility as int, delta as int,
                likelihood as int));
        }
        let intensity = {
            let m = mul_milli_exec(utility, delta);
            if m < 0 {
                -m
            } else {
                m
            }
        };
        if intensity > 0 {
            let ghost ts = emotion_types@;
            proof {
                assert(ts.skip(0) =~= ts);
            }
            let n = emotion_types.len();
            let mut i: usize = 0;
            while i < n
                invariant
                    0 <= i <= n,
                    n == ts.len(),
                    emotion_types@ == ts,
                    0 < intensity <= INTENSITY_CAP,
                    state_wf(*self),
                    self.goals == old(self).goals,
                    self.gain == old(self).gain,
                    emit_list(self.emotions@, ts.skip(i as int), intensity as int) == emit_list(
                        old(self).emotions@, ts, intensity as int),
                decreases n - i,
            {
                let t = emotion_types[i];
                proof {
                    assert(ts.skip(i as int)[0] == ts[i as int]);
                    assert(ts.skip(i as int).drop_first() =~= ts.skip(i as int + 1));
                }
                self.update_emotional_state(Emotion { emotion_type: t, intensity });
                i += 1;
            }
            proof {
                assert(ts.skip(n as int) =~= Seq::<EmotionType>::empty());
            }
        }
    }
}

// ---------------------------------------------------------------------------
// Appraisal
// ---------------------------------------------------------------------------

/// The first index of a goal with the given name, or the length if none
/// has it.
pub open spec fn find_goal_idx(goals: Seq<Goal>, name: Seq<char>) -> int
    decreases goals.len(),
{
    if goals.len() == 0 {
        0
    } else if goals[0].name@ == name {
        0
    } else {
        1 + find_goal_idx(goals.drop_first(), name)
    }
}

proof fn lemma_find_goal_idx(goals: Seq<Goal>, name: Seq<char>)
    ensures
        0 <= find_goal_idx(goals, name) <= goals.len(),
        find_goal_idx(goals, name) < goals.len() ==> goals[find_goal_idx(goals, name)].name@
            == name,
        forall|j: int| 0 <= j < find_goal_idx(goals, name) ==> goals[j].name@ != name,
    decreases goals.len(),
{
    if goals.len() > 0 && goals[0].name@ != name {
        lemma_find_goal_idx(goals.drop_first(), name);
        assert forall|j: int| 0 <= j < find_goal_idx(goals, name) implies goals[j].name@ != name
            by {
            if j > 0 {
                assert(goals.drop_first()[j - 1] == goals[j]);
            }
        }
    }
}

/// Walk the belief's goal names in order, moving each named goal's
/// likelihood; the result pairs the list of appraisal outcomes
/// `(utility, delta, new likelihood)` with the goals after all updates.
pub open spec fn do_updates(
    goals: Seq<Goal>,
    names: Seq<String>,
    congruences: Seq<i64>,
    belief_likelihood: i64,
    is_incremental: bool,
) -> (Seq<(i64, i64, i64)>, Seq<Goal>)
    decreases names.len(),
{
    if names.len() == 0 || congruences.len() < names.len() {
        (Seq::empty(), goals)
    } else {
        let i = find_goal_idx(goals, names[0]@);
        if i < goals.len() {
            let g = goals[i];
            let nl = new_likelihood(g.likelihood as int, g.is_maintenance, congruences[0] as int,
                belief_likelihood as int, is_incremental);
            let d = nl - g.likelihood;
            let goals2 = goals.update(i,
                Goal {
                    name: g.name,
                    utility: g.utility,
                    likelihood: nl as i64,
                    is_maintenance: g.is_maintenance,
                },
            );
            let rest = do_updates(goals2, names.drop_first(), congruences.drop_first(),
                belief_likelihood, is_incremental);
            (seq![(g.utility, d as i64, nl as i64)] + rest.0, rest.1)
        } else {
            do_updates(goals, names.drop_first(), congruences.drop_first(), belief_likelihood,
                is_incremental)
        }
    }
}

/// Accumulate the emotions of a list of appraisal outcomes, in order.
pub open spec fn apply_updates(s: Seq<Emotion>, updates: Seq<(i64, i64, i64)>) -> Seq<Emotion>
    decreases updates.len(),
{
    if updates.len() == 0 {
        s
    } else {
        apply_updates(emit_emotions(s, updates[0].0 as int, updates[0].1 as int,
            updates[0].2 as int), updates.drop_first())
    }
}

/// Ranges kept through [`do_updates`]: goals stay well-formed and every
/// outcome triple is bounded.
proof fn lemma_do_updates_wf(
    goals: Seq<Goal>,
    names: Seq<String>,
    congruences: Seq<i64>,
    belief_likelihood: i64,
    is_incremental: bool,
)
    requires
        forall|i: int| 0 <= i < goals.len() ==> goal_wf(#[trigger] goals[i]),
        forall|i: int| 0 <= i < congruences.len() ==> -1000 <= #[trigger] congruences[i] <= 1000,
        0 <= belief_likelihood <= 1000,
    ensures
        ({
            let r = do_updates(goals, names, congruences, belief_likelihood, is_incremental);
            &&& r.1.len() == goals.len()
            &&& forall|i: int| 0 <= i < r.1.len() ==> goal_wf(#[trigger] r.1[i])
            &&& forall|i: int|
                0 <= i < r.0.len() ==> {
                    &&& -1000 <= (#[trigger] r.0[i]).0 <= 1000
                    &&& -2000 <= r.0[i].1 <= 2000
                    &&& -1000 <= r.0[i].2 <= 1000
                }
        }),
    decreases names.len(),
{
    if names.len() == 0 || congruences.len() < names.len() {
    } else {
        let i = find_goal_idx(goals, names[0]@);
        lemma_find_goal_idx(goals, names[0]@);
        if i < goals.len() {
            let g = goals[i];
            lemma_new_likelihood_bounds(g.likelihood as int, g.is_maintenance,
                congruences[0] as int, belief_likelihood as int, is_incremental);
            let nl = new_likelihood(g.likelihood as int, g.is_maintenance, congruences[0] as int,
                belief_likelihood as int, is_incremental);
            let goals2 = goals.update(i,
                Goal {
                    name: g.name,
                    utility: g.utility,
                    likelihood: nl as i64,
                    is_maintenance: g.is_maintenance,
                },
            );
            assert forall|k: int| 0 <= k < congruences.drop_first().len() implies -1000
                <= #[trigger] congruences.drop_first()[k] <= 1000 by {
                assert(congruences.drop_first()[k] == congruences[k + 1]);
            }
            lemma_do_updates_wf(goals2, names.drop_first(), congruences.drop_first(),
                belief_likelihood, is_incremental);
        } else {
            assert forall|k: int| 0 <= k < congruences.drop_first().len() implies -1000
                <= #[trigger] congruences.drop_first()[k] <= 1000 by {
                assert(congruences.drop_first()[k] == congruences[k + 1]);
            }
            lemma_do_updates_wf(goals, names.drop_first(), congruences.drop_first(),
                belief_likelihood, is_incremental);
        }
    }
}

impl EmotionalState {
    /// Insert a goal, replacing any existing goal of the same name.
    pub fn add_goal(&mut self, goal: Goal)
        requires
            goal_wf(goal),
        ensures
            final(self).goals@ == ({
                let i = find_goal_idx(old(self).goals@, goal.name@);
                if i < old(self).goals@.len() {
                    old(self).goals@.update(i, goal)
                } else {
                    old(self).goals@.push(goal)
                }
            }),
            final(self).emotions == old(self).emotions,
            final(self).gain == old(self).gain,
            state_wf(*old(self)) ==> state_wf(*final(self)),
    {
        proof {
            lemma_find_goal_idx(self.goals@, goal.name@);
        }
        let ghost g0 = self.goals@;
        let n = self.goals.len();
        let mut i: usize = 0;
        while i < n
            invariant
                goal_wf(goal),
                n == self.goals@.len(),
                0 <= i <= n,
                g0 == self.goals@,
                g0 == old(self).goals@,
                self.emotions == old(self).emotions,
                self.gain == old(self).gain,
                forall|j: int| 0 <= j < i ==> (#[trigger] self.goals@[j]).name@ != goal.name@,
            decreases n - i,
        {
            if self.goals[i].name == goal.name {
                self.goals.set(i, goal);
                proof {
                    lemma_find_goal_idx(g0, goal.name@);
                    assert(find_goal_idx(g0, goal.name@) == i);
                }
                return ;
            }
            i += 1;
        }
        proof {
            lemma_find_goal_idx(g0, goal.name@);
            assert(find_goal_idx(g0, goal.name@) == g0.len());
        }
        self.goals.push(goal);
    }

    /// Appraise a belief: move each affected goal's likelihood, then derive
    /// and accumulate the resulting emotions.
    pub fn appraise(&mut self, belief: &Belief)
        requires
            state_wf(*old(self)),
            belief_wf(*belief),
        ensures
            ({
                let r = do_updates(old(self).goals@, belief.affected_goal_names@,
                    belief.goal_congruences@, belief.likelihood, belief.is_incremental);
                &&& final(self).goals@ == r.1
                &&& final(self).emotions@ == apply_updates(old(self).emotions@, r.0)
            }),
            final(self).gain == old(self).gain,
            state_wf(*final(self)),
    {
        let ghost names = belief.affected_goal_names@;
        let ghost congs = belief.goal_congruences@;
        let ghost full = do_updates(old(self).goals@, names, congs, belief.likelihood,
            belief.is_incremental);
        proof {
            lemma_do_updates_wf(old(self).goals@, names, congs, belief.likelihood,
                belief.is_incremental);
        }
        let mut updates: Vec<(i64, i64, i64)> = Vec::new();
        proof {
            assert(names.skip(0) =~= names);
            assert(congs.skip(0) =~= congs);
            assert(full.0.skip(0) =~= full.0);
            assert(full.0.take(0) =~= Seq::<(i64, i64, i64)>::empty());
        }
        let n = belief.affected_goal_names.len();
        let mut i: usize = 0;
        while i < n
            invariant
                state_wf(*old(self)),
                belief_wf(*belief),
                names == belief.affected_goal_names@,
                congs == belief.goal_congruences@,
                full == do_updates(old(self).goals@, names, congs, belief.likelihood,
                    belief.is_incremental),
                n == names.len(),
                0 <= i <= n,
                self.emotions == old(self).emotions,
                self.gain == old(self).gain,
                self.goals@.len() == old(self).goals@.len(),
                forall|j: int| 0 <= j < self.goals@.len() ==> goal_wf(#[trigger] self.goals@[j]),
                do_updates(self.goals@, names.skip(i as int), congs.skip(i as int),
                    belief.likelihood, belief.is_incremental) == (full.0.skip(
                    updates@.len() as int), full.1),
                updates@ == full.0.take(updates@.len() as int),
                updates@.len() <= full.0.len(),
            decreases n - i,
        {
            let ghost pre_goals = self.goals@;
            let ghost rest_names = names.skip(i as int);
            let ghost rest_congs = congs.skip(i as int);
            proof {
                assert(rest_names.len() == n - i);
                assert(rest_congs.len() == congs.len() - i);
                assert(rest_names[0] == names[i as int]);
                assert(rest_congs[0] == congs[i as int]);
                assert(rest_names.drop_first() =~= names.skip(i as int + 1));
                assert(rest_congs.drop_first() =~= congs.skip(i as int + 1));
                lemma_find_goal_idx(pre_goals, names[i as int]@);
            }
            let name_ref = &belief.affected_goal_names[i];
            let congruence = belief.goal_congruences[i];
            // scan for the first goal with this name
            let gn = self.goals.len();
            let mut j: usize = 0;
            let mut found: bool = false;
            while j < gn && !found
                invariant
                    gn == self.goals@.len(),
                    0 <= j <= gn,
                    self.goals@ == pre_goals,
                    name_ref@ == names[i as int]@,
                    !found ==> forall|k: int|
                        0 <= k < j ==> (#[trigger] self.goals@[k]).name@ != name_ref@,
                    found ==> j < gn && self.goals@[j as int].name@ == name_ref@ && forall|k: int|
                        0 <= k < j ==> (#[trigger] self.goals@[k]).name@ != name_ref@,
                decreases gn - j + if found {
                    0int
                } else {
                    1int
                },
            {
                if self.goals[j].name == *name_ref {
                    found = true;
                } else {
                    j += 1;
                }
            }
            if found {
                proof {
                    assert(find_goal_idx(pre_goals, names[i as int]@) == j);
                }
                let g = &self.goals[j];
                let old_likelihood = g.likelihood;
                let nl = new_likelihood_exec(g, congruence, belief.likelihood,
                    belief.is_incremental);
                let utility = g.utility;
                let is_maintenance = g.is_maintenance;
                let name_owned = self.goals[j].name.clone();
                self.goals.set(j,
                    Goal { name: name_owned, utility, likelihood: nl, is_maintenance },
                );
                updates.push((utility, nl - old_likelihood, nl));
                proof {
                    let g_old = pre_goals[j as int];
                    assert(self.goals@ =~= pre_goals.update(j as int,
                        Goal {
                            name: g_old.name,
                            utility: g_old.utility,
                            likelihood: nl,
                            is_maintenance: g_old.is_maintenance,
                        },
                    ));
                    assert(full.0.skip(updates@.len() - 1)[0] == (utility, ((nl
                        - old_likelihood) as i64), nl));
                    assert(full.0.skip(updates@.len() - 1).drop_first() =~= full.0.skip(
                        updates@.len() as int));
                    assert(updates@ =~= full.0.take(updates@.len() as int));
                }
            } else {
                proof {
                    assert(find_goal_idx(pre_goals, names[i as int]@) == pre_goals.len());
                }
            }
            i += 1;
        }
        proof {
            assert(names.skip(n as int).len() == 0);
            assert(updates@.len() == full.0.len());
            assert(updates@ =~= full.0);
            assert(self.goals@ == full.1);
        }
        // second phase: turn the outcomes into emotions
        proof {
            assert(full.0.skip(0) =~= full.0);
        }
        let un = updates.len();
        let mut k: usize = 0;
        while k < un
            invariant
                un == updates@.len(),
                0 <= k <= un,
                updates@ == full.0,
                forall|i2: int|
                    0 <= i2 < full.0.len() ==> {
                        &&& -1000 <= (#[trigger] full.0[i2]).0 <= 1000
                        &&& -2000 <= full.0[i2].1 <= 2000
                        &&& -1000 <= full.0[i2].2 <= 1000
                    },
                state_wf(*self),
                self.goals@ == full.1,
                self.gain == old(self).gain,
                apply_updates(self.emotions@, full.0.skip(k as int)) == apply_updates(
                    old(self).emotions@, full.0),
            decreases un - k,
        {
            let u = updates[k];
            proof {
                assert(full.0.skip(k as int)[0] == full.0[k as int]);
                assert(full.0.skip(k as int).drop_first() =~= full.0.skip(k as int + 1));
            }
            self.evaluate_internal_emotion(u.0, u.1, u.2);
            k += 1;
        }
        proof {
            assert(full.0.skip(un as int) =~= Seq::<(i64, i64, i64)>::empty());
        }
    }
}

// ---------------------------------------------------------------------------
// Mood coordinate (PAD) and decay
// ---------------------------------------------------------------------------

/// Intensity-weighted pleasure sum over the accumulated emotions.
pub open spec fn sum_pleasure(s: Seq<Emotion>) -> int
    decreases s.len(),
{
    if s.len() == 0 {
        0
    } else {
        sum_pleasure(s.drop_last()) + s.last().intensity * pad_pleasure(s.last().emotion_type)
    }
}

/// Intensity-weighted arousal sum over the accumulated emotions.
pub open spec fn sum_arousal(s: Seq<Emotion>) -> int
    decreases s.len(),
{
    if s.len() == 0 {
        0
    } else {
        sum_arousal(s.drop_last()) + s.last().intensity * pad_arousal(s.last().emotion_type)
    }
}

/// Intensity-weighted dominance sum over the accumulated emotions.
pub open spec fn sum_dominance(s: Seq<Emotion>) -> int
    decreases s.len(),
{
    if s.len() == 0 {
        0
    } else {
        sum_dominance(s.drop_last()) + s.last().intensity * pad_dominance(s.last().emotion_type)
    }
}

/// Squash an axis sum into the open unit interval:
/// `gain * x / (gain * x + 1)` in real terms for a non-negative sum, and its
/// mirror image for a negative one.
pub open spec fn squash(gain: int, s: int) -> int {
    let x = gain * abs_val(s);
    let r = (1000 * x) / (x + 1_000_000_000);
    if s >= 0 {
        r
    } else {
        -r
    }
}

proof fn lemma_axis_sum_bound(s: Seq<Emotion>)
    requires
        forall|i: int| 0 <= i < s.len() ==> 0 <= (#[trigger] s[i]).intensity <= INTENSITY_CAP,
    ensures
        abs_val(sum_pleasure(s)) <= s.len() * 500_000_000_000_000_000,
        abs_val(sum_arousal(s)) <= s.len() * 500_000_000_000_000_000,
        abs_val(sum_dominance(s)) <= s.len() * 500_000_000_000_000_000,
    decreases s.len(),
{
    if s.len() > 0 {
        lemma_axis_sum_bound(s.drop_last());
        let e = s.last();
        assert(abs_val(e.intensity * pad_pleasure(e.emotion_type)) <= 500_000_000_000_000_000
            && abs_val(e.intensity * pad_arousal(e.emotion_type)) <= 500_000_000_000_000_000
            && abs_val(e.intensity * pad_dominance(e.emotion_type)) <= 500_000_000_000_000_000)
            by (nonlinear_arith)
            requires
                0 <= e.intensity <= 500_000_000_000_000,
                -1000 <= pad_pleasure(e.emotion_type) <= 1000,
                -1000 <= pad_arousal(e.emotion_type) <= 1000,
                -1000 <= pad_dominance(e.emotion_type) <= 1000,
        ;
    }
}

/// Executable squash for one axis.
fn squash_axis(gain: i64, s: i64) -> (r: i64)
    requires
        0 <= gain <= GAIN_MAX,
        -8_000_000_000_000_000_000 <= s <= 8_000_000_000_000_000_000,
    ensures
        r == squash(gain as int, s as int),
        -1000 < r < 1000,
{
    let m: u64 = if s < 0 {
        (-s) as u64
    } else {
        s as u64
    };
    proof {
        assert(gain * m <= 80_000_000_000_000_000_000_000) by (nonlinear_arith)
            requires
                0 <= gain <= 10_000,
                0 <= m <= 8_000_000_000_000_000_000,
        ;
    }
    let x: u128 = (gain as u128) * (m as u128);
    let num: u128 = 1000 * x;
    let den: u128 = x + 1_000_000_000;
    let q: u128 = num / den;
    proof {
        assert(num < 1000 * den) by (nonlinear_arith)
            requires
                num == 1000 * x,
                den == x + 1_000_000_000,
        ;
        assert(q < 1000) by (nonlinear_arith)
            requires
                q == num / den,
                num < 1000 * den,
                0 < den,
                0 <= num,
        ;
    }
    if s >= 0 {
        q as i64
    } else {
        -(q as i64)
    }
}

/// Scaling an intensity stays within bounds.
proof fn lemma_decay_scale_bounds(intensity: i64, factor: i64)
    requires
        0 <= intensity <= INTENSITY_CAP,
        0 <= factor <= 1000,
    ensures
        0 <= intensity * factor <= 500_000_000_000_000_000,
        0 <= (intensity * factor) / 1000 <= INTENSITY_CAP,
{
    assert(0 <= intensity * factor <= 500_000_000_000_000_000) by (nonlinear_arith)
        requires
            0 <= intensity <= 500_000_000_000_000,
            0 <= factor <= 1000,
    ;
}

/// Emotions after multiplicative decay: each intensity scales by
/// `factor` (thousandths) and entries at or below the removal threshold of
/// one thousandth disappear.
pub open spec fn decay_seq(s: Seq<Emotion>, factor: i64) -> Seq<Emotion>
    decreases s.len(),
{
    if s.len() == 0 {
        s
    } else {
        let prev = decay_seq(s.drop_last(), factor);
        let ni = (s.last().intensity * factor) / 1000;
        if ni > 1 {
            prev.push(Emotion { emotion_type: s.last().emotion_type, intensity: ni as i64 })
        } else {
            prev
        }
    }
}

proof fn lemma_decay_seq_wf(s: Seq<Emotion>, factor: i64)
    requires
        0 <= factor <= 1000,
        forall|i: int| 0 <= i < s.len() ==> 0 <= (#[trigger] s[i]).intensity <= INTENSITY_CAP,
        forall|i: int, j: int|
            0 <= i < j < s.len() ==> #[trigger] s[i].emotion_type != #[trigger] s[j].emotion_type,
    ensures
        decay_seq(s, factor).len() <= s.len(),
        forall|i: int|
            0 <= i < decay_seq(s, factor).len() ==> 0 <= (#[trigger] decay_seq(s, factor)[
                i]).intensity <= INTENSITY_CAP,
        forall|i: int|
            0 <= i < decay_seq(s, factor).len() ==> exists|j: int|
                0 <= j < s.len() && (#[trigger] decay_seq(s, factor)[i]).emotion_type == s[
                    j].emotion_type,
        forall|i: int, j: int|
            0 <= i < j < decay_seq(s, factor).len() ==> #[trigger] decay_seq(s, factor)[
                i].emotion_type != #[trigger] decay_seq(s, factor)[j].emotion_type,
    decreases s.len(),
{
    if s.len() > 0 {
        let d = s.drop_last();
        lemma_decay_seq_wf(d, factor);
        let e = s.last();
        assert(0 <= e.intensity * factor <= 500_000_000_000_000_000) by (nonlinear_arith)
            requires
                0 <= e.intensity <= 500_000_000_000_000,
                0 <= factor <= 1000,
        ;
        let ni = (e.intensity * factor) / 1000;
        assert(ni <= INTENSITY_CAP) by (nonlinear_arith)
            requires
                ni == (e.intensity * factor) / 1000,
                0 <= e.intensity * factor <= 500_000_000_000_000_000,
        ;
        let prev = decay_seq(d, factor);
        if ni > 1 {
            let r = decay_seq(s, factor);
            assert forall|i: int, j: int| 0 <= i < j < r.len() implies #[trigger] r[i].emotion_type
                != #[trigger] r[j].emotion_type by {
                if j < r.len() - 1 {
                    assert(prev[i] == r[i] && prev[j] == r[j]);
                } else {
                    // the appended entry has the last type of `s`, which the
                    // earlier entries, drawn from the prefix, cannot carry
                    let jj = choose|jj: int|
                        0 <= jj < d.len() && prev[i].emotion_type == d[jj].emotion_type;
                    assert(s[jj] == d[jj]);
                    assert(s[jj].emotion_type != s[s.len() - 1].emotion_type);
                }
            }
        }
    }
}

impl EmotionalState {
    /// The Pleasure/Arousal/Dominance coordinate of the current emotions;
    /// every axis lies strictly inside the open interval `(-1, 1)`.
    pub fn get_pad(&self) -> (r: (i64, i64, i64))
        requires
            state_wf(*self),
        ensures
            r.0 == squash(self.gain as int, sum_pleasure(self.emotions@)),
            r.1 == squash(self.gain as int, sum_arousal(self.emotions@)),
            r.2 == squash(self.gain as int, sum_dominance(self.emotions@)),
            -1000 < r.0 < 1000,
            -1000 < r.1 < 1000,
            -1000 < r.2 < 1000,
    {
        let mut p: i64 = 0;
        let mut a: i64 = 0;
        let mut d: i64 = 0;
        let n = self.emotions.len();
        let mut i: usize = 0;
        while i < n
            invariant
                state_wf(*self),
                n == self.emotions@.len(),
                0 <= i <= n,
                p == sum_pleasure(self.emotions@.take(i as int)),
                a == sum_arousal(self.emotions@.take(i as int)),
                d == sum_dominance(self.emotions@.take(i as int)),
                abs_val(p as int) <= i * 500_000_000_000_000_000,
                abs_val(a as int) <= i * 500_000_000_000_000_000,
                abs_val(d as int) <= i * 500_000_000_000_000_000,
            decreases n - i,
        {
            let e = self.emotions[i];
            let pad = e.emotion_type.pad_values();
            proof {
                assert(e.intensity * pad.0 <= 500_000_000_000_000_000 && e.intensity * pad.0
                    >= -500_000_000_000_000_000 && e.intensity * pad.1 <= 500_000_000_000_000_000 && e.intensity
                    * pad.1 >= -500_000_000_000_000_000 && e.intensity * pad.2 <= 500_000_000_000_000_000
                    && e.intensity * pad.2 >= -500_000_000_000_000_000) by (nonlinear_arith)
                    requires
                        0 <= e.intensity <= 500_000_000_000_000,
                        -1000 <= pad.0 <= 1000,
                        -1000 <= pad.1 <= 1000,
                        -1000 <= pad.2 <= 1000,
                ;
                assert(i * 500_000_000_000_000_000 <= 16 * 500_000_000_000_000_000int) by (nonlinear_arith)
                    requires
                        0 <= i <= 16,
                ;
                assert(self.emotions@.take(i as int + 1).drop_last() =~= self.emotions@.take(
                    i as int));
                assert(self.emotions@.take(i as int + 1).last() == self.emotions@[i as int]);
            }
            p = p + e.intensity * pad.0;
            a = a + e.intensity * pad.1;
            d = d + e.intensity * pad.2;
            proof {
                assert((i + 1) * 500_000_000_000_000_000 == i * 500_000_000_000_000_000 + 500_000_000_000_000_000)
                    by (nonlinear_arith)
                ;
            }
            i += 1;
        }
        proof {
            assert(self.emotions@.take(n as int) =~= self.emotions@);
            assert(n * 500_000_000_000_000_000 <= 8_000_000_000_000_000_000int) by (nonlinear_arith)
                requires
                    0 <= n <= 16,
            ;
        }
        (squash_axis(self.gain, p), squash_axis(self.gain, a), squash_axis(self.gain, d))
    }

    /// Scale every emotion's intensity by `decay_factor` (thousandths) and
    /// prune entries that fall to or below the removal threshold.
    #[verifier::spinoff_prover]
    #[verifier::rlimit(100)]
    pub fn decay(&mut self, decay_factor: i64)
        requires
            state_wf(*old(self)),
            0 <= decay_factor <= 1000,
        ensures
            final(self).emotions@ == decay_seq(old(self).emotions@, decay_factor),
            final(self).goals == old(self).goals,
            final(self).gain == old(self).gain,
            state_wf(*final(self)),
    {
        let ghost s0 = self.emotions@;
        let mut kept: Vec<Emotion> = Vec::new();
        let n = self.emotions.len();
        let mut i: usize = 0;
        proof {
            assert(s0.take(0) =~= Seq::<Emotion>::empty());
        }
        while i < n
            invariant
                state_wf(*old(self)),
                0 <= decay_factor <= 1000,
                s0 == old(self).emotions@,
                self.emotions@ == s0,
                self.goals == old(self).goals,
                self.gain == old(self).gain,
                n == s0.len(),
                0 <= i <= n,
                kept@ == decay_seq(s0.take(i as int), decay_factor),
            decreases n - i,
        {
            let e = self.emotions[i];
            proof {
                lemma_decay_scale_bounds(e.intensity, decay_factor);
                assert(s0.take(i as int + 1).drop_last() =~= s0.take(i as int));
                assert(s0.take(i as int + 1).last() == s0[i as int]);
            }
            let prod: u64 = (e.intensity as u64) * (decay_factor as u64);
            let scaled: i64 = (prod / 1000) as i64;
            proof {
                assert(scaled == (e.intensity * decay_factor) / 1000);
            }
            if scaled > 1 {
                kept.push(Emotion { emotion_type: e.emotion_type, intensity: scaled });
            }
            i += 1;
        }
        proof {
            assert(s0.take(n as int) =~= s0);
            lemma_decay_seq_wf(s0, decay_factor);
        }
        self.emotions = kept;
    }
}

// ---------------------------------------------------------------------------
// Saturation laws
// ---------------------------------------------------------------------------

/// An appraisal outcome with a zero likelihood delta emits no emotions at
/// all, not even the unconditional ones.
pub proof fn lemma_zero_delta_no_emotions(s: Seq<Emotion>, utility: int, likelihood: int)
    ensures
        emit_emotions(s, utility, 0, likelihood) == s,
{
    assert(utility * 0 == 0) by (nonlinear_arith);
}

/// Likelihood saturation: appraising an incremental, fully congruent, fully
/// likely belief about a non-maintenance goal with non-negative likelihood
/// drives that likelihood to one; appraising it once more changes no goal
/// and emits no emotions.
pub proof fn lemma_likelihood_saturation(
    goals: Seq<Goal>,
    name: String,
    emotions: Seq<Emotion>,
)
    requires
        find_goal_idx(goals, name@) < goals.len(),
        !goals[find_goal_idx(goals, name@)].is_maintenance,
        0 <= goals[find_goal_idx(goals, name@)].likelihood <= 1000,
    ensures
        ({
            let first = do_updates(goals, seq![name], seq![1000i64], 1000, true);
            let again = do_updates(first.1, seq![name], seq![1000i64], 1000, true);
            &&& first.1[find_goal_idx(goals, name@)].likelihood == 1000
            &&& again.1 == first.1
            &&& apply_updates(emotions, again.0) == emotions
        }),
{
    let i = find_goal_idx(goals, name@);
    lemma_find_goal_idx(goals, name@);
    let g = goals[i];
    let names = seq![name];
    let congs = seq![1000i64];
    assert(names[0] == name);
    assert(1000 * 1000 == 1_000_000int) by (nonlinear_arith);
    let nl = new_likelihood(g.likelihood as int, g.is_maintenance, 1000, 1000, true);
    assert(nl == 1000);
    let g1 = Goal {
        name: g.name,
        utility: g.utility,
        likelihood: 1000,
        is_maintenance: g.is_maintenance,
    };
    let goals1 = goals.update(i, g1);
    let first = do_updates(goals, names, congs, 1000, true);
    assert(names.drop_first().len() == 0);
    assert(do_updates(goals1, names.drop_first(), congs.drop_first(), 1000, true) == (Seq::<(
        i64,
        i64,
        i64,
    )>::empty(), goals1));
    assert(first.1 == goals1);
    // the goal keeps its name, so the same index is found again
    assert(find_goal_idx(goals1, name@) == i) by {
        lemma_find_goal_idx(goals1, name@);
        lemma_goal_idx_same_names(goals, goals1, name@);
    }
    let again = do_updates(goals1, names, congs, 1000, true);
    let nl2 = new_likelihood(1000, g.is_maintenance, 1000, 1000, true);
    assert(nl2 == 1000);
    let g2 = Goal {
        name: g1.name,
        utility: g1.utility,
        likelihood: 1000,
        is_maintenance: g1.is_maintenance,
    };
    assert(g2 == g1);
    assert(goals1.update(i, g2) =~= goals1);
    assert(do_updates(goals1.update(i, g2), names.drop_first(), congs.drop_first(), 1000, true)
        == (Seq::<(i64, i64, i64)>::empty(), goals1));
    assert(again.1 == goals1);
    assert(again.0 == seq![(g1.utility, 0i64, 1000i64)] + Seq::<(i64, i64, i64)>::empty());
    assert(again.0[0] == (g1.utility, 0i64, 1000i64));
    assert(again.0.drop_first() =~= Seq::<(i64, i64, i64)>::empty());
    lemma_zero_delta_no_emotions(emotions, g1.utility as int, 1000);
    let e1 = emit_emotions(emotions, g1.utility as int, 0, 1000);
    assert(e1 == emotions);
    assert(apply_updates(emotions, again.0) == apply_updates(e1, again.0.drop_first()));
    assert(apply_updates(e1, again.0.drop_first()) == e1);
    assert(first.1[i].likelihood == 1000);
}

/// Two goal sequences whose entries carry the same names agree on where a
/// name is first found.
proof fn lemma_goal_idx_same_names(a: Seq<Goal>, b: Seq<Goal>, name: Seq<char>)
    requires
        a.len() == b.len(),
        forall|i: int| 0 <= i < a.len() ==> a[i].name@ == #[trigger] b[i].name@,
    ensures
        find_goal_idx(a, name) == find_goal_idx(b, name),
    decreases a.len(),
{
    if a.len() > 0 {
        if a[0].name@ == name {
        } else {
            assert forall|i: int| 0 <= i < a.drop_first().len() implies a.drop_first()[i].name@
                == #[trigger] b.drop_first()[i].name@ by {
                assert(a.drop_first()[i] == a[i + 1] && b.drop_first()[i] == b[i + 1]);
            }
            lemma_goal_idx_same_names(a.drop_first(), b.drop_first(), name);
        }
    }
}

} // verus!
