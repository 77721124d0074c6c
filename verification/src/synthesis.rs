//! The synthesis arena: challenges with stage gates, the deterministic
//! scoring of a candidate configuration, and benchmark tallies.
use crate::text::text_eq;
use std::time::{Duration, Instant};
use vstd::prelude::*;

verus! {

/// A challenge: four stage gates, their weights and a target composite score.
#[derive(Debug, Clone)]
pub struct Challenge {
    pub id: &'static str,
    pub name: &'static str,
    pub description: &'static str,
    pub gates: [u32; 4],
    pub weights: [u32; 4],
    pub target_score: u32,
}

/// A challenge as texts and number lists.
pub struct ChallengeSpec {
    pub id: Seq<char>,
    pub name: Seq<char>,
    pub description: Seq<char>,
    pub gates: Seq<u32>,
    pub weights: Seq<u32>,
    pub target_score: u32,
}

impl View for Challenge {
    type V = ChallengeSpec;

    open spec fn view(&self) -> ChallengeSpec {
        ChallengeSpec {
            id: self.id@,
            name: self.name@,
            description: self.description@,
            gates: self.gates@,
            weights: self.weights@,
            target_score: self.target_score,
        }
    }
}

/// The published form of a challenge.
#[derive(Debug, Clone, PartialEq, Eq)]
pub struct ChallengeView {
    pub id: String,
    pub name: String,
    pub description: String,
    pub gates: [u32; 4],
    pub weights: [u32; 4],
    pub target_score: u32,
}

impl View for ChallengeView {
    type V = ChallengeSpec;

    open spec fn view(&self) -> ChallengeSpec {
        ChallengeSpec {
            id: self.id@,
            name: self.name@,
            description: self.description@,
            gates: self.gates@,
            weights: self.weights@,
            target_score: self.target_score,
        }
    }
}

impl ChallengeView {
    /// The published form of `challenge`: the same texts and numbers.
    pub fn from_challenge(challenge: &Challenge) -> (r: ChallengeView)
        ensures
            r@ == challenge@,
    {
        ChallengeView {
            id: challenge.id.to_owned(),
            name: challenge.name.to_owned(),
            description: challenge.description.to_owned(),
            gates: challenge.gates,
            weights: challenge.weights,
            target_score: challenge.target_score,
        }
    }
}

/// A candidate configuration to score against a challenge.
#[derive(Debug, Clone, PartialEq, Eq)]
pub struct EvaluationRequest {
    pub challenge_id: String,
    pub throughput: u32,
    pub precision: u32,
    pub efficiency: u32,
    pub resilience: u32,
    pub seed: u64,
}

/// One stage metric against its gate.
#[derive(Debug, Clone, PartialEq, Eq)]
pub struct MetricResult {
    pub metric: String,
    pub value: u32,
    pub gate: u32,
    pub passed: bool,
}

/// A metric as text and numbers.
pub struct MetricSpec {
    pub metric: Seq<char>,
    pub value: u32,
    pub gate: u32,
    pub passed: bool,
}

impl View for MetricResult {
    type V = MetricSpec;

    open spec fn view(&self) -> MetricSpec {
        MetricSpec { metric: self.metric@, value: self.value, gate: self.gate, passed: self.passed }
    }
}

/// The scoring of a request.
#[derive(Debug, Clone, PartialEq, Eq)]
pub struct EvaluationResponse {
    pub challenge_id: String,
    pub composite_score: u32,
    pub target_score: u32,
    pub passed_all_gates: bool,
    pub meets_target: bool,
    pub metrics: Vec<MetricResult>,
}

/// A scoring as texts, numbers and metric views.
pub struct EvaluationSpec {
    pub challenge_id: Seq<char>,
    pub composite_score: u32,
    pub target_score: u32,
    pub passed_all_gates: bool,
    pub meets_target: bool,
    pub metrics: Seq<MetricSpec>,
}

/// The views of a list of metrics.
pub open spec fn metrics_view(s: Seq<MetricResult>) -> Seq<MetricSpec> {
    s.map_values(|m: MetricResult| m@)
}

impl View for EvaluationResponse {
    type V = EvaluationSpec;

    open spec fn view(&self) -> EvaluationSpec {
        EvaluationSpec {
            challenge_id: self.challenge_id@,
            composite_score: self.composite_score,
            target_score: self.target_score,
            passed_all_gates: self.passed_all_gates,
            meets_target: self.meets_target,
            metrics: metrics_view(self.metrics@),
        }
    }
}

/// A request refused by the arena, with the message returned to the caller.
#[derive(Debug, Clone, PartialEq, Eq)]
pub enum ApiError {
    BadRequest(String),
}

/// The three challenges the arena starts with.
pub open spec fn default_challenge_specs() -> Seq<ChallengeSpec> {
    seq![
        ChallengeSpec {
            id: "forge"@,
            name: "Forge Sprint"@,
            description: "Fast synthesis with strict stage gates."@,
            gates: seq![220u32, 280, 240, 260],
            weights: seq![3u32, 4, 2, 3],
            target_score: 285,
        },
        ChallengeSpec {
            id: "citadel"@,
            name: "Citadel Lock"@,
            description: "Resilience-heavy setup tuned for stable pipelines."@,
            gates: seq![210u32, 245, 300, 235],
            weights: seq![2u32, 3, 5, 2],
            target_score: 295,
        },
        ChallengeSpec {
            id: "relay"@,
            name: "Relay Gauntlet"@,
            description: "Balanced profile with difficult delivery threshold."@,
            gates: seq![230u32, 255, 250, 295],
            weights: seq![3u32, 3, 3, 4],
            target_score: 300,
        },
    ]
}

/// The views of a list of challenges.
pub open spec fn challenges_view(s: Seq<Challenge>) -> Seq<ChallengeSpec> {
    s.map_values(|c: Challenge| c@)
}

/// The arena's challenges: forge, citadel and relay.
pub fn default_challenges() -> (r: Vec<Challenge>)
    ensures
        challenges_view(r@) == default_challenge_specs(),
{
    let mut r: Vec<Challenge> = Vec::new();
    r.push(
        Challenge {
            id: "forge",
            name: "Forge Sprint",
            description: "Fast synthesis with strict stage gates.",
            gates: [220, 280, 240, 260],
            weights: [3, 4, 2, 3],
            target_score: 285,
        },
    );
    r.push(
        Challenge {
            id: "citadel",
            name: "Citadel Lock",
            description: "Resilience-heavy setup tuned for stable pipelines.",
            gates: [210, 245, 300, 235],
            weights: [2, 3, 5, 2],
            target_score: 295,
        },
    );
    r.push(
        Challenge {
            id: "relay",
            name: "Relay Gauntlet",
            description: "Balanced profile with difficult delivery threshold.",
            gates: [230, 255, 250, 295],
            weights: [3, 3, 3, 4],
            target_score: 300,
        },
    );
    assert(r@[0].gates@ =~= seq![220u32, 280, 240, 260]);
    assert(r@[0].weights@ =~= seq![3u32, 4, 2, 3]);
    assert(r@[1].gates@ =~= seq![210u32, 245, 300, 235]);
    assert(r@[1].weights@ =~= seq![2u32, 3, 5, 2]);
    assert(r@[2].gates@ =~= seq![230u32, 255, 250, 295]);
    assert(r@[2].weights@ =~= seq![3u32, 3, 3, 4]);
    assert(challenges_view(r@) =~= default_challenge_specs());
    r
}

/// An input level capped at 100.
pub open spec fn bounded(value: u32) -> u32 {
    if value < 100 {
        value
    } else {
        100
    }
}

/// Caps an input level at 100.
pub fn bounded_input(value: u32) -> (r: u32)
    ensures
        r == bounded(value),
{
    if value < 100 {
        value
    } else {
        100
    }
}

/// The message for an unknown challenge id.
pub open spec fn unknown_challenge_message(id: Seq<char>) -> Seq<char> {
    "unknown challenge_id: "@ + id
}

/// The first challenge with the given id, or the refusal that names the id.
pub fn find_challenge<'a>(challenges: &'a Vec<Challenge>, id: &str) -> (r: Result<&'a Challenge, ApiError>)
    ensures
        match r {
            Ok(c) => exists|i: int|
                0 <= i < challenges@.len() && challenges@[i] == *c && c.id@ == id@ && forall|j: int|
                    0 <= j < i ==> (#[trigger] challenges@[j]).id@ != id@,
            Err(ApiError::BadRequest(m)) => m@ == unknown_challenge_message(id@) && forall|j: int|
                0 <= j < challenges@.len() ==> (#[trigger] challenges@[j]).id@ != id@,
        },
{
    let mut i: usize = 0;
    while i < challenges.len()
        invariant
            i <= challenges@.len(),
            forall|j: int| 0 <= j < i ==> (#[trigger] challenges@[j]).id@ != id@,
        decreases challenges@.len() - i,
    {
        if text_eq(challenges[i].id, id) {
            return Ok(&challenges[i]);
        }
        i = i + 1;
    }
    let mut m = "unknown challenge_id: ".to_owned();
    m.append(id);
    Err(ApiError::BadRequest(m))
}

/// `a - b`, or 0 when `b` exceeds `a`.
pub open spec fn saturating_diff(a: int, b: int) -> int {
    if a >= b {
        a - b
    } else {
        0
    }
}

/// The seed folded below ten thousand.
pub open spec fn folded_seed(seed: u64) -> int {
    (seed % 10000) as int
}

/// The ingest metric.
pub open spec fn ingest_value(t: int, e: int, s: int) -> int {
    40 + (t * 5) / 2 + e * 2 + s % 13
}

/// The synthesis metric.
pub open spec fn synthesis_value(t: int, p: int, e: int, s: int) -> int {
    saturating_diff(35 + p * 3 + t + (s / 7) % 17, (100 - e) / 3)
}

/// The stability metric.
pub open spec fn stability_value(t: int, e: int, r: int, s: int) -> int {
    saturating_diff(30 + r * 3 + e * 2 + (s / 11) % 19, t / 4)
}

/// The delivery metric.
pub open spec fn delivery_value(t: int, p: int, e: int, r: int, s: int) -> int {
    38 + (t + p + r) / 2 + (e * 3) / 2 + (s / 13) % 23
}

/// The four metric values of a request, in stage order, from the capped
/// input levels and the folded seed.
pub open spec fn metric_values(req: EvaluationRequest) -> Seq<int> {
    let t = bounded(req.throughput) as int;
    let p = bounded(req.precision) as int;
    let e = bounded(req.efficiency) as int;
    let r = bounded(req.resilience) as int;
    let s = folded_seed(req.seed);
    seq![ingest_value(t, e, s), synthesis_value(t, p, e, s), stability_value(t, e, r, s), delivery_value(t, p, e, r, s)]
}

/// The stage names, in order.
pub open spec fn metric_names() -> Seq<Seq<char>> {
    seq!["ingest"@, "synthesis"@, "stability"@, "delivery"@]
}

/// The sum of a challenge's weights.
pub open spec fn weight_sum(c: ChallengeSpec) -> int {
    c.weights[0] + c.weights[1] + c.weights[2] + c.weights[3]
}

/// The weighted sum of the four metric values.
pub open spec fn weighted_sum(v: Seq<int>, c: ChallengeSpec) -> int {
    v[0] * c.weights[0] + v[1] * c.weights[1] + v[2] * c.weights[2] + v[3] * c.weights[3]
}

/// Whether a challenge can be scored without overflow: its weights have a
/// positive sum and the weighted sum of any request's metrics fits in `u32`.
pub open spec fn scorable(req: EvaluationRequest, c: ChallengeSpec) -> bool {
    &&& 0 < weight_sum(c) <= u32::MAX
    &&& weighted_sum(metric_values(req), c) <= u32::MAX
}

/// The scoring of `req` against `c`.
pub open spec fn evaluation(req: EvaluationRequest, c: ChallengeSpec) -> EvaluationSpec {
    let v = metric_values(req);
    let composite = weighted_sum(v, c) / weight_sum(c);
    EvaluationSpec {
        challenge_id: c.id,
        composite_score: composite as u32,
        target_score: c.target_score,
        passed_all_gates: forall|i: int| 0 <= i < 4 ==> v[i] >= #[trigger] c.gates[i],
        meets_target: composite >= c.target_score,
        metrics: Seq::new(
            4,
            |i: int| MetricSpec { metric: metric_names()[i], value: v[i] as u32, gate: c.gates[i], passed: v[i] >= c.gates[i] },
        ),
    }
}

/// Input levels above 100 score as 100, and only the seed modulo 10000
/// counts: a request scores exactly as its capped copy against any
/// challenge.
pub proof fn lemma_capped_inputs_score_alike(r1: EvaluationRequest, r2: EvaluationRequest, c: ChallengeSpec)
    requires
        r2.throughput == bounded(r1.throughput),
        r2.precision == bounded(r1.precision),
        r2.efficiency == bounded(r1.efficiency),
        r2.resilience == bounded(r1.resilience),
        r2.seed == r1.seed % 10000,
    ensures
        metric_values(r1) == metric_values(r2),
        evaluation(r1, c) == evaluation(r2, c),
        scorable(r1, c) == scorable(r2, c),
{
    assert(bounded(r2.throughput) == bounded(r1.throughput));
    assert(bounded(r2.precision) == bounded(r1.precision));
    assert(bounded(r2.efficiency) == bounded(r1.efficiency));
    assert(bounded(r2.resilience) == bounded(r1.resilience));
    assert(folded_seed(r2.seed) == folded_seed(r1.seed));
    assert(metric_values(r1) =~= metric_values(r2));
}

proof fn lemma_metric_bounds(req: EvaluationRequest)
    ensures
        forall|i: int| 0 <= i < 4 ==> 0 <= #[trigger] metric_values(req)[i] <= 1000,
{
}

/// The four metric values of a request: ingest, synthesis, stability and
/// delivery.
fn compute_metrics(request: &EvaluationRequest) -> (r: (u32, u32, u32, u32))
    ensures
        r.0 == metric_values(*request)[0],
        r.1 == metric_values(*request)[1],
        r.2 == metric_values(*request)[2],
        r.3 == metric_values(*request)[3],
        r.0 <= 1000 && r.1 <= 1000 && r.2 <= 1000 && r.3 <= 1000,
{
    let throughput = bounded_input(request.throughput);
    let precision = bounded_input(request.precision);
    let efficiency = bounded_input(request.efficiency);
    let resilience = bounded_input(request.resilience);
    let seed = (request.seed % 10_000) as u32;

    let ingest = 40 + ((throughput * 5) / 2) + (efficiency * 2) + (seed % 13);
    let synthesis = (35 + (precision * 3) + throughput + ((seed / 7) % 17)).saturating_sub((100 - efficiency) / 3);
    let stability = (30 + (resilience * 3) + (efficiency * 2) + ((seed / 11) % 19)).saturating_sub(throughput / 4);
    let delivery = 38 + ((throughput + precision + resilience) / 2) + ((efficiency * 3) / 2) + ((seed / 13) % 23);
    proof {
        lemma_metric_bounds(*request);
    }
    (ingest, synthesis, stability, delivery)
}

/// Whether `challenge` scores `request` without overflow.
pub fn is_scorable(request: &EvaluationRequest, challenge: &Challenge) -> (r: bool)
    ensures
        r == scorable(*request, challenge@),
{
    let (a, b, c, d) = compute_metrics(request);
    let w = challenge.weights;
    let w0 = w[0] as u64;
    let w1 = w[1] as u64;
    let w2 = w[2] as u64;
    let w3 = w[3] as u64;
    let total = w0 + w1 + w2 + w3;
    proof {
        assert(a * w0 <= 1000 * 0xffff_ffffu64) by (nonlinear_arith)
            requires a <= 1000, w0 <= 0xffff_ffffu64;
        assert(b * w1 <= 1000 * 0xffff_ffffu64) by (nonlinear_arith)
            requires b <= 1000, w1 <= 0xffff_ffffu64;
        assert(c * w2 <= 1000 * 0xffff_ffffu64) by (nonlinear_arith)
            requires c <= 1000, w2 <= 0xffff_ffffu64;
        assert(d * w3 <= 1000 * 0xffff_ffffu64) by (nonlinear_arith)
            requires d <= 1000, w3 <= 0xffff_ffffu64;
    }
    let weighted = (a as u64) * w0 + (b as u64) * w1 + (c as u64) * w2 + (d as u64) * w3;
    0 < total && total <= 0xffff_ffffu64 && weighted <= 0xffff_ffffu64
}

/// Whether the challenge that `request` names (the first with its id)
/// scores it without overflow, or no challenge has that id: the condition
/// of `evaluate` and `run_benchmark`.
pub fn challenges_scorable(challenges: &Vec<Challenge>, request: &EvaluationRequest) -> (r: bool)
    ensures
        r == named_scorable(challenges@, *request),
{
    match find_challenge(challenges, request.challenge_id.as_str()) {
        Ok(c) => {
            let b = is_scorable(request, c);
            proof {
                let id = request.challenge_id@;
                lemma_found_is_first_named(challenges@, id, *c);
                lemma_first_named_unique(challenges@, id);
                let i = choose|i: int| #[trigger] first_named(challenges@, id, i) && challenges@[i] == *c;
                assert forall|k: int| #[trigger] first_named(challenges@, id, k) implies scorable(*request, challenges@[k]@) == b by {
                    assert(k == i);
                }
            }
            b
        },
        Err(_) => {
            proof {
                assert forall|k: int| #[trigger] first_named(challenges@, request.challenge_id@, k) implies scorable(*request, challenges@[k]@) by {
                    assert(challenges@[k].id@ != request.challenge_id@);
                }
            }
            true
        },
    }
}

/// Scores a request against a challenge: four stage metrics from the capped
/// inputs and the seed, each against its gate, and their weighted mean.
pub fn evaluate_request(request: &EvaluationRequest, challenge: &Challenge) -> (r: EvaluationResponse)
    requires
        scorable(*request, challenge@),
    ensures
        r@ == evaluation(*request, challenge@),
        r.metrics@.len() == 4,
{
    let (ingest, synthesis, stability, delivery) = compute_metrics(request);
    let ghost v = metric_values(*request);
    let ghost c = challenge@;

    let metric_names: [&str; 4] = ["ingest", "synthesis", "stability", "delivery"];
    let metric_values: [u32; 4] = [ingest, synthesis, stability, delivery];

    let mut metrics: Vec<MetricResult> = Vec::new();
    let mut passed_all_gates = true;
    let mut index: usize = 0;
    while index < 4
        invariant
            index <= 4,
            metric_values@ == seq![ingest, synthesis, stability, delivery],
            metric_names@.len() == 4,
            forall|i: int| 0 <= i < 4 ==> (#[trigger] metric_names@[i])@ == crate::synthesis::metric_names()[i],
            v == crate::synthesis::metric_values(*request),
            ingest == v[0] && synthesis == v[1] && stability == v[2] && delivery == v[3],
            c == challenge@,
            metrics@.len() == index,
            forall|i: int| 0 <= i < index ==> (#[trigger] metrics@[i])@ == (MetricSpec {
                metric: crate::synthesis::metric_names()[i],
                value: v[i] as u32,
                gate: c.gates[i],
                passed: v[i] >= c.gates[i],
            }),
            passed_all_gates == forall|i: int| 0 <= i < index ==> v[i] >= #[trigger] c.gates[i],
        decreases 4 - index,
    {
        let value = metric_values[index];
        let gate = challenge.gates[index];
        assert(value == v[index as int] && gate == c.gates[index as int]);
        metrics.push(MetricResult { metric: metric_names[index].to_owned(), value, gate, passed: value >= gate });
        passed_all_gates = passed_all_gates && value >= gate;
        index = index + 1;
    }

    let w = challenge.weights;
    assert(w@ == c.weights);
    let weight_total: u32 = w[0] + w[1] + w[2] + w[3];
    proof {
        lemma_metric_bounds(*request);
        assert(0 <= v[0] * c.weights[0]) by (nonlinear_arith)
            requires 0 <= v[0];
        assert(0 <= v[1] * c.weights[1]) by (nonlinear_arith)
            requires 0 <= v[1];
        assert(0 <= v[2] * c.weights[2]) by (nonlinear_arith)
            requires 0 <= v[2];
        assert(0 <= v[3] * c.weights[3]) by (nonlinear_arith)
            requires 0 <= v[3];
    }
    let weighted_score: u32 = ingest * w[0] + synthesis * w[1] + stability * w[2] + delivery * w[3];
    let composite_score = weighted_score / weight_total;
    let r = EvaluationResponse {
        challenge_id: challenge.id.to_owned(),
        composite_score,
        target_score: challenge.target_score,
        passed_all_gates,
        meets_target: composite_score >= challenge.target_score,
        metrics,
    };
    assert(metrics_view(r.metrics@) =~= evaluation(*request, c).metrics);
    r
}

/// `i` is the position of the first challenge whose id is `id`.
pub open spec fn first_named(challenges: Seq<Challenge>, id: Seq<char>, i: int) -> bool {
    &&& 0 <= i < challenges.len()
    &&& challenges[i].id@ == id
    &&& forall|j: int| 0 <= j < i ==> (#[trigger] challenges[j]).id@ != id
}

/// The challenge that `req` names, the first with its id, scores it without
/// overflow (there is nothing to score when no challenge has that id).
pub open spec fn named_scorable(challenges: Seq<Challenge>, req: EvaluationRequest) -> bool {
    forall|i: int| #[trigger] first_named(challenges, req.challenge_id@, i) ==> scorable(req, challenges[i]@)
}

/// At most one position is the first with a given id.
proof fn lemma_first_named_unique(challenges: Seq<Challenge>, id: Seq<char>)
    ensures
        forall|i: int, k: int| #[trigger] first_named(challenges, id, i) && #[trigger] first_named(challenges, id, k) ==> i == k,
{
    assert forall|i: int, k: int| #[trigger] first_named(challenges, id, i) && #[trigger] first_named(challenges, id, k) implies i == k by {
        if i < k {
            assert(challenges[i].id@ != id);
        } else if k < i {
            assert(challenges[k].id@ != id);
        }
    }
}

/// A challenge found as the first with its id sits at a first-named position.
proof fn lemma_found_is_first_named(challenges: Seq<Challenge>, id: Seq<char>, c: Challenge)
    requires
        exists|i: int|
            0 <= i < challenges.len() && challenges[i] == c && c.id@ == id && forall|j: int|
                0 <= j < i ==> (#[trigger] challenges[j]).id@ != id,
    ensures
        exists|i: int| #[trigger] first_named(challenges, id, i) && challenges[i] == c,
{
    let i = choose|i: int|
        0 <= i < challenges.len() && challenges[i] == c && c.id@ == id && forall|j: int|
            0 <= j < i ==> (#[trigger] challenges[j]).id@ != id;
    assert(first_named(challenges, id, i));
}

/// Whether every challenge can score `req` without overflow.
pub open spec fn all_scorable(challenges: Seq<Challenge>, req: EvaluationRequest) -> bool {
    forall|i: int| 0 <= i < challenges.len() ==> scorable(req, (#[trigger] challenges[i])@)
}

/// The arena's own challenges score every request without overflow.
pub proof fn lemma_default_challenges_scorable(challenges: Seq<Challenge>, req: EvaluationRequest)
    requires
        challenges_view(challenges) == default_challenge_specs(),
    ensures
        all_scorable(challenges, req),
        named_scorable(challenges, req),
{
    lemma_metric_bounds(req);
    let v = metric_values(req);
    let d = default_challenge_specs();
    assert(challenges_view(challenges).len() == challenges.len());
    assert forall|i: int| 0 <= i < challenges.len() implies scorable(req, (#[trigger] challenges[i])@) by {
        assert(challenges_view(challenges)[i] == challenges[i]@);
        let c = challenges[i]@;
        assert(c == d[i]);
        assert(c.weights[0] <= 5 && c.weights[1] <= 5 && c.weights[2] <= 5 && c.weights[3] <= 5
            && weight_sum(c) > 0) by {
            if i == 0 {
                assert(c.weights =~= seq![3u32, 4, 2, 3]);
            } else if i == 1 {
                assert(c.weights =~= seq![2u32, 3, 5, 2]);
            } else {
                assert(c.weights =~= seq![3u32, 3, 3, 4]);
            }
        }
        assert(v[0] * c.weights[0] <= 5000) by (nonlinear_arith)
            requires 0 <= v[0] <= 1000, c.weights[0] <= 5;
        assert(v[1] * c.weights[1] <= 5000) by (nonlinear_arith)
            requires 0 <= v[1] <= 1000, c.weights[1] <= 5;
        assert(v[2] * c.weights[2] <= 5000) by (nonlinear_arith)
            requires 0 <= v[2] <= 1000, c.weights[2] <= 5;
        assert(v[3] * c.weights[3] <= 5000) by (nonlinear_arith)
            requires 0 <= v[3] <= 1000, c.weights[3] <= 5;
    }
    assert forall|i: int| #[trigger] first_named(challenges, req.challenge_id@, i) implies scorable(req, challenges[i]@) by {
        assert(scorable(req, challenges[i]@));
    }
}

/// Scores a request against the challenge it names: the arena's evaluate
/// endpoint.
pub fn evaluate(challenges: &Vec<Challenge>, request: &EvaluationRequest) -> (r: Result<EvaluationResponse, ApiError>)
    requires
        named_scorable(challenges@, *request),
    ensures
        match r {
            Ok(e) => exists|i: int|
                #[trigger] first_named(challenges@, request.challenge_id@, i)
                    && e@ == evaluation(*request, challenges@[i]@),
            Err(ApiError::BadRequest(m)) => m@ == unknown_challenge_message(request.challenge_id@)
                && forall|j: int| 0 <= j < challenges@.len() ==> (#[trigger] challenges@[j]).id@ != request.challenge_id@,
        },
{
    match find_challenge(challenges, request.challenge_id.as_str()) {
        Ok(challenge) => {
            proof {
                lemma_found_is_first_named(challenges@, request.challenge_id@, *challenge);
            }
            Ok(evaluate_request(request, challenge))
        },
        Err(e) => Err(e),
    }
}

/// Whether two scorings are the same.
pub fn same_evaluation(a: &EvaluationResponse, b: &EvaluationResponse) -> (r: bool)
    ensures
        r == (a@ == b@),
{
    if a.challenge_id != b.challenge_id || a.composite_score != b.composite_score || a.target_score
        != b.target_score || a.passed_all_gates != b.passed_all_gates || a.meets_target
        != b.meets_target || a.metrics.len() != b.metrics.len() {
        proof {
            if a@ == b@ {
                assert(a.metrics@.len() == metrics_view(a.metrics@).len());
            }
        }
        return false;
    }
    let mut i: usize = 0;
    while i < a.metrics.len()
        invariant
            i <= a.metrics@.len() == b.metrics@.len(),
            forall|j: int| 0 <= j < i ==> (#[trigger] a.metrics@[j])@ == b.metrics@[j]@,
        decreases a.metrics@.len() - i,
    {
        let x = &a.metrics[i];
        let y = &b.metrics[i];
        if x.metric != y.metric || x.value != y.value || x.gate != y.gate || x.passed != y.passed {
            proof {
                if a@ == b@ {
                    assert(metrics_view(a.metrics@)[i as int] == metrics_view(b.metrics@)[i as int]);
                }
            }
            return false;
        }
        i = i + 1;
    }
    assert(metrics_view(a.metrics@) =~= metrics_view(b.metrics@));
    true
}

/// The most benchmark iterations one request may ask for.
pub const MAX_BENCHMARK_ITERATIONS: u32 = 50000;

/// A benchmark: one request scored a number of times.
#[derive(Debug, Clone, PartialEq, Eq)]
pub struct BenchmarkRequest {
    pub request: EvaluationRequest,
    pub iterations: u32,
}

/// The refusal for an iteration count out of range, if it is.
pub open spec fn iterations_refusal(iterations: u32) -> Option<Seq<char>> {
    if iterations == 0 {
        Some("iterations must be greater than zero"@)
    } else if iterations > MAX_BENCHMARK_ITERATIONS {
        Some("iterations must be less than or equal to 50000"@)
    } else {
        None
    }
}

/// Checks that a benchmark asks for between 1 and 50000 iterations.
pub fn validate_iterations(iterations: u32) -> (r: Result<(), ApiError>)
    ensures
        match iterations_refusal(iterations) {
            Some(m) => (r matches Err(ApiError::BadRequest(e)) && e@ == m),
            None => r is Ok,
        },
{
    if iterations == 0 {
        return Err(ApiError::BadRequest("iterations must be greater than zero".to_owned()));
    }
    if iterations > MAX_BENCHMARK_ITERATIONS {
        return Err(ApiError::BadRequest("iterations must be less than or equal to 50000".to_owned()));
    }
    Ok(())
}

/// The integer tallies of a benchmark: timings in microseconds and the
/// composite scores, with one scoring kept as a sample.
#[derive(Debug, Clone, PartialEq, Eq)]
pub struct BenchmarkTally {
    pub iterations: u32,
    pub deterministic: bool,
    pub min_micros: u64,
    pub max_micros: u64,
    pub total_micros: u128,
    pub min_score: u32,
    pub max_score: u32,
    pub total_score: u64,
    pub sample: EvaluationResponse,
}

/// `std::time::Instant`, carried through the benchmark loop as an opaque value.
#[verifier::external_type_specification]
#[verifier::external_body]
pub struct ExInstant(Instant);

/// `Instant::now`: a reading of the monotonic clock. Nothing is stated of it.
#[verifier::external_body]
fn clock_now() -> (r: Instant) {
    Instant::now()
}

/// `Instant::elapsed`: the time since `started`. It depends on the clock, so
/// nothing is stated of it.
#[verifier::external_body]
fn clock_elapsed(started: &Instant) -> (r: Duration) {
    started.elapsed()
}

/// `Duration::as_micros`: whole microseconds of a duration, which Verus sees
/// as opaque, so nothing is stated of the number.
#[verifier::external_body]
fn duration_micros(d: &Duration) -> (r: u128) {
    d.as_micros()
}

/// A microsecond count as `u64`, saturating at `u64::MAX`.
pub fn saturating_micros(m: u128) -> (r: u64)
    ensures
        r == if m <= u64::MAX { m as int } else { u64::MAX as int },
{
    if m <= 0xffff_ffff_ffff_ffffu128 {
        m as u64
    } else {
        u64::MAX
    }
}

/// Microseconds since `started`, saturating at `u64::MAX`.
fn micros_since(started: &Instant) -> (r: u64) {
    let d = clock_elapsed(started);
    saturating_micros(duration_micros(&d))
}

/// The least of a list of readings (`u64::MAX` for none).
pub open spec fn micros_min(s: Seq<u64>) -> u64
    decreases s.len(),
{
    if s.len() == 0 {
        u64::MAX
    } else if s.last() < micros_min(s.drop_last()) {
        s.last()
    } else {
        micros_min(s.drop_last())
    }
}

/// The greatest of a list of readings (0 for none).
pub open spec fn micros_max(s: Seq<u64>) -> u64
    decreases s.len(),
{
    if s.len() == 0 {
        0
    } else if s.last() > micros_max(s.drop_last()) {
        s.last()
    } else {
        micros_max(s.drop_last())
    }
}

/// The sum of a list of readings.
pub open spec fn micros_sum(s: Seq<u64>) -> int
    decreases s.len(),
{
    if s.len() == 0 {
        0
    } else {
        micros_sum(s.drop_last()) + s.last()
    }
}

/// The least, greatest and total of a list of readings.
pub open spec fn timing_tally(s: Seq<u64>) -> (u64, u64, int) {
    (micros_min(s), micros_max(s), micros_sum(s))
}

/// Of a nonempty list of readings, the least and greatest are readings of
/// the list, every reading lies between them, and the total lies between
/// the least and the greatest times the count.
pub proof fn lemma_timing_tally(s: Seq<u64>)
    ensures
        0 <= micros_sum(s) <= s.len() * u64::MAX,
        s.len() > 0 ==> {
            &&& exists|i: int| 0 <= i < s.len() && s[i] == micros_min(s)
            &&& exists|i: int| 0 <= i < s.len() && s[i] == micros_max(s)
            &&& forall|i: int| 0 <= i < s.len() ==> micros_min(s) <= #[trigger] s[i] <= micros_max(s)
            &&& micros_min(s) * s.len() <= micros_sum(s) <= micros_max(s) * s.len()
        },
    decreases s.len(),
{
    if s.len() > 0 {
        let t = s.drop_last();
        lemma_timing_tally(t);
        let n = t.len();
        let lo = micros_min(s);
        let hi = micros_max(s);
        if n == 0 {
            assert(s[0] == s.last());
            assert(lo * s.len() == lo && hi * s.len() == hi) by (nonlinear_arith)
                requires s.len() == 1;
        } else {
            assert(forall|i: int| 0 <= i < n ==> #[trigger] s[i] == t[i]);
            let ti = choose|i: int| 0 <= i < t.len() && t[i] == micros_min(t);
            let tj = choose|i: int| 0 <= i < t.len() && t[i] == micros_max(t);
            assert(s[ti] == t[ti]);
            assert(s[tj] == t[tj]);
            assert(lo <= micros_min(t) && micros_max(t) <= hi);
            assert(lo * n <= micros_min(t) * n) by (nonlinear_arith)
                requires lo <= micros_min(t), n >= 0;
            assert(micros_max(t) * n <= hi * n) by (nonlinear_arith)
                requires micros_max(t) <= hi, n >= 0;
            assert(lo * s.len() == lo * n + lo && hi * s.len() == hi * n + hi) by (nonlinear_arith)
                requires s.len() == n + 1;
        }
    }
}

/// The least, greatest and total of the readings: the timing tally of a
/// benchmark.
pub fn tally_micros(readings: &Vec<u64>) -> (r: (u64, u64, u128))
    ensures
        (r.0, r.1, r.2 as int) == timing_tally(readings@),
{
    let mut lo: u64 = u64::MAX;
    let mut hi: u64 = 0;
    let mut total: u128 = 0;
    let mut i: usize = 0;
    while i < readings.len()
        invariant
            i <= readings@.len(),
            (lo, hi, total as int) == timing_tally(readings@.take(i as int)),
        decreases readings@.len() - i,
    {
        let x = readings[i];
        proof {
            assert(readings@.take(i + 1).drop_last() =~= readings@.take(i as int));
            lemma_timing_tally(readings@.take(i as int));
            assert(i * u64::MAX + u64::MAX <= u128::MAX);
        }
        if x < lo {
            lo = x;
        }
        if x > hi {
            hi = x;
        }
        total = total + x as u128;
        i = i + 1;
    }
    assert(readings@.take(readings@.len() as int) =~= readings@);
    (lo, hi, total)
}

/// The benchmark endpoint: checks the iteration count, finds the challenge,
/// scores the request that many times, and tallies timings and scores.
/// Scores are the same on every iteration, so the run is deterministic and
/// the score tallies are exact; the timing tallies are the least, greatest
/// and total of one clock reading per iteration, whose values come from the
/// clock.
pub fn run_benchmark(challenges: &Vec<Challenge>, benchmark: &BenchmarkRequest) -> (r: Result<BenchmarkTally, ApiError>)
    requires
        named_scorable(challenges@, benchmark.request),
    ensures
        match iterations_refusal(benchmark.iterations) {
            Some(m) => (r matches Err(ApiError::BadRequest(e)) && e@ == m),
            None => match r {
                Err(ApiError::BadRequest(m)) => m@ == unknown_challenge_message(benchmark.request.challenge_id@)
                    && forall|j: int| 0 <= j < challenges@.len() ==> (#[trigger] challenges@[j]).id@ != benchmark.request.challenge_id@,
                Ok(t) => (exists|i: int|
                    #[trigger] first_named(challenges@, benchmark.request.challenge_id@, i)
                        && t.sample@ == evaluation(benchmark.request, challenges@[i]@))
                        && t.iterations == benchmark.iterations
                        && t.deterministic
                        && t.min_score == t.sample.composite_score
                        && t.max_score == t.sample.composite_score
                        && t.total_score == t.iterations * t.sample.composite_score
                        && t.min_micros <= t.max_micros
                        && t.min_micros * t.iterations <= t.total_micros <= t.max_micros * t.iterations
                        && exists|readings: Seq<u64>|
                            readings.len() == t.iterations && (#[trigger] timing_tally(readings)) == (
                                t.min_micros,
                                t.max_micros,
                                t.total_micros as int,
                            ),
            },
        },
{
    match validate_iterations(benchmark.iterations) {
        Err(e) => return Err(e),
        Ok(()) => {},
    }
    let challenge = match find_challenge(challenges, benchmark.request.challenge_id.as_str()) {
        Ok(c) => c,
        Err(e) => return Err(e),
    };
    proof {
        lemma_found_is_first_named(challenges@, benchmark.request.challenge_id@, *challenge);
    }
    let ghost expected = evaluation(benchmark.request, challenge@);
    let n = benchmark.iterations;
    let mut readings: Vec<u64> = Vec::new();
    let mut min_score: u32 = u32::MAX;
    let mut max_score: u32 = 0;
    let mut total_score: u64 = 0;
    let mut sample: Option<EvaluationResponse> = None;
    let mut deterministic = true;
    let mut k: u32 = 0;
    while k < n
        invariant
            1 <= n <= MAX_BENCHMARK_ITERATIONS,
            k <= n,
            scorable(benchmark.request, challenge@),
            expected == evaluation(benchmark.request, challenge@),
            deterministic,
            readings@.len() == k,
            k == 0 ==> sample is None && min_score == u32::MAX && max_score == 0 && total_score == 0,
            k > 0 ==> (sample matches Some(s) && s@ == expected && min_score == s.composite_score
                && max_score == s.composite_score && total_score == k * s.composite_score),
        decreases n - k,
    {
        let started = clock_now();
        let result = evaluate_request(&benchmark.request, challenge);
        let elapsed = micros_since(&started);
        readings.push(elapsed);
        let score = result.composite_score;
        if score < min_score {
            min_score = score;
        }
        if score > max_score {
            max_score = score;
        }
        proof {
            if k > 0 {
                let s0 = sample->Some_0;
                assert(result@ == s0@);
            }
            assert(total_score == k * score);
            assert(score * (k + 1) == k * score + score) by (nonlinear_arith);
            assert(score * (k + 1) <= u32::MAX * 50000) by (nonlinear_arith)
                requires score <= u32::MAX, k + 1 <= 50000;
        }
        total_score = total_score + score as u64;
        match &sample {
            Some(first) => {
                deterministic = deterministic && same_evaluation(first, &result);
            },
            None => {
                sample = Some(result);
            },
        }
        proof {
            assert(sample matches Some(s0) && s0@ == expected);
            assert(min_score == score && max_score == score);
            assert(total_score == (k + 1) * score) by (nonlinear_arith)
                requires total_score == k * score + score;
        }
        k = k + 1;
    }
    let (min_micros, max_micros, total_micros) = tally_micros(&readings);
    proof {
        lemma_timing_tally(readings@);
        assert(timing_tally(readings@) == (min_micros, max_micros, total_micros as int));
    }
    match sample {
        Some(s) => Ok(
            BenchmarkTally {
                iterations: n,
                deterministic,
                min_micros,
                max_micros,
                total_micros,
                min_score,
                max_score,
                total_score,
                sample: s,
            },
        ),
        None => Err(ApiError::BadRequest("benchmark execution produced no sample".to_owned())),
    }
}

} // verus!
