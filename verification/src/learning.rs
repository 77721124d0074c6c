//! Learning modes and the pedagogical lessons attached to each pipeline.
use crate::text::{eq_ignore_ascii_case, eq_ignoring_ascii_case, text_eq, trim_str, trimmed};
use vstd::prelude::*;

verus! {

/// How much depth a learner asks for.
#[derive(Debug, Clone, Copy, PartialEq, Eq, Structural)]
pub enum LearningMode {
    Story,
    Explorer,
    Research,
}

impl Default for LearningMode {
    /// Explorer mode.
    fn default() -> (r: LearningMode)
        ensures
            r == LearningMode::Explorer,
    {
        LearningMode::Explorer
    }
}

/// The mode a query value names, if any: the value, trimmed of Unicode
/// whitespace, equals one of the three query words up to ASCII case.
pub open spec fn mode_named(value: Seq<char>) -> Option<LearningMode> {
    let t = trimmed(value);
    if eq_ignoring_ascii_case(t, "story"@) {
        Some(LearningMode::Story)
    } else if eq_ignoring_ascii_case(t, "explorer"@) {
        Some(LearningMode::Explorer)
    } else if eq_ignoring_ascii_case(t, "research"@) {
        Some(LearningMode::Research)
    } else {
        None
    }
}

/// The query word of a mode.
pub open spec fn query_word(mode: LearningMode) -> Seq<char> {
    match mode {
        LearningMode::Story => "story"@,
        LearningMode::Explorer => "explorer"@,
        LearningMode::Research => "research"@,
    }
}

/// The display label of a mode.
pub open spec fn mode_label(mode: LearningMode) -> Seq<char> {
    match mode {
        LearningMode::Story => "Story"@,
        LearningMode::Explorer => "Explorer"@,
        LearningMode::Research => "Research"@,
    }
}

impl LearningMode {
    /// Reads a mode from a query value; `None` when no mode is named.
    pub fn from_query_value(value: &str) -> (r: Option<LearningMode>)
        ensures
            r == mode_named(value@),
    {
        let t = trim_str(value);
        if eq_ignore_ascii_case(t, "story") {
            Some(LearningMode::Story)
        } else if eq_ignore_ascii_case(t, "explorer") {
            Some(LearningMode::Explorer)
        } else if eq_ignore_ascii_case(t, "research") {
            Some(LearningMode::Research)
        } else {
            None
        }
    }

    /// Reads an optional query value; anything missing or unknown is Explorer.
    pub fn from_optional_query(value: Option<&str>) -> (r: LearningMode)
        ensures
            r == (match value {
                Some(v) => match mode_named(v@) {
                    Some(m) => m,
                    None => LearningMode::Explorer,
                },
                None => LearningMode::Explorer,
            }),
    {
        match value {
            Some(v) => match LearningMode::from_query_value(v) {
                Some(m) => m,
                None => LearningMode::Explorer,
            },
            None => LearningMode::Explorer,
        }
    }

    /// The lower-case word that names the mode in a query.
    pub fn as_query_value(self) -> (r: &'static str)
        ensures
            r@ == query_word(self),
    {
        match self {
            LearningMode::Story => "story",
            LearningMode::Explorer => "explorer",
            LearningMode::Research => "research",
        }
    }

    /// The capitalised label of the mode.
    pub fn label(self) -> (r: &'static str)
        ensures
            r@ == mode_label(self),
    {
        match self {
            LearningMode::Story => "Story",
            LearningMode::Explorer => "Explorer",
            LearningMode::Research => "Research",
        }
    }
}

/// A link from a lesson to an artifact or a reference.
#[derive(Debug, Clone, PartialEq, Eq)]
pub struct LessonLink {
    pub label: String,
    pub uri: String,
    pub link_type: String,
}

/// A link as three texts.
pub struct LinkView {
    pub label: Seq<char>,
    pub uri: Seq<char>,
    pub link_type: Seq<char>,
}

/// The link with the given texts.
pub open spec fn link_view(label: Seq<char>, uri: Seq<char>, link_type: Seq<char>) -> LinkView {
    LinkView { label, uri, link_type }
}

impl View for LessonLink {
    type V = LinkView;

    open spec fn view(&self) -> LinkView {
        link_view(self.label@, self.uri@, self.link_type@)
    }
}

/// The lesson shown beside a pipeline in each learning mode.
#[derive(Debug, Clone, PartialEq, Eq)]
pub struct PipelineLesson {
    pub pipeline_id: String,
    pub summary: String,
    pub story_summary: String,
    pub analogy: String,
    pub story_activity: String,
    pub equation: String,
    pub equation_walkthrough: Vec<String>,
    pub derivation_steps: Vec<String>,
    pub assumptions: Vec<String>,
    pub research_questions: Vec<String>,
    pub proof_sketch: String,
    pub visual_guidance: String,
    pub artifact_guidance: String,
    pub artifact_links: Vec<LessonLink>,
    pub reference_links: Vec<LessonLink>,
}

/// A lesson as texts, lists of texts and lists of links.
pub struct LessonView {
    pub pipeline_id: Seq<char>,
    pub summary: Seq<char>,
    pub story_summary: Seq<char>,
    pub analogy: Seq<char>,
    pub story_activity: Seq<char>,
    pub equation: Seq<char>,
    pub equation_walkthrough: Seq<Seq<char>>,
    pub derivation_steps: Seq<Seq<char>>,
    pub assumptions: Seq<Seq<char>>,
    pub research_questions: Seq<Seq<char>>,
    pub proof_sketch: Seq<char>,
    pub visual_guidance: Seq<char>,
    pub artifact_guidance: Seq<char>,
    pub artifact_links: Seq<LinkView>,
    pub reference_links: Seq<LinkView>,
}

/// The texts of a list of strings.
pub open spec fn strings_view(s: Seq<String>) -> Seq<Seq<char>> {
    s.map_values(|x: String| x@)
}

/// The views of a list of links.
pub open spec fn links_view(s: Seq<LessonLink>) -> Seq<LinkView> {
    s.map_values(|x: LessonLink| x@)
}

impl View for PipelineLesson {
    type V = LessonView;

    open spec fn view(&self) -> LessonView {
        LessonView {
            pipeline_id: self.pipeline_id@,
            summary: self.summary@,
            story_summary: self.story_summary@,
            analogy: self.analogy@,
            story_activity: self.story_activity@,
            equation: self.equation@,
            equation_walkthrough: strings_view(self.equation_walkthrough@),
            derivation_steps: strings_view(self.derivation_steps@),
            assumptions: strings_view(self.assumptions@),
            research_questions: strings_view(self.research_questions@),
            proof_sketch: self.proof_sketch@,
            visual_guidance: self.visual_guidance@,
            artifact_guidance: self.artifact_guidance@,
            artifact_links: links_view(self.artifact_links@),
            reference_links: links_view(self.reference_links@),
        }
    }
}

/// Reading back a mode's query word or its label gives the mode again:
/// the words written out are the words read in.
pub proof fn lemma_mode_words_round_trip(mode: LearningMode)
    ensures
        mode_named(query_word(mode)) == Some(mode),
        mode_named(mode_label(mode)) == Some(mode),
{
    reveal_strlit("story");
    reveal_strlit("explorer");
    reveal_strlit("research");
    reveal_strlit("Story");
    reveal_strlit("Explorer");
    reveal_strlit("Research");
    let w = query_word(mode);
    let l = mode_label(mode);
    assert(trimmed(w) =~= w);
    assert(trimmed(l) =~= l);
    match mode {
        LearningMode::Story => {
            assert(eq_ignoring_ascii_case(l, "story"@));
        },
        LearningMode::Explorer => {
            assert(!eq_ignoring_ascii_case(w, "story"@));
            assert(!eq_ignoring_ascii_case(l, "story"@));
            assert(eq_ignoring_ascii_case(l, "explorer"@));
        },
        LearningMode::Research => {
            assert(!eq_ignoring_ascii_case(w, "story"@));
            assert(!eq_ignoring_ascii_case(l, "story"@));
            assert(ascii_lower_differs(w, "explorer"@, 0));
            assert(ascii_lower_differs(l, "explorer"@, 0));
            assert(eq_ignoring_ascii_case(l, "research"@));
        },
    }
}

/// Whether two texts differ, ignoring ASCII case, at position `i`.
spec fn ascii_lower_differs(a: Seq<char>, b: Seq<char>, i: int) -> bool {
    crate::text::ascii_lower(a[i]) != crate::text::ascii_lower(b[i])
}

/// Every lesson, whatever the pipeline, types its artifact links as
/// `artifact` and its reference links as `reference`.
pub proof fn lemma_lesson_links_typed(pipeline_id: Seq<char>)
    ensures
        forall|i: int|
            0 <= i < lesson_content(pipeline_id).artifact_links.len() ==> (#[trigger] lesson_content(
                pipeline_id,
            ).artifact_links[i]).link_type == "artifact"@,
        forall|i: int|
            0 <= i < lesson_content(pipeline_id).reference_links.len() ==> (#[trigger] lesson_content(
                pipeline_id,
            ).reference_links[i]).link_type == "reference"@,
        lesson_content(pipeline_id).artifact_links.len() > 0,
        lesson_content(pipeline_id).reference_links.len() > 0,
{
}

/// A link to a project artifact.
fn artifact(label: &str, uri: &str) -> (r: LessonLink)
    ensures
        r@ == link_view(label@, uri@, "artifact"@),
{
    LessonLink { label: label.to_owned(), uri: uri.to_owned(), link_type: "artifact".to_owned() }
}

/// A link to outside reading.
fn reference(label: &str, uri: &str) -> (r: LessonLink)
    ensures
        r@ == link_view(label@, uri@, "reference"@),
{
    LessonLink { label: label.to_owned(), uri: uri.to_owned(), link_type: "reference".to_owned() }
}

/// The lesson a pipeline id selects.
pub open spec fn lesson_content(pipeline_id: Seq<char>) -> LessonView {
    if pipeline_id == "thesis-1"@ {
        thesis_1_content()
    } else if pipeline_id == "thesis-2"@ {
        thesis_2_content()
    } else if pipeline_id == "thesis-3"@ {
        thesis_3_content()
    } else if pipeline_id == "thesis-4"@ {
        thesis_4_content()
    } else {
        fallback_content(pipeline_id)
    }
}

/// The lesson for a pipeline: one of the four thesis lessons, or the general
/// lesson carrying the given id.
pub fn lesson_for_pipeline(pipeline_id: &str) -> (r: PipelineLesson)
    ensures
        r@ == lesson_content(pipeline_id@),
{
    if text_eq(pipeline_id, "thesis-1") {
        thesis_1_lesson()
    } else if text_eq(pipeline_id, "thesis-2") {
        thesis_2_lesson()
    } else if text_eq(pipeline_id, "thesis-3") {
        thesis_3_lesson()
    } else if text_eq(pipeline_id, "thesis-4") {
        thesis_4_lesson()
    } else {
        fallback_lesson(pipeline_id)
    }
}

/// The content of `thesis_1_lesson`.
pub open spec fn thesis_1_content() -> LessonView {
    LessonView {
        pipeline_id: "thesis-1"@,
        summary: "Signal coupling tracks whether rank relationships remain stable as viscosity constraints tighten."@,
        story_summary: "Imagine two dancers keeping the same rhythm even when the floor gets sticky; this pipeline checks if the rhythm still lines up."@,
        analogy: "Treat each run as a duet where both dancers should keep rank order even as friction changes."@,
        story_activity: "Sort 8 cards by height with a classmate, then repeat after swapping two cards; count how many positions changed."@,
        equation: "rho = 1 - (6 * sum(d_i^2)) / (n * (n^2 - 1))"@,
        proof_sketch: "If monotonic ordering is preserved under constrained viscosity, the rank displacement sum remains small, so rho stays near 1 and passes the \
            gate."@,
        visual_guidance: "Overlay ranked trajectories and shade segments where rank inversions occur."@,
        artifact_guidance: "Compare run reports and keep the rank-delta table beside the final gate decision."@,
        equation_walkthrough: seq!["rho is Spearman rank correlation: 1 means identical order, 0 means weak rank relation, -1 means opposite order."@, "d_i is the rank gap for pair i, so large gaps penalize rho quadratically."@, "The denominator n * (n^2 - 1) normalizes scale so different sample sizes remain comparable."@],
        derivation_steps: seq!["Rank both signals over the same observation window."@, "Compute rank gaps d_i between paired observations."@, "Square and sum d_i values, then normalize by n * (n^2 - 1)."@, "Subtract the normalized term from 1 to obtain Spearman rho."@],
        assumptions: seq!["Samples are paired and represent the same timeline."@, "Rank ties are either absent or consistently tie-corrected."@, "Noise does not dominate ordering across the full window."@],
        research_questions: seq!["How sensitive is rho to tie-correction strategy under identical raw samples?"@, "Does rho remain stable when the observation window is downsampled by 2x and 4x?"@],
        artifact_links: seq![link_view("Pipeline registry entry"@, "open_gororoba/registry/pipelines.toml"@, "artifact"@), link_view("Claims-evidence matrix"@, "open_gororoba/CLAIMS_EVIDENCE_MATRIX.md"@, "artifact"@)],
        reference_links: seq![link_view("Spearman rank correlation (NIST handbook)"@, "https://www.itl.nist.gov/div898/software/dataplot/refman2/auxillar/spearman.htm"@, "reference"@), link_view("Rank correlation overview"@, "https://en.wikipedia.org/wiki/Rank_correlation"@, "reference"@)],
    }
}

/// The lesson for thesis 1: signal coupling (Spearman rank correlation).
pub fn thesis_1_lesson() -> (r: PipelineLesson)
    ensures
        r@ == thesis_1_content(),
{
    let mut equation_walkthrough: Vec<String> = Vec::new();
    equation_walkthrough.push("rho is Spearman rank correlation: 1 means identical order, 0 means weak rank relation, -1 means opposite order.".to_owned());
    equation_walkthrough.push("d_i is the rank gap for pair i, so large gaps penalize rho quadratically.".to_owned());
    equation_walkthrough.push("The denominator n * (n^2 - 1) normalizes scale so different sample sizes remain comparable.".to_owned());
    let mut derivation_steps: Vec<String> = Vec::new();
    derivation_steps.push("Rank both signals over the same observation window.".to_owned());
    derivation_steps.push("Compute rank gaps d_i between paired observations.".to_owned());
    derivation_steps.push("Square and sum d_i values, then normalize by n * (n^2 - 1).".to_owned());
    derivation_steps.push("Subtract the normalized term from 1 to obtain Spearman rho.".to_owned());
    let mut assumptions: Vec<String> = Vec::new();
    assumptions.push("Samples are paired and represent the same timeline.".to_owned());
    assumptions.push("Rank ties are either absent or consistently tie-corrected.".to_owned());
    assumptions.push("Noise does not dominate ordering across the full window.".to_owned());
    let mut research_questions: Vec<String> = Vec::new();
    research_questions.push("How sensitive is rho to tie-correction strategy under identical raw samples?".to_owned());
    research_questions.push("Does rho remain stable when the observation window is downsampled by 2x and 4x?".to_owned());
    let mut artifact_links: Vec<LessonLink> = Vec::new();
    artifact_links.push(artifact("Pipeline registry entry", "open_gororoba/registry/pipelines.toml"));
    artifact_links.push(artifact("Claims-evidence matrix", "open_gororoba/CLAIMS_EVIDENCE_MATRIX.md"));
    let mut reference_links: Vec<LessonLink> = Vec::new();
    reference_links.push(reference("Spearman rank correlation (NIST handbook)", "https://www.itl.nist.gov/div898/software/dataplot/refman2/auxillar/spearman.htm"));
    reference_links.push(reference("Rank correlation overview", "https://en.wikipedia.org/wiki/Rank_correlation"));
    let r = PipelineLesson {
        pipeline_id: "thesis-1".to_owned(),
        summary: "Signal coupling tracks whether rank relationships remain stable as viscosity constraints tighten.".to_owned(),
        story_summary: "Imagine two dancers keeping the same rhythm even when the floor gets sticky; this pipeline checks if the rhythm still lines up.".to_owned(),
        analogy: "Treat each run as a duet where both dancers should keep rank order even as friction changes.".to_owned(),
        story_activity: "Sort 8 cards by height with a classmate, then repeat after swapping two cards; count how many positions changed.".to_owned(),
        equation: "rho = 1 - (6 * sum(d_i^2)) / (n * (n^2 - 1))".to_owned(),
        proof_sketch: "If monotonic ordering is preserved under constrained viscosity, the rank displacement sum remains small, so rho stays near 1 and passes the \
            gate.".to_owned(),
        visual_guidance: "Overlay ranked trajectories and shade segments where rank inversions occur.".to_owned(),
        artifact_guidance: "Compare run reports and keep the rank-delta table beside the final gate decision.".to_owned(),
        equation_walkthrough,
        derivation_steps,
        assumptions,
        research_questions,
        artifact_links,
        reference_links,
    };
    assert(strings_view(r.equation_walkthrough@) =~= thesis_1_content().equation_walkthrough);
    assert(strings_view(r.derivation_steps@) =~= thesis_1_content().derivation_steps);
    assert(strings_view(r.assumptions@) =~= thesis_1_content().assumptions);
    assert(strings_view(r.research_questions@) =~= thesis_1_content().research_questions);
    assert(links_view(r.artifact_links@) =~= thesis_1_content().artifact_links);
    assert(links_view(r.reference_links@) =~= thesis_1_content().reference_links);
    r
}

/// The content of `thesis_2_lesson`.
pub open spec fn thesis_2_content() -> LessonView {
    LessonView {
        pipeline_id: "thesis-2"@,
        summary: "Thickening sweep estimates how response viscosity scales with strain-rate changes across profiles."@,
        story_summary: "Like stirring syrup faster and feeling it resist more, this pipeline measures how much harder the fluid pushes back."@,
        analogy: "Think of a gearbox that stiffens as you spin the handle faster."@,
        story_activity: "Mix cornstarch and water in a cup, then tap slowly versus quickly and compare the resistance you feel."@,
        equation: "eta_ratio = eta(strain_high) / eta(strain_low)"@,
        proof_sketch: "For shear-thickening behavior, eta increases with strain rate, forcing eta_ratio above 1; stable runs keep this ratio consistently above the configured gate."@,
        visual_guidance: "Plot eta against strain rate and annotate slope changes near the transition region."@,
        artifact_guidance: "Store per-iteration eta pairs and include a ratio histogram in the benchmark artifact."@,
        equation_walkthrough: seq!["eta is effective viscosity estimated from measured stress and strain rate."@, "A ratio greater than 1 indicates shear thickening behavior."@, "A ratio near 1 indicates near-Newtonian behavior for the tested band."@],
        derivation_steps: seq!["Estimate viscosity at a lower reference strain rate."@, "Estimate viscosity at a higher strain rate under the same setup."@, "Form the ratio eta_high over eta_low to quantify thickening."@, "Aggregate ratios across iterations and compare against threshold."@],
        assumptions: seq!["Temperature and composition remain fixed per sweep."@, "The estimator for eta is calibrated across both strain rates."@, "Boundary effects are negligible for selected sample windows."@],
        research_questions: seq!["Is eta_ratio robust under bootstrap resampling of stress-strain samples?"@, "At what strain-rate interval does eta_ratio transition from neutral to clearly thickening?"@],
        artifact_links: seq![link_view("Experiment manifests"@, "open_gororoba/registry/experiments.toml"@, "artifact"@), link_view("Benchmark outputs lane"@, "open_gororoba/artifacts/"@, "artifact"@)],
        reference_links: seq![link_view("Shear thickening review (arXiv)"@, "https://arxiv.org/abs/1307.0269"@, "reference"@), link_view("Viscosity and rheology handbook reference (NIST)"@, "https://www.itl.nist.gov/div898/handbook/prc/section2/prc252.htm"@, "reference"@)],
    }
}

/// The lesson for thesis 2: the thickening sweep (viscosity ratio).
pub fn thesis_2_lesson() -> (r: PipelineLesson)
    ensures
        r@ == thesis_2_content(),
{
    let mut equation_walkthrough: Vec<String> = Vec::new();
    equation_walkthrough.push("eta is effective viscosity estimated from measured stress and strain rate.".to_owned());
    equation_walkthrough.push("A ratio greater than 1 indicates shear thickening behavior.".to_owned());
    equation_walkthrough.push("A ratio near 1 indicates near-Newtonian behavior for the tested band.".to_owned());
    let mut derivation_steps: Vec<String> = Vec::new();
    derivation_steps.push("Estimate viscosity at a lower reference strain rate.".to_owned());
    derivation_steps.push("Estimate viscosity at a higher strain rate under the same setup.".to_owned());
    derivation_steps.push("Form the ratio eta_high over eta_low to quantify thickening.".to_owned());
    derivation_steps.push("Aggregate ratios across iterations and compare against threshold.".to_owned());
    let mut assumptions: Vec<String> = Vec::new();
    assumptions.push("Temperature and composition remain fixed per sweep.".to_owned());
    assumptions.push("The estimator for eta is calibrated across both strain rates.".to_owned());
    assumptions.push("Boundary effects are negligible for selected sample windows.".to_owned());
    let mut research_questions: Vec<String> = Vec::new();
    research_questions.push("Is eta_ratio robust under bootstrap resampling of stress-strain samples?".to_owned());
    research_questions.push("At what strain-rate interval does eta_ratio transition from neutral to clearly thickening?".to_owned());
    let mut artifact_links: Vec<LessonLink> = Vec::new();
    artifact_links.push(artifact("Experiment manifests", "open_gororoba/registry/experiments.toml"));
    artifact_links.push(artifact("Benchmark outputs lane", "open_gororoba/artifacts/"));
    let mut reference_links: Vec<LessonLink> = Vec::new();
    reference_links.push(reference("Shear thickening review (arXiv)", "https://arxiv.org/abs/1307.0269"));
    reference_links.push(reference("Viscosity and rheology handbook reference (NIST)", "https://www.itl.nist.gov/div898/handbook/prc/section2/prc252.htm"));
    let r = PipelineLesson {
        pipeline_id: "thesis-2".to_owned(),
        summary: "Thickening sweep estimates how response viscosity scales with strain-rate changes across profiles.".to_owned(),
        story_summary: "Like stirring syrup faster and feeling it resist more, this pipeline measures how much harder the fluid pushes back.".to_owned(),
        analogy: "Think of a gearbox that stiffens as you spin the handle faster.".to_owned(),
        story_activity: "Mix cornstarch and water in a cup, then tap slowly versus quickly and compare the resistance you feel.".to_owned(),
        equation: "eta_ratio = eta(strain_high) / eta(strain_low)".to_owned(),
        proof_sketch: "For shear-thickening behavior, eta increases with strain rate, forcing eta_ratio above 1; stable runs keep this ratio consistently above the configured gate.".to_owned(),
        visual_guidance: "Plot eta against strain rate and annotate slope changes near the transition region.".to_owned(),
        artifact_guidance: "Store per-iteration eta pairs and include a ratio histogram in the benchmark artifact.".to_owned(),
        equation_walkthrough,
        derivation_steps,
        assumptions,
        research_questions,
        artifact_links,
        reference_links,
    };
    assert(strings_view(r.equation_walkthrough@) =~= thesis_2_content().equation_walkthrough);
    assert(strings_view(r.derivation_steps@) =~= thesis_2_content().derivation_steps);
    assert(strings_view(r.assumptions@) =~= thesis_2_content().assumptions);
    assert(strings_view(r.research_questions@) =~= thesis_2_content().research_questions);
    assert(links_view(r.artifact_links@) =~= thesis_2_content().artifact_links);
    assert(links_view(r.reference_links@) =~= thesis_2_content().reference_links);
    r
}

/// The content of `thesis_3_lesson`.
pub open spec fn thesis_3_content() -> LessonView {
    LessonView {
        pipeline_id: "thesis-3"@,
        summary: "Boundary persistence tracks whether flow structures survive perturbations near edge conditions."@,
        story_summary: "Picture chalk lines near the edge of a table; this checks if the lines stay visible after repeated bumps."@,
        analogy: "Boundary features are footprints in wet sand that should remain readable after light waves."@,
        story_activity: "Draw six chalk marks near a desk edge and gently brush the edge five times, then count how many marks remain visible."@,
        equation: "persistence = retained_features / initial_features"@,
        proof_sketch: "If boundary dynamics are resilient, perturbations remove only a small share of features, so retained over initial remains high and the \
            gate stays consistent."@,
        visual_guidance: "Use before-and-after edge maps with highlighted dropped features."@,
        artifact_guidance: "Archive detector masks and a compact table of retained feature counts per cycle."@,
        equation_walkthrough: seq!["initial_features counts structures at baseline before perturbation."@, "retained_features counts structures that remain detectable after perturbation cycles."@, "The ratio gives a normalized survivability score in [0, 1]."@],
        derivation_steps: seq!["Count detectable features at baseline."@, "Apply controlled perturbation cycles."@, "Recount features that remain above detection threshold."@, "Compute retained over initial as persistence score."@],
        assumptions: seq!["Feature detector threshold is stable across runs."@, "Perturbation intensity is reproducible per profile."@, "Feature loss is primarily due to boundary dynamics, not sensor drift."@],
        research_questions: seq!["How does persistence change under threshold sweeps for the feature detector?"@, "Does persistence remain invariant under equivalent perturbation energy applied in fewer versus more cycles?"@],
        artifact_links: seq![link_view("Visualization lane inputs"@, "open_gororoba/docs/visualization/"@, "artifact"@), link_view("Boundary experiment notes"@, "open_gororoba/docs/research/"@, "artifact"@)],
        reference_links: seq![link_view("Boundary layer fundamentals (NASA)"@, "https://www.grc.nasa.gov/www/k-12/airplane/boundlay.html"@, "reference"@), link_view("Feature detection robustness (OpenCV docs)"@, "https://docs.opencv.org/4.x/d5/d51/group__features2d__main.html"@, "reference"@)],
    }
}

/// The lesson for thesis 3: boundary persistence.
pub fn thesis_3_lesson() -> (r: PipelineLesson)
    ensures
        r@ == thesis_3_content(),
{
    let mut equation_walkthrough: Vec<String> = Vec::new();
    equation_walkthrough.push("initial_features counts structures at baseline before perturbation.".to_owned());
    equation_walkthrough.push("retained_features counts structures that remain detectable after perturbation cycles.".to_owned());
    equation_walkthrough.push("The ratio gives a normalized survivability score in [0, 1].".to_owned());
    let mut derivation_steps: Vec<String> = Vec::new();
    derivation_steps.push("Count detectable features at baseline.".to_owned());
    derivation_steps.push("Apply controlled perturbation cycles.".to_owned());
    derivation_steps.push("Recount features that remain above detection threshold.".to_owned());
    derivation_steps.push("Compute retained over initial as persistence score.".to_owned());
    let mut assumptions: Vec<String> = Vec::new();
    assumptions.push("Feature detector threshold is stable across runs.".to_owned());
    assumptions.push("Perturbation intensity is reproducible per profile.".to_owned());
    assumptions.push("Feature loss is primarily due to boundary dynamics, not sensor drift.".to_owned());
    let mut research_questions: Vec<String> = Vec::new();
    research_questions.push("How does persistence change under threshold sweeps for the feature detector?".to_owned());
    research_questions.push("Does persistence remain invariant under equivalent perturbation energy applied in fewer versus more cycles?".to_owned());
    let mut artifact_links: Vec<LessonLink> = Vec::new();
    artifact_links.push(artifact("Visualization lane inputs", "open_gororoba/docs/visualization/"));
    artifact_links.push(artifact("Boundary experiment notes", "open_gororoba/docs/research/"));
    let mut reference_links: Vec<LessonLink> = Vec::new();
    reference_links.push(reference("Boundary layer fundamentals (NASA)", "https://www.grc.nasa.gov/www/k-12/airplane/boundlay.html"));
    reference_links.push(reference("Feature detection robustness (OpenCV docs)", "https://docs.opencv.org/4.x/d5/d51/group__features2d__main.html"));
    let r = PipelineLesson {
        pipeline_id: "thesis-3".to_owned(),
        summary: "Boundary persistence tracks whether flow structures survive perturbations near edge conditions.".to_owned(),
        story_summary: "Picture chalk lines near the edge of a table; this checks if the lines stay visible after repeated bumps.".to_owned(),
        analogy: "Boundary features are footprints in wet sand that should remain readable after light waves.".to_owned(),
        story_activity: "Draw six chalk marks near a desk edge and gently brush the edge five times, then count how many marks remain visible.".to_owned(),
        equation: "persistence = retained_features / initial_features".to_owned(),
        proof_sketch: "If boundary dynamics are resilient, perturbations remove only a small share of features, so retained over initial remains high and the \
            gate stays consistent.".to_owned(),
        visual_guidance: "Use before-and-after edge maps with highlighted dropped features.".to_owned(),
        artifact_guidance: "Archive detector masks and a compact table of retained feature counts per cycle.".to_owned(),
        equation_walkthrough,
        derivation_steps,
        assumptions,
        research_questions,
        artifact_links,
        reference_links,
    };
    assert(strings_view(r.equation_walkthrough@) =~= thesis_3_content().equation_walkthrough);
    assert(strings_view(r.derivation_steps@) =~= thesis_3_content().derivation_steps);
    assert(strings_view(r.assumptions@) =~= thesis_3_content().assumptions);
    assert(strings_view(r.research_questions@) =~= thesis_3_content().research_questions);
    assert(links_view(r.artifact_links@) =~= thesis_3_content().artifact_links);
    assert(links_view(r.reference_links@) =~= thesis_3_content().reference_links);
    r
}

/// The content of `thesis_4_lesson`.
pub open spec fn thesis_4_content() -> LessonView {
    LessonView {
        pipeline_id: "thesis-4"@,
        summary: "Convergence envelope quantifies how quickly iterative estimates settle within a target tolerance."@,
        story_summary: "Imagine tuning a radio until the static fades; this pipeline asks how many turns it takes before the sound is clean enough."@,
        analogy: "Each iteration is another lens adjustment that should shrink blur toward a sharp focus."@,
        story_activity: "Estimate the same quantity five times in a row and track how quickly your answers bunch inside a small acceptable band."@,
        equation: "error_k = |estimate_k - target|, converge when error_k <= epsilon"@,
        proof_sketch: "When the update map is contractive near the target, error_k decreases geometrically; once below epsilon, subsequent errors stay bounded and demonstrate convergence."@,
        visual_guidance: "Render error-versus-iteration curves with the epsilon band shaded."@,
        artifact_guidance: "Persist per-iteration error traces and include the first-hit index for epsilon."@,
        equation_walkthrough: seq!["error_k is the absolute distance between the current estimate and the target."@, "epsilon sets the acceptance band based on domain tolerance."@, "Convergence requires both entering and staying inside the epsilon band."@],
        derivation_steps: seq!["Compute absolute error for each iteration against target."@, "Track the first iteration where error falls below epsilon."@, "Measure whether later iterations stay within the envelope."@, "Report convergence speed and stability over the run set."@],
        assumptions: seq!["Target value is trustworthy for the current scenario."@, "Iteration update rule is deterministic for fixed seeds."@, "Tolerance epsilon reflects practical acceptance criteria."@],
        research_questions: seq!["Is the observed convergence rate linear, sublinear, or geometric across profiles?"@, "How does convergence break when epsilon is tightened by one order of magnitude?"@],
        artifact_links: seq![link_view("Convergence benchmark outputs"@, "open_gororoba/artifacts/benchmarks/"@, "artifact"@), link_view("Pipeline registry and thresholds"@, "open_gororoba/registry/pipelines.toml"@, "artifact"@)],
        reference_links: seq![link_view("Contraction mapping theorem notes"@, "https://mathworld.wolfram.com/BanachFixedPointTheorem.html"@, "reference"@), link_view("Numerical convergence basics (Stanford EE364A notes)"@, "https://web.stanford.edu/class/ee364a/"@, "reference"@)],
    }
}

/// The lesson for thesis 4: the convergence envelope.
pub fn thesis_4_lesson() -> (r: PipelineLesson)
    ensures
        r@ == thesis_4_content(),
{
    let mut equation_walkthrough: Vec<String> = Vec::new();
    equation_walkthrough.push("error_k is the absolute distance between the current estimate and the target.".to_owned());
    equation_walkthrough.push("epsilon sets the acceptance band based on domain tolerance.".to_owned());
    equation_walkthrough.push("Convergence requires both entering and staying inside the epsilon band.".to_owned());
    let mut derivation_steps: Vec<String> = Vec::new();
    derivation_steps.push("Compute absolute error for each iteration against target.".to_owned());
    derivation_steps.push("Track the first iteration where error falls below epsilon.".to_owned());
    derivation_steps.push("Measure whether later iterations stay within the envelope.".to_owned());
    derivation_steps.push("Report convergence speed and stability over the run set.".to_owned());
    let mut assumptions: Vec<String> = Vec::new();
    assumptions.push("Target value is trustworthy for the current scenario.".to_owned());
    assumptions.push("Iteration update rule is deterministic for fixed seeds.".to_owned());
    assumptions.push("Tolerance epsilon reflects practical acceptance criteria.".to_owned());
    let mut research_questions: Vec<String> = Vec::new();
    research_questions.push("Is the observed convergence rate linear, sublinear, or geometric across profiles?".to_owned());
    research_questions.push("How does convergence break when epsilon is tightened by one order of magnitude?".to_owned());
    let mut artifact_links: Vec<LessonLink> = Vec::new();
    artifact_links.push(artifact("Convergence benchmark outputs", "open_gororoba/artifacts/benchmarks/"));
    artifact_links.push(artifact("Pipeline registry and thresholds", "open_gororoba/registry/pipelines.toml"));
    let mut reference_links: Vec<LessonLink> = Vec::new();
    reference_links.push(reference("Contraction mapping theorem notes", "https://mathworld.wolfram.com/BanachFixedPointTheorem.html"));
    reference_links.push(reference("Numerical convergence basics (Stanford EE364A notes)", "https://web.stanford.edu/class/ee364a/"));
    let r = PipelineLesson {
        pipeline_id: "thesis-4".to_owned(),
        summary: "Convergence envelope quantifies how quickly iterative estimates settle within a target tolerance.".to_owned(),
        story_summary: "Imagine tuning a radio until the static fades; this pipeline asks how many turns it takes before the sound is clean enough.".to_owned(),
        analogy: "Each iteration is another lens adjustment that should shrink blur toward a sharp focus.".to_owned(),
        story_activity: "Estimate the same quantity five times in a row and track how quickly your answers bunch inside a small acceptable band.".to_owned(),
        equation: "error_k = |estimate_k - target|, converge when error_k <= epsilon".to_owned(),
        proof_sketch: "When the update map is contractive near the target, error_k decreases geometrically; once below epsilon, subsequent errors stay bounded and demonstrate convergence.".to_owned(),
        visual_guidance: "Render error-versus-iteration curves with the epsilon band shaded.".to_owned(),
        artifact_guidance: "Persist per-iteration error traces and include the first-hit index for epsilon.".to_owned(),
        equation_walkthrough,
        derivation_steps,
        assumptions,
        research_questions,
        artifact_links,
        reference_links,
    };
    assert(strings_view(r.equation_walkthrough@) =~= thesis_4_content().equation_walkthrough);
    assert(strings_view(r.derivation_steps@) =~= thesis_4_content().derivation_steps);
    assert(strings_view(r.assumptions@) =~= thesis_4_content().assumptions);
    assert(strings_view(r.research_questions@) =~= thesis_4_content().research_questions);
    assert(links_view(r.artifact_links@) =~= thesis_4_content().artifact_links);
    assert(links_view(r.reference_links@) =~= thesis_4_content().reference_links);
    r
}

/// The content of `fallback_lesson`.
pub open spec fn fallback_content(pipeline_id: Seq<char>) -> LessonView {
    LessonView {
        pipeline_id: pipeline_id,
        summary: "This pipeline has not been mapped to a thesis-specific lesson yet; use the general validation checklist."@,
        story_summary: "Start with the plain-language checklist: what changed, what stayed stable, and what evidence was saved."@,
        analogy: "Treat this like a lab notebook entry that needs clear observations before theory."@,
        story_activity: "Describe the run in three sentences: what you changed, what you observed, and what evidence you saved."@,
        equation: "score = observed_signal - baseline_signal"@,
        proof_sketch: "A stable positive delta with reproducible artifacts provides preliminary support, while inconsistent deltas indicate the need for deeper diagnostics."@,
        visual_guidance: "Use side-by-side baseline and observed panels with delta annotations."@,
        artifact_guidance: "Bundle run metadata, delta summaries, and reproducibility checks in one folder."@,
        equation_walkthrough: seq!["Compute a baseline reference using the same instrumentation."@, "Measure observed signal after applying the pipeline action."@, "Subtract baseline from observed to get a signed effect estimate."@],
        derivation_steps: seq!["Capture baseline measurements."@, "Run the pipeline under selected profile."@, "Compute observed-minus-baseline deltas."@, "Compare deltas to the declared acceptance threshold."@],
        assumptions: seq!["Baseline and observed runs are comparable."@, "Artifacts are versioned and traceable to the run id."@, "Threshold values are documented for the selected profile."@],
        research_questions: seq!["Which confounders could explain a positive delta besides the intended intervention?"@, "How does the delta distribution evolve over repeated runs and random seeds?"@],
        artifact_links: seq![link_view("General source registry"@, "open_gororoba/registry/"@, "artifact"@), link_view("Experiment evidence matrix"@, "open_gororoba/CLAIMS_EVIDENCE_MATRIX.md"@, "artifact"@)],
        reference_links: seq![link_view("Effect size overview"@, "https://en.wikipedia.org/wiki/Effect_size"@, "reference"@), link_view("Reproducibility principles (NASEM overview)"@, "https://nap.nationalacademies.org/read/25303/chapter/1"@, "reference"@)],
    }
}

/// The general lesson for a pipeline with no lesson of its own.
pub fn fallback_lesson(pipeline_id: &str) -> (r: PipelineLesson)
    ensures
        r@ == fallback_content(pipeline_id@),
{
    let mut equation_walkthrough: Vec<String> = Vec::new();
    equation_walkthrough.push("Compute a baseline reference using the same instrumentation.".to_owned());
    equation_walkthrough.push("Measure observed signal after applying the pipeline action.".to_owned());
    equation_walkthrough.push("Subtract baseline from observed to get a signed effect estimate.".to_owned());
    let mut derivation_steps: Vec<String> = Vec::new();
    derivation_steps.push("Capture baseline measurements.".to_owned());
    derivation_steps.push("Run the pipeline under selected profile.".to_owned());
    derivation_steps.push("Compute observed-minus-baseline deltas.".to_owned());
    derivation_steps.push("Compare deltas to the declared acceptance threshold.".to_owned());
    let mut assumptions: Vec<String> = Vec::new();
    assumptions.push("Baseline and observed runs are comparable.".to_owned());
    assumptions.push("Artifacts are versioned and traceable to the run id.".to_owned());
    assumptions.push("Threshold values are documented for the selected profile.".to_owned());
    let mut research_questions: Vec<String> = Vec::new();
    research_questions.push("Which confounders could explain a positive delta besides the intended intervention?".to_owned());
    research_questions.push("How does the delta distribution evolve over repeated runs and random seeds?".to_owned());
    let mut artifact_links: Vec<LessonLink> = Vec::new();
    artifact_links.push(artifact("General source registry", "open_gororoba/registry/"));
    artifact_links.push(artifact("Experiment evidence matrix", "open_gororoba/CLAIMS_EVIDENCE_MATRIX.md"));
    let mut reference_links: Vec<LessonLink> = Vec::new();
    reference_links.push(reference("Effect size overview", "https://en.wikipedia.org/wiki/Effect_size"));
    reference_links.push(reference("Reproducibility principles (NASEM overview)", "https://nap.nationalacademies.org/read/25303/chapter/1"));
    let r = PipelineLesson {
        pipeline_id: pipeline_id.to_owned(),
        summary: "This pipeline has not been mapped to a thesis-specific lesson yet; use the general validation checklist.".to_owned(),
        story_summary: "Start with the plain-language checklist: what changed, what stayed stable, and what evidence was saved.".to_owned(),
        analogy: "Treat this like a lab notebook entry that needs clear observations before theory.".to_owned(),
        story_activity: "Describe the run in three sentences: what you changed, what you observed, and what evidence you saved.".to_owned(),
        equation: "score = observed_signal - baseline_signal".to_owned(),
        proof_sketch: "A stable positive delta with reproducible artifacts provides preliminary support, while inconsistent deltas indicate the need for deeper diagnostics.".to_owned(),
        visual_guidance: "Use side-by-side baseline and observed panels with delta annotations.".to_owned(),
        artifact_guidance: "Bundle run metadata, delta summaries, and reproducibility checks in one folder.".to_owned(),
        equation_walkthrough,
        derivation_steps,
        assumptions,
        research_questions,
        artifact_links,
        reference_links,
    };
    assert(strings_view(r.equation_walkthrough@) =~= fallback_content(pipeline_id@).equation_walkthrough);
    assert(strings_view(r.derivation_steps@) =~= fallback_content(pipeline_id@).derivation_steps);
    assert(strings_view(r.assumptions@) =~= fallback_content(pipeline_id@).assumptions);
    assert(strings_view(r.research_questions@) =~= fallback_content(pipeline_id@).research_questions);
    assert(links_view(r.artifact_links@) =~= fallback_content(pipeline_id@).artifact_links);
    assert(links_view(r.reference_links@) =~= fallback_content(pipeline_id@).reference_links);
    r
}
} // verus!
