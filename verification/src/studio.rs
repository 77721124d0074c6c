//! The studio front end: its request and page models, and the decisions it
//! makes between the learner, the cache and the backend.
use crate::learning::{lesson_content, lesson_for_pipeline, mode_named, LearningMode, PipelineLesson};
use crate::text::{decimal, decimal_text, parse_u64, text_eq, u64_text_value};
use vstd::prelude::*;

verus! {

/// How thoroughly a pipeline is run.
#[derive(Debug, Clone, Copy, PartialEq, Eq, Structural)]
pub enum RunProfile {
    Quick,
    Full,
}

impl Default for RunProfile {
    /// The quick profile.
    fn default() -> (r: RunProfile)
        ensures
            r == RunProfile::Quick,
    {
        RunProfile::Quick
    }
}

/// The word that names a profile on the wire.
pub open spec fn profile_word(p: RunProfile) -> Seq<char> {
    match p {
        RunProfile::Quick => "quick"@,
        RunProfile::Full => "full"@,
    }
}

impl RunProfile {
    /// "quick" or "full".
    pub fn as_str(self) -> (r: &'static str)
        ensures
            r@ == profile_word(self),
    {
        match self {
            RunProfile::Quick => "quick",
            RunProfile::Full => "full",
        }
    }
}

/// A pipeline as the backend catalog describes it.
#[derive(Debug, Clone, PartialEq, Eq)]
pub struct PipelineDescriptor {
    pub id: String,
    pub title: String,
    pub hypothesis: String,
    pub primary_metric: String,
    pub quick_profile: String,
    pub full_profile: String,
    pub experiment_id: String,
    pub lineage_id: String,
    pub registry_binary: String,
    pub artifact_paths: Vec<String>,
}

/// A run that the backend could not complete.
#[derive(Debug, Clone, PartialEq, Eq)]
pub struct RunFailure {
    pub api_version: String,
    pub experiment_id: String,
    pub profile: RunProfile,
    pub error: String,
}

/// The backend's description of itself.
#[derive(Debug, Clone, PartialEq, Eq)]
pub struct VersionResponse {
    pub api_version: String,
    pub service: String,
    pub package_version: String,
    pub catalog_source: String,
    pub pipeline_count: usize,
    pub catalog_warnings: Vec<String>,
    pub registry_path: String,
}

/// The form that starts a run or a suite.
#[derive(Debug, Clone, Copy, PartialEq, Eq)]
pub struct ProfileForm {
    pub profile: Option<RunProfile>,
}

/// The form that starts a benchmark.
#[derive(Debug, Clone, Copy, PartialEq, Eq)]
pub struct BenchmarkForm {
    pub profile: Option<RunProfile>,
    pub iterations: Option<usize>,
}

/// A pipeline shown with its lesson on the dashboard.
#[derive(Debug, Clone)]
pub struct PipelineLessonCard {
    pub pipeline: PipelineDescriptor,
    pub lesson: PipelineLesson,
}

/// The content of an error page.
#[derive(Debug, Clone, PartialEq, Eq)]
pub struct ErrorTemplate {
    pub title: String,
    pub backend_url: String,
    pub api_version: String,
    pub message: String,
}

/// The `mode` query parameter of a page.
#[derive(Debug, Clone, Default, PartialEq, Eq)]
pub struct LearningModeQuery {
    pub mode: Option<String>,
}

/// The mode an optional query value selects: the named mode, else Explorer.
pub open spec fn selected_mode(value: Option<Seq<char>>) -> LearningMode {
    match value {
        Some(v) => match mode_named(v) {
            Some(m) => m,
            None => LearningMode::Explorer,
        },
        None => LearningMode::Explorer,
    }
}

impl LearningModeQuery {
    /// The mode the query selects; Explorer when it names none.
    pub fn parsed_mode(&self) -> (r: LearningMode)
        ensures
            r == selected_mode(
                match self.mode {
                    Some(s) => Some(s@),
                    None => None,
                },
            ),
    {
        match &self.mode {
            Some(s) => LearningMode::from_optional_query(Some(s.as_str())),
            None => LearningMode::from_optional_query(None),
        }
    }
}

/// Which of the three mode switches of a page is on: exactly the one of
/// the given mode.
pub fn mode_flags(mode: LearningMode) -> (r: (bool, bool, bool))
    ensures
        r.0 == (mode == LearningMode::Story),
        r.1 == (mode == LearningMode::Explorer),
        r.2 == (mode == LearningMode::Research),
{
    (mode == LearningMode::Story, mode == LearningMode::Explorer, mode == LearningMode::Research)
}

/// The position of the first pipeline with the given id, if any.
pub fn find_pipeline(pipelines: &Vec<PipelineDescriptor>, id: &str) -> (r: Option<usize>)
    ensures
        match r {
            Some(i) => i < pipelines@.len() && pipelines@[i as int].id@ == id@ && forall|j: int|
                0 <= j < i ==> (#[trigger] pipelines@[j]).id@ != id@,
            None => forall|j: int| 0 <= j < pipelines@.len() ==> (#[trigger] pipelines@[j]).id@ != id@,
        },
{
    let mut i: usize = 0;
    while i < pipelines.len()
        invariant
            i <= pipelines@.len(),
            forall|j: int| 0 <= j < i ==> (#[trigger] pipelines@[j]).id@ != id@,
        decreases pipelines@.len() - i,
    {
        if text_eq(pipelines[i].id.as_str(), id) {
            return Some(i);
        }
        i = i + 1;
    }
    None
}

/// HTTP 502, the status of a page that reports a failed backend action.
pub const BAD_GATEWAY: u16 = 502;

/// The status of a rendered page: 502 when it reports an action error,
/// otherwise the status the action asked for.
pub fn page_status(has_action_error: bool, success_status: u16) -> (r: u16)
    ensures
        r == if has_action_error { BAD_GATEWAY } else { success_status },
{
    if has_action_error {
        BAD_GATEWAY
    } else {
        success_status
    }
}

/// Whether cached shell data of the given age may still be served: its age
/// is at most the time to live (both in nanoseconds).
pub fn cache_entry_fresh(age_nanos: u128, ttl_nanos: u128) -> (r: bool)
    ensures
        r == (age_nanos <= ttl_nanos),
{
    age_nanos <= ttl_nanos
}

/// The cache lifetime when none is configured, in milliseconds.
pub const DEFAULT_CACHE_TTL_MS: u64 = 1500;

/// The configured cache lifetime in milliseconds: the setting read as a
/// `u64`, or 1500 when it is missing or not a number.
pub fn cache_ttl_ms(setting: Option<&str>) -> (r: u64)
    ensures
        r == match setting {
            Some(s) => match u64_text_value(s@) {
                Some(v) => v as int,
                None => DEFAULT_CACHE_TTL_MS as int,
            },
            None => DEFAULT_CACHE_TTL_MS as int,
        },
{
    match setting {
        Some(s) => match parse_u64(s) {
            Some(v) => v,
            None => DEFAULT_CACHE_TTL_MS,
        },
        None => DEFAULT_CACHE_TTL_MS,
    }
}

/// The number of trailing `/` characters.
pub open spec fn trailing_slashes(s: Seq<char>) -> nat
    decreases s.len(),
{
    if s.len() > 0 && s.last() == '/' {
        1 + trailing_slashes(s.drop_last())
    } else {
        0
    }
}

/// The text without its trailing `/` characters.
pub open spec fn without_trailing_slashes(s: Seq<char>) -> Seq<char> {
    s.subrange(0, s.len() - trailing_slashes(s))
}

proof fn lemma_trailing_slashes(s: Seq<char>, k: int)
    requires
        0 <= k <= s.len(),
        forall|q: int| k <= q < s.len() ==> s[q] == '/',
        k == 0 || s[k - 1] != '/',
    ensures
        trailing_slashes(s) == s.len() - k,
    decreases s.len() - k,
{
    if k < s.len() {
        lemma_trailing_slashes(s.drop_last(), k);
    }
}

/// A backend address without trailing slashes, so that paths can be
/// appended to it.
pub fn normalize_base_url(base_url: &str) -> (r: String)
    ensures
        r@ == without_trailing_slashes(base_url@),
{
    let n = base_url.unicode_len();
    let mut k: usize = n;
    while k > 0 && base_url.get_char(k - 1) == '/'
        invariant
            k <= n == base_url@.len(),
            forall|q: int| k <= q < n ==> base_url@[q] == '/',
        decreases k,
    {
        k = k - 1;
    }
    proof {
        lemma_trailing_slashes(base_url@, k as int);
    }
    base_url.substring_char(0, k).to_owned()
}

/// The error envelope a failing backend call may carry.
#[derive(Debug, Clone, PartialEq, Eq)]
pub struct ErrorEnvelope {
    pub api_version: String,
    pub error_code: String,
    pub message: String,
}

/// Why a backend call failed, with the texts its report needs.
#[derive(Debug, Clone, PartialEq, Eq)]
pub enum ClientError {
    /// The request did not complete; the text is the transport's own report.
    Transport(String),
    /// The body could not be decoded; `source` is the decoder's report.
    Decode { context: &'static str, body: String, source: String },
    /// The backend answered with a failure status.
    Backend { status: u16, envelope: Option<ErrorEnvelope>, body: String },
}

/// The report of a failed backend call.
pub open spec fn client_error_text(e: ClientError) -> Seq<char> {
    match e {
        ClientError::Transport(t) => "backend transport error: "@ + t@,
        ClientError::Decode { context, body, source } => "backend decode error ("@ + context@ + "): "@
            + source@ + "; response body: "@ + body@,
        ClientError::Backend { status, envelope, body } => match envelope {
            Some(env) => "backend returned "@ + decimal_text(status as nat) + " "@ + env.error_code@ + ": "@
                + env.message@ + " ("@ + env.api_version@ + ")"@,
            None => "backend returned "@ + decimal_text(status as nat) + " with non-standard error body: "@
                + body@,
        },
    }
}

impl ClientError {
    /// The report of the failure, as shown on an error page.
    pub fn message(&self) -> (r: String)
        ensures
            r@ == client_error_text(*self),
    {
        match self {
            ClientError::Transport(t) => {
                let mut m = "backend transport error: ".to_owned();
                m.append(t.as_str());
                m
            },
            ClientError::Decode { context, body, source } => {
                let mut m = "backend decode error (".to_owned();
                m.append(context);
                m.append("): ");
                m.append(source.as_str());
                m.append("; response body: ");
                m.append(body.as_str());
                m
            },
            ClientError::Backend { status, envelope, body } => {
                let mut m = "backend returned ".to_owned();
                let code = decimal(*status as usize);
                m.append(code.as_str());
                match envelope {
                    Some(env) => {
                        m.append(" ");
                        m.append(env.error_code.as_str());
                        m.append(": ");
                        m.append(env.message.as_str());
                        m.append(" (");
                        m.append(env.api_version.as_str());
                        m.append(")");
                    },
                    None => {
                        m.append(" with non-standard error body: ");
                        m.append(body.as_str());
                    },
                }
                m
            },
        }
    }
}

/// The hex digit of a value below 16, in upper case.
pub open spec fn hex_digit(d: u8) -> char {
    if d < 10 {
        (48 + d) as char
    } else {
        (55 + d) as char
    }
}

/// Whether a byte passes through percent-encoding unchanged: ASCII letters,
/// digits and `-`, `.`, `_`, `~`.
pub open spec fn unreserved(b: u8) -> bool {
    ||| 48 <= b <= 57
    ||| 65 <= b <= 90
    ||| 97 <= b <= 122
    ||| b == 45 || b == 46 || b == 95 || b == 126
}

/// Percent-encoding of bytes: each unreserved byte stands for itself, every
/// other byte becomes `%` and two upper-case hex digits.
pub open spec fn percent_encoded(bytes: Seq<u8>) -> Seq<char>
    decreases bytes.len(),
{
    if bytes.len() == 0 {
        Seq::empty()
    } else {
        let b = bytes.last();
        let tail = if unreserved(b) {
            seq![b as char]
        } else {
            seq!['%', hex_digit(b / 16), hex_digit(b % 16)]
        };
        percent_encoded(bytes.drop_last()) + tail
    }
}

/// `urlencoding::encode`: the text's UTF-8 bytes, percent-encoded except
/// for ASCII letters, digits and `-`, `.`, `_`, `~`.
#[verifier::external_body]
fn url_encode(data: &str) -> (r: String)
    ensures
        r@ == percent_encoded(vstd::string::StringSliceAdditionalSpecFns::spec_bytes(data)),
{
    urlencoding::encode(data).into_owned()
}

/// The backend actions on one experiment.
#[derive(Debug, Clone, Copy, PartialEq, Eq, Structural)]
pub enum ExperimentAction {
    Run,
    Benchmark,
    Reproducibility,
}

/// The path prefix of an action.
pub open spec fn action_prefix(action: ExperimentAction) -> Seq<char> {
    match action {
        ExperimentAction::Run => "/api/run/"@,
        ExperimentAction::Benchmark => "/api/benchmark/"@,
        ExperimentAction::Reproducibility => "/api/reproducibility/"@,
    }
}

/// The backend path of an action on an experiment, with the id
/// percent-encoded as one path segment.
pub fn experiment_path(action: ExperimentAction, experiment_id: &str) -> (r: String)
    ensures
        r@ == action_prefix(action) + percent_encoded(vstd::string::StringSliceAdditionalSpecFns::spec_bytes(experiment_id)),
{
    let mut path = match action {
        ExperimentAction::Run => "/api/run/".to_owned(),
        ExperimentAction::Benchmark => "/api/benchmark/".to_owned(),
        ExperimentAction::Reproducibility => "/api/reproducibility/".to_owned(),
    };
    let id = url_encode(experiment_id);
    path.append(id.as_str());
    path
}

/// The actions the studio pages can start.
#[derive(Debug, Clone, Copy, PartialEq, Eq, Structural)]
pub enum StudioAction {
    Suite,
    Run,
    Benchmark,
    Reproducibility,
}

/// The word that names an action in its failure report.
pub open spec fn action_word(action: StudioAction) -> Seq<char> {
    match action {
        StudioAction::Suite => "Suite"@,
        StudioAction::Run => "Run"@,
        StudioAction::Benchmark => "Benchmark"@,
        StudioAction::Reproducibility => "Reproducibility"@,
    }
}

/// The report shown on a page when an action fails.
pub fn action_error_message(action: StudioAction, error: &str) -> (r: String)
    ensures
        r@ == action_word(action) + " action failed: "@ + error@,
{
    let mut m = match action {
        StudioAction::Suite => "Suite".to_owned(),
        StudioAction::Run => "Run".to_owned(),
        StudioAction::Benchmark => "Benchmark".to_owned(),
        StudioAction::Reproducibility => "Reproducibility".to_owned(),
    };
    m.append(" action failed: ");
    m.append(error);
    m
}

/// The API version the studio reports when the backend gave none.
pub open spec fn studio_api_version() -> Seq<char> {
    "studio.v1"@
}

/// An error page: its status and its content.
pub fn error_page(status: u16, title: &str, backend_url: &str, api_version: &str, message: String) -> (r: (
    u16,
    ErrorTemplate,
))
    ensures
        r.0 == status,
        r.1.title@ == title@,
        r.1.backend_url@ == backend_url@,
        r.1.api_version@ == api_version@,
        r.1.message@ == message@,
{
    (
        status,
        ErrorTemplate {
            title: title.to_owned(),
            backend_url: backend_url.to_owned(),
            api_version: api_version.to_owned(),
            message,
        },
    )
}

/// Which page could not load its shell data.
#[derive(Debug, Clone, Copy, PartialEq, Eq, Structural)]
pub enum ShellPage {
    Dashboard,
    PipelineView,
}

/// The lead of the report for a page whose data could not be loaded.
pub open spec fn shell_failure_lead(page: ShellPage) -> Seq<char> {
    match page {
        ShellPage::Dashboard => "Cannot load dashboard data: "@,
        ShellPage::PipelineView => "Cannot load pipeline view: "@,
    }
}

/// The page shown when the backend cannot be reached: 502, "Backend
/// Unavailable", and the reason.
pub fn backend_unavailable_page(page: ShellPage, backend_url: &str, error: &str) -> (r: (u16, ErrorTemplate))
    ensures
        r.0 == BAD_GATEWAY,
        r.1.title@ == "Backend Unavailable"@,
        r.1.backend_url@ == backend_url@,
        r.1.api_version@ == studio_api_version(),
        r.1.message@ == shell_failure_lead(page) + error@,
{
    let mut message = match page {
        ShellPage::Dashboard => "Cannot load dashboard data: ".to_owned(),
        ShellPage::PipelineView => "Cannot load pipeline view: ".to_owned(),
    };
    message.append(error);
    error_page(BAD_GATEWAY, "Backend Unavailable", backend_url, "studio.v1", message)
}

/// How many recent runs the dashboard lists.
pub const DASHBOARD_HISTORY_LIMIT: usize = 12;

/// How many recent runs a pipeline page lists.
pub const PIPELINE_HISTORY_LIMIT: usize = 20;

/// The runs a page lists: the first `limit` entries of the history, in
/// their order, or all of them when there are fewer.
pub fn history_preview<T>(history: Vec<T>, limit: usize) -> (r: Vec<T>)
    ensures
        r@.len() == if history@.len() <= limit { history@.len() as int } else { limit as int },
        r@ == history@.take(r@.len() as int),
{
    let mut kept = history;
    kept.truncate(limit);
    kept
}

/// HTTP 404, the status of a page for a pipeline the catalog lacks.
pub const NOT_FOUND: u16 = 404;

/// The page for a pipeline id that the backend catalog does not hold.
pub fn unknown_pipeline_page(backend_url: &str, api_version: &str, experiment_id: &str) -> (r: (u16, ErrorTemplate))
    ensures
        r.0 == NOT_FOUND,
        r.1.title@ == "Unknown Pipeline"@,
        r.1.backend_url@ == backend_url@,
        r.1.api_version@ == api_version@,
        r.1.message@ == "No pipeline with id '"@ + experiment_id@ + "' is present in the backend catalog."@,
{
    let mut message = "No pipeline with id '".to_owned();
    message.append(experiment_id);
    message.append("' is present in the backend catalog.");
    error_page(NOT_FOUND, "Unknown Pipeline", backend_url, api_version, message)
}

/// The title of a pipeline page.
pub fn pipeline_title(id: &str) -> (r: String)
    ensures
        r@ == "Pipeline "@ + id@ + " | Gororoba Studio"@,
{
    let mut t = "Pipeline ".to_owned();
    t.append(id);
    t.append(" | Gororoba Studio");
    t
}

/// The dashboard pairs every pipeline, in catalog order, with the lesson
/// for its id.
pub fn pipeline_cards(pipelines: Vec<PipelineDescriptor>) -> (r: Vec<PipelineLessonCard>)
    ensures
        r@.len() == pipelines@.len(),
        forall|i: int| 0 <= i < r@.len() ==> (#[trigger] r@[i]).pipeline == pipelines@[i] && r@[i].lesson@
            == lesson_content(pipelines@[i].id@),
{
    let mut cards: Vec<PipelineLessonCard> = Vec::new();
    let mut rest = pipelines;
    let ghost all = rest@;
    while rest.len() > 0
        invariant
            cards@.len() + rest@.len() == all.len(),
            rest@ == all.subrange(cards@.len() as int, all.len() as int),
            forall|i: int| 0 <= i < cards@.len() ==> (#[trigger] cards@[i]).pipeline == all[i] && cards@[i].lesson@
                == lesson_content(all[i].id@),
        decreases rest@.len(),
    {
        let p = rest.remove(0);
        let lesson = lesson_for_pipeline(p.id.as_str());
        cards.push(PipelineLessonCard { pipeline: p, lesson });
    }
    cards
}

} // verus!
