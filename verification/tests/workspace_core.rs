use gororoba::kernel_api::{
    cache_size_fits, default_backend_kind, parse_cache_size, unsupported_force_field,
    AlgebraDimension, CpuCapabilities, FluidBackendCapabilities, FluidBackendError,
    FluidBackendKind, FluidBoundaryConfig, FluidBoundaryMode, FluidRenderTarget, GridShape3,
    KernelBackend, QuantumDomainConfig, SpinLatticeConfig,
};
use gororoba::learning::{
    fallback_lesson, lesson_for_pipeline, thesis_1_lesson, thesis_2_lesson, thesis_3_lesson,
    thesis_4_lesson, LearningMode, PipelineLesson,
};
use gororoba::studio::{
    action_error_message, backend_unavailable_page, cache_entry_fresh, cache_ttl_ms,
    experiment_path, find_pipeline, mode_flags, normalize_base_url, page_status, pipeline_cards,
    pipeline_title, unknown_pipeline_page, history_preview, ClientError, ErrorEnvelope, ExperimentAction,
    LearningModeQuery, PipelineDescriptor, RunProfile, ShellPage, StudioAction,
    DASHBOARD_HISTORY_LIMIT, PIPELINE_HISTORY_LIMIT,
};
use gororoba::synthesis::{
    bounded_input, challenges_scorable, default_challenges, evaluate, evaluate_request, find_challenge, run_benchmark,
    saturating_micros, validate_iterations, ApiError, BenchmarkRequest, ChallengeView,
    tally_micros, Challenge, EvaluationRequest,
};

#[test]
fn grid_shape_cell_count_matches_dimensions() {
    let grid = GridShape3 { nx: 8, ny: 4, nz: 2 };
    assert_eq!(grid.cell_count(), 64);
}

#[test]
fn fluid_boundaries_default_to_tunnel_friendly_layout() {
    let boundaries = FluidBoundaryConfig::default();
    assert!(matches!(boundaries.y_neg, FluidBoundaryMode::BounceBack));
    assert!(matches!(boundaries.x_neg, FluidBoundaryMode::Periodic));
}

#[test]
fn quantum_domain_config_keeps_lattice_inputs_small_and_explicit() {
    let config = QuantumDomainConfig {
        lattice: SpinLatticeConfig { n_sites: 16, local_dim: 2, seed: 42 },
        subsystem_size: 4,
    };
    assert_eq!(config.lattice.n_sites, 16);
    assert_eq!(config.subsystem_size, 4);
}

#[test]
fn algebra_dimensions_double() {
    assert_eq!(AlgebraDimension::Quaternion.dim(), 4);
    assert_eq!(AlgebraDimension::Octonion.dim(), 8);
    assert_eq!(AlgebraDimension::Sedenion.dim(), 16);
    assert_eq!(AlgebraDimension::Dim32.dim(), 32);
    assert_eq!(AlgebraDimension::default(), AlgebraDimension::Sedenion);
}

#[test]
fn parses_learning_modes_from_query_values() {
    assert_eq!(LearningMode::from_query_value("story"), Some(LearningMode::Story));
    assert_eq!(LearningMode::from_query_value("explorer"), Some(LearningMode::Explorer));
    assert_eq!(LearningMode::from_query_value("research"), Some(LearningMode::Research));
    assert_eq!(LearningMode::from_query_value(" Story "), Some(LearningMode::Story));
}

#[test]
fn falls_back_to_explorer_for_invalid_or_missing_mode() {
    assert_eq!(LearningMode::from_optional_query(Some("unknown")), LearningMode::Explorer);
    assert_eq!(LearningMode::from_optional_query(None), LearningMode::Explorer);
}

#[test]
fn learning_mode_words_round_trip() {
    for mode in [LearningMode::Story, LearningMode::Explorer, LearningMode::Research] {
        assert_eq!(LearningMode::from_query_value(mode.as_query_value()), Some(mode));
        assert_eq!(LearningMode::from_query_value(mode.label()), Some(mode));
    }
    assert_eq!(LearningMode::Research.as_query_value(), "research");
    assert_eq!(LearningMode::Story.label(), "Story");
    assert_eq!(LearningMode::from_query_value("\tRESEARCH\n"), Some(LearningMode::Research));
    assert_eq!(LearningMode::from_query_value("stories"), None);
    assert_eq!(LearningMode::from_query_value(""), None);
    assert_eq!(LearningMode::default(), LearningMode::Explorer);
}

fn assert_lesson_complete(lesson: &PipelineLesson) {
    assert!(!lesson.pipeline_id.trim().is_empty());
    assert!(!lesson.summary.trim().is_empty());
    assert!(!lesson.story_summary.trim().is_empty());
    assert!(!lesson.analogy.trim().is_empty());
    assert!(!lesson.story_activity.trim().is_empty());
    assert!(!lesson.equation.trim().is_empty());
    assert!(!lesson.proof_sketch.trim().is_empty());
    assert!(!lesson.visual_guidance.trim().is_empty());
    assert!(!lesson.artifact_guidance.trim().is_empty());
    assert!(!lesson.equation_walkthrough.is_empty());
    assert!(!lesson.derivation_steps.is_empty());
    assert!(!lesson.assumptions.is_empty());
    assert!(!lesson.research_questions.is_empty());
    assert!(!lesson.artifact_links.is_empty());
    assert!(!lesson.reference_links.is_empty());

    for step in &lesson.equation_walkthrough {
        assert!(!step.trim().is_empty());
    }
    for step in &lesson.derivation_steps {
        assert!(!step.trim().is_empty());
    }
    for assumption in &lesson.assumptions {
        assert!(!assumption.trim().is_empty());
    }
    for question in &lesson.research_questions {
        assert!(!question.trim().is_empty());
    }
    for link in &lesson.artifact_links {
        assert!(!link.label.trim().is_empty());
        assert!(!link.uri.trim().is_empty());
        assert_eq!(link.link_type, "artifact");
    }
    for link in &lesson.reference_links {
        assert!(!link.label.trim().is_empty());
        assert!(!link.uri.trim().is_empty());
        assert_eq!(link.link_type, "reference");
    }
}

#[test]
fn thesis_and_fallback_lessons_are_complete() {
    let lessons = [
        thesis_1_lesson(),
        thesis_2_lesson(),
        thesis_3_lesson(),
        thesis_4_lesson(),
        fallback_lesson("thesis-unknown"),
    ];

    for lesson in lessons {
        assert_lesson_complete(&lesson);
    }
}

#[test]
fn lesson_lookup_selects_by_pipeline_id() {
    assert_eq!(lesson_for_pipeline("thesis-1"), thesis_1_lesson());
    assert_eq!(lesson_for_pipeline("thesis-2"), thesis_2_lesson());
    assert_eq!(lesson_for_pipeline("thesis-3"), thesis_3_lesson());
    assert_eq!(lesson_for_pipeline("thesis-4"), thesis_4_lesson());
    let other = lesson_for_pipeline("thesis-5");
    assert_eq!(other.pipeline_id, "thesis-5");
    assert_eq!(other.equation, "score = observed_signal - baseline_signal");
    assert_eq!(lesson_for_pipeline("Thesis-1").pipeline_id, "Thesis-1");
    assert_eq!(thesis_1_lesson().equation, "rho = 1 - (6 * sum(d_i^2)) / (n * (n^2 - 1))");
    assert_eq!(thesis_2_lesson().derivation_steps.len(), 4);
    assert_eq!(thesis_3_lesson().reference_links[0].uri, "https://www.grc.nasa.gov/www/k-12/airplane/boundlay.html");
}

#[test]
fn run_profile_words() {
    assert_eq!(RunProfile::Quick.as_str(), "quick");
    assert_eq!(RunProfile::Full.as_str(), "full");
    assert_eq!(RunProfile::default(), RunProfile::Quick);
}

#[test]
fn mode_query_and_flags() {
    let q = LearningModeQuery { mode: Some("research".to_owned()) };
    assert_eq!(q.parsed_mode(), LearningMode::Research);
    let q = LearningModeQuery { mode: Some("bogus".to_owned()) };
    assert_eq!(q.parsed_mode(), LearningMode::Explorer);
    let q = LearningModeQuery { mode: None };
    assert_eq!(q.parsed_mode(), LearningMode::Explorer);
    assert_eq!(mode_flags(LearningMode::Story), (true, false, false));
    assert_eq!(mode_flags(LearningMode::Explorer), (false, true, false));
    assert_eq!(mode_flags(LearningMode::Research), (false, false, true));
}

fn descriptor(id: &str) -> PipelineDescriptor {
    PipelineDescriptor {
        id: id.to_owned(),
        title: format!("{id} title"),
        hypothesis: String::new(),
        primary_metric: String::new(),
        quick_profile: String::new(),
        full_profile: String::new(),
        experiment_id: String::new(),
        lineage_id: String::new(),
        registry_binary: String::new(),
        artifact_paths: Vec::new(),
    }
}

#[test]
fn pipeline_lookup_and_page_status() {
    let pipelines = vec![descriptor("thesis-1"), descriptor("thesis-2"), descriptor("thesis-2")];
    assert_eq!(find_pipeline(&pipelines, "thesis-2"), Some(1));
    assert_eq!(find_pipeline(&pipelines, "thesis-1"), Some(0));
    assert_eq!(find_pipeline(&pipelines, "not-real"), None);
    assert_eq!(page_status(true, 200), 502);
    assert_eq!(page_status(false, 200), 200);
    assert_eq!(page_status(false, 404), 404);
}

#[test]
fn cache_settings_and_freshness() {
    assert_eq!(cache_ttl_ms(None), 1500);
    assert_eq!(cache_ttl_ms(Some("120")), 120);
    assert_eq!(cache_ttl_ms(Some("+7")), 7);
    assert_eq!(cache_ttl_ms(Some("0")), 0);
    assert_eq!(cache_ttl_ms(Some("12ms")), 1500);
    assert_eq!(cache_ttl_ms(Some("")), 1500);
    assert_eq!(cache_ttl_ms(Some("+")), 1500);
    assert_eq!(cache_ttl_ms(Some("-5")), 1500);
    assert_eq!(cache_ttl_ms(Some(" 5")), 1500);
    assert_eq!(cache_ttl_ms(Some("18446744073709551615")), u64::MAX);
    assert_eq!(cache_ttl_ms(Some("18446744073709551616")), 1500);
    assert!(cache_entry_fresh(1_500_000_000, 1_500_000_000));
    assert!(!cache_entry_fresh(1_500_000_001, 1_500_000_000));
}

#[test]
fn base_url_loses_trailing_slashes() {
    assert_eq!(normalize_base_url("http://127.0.0.1:8088/"), "http://127.0.0.1:8088");
    assert_eq!(normalize_base_url("http://host//"), "http://host");
    assert_eq!(normalize_base_url("http://host"), "http://host");
    assert_eq!(normalize_base_url("///"), "");
}

#[test]
fn client_error_reports() {
    assert_eq!(
        ClientError::Transport("connection refused".to_owned()).message(),
        "backend transport error: connection refused"
    );
    assert_eq!(
        ClientError::Decode {
            context: "success payload",
            body: "{".to_owned(),
            source: "EOF while parsing".to_owned(),
        }
        .message(),
        "backend decode error (success payload): EOF while parsing; response body: {"
    );
    assert_eq!(
        ClientError::Backend {
            status: 502,
            envelope: Some(ErrorEnvelope {
                api_version: "studio.v1".to_owned(),
                error_code: "upstream_unavailable".to_owned(),
                message: "mock suite failure".to_owned(),
            }),
            body: String::new(),
        }
        .message(),
        "backend returned 502 upstream_unavailable: mock suite failure (studio.v1)"
    );
    assert_eq!(
        ClientError::Backend { status: 404, envelope: None, body: "nope".to_owned() }.message(),
        "backend returned 404 with non-standard error body: nope"
    );
}

fn request(id: &str, t: u32, p: u32, e: u32, r: u32, seed: u64) -> EvaluationRequest {
    EvaluationRequest {
        challenge_id: id.to_owned(),
        throughput: t,
        precision: p,
        efficiency: e,
        resilience: r,
        seed,
    }
}

#[test]
fn deterministic_evaluation_for_identical_input() {
    let challenges = default_challenges();
    let request = EvaluationRequest {
        challenge_id: "forge".to_owned(),
        throughput: 84,
        precision: 73,
        efficiency: 66,
        resilience: 91,
        seed: 1337,
    };

    let challenge = find_challenge(&challenges, &request.challenge_id)
        .expect("challenge should exist for deterministic test");
    let first = evaluate_request(&request, challenge);
    let second = evaluate_request(&request, challenge);

    assert_eq!(first, second, "evaluation should be deterministic");
    assert_eq!(first.metrics.len(), 4, "must expose four pipeline metrics");
}

#[test]
fn forge_scoring_exact_values() {
    let challenges = default_challenges();
    let r = evaluate(&challenges, &request("forge", 84, 73, 66, 91, 1337)).unwrap();
    let values: Vec<u32> = r.metrics.iter().map(|m| m.value).collect();
    assert_eq!(values, vec![393, 331, 421, 271]);
    let names: Vec<&str> = r.metrics.iter().map(|m| m.metric.as_str()).collect();
    assert_eq!(names, vec!["ingest", "synthesis", "stability", "delivery"]);
    assert!(r.metrics.iter().all(|m| m.passed));
    assert_eq!(r.composite_score, 346);
    assert_eq!(r.target_score, 285);
    assert!(r.passed_all_gates);
    assert!(r.meets_target);
    assert_eq!(r.challenge_id, "forge");
}

#[test]
fn relay_misses_delivery_gate() {
    let challenges = default_challenges();
    let r = evaluate(&challenges, &request("relay", 77, 62, 59, 88, 901)).unwrap();
    let values: Vec<u32> = r.metrics.iter().map(|m| m.value).collect();
    assert_eq!(values, vec![354, 294, 398, 239]);
    assert!(!r.metrics[3].passed);
    assert_eq!(r.metrics[3].gate, 295);
    assert!(!r.passed_all_gates);
    assert_eq!(r.composite_score, 314);
    assert!(r.meets_target);
}

#[test]
fn citadel_caps_inputs_and_folds_seed() {
    let challenges = default_challenges();
    let r = evaluate(&challenges, &request("citadel", 500, 0, 0, 0, 123_456_789)).unwrap();
    let values: Vec<u32> = r.metrics.iter().map(|m| m.value).collect();
    assert_eq!(values, vec![293, 102, 14, 104]);
    assert_eq!(r.composite_score, 97);
    assert!(!r.passed_all_gates);
    assert!(!r.meets_target);
    assert_eq!(bounded_input(500), 100);
    assert_eq!(bounded_input(100), 100);
    assert_eq!(bounded_input(7), 7);
}

#[test]
fn unknown_challenge_is_refused() {
    let challenges = default_challenges();
    assert_eq!(
        evaluate(&challenges, &request("arena", 1, 1, 1, 1, 1)),
        Err(ApiError::BadRequest("unknown challenge_id: arena".to_owned()))
    );
}

#[test]
fn challenge_table_is_published_as_is() {
    let challenges = default_challenges();
    let views: Vec<ChallengeView> = challenges.iter().map(ChallengeView::from_challenge).collect();
    assert_eq!(views.len(), 3);
    assert_eq!(views[1].id, "citadel");
    assert_eq!(views[1].name, "Citadel Lock");
    assert_eq!(views[1].gates, [210, 245, 300, 235]);
    assert_eq!(views[1].weights, [2, 3, 5, 2]);
    assert_eq!(views[2].target_score, 300);
}

#[test]
fn benchmark_iteration_limits() {
    assert_eq!(
        validate_iterations(0),
        Err(ApiError::BadRequest("iterations must be greater than zero".to_owned()))
    );
    assert_eq!(
        validate_iterations(50_001),
        Err(ApiError::BadRequest("iterations must be less than or equal to 50000".to_owned()))
    );
    assert_eq!(validate_iterations(1), Ok(()));
    assert_eq!(validate_iterations(50_000), Ok(()));
}

#[test]
fn benchmark_tallies_are_deterministic() {
    let challenges = default_challenges();
    let bench = BenchmarkRequest { request: request("relay", 77, 62, 59, 88, 901), iterations: 32 };
    let t = run_benchmark(&challenges, &bench).unwrap();
    assert_eq!(t.iterations, 32);
    assert!(t.deterministic);
    assert_eq!(t.min_score, 314);
    assert_eq!(t.max_score, 314);
    assert_eq!(t.total_score, 314 * 32);
    assert!(t.min_micros <= t.max_micros);
    assert!(u128::from(t.min_micros) * 32 <= t.total_micros);
    assert!(t.total_micros <= u128::from(t.max_micros) * 32);
    assert_eq!(t.sample.metrics.len(), 4);

    let zero = BenchmarkRequest { request: request("forge", 50, 50, 50, 50, 9), iterations: 0 };
    assert_eq!(
        run_benchmark(&challenges, &zero),
        Err(ApiError::BadRequest("iterations must be greater than zero".to_owned()))
    );
    let unknown = BenchmarkRequest { request: request("nowhere", 50, 50, 50, 50, 9), iterations: 3 };
    assert_eq!(
        run_benchmark(&challenges, &unknown),
        Err(ApiError::BadRequest("unknown challenge_id: nowhere".to_owned()))
    );
}

#[test]
fn micros_saturate_at_u64_max() {
    assert_eq!(saturating_micros(17), 17);
    assert_eq!(saturating_micros(u128::from(u64::MAX)), u64::MAX);
    assert_eq!(saturating_micros(u128::from(u64::MAX) + 1), u64::MAX);
}

#[test]
fn experiment_paths_encode_the_id() {
    assert_eq!(experiment_path(ExperimentAction::Run, "thesis-1"), "/api/run/thesis-1");
    assert_eq!(
        experiment_path(ExperimentAction::Benchmark, "a b/c?"),
        "/api/benchmark/a%20b%2Fc%3F"
    );
    assert_eq!(
        experiment_path(ExperimentAction::Reproducibility, "caf\u{e9}~_.-"),
        "/api/reproducibility/caf%C3%A9~_.-"
    );
    assert_eq!(experiment_path(ExperimentAction::Run, ""), "/api/run/");
}

#[test]
fn studio_pages_and_reports() {
    assert_eq!(
        action_error_message(StudioAction::Suite, "backend returned 502"),
        "Suite action failed: backend returned 502"
    );
    assert_eq!(action_error_message(StudioAction::Reproducibility, "x"), "Reproducibility action failed: x");
    let (status, page) = backend_unavailable_page(ShellPage::Dashboard, "http://127.0.0.1:9", "down");
    assert_eq!(status, 502);
    assert_eq!(page.title, "Backend Unavailable");
    assert_eq!(page.api_version, "studio.v1");
    assert_eq!(page.message, "Cannot load dashboard data: down");
    let (_, page) = backend_unavailable_page(ShellPage::PipelineView, "b", "e");
    assert_eq!(page.message, "Cannot load pipeline view: e");
    let (status, page) = unknown_pipeline_page("http://b", "studio.v1", "not-real");
    assert_eq!(status, 404);
    assert_eq!(page.title, "Unknown Pipeline");
    assert_eq!(page.message, "No pipeline with id 'not-real' is present in the backend catalog.");
    assert_eq!(pipeline_title("thesis-1"), "Pipeline thesis-1 | Gororoba Studio");
}

#[test]
fn dashboard_cards_pair_pipelines_with_lessons() {
    let cards = pipeline_cards(vec![descriptor("thesis-2"), descriptor("other")]);
    assert_eq!(cards.len(), 2);
    assert_eq!(cards[0].pipeline.id, "thesis-2");
    assert_eq!(cards[0].lesson, thesis_2_lesson());
    assert_eq!(cards[1].pipeline.title, "other title");
    assert_eq!(cards[1].lesson, fallback_lesson("other"));
    assert!(pipeline_cards(Vec::new()).is_empty());
}

#[test]
fn cache_size_texts() {
    assert_eq!(parse_cache_size("32768K\n"), Some(32768 * 1024));
    assert_eq!(parse_cache_size(" 16 MB "), Some(16 * 1024 * 1024));
    assert_eq!(parse_cache_size("512"), Some(512));
    assert_eq!(parse_cache_size("7b"), Some(7));
    assert_eq!(parse_cache_size("8 kb"), Some(8192));
    assert_eq!(parse_cache_size(""), None);
    assert_eq!(parse_cache_size("K"), None);
    assert_eq!(parse_cache_size("12 GB"), None);
    assert_eq!(parse_cache_size("99999999999999999999999"), None);
    assert!(cache_size_fits("32768K"));
    assert!(cache_size_fits("nonsense"));
    assert!(!cache_size_fits("18446744073709551615K"));
}

#[test]
fn kernel_defaults_and_sizes() {
    assert_eq!(default_backend_kind(KernelBackend::Cpu), FluidBackendKind::CpuScalar);
    assert_eq!(default_backend_kind(KernelBackend::Cuda), FluidBackendKind::Cuda);
    assert_eq!(unsupported_force_field(0), Ok(()));
    assert_eq!(
        unsupported_force_field(3),
        Err(FluidBackendError::UnsupportedBackend("backend does not support force-field injection"))
    );
    assert_eq!(FluidRenderTarget { width: 8, height: 4 }.pixel_len(), 128);
    let cpu = CpuCapabilities { logical_threads: 8, avx2: true, fma: true, f16c: false, l3_cache_bytes: None };
    let caps = FluidBackendCapabilities::cpu_only_detected(cpu.clone());
    assert_eq!(caps.cpu, cpu);
    assert!(caps.vulkan.is_none() && caps.cuda.is_none());
    assert_eq!(FluidBackendError::ProbeFailed("no device".to_owned()).message(), "no device");
}

#[test]
fn history_previews_keep_the_first_runs() {
    let runs: Vec<u32> = (0..30).collect();
    assert_eq!(history_preview(runs.clone(), DASHBOARD_HISTORY_LIMIT), (0..12).collect::<Vec<u32>>());
    assert_eq!(history_preview(runs, PIPELINE_HISTORY_LIMIT), (0..20).collect::<Vec<u32>>());
    assert_eq!(history_preview(vec![7u32, 8], 12), vec![7, 8]);
    assert_eq!(history_preview(Vec::<u32>::new(), 12), Vec::<u32>::new());
}

#[test]
fn capped_inputs_score_alike() {
    let challenges = default_challenges();
    let c = find_challenge(&challenges, "forge").unwrap();
    let raw = evaluate_request(&request("forge", 250, 73, 66, 91, 11337), c);
    let capped = evaluate_request(&request("forge", 100, 73, 66, 91, 1337), c);
    assert_eq!(raw, capped);
}

#[test]
fn only_the_named_challenge_must_score() {
    let mut challenges = default_challenges();
    challenges.push(Challenge {
        id: "heavy",
        name: "Heavy",
        description: "weights too large to score",
        gates: [0, 0, 0, 0],
        weights: [u32::MAX, u32::MAX, 0, 0],
        target_score: 0,
    });
    let forge = request("forge", 84, 73, 66, 91, 1337);
    assert!(challenges_scorable(&challenges, &forge));
    assert!(evaluate(&challenges, &forge).is_ok());
    let heavy = request("heavy", 84, 73, 66, 91, 1337);
    assert!(!challenges_scorable(&challenges, &heavy));
    let unknown = request("nowhere", 84, 73, 66, 91, 1337);
    assert!(challenges_scorable(&challenges, &unknown));
}

#[test]
fn timing_tally_is_least_greatest_and_total() {
    assert_eq!(tally_micros(&vec![5, 2, 9]), (2, 9, 16));
    assert_eq!(tally_micros(&vec![7]), (7, 7, 7));
    assert_eq!(tally_micros(&vec![u64::MAX, u64::MAX]), (u64::MAX, u64::MAX, 2 * (u64::MAX as u128)));
    assert_eq!(tally_micros(&Vec::new()), (u64::MAX, 0, 0));
}

#[test]
fn evaluation_uses_the_first_challenge_with_the_id() {
    let mut challenges = default_challenges();
    let mut twin = challenges[0].clone();
    twin.target_score = 1;
    challenges.push(twin);
    let req = request("forge", 84, 73, 66, 91, 1337);
    let e = evaluate(&challenges, &req).unwrap();
    assert_eq!(e.target_score, default_challenges()[0].target_score);
}
