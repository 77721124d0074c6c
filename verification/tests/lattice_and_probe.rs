use gororoba::kernel_api::{
    CpuCapabilities, CpuKernelFlavor, CudaCapabilities, FluidBackendCapabilities, FluidBackendKind,
    FluidBackendPreference, FluidExecutionConfig, VulkanCapabilities,
};
use gororoba::lattice::{opposite, velocity, NeighborTable, Q};
use gororoba::sandbox::{clamp_iterations, clamp_steps, is_sample_step, sample_stride};
use gororoba::probe::{
    api_version_string, choose_backend, find_text, first_line, nvcc_release, parse_gpu_query,
    parse_u32, pick_compute_device, try_cuda_then_fallback, try_vulkan_then_fallback, vram_mb,
    BackendSupport,
};

#[test]
fn nvcc_parser_accepts_standard_output() {
    let sample = "Cuda compilation tools, release 13.1, V13.1.115";
    let marker = "release ";
    assert_eq!(find_text(sample, marker), Some(24));
    assert_eq!(nvcc_release(sample).as_deref(), Some("13.1"));
}

#[test]
fn nvcc_release_edge_cases() {
    let full = "nvcc: NVIDIA (R) Cuda compiler driver\nCuda compilation tools, release 12.4, V12.4.131\nBuild cuda_12.4";
    assert_eq!(nvcc_release(full).as_deref(), Some("12.4"));
    assert_eq!(nvcc_release("release  9.2 "), Some("9.2".to_owned()));
    assert_eq!(nvcc_release("no version here"), None);
    assert_eq!(nvcc_release("Release 1.0"), None);
}

#[test]
fn gpu_query_fields() {
    assert_eq!(
        parse_gpu_query("NVIDIA GeForce RTX 4090, 24564, 550.54.14\nsecond line"),
        Some(("NVIDIA GeForce RTX 4090".to_owned(), Some(24564), Some("550.54.14".to_owned())))
    );
    assert_eq!(parse_gpu_query("Tesla T4, n/a\n"), Some(("Tesla T4".to_owned(), None, None)));
    assert_eq!(parse_gpu_query("Lonely GPU"), Some(("Lonely GPU".to_owned(), None, None)));
    assert_eq!(parse_gpu_query(""), None);
    assert_eq!(parse_gpu_query("\n"), Some((String::new(), None, None)));
    assert_eq!(first_line(" 8.9 \r\n9.0\n").as_deref(), Some("8.9"));
    assert_eq!(first_line(""), None);
    assert_eq!(parse_u32("4294967295"), Some(u32::MAX));
    assert_eq!(parse_u32("4294967296"), None);
}

#[test]
fn vulkan_device_summaries() {
    let gib = 1024 * 1024 * 1024;
    assert_eq!(vram_mb(&vec![(8 * gib, true), (gib, false), (12 * gib, true)]), Some(12288));
    assert_eq!(vram_mb(&vec![(gib, false)]), None);
    assert_eq!(vram_mb(&vec![]), None);
    assert_eq!(vram_mb(&vec![(1024 * 1024 - 1, true)]), Some(0));
    assert_eq!(pick_compute_device(&vec![vec![false], vec![false, true], vec![true]]), Some(1));
    assert_eq!(pick_compute_device(&vec![vec![], vec![false]]), None);
    let v = (1u32 << 22) | (3 << 12) | 275;
    assert_eq!(api_version_string(v), "1.3.275");
    assert_eq!(api_version_string(0), "0.0.0");
}

#[test]
fn backend_choice_follows_preference() {
    let all = BackendSupport { cuda: true, vulkan: true };
    let none = BackendSupport { cuda: false, vulkan: false };
    let soa = CpuKernelFlavor::SoA;
    assert_eq!(choose_backend(FluidBackendPreference::Auto, soa, true, true, all), FluidBackendKind::Cuda);
    assert_eq!(choose_backend(FluidBackendPreference::Auto, soa, false, true, all), FluidBackendKind::Vulkan);
    assert_eq!(choose_backend(FluidBackendPreference::Auto, soa, false, false, all), FluidBackendKind::CpuSoA);
    assert_eq!(
        choose_backend(FluidBackendPreference::CudaPreferred, CpuKernelFlavor::Scalar, false, true, all),
        FluidBackendKind::CpuScalar
    );
    assert_eq!(choose_backend(FluidBackendPreference::VulkanPreferred, soa, true, true, all), FluidBackendKind::Vulkan);
    assert_eq!(choose_backend(FluidBackendPreference::VulkanPreferred, soa, true, true, none), FluidBackendKind::CpuSoA);
    assert_eq!(choose_backend(FluidBackendPreference::CpuOnly, soa, true, true, all), FluidBackendKind::CpuSoA);
    assert_eq!(try_cuda_then_fallback(soa, true, true, none, true), FluidBackendKind::CpuSoA);
    assert_eq!(try_vulkan_then_fallback(CpuKernelFlavor::Scalar, true, all), FluidBackendKind::Vulkan);
}

#[test]
fn lib_soa_opposite_symmetric() {
    for q in 0..Q {
        assert_eq!(opposite(opposite(q)), q);
    }
}

#[test]
fn soa_solver_soa_opposite_symmetric() {
    for q in 0..19 {
        assert_eq!(opposite(opposite(q)), q);
    }
}

#[test]
fn soa_opposite_negates_velocity() {
    for q in 0..19 {
        let opp = opposite(q);
        let c = velocity(q);
        let co = velocity(opp);
        assert_eq!(c[0] + co[0], 0, "q={q}: cx not negated");
        assert_eq!(c[1] + co[1], 0, "q={q}: cy not negated");
        assert_eq!(c[2] + co[2], 0, "q={q}: cz not negated");
    }
}

fn check_neighbor_table(nx: usize, ny: usize, nz: usize) {
    let nt = NeighborTable::build(nx, ny, nz);
    for z in 0..nz {
        for y in 0..ny {
            for x in 0..nx {
                let dst_idx = z * (nx * ny) + y * nx + x;
                for q in 0..19 {
                    let [cx, cy, cz] = velocity(q);
                    let sx = ((x as i32 - cx).rem_euclid(nx as i32)) as usize;
                    let sy = ((y as i32 - cy).rem_euclid(ny as i32)) as usize;
                    let sz = ((z as i32 - cz).rem_euclid(nz as i32)) as usize;
                    let expected = sz * (nx * ny) + sy * nx + sx;
                    assert_eq!(nt.table[q][dst_idx] as usize, expected);
                }
            }
        }
    }
}

#[test]
fn lib_soa_neighbor_table_consistent() {
    check_neighbor_table(16, 8, 8);
}

#[test]
fn soa_solver_soa_neighbor_table_consistent() {
    check_neighbor_table(16, 8, 8);
}

#[test]
fn neighbor_table_small_grids() {
    let nt = NeighborTable::build(1, 1, 1);
    assert_eq!(nt.table.len(), 19);
    assert!(nt.table.iter().all(|row| row == &vec![0]));
    let nt = NeighborTable::build(3, 2, 1);
    // Velocity 1 (+x) streams cell (0, 0, 0) from (2, 0, 0).
    assert_eq!(nt.table[1][0], 2);
    // Velocity 8 (-x, -y) streams cell (2, 1, 0) from (0, 0, 0).
    assert_eq!(nt.table[8][5], 0);
    let nt = NeighborTable::build(0, 4, 4);
    assert!(nt.table.iter().all(|row| row.is_empty()));
}

#[test]
fn sandbox_limits_and_sampling() {
    assert_eq!(clamp_steps(5), 20);
    assert_eq!(clamp_steps(100_000), 50_000);
    assert_eq!(clamp_steps(480), 480);
    assert_eq!(clamp_iterations(0), 1);
    assert_eq!(clamp_iterations(12), 12);
    assert_eq!(clamp_iterations(1000), 300);
    assert_eq!(sample_stride(480), 5);
    assert_eq!(sample_stride(20), 1);
    assert!(is_sample_step(0, 5, 480));
    assert!(is_sample_step(479, 5, 480));
    assert!(is_sample_step(10, 5, 480));
    assert!(!is_sample_step(3, 5, 480));
}

fn test_cpu() -> CpuCapabilities {
    CpuCapabilities { logical_threads: 4, avx2: false, fma: false, f16c: false, l3_cache_bytes: None }
}

fn test_vulkan() -> VulkanCapabilities {
    VulkanCapabilities {
        device_name: "test-vulkan".to_string(),
        driver: Some("1".to_string()),
        api_version: Some("1.3.0".to_string()),
        vram_mb: Some(4096),
        supports_fp16: true,
        supports_fp64: true,
        max_compute_shared_memory_size: Some(32768),
    }
}

fn selected_for(execution: FluidExecutionConfig, caps: &FluidBackendCapabilities) -> FluidBackendKind {
    choose_backend(
        execution.preference,
        execution.cpu_flavor,
        caps.cuda.is_some(),
        caps.vulkan.is_some(),
        BackendSupport { cuda: true, vulkan: true },
    )
}

#[test]
fn build_kernel_selects_vulkan_backend_when_requested() {
    let execution = FluidExecutionConfig {
        preference: FluidBackendPreference::VulkanPreferred,
        cpu_flavor: CpuKernelFlavor::SoA,
        ..Default::default()
    };
    let capabilities = FluidBackendCapabilities { cpu: test_cpu(), vulkan: Some(test_vulkan()), cuda: None };
    assert_eq!(selected_for(execution, &capabilities), FluidBackendKind::Vulkan);
}

#[test]
fn build_kernel_prefers_cuda_in_auto_mode_when_available() {
    let execution = FluidExecutionConfig {
        preference: FluidBackendPreference::Auto,
        cpu_flavor: CpuKernelFlavor::SoA,
        ..Default::default()
    };
    let capabilities = FluidBackendCapabilities {
        cpu: test_cpu(),
        vulkan: Some(test_vulkan()),
        cuda: Some(CudaCapabilities {
            device_name: "test-cuda".to_string(),
            driver_version: Some("1".to_string()),
            cuda_version: Some("13.1".to_string()),
            compute_capability: Some("8.9".to_string()),
            total_memory_mb: Some(12288),
        }),
    };
    assert_eq!(selected_for(execution, &capabilities), FluidBackendKind::Cuda);
}
