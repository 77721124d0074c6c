//! Engine-facing configuration and capability types shared by the
//! algebra, fluid, relativity and quantum kernels.
use crate::text::{digit_prefix_len, digits_value, eq_ignore_ascii_case, eq_ignoring_ascii_case, first_non_digit, parse_digits, trim_str, trimmed};
use vstd::prelude::*;

verus! {

/// Dimension of a Cayley-Dickson algebra.
#[derive(Debug, Clone, Copy, PartialEq, Eq, Structural)]
pub enum AlgebraDimension {
    Quaternion,
    Octonion,
    Sedenion,
    Dim32,
}

impl Default for AlgebraDimension {
    /// The sedenions.
    fn default() -> (r: AlgebraDimension)
        ensures
            r == AlgebraDimension::Sedenion,
    {
        AlgebraDimension::Sedenion
    }
}

/// The number of real components of an algebra element.
pub open spec fn dim_of(d: AlgebraDimension) -> usize {
    match d {
        AlgebraDimension::Quaternion => 4,
        AlgebraDimension::Octonion => 8,
        AlgebraDimension::Sedenion => 16,
        AlgebraDimension::Dim32 => 32,
    }
}

impl AlgebraDimension {
    /// 4, 8, 16 or 32.
    pub fn dim(self) -> (r: usize)
        ensures
            r == dim_of(self),
    {
        match self {
            AlgebraDimension::Quaternion => 4,
            AlgebraDimension::Octonion => 8,
            AlgebraDimension::Sedenion => 16,
            AlgebraDimension::Dim32 => 32,
        }
    }
}

/// Where a kernel runs.
#[derive(Debug, Clone, Copy, PartialEq, Eq, Structural)]
pub enum KernelBackend {
    Cpu,
    Vulkan,
    Cuda,
}

/// A three-dimensional lattice shape.
#[derive(Debug, Clone, Copy, PartialEq, Eq, Structural)]
pub struct GridShape3 {
    pub nx: usize,
    pub ny: usize,
    pub nz: usize,
}

impl GridShape3 {
    /// The number of cells, `nx * ny * nz`.
    pub fn cell_count(self) -> (r: usize)
        requires
            self.nx * self.ny <= usize::MAX,
            self.nx * self.ny * self.nz <= usize::MAX,
        ensures
            r == self.nx * self.ny * self.nz,
    {
        self.nx * self.ny * self.nz
    }
}

/// What a face of the fluid domain does.
#[derive(Debug, Clone, Copy, PartialEq, Eq, Structural)]
pub enum FluidBoundaryMode {
    Periodic,
    BounceBack,
    InletOutlet,
}

/// Which fluid backend a caller prefers.
#[derive(Debug, Clone, Copy, PartialEq, Eq, Structural)]
pub enum FluidBackendPreference {
    Auto,
    CudaPreferred,
    VulkanPreferred,
    CpuOnly,
}

/// Memory layout of the CPU fluid kernel.
#[derive(Debug, Clone, Copy, PartialEq, Eq, Structural)]
pub enum CpuKernelFlavor {
    SoA,
    Scalar,
}

/// The fluid backend actually selected.
#[derive(Debug, Clone, Copy, PartialEq, Eq, Structural)]
pub enum FluidBackendKind {
    CpuSoA,
    CpuScalar,
    Vulkan,
    Cuda,
}

/// Size of an RGBA frame to render.
#[derive(Debug, Clone, Copy, PartialEq, Eq, Structural)]
pub struct FluidRenderTarget {
    pub width: u32,
    pub height: u32,
}

impl FluidRenderTarget {
    /// Bytes of an RGBA8 frame: `width * height * 4`.
    pub fn pixel_len(self) -> (r: usize)
        requires
            self.width * self.height * 4 <= usize::MAX,
        ensures
            r == self.width * self.height * 4,
    {
        let w = self.width as usize;
        let h = self.height as usize;
        proof {
            assert(w * h <= w * h * 4) by (nonlinear_arith);
        }
        w * h * 4
    }
}

/// How the fluid domain is executed.
#[derive(Debug, Clone, Copy, PartialEq, Eq, Structural)]
pub struct FluidExecutionConfig {
    pub preference: FluidBackendPreference,
    pub cpu_flavor: CpuKernelFlavor,
    pub render_target: Option<FluidRenderTarget>,
    pub allow_gpu_readback: bool,
}

impl Default for FluidExecutionConfig {
    /// Automatic backend, SoA CPU layout, no rendering, no GPU readback.
    fn default() -> (r: FluidExecutionConfig)
        ensures
            r == (FluidExecutionConfig {
                preference: FluidBackendPreference::Auto,
                cpu_flavor: CpuKernelFlavor::SoA,
                render_target: None,
                allow_gpu_readback: false,
            }),
    {
        FluidExecutionConfig {
            preference: FluidBackendPreference::Auto,
            cpu_flavor: CpuKernelFlavor::SoA,
            render_target: None,
            allow_gpu_readback: false,
        }
    }
}

/// The boundary mode of each of the six faces.
#[derive(Debug, Clone, Copy, PartialEq, Eq, Structural)]
pub struct FluidBoundaryConfig {
    pub x_neg: FluidBoundaryMode,
    pub x_pos: FluidBoundaryMode,
    pub y_neg: FluidBoundaryMode,
    pub y_pos: FluidBoundaryMode,
    pub z_neg: FluidBoundaryMode,
    pub z_pos: FluidBoundaryMode,
}

impl Default for FluidBoundaryConfig {
    /// A wind tunnel: periodic in x and z, walls (bounce-back) in y.
    fn default() -> (r: FluidBoundaryConfig)
        ensures
            r == (FluidBoundaryConfig {
                x_neg: FluidBoundaryMode::Periodic,
                x_pos: FluidBoundaryMode::Periodic,
                y_neg: FluidBoundaryMode::BounceBack,
                y_pos: FluidBoundaryMode::BounceBack,
                z_neg: FluidBoundaryMode::Periodic,
                z_pos: FluidBoundaryMode::Periodic,
            }),
    {
        FluidBoundaryConfig {
            x_neg: FluidBoundaryMode::Periodic,
            x_pos: FluidBoundaryMode::Periodic,
            y_neg: FluidBoundaryMode::BounceBack,
            y_pos: FluidBoundaryMode::BounceBack,
            z_neg: FluidBoundaryMode::Periodic,
            z_pos: FluidBoundaryMode::Periodic,
        }
    }
}

/// What the CPU offers.
#[derive(Debug, Clone, PartialEq, Eq)]
pub struct CpuCapabilities {
    pub logical_threads: usize,
    pub avx2: bool,
    pub fma: bool,
    pub f16c: bool,
    pub l3_cache_bytes: Option<usize>,
}

/// What a Vulkan device offers.
#[derive(Debug, Clone, PartialEq, Eq)]
pub struct VulkanCapabilities {
    pub device_name: String,
    pub driver: Option<String>,
    pub api_version: Option<String>,
    pub vram_mb: Option<u32>,
    pub supports_fp16: bool,
    pub supports_fp64: bool,
    pub max_compute_shared_memory_size: Option<u32>,
}

/// What a CUDA device offers.
#[derive(Debug, Clone, PartialEq, Eq)]
pub struct CudaCapabilities {
    pub device_name: String,
    pub driver_version: Option<String>,
    pub cuda_version: Option<String>,
    pub compute_capability: Option<String>,
    pub total_memory_mb: Option<u32>,
}

/// The capabilities of every backend that was probed.
#[derive(Debug, Clone, PartialEq, Eq)]
pub struct FluidBackendCapabilities {
    pub cpu: CpuCapabilities,
    pub vulkan: Option<VulkanCapabilities>,
    pub cuda: Option<CudaCapabilities>,
}

impl FluidBackendCapabilities {
    /// The capabilities of a machine on which only the CPU (as detected) is
    /// used: no Vulkan, no CUDA.
    pub fn cpu_only_detected(cpu: CpuCapabilities) -> (r: FluidBackendCapabilities)
        ensures
            r.cpu == cpu,
            r.vulkan is None,
            r.cuda is None,
    {
        FluidBackendCapabilities { cpu, vulkan: None, cuda: None }
    }
}

/// An RGBA8 frame.
#[derive(Debug, Clone, PartialEq, Eq)]
pub struct FluidRenderFrame {
    pub width: u32,
    pub height: u32,
    pub rgba8: Vec<u8>,
}

/// Why a fluid backend cannot be used or failed.
#[derive(Debug, Clone, PartialEq, Eq)]
pub enum FluidBackendError {
    UnsupportedBackend(&'static str),
    ProbeFailed(String),
    InvalidConfig(String),
    Runtime(String),
}

impl FluidBackendError {
    /// The message carried by the error (what `Display` shows).
    pub fn message(&self) -> (r: String)
        ensures
            r@ == match self {
                FluidBackendError::UnsupportedBackend(m) => m@,
                FluidBackendError::ProbeFailed(m) => m@,
                FluidBackendError::InvalidConfig(m) => m@,
                FluidBackendError::Runtime(m) => m@,
            },
    {
        match self {
            FluidBackendError::UnsupportedBackend(m) => (*m).to_owned(),
            FluidBackendError::ProbeFailed(m) => m.as_str().to_owned(),
            FluidBackendError::InvalidConfig(m) => m.as_str().to_owned(),
            FluidBackendError::Runtime(m) => m.as_str().to_owned(),
        }
    }
}

/// The backend kind a fluid kernel reports for its backend when it says
/// nothing more precise: the scalar kernel for the CPU.
pub fn default_backend_kind(backend: KernelBackend) -> (r: FluidBackendKind)
    ensures
        r == match backend {
            KernelBackend::Cpu => FluidBackendKind::CpuScalar,
            KernelBackend::Vulkan => FluidBackendKind::Vulkan,
            KernelBackend::Cuda => FluidBackendKind::Cuda,
        },
{
    match backend {
        KernelBackend::Cpu => FluidBackendKind::CpuScalar,
        KernelBackend::Vulkan => FluidBackendKind::Vulkan,
        KernelBackend::Cuda => FluidBackendKind::Cuda,
    }
}

/// What a fluid kernel without force-field support answers to a field of
/// `len` cells: an empty field is accepted, any other is refused.
pub fn unsupported_force_field(len: usize) -> (r: Result<(), FluidBackendError>)
    ensures
        len == 0 <==> r is Ok,
        len != 0 ==> (r matches Err(FluidBackendError::UnsupportedBackend(m)) && m@
            == "backend does not support force-field injection"@),
{
    if len == 0 {
        return Ok(());
    }
    Err(FluidBackendError::UnsupportedBackend("backend does not support force-field injection"))
}

/// Whether a geodesic is light-like or massive.
#[derive(Debug, Clone, Copy, PartialEq, Eq, Structural)]
pub enum GeodesicKind {
    Null,
    Timelike,
}

/// A spin lattice: sites, local Hilbert space dimension and random seed.
#[derive(Debug, Clone, Copy, PartialEq, Eq, Structural)]
pub struct SpinLatticeConfig {
    pub n_sites: usize,
    pub local_dim: usize,
    pub seed: u64,
}

/// One layer of a MERA network.
#[derive(Debug, Clone, Copy, PartialEq, Eq, Structural)]
pub struct MeraLayerSnapshot {
    pub n_isometries: usize,
    pub n_disentanglers: usize,
}

/// The quantum domain: a lattice and the size of the subsystem whose
/// entanglement is measured.
#[derive(Debug, Clone, Copy, PartialEq, Eq, Structural)]
pub struct QuantumDomainConfig {
    pub lattice: SpinLatticeConfig,
    pub subsystem_size: usize,
}

/// The multiplier of a cache-size unit suffix (already trimmed), if known:
/// none or `B` for bytes, `K`/`KB` for KiB, `M`/`MB` for MiB, in any case.
pub open spec fn size_unit(suffix: Seq<char>) -> Option<nat> {
    if suffix.len() == 0 || eq_ignoring_ascii_case(suffix, "b"@) {
        Some(1)
    } else if eq_ignoring_ascii_case(suffix, "k"@) || eq_ignoring_ascii_case(suffix, "kb"@) {
        Some(1024)
    } else if eq_ignoring_ascii_case(suffix, "m"@) || eq_ignoring_ascii_case(suffix, "mb"@) {
        Some(1024 * 1024)
    } else {
        None
    }
}

/// The size that a sysfs cache `size` file states: leading digits and an
/// optional unit, surrounded by whitespace. `None` when the digits are
/// missing or overflow `usize`, or the unit is unknown.
pub open spec fn cache_size_value(raw: Seq<char>) -> Option<nat> {
    let t = trimmed(raw);
    let k = digit_prefix_len(t);
    if t.len() == 0 || k == 0 || digits_value(t.take(k as int)) > usize::MAX {
        None
    } else {
        match size_unit(trimmed(t.skip(k as int))) {
            Some(u) => Some(digits_value(t.take(k as int)) * u),
            None => None,
        }
    }
}

/// The leading number of a sysfs cache `size` text and the multiplier of
/// its unit; `None` when `cache_size_value` is `None`.
fn cache_size_parts(raw: &str) -> (r: Option<(usize, usize)>)
    ensures
        match r {
            Some((d, u)) => cache_size_value(raw@) == Some((d * u) as nat) && (u == 1 || u == 1024 || u == 1024 * 1024),
            None => cache_size_value(raw@) is None,
        },
{
    let trimmed_raw = trim_str(raw);
    let n = trimmed_raw.unicode_len();
    if n == 0 {
        return None;
    }
    let split_at = first_non_digit(trimmed_raw);
    if split_at == 0 {
        return None;
    }
    proof {
        lemma_prefix_len_bound(trimmed_raw@);
    }
    let digits_text = trimmed_raw.substring_char(0, split_at);
    assert(digits_text@ =~= trimmed_raw@.take(split_at as int));
    proof {
        assert forall|q: int| 0 <= q < digits_text@.len() implies crate::text::is_digit(#[trigger] digits_text@[q]) by {
            lemma_prefix_digits(trimmed_raw@, q);
        }
    }
    let digits = match parse_digits(digits_text) {
        Some(d) => d,
        None => {
            return None;
        },
    };
    let rest = trimmed_raw.substring_char(split_at, n);
    assert(rest@ =~= trimmed_raw@.skip(split_at as int));
    let suffix = trim_str(rest);
    let ghost t = trimmed(raw@);
    assert(t == trimmed_raw@);
    assert(split_at == digit_prefix_len(t));
    assert(digits == digits_value(t.take(split_at as int)));
    assert(suffix@ == trimmed(t.skip(split_at as int)));
    if suffix.unicode_len() == 0 || eq_ignore_ascii_case(suffix, "b") {
        return Some((digits, 1));
    }
    if eq_ignore_ascii_case(suffix, "k") || eq_ignore_ascii_case(suffix, "kb") {
        return Some((digits, 1024));
    }
    if eq_ignore_ascii_case(suffix, "m") || eq_ignore_ascii_case(suffix, "mb") {
        return Some((digits, 1024 * 1024));
    }
    None
}

/// Parse the text of `/sys/devices/system/cpu/cpu0/cache/index3/size`
/// (such as `32768K`) into bytes.
pub fn parse_cache_size(raw: &str) -> (r: Option<usize>)
    requires
        cache_size_value(raw@) matches Some(v) ==> v <= usize::MAX,
    ensures
        match r {
            Some(v) => cache_size_value(raw@) == Some(v as nat),
            None => cache_size_value(raw@) is None,
        },
{
    match cache_size_parts(raw) {
        Some((d, u)) => {
            if u == 1 {
                Some(d)
            } else if u == 1024 {
                Some(d * 1024)
            } else {
                assert((d * 1024) * 1024 == d * (1024 * 1024)) by (nonlinear_arith);
                assert(d * 1024 <= d * (1024 * 1024)) by (nonlinear_arith)
                    requires d >= 0;
                Some(d * 1024 * 1024)
            }
        },
        None => None,
    }
}

/// Whether the size a cache `size` text states, if any, fits in `usize`:
/// the condition under which `parse_cache_size` may be called.
pub fn cache_size_fits(raw: &str) -> (r: bool)
    ensures
        r == (cache_size_value(raw@) matches Some(v) ==> v <= usize::MAX),
{
    match cache_size_parts(raw) {
        Some((d, u)) => d.checked_mul(u).is_some(),
        None => true,
    }
}

proof fn lemma_prefix_digits(s: Seq<char>, q: int)
    requires
        0 <= q < digit_prefix_len(s),
    ensures
        crate::text::is_digit(s[q]),
    decreases q,
{
    lemma_prefix_len_bound(s);
    if q > 0 {
        lemma_prefix_digits(s.drop_first(), q - 1);
        assert(s.drop_first()[q - 1] == s[q]);
    }
}

proof fn lemma_prefix_len_bound(s: Seq<char>)
    ensures
        digit_prefix_len(s) <= s.len(),
    decreases s.len(),
{
    if s.len() > 0 {
        lemma_prefix_len_bound(s.drop_first());
    }
}

} // verus!
