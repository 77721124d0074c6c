//! Reading what the GPU tools report, summarising what a Vulkan device
//! offers, and choosing the fluid backend from a preference and the
//! capabilities found.
use crate::kernel_api::{CpuKernelFlavor, FluidBackendError, FluidBackendKind, FluidBackendPreference};
use crate::text::{decimal, decimal_text, parse_u64, trim_str, trimmed, u64_text_value};
use vstd::prelude::*;

verus! {

/// Whether `pat` occurs in `s` at position `j`.
pub open spec fn matches_at(s: Seq<char>, pat: Seq<char>, j: int) -> bool {
    0 <= j && j + pat.len() <= s.len() && s.subrange(j, j + pat.len()) == pat
}

/// The first position at or after `from` where `pat` occurs in `s`.
pub open spec fn find_from(s: Seq<char>, pat: Seq<char>, from: int) -> Option<int>
    decreases s.len() + 1 - from,
{
    if from < 0 || from + pat.len() > s.len() {
        None
    } else if matches_at(s, pat, from) {
        Some(from)
    } else {
        find_from(s, pat, from + 1)
    }
}

/// The first position of `c` in `s`, or the length of `s` when it is absent.
pub open spec fn index_or_len(s: Seq<char>, c: char) -> int
    decreases s.len(),
{
    if s.len() == 0 {
        0
    } else if s[0] == c {
        0
    } else {
        1 + index_or_len(s.drop_first(), c)
    }
}

proof fn lemma_index_or_len(s: Seq<char>, c: char, k: int)
    requires
        0 <= k <= s.len(),
        forall|j: int| 0 <= j < k ==> s[j] != c,
        k == s.len() || s[k] == c,
    ensures
        index_or_len(s, c) == k,
    decreases k,
{
    if k > 0 {
        assert forall|j: int| 0 <= j < k - 1 implies s.drop_first()[j] != c by {
            assert(s.drop_first()[j] == s[j + 1]);
        }
        if k < s.len() {
            assert(s.drop_first()[k - 1] == s[k]);
        }
        lemma_index_or_len(s.drop_first(), c, k - 1);
    }
}

proof fn lemma_find_skip(s: Seq<char>, pat: Seq<char>, i: int)
    requires
        0 <= i,
        forall|j: int| 0 <= j < i ==> !#[trigger] matches_at(s, pat, j),
    ensures
        find_from(s, pat, 0) == find_from(s, pat, i),
    decreases i,
{
    if i > 0 {
        lemma_find_skip(s, pat, i - 1);
    }
}

/// Whether `pat` occurs in `s` at position `i`.
fn occurs_at(s: &str, pat: &str, i: usize) -> (r: bool)
    requires
        i + pat@.len() <= s@.len(),
    ensures
        r == matches_at(s@, pat@, i as int),
{
    let n = s.unicode_len();
    let m = pat.unicode_len();
    let mut k: usize = 0;
    while k < m
        invariant
            k <= m == pat@.len(),
            n == s@.len(),
            i + m <= n,
            forall|j: int| 0 <= j < k ==> s@[i + j] == pat@[j],
        decreases m - k,
    {
        if s.get_char(i + k) != pat.get_char(k) {
            assert(s@.subrange(i as int, i + m)[k as int] != pat@[k as int]);
            return false;
        }
        k = k + 1;
    }
    assert(s@.subrange(i as int, i + m) =~= pat@);
    true
}

/// The first position where `pat` occurs in `s`.
pub fn find_text(s: &str, pat: &str) -> (r: Option<usize>)
    ensures
        match r {
            Some(i) => find_from(s@, pat@, 0) == Some(i as int),
            None => find_from(s@, pat@, 0) is None,
        },
{
    let n = s.unicode_len();
    let m = pat.unicode_len();
    if m > n {
        return None;
    }
    if m == 0 {
        assert(s@.subrange(0, 0) =~= pat@);
        return Some(0);
    }
    let mut i: usize = 0;
    while i <= n - m
        invariant
            n == s@.len(),
            m == pat@.len(),
            1 <= m <= n,
            i <= n - m + 1,
            forall|j: int| 0 <= j < i ==> !#[trigger] matches_at(s@, pat@, j),
        decreases n - i,
    {
        if occurs_at(s, pat, i) {
            proof {
                lemma_find_skip(s@, pat@, i as int);
            }
            return Some(i);
        }
        i = i + 1;
    }
    proof {
        lemma_find_skip(s@, pat@, i as int);
        assert(find_from(s@, pat@, i as int) is None);
    }
    None
}

/// The first position of `c` in `s`, or its length.
fn position_or_len(s: &str, c: char) -> (r: usize)
    ensures
        r == index_or_len(s@, c),
        r <= s@.len(),
{
    let n = s.unicode_len();
    let mut i: usize = 0;
    while i < n
        invariant
            i <= n == s@.len(),
            forall|j: int| 0 <= j < i ==> s@[j] != c,
        decreases n - i,
    {
        if s.get_char(i) == c {
            proof {
                lemma_index_or_len(s@, c, i as int);
            }
            return i;
        }
        i = i + 1;
    }
    proof {
        lemma_index_or_len(s@, c, i as int);
    }
    i
}

/// The release that `nvcc --version` reports: the text after the first
/// `release `, up to the next comma, trimmed.
pub open spec fn nvcc_release_text(out: Seq<char>) -> Option<Seq<char>> {
    match find_from(out, "release "@, 0) {
        Some(p) => {
            let tail = out.subrange(p + 8, out.len() as int);
            Some(trimmed(tail.take(index_or_len(tail, ','))))
        },
        None => None,
    }
}

/// Reads the release from the output of `nvcc --version`.
pub fn nvcc_release(out: &str) -> (r: Option<String>)
    ensures
        match r {
            Some(v) => nvcc_release_text(out@) == Some(v@),
            None => nvcc_release_text(out@) is None,
        },
{
    let marker = "release ";
    proof {
        reveal_strlit("release ");
    }
    let n = out.unicode_len();
    match find_text(out, marker) {
        None => None,
        Some(p) => {
            proof {
                lemma_found_in_range(out@, marker@, p as int);
            }
            let tail = out.substring_char(p + 8, n);
            let end = position_or_len(tail, ',');
            let head = tail.substring_char(0, end);
            assert(head@ =~= tail@.take(end as int));
            Some(trim_str(head).to_owned())
        },
    }
}

proof fn lemma_found_in_range(s: Seq<char>, pat: Seq<char>, p: int)
    requires
        find_from(s, pat, 0) == Some(p),
    ensures
        0 <= p && p + pat.len() <= s.len(),
{
    lemma_found_from(s, pat, 0);
}

proof fn lemma_found_from(s: Seq<char>, pat: Seq<char>, from: int)
    requires
        0 <= from,
    ensures
        find_from(s, pat, from) matches Some(p) ==> from <= p && p + pat.len() <= s.len(),
    decreases s.len() + 1 - from,
{
    if from + pat.len() <= s.len() && !matches_at(s, pat, from) {
        lemma_found_from(s, pat, from + 1);
    }
}

/// The first line of a tool's output, trimmed; `None` when the output is
/// empty (as `str::lines` gives no line then).
pub open spec fn first_line_text(out: Seq<char>) -> Option<Seq<char>> {
    if out.len() == 0 {
        None
    } else {
        Some(trimmed(out.take(index_or_len(out, '\n'))))
    }
}

/// The first line of a tool's output, trimmed of whitespace (a line ending
/// `\r` included).
pub fn first_line(out: &str) -> (r: Option<String>)
    ensures
        match r {
            Some(v) => first_line_text(out@) == Some(v@),
            None => first_line_text(out@) is None,
        },
{
    if out.unicode_len() == 0 {
        return None;
    }
    let end = position_or_len(out, '\n');
    let line = out.substring_char(0, end);
    assert(line@ =~= out@.take(end as int));
    Some(trim_str(line).to_owned())
}

/// Field `k` of a comma-separated line, if the line has that many fields.
pub open spec fn comma_field(s: Seq<char>, k: nat) -> Option<Seq<char>>
    decreases k,
{
    let c = index_or_len(s, ',');
    if k == 0 {
        Some(s.take(c))
    } else if c >= s.len() {
        None
    } else {
        comma_field(s.subrange(c + 1, s.len() as int), (k - 1) as nat)
    }
}

proof fn lemma_index_or_len_bound(s: Seq<char>, c: char)
    ensures
        0 <= index_or_len(s, c) <= s.len(),
        index_or_len(s, c) < s.len() ==> s[index_or_len(s, c)] == c,
    decreases s.len(),
{
    if s.len() > 0 && s[0] != c {
        lemma_index_or_len_bound(s.drop_first(), c);
        if index_or_len(s, c) < s.len() {
            assert(s.drop_first()[index_or_len(s, c) - 1] == s[index_or_len(s, c)]);
        }
    }
}

/// Field `k` of a comma-separated line.
fn field(line: &str, k: usize) -> (r: Option<&str>)
    ensures
        match r {
            Some(v) => comma_field(line@, k as nat) == Some(v@),
            None => comma_field(line@, k as nat) is None,
        },
    decreases k,
{
    let c = position_or_len(line, ',');
    if k == 0 {
        let f = line.substring_char(0, c);
        assert(f@ =~= line@.take(c as int));
        Some(f)
    } else if c >= line.unicode_len() {
        None
    } else {
        let rest = line.substring_char(c + 1, line.unicode_len());
        field(rest, k - 1)
    }
}

/// A `u32` as `str::parse::<u32>` reads it.
pub open spec fn u32_text_value(s: Seq<char>) -> Option<nat> {
    match u64_text_value(s) {
        Some(v) => if v <= u32::MAX {
            Some(v)
        } else {
            None
        },
        None => None,
    }
}

/// Reads a `u32` the way `str::parse::<u32>` does.
pub fn parse_u32(s: &str) -> (r: Option<u32>)
    ensures
        match r {
            Some(v) => u32_text_value(s@) == Some(v as nat),
            None => u32_text_value(s@) is None,
        },
{
    match parse_u64(s) {
        Some(v) => if v <= 0xffff_ffffu64 {
            Some(v as u32)
        } else {
            None
        },
        None => None,
    }
}

/// What `nvidia-smi --query-gpu=name,memory.total,driver_version` reports
/// on its first line: the name, the memory in MiB (when it reads as a
/// `u32`) and the driver version, each field trimmed.
pub open spec fn gpu_query_text(out: Seq<char>) -> Option<(Seq<char>, Option<nat>, Option<Seq<char>>)> {
    match first_line_text(out) {
        None => None,
        Some(line) => {
            let name = trimmed(comma_field(line, 0)->0);
            let memory = match comma_field(line, 1) {
                Some(f) => u32_text_value(trimmed(f)),
                None => None,
            };
            let driver = match comma_field(line, 2) {
                Some(f) => Some(trimmed(f)),
                None => None,
            };
            Some((name, memory, driver))
        },
    }
}

/// Reads the name, memory and driver of the first GPU from `nvidia-smi`.
pub fn parse_gpu_query(out: &str) -> (r: Option<(String, Option<u32>, Option<String>)>)
    ensures
        match r {
            Some((name, memory, driver)) => gpu_query_text(out@) == Some(
                (
                    name@,
                    match memory {
                        Some(m) => Some(m as nat),
                        None => None,
                    },
                    match driver {
                        Some(d) => Some(d@),
                        None => None,
                    },
                ),
            ),
            None => gpu_query_text(out@) is None,
        },
{
    let line = match first_line(out) {
        Some(l) => l,
        None => return None,
    };
    let name = match field(line.as_str(), 0) {
        Some(f) => trim_str(f).to_owned(),
        None => {
            assert(false);
            return None;
        },
    };
    let memory = match field(line.as_str(), 1) {
        Some(f) => parse_u32(trim_str(f)),
        None => None,
    };
    let driver = match field(line.as_str(), 2) {
        Some(f) => Some(trim_str(f).to_owned()),
        None => None,
    };
    Some((name, memory, driver))
}

/// The largest device-local heap in whole MiB, each size cut to `u32` as a
/// cast does; `None` without a device-local heap.
pub open spec fn vram_from_heaps(heaps: Seq<(u64, bool)>) -> Option<u32>
    decreases heaps.len(),
{
    if heaps.len() == 0 {
        None
    } else {
        let rest = vram_from_heaps(heaps.drop_last());
        let h = heaps.last();
        if h.1 {
            let mb = (h.0 / 1048576) as u32;
            match rest {
                Some(cur) => Some(if cur >= mb { cur } else { mb }),
                None => Some(mb),
            }
        } else {
            rest
        }
    }
}

/// The VRAM of a Vulkan device from its memory heaps (size in bytes and
/// whether the heap is device-local).
pub fn vram_mb(heaps: &Vec<(u64, bool)>) -> (r: Option<u32>)
    ensures
        r == vram_from_heaps(heaps@),
{
    let mut best: Option<u32> = None;
    let mut i: usize = 0;
    while i < heaps.len()
        invariant
            i <= heaps@.len(),
            best == vram_from_heaps(heaps@.take(i as int)),
        decreases heaps@.len() - i,
    {
        assert(heaps@.take(i + 1).drop_last() =~= heaps@.take(i as int));
        let (size, device_local) = heaps[i];
        if device_local {
            #[verifier::truncate]
            let mb = (size / (1024 * 1024)) as u32;
            best = match best {
                Some(cur) => Some(if cur >= mb { cur } else { mb }),
                None => Some(mb),
            };
        }
        i = i + 1;
    }
    assert(heaps@.take(i as int) =~= heaps@);
    best
}

/// The first device that has a queue family with compute support, given
/// for each device the compute flag of each of its queue families.
pub open spec fn first_compute_device(devices: Seq<Seq<bool>>, from: int) -> Option<int>
    decreases devices.len() - from,
{
    if from < 0 || from >= devices.len() {
        None
    } else if devices[from].contains(true) {
        Some(from)
    } else {
        first_compute_device(devices, from + 1)
    }
}

proof fn lemma_first_compute_skip(devices: Seq<Seq<bool>>, i: int)
    requires
        0 <= i <= devices.len(),
        forall|j: int| 0 <= j < i ==> !devices[j].contains(true),
    ensures
        first_compute_device(devices, 0) == first_compute_device(devices, i),
    decreases i,
{
    if i > 0 {
        lemma_first_compute_skip(devices, i - 1);
    }
}

/// Picks the first device able to run compute work.
pub fn pick_compute_device(devices: &Vec<Vec<bool>>) -> (r: Option<usize>)
    ensures
        match r {
            Some(i) => first_compute_device(devices@.map_values(|d: Vec<bool>| d@), 0) == Some(i as int),
            None => first_compute_device(devices@.map_values(|d: Vec<bool>| d@), 0) is None,
        },
{
    let ghost ds = devices@.map_values(|d: Vec<bool>| d@);
    let mut i: usize = 0;
    while i < devices.len()
        invariant
            i <= devices@.len(),
            ds == devices@.map_values(|d: Vec<bool>| d@),
            forall|j: int| 0 <= j < i ==> !ds[j].contains(true),
        decreases devices@.len() - i,
    {
        let families = &devices[i];
        let mut k: usize = 0;
        let mut any = false;
        while k < families.len()
            invariant
                k <= families@.len(),
                any == exists|j: int| 0 <= j < k && families@[j],
            decreases families@.len() - k,
        {
            if families[k] {
                any = true;
            }
            k = k + 1;
        }
        assert(ds[i as int] == families@);
        if any {
            proof {
                let j = choose|j: int| 0 <= j < k && families@[j];
                assert(ds[i as int][j] == true);
                lemma_first_compute_skip(ds, i as int);
            }
            return Some(i);
        }
        assert(!ds[i as int].contains(true));
        i = i + 1;
    }
    proof {
        lemma_first_compute_skip(ds, i as int);
    }
    None
}

/// The major, minor and patch numbers of a packed Vulkan API version.
pub open spec fn api_version_parts(v: u32) -> (u32, u32, u32) {
    ((v >> 22u32) & 0x7fu32, (v >> 12u32) & 0x3ffu32, v & 0xfffu32)
}

/// `major.minor.patch` of a packed Vulkan API version.
pub open spec fn api_version_text(v: u32) -> Seq<char> {
    let (a, b, c) = api_version_parts(v);
    decimal_text(a as nat) + "."@ + decimal_text(b as nat) + "."@ + decimal_text(c as nat)
}

/// Writes a packed Vulkan API version as `major.minor.patch`.
pub fn api_version_string(v: u32) -> (r: String)
    ensures
        r@ == api_version_text(v),
{
    let major = (v >> 22u32) & 0x7fu32;
    let minor = (v >> 12u32) & 0x3ffu32;
    let patch = v & 0xfffu32;
    let mut s = decimal(major as usize);
    s.append(".");
    let b = decimal(minor as usize);
    s.append(b.as_str());
    s.append(".");
    let c = decimal(patch as usize);
    s.append(c.as_str());
    s
}

/// Which optional GPU backends this build includes.
#[derive(Debug, Clone, Copy, PartialEq, Eq, Structural)]
pub struct BackendSupport {
    pub cuda: bool,
    pub vulkan: bool,
}

/// The CPU kernel of a flavor.
pub open spec fn cpu_kind(flavor: CpuKernelFlavor) -> FluidBackendKind {
    match flavor {
        CpuKernelFlavor::SoA => FluidBackendKind::CpuSoA,
        CpuKernelFlavor::Scalar => FluidBackendKind::CpuScalar,
    }
}

/// Vulkan when the build has it and a device was found, else the CPU.
pub open spec fn vulkan_or_cpu(flavor: CpuKernelFlavor, has_vulkan: bool, support: BackendSupport) -> FluidBackendKind {
    if support.vulkan && has_vulkan {
        FluidBackendKind::Vulkan
    } else {
        cpu_kind(flavor)
    }
}

/// CUDA when the build has it and a device was found; else Vulkan when
/// allowed, else the CPU.
pub open spec fn cuda_or_fallback(
    flavor: CpuKernelFlavor,
    has_cuda: bool,
    has_vulkan: bool,
    support: BackendSupport,
    allow_vulkan: bool,
) -> FluidBackendKind {
    if support.cuda && has_cuda {
        FluidBackendKind::Cuda
    } else if allow_vulkan {
        vulkan_or_cpu(flavor, has_vulkan, support)
    } else {
        cpu_kind(flavor)
    }
}

/// The backend a preference selects.
pub open spec fn selected_backend(
    preference: FluidBackendPreference,
    flavor: CpuKernelFlavor,
    has_cuda: bool,
    has_vulkan: bool,
    support: BackendSupport,
) -> FluidBackendKind {
    match preference {
        FluidBackendPreference::CpuOnly => cpu_kind(flavor),
        FluidBackendPreference::CudaPreferred => cuda_or_fallback(flavor, has_cuda, has_vulkan, support, false),
        FluidBackendPreference::VulkanPreferred => vulkan_or_cpu(flavor, has_vulkan, support),
        FluidBackendPreference::Auto => cuda_or_fallback(flavor, has_cuda, has_vulkan, support, true),
    }
}

/// The CPU kernel for a flavor.
pub fn cpu_backend(flavor: CpuKernelFlavor) -> (r: FluidBackendKind)
    ensures
        r == cpu_kind(flavor),
{
    match flavor {
        CpuKernelFlavor::SoA => FluidBackendKind::CpuSoA,
        CpuKernelFlavor::Scalar => FluidBackendKind::CpuScalar,
    }
}

/// Tries Vulkan, falling back to the CPU.
pub fn try_vulkan_then_fallback(flavor: CpuKernelFlavor, has_vulkan: bool, support: BackendSupport) -> (r:
    FluidBackendKind)
    ensures
        r == vulkan_or_cpu(flavor, has_vulkan, support),
{
    if support.vulkan && has_vulkan {
        FluidBackendKind::Vulkan
    } else {
        cpu_backend(flavor)
    }
}

/// Tries CUDA, then (when allowed) Vulkan, then the CPU.
pub fn try_cuda_then_fallback(
    flavor: CpuKernelFlavor,
    has_cuda: bool,
    has_vulkan: bool,
    support: BackendSupport,
    allow_vulkan_fallback: bool,
) -> (r: FluidBackendKind)
    ensures
        r == cuda_or_fallback(flavor, has_cuda, has_vulkan, support, allow_vulkan_fallback),
{
    if support.cuda && has_cuda {
        return FluidBackendKind::Cuda;
    }
    if allow_vulkan_fallback {
        return try_vulkan_then_fallback(flavor, has_vulkan, support);
    }
    cpu_backend(flavor)
}

/// The fluid backend to build for a preference, a CPU flavor, the devices
/// found and the backends this build includes.
pub fn choose_backend(
    preference: FluidBackendPreference,
    flavor: CpuKernelFlavor,
    has_cuda: bool,
    has_vulkan: bool,
    support: BackendSupport,
) -> (r: FluidBackendKind)
    ensures
        r == selected_backend(preference, flavor, has_cuda, has_vulkan, support),
{
    match preference {
        FluidBackendPreference::CpuOnly => cpu_backend(flavor),
        FluidBackendPreference::CudaPreferred => try_cuda_then_fallback(flavor, has_cuda, has_vulkan, support, false),
        FluidBackendPreference::VulkanPreferred => try_vulkan_then_fallback(flavor, has_vulkan, support),
        FluidBackendPreference::Auto => try_cuda_then_fallback(flavor, has_cuda, has_vulkan, support, true),
    }
}

/// A backend is only chosen when the build has it and a device was found;
/// CPU-only always gets the CPU kernel of its flavor.
pub proof fn lemma_backend_choice_sound(
    preference: FluidBackendPreference,
    flavor: CpuKernelFlavor,
    has_cuda: bool,
    has_vulkan: bool,
    support: BackendSupport,
)
    ensures
        selected_backend(preference, flavor, has_cuda, has_vulkan, support) == FluidBackendKind::Cuda ==> support.cuda
            && has_cuda,
        selected_backend(preference, flavor, has_cuda, has_vulkan, support) == FluidBackendKind::Vulkan ==> support.vulkan
            && has_vulkan,
        preference == FluidBackendPreference::CpuOnly ==> selected_backend(
            preference,
            flavor,
            has_cuda,
            has_vulkan,
            support,
        ) == cpu_kind(flavor),
{
}

/// Whether a CUDA kernel may be created: only when a CUDA device was found.
pub fn require_cuda_device(has_cuda: bool) -> (r: Result<(), FluidBackendError>)
    ensures
        has_cuda <==> r is Ok,
        !has_cuda ==> (r matches Err(FluidBackendError::UnsupportedBackend(m)) && m@ == "no CUDA-capable device detected"@),
{
    if !has_cuda {
        return Err(FluidBackendError::UnsupportedBackend("no CUDA-capable device detected"));
    }
    Ok(())
}

/// Whether a Vulkan kernel may be created: only when a device with a
/// compute queue was found.
pub fn require_vulkan_device(has_vulkan: bool) -> (r: Result<(), FluidBackendError>)
    ensures
        has_vulkan <==> r is Ok,
        !has_vulkan ==> (r matches Err(FluidBackendError::UnsupportedBackend(m)) && m@
            == "no Vulkan compute-capable device detected"@),
{
    if !has_vulkan {
        return Err(FluidBackendError::UnsupportedBackend("no Vulkan compute-capable device detected"));
    }
    Ok(())
}

} // verus!
