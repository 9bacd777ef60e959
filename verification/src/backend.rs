//! Which drawing backend a render asks for, and in which order the GPU
//! backends are tried before falling back to the CPU rasteriser.
use vstd::prelude::*;

use crate::text::{ascii_lower_seq, chars_equal_str, chars_of, lower_ascii, string_from_chars, trim, trimmed};

verus! {

/// The operating system a build targets: the GPU backends differ by it.
#[derive(Clone, Copy, Debug, PartialEq, Eq, Structural)]
pub enum Platform {
    Windows,
    MacOs,
    Other,
}

/// The drawing backend that a render asks for.
#[derive(Clone, Copy, Debug, PartialEq, Eq, Structural)]
pub enum BackendRequest {
    /// Try the platform's GPU backends, then fall back to the CPU.
    Auto,
    /// The CPU rasteriser only.
    Raster,
    /// Direct3D 12 (Windows).
    D3d12,
    /// OpenGL ES through ANGLE (Windows).
    Angle,
    /// Metal (macOS).
    Metal,
}

/// A GPU backend that can be tried.
#[derive(Clone, Copy, Debug, PartialEq, Eq, Structural)]
pub enum GpuBackend {
    D3d12,
    Angle,
    Metal,
}

/// What to do next while choosing a backend.
#[derive(Clone, Copy, Debug, PartialEq, Eq, Structural)]
pub enum BackendStep {
    /// Try to bring up this GPU backend.
    Try(GpuBackend),
    /// Draw with the CPU rasteriser.
    UseRaster,
    /// Fail: the backend that was asked for by name did not come up.
    FailRequested(GpuBackend),
    /// Fail: a GPU backend was asked for that this platform does not have.
    FailUnavailable,
}

impl BackendRequest {
    /// Whether Direct3D 12 may be tried: when it is asked for or the choice is automatic.
    pub fn allows_d3d12(self) -> (b: bool)
        ensures
            b == (self == BackendRequest::Auto || self == BackendRequest::D3d12),
    {
        match self {
            BackendRequest::Auto | BackendRequest::D3d12 => true,
            _ => false,
        }
    }

    /// Whether ANGLE may be tried: when it is asked for or the choice is automatic.
    pub fn allows_angle(self) -> (b: bool)
        ensures
            b == (self == BackendRequest::Auto || self == BackendRequest::Angle),
    {
        match self {
            BackendRequest::Auto | BackendRequest::Angle => true,
            _ => false,
        }
    }

    /// Whether Metal may be tried: when it is asked for or the choice is automatic.
    pub fn allows_metal(self) -> (b: bool)
        ensures
            b == (self == BackendRequest::Auto || self == BackendRequest::Metal),
    {
        match self {
            BackendRequest::Auto | BackendRequest::Metal => true,
            _ => false,
        }
    }
}

/// The request that a backend name selects on a platform, the name already
/// trimmed and lower-cased: the empty name and `auto`, `raster` and `cpu`, and
/// the names of the platform's own GPU backends.
pub open spec fn backend_named(name: Seq<char>, platform: Platform) -> Option<BackendRequest> {
    if name == ""@ || name == "auto"@ {
        Some(BackendRequest::Auto)
    } else if name == "raster"@ || name == "cpu"@ {
        Some(BackendRequest::Raster)
    } else if platform == Platform::Windows && (name == "d3d12"@ || name == "direct3d"@ || name
        == "direct3d12"@) {
        Some(BackendRequest::D3d12)
    } else if platform == Platform::Windows && (name == "angle"@ || name == "gles"@ || name
        == "opengles"@) {
        Some(BackendRequest::Angle)
    } else if platform == Platform::MacOs && name == "metal"@ {
        Some(BackendRequest::Metal)
    } else {
        None
    }
}

/// A backend name, trimmed and with ASCII letters lower-cased.
pub open spec fn normalized_backend_name(value: Seq<char>) -> Seq<char> {
    ascii_lower_seq(trim(value))
}

/// Trims a backend name and lower-cases its ASCII letters.
pub fn normalize_backend_name(value: &str) -> (r: String)
    ensures
        r@ == normalized_backend_name(value@),
{
    let t = trimmed(&chars_of(value));
    let mut lower: Vec<char> = Vec::new();
    let mut i: usize = 0;
    while i < t.len()
        invariant
            i <= t.len(),
            lower@ == ascii_lower_seq(t@.take(i as int)),
        decreases t.len() - i,
    {
        lower.push(lower_ascii(t[i]));
        assert(ascii_lower_seq(t@.take(i + 1)) =~= ascii_lower_seq(t@.take(i as int)).push(
            crate::text::ascii_lower(t@[i as int]),
        ));
        i = i + 1;
    }
    assert(t@.take(t.len() as int) =~= t@);
    string_from_chars(&lower)
}

/// A backend name that no backend of the platform answers to, as normalised.
#[derive(Clone, Debug, PartialEq, Eq)]
pub struct InvalidBackendName {
    pub name: String,
}

/// The backend that a setting asks for: automatic when there is no setting,
/// else the backend that its trimmed, lower-cased value names on `platform`.
pub fn requested_backend(value: Option<&str>, platform: Platform) -> (r: Result<
    BackendRequest,
    InvalidBackendName,
>)
    ensures
        match value {
            None => r == Ok::<BackendRequest, InvalidBackendName>(BackendRequest::Auto),
            Some(v) => match r {
                Ok(b) => backend_named(normalized_backend_name(v@), platform) == Some(b),
                Err(e) => backend_named(normalized_backend_name(v@), platform) is None && e.name@
                    == normalized_backend_name(v@),
            },
        },
{
    let v = match value {
        None => return Ok(BackendRequest::Auto),
        Some(v) => v,
    };
    let name = normalize_backend_name(v);
    let n = chars_of(name.as_str());
    proof {
        reveal_strlit("");
        if n@.len() == 0 {
            assert(n@ =~= ""@);
        }
    }
    if n.len() == 0 || chars_equal_str(&n, "auto") {
        Ok(BackendRequest::Auto)
    } else if chars_equal_str(&n, "raster") || chars_equal_str(&n, "cpu") {
        Ok(BackendRequest::Raster)
    } else if platform == Platform::Windows && (chars_equal_str(&n, "d3d12") || chars_equal_str(
        &n,
        "direct3d",
    ) || chars_equal_str(&n, "direct3d12")) {
        Ok(BackendRequest::D3d12)
    } else if platform == Platform::Windows && (chars_equal_str(&n, "angle") || chars_equal_str(
        &n,
        "gles",
    ) || chars_equal_str(&n, "opengles")) {
        Ok(BackendRequest::Angle)
    } else if platform == Platform::MacOs && chars_equal_str(&n, "metal") {
        Ok(BackendRequest::Metal)
    } else {
        Err(InvalidBackendName { name })
    }
}

/// Where the choice ends once no GPU backend is left to try: the CPU for an
/// automatic choice, a failure for a backend asked for by name.
pub open spec fn backend_fallback(request: BackendRequest) -> BackendStep {
    if request == BackendRequest::Auto {
        BackendStep::UseRaster
    } else {
        BackendStep::FailUnavailable
    }
}

/// The GPU backends that `request` lets a platform try, in order of preference.
pub open spec fn gpu_candidates(request: BackendRequest, platform: Platform) -> Seq<GpuBackend> {
    match platform {
        Platform::Windows => {
            let d = if request == BackendRequest::Auto || request == BackendRequest::D3d12 {
                seq![GpuBackend::D3d12]
            } else {
                Seq::empty()
            };
            let a = if request == BackendRequest::Auto || request == BackendRequest::Angle {
                seq![GpuBackend::Angle]
            } else {
                Seq::empty()
            };
            d + a
        },
        Platform::MacOs => if request == BackendRequest::Auto || request == BackendRequest::Metal {
            seq![GpuBackend::Metal]
        } else {
            Seq::empty()
        },
        Platform::Other => Seq::empty(),
    }
}

/// The step after the first `tried` candidates failed to come up.
pub open spec fn backend_step_spec(request: BackendRequest, platform: Platform, tried: int) -> BackendStep {
    let candidates = gpu_candidates(request, platform);
    if request == BackendRequest::Raster {
        BackendStep::UseRaster
    } else if 0 < tried <= candidates.len() && request != BackendRequest::Auto {
        BackendStep::FailRequested(candidates[tried - 1])
    } else if 0 <= tried < candidates.len() {
        BackendStep::Try(candidates[tried])
    } else {
        backend_fallback(request)
    }
}

/// The next step in bringing up a drawing backend, after `tried` GPU
/// backends failed: the CPU at once for `raster`; a failure as soon as a
/// backend asked for by name fails; else the next GPU backend of the platform
/// (Direct3D 12, then ANGLE on Windows; Metal on macOS); and at the end the
/// CPU, or a failure where a backend was asked for that the platform lacks.
pub fn backend_step(request: BackendRequest, platform: Platform, tried: usize) -> (r: BackendStep)
    ensures
        r == backend_step_spec(request, platform, tried as int),
{
    let mut candidates: Vec<GpuBackend> = Vec::new();
    match platform {
        Platform::Windows => {
            if request.allows_d3d12() {
                candidates.push(GpuBackend::D3d12);
            }
            if request.allows_angle() {
                candidates.push(GpuBackend::Angle);
            }
        },
        Platform::MacOs => {
            if request.allows_metal() {
                candidates.push(GpuBackend::Metal);
            }
        },
        Platform::Other => {},
    }
    assert(candidates@ =~= gpu_candidates(request, platform));
    if request == BackendRequest::Raster {
        BackendStep::UseRaster
    } else if 0 < tried && tried <= candidates.len() && request != BackendRequest::Auto {
        BackendStep::FailRequested(candidates[tried - 1])
    } else if tried < candidates.len() {
        BackendStep::Try(candidates[tried])
    } else if request == BackendRequest::Auto {
        BackendStep::UseRaster
    } else {
        BackendStep::FailUnavailable
    }
}

/// An automatic choice never fails: whatever fails to come up, the next step
/// is another GPU backend or the CPU.
pub proof fn law_auto_never_fails(platform: Platform, tried: int)
    requires
        0 <= tried,
    ensures
        backend_step_spec(BackendRequest::Auto, platform, tried) is Try
            || backend_step_spec(BackendRequest::Auto, platform, tried) is UseRaster,
{
}

/// A GPU backend asked for by name is the only one tried, and the CPU never
/// stands in for it.
pub proof fn law_named_backend_never_falls_back(
    request: BackendRequest,
    platform: Platform,
    tried: int,
)
    requires
        request != BackendRequest::Auto,
        request != BackendRequest::Raster,
        0 <= tried,
    ensures
        backend_step_spec(request, platform, tried) !is UseRaster,
        backend_step_spec(request, platform, tried) matches BackendStep::Try(b) ==> tried == 0
            && gpu_candidates(request, platform) == seq![b],
{
}

/// The backends that the worker probes, each in a process of its own, and
/// whether it may fall back past one that fails: all three in order for
/// `auto`, else only the backend that was named.
pub open spec fn probe_plan(requested: Seq<char>) -> (Seq<Seq<char>>, bool) {
    if requested == "auto"@ {
        (seq!["d3d12"@, "angle"@, "raster"@], true)
    } else {
        (seq![requested], false)
    }
}

/// Lists the backends to probe for a normalised backend name.
pub fn backend_probe_plan(requested: &str) -> (r: (Vec<String>, bool))
    ensures
        r.0@.len() == probe_plan(requested@).0.len(),
        forall|i: int| 0 <= i < r.0@.len() ==> (#[trigger] r.0@[i])@ == probe_plan(requested@).0[i],
        r.1 == probe_plan(requested@).1,
{
    let chars = chars_of(requested);
    let mut plan: Vec<String> = Vec::new();
    if chars_equal_str(&chars, "auto") {
        plan.push(string_from_chars(&chars_of("d3d12")));
        plan.push(string_from_chars(&chars_of("angle")));
        plan.push(string_from_chars(&chars_of("raster")));
        (plan, true)
    } else {
        plan.push(string_from_chars(&chars));
        (plan, false)
    }
}

/// What choosing a Direct3D 12 adapter reads of one adapter: its flags, its
/// vendor, whether a device could be created on it, and its memory.
#[derive(Clone, Copy, Debug, PartialEq, Eq, Structural)]
pub struct AdapterInfo {
    pub software: bool,
    pub remote: bool,
    pub vendor_id: u32,
    pub device_created: bool,
    pub dedicated_video_memory: u64,
    pub shared_system_memory: u64,
}

/// Whether an adapter may draw: a hardware adapter on this machine, not
/// Microsoft's basic render driver (vendor 0x1414), with a Direct3D 12 device.
pub open spec fn adapter_eligible(a: AdapterInfo) -> bool {
    !a.software && !a.remote && a.vendor_id != 0x1414 && a.device_created
}

/// How much an adapter is preferred: its dedicated video memory (capped at
/// 2^50 bytes) and a sixteenth of the system memory it shares.
pub open spec fn adapter_score(a: AdapterInfo) -> int {
    crate::lyrics::min_int(a.dedicated_video_memory as int, 0x4_0000_0000_0000) + a.shared_system_memory
        as int / 16
}

/// The preferred adapter among the first `n`: the eligible one with the
/// highest score, the first of them on a tie.
pub open spec fn best_adapter_among(adapters: Seq<AdapterInfo>, n: int) -> Option<int>
    decreases n,
{
    if n <= 0 {
        None
    } else {
        let before = best_adapter_among(adapters, n - 1);
        if adapter_eligible(adapters[n - 1]) && match before {
            None => true,
            Some(b) => adapter_score(adapters[n - 1]) > adapter_score(adapters[b]),
        } {
            Some(n - 1)
        } else {
            before
        }
    }
}

/// Picks the Direct3D 12 adapter to draw with, in enumeration order.
pub fn best_adapter(adapters: &[AdapterInfo]) -> (r: Option<usize>)
    ensures
        match r {
            Some(i) => best_adapter_among(adapters@, adapters@.len() as int) == Some(i as int),
            None => best_adapter_among(adapters@, adapters@.len() as int) is None,
        },
{
    let mut best: Option<usize> = None;
    let mut best_score: u64 = 0;
    let mut i: usize = 0;
    while i < adapters.len()
        invariant
            i <= adapters.len(),
            match best {
                Some(b) => best_adapter_among(adapters@, i as int) == Some(b as int) && b < i
                    && best_score as int == adapter_score(adapters@[b as int]),
                None => best_adapter_among(adapters@, i as int) is None,
            },
        decreases adapters.len() - i,
    {
        let a = adapters[i];
        let eligible = !a.software && !a.remote && a.vendor_id != 0x1414 && a.device_created;
        let capped: u64 = if a.dedicated_video_memory < 0x4_0000_0000_0000 {
            a.dedicated_video_memory
        } else {
            0x4_0000_0000_0000
        };
        let score = capped + a.shared_system_memory / 16;
        let better = match best {
            None => true,
            Some(_) => score > best_score,
        };
        if eligible && better {
            best = Some(i);
            best_score = score;
        }
        i = i + 1;
    }
    best
}

proof fn lemma_best_adapter(adapters: Seq<AdapterInfo>, n: int)
    requires
        0 <= n <= adapters.len(),
    ensures
        best_adapter_among(adapters, n) matches Some(b) ==> {
            &&& 0 <= b < n
            &&& adapter_eligible(adapters[b])
            &&& forall|k: int|
                0 <= k < n && adapter_eligible(#[trigger] adapters[k]) ==> adapter_score(adapters[k])
                    <= adapter_score(adapters[b])
            &&& forall|k: int|
                0 <= k < b && adapter_eligible(#[trigger] adapters[k]) ==> adapter_score(adapters[k])
                    < adapter_score(adapters[b])
        },
        best_adapter_among(adapters, n) is None ==> forall|k: int|
            0 <= k < n ==> !adapter_eligible(#[trigger] adapters[k]),
    decreases n,
{
    if n > 0 {
        lemma_best_adapter(adapters, n - 1);
    }
}

/// The adapter chosen is eligible and scores highest among the eligible
/// ones, the first of them on a tie; none is chosen only when none is eligible.
pub proof fn law_best_adapter_scores_highest(adapters: Seq<AdapterInfo>)
    ensures
        best_adapter_among(adapters, adapters.len() as int) matches Some(b) ==> {
            &&& 0 <= b < adapters.len()
            &&& adapter_eligible(adapters[b])
            &&& forall|k: int|
                0 <= k < adapters.len() && adapter_eligible(#[trigger] adapters[k]) ==> adapter_score(
                    adapters[k],
                ) <= adapter_score(adapters[b])
            &&& forall|k: int|
                0 <= k < b && adapter_eligible(#[trigger] adapters[k]) ==> adapter_score(adapters[k])
                    < adapter_score(adapters[b])
        },
        best_adapter_among(adapters, adapters.len() as int) is None ==> forall|k: int|
            0 <= k < adapters.len() ==> !adapter_eligible(#[trigger] adapters[k]),
{
    lemma_best_adapter(adapters, adapters.len() as int);
}

} // verus!
