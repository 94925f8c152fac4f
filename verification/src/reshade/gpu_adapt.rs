//! Downgrading heavy ReShade presets on weak GPUs.
use vstd::prelude::*;
use crate::models::{GpuCapabilities, GpuVendor};
use crate::text::{
    lowercase_of, to_lowercase, append_str, chars_of, contains, contains_str, occurs_at, first_occ_from, find_sub, is_digit, string_of,
};

verus! {

#[derive(Debug, Clone)]
pub struct GpuAdaptResult {
    pub preset_id: String,
    pub reason: Option<String>,
}

/// A Polaris model (`rx 580`) occurs, and its first occurrence is not
/// followed by another digit (so `rx 5600` is not `rx 560`).
pub open spec fn polaris_model_at(s: Seq<char>, m: Seq<char>) -> bool {
    let i = first_occ_from(s, m, 0);
    i >= 0 && !(i + m.len() < s.len() && is_digit(s[i + m.len()]))
}

pub open spec fn newer_amd(s: Seq<char>) -> bool {
    contains(s, "rx 6"@) || contains(s, "rx 7"@) || contains(s, "rx 8"@) || contains(s, "rx 9"@)
        || contains(s, "rx 5500"@) || contains(s, "rx 5600"@) || contains(s, "rx 5700"@)
        || contains(s, "rx 5800"@) || contains(s, "rx 5900"@)
}

pub open spec fn polaris_models() -> Seq<Seq<char>> {
    seq![
        "rx 450"@,
        "rx 455"@,
        "rx 460"@,
        "rx 465"@,
        "rx 470"@,
        "rx 475"@,
        "rx 480"@,
        "rx 485"@,
        "rx 490"@,
        "rx 550"@,
        "rx 560"@,
        "rx 570"@,
        "rx 580"@,
        "rx 590"@,
    ]
}

/// An AMD Polaris card (RX 4xx/5xx with a three-digit model), not a newer
/// Navi or RDNA one.
pub open spec fn legacy_amd_rx(s: Seq<char>) -> bool {
    !newer_amd(s) && exists|k: int| 0 <= k < polaris_models().len() && polaris_model_at(s, #[trigger] polaris_models()[k])
}

/// A weak GPU, judged from its vendor and its lower-cased name: any Intel
/// GPU, GTX/GT/MX/Quadro M/NVIDIA T cards, Polaris, and Radeon R5/R7/R9.
pub open spec fn weak_gpu_lower(vendor: GpuVendor, s: Seq<char>) -> bool {
    ||| vendor == GpuVendor::Intel
    ||| contains(s, "gtx"@)
    ||| contains(s, "geforce gt "@)
    ||| contains(s, "geforce mx"@)
    ||| contains(s, "quadro m"@)
    ||| contains(s, "nvidia t"@)
    ||| legacy_amd_rx(s)
    ||| contains(s, "radeon r5"@)
    ||| contains(s, "radeon r7"@)
    ||| contains(s, "radeon r9"@)
}

fn contains_polaris_rx_model(lower: &Vec<char>, model: &str) -> (r: bool)
    ensures
        r == polaris_model_at(lower@, model@),
{
    let m = chars_of(model);
    match find_sub(lower, &m) {
        None => false,
        Some(idx) => {
            proof {
                crate::text::lemma_first_occ(lower@, m@, 0);
                assert(occurs_at(lower@, m@, idx as int));
                assert(idx + m@.len() <= lower@.len());
            }
            assert(idx + m.len() <= lower.len());
            let after = idx + m.len();
            !(after < lower.len() && '0' <= lower[after] && lower[after] <= '9')
        },
    }
}

fn is_legacy_amd_rx(lower: &Vec<char>) -> (r: bool)
    ensures
        r == legacy_amd_rx(lower@),
{
    if contains_str(lower, "rx 6") || contains_str(lower, "rx 7") || contains_str(lower, "rx 8")
        || contains_str(lower, "rx 9") {
        return false;
    }
    if contains_str(lower, "rx 5500") || contains_str(lower, "rx 5600") || contains_str(
        lower,
        "rx 5700",
    ) || contains_str(lower, "rx 5800") || contains_str(lower, "rx 5900") {
        return false;
    }
    let ghost ms = polaris_models();
    let models = vec![
        "rx 450",
        "rx 455",
        "rx 460",
        "rx 465",
        "rx 470",
        "rx 475",
        "rx 480",
        "rx 485",
        "rx 490",
        "rx 550",
        "rx 560",
        "rx 570",
        "rx 580",
        "rx 590",
    ];
    assert(models@.len() == ms.len());
    assert forall|k: int| 0 <= k < ms.len() implies models@[k]@ == ms[k] by {}
    let mut i: usize = 0;
    while i < models.len()
        invariant
            i <= models.len(),
            models@.len() == ms.len(),
            ms == polaris_models(),
            !newer_amd(lower@),
            forall|k: int| 0 <= k < ms.len() ==> models@[k]@ == ms[k],
            forall|k: int| 0 <= k < i ==> !polaris_model_at(lower@, #[trigger] ms[k]),
        decreases models.len() - i,
    {
        if contains_polaris_rx_model(lower, models[i]) {
            assert(polaris_model_at(lower@, polaris_models()[i as int]));
            return true;
        }
        i += 1;
    }
    false
}

/// Whether a lower-cased GPU name (with its vendor) marks a weak GPU.
pub fn is_weak_gpu_lower(vendor: GpuVendor, lower: &str) -> (r: bool)
    ensures
        r == weak_gpu_lower(vendor, lower@),
        vendor == GpuVendor::Intel ==> r,
        contains(lower@, "gtx"@) ==> r,
        contains(lower@, "geforce gt "@) ==> r,
        contains(lower@, "geforce mx"@) ==> r,
        contains(lower@, "quadro m"@) ==> r,
        contains(lower@, "nvidia t"@) ==> r,
        contains(lower@, "radeon r5"@) ==> r,
        contains(lower@, "radeon r7"@) ==> r,
        contains(lower@, "radeon r9"@) ==> r,
        forall|k: int|
            0 <= k < polaris_models().len() && !newer_amd(lower@) && polaris_model_at(
                lower@,
                #[trigger] polaris_models()[k],
            ) ==> r,
        !r ==> vendor != GpuVendor::Intel && !contains(lower@, "gtx"@) && !contains(
            lower@,
            "geforce mx"@,
        ) && !contains(lower@, "radeon r9"@),
{
    proof {
        weak_gpu_markers(vendor, lower@);
    }
    if vendor == GpuVendor::Intel {
        return true;
    }
    let l = chars_of(lower);
    if contains_str(&l, "gtx") || contains_str(&l, "geforce gt ") || contains_str(&l, "geforce mx")
        || contains_str(&l, "quadro m") || contains_str(&l, "nvidia t") {
        return true;
    }
    if is_legacy_amd_rx(&l) {
        return true;
    }
    if contains_str(&l, "radeon r5") || contains_str(&l, "radeon r7") || contains_str(
        &l,
        "radeon r9",
    ) {
        return true;
    }
    false
}

/// Whether a GPU is weak (judged on its lower-cased name).
pub fn is_weak_gpu(gpu: &GpuCapabilities) -> (r: bool)
    ensures
        r == weak_gpu_lower(gpu.vendor, lowercase_of(gpu.name@)),
        gpu.vendor == GpuVendor::Intel ==> r,
        contains(lowercase_of(gpu.name@), "gtx"@) ==> r,
        contains(lowercase_of(gpu.name@), "geforce gt "@) ==> r,
        contains(lowercase_of(gpu.name@), "geforce mx"@) ==> r,
        contains(lowercase_of(gpu.name@), "quadro m"@) ==> r,
        contains(lowercase_of(gpu.name@), "nvidia t"@) ==> r,
        contains(lowercase_of(gpu.name@), "radeon r5"@) ==> r,
        contains(lowercase_of(gpu.name@), "radeon r7"@) ==> r,
        contains(lowercase_of(gpu.name@), "radeon r9"@) ==> r,
{
    proof {
        weak_gpu_markers(gpu.vendor, lowercase_of(gpu.name@));
    }
    if gpu.vendor == GpuVendor::Intel {
        return true;
    }
    let lower = to_lowercase(gpu.name.as_str());
    is_weak_gpu_lower(gpu.vendor, lower.as_str())
}

/// The preset to install given whether the GPU is weak: a weak GPU gets
/// `performance` in place of `cinematic` or `clarity`, with the reason.
pub open spec fn adapted_preset(weak: bool, requested: Seq<char>) -> Seq<char> {
    if weak && (requested == "cinematic"@ || requested == "clarity"@) {
        "performance"@
    } else {
        requested
    }
}

/// Adapts a requested preset to a weak GPU, judged on its lower-cased name.
pub fn adapt_preset_with_gpu(requested: &str, gpu: &GpuCapabilities) -> (r: GpuAdaptResult)
    ensures
        ({
            let weak = weak_gpu_lower(gpu.vendor, lowercase_of(gpu.name@));
            &&& r.preset_id@ == adapted_preset(weak, requested@)
            &&& r.reason is Some <==> r.preset_id@ != requested@
            &&& r.reason matches Some(m) ==> m@ == "Слабая GPU ("@ + gpu.name@
                + ") — выбран Performance вместо "@ + requested@
        }),
{
    proof {
        reveal_strlit("performance");
        reveal_strlit("cinematic");
        reveal_strlit("clarity");
    }
    if !is_weak_gpu(gpu) {
        return GpuAdaptResult { preset_id: crate::text::owned(requested), reason: None };
    }
    if crate::text::str_eq(requested, "cinematic") || crate::text::str_eq(requested, "clarity") {
        let mut m = chars_of("Слабая GPU (");
        append_str(&mut m, gpu.name.as_str());
        append_str(&mut m, ") — выбран Performance вместо ");
        append_str(&mut m, requested);
        GpuAdaptResult {
            preset_id: crate::text::owned("performance"),
            reason: Some(string_of(&m)),
        }
    } else {
        GpuAdaptResult { preset_id: crate::text::owned(requested), reason: None }
    }
}

/// Law: a GPU is judged weak when it is an Intel GPU, or when its
/// lower-cased name holds one of the markers of an old or entry-level card
/// (GTX, GeForce GT, GeForce MX, Quadro M, NVIDIA T, Radeon R5/R7/R9), or
/// names a Polaris RX model and no newer RX series; a card whose name holds
/// none of these and that is not Intel's is not weak.
pub proof fn weak_gpu_markers(vendor: GpuVendor, s: Seq<char>)
    ensures
        vendor == GpuVendor::Intel ==> weak_gpu_lower(vendor, s),
        contains(s, "gtx"@) ==> weak_gpu_lower(vendor, s),
        contains(s, "geforce gt "@) ==> weak_gpu_lower(vendor, s),
        contains(s, "geforce mx"@) ==> weak_gpu_lower(vendor, s),
        contains(s, "quadro m"@) ==> weak_gpu_lower(vendor, s),
        contains(s, "nvidia t"@) ==> weak_gpu_lower(vendor, s),
        contains(s, "radeon r5"@) ==> weak_gpu_lower(vendor, s),
        contains(s, "radeon r7"@) ==> weak_gpu_lower(vendor, s),
        contains(s, "radeon r9"@) ==> weak_gpu_lower(vendor, s),
        forall|k: int|
            0 <= k < polaris_models().len() && !newer_amd(s) && polaris_model_at(
                s,
                #[trigger] polaris_models()[k],
            ) ==> weak_gpu_lower(vendor, s),
        vendor != GpuVendor::Intel && !contains(s, "gtx"@) && !contains(s, "geforce gt "@)
            && !contains(s, "geforce mx"@) && !contains(s, "quadro m"@) && !contains(
            s,
            "nvidia t"@,
        ) && !contains(s, "radeon r5"@) && !contains(s, "radeon r7"@) && !contains(
            s,
            "radeon r9"@,
        ) && (newer_amd(s) || forall|k: int|
            0 <= k < polaris_models().len() ==> !polaris_model_at(s, #[trigger] polaris_models()[k]))
            ==> !weak_gpu_lower(vendor, s),
{
}

/// Law: on a weak GPU the heavy presets (`cinematic`, `clarity`) become
/// `performance`; every other request, and every request on a GPU that is
/// not weak, is kept as asked.
pub proof fn weak_gpu_downgrades_heavy_presets(weak: bool, requested: Seq<char>)
    ensures
        weak && requested == "cinematic"@ ==> adapted_preset(weak, requested) == "performance"@,
        weak && requested == "clarity"@ ==> adapted_preset(weak, requested) == "performance"@,
        !weak ==> adapted_preset(weak, requested) == requested,
        requested != "cinematic"@ && requested != "clarity"@ ==> adapted_preset(weak, requested)
            == requested,
{
}

} // verus!
