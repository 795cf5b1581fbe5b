//! The rendering backend seam: which backend is in use, what it runs on, and
//! what is said about the choice.
//!
//! Bringing a device up is the platform's business and stays outside; what is
//! decided here is how a preference reads from its setting, how a device
//! describes itself, and what the CPU fallback records about why it was used.

use vstd::prelude::*;
use vstd::string::{StrSliceExecFns, StringExecFns};

use crate::chars::push_decimal;

verus! {

/// Which implementation is in use.
#[derive(Clone, Copy, Debug, PartialEq, Eq, Structural)]
pub enum BackendKind {
    Cpu,
    Gpu,
}

impl BackendKind {
    pub fn label(self) -> (s: &'static str)
        ensures
            s@ == (match self {
                BackendKind::Cpu => "CPU"@,
                BackendKind::Gpu => "GPU"@,
            }),
    {
        match self {
            BackendKind::Cpu => "CPU",
            BackendKind::Gpu => "GPU",
        }
    }
}

/// What the caller asked for, before availability is taken into account.
#[derive(Clone, Copy, Debug, PartialEq, Eq, Structural)]
pub enum BackendPreference {
    /// Use the GPU when one is usable, otherwise the CPU.
    Auto,
    /// Never touch the GPU.
    ForceCpu,
    /// Use the GPU or fail. For testing that the GPU path is really being
    /// exercised, rather than silently getting CPU results.
    RequireGpu,
}

impl Default for BackendPreference {
    fn default() -> (p: BackendPreference)
        ensures
            p == BackendPreference::Auto,
    {
        BackendPreference::Auto
    }
}

/// The preference a setting's value names: `cpu` and `gpu`, and anything
/// else, or nothing, meaning automatic.
pub open spec fn preference_of(value: Option<Seq<char>>) -> BackendPreference {
    match value {
        Some(v) => if v == "cpu"@ {
            BackendPreference::ForceCpu
        } else if v == "gpu"@ {
            BackendPreference::RequireGpu
        } else {
            BackendPreference::Auto
        },
        None => BackendPreference::Auto,
    }
}

impl BackendPreference {
    /// The preference the `PHOTORUST_BACKEND` setting's value names. An unset or
    /// unrecognised value means [`BackendPreference::Auto`].
    pub fn from_setting(value: Option<&str>) -> (p: BackendPreference)
        ensures
            p == preference_of(
                match value {
                    Some(v) => Some(v@),
                    None => None,
                },
            ),
    {
        match value {
            Some(v) => {
                if crate::chars::same_text(v, "cpu") {
                    BackendPreference::ForceCpu
                } else if crate::chars::same_text(v, "gpu") {
                    BackendPreference::RequireGpu
                } else {
                    BackendPreference::Auto
                }
            },
            None => BackendPreference::Auto,
        }
    }
}

/// What backend is in use and what it is running on.
#[derive(Clone, Debug)]
pub struct DeviceInfo {
    pub kind: BackendKind,
    /// The adapter name for a GPU, or the CPU description.
    pub name: String,
    /// The graphics API in use — "Vulkan", "Metal", and so on. Empty on CPU.
    pub api: String,
    /// Why this backend was chosen.
    pub detail: String,
    /// Largest 2D texture the device will accept, in pixels; `u32::MAX` on
    /// the CPU.
    pub max_texture_dimension: u32,
}

/// The one-line summary of a device: its kind, a dash, its name, and the API
/// in brackets when there is one.
pub open spec fn summary_of(kind: BackendKind, name: Seq<char>, api: Seq<char>) -> Seq<char> {
    let label = match kind {
        BackendKind::Cpu => "CPU"@,
        BackendKind::Gpu => "GPU"@,
    };
    if api.len() == 0 {
        label + " — "@ + name
    } else {
        label + " — "@ + name + " ("@ + api + ")"@
    }
}

impl DeviceInfo {
    /// A one-line summary for the UI: "GPU — NVIDIA GeForce RTX 3080 (Vulkan)".
    pub fn summary(&self) -> (s: String)
        ensures
            s@ == summary_of(self.kind, self.name@, self.api@),
    {
        let mut s = String::from_str(self.kind.label());
        s.append(" — ");
        s.append(self.name.as_str());
        if self.api.as_str().unicode_len() != 0 {
            s.append(" (");
            s.append(self.api.as_str());
            s.append(")");
        }
        s
    }
}

/// The CPU backend's description of itself.
pub struct CpuBackend {
    pub info: DeviceInfo,
}

impl CpuBackend {
    /// `detail` records why the CPU is being used — a forced preference, or
    /// the reason the GPU probe failed; `threads` is how many the machine
    /// offers.
    pub fn with_detail(detail: &str, threads: usize) -> (b: CpuBackend)
        ensures
            b.info.kind == BackendKind::Cpu,
            b.info.name@ == crate::chars::decimal(threads as nat) + " threads"@,
            b.info.api@ == Seq::<char>::empty(),
            b.info.detail@ == detail@,
            b.info.max_texture_dimension == u32::MAX,
    {
        let mut name = String::new();
        push_decimal(&mut name, threads as u64);
        name.append(" threads");
        CpuBackend {
            info: DeviceInfo {
                kind: BackendKind::Cpu,
                name,
                api: String::new(),
                detail: detail.to_owned(),
                // No texture size limit worth speaking of; a CPU buffer is
                // bounded by memory, not by the API.
                max_texture_dimension: u32::MAX,
            },
        }
    }
}

/// What the CPU backend records when the GPU was not used: forced off, or
/// wanted and unavailable for `reason`.
pub open spec fn cpu_reason(preference: BackendPreference, reason: Seq<char>) -> Seq<char> {
    match preference {
        BackendPreference::ForceCpu => "forced by PHOTORUST_BACKEND=cpu"@,
        BackendPreference::RequireGpu => "PHOTORUST_BACKEND=gpu requested but unavailable: "@
            + reason,
        BackendPreference::Auto => "no usable GPU ("@ + reason + ")"@,
    }
}

/// Whether the preference lets the GPU be tried at all.
pub fn tries_gpu(preference: BackendPreference) -> (r: bool)
    ensures
        r == (preference != BackendPreference::ForceCpu),
{
    preference != BackendPreference::ForceCpu
}

/// Why the CPU is being used under `preference`, the GPU having failed for
/// `reason` where it was tried. A machine that quietly fell back can be
/// diagnosed from this.
pub fn fallback_detail(preference: BackendPreference, reason: &str) -> (s: String)
    ensures
        s@ == cpu_reason(preference, reason@),
{
    match preference {
        BackendPreference::ForceCpu => String::from_str("forced by PHOTORUST_BACKEND=cpu"),
        BackendPreference::RequireGpu => {
            let mut s = String::from_str("PHOTORUST_BACKEND=gpu requested but unavailable: ");
            s.append(reason);
            s
        },
        BackendPreference::Auto => {
            let mut s = String::from_str("no usable GPU (");
            s.append(reason);
            s.append(")");
            s
        },
    }
}

} // verus!
