use vstd::prelude::*;

verus! {

/// The name of the only graphics backend this compositor drives.
pub open spec fn wgpu_backend_name() -> Seq<char> {
    seq!['w', 'g', 'p', 'u']
}

/// The error returned when a backend other than the one of this compositor
/// is asked for.
#[derive(Clone, Debug)]
pub struct BackendMismatch {
    /// The backend that was asked for.
    pub preferred_backend: String,
}

/// Checks the backend a window asks for: none at all, or `"wgpu"`, is
/// accepted; any other is refused with the name that was asked for.
pub fn select_backend(backend: Option<&str>) -> (r: Result<(), BackendMismatch>)
    ensures
        r is Ok <==> (backend is None || backend.unwrap()@ == wgpu_backend_name()),
        r matches Err(e) ==> backend is Some && e.preferred_backend@ == backend.unwrap()@,
{
    match backend {
        None => Ok(()),
        Some(name) => {
            let matches_wgpu = name.unicode_len() == 4 && name.get_char(0) == 'w'
                && name.get_char(1) == 'g' && name.get_char(2) == 'p' && name.get_char(3) == 'u';
            if matches_wgpu {
                assert(name@ =~= wgpu_backend_name());
                Ok(())
            } else {
                assert(name@ != wgpu_backend_name()) by {
                    if name@ == wgpu_backend_name() {
                        assert(name@[0] == 'w' && name@[1] == 'g' && name@[2] == 'p' && name@[3] == 'u');
                    }
                }
                Err(BackendMismatch { preferred_backend: name.to_owned() })
            }
        },
    }
}

/// A setting taken from the environment when it is given there, else the
/// configured one.
pub fn env_override<T>(configured: T, from_env: Option<T>) -> (r: T)
    ensures
        r == match from_env {
            Some(v) => v,
            None => configured,
        },
{
    match from_env {
        Some(v) => v,
        None => configured,
    }
}

/// Whether a newly created surface of `width` by `height` pixels is to be
/// configured right away: only when it has an area.
pub fn surface_needs_configuring(width: u32, height: u32) -> (r: bool)
    ensures
        r == (width > 0 && height > 0),
{
    width > 0 && height > 0
}

/// The power preference used to pick a graphics adapter.
#[derive(Clone, Copy, Debug, PartialEq, Eq, Structural)]
pub enum PowerPreference {
    /// Power usage is not considered when choosing an adapter.
    NoPreference,
    LowPower,
    HighPerformance,
}

/// The power preference for the adapter request: the one the environment
/// gives, else high performance when antialiasing is on and low power
/// when it is off.
pub fn choose_power_preference(from_env: Option<PowerPreference>, antialiasing: bool) -> (r: PowerPreference)
    ensures
        r == match from_env {
            Some(p) => p,
            None => if antialiasing {
                PowerPreference::HighPerformance
            } else {
                PowerPreference::LowPower
            },
        },
{
    let fallback = if antialiasing {
        PowerPreference::HighPerformance
    } else {
        PowerPreference::LowPower
    };
    env_override(fallback, from_env)
}

/// Picks the texture format of the surface among the formats it supports,
/// given for each of them whether it is an sRGB format: the first one whose
/// sRGB-ness is `gamma_correction`, else the first one; `None` when the
/// surface supports none.
pub fn choose_format(srgb: &Vec<bool>, gamma_correction: bool) -> (r: Option<usize>)
    ensures
        r is None <==> srgb@.len() == 0,
        r matches Some(i) ==> i < srgb@.len() && (
            (srgb@[i as int] == gamma_correction
                && forall|j: int| 0 <= j < i ==> srgb@[j] != gamma_correction)
            || (i == 0 && forall|j: int| 0 <= j < srgb@.len() ==> srgb@[j] != gamma_correction)),
{
    let mut i: usize = 0;
    while i < srgb.len()
        invariant
            i <= srgb@.len(),
            forall|j: int| 0 <= j < i ==> srgb@[j] != gamma_correction,
        decreases srgb.len() - i,
    {
        if srgb[i] == gamma_correction {
            return Some(i);
        }
        i = i + 1;
    }
    if srgb.len() > 0 {
        Some(0)
    } else {
        None
    }
}

/// How the surface's alpha channel is composited with the windowing system.
#[derive(Clone, Copy, Debug, PartialEq, Eq, Structural)]
pub enum AlphaMode {
    Auto,
    Opaque,
    PreMultiplied,
    PostMultiplied,
    Inherit,
}

fn contains_mode(modes: &Vec<AlphaMode>, mode: AlphaMode) -> (r: bool)
    ensures
        r == modes@.contains(mode),
{
    let mut i: usize = 0;
    while i < modes.len()
        invariant
            i <= modes@.len(),
            forall|j: int| 0 <= j < i ==> modes@[j] != mode,
        decreases modes.len() - i,
    {
        if modes[i] == mode {
            return true;
        }
        i = i + 1;
    }
    false
}

/// The alpha mode to use among those the surface supports: post-multiplied
/// when supported, else pre-multiplied when supported, else automatic.
pub open spec fn spec_alpha_mode(modes: Seq<AlphaMode>) -> AlphaMode {
    if modes.contains(AlphaMode::PostMultiplied) {
        AlphaMode::PostMultiplied
    } else if modes.contains(AlphaMode::PreMultiplied) {
        AlphaMode::PreMultiplied
    } else {
        AlphaMode::Auto
    }
}

/// Post-multiplied alpha is chosen whenever the surface supports it,
/// whatever else it supports; pre-multiplied whenever it is supported and
/// post-multiplied is not; automatic otherwise. The choice is always one
/// the surface supports, or automatic.
pub proof fn lemma_alpha_mode_preference(modes: Seq<AlphaMode>)
    ensures
        modes.contains(AlphaMode::PostMultiplied) ==> spec_alpha_mode(modes) == AlphaMode::PostMultiplied,
        !modes.contains(AlphaMode::PostMultiplied) && modes.contains(AlphaMode::PreMultiplied)
            ==> spec_alpha_mode(modes) == AlphaMode::PreMultiplied,
        !modes.contains(AlphaMode::PostMultiplied) && !modes.contains(AlphaMode::PreMultiplied)
            ==> spec_alpha_mode(modes) == AlphaMode::Auto,
        spec_alpha_mode(modes) == AlphaMode::Auto || modes.contains(spec_alpha_mode(modes)),
{
}

/// Picks the alpha mode; see `spec_alpha_mode`.
pub fn choose_alpha_mode(modes: &Vec<AlphaMode>) -> (r: AlphaMode)
    ensures
        r == spec_alpha_mode(modes@),
        modes@.contains(AlphaMode::PostMultiplied) ==> r == AlphaMode::PostMultiplied,
        !modes@.contains(AlphaMode::PostMultiplied) && modes@.contains(AlphaMode::PreMultiplied)
            ==> r == AlphaMode::PreMultiplied,
        !modes@.contains(AlphaMode::PostMultiplied) && !modes@.contains(AlphaMode::PreMultiplied)
            ==> r == AlphaMode::Auto,
{
    if contains_mode(modes, AlphaMode::PostMultiplied) {
        AlphaMode::PostMultiplied
    } else if contains_mode(modes, AlphaMode::PreMultiplied) {
        AlphaMode::PreMultiplied
    } else {
        AlphaMode::Auto
    }
}

/// What a surface supports, as far as the choice of its format reads it:
/// for each supported texture format, in order, whether it is an sRGB
/// format; and the supported alpha modes.
#[derive(Clone, Debug)]
pub struct SurfaceCapabilities {
    pub srgb: Vec<bool>,
    pub alpha_modes: Vec<AlphaMode>,
}

/// Picks the surface format (by its position among the supported formats)
/// and the alpha mode together. `None` when no surface could be made from
/// the window (`capabilities` is `None`) or when the surface supports no
/// format: in both cases the surface is incompatible.
pub fn choose_surface_format(
    capabilities: Option<&SurfaceCapabilities>,
    gamma_correction: bool,
) -> (r: Option<(usize, AlphaMode)>)
    ensures
        r is None <==> (capabilities is None || capabilities.unwrap().srgb@.len() == 0),
        r matches Some(choice) ==> ({
            let srgb = capabilities.unwrap().srgb@;
            &&& choice.0 < srgb.len()
            &&& choice.1 == spec_alpha_mode(capabilities.unwrap().alpha_modes@)
            &&& capabilities.unwrap().alpha_modes@.contains(AlphaMode::PostMultiplied)
                ==> choice.1 == AlphaMode::PostMultiplied
            &&& (!capabilities.unwrap().alpha_modes@.contains(AlphaMode::PostMultiplied)
                && capabilities.unwrap().alpha_modes@.contains(AlphaMode::PreMultiplied))
                ==> choice.1 == AlphaMode::PreMultiplied
            &&& (!capabilities.unwrap().alpha_modes@.contains(AlphaMode::PostMultiplied)
                && !capabilities.unwrap().alpha_modes@.contains(AlphaMode::PreMultiplied))
                ==> choice.1 == AlphaMode::Auto
            &&& ((srgb[choice.0 as int] == gamma_correction
                && forall|j: int| 0 <= j < choice.0 ==> srgb[j] != gamma_correction)
            || (choice.0 == 0 && forall|j: int| 0 <= j < srgb.len() ==> srgb[j] != gamma_correction))
        }),
{
    match capabilities {
        None => None,
        Some(capabilities) => {
            let format = choose_format(&capabilities.srgb, gamma_correction);
            let alpha = choose_alpha_mode(&capabilities.alpha_modes);
            match format {
                Some(i) => Some((i, alpha)),
                None => None,
            }
        },
    }
}

/// The set of limits a device request starts from.
#[derive(Clone, Copy, Debug, PartialEq, Eq, Structural)]
pub enum LimitsBase {
    /// The limits every modern adapter supports.
    Default,
    /// The lower limits of older adapters.
    Downlevel,
    /// The limits of WebGL2, raised to the texture resolution the adapter
    /// supports.
    WebGl2,
}

/// The limits a device is requested with: a base set with the number of
/// bind groups replaced.
#[derive(Clone, Copy, Debug, PartialEq, Eq, Structural)]
pub struct LimitsRequest {
    pub base: LimitsBase,
    pub max_bind_groups: u32,
}

/// The limits a device is requested with, in the order they are tried,
/// each with two bind groups: on the web (`wasm32`), the WebGL2 limits
/// alone; elsewhere the default limits, then the downlevel ones.
pub open spec fn spec_limit_candidates(wasm32: bool) -> Seq<LimitsRequest> {
    if wasm32 {
        seq![LimitsRequest { base: LimitsBase::WebGl2, max_bind_groups: 2 }]
    } else {
        seq![
            LimitsRequest { base: LimitsBase::Default, max_bind_groups: 2 },
            LimitsRequest { base: LimitsBase::Downlevel, max_bind_groups: 2 },
        ]
    }
}

/// The search for a device: the limits are tried in order until a request
/// succeeds; each is tried once at most.
#[derive(Debug)]
pub struct DeviceSearch {
    candidates: Vec<LimitsRequest>,
    tried: usize,
}

impl DeviceSearch {
    /// The limits the search tries, in order.
    pub closed spec fn candidates(&self) -> Seq<LimitsRequest> {
        self.candidates@
    }

    /// How many of them have been handed out.
    pub closed spec fn tried(&self) -> nat {
        self.tried as nat
    }

    /// The search never hands out more than it has.
    #[verifier::type_invariant]
    closed spec fn well_formed(&self) -> bool {
        self.tried <= self.candidates@.len()
    }

    /// A search that has tried nothing yet, for the web (`wasm32`) or for
    /// a native target.
    pub fn new(wasm32: bool) -> (search: DeviceSearch)
        ensures
            search.candidates() == spec_limit_candidates(wasm32),
            search.tried() == 0,
            wasm32 ==> search.candidates().len() == 1 && search.candidates()[0] == (LimitsRequest {
                base: LimitsBase::WebGl2,
                max_bind_groups: 2,
            }),
            !wasm32 ==> search.candidates().len() == 2 && search.candidates()[0] == (LimitsRequest {
                base: LimitsBase::Default,
                max_bind_groups: 2,
            }) && search.candidates()[1] == (LimitsRequest {
                base: LimitsBase::Downlevel,
                max_bind_groups: 2,
            }),
    {
        let mut candidates: Vec<LimitsRequest> = Vec::new();
        if wasm32 {
            candidates.push(LimitsRequest { base: LimitsBase::WebGl2, max_bind_groups: 2 });
        } else {
            candidates.push(LimitsRequest { base: LimitsBase::Default, max_bind_groups: 2 });
            candidates.push(LimitsRequest { base: LimitsBase::Downlevel, max_bind_groups: 2 });
        }
        assert(candidates@ =~= spec_limit_candidates(wasm32));
        DeviceSearch { candidates, tried: 0 }
    }

    /// The limits to request a device with next, after the requests so far
    /// have failed; `None` when all have been tried and the search has
    /// failed.
    pub fn next_request(&mut self) -> (r: Option<LimitsRequest>)
        ensures
            final(self).candidates() == old(self).candidates(),
            old(self).tried() < old(self).candidates().len() ==> r == Some(
                old(self).candidates()[old(self).tried() as int],
            ) && final(self).tried() == old(self).tried() + 1,
            old(self).tried() >= old(self).candidates().len() ==> r is None && final(self).tried()
                == old(self).tried(),
    {
        proof {
            use_type_invariant(&*self);
        }
        if self.tried < self.candidates.len() {
            let request = self.candidates[self.tried];
            self.tried = self.tried + 1;
            Some(request)
        } else {
            None
        }
    }
}

/// Why the next frame of a surface could not be acquired.
#[derive(Clone, Copy, Debug, PartialEq, Eq, Structural)]
pub enum AcquireError {
    Timeout,
    Outdated,
    Lost,
    OutOfMemory,
}

/// Why a frame could not be presented.
#[derive(Clone, Copy, Debug, PartialEq, Eq, Structural)]
pub enum PresentError {
    /// A timeout was encountered while trying to acquire the next frame.
    Timeout,
    /// The underlying surface has changed and must be updated.
    Outdated,
    /// The surface has been lost and needs to be recreated.
    Lost,
    /// There is no more memory left to allocate a new frame.
    OutOfMemory,
}

/// The presentation error reported for a failure to acquire the frame:
/// the one of the same kind.
pub open spec fn spec_present_error(e: AcquireError) -> PresentError {
    match e {
        AcquireError::Timeout => PresentError::Timeout,
        AcquireError::Outdated => PresentError::Outdated,
        AcquireError::Lost => PresentError::Lost,
        AcquireError::OutOfMemory => PresentError::OutOfMemory,
    }
}

/// Maps a failure to acquire the frame to the presentation error reported.
pub fn present_error(e: AcquireError) -> (r: PresentError)
    ensures
        r == spec_present_error(e),
        e == AcquireError::Timeout <==> r == PresentError::Timeout,
        e == AcquireError::Outdated <==> r == PresentError::Outdated,
        e == AcquireError::Lost <==> r == PresentError::Lost,
        e == AcquireError::OutOfMemory <==> r == PresentError::OutOfMemory,
{
    match e {
        AcquireError::Timeout => PresentError::Timeout,
        AcquireError::Outdated => PresentError::Outdated,
        AcquireError::Lost => PresentError::Lost,
        AcquireError::OutOfMemory => PresentError::OutOfMemory,
    }
}

/// Each acquisition failure is reported as the presentation error of the
/// same kind.
pub proof fn lemma_present_error_same_kind(e: AcquireError)
    ensures
        e == AcquireError::Timeout <==> spec_present_error(e) == PresentError::Timeout,
        e == AcquireError::Outdated <==> spec_present_error(e) == PresentError::Outdated,
        e == AcquireError::Lost <==> spec_present_error(e) == PresentError::Lost,
        e == AcquireError::OutOfMemory <==> spec_present_error(e) == PresentError::OutOfMemory,
{
}

/// Different acquisition failures are reported as different presentation
/// errors.
pub proof fn lemma_present_error_injective(a: AcquireError, b: AcquireError)
    requires
        spec_present_error(a) == spec_present_error(b),
    ensures
        a == b,
{
}

/// The outcome of presenting a frame, given whether its texture could be
/// acquired: success when it could, else the matching error.
pub fn present_outcome(acquired: Result<(), AcquireError>) -> (r: Result<(), PresentError>)
    ensures
        r == match acquired {
            Ok(()) => Ok(()),
            Err(e) => Err::<(), PresentError>(spec_present_error(e)),
        },
{
    match acquired {
        Ok(()) => Ok(()),
        Err(e) => Err(present_error(e)),
    }
}

} // verus!
