use iced_lowres::compositor::{
    choose_alpha_mode, choose_format, choose_power_preference, choose_surface_format,
    env_override, present_error, present_outcome, select_backend, surface_needs_configuring,
    AcquireError, AlphaMode, DeviceSearch, LimitsBase, LimitsRequest, PowerPreference,
    PresentError, SurfaceCapabilities,
};

#[test]
fn backend_none_is_accepted() {
    assert!(select_backend(None).is_ok());
}

#[test]
fn backend_wgpu_is_accepted() {
    assert!(select_backend(Some("wgpu")).is_ok());
}

#[test]
fn other_backends_are_refused_with_their_name() {
    for name in ["tiny-skia", "WGPU", "wgpu ", "", "wgp"] {
        let err = select_backend(Some(name)).unwrap_err();
        assert_eq!(err.preferred_backend, name);
    }
}

#[test]
fn environment_overrides_configuration() {
    assert_eq!(env_override(3, Some(5)), 5);
    assert_eq!(env_override(3, None), 3);
}

#[test]
fn surface_configured_only_with_area() {
    assert!(surface_needs_configuring(800, 600));
    assert!(!surface_needs_configuring(0, 600));
    assert!(!surface_needs_configuring(800, 0));
    assert!(!surface_needs_configuring(0, 0));
}

#[test]
fn power_preference_choice() {
    assert_eq!(choose_power_preference(None, false), PowerPreference::LowPower);
    assert_eq!(choose_power_preference(None, true), PowerPreference::HighPerformance);
    assert_eq!(
        choose_power_preference(Some(PowerPreference::NoPreference), true),
        PowerPreference::NoPreference
    );
    assert_eq!(
        choose_power_preference(Some(PowerPreference::HighPerformance), false),
        PowerPreference::HighPerformance
    );
}

#[test]
fn format_choice_prefers_matching_srgb() {
    assert_eq!(choose_format(&vec![false, true, true], true), Some(1));
    assert_eq!(choose_format(&vec![true, false, false], false), Some(1));
    assert_eq!(choose_format(&vec![false, false], true), Some(0));
    assert_eq!(choose_format(&vec![true], false), Some(0));
    assert_eq!(choose_format(&vec![], true), None);
}

#[test]
fn alpha_mode_choice() {
    assert_eq!(choose_alpha_mode(&vec![AlphaMode::Opaque, AlphaMode::PreMultiplied, AlphaMode::PostMultiplied]), AlphaMode::PostMultiplied);
    assert_eq!(choose_alpha_mode(&vec![AlphaMode::Opaque, AlphaMode::PreMultiplied, AlphaMode::Inherit]), AlphaMode::PreMultiplied);
    assert_eq!(choose_alpha_mode(&vec![AlphaMode::Opaque, AlphaMode::Inherit]), AlphaMode::Auto);
    assert_eq!(choose_alpha_mode(&vec![]), AlphaMode::Auto);
}

#[test]
fn surface_format_choice() {
    let caps = SurfaceCapabilities { srgb: vec![false, true], alpha_modes: vec![AlphaMode::PreMultiplied] };
    assert_eq!(choose_surface_format(Some(&caps), true), Some((1, AlphaMode::PreMultiplied)));
    assert_eq!(choose_surface_format(Some(&caps), false), Some((0, AlphaMode::PreMultiplied)));
    let no_formats = SurfaceCapabilities { srgb: vec![], alpha_modes: vec![AlphaMode::PostMultiplied] };
    assert_eq!(choose_surface_format(Some(&no_formats), true), None);
}

#[test]
fn no_surface_is_incompatible() {
    assert_eq!(choose_surface_format(None, true), None);
    assert_eq!(choose_surface_format(None, false), None);
}

#[test]
fn device_search_tries_each_limit_once_in_order() {
    let mut search = DeviceSearch::new(false);
    assert_eq!(
        search.next_request(),
        Some(LimitsRequest { base: LimitsBase::Default, max_bind_groups: 2 })
    );
    assert_eq!(
        search.next_request(),
        Some(LimitsRequest { base: LimitsBase::Downlevel, max_bind_groups: 2 })
    );
    assert_eq!(search.next_request(), None);
    assert_eq!(search.next_request(), None);
}

#[test]
fn acquire_errors_map_to_same_kind() {
    assert_eq!(present_error(AcquireError::Timeout), PresentError::Timeout);
    assert_eq!(present_error(AcquireError::Outdated), PresentError::Outdated);
    assert_eq!(present_error(AcquireError::Lost), PresentError::Lost);
    assert_eq!(present_error(AcquireError::OutOfMemory), PresentError::OutOfMemory);
}

#[test]
fn present_outcome_passes_success_and_maps_errors() {
    assert_eq!(present_outcome(Ok(())), Ok(()));
    assert_eq!(present_outcome(Err(AcquireError::Lost)), Err(PresentError::Lost));
}

#[test]
fn device_search_on_the_web_tries_webgl2_only() {
    let mut search = DeviceSearch::new(true);
    assert_eq!(
        search.next_request(),
        Some(LimitsRequest { base: LimitsBase::WebGl2, max_bind_groups: 2 })
    );
    assert_eq!(search.next_request(), None);
}
