use goosy::backend::{
    backend_probe_plan, backend_step, normalize_backend_name, requested_backend, BackendRequest,
    BackendStep, GpuBackend, InvalidBackendName, Platform,
};

#[test]
fn requests_allow_their_own_backend_or_any_when_automatic() {
    assert!(BackendRequest::Auto.allows_d3d12());
    assert!(BackendRequest::Auto.allows_angle());
    assert!(BackendRequest::Auto.allows_metal());
    assert!(BackendRequest::D3d12.allows_d3d12());
    assert!(!BackendRequest::D3d12.allows_angle());
    assert!(BackendRequest::Angle.allows_angle());
    assert!(!BackendRequest::Raster.allows_metal());
    assert!(BackendRequest::Metal.allows_metal());
}

#[test]
fn backend_names_are_trimmed_and_case_folded() {
    assert_eq!(normalize_backend_name("  D3D12 \n"), "d3d12");
    assert_eq!(requested_backend(None, Platform::Windows), Ok(BackendRequest::Auto));
    assert_eq!(requested_backend(Some(" "), Platform::Other), Ok(BackendRequest::Auto));
    assert_eq!(requested_backend(Some("CPU"), Platform::Other), Ok(BackendRequest::Raster));
    assert_eq!(
        requested_backend(Some("Direct3D12"), Platform::Windows),
        Ok(BackendRequest::D3d12)
    );
    assert_eq!(requested_backend(Some("gles"), Platform::Windows), Ok(BackendRequest::Angle));
    assert_eq!(requested_backend(Some("metal"), Platform::MacOs), Ok(BackendRequest::Metal));
    assert_eq!(
        requested_backend(Some(" Metal "), Platform::Windows),
        Err(InvalidBackendName {
            name: "metal".to_owned()
        })
    );
}

#[test]
fn automatic_choice_tries_gpu_backends_then_falls_back_to_raster() {
    let w = Platform::Windows;
    assert_eq!(backend_step(BackendRequest::Auto, w, 0), BackendStep::Try(GpuBackend::D3d12));
    assert_eq!(backend_step(BackendRequest::Auto, w, 1), BackendStep::Try(GpuBackend::Angle));
    assert_eq!(backend_step(BackendRequest::Auto, w, 2), BackendStep::UseRaster);
    assert_eq!(
        backend_step(BackendRequest::Auto, Platform::MacOs, 0),
        BackendStep::Try(GpuBackend::Metal)
    );
    assert_eq!(backend_step(BackendRequest::Auto, Platform::MacOs, 1), BackendStep::UseRaster);
    assert_eq!(backend_step(BackendRequest::Auto, Platform::Other, 0), BackendStep::UseRaster);
}

#[test]
fn named_backends_fail_instead_of_falling_back() {
    let w = Platform::Windows;
    assert_eq!(backend_step(BackendRequest::Raster, w, 0), BackendStep::UseRaster);
    assert_eq!(backend_step(BackendRequest::Angle, w, 0), BackendStep::Try(GpuBackend::Angle));
    assert_eq!(
        backend_step(BackendRequest::Angle, w, 1),
        BackendStep::FailRequested(GpuBackend::Angle)
    );
    assert_eq!(
        backend_step(BackendRequest::D3d12, w, 1),
        BackendStep::FailRequested(GpuBackend::D3d12)
    );
    assert_eq!(
        backend_step(BackendRequest::Metal, Platform::Other, 0),
        BackendStep::FailUnavailable
    );
}

#[test]
fn worker_probes_all_backends_only_for_auto() {
    let (plan, automatic) = backend_probe_plan("auto");
    assert_eq!(plan, vec!["d3d12".to_owned(), "angle".to_owned(), "raster".to_owned()]);
    assert!(automatic);
    let (plan, automatic) = backend_probe_plan("angle");
    assert_eq!(plan, vec!["angle".to_owned()]);
    assert!(!automatic);
}

fn adapter(vendor_id: u32, dedicated: u64, shared: u64) -> goosy::backend::AdapterInfo {
    goosy::backend::AdapterInfo {
        software: false,
        remote: false,
        vendor_id,
        device_created: true,
        dedicated_video_memory: dedicated,
        shared_system_memory: shared,
    }
}

#[test]
fn adapters_are_chosen_by_memory_skipping_basic_and_software_ones() {
    let mut adapters = vec![
        adapter(0x8086, 128, 1_600),
        adapter(0x10de, 4_096, 0),
        adapter(0x1414, 1 << 40, 0),
        adapter(0x1002, 4_096, 0),
    ];
    assert_eq!(goosy::backend::best_adapter(&adapters), Some(1));
    adapters[1].software = true;
    assert_eq!(goosy::backend::best_adapter(&adapters), Some(3));
    adapters[3].device_created = false;
    assert_eq!(goosy::backend::best_adapter(&adapters), Some(0));
    assert_eq!(goosy::backend::best_adapter(&adapters[2..3]), None);
    let huge = vec![adapter(1, u64::MAX, 0), adapter(2, 1 << 50, 16)];
    assert_eq!(goosy::backend::best_adapter(&huge), Some(1));
}
