use sway_mirror::globals::{bind_version, Global};

#[test]
fn binds_at_lower_of_advertised_and_supported() {
    assert_eq!(bind_version("wl_compositor", 6), Some((Global::Compositor, 5)));
    assert_eq!(bind_version("wl_compositor", 3), Some((Global::Compositor, 3)));
    assert_eq!(bind_version("zwlr_layer_shell_v1", 5), Some((Global::LayerShell, 4)));
    assert_eq!(bind_version("zwlr_export_dmabuf_manager_v1", 1), Some((Global::DmabufManager, 1)));
    assert_eq!(bind_version("zxdg_output_manager_v1", 3), Some((Global::XdgOutputManager, 3)));
    assert_eq!(bind_version("wl_output", 4), Some((Global::Output, 4)));
}

#[test]
fn other_interfaces_are_not_bound() {
    assert_eq!(bind_version("wl_seat", 9), None);
    assert_eq!(bind_version("WL_OUTPUT", 4), None);
    assert_eq!(bind_version("", 1), None);
}
