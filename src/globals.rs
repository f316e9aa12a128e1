use vstd::prelude::*;
use vstd::string::StringExecFns;

verus! {

/// A global capability of the display server that the mirror binds.
#[derive(Clone, Copy, Debug, PartialEq, Eq, Structural)]
pub enum Global {
    Compositor,
    LayerShell,
    DmabufManager,
    XdgOutputManager,
    Output,
}

/// The capability an interface name announces, with the highest version
/// of it this program speaks.
pub open spec fn supported(interface: Seq<char>) -> Option<(Global, u32)> {
    if interface == "wl_compositor"@ {
        Some((Global::Compositor, 5))
    } else if interface == "zwlr_layer_shell_v1"@ {
        Some((Global::LayerShell, 4))
    } else if interface == "zwlr_export_dmabuf_manager_v1"@ {
        Some((Global::DmabufManager, 1))
    } else if interface == "zxdg_output_manager_v1"@ {
        Some((Global::XdgOutputManager, 3))
    } else if interface == "wl_output"@ {
        Some((Global::Output, 4))
    } else {
        None
    }
}

/// Which capability a global announced as `interface` at version
/// `advertised` provides, and the version to bind it at: the lower of the
/// advertised version and the one this program speaks. Other interfaces
/// are not bound.
pub fn bind_version(interface: &str, advertised: u32) -> (r: Option<(Global, u32)>)
    ensures
        match supported(interface@) {
            Some((g, v)) => r == Some((g, if advertised < v {
                advertised
            } else {
                v
            })),
            None => r is None,
        },
{
    let name = interface.to_owned();
    let found: Option<(Global, u32)> = if name == String::from_str("wl_compositor") {
        Some((Global::Compositor, 5))
    } else if name == String::from_str("zwlr_layer_shell_v1") {
        Some((Global::LayerShell, 4))
    } else if name == String::from_str("zwlr_export_dmabuf_manager_v1") {
        Some((Global::DmabufManager, 1))
    } else if name == String::from_str("zxdg_output_manager_v1") {
        Some((Global::XdgOutputManager, 3))
    } else if name == String::from_str("wl_output") {
        Some((Global::Output, 4))
    } else {
        None
    };
    match found {
        Some((g, v)) => Some((g, if advertised < v {
            advertised
        } else {
            v
        })),
        None => None,
    }
}

} // verus!
