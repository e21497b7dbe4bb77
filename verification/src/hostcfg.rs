//! Host-configuration probes used by the announcing program.

use vstd::prelude::*;

verus! {

/// Relies on std::path::Path::exists: answers whether the path names an
/// existing file or directory. The answer depends on the disk, so nothing
/// further is promised of it.
#[verifier::external_body]
fn path_exists(path: &str) -> bool {
    std::path::Path::new(path).exists()
}

/// Whether the host carries a wireless supplicant configuration file.
pub fn check_wpa_supplicant_file() -> bool {
    path_exists("/etc/wpa_supplicant.conf")
}

} // verus!
