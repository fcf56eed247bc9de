//! Verified core of a Secure Boot tool chain for NixOS: the installer's decisions and file
//! naming, the os-release and version parsers, the CPIO writer of the boot stub and the PE
//! section handling.
pub mod text;
pub mod strmap;
pub mod os_release;
pub mod os_release_round_trip;
pub mod cpio;
pub mod paths;
pub mod generation;
pub mod boot_json;
pub mod esp;
pub mod pe;
pub mod loader;
pub mod version;
pub mod version_order;
pub mod systemd;
pub mod refind;
pub mod pcr_signature;
pub mod gc;
pub mod companions;
pub mod measure;
pub mod hash;
pub mod signature;
pub mod install;
pub mod builder;
pub mod stub;
pub mod legacy;
pub mod legacy_version;
pub mod utils;
pub mod extlinux;
pub mod cli;
