//! The build-orchestration configuration: which script to apply and what
//! to install afterwards.  Loading it from disk is the host's business;
//! the engine sees only these plain values.

use vstd::prelude::*;

verus! {

/// Where the generated `.config` is installed.
#[derive(Debug, Clone, PartialEq, Eq)]
pub struct SectionConfigInstall {
    pub enable: bool,
    pub path: String,
}

impl Default for SectionConfigInstall {
    /// Installation on, to `/boot/config-{KERNEL_VERSION}`.
    fn default() -> (r: Self)
        ensures
            r.enable,
            r.path@ == "/boot/config-{KERNEL_VERSION}"@,
    {
        SectionConfigInstall {
            enable: true,
            path: String::from_str("/boot/config-{KERNEL_VERSION}"),
        }
    }
}

/// The configuration script and its installation.
#[derive(Debug, Clone, PartialEq, Eq)]
pub struct SectionConfig {
    pub script: String,
    pub install: SectionConfigInstall,
}

/// Whether the built kernel is installed.
#[derive(Debug, Clone, PartialEq, Eq)]
pub struct SectionKernelInstall {
    pub enable: bool,
}

impl Default for SectionKernelInstall {
    /// Installation on.
    fn default() -> (r: Self)
        ensures
            r.enable,
    {
        SectionKernelInstall { enable: true }
    }
}

/// The kernel build section.
#[derive(Debug, Clone, PartialEq, Eq)]
pub struct SectionKernel {
    pub install: SectionKernelInstall,
}

impl Default for SectionKernel {
    fn default() -> (r: Self)
        ensures
            r.install.enable,
    {
        SectionKernel { install: SectionKernelInstall::default() }
    }
}

/// Where a generated initramfs is installed.
#[derive(Debug, Clone, PartialEq, Eq)]
pub struct SectionInitramfsInstall {
    pub enable: bool,
    pub path: String,
}

impl Default for SectionInitramfsInstall {
    /// Installation on, to `/boot/initramfs-{KERNEL_VERSION}.img`.
    fn default() -> (r: Self)
        ensures
            r.enable,
            r.path@ == "/boot/initramfs-{KERNEL_VERSION}.img"@,
    {
        SectionInitramfsInstall {
            enable: true,
            path: String::from_str("/boot/initramfs-{KERNEL_VERSION}.img"),
        }
    }
}

/// The initramfs generation section.
#[derive(Debug, Clone, PartialEq, Eq)]
pub struct SectionInitramfs {
    pub enable: bool,
    pub builtin: bool,
    pub command: Vec<String>,
    pub install: SectionInitramfsInstall,
}

impl Default for SectionInitramfs {
    /// Generation off.
    fn default() -> (r: Self)
        ensures
            !r.enable,
            !r.builtin,
            r.command@.len() == 0,
    {
        SectionInitramfs {
            enable: false,
            builtin: false,
            command: Vec::new(),
            install: SectionInitramfsInstall::default(),
        }
    }
}

/// Where built modules are installed.
#[derive(Debug, Clone, PartialEq, Eq)]
pub struct SectionModulesInstall {
    pub enable: bool,
    pub path: String,
}

impl Default for SectionModulesInstall {
    /// Installation on, under `/`.
    fn default() -> (r: Self)
        ensures
            r.enable,
            r.path@ == "/"@,
    {
        SectionModulesInstall { enable: true, path: String::from_str("/") }
    }
}

/// The module installation section.
#[derive(Debug, Clone, PartialEq, Eq)]
pub struct SectionModules {
    pub install: SectionModulesInstall,
}

impl Default for SectionModules {
    fn default() -> (r: Self)
        ensures
            r.install.enable,
    {
        SectionModules { install: SectionModulesInstall::default() }
    }
}

/// The whole build-orchestration configuration.
#[derive(Debug, Clone, PartialEq, Eq)]
pub struct Config {
    pub config: SectionConfig,
    pub initramfs: SectionInitramfs,
    pub kernel: SectionKernel,
    pub modules: SectionModules,
}

} // verus!
