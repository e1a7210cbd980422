//! Configurations and execution platforms, as plain data.

use vstd::prelude::*;

verus! {

/// The resolved set of build settings governing a target.  Anonymous
/// targets either inherit a named platform configuration or carry the
/// unspecified configuration used during restricted coercion.
#[derive(Debug)]
pub enum Configuration {
    Unspecified,
    Named(String),
}

/// The mathematical form of a configuration.
pub ghost enum CfgV {
    Unspecified,
    Named(Seq<char>),
}

impl View for Configuration {
    type V = CfgV;

    open spec fn view(&self) -> CfgV {
        match self {
            Configuration::Unspecified => CfgV::Unspecified,
            Configuration::Named(n) => CfgV::Named(n@),
        }
    }
}

impl Configuration {
    /// An exact copy of the configuration.
    pub fn duplicate(&self) -> (r: Self)
        ensures
            r@ == self@,
    {
        match self {
            Configuration::Unspecified => Configuration::Unspecified,
            Configuration::Named(n) => Configuration::Named(n.clone()),
        }
    }

    /// Whether two configurations are the same settings.
    pub fn same(&self, other: &Self) -> (r: bool)
        ensures
            r == (self@ == other@),
    {
        match (self, other) {
            (Configuration::Unspecified, Configuration::Unspecified) => true,
            (Configuration::Named(a), Configuration::Named(b)) => crate::text::str_eq(a.as_str(), b.as_str()),
            _ => false,
        }
    }
}

/// A concrete execution platform: its name and the configuration its
/// actions run under.
#[derive(Debug)]
pub struct ExecutionPlatform {
    pub name: String,
    pub cfg: Configuration,
}

/// The mathematical form of an execution platform.
pub ghost struct PlatformV {
    pub name: Seq<char>,
    pub cfg: CfgV,
}

impl View for ExecutionPlatform {
    type V = PlatformV;

    open spec fn view(&self) -> PlatformV {
        PlatformV { name: self.name@, cfg: self.cfg@ }
    }
}

impl ExecutionPlatform {
    /// An exact copy of the platform.
    pub fn duplicate(&self) -> (r: Self)
        ensures
            r@ == self@,
    {
        ExecutionPlatform { name: self.name.clone(), cfg: self.cfg.duplicate() }
    }
}

/// The outcome of execution-platform resolution that a registry
/// inherits from its parent analysis; `None` means resolution was
/// skipped, which leaves the unspecified configuration.
#[derive(Debug)]
pub struct ExecutionPlatformResolution {
    pub platform: Option<ExecutionPlatform>,
}

/// The mathematical form of a platform resolution.
pub ghost struct ResolutionV {
    pub platform: Option<PlatformV>,
}

impl View for ExecutionPlatformResolution {
    type V = ResolutionV;

    open spec fn view(&self) -> ResolutionV {
        match self.platform {
            Option::Some(p) => ResolutionV { platform: Option::Some(p@) },
            Option::None => ResolutionV { platform: Option::None },
        }
    }
}

/// The configuration a resolution hands to the targets under it.
pub open spec fn resolution_cfg(r: ResolutionV) -> CfgV {
    match r.platform {
        Option::Some(p) => p.cfg,
        Option::None => CfgV::Unspecified,
    }
}

impl ExecutionPlatformResolution {
    /// Wraps a resolved platform, or the absence of one.
    pub fn new(platform: Option<ExecutionPlatform>) -> (r: Self)
        ensures
            r@.platform == match platform {
                Option::Some(p) => Option::Some(p@),
                Option::None => Option::None::<PlatformV>,
            },
    {
        ExecutionPlatformResolution { platform }
    }

    /// The target configuration of the resolved platform, or the
    /// unspecified configuration when none was resolved.
    pub fn cfg(&self) -> (r: Configuration)
        ensures
            r@ == resolution_cfg(self@),
    {
        match &self.platform {
            Option::Some(p) => p.cfg.duplicate(),
            Option::None => Configuration::Unspecified,
        }
    }

    /// An exact copy of the resolution.
    pub fn duplicate(&self) -> (r: Self)
        ensures
            r@ == self@,
    {
        match &self.platform {
            Option::Some(p) => ExecutionPlatformResolution {
                platform: Option::Some(p.duplicate()),
            },
            Option::None => ExecutionPlatformResolution { platform: Option::None },
        }
    }
}

} // verus!
