//! The typed entries a boot-configuration file parses into, together with
//! their mathematical views.

use vstd::prelude::*;

verus! {

/// A generic `key=value` pair.
#[derive(Debug, PartialEq)]
pub struct Config {
    pub key: String,
    pub value: String,
}

/// A `dtoverlay=<name>[,<key>=<value>]*` directive.
#[derive(Debug, PartialEq)]
pub struct DTOverlay {
    pub overlay: String,
    pub configs: Vec<Config>,
}

/// A `dtparam=<key>=<value>[,<key>=<value>]*` directive.
#[derive(Debug, PartialEq)]
pub struct DTparam {
    pub configs: Vec<Config>,
}

/// A memory-split directive: `gpu_mem=<gpu>` leaves `total_ramsize` unset,
/// `gpu_mem_<total>=<gpu>` sets it.  `model` stays unset until the entry is
/// re-homed to one board model.
#[derive(Debug, PartialEq)]
pub struct GpuMem {
    pub total_ramsize: Option<usize>,
    pub gpu_ramsize: usize,
    pub model: Option<String>,
}

/// One parsed entry of the configuration text.
#[derive(Debug, PartialEq)]
pub enum ConfigEntry {
    Comment(String),
    Command(Config),
    DTOverlay(DTOverlay),
    DTparam(DTparam),
    ConditionFilter(String),
    GpuMem(GpuMem),
}

pub ghost struct ConfigV {
    pub key: Seq<char>,
    pub value: Seq<char>,
}

pub ghost struct DTOverlayV {
    pub overlay: Seq<char>,
    pub configs: Seq<ConfigV>,
}

pub ghost struct DTparamV {
    pub configs: Seq<ConfigV>,
}

pub ghost struct GpuMemV {
    pub total_ramsize: Option<usize>,
    pub gpu_ramsize: usize,
    pub model: Option<Seq<char>>,
}

pub ghost enum ConfigEntryV {
    Comment(Seq<char>),
    Command(ConfigV),
    DTOverlay(DTOverlayV),
    DTparam(DTparamV),
    ConditionFilter(Seq<char>),
    GpuMem(GpuMemV),
}

impl View for Config {
    type V = ConfigV;

    open spec fn view(&self) -> ConfigV {
        ConfigV { key: self.key@, value: self.value@ }
    }
}

/// The views of a list of key/value pairs.
pub open spec fn configs_view(v: Seq<Config>) -> Seq<ConfigV> {
    v.map_values(|c: Config| c@)
}

impl View for DTOverlay {
    type V = DTOverlayV;

    open spec fn view(&self) -> DTOverlayV {
        DTOverlayV { overlay: self.overlay@, configs: configs_view(self.configs@) }
    }
}

impl View for DTparam {
    type V = DTparamV;

    open spec fn view(&self) -> DTparamV {
        DTparamV { configs: configs_view(self.configs@) }
    }
}

impl View for GpuMem {
    type V = GpuMemV;

    open spec fn view(&self) -> GpuMemV {
        GpuMemV {
            total_ramsize: self.total_ramsize,
            gpu_ramsize: self.gpu_ramsize,
            model: match self.model {
                Some(ref m) => Some(m@),
                None => None,
            },
        }
    }
}

impl View for ConfigEntry {
    type V = ConfigEntryV;

    open spec fn view(&self) -> ConfigEntryV {
        match self {
            ConfigEntry::Comment(t) => ConfigEntryV::Comment(t@),
            ConfigEntry::Command(c) => ConfigEntryV::Command(c@),
            ConfigEntry::DTOverlay(o) => ConfigEntryV::DTOverlay(o@),
            ConfigEntry::DTparam(p) => ConfigEntryV::DTparam(p@),
            ConfigEntry::ConditionFilter(f) => ConfigEntryV::ConditionFilter(f@),
            ConfigEntry::GpuMem(g) => ConfigEntryV::GpuMem(g@),
        }
    }
}

/// The views of a list of entries.
pub open spec fn entries_view(v: Seq<ConfigEntry>) -> Seq<ConfigEntryV> {
    v.map_values(|e: ConfigEntry| e@)
}

impl Clone for Config {
    fn clone(&self) -> (r: Self)
        ensures
            r@ == self@,
    {
        Config { key: self.key.clone(), value: self.value.clone() }
    }
}

fn clone_configs(v: &Vec<Config>) -> (r: Vec<Config>)
    ensures
        configs_view(r@) == configs_view(v@),
{
    let mut r: Vec<Config> = Vec::new();
    let mut i: usize = 0;
    while i < v.len()
        invariant
            0 <= i <= v@.len(),
            r@.len() == i,
            forall|k: int| 0 <= k < i ==> r@[k]@ == v@[k]@,
        decreases v@.len() - i,
    {
        r.push(v[i].clone());
        i += 1;
    }
    assert(configs_view(r@) =~= configs_view(v@));
    r
}

impl Clone for DTOverlay {
    fn clone(&self) -> (r: Self)
        ensures
            r@ == self@,
    {
        DTOverlay { overlay: self.overlay.clone(), configs: clone_configs(&self.configs) }
    }
}

impl Clone for DTparam {
    fn clone(&self) -> (r: Self)
        ensures
            r@ == self@,
    {
        DTparam { configs: clone_configs(&self.configs) }
    }
}

impl Clone for GpuMem {
    fn clone(&self) -> (r: Self)
        ensures
            r@ == self@,
    {
        GpuMem {
            total_ramsize: match self.total_ramsize {
                Some(t) => Some(t),
                None => None,
            },
            gpu_ramsize: self.gpu_ramsize,
            model: match &self.model {
                Some(m) => Some(m.clone()),
                None => None,
            },
        }
    }
}

impl Clone for ConfigEntry {
    fn clone(&self) -> (r: Self)
        ensures
            r@ == self@,
    {
        match self {
            ConfigEntry::Comment(t) => ConfigEntry::Comment(t.clone()),
            ConfigEntry::Command(c) => ConfigEntry::Command(c.clone()),
            ConfigEntry::DTOverlay(o) => ConfigEntry::DTOverlay(o.clone()),
            ConfigEntry::DTparam(p) => ConfigEntry::DTparam(p.clone()),
            ConfigEntry::ConditionFilter(f) => ConfigEntry::ConditionFilter(f.clone()),
            ConfigEntry::GpuMem(g) => ConfigEntry::GpuMem(g.clone()),
        }
    }
}

/// Clones every entry of a bucket; the views are kept exactly.
pub fn clone_entries(v: &Vec<ConfigEntry>) -> (r: Vec<ConfigEntry>)
    ensures
        entries_view(r@) == entries_view(v@),
{
    let mut r: Vec<ConfigEntry> = Vec::new();
    let mut i: usize = 0;
    while i < v.len()
        invariant
            0 <= i <= v@.len(),
            r@.len() == i,
            forall|k: int| 0 <= k < i ==> r@[k]@ == v@[k]@,
        decreases v@.len() - i,
    {
        r.push(v[i].clone());
        i += 1;
    }
    assert(entries_view(r@) =~= entries_view(v@));
    r
}

/// Whether an entry is, up to its view, the given memory-split entry.
pub fn entry_is_gpumem(e: &ConfigEntry, g: &GpuMem) -> (r: bool)
    ensures
        r == (e@ == ConfigEntryV::GpuMem(g@)),
{
    match e {
        ConfigEntry::GpuMem(h) => gpumem_eq(h, g),
        _ => false,
    }
}

fn gpumem_eq(a: &GpuMem, b: &GpuMem) -> (r: bool)
    ensures
        r == (a@ == b@),
{
    let total_same = match (&a.total_ramsize, &b.total_ramsize) {
        (Some(x), Some(y)) => *x == *y,
        (None, None) => true,
        _ => false,
    };
    let model_same = match (&a.model, &b.model) {
        (Some(x), Some(y)) => crate::text::str_eq(x.as_str(), y.as_str()),
        (None, None) => true,
        _ => false,
    };
    total_same && a.gpu_ramsize == b.gpu_ramsize && model_same
}

} // verus!
