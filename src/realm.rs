//! Realms and their configuration.
use vstd::prelude::*;
use crate::text::{push_text};

verus! {

/// What a realm is granted and how it is set up.
pub struct RealmConfig {
    pub kvm: bool,
    pub gpu: bool,
    pub gpu_card0: bool,
    pub sound: bool,
    pub x11: bool,
    pub wayland: bool,
    pub network: bool,
    pub ephemeral_home: bool,
    pub shared_dir: bool,
    pub readonly_rootfs: bool,
    /// The zone whose pool the realm's address comes from.
    pub network_zone: String,
    /// An address the realm asks for instead of the lowest free one.
    pub reserved_ip: Option<u32>,
    /// A network namespace managed outside the allocator.
    pub netns: Option<String>,
    /// Extra read-write bind mounts, in order.
    pub extra_bindmounts: Vec<String>,
    /// Extra read-only bind mounts, in order.
    pub extra_bindmounts_ro: Vec<String>,
    /// Paths inside the home directory kept across ephemeral resets.
    pub ephemeral_persistent_dirs: Vec<String>,
}

impl RealmConfig {
    /// A configuration with every grant off, no network, and the zone
    /// `zone`.
    pub fn new(zone: &str) -> (r: RealmConfig)
        ensures
            !r.kvm && !r.gpu && !r.gpu_card0 && !r.sound && !r.x11 && !r.wayland,
            !r.network && !r.ephemeral_home && !r.shared_dir && !r.readonly_rootfs,
            r.network_zone@ == zone@,
            r.reserved_ip is None,
            r.netns is None,
            r.extra_bindmounts@.len() == 0,
            r.extra_bindmounts_ro@.len() == 0,
            r.ephemeral_persistent_dirs@.len() == 0,
    {
        RealmConfig {
            kvm: false,
            gpu: false,
            gpu_card0: false,
            sound: false,
            x11: false,
            wayland: false,
            network: false,
            ephemeral_home: false,
            shared_dir: false,
            readonly_rootfs: false,
            network_zone: zone.to_owned(),
            reserved_ip: None,
            netns: None,
            extra_bindmounts: Vec::new(),
            extra_bindmounts_ro: Vec::new(),
            ephemeral_persistent_dirs: Vec::new(),
        }
    }
}

/// A copy of a list of strings.
pub fn copy_strings(v: &Vec<String>) -> (r: Vec<String>)
    ensures
        r@ == v@,
{
    let mut out: Vec<String> = Vec::new();
    let mut i: usize = 0;
    while i < v.len()
        invariant
            i <= v@.len(),
            out@ == v@.take(i as int),
        decreases v@.len() - i,
    {
        out.push(v[i].clone());
        assert(out@ =~= v@.take(i + 1));
        i = i + 1;
    }
    assert(v@.take(i as int) =~= v@);
    out
}

/// Whether two configurations hold the same values.
pub open spec fn same_config(a: RealmConfig, b: RealmConfig) -> bool {
    &&& a.kvm == b.kvm && a.gpu == b.gpu && a.gpu_card0 == b.gpu_card0 && a.sound == b.sound
    &&& a.x11 == b.x11 && a.wayland == b.wayland && a.network == b.network
    &&& a.ephemeral_home == b.ephemeral_home && a.shared_dir == b.shared_dir
    &&& a.readonly_rootfs == b.readonly_rootfs
    &&& a.network_zone == b.network_zone
    &&& a.reserved_ip == b.reserved_ip
    &&& a.netns == b.netns
    &&& a.extra_bindmounts@ == b.extra_bindmounts@
    &&& a.extra_bindmounts_ro@ == b.extra_bindmounts_ro@
    &&& a.ephemeral_persistent_dirs@ == b.ephemeral_persistent_dirs@
}

impl RealmConfig {
    /// A copy of the configuration.
    pub fn duplicate(&self) -> (r: RealmConfig)
        ensures
            same_config(r, *self),
    {
        let netns = match &self.netns {
            Some(n) => Some(n.clone()),
            None => None,
        };
        RealmConfig {
            kvm: self.kvm,
            gpu: self.gpu,
            gpu_card0: self.gpu_card0,
            sound: self.sound,
            x11: self.x11,
            wayland: self.wayland,
            network: self.network,
            ephemeral_home: self.ephemeral_home,
            shared_dir: self.shared_dir,
            readonly_rootfs: self.readonly_rootfs,
            network_zone: self.network_zone.clone(),
            reserved_ip: self.reserved_ip,
            netns,
            extra_bindmounts: copy_strings(&self.extra_bindmounts),
            extra_bindmounts_ro: copy_strings(&self.extra_bindmounts_ro),
            ephemeral_persistent_dirs: copy_strings(&self.ephemeral_persistent_dirs),
        }
    }
}

/// One isolated environment: its name and its configuration.
pub struct Realm {
    pub name: String,
    pub config: RealmConfig,
}

/// The directory that holds a realm's files.
pub open spec fn realm_base_path(name: Seq<char>) -> Seq<char> {
    "/realms/realm-"@ + name
}

/// The path of `file` in the realm's directory.
pub open spec fn realm_file_path(name: Seq<char>, file: Seq<char>) -> Seq<char> {
    realm_base_path(name) + "/"@ + file
}

impl Realm {
    pub fn new(name: &str, config: RealmConfig) -> (r: Realm)
        ensures
            r.name@ == name@,
            r.config == config,
    {
        Realm { name: name.to_owned(), config }
    }

    /// A copy of the realm.
    pub fn duplicate(&self) -> (r: Realm)
        ensures
            r.name == self.name,
            same_config(r.config, self.config),
    {
        Realm { name: self.name.clone(), config: self.config.duplicate() }
    }

    /// The path of `file` in the realm's directory.
    pub fn base_path_file(&self, file: &str) -> (r: String)
        ensures
            r@ == realm_file_path(self.name@, file@),
    {
        let mut s = String::new();
        push_text(&mut s, "/realms/realm-");
        push_text(&mut s, self.name.as_str());
        push_text(&mut s, "/");
        push_text(&mut s, file);
        assert(s@ =~= realm_file_path(self.name@, file@));
        s
    }
}

} // verus!
