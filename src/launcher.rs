//! Launch descriptors for a realm: the container descriptor and the
//! service unit.
use vstd::prelude::*;
use crate::network::{AllocatorModel, NetworkAllocator, NetworkError, ZoneShape, gateway_of, in_pool};
use crate::realm::{Realm, RealmConfig, realm_file_path};
use crate::text::{decimal, ipv4_text, push_char, push_decimal, push_ipv4, push_text, string_views};

verus! {

/// Which of the paths that launch descriptors refer to exist on the host,
/// as found just before the descriptors are built.
#[derive(Clone, Copy, Debug)]
pub struct HostDevices {
    /// `/dev/kvm`
    pub kvm: bool,
    /// `/dev/dri/renderD128`
    pub render_node: bool,
    /// `/dev/dri/card0`
    pub card0: bool,
    /// `/realms/Shared`
    pub shared_dir: bool,
}

/// The files to write for a realm's launch: where each goes and what it
/// holds.
pub struct LaunchFiles {
    pub nspawn_path: String,
    pub nspawn: String,
    pub service_path: String,
    pub service: String,
}

/// The device nodes a realm is granted and the host has, in order.
pub open spec fn device_paths(c: RealmConfig, h: HostDevices) -> Seq<Seq<char>> {
    (if c.kvm && h.kvm { seq!["/dev/kvm"@] } else { Seq::empty() }) + (if c.gpu && h.render_node {
        seq!["/dev/dri/renderD128"@]
    } else {
        Seq::empty()
    }) + (if c.gpu && c.gpu_card0 && h.card0 { seq!["/dev/dri/card0"@] } else { Seq::empty() })
}

/// One line `prefix` + item for each item.
pub open spec fn lines(prefix: Seq<char>, items: Seq<Seq<char>>) -> Seq<char>
    decreases items.len(),
{
    if items.len() == 0 {
        Seq::empty()
    } else {
        lines(prefix, items.drop_last()) + prefix + items.last() + "\n"@
    }
}

/// Whether a bind mount entry can stand in a descriptor: a line break would
/// let it add directives of its own.
pub open spec fn is_valid_bind(item: Seq<char>) -> bool {
    !item.contains('\n')
}

/// One line `prefix` + item for each valid item.
pub open spec fn valid_lines(prefix: Seq<char>, items: Seq<Seq<char>>) -> Seq<char>
    decreases items.len(),
{
    if items.len() == 0 {
        Seq::empty()
    } else if is_valid_bind(items.last()) {
        valid_lines(prefix, items.drop_last()) + prefix + items.last() + "\n"@
    } else {
        valid_lines(prefix, items.drop_last())
    }
}

pub open spec fn opt_text(b: bool, t: Seq<char>) -> Seq<char> {
    if b { t } else { Seq::empty() }
}

/// The home directory directive.
pub open spec fn home_text(r: Realm) -> Seq<char> {
    if r.config.ephemeral_home {
        "TemporaryFileSystem=/home/user:mode=755,uid=1000,gid=1000\n"@
    } else {
        "Bind="@ + realm_file_path(r.name@, "home"@) + ":/home/user\n"@
    }
}

/// The bind mounts of the container descriptor, in their fixed order.
pub open spec fn bind_mounts_text(r: Realm, devices: Seq<Seq<char>>, shared_present: bool) -> Seq<char> {
    let c = r.config;
    home_text(r) + opt_text(c.shared_dir && shared_present, "Bind=/realms/Shared:/home/user/Shared\n"@)
        + lines("Bind="@, devices) + opt_text(
        c.sound,
        "BindReadOnly=/run/user/1000/pulse:/run/user/host/pulse\n"@,
    ) + opt_text(c.x11, "BindReadOnly=/tmp/.X11-unix\n"@) + opt_text(
        c.wayland,
        "BindReadOnly=/run/user/1000/wayland-0:/run/user/host/wayland-0\n"@,
    ) + valid_lines("Bind="@, string_views(c.extra_bindmounts@)) + valid_lines(
        "BindReadOnly="@,
        string_views(c.extra_bindmounts_ro@),
    )
}

/// The directives of a read-only root filesystem.
pub open spec fn file_options_text(c: RealmConfig) -> Seq<char> {
    opt_text(c.readonly_rootfs, "ReadOnly=true\nOverlay=+/var::/var\n"@)
}

/// The network directives of a realm that holds `a` in a zone of shape `z`.
pub open spec fn managed_network_text(a: nat, z: ZoneShape) -> Seq<char> {
    "Environment=IFCONFIG_IP="@ + ipv4_text(a) + "/"@ + decimal(z.prefix) + "\nEnvironment=IFCONFIG_GW="@
        + ipv4_text(gateway_of(z)) + "\n[Network]\nZone=clear\n"@
}

/// The network directives of a realm, and the allocator state they leave.
pub open spec fn network_outcome(r: Realm, m: AllocatorModel) -> (Result<Seq<char>, NetworkError>, AllocatorModel) {
    let c = r.config;
    if !c.network {
        (Ok("[Network]\nPrivate=true\n"@), m)
    } else if c.netns is Some {
        (Ok(Seq::empty()), m)
    } else {
        let zone = c.network_zone@;
        let step = match c.reserved_ip {
            Some(a) => m.reserve(zone, r.name@, a),
            None => m.allocate(zone, r.name@),
        };
        match step.0 {
            Ok(a) => (Ok(managed_network_text(a as nat, m.zones[zone])), step.1),
            Err(e) => (Err(e), step.1),
        }
    }
}

/// The container descriptor built from its three generated parts.
pub open spec fn nspawn_text(net: Seq<char>, binds: Seq<char>, options: Seq<char>) -> Seq<char> {
    "[Exec]\nBoot=true\n"@ + net
        + "\n\n[Files]\nBindReadOnly=/opt/share\nBindReadOnly=/storage/citadel-state/resolv.conf:/etc/resolv.conf\n\n"@
        + binds + "\n\n"@ + options + "\n\n"@
}

/// The container descriptor of a realm, and the allocator state it leaves.
pub open spec fn nspawn_outcome(r: Realm, devices: Seq<Seq<char>>, shared_present: bool, m: AllocatorModel) -> (
    Result<Seq<char>, NetworkError>,
    AllocatorModel,
) {
    let n = network_outcome(r, m);
    match n.0 {
        Ok(net) => (
            Ok(nspawn_text(net, bind_mounts_text(r, devices, shared_present), file_options_text(r.config))),
            n.1,
        ),
        Err(e) => (Err(e), n.1),
    }
}

/// The argument that joins an outside network namespace, if any.
pub open spec fn netns_arg(c: RealmConfig) -> Seq<char> {
    match c.netns {
        Some(ns) => "--network-namespace-path=/run/netns/"@ + ns@,
        None => Seq::empty(),
    }
}

/// The service unit of a realm.
pub open spec fn service_text(r: Realm, devices: Seq<Seq<char>>, rootfs: Seq<char>) -> Seq<char> {
    "[Unit]\nDescription=Application Image "@ + r.name@ + " instance\n\n[Service]\n\nDevicePolicy=closed\n"@
        + lines("DeviceAllow="@, devices)
        + "\n\nEnvironment=SYSTEMD_NSPAWN_SHARE_NS_IPC=1\nExecStart=/usr/bin/systemd-nspawn --quiet --notify-ready=yes --keep-unit "@
        + netns_arg(r.config) + " --machine="@ + r.name@ + " --link-journal=auto --directory="@ + rootfs
        + "\n\nKillMode=mixed\nType=notify\nRestartForceExitStatus=133\nSuccessExitStatus=133\n"@
}

/// The name of a realm's service unit.
pub open spec fn service_name(name: Seq<char>) -> Seq<char> {
    "realm-"@ + name + ".service"@
}

/// Where a realm's service unit is written.
pub open spec fn service_path(name: Seq<char>) -> Seq<char> {
    "/run/systemd/system/"@ + service_name(name)
}

/// Where a realm's container descriptor is written.
pub open spec fn nspawn_path(name: Seq<char>) -> Seq<char> {
    "/run/systemd/nspawn/"@ + name + ".nspawn"@
}

/// Building the container descriptor again, from the state the first build
/// left, gives the same bytes and changes nothing: the realm keeps the
/// address it was given.
pub proof fn law_descriptors_repeatable(
    r: Realm,
    devices: Seq<Seq<char>>,
    shared_present: bool,
    m: AllocatorModel,
)
    requires
        m.inv(),
        nspawn_outcome(r, devices, shared_present, m).0 is Ok,
    ensures
        nspawn_outcome(r, devices, shared_present, nspawn_outcome(r, devices, shared_present, m).1)
            == nspawn_outcome(r, devices, shared_present, m),
{
    let c = r.config;
    if c.network && c.netns is None {
        let zone = c.network_zone@;
        match c.reserved_ip {
            Some(a) => {
                let m2 = m.reserve(zone, r.name@, a).1;
                assert(m2.held.contains_key((zone, r.name@)) && m2.held[(zone, r.name@)] == a);
                assert(m2.zones == m.zones);
            },
            None => {
                crate::network::law_allocate_idempotent(m, zone, r.name@);
                assert(m.allocate(zone, r.name@).1.zones == m.zones);
            },
        }
    }
}

/// Two distinct realms that take addresses from the pool of one zone, one
/// after the other, get network directives with different addresses,
/// neither of them the gateway, and the allocator then records for each
/// realm the address written for it.
pub proof fn law_distinct_realms_distinct_addresses(r1: Realm, r2: Realm, m: AllocatorModel)
    requires
        m.inv(),
        r1.name@ != r2.name@,
        r1.config.network && r1.config.netns is None && r1.config.reserved_ip is None,
        r2.config.network && r2.config.netns is None && r2.config.reserved_ip is None,
        r1.config.network_zone@ == r2.config.network_zone@,
        network_outcome(r1, m).0 is Ok,
        network_outcome(r2, network_outcome(r1, m).1).0 is Ok,
    ensures
        ({
            let z = r1.config.network_zone@;
            let m1 = network_outcome(r1, m).1;
            let m2 = network_outcome(r2, m1).1;
            &&& m2.held.contains_key((z, r1.name@)) && m2.held.contains_key((z, r2.name@))
            &&& m2.held[(z, r1.name@)] != m2.held[(z, r2.name@)]
            &&& m2.held[(z, r1.name@)] as nat != gateway_of(m.zones[z])
            &&& m2.held[(z, r2.name@)] as nat != gateway_of(m.zones[z])
            &&& network_outcome(r1, m).0 == Ok::<Seq<char>, NetworkError>(
                managed_network_text(m2.held[(z, r1.name@)] as nat, m.zones[z]))
            &&& network_outcome(r2, m1).0 == Ok::<Seq<char>, NetworkError>(
                managed_network_text(m2.held[(z, r2.name@)] as nat, m.zones[z]))
        }),
{
    let z = r1.config.network_zone@;
    let n1 = r1.name@;
    let n2 = r2.name@;
    let m1 = m.allocate(z, n1).1;
    assert(network_outcome(r1, m).1 == m1);
    crate::network::law_distinct_realms_get_distinct_addresses(m, z, n1, n2);
    crate::network::law_operations_keep_invariant(m, z, n1, 0);
    crate::network::law_operations_keep_invariant(m1, z, n2, 0);
    let m2 = m1.allocate(z, n2).1;
    assert(m1.zones == m.zones);
    assert(m2.zones == m.zones);
    assert(m1.held.contains_key((z, n1)) && m1.held[(z, n1)] == m.allocate(z, n1).0.unwrap());
    assert(m2.held.contains_key((z, n2)) && m2.held[(z, n2)] == m1.allocate(z, n2).0.unwrap());
    assert(m2.held.contains_key((z, n1)) && m2.held[(z, n1)] == m1.held[(z, n1)]);
    assert(in_pool(m2.zones[z], m2.held[(z, n1)] as nat));
    assert(in_pool(m2.zones[z], m2.held[(z, n2)] as nat));
}

/// A device node is bound into a realm only where the realm is granted it
/// and the node exists on the host; `/dev/kvm` is the first such node.
pub proof fn law_devices_need_presence(c: RealmConfig, h: HostDevices)
    ensures
        device_paths(c, h).contains("/dev/kvm"@) <==> (c.kvm && h.kvm),
        device_paths(c, h).contains("/dev/dri/renderD128"@) <==> (c.gpu && h.render_node),
        device_paths(c, h).contains("/dev/dri/card0"@) <==> (c.gpu && c.gpu_card0 && h.card0),
        c.kvm && h.kvm ==> device_paths(c, h)[0] == "/dev/kvm"@,
{
    reveal_strlit("/dev/kvm");
    reveal_strlit("/dev/dri/renderD128");
    reveal_strlit("/dev/dri/card0");
    let k = "/dev/kvm"@;
    let g = "/dev/dri/renderD128"@;
    let d = "/dev/dri/card0"@;
    assert(k.len() != g.len() && k.len() != d.len());
    assert(g[9] != d[9]);
    let p = device_paths(c, h);
    if p.contains(k) {
        let i = choose|i: int| 0 <= i < p.len() && p[i] == k;
        if !(c.kvm && h.kvm) {
            assert(p[i] == g || p[i] == d);
        }
    }
    if p.contains(g) {
        let i = choose|i: int| 0 <= i < p.len() && p[i] == g;
        if !(c.gpu && h.render_node) {
            assert(p[i] == k || p[i] == d);
        }
    }
    if p.contains(d) {
        let i = choose|i: int| 0 <= i < p.len() && p[i] == d;
        if !(c.gpu && c.gpu_card0 && h.card0) {
            assert(p[i] == k || p[i] == g);
        }
    }
    if c.kvm && h.kvm {
        assert(p[0] == k);
    }
    if c.gpu && h.render_node {
        let j = if c.kvm && h.kvm { 1int } else { 0int };
        assert(p[j] == g);
    }
    if c.gpu && c.gpu_card0 && h.card0 {
        let j = (if c.kvm && h.kvm { 1int } else { 0int }) + (if c.gpu && h.render_node { 1int } else { 0int });
        assert(p[j] == d);
    }
}

/// Appends one line `prefix` + item for each item (or each valid item).
fn push_lines(s: &mut String, prefix: &str, items: &Vec<String>, only_valid: bool)
    ensures
        final(s)@ == old(s)@ + (if only_valid {
            valid_lines(prefix@, string_views(items@))
        } else {
            lines(prefix@, string_views(items@))
        }),
{
    let ghost start = s@;
    let ghost vs = string_views(items@);
    let mut i: usize = 0;
    assert(vs.take(0) =~= Seq::<Seq<char>>::empty());
    assert(s@ =~= start + (if only_valid { valid_lines(prefix@, vs.take(0)) } else { lines(prefix@, vs.take(0)) }));
    while i < items.len()
        invariant
            i <= items.len(),
            vs == string_views(items@),
            s@ == start + (if only_valid {
                valid_lines(prefix@, vs.take(i as int))
            } else {
                lines(prefix@, vs.take(i as int))
            }),
        decreases items.len() - i,
    {
        let item = items[i].as_str();
        assert(vs.take(i + 1).drop_last() =~= vs.take(i as int));
        assert(vs.take(i + 1).last() == item@);
        if !only_valid || RealmLauncher::is_valid_bind_item(item) {
            let ghost before = s@;
            push_text(s, prefix);
            push_text(s, item);
            push_char(s, '\n');
            proof {
                reveal_strlit("\n");
            }
            assert(s@ =~= before + prefix@ + item@ + "\n"@);
        }
        i = i + 1;
    }
    assert(vs.take(i as int) =~= vs);
}

fn push_if(s: &mut String, b: bool, t: &str)
    ensures
        final(s)@ == old(s)@ + opt_text(b, t@),
{
    if b {
        push_text(s, t);
    } else {
        assert(s@ =~= old(s)@ + opt_text(b, t@));
    }
}

/// Builds the launch descriptors of one realm.
pub struct RealmLauncher<'a> {
    pub realm: &'a Realm,
    pub service: String,
    pub devices: Vec<String>,
}

impl<'a> RealmLauncher<'a> {
    /// A launcher for `realm` that has not yet probed any device.
    pub fn new(realm: &'a Realm) -> (r: RealmLauncher<'a>)
        ensures
            r.realm == realm,
            r.service@ == service_name(realm.name@),
            r.devices@.len() == 0,
    {
        let mut service = String::new();
        push_text(&mut service, "realm-");
        push_text(&mut service, realm.name.as_str());
        push_text(&mut service, ".service");
        assert(service@ =~= service_name(realm.name@));
        RealmLauncher { realm, service, devices: Vec::new() }
    }

    /// Adds `device` to the granted devices where it is present on the host.
    pub fn add_device(&mut self, device: &str, present: bool)
        ensures
            final(self).realm == old(self).realm,
            final(self).service == old(self).service,
            string_views(final(self).devices@) == string_views(old(self).devices@) + (if present {
                seq![device@]
            } else {
                Seq::empty()
            }),
    {
        if present {
            self.devices.push(device.to_owned());
            assert(string_views(self.devices@) =~= string_views(old(self).devices@) + seq![device@]);
        } else {
            assert(string_views(self.devices@) =~= string_views(old(self).devices@) + Seq::empty());
        }
    }

    /// Adds every device that the realm is granted and the host has.
    pub fn add_devices(&mut self, host: &HostDevices)
        ensures
            final(self).realm == old(self).realm,
            final(self).service == old(self).service,
            string_views(final(self).devices@) == string_views(old(self).devices@) + device_paths(old(self).realm.config, *host),
    {
        let config = &self.realm.config;
        let ghost start = string_views(self.devices@);
        self.add_device("/dev/kvm", config.kvm && host.kvm);
        self.add_device("/dev/dri/renderD128", config.gpu && host.render_node);
        self.add_device("/dev/dri/card0", config.gpu && config.gpu_card0 && host.card0);
        assert(string_views(self.devices@) =~= start + device_paths(old(self).realm.config, *host));
    }

    /// Whether a bind mount entry holds no line break.
    pub fn is_valid_bind_item(item: &str) -> (r: bool)
        ensures
            r == is_valid_bind(item@),
    {
        let n = item.unicode_len();
        let mut i: usize = 0;
        while i < n
            invariant
                n == item@.len(),
                i <= n,
                forall|j: int| 0 <= j < i ==> item@[j] != '\n',
            decreases n - i,
        {
            if item.get_char(i) == '\n' {
                assert(item@.contains('\n'));
                return false;
            }
            i = i + 1;
        }
        true
    }

    /// The bind mounts of the container descriptor.
    pub fn generate_extra_bind_mounts(&self, host: &HostDevices) -> (r: String)
        ensures
            r@ == bind_mounts_text(*self.realm, string_views(self.devices@), host.shared_dir),
    {
        let realm = self.realm;
        let config = &realm.config;
        let mut s = String::new();
        if config.ephemeral_home {
            push_text(&mut s, "TemporaryFileSystem=/home/user:mode=755,uid=1000,gid=1000\n");
        } else {
            push_text(&mut s, "Bind=");
            let home = realm.base_path_file("home");
            push_text(&mut s, home.as_str());
            push_text(&mut s, ":/home/user\n");
        }
        assert(s@ =~= home_text(*realm));
        push_if(&mut s, config.shared_dir && host.shared_dir, "Bind=/realms/Shared:/home/user/Shared\n");
        push_lines(&mut s, "Bind=", &self.devices, false);
        push_if(&mut s, config.sound, "BindReadOnly=/run/user/1000/pulse:/run/user/host/pulse\n");
        push_if(&mut s, config.x11, "BindReadOnly=/tmp/.X11-unix\n");
        push_if(&mut s, config.wayland, "BindReadOnly=/run/user/1000/wayland-0:/run/user/host/wayland-0\n");
        push_lines(&mut s, "Bind=", &config.extra_bindmounts, true);
        push_lines(&mut s, "BindReadOnly=", &config.extra_bindmounts_ro, true);
        assert(s@ =~= bind_mounts_text(*realm, string_views(self.devices@), host.shared_dir));
        s
    }

    /// The read-only root filesystem directives, where the realm has one.
    pub fn generate_extra_file_options(&self) -> (r: String)
        ensures
            r@ == file_options_text(self.realm.config),
    {
        let mut s = String::new();
        push_if(&mut s, self.realm.config.readonly_rootfs, "ReadOnly=true\nOverlay=+/var::/var\n");
        assert(s@ =~= file_options_text(self.realm.config));
        s
    }

    /// The network directives. Where the realm uses the allocator, this
    /// takes its address (the reserved one, or the lowest free one).
    pub fn generate_network_config(&self, net: &mut NetworkAllocator) -> (r: Result<String, NetworkError>)
        requires
            old(net).wf(),
        ensures
            final(net).wf(),
            (match r {
                Ok(t) => Ok::<Seq<char>, NetworkError>(t@),
                Err(e) => Err(e),
            }, final(net)@) == network_outcome(*self.realm, old(net)@),
    {
        let realm = self.realm;
        let config = &realm.config;
        let mut s = String::new();
        if config.network {
            if config.netns.is_some() {
                assert(s@ =~= Seq::<char>::empty());
                return Ok(s);
            }
            let zone = config.network_zone.as_str();
            let res = match config.reserved_ip {
                Some(a) => net.allocate_reserved(zone, realm.name.as_str(), a),
                None => net.allocate_address_for(zone, realm.name.as_str()),
            };
            let addr = match res {
                Ok(a) => a,
                Err(e) => return Err(e),
            };
            proof {
                net.lemma_wf();
                old(net).lemma_wf();
            }
            let gw = match net.gateway(zone) {
                Ok(g) => g,
                Err(e) => return Err(e),
            };
            let prefix = match net.prefix(zone) {
                Ok(p) => p,
                Err(e) => return Err(e),
            };
            push_text(&mut s, "Environment=IFCONFIG_IP=");
            push_ipv4(&mut s, addr);
            push_text(&mut s, "/");
            push_decimal(&mut s, prefix);
            push_text(&mut s, "\nEnvironment=IFCONFIG_GW=");
            push_ipv4(&mut s, gw);
            push_text(&mut s, "\n[Network]\nZone=clear\n");
            assert(s@ =~= managed_network_text(addr as nat, old(net)@.zones[zone@]));
        } else {
            push_text(&mut s, "[Network]\nPrivate=true\n");
        }
        Ok(s)
    }

    /// The container descriptor.
    pub fn generate_nspawn_file(&self, net: &mut NetworkAllocator, host: &HostDevices) -> (r: Result<String, NetworkError>)
        requires
            old(net).wf(),
        ensures
            final(net).wf(),
            (match r {
                Ok(t) => Ok::<Seq<char>, NetworkError>(t@),
                Err(e) => Err(e),
            }, final(net)@) == nspawn_outcome(*self.realm, string_views(self.devices@), host.shared_dir, old(net)@),
    {
        let network = match self.generate_network_config(net) {
            Ok(t) => t,
            Err(e) => return Err(e),
        };
        let binds = self.generate_extra_bind_mounts(host);
        let options = self.generate_extra_file_options();
        let mut s = String::new();
        push_text(&mut s, "[Exec]\nBoot=true\n");
        push_text(&mut s, network.as_str());
        push_text(&mut s, "\n\n[Files]\nBindReadOnly=/opt/share\nBindReadOnly=/storage/citadel-state/resolv.conf:/etc/resolv.conf\n\n");
        push_text(&mut s, binds.as_str());
        push_text(&mut s, "\n\n");
        push_text(&mut s, options.as_str());
        push_text(&mut s, "\n\n");
        assert(s@ =~= nspawn_text(network@, binds@, options@));
        Ok(s)
    }

    /// The service unit, with the realm's root filesystem at `rootfs`.
    pub fn generate_service_file(&self, rootfs: &str) -> (r: String)
        ensures
            r@ == service_text(*self.realm, string_views(self.devices@), rootfs@),
    {
        let realm = self.realm;
        let mut s = String::new();
        push_text(&mut s, "[Unit]\nDescription=Application Image ");
        push_text(&mut s, realm.name.as_str());
        push_text(&mut s, " instance\n\n[Service]\n\nDevicePolicy=closed\n");
        push_lines(&mut s, "DeviceAllow=", &self.devices, false);
        push_text(&mut s, "\n\nEnvironment=SYSTEMD_NSPAWN_SHARE_NS_IPC=1\nExecStart=/usr/bin/systemd-nspawn --quiet --notify-ready=yes --keep-unit ");
        let ghost p = s@;
        match &realm.config.netns {
            Some(ns) => {
                push_text(&mut s, "--network-namespace-path=/run/netns/");
                push_text(&mut s, ns.as_str());
            },
            None => {},
        }
        assert(s@ =~= p + netns_arg(realm.config));
        push_text(&mut s, " --machine=");
        push_text(&mut s, realm.name.as_str());
        push_text(&mut s, " --link-journal=auto --directory=");
        push_text(&mut s, rootfs);
        push_text(&mut s, "\n\nKillMode=mixed\nType=notify\nRestartForceExitStatus=133\nSuccessExitStatus=133\n");
        assert(s@ =~= service_text(*realm, string_views(self.devices@), rootfs@));
        s
    }

    /// The name of the realm's service unit.
    pub fn realm_service_name(&self) -> (r: &str)
        ensures
            r@ == self.service@,
    {
        self.service.as_str()
    }

    /// Where the realm's service unit is written.
    pub fn realm_service_path(&self) -> (r: String)
        ensures
            r@ == "/run/systemd/system/"@ + self.service@,
    {
        let mut s = String::new();
        push_text(&mut s, "/run/systemd/system/");
        push_text(&mut s, self.service.as_str());
        s
    }

    /// Where the realm's container descriptor is written.
    pub fn realm_nspawn_path(&self) -> (r: String)
        ensures
            r@ == nspawn_path(self.realm.name@),
    {
        let mut s = String::new();
        push_text(&mut s, "/run/systemd/nspawn/");
        push_text(&mut s, self.realm.name.as_str());
        push_text(&mut s, ".nspawn");
        assert(s@ =~= nspawn_path(self.realm.name@));
        s
    }

    /// The launch descriptors to write, with their paths. The granted
    /// devices are taken afresh from `host` on every call, whatever an
    /// earlier call found; the realm's address is taken from
    /// `net` where it uses the allocator. Nothing is produced where the
    /// address cannot be had.
    pub fn write_launch_config_files(&mut self, rootfs: &str, net: &mut NetworkAllocator, host: &HostDevices) -> (r: Result<LaunchFiles, NetworkError>)
        requires
            old(net).wf(),
        ensures
            final(net).wf(),
            final(self).realm == old(self).realm,
            final(self).service == old(self).service,
            string_views(final(self).devices@) == device_paths(old(self).realm.config, *host),
            ({
                let out = nspawn_outcome(*old(self).realm, string_views(final(self).devices@), host.shared_dir, old(net)@);
                &&& final(net)@ == out.1
                &&& match r {
                    Ok(f) => out.0 == Ok::<Seq<char>, NetworkError>(f.nspawn@)
                        && f.service@ == service_text(*old(self).realm, string_views(final(self).devices@), rootfs@)
                        && f.nspawn_path@ == nspawn_path(old(self).realm.name@)
                        && f.service_path@ == "/run/systemd/system/"@ + old(self).service@,
                    Err(e) => out.0 == Err::<Seq<char>, NetworkError>(e),
                }
            }),
    {
        self.devices.clear();
        assert(string_views(self.devices@) =~= Seq::empty());
        self.add_devices(host);
        assert(string_views(self.devices@) =~= device_paths(old(self).realm.config, *host));
        let nspawn_path = self.realm_nspawn_path();
        let nspawn = match self.generate_nspawn_file(net, host) {
            Ok(t) => t,
            Err(e) => return Err(e),
        };
        let service_path = self.realm_service_path();
        let service = self.generate_service_file(rootfs);
        Ok(LaunchFiles { nspawn_path, nspawn, service_path, service })
    }
}

} // verus!
