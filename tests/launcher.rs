use citadel::launcher::{HostDevices, RealmLauncher};
use citadel::network::{NetworkAllocator, NetworkError};
use citadel::realm::{Realm, RealmConfig};

const BASE: u32 = 0xAC11_0000;

fn net() -> NetworkAllocator {
    let mut n = NetworkAllocator::new();
    assert!(n.add_zone("default", BASE, 24));
    n
}

fn no_devices() -> HostDevices {
    HostDevices { kvm: false, render_node: false, card0: false, shared_dir: false }
}

fn work() -> Realm {
    let mut c = RealmConfig::new("default");
    c.network = true;
    Realm::new("work", c)
}

#[test]
fn descriptors_of_a_networked_realm() {
    let realm = work();
    let mut n = net();
    let mut l = RealmLauncher::new(&realm);
    assert_eq!(l.realm_service_name(), "realm-work.service");
    let files = l.write_launch_config_files("/rootfs", &mut n, &no_devices()).unwrap();
    assert_eq!(files.nspawn_path, "/run/systemd/nspawn/work.nspawn");
    assert_eq!(files.service_path, "/run/systemd/system/realm-work.service");
    assert_eq!(
        files.nspawn,
        "[Exec]\nBoot=true\nEnvironment=IFCONFIG_IP=172.17.0.2/24\nEnvironment=IFCONFIG_GW=172.17.0.1\n[Network]\nZone=clear\n\n\n[Files]\nBindReadOnly=/opt/share\nBindReadOnly=/storage/citadel-state/resolv.conf:/etc/resolv.conf\n\nBind=/realms/realm-work/home:/home/user\n\n\n\n\n"
    );
    assert_eq!(
        files.service,
        "[Unit]\nDescription=Application Image work instance\n\n[Service]\n\nDevicePolicy=closed\n\n\nEnvironment=SYSTEMD_NSPAWN_SHARE_NS_IPC=1\nExecStart=/usr/bin/systemd-nspawn --quiet --notify-ready=yes --keep-unit  --machine=work --link-journal=auto --directory=/rootfs\n\nKillMode=mixed\nType=notify\nRestartForceExitStatus=133\nSuccessExitStatus=133\n"
    );
    assert_eq!(n.address_of("default", "work"), Some(BASE + 2));
}

#[test]
fn descriptors_are_repeatable() {
    let realm = work();
    let mut n = net();
    let host = no_devices();
    let l = RealmLauncher::new(&realm);
    let first = l.generate_nspawn_file(&mut n, &host).unwrap();
    let second = l.generate_nspawn_file(&mut n, &host).unwrap();
    assert_eq!(first, second);
    assert_eq!(l.generate_service_file("/r"), l.generate_service_file("/r"));
}

#[test]
fn kvm_only_when_present() {
    let mut c = RealmConfig::new("default");
    c.kvm = true;
    c.gpu = true;
    let realm = Realm::new("dev", c);
    let mut n = net();

    let mut absent = RealmLauncher::new(&realm);
    let files = absent.write_launch_config_files("/r", &mut n, &no_devices()).unwrap();
    assert!(!files.nspawn.contains("/dev/kvm"));
    assert!(!files.service.contains("/dev/kvm"));

    let host = HostDevices { kvm: true, render_node: true, card0: true, shared_dir: false };
    let mut present = RealmLauncher::new(&realm);
    let files = present.write_launch_config_files("/r", &mut n, &host).unwrap();
    assert!(files.nspawn.contains("Bind=/dev/kvm\nBind=/dev/dri/renderD128\n"));
    assert!(files.service.contains("DeviceAllow=/dev/kvm\nDeviceAllow=/dev/dri/renderD128\n"));
    // card0 needs its own grant
    assert!(!files.nspawn.contains("card0"));
    // no network: a private network
    assert!(files.nspawn.contains("[Network]\nPrivate=true\n"));
}

#[test]
fn binds_in_fixed_order() {
    let mut c = RealmConfig::new("default");
    c.ephemeral_home = true;
    c.shared_dir = true;
    c.sound = true;
    c.x11 = true;
    c.wayland = true;
    c.readonly_rootfs = true;
    c.extra_bindmounts = vec!["/a:/b".to_string(), "/bad\nBind=/etc".to_string()];
    c.extra_bindmounts_ro = vec!["/c".to_string()];
    c.netns = Some("vpn".to_string());
    c.network = true;
    let realm = Realm::new("r", c);
    let host = HostDevices { kvm: false, render_node: false, card0: false, shared_dir: true };
    let l = RealmLauncher::new(&realm);
    assert_eq!(
        l.generate_extra_bind_mounts(&host),
        "TemporaryFileSystem=/home/user:mode=755,uid=1000,gid=1000\nBind=/realms/Shared:/home/user/Shared\nBindReadOnly=/run/user/1000/pulse:/run/user/host/pulse\nBindReadOnly=/tmp/.X11-unix\nBindReadOnly=/run/user/1000/wayland-0:/run/user/host/wayland-0\nBind=/a:/b\nBindReadOnly=/c\n"
    );
    assert_eq!(l.generate_extra_file_options(), "ReadOnly=true\nOverlay=+/var::/var\n");
    let mut n = net();
    assert_eq!(l.generate_network_config(&mut n), Ok(String::new()));
    assert_eq!(n.address_of("default", "r"), None);
    assert!(l.generate_service_file("/r").contains("--keep-unit --network-namespace-path=/run/netns/vpn --machine=r "));
    assert!(!RealmLauncher::is_valid_bind_item("x\ny"));
    assert!(RealmLauncher::is_valid_bind_item("x y"));
}

#[test]
fn reserved_address_and_failures() {
    let mut c = RealmConfig::new("default");
    c.network = true;
    c.reserved_ip = Some(BASE + 40);
    let realm = Realm::new("fixed", c);
    let mut n = net();
    let l = RealmLauncher::new(&realm);
    let text = l.generate_network_config(&mut n).unwrap();
    assert!(text.starts_with("Environment=IFCONFIG_IP=172.17.0.40/24\n"));

    let mut c = RealmConfig::new("default");
    c.network = true;
    c.reserved_ip = Some(BASE + 40);
    let other = Realm::new("other", c);
    let l = RealmLauncher::new(&other);
    assert_eq!(l.generate_nspawn_file(&mut n, &no_devices()), Err(NetworkError::AddressInUse));

    let mut c = RealmConfig::new("missing");
    c.network = true;
    let lost = Realm::new("lost", c);
    let mut l = RealmLauncher::new(&lost);
    assert_eq!(l.write_launch_config_files("/r", &mut n, &no_devices()).err(), Some(NetworkError::ZoneUnknown));
}

#[test]
fn devices_probed_again_on_every_call() {
    let mut c = RealmConfig::new("default");
    c.kvm = true;
    let realm = Realm::new("dev", c);
    let mut n = net();
    let mut l = RealmLauncher::new(&realm);
    let present = HostDevices { kvm: true, render_node: false, card0: false, shared_dir: false };
    let files = l.write_launch_config_files("/r", &mut n, &present).unwrap();
    assert!(files.service.contains("DeviceAllow=/dev/kvm\n"));
    let files = l.write_launch_config_files("/r", &mut n, &no_devices()).unwrap();
    assert!(!files.service.contains("/dev/kvm"));
    assert!(!files.nspawn.contains("/dev/kvm"));
    assert!(l.devices.is_empty());
}

#[test]
fn distinct_realms_written_with_distinct_addresses() {
    let mut n = net();
    let a = work();
    let mut c = RealmConfig::new("default");
    c.network = true;
    let b = Realm::new("play", c);
    let fa = RealmLauncher::new(&a).write_launch_config_files("/r", &mut n, &no_devices()).unwrap();
    let fb = RealmLauncher::new(&b).write_launch_config_files("/r", &mut n, &no_devices()).unwrap();
    assert!(fa.nspawn.contains("IFCONFIG_IP=172.17.0.2/24\n"));
    assert!(fb.nspawn.contains("IFCONFIG_IP=172.17.0.3/24\n"));
    assert_eq!(n.address_of("default", "play"), Some(BASE + 3));
}
