use citadel::dbus::{DbusServer, Job};
use citadel::launcher::HostDevices;
use citadel::manager::{ManagerError, RealmEvent, RealmManager, StartStep, SupervisorOp, supervisor_outcome};
use citadel::network::NetworkAllocator;
use citadel::realm::{Realm, RealmConfig};
use citadel::systemd::Systemd;

const BASE: u32 = 0xAC11_0000;

fn host() -> HostDevices {
    HostDevices { kvm: false, render_node: false, card0: false, shared_dir: false }
}

fn realm(name: &str) -> Realm {
    let mut c = RealmConfig::new("default");
    c.network = true;
    Realm::new(name, c)
}

fn manager() -> RealmManager {
    let mut net = NetworkAllocator::new();
    assert!(net.add_zone("default", BASE, 24));
    let mut m = RealmManager::new(Systemd::new(net));
    m.load_realms(vec![realm("work"), realm("other")]);
    m.take_events();
    m
}

#[test]
fn start_work_scenario() {
    let mut m = manager();
    let step = m.start_realm("work", false, "/rootfs", &host()).unwrap();
    let plan = match step {
        StartStep::Launch(p) => p,
        StartStep::AlreadyRunning => panic!("work was not running"),
    };
    assert_eq!(plan.service, "realm-work.service");
    assert!(!plan.setup_ephemeral_home);
    assert!(plan.files.nspawn.contains("Bind=/realms/realm-work/home:/home/user\n"));
    assert!(plan.files.nspawn.contains("Environment=IFCONFIG_IP=172.17.0.2/24\n"));
    assert_eq!(m.systemd.network.address_of("default", "work"), Some(BASE + 2));
    assert_eq!(m.realm_started("work"), Ok(()));
    assert_eq!(m.take_events(), vec![RealmEvent::Started("work".to_string())]);
    let server = DbusServer::connect(m);
    assert_eq!(server.do_list(&vec![true, false]), vec![("work".to_string(), 1), ("other".to_string(), 0)]);
}

#[test]
fn set_current_scenario() {
    let mut m = manager();
    m.start_realm("work", false, "/rootfs", &host()).unwrap();
    m.realm_started("work").unwrap();
    m.take_events();
    let mut server = DbusServer::connect(m);
    assert_eq!(server.do_set_current("work", true), Ok(()));
    assert_eq!(server.do_get_current(), "work");
    assert_eq!(server.manager.take_events(), vec![RealmEvent::Current(Some("work".to_string()))]);
    assert_eq!(server.do_list(&vec![true, false]), vec![("work".to_string(), 2), ("other".to_string(), 0)]);
    // a realm that is not running cannot become current
    assert_eq!(server.do_set_current("other", false), Err(ManagerError::NotRunning));
    assert!(server.manager.take_events().is_empty());
    // an unknown name is ignored
    assert_eq!(server.do_set_current("ghost", true), Ok(()));
    assert_eq!(server.do_get_current(), "work");
}

#[test]
fn stop_scenario() {
    let mut m = manager();
    m.start_realm("work", false, "/rootfs", &host()).unwrap();
    m.realm_started("work").unwrap();
    m.set_current_realm("work", true).unwrap();
    m.take_events();
    assert_eq!(m.stop_realm("work"), Ok("realm-work.service".to_string()));
    assert_eq!(m.realm_stopped("work"), Ok(()));
    assert_eq!(m.systemd.network.address_of("default", "work"), None);
    assert_eq!(
        m.take_events(),
        vec![RealmEvent::Stopped("work".to_string()), RealmEvent::Current(None)]
    );
    assert_eq!(m.current_realm(), None);
    assert_eq!(m.systemd.network.allocate_address_for("default", "other"), Ok(BASE + 2));
}

#[test]
fn at_most_one_current() {
    let mut m = manager();
    m.set_current_realm("work", true).unwrap();
    m.set_current_realm("other", true).unwrap();
    let list = m.realm_list(&vec![true, true]);
    assert_eq!(list.iter().filter(|e| e.1 == 2).count(), 1);
    assert_eq!(list, vec![("work".to_string(), 1), ("other".to_string(), 2)]);
    m.realm_stopped("other").unwrap();
    let list = m.realm_list(&vec![true, true]);
    assert_eq!(list.iter().filter(|e| e.1 == 2).count(), 0);
}

#[test]
fn start_edge_cases() {
    let mut m = manager();
    assert!(matches!(m.start_realm("work", true, "/r", &host()), Ok(StartStep::AlreadyRunning)));
    assert_eq!(m.systemd.network.address_of("default", "work"), None);
    assert!(matches!(m.start_realm("ghost", false, "/r", &host()), Err(ManagerError::RealmNotFound)));
    m.start_realm("work", false, "/r", &host()).unwrap();
    assert_eq!(m.start_failed("work"), Ok(()));
    assert_eq!(m.systemd.network.address_of("default", "work"), None);
    assert_eq!(m.realm_started("ghost"), Err(ManagerError::RealmNotFound));
}

#[test]
fn discovery_events() {
    let mut net = NetworkAllocator::new();
    assert!(net.add_zone("default", BASE, 24));
    let mut m = RealmManager::new(Systemd::new(net));
    m.load_realms(vec![realm("a"), realm("b")]);
    assert_eq!(m.take_events(), vec![RealmEvent::New("a".to_string()), RealmEvent::New("b".to_string())]);
    m.set_current_realm("a", true).unwrap();
    m.take_events();
    m.load_realms(vec![realm("b"), realm("c")]);
    assert_eq!(
        m.take_events(),
        vec![RealmEvent::New("c".to_string()), RealmEvent::Removed("a".to_string()), RealmEvent::Current(None)]
    );
    assert_eq!(m.current_realm(), None);
}

#[test]
fn requests_and_notifications() {
    let server = DbusServer::connect(manager());
    assert_eq!(server.do_start("work"), Ok(Job::Start("work".to_string())));
    assert_eq!(server.do_stop("work"), Ok(Job::Stop("work".to_string())));
    assert_eq!(server.do_terminal("work"), Ok(Job::Terminal("work".to_string())));
    assert_eq!(server.do_run("work", vec!["ls".to_string()]), Ok(Job::Run("work".to_string(), vec!["ls".to_string()])));
    assert_eq!(server.do_start("ghost"), Err(ManagerError::RealmNotFound));
    assert_eq!(server.do_get_current(), "");
    let s = DbusServer::handle_event(&RealmEvent::Current(None));
    assert_eq!((s.member.as_str(), s.realm), ("RealmCurrent", Some(String::new())));
    let s = DbusServer::handle_event(&RealmEvent::Removed("x".to_string()));
    assert_eq!((s.member.as_str(), s.realm), ("RealmRemoved", Some("x".to_string())));
    let setup = server.start();
    assert_eq!(setup.bus_name, "com.subgraph.realms");
    assert_eq!(
        setup.match_rules,
        vec!["type=signal,interface=org.freedesktop.VPN.Connection", "type=signal,interface=org.freedesktop.DBus.ObjectManager"]
    );
    assert_eq!(setup.first_signal.member, "ServiceStarted");
}

#[test]
fn control_interface_description() {
    let server = DbusServer::connect(manager());
    let tree = server.build_tree();
    assert_eq!(tree.object_path, "/com/subgraph/realms");
    assert_eq!(tree.interface, "com.subgraph.realms.Manager");
    let names: Vec<&str> = tree.methods.iter().map(|m| m.name.as_str()).collect();
    assert_eq!(names, vec!["SetCurrent", "GetCurrent", "List", "Start", "Stop", "Terminal", "Run", "RealmFromCitadelPid"]);
    assert_eq!(tree.methods[2].out_args, vec![("realms".to_string(), "a{sy}".to_string())]);
    assert_eq!(tree.methods[6].in_args.len(), 2);
    let signals: Vec<&str> = tree.signals.iter().map(|m| m.name.as_str()).collect();
    assert_eq!(signals, vec!["RealmStarted", "RealmStopped", "RealmNew", "RealmRemoved", "RealmCurrent", "ServiceStarted"]);
}

#[test]
fn supervisor_failures() {
    assert_eq!(supervisor_outcome(SupervisorOp::Start, "realm-w.service", Some(true)), Ok(()));
    assert_eq!(
        supervisor_outcome(SupervisorOp::Start, "realm-w.service", Some(false)),
        Err(ManagerError::SupervisorCommandFailed { op: SupervisorOp::Start, name: "realm-w.service".to_string() })
    );
    assert_eq!(
        supervisor_outcome(SupervisorOp::Stop, "realm-w.service", None),
        Err(ManagerError::SupervisorCommandFailed { op: SupervisorOp::Stop, name: "realm-w.service".to_string() })
    );
}

#[test]
fn realm_from_pid() {
    let server = DbusServer::connect(manager());
    let cgroup = "0::/system.slice/realm-other.service/payload\n";
    assert_eq!(server.do_pid_to_realm(Some(cgroup)), "other");
    assert_eq!(server.do_pid_to_realm(Some("0::/user.slice/session-2.scope\n")), "");
    assert_eq!(server.do_pid_to_realm(Some("0::/system.slice/realm-otherx.service\n")), "");
    assert_eq!(server.do_pid_to_realm(None), "");
}
