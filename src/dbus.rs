//! The control boundary: what each request of the control protocol
//! answers or sets off, and the notification each lifecycle event becomes.
//! The transport, and the workers that run lifecycle jobs, are the
//! caller's.
use vstd::prelude::*;
use crate::manager::{ManagerError, RealmEvent, RealmManager, is_current, names};
use crate::systemd::concat;
use crate::text::{contains_text, occurs, string_views};

verus! {


/// An outbound notification: its member name and its realm argument, if it
/// has one (an empty name stands for no realm).
pub struct Signal {
    pub member: String,
    pub realm: Option<String>,
}

/// A lifecycle operation accepted for a worker to run. Its outcome is
/// seen only through events.
#[derive(Debug, PartialEq, Eq)]
pub enum Job {
    Start(String),
    Stop(String),
    /// Start if needed, then open a terminal.
    Terminal(String),
    /// Start if needed, then run the arguments.
    Run(String, Vec<String>),
}

/// What the boundary does when it starts serving.
pub struct ServerSetup {
    pub bus_name: String,
    /// Match rules for the outside signals to receive.
    pub match_rules: Vec<String>,
    /// The one-shot notification sent once serving.
    pub first_signal: Signal,
}

/// A method or signal of the control interface: its name, and the names
/// and type signatures of its input and output arguments.
pub struct Member {
    pub name: String,
    pub in_args: Vec<(String, String)>,
    pub out_args: Vec<(String, String)>,
}

/// The control interface at its object path.
pub struct InterfaceDescription {
    pub object_path: String,
    pub interface: String,
    pub methods: Vec<Member>,
    pub signals: Vec<Member>,
}

/// A member over plain text.
pub type MemberView = (Seq<char>, Seq<(Seq<char>, Seq<char>)>, Seq<(Seq<char>, Seq<char>)>);

pub open spec fn arg_views(v: Seq<(String, String)>) -> Seq<(Seq<char>, Seq<char>)> {
    v.map_values(|a: (String, String)| (a.0@, a.1@))
}

pub open spec fn member_views(v: Seq<Member>) -> Seq<MemberView> {
    v.map_values(|m: Member| (m.name@, arg_views(m.in_args@), arg_views(m.out_args@)))
}

/// The methods of the control interface, in order.
pub open spec fn interface_methods() -> Seq<MemberView> {
    seq![
        ("SetCurrent"@, seq![("name"@, "s"@)], seq![]),
        ("GetCurrent"@, seq![], seq![("name"@, "s"@)]),
        ("List"@, seq![], seq![("realms"@, "a{sy}"@)]),
        ("Start"@, seq![("name"@, "s"@)], seq![]),
        ("Stop"@, seq![("name"@, "s"@)], seq![]),
        ("Terminal"@, seq![("name"@, "s"@)], seq![]),
        ("Run"@, seq![("name"@, "s"@), ("args"@, "as"@)], seq![]),
        ("RealmFromCitadelPid"@, seq![("pid"@, "u"@)], seq![("realm"@, "s"@)]),
    ]
}

/// The signals of the control interface, in order.
pub open spec fn interface_signals() -> Seq<MemberView> {
    seq![
        ("RealmStarted"@, seq![("realm"@, "s"@)], seq![]),
        ("RealmStopped"@, seq![("realm"@, "s"@)], seq![]),
        ("RealmNew"@, seq![("realm"@, "s"@)], seq![]),
        ("RealmRemoved"@, seq![("realm"@, "s"@)], seq![]),
        ("RealmCurrent"@, seq![("realm"@, "s"@)], seq![]),
        ("ServiceStarted"@, seq![], seq![]),
    ]
}

fn args0() -> (r: Vec<(String, String)>)
    ensures
        arg_views(r@) == Seq::<(Seq<char>, Seq<char>)>::empty(),
{
    let r: Vec<(String, String)> = Vec::new();
    assert(arg_views(r@) =~= Seq::<(Seq<char>, Seq<char>)>::empty());
    r
}

fn args1(n: &str, t: &str) -> (r: Vec<(String, String)>)
    ensures
        arg_views(r@) == seq![(n@, t@)],
{
    let mut r: Vec<(String, String)> = Vec::new();
    r.push((n.to_owned(), t.to_owned()));
    assert(arg_views(r@) =~= seq![(n@, t@)]);
    r
}

fn args2(n1: &str, t1: &str, n2: &str, t2: &str) -> (r: Vec<(String, String)>)
    ensures
        arg_views(r@) == seq![(n1@, t1@), (n2@, t2@)],
{
    let mut r: Vec<(String, String)> = Vec::new();
    r.push((n1.to_owned(), t1.to_owned()));
    r.push((n2.to_owned(), t2.to_owned()));
    assert(arg_views(r@) =~= seq![(n1@, t1@), (n2@, t2@)]);
    r
}

fn push_member(v: &mut Vec<Member>, name: &str, in_args: Vec<(String, String)>, out_args: Vec<(String, String)>)
    ensures
        member_views(final(v)@) == member_views(old(v)@).push((name@, arg_views(in_args@), arg_views(out_args@))),
{
    let ghost iv = arg_views(in_args@);
    let ghost ov = arg_views(out_args@);
    v.push(Member { name: name.to_owned(), in_args, out_args });
    assert(member_views(v@) =~= member_views(old(v)@).push((name@, iv, ov)));
}

/// What the control-group text of a process in a realm's service shows.
pub open spec fn unit_marker(name: Seq<char>) -> Seq<char> {
    "/realm-"@ + name + ".service"@
}

/// The member name of the notification for an event.
pub open spec fn member_of(e: RealmEvent) -> Seq<char> {
    match e {
        RealmEvent::Started(_) => "RealmStarted"@,
        RealmEvent::Stopped(_) => "RealmStopped"@,
        RealmEvent::New(_) => "RealmNew"@,
        RealmEvent::Removed(_) => "RealmRemoved"@,
        RealmEvent::Current(_) => "RealmCurrent"@,
    }
}

/// The realm argument of the notification for an event: the realm's
/// name, or the empty string where no realm is current.
pub open spec fn argument_of(e: RealmEvent) -> Seq<char> {
    match e {
        RealmEvent::Started(n) => n@,
        RealmEvent::Stopped(n) => n@,
        RealmEvent::New(n) => n@,
        RealmEvent::Removed(n) => n@,
        RealmEvent::Current(Some(n)) => n@,
        RealmEvent::Current(None) => Seq::empty(),
    }
}

/// The match rule that receives the signals of an interface.
pub open spec fn match_rule(interface: Seq<char>) -> Seq<char> {
    "type=signal,interface="@ + interface
}

/// The control boundary over a realm manager.
pub struct DbusServer {
    pub manager: RealmManager,
}

impl DbusServer {
    /// A boundary serving `manager`.
    pub fn connect(manager: RealmManager) -> (r: DbusServer)
        ensures
            r.manager == manager,
    {
        DbusServer { manager }
    }

    /// What to do when serving starts: claim the bus name, receive the
    /// signals of the VPN and object-manager interfaces, and announce
    /// `ServiceStarted`.
    pub fn start(&self) -> (r: ServerSetup)
        ensures
            r.bus_name@ == "com.subgraph.realms"@,
            string_views(r.match_rules@) == seq![match_rule("org.freedesktop.VPN.Connection"@), match_rule("org.freedesktop.DBus.ObjectManager"@)],
            r.first_signal.member@ == "ServiceStarted"@,
            r.first_signal.realm is None,
    {
        let mut rules: Vec<String> = Vec::new();
        rules.push(Self::receive_signals_from("org.freedesktop.VPN.Connection"));
        rules.push(Self::receive_signals_from("org.freedesktop.DBus.ObjectManager"));
        assert(string_views(rules@) =~= seq![match_rule("org.freedesktop.VPN.Connection"@), match_rule("org.freedesktop.DBus.ObjectManager"@)]);
        ServerSetup {
            bus_name: "com.subgraph.realms".to_owned(),
            match_rules: rules,
            first_signal: Self::create_signal("ServiceStarted"),
        }
    }

    /// The control interface: its methods and signals, with their
    /// arguments, at the realms object path.
    pub fn build_tree(&self) -> (r: InterfaceDescription)
        ensures
            r.object_path@ == "/com/subgraph/realms"@,
            r.interface@ == "com.subgraph.realms.Manager"@,
            member_views(r.methods@) == interface_methods(),
            member_views(r.signals@) == interface_signals(),
    {
        let mut methods: Vec<Member> = Vec::new();
        push_member(&mut methods, "SetCurrent", args1("name", "s"), args0());
        push_member(&mut methods, "GetCurrent", args0(), args1("name", "s"));
        push_member(&mut methods, "List", args0(), args1("realms", "a{sy}"));
        push_member(&mut methods, "Start", args1("name", "s"), args0());
        push_member(&mut methods, "Stop", args1("name", "s"), args0());
        push_member(&mut methods, "Terminal", args1("name", "s"), args0());
        push_member(&mut methods, "Run", args2("name", "s", "args", "as"), args0());
        push_member(&mut methods, "RealmFromCitadelPid", args1("pid", "u"), args1("realm", "s"));
        assert(member_views(methods@) =~= interface_methods());
        let mut signals: Vec<Member> = Vec::new();
        push_member(&mut signals, "RealmStarted", args1("realm", "s"), args0());
        push_member(&mut signals, "RealmStopped", args1("realm", "s"), args0());
        push_member(&mut signals, "RealmNew", args1("realm", "s"), args0());
        push_member(&mut signals, "RealmRemoved", args1("realm", "s"), args0());
        push_member(&mut signals, "RealmCurrent", args1("realm", "s"), args0());
        push_member(&mut signals, "ServiceStarted", args0(), args0());
        assert(member_views(signals@) =~= interface_signals());
        InterfaceDescription {
            object_path: "/com/subgraph/realms".to_owned(),
            interface: "com.subgraph.realms.Manager".to_owned(),
            methods,
            signals,
        }
    }

    /// The match rule that receives the signals of `interface`.
    pub fn receive_signals_from(interface: &str) -> (r: String)
        ensures
            r@ == match_rule(interface@),
    {
        concat("type=signal,interface=", interface)
    }

    /// A notification with no argument.
    pub fn create_signal(name: &str) -> (r: Signal)
        ensures
            r.member@ == name@,
            r.realm is None,
    {
        Signal { member: name.to_owned(), realm: None }
    }

    /// `List`: each realm's name with its status code; `active` says, for
    /// each realm in order, whether its service runs.
    pub fn do_list(&self, active: &Vec<bool>) -> (r: Vec<(String, u8)>)
        requires
            active@.len() == self.manager.realms@.len(),
        ensures
            r@.len() == self.manager.realms@.len(),
            forall|i: int| #![trigger r@[i]] 0 <= i < r@.len() ==> r@[i].0@ == self.manager.realms@[i].name@
                && r@[i].1 == crate::manager::status_of(active@[i], is_current(self.manager.current, self.manager.realms@[i].name@)),
    {
        self.manager.realm_list(active)
    }

    /// `SetCurrent`: an unknown name is ignored; refusals of a known realm
    /// are returned for logging and never reach the caller.
    pub fn do_set_current(&mut self, name: &str, active: bool) -> (r: Result<(), ManagerError>)
        requires
            old(self).manager.wf(),
        ensures
            final(self).manager.wf(),
            !names(old(self).manager.realms@).contains(name@) ==> r is Ok && final(self).manager == old(self).manager,
            names(old(self).manager.realms@).contains(name@) && !active ==> r == Err::<(), ManagerError>(ManagerError::NotRunning)
                && final(self).manager.current == old(self).manager.current
                && final(self).manager.events == old(self).manager.events,
            names(old(self).manager.realms@).contains(name@) && active ==> r is Ok && is_current(final(self).manager.current, name@)
                && crate::manager::events_model(final(self).manager.events@) == crate::manager::events_model(
                old(self).manager.events@,
            ).push(crate::manager::EventModel::Current(Some(name@))),
    {
        if self.manager.realm_by_name(name).is_none() {
            return Ok(());
        }
        self.manager.set_current_realm(name, active)
    }

    /// `GetCurrent`: the current realm's name, or the empty string.
    pub fn do_get_current(&self) -> (r: String)
        ensures
            match self.manager.current {
                Some(c) => r@ == c@,
                None => r@.len() == 0,
            },
    {
        match self.manager.current_realm() {
            Some(n) => n,
            None => String::new(),
        }
    }

    fn job_for(&self, name: &str) -> (r: Result<(), ManagerError>)
        requires
            self.manager.wf(),
        ensures
            r is Ok <==> names(self.manager.realms@).contains(name@),
            r is Err ==> r == Err::<(), ManagerError>(ManagerError::RealmNotFound),
    {
        match self.manager.realm_by_name(name) {
            Some(_) => Ok(()),
            None => Err(ManagerError::RealmNotFound),
        }
    }

    /// `Start`: accepted at once for a known realm, as a job for a worker;
    /// an unknown name is a fault returned to the caller.
    pub fn do_start(&self, name: &str) -> (r: Result<Job, ManagerError>)
        requires
            self.manager.wf(),
        ensures
            names(self.manager.realms@).contains(name@) ==> (r matches Ok(Job::Start(n)) && n@ == name@),
            !names(self.manager.realms@).contains(name@) ==> r == Err::<Job, ManagerError>(ManagerError::RealmNotFound),
    {
        match self.job_for(name) {
            Ok(()) => Ok(Job::Start(name.to_owned())),
            Err(e) => Err(e),
        }
    }

    /// `Stop`: as `Start`, for a stop job.
    pub fn do_stop(&self, name: &str) -> (r: Result<Job, ManagerError>)
        requires
            self.manager.wf(),
        ensures
            names(self.manager.realms@).contains(name@) ==> (r matches Ok(Job::Stop(n)) && n@ == name@),
            !names(self.manager.realms@).contains(name@) ==> r == Err::<Job, ManagerError>(ManagerError::RealmNotFound),
    {
        match self.job_for(name) {
            Ok(()) => Ok(Job::Stop(name.to_owned())),
            Err(e) => Err(e),
        }
    }

    /// `Terminal`: as `Start`, for a job that starts the realm if needed and
    /// opens a terminal in it.
    pub fn do_terminal(&self, name: &str) -> (r: Result<Job, ManagerError>)
        requires
            self.manager.wf(),
        ensures
            names(self.manager.realms@).contains(name@) ==> (r matches Ok(Job::Terminal(n)) && n@ == name@),
            !names(self.manager.realms@).contains(name@) ==> r == Err::<Job, ManagerError>(ManagerError::RealmNotFound),
    {
        match self.job_for(name) {
            Ok(()) => Ok(Job::Terminal(name.to_owned())),
            Err(e) => Err(e),
        }
    }

    /// `Run`: as `Start`, for a job that starts the realm if needed and runs
    /// `args` in it.
    pub fn do_run(&self, name: &str, args: Vec<String>) -> (r: Result<Job, ManagerError>)
        requires
            self.manager.wf(),
        ensures
            names(self.manager.realms@).contains(name@) ==> (r matches Ok(Job::Run(n, a)) && n@ == name@ && a == args),
            !names(self.manager.realms@).contains(name@) ==> r == Err::<Job, ManagerError>(ManagerError::RealmNotFound),
    {
        match self.job_for(name) {
            Ok(()) => Ok(Job::Run(name.to_owned(), args)),
            Err(e) => Err(e),
        }
    }

    /// `RealmFromCitadelPid`: the first known realm whose service unit
    /// appears in `cgroup`, the control-group text of the process, or the
    /// empty string where there is none or no text could be read.
    pub fn do_pid_to_realm(&self, cgroup: Option<&str>) -> (r: String)
        ensures
            match cgroup {
                None => r@.len() == 0,
                Some(c) => (r@.len() == 0 && forall|i: int| 0 <= i < self.manager.realms@.len()
                    ==> !occurs(c@, unit_marker(#[trigger] self.manager.realms@[i].name@))) || exists|i: int|
                    0 <= i < self.manager.realms@.len() && r@ == (#[trigger] self.manager.realms@[i]).name@
                        && occurs(c@, unit_marker(r@)) && forall|j: int| 0 <= j < i
                        ==> !occurs(c@, unit_marker(#[trigger] self.manager.realms@[j].name@)),
            },
    {
        let c = match cgroup {
            Some(c) => c,
            None => return String::new(),
        };
        let realms = &self.manager.realms;
        let mut i: usize = 0;
        while i < realms.len()
            invariant
                i <= realms@.len(),
                realms == &self.manager.realms,
                cgroup == Some(c),
                forall|j: int| 0 <= j < i ==> !occurs(c@, unit_marker(#[trigger] realms@[j].name@)),
            decreases realms@.len() - i,
        {
            let marker = concat("/realm-", realms[i].name.as_str());
            let marker = concat(marker.as_str(), ".service");
            assert(marker@ =~= unit_marker(realms@[i as int].name@));
            if contains_text(c, marker.as_str()) {
                let r = realms[i].name.clone();
                assert(r@ == (self.manager.realms@[i as int]).name@);
                return r;
            }
            i = i + 1;
        }
        String::new()
    }

    /// The notification for a lifecycle event.
    pub fn handle_event(ev: &RealmEvent) -> (r: Signal)
        ensures
            r.member@ == member_of(*ev),
            r.realm matches Some(n) && n@ == argument_of(*ev),
    {
        let (member, realm) = match ev {
            RealmEvent::Started(n) => ("RealmStarted", n.clone()),
            RealmEvent::Stopped(n) => ("RealmStopped", n.clone()),
            RealmEvent::New(n) => ("RealmNew", n.clone()),
            RealmEvent::Removed(n) => ("RealmRemoved", n.clone()),
            RealmEvent::Current(Some(n)) => ("RealmCurrent", n.clone()),
            RealmEvent::Current(None) => ("RealmCurrent", String::new()),
        };
        Signal { member: member.to_owned(), realm: Some(realm) }
    }
}

} // verus!
