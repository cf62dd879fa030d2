//! The realm manager: the set of known realms, which one is current, and
//! the lifecycle transitions with the events they emit.
//!
//! Whether a realm's service runs is asked of the host service manager
//! every time and handed in as `active`; it is never stored here. Work
//! that the host does (writing descriptors, starting or stopping the
//! service) happens between a decision (`start_realm`, `stop_realm`) and
//! its confirmation (`realm_started`, `start_failed`, `realm_stopped`).
//!
//! Operations on different realms are independent. A start and a stop of
//! the same realm that overlap are not ordered here: each decision is taken
//! under the caller's lock, but the host work between a decision and its
//! confirmation may interleave, so either order of effects can be seen.
use vstd::prelude::*;
use crate::launcher::{HostDevices, device_paths, nspawn_outcome, nspawn_path, service_name, service_text};
use crate::network::{AllocatorModel, NetworkError};
use crate::realm::Realm;
use crate::systemd::{StartPlan, Systemd};
use crate::text::str_eq;

verus! {

/// A lifecycle event, naming the realm it concerns.
#[derive(Debug, PartialEq, Eq)]
pub enum RealmEvent {
    Started(String),
    Stopped(String),
    New(String),
    Removed(String),
    /// The current realm changed; nothing is current where there is no name.
    Current(Option<String>),
}

/// A lifecycle event over plain text.
pub enum EventModel {
    Started(Seq<char>),
    Stopped(Seq<char>),
    New(Seq<char>),
    Removed(Seq<char>),
    Current(Option<Seq<char>>),
}

pub open spec fn event_model(e: RealmEvent) -> EventModel {
    match e {
        RealmEvent::Started(n) => EventModel::Started(n@),
        RealmEvent::Stopped(n) => EventModel::Stopped(n@),
        RealmEvent::New(n) => EventModel::New(n@),
        RealmEvent::Removed(n) => EventModel::Removed(n@),
        RealmEvent::Current(c) => EventModel::Current(
            match c {
                Some(n) => Some(n@),
                None => None,
            },
        ),
    }
}

pub open spec fn events_model(s: Seq<RealmEvent>) -> Seq<EventModel> {
    s.map_values(|e: RealmEvent| event_model(e))
}

/// A command given to the host service manager.
#[derive(PartialEq, Eq, Structural, Clone, Copy, Debug)]
pub enum SupervisorOp {
    Start,
    Stop,
}

/// Why a manager operation was refused.
#[derive(Debug, PartialEq, Eq)]
pub enum ManagerError {
    /// The service manager could not be run, or reported failure, for the
    /// given command on the named unit.
    SupervisorCommandFailed { op: SupervisorOp, name: String },
    /// No realm of that name is known.
    RealmNotFound,
    /// The realm is not running.
    NotRunning,
    /// The realm's address could not be had.
    Network(NetworkError),
}

/// What starting a realm asks of the host.
pub enum StartStep {
    /// The realm runs already: nothing to do.
    AlreadyRunning,
    /// Write the descriptors and start the service.
    Launch(StartPlan),
}

pub const STATUS_REALM_NOT_RUNNING: u8 = 0;
pub const STATUS_REALM_RUNNING_NOT_CURRENT: u8 = 1;
pub const STATUS_REALM_RUNNING_CURRENT: u8 = 2;

/// The status code of a realm.
pub open spec fn status_of(active: bool, current: bool) -> u8 {
    if active && current {
        STATUS_REALM_RUNNING_CURRENT
    } else if active {
        STATUS_REALM_RUNNING_NOT_CURRENT
    } else {
        STATUS_REALM_NOT_RUNNING
    }
}

/// The names of a sequence of realms.
pub open spec fn names(s: Seq<Realm>) -> Seq<Seq<char>> {
    s.map_values(|r: Realm| r.name@)
}

/// Whether no name occurs twice.
pub open spec fn unique(s: Seq<Seq<char>>) -> bool {
    forall|i: int, j: int| 0 <= i < j < s.len() ==> #[trigger] s[i] != #[trigger] s[j]
}

/// Whether `name` is the current realm's.
pub open spec fn is_current(current: Option<String>, name: Seq<char>) -> bool {
    current matches Some(c) && c@ == name
}

/// The outcome of a command given to the service manager for `service`:
/// `status` is whether the command exited with success, or nothing where
/// it could not be run. Only success is success.
pub fn supervisor_outcome(op: SupervisorOp, service: &str, status: Option<bool>) -> (r: Result<(), ManagerError>)
    ensures
        status == Some(true) ==> r is Ok,
        status != Some(true) ==> (r matches Err(ManagerError::SupervisorCommandFailed { op: o, name: n }) && o == op
            && n@ == service@),
{
    match status {
        Some(true) => Ok(()),
        _ => Err(ManagerError::SupervisorCommandFailed { op, name: service.to_owned() }),
    }
}

/// A `New` event for each name of `new` that `old` lacks, in order.
pub open spec fn new_events(old: Seq<Seq<char>>, new: Seq<Seq<char>>) -> Seq<EventModel>
    decreases new.len(),
{
    if new.len() == 0 {
        Seq::empty()
    } else if old.contains(new.last()) {
        new_events(old, new.drop_last())
    } else {
        new_events(old, new.drop_last()).push(EventModel::New(new.last()))
    }
}

/// A `Removed` event for each name of `old` that `new` lacks, in order.
pub open spec fn removed_events(old: Seq<Seq<char>>, new: Seq<Seq<char>>) -> Seq<EventModel>
    decreases old.len(),
{
    if old.len() == 0 {
        Seq::empty()
    } else if new.contains(old.last()) {
        removed_events(old.drop_last(), new)
    } else {
        removed_events(old.drop_last(), new).push(EventModel::Removed(old.last()))
    }
}

/// At most one realm is running and current, whatever the activity of
/// each: the current realm is one name, and names are unique.
pub proof fn law_at_most_one_current(realms: Seq<Realm>, current: Option<String>, active: Seq<bool>)
    requires
        unique(names(realms)),
        active.len() == realms.len(),
    ensures
        forall|i: int, j: int|
            0 <= i < realms.len() && 0 <= j < realms.len() && status_of(active[i], is_current(current, realms[i].name@))
                == STATUS_REALM_RUNNING_CURRENT && status_of(active[j], is_current(current, realms[j].name@))
                == STATUS_REALM_RUNNING_CURRENT ==> i == j,
{
    assert forall|i: int, j: int|
        0 <= i < realms.len() && 0 <= j < realms.len() && status_of(active[i], is_current(current, realms[i].name@))
            == STATUS_REALM_RUNNING_CURRENT && status_of(active[j], is_current(current, realms[j].name@))
            == STATUS_REALM_RUNNING_CURRENT implies i == j by {
        if i != j {
            assert(names(realms)[i] == realms[i].name@);
            assert(names(realms)[j] == realms[j].name@);
            if i < j {
                assert(names(realms)[i] != names(realms)[j]);
            } else {
                assert(names(realms)[j] != names(realms)[i]);
            }
        }
    }
}

/// The realm manager.
pub struct RealmManager {
    /// The known realms; no two share a name.
    pub realms: Vec<Realm>,
    /// The name of the current realm, if any.
    pub current: Option<String>,
    /// Events emitted and not yet delivered, oldest first.
    pub events: Vec<RealmEvent>,
    /// The bridge to the host service manager and the address allocator.
    pub systemd: Systemd,
}

impl RealmManager {
    pub open spec fn wf(&self) -> bool {
        &&& unique(names(self.realms@))
        &&& self.systemd.network.wf()
        &&& (self.current matches Some(c) ==> names(self.realms@).contains(c@))
    }

    /// The address allocator's state.
    pub open spec fn network(&self) -> AllocatorModel {
        self.systemd.network@
    }

    /// A manager with no realms, nothing current and no events.
    pub fn new(systemd: Systemd) -> (r: RealmManager)
        requires
            systemd.network.wf(),
        ensures
            r.wf(),
            r.realms@.len() == 0,
            r.current is None,
            r.events@.len() == 0,
            r.systemd == systemd,
    {
        let r = RealmManager { realms: Vec::new(), current: None, events: Vec::new(), systemd };
        assert(names(r.realms@) =~= Seq::empty());
        r
    }

    /// The index of the realm named `name`.
    pub fn realm_by_name(&self, name: &str) -> (r: Option<usize>)
        requires
            self.wf(),
        ensures
            r is None <==> !names(self.realms@).contains(name@),
            r matches Some(i) ==> i < self.realms@.len() && self.realms@[i as int].name@ == name@,
    {
        let mut i: usize = 0;
        while i < self.realms.len()
            invariant
                i <= self.realms@.len(),
                forall|j: int| 0 <= j < i ==> #[trigger] self.realms@[j].name@ != name@,
            decreases self.realms@.len() - i,
        {
            if str_eq(self.realms[i].name.as_str(), name) {
                assert(names(self.realms@)[i as int] == name@);
                return Some(i);
            }
            i = i + 1;
        }
        assert forall|j: int| 0 <= j < names(self.realms@).len() implies names(self.realms@)[j] != name@ by {
            assert(names(self.realms@)[j] == self.realms@[j].name@);
        }
        None
    }

    fn emit(&mut self, ev: RealmEvent)
        ensures
            final(self).realms == old(self).realms,
            final(self).current == old(self).current,
            final(self).systemd == old(self).systemd,
            events_model(final(self).events@) == events_model(old(self).events@).push(event_model(ev)),
    {
        self.events.push(ev);
        assert(events_model(self.events@) =~= events_model(old(self).events@).push(event_model(ev)));
    }

    /// Replaces the known realms with the definitions found in persistent
    /// configuration: a `New` event for each name not known before, then a
    /// `Removed` event for each known name whose definition is gone. A
    /// current realm whose definition is gone stops being current.
    pub fn load_realms(&mut self, defs: Vec<Realm>)
        requires
            old(self).wf(),
            unique(names(defs@)),
        ensures
            final(self).wf(),
            final(self).realms@ == defs@,
            final(self).systemd == old(self).systemd,
            events_model(final(self).events@) == events_model(old(self).events@) + new_events(
                names(old(self).realms@),
                names(defs@),
            ) + removed_events(names(old(self).realms@), names(defs@)) + (if old(self).current matches Some(
                c,
            ) && !names(defs@).contains(c@) {
                seq![EventModel::Current(None)]
            } else {
                Seq::empty()
            }),
            (old(self).current matches Some(c) && names(defs@).contains(c@)) ==> final(self).current
                == old(self).current,
            (old(self).current matches Some(c) && !names(defs@).contains(c@)) ==> final(self).current is None,
            old(self).current is None ==> final(self).current is None,
    {
        let ghost oldn = names(self.realms@);
        let ghost newn = names(defs@);
        let ghost start = events_model(self.events@);
        let mut i: usize = 0;
        assert(newn.take(0) =~= Seq::<Seq<char>>::empty());
        while i < defs.len()
            invariant
                i <= defs@.len(),
                newn == names(defs@),
                oldn == names(self.realms@),
                self.wf(),
                self.realms == old(self).realms,
                self.current == old(self).current,
                self.systemd == old(self).systemd,
                events_model(self.events@) == start + new_events(oldn, newn.take(i as int)),
            decreases defs@.len() - i,
        {
            assert(newn.take(i + 1).drop_last() =~= newn.take(i as int));
            assert(newn.take(i + 1).last() == defs@[i as int].name@);
            let name = defs[i].name.as_str();
            if self.realm_by_name(name).is_none() {
                self.emit(RealmEvent::New(name.to_owned()));
            }
            i = i + 1;
        }
        assert(newn.take(i as int) =~= newn);
        let ghost mid = events_model(self.events@);
        let mut k: usize = 0;
        assert(oldn.take(0) =~= Seq::<Seq<char>>::empty());
        while k < self.realms.len()
            invariant
                k <= self.realms@.len(),
                newn == names(defs@),
                oldn == names(self.realms@),
                self.wf(),
                self.realms == old(self).realms,
                self.current == old(self).current,
                self.systemd == old(self).systemd,
                events_model(self.events@) == mid + removed_events(oldn.take(k as int), newn),
            decreases self.realms@.len() - k,
        {
            assert(oldn.take(k + 1).drop_last() =~= oldn.take(k as int));
            assert(oldn.take(k + 1).last() == self.realms@[k as int].name@);
            if !Self::names_contain(&defs, self.realms[k].name.as_str()) {
                let n = self.realms[k].name.clone();
                self.emit(RealmEvent::Removed(n));
            }
            k = k + 1;
        }
        assert(oldn.take(k as int) =~= oldn);
        let ghost before = events_model(self.events@);
        let mut keep = false;
        if let Some(c) = &self.current {
            keep = Self::names_contain(&defs, c.as_str());
        }
        self.realms = defs;
        if !keep && self.current.is_some() {
            self.current = None;
            self.emit(RealmEvent::Current(None));
        } else {
            assert(events_model(self.events@) =~= before + Seq::empty());
        }
    }

    fn names_contain(realms: &Vec<Realm>, name: &str) -> (r: bool)
        ensures
            r == names(realms@).contains(name@),
    {
        let mut i: usize = 0;
        while i < realms.len()
            invariant
                i <= realms@.len(),
                forall|j: int| 0 <= j < i ==> #[trigger] realms@[j].name@ != name@,
            decreases realms@.len() - i,
        {
            if str_eq(realms[i].name.as_str(), name) {
                assert(names(realms@)[i as int] == name@);
                return true;
            }
            i = i + 1;
        }
        assert forall|j: int| 0 <= j < names(realms@).len() implies names(realms@)[j] != name@ by {
            assert(names(realms@)[j] == realms@[j].name@);
        }
        false
    }

    /// Starts the realm named `name`, whose service runs where `active`.
    /// A running realm needs nothing. Otherwise its address is taken and its
    /// descriptors built; where the address cannot be had the start is
    /// refused and nothing changes but what the allocator says.
    pub fn start_realm(&mut self, name: &str, active: bool, rootfs: &str, host: &HostDevices) -> (r: Result<StartStep, ManagerError>)
        requires
            old(self).wf(),
        ensures
            final(self).wf(),
            final(self).realms == old(self).realms,
            final(self).current == old(self).current,
            final(self).events == old(self).events,
            !names(old(self).realms@).contains(name@) ==> r == Err::<StartStep, ManagerError>(ManagerError::RealmNotFound)
                && final(self).network() == old(self).network(),
            names(old(self).realms@).contains(name@) && active ==> (r matches Ok(StartStep::AlreadyRunning))
                && final(self).network() == old(self).network(),
            names(old(self).realms@).contains(name@) && !active ==> exists|i: int| 0 <= i < old(self).realms@.len()
                && #[trigger] old(self).realms@[i].name@ == name@ && ({
                    let realm = old(self).realms@[i];
                    let devices = device_paths(realm.config, *host);
                    let out = nspawn_outcome(realm, devices, host.shared_dir, old(self).network());
                    &&& final(self).network() == out.1
                    &&& match r {
                        Ok(StartStep::Launch(p)) => out.0 == Ok::<Seq<char>, NetworkError>(p.files.nspawn@)
                            && p.files.service@ == service_text(realm, devices, rootfs@)
                            && p.files.nspawn_path@ == nspawn_path(name@)
                            && p.files.service_path@ == "/run/systemd/system/"@ + service_name(name@)
                            && p.service@ == service_name(name@)
                            && p.setup_ephemeral_home == realm.config.ephemeral_home,
                        Ok(StartStep::AlreadyRunning) => false,
                        Err(e) => out.0 matches Err(ne) && e == ManagerError::Network(ne),
                    }
                }),
    {
        let i = match self.realm_by_name(name) {
            Some(i) => i,
            None => return Err(ManagerError::RealmNotFound),
        };
        if active {
            return Ok(StartStep::AlreadyRunning);
        }
        let realm = &self.realms[i];
        match self.systemd.start_realm(realm, rootfs, host) {
            Ok(plan) => Ok(StartStep::Launch(plan)),
            Err(e) => Err(ManagerError::Network(e)),
        }
    }

    /// Records that the realm's service started: emits `Started`.
    pub fn realm_started(&mut self, name: &str) -> (r: Result<(), ManagerError>)
        requires
            old(self).wf(),
        ensures
            final(self).wf(),
            final(self).realms == old(self).realms,
            final(self).current == old(self).current,
            final(self).systemd == old(self).systemd,
            r is Ok <==> names(old(self).realms@).contains(name@),
            r is Ok ==> events_model(final(self).events@) == events_model(old(self).events@).push(
                EventModel::Started(name@),
            ),
            r is Err ==> r == Err::<(), ManagerError>(ManagerError::RealmNotFound) && final(self).events == old(self).events,
    {
        match self.realm_by_name(name) {
            Some(_) => {
                self.emit(RealmEvent::Started(name.to_owned()));
                Ok(())
            },
            None => Err(ManagerError::RealmNotFound),
        }
    }

    /// Records that the realm's service failed to start: its address is
    /// released, so that a retry does not leak one.
    pub fn start_failed(&mut self, name: &str) -> (r: Result<(), ManagerError>)
        requires
            old(self).wf(),
        ensures
            final(self).wf(),
            final(self).realms == old(self).realms,
            final(self).current == old(self).current,
            final(self).events == old(self).events,
            r is Ok <==> names(old(self).realms@).contains(name@),
            r is Err ==> r == Err::<(), ManagerError>(ManagerError::RealmNotFound) && final(self).network() == old(self).network(),
            r is Ok ==> exists|i: int| 0 <= i < old(self).realms@.len() && #[trigger] old(self).realms@[i].name@ == name@
                && final(self).network() == old(self).network().without(old(self).realms@[i].config.network_zone@, name@),
    {
        match self.realm_by_name(name) {
            Some(i) => {
                let realm = &self.realms[i];
                self.systemd.stop_realm(realm);
                Ok(())
            },
            None => Err(ManagerError::RealmNotFound),
        }
    }

    /// The service unit to stop for the realm named `name`.
    pub fn stop_realm(&self, name: &str) -> (r: Result<String, ManagerError>)
        requires
            self.wf(),
        ensures
            r is Ok <==> names(self.realms@).contains(name@),
            r matches Ok(s) ==> s@ == service_name(name@),
            r is Err ==> r == Err::<String, ManagerError>(ManagerError::RealmNotFound),
    {
        match self.realm_by_name(name) {
            Some(_) => {
                let s = crate::systemd::concat("realm-", name);
                let s2 = crate::systemd::concat(s.as_str(), ".service");
                assert(s2@ =~= service_name(name@));
                Ok(s2)
            },
            None => Err(ManagerError::RealmNotFound),
        }
    }

    /// Records that the realm's service stopped and its descriptors are
    /// gone: its address is released and `Stopped` emitted; where it was the
    /// current realm, nothing is current any more and `Current` is emitted
    /// with no name.
    pub fn realm_stopped(&mut self, name: &str) -> (r: Result<(), ManagerError>)
        requires
            old(self).wf(),
        ensures
            final(self).wf(),
            final(self).realms == old(self).realms,
            r is Ok <==> names(old(self).realms@).contains(name@),
            r is Err ==> r == Err::<(), ManagerError>(ManagerError::RealmNotFound) && *final(self) == *old(self),
            r is Ok ==> exists|i: int| 0 <= i < old(self).realms@.len() && #[trigger] old(self).realms@[i].name@ == name@
                && final(self).network() == old(self).network().without(old(self).realms@[i].config.network_zone@, name@),
            r is Ok && is_current(old(self).current, name@) ==> final(self).current is None
                && events_model(final(self).events@) == events_model(old(self).events@).push(EventModel::Stopped(name@)).push(
                EventModel::Current(None)),
            r is Ok && !is_current(old(self).current, name@) ==> final(self).current == old(self).current
                && events_model(final(self).events@) == events_model(old(self).events@).push(EventModel::Stopped(name@)),
    {
        let i = match self.realm_by_name(name) {
            Some(i) => i,
            None => return Err(ManagerError::RealmNotFound),
        };
        let realm = &self.realms[i];
        self.systemd.stop_realm(realm);
        self.emit(RealmEvent::Stopped(name.to_owned()));
        let mut was_current = false;
        if let Some(c) = &self.current {
            was_current = str_eq(c.as_str(), name);
        }
        if was_current {
            self.current = None;
            self.emit(RealmEvent::Current(None));
        }
        Ok(())
    }

    /// Makes the running realm named `name` current and emits `Current`.
    /// A realm that is not running is refused, and nothing is emitted.
    pub fn set_current_realm(&mut self, name: &str, active: bool) -> (r: Result<(), ManagerError>)
        requires
            old(self).wf(),
        ensures
            final(self).wf(),
            final(self).realms == old(self).realms,
            final(self).systemd == old(self).systemd,
            !names(old(self).realms@).contains(name@) ==> r == Err::<(), ManagerError>(ManagerError::RealmNotFound),
            names(old(self).realms@).contains(name@) && !active ==> r == Err::<(), ManagerError>(ManagerError::NotRunning),
            r is Err ==> final(self).current == old(self).current && final(self).events == old(self).events,
            names(old(self).realms@).contains(name@) && active ==> r is Ok && is_current(final(self).current, name@)
                && events_model(final(self).events@) == events_model(old(self).events@).push(
                EventModel::Current(Some(name@)),
            ),
    {
        if self.realm_by_name(name).is_none() {
            return Err(ManagerError::RealmNotFound);
        }
        if !active {
            return Err(ManagerError::NotRunning);
        }
        self.current = Some(name.to_owned());
        self.emit(RealmEvent::Current(Some(name.to_owned())));
        Ok(())
    }

    /// The name of the current realm, if any.
    pub fn current_realm(&self) -> (r: Option<String>)
        ensures
            match r {
                Some(n) => is_current(self.current, n@),
                None => self.current is None,
            },
    {
        match &self.current {
            Some(c) => Some(c.clone()),
            None => None,
        }
    }

    /// The status code of the realm at `i`, whose service runs where
    /// `active`.
    pub fn realm_status(&self, i: usize, active: bool) -> (r: u8)
        requires
            i < self.realms@.len(),
        ensures
            r == status_of(active, is_current(self.current, self.realms@[i as int].name@)),
    {
        let mut cur = false;
        if let Some(c) = &self.current {
            cur = str_eq(c.as_str(), self.realms[i].name.as_str());
        }
        if active && cur {
            STATUS_REALM_RUNNING_CURRENT
        } else if active {
            STATUS_REALM_RUNNING_NOT_CURRENT
        } else {
            STATUS_REALM_NOT_RUNNING
        }
    }

    /// Each realm's name with its status code, in order; `active` says, for
    /// each realm, whether its service runs.
    pub fn realm_list(&self, active: &Vec<bool>) -> (r: Vec<(String, u8)>)
        requires
            active@.len() == self.realms@.len(),
        ensures
            r@.len() == self.realms@.len(),
            forall|i: int| #![trigger r@[i]] 0 <= i < r@.len() ==> r@[i].0@ == self.realms@[i].name@
                && r@[i].1 == status_of(active@[i], is_current(self.current, self.realms@[i].name@)),
    {
        let mut out: Vec<(String, u8)> = Vec::new();
        let mut i: usize = 0;
        while i < self.realms.len()
            invariant
                i <= self.realms@.len(),
                active@.len() == self.realms@.len(),
                out@.len() == i,
                forall|j: int| #![trigger out@[j]] 0 <= j < i ==> out@[j].0@ == self.realms@[j].name@
                    && out@[j].1 == status_of(active@[j], is_current(self.current, self.realms@[j].name@)),
            decreases self.realms@.len() - i,
        {
            let st = self.realm_status(i, active[i]);
            out.push((self.realms[i].name.clone(), st));
            i = i + 1;
        }
        out
    }

    /// Hands out the events emitted so far, oldest first, and forgets them.
    pub fn take_events(&mut self) -> (r: Vec<RealmEvent>)
        requires
            old(self).wf(),
        ensures
            final(self).wf(),
            r@ == old(self).events@,
            final(self).events@.len() == 0,
            final(self).realms == old(self).realms,
            final(self).current == old(self).current,
            final(self).systemd == old(self).systemd,
    {
        let mut taken: Vec<RealmEvent> = Vec::new();
        std::mem::swap(&mut taken, &mut self.events);
        taken
    }
}

} // verus!
