//! Decisions of the bridge to the host service manager: which descriptors
//! to write, which commands to run with which arguments, and what their
//! output means. Running the commands is left to the caller.
use vstd::prelude::*;
use crate::launcher::{HostDevices, LaunchFiles, RealmLauncher, nspawn_outcome, service_name,
    service_text, device_paths, nspawn_path};
use crate::network::{NetworkAllocator, NetworkError};
use crate::realm::{Realm, realm_file_path};
use crate::text::{push_char, push_text, string_views};

verus! {

/// The text `a` followed by `b`.
pub fn concat(a: &str, b: &str) -> (r: String)
    ensures
        r@ == a@ + b@,
{
    let mut s = String::new();
    push_text(&mut s, a);
    push_text(&mut s, b);
    assert(s@ =~= a@ + b@);
    s
}

/// What to do to start a realm once its address is held.
pub struct StartPlan {
    /// The descriptors to write before starting the service.
    pub files: LaunchFiles,
    /// The service unit to start.
    pub service: String,
    /// Whether the ephemeral home is to be populated once the service runs.
    pub setup_ephemeral_home: bool,
}

/// The bridge to the host service manager; it owns the address allocator.
pub struct Systemd {
    pub network: NetworkAllocator,
}

/// Appending a path to a directory as `Path::join` does: an absolute path
/// replaces the directory.
pub open spec fn join_path(dir: Seq<char>, p: Seq<char>) -> Seq<char> {
    if p.len() > 0 && p[0] == '/' { p } else { dir + "/"@ + p }
}

/// Whether `p` is `base` or lies below it, component by component.
pub open spec fn within(p: Seq<char>, base: Seq<char>) -> bool {
    p == base || (p.len() > base.len() && p.take(base.len() as int) == base && p[base.len() as int] == '/')
}

/// The arguments of `machinectl shell` for a command in a realm.
pub open spec fn shell_args(
    r: Realm,
    args: Seq<Seq<char>>,
    user: Seq<char>,
    launcher: bool,
    startup_id: Option<Seq<char>>,
) -> Seq<Seq<char>> {
    seq!["--quiet"@, "--setenv=REALM_NAME="@ + r.name@] + (match startup_id {
        Some(id) => seq!["--setenv=DESKTOP_STARTUP_ID="@ + id],
        None => Seq::empty(),
    }) + (if r.config.wayland && !r.config.x11 {
        seq!["--setenv=GDK_BACKEND=wayland"@]
    } else {
        Seq::empty()
    }) + seq!["shell"@, user + "@"@ + r.name@] + (if launcher {
        seq!["/usr/libexec/launch"@]
    } else {
        Seq::empty()
    }) + args
}

/// The `machinectl` arguments that bind the persistent directories, in
/// order: one for each directory whose resolved source lies in the home.
pub open spec fn persistent_binds(
    name: Seq<char>,
    home: Seq<char>,
    dirs: Seq<Seq<char>>,
    resolved: Seq<Option<Seq<char>>>,
) -> Seq<Seq<Seq<char>>>
    decreases dirs.len(),
{
    if dirs.len() == 0 {
        Seq::empty()
    } else {
        let rest = persistent_binds(name, home, dirs.drop_last(), resolved);
        let i = dirs.len() - 1;
        match resolved[i] {
            Some(src) => if within(src, home) {
                rest.push(seq!["--mkdir"@, "bind"@, name, src, join_path("/home/user"@, dirs[i])])
            } else {
                rest
            },
            None => rest,
        }
    }
}

/// The `machinectl` invocations that populate an ephemeral home, in order.
pub open spec fn ephemeral_home_commands(
    r: Realm,
    skel_exists: bool,
    realm_skel_exists: bool,
    home_exists: bool,
    resolved: Seq<Option<Seq<char>>>,
) -> Seq<Seq<Seq<char>>> {
    let name = r.name@;
    (if skel_exists {
        seq![seq!["copy-to"@, name, "/realms/skel"@, "/home/user"@]]
    } else {
        Seq::empty()
    }) + (if realm_skel_exists {
        seq![seq!["copy-to"@, name, realm_file_path(name, "skel"@), "/home/user"@]]
    } else {
        Seq::empty()
    }) + (if home_exists {
        persistent_binds(
            name,
            realm_file_path(name, "home"@),
            string_views(r.config.ephemeral_persistent_dirs@),
            resolved,
        )
    } else {
        Seq::empty()
    })
}

/// The views of a sequence of argument lists.
pub open spec fn arg_lists(v: Seq<Vec<String>>) -> Seq<Seq<Seq<char>>> {
    v.map_values(|a: Vec<String>| string_views(a@))
}

/// The non-empty lines of `s`, in order.
pub open spec fn nonempty_lines(s: Seq<char>) -> Seq<Seq<char>>
    decreases s.len(),
{
    lines_from(s, Seq::empty())
}

/// The non-empty lines of `cur` + `s`, where `cur` is a line begun before `s`.
pub open spec fn lines_from(s: Seq<char>, cur: Seq<char>) -> Seq<Seq<char>>
    decreases s.len(),
{
    if s.len() == 0 {
        if cur.len() == 0 { Seq::empty() } else { seq![cur] }
    } else if s[0] == '\n' {
        (if cur.len() == 0 { Seq::empty() } else { seq![cur] }) + lines_from(s.drop_first(), Seq::empty())
    } else {
        lines_from(s.drop_first(), cur.push(s[0]))
    }
}

fn push_arg(v: &mut Vec<String>, a: &str)
    ensures
        string_views(final(v)@) == string_views(old(v)@).push(a@),
{
    v.push(a.to_owned());
    assert(string_views(v@) =~= string_views(old(v)@).push(a@));
}

fn push_arg_concat(v: &mut Vec<String>, a: &str, b: &str)
    ensures
        string_views(final(v)@) == string_views(old(v)@).push(a@ + b@),
{
    v.push(concat(a, b));
    assert(string_views(v@) =~= string_views(old(v)@).push(a@ + b@));
}

impl Systemd {
    pub fn new(network: NetworkAllocator) -> (r: Systemd)
        ensures
            r.network == network,
    {
        Systemd { network }
    }

    /// Takes the realm's address and builds its descriptors. On success the
    /// plan says which files to write and which service to start. Where the
    /// address cannot be had, nothing is to be written or started.
    pub fn start_realm(&mut self, realm: &Realm, rootfs: &str, host: &HostDevices) -> (r: Result<StartPlan, NetworkError>)
        requires
            old(self).network.wf(),
        ensures
            final(self).network.wf(),
            ({
                let devices = device_paths(realm.config, *host);
                let out = nspawn_outcome(*realm, devices, host.shared_dir, old(self).network@);
                &&& final(self).network@ == out.1
                &&& match r {
                    Ok(p) => out.0 == Ok::<Seq<char>, NetworkError>(p.files.nspawn@)
                        && p.files.service@ == service_text(*realm, devices, rootfs@)
                        && p.files.nspawn_path@ == nspawn_path(realm.name@)
                        && p.files.service_path@ == "/run/systemd/system/"@ + service_name(realm.name@)
                        && p.service@ == service_name(realm.name@)
                        && p.setup_ephemeral_home == realm.config.ephemeral_home,
                    Err(e) => out.0 == Err::<Seq<char>, NetworkError>(e),
                }
            }),
    {
        let mut launcher = RealmLauncher::new(realm);
        let files = match launcher.write_launch_config_files(rootfs, &mut self.network, host) {
            Ok(f) => f,
            Err(e) => return Err(e),
        };
        let service = launcher.realm_service_name().to_owned();
        Ok(StartPlan { files, service, setup_ephemeral_home: realm.config.ephemeral_home })
    }

    /// Releases the realm's address, once its service has stopped and its
    /// descriptors are removed.
    pub fn stop_realm(&mut self, realm: &Realm)
        requires
            old(self).network.wf(),
        ensures
            final(self).network.wf(),
            final(self).network@ == old(self).network@.without(realm.config.network_zone@, realm.name@),
    {
        self.network.free_allocation_for(realm.config.network_zone.as_str(), realm.name.as_str());
    }

    /// The arguments of `systemctl start` for a unit.
    pub fn systemctl_start(name: &str) -> (r: Vec<String>)
        ensures
            string_views(r@) == seq!["start"@, name@],
    {
        let mut v: Vec<String> = Vec::new();
        push_arg(&mut v, "start");
        push_arg(&mut v, name);
        assert(string_views(v@) =~= seq!["start"@, name@]);
        v
    }

    /// The arguments of `systemctl stop` for a unit.
    pub fn systemctl_stop(name: &str) -> (r: Vec<String>)
        ensures
            string_views(r@) == seq!["stop"@, name@],
    {
        let mut v: Vec<String> = Vec::new();
        push_arg(&mut v, "stop");
        push_arg(&mut v, name);
        assert(string_views(v@) =~= seq!["stop"@, name@]);
        v
    }

    /// The arguments of `systemctl` that ask whether a realm runs.
    pub fn is_active(realm: &Realm) -> (r: Vec<String>)
        ensures
            string_views(r@) == seq!["--quiet"@, "is-active"@, "realm-"@ + realm.name@],
    {
        let mut v: Vec<String> = Vec::new();
        push_arg(&mut v, "--quiet");
        push_arg(&mut v, "is-active");
        push_arg_concat(&mut v, "realm-", realm.name.as_str());
        assert(string_views(v@) =~= seq!["--quiet"@, "is-active"@, "realm-"@ + realm.name@]);
        v
    }

    /// The arguments of `systemctl` that ask, in one call, whether each of
    /// the realms runs.
    pub fn are_realms_active(realms: &Vec<Realm>) -> (r: Vec<String>)
        ensures
            r@.len() == realms@.len() + 1,
            r@[0]@ == "is-active"@,
            forall|i: int| 0 <= i < realms@.len() ==> #[trigger] r@[i + 1]@ == "realm-"@ + realms@[i].name@,
    {
        let mut v: Vec<String> = Vec::new();
        v.push("is-active".to_owned());
        let mut i: usize = 0;
        while i < realms.len()
            invariant
                i <= realms@.len(),
                v@.len() == i + 1,
                v@[0]@ == "is-active"@,
                forall|j: int| 0 <= j < i ==> #[trigger] v@[j + 1]@ == "realm-"@ + realms@[j].name@,
            decreases realms@.len() - i,
        {
            let ghost before = v@;
            v.push(concat("realm-", realms[i].name.as_str()));
            assert(forall|j: int| 0 <= j < i ==> #[trigger] v@[j + 1] == before[j + 1]);
            i = i + 1;
        }
        v
    }

    /// The status tokens in the output of a batched `is-active` query: its
    /// non-empty lines, one per realm asked about, in order.
    pub fn active_tokens(output: &str) -> (r: Vec<String>)
        ensures
            string_views(r@) == nonempty_lines(output@),
    {
        let n = output.unicode_len();
        let mut out: Vec<String> = Vec::new();
        let mut cur = String::new();
        let mut i: usize = 0;
        assert(output@.skip(0) =~= output@);
        while i < n
            invariant
                n == output@.len(),
                i <= n,
                string_views(out@) + lines_from(output@.skip(i as int), cur@) == nonempty_lines(output@),
            decreases n - i,
        {
            let c = output.get_char(i);
            let ghost rest = output@.skip(i as int);
            assert(rest.drop_first() =~= output@.skip(i + 1));
            if c == '\n' {
                if cur.unicode_len() > 0 {
                    let ghost before = string_views(out@);
                    out.push(cur);
                    assert(string_views(out@) =~= before + seq![cur@]);
                }
                cur = String::new();
                assert(cur@ =~= Seq::<char>::empty());
            } else {
                push_char(&mut cur, c);
            }
            i = i + 1;
        }
        assert(output@.skip(i as int) =~= Seq::<char>::empty());
        if cur.unicode_len() > 0 {
            let ghost before = string_views(out@);
            out.push(cur);
            assert(string_views(out@) =~= before + seq![cur@]);
        } else {
            assert(string_views(out@) =~= string_views(out@) + Seq::<Seq<char>>::empty());
        }
        out
    }

    /// The arguments of `machinectl` that run `args` in the realm as `user`.
    /// `startup_id` is the desktop startup identifier of the caller, if any.
    pub fn machinectl_shell(
        realm: &Realm,
        args: &Vec<String>,
        user: &str,
        launcher: bool,
        startup_id: Option<&str>,
    ) -> (r: Vec<String>)
        ensures
            string_views(r@) == shell_args(*realm, string_views(args@), user@, launcher, match startup_id {
                Some(id) => Some(id@),
                None => None,
            }),
    {
        let mut v: Vec<String> = Vec::new();
        push_arg(&mut v, "--quiet");
        push_arg_concat(&mut v, "--setenv=REALM_NAME=", realm.name.as_str());
        if let Some(id) = startup_id {
            push_arg_concat(&mut v, "--setenv=DESKTOP_STARTUP_ID=", id);
        }
        if realm.config.wayland && !realm.config.x11 {
            push_arg(&mut v, "--setenv=GDK_BACKEND=wayland");
        }
        push_arg(&mut v, "shell");
        let target = concat(user, "@");
        push_arg_concat(&mut v, target.as_str(), realm.name.as_str());
        if launcher {
            push_arg(&mut v, "/usr/libexec/launch");
        }
        let ghost head = string_views(v@);
        let mut i: usize = 0;
        while i < args.len()
            invariant
                i <= args@.len(),
                string_views(v@) == head + string_views(args@).take(i as int),
            decreases args@.len() - i,
        {
            let ghost before = string_views(v@);
            push_arg(&mut v, args[i].as_str());
            assert(string_views(args@).take(i + 1) =~= string_views(args@).take(i as int).push(args@[i as int]@));
            i = i + 1;
        }
        assert(string_views(args@).take(i as int) =~= string_views(args@));
        assert(string_views(v@) =~= shell_args(*realm, string_views(args@), user@, launcher, match startup_id {
            Some(id) => Some(id@),
            None => None,
        }));
        v
    }

    /// The arguments of `machinectl` that open a shell in the realm, as root
    /// or as the realm's user.
    pub fn machinectl_exec_shell(realm: &Realm, as_root: bool, launcher: bool, startup_id: Option<&str>) -> (r: Vec<String>)
        ensures
            string_views(r@) == shell_args(
                *realm,
                seq!["/bin/bash"@],
                if as_root { "root"@ } else { "user"@ },
                launcher,
                match startup_id {
                    Some(id) => Some(id@),
                    None => None,
                },
            ),
    {
        let username = if as_root { "root" } else { "user" };
        let mut args: Vec<String> = Vec::new();
        push_arg(&mut args, "/bin/bash");
        assert(string_views(args@) =~= seq!["/bin/bash"@]);
        Self::machinectl_shell(realm, &args, username, launcher, startup_id)
    }

    /// The arguments of `machinectl` that copy `from` on the host to `to`
    /// in the realm.
    pub fn machinectl_copy_to(realm: &Realm, from: &str, to: &str) -> (r: Vec<String>)
        ensures
            string_views(r@) == seq!["copy-to"@, realm.name@, from@, to@],
    {
        let mut v: Vec<String> = Vec::new();
        push_arg(&mut v, "copy-to");
        push_arg(&mut v, realm.name.as_str());
        push_arg(&mut v, from);
        push_arg(&mut v, to);
        assert(string_views(v@) =~= seq!["copy-to"@, realm.name@, from@, to@]);
        v
    }

    /// The arguments of `machinectl` that bind `from` on the host over `to`
    /// in the realm, creating `to` where needed.
    pub fn machinectl_bind(realm: &Realm, from: &str, to: &str) -> (r: Vec<String>)
        ensures
            string_views(r@) == seq!["--mkdir"@, "bind"@, realm.name@, from@, to@],
    {
        let mut v: Vec<String> = Vec::new();
        push_arg(&mut v, "--mkdir");
        push_arg(&mut v, "bind");
        push_arg(&mut v, realm.name.as_str());
        push_arg(&mut v, from);
        push_arg(&mut v, to);
        assert(string_views(v@) =~= seq!["--mkdir"@, "bind"@, realm.name@, from@, to@]);
        v
    }

    /// The source of a persistent directory: `dir` in the realm's home.
    pub fn persistent_dir_source(realm: &Realm, dir: &str) -> (r: String)
        ensures
            r@ == join_path(realm_file_path(realm.name@, "home"@), dir@),
    {
        if dir.unicode_len() > 0 && dir.get_char(0) == '/' {
            return dir.to_owned();
        }
        let home = realm.base_path_file("home");
        let mut s = concat(home.as_str(), "/");
        push_text(&mut s, dir);
        s
    }

    /// The `machinectl` invocations that populate a freshly created
    /// ephemeral home, in order: the global skeleton, then the realm's own,
    /// then a bind for each persistent directory. `resolved` holds, for each
    /// of the realm's persistent directories, its source with links
    /// resolved, or nothing where the source does not exist; a source that
    /// resolves outside the realm's home is left out.
    pub fn setup_ephemeral_home(
        realm: &Realm,
        skel_exists: bool,
        realm_skel_exists: bool,
        home_exists: bool,
        resolved: &Vec<Option<String>>,
    ) -> (r: Vec<Vec<String>>)
        requires
            resolved@.len() == realm.config.ephemeral_persistent_dirs@.len(),
        ensures
            arg_lists(r@) == ephemeral_home_commands(*realm, skel_exists, realm_skel_exists, home_exists,
                resolved@.map_values(|o: Option<String>| match o {
                    Some(s) => Some(s@),
                    None => None,
                })),
    {
        let ghost res = resolved@.map_values(|o: Option<String>| match o {
            Some(s) => Some(s@),
            None => None,
        });
        let name = realm.name.as_str();
        let mut cmds: Vec<Vec<String>> = Vec::new();
        if skel_exists {
            let a = Self::machinectl_copy_to(realm, "/realms/skel", "/home/user");
            cmds.push(a);
        }
        if realm_skel_exists {
            let skel = realm.base_path_file("skel");
            let a = Self::machinectl_copy_to(realm, skel.as_str(), "/home/user");
            let ghost before = arg_lists(cmds@);
            cmds.push(a);
            assert(arg_lists(cmds@) =~= before.push(string_views(a@)));
        }
        let ghost c2 = arg_lists(cmds@);
        assert(c2 =~= (if skel_exists {
            seq![seq!["copy-to"@, name@, "/realms/skel"@, "/home/user"@]]
        } else {
            Seq::empty()
        }) + (if realm_skel_exists {
            seq![seq!["copy-to"@, name@, realm_file_path(name@, "skel"@), "/home/user"@]]
        } else {
            Seq::empty()
        }));
        if !home_exists {
            assert(arg_lists(cmds@) =~= ephemeral_home_commands(*realm, skel_exists, realm_skel_exists, home_exists, res));
            return cmds;
        }
        let home = realm.base_path_file("home");
        let dirs = &realm.config.ephemeral_persistent_dirs;
        let ghost ds = string_views(dirs@);
        let mut i: usize = 0;
        assert(ds.take(0) =~= Seq::<Seq<char>>::empty());
        assert(arg_lists(cmds@) =~= c2 + persistent_binds(name@, home@, ds.take(0), res));
        while i < dirs.len()
            invariant
                i <= dirs@.len(),
                dirs@.len() == resolved@.len(),
                ds == string_views(dirs@),
                name@ == realm.name@,
                home@ == realm_file_path(name@, "home"@),
                res == resolved@.map_values(|o: Option<String>| match o {
                    Some(s) => Some(s@),
                    None => None,
                }),
                arg_lists(cmds@) == c2 + persistent_binds(name@, home@, ds.take(i as int), res),
            decreases dirs@.len() - i,
        {
            assert(ds.take(i + 1).drop_last() =~= ds.take(i as int));
            assert(ds.take(i + 1)[i as int] == dirs@[i as int]@);
            match &resolved[i] {
                Some(src) => {
                    if Self::path_within(src.as_str(), home.as_str()) {
                        let dst = Self::persistent_dir_target(dirs[i].as_str());
                        let a = Self::machinectl_bind(realm, src.as_str(), dst.as_str());
                        let ghost before = arg_lists(cmds@);
                        cmds.push(a);
                        assert(arg_lists(cmds@) =~= before.push(string_views(a@)));
                    }
                },
                None => {},
            }
            i = i + 1;
        }
        assert(ds.take(i as int) =~= ds);
        assert(arg_lists(cmds@) =~= ephemeral_home_commands(*realm, skel_exists, realm_skel_exists, home_exists, res));
        cmds
    }

    /// Where a persistent directory is bound inside the realm.
    fn persistent_dir_target(dir: &str) -> (r: String)
        ensures
            r@ == join_path("/home/user"@, dir@),
    {
        if dir.unicode_len() > 0 && dir.get_char(0) == '/' {
            return dir.to_owned();
        }
        let mut s = String::new();
        push_text(&mut s, "/home/user");
        push_text(&mut s, "/");
        push_text(&mut s, dir);
        assert(s@ =~= "/home/user"@ + "/"@ + dir@);
        s
    }

    /// Whether `p` is `base` or lies below it.
    pub fn path_within(p: &str, base: &str) -> (r: bool)
        ensures
            r == within(p@, base@),
    {
        let n = p.unicode_len();
        let m = base.unicode_len();
        if n < m {
            return false;
        }
        let mut i: usize = 0;
        while i < m
            invariant
                n == p@.len(),
                m == base@.len(),
                m <= n,
                i <= m,
                forall|j: int| 0 <= j < i ==> p@[j] == base@[j],
            decreases m - i,
        {
            if p.get_char(i) != base.get_char(i) {
                assert(p@.take(m as int)[i as int] != base@[i as int]);
                return false;
            }
            i = i + 1;
        }
        assert(p@.take(m as int) =~= base@);
        if n == m {
            assert(p@ =~= base@);
            true
        } else {
            p.get_char(m) == '/'
        }
    }
}

} // verus!
