//! The configurations that the control center and the automation builder
//! keep in TOML files: per-application permissions and resource limits, and
//! automation rules. Reading and writing the files happens outside; here are
//! the defaults and the edits.
use vstd::prelude::*;

use crate::text::{chars_eq_str, chars_of, concat2, dec_seq, extend_chars, nat_to_string, string_of};

verus! {

/// What one application may use.
#[derive(Debug, Clone, Copy, PartialEq, Eq, Structural)]
pub struct AppPermissions {
    pub camera: bool,
    pub microphone: bool,
    pub location: bool,
    pub network: bool,
}

/// The permissions of each application, each application once.
#[derive(Debug)]
pub struct PermissionsConfig {
    pub apps: Vec<(String, AppPermissions)>,
}

/// `perms` with the permission called `field` set to `value`; an unknown
/// name changes nothing.
pub open spec fn with_permission(perms: AppPermissions, field: Seq<char>, value: bool) -> AppPermissions {
    if field == "camera"@ {
        AppPermissions { camera: value, ..perms }
    } else if field == "microphone"@ {
        AppPermissions { microphone: value, ..perms }
    } else if field == "location"@ {
        AppPermissions { location: value, ..perms }
    } else if field == "network"@ {
        AppPermissions { network: value, ..perms }
    } else {
        perms
    }
}

/// The four permission names differ from one another.
proof fn lemma_permission_names_distinct()
    ensures
        "camera"@ != "microphone"@,
        "camera"@ != "location"@,
        "camera"@ != "network"@,
        "microphone"@ != "location"@,
        "microphone"@ != "network"@,
        "location"@ != "network"@,
{
    reveal_strlit("camera");
    reveal_strlit("microphone");
    reveal_strlit("location");
    reveal_strlit("network");
    assert("camera"@[0] != "microphone"@[0]);
    assert("camera"@[0] != "location"@[0]);
    assert("camera"@[0] != "network"@[0]);
    assert("microphone"@[0] != "location"@[0]);
    assert("microphone"@[0] != "network"@[0]);
    assert("location"@[0] != "network"@[0]);
}

/// Sets the permission called `field`.
pub fn set_permission(perms: AppPermissions, field: &str, value: bool) -> (r: AppPermissions)
    ensures
        r == with_permission(perms, field@, value),
        field@ == "camera"@ ==> r.camera == value,
        field@ == "microphone"@ ==> r.microphone == value,
        field@ == "location"@ ==> r.location == value,
        field@ == "network"@ ==> r.network == value,
{
    proof {
        lemma_permission_names_distinct();
    }
    let f = chars_of(field);
    if chars_eq_str(&f, "camera") {
        AppPermissions { camera: value, ..perms }
    } else if chars_eq_str(&f, "microphone") {
        AppPermissions { microphone: value, ..perms }
    } else if chars_eq_str(&f, "location") {
        AppPermissions { location: value, ..perms }
    } else if chars_eq_str(&f, "network") {
        AppPermissions { network: value, ..perms }
    } else {
        perms
    }
}

/// The names of the applications of a configuration, in order.
pub open spec fn app_names<T>(apps: Seq<(String, T)>) -> Seq<Seq<char>> {
    apps.map_values(|e: (String, T)| e.0@)
}

/// No application occurs twice (the configuration files key them by name).
pub open spec fn distinct_names<T>(apps: Seq<(String, T)>) -> bool {
    forall|i: int, j: int| 0 <= i < j < apps.len() ==> (#[trigger] apps[i]).0@ != (#[trigger] apps[j]).0@
}

proof fn lemma_default_names_distinct(a: Seq<char>, b: Seq<char>, c: Seq<char>)
    requires
        a == "firefox"@,
        b == "foot"@,
        c == "xos-file-manager"@,
    ensures
        a != b,
        a != c,
        b != c,
{
    reveal_strlit("firefox");
    reveal_strlit("foot");
    reveal_strlit("xos-file-manager");
    assert(a.len() != c.len());
    assert(b.len() != c.len());
    assert(a[1] != b[1]);
}

impl PermissionsConfig {
    /// The permissions written when no configuration can be read.
    pub fn default_config() -> (r: Self)
        ensures
            r.apps@.len() == 3,
            r.apps@[0].0@ == "firefox"@,
            r.apps@[0].1 == (AppPermissions { camera: true, microphone: true, location: false, network: true }),
            r.apps@[1].0@ == "foot"@,
            r.apps@[1].1 == (AppPermissions { camera: false, microphone: false, location: false, network: false }),
            r.apps@[2].0@ == "xos-file-manager"@,
            r.apps@[2].1 == (AppPermissions { camera: false, microphone: false, location: false, network: true }),
            distinct_names(r.apps@),
    {
        let mut apps: Vec<(String, AppPermissions)> = Vec::new();
        apps.push(
            (
                string_of(&chars_of("firefox")),
                AppPermissions { camera: true, microphone: true, location: false, network: true },
            ),
        );
        apps.push(
            (
                string_of(&chars_of("foot")),
                AppPermissions { camera: false, microphone: false, location: false, network: false },
            ),
        );
        apps.push(
            (
                string_of(&chars_of("xos-file-manager")),
                AppPermissions { camera: false, microphone: false, location: false, network: true },
            ),
        );
        proof {
            lemma_default_names_distinct(apps@[0].0@, apps@[1].0@, apps@[2].0@);
        }
        PermissionsConfig { apps }
    }

    /// Sets the permission `field` of the application `app` to `value`; a
    /// configuration without that application is unchanged.
    pub fn update_permission(&mut self, app: &str, field: &str, value: bool)
        ensures
            distinct_names(old(self).apps@) ==> distinct_names(final(self).apps@),
            final(self).apps@.len() == old(self).apps@.len(),
            forall|i: int|
                0 <= i < old(self).apps@.len() ==> (#[trigger] final(self).apps@[i]).0 == old(self).apps@[i].0,
            forall|i: int|
                0 <= i < old(self).apps@.len() ==> (#[trigger] final(self).apps@[i]).1 == (if old(self).apps@[i].0@
                    == app@ {
                    with_permission(old(self).apps@[i].1, field@, value)
                } else {
                    old(self).apps@[i].1
                }),
            forall|i: int|
                0 <= i < old(self).apps@.len() && old(self).apps@[i].0@ == app@ ==> {
                    &&& (field@ == "camera"@ ==> (#[trigger] final(self).apps@[i]).1.camera == value)
                    &&& (field@ == "microphone"@ ==> final(self).apps@[i].1.microphone == value)
                    &&& (field@ == "location"@ ==> final(self).apps@[i].1.location == value)
                    &&& (field@ == "network"@ ==> final(self).apps@[i].1.network == value)
                },
    {
        proof {
            lemma_permission_names_distinct();
        }
        let a = chars_of(app);
        let ghost start = self.apps@;
        let mut i: usize = 0;
        while i < self.apps.len()
            invariant
                i <= self.apps.len(),
                a@ == app@,
                self.apps@.len() == start.len(),
                forall|k: int| 0 <= k < start.len() ==> (#[trigger] self.apps@[k]).0 == start[k].0,
                forall|k: int| i <= k < start.len() ==> (#[trigger] self.apps@[k]).1 == start[k].1,
                forall|k: int|
                    0 <= k < i ==> (#[trigger] self.apps@[k]).1 == (if start[k].0@ == app@ {
                        with_permission(start[k].1, field@, value)
                    } else {
                        start[k].1
                    }),
            decreases self.apps.len() - i,
        {
            let name = chars_of(self.apps[i].0.as_str());
            if crate::text::chars_eq(&name, &a) {
                let updated = set_permission(self.apps[i].1, field, value);
                let entry_name = self.apps[i].0.clone();
                self.apps.set(i, (entry_name, updated));
            }
            i = i + 1;
        }
    }
}

/// The share of processor time and the memory one application may use.
#[derive(Debug, Clone, Copy, PartialEq, Eq, Structural)]
pub struct AppLimit {
    pub cpu_limit: u32,
    pub mem_limit: u32,
}

/// The limits of each application, each application once.
#[derive(Debug)]
pub struct ResourceConfig {
    pub apps: Vec<(String, AppLimit)>,
}

impl ResourceConfig {
    /// The limits written when no configuration can be read.
    pub fn default_config() -> (r: Self)
        ensures
            r.apps@.len() == 3,
            r.apps@[0].0@ == "firefox"@,
            r.apps@[0].1 == (AppLimit { cpu_limit: 60, mem_limit: 2048 }),
            r.apps@[1].0@ == "foot"@,
            r.apps@[1].1 == (AppLimit { cpu_limit: 20, mem_limit: 512 }),
            r.apps@[2].0@ == "xos-file-manager"@,
            r.apps@[2].1 == (AppLimit { cpu_limit: 30, mem_limit: 1024 }),
            distinct_names(r.apps@),
    {
        let mut apps: Vec<(String, AppLimit)> = Vec::new();
        apps.push((string_of(&chars_of("firefox")), AppLimit { cpu_limit: 60, mem_limit: 2048 }));
        apps.push((string_of(&chars_of("foot")), AppLimit { cpu_limit: 20, mem_limit: 512 }));
        apps.push((string_of(&chars_of("xos-file-manager")), AppLimit { cpu_limit: 30, mem_limit: 1024 }));
        proof {
            lemma_default_names_distinct(apps@[0].0@, apps@[1].0@, apps@[2].0@);
        }
        ResourceConfig { apps }
    }

    /// Sets the processor share (`cpu`) and/or the memory limit (`mem`) of
    /// the application `app`; limits not given stay.
    pub fn update_limit(&mut self, app: &str, cpu: Option<u32>, mem: Option<u32>)
        ensures
            distinct_names(old(self).apps@) ==> distinct_names(final(self).apps@),
            final(self).apps@.len() == old(self).apps@.len(),
            forall|i: int|
                0 <= i < old(self).apps@.len() ==> (#[trigger] final(self).apps@[i]).0 == old(self).apps@[i].0,
            forall|i: int|
                0 <= i < old(self).apps@.len() ==> (#[trigger] final(self).apps@[i]).1 == (if old(self).apps@[i].0@
                    == app@ {
                    with_limits(old(self).apps@[i].1, cpu, mem)
                } else {
                    old(self).apps@[i].1
                }),
            forall|i: int|
                0 <= i < old(self).apps@.len() && old(self).apps@[i].0@ == app@ ==> {
                    &&& (cpu matches Some(c) ==> (#[trigger] final(self).apps@[i]).1.cpu_limit == c)
                    &&& (cpu is None ==> final(self).apps@[i].1.cpu_limit == old(self).apps@[i].1.cpu_limit)
                    &&& (mem matches Some(m) ==> final(self).apps@[i].1.mem_limit == m)
                    &&& (mem is None ==> final(self).apps@[i].1.mem_limit == old(self).apps@[i].1.mem_limit)
                },
    {
        let a = chars_of(app);
        let ghost start = self.apps@;
        let mut i: usize = 0;
        while i < self.apps.len()
            invariant
                i <= self.apps.len(),
                a@ == app@,
                self.apps@.len() == start.len(),
                forall|k: int| 0 <= k < start.len() ==> (#[trigger] self.apps@[k]).0 == start[k].0,
                forall|k: int| i <= k < start.len() ==> (#[trigger] self.apps@[k]).1 == start[k].1,
                forall|k: int|
                    0 <= k < i ==> (#[trigger] self.apps@[k]).1 == (if start[k].0@ == app@ {
                        with_limits(start[k].1, cpu, mem)
                    } else {
                        start[k].1
                    }),
            decreases self.apps.len() - i,
        {
            let name = chars_of(self.apps[i].0.as_str());
            if crate::text::chars_eq(&name, &a) {
                let old_limit = self.apps[i].1;
                let updated = AppLimit {
                    cpu_limit: match cpu {
                        Some(c) => c,
                        None => old_limit.cpu_limit,
                    },
                    mem_limit: match mem {
                        Some(m) => m,
                        None => old_limit.mem_limit,
                    },
                };
                let entry_name = self.apps[i].0.clone();
                self.apps.set(i, (entry_name, updated));
            }
            i = i + 1;
        }
    }
}

/// `limit` with the given limits replaced.
pub open spec fn with_limits(limit: AppLimit, cpu: Option<u32>, mem: Option<u32>) -> AppLimit {
    AppLimit {
        cpu_limit: match cpu {
            Some(c) => c,
            None => limit.cpu_limit,
        },
        mem_limit: match mem {
            Some(m) => m,
            None => limit.mem_limit,
        },
    }
}

/// The processor line of a limits group.
pub fn cpu_limit_label(cpu: u32) -> (s: String)
    ensures
        s@ == "CPU Limit: "@ + dec_seq(cpu as nat) + "%"@,
{
    let n = nat_to_string(cpu as u64);
    crate::text::concat3("CPU Limit: ", n.as_str(), "%")
}

/// The memory line of a limits group.
pub fn mem_limit_label(mem: u32) -> (s: String)
    ensures
        s@ == "Memory Limit: "@ + dec_seq(mem as nat) + " MB"@,
{
    let n = nat_to_string(mem as u64);
    crate::text::concat3("Memory Limit: ", n.as_str(), " MB")
}

/// An automation rule: when `trigger` holds, the engine runs `action`.
#[derive(Debug)]
pub struct Rule {
    pub name: String,
    pub trigger: String,
    pub action: String,
}

/// The automation rules, in the order they were made.
#[derive(Debug)]
pub struct AutomationsConfig {
    pub rules: Vec<Rule>,
}

/// The fields of a rule.
pub open spec fn rule_fields(r: Rule) -> (Seq<char>, Seq<char>, Seq<char>) {
    (r.name@, r.trigger@, r.action@)
}

impl AutomationsConfig {
    /// The rules written when no configuration can be read.
    pub fn default_config() -> (r: Self)
        ensures
            r.rules@.map_values(|x: Rule| rule_fields(x)) == seq![
                ("low_battery"@, "capacity < 20"@, "xos-notify 'Battery Low' 'System is running low on power (< 20%)'"@),
                ("high_temp"@, "cpu_temp > 85"@, "xos-notify 'High Temperature' 'CPU temperature is critically high (> 85°C)'"@),
                ("power_plugged"@, "status == Charging"@, "xos-notify 'Power Connected' 'Performance mode switched to Balanced'"@),
            ],
    {
        let mut rules: Vec<Rule> = Vec::new();
        rules.push(
            Rule {
                name: string_of(&chars_of("low_battery")),
                trigger: string_of(&chars_of("capacity < 20")),
                action: string_of(&chars_of("xos-notify 'Battery Low' 'System is running low on power (< 20%)'")),
            },
        );
        rules.push(
            Rule {
                name: string_of(&chars_of("high_temp")),
                trigger: string_of(&chars_of("cpu_temp > 85")),
                action: string_of(
                    &chars_of("xos-notify 'High Temperature' 'CPU temperature is critically high (> 85°C)'"),
                ),
            },
        );
        rules.push(
            Rule {
                name: string_of(&chars_of("power_plugged")),
                trigger: string_of(&chars_of("status == Charging")),
                action: string_of(&chars_of("xos-notify 'Power Connected' 'Performance mode switched to Balanced'")),
            },
        );
        let r = AutomationsConfig { rules };
        assert(r.rules@.map_values(|x: Rule| rule_fields(x)) =~= seq![
            ("low_battery"@, "capacity < 20"@, "xos-notify 'Battery Low' 'System is running low on power (< 20%)'"@),
            ("high_temp"@, "cpu_temp > 85"@, "xos-notify 'High Temperature' 'CPU temperature is critically high (> 85°C)'"@),
            ("power_plugged"@, "status == Charging"@, "xos-notify 'Power Connected' 'Performance mode switched to Balanced'"@),
        ]);
        r
    }

    /// Adds a rule when its name, trigger and action are all given, and says
    /// whether it did.
    pub fn add_rule(&mut self, name: String, trigger: String, action: String) -> (added: bool)
        ensures
            added == (name@.len() > 0 && trigger@.len() > 0 && action@.len() > 0),
            added ==> final(self).rules@ == old(self).rules@.push(Rule { name, trigger, action }),
            !added ==> final(self).rules@ == old(self).rules@,
    {
        let ok = name.as_str().unicode_len() != 0 && trigger.as_str().unicode_len() != 0
            && action.as_str().unicode_len() != 0;
        if ok {
            self.rules.push(Rule { name, trigger, action });
        }
        ok
    }

    /// Deletes the rule at `index`.
    pub fn remove_rule(&mut self, index: usize)
        requires
            index < old(self).rules@.len(),
        ensures
            final(self).rules@ == old(self).rules@.remove(index as int),
    {
        self.rules.remove(index);
    }
}

/// The line under a rule's name in the rule list.
pub fn rule_subtitle(rule: &Rule) -> (s: String)
    ensures
        s@ == "Trigger: "@ + rule.trigger@ + "  |  Action: "@ + rule.action@,
{
    let mut v = chars_of("Trigger: ");
    extend_chars(&mut v, &chars_of(rule.trigger.as_str()));
    extend_chars(&mut v, &chars_of("  |  Action: "));
    extend_chars(&mut v, &chars_of(rule.action.as_str()));
    string_of(&v)
}

/// Setting a permission is idempotent: setting it again to the same value
/// changes nothing more, and the other permissions are left as they were.
pub proof fn law_permission_set_idempotent(perms: AppPermissions, field: Seq<char>, value: bool)
    ensures
        with_permission(with_permission(perms, field, value), field, value) == with_permission(perms, field, value),
        field != "camera"@ ==> with_permission(perms, field, value).camera == perms.camera,
        field != "microphone"@ ==> with_permission(perms, field, value).microphone == perms.microphone,
        field != "location"@ ==> with_permission(perms, field, value).location == perms.location,
        field != "network"@ ==> with_permission(perms, field, value).network == perms.network,
{
}

/// After a permission is set to a value, that permission has that value,
/// whatever it was before: a granted permission can be revoked and a revoked
/// one granted.
pub proof fn law_permission_reads_back(perms: AppPermissions, value: bool)
    ensures
        with_permission(perms, "camera"@, value).camera == value,
        with_permission(perms, "microphone"@, value).microphone == value,
        with_permission(perms, "location"@, value).location == value,
        with_permission(perms, "network"@, value).network == value,
{
    lemma_permission_names_distinct();
}

/// A limit that is given replaces the old one, whether it is higher or
/// lower; a limit that is not given stays.
pub proof fn law_given_limit_replaces(limit: AppLimit, cpu: Option<u32>, mem: Option<u32>, c: u32, m: u32)
    ensures
        with_limits(limit, Some(c), mem).cpu_limit == c,
        with_limits(limit, cpu, Some(m)).mem_limit == m,
        with_limits(limit, None, mem).cpu_limit == limit.cpu_limit,
        with_limits(limit, cpu, None).mem_limit == limit.mem_limit,
{
}

/// Giving no new limit leaves an application's limits as they were.
pub proof fn law_no_limit_given_changes_nothing(limit: AppLimit)
    ensures
        with_limits(limit, None, None) == limit,
{
}

/// Deleting the rule just added gives back the rules as they were.
pub proof fn law_delete_undoes_add(rules: Seq<Rule>, rule: Rule)
    ensures
        rules.push(rule).remove(rules.len() as int) == rules,
{
    assert(rules.push(rule).remove(rules.len() as int) =~= rules);
}

} // verus!
