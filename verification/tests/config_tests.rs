use xos_apps::config::{
    cpu_limit_label, mem_limit_label, rule_subtitle, set_permission, AppLimit, AppPermissions, AutomationsConfig,
    PermissionsConfig, ResourceConfig, Rule,
};

#[test]
fn default_permissions() {
    let c = PermissionsConfig::default_config();
    let names: Vec<&str> = c.apps.iter().map(|(n, _)| n.as_str()).collect();
    assert_eq!(names, vec!["firefox", "foot", "xos-file-manager"]);
    assert_eq!(c.apps[0].1, AppPermissions { camera: true, microphone: true, location: false, network: true });
    assert_eq!(c.apps[1].1, AppPermissions { camera: false, microphone: false, location: false, network: false });
    assert_eq!(c.apps[2].1, AppPermissions { camera: false, microphone: false, location: false, network: true });
}

#[test]
fn setting_one_permission() {
    let p = AppPermissions { camera: false, microphone: false, location: false, network: false };
    assert!(set_permission(p, "camera", true).camera);
    assert!(set_permission(p, "microphone", true).microphone);
    assert!(set_permission(p, "location", true).location);
    assert!(set_permission(p, "network", true).network);
    assert_eq!(set_permission(p, "bluetooth", true), p);
}

#[test]
fn updating_an_application() {
    let mut c = PermissionsConfig::default_config();
    c.update_permission("foot", "network", true);
    assert!(c.apps[1].1.network);
    assert!(!c.apps[1].1.camera);
    assert_eq!(c.apps[0].1, PermissionsConfig::default_config().apps[0].1);
    let before: Vec<AppPermissions> = c.apps.iter().map(|(_, p)| *p).collect();
    c.update_permission("unknown-app", "camera", false);
    let after: Vec<AppPermissions> = c.apps.iter().map(|(_, p)| *p).collect();
    assert_eq!(before, after);
}

#[test]
fn resource_limits() {
    let mut c = ResourceConfig::default_config();
    assert_eq!(c.apps[0].1, AppLimit { cpu_limit: 60, mem_limit: 2048 });
    assert_eq!(c.apps[1].1, AppLimit { cpu_limit: 20, mem_limit: 512 });
    assert_eq!(c.apps[2].1, AppLimit { cpu_limit: 30, mem_limit: 1024 });
    c.update_limit("foot", Some(45), None);
    assert_eq!(c.apps[1].1, AppLimit { cpu_limit: 45, mem_limit: 512 });
    c.update_limit("foot", None, Some(768));
    assert_eq!(c.apps[1].1, AppLimit { cpu_limit: 45, mem_limit: 768 });
    assert_eq!(c.apps[0].1, AppLimit { cpu_limit: 60, mem_limit: 2048 });
    assert_eq!(cpu_limit_label(45), "CPU Limit: 45%");
    assert_eq!(mem_limit_label(768), "Memory Limit: 768 MB");
}

#[test]
fn automation_rules() {
    let mut c = AutomationsConfig::default_config();
    let names: Vec<&str> = c.rules.iter().map(|r| r.name.as_str()).collect();
    assert_eq!(names, vec!["low_battery", "high_temp", "power_plugged"]);
    assert_eq!(c.rules[0].trigger, "capacity < 20");
    assert_eq!(rule_subtitle(&c.rules[1]), "Trigger: cpu_temp > 85  |  Action: xos-notify 'High Temperature' 'CPU temperature is critically high (> 85°C)'");

    assert!(!c.add_rule("".into(), "t".into(), "a".into()));
    assert!(!c.add_rule("n".into(), "".into(), "a".into()));
    assert!(!c.add_rule("n".into(), "t".into(), "".into()));
    assert_eq!(c.rules.len(), 3);
    assert!(c.add_rule("mine".into(), "capacity < 5".into(), "poweroff".into()));
    assert_eq!(c.rules.len(), 4);
    assert_eq!(c.rules[3].action, "poweroff");

    c.remove_rule(0);
    let names: Vec<&str> = c.rules.iter().map(|r| r.name.as_str()).collect();
    assert_eq!(names, vec!["high_temp", "power_plugged", "mine"]);

    let r = Rule { name: "n".into(), trigger: "a".into(), action: "b".into() };
    assert_eq!(rule_subtitle(&r), "Trigger: a  |  Action: b");
}

#[test]
fn configuration_laws_on_examples() {
    let p = AppPermissions { camera: true, microphone: false, location: true, network: false };
    let once = set_permission(p, "microphone", true);
    assert_eq!(set_permission(once, "microphone", true), once);
    assert_eq!((once.camera, once.location, once.network), (p.camera, p.location, p.network));

    let mut r = ResourceConfig::default_config();
    let before: Vec<AppLimit> = r.apps.iter().map(|(_, l)| *l).collect();
    r.update_limit("firefox", None, None);
    let after: Vec<AppLimit> = r.apps.iter().map(|(_, l)| *l).collect();
    assert_eq!(before, after);

    let mut a = AutomationsConfig::default_config();
    assert!(a.add_rule("tmp".into(), "t".into(), "a".into()));
    let last = a.rules.len() - 1;
    a.remove_rule(last);
    let names: Vec<&str> = a.rules.iter().map(|r| r.name.as_str()).collect();
    assert_eq!(names, vec!["low_battery", "high_temp", "power_plugged"]);
}
