use patchbukkit::config::SpigotPluginYml;
use patchbukkit::registry::{PluginManager, PluginState};

fn spigot(
    name: &str,
    depend: &[&str],
    softdepend: &[&str],
    loadbefore: &[&str],
    provides: &[&str],
) -> SpigotPluginYml {
    let list = |v: &[&str]| {
        if v.is_empty() {
            None
        } else {
            Some(v.iter().map(|s| s.to_string()).collect::<Vec<String>>())
        }
    };
    SpigotPluginYml {
        name: name.to_string(),
        version: "1.0".to_string(),
        main: format!("org.example.{}", name),
        depend: list(depend),
        softdepend: list(softdepend),
        loadbefore: list(loadbefore),
        provides: list(provides),
        libraries: None,
        paper_skip_libraries: None,
        commands: None,
    }
}

fn register(m: &mut PluginManager, c: SpigotPluginYml) {
    let path = format!("/srv/plugins/{}.jar", c.name);
    assert_eq!(m.load_spigot_plugin(&path, c), Ok(true));
}

fn order_of(m: &mut PluginManager) -> (Vec<String>, usize, Vec<String>) {
    let plan = m.compute_load_order();
    (plan.order, plan.cycle_start, plan.skipped)
}

#[test]
fn dependency_loads_first() {
    let mut m = PluginManager::new();
    register(&mut m, spigot("A", &["B"], &[], &[], &[]));
    register(&mut m, spigot("B", &[], &[], &[], &[]));
    let (order, cut, skipped) = order_of(&mut m);
    assert_eq!(order, vec!["b", "a"]);
    assert_eq!(cut, 2);
    assert!(skipped.is_empty());
}

#[test]
fn load_before_orders_declaring_plugin_first() {
    let mut m = PluginManager::new();
    register(&mut m, spigot("D", &[], &[], &[], &[]));
    register(&mut m, spigot("C", &[], &[], &["D"], &[]));
    let (order, _, _) = order_of(&mut m);
    assert_eq!(order, vec!["c", "d"]);
}

#[test]
fn load_before_overrides_name_order() {
    let mut m = PluginManager::new();
    register(&mut m, spigot("Alpha", &[], &[], &[], &[]));
    register(&mut m, spigot("Zeta", &[], &[], &["alpha"], &[]));
    let (order, _, _) = order_of(&mut m);
    assert_eq!(order, vec!["zeta", "alpha"]);
}

#[test]
fn missing_hard_dependency_errors_only_that_plugin() {
    let mut m = PluginManager::new();
    register(&mut m, spigot("E", &["F"], &[], &[], &[]));
    register(&mut m, spigot("Other", &[], &[], &[], &[]));
    let (order, _, skipped) = order_of(&mut m);
    assert_eq!(order, vec!["other"]);
    assert_eq!(skipped, vec!["e"]);
    assert_eq!(m.state_of("e"), Some(PluginState::Errored));
    assert_eq!(m.state_of("other"), Some(PluginState::Registered));
}

#[test]
fn dependents_of_errored_plugin_still_load() {
    let mut m = PluginManager::new();
    register(&mut m, spigot("A", &["E"], &[], &[], &[]));
    register(&mut m, spigot("E", &["F"], &[], &[], &[]));
    register(&mut m, spigot("S", &[], &["E"], &[], &[]));
    let (order, _, skipped) = order_of(&mut m);
    assert_eq!(order, vec!["a", "s"]);
    assert_eq!(skipped, vec!["e"]);
    assert_eq!(m.state_of("a"), Some(PluginState::Registered));
    assert_eq!(m.state_of("s"), Some(PluginState::Registered));
}

#[test]
fn mutual_soft_dependency_falls_back_to_name_order() {
    let mut m = PluginManager::new();
    register(&mut m, spigot("H", &[], &["G"], &[], &[]));
    register(&mut m, spigot("G", &[], &["H"], &[], &[]));
    register(&mut m, spigot("Base", &[], &[], &[], &[]));
    let (order, cut, _) = order_of(&mut m);
    assert_eq!(order, vec!["base", "g", "h"]);
    assert_eq!(cut, 1);
}

#[test]
fn cycle_remainder_sorted_after_valid_prefix() {
    let mut m = PluginManager::new();
    register(&mut m, spigot("Zed", &["yak"], &[], &[], &[]));
    register(&mut m, spigot("Yak", &["zed"], &[], &[], &[]));
    register(&mut m, spigot("Mid", &[], &[], &[], &[]));
    register(&mut m, spigot("Low", &["zed"], &[], &[], &[]));
    let (order, cut, _) = order_of(&mut m);
    assert_eq!(cut, 1);
    assert_eq!(order, vec!["mid", "low", "yak", "zed"]);
}

#[test]
fn order_does_not_depend_on_registration_order() {
    let specs = || {
        vec![
            spigot("Core", &[], &[], &[], &["api"]),
            spigot("Shop", &["api"], &["Chat"], &[], &[]),
            spigot("Chat", &[], &[], &[], &[]),
            spigot("Maps", &[], &[], &["core"], &[]),
            spigot("Zone", &[], &[], &[], &[]),
        ]
    };
    let mut first = PluginManager::new();
    for c in specs() {
        register(&mut first, c);
    }
    let mut second = PluginManager::new();
    for c in specs().into_iter().rev() {
        register(&mut second, c);
    }
    let (o1, c1, _) = order_of(&mut first);
    let (o2, c2, _) = order_of(&mut second);
    assert_eq!(o1, o2);
    assert_eq!(c1, c2);
    assert_eq!(o1, vec!["chat", "maps", "core", "shop", "zone"]);
}

#[test]
fn every_edge_respected_outside_cycles() {
    let mut m = PluginManager::new();
    register(&mut m, spigot("App", &["Lib", "Db"], &[], &[], &[]));
    register(&mut m, spigot("Lib", &["Db"], &[], &[], &[]));
    register(&mut m, spigot("Db", &[], &[], &[], &[]));
    register(&mut m, spigot("Web", &[], &["App"], &[], &[]));
    let (order, cut, _) = order_of(&mut m);
    assert_eq!(cut, order.len());
    let pos = |k: &str| order.iter().position(|x| x == k).unwrap();
    assert!(pos("db") < pos("lib"));
    assert!(pos("lib") < pos("app"));
    assert!(pos("db") < pos("app"));
    assert!(pos("app") < pos("web"));
}

#[test]
fn alias_resolves_to_least_provider() {
    let mut m = PluginManager::new();
    register(&mut m, spigot("Zprov", &[], &[], &[], &["Economy"]));
    register(&mut m, spigot("Aprov", &[], &[], &[], &["economy"]));
    register(&mut m, spigot("Bank", &["ECONOMY"], &[], &[], &[]));
    assert_eq!(m.resolve_index("economy"), Some(1));
    assert_eq!(m.resolve_index("zprov"), Some(0));
    assert_eq!(m.resolve_index("nothing"), None);
    let (order, _, _) = order_of(&mut m);
    assert_eq!(order, vec!["aprov", "bank", "zprov"]);
}

#[test]
fn duplicate_normalized_name_rejected() {
    let mut m = PluginManager::new();
    assert_eq!(m.load_spigot_plugin("/srv/plugins/one.jar", spigot("Foo", &[], &[], &[], &[])), Ok(true));
    let mut second = spigot("  FOO ", &["x"], &[], &[], &[]);
    second.version = "2.0".to_string();
    assert_eq!(m.load_spigot_plugin("/srv/plugins/two.jar", second), Ok(false));
    assert_eq!(m.len(), 1);
    let kept = m.get("foo").unwrap();
    assert_eq!(kept.version, "1.0");
    assert_eq!(kept.path, "/srv/plugins/one.jar");
    assert!(kept.depends.is_empty());
}

#[test]
fn self_dependency_is_ignored() {
    let mut m = PluginManager::new();
    register(&mut m, spigot("Solo", &["solo"], &["SOLO"], &["solo"], &[]));
    let (order, cut, _) = order_of(&mut m);
    assert_eq!(order, vec!["solo"]);
    assert_eq!(cut, 1);
}

#[test]
fn empty_registry_gives_empty_order() {
    let mut m = PluginManager::new();
    let (order, cut, skipped) = order_of(&mut m);
    assert!(order.is_empty());
    assert_eq!(cut, 0);
    assert!(skipped.is_empty());
}
