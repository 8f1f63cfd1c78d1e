use patchbukkit::config::{LoadOrder, PaperDependencies, PaperDependency, PaperPluginYml, SpigotPluginYml};
use patchbukkit::loading::LoadError;
use patchbukkit::registry::{PluginManager, PluginState, PluginType};

fn spigot(name: &str) -> SpigotPluginYml {
    SpigotPluginYml {
        name: name.to_string(),
        version: "1.0".to_string(),
        main: format!("org.example.{}", name),
        depend: None,
        softdepend: None,
        loadbefore: None,
        provides: None,
        libraries: None,
        paper_skip_libraries: None,
        commands: None,
    }
}

fn dep(load: LoadOrder, required: bool, join_classpath: bool) -> PaperDependency {
    PaperDependency { load, required, join_classpath }
}

fn paper(name: &str, bootstrap: Vec<(&str, PaperDependency)>, server: Vec<(&str, PaperDependency)>) -> PaperPluginYml {
    let section = |v: Vec<(&str, PaperDependency)>| {
        if v.is_empty() {
            None
        } else {
            Some(v.into_iter().map(|(n, d)| (n.to_string(), d)).collect::<Vec<_>>())
        }
    };
    PaperPluginYml {
        name: name.to_string(),
        version: "2.1".to_string(),
        main: format!("io.example.{}", name),
        description: None,
        author: None,
        authors: None,
        contributors: None,
        website: None,
        api_version: Some("1.21".to_string()),
        bootstrapper: None,
        loader: None,
        dependencies: Some(PaperDependencies { bootstrap: section(bootstrap), server: section(server) }),
        provides: None,
    }
}

#[test]
fn enable_failure_isolated_to_one_plugin() {
    let mut m = PluginManager::new();
    for n in ["X", "Y", "Z"] {
        assert_eq!(m.load_spigot_plugin(&format!("/p/{}.jar", n), spigot(n)), Ok(true));
    }
    let pass = m.instantiate_all_plugins();
    assert_eq!(pass.plan.order, vec!["x", "y", "z"]);
    let mut handle = 10u64;
    for req in &pass.requests {
        assert!(m.record_instantiation(&req.key, Some(handle)));
        handle += 1;
    }
    assert_eq!(m.state_of("y"), Some(PluginState::Loaded));
    let targets = m.enable_targets();
    assert_eq!(targets, vec!["x", "y", "z"]);
    let outcomes: Vec<(String, bool)> = targets.iter().map(|k| (k.clone(), k != "x")).collect();
    m.enable_all_plugins(&outcomes);
    assert_eq!(m.state_of("x"), Some(PluginState::Errored));
    assert_eq!(m.state_of("y"), Some(PluginState::Enabled));
    assert_eq!(m.state_of("z"), Some(PluginState::Enabled));
}

#[test]
fn enable_skips_plugins_without_instance() {
    let mut m = PluginManager::new();
    m.load_spigot_plugin("/p/a.jar", spigot("A")).unwrap();
    m.load_spigot_plugin("/p/b.jar", spigot("B")).unwrap();
    assert!(m.record_instantiation("a", Some(1)));
    assert!(m.record_instantiation("b", None));
    assert_eq!(m.state_of("b"), Some(PluginState::Errored));
    assert_eq!(m.enable_targets(), vec!["a"]);
    m.enable_all_plugins(&vec![("a".to_string(), true), ("b".to_string(), true)]);
    assert_eq!(m.state_of("a"), Some(PluginState::Enabled));
    assert_eq!(m.state_of("b"), Some(PluginState::Errored));
    assert!(!m.record_instantiation("missing", Some(3)));
}

#[test]
fn enable_without_reported_outcome_keeps_state() {
    let mut m = PluginManager::new();
    m.load_spigot_plugin("/p/a.jar", spigot("A")).unwrap();
    m.record_instantiation("a", Some(1));
    m.enable_all_plugins(&vec![("other".to_string(), false)]);
    assert_eq!(m.state_of("a"), Some(PluginState::Loaded));
}

#[test]
fn disable_ends_disabled_even_after_failure() {
    let mut m = PluginManager::new();
    m.load_spigot_plugin("/p/a.jar", spigot("A")).unwrap();
    m.load_spigot_plugin("/p/b.jar", spigot("B")).unwrap();
    m.load_spigot_plugin("/p/c.jar", spigot("C")).unwrap();
    m.record_instantiation("a", Some(1));
    m.record_instantiation("b", Some(2));
    m.enable_all_plugins(&vec![("a".to_string(), true), ("b".to_string(), false)]);
    m.disable_all_plugins();
    assert_eq!(m.state_of("a"), Some(PluginState::Disabled));
    assert_eq!(m.state_of("b"), Some(PluginState::Disabled));
    assert_eq!(m.state_of("c"), Some(PluginState::Registered));
}

#[test]
fn transition_and_unload() {
    let mut m = PluginManager::new();
    m.load_spigot_plugin("/p/a.jar", spigot("A")).unwrap();
    assert!(m.transition("a", PluginState::Loaded));
    assert_eq!(m.state_of("a"), Some(PluginState::Loaded));
    assert!(!m.transition("b", PluginState::Loaded));
    m.unload_all_plugins();
    assert_eq!(m.len(), 0);
    assert!(m.get("a").is_none());
}

#[test]
fn paper_plugin_lists_and_classpath() {
    let mut m = PluginManager::new();
    m.load_spigot_plugin("/srv/plugins/vault.jar", spigot("Vault")).unwrap();
    m.load_spigot_plugin("/srv/plugins/lib.jar", spigot("Lib")).unwrap();
    let p = paper(
        "Shop",
        vec![("Vault", dep(LoadOrder::After, true, true))],
        vec![
            ("Lib", dep(LoadOrder::Omit, false, true)),
            ("Ghost", dep(LoadOrder::Before, false, true)),
            ("vault", dep(LoadOrder::Omit, true, false)),
        ],
    );
    let mut legacy = spigot("Shop");
    legacy.depend = Some(vec![" Extra ".to_string()]);
    legacy.libraries = Some(vec![" com.a:b:1 ".to_string(), "com.a:b:1".to_string(), "  ".to_string(), "org.c:d:2".to_string()]);
    assert_eq!(m.load_paper_plugin("/srv/plugins/shop.jar", p, Some(legacy)), Ok(true));
    let shop = m.get("shop").unwrap();
    assert_eq!(shop.depends, vec!["vault", "extra"]);
    assert_eq!(shop.soft_depends, vec!["lib", "ghost"]);
    assert_eq!(shop.load_before, vec!["vault"]);
    assert_eq!(shop.load_after, vec!["ghost"]);
    assert_eq!(shop.classpath_deps, vec!["vault", "lib", "ghost"]);
    assert_eq!(shop.libraries, vec!["com.a:b:1", "org.c:d:2"]);
    assert_eq!(shop.data_folder, "/srv/plugins/data");
    assert_eq!(shop.main_class, "io.example.Shop");
    assert!(matches!(shop.plugin_type, PluginType::Paper(_)));
    assert_eq!(m.classpath_string_for(shop), "/srv/plugins/vault.jar;/srv/plugins/lib.jar");
    assert_eq!(m.library_string_for(shop), "com.a:b:1\norg.c:d:2");
}

#[test]
fn skipped_libraries_are_dropped() {
    let mut m = PluginManager::new();
    let mut c = spigot("Lean");
    c.libraries = Some(vec!["x:y:1".to_string()]);
    c.paper_skip_libraries = Some(true);
    m.load_spigot_plugin("/p/lean.jar", c).unwrap();
    let p = m.get("lean").unwrap();
    assert!(p.libraries.is_empty());
    assert_eq!(m.library_string_for(p), "");
    assert_eq!(m.classpath_string_for(p), "");
}

#[test]
fn instantiate_request_carries_paths() {
    let mut m = PluginManager::new();
    m.load_spigot_plugin("/srv/plugins/core.jar", spigot("Core")).unwrap();
    let mut c = spigot("Addon");
    c.depend = Some(vec!["core".to_string()]);
    c.libraries = Some(vec!["a:b:1".to_string(), "c:d:2".to_string()]);
    m.load_spigot_plugin("/srv/plugins/addon.jar", c).unwrap();
    let pass = m.instantiate_all_plugins();
    assert_eq!(pass.requests.len(), 2);
    assert_eq!(pass.requests[0].key, "core");
    assert_eq!(pass.requests[1].key, "addon");
    assert_eq!(pass.requests[1].path, "/srv/plugins/addon.jar");
    assert_eq!(pass.requests[1].main_class, "org.example.Addon");
    assert_eq!(pass.requests[1].classpath, "");
    assert_eq!(pass.requests[1].libraries, "a:b:1\nc:d:2");
}

#[test]
fn archive_without_parent_folder_is_refused() {
    let mut m = PluginManager::new();
    assert_eq!(m.load_spigot_plugin("/", spigot("Root")), Err(LoadError::NoParentFolder));
    assert_eq!(m.load_paper_plugin("", paper("Root", vec![], vec![]), None), Err(LoadError::NoParentFolder));
    assert_eq!(m.len(), 0);
}

#[test]
fn dependency_marked_before_loads_first() {
    let mut m = PluginManager::new();
    let p = paper("Addon", vec![("Core", dep(LoadOrder::Before, true, false))], vec![]);
    assert_eq!(m.load_paper_plugin("/srv/plugins/addon.jar", p, None), Ok(true));
    m.load_spigot_plugin("/srv/plugins/core.jar", spigot("Core")).unwrap();
    let addon = m.get("addon").unwrap();
    assert_eq!(addon.load_after, vec!["core"]);
    assert!(addon.load_before.is_empty());
    let plan = m.compute_load_order();
    assert_eq!(plan.order, vec!["core", "addon"]);
    assert_eq!(plan.cycle_start, 2);
}

#[test]
fn dependency_marked_after_contradicts_its_dependency_edge() {
    let mut m = PluginManager::new();
    let p = paper("Base", vec![], vec![("Ext", dep(LoadOrder::After, false, false))]);
    assert_eq!(m.load_paper_plugin("/srv/plugins/base.jar", p, None), Ok(true));
    m.load_spigot_plugin("/srv/plugins/ext.jar", spigot("Ext")).unwrap();
    let base = m.get("base").unwrap();
    assert_eq!(base.load_before, vec!["ext"]);
    assert_eq!(base.soft_depends, vec!["ext"]);
    let plan = m.compute_load_order();
    assert_eq!(plan.order, vec!["base", "ext"]);
    assert_eq!(plan.cycle_start, 0);
}
