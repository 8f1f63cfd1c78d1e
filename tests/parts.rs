use patchbukkit::actor::{
    dispatch_handled, event_cancelled, tab_complete_suggestions, JvmWorker, LoadPluginResult,
    ParsedDescriptors, Refusal, RequestKind, WorkerPhase,
};
use patchbukkit::bridge::{command_permission, command_registrations, consume_words};
use patchbukkit::config::{
    default_true, CommandSpec, DepKind, LoadOrder, PaperDependencies, PaperDependency, PaperPluginYml,
    SpigotPluginYml,
};
use patchbukkit::mailbox::{Mailbox, ResponseSlot};
use patchbukkit::paths::{directories_for, resource_needs_write};
use patchbukkit::registry::PluginState;
use patchbukkit::text::{
    contains_str, dedupe_names, dedupe_strings, join_with, key_less, normalize_name, normalize_names, same_str,
};

fn strings(v: &[&str]) -> Vec<String> {
    v.iter().map(|s| s.to_string()).collect()
}

fn spigot(name: &str) -> SpigotPluginYml {
    SpigotPluginYml {
        name: name.to_string(),
        version: "1.0".to_string(),
        main: "org.example.Main".to_string(),
        depend: None,
        softdepend: None,
        loadbefore: None,
        provides: None,
        libraries: None,
        paper_skip_libraries: None,
        commands: None,
    }
}

fn dep(load: LoadOrder, required: bool) -> PaperDependency {
    PaperDependency { load, required, join_classpath: false }
}

fn paper_yml() -> PaperPluginYml {
    PaperPluginYml {
        name: "Shop".to_string(),
        version: "1".to_string(),
        main: "io.Shop".to_string(),
        description: None,
        author: Some("Ann".to_string()),
        authors: Some(strings(&["Bo", "Cy"])),
        contributors: None,
        website: None,
        api_version: None,
        bootstrapper: Some("io.Boot".to_string()),
        loader: None,
        dependencies: Some(PaperDependencies {
            bootstrap: Some(vec![
                ("Alpha".to_string(), dep(LoadOrder::Before, true)),
                ("Beta".to_string(), dep(LoadOrder::After, false)),
            ]),
            server: Some(vec![
                ("Gamma".to_string(), dep(LoadOrder::Before, false)),
                ("Delta".to_string(), dep(LoadOrder::Omit, true)),
            ]),
        }),
        provides: None,
    }
}

#[test]
fn normalize_trims_and_lowercases() {
    assert_eq!(normalize_name("  WorldEdit \t"), "worldedit");
    assert_eq!(normalize_name("ÄBC"), "äbc");
    assert_eq!(normalize_name(""), "");
}

#[test]
fn normalize_names_drops_empty() {
    assert_eq!(normalize_names(Some(strings(&[" A ", "", "   ", "b"]))), vec!["a", "b"]);
    assert!(normalize_names(None).is_empty());
}

#[test]
fn dedupe_keeps_first_occurrence() {
    assert_eq!(dedupe_names(strings(&["b", "a", "b", "c", "a"])), vec!["b", "a", "c"]);
    assert_eq!(dedupe_strings(strings(&[" X:y ", "X:y", "", "x:y"])), vec!["X:y", "x:y"]);
}

#[test]
fn string_helpers() {
    assert!(key_less("abc", "abd"));
    assert!(key_less("ab", "abc"));
    assert!(!key_less("b", "abc"));
    assert!(!key_less("same", "same"));
    assert!(same_str("é", "é"));
    assert!(!same_str("a", "ab"));
    assert!(contains_str(&strings(&["x", "y"]), "y"));
    assert!(!contains_str(&strings(&["x", "y"]), "z"));
    assert_eq!(join_with(&strings(&["a", "b", "c"]), ";"), "a;b;c");
    assert_eq!(join_with(&strings(&["solo"]), ";"), "solo");
    assert_eq!(join_with(&Vec::new(), ";"), "");
}

#[test]
fn paper_descriptor_queries() {
    let p = paper_yml();
    assert_eq!(p.get_all_authors(), vec!["Ann", "Bo", "Cy"]);
    assert!(p.has_bootstrapper());
    assert!(!p.has_loader());
    assert!(p.requires_plugin("Alpha"));
    assert!(p.requires_plugin("Delta"));
    assert!(!p.requires_plugin("Beta"));
    assert!(!p.requires_plugin("Nope"));
    assert_eq!(p.get_load_before_deps(), vec!["Alpha", "Gamma"]);
    assert_eq!(p.get_load_after_deps(), vec!["Beta"]);
    let d = p.get_dependencies();
    assert_eq!(d.get_bootstrap_deps().len(), 2);
    assert_eq!(d.get_server_deps()[1].0, "Delta");
    assert_eq!(d.get_required_bootstrap_deps(), vec!["Alpha"]);
    assert_eq!(d.get_required_server_deps(), vec!["Delta"]);
    assert!(d.has_bootstrap_dep("Beta"));
    assert!(!d.has_bootstrap_dep("Gamma"));
    assert!(d.has_server_dep("Gamma"));
    let none = PaperDependencies { bootstrap: None, server: None };
    assert!(none.get_bootstrap_deps().is_empty());
    assert!(!none.has_server_dep("x"));
    let _ = DepKind::Required;
}

#[test]
fn dependency_defaults() {
    let d = PaperDependency::default();
    assert_eq!(d.load, LoadOrder::Omit);
    assert!(d.required);
    assert!(d.join_classpath);
    assert!(default_true());
}

#[test]
fn worker_phases() {
    let mut w = JvmWorker::new();
    assert_eq!(w.phase, WorkerPhase::Uninitialized);
    assert_eq!(w.accepts(RequestKind::LoadPlugin), Err(Refusal::NotInitialized));
    assert_eq!(w.accepts(RequestKind::Initialize), Ok(()));
    w.finish_initialize(false);
    assert_eq!(w.phase, WorkerPhase::Uninitialized);
    w.finish_initialize(true);
    assert_eq!(w.phase, WorkerPhase::Ready);
    assert_eq!(w.accepts(RequestKind::Initialize), Err(Refusal::AlreadyInitialized));
    assert_eq!(w.accepts(RequestKind::TriggerCommand), Ok(()));
    w.shutdown();
    assert_eq!(w.phase, WorkerPhase::Stopped);
    assert_eq!(w.accepts(RequestKind::GetCommandTabComplete), Err(Refusal::ShutDown));
    w.finish_initialize(true);
    assert_eq!(w.phase, WorkerPhase::Stopped);
}

#[test]
fn worker_load_plugin_outcomes() {
    let mut w = JvmWorker::new();
    w.finish_initialize(true);
    assert!(matches!(
        w.load_plugin("/p/a.jar", ParsedDescriptors::Missing),
        LoadPluginResult::NoConfigurationFile
    ));
    match w.load_plugin("/p/a.jar", ParsedDescriptors::Unreadable("bad zip".to_string())) {
        LoadPluginResult::FailedToReadConfigurationFile(e) => assert_eq!(e, "bad zip"),
        _ => panic!("wrong outcome"),
    }
    match w.load_plugin("/p/a.jar", ParsedDescriptors::Paper(Ok(paper_yml()), Some(Err("x".to_string())))) {
        LoadPluginResult::FailedToLoadPaperPlugin(e) => assert_eq!(e, "x"),
        _ => panic!("wrong outcome"),
    }
    match w.load_plugin("/p/a.jar", ParsedDescriptors::Spigot(Err("y".to_string()))) {
        LoadPluginResult::FailedToLoadSpigotPlugin(e) => assert_eq!(e, "y"),
        _ => panic!("wrong outcome"),
    }
    assert_eq!(w.plugin_manager.len(), 0);
    assert!(matches!(
        w.load_plugin("/p/shop.jar", ParsedDescriptors::Paper(Ok(paper_yml()), None)),
        LoadPluginResult::SuccessfullyLoadedPaper
    ));
    assert!(matches!(
        w.load_plugin("/p/b.jar", ParsedDescriptors::Spigot(Ok(spigot("B")))),
        LoadPluginResult::SuccessfullyLoadedSpigot
    ));
    match w.load_plugin("/", ParsedDescriptors::Spigot(Ok(spigot("C")))) {
        LoadPluginResult::FailedToLoadSpigotPlugin(e) => assert_eq!(e, "the plugin archive has no parent folder"),
        _ => panic!("wrong outcome"),
    }
    assert_eq!(w.plugin_manager.len(), 2);
    assert_eq!(w.plugin_manager.state_of("shop"), Some(PluginState::Registered));
}

#[test]
fn failed_calls_degrade() {
    assert!(dispatch_handled(Some(true)));
    assert!(!dispatch_handled(Some(false)));
    assert!(!dispatch_handled(None));
    assert_eq!(tab_complete_suggestions(Some(strings(&["b", "a"]))), vec!["b", "a"]);
    assert!(tab_complete_suggestions(None).is_empty());
    assert!(event_cancelled(Some(true)));
    assert!(!event_cancelled(None));
}

#[test]
fn mailbox_first_in_first_out() {
    let mut m: Mailbox<u32> = Mailbox::new(3);
    for i in 1..=3u32 {
        assert_eq!(m.try_send(i), Ok(()));
    }
    assert!(m.is_full());
    assert_eq!(m.try_send(4), Err(4));
    assert_eq!(m.recv(), Some(1));
    assert_eq!(m.try_send(5), Ok(()));
    assert_eq!(m.recv(), Some(2));
    assert_eq!(m.recv(), Some(3));
    assert_eq!(m.recv(), Some(5));
    assert_eq!(m.recv(), None);
    assert_eq!(m.len(), 0);
}

#[test]
fn response_slot_is_single_use() {
    let mut s: ResponseSlot<String> = ResponseSlot::new();
    assert_eq!(s.take(), None);
    assert_eq!(s.resolve("first".to_string()), Ok(()));
    assert_eq!(s.resolve("second".to_string()), Err("second".to_string()));
    assert_eq!(s.take(), Some("first".to_string()));
    assert_eq!(s.take(), None);
}

#[test]
fn command_registration_plan() {
    let mut c = spigot("Home");
    c.commands = Some(vec![
        (
            "home".to_string(),
            CommandSpec { description: Some("Go home".to_string()), usage: None, permission: None, aliases: None },
        ),
        ("sethome".to_string(), CommandSpec { description: None, usage: None, permission: None, aliases: None }),
    ]);
    let mut w = JvmWorker::new();
    w.plugin_manager.load_spigot_plugin("/p/home.jar", c).unwrap();
    let p = w.plugin_manager.get("home").unwrap();
    let regs = command_registrations(p);
    assert_eq!(regs.len(), 2);
    assert_eq!(regs[0].name, "home");
    assert_eq!(regs[0].description, "Go home");
    assert_eq!(regs[0].permission, "patchbukkit:home");
    assert_eq!(regs[1].description, "");
    assert_eq!(command_permission("spawn"), "patchbukkit:spawn");
}

#[test]
fn words_joined_by_spaces() {
    assert_eq!(consume_words(&strings(&["give", "me", "5"])), Some("give me 5".to_string()));
    assert_eq!(consume_words(&Vec::new()), None);
}

#[test]
fn host_directories() {
    let d = directories_for("/srv/data");
    assert_eq!(d.base, "/srv/data");
    assert_eq!(d.plugins, "/srv/data/patchbukkit-plugins");
    assert_eq!(d.plugin_updates, "/srv/data/patchbukkit-plugins/update");
    assert_eq!(d.j4rs, "/srv/data/j4rs");
    assert_eq!(d.jassets, "/srv/data/j4rs/jassets");
}

#[test]
fn resource_written_only_when_changed() {
    let data = vec![1u8, 2, 3];
    assert!(resource_needs_write(None, &data));
    assert!(resource_needs_write(Some(&vec![1u8, 2]), &data));
    assert!(resource_needs_write(Some(&vec![1u8, 2, 4]), &data));
    assert!(!resource_needs_write(Some(&vec![1u8, 2, 3]), &data));
}

#[test]
fn unparsable_primary_descriptor_fails_archive() {
    let mut w = JvmWorker::new();
    w.finish_initialize(true);
    match w.load_plugin("/p/a.jar", ParsedDescriptors::Paper(Err("bad yaml".to_string()), None)) {
        LoadPluginResult::FailedToLoadPaperPlugin(e) => assert_eq!(e, "bad yaml"),
        _ => panic!("wrong outcome"),
    }
    match w.load_plugin("", ParsedDescriptors::Paper(Ok(paper_yml()), Some(Ok(spigot("Shop"))))) {
        LoadPluginResult::FailedToLoadPaperPlugin(e) => assert_eq!(e, "the plugin archive has no parent folder"),
        _ => panic!("wrong outcome"),
    }
    assert_eq!(w.plugin_manager.len(), 0);
}

#[test]
fn descriptor_without_dependencies() {
    let mut p = paper_yml();
    p.dependencies = None;
    p.author = None;
    p.authors = None;
    let d = p.get_dependencies();
    assert!(d.bootstrap.is_none());
    assert!(d.server.is_none());
    assert!(!p.requires_plugin("Alpha"));
    assert!(p.get_load_before_deps().is_empty());
    assert!(p.get_all_authors().is_empty());
}
