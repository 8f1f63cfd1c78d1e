//! The worker that alone holds the runtime: which requests it takes in
//! each phase, what loading an archive's descriptors does, and how failed
//! boundary calls degrade.

use vstd::prelude::*;

use crate::config::{PaperPluginYml, SpigotPluginYml};
use crate::loading::{data_folder_of, paper_loaded, spigot_loaded, LoadError};
use crate::text::normalized;
use crate::registry::PluginManager;

verus! {

/// The outcome of loading one plugin archive.
#[derive(Debug)]
pub enum LoadPluginResult {
    SuccessfullyLoadedSpigot,
    SuccessfullyLoadedPaper,
    FailedToLoadSpigotPlugin(String),
    FailedToLoadPaperPlugin(String),
    FailedToReadConfigurationFile(String),
    NoConfigurationFile,
}

/// What the loader found in an archive, each descriptor parsed or with the
/// parser's message.
pub enum ParsedDescriptors {
    /// The archive could not be read.
    Unreadable(String),
    /// The archive holds neither descriptor.
    Missing,
    /// A primary descriptor, with the legacy one if the archive holds it too.
    Paper(Result<PaperPluginYml, String>, Option<Result<SpigotPluginYml, String>>),
    /// A legacy descriptor alone.
    Spigot(Result<SpigotPluginYml, String>),
}

impl ParsedDescriptors {
    /// The descriptors that parsed name each dependency and command at most
    /// once per section.
    pub open spec fn wf(&self) -> bool {
        match self {
            ParsedDescriptors::Paper(Ok(c), s) => c.wf() && match s {
                Some(Ok(x)) => x.wf(),
                _ => true,
            },
            ParsedDescriptors::Spigot(Ok(c)) => c.wf(),
            _ => true,
        }
    }
}

/// Each kind of message the worker takes.
#[derive(Debug, Clone, Copy, PartialEq, Eq, Structural)]
pub enum RequestKind {
    Initialize,
    LoadPlugin,
    InstantiateAllPlugins,
    EnableAllPlugins,
    DisableAllPlugins,
    Shutdown,
    FireEvent,
    TriggerCommand,
    GetCommandTabComplete,
}

/// Where the worker stands.
#[derive(Debug, Clone, Copy, PartialEq, Eq, Structural)]
pub enum WorkerPhase {
    /// The runtime is not attached yet.
    Uninitialized,
    /// The runtime is attached; every request but `Initialize` is taken.
    Ready,
    /// Shut down: nothing more is taken.
    Stopped,
}

/// Why the worker turned a request away.
#[derive(Debug, Clone, Copy, PartialEq, Eq, Structural)]
pub enum Refusal {
    /// `Initialize` came a second time.
    AlreadyInitialized,
    /// Another request came before `Initialize` succeeded.
    NotInitialized,
    /// The worker was shut down.
    ShutDown,
}

/// Whether a request of `kind` is taken in `phase`.
pub open spec fn admission(phase: WorkerPhase, kind: RequestKind) -> Result<(), Refusal> {
    match phase {
        WorkerPhase::Stopped => Err(Refusal::ShutDown),
        WorkerPhase::Uninitialized => if kind == RequestKind::Initialize {
            Ok(())
        } else {
            Err(Refusal::NotInitialized)
        },
        WorkerPhase::Ready => if kind == RequestKind::Initialize {
            Err(Refusal::AlreadyInitialized)
        } else {
            Ok(())
        },
    }
}

/// The bridge to the runtime's event manager; it holds no state of its own.
pub struct EventManager {}

impl EventManager {
    pub fn new() -> (r: Self) {
        EventManager {}
    }
}

/// The worker's state: its phase and the registry it alone changes.
pub struct JvmWorker {
    pub phase: WorkerPhase,
    pub plugin_manager: PluginManager,
    pub event_manager: EventManager,
}

/// What registering a plugin named `name` from the archive at `path` gives:
/// whether it was added, or why it could not be.
pub open spec fn registration(m: PluginManager, path: Seq<char>, name: Seq<char>) -> Result<bool, LoadError> {
    if data_folder_of(path) is Some {
        Ok(!m.has_key(normalized(name)))
    } else {
        Err(LoadError::NoParentFolder)
    }
}

/// The message of a registration that failed.
pub fn load_error_message(e: LoadError) -> (r: String)
    ensures
        r@ == "the plugin archive has no parent folder"@,
{
    match e {
        LoadError::NoParentFolder => String::from_str("the plugin archive has no parent folder"),
    }
}

/// What a dispatch comes to: whether a plugin handled the command; a
/// failed call counts as not handled.
pub fn dispatch_handled(outcome: Option<bool>) -> (r: bool)
    ensures
        r == (outcome == Some(true)),
{
    match outcome {
        Some(handled) => handled,
        None => false,
    }
}

/// What a completion query comes to: the runtime's suggestions, in its
/// order; a failed call gives none.
pub fn tab_complete_suggestions(outcome: Option<Vec<String>>) -> (r: Vec<String>)
    ensures
        match outcome {
            Some(v) => r@ == v@,
            None => r@.len() == 0,
        },
{
    match outcome {
        Some(v) => v,
        None => Vec::new(),
    }
}

/// What firing an event comes to: whether a listener cancelled it; a failed
/// call leaves it not cancelled.
pub fn event_cancelled(outcome: Option<bool>) -> (r: bool)
    ensures
        r == (outcome == Some(true)),
{
    match outcome {
        Some(cancelled) => cancelled,
        None => false,
    }
}

impl JvmWorker {
    /// A worker with an empty registry, waiting for `Initialize`.
    pub fn new() -> (r: Self)
        ensures
            r.phase == WorkerPhase::Uninitialized,
            r.plugin_manager.wf(),
            r.plugin_manager.keys.len() == 0,
    {
        JvmWorker {
            phase: WorkerPhase::Uninitialized,
            plugin_manager: PluginManager::new(),
            event_manager: EventManager::new(),
        }
    }

    /// Whether the worker takes a request of `kind` now.
    pub fn accepts(&self, kind: RequestKind) -> (r: Result<(), Refusal>)
        ensures
            r == admission(self.phase, kind),
    {
        match self.phase {
            WorkerPhase::Stopped => Err(Refusal::ShutDown),
            WorkerPhase::Uninitialized => match kind {
                RequestKind::Initialize => Ok(()),
                _ => Err(Refusal::NotInitialized),
            },
            WorkerPhase::Ready => match kind {
                RequestKind::Initialize => Err(Refusal::AlreadyInitialized),
                _ => Ok(()),
            },
        }
    }

    /// Records how attaching the runtime went: on success the worker is
    /// ready; on failure it still waits for `Initialize`. Only a waiting
    /// worker changes.
    pub fn finish_initialize(&mut self, attached: bool)
        ensures
            final(self).phase == if old(self).phase == WorkerPhase::Uninitialized && attached {
                WorkerPhase::Ready
            } else {
                old(self).phase
            },
            final(self).plugin_manager == old(self).plugin_manager,
    {
        if attached {
            match self.phase {
                WorkerPhase::Uninitialized => {
                    self.phase = WorkerPhase::Ready;
                },
                _ => {},
            }
        }
    }

    /// Empties the registry, whatever the plugins' states, and stops.
    pub fn shutdown(&mut self)
        requires
            old(self).plugin_manager.wf(),
        ensures
            final(self).phase == WorkerPhase::Stopped,
            final(self).plugin_manager.wf(),
            final(self).plugin_manager.keys.len() == 0,
            final(self).plugin_manager.plugins.len() == 0,
    {
        self.plugin_manager.unload_all_plugins();
        self.phase = WorkerPhase::Stopped;
    }

    /// Registers what the loader found in the archive at `jar_path`. A
    /// descriptor that did not parse fails the archive and leaves the
    /// registry as it was.
    pub fn load_plugin(&mut self, jar_path: &str, parsed: ParsedDescriptors) -> (r: LoadPluginResult)
        requires
            old(self).plugin_manager.wf(),
            parsed.wf(),
        ensures
            final(self).plugin_manager.wf(),
            final(self).phase == old(self).phase,
            match parsed {
                ParsedDescriptors::Unreadable(e) => r == LoadPluginResult::FailedToReadConfigurationFile(e)
                    && final(self).plugin_manager == old(self).plugin_manager,
                ParsedDescriptors::Missing => r == LoadPluginResult::NoConfigurationFile
                    && final(self).plugin_manager == old(self).plugin_manager,
                ParsedDescriptors::Paper(Err(e), _) => r == LoadPluginResult::FailedToLoadPaperPlugin(e)
                    && final(self).plugin_manager == old(self).plugin_manager,
                ParsedDescriptors::Paper(Ok(_), Some(Err(e))) => r == LoadPluginResult::FailedToLoadPaperPlugin(
                    e,
                ) && final(self).plugin_manager == old(self).plugin_manager,
                ParsedDescriptors::Paper(Ok(c), s) => {
                    let res = registration(old(self).plugin_manager, jar_path@, c.name@);
                    &&& paper_loaded(
                        old(self).plugin_manager,
                        final(self).plugin_manager,
                        jar_path@,
                        c,
                        match s {
                            Some(Ok(x)) => Some(x),
                            _ => None,
                        },
                        res,
                    )
                    &&& res is Ok ==> r is SuccessfullyLoadedPaper
                    &&& res is Err ==> r is FailedToLoadPaperPlugin
                },
                ParsedDescriptors::Spigot(Err(e)) => r == LoadPluginResult::FailedToLoadSpigotPlugin(e)
                    && final(self).plugin_manager == old(self).plugin_manager,
                ParsedDescriptors::Spigot(Ok(c)) => {
                    let res = registration(old(self).plugin_manager, jar_path@, c.name@);
                    &&& spigot_loaded(old(self).plugin_manager, final(self).plugin_manager, jar_path@, c, res)
                    &&& res is Ok ==> r is SuccessfullyLoadedSpigot
                    &&& res is Err ==> r is FailedToLoadSpigotPlugin
                },
            },
    {
        match parsed {
            ParsedDescriptors::Unreadable(e) => LoadPluginResult::FailedToReadConfigurationFile(e),
            ParsedDescriptors::Missing => LoadPluginResult::NoConfigurationFile,
            ParsedDescriptors::Paper(Err(e), _) => LoadPluginResult::FailedToLoadPaperPlugin(e),
            ParsedDescriptors::Paper(Ok(_), Some(Err(e))) => LoadPluginResult::FailedToLoadPaperPlugin(e),
            ParsedDescriptors::Paper(Ok(c), s) => {
                let spigot = match s {
                    Some(Ok(x)) => Some(x),
                    _ => None,
                };
                let res = self.plugin_manager.load_paper_plugin(jar_path, c, spigot);
                match res {
                    Ok(_) => LoadPluginResult::SuccessfullyLoadedPaper,
                    Err(e) => LoadPluginResult::FailedToLoadPaperPlugin(load_error_message(e)),
                }
            },
            ParsedDescriptors::Spigot(Err(e)) => LoadPluginResult::FailedToLoadSpigotPlugin(e),
            ParsedDescriptors::Spigot(Ok(c)) => {
                let res = self.plugin_manager.load_spigot_plugin(jar_path, c);
                match res {
                    Ok(_) => LoadPluginResult::SuccessfullyLoadedSpigot,
                    Err(e) => LoadPluginResult::FailedToLoadSpigotPlugin(load_error_message(e)),
                }
            },
        }
    }
}

} // verus!
