//! The hand-over of a file named at launch: the path is captured once, when
//! the process starts, and given to the user interface once, when that
//! reports that it is ready.

use vstd::prelude::*;
use crate::path::{has_markdown_extension, is_markdown_name};

verus! {

/// The event under which the captured path is announced.
pub const OPEN_EVENT: &'static str = "file-open-from-cli";

/// The window that the announcement goes to.
pub const MAIN_WINDOW: &'static str = "main";

/// How long a host without a readiness signal of its own waits before it
/// takes the window to be ready, in milliseconds.
pub const READY_DELAY_MS: u64 = 500;

/// Where the hand-over stands.
#[derive(Debug, Clone, PartialEq, Eq)]
pub enum StartupBridge {
    /// No path was captured at launch, and none ever will be.
    Idle,
    /// A path was captured and the user interface has not reported ready.
    PathCaptured(String),
    /// The path was handed over. Nothing follows.
    Delivered,
}

/// A `StartupBridge` as a value of specifications.
pub enum BridgeModel {
    Idle,
    PathCaptured(Seq<char>),
    Delivered,
}

impl View for StartupBridge {
    type V = BridgeModel;

    open spec fn view(&self) -> BridgeModel {
        match self {
            StartupBridge::Idle => BridgeModel::Idle,
            StartupBridge::PathCaptured(path) => BridgeModel::PathCaptured(path@),
            StartupBridge::Delivered => BridgeModel::Delivered,
        }
    }
}

/// The path that a launch with the arguments `args` asks to open: the first
/// argument after the program's own name, if it ends like a markdown file.
pub open spec fn launch_path(args: Seq<Seq<char>>) -> Option<Seq<char>> {
    if args.len() > 1 && is_markdown_name(args[1]) {
        Some(args[1])
    } else {
        None
    }
}

impl BridgeModel {
    /// The bridge as a launch with the arguments `args` leaves it.
    pub open spec fn launched(args: Seq<Seq<char>>) -> BridgeModel {
        match launch_path(args) {
            Some(path) => BridgeModel::PathCaptured(path),
            None => BridgeModel::Idle,
        }
    }

    /// What is announced when the user interface reports ready in this state.
    pub open spec fn announced(self) -> Option<Seq<char>> {
        match self {
            BridgeModel::PathCaptured(path) => Some(path),
            _ => None,
        }
    }

    /// The state after the user interface has reported ready in this one.
    pub open spec fn after_ready(self) -> BridgeModel {
        match self {
            BridgeModel::PathCaptured(_) => BridgeModel::Delivered,
            other => other,
        }
    }

    /// The state after `signals` reports of readiness.
    pub open spec fn after_signals(self, signals: nat) -> BridgeModel
        decreases signals,
    {
        if signals == 0 {
            self
        } else {
            self.after_ready().after_signals((signals - 1) as nat)
        }
    }

    /// How many announcements `signals` reports of readiness cause.
    pub open spec fn announcements(self, signals: nat) -> nat
        decreases signals,
    {
        if signals == 0 {
            0
        } else {
            self.after_ready().announcements((signals - 1) as nat) + if self.announced() is Some {
                1nat
            } else {
                0nat
            }
        }
    }
}

impl StartupBridge {
    /// The bridge at process start. `args` are the arguments of the process,
    /// the program's own name first. An argument that does not end like a
    /// markdown file is passed over in silence, as is a missing one.
    pub fn launch(args: &Vec<String>) -> (bridge: StartupBridge)
        ensures
            bridge@ == BridgeModel::launched(args.deep_view()),
    {
        if args.len() > 1 && has_markdown_extension(args[1].as_str()) {
            StartupBridge::PathCaptured(args[1].clone())
        } else {
            StartupBridge::Idle
        }
    }

    /// Whether a path waits for the user interface.
    pub fn is_pending(&self) -> (pending: bool)
        ensures
            pending == (self@ is PathCaptured),
    {
        match self {
            StartupBridge::PathCaptured(_) => true,
            _ => false,
        }
    }

    /// The user interface reports that it is ready. Returns the path to
    /// announce under `OPEN_EVENT`, if one waits, and then never again.
    pub fn ui_ready(&mut self) -> (notice: Option<String>)
        ensures
            final(self)@ == old(self)@.after_ready(),
            match notice {
                Some(path) => old(self)@.announced() == Some(path@),
                None => old(self)@.announced() is None,
            },
    {
        let notice = match self {
            StartupBridge::PathCaptured(path) => Some(path.clone()),
            _ => None,
        };
        if notice.is_some() {
            *self = StartupBridge::Delivered;
        }
        notice
    }
}

/// However often the user interface reports ready, the path is announced
/// once if one was captured and readiness was reported at all, and never
/// otherwise.
pub proof fn lemma_announced_at_most_once(bridge: BridgeModel, signals: nat)
    ensures
        bridge.announcements(signals) == if bridge is PathCaptured && signals > 0 {
            1nat
        } else {
            0nat
        },
    decreases signals,
{
    if signals > 0 {
        lemma_announced_at_most_once(bridge.after_ready(), (signals - 1) as nat);
    }
}

/// A launch with a markdown file as its first argument has that path
/// announced once the user interface reports ready, and then never again; any
/// other launch has nothing announced, however often readiness is reported.
pub proof fn lemma_launch_is_announced_once(args: Seq<Seq<char>>, signals: nat)
    ensures
        BridgeModel::launched(args).announced() == launch_path(args),
        BridgeModel::launched(args).announcements(signals) == if launch_path(args) is Some
            && signals > 0 {
            1nat
        } else {
            0nat
        },
        BridgeModel::launched(args).after_ready().announced() is None,
{
    lemma_announced_at_most_once(BridgeModel::launched(args), signals);
}

/// Readiness never brings a path back: once the bridge is idle or has
/// delivered, it stays so, and a captured path is delivered by the first
/// report.
pub proof fn lemma_after_signals(bridge: BridgeModel, signals: nat)
    ensures
        bridge.after_signals(signals) == if bridge is PathCaptured && signals > 0 {
            BridgeModel::Delivered
        } else {
            bridge
        },
    decreases signals,
{
    if signals > 0 {
        lemma_after_signals(bridge.after_ready(), (signals - 1) as nat);
    }
}

} // verus!
