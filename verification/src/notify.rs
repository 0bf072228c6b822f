//! Telling an actor's monitors and its supervisor what happened to it.

use crate::actor::{ActorCell, ActorId};
use crate::tree::{SupervisionTree, TreeView};
use vstd::prelude::*;

verus! {

/// How far a notification has come.
#[derive(Debug, Clone, Copy, PartialEq, Eq, Structural)]
pub enum NotifyStage {
    /// Nobody was told yet.
    Begin,
    /// The monitor `at` was sent the event.
    AwaitMonitor { at: usize },
    /// The supervisor was sent the event.
    AwaitSupervisor,
    /// Nothing is left to do.
    Finished,
}

/// A notification under way: of these monitors and then the supervisor.
#[derive(Debug)]
pub struct Notification {
    /// Who is told without the event's data.
    pub monitors: Vec<ActorCell>,
    /// Who is told last.
    pub supervisor: Option<ActorCell>,
    /// What comes next.
    pub stage: NotifyStage,
}

/// What the caller does next on behalf of a notification.
#[derive(Debug, Clone, Copy, PartialEq, Eq, Structural)]
pub enum NotifyCommand {
    /// Send a copy of the event without its data.
    SendWithoutData { to: ActorCell },
    /// Send the event itself.
    Send { to: ActorCell },
    /// The notification is over.
    Finished,
    /// The reply was to no command that is outstanding; nothing has changed.
    OutOfTurn,
}

/// What the caller has to say before the next step.
#[derive(Debug, Clone, Copy, PartialEq, Eq, Structural)]
pub enum NotifyReply {
    /// Nothing: at the first step.
    Ready,
    /// Whether the event could be sent.
    Sent(bool),
}

/// Who is told, and how far that has come.
#[verifier::ext_equal]
pub struct NotificationView {
    pub monitors: Seq<ActorCell>,
    pub supervisor: Option<ActorCell>,
    pub stage: NotifyStage,
}

impl View for Notification {
    type V = NotificationView;

    open spec fn view(&self) -> NotificationView {
        NotificationView {
            monitors: self.monitors@,
            supervisor: self.supervisor,
            stage: self.stage,
        }
    }
}

impl NotificationView {
    /// Whether the stage is one of this notification.
    pub open spec fn fits(self) -> bool {
        self.stage matches NotifyStage::AwaitMonitor { at } ==> at < self.monitors.len()
    }

    /// The same notification at another stage.
    pub open spec fn at(self, stage: NotifyStage) -> NotificationView {
        NotificationView { stage, ..self }
    }

    /// What follows when the monitor `at` is the next to be told: the monitors first, the
    /// supervisor last.
    pub open spec fn to_tell(self, at: int) -> (NotificationView, NotifyCommand) {
        if at < self.monitors.len() {
            (
                self.at(NotifyStage::AwaitMonitor { at: at as usize }),
                NotifyCommand::SendWithoutData { to: self.monitors[at] },
            )
        } else {
            match self.supervisor {
                Some(parent) => (
                    self.at(NotifyStage::AwaitSupervisor),
                    NotifyCommand::Send { to: parent },
                ),
                None => (self.at(NotifyStage::Finished), NotifyCommand::Finished),
            }
        }
    }

    /// The notification, the registered monitors and the command after a step: a monitor that
    /// could not be sent the event is no longer registered.
    pub open spec fn stepped(self, registered: Map<ActorId, ActorCell>, reply: NotifyReply) -> (
        NotificationView,
        Map<ActorId, ActorCell>,
        NotifyCommand,
    ) {
        match (self.stage, reply) {
            (NotifyStage::Begin, NotifyReply::Ready) => {
                let (next, command) = self.to_tell(0);
                (next, registered, command)
            },
            (NotifyStage::AwaitMonitor { at }, NotifyReply::Sent(sent)) => {
                let (next, command) = self.to_tell(at + 1);
                let left = if sent {
                    registered
                } else {
                    registered.remove(self.monitors[at as int].id)
                };
                (next, left, command)
            },
            (NotifyStage::AwaitSupervisor, NotifyReply::Sent(_)) => (
                self.at(NotifyStage::Finished),
                registered,
                NotifyCommand::Finished,
            ),
            _ => (self, registered, NotifyCommand::OutOfTurn),
        }
    }
}

impl SupervisionTree {
    /// Send a notification to the supervisor, and to the monitors before it.
    ///
    /// Who is told is settled here; the order of the monitors is not.
    pub fn notify_supervisor(&self) -> (notification: Notification)
        requires
            self.wf(),
        ensures
            notification@.monitors.no_duplicates(),
            forall|cell: ActorCell| #[trigger]
                notification@.monitors.contains(cell) <==> self@.monitors.contains_key(cell.id),
            notification@.supervisor == self@.supervisor,
            notification@.stage == NotifyStage::Begin,
    {
        Notification {
            monitors: self.monitor_cells(),
            supervisor: self.try_get_supervisor(),
            stage: NotifyStage::Begin,
        }
    }
}

impl Notification {
    /// Takes the notification one step on: `reply` says whether the last command succeeded, and
    /// the next one comes back. The first step is `Ready`. A monitor that cannot be reached is
    /// removed from the tree; that the supervisor cannot be reached is of no consequence.
    pub fn step(&mut self, tree: &mut SupervisionTree, reply: NotifyReply) -> (command:
        NotifyCommand)
        requires
            old(self)@.fits(),
            old(tree).wf(),
        ensures
            final(tree).wf(),
            final(self)@.fits(),
            (final(self)@, final(tree)@.monitors, command) == old(self)@.stepped(
                old(tree)@.monitors,
                reply,
            ),
            final(tree)@ == (TreeView { monitors: final(tree)@.monitors, ..old(tree)@ }),
    {
        match (self.stage, reply) {
            (NotifyStage::Begin, NotifyReply::Ready) => self.tell(0),
            (NotifyStage::AwaitMonitor { at }, NotifyReply::Sent(sent)) => {
                if !sent {
                    tree.forget_monitor(self.monitors[at].get_id());
                }
                assert(at < self.monitors.len());
                self.tell(at + 1)
            },
            (NotifyStage::AwaitSupervisor, NotifyReply::Sent(_)) => {
                self.stage = NotifyStage::Finished;
                NotifyCommand::Finished
            },
            _ => NotifyCommand::OutOfTurn,
        }
    }

    /// Tells the monitor `at`, or the supervisor if there are no more monitors.
    fn tell(&mut self, at: usize) -> (command: NotifyCommand)
        ensures
            (final(self)@, command) == old(self)@.to_tell(at as int),
            final(self)@.fits(),
    {
        if at < self.monitors.len() {
            self.stage = NotifyStage::AwaitMonitor { at };
            NotifyCommand::SendWithoutData { to: self.monitors[at] }
        } else {
            match self.supervisor {
                Some(parent) => {
                    self.stage = NotifyStage::AwaitSupervisor;
                    NotifyCommand::Send { to: parent }
                },
                None => {
                    self.stage = NotifyStage::Finished;
                    NotifyCommand::Finished
                },
            }
        }
    }
}

} // verus!
