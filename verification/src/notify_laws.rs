//! What a notification does from its first command to its last.

use crate::actor::{ActorCell, ActorId};
use crate::notify::{NotificationView, NotifyCommand, NotifyReply, NotifyStage};
use vstd::prelude::*;

verus! {

impl NotificationView {
    /// What the world says to the outstanding command, where `reached` tells for each monitor
    /// whether it can be sent the event, and `parent_reached` whether the supervisor can.
    pub open spec fn answered(
        self,
        reached: spec_fn(int) -> bool,
        parent_reached: bool,
    ) -> NotifyReply {
        match self.stage {
            NotifyStage::AwaitMonitor { at } => NotifyReply::Sent(reached(at as int)),
            NotifyStage::AwaitSupervisor => NotifyReply::Sent(parent_reached),
            _ => NotifyReply::Ready,
        }
    }

    /// How many steps are left, at most.
    pub open spec fn steps_left(self) -> int {
        match self.stage {
            NotifyStage::Begin => self.monitors.len() + 3int,
            NotifyStage::AwaitMonitor { at } => self.monitors.len() - at + 2,
            NotifyStage::AwaitSupervisor => 1,
            NotifyStage::Finished => 0,
        }
    }

    /// All commands of the rest of the notification, and the monitors that are registered at its
    /// end.
    pub open spec fn played(
        self,
        registered: Map<ActorId, ActorCell>,
        reached: spec_fn(int) -> bool,
        parent_reached: bool,
    ) -> (Seq<NotifyCommand>, Map<ActorId, ActorCell>)
        decreases self.steps_left(),
        when self.fits() && self.monitors.len() <= usize::MAX
    {
        if self.stage is Finished {
            (Seq::empty(), registered)
        } else {
            let (next, left, command) = self.stepped(
                registered,
                self.answered(reached, parent_reached),
            );
            let rest = next.played(left, reached, parent_reached);
            (seq![command] + rest.0, rest.1)
        }
    }

    /// The commands that tell the monitors from `at` on, each once and without the event's data,
    /// and then the supervisor, if there is one.
    pub open spec fn notify_commands(self, at: int) -> Seq<NotifyCommand> {
        self.monitors.skip(at).map_values(
            |monitor: ActorCell| NotifyCommand::SendWithoutData { to: monitor },
        ) + match self.supervisor {
            Some(parent) => seq![NotifyCommand::Send { to: parent }, NotifyCommand::Finished],
            None => seq![NotifyCommand::Finished],
        }
    }
}

/// Whether the actor of the given id is among the monitors from `at` on that cannot be reached.
pub open spec fn out_of_reach(
    monitors: Seq<ActorCell>,
    at: int,
    reached: spec_fn(int) -> bool,
    id: ActorId,
) -> bool {
    exists|i: int| at <= i < monitors.len() && #[trigger] monitors[i].id == id && !reached(i)
}

/// What is left of `registered` once those out of reach are gone.
pub open spec fn only_reached(
    registered: Map<ActorId, ActorCell>,
    monitors: Seq<ActorCell>,
    at: int,
    reached: spec_fn(int) -> bool,
) -> Map<ActorId, ActorCell> {
    registered.remove_keys(Set::new(|id: ActorId| out_of_reach(monitors, at, reached, id)))
}

proof fn lemma_notify_from(
    told: NotificationView,
    at: int,
    registered: Map<ActorId, ActorCell>,
    reached: spec_fn(int) -> bool,
    parent_reached: bool,
)
    requires
        0 <= at <= told.monitors.len() <= usize::MAX,
    ensures
        ({
            let (next, command) = told.to_tell(at);
            let rest = next.played(registered, reached, parent_reached);
            &&& seq![command] + rest.0 == told.notify_commands(at)
            &&& rest.1 == only_reached(registered, told.monitors, at, reached)
        }),
    decreases told.monitors.len() - at,
{
    let (next, command) = told.to_tell(at);
    let goal = only_reached(registered, told.monitors, at, reached);
    let rest = next.played(registered, reached, parent_reached);
    if at < told.monitors.len() {
        let id = told.monitors[at].id;
        let left = if reached(at) {
            registered
        } else {
            registered.remove(id)
        };
        lemma_notify_from(told, at + 1, left, reached, parent_reached);
        let (then, second) = told.to_tell(at + 1);
        assert(next.to_tell(at + 1) == told.to_tell(at + 1));
        assert(rest.0 =~= seq![second] + then.played(left, reached, parent_reached).0);
        assert(seq![command] + told.notify_commands(at + 1) =~= told.notify_commands(at)) by {
            assert(told.monitors.skip(at) =~= seq![told.monitors[at]] + told.monitors.skip(at + 1));
        }
        assert forall|key: ActorId| out_of_reach(told.monitors, at, reached, key) <==> (
        out_of_reach(told.monitors, at + 1, reached, key) || (!reached(at) && key == id)) by {
            if !reached(at) && key == id {
                assert(told.monitors[at].id == key);
            }
            if out_of_reach(told.monitors, at + 1, reached, key) {
                let i = choose|i: int|
                    at + 1 <= i < told.monitors.len() && #[trigger] told.monitors[i].id == key
                        && !reached(i);
                assert(told.monitors[i].id == key);
            }
        }
        assert(only_reached(left, told.monitors, at + 1, reached) =~= goal);
    } else {
        assert(told.monitors.skip(at) =~= Seq::empty());
        assert(registered =~= goal);
        if told.supervisor is Some {
            let done = next.at(NotifyStage::Finished);
            assert(done.played(registered, reached, parent_reached).0 =~= Seq::empty());
            assert(rest.0 =~= seq![NotifyCommand::Finished]);
        } else {
            assert(rest.0 =~= Seq::empty());
        }
        assert(seq![command] + rest.0 =~= told.notify_commands(at));
    }
}

/// A notification tells every monitor once, without the event's data, and after them the
/// supervisor, if there is one, whether or not any of them can be reached. Exactly the monitors
/// that cannot be reached are no longer registered afterwards.
pub proof fn law_notification(
    told: NotificationView,
    registered: Map<ActorId, ActorCell>,
    reached: spec_fn(int) -> bool,
    parent_reached: bool,
)
    requires
        told.stage == NotifyStage::Begin,
        told.monitors.len() <= usize::MAX,
    ensures
        ({
            let play = told.played(registered, reached, parent_reached);
            &&& play.0 == told.notify_commands(0)
            &&& play.1 == only_reached(registered, told.monitors, 0, reached)
        }),
{
    lemma_notify_from(told, 0, registered, reached, parent_reached);
}

/// A reply to no command that is outstanding is turned down and changes nothing.
pub proof fn law_notification_out_of_turn(
    told: NotificationView,
    registered: Map<ActorId, ActorCell>,
    reply: NotifyReply,
)
    requires
        match told.stage {
            NotifyStage::Begin => reply !is Ready,
            NotifyStage::AwaitMonitor { .. } => reply !is Sent,
            NotifyStage::AwaitSupervisor => reply !is Sent,
            NotifyStage::Finished => true,
        },
    ensures
        told.stepped(registered, reply) == (told, registered, NotifyCommand::OutOfTurn),
{
}

} // verus!
