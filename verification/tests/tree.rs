//! The supervision tree: children, supervisor and monitors.

use std::cell::RefCell;
use supervisor::commands::{join_step, CellCommand, JoinError, JoinStep, WaitTask};
use supervisor::notify::{NotifyCommand, NotifyReply};
use supervisor::shutdown::{ShutdownCommand, ShutdownReply};
use supervisor::{ActorCell, ChildSpec, Duration, RestartPolicy, SupervisionTree};

fn cell(id: u64) -> ActorCell {
    ActorCell { id }
}

fn spec(secs: u64) -> ChildSpec {
    ChildSpec {
        shutdown_timeout: Duration::from_secs(secs),
        restart_policy: RestartPolicy::Transient,
    }
}

/// A tree with the children 1, 2 and so on, each with as many seconds to stop as its id says.
fn tree_of(n: u64) -> SupervisionTree {
    let mut tree = SupervisionTree::default();
    for id in 1..=n {
        tree.insert_child_with_spec(cell(id), spec(id));
    }
    tree
}

fn ids(tree: &SupervisionTree) -> Vec<u64> {
    tree.get_children().iter().map(ActorCell::get_id).collect()
}

#[test]
fn an_empty_tree_has_nobody() {
    let tree = SupervisionTree::default();
    assert_eq!(0, tree.get_num_children());
    assert_eq!(0, tree.get_num_parents());
    assert_eq!(None, tree.try_get_supervisor());
    assert!(tree.get_children().is_empty());
    assert_eq!(None, tree.get_child_spec(1));
    assert!(!tree.is_child_of(1));
}

#[test]
fn children_stand_in_the_order_in_which_they_were_linked() {
    let mut tree = SupervisionTree::default();
    for id in [5, 2, 9, 1] {
        tree.insert_child(cell(id));
    }
    assert_eq!(vec![5, 2, 9, 1], ids(&tree));
    assert_eq!(4, tree.get_num_children());
    assert_eq!(Some(ChildSpec::default()), tree.get_child_spec(9));
}

#[test]
fn linking_again_overwrites_the_spec_and_keeps_the_place() {
    let mut tree = SupervisionTree::default();
    tree.insert_child(cell(1));
    tree.insert_child(cell(2));
    tree.insert_child(cell(3));
    tree.insert_child_with_spec(cell(2), spec(8));
    assert_eq!(vec![1, 2, 3], ids(&tree));
    assert_eq!(Some(spec(8)), tree.get_child_spec(2));
    assert_eq!(Some(ChildSpec::default()), tree.get_child_spec(1));
    assert_eq!(3, tree.get_num_children());
}

#[test]
fn a_removed_child_is_gone_and_the_others_keep_their_order() {
    let mut tree = tree_of(4);
    tree.remove_child(2);
    assert_eq!(vec![1, 3, 4], ids(&tree));
    assert_eq!(None, tree.get_child_spec(2));
    assert_eq!(Some(spec(4)), tree.get_child_spec(4));
    assert_eq!(Some(spec(3)), tree.get_child_spec(3));
}

#[test]
fn removing_the_last_child_keeps_the_order() {
    let mut tree = tree_of(3);
    tree.remove_child(3);
    assert_eq!(vec![1, 2], ids(&tree));
}

#[test]
fn removing_the_last_but_one_keeps_the_order() {
    let mut tree = tree_of(4);
    tree.remove_child(3);
    assert_eq!(vec![1, 2, 4], ids(&tree));
    tree.insert_child(cell(3));
    assert_eq!(vec![1, 2, 4, 3], ids(&tree));
    let stops: Vec<u64> = shut_down(&mut tree, &[], &[])
        .into_iter()
        .filter_map(|command| match command {
            ShutdownCommand::StopAndWait { cell, .. } => Some(cell.id),
            _ => None,
        })
        .collect();
    assert_eq!(vec![3, 4, 2, 1], stops);
}

#[test]
fn removing_a_stranger_changes_nothing() {
    let mut tree = tree_of(3);
    tree.remove_child(7);
    assert_eq!(vec![1, 2, 3], ids(&tree));
    let mut empty = SupervisionTree::default();
    empty.remove_child(7);
    assert_eq!(0, empty.get_num_children());
}

#[test]
fn removing_what_was_just_linked_gives_the_tree_back() {
    let mut tree = tree_of(3);
    tree.insert_child(cell(9));
    tree.remove_child(9);
    assert_eq!(vec![1, 2, 3], ids(&tree));
    tree.remove_child(1);
    tree.remove_child(2);
    tree.remove_child(3);
    assert!(ids(&tree).is_empty());
    tree.insert_child(cell(4));
    assert_eq!(vec![4], ids(&tree));
}

#[test]
fn an_actor_has_one_supervisor() {
    let mut tree = SupervisionTree::default();
    tree.set_supervisor(cell(4));
    assert!(tree.is_child_of(4));
    assert!(!tree.is_child_of(5));
    tree.set_supervisor(cell(5));
    assert!(tree.is_child_of(5));
    assert!(!tree.is_child_of(4));
    assert_eq!(1, tree.get_num_parents());
    assert_eq!(Some(cell(5)), tree.try_get_supervisor());
    tree.clear_supervisor();
    assert!(!tree.is_child_of(5));
    assert_eq!(0, tree.get_num_parents());
}

#[test]
fn every_child_is_visited_in_order() {
    let tree = tree_of(3);
    let seen = RefCell::new(Vec::new());
    tree.for_each_child(|child| seen.borrow_mut().push(child.id));
    assert_eq!(vec![1, 2, 3], seen.into_inner());
}

#[test]
fn termination_empties_the_tree_and_unlinks_everyone() {
    let mut tree = tree_of(2);
    tree.set_supervisor(cell(50));
    let commands: Vec<String> =
        tree.terminate_all_children().iter().map(|command| format!("{:?}", command)).collect();
    assert_eq!(
        vec![
            format!("{:?}", CellCommand::Terminate { cell: cell(1) }),
            format!("{:?}", CellCommand::ClearSupervisor { cell: cell(1) }),
            format!("{:?}", CellCommand::Terminate { cell: cell(2) }),
            format!("{:?}", CellCommand::ClearSupervisor { cell: cell(2) }),
        ],
        commands
    );
    assert_eq!(0, tree.get_num_children());
    assert!(tree.is_child_of(50));
    assert!(tree.terminate_all_children().is_empty());
}

#[test]
fn all_children_are_told_to_stop_for_the_same_reason() {
    let tree = tree_of(2);
    let reason = Some(String::from("over"));
    let told: Vec<(u64, Option<String>)> = tree
        .stop_all_children(reason.clone())
        .into_iter()
        .map(|command| match command {
            CellCommand::Stop { cell, reason } => (cell.id, reason),
            _ => panic!("not a stop"),
        })
        .collect();
    assert_eq!(vec![(1, reason.clone()), (2, reason)], told);
    assert_eq!(2, tree.get_num_children());
}

#[test]
fn all_children_are_told_to_drain() {
    let tree = tree_of(2);
    let told: Vec<u64> = tree
        .drain_all_children()
        .into_iter()
        .map(|command| match command {
            CellCommand::Drain { cell } => cell.id,
            _ => panic!("not a drain"),
        })
        .collect();
    assert_eq!(vec![1, 2], told);
}

#[test]
fn waiting_takes_a_task_for_each_child() {
    let tree = tree_of(2);
    let timeout = Some(Duration::from_secs(3));
    let stops = tree.stop_all_children_and_wait(None, timeout);
    assert_eq!(2, stops.len());
    for (i, task) in stops.iter().enumerate() {
        match task {
            WaitTask::StopAndWait { cell, reason, timeout: waits } => {
                assert_eq!(i as u64 + 1, cell.id);
                assert_eq!(&None, reason);
                assert_eq!(&timeout, waits);
            }
            _ => panic!("not a stop"),
        }
    }
    let drains = tree.drain_all_children_and_wait(None);
    assert_eq!(2, drains.len());
    for (i, task) in drains.iter().enumerate() {
        match task {
            WaitTask::DrainAndWait { cell, timeout } => {
                assert_eq!(i as u64 + 1, cell.id);
                assert_eq!(&None, timeout);
            }
            _ => panic!("not a drain"),
        }
    }
}

#[test]
fn tasks_are_waited_for_unless_one_panics() {
    assert_eq!(JoinStep::Wait, join_step(Some(Ok(()))));
    assert_eq!(JoinStep::Done, join_step(None));
    assert_eq!(JoinStep::ResumeUnwind, join_step(Some(Err(JoinError::Panic))));
    assert_eq!(JoinStep::Panic, join_step(Some(Err(JoinError::Cancelled))));
}

/// Shuts the tree down; the ids in `late` do not stop in time, those in `undead` have not
/// stopped when asked.
fn shut_down(tree: &mut SupervisionTree, late: &[u64], undead: &[u64]) -> Vec<ShutdownCommand> {
    let mut shutdown = tree.graceful_shutdown_all_children();
    let mut commands = Vec::new();
    let mut reply = ShutdownReply::Ready;
    loop {
        let command = shutdown.step(reply);
        commands.push(command);
        reply = match command {
            ShutdownCommand::StopAndWait { cell, .. } => {
                ShutdownReply::Stopped(!late.contains(&cell.id))
            }
            ShutdownCommand::GetStatus { cell } => {
                ShutdownReply::IsStopped(!undead.contains(&cell.id))
            }
            ShutdownCommand::Kill { .. } | ShutdownCommand::ClearSupervisor { .. } => {
                ShutdownReply::Ready
            }
            ShutdownCommand::Finished => return commands,
            ShutdownCommand::OutOfTurn => panic!("out of turn"),
        };
    }
}

#[test]
fn shutdown_goes_from_the_last_child_to_the_first() {
    let mut tree = tree_of(3);
    let commands = shut_down(&mut tree, &[], &[]);
    let mut expected = Vec::new();
    for id in [3, 2, 1] {
        let cell = cell(id);
        expected.push(ShutdownCommand::StopAndWait { cell, timeout: Duration::from_secs(id) });
        expected.push(ShutdownCommand::GetStatus { cell });
        expected.push(ShutdownCommand::ClearSupervisor { cell });
    }
    expected.push(ShutdownCommand::Finished);
    assert_eq!(expected, commands);
    assert_eq!(0, tree.get_num_children());
}

#[test]
fn shutdown_kills_those_that_are_late_and_those_that_are_still_there() {
    let mut tree = tree_of(1);
    let kill = ShutdownCommand::Kill { cell: cell(1) };
    let commands = shut_down(&mut tree, &[1], &[1]);
    assert_eq!(6, commands.len());
    assert_eq!(kill, commands[1]);
    assert_eq!(ShutdownCommand::GetStatus { cell: cell(1) }, commands[2]);
    assert_eq!(kill, commands[3]);
    assert_eq!(ShutdownCommand::ClearSupervisor { cell: cell(1) }, commands[4]);

    let mut tree = tree_of(1);
    let commands = shut_down(&mut tree, &[1], &[]);
    assert_eq!(kill, commands[1]);
    assert_eq!(ShutdownCommand::ClearSupervisor { cell: cell(1) }, commands[3]);

    let mut tree = tree_of(1);
    let commands = shut_down(&mut tree, &[], &[1]);
    assert_eq!(kill, commands[2]);
    assert_eq!(5, commands.len());
}

#[test]
fn shutdown_after_a_removal_is_still_in_reverse_start_order() {
    let mut tree = tree_of(4);
    tree.remove_child(1);
    let stops: Vec<u64> = shut_down(&mut tree, &[], &[])
        .into_iter()
        .filter_map(|command| match command {
            ShutdownCommand::StopAndWait { cell, .. } => Some(cell.id),
            _ => None,
        })
        .collect();
    assert_eq!(vec![4, 3, 2], stops);
}

#[test]
fn shutdown_of_nobody_is_over_at_once() {
    let mut tree = SupervisionTree::default();
    assert_eq!(vec![ShutdownCommand::Finished], shut_down(&mut tree, &[], &[]));
}

#[test]
fn shutdown_out_of_turn_changes_nothing() {
    let mut tree = tree_of(1);
    let mut shutdown = tree.graceful_shutdown_all_children();
    let stage = shutdown.stage;
    assert_eq!(ShutdownCommand::OutOfTurn, shutdown.step(ShutdownReply::Stopped(true)));
    assert_eq!(stage, shutdown.stage);
}

/// Notifies; the ids in `gone` cannot be reached.
fn notify(tree: &mut SupervisionTree, gone: &[u64]) -> (Vec<u64>, Option<u64>) {
    let mut notification = tree.notify_supervisor();
    let mut monitors = Vec::new();
    let mut parent = None;
    let mut reply = NotifyReply::Ready;
    loop {
        match notification.step(tree, reply) {
            NotifyCommand::SendWithoutData { to } => {
                assert_eq!(None, parent);
                monitors.push(to.id);
                reply = NotifyReply::Sent(!gone.contains(&to.id));
            }
            NotifyCommand::Send { to } => {
                assert_eq!(None, parent);
                parent = Some(to.id);
                reply = NotifyReply::Sent(!gone.contains(&to.id));
            }
            NotifyCommand::Finished => break,
            NotifyCommand::OutOfTurn => panic!("out of turn"),
        }
    }
    monitors.sort();
    (monitors, parent)
}

#[test]
fn monitors_and_the_supervisor_are_told() {
    let mut tree = SupervisionTree::default();
    assert_eq!((vec![], None), notify(&mut tree, &[]));
    tree.set_monitor(cell(3));
    tree.set_monitor(cell(1));
    tree.set_monitor(cell(3));
    assert_eq!((vec![1, 3], None), notify(&mut tree, &[]));
    tree.set_supervisor(cell(9));
    tree.set_monitor(cell(2));
    assert_eq!((vec![1, 2, 3], Some(9)), notify(&mut tree, &[]));
    tree.remove_monitor(1);
    tree.remove_monitor(7);
    assert_eq!((vec![2, 3], Some(9)), notify(&mut tree, &[]));
}

#[test]
fn monitors_out_of_reach_are_dropped() {
    let mut tree = SupervisionTree::default();
    tree.set_supervisor(cell(9));
    for id in 1..=4 {
        tree.set_monitor(cell(id));
    }
    assert_eq!((vec![1, 2, 3, 4], Some(9)), notify(&mut tree, &[2, 4, 9]));
    assert_eq!((vec![1, 3], Some(9)), notify(&mut tree, &[1, 3]));
    assert_eq!((vec![], Some(9)), notify(&mut tree, &[]));
    tree.remove_monitor(1);
    tree.set_monitor(cell(5));
    assert_eq!((vec![5], Some(9)), notify(&mut tree, &[]));
}

#[test]
fn the_last_monitor_can_be_removed() {
    let mut tree = SupervisionTree::default();
    tree.set_monitor(cell(1));
    tree.remove_monitor(1);
    assert_eq!((vec![], None), notify(&mut tree, &[]));
    tree.set_monitor(cell(2));
    assert_eq!((vec![2], None), notify(&mut tree, &[]));
}

#[test]
fn notification_out_of_turn_changes_nothing() {
    let mut tree = SupervisionTree::default();
    tree.set_monitor(cell(1));
    let mut notification = tree.notify_supervisor();
    assert_eq!(NotifyCommand::OutOfTurn, notification.step(&mut tree, NotifyReply::Sent(false)));
    assert_eq!((vec![1], None), notify(&mut tree, &[]));
}
