use vaab_vm::bytecode::{Body, Op, Program, SelectArm, SelectDescriptor};
use vaab_vm::concurrency::{Host, OpResult, PendingTimeout, Scheduler, SelectStep, TaskLife, Turn, WaitSite};
use vaab_vm::error::{Fault, Span};
use vaab_vm::machine::{Output, Step, World};
use vaab_vm::value::Value;

#[test]
fn rendezvous_send_parks_until_a_receiver_takes_the_value() {
    let mut host = Host::scratch();
    let channel = match host.channel_new(0) { Ok(Value::Channel(c)) => c, _ => panic!("a channel") };
    let sent = host.send(channel, Value::Int(7), Span::none());
    assert!(matches!(sent, OpResult::Park(WaitSite::Send { .. })));
    let received = host.receive(channel, Span::none());
    assert!(matches!(received, OpResult::Ready(Value::Maybe(Some(v))) if matches!(*v, Value::Int(7))));
    assert!(host.take_completed_send(0));
    assert!(!host.take_completed_send(0));
}

#[test]
fn a_bounded_channel_holds_only_as_many_as_its_size() {
    let mut host = Host::scratch();
    let channel = match host.channel_new(2) { Ok(Value::Channel(c)) => c, _ => panic!("a channel") };
    assert!(matches!(host.send(channel, Value::Int(1), Span::none()), OpResult::Done));
    assert!(matches!(host.receive(channel, Span::none()), OpResult::Ready(Value::Maybe(Some(v))) if matches!(*v, Value::Int(1))));
    assert!(matches!(host.send(channel, Value::Int(2), Span::none()), OpResult::Done));
    assert!(matches!(host.send(channel, Value::Int(3), Span::none()), OpResult::Done));
    assert!(matches!(host.send(channel, Value::Int(4), Span::none()), OpResult::Park(_)));
}

#[test]
fn receive_from_a_closed_empty_channel_is_absent() {
    let mut host = Host::scratch();
    let channel = match host.channel_new(1) { Ok(Value::Channel(c)) => c, _ => panic!("a channel") };
    assert!(matches!(host.close(channel), OpResult::Done));
    assert!(matches!(host.receive(channel, Span::none()), OpResult::Ready(Value::Maybe(None))));
    assert!(matches!(host.send(channel, Value::Int(1), Span::none()), OpResult::Stop(Fault::Confused(_))));
}

#[test]
fn a_channel_that_is_not_there_stops_the_program() {
    let mut host = Host::scratch();
    assert!(matches!(host.receive(3, Span::none()), OpResult::Stop(Fault::Confused(_))));
}

#[test]
fn deadlock_on_a_rendezvous_with_no_partner_is_reported() {
    let mut program = Program::with_top_level("the top level".to_string());
    program.bodies[0] = Body {
        name: "the top level".to_string(),
        code: vec![Op::Int(0), Op::ChannelNew, Op::Receive, Op::Return],
        spans: vec![Span::new(0, 1); 4],
        slots: 0,
        parameters: 0,
        captures: Vec::new(),
    };
    let mut world = World::new(program, Output::collected());
    let mut scheduler = Scheduler::new(&world.program);
    let mut turns = 0;
    loop {
        turns += 1;
        assert!(turns < 100, "the scheduler should give up");
        match scheduler.turn(&mut world, 0) {
            Turn::Busy => {},
            Turn::Failed(error) => {
                match error.fault {
                    Fault::Deadlock { detail } => assert!(detail.contains("receiving from channel 0"), "{detail}"),
                    _ => panic!("a deadlock was expected"),
                }
                break;
            },
            _ => panic!("a deadlock was expected"),
        }
    }
}

#[test]
fn a_started_task_runs_and_its_answer_can_be_waited_for() {
    let mut program = Program::with_top_level("the top level".to_string());
    program.bodies[0] = Body {
        name: "the top level".to_string(),
        code: vec![Op::Start(1), Op::TaskWait, Op::Return],
        spans: vec![Span::new(0, 1); 3],
        slots: 0,
        parameters: 0,
        captures: Vec::new(),
    };
    program.bodies.push(Body {
        name: "`work`".to_string(),
        code: vec![Op::Int(41), Op::Int(1), Op::Add, Op::Return],
        spans: vec![Span::new(0, 1); 4],
        slots: 0,
        parameters: 0,
        captures: Vec::new(),
    });
    let mut world = World::new(program, Output::collected());
    let mut scheduler = Scheduler::new(&world.program);
    let mut turns = 0;
    loop {
        turns += 1;
        assert!(turns < 100, "the program should finish");
        match scheduler.turn(&mut world, 0) {
            Turn::Busy => {},
            Turn::Finished(value) => {
                assert!(matches!(value, Value::Int(42)));
                break;
            },
            _ => panic!("the program should finish"),
        }
    }
}

#[test]
fn a_scheduler_with_only_a_timeout_to_wait_for_sleeps_until_it_is_due() {
    let world_program = Program::with_top_level("main".to_string());
    let mut world = World::new(world_program, Output::collected());
    let mut scheduler = Scheduler::new(&world.program);
    scheduler.runnable.clear();
    scheduler.host.timeouts.push(PendingTimeout { at: 900, task: 0, select_arm: 0 });
    scheduler.host.timeouts.push(PendingTimeout { at: 500, task: 0, select_arm: 1 });
    assert_eq!(scheduler.host.next_due(), Some(500));
    assert!(matches!(scheduler.turn(&mut world, 100), Turn::Sleep));
    assert_eq!(scheduler.host.timeouts.len(), 2);
}

#[test]
fn a_scheduler_with_nothing_to_run_and_nothing_to_wait_for_reports_a_deadlock() {
    let world_program = Program::with_top_level("main".to_string());
    let mut world = World::new(world_program, Output::collected());
    let mut scheduler = Scheduler::new(&world.program);
    scheduler.runnable.clear();
    assert_eq!(scheduler.host.next_due(), None);
    match scheduler.turn(&mut world, 0) {
        Turn::Failed(error) => assert!(matches!(error.fault, Fault::Deadlock { .. })),
        _ => panic!("a deadlock"),
    }
}

#[test]
fn a_deadlock_report_names_each_parked_task_and_what_it_waits_for() {
    let mut program = Program::with_top_level("the top level".to_string());
    program.bodies[0] = Body {
        name: "the top level".to_string(),
        code: vec![Op::Int(0), Op::ChannelNew, Op::Receive, Op::Return],
        spans: vec![Span::new(0, 1); 4],
        slots: 0,
        parameters: 0,
        captures: Vec::new(),
    };
    let mut world = World::new(program, Output::collected());
    let mut scheduler = Scheduler::new(&world.program);
    let mut turns = 0;
    loop {
        turns += 1;
        assert!(turns < 100, "the scheduler should give up");
        match scheduler.turn(&mut world, 0) {
            Turn::Busy => {},
            Turn::Failed(error) => {
                match error.fault {
                    Fault::Deadlock { detail } => assert_eq!(
                        detail,
                        "every task is blocked:\n  task 0 (the top level): receiving from channel 0"
                    ),
                    _ => panic!("a deadlock was expected"),
                }
                break;
            },
            _ => panic!("a deadlock was expected"),
        }
    }
}

#[test]
fn with_no_task_parked_the_deadlock_report_says_none_can_be_woken() {
    let world_program = Program::with_top_level("main".to_string());
    let mut world = World::new(world_program, Output::collected());
    let mut scheduler = Scheduler::new(&world.program);
    scheduler.runnable.clear();
    match scheduler.turn(&mut world, 0) {
        Turn::Failed(error) => match error.fault {
            Fault::Deadlock { detail } => assert_eq!(detail, "every task is blocked and none can be woken"),
            _ => panic!("a deadlock"),
        },
        _ => panic!("a deadlock"),
    }
}

#[test]
fn a_channel_hands_out_values_oldest_first_even_with_a_sender_parked() {
    let mut host = Host::scratch();
    let channel = match host.channel_new(1) { Ok(Value::Channel(c)) => c, _ => panic!("a channel") };
    host.current = 1;
    assert!(matches!(host.send(channel, Value::Int(1), Span::none()), OpResult::Done));
    host.current = 2;
    assert!(matches!(host.send(channel, Value::Int(2), Span::none()), OpResult::Park(_)));
    host.current = 0;
    assert!(matches!(host.receive(channel, Span::none()), OpResult::Ready(Value::Maybe(Some(v))) if matches!(*v, Value::Int(1))));
    assert!(matches!(host.receive(channel, Span::none()), OpResult::Ready(Value::Maybe(Some(v))) if matches!(*v, Value::Int(2))));
    assert!(host.completed_sends.contains(&2));
}

#[test]
fn values_sent_before_a_close_can_still_be_received() {
    let mut host = Host::scratch();
    let channel = match host.channel_new(2) { Ok(Value::Channel(c)) => c, _ => panic!("a channel") };
    assert!(matches!(host.send(channel, Value::Int(5), Span::none()), OpResult::Done));
    assert!(matches!(host.close(channel), OpResult::Done));
    assert!(matches!(host.receive(channel, Span::none()), OpResult::Ready(Value::Maybe(Some(v))) if matches!(*v, Value::Int(5))));
    assert!(matches!(host.receive(channel, Span::none()), OpResult::Ready(Value::Maybe(None))));
}

#[test]
fn a_task_that_used_up_its_slice_goes_back_to_the_end_of_the_queue() {
    let world = World::new(Program::with_top_level("the top level".to_string()), Output::collected());
    let mut scheduler = Scheduler::new(&world.program);
    assert!(matches!(scheduler.settle(&world, 0, Step::Yielded), Turn::Busy));
    assert_eq!(scheduler.runnable, vec![0, 0]);
    assert!(scheduler.host.tasks[0].state == TaskLife::Runnable);
}

#[test]
fn a_parked_task_waits_where_it_parked() {
    let world = World::new(Program::with_top_level("the top level".to_string()), Output::collected());
    let mut scheduler = Scheduler::new(&world.program);
    assert!(matches!(scheduler.settle(&world, 0, Step::Parked(WaitSite::Together { group: 3 })), Turn::Busy));
    assert_eq!(scheduler.runnable, vec![0]);
    assert!(scheduler.host.tasks[0].state == TaskLife::Parked);
    assert!(matches!(scheduler.host.tasks[0].waiting, Some(WaitSite::Together { group: 3 })));
}

#[test]
fn the_file_s_own_task_finishing_ends_the_program() {
    let world = World::new(Program::with_top_level("the top level".to_string()), Output::collected());
    let mut scheduler = Scheduler::new(&world.program);
    assert!(matches!(scheduler.settle(&world, 0, Step::Finished(Value::Int(5))), Turn::Finished(Value::Int(5))));
}

fn member_of(group: usize) -> vaab_vm::concurrency::TaskMeta {
    vaab_vm::concurrency::TaskMeta {
        state: TaskLife::Runnable,
        waiting: None,
        outcome: None,
        together: Some(group),
        cancelled: false,
        select_fire: None,
    }
}

#[test]
fn a_failing_member_of_a_together_cancels_the_others() {
    let world = World::new(Program::with_top_level("the top level".to_string()), Output::collected());
    let mut scheduler = Scheduler::new(&world.program);
    scheduler.host.tasks.push(member_of(0));
    scheduler.host.tasks.push(member_of(0));
    scheduler.host.together_groups.push(vaab_vm::concurrency::TogetherGroup { tasks: vec![1, 2], waiter: None, failed: None });
    let error = vaab_vm::error::RuntimeError { fault: Fault::Confused("it went wrong"), trace: Vec::new() };
    assert!(matches!(scheduler.settle(&world, 1, Step::Failed(Box::new(error))), Turn::Busy));
    assert!(matches!(scheduler.host.tasks[1].outcome, Some(Err(_))));
    assert!(scheduler.host.tasks[2].cancelled);
    assert!(matches!(scheduler.host.tasks[2].outcome, Some(Err(_))));
}

#[test]
fn a_select_with_nothing_ready_waits_on_its_channels_and_timeouts() {
    let mut host = Host::scratch();
    let channel = match host.channel_new(1) { Ok(Value::Channel(c)) => c, _ => panic!("a channel") };
    let descriptor = SelectDescriptor {
        arms: vec![SelectArm::Receive { body: 0 }, SelectArm::Timeout { milliseconds: 100, body: 0 }],
        otherwise: None,
        span: Span::none(),
    };
    let step = host.try_select(0, &descriptor, &vec![Value::Channel(channel)], 7, 1000);
    assert!(matches!(step, SelectStep::Park { resume_pc: 7 }));
    assert_eq!(host.channels[channel as usize].recv_waiters, vec![0]);
    let last = host.timeouts.last().unwrap();
    assert_eq!((last.at, last.task, last.select_arm), (1100, 0, 1));
}
