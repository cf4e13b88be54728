use ralph_os::executable::{ExecRegistry, get_all_task_memory};
use ralph_os::program_alloc::{ProgramAllocator, PROGRAM_REGION_SIZE, PROGRAM_REGION_START};
use ralph_os::scheduler::{
    current_task_id, exit_task, get_all_tasks, init, run, sleep_ms, sleep_ticks, spawn,
    task_count, yield_now, Dispatch, Scheduler,
};
use ralph_os::task::{Context, Task, TaskState, STACK_SIZE};

fn setup() -> (Scheduler, ProgramAllocator, ExecRegistry) {
    let mut programs = ProgramAllocator::new();
    let mut registry = ExecRegistry::new();
    let mem = vec![0u8; 64];
    ralph_os::executable::init(&mut registry, &mut programs, &mem).unwrap();
    (init(), programs, registry)
}

fn running_name(s: &Scheduler) -> &'static str {
    s.tasks[s.current].name
}

#[test]
fn three_tasks_run_round_robin() {
    let (mut s, mut p, mut r) = setup();
    spawn(&mut s, &mut p, &mut r, "1", 0x1000).unwrap();
    spawn(&mut s, &mut p, &mut r, "2", 0x2000).unwrap();
    spawn(&mut s, &mut p, &mut r, "3", 0x3000).unwrap();
    assert_eq!(task_count(&s), 3);
    let mut out = String::new();
    assert_eq!(run(&mut s), Dispatch::Switch { from: None, to: 0 });
    out.push_str(running_name(&s));
    for _ in 0..8 {
        let d = yield_now(&mut s, 0);
        match d {
            Dispatch::Switch { from, to } => {
                assert_eq!(to, s.current);
                assert_eq!(from.unwrap(), (to + 2) % 3);
            }
            _ => panic!("a ready task exists"),
        }
        out.push(' ');
        out.push_str(running_name(&s));
    }
    assert_eq!(out, "1 2 3 1 2 3 1 2 3");
    let running = s.tasks.iter().filter(|t| t.state == TaskState::Running).count();
    assert_eq!(running, 1);
}

#[test]
fn sleep_wakes_at_the_tick_and_not_before() {
    let (mut s, mut p, mut r) = setup();
    spawn(&mut s, &mut p, &mut r, "sleeper", 0).unwrap();
    run(&mut s);
    assert_eq!(sleep_ms(&mut s, 0, 500), Dispatch::Wait);
    assert_eq!(s.tasks[0].wake_at, 50);
    assert_eq!(s.tasks[0].state, TaskState::Sleeping);
    assert_eq!(s.schedule(49), Dispatch::Wait);
    assert_eq!(s.tasks[0].state, TaskState::Sleeping);
    assert_eq!(s.schedule(50), Dispatch::Switch { from: Some(0), to: 0 });
    assert_eq!(s.tasks[0].state, TaskState::Running);
}

#[test]
fn sleeping_task_is_passed_over() {
    let (mut s, mut p, mut r) = setup();
    spawn(&mut s, &mut p, &mut r, "a", 0).unwrap();
    spawn(&mut s, &mut p, &mut r, "b", 0).unwrap();
    spawn(&mut s, &mut p, &mut r, "c", 0).unwrap();
    run(&mut s);
    assert_eq!(yield_now(&mut s, 0), Dispatch::Switch { from: Some(0), to: 1 });
    assert_eq!(sleep_ticks(&mut s, 10, 5), Dispatch::Switch { from: Some(1), to: 2 });
    assert_eq!(s.tasks[1].wake_at, 15);
    assert_eq!(yield_now(&mut s, 11), Dispatch::Switch { from: Some(2), to: 0 });
    assert_eq!(yield_now(&mut s, 12), Dispatch::Switch { from: Some(0), to: 2 });
    assert_eq!(yield_now(&mut s, 15), Dispatch::Switch { from: Some(2), to: 0 });
    assert_eq!(yield_now(&mut s, 15), Dispatch::Switch { from: Some(0), to: 1 });
}

#[test]
fn sleep_deadline_saturates() {
    let (mut s, mut p, mut r) = setup();
    spawn(&mut s, &mut p, &mut r, "a", 0).unwrap();
    run(&mut s);
    sleep_ticks(&mut s, u64::MAX - 1, 10);
    assert_eq!(s.tasks[0].wake_at, u64::MAX);
}

#[test]
fn exit_releases_memory_and_reaps() {
    let (mut s, mut p, mut r) = setup();
    let a = spawn(&mut s, &mut p, &mut r, "a", 0).unwrap();
    let b = spawn(&mut s, &mut p, &mut r, "b", 0).unwrap();
    assert_eq!((a, b), (0, 1));
    assert_eq!(p.stats(), (2 * STACK_SIZE, PROGRAM_REGION_SIZE - 2 * STACK_SIZE));
    assert_eq!(get_all_task_memory(&r).len(), 2);
    assert_eq!(s.tasks[0].stack, (PROGRAM_REGION_START, STACK_SIZE));
    assert_eq!(s.tasks[1].stack, (PROGRAM_REGION_START + STACK_SIZE, STACK_SIZE));
    run(&mut s);
    assert_eq!(current_task_id(&s), Some(0));
    // the outgoing task is gone: its registers are saved nowhere
    assert_eq!(exit_task(&mut s, &mut r, &mut p, 0), Dispatch::Switch { from: None, to: 0 });
    assert_eq!(task_count(&s), 1);
    assert_eq!(get_all_tasks(&s)[0].name, "b");
    assert_eq!(current_task_id(&s), Some(1));
    assert_eq!(p.stats(), (STACK_SIZE, PROGRAM_REGION_SIZE - STACK_SIZE));
    assert_eq!(get_all_task_memory(&r).len(), 1);
    assert_eq!(exit_task(&mut s, &mut r, &mut p, 0), Dispatch::Halt);
    assert_eq!(task_count(&s), 0);
    assert_eq!(p.stats(), (0, PROGRAM_REGION_SIZE));
    assert_eq!(current_task_id(&s), None);
}

#[test]
fn empty_scheduler_halts() {
    let mut s = Scheduler::new();
    assert_eq!(run(&mut s), Dispatch::Halt);
    assert_eq!(yield_now(&mut s, 0), Dispatch::Halt);
    assert_eq!(s.find_next_ready(), None);
    assert!(!s.has_sleeping_tasks());
    assert!(!s.has_living_tasks());
}

#[test]
fn spawn_fails_without_stack_space() {
    let (mut s, mut p, mut r) = setup();
    p.allocate(PROGRAM_REGION_SIZE - STACK_SIZE + 1).unwrap();
    assert_eq!(spawn(&mut s, &mut p, &mut r, "a", 0), None);
    assert_eq!(task_count(&s), 0);
    assert_eq!(s.next_id, 0);
}

#[test]
fn spawn_fails_when_ids_are_used_up() {
    let (mut s, mut p, mut r) = setup();
    s.next_id = u32::MAX;
    assert_eq!(spawn(&mut s, &mut p, &mut r, "a", 0), None);
    assert_eq!(p.stats().0, 0);
}

#[test]
fn new_task_context_points_into_its_stack() {
    let t = Task::new(3, "t", 0xdead_beef, 0x400000);
    assert_eq!(t.context.r12, 0xdead_beef);
    assert_eq!(t.context.rsp, (0x400000 + STACK_SIZE - 8) as u64);
    assert_eq!(t.state, TaskState::Ready);
    let odd = Task::new(3, "t", 0, 0x400007);
    assert_eq!(odd.context.rsp, (0x400000 + STACK_SIZE - 8) as u64);
    assert_eq!((odd.context.rsp + 8) % 16, 0);
    assert_eq!(Context::default().rsp, 0);
}

#[test]
fn reap_keeps_order_and_moves_current() {
    let mut s = Scheduler::new();
    for (i, name) in ["a", "b", "c", "d"].iter().enumerate() {
        s.spawn(name, 0, 0x400000 + i * STACK_SIZE).unwrap();
    }
    s.tasks[0].state = TaskState::Finished;
    s.tasks[2].state = TaskState::Finished;
    s.current = 3;
    s.reap_finished_tasks();
    let names: Vec<&str> = s.tasks.iter().map(|t| t.name).collect();
    assert_eq!(names, vec!["b", "d"]);
    assert_eq!(s.current, 1);
}

#[test]
fn wake_pass_only_wakes_due_sleepers() {
    let mut s = Scheduler::new();
    s.spawn("a", 0, 0x400000).unwrap();
    s.spawn("b", 0, 0x410000).unwrap();
    s.tasks[0].state = TaskState::Sleeping;
    s.tasks[0].wake_at = 10;
    s.tasks[1].state = TaskState::Sleeping;
    s.tasks[1].wake_at = 11;
    assert!(s.has_sleeping_tasks());
    s.wake_sleeping_tasks(10);
    assert_eq!(s.tasks[0].state, TaskState::Ready);
    assert_eq!(s.tasks[1].state, TaskState::Sleeping);
}

#[test]
fn spawn_with_argument_passes_it_in_r13() {
    let (mut s, mut p, mut r) = setup();
    let id = ralph_os::scheduler::spawn_with_arg(&mut s, &mut p, &mut r, "telnet", 0x1234, 3).unwrap();
    assert_eq!(id, 0);
    assert_eq!(s.tasks[0].context.r12, 0x1234);
    assert_eq!(s.tasks[0].context.r13, 3);
    assert_eq!(s.tasks[0].name, "telnet");
    let plain = Task::new(1, "t", 5, 0x400000);
    assert_eq!(plain.context.r13, 0);
}

#[test]
fn at_most_one_task_runs_and_it_is_the_current_one() {
    let (mut s, mut p, mut r) = setup();
    for name in ["a", "b", "c", "d"] {
        spawn(&mut s, &mut p, &mut r, name, 0).unwrap();
    }
    run(&mut s);
    let mut now = 0;
    for step in 0..40u64 {
        let d = match step % 5 {
            0 | 1 | 3 => yield_now(&mut s, now),
            2 => sleep_ticks(&mut s, now, 3),
            _ => {
                if task_count(&s) > 2 {
                    exit_task(&mut s, &mut r, &mut p, now)
                } else {
                    yield_now(&mut s, now)
                }
            }
        };
        let running: Vec<usize> =
            (0..s.tasks.len()).filter(|&k| s.tasks[k].state == TaskState::Running).collect();
        match d {
            Dispatch::Switch { to, .. } => assert_eq!(running, vec![to]),
            _ => assert!(running.is_empty()),
        }
        if !running.is_empty() {
            assert_eq!(running, vec![s.current]);
        }
        if d == Dispatch::Wait {
            // nobody is ready: time passes until a sleeper is due
            now += 3;
            if let Dispatch::Switch { to, .. } = s.schedule(now) {
                assert_eq!(s.tasks[to].state, TaskState::Running);
                assert_eq!(s.current, to);
            }
        }
        now += 1;
    }
}
