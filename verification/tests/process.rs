use kernel::executor::{ControlFlow, ThreadRef};
use kernel::mem::{Image, PageSet, USER_STACK_SIZE};
use kernel::task::manager::TaskManager;
use kernel::task::process::{Process, ProcessState, Status};
use kernel::task::registry::{get_process, insert_process, remove_process, ProcessMap};
use kernel::task::thread::{Thread, TrapContext, RETURN_VALUE, STACK_POINTER};

fn image(bytes: &[u8], entry_point: usize, user_stack_base: usize) -> Image {
    let mut page_set = PageSet::new();
    assert!(page_set.map_area(0x1000, bytes.to_vec()));
    Image::new(page_set, user_stack_base, entry_point).unwrap()
}

fn spawn(manager: &mut TaskManager) -> usize {
    Process::new(manager, image(b"init", 0x1000, 0x8000))
}

#[test]
fn a_new_state_is_runnable_and_empty() {
    let mut page_set = PageSet::new();
    assert!(page_set.map_area(0x1000, vec![1]));
    let state = ProcessState::new(page_set, Some(3));
    assert_eq!(state.status(), Status::Runnable);
    assert_eq!(state.exit_code(), 0);
    assert_eq!(state.parent(), Some(3));
    assert!(state.child_list().is_empty());
    assert!(state.thread_list().is_empty());
    assert_eq!(state.page_set().read_byte(0x1000), Some(1));
    assert!(state.can_allocate_tid());
    let orphan = ProcessState::new(PageSet::new(), None);
    assert_eq!(orphan.parent(), None);
}

#[test]
fn the_setters_of_a_state_change_one_thing_each() {
    let mut state = ProcessState::new(PageSet::new(), None);
    state.set_status(Status::Zombie);
    assert_eq!(state.status(), Status::Zombie);
    assert_eq!(state.exit_code(), 0);
    state.set_exit_code(17);
    assert_eq!(state.exit_code(), 17);
    assert_eq!(state.status(), Status::Zombie);
    state.child_list_mut().push(4);
    state.child_list_mut().push(9);
    assert_eq!(state.child_list(), &vec![4, 9]);
    state.child_list_mut().clear();
    assert!(state.child_list().is_empty());
    let mut replacement = PageSet::new();
    assert!(replacement.map_area(0x2000, vec![5]));
    state.set_page_set(replacement);
    assert_eq!(state.page_set().read_byte(0x2000), Some(5));
    assert!(state.page_set_mut().write_byte(0x2000, 6));
    assert_eq!(state.page_set().read_byte(0x2000), Some(6));
    assert_eq!(state.exit_code(), 17);
}

#[test]
fn thread_identifiers_of_a_state_are_reused() {
    let mut state = ProcessState::new(PageSet::new(), None);
    assert_eq!(state.allocate_tid(), 0);
    assert_eq!(state.allocate_tid(), 1);
    assert_eq!(state.allocate_tid(), 2);
    state.deallocated_tid(1);
    assert_eq!(state.allocate_tid(), 1);
    state.deallocated_tid(0);
    state.deallocated_tid(2);
    assert_eq!(state.allocate_tid(), 0);
}

#[test]
fn the_main_thread_is_the_first_of_the_list() {
    let mut process = Process::from_parts(1, ProcessState::new(PageSet::new(), None));
    let first = Thread::new(&mut process, 0x8000, true);
    let second = Thread::new(&mut process, 0x10000, false);
    process.state_mut().thread_list_mut().push(first);
    process.state_mut().thread_list_mut().push(second);
    assert_eq!(process.state().thread_list().len(), 2);
    assert_eq!(process.state().main_thread().tid(), 0);
    assert_eq!(process.state().main_thread().user_stack_base(), 0x8000);
    process.state_mut().main_thread_mut().trap_context_mut().set_user_sepc(0x77);
    assert_eq!(process.state().main_thread().trap_context().user_sepc(), 0x77);
    let third = Thread::new(&mut process, 0x20000, true);
    *process.state_mut().main_thread_mut() = third;
    assert_eq!(process.state().main_thread().tid(), 2);
    assert_eq!(process.state().thread_list()[1].tid(), 1);
    assert_eq!(process.pid(), 1);
}

#[test]
fn the_registry_finds_what_was_inserted_until_it_is_removed() {
    let mut map = ProcessMap::new();
    assert!(get_process(&map, 0).is_none());
    insert_process(&mut map, 7, Process::from_parts(7, ProcessState::new(PageSet::new(), None)));
    insert_process(&mut map, 2, Process::from_parts(2, ProcessState::new(PageSet::new(), Some(7))));
    assert_eq!(get_process(&map, 7).map(|process| process.pid()), Some(7));
    assert_eq!(get_process(&map, 2).map(|process| process.state().parent()), Some(Some(7)));
    assert!(get_process(&map, 3).is_none());
    let removed = remove_process(&mut map, 7);
    assert_eq!(removed.map(|process| process.pid()), Some(7));
    assert!(get_process(&map, 7).is_none());
    assert!(get_process(&map, 2).is_some());
    assert!(remove_process(&mut map, 7).is_none());
}

#[test]
fn inserting_under_a_registered_identifier_replaces_the_process() {
    let mut map = ProcessMap::new();
    let mut first = ProcessState::new(PageSet::new(), None);
    first.set_exit_code(1);
    let mut second = ProcessState::new(PageSet::new(), None);
    second.set_exit_code(2);
    insert_process(&mut map, 4, Process::from_parts(4, first));
    insert_process(&mut map, 4, Process::from_parts(4, second));
    assert_eq!(get_process(&map, 4).map(|process| process.state().exit_code()), Some(2));
}

#[test]
fn a_new_process_is_registered_and_scheduled() {
    let mut manager = TaskManager::new();
    assert!(manager.can_allocate_pid());
    let pid = Process::new(&mut manager, image(b"hello", 0x1000, 0x8000));
    assert_eq!(pid, 0);
    let process = get_process(manager.process_map(), pid).unwrap();
    assert_eq!(process.pid(), 0);
    let state = process.state();
    assert_eq!(state.status(), Status::Runnable);
    assert_eq!(state.exit_code(), 0);
    assert_eq!(state.parent(), None);
    assert!(state.child_list().is_empty());
    assert_eq!(state.thread_list().len(), 1);
    assert_eq!(state.page_set().read_bytes(0x1000, 5), Some(b"hello".to_vec()));
    let main = state.main_thread();
    assert_eq!(main.tid(), 0);
    assert_eq!(main.process(), 0);
    assert!(main.is_main());
    assert_eq!(main.user_stack_base(), 0x8000);
    assert_eq!(main.trap_context().user_sepc(), 0x1000);
    assert_eq!(main.trap_context().user_register(STACK_POINTER), 0x8000 + USER_STACK_SIZE);
    assert_eq!(main.trap_context().user_register(RETURN_VALUE), 0);
    assert_eq!(manager.executor().waiting(), 1);
    assert_eq!(manager.executor().current(), None);
    assert_eq!(manager.executor_mut().dispatch(), Some(ThreadRef { pid: 0, tid: 0 }));
    assert!(manager.has_thread(0, 0));
    assert!(!manager.has_thread(0, 1));
    assert!(!manager.has_thread(1, 0));
}

#[test]
fn registered_processes_carry_different_identifiers() {
    let mut manager = TaskManager::new();
    let mut pids = Vec::new();
    for _ in 0..5 {
        pids.push(spawn(&mut manager));
    }
    pids.push(Process::fork(&mut manager, 2, 0));
    pids.push(Process::fork(&mut manager, 5, 0));
    assert_eq!(pids, vec![0, 1, 2, 3, 4, 5, 6]);
    for pid in pids {
        assert_eq!(get_process(manager.process_map(), pid).unwrap().pid(), pid);
    }
}

#[test]
fn the_identifier_of_a_process_that_is_gone_is_issued_again() {
    let mut manager = TaskManager::new();
    assert_eq!(spawn(&mut manager), 0);
    assert_eq!(spawn(&mut manager), 1);
    assert_eq!(spawn(&mut manager), 2);
    Process::exit(&mut manager, 1, 0);
    assert!(get_process(manager.process_map(), 1).is_none());
    assert!(get_process(manager.zombies(), 1).is_none());
    assert_eq!(spawn(&mut manager), 1);
    assert_eq!(spawn(&mut manager), 3);
}

#[test]
fn the_identifier_of_a_zombie_is_not_issued_while_its_parent_keeps_it() {
    let mut manager = TaskManager::new();
    assert_eq!(spawn(&mut manager), 0);
    assert_eq!(Process::fork(&mut manager, 0, 0), 1);
    Process::exit(&mut manager, 1, 9);
    assert!(get_process(manager.process_map(), 1).is_none());
    assert!(get_process(manager.zombies(), 1).is_some());
    assert_eq!(spawn(&mut manager), 2);
    assert_eq!(manager.reap(0, 1), 9);
    assert!(get_process(manager.zombies(), 1).is_none());
    assert_eq!(spawn(&mut manager), 1);
}

#[test]
fn a_fork_makes_a_child_with_a_copy_of_the_memory() {
    let mut manager = TaskManager::new();
    let parent = Process::new(&mut manager, image(b"abc", 0x1000, 0x30000));
    manager.set_user_register(ThreadRef { pid: parent, tid: 0 }, RETURN_VALUE, 55);
    let child = Process::fork(&mut manager, parent, 0);
    assert_eq!(child, 1);
    let parent_state = get_process(manager.process_map(), parent).unwrap().state();
    assert_eq!(parent_state.child_list(), &vec![1]);
    assert_eq!(parent_state.thread_list().len(), 1);
    assert_eq!(parent_state.main_thread().trap_context().user_register(RETURN_VALUE), 55);
    assert_eq!(parent_state.main_thread().trap_context().user_sepc(), 0x1000);
    let child_process = get_process(manager.process_map(), child).unwrap();
    assert_eq!(child_process.pid(), 1);
    let child_state = child_process.state();
    assert_eq!(child_state.status(), Status::Runnable);
    assert_eq!(child_state.parent(), Some(0));
    assert!(child_state.child_list().is_empty());
    assert_eq!(child_state.page_set().read_bytes(0x1000, 3), Some(b"abc".to_vec()));
    assert_eq!(child_state.thread_list().len(), 1);
    let thread = child_state.main_thread();
    assert_eq!(thread.tid(), 0);
    assert_eq!(thread.process(), 1);
    assert!(!thread.is_main());
    assert_eq!(thread.user_stack_base(), 0x30000);
    assert_eq!(thread.trap_context().user_register(RETURN_VALUE), 0);
    assert_eq!(thread.trap_context().user_register(STACK_POINTER), 0);
    assert_eq!(thread.trap_context().user_sepc(), 0);
    assert_eq!(manager.executor().waiting(), 2);
    assert_eq!(manager.executor_mut().dispatch(), Some(ThreadRef { pid: 0, tid: 0 }));
    manager.executor_mut().complete(ControlFlow::Break);
    assert_eq!(manager.executor_mut().dispatch(), Some(ThreadRef { pid: 1, tid: 0 }));
}

#[test]
fn a_write_after_a_fork_is_seen_by_the_writer_alone() {
    let mut manager = TaskManager::new();
    let parent = Process::new(&mut manager, image(b"abc", 0x1000, 0x8000));
    let child = Process::fork(&mut manager, parent, 0);
    assert!(manager.store_byte(child, 0x1001, b'X'));
    let read = |manager: &TaskManager, pid: usize| {
        get_process(manager.process_map(), pid).unwrap().state().page_set().read_bytes(0x1000, 3)
    };
    assert_eq!(read(&manager, child), Some(b"aXc".to_vec()));
    assert_eq!(read(&manager, parent), Some(b"abc".to_vec()));
    assert!(manager.store_byte(parent, 0x1002, b'Y'));
    assert_eq!(read(&manager, child), Some(b"aXc".to_vec()));
    assert_eq!(read(&manager, parent), Some(b"abY".to_vec()));
    assert!(!manager.store_byte(parent, 0x2000, b'Z'));
    assert_eq!(read(&manager, parent), Some(b"abY".to_vec()));
}

#[test]
fn exec_keeps_the_process_and_replaces_its_program() {
    let mut manager = TaskManager::new();
    let pid = Process::new(&mut manager, image(b"old", 0x1000, 0x8000));
    let child = Process::fork(&mut manager, pid, 0);
    let mut page_set = PageSet::new();
    assert!(page_set.map_area(0x4000, b"new!".to_vec()));
    let replacement = Image::new(page_set, 0x20000, 0x4004).unwrap();
    Process::exec(&mut manager, pid, replacement, vec![String::from("arg")]);
    let process = get_process(manager.process_map(), pid).unwrap();
    assert_eq!(process.pid(), pid);
    let state = process.state();
    assert_eq!(state.status(), Status::Runnable);
    assert_eq!(state.parent(), None);
    assert_eq!(state.child_list(), &vec![child]);
    assert_eq!(state.page_set().read_bytes(0x4000, 4), Some(b"new!".to_vec()));
    assert_eq!(state.page_set().read_byte(0x1000), None);
    assert_eq!(state.thread_list().len(), 1);
    let main = state.main_thread();
    assert_eq!(main.tid(), 1);
    assert!(main.is_main());
    assert_eq!(main.user_stack_base(), 0x20000);
    assert_eq!(main.user_stack_top(), 0x22000);
    assert_eq!(main.trap_context().user_sepc(), 0x4004);
    assert_eq!(main.trap_context().user_register(STACK_POINTER), 0x22000);
    assert!(manager.has_thread(pid, 1));
    assert!(!manager.has_thread(pid, 0));
    assert_eq!(manager.executor().waiting(), 3);
    let untouched = get_process(manager.process_map(), child).unwrap().state();
    assert_eq!(untouched.page_set().read_bytes(0x1000, 3), Some(b"old".to_vec()));
}

#[test]
fn exec_gives_the_tid_of_the_old_main_thread_back() {
    let mut manager = TaskManager::new();
    let pid = spawn(&mut manager);
    Process::exec(&mut manager, pid, image(b"a", 0x1000, 0x8000), vec![]);
    assert!(manager.has_thread(pid, 1));
    Process::exec(&mut manager, pid, image(b"b", 0x1000, 0x8000), vec![]);
    assert!(manager.has_thread(pid, 0));
    assert!(!manager.has_thread(pid, 1));
}

#[test]
fn a_process_that_exits_is_not_found_any_more() {
    let mut manager = TaskManager::new();
    let first = spawn(&mut manager);
    let second = spawn(&mut manager);
    Process::exit(&mut manager, first, 3);
    assert!(get_process(manager.process_map(), first).is_none());
    assert!(get_process(manager.process_map(), second).is_some());
    assert!(!manager.has_thread(first, 0));
}

#[test]
fn a_zombie_keeps_its_exit_code_for_its_parent() {
    let mut manager = TaskManager::new();
    let parent = spawn(&mut manager);
    let child = Process::fork(&mut manager, parent, 0);
    let grandchild = Process::fork(&mut manager, child, 0);
    Process::exit(&mut manager, child, 42);
    assert!(get_process(manager.process_map(), child).is_none());
    let zombie = get_process(manager.zombies(), child).unwrap();
    assert_eq!(zombie.pid(), child);
    assert_eq!(zombie.state().status(), Status::Zombie);
    assert_eq!(zombie.state().exit_code(), 42);
    assert!(zombie.state().child_list().is_empty());
    assert_eq!(zombie.state().parent(), Some(parent));
    let orphan = get_process(manager.process_map(), grandchild).unwrap();
    assert_eq!(orphan.state().status(), Status::Runnable);
    assert_eq!(orphan.state().parent(), Some(child));
    assert_eq!(get_process(manager.process_map(), parent).unwrap().state().child_list(), &vec![child]);
}

#[test]
fn a_parent_that_exits_takes_its_zombies_with_it() {
    let mut manager = TaskManager::new();
    let parent = spawn(&mut manager);
    let first = Process::fork(&mut manager, parent, 0);
    let second = Process::fork(&mut manager, parent, 0);
    let third = Process::fork(&mut manager, parent, 0);
    Process::exit(&mut manager, first, 1);
    Process::exit(&mut manager, third, 3);
    assert!(get_process(manager.zombies(), first).is_some());
    assert!(get_process(manager.zombies(), third).is_some());
    Process::exit(&mut manager, parent, 0);
    assert!(get_process(manager.zombies(), first).is_none());
    assert!(get_process(manager.zombies(), third).is_none());
    assert!(get_process(manager.zombies(), parent).is_none());
    assert!(get_process(manager.process_map(), parent).is_none());
    assert!(get_process(manager.process_map(), second).is_some());
    Process::exit(&mut manager, second, 2);
    assert!(get_process(manager.zombies(), second).is_none());
    assert_eq!(spawn(&mut manager), 0);
    assert_eq!(spawn(&mut manager), 1);
    assert_eq!(spawn(&mut manager), 2);
    assert_eq!(spawn(&mut manager), 3);
    assert_eq!(spawn(&mut manager), 4);
}

#[test]
fn reaping_hands_back_the_exit_code_and_forgets_the_child() {
    let mut manager = TaskManager::new();
    let parent = spawn(&mut manager);
    let first = Process::fork(&mut manager, parent, 0);
    let second = Process::fork(&mut manager, parent, 0);
    Process::exit(&mut manager, second, 8);
    assert_eq!(manager.reap(parent, second), 8);
    assert!(get_process(manager.zombies(), second).is_none());
    assert_eq!(get_process(manager.process_map(), parent).unwrap().state().child_list(), &vec![first]);
}

#[test]
fn recording_an_exit_code_leaves_the_process_registered() {
    let mut manager = TaskManager::new();
    let pid = spawn(&mut manager);
    manager.record_exit_code(pid, 5);
    let state = get_process(manager.process_map(), pid).unwrap().state();
    assert_eq!(state.exit_code(), 5);
    assert_eq!(state.status(), Status::Runnable);
}

#[test]
fn installing_a_register_changes_that_thread_alone() {
    let mut manager = TaskManager::new();
    let first = spawn(&mut manager);
    let second = spawn(&mut manager);
    manager.set_user_register(ThreadRef { pid: second, tid: 0 }, RETURN_VALUE, 123);
    let context = |manager: &TaskManager, pid: usize, index: usize| {
        get_process(manager.process_map(), pid)
            .unwrap()
            .state()
            .main_thread()
            .trap_context()
            .user_register(index)
    };
    assert_eq!(context(&manager, second, RETURN_VALUE), 123);
    assert_eq!(context(&manager, second, STACK_POINTER), 0x8000 + USER_STACK_SIZE);
    assert_eq!(context(&manager, first, RETURN_VALUE), 0);
}

#[test]
fn replacing_a_context_changes_that_thread_alone() {
    let mut manager = TaskManager::new();
    let first = spawn(&mut manager);
    let second = spawn(&mut manager);
    let mut registers = [0usize; 32];
    registers[5] = 500;
    manager.set_trap_context(
        ThreadRef { pid: first, tid: 0 },
        TrapContext::from_parts(registers, 0x4444),
    );
    let main = |manager: &TaskManager, pid: usize, index: usize| {
        let thread = get_process(manager.process_map(), pid).unwrap().state().main_thread();
        (thread.trap_context().user_register(index), thread.trap_context().user_sepc())
    };
    assert_eq!(main(&manager, first, 5), (500, 0x4444));
    assert_eq!(main(&manager, first, STACK_POINTER), (0, 0x4444));
    assert_eq!(main(&manager, second, 5), (0, 0x1000));
    assert_eq!(main(&manager, second, STACK_POINTER), (0x8000 + USER_STACK_SIZE, 0x1000));
    let thread = get_process(manager.process_map(), first).unwrap().state().main_thread();
    assert_eq!(thread.tid(), 0);
    assert_eq!(thread.user_stack_base(), 0x8000);
}

#[test]
fn the_last_thread_to_break_takes_its_process_with_it() {
    let mut manager = TaskManager::new();
    let parent = spawn(&mut manager);
    let child = Process::fork(&mut manager, parent, 0);
    assert_eq!(manager.executor_mut().dispatch(), Some(ThreadRef { pid: parent, tid: 0 }));
    manager.complete(ControlFlow::Yield);
    assert_eq!(manager.executor_mut().dispatch(), Some(ThreadRef { pid: child, tid: 0 }));
    manager.record_exit_code(child, 12);
    manager.complete(ControlFlow::Break);
    assert!(get_process(manager.process_map(), child).is_none());
    let zombie = get_process(manager.zombies(), child).unwrap();
    assert_eq!(zombie.state().status(), Status::Zombie);
    assert_eq!(zombie.state().exit_code(), 12);
    assert_eq!(manager.executor().current(), None);
    assert_eq!(manager.executor_mut().dispatch(), Some(ThreadRef { pid: parent, tid: 0 }));
    manager.complete(ControlFlow::Break);
    assert!(get_process(manager.process_map(), parent).is_none());
    assert!(get_process(manager.zombies(), child).is_none());
    assert_eq!(manager.executor_mut().dispatch(), None);
    assert_eq!(spawn(&mut manager), 0);
}

#[test]
fn a_thread_that_continues_or_yields_leaves_its_process_registered() {
    let mut manager = TaskManager::new();
    let pid = spawn(&mut manager);
    assert_eq!(manager.executor_mut().dispatch(), Some(ThreadRef { pid, tid: 0 }));
    manager.complete(ControlFlow::Continue);
    assert_eq!(manager.executor().current(), Some(ThreadRef { pid, tid: 0 }));
    assert!(get_process(manager.process_map(), pid).is_some());
    manager.complete(ControlFlow::Yield);
    assert_eq!(manager.executor().current(), None);
    assert_eq!(manager.executor().waiting(), 1);
    assert!(get_process(manager.process_map(), pid).is_some());
    manager.complete(ControlFlow::Break);
    assert!(get_process(manager.process_map(), pid).is_some());
}

#[test]
fn a_stale_thread_that_breaks_ends_no_process() {
    let mut manager = TaskManager::new();
    let pid = spawn(&mut manager);
    assert_eq!(manager.executor_mut().dispatch(), Some(ThreadRef { pid, tid: 0 }));
    Process::exec(&mut manager, pid, image(b"new", 0x1000, 0x8000), vec![]);
    assert!(!manager.has_thread(pid, 0));
    manager.complete(ControlFlow::Break);
    assert!(get_process(manager.process_map(), pid).is_some());
    assert_eq!(manager.executor_mut().dispatch(), Some(ThreadRef { pid, tid: 1 }));
    manager.complete(ControlFlow::Break);
    assert!(get_process(manager.process_map(), pid).is_none());
    assert_eq!(manager.executor_mut().dispatch(), None);
}

#[test]
fn a_parent_is_alive_while_it_is_registered_and_lists_the_child() {
    let mut manager = TaskManager::new();
    let parent = spawn(&mut manager);
    let child = Process::fork(&mut manager, parent, 0);
    let grandchild = Process::fork(&mut manager, child, 0);
    assert!(!manager.parent_alive(parent));
    assert!(manager.parent_alive(child));
    assert!(manager.parent_alive(grandchild));
    Process::exit(&mut manager, child, 0);
    assert!(!manager.parent_alive(grandchild));
}

#[test]
fn a_stranger_under_the_parents_identifier_is_no_parent() {
    let mut manager = TaskManager::new();
    let parent = spawn(&mut manager);
    let child = Process::fork(&mut manager, parent, 0);
    Process::exit(&mut manager, parent, 0);
    assert!(!manager.parent_alive(child));
    let stranger = spawn(&mut manager);
    assert_eq!(stranger, parent);
    let state = get_process(manager.process_map(), child).unwrap().state();
    assert_eq!(state.parent(), Some(stranger));
    assert!(get_process(manager.process_map(), stranger).is_some());
    assert!(!manager.parent_alive(child));
}

#[test]
fn dispatch_skips_threads_that_are_gone() {
    let mut manager = TaskManager::new();
    let first = spawn(&mut manager);
    let second = spawn(&mut manager);
    let third = spawn(&mut manager);
    Process::exit(&mut manager, first, 0);
    Process::exit(&mut manager, second, 0);
    assert_eq!(manager.executor().waiting(), 3);
    assert_eq!(manager.dispatch(), Some(ThreadRef { pid: third, tid: 0 }));
    assert_eq!(manager.executor().waiting(), 0);
    assert_eq!(manager.dispatch(), Some(ThreadRef { pid: third, tid: 0 }));
    Process::exec(&mut manager, third, image(b"new", 0x1000, 0x8000), vec![]);
    assert_eq!(manager.dispatch(), Some(ThreadRef { pid: third, tid: 1 }));
    manager.complete(ControlFlow::Break);
    assert_eq!(manager.dispatch(), None);
    assert_eq!(manager.executor().current(), None);
}

#[test]
fn dispatch_serves_living_threads_in_order() {
    let mut manager = TaskManager::new();
    let first = spawn(&mut manager);
    let second = spawn(&mut manager);
    assert_eq!(manager.dispatch(), Some(ThreadRef { pid: first, tid: 0 }));
    manager.complete(ControlFlow::Yield);
    assert_eq!(manager.dispatch(), Some(ThreadRef { pid: second, tid: 0 }));
    manager.complete(ControlFlow::Yield);
    assert_eq!(manager.dispatch(), Some(ThreadRef { pid: first, tid: 0 }));
}

#[test]
fn finishing_a_call_installs_the_result_and_applies_the_directive() {
    let mut manager = TaskManager::new();
    let pid = spawn(&mut manager);
    let other = spawn(&mut manager);
    let thread = ThreadRef { pid, tid: 0 };
    let result = |manager: &TaskManager, pid: usize| {
        get_process(manager.process_map(), pid)
            .unwrap()
            .state()
            .main_thread()
            .trap_context()
            .user_register(RETURN_VALUE)
    };
    assert_eq!(manager.dispatch(), Some(thread));
    manager.finish_call(thread, 5, ControlFlow::Continue);
    assert_eq!(result(&manager, pid), 5);
    assert_eq!(manager.executor().current(), Some(thread));
    manager.finish_call(thread, -1, ControlFlow::Yield);
    assert_eq!(result(&manager, pid), usize::MAX);
    assert_eq!(result(&manager, other), 0);
    assert_eq!(manager.executor().current(), None);
    assert_eq!(manager.dispatch(), Some(ThreadRef { pid: other, tid: 0 }));
    manager.finish_call(ThreadRef { pid: other, tid: 0 }, isize::MIN, ControlFlow::Yield);
    assert_eq!(result(&manager, other), isize::MAX as usize + 1);
    assert_eq!(manager.dispatch(), Some(thread));
    manager.finish_call(thread, 0, ControlFlow::Break);
    assert!(get_process(manager.process_map(), pid).is_none());
}

#[test]
fn finishing_a_call_of_a_thread_that_is_gone_installs_nothing() {
    let mut manager = TaskManager::new();
    let pid = spawn(&mut manager);
    let thread = ThreadRef { pid, tid: 0 };
    assert_eq!(manager.dispatch(), Some(thread));
    Process::exec(&mut manager, pid, image(b"new", 0x1000, 0x8000), vec![]);
    manager.finish_call(thread, 77, ControlFlow::Continue);
    let main = get_process(manager.process_map(), pid).unwrap().state().main_thread();
    assert_eq!(main.tid(), 1);
    assert_eq!(main.trap_context().user_register(RETURN_VALUE), 0);
    manager.finish_call(ThreadRef { pid: 9, tid: 0 }, 77, ControlFlow::Continue);
    assert_eq!(manager.dispatch(), Some(ThreadRef { pid, tid: 1 }));
}
