use jit::gostack::{GoStack, WasmEnv};
use jit::runtime::{clear_timeout_event, ids_exhausted, out_of_bounds, schedule_timeout_event};
use jit::runtime::{unbound, Cleared, Escape};
use jit::timeout::{TimeoutInfo, TimeoutState, NANOS_PER_MILLI};
use std::cmp::Ordering;

fn timer_env(size: usize) -> WasmEnv {
    let mut env = WasmEnv::default();
    env.memory = Some(vec![0u8; size]);
    env
}

fn set_timer_slot_u64(env: &mut WasmEnv, sp: u32, arg: u32, x: u64) {
    let mut stack = GoStack::new(sp, env).unwrap();
    stack.write_u64(arg, x).unwrap();
    stack.release(env);
}

fn timer_slot_u32(env: &mut WasmEnv, sp: u32, arg: u32) -> u32 {
    let stack = GoStack::new(sp, env).unwrap();
    let x = stack.read_u32(arg).unwrap();
    stack.release(env);
    x
}

fn pop_order(state: &TimeoutState) -> Vec<u32> {
    let mut times = state.times.clone();
    let mut ids = vec![];
    while let Some(next) = times.pop() {
        ids.push(next.id);
    }
    ids
}

#[test]
fn a_new_state_is_empty() {
    let state = TimeoutState::default();
    assert!(state.times.is_empty());
    assert!(state.pending_ids.is_empty());
    assert_eq!(state.next_id, 0);
}

#[test]
fn two_timers_with_the_same_delay() {
    let mut env = timer_env(64);
    assert_eq!(env.time, 0);
    assert_eq!(env.time_interval, 10_000_000);
    set_timer_slot_u64(&mut env, 0, 0, 5);
    assert_eq!(schedule_timeout_event(&mut env, 0), Ok(()));
    assert_eq!(timer_slot_u32(&mut env, 0, 1), 0);
    assert_eq!(env.timeouts.times, vec![TimeoutInfo { time: 5_000_000, id: 0 }]);

    set_timer_slot_u64(&mut env, 32, 0, 5);
    assert_eq!(schedule_timeout_event(&mut env, 32), Ok(()));
    assert_eq!(timer_slot_u32(&mut env, 32, 1), 1);
    assert_eq!(
        env.timeouts.times,
        vec![TimeoutInfo { time: 5_000_000, id: 1 }, TimeoutInfo { time: 5_000_000, id: 0 }]
    );
    assert_eq!(pop_order(&env.timeouts), vec![0, 1]);
    assert_eq!(env.timeouts.next_id, 2);
    assert!(env.timeouts.is_pending(0));
    assert!(env.timeouts.is_pending(1));
    assert!(!env.timeouts.is_pending(2));
    assert_eq!(env.time, 0);
}

#[test]
fn timers_pop_in_the_order_in_which_they_are_due() {
    let mut state = TimeoutState::default();
    assert_eq!(state.schedule(30, 0), Some(0));
    assert_eq!(state.schedule(10, 0), Some(1));
    assert_eq!(state.schedule(20, 0), Some(2));
    assert_eq!(state.schedule(10, 0), Some(3));
    assert_eq!(state.schedule(0, 0), Some(4));
    assert_eq!(state.schedule(40, 0), Some(5));
    assert_eq!(pop_order(&state), vec![4, 1, 3, 2, 0, 5]);
    assert_eq!(state.times.last(), Some(&TimeoutInfo { time: 0, id: 4 }));
    assert_eq!(state.times.first(), Some(&TimeoutInfo { time: 40 * NANOS_PER_MILLI, id: 5 }));
}

#[test]
fn the_delay_counts_from_the_current_time() {
    let mut state = TimeoutState::default();
    assert_eq!(state.schedule(5, 1_000), Some(0));
    assert_eq!(state.schedule(1, 7_000_000), Some(1));
    assert_eq!(
        state.times,
        vec![TimeoutInfo { time: 8_000_000, id: 1 }, TimeoutInfo { time: 5_001_000, id: 0 }]
    );
}

#[test]
fn the_fire_time_saturates() {
    let mut state = TimeoutState::default();
    assert_eq!(state.schedule(u64::MAX, 0), Some(0));
    assert_eq!(state.schedule(u64::MAX / 1_000_000, 1_000_000), Some(1));
    assert_eq!(state.schedule(u64::MAX / 1_000_000 + 1, 0), Some(2));
    assert_eq!(state.schedule(1, u64::MAX), Some(3));
    assert_eq!(state.schedule(0, u64::MAX - 1), Some(4));
    let times: Vec<u64> = state.times.iter().map(|t| t.time).collect();
    assert_eq!(times, vec![u64::MAX, u64::MAX, u64::MAX, u64::MAX, u64::MAX - 1]);
    assert_eq!(pop_order(&state), vec![4, 0, 1, 2, 3]);
}

#[test]
fn ids_run_out_before_they_wrap() {
    let mut state = TimeoutState::default();
    state.next_id = u32::MAX - 1;
    assert_eq!(state.schedule(1, 0), Some(u32::MAX - 1));
    assert_eq!(state.next_id, u32::MAX);
    assert_eq!(state.schedule(1, 0), None);
    assert_eq!(state.next_id, u32::MAX);
    assert_eq!(state.times.len(), 1);
    assert_eq!(state.pending_ids.len(), 1);

    let mut env = timer_env(64);
    env.timeouts.next_id = u32::MAX;
    set_timer_slot_u64(&mut env, 0, 0, 5);
    assert_eq!(schedule_timeout_event(&mut env, 0), Err(ids_exhausted()));
    assert_eq!(ids_exhausted(), Escape::Failure("timeout ids exhausted".to_string()));
    assert!(env.timeouts.times.is_empty());
}

#[test]
fn clearing_takes_the_id_out_and_leaves_the_timer_in() {
    let mut state = TimeoutState::default();
    assert_eq!(state.schedule(3, 0), Some(0));
    assert_eq!(state.schedule(1, 0), Some(1));
    assert!(state.cancel(1));
    assert!(!state.is_pending(1));
    assert!(state.is_pending(0));
    assert_eq!(state.times.len(), 2);
    assert_eq!(pop_order(&state), vec![1, 0]);
    assert_eq!(state.next_id, 2);
}

#[test]
fn clearing_an_id_that_is_not_pending_changes_nothing() {
    let mut state = TimeoutState::default();
    assert_eq!(state.schedule(3, 0), Some(0));
    let times = state.times.clone();
    let pending = state.pending_ids.clone();
    assert!(!state.cancel(7));
    assert!(state.cancel(0));
    assert!(!state.cancel(0));
    assert_eq!(state.times, times);
    assert!(state.pending_ids.is_empty());
    assert_eq!(pending.len(), 1);
    assert_eq!(state.next_id, 1);
}

#[test]
fn an_id_is_never_handed_out_twice() {
    let mut state = TimeoutState::default();
    assert_eq!(state.schedule(1, 0), Some(0));
    assert!(state.cancel(0));
    assert_eq!(state.schedule(1, 0), Some(1));
    assert!(!state.is_pending(0));
    assert!(state.is_pending(1));
}

#[test]
fn clear_call_reads_the_id_from_slot_zero() {
    let mut env = timer_env(64);
    set_timer_slot_u64(&mut env, 0, 0, 9);
    assert_eq!(schedule_timeout_event(&mut env, 0), Ok(()));
    assert_eq!(schedule_timeout_event(&mut env, 0), Ok(()));
    set_timer_slot_u64(&mut env, 16, 0, 1);
    assert_eq!(clear_timeout_event(&mut env, 16), Ok(Cleared { id: 1, was_pending: true }));
    assert_eq!(clear_timeout_event(&mut env, 16), Ok(Cleared { id: 1, was_pending: false }));
    assert!(env.timeouts.is_pending(0));
    assert!(!env.timeouts.is_pending(1));
    assert_eq!(env.timeouts.times.len(), 2);
    set_timer_slot_u64(&mut env, 16, 0, 0xffff_ffff_0000_0000);
    assert_eq!(clear_timeout_event(&mut env, 16), Ok(Cleared { id: 0, was_pending: true }));
    assert!(env.timeouts.pending_ids.is_empty());
}

#[test]
fn timer_calls_need_their_frame_and_their_memory() {
    let mut env = timer_env(32);
    assert_eq!(schedule_timeout_event(&mut env, 17), Err(out_of_bounds()));
    assert_eq!(env.timeouts.next_id, 0);
    assert_eq!(clear_timeout_event(&mut env, 21), Err(out_of_bounds()));
    assert_eq!(clear_timeout_event(&mut env, 20), Ok(Cleared { id: 0, was_pending: false }));
    let mut unbound_env = WasmEnv::default();
    assert_eq!(schedule_timeout_event(&mut unbound_env, 0), Err(unbound()));
    assert_eq!(clear_timeout_event(&mut unbound_env, 0), Err(unbound()));
}

#[test]
fn a_timer_is_scheduled_before_its_id_is_stored() {
    let mut env = timer_env(32);
    set_timer_slot_u64(&mut env, 13, 0, 2);
    assert_eq!(schedule_timeout_event(&mut env, 13), Err(out_of_bounds()));
    assert_eq!(env.timeouts.times, vec![TimeoutInfo { time: 2_000_000, id: 0 }]);
    assert!(env.timeouts.is_pending(0));
    assert_eq!(env.timeouts.next_id, 1);
}

#[test]
fn the_order_of_timers_is_inverted() {
    let early = TimeoutInfo { time: 1, id: 9 };
    let late = TimeoutInfo { time: 2, id: 0 };
    assert_eq!(early.cmp(&late), Ordering::Greater);
    assert_eq!(late.cmp(&early), Ordering::Less);
    assert_eq!(early.cmp(&early), Ordering::Equal);
    assert_eq!(early.partial_cmp(&late), Some(Ordering::Greater));
    assert!(early > late);
    assert!(late < early);
    let first = TimeoutInfo { time: 5, id: 0 };
    let second = TimeoutInfo { time: 5, id: 1 };
    assert_eq!(first.cmp(&second), Ordering::Greater);
    assert_eq!(second.cmp(&first), Ordering::Less);
    assert!(first > second);
    assert!(first >= first);
    assert_eq!(first, TimeoutInfo { time: 5, id: 0 });
    assert_ne!(first, second);
}
