use jit::gostack::{GoStack, WasmEnv};
use jit::runtime::{bad_pointer, get_random_data, nanotime1, out_of_bounds, random_pointer};
use jit::runtime::{reset_memory_data_view, schedule_timeout_event, unbound, wasm_exit};
use jit::runtime::{wasm_write, Escape, Stream};

fn env_with(memory: Vec<u8>) -> WasmEnv {
    let mut env = WasmEnv::default();
    env.memory = Some(memory);
    env
}

fn write_frame(size: usize, sp: u32, fd: u64, ptr: u64, len: u32, text: &[u8]) -> WasmEnv {
    let mut stack = GoStack::new_sans_env(sp, vec![0u8; size]);
    stack.write_u64(0, fd).unwrap();
    stack.write_u64(1, ptr).unwrap();
    stack.write_u64(2, 0xffff_ffff_0000_0000 + len as u64).unwrap();
    if !text.is_empty() {
        stack.write_slice(ptr, text).unwrap();
    }
    env_with(stack.into_memory())
}

#[test]
fn exit_carries_the_status_code() {
    let mut stack = GoStack::new_sans_env(8, vec![0u8; 32]);
    stack.write_u64(0, 0xdead_beef_0000_002a).unwrap();
    let mut env = env_with(stack.into_memory());
    let before = env.memory.clone();
    assert_eq!(wasm_exit(&mut env, 8), Err(Escape::Exit(42)));
    assert_eq!(env.memory, before);
    assert_eq!(wasm_exit(&mut env, 0), Err(Escape::Exit(0)));
    assert_eq!(wasm_exit(&mut env, 12), Err(Escape::Exit(0xdead_beef)));
}

#[test]
fn exit_is_told_apart_from_failure() {
    let mut env = env_with(vec![0u8; 32]);
    assert_eq!(wasm_exit(&mut env, 20), Err(Escape::Exit(0)));
    assert_eq!(wasm_exit(&mut env, 21), Err(out_of_bounds()));
    assert_ne!(Escape::Exit(0), out_of_bounds());
    let mut unbound_env = WasmEnv::default();
    assert_eq!(wasm_exit(&mut unbound_env, 0), Err(unbound()));
}

#[test]
fn a_write_to_descriptor_two_is_for_the_error_stream() {
    let mut env = write_frame(64, 0, 2, 40, 5, b"hello");
    let before = env.memory.clone();
    assert_eq!(wasm_write(&mut env, 0), Ok((Stream::Stderr, b"hello".to_vec())));
    assert_eq!(env.memory, before);
    assert_eq!(env.time, 0);
}

#[test]
fn a_write_to_any_other_descriptor_is_for_the_output_stream() {
    for fd in [0u64, 1, 3, 1 << 32, (1 << 32) + 2, u64::MAX] {
        let mut env = write_frame(64, 0, fd, 40, 3, b"abc");
        assert_eq!(wasm_write(&mut env, 0), Ok((Stream::Stdout, b"abc".to_vec())));
    }
}

#[test]
fn a_write_of_nothing() {
    let mut env = write_frame(64, 0, 1, 64, 0, b"");
    assert_eq!(wasm_write(&mut env, 0), Ok((Stream::Stdout, vec![])));
    let mut env = write_frame(64, 0, 1, 65, 0, b"");
    assert_eq!(wasm_write(&mut env, 0), Err(out_of_bounds()));
}

#[test]
fn a_write_needs_its_bytes_in_bounds() {
    let mut env = write_frame(64, 0, 1, 60, 5, b"");
    assert_eq!(wasm_write(&mut env, 0), Err(out_of_bounds()));
    let mut env = write_frame(64, 0, 1, 60, 4, b"wxyz");
    assert_eq!(wasm_write(&mut env, 0), Ok((Stream::Stdout, b"wxyz".to_vec())));
    let mut env = write_frame(64, 0, 2, 1 << 32, 0, b"");
    assert_eq!(wasm_write(&mut env, 0), Err(bad_pointer()));
}

#[test]
fn a_write_needs_its_frame_and_its_memory() {
    let mut env = env_with(vec![0u8; 28]);
    assert_eq!(wasm_write(&mut env, 0), Ok((Stream::Stdout, vec![])));
    assert_eq!(wasm_write(&mut env, 1), Err(out_of_bounds()));
    let mut env = env_with(vec![0u8; 23]);
    assert_eq!(wasm_write(&mut env, 0), Err(out_of_bounds()));
    let mut unbound_env = WasmEnv::default();
    assert_eq!(wasm_write(&mut unbound_env, 0), Err(unbound()));
}

#[test]
fn resetting_the_data_view_does_nothing() {
    reset_memory_data_view(0);
    reset_memory_data_view(u32::MAX);
}

#[test]
fn failure_texts_of_the_calls() {
    assert_eq!(
        random_pointer(),
        Escape::Failure("Go getRandomData pointer not a u32".to_string())
    );
    assert_eq!(format!("{:?}", Escape::Exit(3)), "Exit(3)");
}

#[test]
fn calls_leave_what_they_do_not_serve() {
    let mut stack = GoStack::new_sans_env(0, vec![0u8; 64]);
    stack.write_u64(0, 32).unwrap();
    stack.write_u64(1, 4).unwrap();
    let mut env = env_with(stack.into_memory());
    assert_eq!(get_random_data(&mut env, 0), Ok(()));
    assert_eq!(env.time, 0);
    assert!(env.timeouts.times.is_empty());
    assert_eq!(schedule_timeout_event(&mut env, 0), Ok(()));
    assert_eq!(env.time, 0);
    assert_eq!(env.rng.drawn, 1);
    assert_eq!(nanotime1(&mut env, 0), Ok(()));
    assert_eq!(env.rng.drawn, 1);
    assert_eq!(env.timeouts.times.len(), 1);
    assert_eq!(env.timeouts.next_id, 1);
}
