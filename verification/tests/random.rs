use jit::gostack::{GoStack, WasmEnv};
use jit::rng::{SeededRng, DEFAULT_SEED, DEFAULT_STREAM};
use jit::runtime::{fill_random, get_random_data, out_of_bounds, random_pointer, unbound};
use jit::runtime::write_low_bytes;
use rand::RngCore;
use rand_pcg::Pcg32;

fn env_with_frame(size: usize, sp: u32, dest: u64, len: u64) -> WasmEnv {
    let mut stack = GoStack::new_sans_env(sp, vec![0u8; size]);
    stack.write_u64(0, dest).unwrap();
    stack.write_u64(1, len).unwrap();
    let mut env = WasmEnv::default();
    env.memory = Some(stack.into_memory());
    env
}

#[test]
fn the_default_generator_starts_at_the_documented_seed() {
    assert_eq!(DEFAULT_SEED, 0xcafef00dd15ea5e5);
    assert_eq!(DEFAULT_STREAM, 0xa02bdbf7bb3c0a7);
    assert_eq!(SeededRng::default(), SeededRng { seed: DEFAULT_SEED, stream: DEFAULT_STREAM, drawn: 0 });
    assert_eq!(SeededRng::new(1, 2), SeededRng { seed: 1, stream: 2, drawn: 0 });
    assert_eq!(WasmEnv::default().rng, SeededRng::default());
}

#[test]
fn first_words_of_the_default_stream() {
    let mut rng = SeededRng::default();
    assert_eq!(rng.next_u32(), 0x285594ea);
    assert_eq!(rng.next_u32(), 0x190ca349);
    assert_eq!(rng.next_u32(), 0xcbc42ff2);
    assert_eq!(rng.drawn, 3);
}

#[test]
fn first_words_of_the_reference_stream() {
    let mut rng = SeededRng::new(42, 54);
    assert_eq!(rng.next_u32(), 0xa15c02b7);
    assert_eq!(rng.next_u32(), 0x7b47f409);
    assert_eq!(rng.next_u32(), 0xba1d3330);
}

#[test]
fn words_are_those_of_pcg32() {
    let mut ours = SeededRng::default();
    let mut theirs = Pcg32::new(DEFAULT_SEED, DEFAULT_STREAM);
    for _ in 0..1000 {
        assert_eq!(ours.next_u32(), theirs.next_u32());
    }
    let mut ours = SeededRng::new(7, u64::MAX);
    let mut theirs = Pcg32::new(7, u64::MAX);
    for _ in 0..100 {
        assert_eq!(ours.next_u32(), theirs.next_u32());
    }
}

#[test]
fn the_count_of_draws_wraps_with_the_period() {
    let mut ours = SeededRng { seed: 3, stream: 4, drawn: u64::MAX };
    let mut theirs = Pcg32::new(3, 4);
    theirs.advance(u64::MAX);
    assert_eq!(ours.next_u32(), theirs.next_u32());
    assert_eq!(ours.drawn, 0);
    assert_eq!(ours.next_u32(), Pcg32::new(3, 4).next_u32());
}

#[test]
fn six_random_bytes_from_the_default_seed() {
    let mut env = env_with_frame(64, 0, 32, 6);
    assert_eq!(get_random_data(&mut env, 0), Ok(()));
    let memory = env.memory.clone().unwrap();
    assert_eq!(&memory[32..38], &[234, 148, 85, 40, 73, 163]);
    assert_eq!(&memory[38..], &[0u8; 26][..]);
    assert_eq!(env.rng.drawn, 2);
    let mut again = env_with_frame(64, 0, 32, 6);
    assert_eq!(get_random_data(&mut again, 0), Ok(()));
    assert_eq!(again.memory.unwrap(), memory);
}

#[test]
fn two_sessions_fill_the_same_bytes() {
    let lens = [1u64, 4, 7, 0, 16, 3, 9];
    let mut a = env_with_frame(128, 0, 40, 0);
    let mut b = env_with_frame(256, 8, 100, 0);
    b.time = 77;
    for len in lens {
        let mut sa = GoStack::new(0, &mut a).unwrap();
        sa.write_u64(1, len).unwrap();
        sa.release(&mut a);
        let mut sb = GoStack::new(8, &mut b).unwrap();
        sb.write_u64(1, len).unwrap();
        sb.release(&mut b);
        assert_eq!(get_random_data(&mut a, 0), Ok(()));
        assert_eq!(get_random_data(&mut b, 8), Ok(()));
        let ma = a.memory.as_ref().unwrap();
        let mb = b.memory.as_ref().unwrap();
        let n = len as usize;
        assert_eq!(&ma[40..40 + n], &mb[100..100 + n]);
        assert_eq!(a.rng, b.rng);
    }
    assert_eq!(a.rng.drawn, 1 + 1 + 2 + 0 + 4 + 1 + 3);
}

#[test]
fn whole_words_come_first_and_low_bytes_last() {
    let mut words = Pcg32::new(DEFAULT_SEED, DEFAULT_STREAM);
    let w0 = words.next_u32().to_le_bytes();
    let w1 = words.next_u32().to_le_bytes();
    let w2 = words.next_u32().to_le_bytes();
    for tail in 1..4usize {
        let mut env = env_with_frame(64, 0, 33, 8 + tail as u64);
        assert_eq!(get_random_data(&mut env, 0), Ok(()));
        let memory = env.memory.unwrap();
        assert_eq!(&memory[33..37], &w0);
        assert_eq!(&memory[37..41], &w1);
        assert_eq!(&memory[41..41 + tail], &w2[..tail]);
        assert!(memory[41 + tail..].iter().all(|b| *b == 0));
        assert_eq!(memory[32], 0);
        assert_eq!(env.rng.drawn, 3);
    }
    for tail in 1..4usize {
        let mut env = env_with_frame(64, 0, 40, tail as u64);
        assert_eq!(get_random_data(&mut env, 0), Ok(()));
        let memory = env.memory.unwrap();
        assert_eq!(&memory[40..40 + tail], &w0[..tail]);
        assert_eq!(env.rng.drawn, 1);
    }
}

#[test]
fn a_fill_of_no_bytes_draws_nothing() {
    let mut env = env_with_frame(32, 0, 1000, 0);
    let before = env.memory.clone();
    assert_eq!(get_random_data(&mut env, 0), Ok(()));
    assert_eq!(env.memory, before);
    assert_eq!(env.rng.drawn, 0);
}

#[test]
fn a_fill_up_to_the_last_byte() {
    let mut env = env_with_frame(32, 0, 26, 6);
    assert_eq!(get_random_data(&mut env, 0), Ok(()));
    assert_eq!(&env.memory.unwrap()[26..], &[234, 148, 85, 40, 73, 163]);
}

#[test]
fn a_fill_that_leaves_the_memory_fails_at_the_first_write_that_does() {
    let mut env = env_with_frame(32, 0, 24, 12);
    assert_eq!(get_random_data(&mut env, 0), Err(out_of_bounds()));
    let memory = env.memory.unwrap();
    assert_eq!(&memory[24..], &[234, 148, 85, 40, 73, 163, 12, 25]);
    assert_eq!(env.rng.drawn, 3);

    let mut env = env_with_frame(32, 0, 26, 9);
    assert_eq!(get_random_data(&mut env, 0), Err(out_of_bounds()));
    let memory = env.memory.unwrap();
    assert_eq!(&memory[26..], &[234, 148, 85, 40, 0, 0]);
    assert_eq!(env.rng.drawn, 2);

    let mut env = env_with_frame(32, 0, 26, 7);
    assert_eq!(get_random_data(&mut env, 0), Err(out_of_bounds()));
    let memory = env.memory.unwrap();
    assert_eq!(&memory[26..], &[234, 148, 85, 40, 73, 163]);
    assert_eq!(env.rng.drawn, 2);

    let mut env = env_with_frame(32, 0, 40, 1);
    assert_eq!(get_random_data(&mut env, 0), Err(out_of_bounds()));
    assert_eq!(env.rng.drawn, 1);
}

#[test]
fn a_fill_needs_a_32_bit_destination() {
    let mut env = env_with_frame(32, 0, 1 << 32, 4);
    let before = env.memory.clone();
    assert_eq!(get_random_data(&mut env, 0), Err(random_pointer()));
    assert_eq!(env.memory, before);
    assert_eq!(env.rng.drawn, 0);
}

#[test]
fn a_fill_needs_its_frame_and_its_memory() {
    let mut env = env_with_frame(32, 0, 0, 4);
    assert_eq!(get_random_data(&mut env, 16), Err(out_of_bounds()));
    assert_eq!(get_random_data(&mut env, 32), Err(out_of_bounds()));
    assert_eq!(env.rng.drawn, 0);
    let mut unbound_env = WasmEnv::default();
    assert_eq!(get_random_data(&mut unbound_env, 0), Err(unbound()));
}

#[test]
fn fill_random_fills_from_the_generator_it_is_given() {
    let mut sp = GoStack::new_sans_env(0, vec![0u8; 16]);
    let mut rng = SeededRng::new(42, 54);
    assert_eq!(fill_random(&mut sp, &mut rng, 3, 10), Ok(()));
    assert_eq!(rng, SeededRng { seed: 42, stream: 54, drawn: 3 });
    assert_eq!(
        sp.into_memory(),
        vec![0, 0, 0, 0xb7, 0x02, 0x5c, 0xa1, 0x09, 0xf4, 0x47, 0x7b, 0x30, 0x33, 0, 0, 0]
    );
}

#[test]
fn low_bytes_of_a_word_least_significant_first() {
    let mut sp = GoStack::new_sans_env(0, vec![0xeeu8; 8]);
    assert_eq!(write_low_bytes(&mut sp, 1, 0x4433_2211, 3), Ok(()));
    assert_eq!(sp.read_slice(0, 8), Ok(vec![0xee, 0x11, 0x22, 0x33, 0xee, 0xee, 0xee, 0xee]));
    assert_eq!(write_low_bytes(&mut sp, 7, 0x4433_2211, 1), Ok(()));
    assert_eq!(write_low_bytes(&mut sp, 0, 0x4433_2211, 0), Ok(()));
    assert_eq!(sp.read_slice(0, 8), Ok(vec![0xee, 0x11, 0x22, 0x33, 0xee, 0xee, 0xee, 0x11]));
}

#[test]
fn low_bytes_past_the_fourth_are_zero() {
    let mut sp = GoStack::new_sans_env(0, vec![0xeeu8; 8]);
    assert_eq!(write_low_bytes(&mut sp, 1, 0xa4a3_a2a1, 6), Ok(()));
    assert_eq!(sp.into_memory(), vec![0xee, 0xa1, 0xa2, 0xa3, 0xa4, 0, 0, 0xee]);
}

#[test]
fn low_bytes_stop_at_the_end_of_memory() {
    let mut sp = GoStack::new_sans_env(0, vec![0u8; 4]);
    assert_eq!(write_low_bytes(&mut sp, 2, 0x0403_0201, 3), Err(out_of_bounds()));
    assert_eq!(sp.read_slice(0, 4), Ok(vec![0, 0, 1, 2]));
    assert_eq!(write_low_bytes(&mut sp, 9, 0x0403_0201, 1), Err(out_of_bounds()));
    assert_eq!(write_low_bytes(&mut sp, u64::MAX, 0x0403_0201, u64::MAX), Err(out_of_bounds()));
    assert_eq!(sp.into_memory(), vec![0, 0, 1, 2]);
}
