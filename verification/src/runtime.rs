//! The host calls that the guest's runtime makes, and how a call ends early.

use crate::encoding::{load, store, u32_le_bytes, u64_le_bytes};
use crate::encoding::{lemma_load_store, lemma_u32_write_then_read, lemma_u64_write_then_read};
use crate::gostack::{slot_addr, GoStack, WasmEnv, WasmEnvView};
use crate::rng::{lemma_advanced_twice, SeededRng};
use vstd::prelude::*;

verus! {

/// Nanoseconds in one second.
pub const NANOS_PER_SEC: u64 = 1_000_000_000;

/// Why a host call handed control back out of the guest.
#[derive(Debug, Clone, PartialEq, Eq)]
pub enum Escape {
    /// The guest asked to exit with this status code. This is how a program
    /// ends normally, not an error.
    Exit(u32),
    /// The guest broke the calling convention; the text says how.
    Failure(String),
}

impl Escape {
    /// Whether this is the failure that carries `text`.
    pub open spec fn is_failure(self, text: Seq<char>) -> bool {
        self matches Escape::Failure(message) && message@ == text
    }
}

/// Whether `r` is the failure that carries `text`.
pub open spec fn fails_with<T>(r: Result<T, Escape>, text: Seq<char>) -> bool {
    match r {
        Ok(_) => false,
        Err(e) => e.is_failure(text),
    }
}

/// The failure text for an access that leaves the guest's memory.
pub open spec fn out_of_bounds_text() -> Seq<char> {
    "memory access out of bounds"@
}

/// The failure text for an address that is no 32-bit number.
pub open spec fn bad_pointer_text() -> Seq<char> {
    "Go pointer not a u32"@
}

/// The failure text for a length that is no 32-bit number.
pub open spec fn bad_length_text() -> Seq<char> {
    "length isn't a u32"@
}

/// The failure text for a call made before the guest's memory was bound.
pub open spec fn unbound_text() -> Seq<char> {
    "memory not bound"@
}

/// The failure text for a clock that cannot advance any further.
pub open spec fn clock_overflow_text() -> Seq<char> {
    "virtual clock overflow"@
}

/// The failure text for a session that has handed out every timer id.
pub open spec fn ids_exhausted_text() -> Seq<char> {
    "timeout ids exhausted"@
}

/// The failure of an access that leaves the guest's memory.
pub fn out_of_bounds() -> (e: Escape)
    ensures
        e.is_failure(out_of_bounds_text()),
{
    Escape::Failure("memory access out of bounds".to_owned())
}

/// The failure of an address that is no 32-bit number.
pub fn bad_pointer() -> (e: Escape)
    ensures
        e.is_failure(bad_pointer_text()),
{
    Escape::Failure("Go pointer not a u32".to_owned())
}

/// The failure of a length that is no 32-bit number.
pub fn bad_length() -> (e: Escape)
    ensures
        e.is_failure(bad_length_text()),
{
    Escape::Failure("length isn't a u32".to_owned())
}

/// The failure of a call made before the guest's memory was bound.
pub fn unbound() -> (e: Escape)
    ensures
        e.is_failure(unbound_text()),
{
    Escape::Failure("memory not bound".to_owned())
}

/// The failure of a clock that cannot advance any further.
pub fn clock_overflow() -> (e: Escape)
    ensures
        e.is_failure(clock_overflow_text()),
{
    Escape::Failure("virtual clock overflow".to_owned())
}

/// The failure of a session that has handed out every timer id.
pub fn ids_exhausted() -> (e: Escape)
    ensures
        e.is_failure(ids_exhausted_text()),
{
    Escape::Failure("timeout ids exhausted".to_owned())
}

/// The failure text for a random-data destination that is no 32-bit number.
pub open spec fn random_pointer_text() -> Seq<char> {
    "Go getRandomData pointer not a u32"@
}

/// The failure of a random-data destination that is no 32-bit number.
pub fn random_pointer() -> (e: Escape)
    ensures
        e.is_failure(random_pointer_text()),
{
    Escape::Failure("Go getRandomData pointer not a u32".to_owned())
}

/// Where a host call stands: the session as it is by now, and the failure
/// that stopped the call, if one did. A step taken after a failure changes
/// nothing.
pub struct CallState {
    pub env: WasmEnvView,
    pub failure: Option<Seq<char>>,
}

impl CallState {
    /// The start of a call: it fails at once if no memory is bound.
    pub open spec fn begin(env: WasmEnvView) -> CallState {
        CallState {
            env,
            failure: if env.memory is None {
                Some(unbound_text())
            } else {
                None
            },
        }
    }

    /// The call stopped by the failure `text`, unless it had stopped before.
    pub open spec fn fail(self, text: Seq<char>) -> CallState {
        if self.failure is Some {
            self
        } else {
            CallState { failure: Some(text), ..self }
        }
    }

    /// The call after it checked that `width` bytes from `addr` on can be read.
    pub open spec fn check(self, addr: int, width: nat) -> CallState {
        if self.failure is None && !self.env.holds(addr, width) {
            self.fail(out_of_bounds_text())
        } else {
            self
        }
    }

    /// The call after a clock query.
    pub open spec fn tick(self) -> CallState {
        if self.failure is Some {
            self
        } else if !self.env.can_tick() {
            self.fail(clock_overflow_text())
        } else {
            CallState { env: self.env.ticked(), ..self }
        }
    }

    /// The call after it stored `bytes` from `addr` on.
    pub open spec fn put(self, addr: int, bytes: Seq<u8>) -> CallState {
        if self.failure is Some {
            self
        } else if !self.env.holds(addr, bytes.len()) {
            self.fail(out_of_bounds_text())
        } else {
            CallState { env: self.env.stored(addr, bytes), ..self }
        }
    }

    /// Whether `r` ends the call as this state says: `Ok` if nothing
    /// failed, and else the failure with this state's text.
    pub open spec fn ends<T>(self, r: Result<T, Escape>) -> bool {
        match self.failure {
            None => r is Ok,
            Some(text) => fails_with(r, text),
        }
    }
}

/// Does nothing. The guest's runtime makes this call; there is no data view to reset.
pub fn reset_memory_data_view(_sp: u32) {
}

/// The status code that the guest asks to exit with: the 32-bit number in slot 0.
pub open spec fn exit_code(env: WasmEnvView, sp: u32) -> u32 {
    env.value_at(slot_addr(sp, 0), 4) as u32
}

/// Ends the guest: the call never returns `Ok`. It returns
/// [`Escape::Exit`] with the status code in slot 0, or the failure that
/// kept it from reading that slot. The session stays as it is.
pub fn wasm_exit(env: &mut WasmEnv, sp: u32) -> (r: Result<(), Escape>)
    ensures
        final(env)@ == old(env)@,
        old(env)@.memory is None ==> fails_with(r, unbound_text()),
        old(env)@.memory is Some && !old(env)@.holds(slot_addr(sp, 0), 4) ==> fails_with(
            r,
            out_of_bounds_text(),
        ),
        old(env)@.holds(slot_addr(sp, 0), 4) ==> r == Err::<(), Escape>(
            Escape::Exit(exit_code(old(env)@, sp)),
        ),
{
    let stack = match GoStack::new(sp, env) {
        Ok(stack) => stack,
        Err(e) => { return Err(e); },
    };
    let code = stack.read_u32(0);
    stack.release(env);
    assert(env@.memory == old(env)@.memory);
    match code {
        Ok(code) => Err(Escape::Exit(code)),
        Err(e) => Err(e),
    }
}

/// One of the host's two text streams.
#[derive(Debug, Clone, Copy, PartialEq, Eq, Structural)]
pub enum Stream {
    /// The standard output stream
    Stdout,
    /// The standard error stream
    Stderr,
}

/// The stream that the guest's file descriptor `fd` stands for: 2 is the
/// error stream, everything else the output stream.
pub open spec fn stream_of(fd: u64) -> Stream {
    if fd == 2 {
        Stream::Stderr
    } else {
        Stream::Stdout
    }
}

/// What a byte-write call reads from its frame, up to the failure that
/// stops it: the three slots, then an address that fits 32 bits, then the
/// bytes themselves.
pub open spec fn wasm_write_spec(env: WasmEnvView, sp: u32) -> CallState {
    let read = CallState::begin(env).check(slot_addr(sp, 0), 8).check(slot_addr(sp, 1), 8).check(
        slot_addr(sp, 2),
        4,
    );
    if read.failure is Some {
        read
    } else if env.value_at(slot_addr(sp, 1), 8) > u32::MAX {
        read.fail(bad_pointer_text())
    } else {
        read.check(
            env.value_at(slot_addr(sp, 1), 8) as int,
            env.value_at(slot_addr(sp, 2), 4),
        )
    }
}

/// Serves the guest's write to a file descriptor: slot 0 holds the
/// descriptor, slot 1 the address of the bytes, slot 2 their number. The
/// call returns the bytes and the stream that they are for; to write them
/// there is the caller's part. The session stays as it is.
pub fn wasm_write(env: &mut WasmEnv, sp: u32) -> (r: Result<(Stream, Vec<u8>), Escape>)
    ensures
        final(env)@ == old(env)@,
        wasm_write_spec(old(env)@, sp).ends(r),
        r matches Ok(out) ==> out.0 == stream_of(
            old(env)@.value_at(slot_addr(sp, 0), 8) as u64,
        ) && out.1@ == load(
            old(env)@.memory.unwrap(),
            old(env)@.value_at(slot_addr(sp, 1), 8) as int,
            old(env)@.value_at(slot_addr(sp, 2), 4),
        ),
{
    let stack = match GoStack::new(sp, env) {
        Ok(stack) => stack,
        Err(e) => { return Err(e); },
    };
    let r = match stack.read_u64(0) {
        Err(e) => Err(e),
        Ok(fd) => match stack.read_u64(1) {
            Err(e) => Err(e),
            Ok(ptr) => match stack.read_u32(2) {
                Err(e) => Err(e),
                Ok(len) => match stack.read_slice(ptr, len as u64) {
                    Err(e) => Err(e),
                    Ok(buf) => Ok(
                        (
                            if fd == 2 {
                                Stream::Stderr
                            } else {
                                Stream::Stdout
                            },
                            buf,
                        ),
                    ),
                },
            },
        },
    };
    stack.release(env);
    assert(env@.memory == old(env)@.memory);
    r
}

/// What the clock query that stores nanoseconds does: the clock advances,
/// then the new time goes into slot 0.
pub open spec fn nanotime1_spec(env: WasmEnvView, sp: u32) -> CallState {
    let ticked = CallState::begin(env).tick();
    ticked.put(slot_addr(sp, 0), u64_le_bytes(ticked.env.time))
}

/// Serves a query of the monotonic clock: the clock advances by one
/// interval, and the new time, in nanoseconds, goes into slot 0.
pub fn nanotime1(env: &mut WasmEnv, sp: u32) -> (r: Result<(), Escape>)
    ensures
        final(env)@ == nanotime1_spec(old(env)@, sp).env,
        nanotime1_spec(old(env)@, sp).ends(r),
{
    let mut stack = match GoStack::new(sp, env) {
        Ok(stack) => stack,
        Err(e) => { return Err(e); },
    };
    let r = match env.tick() {
        Err(e) => Err(e),
        Ok(now) => stack.write_u64(0, now),
    };
    stack.release(env);
    assert(env@.memory == nanotime1_spec(old(env)@, sp).env.memory);
    r
}

/// What the clock query that stores seconds and a 32-bit rest does.
pub open spec fn walltime_spec(env: WasmEnvView, sp: u32) -> CallState {
    let ticked = CallState::begin(env).tick();
    ticked.put(slot_addr(sp, 0), u64_le_bytes(ticked.env.time / NANOS_PER_SEC)).put(
        slot_addr(sp, 1),
        u32_le_bytes((ticked.env.time % NANOS_PER_SEC) as u32),
    )
}

/// Serves a query of the wall clock: the clock advances by one interval,
/// the whole seconds of the new time go into slot 0 and the nanoseconds
/// that remain into slot 1, as a 32-bit number.
pub fn walltime(env: &mut WasmEnv, sp: u32) -> (r: Result<(), Escape>)
    ensures
        final(env)@ == walltime_spec(old(env)@, sp).env,
        walltime_spec(old(env)@, sp).ends(r),
{
    let mut stack = match GoStack::new(sp, env) {
        Ok(stack) => stack,
        Err(e) => { return Err(e); },
    };
    let r = match env.tick() {
        Err(e) => Err(e),
        Ok(now) => match stack.write_u64(0, now / NANOS_PER_SEC) {
            Err(e) => Err(e),
            Ok(()) => stack.write_u32(1, (now % NANOS_PER_SEC) as u32),
        },
    };
    stack.release(env);
    assert(env@.memory == walltime_spec(old(env)@, sp).env.memory);
    r
}

/// What the clock query that stores seconds and a 64-bit rest does.
pub open spec fn walltime1_spec(env: WasmEnvView, sp: u32) -> CallState {
    let ticked = CallState::begin(env).tick();
    ticked.put(slot_addr(sp, 0), u64_le_bytes(ticked.env.time / NANOS_PER_SEC)).put(
        slot_addr(sp, 1),
        u64_le_bytes(ticked.env.time % NANOS_PER_SEC),
    )
}

/// Serves a query of the wall clock as later runtimes make it: as
/// [`walltime`], but the nanoseconds go into slot 1 as a 64-bit number.
pub fn walltime1(env: &mut WasmEnv, sp: u32) -> (r: Result<(), Escape>)
    ensures
        final(env)@ == walltime1_spec(old(env)@, sp).env,
        walltime1_spec(old(env)@, sp).ends(r),
{
    let mut stack = match GoStack::new(sp, env) {
        Ok(stack) => stack,
        Err(e) => { return Err(e); },
    };
    let r = match env.tick() {
        Err(e) => Err(e),
        Ok(now) => match stack.write_u64(0, now / NANOS_PER_SEC) {
            Err(e) => Err(e),
            Ok(()) => stack.write_u64(1, now % NANOS_PER_SEC),
        },
    };
    stack.release(env);
    assert(env@.memory == walltime1_spec(old(env)@, sp).env.memory);
    r
}

/// What scheduling a timer does: the delay is read from slot 0, the timer
/// is scheduled at the current time, and its id goes into slot 1.
pub open spec fn schedule_timeout_event_spec(env: WasmEnvView, sp: u32) -> CallState {
    let read = CallState::begin(env).check(slot_addr(sp, 0), 8);
    if read.failure is Some {
        read
    } else if !env.timeouts.can_schedule() {
        read.fail(ids_exhausted_text())
    } else {
        let delay = env.value_at(slot_addr(sp, 0), 8) as u64;
        CallState {
            env: WasmEnvView { timeouts: env.timeouts.schedule(delay, env.time), ..env },
            failure: None,
        }.put(slot_addr(sp, 1), u32_le_bytes(env.timeouts.next_id))
    }
}

/// Schedules a timer: slot 0 holds the delay in milliseconds, counted from
/// the current virtual time; the new timer's id goes into slot 1.
pub fn schedule_timeout_event(env: &mut WasmEnv, sp: u32) -> (r: Result<(), Escape>)
    ensures
        final(env)@ == schedule_timeout_event_spec(old(env)@, sp).env,
        schedule_timeout_event_spec(old(env)@, sp).ends(r),
{
    let mut stack = match GoStack::new(sp, env) {
        Ok(stack) => stack,
        Err(e) => { return Err(e); },
    };
    let r = match stack.read_u64(0) {
        Err(e) => Err(e),
        Ok(delay) => match env.timeouts.schedule(delay, env.time) {
            None => Err(ids_exhausted()),
            Some(id) => stack.write_u32(1, id),
        },
    };
    stack.release(env);
    assert(env@.memory == schedule_timeout_event_spec(old(env)@, sp).env.memory);
    r
}

/// What clearing a timer does: the id is read from slot 0 and leaves the
/// pending ids.
pub open spec fn clear_timeout_event_spec(env: WasmEnvView, sp: u32) -> CallState {
    let read = CallState::begin(env).check(slot_addr(sp, 0), 4);
    if read.failure is Some {
        read
    } else {
        CallState {
            env: WasmEnvView {
                timeouts: env.timeouts.cancel(env.value_at(slot_addr(sp, 0), 4) as u32),
                ..env
            },
            failure: None,
        }
    }
}

/// What a call to clear a timer found.
#[derive(Debug, Clone, Copy, PartialEq, Eq, Structural)]
pub struct Cleared {
    /// The id that the guest asked to clear
    pub id: u32,
    /// Whether that id was pending until now
    pub was_pending: bool,
}

/// Clears the timer whose id slot 0 holds, and says which id that was and
/// whether it was pending. An id that is not pending is no failure: the
/// call leaves the session as it is, and the caller may warn.
pub fn clear_timeout_event(env: &mut WasmEnv, sp: u32) -> (r: Result<Cleared, Escape>)
    ensures
        final(env)@ == clear_timeout_event_spec(old(env)@, sp).env,
        clear_timeout_event_spec(old(env)@, sp).ends(r),
        r matches Ok(cleared) ==> cleared.id == old(env)@.value_at(slot_addr(sp, 0), 4)
            && cleared.was_pending == old(env)@.timeouts.pending_ids.contains(cleared.id),
{
    let stack = match GoStack::new(sp, env) {
        Ok(stack) => stack,
        Err(e) => { return Err(e); },
    };
    let r = match stack.read_u32(0) {
        Err(e) => Err(e),
        Ok(id) => Ok(Cleared { id, was_pending: env.timeouts.cancel(id) }),
    };
    stack.release(env);
    assert(env@.memory == old(env)@.memory);
    r
}

/// The number of bytes between the address `dest` and the end of a memory
/// of `size` bytes.
pub open spec fn room(size: nat, dest: int) -> nat {
    if 0 <= dest <= size {
        (size - dest) as nat
    } else {
        0
    }
}

/// The first `count` bytes that a word gives when it is written byte by
/// byte, least significant first. After its four bytes come zeros.
pub open spec fn low_bytes(word: u32, count: nat) -> Seq<u8> {
    Seq::new(
        count,
        |j: int|
            if j < 4 {
                u32_le_bytes(word)[j]
            } else {
                0u8
            },
    )
}

/// Writes the `count` low bytes of `word` from the address `ptr` on, least
/// significant first, one byte at a time. The first byte that does not
/// lie inside the memory fails the call; the bytes before it stay written.
pub fn write_low_bytes(sp: &mut GoStack, ptr: u64, word: u32, count: u64) -> (r: Result<
    (),
    Escape,
>)
    ensures
        final(sp).start() == old(sp).start(),
        count <= room(old(sp)@.len(), ptr as int) ==> r is Ok && final(sp)@ == store(
            old(sp)@,
            ptr as int,
            low_bytes(word, count as nat),
        ),
        count > room(old(sp)@.len(), ptr as int) ==> fails_with(r, out_of_bounds_text())
            && final(sp)@ == store(
            old(sp)@,
            ptr as int,
            low_bytes(word, room(old(sp)@.len(), ptr as int)),
        ),
{
    let size = sp.size();
    let ghost before = sp@;
    let mut rem = word;
    let mut at = ptr;
    let mut j: u64 = 0;
    assert(sp@ =~= store(before, ptr as int, low_bytes(word, 0)));
    while j < count
        invariant
            j <= count,
            at == ptr + j,
            before == old(sp)@,
            size == before.len(),
            sp@.len() == before.len(),
            sp.start() == old(sp).start(),
            j <= room(before.len(), ptr as int),
            sp@ == store(before, ptr as int, low_bytes(word, j as nat)),
            j == 0 ==> rem == word,
            j == 1 ==> rem == word / 0x100,
            j == 2 ==> rem == word / 0x1_0000,
            j == 3 ==> rem == word / 0x100_0000,
            j >= 4 ==> rem == 0,
        decreases count - j,
    {
        let byte = (rem % 0x100) as u8;
        match sp.store_u8(at, byte) {
            Err(e) => {
                return Err(e);
            },
            Ok(()) => {},
        }
        proof {
            assert(word / 0x100 / 0x100 == word / 0x1_0000);
            assert(word / 0x1_0000 / 0x100 == word / 0x100_0000);
            assert(word / 0x100_0000 / 0x100 == 0);
            assert(low_bytes(word, (j + 1) as nat)[j as int] == byte);
            assert(sp@ =~= store(before, ptr as int, low_bytes(word, (j + 1) as nat)));
        }
        rem = rem / 0x100;
        at += 1;
        j += 1;
    }
    Ok(())
}

/// The number of bytes that a fill of `len` bytes at `dest` writes into a
/// memory of `size` bytes. A fill that fits writes them all. One that
/// does not stops at the first write that leaves the memory: whole words
/// are written as long as a word fits, and a last part of a word is
/// written byte by byte.
pub open spec fn fill_written(size: nat, dest: int, len: nat) -> nat {
    let room = room(size, dest);
    if len <= room {
        len
    } else if room / 4 < len / 4 {
        4 * (room / 4)
    } else {
        room
    }
}

/// The number of words that a fill of `len` bytes at `dest` draws: one for
/// every four bytes, and one more for what remains. A fill that fails has
/// drawn the word that it could not write in full.
pub open spec fn fill_draws(size: nat, dest: int, len: nat) -> nat {
    let room = room(size, dest);
    if len <= room {
        SeededRng::words_for(len)
    } else if room / 4 < len / 4 {
        room / 4 + 1
    } else {
        len / 4 + 1
    }
}

/// Fills `len` bytes of the memory, from the address `dest` on, with the
/// next bytes of `rng`: whole words first, then the low bytes of one more
/// word. The first write that does not lie inside the memory fails the
/// call; what was written before stays, and so do the draws.
pub fn fill_random(sp: &mut GoStack, rng: &mut SeededRng, dest: u32, len: u64) -> (r: Result<
    (),
    Escape,
>)
    ensures
        final(sp).start() == old(sp).start(),
        final(sp)@ == store(
            old(sp)@,
            dest as int,
            old(rng).bytes(fill_written(old(sp)@.len(), dest as int, len as nat)),
        ),
        *final(rng) == old(rng).advanced(fill_draws(old(sp)@.len(), dest as int, len as nat)),
        len <= room(old(sp)@.len(), dest as int) ==> r is Ok,
        len > room(old(sp)@.len(), dest as int) ==> fails_with(r, out_of_bounds_text()),
{
    let size = sp.size();
    let ghost before = sp@;
    let ghost start = *rng;
    let mut at: u64 = dest as u64;
    let mut left = len;
    let mut k: u64 = 0;
    proof {
        lemma_advanced_twice(start, 0, 0);
        assert(start.advanced(0) == start);
        assert(sp@ =~= store(before, dest as int, start.bytes(0)));
    }
    while left >= 4
        invariant
            before == old(sp)@,
            start == *old(rng),
            size == before.len(),
            sp@.len() == before.len(),
            sp.start() == old(sp).start(),
            len == left + 4 * k,
            at == dest + 4 * k,
            4 * k <= room(before.len(), dest as int) || k == 0,
            sp@ == store(before, dest as int, start.bytes((4 * k) as nat)),
            *rng == start.advanced(k as nat),
        decreases left,
    {
        let word = rng.next_u32();
        proof {
            lemma_advanced_twice(start, k as nat, 0);
            lemma_advanced_twice(start, k as nat, 1);
        }
        match sp.store_u32(at, word) {
            Err(e) => {
                return Err(e);
            },
            Ok(()) => {},
        }
        proof {
            let grown = start.bytes((4 * k + 4) as nat);
            assert forall|i: int| 4 * k <= i < 4 * k + 4 implies #[trigger] grown[i]
                == u32_le_bytes(word)[i - 4 * k] by {
                assert(i / 4 == k);
                assert(i % 4 == i - 4 * k);
            }
            assert(sp@ =~= store(before, dest as int, grown));
        }
        at += 4;
        left -= 4;
        k += 1;
    }
    if left > 0 {
        let word = rng.next_u32();
        proof {
            lemma_advanced_twice(start, k as nat, 0);
            lemma_advanced_twice(start, k as nat, 1);
        }
        let ghost whole = sp@;
        let r = write_low_bytes(sp, at, word, left);
        proof {
            let room = room(before.len(), dest as int);
            let fit = if left <= room - 4 * k {
                left as nat
            } else {
                (room - 4 * k) as nat
            };
            let grown = start.bytes((4 * k + fit) as nat);
            assert forall|i: int| 4 * k <= i < 4 * k + fit implies #[trigger] grown[i]
                == low_bytes(word, fit)[i - 4 * k] by {
                assert(i / 4 == k);
                assert(i % 4 == i - 4 * k);
            }
            assert(sp@ =~= store(before, dest as int, grown));
        }
        r
    } else {
        Ok(())
    }
}

impl CallState {
    /// The call after it filled `len` bytes from `dest` on with random bytes.
    pub open spec fn fill(self, dest: int, len: nat) -> CallState {
        if self.failure is Some {
            self
        } else {
            let bytes = self.env.memory.unwrap();
            let filled = CallState {
                env: WasmEnvView {
                    memory: Some(
                        store(
                            bytes,
                            dest,
                            self.env.rng.bytes(fill_written(bytes.len(), dest, len)),
                        ),
                    ),
                    rng: self.env.rng.advanced(fill_draws(bytes.len(), dest, len)),
                    ..self.env
                },
                failure: None,
            };
            if len <= room(bytes.len(), dest) {
                filled
            } else {
                filled.fail(out_of_bounds_text())
            }
        }
    }
}

/// What a call for random data does: the destination is read from slot 0
/// and has to fit 32 bits, the length is read from slot 1, and the memory
/// is filled.
pub open spec fn get_random_data_spec(env: WasmEnvView, sp: u32) -> CallState {
    let first = CallState::begin(env).check(slot_addr(sp, 0), 8);
    if first.failure is Some {
        first
    } else if env.value_at(slot_addr(sp, 0), 8) > u32::MAX {
        first.fail(random_pointer_text())
    } else {
        first.check(slot_addr(sp, 1), 8).fill(
            env.value_at(slot_addr(sp, 0), 8) as int,
            env.value_at(slot_addr(sp, 1), 8),
        )
    }
}

/// Fills a part of the guest's memory with random bytes: slot 0 holds the
/// address, slot 1 the number of bytes. The bytes are the next ones of the
/// session's generator, so they are the same in every session that made
/// the same calls before.
pub fn get_random_data(env: &mut WasmEnv, sp: u32) -> (r: Result<(), Escape>)
    ensures
        final(env)@ == get_random_data_spec(old(env)@, sp).env,
        get_random_data_spec(old(env)@, sp).ends(r),
{
    let mut stack = match GoStack::new(sp, env) {
        Ok(stack) => stack,
        Err(e) => { return Err(e); },
    };
    let r = match stack.read_u64(0) {
        Err(e) => Err(e),
        Ok(dest) => if dest > u32::MAX as u64 {
            Err(random_pointer())
        } else {
            match stack.read_u64(1) {
                Err(e) => Err(e),
                Ok(len) => fill_random(&mut stack, &mut env.rng, dest as u32, len),
            }
        },
    };
    stack.release(env);
    assert(env@.memory == get_random_data_spec(old(env)@, sp).env.memory);
    r
}

/// What the clock shows after a clock query rests on the time and the
/// interval alone: two sessions that agree on both agree on the clock
/// after the query, whichever of the three queries it is, whatever their
/// memories hold and wherever their frames lie. Each query moves the clock
/// by exactly one interval, even where it cannot store the result.
pub proof fn lemma_clock_queries_agree(a: WasmEnvView, sp_a: u32, b: WasmEnvView, sp_b: u32)
    requires
        a.memory is Some,
        b.memory is Some,
        a.time == b.time,
        a.time_interval == b.time_interval,
        a.can_tick(),
    ensures
        nanotime1_spec(a, sp_a).env.time == a.time + a.time_interval,
        walltime_spec(a, sp_a).env.time == a.time + a.time_interval,
        walltime1_spec(a, sp_a).env.time == a.time + a.time_interval,
        nanotime1_spec(a, sp_a).env.time == nanotime1_spec(b, sp_b).env.time,
        walltime_spec(a, sp_a).env.time == walltime_spec(b, sp_b).env.time,
        walltime1_spec(a, sp_a).env.time == walltime1_spec(b, sp_b).env.time,
        nanotime1_spec(a, sp_a).env.time_interval == a.time_interval,
        walltime_spec(a, sp_a).env.time_interval == a.time_interval,
        walltime1_spec(a, sp_a).env.time_interval == a.time_interval,
{
}

/// No call but a clock query moves the clock or changes the interval.
pub proof fn lemma_other_calls_keep_clock(env: WasmEnvView, sp: u32)
    ensures
        schedule_timeout_event_spec(env, sp).env.time == env.time,
        schedule_timeout_event_spec(env, sp).env.time_interval == env.time_interval,
        clear_timeout_event_spec(env, sp).env.time == env.time,
        clear_timeout_event_spec(env, sp).env.time_interval == env.time_interval,
        get_random_data_spec(env, sp).env.time == env.time,
        get_random_data_spec(env, sp).env.time_interval == env.time_interval,
        wasm_write_spec(env, sp).env == env,
{
}

/// A clock query that succeeds stores what the clock shows: the time in
/// nanoseconds, or its whole seconds and the nanoseconds that remain.
pub proof fn lemma_clock_queries_store(env: WasmEnvView, sp: u32)
    requires
        env.can_tick(),
    ensures
        nanotime1_spec(env, sp).failure is None ==> nanotime1_spec(env, sp).env.value_at(
            slot_addr(sp, 0),
            8,
        ) == env.time + env.time_interval,
        walltime_spec(env, sp).failure is None ==> {
            &&& walltime_spec(env, sp).env.value_at(slot_addr(sp, 0), 8) == (env.time
                + env.time_interval) / (NANOS_PER_SEC as int)
            &&& walltime_spec(env, sp).env.value_at(slot_addr(sp, 1), 4) == (env.time
                + env.time_interval) % (NANOS_PER_SEC as int)
        },
        walltime1_spec(env, sp).failure is None ==> {
            &&& walltime1_spec(env, sp).env.value_at(slot_addr(sp, 0), 8) == (env.time
                + env.time_interval) / (NANOS_PER_SEC as int)
            &&& walltime1_spec(env, sp).env.value_at(slot_addr(sp, 1), 8) == (env.time
                + env.time_interval) % (NANOS_PER_SEC as int)
        },
{
    let now = (env.time + env.time_interval) as u64;
    let secs = now / NANOS_PER_SEC;
    let nanos = now % NANOS_PER_SEC;
    let a0 = slot_addr(sp, 0);
    let a1 = slot_addr(sp, 1);
    if nanotime1_spec(env, sp).failure is None {
        lemma_u64_write_then_read(env.memory.unwrap(), a0, now);
    }
    if walltime_spec(env, sp).failure is None {
        let m0 = env.memory.unwrap();
        let m1 = store(m0, a0, u64_le_bytes(secs));
        let m2 = store(m1, a1, u32_le_bytes(nanos as u32));
        lemma_u64_write_then_read(m0, a0, secs);
        lemma_u32_write_then_read(m1, a1, nanos as u32);
        assert(load(m2, a0, 8) =~= load(m1, a0, 8));
    }
    if walltime1_spec(env, sp).failure is None {
        let m0 = env.memory.unwrap();
        let m1 = store(m0, a0, u64_le_bytes(secs));
        let m2 = store(m1, a1, u64_le_bytes(nanos));
        lemma_u64_write_then_read(m0, a0, secs);
        lemma_u64_write_then_read(m1, a1, nanos);
        assert(load(m2, a0, 8) =~= load(m1, a0, 8));
    }
}

/// The bytes that a call for random data stores rest on the generator and
/// the length alone: two sessions whose generators agree store the same
/// bytes for the same length and leave their generators in agreement,
/// whatever else they hold and wherever the bytes go.
pub proof fn lemma_random_data_agrees(a: WasmEnvView, sp_a: u32, b: WasmEnvView, sp_b: u32)
    requires
        a.rng == b.rng,
        get_random_data_spec(a, sp_a).failure is None,
        get_random_data_spec(b, sp_b).failure is None,
        a.value_at(slot_addr(sp_a, 1), 8) == b.value_at(slot_addr(sp_b, 1), 8),
    ensures
        ({
            let len = a.value_at(slot_addr(sp_a, 1), 8);
            let dest_a = a.value_at(slot_addr(sp_a, 0), 8) as int;
            let dest_b = b.value_at(slot_addr(sp_b, 0), 8) as int;
            let after_a = get_random_data_spec(a, sp_a).env;
            let after_b = get_random_data_spec(b, sp_b).env;
            &&& a.holds(dest_a, len) ==> load(after_a.memory.unwrap(), dest_a, len) == a.rng.bytes(
                len,
            )
            &&& b.holds(dest_b, len) ==> load(after_b.memory.unwrap(), dest_b, len) == a.rng.bytes(
                len,
            )
            &&& len > 0 ==> a.holds(dest_a, len) && b.holds(dest_b, len)
            &&& after_a.rng == a.rng.advanced(SeededRng::words_for(len))
            &&& after_b.rng == after_a.rng
        }),
{
    let len = a.value_at(slot_addr(sp_a, 1), 8);
    let dest_a = a.value_at(slot_addr(sp_a, 0), 8) as int;
    let dest_b = b.value_at(slot_addr(sp_b, 0), 8) as int;
    if a.holds(dest_a, len) {
        lemma_load_store(a.memory.unwrap(), dest_a, a.rng.bytes(len));
    }
    if b.holds(dest_b, len) {
        lemma_load_store(b.memory.unwrap(), dest_b, a.rng.bytes(len));
    }
}

} // verus!
