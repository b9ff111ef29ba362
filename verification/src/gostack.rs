//! The session record that every host call works on, and the view of the
//! guest's memory through one call frame.

use crate::encoding::{in_bounds, le_value, load, store, u32_le_bytes, u64_le_bytes};
use crate::encoding::{lemma_le_value_4, lemma_le_value_8};
use crate::rng::{SeededRng, DEFAULT_SEED, DEFAULT_STREAM};
use crate::runtime::{bad_length, bad_pointer, clock_overflow, fails_with, out_of_bounds};
use crate::runtime::{clock_overflow_text, unbound, Escape};
use crate::runtime::{bad_length_text, bad_pointer_text, out_of_bounds_text, unbound_text};
use crate::timeout::{TimeoutInfo, TimeoutState, TimeoutStateView};
use vstd::prelude::*;

verus! {

/// The time that each clock query adds to the virtual clock: 10 milliseconds.
pub const DEFAULT_TIME_INTERVAL: u64 = 10_000_000;

/// The state of one guest session.
#[derive(Clone, Debug)]
pub struct WasmEnv {
    /// The guest's linear memory, once it is bound
    pub memory: Option<Vec<u8>>,
    /// An increasing clock used when Go asks for time, measured in nanoseconds
    pub time: u64,
    /// The amount of time advanced each check. Currently 10 milliseconds
    pub time_interval: u64,
    /// The state of Go's timeouts
    pub timeouts: TimeoutState,
    /// Deterministic source of random data
    pub rng: SeededRng,
}

/// What a [`WasmEnv`] holds.
pub struct WasmEnvView {
    pub memory: Option<Seq<u8>>,
    pub time: u64,
    pub time_interval: u64,
    pub timeouts: TimeoutStateView,
    pub rng: SeededRng,
}

impl WasmEnvView {
    /// Whether the memory is bound and holds `width` bytes from `addr` on.
    pub open spec fn holds(self, addr: int, width: nat) -> bool {
        self.memory matches Some(bytes) && in_bounds(bytes.len(), addr, width)
    }

    /// The number that the `width` bytes from `addr` on spell.
    pub open spec fn value_at(self, addr: int, width: nat) -> nat {
        le_value(load(self.memory.unwrap(), addr, width))
    }

    /// The session with `bytes` stored from `addr` on.
    pub open spec fn stored(self, addr: int, bytes: Seq<u8>) -> WasmEnvView {
        WasmEnvView { memory: Some(store(self.memory.unwrap(), addr, bytes)), ..self }
    }

    /// Whether the clock can advance by one interval.
    pub open spec fn can_tick(self) -> bool {
        self.time + self.time_interval <= u64::MAX
    }

    /// The session after one clock query: the clock has advanced by exactly
    /// one interval, and nothing else has changed.
    pub open spec fn ticked(self) -> WasmEnvView {
        WasmEnvView { time: (self.time + self.time_interval) as u64, ..self }
    }

    /// The session after `n` clock queries.
    pub open spec fn ticked_times(self, n: nat) -> WasmEnvView
        decreases n,
    {
        if n == 0 {
            self
        } else {
            self.ticked_times((n - 1) as nat).ticked()
        }
    }
}

/// After `n` clock queries the clock shows the time it started with plus
/// `n` intervals. It never runs backwards: each query finds it exactly one
/// interval further than the query before.
pub proof fn lemma_clock_steps(env: WasmEnvView, n: nat)
    requires
        env.time + n * env.time_interval <= u64::MAX,
    ensures
        env.ticked_times(n).time == env.time + n * env.time_interval,
        env.ticked_times(n).time_interval == env.time_interval,
        forall|k: nat|
            k < n ==> {
                &&& (#[trigger] env.ticked_times(k)).can_tick()
                &&& env.ticked_times(k).time <= env.ticked_times(k + 1).time
                &&& env.ticked_times(k + 1).time == env.ticked_times(k).time + env.time_interval
            },
    decreases n,
{
    if n == 0 {
        assert(n * env.time_interval == 0) by (nonlinear_arith)
            requires
                n == 0,
        ;
    } else {
        let m = (n - 1) as nat;
        assert(m * env.time_interval <= n * env.time_interval) by (nonlinear_arith)
            requires
                m <= n,
        ;
        assert(n * env.time_interval == m * env.time_interval + env.time_interval)
            by (nonlinear_arith)
            requires
                n == m + 1,
        ;
        lemma_clock_steps(env, m);
        assert(env.ticked_times(n) == env.ticked_times(m).ticked());
        assert forall|k: nat| k < n implies {
            &&& (#[trigger] env.ticked_times(k)).can_tick()
            &&& env.ticked_times(k).time <= env.ticked_times(k + 1).time
            &&& env.ticked_times(k + 1).time == env.ticked_times(k).time + env.time_interval
        } by {
            if k == m {
                assert(env.ticked_times(k + 1) == env.ticked_times(m).ticked());
            }
        }
    }
}

/// Two sessions that start with the same time and the same interval show
/// the same time after every clock query, whatever else they hold.
pub proof fn lemma_clocks_agree(a: WasmEnvView, b: WasmEnvView, n: nat)
    requires
        a.time == b.time,
        a.time_interval == b.time_interval,
    ensures
        a.ticked_times(n).time == b.ticked_times(n).time,
        a.ticked_times(n).time_interval == b.ticked_times(n).time_interval,
    decreases n,
{
    if n > 0 {
        lemma_clocks_agree(a, b, (n - 1) as nat);
    }
}

impl View for WasmEnv {
    type V = WasmEnvView;

    open spec fn view(&self) -> WasmEnvView {
        WasmEnvView {
            memory: match self.memory {
                Some(bytes) => Some(bytes@),
                None => None,
            },
            time: self.time,
            time_interval: self.time_interval,
            timeouts: self.timeouts@,
            rng: self.rng,
        }
    }
}

impl Default for WasmEnv {
    fn default() -> (env: WasmEnv)
        ensures
            env@.memory is None,
            env@.time == 0,
            env@.time_interval == DEFAULT_TIME_INTERVAL,
            env@.timeouts.times == Seq::<TimeoutInfo>::empty(),
            env@.timeouts.pending_ids == Set::<u32>::empty(),
            env@.timeouts.next_id == 0,
            env@.timeouts.wf(),
            env@.rng == (SeededRng { seed: DEFAULT_SEED, stream: DEFAULT_STREAM, drawn: 0 }),
    {
        WasmEnv {
            memory: None,
            time: 0,
            time_interval: DEFAULT_TIME_INTERVAL,
            timeouts: TimeoutState::default(),
            rng: SeededRng::default(),
        }
    }
}

impl WasmEnv {
    /// Advances the clock by one interval and returns the new time. A clock
    /// that would pass the largest time there is stays as it is, and the
    /// call fails.
    pub fn tick(&mut self) -> (r: Result<u64, Escape>)
        ensures
            old(self)@.can_tick() ==> r == Ok::<u64, Escape>(old(self)@.ticked().time)
                && final(self)@ == old(self)@.ticked(),
            !old(self)@.can_tick() ==> fails_with(r, clock_overflow_text()) && final(self)@
                == old(self)@,
    {
        match self.time.checked_add(self.time_interval) {
            Some(now) => {
                self.time = now;
                Ok(now)
            },
            None => Err(clock_overflow()),
        }
    }
}

/// The address of slot `arg` in the frame at `start`. Slot 0 is the first
/// one after the word that the calling convention keeps for itself.
pub open spec fn slot_addr(start: u32, arg: u32) -> int {
    start + (arg + 1) * 8
}

/// The guest's memory as one host call sees it: the bytes, and the frame
/// that the call's arguments and results lie in.
///
/// The stack holds the memory for as long as the call lasts: [`GoStack::new`]
/// takes it out of the session record and [`GoStack::release`] puts it back.
#[derive(Debug)]
pub struct GoStack {
    start: u32,
    memory: Vec<u8>,
}

impl View for GoStack {
    type V = Seq<u8>;

    /// The bytes of the guest's memory.
    closed spec fn view(&self) -> Seq<u8> {
        self.memory@
    }
}

impl GoStack {
    /// The address of the call's frame.
    pub closed spec fn start(&self) -> u32 {
        self.start
    }

    /// The address of slot `arg` of the call's frame.
    pub open spec fn slot(&self, arg: u32) -> int {
        slot_addr(self.start(), arg)
    }

    /// Whether `width` bytes from `addr` on lie inside the memory.
    pub open spec fn holds(&self, addr: int, width: nat) -> bool {
        in_bounds(self@.len(), addr, width)
    }

    /// The number that the `width` bytes from `addr` on spell.
    pub open spec fn value_at(&self, addr: int, width: nat) -> nat {
        le_value(load(self@, addr, width))
    }

    /// A view of `memory` through the frame at `start`, for a call that
    /// needs nothing of the session record.
    pub fn new_sans_env(start: u32, memory: Vec<u8>) -> (sp: GoStack)
        ensures
            sp.start() == start,
            sp@ == memory@,
    {
        GoStack { start, memory }
    }

    /// A view of the session's memory through the frame at `start`. The
    /// memory leaves `env` until [`GoStack::release`] hands it back. A
    /// session whose memory is not bound fails the call.
    pub fn new(start: u32, env: &mut WasmEnv) -> (r: Result<GoStack, Escape>)
        ensures
            old(env)@.memory matches Some(bytes) ==> (r matches Ok(sp) && sp.start() == start
                && sp@ == bytes) && final(env)@ == (WasmEnvView { memory: None, ..old(env)@ }),
            old(env)@.memory is None ==> fails_with(r, unbound_text())
                && final(env)@ == old(env)@,
    {
        match env.memory.take() {
            Some(memory) => Ok(GoStack { start, memory }),
            None => Err(unbound()),
        }
    }

    /// Ends the call: the memory goes back into `env`.
    pub fn release(self, env: &mut WasmEnv)
        ensures
            final(env)@ == (WasmEnvView { memory: Some(self@), ..old(env)@ }),
    {
        env.memory = Some(self.memory);
    }

    /// Ends a call made without the session record, and hands the memory out.
    pub fn into_memory(self) -> (memory: Vec<u8>)
        ensures
            memory@ == self@,
    {
        self.memory
    }

    /// The number of bytes in the memory.
    pub fn size(&self) -> (size: usize)
        ensures
            size == self@.len(),
    {
        self.memory.len()
    }

    /// The address of slot `arg`.
    fn offset(&self, arg: u32) -> (addr: u64)
        ensures
            addr == self.slot(arg),
    {
        self.start as u64 + (arg as u64 + 1) * 8
    }

    /// Whether `width` bytes from `addr` on lie inside the memory.
    fn fits(&self, addr: u64, width: u64) -> (ok: bool)
        ensures
            ok == self.holds(addr as int, width as nat),
            ok ==> addr + width <= usize::MAX,
    {
        let size = self.memory.len() as u64;
        width <= size && addr <= size - width
    }

    /// Reads the byte at `addr`.
    fn load_u8(&self, addr: u64) -> (r: Result<u8, Escape>)
        ensures
            self.holds(addr as int, 1) ==> r == Ok::<u8, Escape>(self@[addr as int]),
            !self.holds(addr as int, 1) ==> fails_with(r, out_of_bounds_text()),
    {
        if !self.fits(addr, 1) {
            return Err(out_of_bounds());
        }
        Ok(self.memory[addr as usize])
    }

    /// Reads the 32-bit number at `addr`.
    fn load_u32(&self, addr: u64) -> (r: Result<u32, Escape>)
        ensures
            self.holds(addr as int, 4) ==> r == Ok::<u32, Escape>(
                self.value_at(addr as int, 4) as u32,
            ),
            self.holds(addr as int, 4) ==> self.value_at(addr as int, 4) <= u32::MAX,
            !self.holds(addr as int, 4) ==> fails_with(r, out_of_bounds_text()),
    {
        if !self.fits(addr, 4) {
            return Err(out_of_bounds());
        }
        let at = addr as usize;
        let b0 = self.memory[at] as u32;
        let b1 = self.memory[at + 1] as u32;
        let b2 = self.memory[at + 2] as u32;
        let b3 = self.memory[at + 3] as u32;
        proof {
            lemma_le_value_4(load(self@, addr as int, 4));
        }
        Ok(b0 + 0x100 * b1 + 0x1_0000 * b2 + 0x100_0000 * b3)
    }

    /// Reads the 64-bit number at `addr`.
    fn load_u64(&self, addr: u64) -> (r: Result<u64, Escape>)
        ensures
            self.holds(addr as int, 8) ==> r == Ok::<u64, Escape>(
                self.value_at(addr as int, 8) as u64,
            ),
            self.holds(addr as int, 8) ==> self.value_at(addr as int, 8) <= u64::MAX,
            !self.holds(addr as int, 8) ==> fails_with(r, out_of_bounds_text()),
    {
        if !self.fits(addr, 8) {
            return Err(out_of_bounds());
        }
        let at = addr as usize;
        let b0 = self.memory[at] as u64;
        let b1 = self.memory[at + 1] as u64;
        let b2 = self.memory[at + 2] as u64;
        let b3 = self.memory[at + 3] as u64;
        let b4 = self.memory[at + 4] as u64;
        let b5 = self.memory[at + 5] as u64;
        let b6 = self.memory[at + 6] as u64;
        let b7 = self.memory[at + 7] as u64;
        proof {
            lemma_le_value_8(load(self@, addr as int, 8));
        }
        Ok(
            b0 + 0x100 * b1 + 0x1_0000 * b2 + 0x100_0000 * b3 + 0x1_0000_0000 * b4
                + 0x100_0000_0000 * b5 + 0x1_0000_0000_0000 * b6 + 0x100_0000_0000_0000 * b7,
        )
    }

    /// Writes the byte `x` at `addr`.
    pub(crate) fn store_u8(&mut self, addr: u64, x: u8) -> (r: Result<(), Escape>)
        ensures
            final(self).start() == old(self).start(),
            old(self).holds(addr as int, 1) ==> r is Ok && final(self)@ == store(
                old(self)@,
                addr as int,
                seq![x],
            ),
            !old(self).holds(addr as int, 1) ==> fails_with(r, out_of_bounds_text())
                && final(self)@ == old(self)@,
    {
        if !self.fits(addr, 1) {
            return Err(out_of_bounds());
        }
        let at = addr as usize;
        self.memory.set(at, x);
        assert(self@ =~= store(old(self)@, addr as int, seq![x]));
        Ok(())
    }

    /// Writes the 32-bit number `x` at `addr`.
    pub(crate) fn store_u32(&mut self, addr: u64, x: u32) -> (r: Result<(), Escape>)
        ensures
            final(self).start() == old(self).start(),
            old(self).holds(addr as int, 4) ==> r is Ok && final(self)@ == store(
                old(self)@,
                addr as int,
                u32_le_bytes(x),
            ),
            !old(self).holds(addr as int, 4) ==> fails_with(r, out_of_bounds_text())
                && final(self)@ == old(self)@,
    {
        if !self.fits(addr, 4) {
            return Err(out_of_bounds());
        }
        let at = addr as usize;
        self.memory.set(at, (x % 0x100) as u8);
        self.memory.set(at + 1, (x / 0x100 % 0x100) as u8);
        self.memory.set(at + 2, (x / 0x1_0000 % 0x100) as u8);
        self.memory.set(at + 3, (x / 0x100_0000 % 0x100) as u8);
        assert(self@ =~= store(old(self)@, addr as int, u32_le_bytes(x)));
        Ok(())
    }

    /// Writes the 64-bit number `x` at `addr`.
    fn store_u64(&mut self, addr: u64, x: u64) -> (r: Result<(), Escape>)
        ensures
            final(self).start() == old(self).start(),
            old(self).holds(addr as int, 8) ==> r is Ok && final(self)@ == store(
                old(self)@,
                addr as int,
                u64_le_bytes(x),
            ),
            !old(self).holds(addr as int, 8) ==> fails_with(r, out_of_bounds_text())
                && final(self)@ == old(self)@,
    {
        if !self.fits(addr, 8) {
            return Err(out_of_bounds());
        }
        let at = addr as usize;
        self.memory.set(at, (x % 0x100) as u8);
        self.memory.set(at + 1, (x / 0x100 % 0x100) as u8);
        self.memory.set(at + 2, (x / 0x1_0000 % 0x100) as u8);
        self.memory.set(at + 3, (x / 0x100_0000 % 0x100) as u8);
        self.memory.set(at + 4, (x / 0x1_0000_0000 % 0x100) as u8);
        self.memory.set(at + 5, (x / 0x100_0000_0000 % 0x100) as u8);
        self.memory.set(at + 6, (x / 0x1_0000_0000_0000 % 0x100) as u8);
        self.memory.set(at + 7, (x / 0x100_0000_0000_0000 % 0x100) as u8);
        assert(self@ =~= store(old(self)@, addr as int, u64_le_bytes(x)));
        Ok(())
    }

    /// Reads the byte in slot `arg` of the frame.
    pub fn read_u8(&self, arg: u32) -> (r: Result<u8, Escape>)
        ensures
            self.holds(self.slot(arg), 1) ==> r == Ok::<u8, Escape>(self@[self.slot(arg)]),
            !self.holds(self.slot(arg), 1) ==> fails_with(r, out_of_bounds_text()),
    {
        self.load_u8(self.offset(arg))
    }

    /// Reads the 32-bit number in slot `arg` of the frame.
    pub fn read_u32(&self, arg: u32) -> (r: Result<u32, Escape>)
        ensures
            self.holds(self.slot(arg), 4) ==> r == Ok::<u32, Escape>(
                self.value_at(self.slot(arg), 4) as u32,
            ) && self.value_at(self.slot(arg), 4) <= u32::MAX,
            !self.holds(self.slot(arg), 4) ==> fails_with(r, out_of_bounds_text()),
    {
        self.load_u32(self.offset(arg))
    }

    /// Reads the 64-bit number in slot `arg` of the frame.
    pub fn read_u64(&self, arg: u32) -> (r: Result<u64, Escape>)
        ensures
            self.holds(self.slot(arg), 8) ==> r == Ok::<u64, Escape>(
                self.value_at(self.slot(arg), 8) as u64,
            ) && self.value_at(self.slot(arg), 8) <= u64::MAX,
            !self.holds(self.slot(arg), 8) ==> fails_with(r, out_of_bounds_text()),
    {
        self.load_u64(self.offset(arg))
    }

    /// Reads the byte at the address `ptr`.
    pub fn read_u8_ptr(&self, ptr: u32) -> (r: Result<u8, Escape>)
        ensures
            self.holds(ptr as int, 1) ==> r == Ok::<u8, Escape>(self@[ptr as int]),
            !self.holds(ptr as int, 1) ==> fails_with(r, out_of_bounds_text()),
    {
        self.load_u8(ptr as u64)
    }

    /// Reads the 32-bit number at the address `ptr`.
    pub fn read_u32_ptr(&self, ptr: u32) -> (r: Result<u32, Escape>)
        ensures
            self.holds(ptr as int, 4) ==> r == Ok::<u32, Escape>(
                self.value_at(ptr as int, 4) as u32,
            ) && self.value_at(ptr as int, 4) <= u32::MAX,
            !self.holds(ptr as int, 4) ==> fails_with(r, out_of_bounds_text()),
    {
        self.load_u32(ptr as u64)
    }

    /// Reads the 64-bit number at the address `ptr`.
    pub fn read_u64_ptr(&self, ptr: u32) -> (r: Result<u64, Escape>)
        ensures
            self.holds(ptr as int, 8) ==> r == Ok::<u64, Escape>(
                self.value_at(ptr as int, 8) as u64,
            ) && self.value_at(ptr as int, 8) <= u64::MAX,
            !self.holds(ptr as int, 8) ==> fails_with(r, out_of_bounds_text()),
    {
        self.load_u64(ptr as u64)
    }

    /// Writes the byte `x` into slot `arg` of the frame.
    pub fn write_u8(&mut self, arg: u32, x: u8) -> (r: Result<(), Escape>)
        ensures
            final(self).start() == old(self).start(),
            old(self).holds(old(self).slot(arg), 1) ==> r is Ok && final(self)@ == store(
                old(self)@,
                old(self).slot(arg),
                seq![x],
            ),
            !old(self).holds(old(self).slot(arg), 1) ==> fails_with(r, out_of_bounds_text())
                && final(self)@ == old(self)@,
    {
        let addr = self.offset(arg);
        self.store_u8(addr, x)
    }

    /// Writes the 32-bit number `x` into slot `arg` of the frame.
    pub fn write_u32(&mut self, arg: u32, x: u32) -> (r: Result<(), Escape>)
        ensures
            final(self).start() == old(self).start(),
            old(self).holds(old(self).slot(arg), 4) ==> r is Ok && final(self)@ == store(
                old(self)@,
                old(self).slot(arg),
                u32_le_bytes(x),
            ),
            !old(self).holds(old(self).slot(arg), 4) ==> fails_with(r, out_of_bounds_text())
                && final(self)@ == old(self)@,
    {
        let addr = self.offset(arg);
        self.store_u32(addr, x)
    }

    /// Writes the 64-bit number `x` into slot `arg` of the frame.
    pub fn write_u64(&mut self, arg: u32, x: u64) -> (r: Result<(), Escape>)
        ensures
            final(self).start() == old(self).start(),
            old(self).holds(old(self).slot(arg), 8) ==> r is Ok && final(self)@ == store(
                old(self)@,
                old(self).slot(arg),
                u64_le_bytes(x),
            ),
            !old(self).holds(old(self).slot(arg), 8) ==> fails_with(r, out_of_bounds_text())
                && final(self)@ == old(self)@,
    {
        let addr = self.offset(arg);
        self.store_u64(addr, x)
    }

    /// Writes the byte `x` at the address `ptr`.
    pub fn write_u8_ptr(&mut self, ptr: u32, x: u8) -> (r: Result<(), Escape>)
        ensures
            final(self).start() == old(self).start(),
            old(self).holds(ptr as int, 1) ==> r is Ok && final(self)@ == store(
                old(self)@,
                ptr as int,
                seq![x],
            ),
            !old(self).holds(ptr as int, 1) ==> fails_with(r, out_of_bounds_text())
                && final(self)@ == old(self)@,
    {
        self.store_u8(ptr as u64, x)
    }

    /// Writes the 32-bit number `x` at the address `ptr`.
    pub fn write_u32_ptr(&mut self, ptr: u32, x: u32) -> (r: Result<(), Escape>)
        ensures
            final(self).start() == old(self).start(),
            old(self).holds(ptr as int, 4) ==> r is Ok && final(self)@ == store(
                old(self)@,
                ptr as int,
                u32_le_bytes(x),
            ),
            !old(self).holds(ptr as int, 4) ==> fails_with(r, out_of_bounds_text())
                && final(self)@ == old(self)@,
    {
        self.store_u32(ptr as u64, x)
    }

    /// Writes the 64-bit number `x` at the address `ptr`.
    pub fn write_u64_ptr(&mut self, ptr: u32, x: u64) -> (r: Result<(), Escape>)
        ensures
            final(self).start() == old(self).start(),
            old(self).holds(ptr as int, 8) ==> r is Ok && final(self)@ == store(
                old(self)@,
                ptr as int,
                u64_le_bytes(x),
            ),
            !old(self).holds(ptr as int, 8) ==> fails_with(r, out_of_bounds_text())
                && final(self)@ == old(self)@,
    {
        self.store_u64(ptr as u64, x)
    }

    /// Copies `len` bytes out of the memory, from the address `ptr` on.
    /// Both numbers have to fit 32 bits.
    pub fn read_slice(&self, ptr: u64, len: u64) -> (r: Result<Vec<u8>, Escape>)
        ensures
            ptr > u32::MAX ==> fails_with(r, bad_pointer_text()),
            ptr <= u32::MAX && len > u32::MAX ==> fails_with(r, bad_length_text()),
            ptr <= u32::MAX && len <= u32::MAX && !self.holds(ptr as int, len as nat)
                ==> fails_with(r, out_of_bounds_text()),
            ptr <= u32::MAX && len <= u32::MAX && self.holds(ptr as int, len as nat) ==> (
            r matches Ok(bytes) && bytes@ == load(self@, ptr as int, len as nat)),
    {
        if ptr > u32::MAX as u64 {
            return Err(bad_pointer());
        }
        if len > u32::MAX as u64 {
            return Err(bad_length());
        }
        if !self.fits(ptr, len) {
            return Err(out_of_bounds());
        }
        let from = ptr as usize;
        let count = len as usize;
        let mut bytes: Vec<u8> = Vec::new();
        let mut i: usize = 0;
        while i < count
            invariant
                i <= count,
                from + count <= self.memory@.len(),
                from + count <= usize::MAX,
                bytes@ == self.memory@.subrange(from as int, from + i),
            decreases count - i,
        {
            bytes.push(self.memory[from + i]);
            i += 1;
        }
        Ok(bytes)
    }

    /// Copies `src` into the memory, from the address `ptr` on. The address
    /// has to fit 32 bits.
    pub fn write_slice(&mut self, ptr: u64, src: &[u8]) -> (r: Result<(), Escape>)
        ensures
            final(self).start() == old(self).start(),
            ptr > u32::MAX ==> fails_with(r, bad_pointer_text()) && final(self)@ == old(self)@,
            ptr <= u32::MAX && !old(self).holds(ptr as int, src@.len()) ==> fails_with(
                r,
                out_of_bounds_text(),
            ) && final(self)@ == old(self)@,
            ptr <= u32::MAX && old(self).holds(ptr as int, src@.len()) ==> r is Ok
                && final(self)@ == store(old(self)@, ptr as int, src@),
    {
        if ptr > u32::MAX as u64 {
            return Err(bad_pointer());
        }
        let size = self.memory.len();
        let count = src.len();
        if count > size || ptr > (size - count) as u64 {
            return Err(out_of_bounds());
        }
        let from = ptr as usize;
        let mut i: usize = 0;
        while i < count
            invariant
                i <= count,
                count == src@.len(),
                from + count <= size,
                size == self.memory@.len(),
                self.start == old(self).start,
                self.memory@ == store(old(self)@, from as int, src@.take(i as int)),
            decreases count - i,
        {
            self.memory.set(from + i, src[i]);
            i += 1;
        }
        assert(src@.take(count as int) =~= src@);
        Ok(())
    }

    /// Whether entry `k` of an array of 64-bit values at `ptr` can be read:
    /// its address fits 32 bits and its bytes lie inside the memory.
    pub open spec fn value_readable(&self, ptr: u64, k: int) -> bool {
        ptr + 8 * k <= u32::MAX && self.holds(ptr + 8 * k, 8)
    }

    /// Reads `len` consecutive 64-bit tagged values, the first at the
    /// address `ptr`, 8 bytes each. The values come back as they are
    /// encoded; what a tag means is for the object pool to say.
    pub fn read_value_slice(&self, ptr: u64, len: u64) -> (r: Result<Vec<u64>, Escape>)
        ensures
            match r {
                Ok(values) => {
                    &&& values@.len() == len
                    &&& forall|k: int| 0 <= k < len ==> self.value_readable(ptr, k)
                    &&& forall|k: int|
                        0 <= k < len ==> #[trigger] values@[k] == self.value_at(ptr + 8 * k, 8)
                },
                Err(e) => exists|k: int|
                    {
                        &&& 0 <= k < len
                        &&& forall|j: int| 0 <= j < k ==> self.value_readable(ptr, j)
                        &&& !#[trigger] self.value_readable(ptr, k)
                        &&& e.is_failure(
                            if ptr + 8 * k > u32::MAX {
                                bad_pointer_text()
                            } else {
                                out_of_bounds_text()
                            },
                        )
                    },
            },
    {
        let mut values: Vec<u64> = Vec::new();
        let mut at: u64 = ptr;
        let mut k: u64 = 0;
        while k < len
            invariant
                k <= len,
                at == ptr + 8 * k,
                values@.len() == k,
                k > 0 ==> at <= u32::MAX + 8,
                forall|j: int| 0 <= j < k ==> self.value_readable(ptr, j),
                forall|j: int|
                    0 <= j < k ==> #[trigger] values@[j] == self.value_at(ptr + 8 * j, 8),
            decreases len - k,
        {
            if at > u32::MAX as u64 {
                assert(!self.value_readable(ptr, k as int));
                return Err(bad_pointer());
            }
            match self.load_u64(at) {
                Ok(value) => {
                    values.push(value);
                },
                Err(e) => {
                    assert(!self.value_readable(ptr, k as int));
                    return Err(e);
                },
            }
            at += 8;
            k += 1;
        }
        Ok(values)
    }
}

} // verus!
