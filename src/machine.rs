//! The machine state, its mathematical model, and the instruction semantics.
use vstd::prelude::*;
use crate::input::InputState;
use crate::snapshot::DecodeError;

verus! {

/// Bytes of addressable memory.
pub const MEMORY_SIZE: usize = 4096;
/// Address at which a program image is placed and execution starts.
pub const PROGRAM_START: u16 = 0x200;
/// Number of data registers; the last one doubles as the flag register.
pub const REGISTER_COUNT: usize = 16;
/// Deepest the call stack may grow.
pub const STACK_LIMIT: usize = 16;
/// Display width in pixels: one `u64` row, most significant bit leftmost.
pub const DISPLAY_WIDTH: u8 = 64;
/// Display height in pixels (rows).
pub const DISPLAY_HEIGHT: usize = 32;
/// Bytes of the built-in hexadecimal font (five bytes per digit) at address 0.
pub const FONT_SIZE: usize = 80;
/// Largest program image that fits above the entry point.
pub const MAX_ROM_SIZE: usize = 3584;

/// A terminal fault raised by one execution step.
#[derive(Clone, Copy, PartialEq, Eq, Structural, Debug)]
pub enum ExecutionFault {
    /// The fetched opcode belongs to no instruction.
    UnknownOpcode(u16),
    /// A call with the stack already at its limit.
    StackOverflow,
    /// A return with an empty stack.
    StackUnderflow,
    /// The program counter would leave memory: a fetch at this address would
    /// read past its end, or a step would move execution (or a return
    /// address) to this address.
    PcOutOfBounds(u16),
    /// An instruction would touch memory past its end, starting at this index.
    MemoryOutOfBounds(u16),
}

/// The built-in font: sixteen hexadecimal digits, five rows each.
pub open spec fn font() -> Seq<u8> {
    seq![
        0xF0u8, 0x90, 0x90, 0x90, 0xF0, 0x20, 0x60, 0x20, 0x20, 0x70,
        0xF0, 0x10, 0xF0, 0x80, 0xF0, 0xF0, 0x10, 0xF0, 0x10, 0xF0,
        0x90, 0x90, 0xF0, 0x10, 0x10, 0xF0, 0x80, 0xF0, 0x10, 0xF0,
        0xF0, 0x80, 0xF0, 0x90, 0xF0, 0xF0, 0x10, 0x20, 0x40, 0x40,
        0xF0, 0x90, 0xF0, 0x90, 0xF0, 0xF0, 0x90, 0xF0, 0x10, 0xF0,
        0xF0, 0x90, 0xF0, 0x90, 0x90, 0xE0, 0x90, 0xE0, 0x90, 0xE0,
        0xF0, 0x80, 0x80, 0x80, 0xF0, 0xE0, 0x90, 0x90, 0x90, 0xE0,
        0xF0, 0x80, 0xF0, 0x80, 0xF0, 0xF0, 0x80, 0xF0, 0x80, 0x80,
    ]
}

/// The compatibility switches for the instructions on which historical
/// machines disagree. Both off is the default.
#[derive(Clone, Copy, PartialEq, Eq, Structural, Debug)]
pub struct Quirks {
    /// Shifts read register `y` (and write the result to `x`) instead of
    /// shifting register `x` in place.
    pub shift_reads_vy: bool,
    /// Storing or loading registers `0..=x` advances the index register
    /// past the bytes touched instead of leaving it as it was.
    pub store_advances_index: bool,
}

/// The default switches: in-place shifts, index register kept.
pub open spec fn default_quirks() -> Quirks {
    Quirks { shift_reads_vy: false, store_advances_index: false }
}

/// The model of a machine: every field, as mathematical values.
pub ghost struct MachineState {
    pub memory: Seq<u8>,
    pub v: Seq<u8>,
    pub i: u16,
    pub pc: u16,
    pub stack: Seq<u16>,
    pub delay_timer: u8,
    pub sound_timer: u8,
    pub display: Seq<u64>,
    pub quirks: Quirks,
}

impl MachineState {
    /// The sizes that every machine keeps, and return addresses inside memory.
    pub open spec fn sized(self) -> bool {
        &&& self.memory.len() == MEMORY_SIZE
        &&& self.v.len() == REGISTER_COUNT
        &&& self.stack.len() <= STACK_LIMIT
        &&& self.display.len() == DISPLAY_HEIGHT
        &&& forall|k: int| 0 <= k < self.stack.len() ==> self.stack[k] < MEMORY_SIZE
    }

    /// A machine as it can be reached: sized, with the program counter inside memory.
    pub open spec fn wf(self) -> bool {
        &&& self.sized()
        &&& self.pc < MEMORY_SIZE
    }
}

/// A blank display.
pub open spec fn blank_display() -> Seq<u64> {
    Seq::new(32, |r: int| 0u64)
}

/// The state after loading `rom` on a machine with switches `q`: font at
/// address 0, the image at the entry point, everything else zero, execution
/// at the entry point.
pub open spec fn boot_state(rom: Seq<u8>, q: Quirks) -> MachineState {
    MachineState {
        memory: Seq::new(4096, |a: int|
            if a < 80 {
                font()[a]
            } else if 0x200 <= a < 0x200 + rom.len() {
                rom[a - 0x200]
            } else {
                0u8
            }),
        v: Seq::new(16, |k: int| 0u8),
        i: 0,
        pc: PROGRAM_START,
        stack: Seq::empty(),
        delay_timer: 0,
        sound_timer: 0,
        display: blank_display(),
        quirks: q,
    }
}

/// One frame tick of the timers: each one that is nonzero goes down by one.
pub open spec fn tick_timers(s: MachineState) -> MachineState {
    MachineState {
        delay_timer: if s.delay_timer > 0 { (s.delay_timer - 1) as u8 } else { 0 },
        sound_timer: if s.sound_timer > 0 { (s.sound_timer - 1) as u8 } else { 0 },
        ..s
    }
}

/// The big-endian opcode at the program counter, if two bytes lie there.
pub open spec fn fetch(s: MachineState) -> Result<u16, ExecutionFault> {
    if s.pc as int + 1 < MEMORY_SIZE {
        Ok((s.memory[s.pc as int] as int * 256 + s.memory[s.pc as int + 1] as int) as u16)
    } else {
        Err(ExecutionFault::PcOutOfBounds(s.pc))
    }
}

/// The machine with the program counter moved past the current opcode.
pub open spec fn next(s: MachineState) -> MachineState {
    MachineState { pc: (s.pc + 2) as u16, ..s }
}

/// Moves past the current opcode, and past the following one too when `cond` holds.
pub open spec fn skip_if(s: MachineState, cond: bool) -> MachineState {
    MachineState { pc: (if cond { s.pc + 4 } else { s.pc + 2 }) as u16, ..s }
}

/// The machine with register `x` set to `val`.
pub open spec fn set_reg(s: MachineState, x: int, val: u8) -> MachineState {
    MachineState { v: s.v.update(x, val), ..s }
}

/// Register `x` set to `val`, then the flag register set to `flag`.
pub open spec fn set_reg_flag(s: MachineState, x: int, val: u8, flag: u8) -> MachineState {
    MachineState { v: s.v.update(x, val).update(15, flag), ..s }
}

/// The register-to-register instructions (high nibble 8); `a` and `b` are
/// registers `x` and `y`. Shifts work on register `x` in place, or on register
/// `y` when the machine's switch says so; the logic operations leave the flag
/// register alone.
pub open spec fn alu(s: MachineState, op: u16, x: int, a: u8, b: u8, n: u16) -> Result<MachineState, ExecutionFault> {
    if n == 0 {
        Ok(next(set_reg(s, x, b)))
    } else if n == 1 {
        Ok(next(set_reg(s, x, a | b)))
    } else if n == 2 {
        Ok(next(set_reg(s, x, a & b)))
    } else if n == 3 {
        Ok(next(set_reg(s, x, a ^ b)))
    } else if n == 4 {
        Ok(next(set_reg_flag(s, x, ((a + b) % 256) as u8, if a + b > 255 { 1 } else { 0 })))
    } else if n == 5 {
        Ok(next(set_reg_flag(s, x, ((a - b + 256) % 256) as u8, if a >= b { 1 } else { 0 })))
    } else if n == 6 {
        let src = if s.quirks.shift_reads_vy { b } else { a };
        Ok(next(set_reg_flag(s, x, src / 2, src % 2)))
    } else if n == 7 {
        Ok(next(set_reg_flag(s, x, ((b - a + 256) % 256) as u8, if b >= a { 1 } else { 0 })))
    } else if n == 14 {
        let src = if s.quirks.shift_reads_vy { b } else { a };
        Ok(next(set_reg_flag(s, x, ((src * 2) % 256) as u8, src / 128)))
    } else {
        Err(ExecutionFault::UnknownOpcode(op))
    }
}

/// One sprite byte as a display row: its eight pixels start at column `x`
/// and wrap around the right edge.
pub open spec fn sprite_mask(byte: u8, x: u64) -> u64 {
    if x == 0 {
        (byte as u64) << 56u64
    } else {
        (((byte as u64) << 56u64) >> x) | (((byte as u64) << 56u64) << ((64 - x) as u64))
    }
}

/// Which sprite row lands on display row `r` when the sprite's top is at row `y`.
pub open spec fn sprite_row(r: int, y: int) -> int {
    (r + 32 - y) % 32
}

/// The display after XOR-ing `sprite` onto it with its top-left corner at
/// (`x`, `y`), wrapping around both edges.
pub open spec fn draw_rows(display: Seq<u64>, sprite: Seq<u8>, x: u64, y: int) -> Seq<u64> {
    Seq::new(display.len(), |r: int|
        if sprite_row(r, y) < sprite.len() {
            display[r] ^ sprite_mask(sprite[sprite_row(r, y)], x)
        } else {
            display[r]
        })
}

/// Whether drawing `sprite` at (`x`, `y`) would erase a lit pixel.
pub open spec fn collides(display: Seq<u64>, sprite: Seq<u8>, x: u64, y: int) -> bool {
    exists|k: int| 0 <= k < sprite.len() && display[(y + k) % 32] & sprite_mask(sprite[k], x) != 0
}

/// The sprite-drawing instruction: `n` bytes from the index register,
/// drawn at the position in registers `x` and `y`; the flag register
/// records a collision.
pub open spec fn draw(s: MachineState, x: int, y: int, n: int) -> Result<MachineState, ExecutionFault> {
    if s.i as int + n > MEMORY_SIZE {
        Err(ExecutionFault::MemoryOutOfBounds(s.i))
    } else {
        let sprite = s.memory.subrange(s.i as int, s.i as int + n);
        let px = (s.v[x] % 64) as u64;
        let py = (s.v[y] % 32) as int;
        Ok(next(MachineState {
            display: draw_rows(s.display, sprite, px, py),
            v: s.v.update(15, if collides(s.display, sprite, px, py) { 1u8 } else { 0u8 }),
            ..s
        }))
    }
}

/// The index register after storing or loading registers `0..=x`.
pub open spec fn stored_index(s: MachineState, x: int) -> u16 {
    if s.quirks.store_advances_index { (s.i + x + 1) as u16 } else { s.i }
}

/// The instructions of high nibble F, selected by the low byte `nn`; `a` is
/// register `x`. Storing and loading registers leave the index register as it
/// was, or advance it past the bytes touched when the machine's switch says so.
pub open spec fn misc(s: MachineState, op: u16, x: int, a: u8, nn: u16, keys: Seq<bool>) -> Result<MachineState, ExecutionFault> {
    if nn == 0x07 {
        Ok(next(set_reg(s, x, s.delay_timer)))
    } else if nn == 0x0A {
        if exists|k: int| 0 <= k < 16 && keys[k] {
            let k = choose|k: int| 0 <= k < 16 && keys[k] && forall|j: int| 0 <= j < k ==> !keys[j];
            Ok(next(set_reg(s, x, k as u8)))
        } else {
            Ok(s)
        }
    } else if nn == 0x15 {
        Ok(next(MachineState { delay_timer: a, ..s }))
    } else if nn == 0x18 {
        Ok(next(MachineState { sound_timer: a, ..s }))
    } else if nn == 0x1E {
        Ok(next(MachineState { i: ((s.i + a) % 65536) as u16, ..s }))
    } else if nn == 0x29 {
        Ok(next(MachineState { i: ((a % 16) * 5) as u16, ..s }))
    } else if nn == 0x33 {
        if s.i as int + 3 > MEMORY_SIZE {
            Err(ExecutionFault::MemoryOutOfBounds(s.i))
        } else {
            Ok(next(MachineState {
                memory: s.memory.update(s.i as int, a / 100).update(s.i + 1, (a / 10) % 10).update(s.i + 2, a % 10),
                ..s
            }))
        }
    } else if nn == 0x55 {
        if s.i as int + x + 1 > MEMORY_SIZE {
            Err(ExecutionFault::MemoryOutOfBounds(s.i))
        } else {
            Ok(next(MachineState {
                memory: Seq::new(s.memory.len(), |p: int|
                    if s.i <= p <= s.i + x { s.v[p - s.i] } else { s.memory[p] }),
                i: stored_index(s, x),
                ..s
            }))
        }
    } else if nn == 0x65 {
        if s.i as int + x + 1 > MEMORY_SIZE {
            Err(ExecutionFault::MemoryOutOfBounds(s.i))
        } else {
            Ok(next(MachineState {
                v: Seq::new(s.v.len(), |j: int| if j <= x { s.memory[s.i + j] } else { s.v[j] }),
                i: stored_index(s, x),
                ..s
            }))
        }
    } else {
        Err(ExecutionFault::UnknownOpcode(op))
    }
}

/// Executes opcode `op` on `s`, with key flags `keys` and the random byte `rnd`.
#[verifier::opaque]
pub open spec fn execute(s: MachineState, op: u16, keys: Seq<bool>, rnd: u8) -> Result<MachineState, ExecutionFault> {
    let hi = op / 4096;
    let x = ((op / 256) % 16) as int;
    let y = ((op / 16) % 16) as int;
    let n = op % 16;
    let nn = op % 256;
    let nnn = op % 4096;
    if hi == 0 {
        if op == 0x00E0 {
            Ok(next(MachineState { display: blank_display(), ..s }))
        } else if op == 0x00EE {
            if s.stack.len() == 0 {
                Err(ExecutionFault::StackUnderflow)
            } else {
                Ok(MachineState { pc: s.stack.last(), stack: s.stack.drop_last(), ..s })
            }
        } else {
            Err(ExecutionFault::UnknownOpcode(op))
        }
    } else if hi == 1 {
        Ok(MachineState { pc: nnn, ..s })
    } else if hi == 2 {
        if s.stack.len() >= STACK_LIMIT {
            Err(ExecutionFault::StackOverflow)
        } else if s.pc + 2 >= MEMORY_SIZE {
            Err(ExecutionFault::PcOutOfBounds((s.pc + 2) as u16))
        } else {
            Ok(MachineState { pc: nnn, stack: s.stack.push((s.pc + 2) as u16), ..s })
        }
    } else if hi == 3 {
        Ok(skip_if(s, s.v[x] as u16 == nn))
    } else if hi == 4 {
        Ok(skip_if(s, s.v[x] as u16 != nn))
    } else if hi == 5 {
        if n != 0 {
            Err(ExecutionFault::UnknownOpcode(op))
        } else {
            Ok(skip_if(s, s.v[x] == s.v[y]))
        }
    } else if hi == 6 {
        Ok(next(set_reg(s, x, nn as u8)))
    } else if hi == 7 {
        Ok(next(set_reg(s, x, ((s.v[x] + nn) % 256) as u8)))
    } else if hi == 8 {
        alu(s, op, x, s.v[x], s.v[y], n)
    } else if hi == 9 {
        if n != 0 {
            Err(ExecutionFault::UnknownOpcode(op))
        } else {
            Ok(skip_if(s, s.v[x] != s.v[y]))
        }
    } else if hi == 10 {
        Ok(next(MachineState { i: nnn, ..s }))
    } else if hi == 11 {
        Ok(MachineState { pc: (nnn + s.v[0]) as u16, ..s })
    } else if hi == 12 {
        Ok(next(set_reg(s, x, rnd & (nn as u8))))
    } else if hi == 13 {
        draw(s, x, y, n as int)
    } else if hi == 14 {
        if nn == 0x9E {
            Ok(skip_if(s, keys[(s.v[x] % 16) as int]))
        } else if nn == 0xA1 {
            Ok(skip_if(s, !keys[(s.v[x] % 16) as int]))
        } else {
            Err(ExecutionFault::UnknownOpcode(op))
        }
    } else {
        misc(s, op, x, s.v[x], nn, keys)
    }
}

/// One fetch-decode-execute step. A step that would leave the program
/// counter outside memory faults with that address instead.
pub open spec fn step(s: MachineState, keys: Seq<bool>, rnd: u8) -> Result<MachineState, ExecutionFault> {
    match fetch(s) {
        Ok(op) => match execute(s, op, keys, rnd) {
            Ok(s1) => if s1.pc < MEMORY_SIZE {
                Ok(s1)
            } else {
                Err(ExecutionFault::PcOutOfBounds(s1.pc))
            },
            Err(e) => Err(e),
        },
        Err(e) => Err(e),
    }
}

/// A running machine. Its model is `MachineState`, reached through `@`.
pub struct Machine {
    memory: Vec<u8>,
    v: Vec<u8>,
    i: u16,
    pc: u16,
    stack: Vec<u16>,
    delay_timer: u8,
    sound_timer: u8,
    display: Vec<u64>,
    quirks: Quirks,
}

impl View for Machine {
    type V = MachineState;

    closed spec fn view(&self) -> MachineState {
        MachineState {
            memory: self.memory@,
            v: self.v@,
            i: self.i,
            pc: self.pc,
            stack: self.stack@,
            delay_timer: self.delay_timer,
            sound_timer: self.sound_timer,
            display: self.display@,
            quirks: self.quirks,
        }
    }
}

fn font_bytes() -> (r: Vec<u8>)
    ensures
        r@ == font(),
{
    let r: Vec<u8> = vec![
        0xF0u8, 0x90, 0x90, 0x90, 0xF0, 0x20, 0x60, 0x20, 0x20, 0x70,
        0xF0, 0x10, 0xF0, 0x80, 0xF0, 0xF0, 0x10, 0xF0, 0x10, 0xF0,
        0x90, 0x90, 0xF0, 0x10, 0x10, 0xF0, 0x80, 0xF0, 0x10, 0xF0,
        0xF0, 0x80, 0xF0, 0x90, 0xF0, 0xF0, 0x10, 0x20, 0x40, 0x40,
        0xF0, 0x90, 0xF0, 0x90, 0xF0, 0xF0, 0x90, 0xF0, 0x10, 0xF0,
        0xF0, 0x90, 0xF0, 0x90, 0x90, 0xE0, 0x90, 0xE0, 0x90, 0xE0,
        0xF0, 0x80, 0x80, 0x80, 0xF0, 0xE0, 0x90, 0x90, 0x90, 0xE0,
        0xF0, 0x80, 0xF0, 0x80, 0xF0, 0xF0, 0x80, 0xF0, 0x80, 0x80,
    ];
    assert(r@ =~= font());
    r
}

fn zeros_u64(n: usize) -> (r: Vec<u64>)
    ensures
        r@ == Seq::new(n as nat, |k: int| 0u64),
{
    let mut r: Vec<u64> = Vec::new();
    while r.len() < n
        invariant
            r.len() <= n,
            r@ == Seq::new(r.len() as nat, |k: int| 0u64),
        decreases n - r.len(),
    {
        r.push(0u64);
        assert(r@ =~= Seq::new(r.len() as nat, |k: int| 0u64));
    }
    r
}

impl Machine {
    /// The machine's sizes are those of the architecture.
    pub open spec fn wf(&self) -> bool {
        self@.wf()
    }

    /// Builds the machine with `rom` installed at the entry point.
    fn boot(rom: &[u8], q: Quirks) -> (r: Machine)
        requires
            rom@.len() <= MAX_ROM_SIZE,
        ensures
            r@ == boot_state(rom@, q),
            r.wf(),
    {
        let glyphs = font_bytes();
        let mut memory: Vec<u8> = Vec::new();
        let ghost spec_mem = boot_state(rom@, q).memory;
        while memory.len() < MEMORY_SIZE
            invariant
                memory.len() <= MEMORY_SIZE,
                glyphs@ == font(),
                rom@.len() <= MAX_ROM_SIZE,
                spec_mem == boot_state(rom@, q).memory,
                memory@ == spec_mem.subrange(0, memory.len() as int),
            decreases MEMORY_SIZE - memory.len(),
        {
            let a = memory.len();
            let b: u8 = if a < FONT_SIZE {
                glyphs[a]
            } else if 0x200 <= a && a < 0x200 + rom.len() {
                rom[a - 0x200]
            } else {
                0u8
            };
            memory.push(b);
            assert(memory@ =~= spec_mem.subrange(0, memory.len() as int));
        }
        assert(memory@ =~= spec_mem);
        let v: Vec<u8> = vec![0u8, 0, 0, 0, 0, 0, 0, 0, 0, 0, 0, 0, 0, 0, 0, 0];
        assert(v@ =~= Seq::new(16, |k: int| 0u8));
        let m = Machine {
            memory,
            v,
            i: 0,
            pc: PROGRAM_START,
            stack: Vec::new(),
            delay_timer: 0,
            sound_timer: 0,
            display: zeros_u64(DISPLAY_HEIGHT),
            quirks: q,
        };
        assert(m@.stack =~= Seq::<u16>::empty());
        assert(m@ == boot_state(rom@, q));
        m
    }

    /// A machine with no program and the default switches: font in place,
    /// everything else zero, execution at the entry point.
    pub fn new() -> (r: Machine)
        ensures
            r@ == boot_state(Seq::empty(), default_quirks()),
            r.wf(),
    {
        let empty: Vec<u8> = Vec::new();
        Machine::boot(empty.as_slice(), Quirks { shift_reads_vy: false, store_advances_index: false })
    }

    /// A machine with no program and the switches `q`.
    pub fn with_quirks(q: Quirks) -> (r: Machine)
        ensures
            r@ == boot_state(Seq::empty(), q),
            r.wf(),
    {
        let empty: Vec<u8> = Vec::new();
        Machine::boot(empty.as_slice(), q)
    }

    /// The machine's compatibility switches.
    pub fn quirks(&self) -> (r: Quirks)
        ensures
            r == self@.quirks,
    {
        self.quirks
    }

    /// Changes the compatibility switches; nothing else changes.
    pub fn set_quirks(&mut self, q: Quirks)
        ensures
            final(self)@ == (MachineState { quirks: q, ..old(self)@ }),
    {
        self.quirks = q;
    }

    /// Installs a program image at the entry point and resets all other
    /// state but the compatibility switches. An image too large for the memory above the entry point is
    /// refused and the machine is left as it was.
    pub fn load_rom(&mut self, rom: &[u8]) -> (r: Result<(), DecodeError>)
        ensures
            rom@.len() <= MAX_ROM_SIZE ==> r == Ok::<(), DecodeError>(()) && final(self)@ == boot_state(rom@, old(self)@.quirks),
            rom@.len() > MAX_ROM_SIZE ==> r == Err::<(), DecodeError>(DecodeError::RomTooLarge) && final(self)@ == old(self)@,
            old(self).wf() || r is Ok ==> final(self).wf(),
    {
        if rom.len() > MAX_ROM_SIZE {
            return Err(DecodeError::RomTooLarge);
        }
        *self = Machine::boot(rom, self.quirks);
        Ok(())
    }

    /// Advances both timers by one frame tick.
    pub fn update_timers(&mut self)
        ensures
            final(self)@ == tick_timers(old(self)@),
    {
        if self.delay_timer > 0 {
            self.delay_timer = self.delay_timer - 1;
        }
        if self.sound_timer > 0 {
            self.sound_timer = self.sound_timer - 1;
        }
    }

    /// Whether the beep should sound: exactly when the sound timer is nonzero.
    pub fn sound_active(&self) -> (r: bool)
        ensures
            r == (self@.sound_timer != 0),
    {
        self.sound_timer != 0
    }

    /// The display: 32 rows of 64 pixels, one bit per pixel, the most
    /// significant bit of each row leftmost.
    pub fn display_buffer(&self) -> (r: &[u64])
        ensures
            r@ == self@.display,
    {
        self.display.as_slice()
    }

    /// Data register `x`.
    pub fn register(&self, x: usize) -> (r: u8)
        requires
            self.wf(),
            x < REGISTER_COUNT,
        ensures
            r == self@.v[x as int],
    {
        self.v[x]
    }

    /// The index register.
    pub fn index(&self) -> (r: u16)
        ensures
            r == self@.i,
    {
        self.i
    }

    /// The program counter.
    pub fn pc(&self) -> (r: u16)
        ensures
            r == self@.pc,
    {
        self.pc
    }

    /// The number of return addresses on the call stack.
    pub fn stack_depth(&self) -> (r: usize)
        ensures
            r == self@.stack.len(),
    {
        self.stack.len()
    }

    /// The delay timer.
    pub fn delay_timer(&self) -> (r: u8)
        ensures
            r == self@.delay_timer,
    {
        self.delay_timer
    }

    /// The sound timer.
    pub fn sound_timer(&self) -> (r: u8)
        ensures
            r == self@.sound_timer,
    {
        self.sound_timer
    }

    /// The byte at address `a`.
    pub fn memory_at(&self, a: usize) -> (r: u8)
        requires
            self.wf(),
            a < MEMORY_SIZE,
        ensures
            r == self@.memory[a as int],
    {
        self.memory[a]
    }
}

impl Machine {
    /// Fetches the big-endian opcode at the program counter.
    fn fetch_op(&self) -> (r: Result<u16, ExecutionFault>)
        requires
            self.wf(),
        ensures
            r == fetch(self@),
    {
        if (self.pc as usize) + 1 < MEMORY_SIZE {
            let hi = self.memory[self.pc as usize] as u16;
            let lo = self.memory[self.pc as usize + 1] as u16;
            Ok(hi * 256 + lo)
        } else {
            Err(ExecutionFault::PcOutOfBounds(self.pc))
        }
    }

    /// Register `x` set to `val`, then the flag register set to `flag`.
    fn set_with_flag(&mut self, x: usize, val: u8, flag: u8)
        requires
            old(self).wf(),
            x < REGISTER_COUNT,
        ensures
            final(self)@ == set_reg_flag(old(self)@, x as int, val, flag),
    {
        self.v.set(x, val);
        self.v.set(15, flag);
    }

    /// The register-to-register instructions.
    fn exec_alu(&mut self, op: u16, x: usize, y: usize, n: u16) -> (r: Result<(), ExecutionFault>)
        requires
            old(self).wf(),
            x < REGISTER_COUNT,
            y < REGISTER_COUNT,
            old(self)@.pc + 1 < MEMORY_SIZE,
        ensures
            match alu(old(self)@, op, x as int, old(self)@.v[x as int], old(self)@.v[y as int], n) {
                Ok(s) => r == Ok::<(), ExecutionFault>(()) && final(self)@ == s,
                Err(e) => r == Err::<(), ExecutionFault>(e) && final(self)@ == old(self)@,
            },
    {
        let a = self.v[x];
        let b = self.v[y];
        if n == 0 {
            self.v.set(x, b);
        } else if n == 1 {
            self.v.set(x, a | b);
        } else if n == 2 {
            self.v.set(x, a & b);
        } else if n == 3 {
            self.v.set(x, a ^ b);
        } else if n == 4 {
            let sum = a as u16 + b as u16;
            self.set_with_flag(x, (sum % 256) as u8, if sum > 255 { 1 } else { 0 });
        } else if n == 5 {
            let d = (a as u16 + 256 - b as u16) % 256;
            self.set_with_flag(x, d as u8, if a >= b { 1 } else { 0 });
        } else if n == 6 {
            let src = if self.quirks.shift_reads_vy { b } else { a };
            self.set_with_flag(x, src / 2, src % 2);
        } else if n == 7 {
            let d = (b as u16 + 256 - a as u16) % 256;
            self.set_with_flag(x, d as u8, if b >= a { 1 } else { 0 });
        } else if n == 14 {
            let src = if self.quirks.shift_reads_vy { b } else { a };
            self.set_with_flag(x, ((src as u16 * 2) % 256) as u8, src / 128);
        } else {
            return Err(ExecutionFault::UnknownOpcode(op));
        }
        self.pc = self.pc + 2;
        Ok(())
    }
}

/// Display row `r` receives sprite row `k` exactly when `r` is `k` rows
/// below `y`, wrapping at the bottom edge.
proof fn lemma_sprite_row(r: int, y: int, k: int)
    requires
        0 <= r < 32,
        0 <= y < 32,
        0 <= k < 32,
    ensures
        sprite_row((y + k) % 32, y) == k,
        sprite_row(r, y) == k <==> r == (y + k) % 32,
        0 <= sprite_row(r, y) < 32,
{
    if y + k < 32 {
        assert((y + k) % 32 == y + k);
        assert((y + k + 32 - y) % 32 == k);
    } else {
        assert((y + k) % 32 == y + k - 32);
        assert((y + k - 32 + 32 - y) % 32 == k);
    }
    if r >= y {
        assert((r + 32 - y) % 32 == r - y);
    } else {
        assert((r + 32 - y) % 32 == r + 32 - y);
    }
}

/// The display row for one sprite byte at column `x`.
fn mask_of(byte: u8, x: u64) -> (r: u64)
    requires
        x < 64,
    ensures
        r == sprite_mask(byte, x),
{
    let w = (byte as u64) << 56u64;
    if x == 0 {
        w
    } else {
        (w >> x) | (w << (64 - x))
    }
}

impl Machine {
    /// Draws the `n`-byte sprite at the index register at the position in
    /// registers `x` and `y`.
    fn exec_draw(&mut self, x: usize, y: usize, n: usize) -> (r: Result<(), ExecutionFault>)
        requires
            old(self).wf(),
            x < REGISTER_COUNT,
            y < REGISTER_COUNT,
            n < 16,
            old(self)@.pc + 1 < MEMORY_SIZE,
        ensures
            match draw(old(self)@, x as int, y as int, n as int) {
                Ok(s) => r == Ok::<(), ExecutionFault>(()) && final(self)@ == s,
                Err(e) => r == Err::<(), ExecutionFault>(e) && final(self)@ == old(self)@,
            },
    {
        let idx = self.i as usize;
        if idx + n > MEMORY_SIZE {
            return Err(ExecutionFault::MemoryOutOfBounds(self.i));
        }
        let px = (self.v[x] % 64) as u64;
        let py = (self.v[y] % 32) as usize;
        let ghost s0 = self@;
        let ghost sprite = s0.memory.subrange(idx as int, idx + n);
        let mut hit = false;
        let mut k: usize = 0;
        while k < n
            invariant
                k <= n,
                n < 16,
                idx + n <= MEMORY_SIZE,
                px < 64,
                py < 32,
                s0 == old(self)@,
                s0.wf(),
                sprite == s0.memory.subrange(idx as int, idx + n),
                self@ == (MachineState { display: self.display@, ..s0 }),
                self.display@.len() == 32,
                forall|r: int| 0 <= r < 32 ==> self.display@[r] == (if sprite_row(r, py as int) < k {
                    s0.display[r] ^ sprite_mask(sprite[sprite_row(r, py as int)], px)
                } else {
                    s0.display[r]
                }),
                hit == exists|j: int| 0 <= j < k && s0.display[(py + j) % 32] & sprite_mask(sprite[j], px) != 0,
            decreases n - k,
        {
            let row = (py + k) % 32;
            let mask = mask_of(self.memory[idx + k], px);
            let cur = self.display[row];
            proof {
                lemma_sprite_row(row as int, py as int, k as int);
                assert(cur == s0.display[row as int]);
                assert(mask == sprite_mask(sprite[k as int], px));
            }
            let ghost prev_hit = hit;
            if cur & mask != 0 {
                hit = true;
            }
            self.display.set(row, cur ^ mask);
            proof {
                assert forall|r: int| 0 <= r < 32 implies self.display@[r] == (if sprite_row(r, py as int) < k + 1 {
                    s0.display[r] ^ sprite_mask(sprite[sprite_row(r, py as int)], px)
                } else {
                    s0.display[r]
                }) by {
                    lemma_sprite_row(r, py as int, k as int);
                }
                if cur & mask != 0 {
                    assert(0 <= k < k + 1 && s0.display[(py + k) % 32] & sprite_mask(sprite[k as int], px) != 0);
                } else {
                    assert forall|j: int| 0 <= j < k + 1 && s0.display[(py + j) % 32] & sprite_mask(sprite[j], px) != 0 implies j < k by {
                        if j == k {
                            assert(s0.display[(py + j) % 32] == cur);
                        }
                    }
                }
            }
            k = k + 1;
        }
        proof {
            assert(self.display@ =~= draw_rows(s0.display, sprite, px, py as int));
        }
        let flag: u8 = if hit { 1 } else { 0 };
        self.v.set(15, flag);
        self.pc = self.pc + 2;
        Ok(())
    }
}

impl Machine {
    /// The instructions of high nibble F.
    fn exec_misc(&mut self, op: u16, x: usize, nn: u16, input: &InputState) -> (r: Result<(), ExecutionFault>)
        requires
            old(self).wf(),
            x < REGISTER_COUNT,
            old(self)@.pc + 1 < MEMORY_SIZE,
        ensures
            match misc(old(self)@, op, x as int, old(self)@.v[x as int], nn, input.keys()) {
                Ok(s) => r == Ok::<(), ExecutionFault>(()) && final(self)@ == s,
                Err(e) => r == Err::<(), ExecutionFault>(e) && final(self)@ == old(self)@,
            },
    {
        let a = self.v[x];
        let idx = self.i as usize;
        if nn == 0x07 {
            let d = self.delay_timer;
            self.v.set(x, d);
        } else if nn == 0x0A {
            match input.first_pressed() {
                Some(k) => {
                    proof {
                        let keys = input.keys();
                        let c = choose|c: int| 0 <= c < 16 && keys[c] && forall|j: int| 0 <= j < c ==> !keys[j];
                        assert(0 <= k < 16 && keys[k as int]);
                        assert(c == k as int) by {
                            if c < k as int {
                                assert(!keys[c]);
                            } else if c > k as int {
                                assert(!keys[k as int]);
                            }
                        }
                    }
                    self.v.set(x, k);
                },
                None => {
                    return Ok(());
                },
            }
        } else if nn == 0x15 {
            self.delay_timer = a;
        } else if nn == 0x18 {
            self.sound_timer = a;
        } else if nn == 0x1E {
            self.i = ((self.i as u32 + a as u32) % 65536) as u16;
        } else if nn == 0x29 {
            self.i = ((a % 16) as u16) * 5;
        } else if nn == 0x33 {
            if idx + 3 > MEMORY_SIZE {
                return Err(ExecutionFault::MemoryOutOfBounds(self.i));
            }
            self.memory.set(idx, a / 100);
            self.memory.set(idx + 1, (a / 10) % 10);
            self.memory.set(idx + 2, a % 10);
        } else if nn == 0x55 {
            if idx + x + 1 > MEMORY_SIZE {
                return Err(ExecutionFault::MemoryOutOfBounds(self.i));
            }
            let ghost s0 = self@;
            let mut j: usize = 0;
            while j <= x
                invariant
                    j <= x + 1,
                    x < REGISTER_COUNT,
                    idx == s0.i,
                    idx + x + 1 <= MEMORY_SIZE,
                    s0 == old(self)@,
                    s0.wf(),
                    self@ == (MachineState { memory: self.memory@, ..s0 }),
                    self.memory@ == Seq::new(s0.memory.len(), |p: int|
                        if idx <= p < idx + j { s0.v[p - idx] } else { s0.memory[p] }),
                decreases x + 1 - j,
            {
                let b = self.v[j];
                self.memory.set(idx + j, b);
                assert(self.memory@ =~= Seq::new(s0.memory.len(), |p: int|
                    if idx <= p < idx + j + 1 { s0.v[p - idx] } else { s0.memory[p] }));
                j = j + 1;
            }
            assert(self.memory@ =~= Seq::new(s0.memory.len(), |p: int|
                if s0.i <= p <= s0.i + x { s0.v[p - s0.i] } else { s0.memory[p] }));
            if self.quirks.store_advances_index {
                self.i = (idx + x + 1) as u16;
            }
        } else if nn == 0x65 {
            if idx + x + 1 > MEMORY_SIZE {
                return Err(ExecutionFault::MemoryOutOfBounds(self.i));
            }
            let ghost s0 = self@;
            let mut j: usize = 0;
            while j <= x
                invariant
                    j <= x + 1,
                    x < REGISTER_COUNT,
                    idx == s0.i,
                    idx + x + 1 <= MEMORY_SIZE,
                    s0 == old(self)@,
                    s0.wf(),
                    self@ == (MachineState { v: self.v@, ..s0 }),
                    self.v@ == Seq::new(s0.v.len(), |p: int| if p < j { s0.memory[s0.i + p] } else { s0.v[p] }),
                decreases x + 1 - j,
            {
                let b = self.memory[idx + j];
                self.v.set(j, b);
                assert(self.v@ =~= Seq::new(s0.v.len(), |p: int| if p < j + 1 { s0.memory[s0.i + p] } else { s0.v[p] }));
                j = j + 1;
            }
            assert(self.v@ =~= Seq::new(s0.v.len(), |p: int| if p <= x { s0.memory[s0.i + p] } else { s0.v[p] }));
            if self.quirks.store_advances_index {
                self.i = (idx + x + 1) as u16;
            }
        } else {
            return Err(ExecutionFault::UnknownOpcode(op));
        }
        self.pc = self.pc + 2;
        Ok(())
    }
}

impl Machine {
    /// Executes opcode `op`, fetched at the program counter.
    fn execute(&mut self, op: u16, input: &InputState, random: u8) -> (r: Result<(), ExecutionFault>)
        requires
            old(self).wf(),
            old(self)@.pc + 1 < MEMORY_SIZE,
        ensures
            final(self)@.sized(),
            match execute(old(self)@, op, input.keys(), random) {
                Ok(s) => r == Ok::<(), ExecutionFault>(()) && final(self)@ == s,
                Err(e) => r == Err::<(), ExecutionFault>(e) && final(self)@ == old(self)@,
            },
    {
        reveal(execute);
        let hi = op / 4096;
        let x = ((op / 256) % 16) as usize;
        let y = ((op / 16) % 16) as usize;
        let n = op % 16;
        let nn = op % 256;
        let nnn = op % 4096;
        if hi == 0 {
            if op == 0x00E0 {
                self.display = zeros_u64(DISPLAY_HEIGHT);
                self.pc = self.pc + 2;
            } else if op == 0x00EE {
                match self.stack.pop() {
                    Some(ret) => {
                        self.pc = ret;
                    },
                    None => {
                        return Err(ExecutionFault::StackUnderflow);
                    },
                }
            } else {
                return Err(ExecutionFault::UnknownOpcode(op));
            }
        } else if hi == 1 {
            self.pc = nnn;
        } else if hi == 2 {
            if self.stack.len() >= STACK_LIMIT {
                return Err(ExecutionFault::StackOverflow);
            }
            if self.pc as usize + 2 >= MEMORY_SIZE {
                return Err(ExecutionFault::PcOutOfBounds(self.pc + 2));
            }
            self.stack.push(self.pc + 2);
            self.pc = nnn;
        } else if hi == 3 {
            self.pc = if self.v[x] as u16 == nn { self.pc + 4 } else { self.pc + 2 };
        } else if hi == 4 {
            self.pc = if self.v[x] as u16 != nn { self.pc + 4 } else { self.pc + 2 };
        } else if hi == 5 {
            if n != 0 {
                return Err(ExecutionFault::UnknownOpcode(op));
            }
            self.pc = if self.v[x] == self.v[y] { self.pc + 4 } else { self.pc + 2 };
        } else if hi == 6 {
            self.v.set(x, nn as u8);
            self.pc = self.pc + 2;
        } else if hi == 7 {
            let sum = ((self.v[x] as u16 + nn) % 256) as u8;
            self.v.set(x, sum);
            self.pc = self.pc + 2;
        } else if hi == 8 {
            return self.exec_alu(op, x, y, n);
        } else if hi == 9 {
            if n != 0 {
                return Err(ExecutionFault::UnknownOpcode(op));
            }
            self.pc = if self.v[x] != self.v[y] { self.pc + 4 } else { self.pc + 2 };
        } else if hi == 10 {
            self.i = nnn;
            self.pc = self.pc + 2;
        } else if hi == 11 {
            self.pc = nnn + self.v[0] as u16;
        } else if hi == 12 {
            self.v.set(x, random & (nn as u8));
            self.pc = self.pc + 2;
        } else if hi == 13 {
            return self.exec_draw(x, y, n as usize);
        } else if hi == 14 {
            let key = self.v[x] % 16;
            if nn == 0x9E {
                self.pc = if input.is_pressed(key) { self.pc + 4 } else { self.pc + 2 };
            } else if nn == 0xA1 {
                self.pc = if !input.is_pressed(key) { self.pc + 4 } else { self.pc + 2 };
            } else {
                return Err(ExecutionFault::UnknownOpcode(op));
            }
        } else {
            return self.exec_misc(op, x, nn, input);
        }
        Ok(())
    }

    /// Performs one fetch-decode-execute step with the given key states and
    /// random byte (read by the random-number instruction). On a fault the
    /// machine is left as it was.
    pub fn tick(&mut self, input: &InputState, random: u8) -> (r: Result<(), ExecutionFault>)
        requires
            old(self).wf(),
        ensures
            final(self).wf(),
            match step(old(self)@, input.keys(), random) {
                Ok(s) => r == Ok::<(), ExecutionFault>(()) && final(self)@ == s,
                Err(e) => r == Err::<(), ExecutionFault>(e) && final(self)@ == old(self)@,
            },
    {
        match self.fetch_op() {
            Ok(op) => {
                let saved = self.duplicate();
                match self.execute(op, input, random) {
                    Ok(()) => {
                        if (self.pc as usize) < MEMORY_SIZE {
                            Ok(())
                        } else {
                            let pc = self.pc;
                            *self = saved;
                            Err(ExecutionFault::PcOutOfBounds(pc))
                        }
                    },
                    Err(e) => Err(e),
                }
            },
            Err(e) => Err(e),
        }
    }
}

impl Machine {
    /// A copy of this machine.
    fn duplicate(&self) -> (r: Machine)
        ensures
            r@ == self@,
    {
        let r = Machine {
            memory: self.memory.clone(),
            v: self.v.clone(),
            i: self.i,
            pc: self.pc,
            stack: self.stack.clone(),
            delay_timer: self.delay_timer,
            sound_timer: self.sound_timer,
            display: self.display.clone(),
            quirks: self.quirks,
        };
        assert(r.memory@ =~= self.memory@);
        assert(r.v@ =~= self.v@);
        assert(r.stack@ =~= self.stack@);
        assert(r.display@ =~= self.display@);
        r
    }

    /// Return address `k` of the call stack, counted from the bottom.
    pub fn stack_entry(&self, k: usize) -> (r: u16)
        requires
            k < self@.stack.len(),
        ensures
            r == self@.stack[k as int],
    {
        self.stack[k]
    }

    /// Assembles a machine from its fields.
    pub(crate) fn from_parts(
        memory: Vec<u8>,
        v: Vec<u8>,
        i: u16,
        pc: u16,
        stack: Vec<u16>,
        delay_timer: u8,
        sound_timer: u8,
        display: Vec<u64>,
        quirks: Quirks,
    ) -> (r: Machine)
        ensures
            r@ == (MachineState {
                memory: memory@,
                v: v@,
                i,
                pc,
                stack: stack@,
                delay_timer,
                sound_timer,
                display: display@,
                quirks,
            }),
    {
        Machine { memory, v, i, pc, stack, delay_timer, sound_timer, display, quirks }
    }
}

/// The state after `k` frame ticks of the timers.
pub open spec fn timers_after(s: MachineState, k: nat) -> MachineState
    decreases k,
{
    if k == 0 {
        s
    } else {
        tick_timers(timers_after(s, (k - 1) as nat))
    }
}

/// Adding two registers whose sum exceeds 255 leaves the sum modulo 256 in
/// register `x` and sets the flag register to 1; subtracting a larger
/// register leaves the difference modulo 256 and clears the flag register
/// (the flag holds "no borrow"). Register `x` is not the flag register.
pub proof fn lemma_add_sub_wrap(s: MachineState, x: int, y: int, keys: Seq<bool>, rnd: u8)
    requires
        s.wf(),
        0 <= x < 15,
        0 <= y < 16,
    ensures
        s.v[x] + s.v[y] > 255 ==> {
            &&& execute(s, (0x8004 + 256 * x + 16 * y) as u16, keys, rnd) is Ok
            &&& execute(s, (0x8004 + 256 * x + 16 * y) as u16, keys, rnd)->Ok_0.v[x] == s.v[x] + s.v[y] - 256
            &&& execute(s, (0x8004 + 256 * x + 16 * y) as u16, keys, rnd)->Ok_0.v[15] == 1
        },
        s.v[x] < s.v[y] ==> {
            &&& execute(s, (0x8005 + 256 * x + 16 * y) as u16, keys, rnd) is Ok
            &&& execute(s, (0x8005 + 256 * x + 16 * y) as u16, keys, rnd)->Ok_0.v[x] == s.v[x] - s.v[y] + 256
            &&& execute(s, (0x8005 + 256 * x + 16 * y) as u16, keys, rnd)->Ok_0.v[15] == 0
        },
{
    let add = (0x8004 + 256 * x + 16 * y) as u16;
    let sub = (0x8005 + 256 * x + 16 * y) as u16;
    lemma_decode(add, 8, x, y, 4);
    lemma_decode(sub, 8, x, y, 5);
    reveal(execute);
    assert(execute(s, add, keys, rnd) == alu(s, add, x, s.v[x], s.v[y], 4));
    assert(execute(s, sub, keys, rnd) == alu(s, sub, x, s.v[x], s.v[y], 5));
}

proof fn lemma_decode(op: u16, hi: int, x: int, y: int, n: int)
    requires
        0 <= hi < 16,
        0 <= x < 16,
        0 <= y < 16,
        0 <= n < 16,
        op == (4096 * hi + 256 * x + 16 * y + n) as u16,
    ensures
        op == 4096 * hi + 256 * x + 16 * y + n,
        op / 4096 == hi,
        (op / 256) % 16 == x,
        (op / 16) % 16 == y,
        op % 16 == n,
{
    assert(0 <= 4096 * hi + 256 * x + 16 * y + n < 65536);
    let v = 4096 * hi + 256 * x + 16 * y + n;
    assert(v / 4096 == hi) by (nonlinear_arith)
        requires v == 4096 * hi + 256 * x + 16 * y + n, 0 <= hi < 16, 0 <= x < 16, 0 <= y < 16, 0 <= n < 16;
    assert(v / 256 == 16 * hi + x) by (nonlinear_arith)
        requires v == 4096 * hi + 256 * x + 16 * y + n, 0 <= x < 16, 0 <= y < 16, 0 <= n < 16;
    assert((16 * hi + x) % 16 == x) by (nonlinear_arith)
        requires 0 <= x < 16, 0 <= hi;
    assert(v / 16 == 256 * hi + 16 * x + y) by (nonlinear_arith)
        requires v == 4096 * hi + 256 * x + 16 * y + n, 0 <= n < 16;
    assert((256 * hi + 16 * x + y) % 16 == y) by (nonlinear_arith)
        requires 0 <= y < 16, 0 <= hi, 0 <= x;
    assert(v % 16 == n) by (nonlinear_arith)
        requires v == 4096 * hi + 256 * x + 16 * y + n, 0 <= n < 16, 0 <= hi, 0 <= x, 0 <= y;
}

/// Drawing any sprite onto a blank display raises no collision.
pub proof fn lemma_blank_draw_no_collision(sprite: Seq<u8>, x: u64, y: int)
    requires
        sprite.len() < 16,
        x < 64,
        0 <= y < 32,
    ensures
        !collides(blank_display(), sprite, x, y),
{
    assert forall|k: int| 0 <= k < sprite.len() implies blank_display()[(y + k) % 32] & sprite_mask(sprite[k], x) == 0 by {
        let m = sprite_mask(sprite[k], x);
        assert(0u64 & m == 0) by (bit_vector);
    }
}

proof fn lemma_mask_nonzero(b: u8, x: u64)
    requires
        b != 0,
        x < 64,
    ensures
        sprite_mask(b, x) != 0,
{
    let w = (b as u64) << 56u64;
    assert(b != 0 ==> ((b as u64) << 56u64) != 0) by (bit_vector);
    if x != 0 {
        assert(w != 0 && 0 < x < 64 ==> (w >> x) | (w << ((64 - x) as u64)) != 0) by (bit_vector);
    }
}

/// Drawing a sprite that has a lit pixel onto a blank display, and then
/// drawing it again at the same place, raises a collision the second time.
pub proof fn lemma_redraw_collides(sprite: Seq<u8>, x: u64, y: int)
    requires
        sprite.len() < 16,
        x < 64,
        0 <= y < 32,
        exists|k: int| 0 <= k < sprite.len() && sprite[k] != 0,
    ensures
        collides(draw_rows(blank_display(), sprite, x, y), sprite, x, y),
{
    let k = choose|k: int| 0 <= k < sprite.len() && sprite[k] != 0;
    let r = (y + k) % 32;
    lemma_sprite_row(r, y, k);
    let m = sprite_mask(sprite[k], x);
    lemma_mask_nonzero(sprite[k], x);
    let d = draw_rows(blank_display(), sprite, x, y);
    assert(d[r] == 0u64 ^ m);
    assert(m != 0 ==> (0u64 ^ m) & m != 0) by (bit_vector);
}

/// From a timer value `n`, each frame tick takes one off until it reaches
/// zero, where it stays; the beep sounds exactly during the first `n` ticks.
pub proof fn lemma_timer_decay(s: MachineState, k: nat)
    ensures
        k <= s.sound_timer ==> timers_after(s, k).sound_timer == s.sound_timer - k,
        k <= s.delay_timer ==> timers_after(s, k).delay_timer == s.delay_timer - k,
        k >= s.sound_timer ==> timers_after(s, k).sound_timer == 0,
        k >= s.delay_timer ==> timers_after(s, k).delay_timer == 0,
        (timers_after(s, k).sound_timer != 0) == (k < s.sound_timer),
    decreases k,
{
    if k > 0 {
        lemma_timer_decay(s, (k - 1) as nat);
    }
}

/// A fetch at an address whose two bytes do not both lie in memory faults
/// without reading memory.
pub proof fn lemma_fetch_out_of_bounds(s: MachineState, keys: Seq<bool>, rnd: u8)
    requires
        s.pc as int + 1 >= MEMORY_SIZE,
    ensures
        step(s, keys, rnd) == Err::<MachineState, ExecutionFault>(ExecutionFault::PcOutOfBounds(s.pc)),
{
}

/// A return with an empty stack faults with an underflow; a call with the
/// stack at its limit faults with an overflow.
pub proof fn lemma_stack_discipline(s: MachineState, keys: Seq<bool>, rnd: u8)
    requires
        s.wf(),
        s.pc as int + 1 < MEMORY_SIZE,
    ensures
        s.stack.len() == 0 && s.memory[s.pc as int] == 0x00 && s.memory[s.pc + 1] == 0xEE
            ==> step(s, keys, rnd) == Err::<MachineState, ExecutionFault>(ExecutionFault::StackUnderflow),
        s.stack.len() == STACK_LIMIT && s.memory[s.pc as int] / 16 == 2
            ==> step(s, keys, rnd) == Err::<MachineState, ExecutionFault>(ExecutionFault::StackOverflow),
{
    let op = (s.memory[s.pc as int] as int * 256 + s.memory[s.pc as int + 1] as int) as u16;
    assert(op == s.memory[s.pc as int] as int * 256 + s.memory[s.pc as int + 1] as int);
    assert(op / 4096 == s.memory[s.pc as int] / 16);
    reveal(execute);
}

/// Steps run in one displayed frame by the host.
pub const CYCLES_PER_FRAME: usize = 10;

/// Runs one step per byte of `rnds` (each step's random byte), stopping at
/// the first fault: the state reached, and the fault if one stopped it.
pub open spec fn run_steps(s: MachineState, keys: Seq<bool>, rnds: Seq<u8>) -> (MachineState, Option<ExecutionFault>)
    decreases rnds.len(),
{
    if rnds.len() == 0 {
        (s, None)
    } else {
        match step(s, keys, rnds[0]) {
            Ok(s1) => run_steps(s1, keys, rnds.drop_first()),
            Err(e) => (s, Some(e)),
        }
    }
}

impl Machine {
    /// One displayed frame: a step per byte of `random`, then one timer
    /// tick. A fault stops the frame at once, before the timers, and is
    /// returned; the steps before it stand.
    pub fn run_frame(&mut self, input: &InputState, random: &[u8]) -> (r: Result<(), ExecutionFault>)
        requires
            old(self).wf(),
        ensures
            final(self).wf(),
            match run_steps(old(self)@, input.keys(), random@) {
                (s, None) => r == Ok::<(), ExecutionFault>(()) && final(self)@ == tick_timers(s),
                (s, Some(e)) => r == Err::<(), ExecutionFault>(e) && final(self)@ == s,
            },
    {
        let mut k: usize = 0;
        assert(random@.subrange(0, random@.len() as int) =~= random@);
        while k < random.len()
            invariant
                self.wf(),
                k <= random@.len(),
                run_steps(old(self)@, input.keys(), random@) == run_steps(self@, input.keys(), random@.subrange(k as int, random@.len() as int)),
            decreases random@.len() - k,
        {
            let ghost rest = random@.subrange(k as int, random@.len() as int);
            assert(rest[0] == random@[k as int]);
            assert(rest.drop_first() =~= random@.subrange(k + 1, random@.len() as int));
            match self.tick(input, random[k]) {
                Ok(()) => {},
                Err(e) => {
                    return Err(e);
                },
            }
            k = k + 1;
        }
        assert(random@.subrange(k as int, random@.len() as int) =~= Seq::<u8>::empty());
        self.update_timers();
        Ok(())
    }
}

} // verus!
