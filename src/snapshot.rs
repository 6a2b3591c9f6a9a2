//! The snapshot codec: the whole machine state as a versioned byte string.
//!
//! Layout, all multi-byte values big-endian: the version byte; the 4096
//! memory bytes; the 16 data registers; the index register and the program
//! counter (two bytes each); the stack depth (one byte); sixteen two-byte
//! stack slots, those above the depth zero; the delay and sound timers; the
//! 32 display rows, eight bytes each; the compatibility switches (bit 0:
//! shifts read register y; bit 1: storing registers advances the index).
use vstd::prelude::*;
use crate::machine::{run_steps, Machine, MachineState, Quirks, MEMORY_SIZE, REGISTER_COUNT, STACK_LIMIT, DISPLAY_HEIGHT};

verus! {

/// Why a snapshot or a program image was refused.
#[derive(Clone, Copy, PartialEq, Eq, Structural, Debug)]
pub enum DecodeError {
    /// The snapshot is shorter than the layout.
    Truncated,
    /// The snapshot is longer than the layout.
    TrailingBytes,
    /// The snapshot carries another layout version than this one.
    VersionMismatch(u8),
    /// The recorded stack depth exceeds the architecture's limit.
    StackTooDeep(u8),
    /// The recorded program counter lies outside memory.
    PcOutOfRange(u16),
    /// A recorded return address lies outside memory.
    ReturnAddressOutOfRange,
    /// The switches byte has bits set that stand for no switch.
    UnknownQuirks(u8),
    /// The program image does not fit above the entry point.
    RomTooLarge,
}

/// The layout version written into, and required of, every snapshot.
pub const SNAPSHOT_VERSION: u8 = 2;
/// Length in bytes of every snapshot.
pub const SNAPSHOT_SIZE: usize = 4409;
/// Offset of the data registers within a snapshot.
pub const REGS_AT: usize = 4097;
/// Offset of the index register.
pub const INDEX_AT: usize = 4113;
/// Offset of the program counter.
pub const PC_AT: usize = 4115;
/// Offset of the stack depth.
pub const DEPTH_AT: usize = 4117;
/// Offset of the stack slots.
pub const STACK_AT: usize = 4118;
/// Offset of the delay timer; the sound timer follows it.
pub const TIMERS_AT: usize = 4150;
/// Offset of the display rows.
pub const DISPLAY_AT: usize = 4152;
/// Offset of the compatibility switches.
pub const QUIRKS_AT: usize = 4408;

/// A 16-bit value as two big-endian bytes.
pub open spec fn be16(x: u16) -> Seq<u8> {
    seq![(x / 256) as u8, (x % 256) as u8]
}

/// The 16-bit big-endian value at offset `o` of `b`.
pub open spec fn read16(b: Seq<u8>, o: int) -> u16 {
    (b[o] * 256 + b[o + 1]) as u16
}

/// Byte `t` (0 the most significant) of a display row.
pub open spec fn row_byte(x: u64, t: int) -> u8 {
    ((x >> ((56 - 8 * t) as u64)) & 0xffu64) as u8
}

/// The 64-bit big-endian value at offset `o` of `b`.
pub open spec fn read64(b: Seq<u8>, o: int) -> u64 {
    (b[o] as u64) << 56u64 | (b[o + 1] as u64) << 48u64 | (b[o + 2] as u64) << 40u64
        | (b[o + 3] as u64) << 32u64 | (b[o + 4] as u64) << 24u64 | (b[o + 5] as u64) << 16u64
        | (b[o + 6] as u64) << 8u64 | (b[o + 7] as u64)
}

/// The return address stored in stack slot `k` of snapshot `b`.
pub open spec fn stored_return(b: Seq<u8>, k: int) -> u16 {
    read16(b, STACK_AT + 2 * k)
}

/// Stack slot `k`: the return address there, or zero above the depth.
pub open spec fn stack_slot(st: Seq<u16>, k: int) -> u16 {
    if k < st.len() { st[k] } else { 0 }
}

/// The sixteen stack slots as bytes.
pub open spec fn encode_stack(st: Seq<u16>) -> Seq<u8> {
    Seq::new(32, |j: int| if j % 2 == 0 {
        (stack_slot(st, j / 2) / 256) as u8
    } else {
        (stack_slot(st, j / 2) % 256) as u8
    })
}

/// The display rows as bytes.
pub open spec fn encode_display(d: Seq<u64>) -> Seq<u8> {
    Seq::new(256, |j: int| row_byte(d[j / 8], j % 8))
}

/// The switches as one byte.
pub open spec fn quirks_byte(q: Quirks) -> u8 {
    ((if q.shift_reads_vy { 1int } else { 0int }) + (if q.store_advances_index { 2int } else { 0int })) as u8
}

/// The switches a byte below 4 stands for.
pub open spec fn quirks_of(b: u8) -> Quirks {
    Quirks { shift_reads_vy: b % 2 == 1, store_advances_index: b / 2 == 1 }
}

/// The snapshot of a machine.
pub open spec fn encode(s: MachineState) -> Seq<u8> {
    seq![SNAPSHOT_VERSION] + s.memory + s.v + be16(s.i) + be16(s.pc) + seq![s.stack.len() as u8]
        + encode_stack(s.stack) + seq![s.delay_timer, s.sound_timer] + encode_display(s.display)
        + seq![quirks_byte(s.quirks)]
}

/// The machine a snapshot describes, or why it describes none.
pub open spec fn decode(b: Seq<u8>) -> Result<MachineState, DecodeError> {
    if b.len() < SNAPSHOT_SIZE {
        Err(DecodeError::Truncated)
    } else if b.len() > SNAPSHOT_SIZE {
        Err(DecodeError::TrailingBytes)
    } else if b[0] != SNAPSHOT_VERSION {
        Err(DecodeError::VersionMismatch(b[0]))
    } else if b[DEPTH_AT as int] > STACK_LIMIT {
        Err(DecodeError::StackTooDeep(b[DEPTH_AT as int]))
    } else if read16(b, PC_AT as int) >= MEMORY_SIZE {
        Err(DecodeError::PcOutOfRange(read16(b, PC_AT as int)))
    } else if exists|k: int| 0 <= k < b[DEPTH_AT as int] && stored_return(b, k) >= MEMORY_SIZE {
        Err(DecodeError::ReturnAddressOutOfRange)
    } else if b[QUIRKS_AT as int] > 3 {
        Err(DecodeError::UnknownQuirks(b[QUIRKS_AT as int]))
    } else {
        Ok(MachineState {
            memory: b.subrange(1, REGS_AT as int),
            v: b.subrange(REGS_AT as int, INDEX_AT as int),
            i: read16(b, INDEX_AT as int),
            pc: read16(b, PC_AT as int),
            stack: Seq::new(b[DEPTH_AT as int] as nat, |k: int| stored_return(b, k)),
            delay_timer: b[TIMERS_AT as int],
            sound_timer: b[TIMERS_AT + 1],
            display: Seq::new(32, |r: int| read64(b, DISPLAY_AT + 8 * r)),
            quirks: quirks_of(b[QUIRKS_AT as int]),
        })
    }
}

proof fn lemma_read64_row(x: u64)
    ensures
        read64(seq![row_byte(x, 0), row_byte(x, 1), row_byte(x, 2), row_byte(x, 3),
            row_byte(x, 4), row_byte(x, 5), row_byte(x, 6), row_byte(x, 7)], 0) == x,
{
    let b = seq![row_byte(x, 0), row_byte(x, 1), row_byte(x, 2), row_byte(x, 3),
        row_byte(x, 4), row_byte(x, 5), row_byte(x, 6), row_byte(x, 7)];
    assert(b[0] == ((x >> 56u64) & 0xffu64) as u8);
    assert(b[1] == ((x >> 48u64) & 0xffu64) as u8);
    assert(b[2] == ((x >> 40u64) & 0xffu64) as u8);
    assert(b[3] == ((x >> 32u64) & 0xffu64) as u8);
    assert(b[4] == ((x >> 24u64) & 0xffu64) as u8);
    assert(b[5] == ((x >> 16u64) & 0xffu64) as u8);
    assert(b[6] == ((x >> 8u64) & 0xffu64) as u8);
    assert(b[7] == ((x >> 0u64) & 0xffu64) as u8);
    assert(
        ((((x >> 56u64) & 0xffu64) as u8) as u64) << 56u64 | ((((x >> 48u64) & 0xffu64) as u8) as u64) << 48u64
        | ((((x >> 40u64) & 0xffu64) as u8) as u64) << 40u64 | ((((x >> 32u64) & 0xffu64) as u8) as u64) << 32u64
        | ((((x >> 24u64) & 0xffu64) as u8) as u64) << 24u64 | ((((x >> 16u64) & 0xffu64) as u8) as u64) << 16u64
        | ((((x >> 8u64) & 0xffu64) as u8) as u64) << 8u64 | ((((x >> 0u64) & 0xffu64) as u8) as u64) == x
    ) by (bit_vector);
}

/// Decoding the snapshot of a machine gives back that machine.
pub proof fn lemma_snapshot_round_trip(s: MachineState)
    requires
        s.wf(),
    ensures
        decode(encode(s)) == Ok::<MachineState, DecodeError>(s),
{
    let e = encode(s);
    assert(e.len() == SNAPSHOT_SIZE);
    assert(e[0] == SNAPSHOT_VERSION);
    assert(e[DEPTH_AT as int] == s.stack.len());
    assert(e.subrange(1, REGS_AT as int) =~= s.memory);
    assert(e.subrange(REGS_AT as int, INDEX_AT as int) =~= s.v);
    assert(read16(e, INDEX_AT as int) == s.i);
    assert(read16(e, PC_AT as int) == s.pc);
    assert(e[TIMERS_AT as int] == s.delay_timer);
    assert(e[TIMERS_AT + 1] == s.sound_timer);
    let st = Seq::new(e[DEPTH_AT as int] as nat, |k: int| stored_return(e, k));
    assert forall|k: int| 0 <= k < s.stack.len() implies st[k] == s.stack[k] by {
        assert(e[STACK_AT + 2 * k] == encode_stack(s.stack)[2 * k]);
        assert(e[STACK_AT + 2 * k + 1] == encode_stack(s.stack)[2 * k + 1]);
        assert((2 * k) / 2 == k && (2 * k) % 2 == 0);
        assert((2 * k + 1) / 2 == k && (2 * k + 1) % 2 == 1);
    }
    assert(st =~= s.stack);
    assert forall|k: int| 0 <= k < e[DEPTH_AT as int] implies stored_return(e, k) < MEMORY_SIZE by {
        assert(st[k] == s.stack[k]);
    }
    let d = Seq::new(32, |r: int| read64(e, DISPLAY_AT + 8 * r));
    assert forall|r: int| 0 <= r < 32 implies d[r] == s.display[r] by {
        let w = e.subrange(DISPLAY_AT + 8 * r, DISPLAY_AT + 8 * r + 8);
        assert forall|t: int| 0 <= t < 8 implies w[t] == row_byte(s.display[r], t) by {
            assert(e[DISPLAY_AT + 8 * r + t] == encode_display(s.display)[8 * r + t]);
            assert((8 * r + t) / 8 == r && (8 * r + t) % 8 == t);
        }
        lemma_read64_row(s.display[r]);
        assert(w =~= seq![row_byte(s.display[r], 0), row_byte(s.display[r], 1), row_byte(s.display[r], 2),
            row_byte(s.display[r], 3), row_byte(s.display[r], 4), row_byte(s.display[r], 5),
            row_byte(s.display[r], 6), row_byte(s.display[r], 7)]);
        assert(read64(e, DISPLAY_AT + 8 * r) == read64(w, 0));
    }
    assert(d =~= s.display);
    assert(e[QUIRKS_AT as int] == quirks_byte(s.quirks));
    assert(quirks_of(quirks_byte(s.quirks)) == s.quirks);
}

/// A machine restored from a snapshot runs on exactly as the machine the
/// snapshot was taken of, for any key states and random bytes.
pub proof fn lemma_restore_resumes(s: MachineState, keys: Seq<bool>, rnds: Seq<u8>)
    requires
        s.wf(),
    ensures
        decode(encode(s)) is Ok,
        run_steps(decode(encode(s))->Ok_0, keys, rnds) == run_steps(s, keys, rnds),
{
    lemma_snapshot_round_trip(s);
}

/// The 16-bit big-endian value at offset `o`.
fn get16(b: &[u8], o: usize) -> (r: u16)
    requires
        o + 1 < b@.len(),
    ensures
        r == read16(b@, o as int),
{
    b[o] as u16 * 256 + b[o + 1] as u16
}

/// The 64-bit big-endian value at offset `o`.
fn get64(b: &[u8], o: usize) -> (r: u64)
    requires
        o + 7 < b@.len(),
    ensures
        r == read64(b@, o as int),
{
    (b[o] as u64) << 56u64 | (b[o + 1] as u64) << 48u64 | (b[o + 2] as u64) << 40u64
        | (b[o + 3] as u64) << 32u64 | (b[o + 4] as u64) << 24u64 | (b[o + 5] as u64) << 16u64
        | (b[o + 6] as u64) << 8u64 | (b[o + 7] as u64)
}

/// The bytes `b[lo..hi]` as a vector.
fn copy_range(b: &[u8], lo: usize, hi: usize) -> (r: Vec<u8>)
    requires
        lo <= hi <= b@.len(),
    ensures
        r@ == b@.subrange(lo as int, hi as int),
{
    let mut r: Vec<u8> = Vec::new();
    let mut k: usize = lo;
    while k < hi
        invariant
            lo <= k <= hi,
            hi <= b@.len(),
            r@ == b@.subrange(lo as int, k as int),
        decreases hi - k,
    {
        r.push(b[k]);
        assert(r@ =~= b@.subrange(lo as int, k + 1));
        k = k + 1;
    }
    r
}

impl Machine {
    /// The snapshot of this machine.
    pub fn serialize(&self) -> (r: Vec<u8>)
        requires
            self.wf(),
        ensures
            r@ == encode(self@),
    {
        let ghost s = self@;
        let mut out: Vec<u8> = Vec::new();
        out.push(SNAPSHOT_VERSION);
        let mut a: usize = 0;
        while a < MEMORY_SIZE
            invariant
                s == self@,
                s.wf(),
                a <= MEMORY_SIZE,
                out@ == seq![SNAPSHOT_VERSION] + s.memory.subrange(0, a as int),
            decreases MEMORY_SIZE - a,
        {
            out.push(self.memory_at(a));
            assert(out@ =~= seq![SNAPSHOT_VERSION] + s.memory.subrange(0, a + 1));
            a = a + 1;
        }
        assert(s.memory.subrange(0, MEMORY_SIZE as int) =~= s.memory);
        let ghost base = out@;
        let mut x: usize = 0;
        while x < REGISTER_COUNT
            invariant
                s == self@,
                s.wf(),
                x <= REGISTER_COUNT,
                out@ == base + s.v.subrange(0, x as int),
            decreases REGISTER_COUNT - x,
        {
            out.push(self.register(x));
            assert(out@ =~= base + s.v.subrange(0, x + 1));
            x = x + 1;
        }
        assert(s.v.subrange(0, REGISTER_COUNT as int) =~= s.v);
        let i = self.index();
        let pc = self.pc();
        out.push((i / 256) as u8);
        out.push((i % 256) as u8);
        out.push((pc / 256) as u8);
        out.push((pc % 256) as u8);
        let depth = self.stack_depth();
        out.push(depth as u8);
        let ghost base = out@;
        let mut k: usize = 0;
        while k < STACK_LIMIT
            invariant
                s == self@,
                s.wf(),
                k <= STACK_LIMIT,
                depth == s.stack.len(),
                out@ == base + encode_stack(s.stack).subrange(0, 2 * k),
            decreases STACK_LIMIT - k,
        {
            let slot: u16 = if k < depth { self.stack_entry(k) } else { 0 };
            out.push((slot / 256) as u8);
            out.push((slot % 256) as u8);
            proof {
                assert((2 * k as int) / 2 == k && (2 * k as int) % 2 == 0);
                assert((2 * k as int + 1) / 2 == k && (2 * k as int + 1) % 2 == 1);
            }
            assert(out@ =~= base + encode_stack(s.stack).subrange(0, 2 * (k + 1)));
            k = k + 1;
        }
        assert(encode_stack(s.stack).subrange(0, 32) =~= encode_stack(s.stack));
        out.push(self.delay_timer());
        out.push(self.sound_timer());
        let ghost base = out@;
        let rows = self.display_buffer();
        let mut r: usize = 0;
        while r < DISPLAY_HEIGHT
            invariant
                s == self@,
                s.wf(),
                rows@ == s.display,
                r <= DISPLAY_HEIGHT,
                out@ == base + encode_display(s.display).subrange(0, 8 * r),
            decreases DISPLAY_HEIGHT - r,
        {
            let w = rows[r];
            let mut t: usize = 0;
            while t < 8
                invariant
                    s == self@,
                    s.wf(),
                    rows@ == s.display,
                    r < DISPLAY_HEIGHT,
                    w == s.display[r as int],
                    t <= 8,
                    out@ == base + encode_display(s.display).subrange(0, 8 * r + t),
                decreases 8 - t,
            {
                let byte = ((w >> ((56 - 8 * t) as u64)) & 0xffu64) as u8;
                out.push(byte);
                proof {
                    assert((8 * r as int + t) / 8 == r && (8 * r as int + t) % 8 == t);
                }
                assert(out@ =~= base + encode_display(s.display).subrange(0, 8 * r + t + 1));
                t = t + 1;
            }
            r = r + 1;
        }
        assert(encode_display(s.display).subrange(0, 256) =~= encode_display(s.display));
        let q = self.quirks();
        let qb: u8 = (if q.shift_reads_vy { 1u8 } else { 0u8 }) + (if q.store_advances_index { 2u8 } else { 0u8 });
        out.push(qb);
        assert(out@ =~= encode(s));
        out
    }

    /// Restores a machine from a snapshot. A snapshot of the wrong length,
    /// of another layout version, with a stack deeper than the limit, or
    /// with a program counter or return address outside memory is refused.
    pub fn from_state(bytes: &[u8]) -> (r: Result<Machine, DecodeError>)
        ensures
            match decode(bytes@) {
                Ok(s) => r is Ok && r->Ok_0@ == s && r->Ok_0.wf(),
                Err(e) => r == Err::<Machine, DecodeError>(e),
            },
    {
        if bytes.len() < SNAPSHOT_SIZE {
            return Err(DecodeError::Truncated);
        }
        if bytes.len() > SNAPSHOT_SIZE {
            return Err(DecodeError::TrailingBytes);
        }
        if bytes[0] != SNAPSHOT_VERSION {
            return Err(DecodeError::VersionMismatch(bytes[0]));
        }
        let depth = bytes[DEPTH_AT];
        if depth as usize > STACK_LIMIT {
            return Err(DecodeError::StackTooDeep(depth));
        }
        let pc = get16(bytes, PC_AT);
        if pc as usize >= MEMORY_SIZE {
            return Err(DecodeError::PcOutOfRange(pc));
        }
        let mut stack: Vec<u16> = Vec::new();
        let mut k: usize = 0;
        while k < depth as usize
            invariant
                bytes@.len() == SNAPSHOT_SIZE,
                bytes@[0] == SNAPSHOT_VERSION,
                read16(bytes@, PC_AT as int) < MEMORY_SIZE,
                depth <= STACK_LIMIT,
                depth == bytes@[DEPTH_AT as int],
                k <= depth,
                stack@ == Seq::new(k as nat, |j: int| stored_return(bytes@, j)),
                forall|j: int| 0 <= j < k ==> stored_return(bytes@, j) < MEMORY_SIZE,
            decreases depth - k,
        {
            let ret = get16(bytes, STACK_AT + 2 * k);
            assert(stored_return(bytes@, k as int) == ret);
            if ret as usize >= MEMORY_SIZE {
                assert(0 <= k < bytes@[DEPTH_AT as int] && stored_return(bytes@, k as int) >= MEMORY_SIZE);
                return Err(DecodeError::ReturnAddressOutOfRange);
            }
            stack.push(ret);
            assert(stack@ =~= Seq::new((k + 1) as nat, |j: int| stored_return(bytes@, j)));
            k = k + 1;
        }
        let qb = bytes[QUIRKS_AT];
        if qb > 3 {
            return Err(DecodeError::UnknownQuirks(qb));
        }
        let quirks = Quirks { shift_reads_vy: qb % 2 == 1, store_advances_index: qb / 2 == 1 };
        let mut display: Vec<u64> = Vec::new();
        let mut r: usize = 0;
        while r < DISPLAY_HEIGHT
            invariant
                bytes@.len() == SNAPSHOT_SIZE,
                r <= DISPLAY_HEIGHT,
                display@ == Seq::new(r as nat, |j: int| read64(bytes@, DISPLAY_AT + 8 * j)),
            decreases DISPLAY_HEIGHT - r,
        {
            display.push(get64(bytes, DISPLAY_AT + 8 * r));
            assert(display@ =~= Seq::new((r + 1) as nat, |j: int| read64(bytes@, DISPLAY_AT + 8 * j)));
            r = r + 1;
        }
        let memory = copy_range(bytes, 1, REGS_AT);
        let v = copy_range(bytes, REGS_AT, INDEX_AT);
        let m = Machine::from_parts(
            memory,
            v,
            get16(bytes, INDEX_AT),
            pc,
            stack,
            bytes[TIMERS_AT],
            bytes[TIMERS_AT + 1],
            display,
            quirks,
        );
        Ok(m)
    }
}

} // verus!
