//! The byte codec for persisted schedules.
//!
//! A schedule is stored as one little-endian record: a sign byte for the
//! date, the date's magnitude (8 bytes), the run count (2), the interval (2),
//! the slot count (2), then each slot (2 bytes each). The codec accepts
//! exactly the canonical records it produces: any other shape — a short
//! record, a non-canonical sign, a date out of range, trailing bytes, or a
//! slot list that breaks the schedule invariant — is malformed. Malformed
//! records are reported, never repaired, so a corrupt store surfaces instead
//! of being silently regenerated over.

use vstd::prelude::*;
use crate::schedule::{sched_model, schedule_wf, DailySchedule, MAX_RUNS_PER_DAY, MINUTES_PER_DAY};

verus! {

/// Why a record failed to parse.
#[derive(PartialEq, Eq, Structural, Debug)]
pub enum CodecError {
    Malformed,
}

/// The little-endian bytes of `x`, `n` bytes long.
pub open spec fn le_bytes(x: nat, n: nat) -> Seq<u8>
    decreases n,
{
    if n == 0 {
        Seq::empty()
    } else {
        seq![(x % 256) as u8] + le_bytes(x / 256, (n - 1) as nat)
    }
}

/// The value little-endian bytes denote.
pub open spec fn le_val(s: Seq<u8>) -> nat
    decreases s.len(),
{
    if s.len() == 0 {
        0nat
    } else {
        s[0] as nat + 256 * le_val(s.drop_first())
    }
}

/// `256 ^ n`.
pub open spec fn pow256(n: nat) -> nat
    decreases n,
{
    if n == 0 {
        1nat
    } else {
        256 * pow256((n - 1) as nat)
    }
}

/// The powers of 256 the codec uses, unfolded.
proof fn lemma_pow256_vals()
    ensures
        pow256(0) == 1,
        pow256(2) == 0x10000,
        pow256(8) == 0x10000000000000000,
{
    assert(pow256(0) == 1);
    assert(pow256(1) == 256);
    assert(pow256(2) == 0x10000);
    assert(pow256(3) == 0x1000000);
    assert(pow256(4) == 0x100000000);
    assert(pow256(5) == 0x10000000000);
    assert(pow256(6) == 0x1000000000000);
    assert(pow256(7) == 0x100000000000000);
    assert(pow256(8) == 0x10000000000000000);
}

/// Little-endian encoding is exact: decoding the bytes of any value that
/// fits returns the value.
pub proof fn lemma_le_round_trip(x: nat, n: nat)
    requires
        x < pow256(n),
    ensures
        le_bytes(x, n).len() == n,
        le_val(le_bytes(x, n)) == x,
    decreases n,
{
    if n == 0 {
    } else {
        assert(x / 256 < pow256((n - 1) as nat)) by (nonlinear_arith)
            requires
                x < 256 * pow256((n - 1) as nat),
                pow256((n - 1) as nat) >= 0,
        ;
        lemma_le_round_trip(x / 256, (n - 1) as nat);
        let b = le_bytes(x, n);
        assert(b[0] == (x % 256) as u8);
        assert(b.drop_first() =~= le_bytes(x / 256, (n - 1) as nat));
    }
}

proof fn lemma_le_bytes_len(x: nat, n: nat)
    ensures
        le_bytes(x, n).len() == n,
    decreases n,
{
    if n > 0 {
        lemma_le_bytes_len(x / 256, (n - 1) as nat);
    }
}

/// The slot list, two bytes a slot, in order.
pub open spec fn slots_bytes(s: Seq<u16>) -> Seq<u8>
    decreases s.len(),
{
    if s.len() == 0 {
        Seq::empty()
    } else {
        le_bytes(s[0] as nat, 2) + slots_bytes(s.drop_first())
    }
}

proof fn lemma_slots_bytes_index(s: Seq<u16>)
    ensures
        slots_bytes(s).len() == 2 * s.len(),
        forall|i: int|
            0 <= i < s.len() ==> #[trigger] slots_bytes(s).subrange(2 * i, 2 * i + 2)
                =~= le_bytes(s[i] as nat, 2),
    decreases s.len(),
{
    if s.len() > 0 {
        lemma_le_bytes_len(s[0] as nat, 2);
        lemma_slots_bytes_index(s.drop_first());
        assert forall|i: int| 0 <= i < s.len() implies #[trigger] slots_bytes(s).subrange(
            2 * i,
            2 * i + 2,
        ) =~= le_bytes(s[i] as nat, 2) by {
            if i == 0 {
                assert(slots_bytes(s).subrange(0, 2) =~= le_bytes(s[0] as nat, 2));
            } else {
                assert(s.drop_first()[i - 1] == s[i]);
                assert(slots_bytes(s.drop_first()).subrange(2 * (i - 1), 2 * (i - 1) + 2) =~=
                    le_bytes(s.drop_first()[i - 1] as nat, 2));
                assert(slots_bytes(s).subrange(2 * i, 2 * i + 2) =~= slots_bytes(
                    s.drop_first(),
                ).subrange(2 * (i - 1), 2 * (i - 1) + 2));
            }
        }
    }
}

/// The invariant of a schedule, stated over its content.
pub open spec fn model_wf(m: (int, Seq<u16>, int, int)) -> bool {
    &&& 1 <= m.2 <= MAX_RUNS_PER_DAY
    &&& m.3 == MINUTES_PER_DAY as int / m.2
    &&& 1 <= m.1.len() <= m.2
    &&& forall|i: int| 0 <= i < m.1.len() ==> #[trigger] m.1[i] < MINUTES_PER_DAY
    &&& forall|i: int, j: int| 0 <= i < j < m.1.len() ==> m.1[i] < m.1[j]
    &&& i64::MIN <= m.0 <= i64::MAX
}

/// The canonical record of a schedule's content.
pub open spec fn spec_serialize(m: (int, Seq<u16>, int, int)) -> Seq<u8> {
    let sign: Seq<u8> = if m.0 < 0 {
        seq![1u8]
    } else {
        seq![0u8]
    };
    let mag: nat = if m.0 < 0 {
        (-m.0) as nat
    } else {
        m.0 as nat
    };
    sign + le_bytes(mag, 8) + le_bytes(m.2 as nat, 2) + le_bytes(m.3 as nat, 2) + le_bytes(
        m.1.len(),
        2,
    ) + slots_bytes(m.1)
}

/// What a record denotes: the content it is the canonical record of, or
/// nothing when it is malformed.
pub open spec fn spec_parse(b: Seq<u8>) -> Option<(int, Seq<u16>, int, int)> {
    if b.len() < 15 {
        None
    } else {
        let sign = b[0];
        let mag = le_val(b.subrange(1, 9));
        let total = le_val(b.subrange(9, 11)) as int;
        let interval = le_val(b.subrange(11, 13)) as int;
        let k = le_val(b.subrange(13, 15)) as int;
        if sign != 0 && sign != 1 {
            None
        } else if sign == 1 && (mag == 0 || mag > 0x8000000000000000) {
            None
        } else if sign == 0 && mag > i64::MAX {
            None
        } else if b.len() != 15 + 2 * k {
            None
        } else {
            let date: int = if sign == 1 {
                -(mag as int)
            } else {
                mag as int
            };
            let slots = Seq::new(k as nat, |i: int| le_val(b.subrange(15 + 2 * i, 17 + 2 * i)) as u16);
            let m = (date, slots, total, interval);
            if model_wf(m) {
                Some(m)
            } else {
                None
            }
        }
    }
}

/// Parsing a canonical record returns exactly the content it was made from:
/// serializing and deserializing a schedule yields field-for-field equality.
pub proof fn lemma_codec_round_trip(m: (int, Seq<u16>, int, int))
    requires
        model_wf(m),
    ensures
        spec_parse(spec_serialize(m)) == Some(m),
{
    let b = spec_serialize(m);
    let mag: nat = if m.0 < 0 {
        (-m.0) as nat
    } else {
        m.0 as nat
    };
    lemma_pow256_vals();
    lemma_le_round_trip(mag, 8);
    lemma_le_round_trip(m.2 as nat, 2);
    lemma_le_round_trip(m.3 as nat, 2);
    lemma_le_round_trip(m.1.len(), 2);
    lemma_slots_bytes_index(m.1);
    assert(b.len() == 15 + 2 * m.1.len());
    assert(b[0] == if m.0 < 0 { 1u8 } else { 0u8 });
    assert(b.subrange(1, 9) =~= le_bytes(mag, 8));
    assert(b.subrange(9, 11) =~= le_bytes(m.2 as nat, 2));
    assert(b.subrange(11, 13) =~= le_bytes(m.3 as nat, 2));
    assert(b.subrange(13, 15) =~= le_bytes(m.1.len(), 2));
    assert forall|i: int| 0 <= i < m.1.len() implies b.subrange(15 + 2 * i, 17 + 2 * i)
        =~= le_bytes(m.1[i] as nat, 2) by {
        assert(slots_bytes(m.1).subrange(2 * i, 2 * i + 2) =~= le_bytes(m.1[i] as nat, 2));
        assert forall|j: int| 0 <= j < 2 implies #[trigger] b[15 + 2 * i + j] == slots_bytes(
            m.1,
        )[2 * i + j] by {}
    }
    assert(le_val(b.subrange(1, 9)) == mag);
    assert(le_val(b.subrange(9, 11)) == m.2 as nat);
    assert(le_val(b.subrange(11, 13)) == m.3 as nat);
    assert(le_val(b.subrange(13, 15)) == m.1.len());
    let k = le_val(b.subrange(13, 15)) as int;
    let slots2 = Seq::new(k as nat, |i: int| le_val(b.subrange(15 + 2 * i, 17 + 2 * i)) as u16);
    assert(slots2 =~= m.1) by {
        assert forall|i: int| 0 <= i < m.1.len() implies slots2[i] == m.1[i] by {
            lemma_le_round_trip(m.1[i] as nat, 2);
            assert(b.subrange(15 + 2 * i, 17 + 2 * i) =~= le_bytes(m.1[i] as nat, 2));
        }
    }
    if m.0 < 0 {
        assert(mag >= 1);
        assert(mag <= 0x8000000000000000);
        assert(-(mag as int) == m.0);
    } else {
        assert(mag <= i64::MAX);
    }
    assert(spec_parse(b) == Some(m));
}

/// Serializing a well-formed schedule and parsing the record back yields the
/// schedule, field for field.
pub proof fn lemma_schedule_round_trip(s: DailySchedule)
    requires
        schedule_wf(s),
    ensures
        spec_parse(spec_serialize(sched_model(s))) == Some(sched_model(s)),
{
    lemma_codec_round_trip(sched_model(s));
}

/// Append the `n`-byte little-endian encoding of `x`.
fn push_le(out: &mut Vec<u8>, x: u64, n: usize)
    requires
        n <= 8,
        x < pow256(n as nat),
    ensures
        final(out)@ == old(out)@ + le_bytes(x as nat, n as nat),
{
    let mut v: u64 = x;
    let mut i: usize = 0;
    proof {
        lemma_le_bytes_len(x as nat, n as nat);
    }
    while i < n
        invariant
            0 <= i <= n,
            out@ == old(out)@ + le_bytes(x as nat, n as nat).take(i as int),
            le_bytes(x as nat, n as nat).len() == n,
            le_bytes(v as nat, (n - i) as nat) =~= le_bytes(x as nat, n as nat).skip(i as int),
        decreases n - i,
    {
        let b: u8 = (v % 256) as u8;
        proof {
            let rest = le_bytes(v as nat, (n - i) as nat);
            assert(rest[0] == b);
            assert(rest.drop_first() =~= le_bytes(v as nat / 256, (n - i - 1) as nat));
            assert(le_bytes(x as nat, n as nat).skip(i as int)[0] == le_bytes(
                x as nat,
                n as nat,
            )[i as int]);
            assert(le_bytes(x as nat, n as nat).take(i as int).push(b) =~= le_bytes(
                x as nat,
                n as nat,
            ).take(i + 1));
            assert(le_bytes(x as nat, n as nat).skip(i as int).drop_first() =~= le_bytes(
                x as nat,
                n as nat,
            ).skip(i + 1));
        }
        out.push(b);
        v = v / 256;
        i += 1;
    }
    proof {
        assert(le_bytes(x as nat, n as nat).take(n as int) =~= le_bytes(x as nat, n as nat));
    }
}

/// Read the `n`-byte little-endian value at `pos`.
fn read_le(b: &Vec<u8>, pos: usize, n: usize) -> (r: u64)
    requires
        n <= 8,
        pos + n <= b@.len(),
    ensures
        r as nat == le_val(b@.subrange(pos as int, pos as int + n)),
        r < pow256(n as nat),
{
    let blen = b.len();
    let mut acc: u64 = 0;
    let mut i: usize = n;
    proof {
        assert(b@.subrange(pos as int + n, pos as int + n) =~= Seq::<u8>::empty());
        lemma_pow256_vals();
    }
    while i > 0
        invariant
            0 <= i <= n <= 8,
            blen == b@.len(),
            pos + n <= blen,
            acc as nat == le_val(b@.subrange(pos + i, pos as int + n)),
            acc < pow256((n - i) as nat),
        decreases i,
    {
        i -= 1;
        let byte = b[pos + i];
        proof {
            let tail = b@.subrange(pos + i, pos as int + n);
            assert(tail[0] == b@[pos + i]);
            assert(tail.drop_first() =~= b@.subrange(pos + i + 1, pos as int + n));
            assert(le_val(tail) == byte as nat + 256 * le_val(tail.drop_first()));
            assert(pow256((n - i) as nat) == 256 * pow256((n - i - 1) as nat));
            assert(byte as nat + 256 * (acc as nat) < pow256((n - i) as nat)) by (nonlinear_arith)
                requires
                    (byte as nat) < 256,
                    (acc as nat) < pow256((n - i - 1) as nat),
                    pow256((n - i) as nat) == 256 * pow256((n - i - 1) as nat),
            ;
            lemma_pow256_vals();
            assert(pow256((n - i) as nat) <= pow256(8)) by {
                lemma_pow256_le((n - i) as nat, 8);
            }
        }
        acc = byte as u64 + 256 * acc;
    }
    acc
}

proof fn lemma_pow256_le(a: nat, c: nat)
    requires
        a <= c,
    ensures
        pow256(a) <= pow256(c),
    decreases c,
{
    if a < c {
        lemma_pow256_le(a, (c - 1) as nat);
        assert(pow256(c) == 256 * pow256((c - 1) as nat));
    }
}

/// The canonical record of a schedule.
pub fn serialize_schedule(s: &DailySchedule) -> (out: Vec<u8>)
    requires
        schedule_wf(*s),
    ensures
        out@ == spec_serialize(sched_model(*s)),
{
    let m = s.date;
    let sign: u8 = if m < 0 {
        1
    } else {
        0
    };
    let mag: u64 = if m < 0 {
        ((-(m + 1)) as u64) + 1
    } else {
        m as u64
    };
    let mut out: Vec<u8> = Vec::new();
    out.push(sign);
    proof {
        lemma_pow256_vals();
    }
    push_le(&mut out, mag, 8);
    push_le(&mut out, s.total_runs as u64, 2);
    push_le(&mut out, s.interval_minutes as u64, 2);
    let k = s.run_slots.len();
    push_le(&mut out, k as u64, 2);
    let ghost header = out@;
    let mut i: usize = 0;
    while i < k
        invariant
            0 <= i <= k,
            k == s.run_slots@.len(),
            k < 0x10000,
            out@ == header + slots_bytes(s.run_slots@.take(i as int)),
        decreases k - i,
    {
        let slot = s.run_slots[i];
        proof {
            lemma_pow256_vals();
            lemma_slots_bytes_take_step(s.run_slots@, i as int);
        }
        push_le(&mut out, slot as u64, 2);
        i += 1;
    }
    proof {
        assert(s.run_slots@.take(k as int) =~= s.run_slots@);
        assert(out@ =~= spec_serialize(sched_model(*s)));
    }
    out
}

/// In a strictly ascending chain every later element exceeds every earlier.
proof fn lemma_chain_lt(s: Seq<u16>, i: int, j: int)
    requires
        forall|a: int| 0 <= a < s.len() - 1 ==> #[trigger] s[a] < s[a + 1],
        0 <= i < j < s.len(),
    ensures
        s[i] < s[j],
    decreases j - i,
{
    if i + 1 < j {
        lemma_chain_lt(s, i + 1, j);
    }
    assert(s[i] < s[i + 1]);
}

/// Whether a schedule satisfies its invariant, checked at run time.
pub fn check_schedule_wf(s: &DailySchedule) -> (r: bool)
    ensures
        r == schedule_wf(*s),
{
    if s.total_runs < 1 || s.total_runs > MAX_RUNS_PER_DAY {
        return false;
    }
    if s.interval_minutes != MINUTES_PER_DAY / s.total_runs {
        return false;
    }
    let k = s.run_slots.len();
    if k < 1 || k > s.total_runs as usize {
        return false;
    }
    let mut i: usize = 0;
    while i < k
        invariant
            0 <= i <= k,
            k == s.run_slots@.len(),
            forall|a: int| 0 <= a < i ==> #[trigger] s.run_slots@[a] < MINUTES_PER_DAY,
            forall|a: int| 0 <= a < i && a < k - 1 ==> #[trigger] s.run_slots@[a] < s.run_slots@[a + 1],
        decreases k - i,
    {
        if s.run_slots[i] >= MINUTES_PER_DAY {
            return false;
        }
        if i + 1 < k && s.run_slots[i] >= s.run_slots[i + 1] {
            assert(!schedule_wf(*s)) by {
                assert(!(s.run_slots@[i as int] < s.run_slots@[i as int + 1]));
            }
            return false;
        }
        i += 1;
    }
    proof {
        assert forall|a: int, b: int| 0 <= a < b < k implies s.run_slots@[a] < s.run_slots@[b] by {
            lemma_chain_lt(s.run_slots@, a, b);
        }
    }
    true
}

/// Read a record back. A malformed record — too short, a non-canonical sign
/// or date, a length that disagrees with the slot count, or content that
/// breaks the schedule invariant — is an error, never repaired.
pub fn parse_schedule(b: &Vec<u8>) -> (r: Result<DailySchedule, CodecError>)
    ensures
        r matches Ok(s) ==> Some(sched_model(s)) == spec_parse(b@) && schedule_wf(s),
        r is Err ==> spec_parse(b@) is None,
{
    let len = b.len();
    if len < 15 {
        return Err(CodecError::Malformed);
    }
    let sign = b[0];
    let mag = read_le(b, 1, 8);
    let total = read_le(b, 9, 2);
    let interval = read_le(b, 11, 2);
    let k64 = read_le(b, 13, 2);
    proof {
        lemma_pow256_vals();
    }
    if sign != 0 && sign != 1 {
        return Err(CodecError::Malformed);
    }
    if sign == 1 && (mag == 0 || mag > 0x8000000000000000) {
        return Err(CodecError::Malformed);
    }
    if sign == 0 && mag > i64::MAX as u64 {
        return Err(CodecError::Malformed);
    }
    let k = k64 as usize;
    if len != 15 + 2 * k {
        return Err(CodecError::Malformed);
    }
    let date: i64 = if sign == 1 {
        if mag == 0x8000000000000000 {
            i64::MIN
        } else {
            -(mag as i64)
        }
    } else {
        mag as i64
    };
    let ghost spec_slot_seq = Seq::new(
        k as nat,
        |i: int| le_val(b@.subrange(15 + 2 * i, 17 + 2 * i)) as u16,
    );
    let mut slots: Vec<u16> = Vec::new();
    let mut i: usize = 0;
    while i < k
        invariant
            0 <= i <= k,
            k < 0x10000,
            len == b@.len(),
            len == 15 + 2 * k,
            slots@.len() == i as int,
            spec_slot_seq == Seq::new(
                k as nat,
                |i: int| le_val(b@.subrange(15 + 2 * i, 17 + 2 * i)) as u16,
            ),
            forall|j: int| 0 <= j < i ==> #[trigger] slots@[j] == spec_slot_seq[j],
        decreases k - i,
    {
        let v = read_le(b, 15 + 2 * i, 2);
        proof {
            lemma_pow256_vals();
        }
        slots.push(v as u16);
        i += 1;
    }
    assert(slots@ =~= spec_slot_seq);
    let sched = DailySchedule {
        date,
        run_slots: slots,
        total_runs: total as u16,
        interval_minutes: interval as u16,
    };
    if !check_schedule_wf(&sched) {
        return Err(CodecError::Malformed);
    }
    assert(sched_model(sched) == spec_parse(b@)->Some_0);
    Ok(sched)
}

/// Extending the encoded prefix by one slot appends that slot's bytes.
proof fn lemma_slots_bytes_take_step(s: Seq<u16>, i: int)
    requires
        0 <= i < s.len(),
    ensures
        slots_bytes(s.take(i + 1)) =~= slots_bytes(s.take(i)) + le_bytes(s[i] as nat, 2),
    decreases i,
{
    if i == 0 {
        assert(s.take(1).drop_first() =~= Seq::<u16>::empty());
        assert(s.take(0) =~= Seq::<u16>::empty());
        assert(s.take(1)[0] == s[0]);
    } else {
        lemma_slots_bytes_take_step(s.drop_first(), i - 1);
        assert(s.take(i + 1).drop_first() =~= s.drop_first().take(i));
        assert(s.take(i).drop_first() =~= s.drop_first().take(i - 1));
        assert(s.take(i + 1)[0] == s[0]);
        assert(s.take(i)[0] == s[0]);
        assert(s.drop_first()[i - 1] == s[i]);
    }
}

} // verus!
