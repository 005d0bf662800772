use vstd::prelude::*;

verus! {

/// Why a variable-length integer could not be read.
#[derive(Debug, Clone, Copy, PartialEq, Eq, Structural)]
pub enum VarIntError {
    /// The input ended while the continuation bit asked for more bytes.
    Incomplete,
    /// More than five 7-bit groups were announced.
    Overflow,
}

/// Largest number of 7-bit groups a 32-bit value may take.
pub const VARINT_MAX_GROUPS: usize = 5;

/// The minimal group encoding of an unsigned value, low group first.
pub open spec fn groups_of(u: nat) -> Seq<u8>
    decreases u,
{
    if u < 128 {
        seq![u as u8]
    } else {
        seq![(u % 128 + 128) as u8] + groups_of(u / 128)
    }
}

/// The bytes that encode a 32-bit signed value (its two's-complement bits).
pub open spec fn varint_bytes(v: i32) -> Seq<u8> {
    groups_of((v as u32) as nat)
}

/// Decoding of the groups of `s`, `k` groups having been read before it:
/// the value (unbounded) and the number of bytes taken.
pub open spec fn decode_groups(s: Seq<u8>, k: nat) -> Result<(nat, nat), VarIntError>
    decreases VARINT_MAX_GROUPS - k,
{
    if s.len() == 0 {
        Err(VarIntError::Incomplete)
    } else if s[0] < 128 {
        Ok((s[0] as nat, 1))
    } else if k + 1 >= VARINT_MAX_GROUPS {
        Err(VarIntError::Overflow)
    } else {
        match decode_groups(s.drop_first(), k + 1) {
            Ok((v, n)) => Ok((((s[0] - 128) + 128 * v) as nat, n + 1)),
            Err(e) => Err(e),
        }
    }
}

/// The value and byte count read from the start of `s`.
pub open spec fn decode_varint(s: Seq<u8>) -> Result<(i32, nat), VarIntError> {
    match decode_groups(s, 0) {
        Ok((v, n)) => Ok(((v as u32) as i32, n)),
        Err(e) => Err(e),
    }
}

/// 128 to the power `k`.
pub open spec fn pow128(k: nat) -> nat
    decreases k,
{
    if k == 0 {
        1
    } else {
        128 * pow128((k - 1) as nat)
    }
}

proof fn lemma_pow128_small()
    ensures
        pow128(0) == 1,
        pow128(1) == 128,
        pow128(2) == 16384,
        pow128(3) == 2097152,
        pow128(4) == 268435456,
        pow128(5) == 34359738368,
{
    reveal_with_fuel(pow128, 6);
}

proof fn lemma_pow128_bound(k: nat)
    requires
        k <= 4,
    ensures
        1 <= pow128(k) <= 268435456,
        k <= 3 ==> pow128(k) <= 2097152,
        pow128(k + 1) == 128 * pow128(k),
{
    lemma_pow128_small();
    assert(k == 0 || k == 1 || k == 2 || k == 3 || k == 4);
}

/// Combines what was read so far with what the rest of the input decodes to.
pub open spec fn continue_with(
    acc: nat,
    k: nat,
    rest: Result<(nat, nat), VarIntError>,
) -> Result<(nat, nat), VarIntError> {
    match rest {
        Ok((v, n)) => Ok((acc + pow128(k) * v, n + k)),
        Err(e) => Err(e),
    }
}

proof fn lemma_decode_step(s: Seq<u8>, acc: nat, k: nat)
    requires
        k < s.len(),
        k < VARINT_MAX_GROUPS,
        s[k as int] >= 128,
        k + 1 < VARINT_MAX_GROUPS,
    ensures
        continue_with(acc, k, decode_groups(s.skip(k as int), k)) == continue_with(
            acc + pow128(k) * ((s[k as int] - 128) as nat),
            k + 1,
            decode_groups(s.skip((k + 1) as int), k + 1),
        ),
{
    assert(s.skip(k as int).drop_first() =~= s.skip((k + 1) as int));
    let rest = decode_groups(s.skip((k + 1) as int), k + 1);
    let d = (s[k as int] - 128) as nat;
    match rest {
        Ok((v, n)) => {
            assert(pow128(k + 1) == 128 * pow128(k));
            assert(pow128(k) * (d + 128 * v) == pow128(k) * d + pow128(k + 1) * v) by (nonlinear_arith)
                requires pow128(k + 1) == 128 * pow128(k);
        },
        Err(e) => {},
    }
}

/// Reads a variable-length integer from the start of `input`: the value and
/// the number of bytes it took.
pub fn parse_varint(input: &[u8]) -> (r: Result<(i32, usize), VarIntError>)
    ensures
        match decode_varint(input@) {
            Ok((v, n)) => r == Ok::<(i32, usize), VarIntError>((v, n as usize)),
            Err(e) => r == Err::<(i32, usize), VarIntError>(e),
        },
{
    let mut acc: u64 = 0;
    let mut scale: u64 = 1;
    let mut k: usize = 0;
    assert(input@.skip(0) =~= input@);
    loop
        invariant
            k < VARINT_MAX_GROUPS,
            k <= input@.len(),
            scale == pow128(k as nat),
            acc < scale,
            decode_groups(input@, 0) == continue_with(acc as nat, k as nat, decode_groups(input@.skip(k as int), k as nat)),
        decreases VARINT_MAX_GROUPS - k,
    {
        proof {
            lemma_pow128_bound(k as nat);
        }
        if k >= input.len() {
            assert(input@.skip(k as int).len() == 0);
            return Err(VarIntError::Incomplete);
        }
        let b = input[k];
        if b < 128 {
            assert(input@.skip(k as int)[0] == b);
            assert(scale * (b as u64) <= scale * 127) by (nonlinear_arith)
                requires b < 128, scale > 0;
            let total = acc + scale * (b as u64);
            proof {
                assert(pow128(k as nat) * (b as nat) == scale * (b as u64));
            }
            return Ok(((total as u32) as i32, k + 1));
        }
        if k + 1 >= VARINT_MAX_GROUPS {
            assert(input@.skip(k as int)[0] == b);
            return Err(VarIntError::Overflow);
        }
        proof {
            lemma_decode_step(input@, acc as nat, k as nat);
        }
        assert(scale * ((b - 128) as u64) <= scale * 127) by (nonlinear_arith)
            requires b < 256, b >= 128, scale > 0;
        proof {
            lemma_pow128_bound((k + 1) as nat);
        }
        acc = acc + scale * ((b - 128) as u64);
        scale = scale * 128;
        k = k + 1;
    }
}

/// Appends the minimal encoding of `value` to `buf` and returns how many
/// bytes it took.
pub fn write_varint(value: i32, buf: &mut Vec<u8>) -> (r: usize)
    ensures
        final(buf)@ == old(buf)@ + varint_bytes(value),
        r == varint_bytes(value).len(),
        1 <= r <= VARINT_MAX_GROUPS,
{
    let mut u: u32 = value as u32;
    let mut written: usize = 0;
    proof {
        lemma_pow128_small();
        lemma_groups_len((value as u32) as nat, 5);
    }
    loop
        invariant
            old(buf)@ + varint_bytes(value) == buf@ + groups_of(u as nat),
            written + groups_of(u as nat).len() == varint_bytes(value).len(),
            varint_bytes(value).len() <= VARINT_MAX_GROUPS,
        decreases u,
    {
        if u < 128 {
            buf.push(u as u8);
            assert(groups_of(u as nat) == seq![u as u8]);
            return written + 1;
        }
        let g: u8 = (u % 128 + 128) as u8;
        proof {
            assert(groups_of(u as nat) == seq![g] + groups_of((u / 128) as nat));
            assert(buf@.push(g) + groups_of((u / 128) as nat) =~= buf@ + groups_of(u as nat));
        }
        buf.push(g);
        u = u / 128;
        written = written + 1;
    }
}

/// Length facts of the minimal encoding.
pub proof fn lemma_groups_len(u: nat, k: nat)
    requires
        u < pow128(k),
        k >= 1,
    ensures
        1 <= groups_of(u).len() <= k,
        groups_of(u).last() < 128,
        forall|i: int| 0 <= i < groups_of(u).len() - 1 ==> groups_of(u)[i] >= 128,
    decreases u,
{
    if u >= 128 {
        let p = pow128((k - 1) as nat);
        assert(pow128(k) == 128 * p);
        assert(k >= 2) by {
            if k == 1 {
                assert(pow128(0) == 1);
            }
        }
        assert(u / 128 < p) by (nonlinear_arith)
            requires u < 128 * p, u >= 128;
        lemma_groups_len(u / 128, (k - 1) as nat);
        let t = groups_of(u / 128);
        assert(groups_of(u) == seq![(u % 128 + 128) as u8] + t);
        assert forall|i: int| 0 <= i < groups_of(u).len() - 1 implies groups_of(u)[i] >= 128 by {
            if i > 0 {
                assert(groups_of(u)[i] == t[i - 1]);
            }
        }
    }
}

/// The encoding of `u`, followed by anything, reads back as `u`.
pub proof fn lemma_decode_groups_of(u: nat, rest: Seq<u8>, j: nat)
    requires
        j + groups_of(u).len() <= VARINT_MAX_GROUPS,
    ensures
        decode_groups(groups_of(u) + rest, j) == Ok::<(nat, nat), VarIntError>((u, groups_of(u).len())),
    decreases u,
{
    let s = groups_of(u) + rest;
    if u >= 128 {
        let t = groups_of(u / 128);
        assert(groups_of(u) == seq![(u % 128 + 128) as u8] + t);
        assert(s.drop_first() =~= t + rest);
        lemma_decode_groups_of(u / 128, rest, j + 1);
    }
}

/// A strict prefix of the encoding of `u` is incomplete input.
pub proof fn lemma_decode_prefix(u: nat, m: nat, j: nat)
    requires
        m < groups_of(u).len(),
        j + groups_of(u).len() <= VARINT_MAX_GROUPS,
    ensures
        decode_groups(groups_of(u).take(m as int), j) == Err::<(nat, nat), VarIntError>(VarIntError::Incomplete),
    decreases u,
{
    let s = groups_of(u).take(m as int);
    if m > 0 {
        let t = groups_of(u / 128);
        assert(u >= 128);
        assert(groups_of(u) == seq![(u % 128 + 128) as u8] + t);
        assert(s.drop_first() =~= t.take(m - 1));
        lemma_decode_prefix(u / 128, (m - 1) as nat, j + 1);
    }
}

/// A successful decoding takes at least one and at most all of the bytes.
pub proof fn lemma_decode_groups_len(s: Seq<u8>, k: nat)
    ensures
        decode_groups(s, k) matches Ok((v, n)) ==> 1 <= n <= s.len(),
    decreases VARINT_MAX_GROUPS - k,
{
    if s.len() > 0 && s[0] >= 128 && k + 1 < VARINT_MAX_GROUPS {
        lemma_decode_groups_len(s.drop_first(), k + 1);
    }
}

/// Five bytes that all carry the continuation bit are an overflow, whatever
/// follows them: decoding never reads past the fifth byte.
pub proof fn lemma_varint_overflow(s: Seq<u8>)
    requires
        s.len() >= VARINT_MAX_GROUPS,
        forall|i: int| 0 <= i < VARINT_MAX_GROUPS ==> s[i] >= 128,
    ensures
        decode_varint(s) == Err::<(i32, nat), VarIntError>(VarIntError::Overflow),
{
    let s1 = s.drop_first();
    let s2 = s1.drop_first();
    let s3 = s2.drop_first();
    let s4 = s3.drop_first();
    assert(s1[0] == s[1] && s2[0] == s[2] && s3[0] == s[3] && s4[0] == s[4]);
    let e = Err::<(nat, nat), VarIntError>(VarIntError::Overflow);
    assert(decode_groups(s4, 4) == e);
    assert(decode_groups(s3, 3) == e);
    assert(decode_groups(s2, 2) == e);
    assert(decode_groups(s1, 1) == e);
    assert(decode_groups(s, 0) == e);
}

/// A minimal encoding (one byte, or a last byte that is not zero) is the
/// encoding of the value it decodes to.
pub proof fn lemma_decode_minimal(e: Seq<u8>, k: nat)
    requires
        decode_groups(e, k) is Ok,
        ({
            let n = decode_groups(e, k)->Ok_0.1;
            n == 1 || e[n - 1] != 0
        }),
    ensures
        ({
            let (u, n) = decode_groups(e, k)->Ok_0;
            groups_of(u) == e.take(n as int)
        }),
    decreases VARINT_MAX_GROUPS - k,
{
    let (u, n) = decode_groups(e, k)->Ok_0;
    lemma_decode_groups_len(e, k);
    if e[0] < 128 {
        assert(e.take(1) =~= seq![e[0]]);
    } else {
        let t = e.drop_first();
        let (w, m) = decode_groups(t, k + 1)->Ok_0;
        assert(m == n - 1);
        assert(t[m - 1] == e[n - 1]);
        lemma_decode_minimal(t, k + 1);
        let d = (e[0] - 128) as nat;
        assert(u == d + 128 * w);
        if w == 0 {
            assert(groups_of(0) == seq![0u8]);
            assert(t.take(m as int) == groups_of(0));
            assert(m == 1);
            assert(t.take(m as int)[0] == t[0]);
            assert(t[0] == 0);
            assert(e[n - 1] == t[0]);
        }
        assert(u >= 128);
        assert(u % 128 == d && u / 128 == w) by (nonlinear_arith)
            requires u == d + 128 * w, d < 128;
        assert(groups_of(u) == seq![(u % 128 + 128) as u8] + groups_of(u / 128));
        assert(e.take(n as int) =~= seq![e[0]] + t.take(m as int));
    }
}

/// Decoding and then encoding gives back the same bytes and byte count: a
/// minimal encoding of a value that fits in 32 bits decodes to a value whose
/// encoding it is.
pub proof fn lemma_varint_canonical(e: Seq<u8>)
    requires
        decode_groups(e, 0) is Ok,
        decode_groups(e, 0)->Ok_0.0 < 0x1_0000_0000,
        ({
            let n = decode_groups(e, 0)->Ok_0.1;
            n == 1 || e[n - 1] != 0
        }),
    ensures
        decode_varint(e) is Ok,
        ({
            let (v, n) = decode_varint(e)->Ok_0;
            varint_bytes(v) == e.take(n as int) && varint_bytes(v).len() == n
        }),
{
    let (u, n) = decode_groups(e, 0)->Ok_0;
    lemma_decode_groups_len(e, 0);
    lemma_decode_minimal(e, 0);
    let x = u as u32;
    assert(x as nat == u);
    assert(((x as i32) as u32) == x) by (bit_vector);
}

/// Encoding a 32-bit value and decoding it, whatever follows, gives the value
/// back and takes exactly the bytes written.
pub proof fn lemma_varint_round_trip(v: i32, rest: Seq<u8>)
    ensures
        decode_varint(varint_bytes(v) + rest) == Ok::<(i32, nat), VarIntError>((v, varint_bytes(v).len())),
        1 <= varint_bytes(v).len() <= VARINT_MAX_GROUPS,
{
    let u = (v as u32) as nat;
    lemma_pow128_small();
    lemma_groups_len(u, 5);
    lemma_decode_groups_of(u, rest, 0);
    assert(((v as u32) as i32) == v) by (bit_vector);
}

} // verus!
