//! Framing of the motor controller's serial link.
//!
//! A frame is a start byte, a command byte, a length byte, the payload and a
//! CRC-8/MAXIM over everything between the start byte and the CRC itself.
use vstd::prelude::*;
use vstd::slice::slice_subrange;

verus! {

pub const START_BYTE: u8 = 0xAA;

pub const CMD_DRIVE: u8 = 0x01;

pub const CMD_STOP: u8 = 0x02;

pub const CMD_ESTOP: u8 = 0x03;

pub const CMD_SENSOR_POLL: u8 = 0x04;

pub const CMD_LIFT: u8 = 0x05;

pub const CMD_SENSOR_STATUS: u8 = 0x10;

/// The coefficients of the generator x^8 + x^5 + x^4 + 1 below its leading term.
pub const POLYNOMIAL: u8 = 0x31;

/// One step of polynomial long division over GF(2): `reg` holds the remainder
/// so far, highest power in the top bit, and `bit` is the message's next
/// coefficient.
pub open spec fn divide_bit(reg: u8, bit: u8) -> u8 {
    (reg << 1) ^ (if (reg >> 7) != bit {
        POLYNOMIAL
    } else {
        0u8
    })
}

/// Bit `i` of `byte`, counted from the least significant one.
pub open spec fn bit_of(byte: u8, i: u8) -> u8 {
    (byte >> i) & 1
}

/// Divides one byte into the remainder, least significant bit first (RefIn).
pub open spec fn divide_byte(reg: u8, byte: u8) -> u8 {
    let r0 = divide_bit(reg, bit_of(byte, 0));
    let r1 = divide_bit(r0, bit_of(byte, 1));
    let r2 = divide_bit(r1, bit_of(byte, 2));
    let r3 = divide_bit(r2, bit_of(byte, 3));
    let r4 = divide_bit(r3, bit_of(byte, 4));
    let r5 = divide_bit(r4, bit_of(byte, 5));
    let r6 = divide_bit(r5, bit_of(byte, 6));
    divide_bit(r6, bit_of(byte, 7))
}

/// The remainder of a whole message, from an all-zero register.
pub open spec fn remainder(data: Seq<u8>) -> u8
    decreases data.len(),
{
    if data.len() == 0 {
        0
    } else {
        divide_byte(remainder(data.drop_last()), data.last())
    }
}

/// `x` with its eight bits in the opposite order.
pub open spec fn reflect(x: u8) -> u8 {
    ((x & 0x01) << 7) | ((x & 0x02) << 5) | ((x & 0x04) << 3) | ((x & 0x08) << 1) | ((x & 0x10)
        >> 1) | ((x & 0x20) >> 3) | ((x & 0x40) >> 5) | ((x & 0x80) >> 7)
}

/// CRC-8/MAXIM: polynomial 0x31, initial value 0, reflected input, reflected
/// output, no final xor.
pub open spec fn crc8(data: Seq<u8>) -> u8 {
    reflect(remainder(data))
}

/// One shift of the reflected register, as the code performs it.
spec fn shift(crc: u8) -> u8 {
    if crc & 1 != 0 {
        (crc >> 1) ^ 0x8C
    } else {
        crc >> 1
    }
}

spec fn shifts(crc: u8, n: nat) -> u8
    decreases n,
{
    if n == 0 {
        crc
    } else {
        shift(shifts(crc, (n - 1) as nat))
    }
}

spec fn shift8(crc: u8) -> u8 {
    shift(shift(shift(shift(shift(shift(shift(shift(crc))))))))
}

proof fn lemma_shift8(crc: u8)
    ensures
        shifts(crc, 8) == shift8(crc),
{
    reveal_with_fuel(shifts, 9);
}

/// Eight shifts of the reflected register divide one reflected byte.
proof fn lemma_reflected_byte(reg: u8, byte: u8)
    ensures
        reflect(divide_byte(reg, byte)) == shift8(reflect(reg) ^ byte),
{
    assert(reflect(divide_byte(reg, byte)) == shift8(reflect(reg) ^ byte)) by (bit_vector);
}

/// Calculates CRC-8/MAXIM (Dow-CRC)
/// Polynomial 0x31, Init 0x00, `RefIn` True, `RefOut` True, `XorOut` 0x00
pub fn crc8_maxim(data: &[u8]) -> (crc: u8)
    ensures
        crc == crc8(data@),
{
    let mut crc: u8 = 0x00;
    let mut i: usize = 0;
    assert(reflect(0) == 0) by (bit_vector);
    while i < data.len()
        invariant
            i <= data.len(),
            crc == crc8(data@.take(i as int)),
        decreases data.len() - i,
    {
        let ghost reg = remainder(data@.take(i as int));
        crc = crc ^ data[i];
        let ghost fed = crc;
        let mut k: usize = 0;
        while k < 8
            invariant
                k <= 8,
                crc == shifts(fed, k as nat),
            decreases 8 - k,
        {
            if (crc & 1) != 0 {
                crc = (crc >> 1) ^ 0x8C;
            } else {
                crc = crc >> 1;
            }
            k = k + 1;
        }
        proof {
            lemma_shift8(fed);
            lemma_reflected_byte(reg, data@[i as int]);
            assert(data@.take(i + 1).drop_last() =~= data@.take(i as int));
        }
        i = i + 1;
    }
    assert(data@.take(data.len() as int) =~= data@);
    crc
}

/// The bytes that the CRC of a frame covers: command, length and payload. The
/// length byte holds the payload's length modulo 256.
pub open spec fn frame_body(cmd: u8, payload: Seq<u8>) -> Seq<u8> {
    seq![cmd, (payload.len() % 256) as u8] + payload
}

/// A whole frame on the wire.
pub open spec fn frame(cmd: u8, payload: Seq<u8>) -> Seq<u8> {
    seq![START_BYTE] + frame_body(cmd, payload) + seq![crc8(frame_body(cmd, payload))]
}

/// Builds the frame that carries `cmd` with `payload`.
pub fn build_frame(cmd: u8, payload: &[u8]) -> (bytes: Vec<u8>)
    ensures
        bytes@ == frame(cmd, payload@),
{
    let mut bytes: Vec<u8> = Vec::new();
    bytes.push(START_BYTE);
    bytes.push(cmd);
    let n: usize = payload.len();
    assert(n as u8 == n % 256) by (bit_vector);
    bytes.push(
        #[verifier::truncate]
        (n as u8),
    );
    bytes.extend_from_slice(payload);
    assert(bytes@ =~= seq![START_BYTE] + frame_body(cmd, payload@));
    let crc = crc8_maxim(slice_subrange(bytes.as_slice(), 1, bytes.len()));
    assert(bytes@.subrange(1, bytes.len() as int) =~= frame_body(cmd, payload@));
    bytes.push(crc);
    bytes
}

/// A message followed by its own CRC divides evenly: the CRC of the two
/// together is zero.
pub proof fn law_crc_residue_is_zero(data: Seq<u8>)
    ensures
        crc8(data.push(crc8(data))) == 0,
{
    let reg = remainder(data);
    assert(data.push(crc8(data)).drop_last() =~= data);
    assert(divide_byte(reg, reflect(reg)) == 0) by (bit_vector);
    assert(reflect(0) == 0) by (bit_vector);
}

proof fn lemma_reflect_injective(a: u8, b: u8)
    requires
        reflect(a) == reflect(b),
    ensures
        a == b,
{
    assert(reflect(a) == reflect(b) ==> a == b) by (bit_vector);
}

proof fn lemma_remainder_detects_one_byte(good: Seq<u8>, bad: Seq<u8>, k: int)
    requires
        good.len() == bad.len(),
        0 <= k < good.len(),
        good[k] != bad[k],
        forall|i: int| 0 <= i < good.len() && i != k ==> good[i] == bad[i],
    ensures
        remainder(good) != remainder(bad),
    decreases good.len(),
{
    let (r1, b1) = (remainder(good.drop_last()), good.last());
    let (r2, b2) = (remainder(bad.drop_last()), bad.last());
    if k == good.len() - 1 {
        assert(good.drop_last() =~= bad.drop_last());
        assert(b1 != b2 ==> divide_byte(r1, b1) != divide_byte(r1, b2)) by (bit_vector);
    } else {
        lemma_remainder_detects_one_byte(good.drop_last(), bad.drop_last(), k);
        assert(r1 != r2 ==> divide_byte(r1, b1) != divide_byte(r2, b1)) by (bit_vector);
    }
}

/// Changing any one byte of a message, whatever bits of it, changes the CRC.
pub proof fn law_crc_detects_one_byte(good: Seq<u8>, bad: Seq<u8>, k: int)
    requires
        good.len() == bad.len(),
        0 <= k < good.len(),
        good[k] != bad[k],
        forall|i: int| 0 <= i < good.len() && i != k ==> good[i] == bad[i],
    ensures
        crc8(good) != crc8(bad),
{
    lemma_remainder_detects_one_byte(good, bad, k);
    if crc8(good) == crc8(bad) {
        lemma_reflect_injective(remainder(good), remainder(bad));
    }
}

/// Equal frames carry equal commands and payloads.
pub proof fn law_frame_injective(cmd1: u8, payload1: Seq<u8>, cmd2: u8, payload2: Seq<u8>)
    requires
        frame(cmd1, payload1) == frame(cmd2, payload2),
    ensures
        cmd1 == cmd2,
        payload1 == payload2,
{
    let (f1, f2) = (frame(cmd1, payload1), frame(cmd2, payload2));
    assert(f1[1] == cmd1 && f2[1] == cmd2);
    assert(payload1 =~= f1.subrange(3, f1.len() - 1));
    assert(payload2 =~= f2.subrange(3, f2.len() - 1));
}

/// How a CRC grows with its message: that of the empty message is zero, and one
/// more byte turns the CRC `c` into the sum over GF(2) of one constant for each
/// bit that is set in `c ^ byte`.
pub proof fn law_crc_grows_byte_by_byte(data: Seq<u8>, byte: u8)
    ensures
        crc8(Seq::empty()) == 0,
        ({
            let x = crc8(data) ^ byte;
            crc8(data.push(byte)) == (if x & 0x01 != 0 { 0x5Eu8 } else { 0 })
                ^ (if x & 0x02 != 0 { 0xBCu8 } else { 0 })
                ^ (if x & 0x04 != 0 { 0x61u8 } else { 0 })
                ^ (if x & 0x08 != 0 { 0xC2u8 } else { 0 })
                ^ (if x & 0x10 != 0 { 0x9Du8 } else { 0 })
                ^ (if x & 0x20 != 0 { 0x23u8 } else { 0 })
                ^ (if x & 0x40 != 0 { 0x46u8 } else { 0 })
                ^ (if x & 0x80 != 0 { 0x8Cu8 } else { 0 })
        }),
{
    assert(reflect(0) == 0) by (bit_vector);
    assert(data.push(byte).drop_last() =~= data);
    let reg = remainder(data);
    let x = crc8(data) ^ byte;
    lemma_reflected_byte(reg, byte);
    assert(shift8(x) == (if x & 0x01 != 0 { 0x5Eu8 } else { 0 })
        ^ (if x & 0x02 != 0 { 0xBCu8 } else { 0 })
        ^ (if x & 0x04 != 0 { 0x61u8 } else { 0 })
        ^ (if x & 0x08 != 0 { 0xC2u8 } else { 0 })
        ^ (if x & 0x10 != 0 { 0x9Du8 } else { 0 })
        ^ (if x & 0x20 != 0 { 0x23u8 } else { 0 })
        ^ (if x & 0x40 != 0 { 0x46u8 } else { 0 })
        ^ (if x & 0x80 != 0 { 0x8Cu8 } else { 0 })) by (bit_vector);
}

/// What stands where in a frame: 0xAA, the command, the payload's length modulo
/// 256, the payload byte for byte, and last the CRC of all but the first byte.
pub proof fn law_frame_layout(cmd: u8, payload: Seq<u8>)
    ensures
        ({
            let f = frame(cmd, payload);
            let n = payload.len() as int;
            &&& f.len() == n + 4
            &&& f[0] == 0xAA
            &&& f[1] == cmd
            &&& f[2] as int == n % 256
            &&& forall|i: int| 0 <= i < n ==> f[3 + i] == #[trigger] payload[i]
            &&& f[n + 3] == crc8(f.subrange(1, n + 3))
        }),
{
    let f = frame(cmd, payload);
    let n = payload.len() as int;
    assert(f.subrange(1, n + 3) =~= frame_body(cmd, payload));
}

} // verus!
