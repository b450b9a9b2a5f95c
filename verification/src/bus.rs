//! What goes over the wires to the display panel.
//!
//! The panel takes commands on one data line and pixels on four.  A step of the
//! traffic is an `Op`; the board performs the steps one after the other.

use vstd::prelude::*;

verus! {

/// One step of the traffic with the display panel.
#[derive(Clone, Copy, PartialEq, Eq, Structural, Debug)]
pub enum Op {
    /// Drive the chip select line high or low.
    Cs(bool),
    /// Drive the reset line high or low.
    Rst(bool),
    /// Drive the power line high or low.
    Pwr(bool),
    /// Wait for some milliseconds.
    DelayMs(u32),
    /// Push a word into the transmit queue, as soon as it has room.
    Word(u32),
    /// Wait until the transmit queue has run empty and its last word is out.
    Drain,
}

/// The bit `i` of `b`, counted from the least significant.
pub open spec fn bit(b: u8, i: int) -> int {
    if i == 0 {
        b as int % 2
    } else if i == 1 {
        (b as int / 2) % 2
    } else if i == 2 {
        (b as int / 4) % 2
    } else if i == 3 {
        (b as int / 8) % 2
    } else if i == 4 {
        (b as int / 16) % 2
    } else if i == 5 {
        (b as int / 32) % 2
    } else if i == 6 {
        (b as int / 64) % 2
    } else {
        (b as int / 128) % 2
    }
}

/// A byte for the single data line: its binary digits read as hexadecimal ones,
/// so that each drives the first of the four lines alone.
pub open spec fn spread(b: u8) -> int {
    bit(b, 0) + 0x10 * bit(b, 1) + 0x100 * bit(b, 2) + 0x1000 * bit(b, 3) + 0x1_0000 * bit(b, 4)
        + 0x10_0000 * bit(b, 5) + 0x100_0000 * bit(b, 6) + 0x1000_0000 * bit(b, 7)
}

/// Encodes a byte for the single data line.
pub fn encode_1bit(b: u8) -> (word: u32)
    ensures
        word == spread(b),
{
    let v: u32 = b as u32;
    assert((((v & 0x80) << 21) | ((v & 0x40) << 18) | ((v & 0x20) << 15) | ((v & 0x10) << 12) | ((v
        & 0x08) << 9) | ((v & 0x04) << 6) | ((v & 0x02) << 3) | (v & 0x01)) == (v % 2) + 0x10 * ((v
        / 2) % 2) + 0x100 * ((v / 4) % 2) + 0x1000 * ((v / 8) % 2) + 0x1_0000 * ((v / 16) % 2)
        + 0x10_0000 * ((v / 32) % 2) + 0x100_0000 * ((v / 64) % 2) + 0x1000_0000 * ((v / 128) % 2))
        by (bit_vector)
        requires
            v < 256,
    ;
    ((v & 0x80) << 21) | ((v & 0x40) << 18) | ((v & 0x20) << 15) | ((v & 0x10) << 12) | ((v & 0x08)
        << 9) | ((v & 0x04) << 6) | ((v & 0x02) << 3) | (v & 0x01)
}

/// A byte is the sum of its binary digits.
proof fn sum_of_bits(b: u8)
    ensures
        b == bit(b, 0) + 2 * bit(b, 1) + 4 * bit(b, 2) + 8 * bit(b, 3) + 16 * bit(b, 4) + 32 * bit(
            b,
            5,
        ) + 64 * bit(b, 6) + 128 * bit(b, 7),
{
    let v = b as int;
    assert(v / 2 == 2 * (v / 4) + bit(b, 1));
    assert(v / 4 == 2 * (v / 8) + bit(b, 2));
    assert(v / 8 == 2 * (v / 16) + bit(b, 3));
    assert(v / 16 == 2 * (v / 32) + bit(b, 4));
    assert(v / 32 == 2 * (v / 64) + bit(b, 5));
    assert(v / 64 == 2 * (v / 128) + bit(b, 6));
}

/// Different bytes are encoded differently.
pub proof fn encoding_is_injective(a: u8, b: u8)
    requires
        spread(a) == spread(b),
    ensures
        a == b,
{
    sum_of_bits(a);
    sum_of_bits(b);
    let (a0, a1, a2, a3) = (bit(a, 0), bit(a, 1), bit(a, 2), bit(a, 3));
    let (a4, a5, a6, a7) = (bit(a, 4), bit(a, 5), bit(a, 6), bit(a, 7));
    let (b0, b1, b2, b3) = (bit(b, 0), bit(b, 1), bit(b, 2), bit(b, 3));
    let (b4, b5, b6, b7) = (bit(b, 4), bit(b, 5), bit(b, 6), bit(b, 7));
    same_digits(a0, a1, a2, a3, a4, a5, a6, a7, b0, b1, b2, b3, b4, b5, b6, b7);
}

/// Hexadecimal numbers of the digits 0 and 1 are equal only digit by digit.
proof fn same_digits(
    a0: int,
    a1: int,
    a2: int,
    a3: int,
    a4: int,
    a5: int,
    a6: int,
    a7: int,
    b0: int,
    b1: int,
    b2: int,
    b3: int,
    b4: int,
    b5: int,
    b6: int,
    b7: int,
)
    requires
        0 <= a0 <= 1 && 0 <= a1 <= 1 && 0 <= a2 <= 1 && 0 <= a3 <= 1,
        0 <= a4 <= 1 && 0 <= a5 <= 1 && 0 <= a6 <= 1 && 0 <= a7 <= 1,
        0 <= b0 <= 1 && 0 <= b1 <= 1 && 0 <= b2 <= 1 && 0 <= b3 <= 1,
        0 <= b4 <= 1 && 0 <= b5 <= 1 && 0 <= b6 <= 1 && 0 <= b7 <= 1,
        a0 + 0x10 * a1 + 0x100 * a2 + 0x1000 * a3 + 0x1_0000 * a4 + 0x10_0000 * a5 + 0x100_0000 * a6
            + 0x1000_0000 * a7 == b0 + 0x10 * b1 + 0x100 * b2 + 0x1000 * b3 + 0x1_0000 * b4
            + 0x10_0000 * b5 + 0x100_0000 * b6 + 0x1000_0000 * b7,
    ensures
        a0 == b0 && a1 == b1 && a2 == b2 && a3 == b3,
        a4 == b4 && a5 == b5 && a6 == b6 && a7 == b7,
{
    assert(a7 == b7);
    assert(a6 == b6);
    assert(a5 == b5);
    assert(a4 == b4);
}

/// Bytes on the single data line.
pub open spec fn byte_words(bytes: Seq<u8>) -> Seq<Op> {
    bytes.map_values(|b: u8| Op::Word(spread(b) as u32))
}

/// A command with its data: select the panel, send the prefix, the command and
/// the data on the single line, wait until all of it is out, deselect.
pub open spec fn command(code: u8, data: Seq<u8>) -> Seq<Op> {
    seq![Op::Cs(false)] + byte_words(seq![0x02u8, 0x00, code, 0x00]) + byte_words(data) + seq![
        Op::Drain,
        Op::Cs(true),
    ]
}

/// Appends one byte on the single data line.
pub fn push_1bit(ops: &mut Vec<Op>, b: u8)
    ensures
        final(ops)@ == old(ops)@.push(Op::Word(spread(b) as u32)),
{
    ops.push(Op::Word(encode_1bit(b)));
}

/// Appends bytes on the single data line.
pub fn push_bytes(ops: &mut Vec<Op>, bytes: &[u8])
    ensures
        final(ops)@ == old(ops)@ + byte_words(bytes@),
{
    let ghost before = ops@;
    let mut i: usize = 0;
    assert(ops@ =~= before + byte_words(bytes@.take(0)));
    while i < bytes.len()
        invariant
            i <= bytes@.len(),
            ops@ == before + byte_words(bytes@.take(i as int)),
        decreases bytes@.len() - i,
    {
        push_1bit(ops, bytes[i]);
        i += 1;
        assert(ops@ =~= before + byte_words(bytes@.take(i as int)));
    }
    assert(bytes@.take(i as int) =~= bytes@);
}

/// Appends a command with its data.
pub fn cmd(ops: &mut Vec<Op>, code: u8, data: &[u8])
    ensures
        final(ops)@ == old(ops)@ + command(code, data@),
{
    let ghost before = ops@;
    let prefix: [u8; 4] = [0x02, 0x00, code, 0x00];
    ops.push(Op::Cs(false));
    push_bytes(ops, &prefix);
    push_bytes(ops, data);
    ops.push(Op::Drain);
    ops.push(Op::Cs(true));
    assert(prefix@ =~= seq![0x02u8, 0x00, code, 0x00]);
    assert(ops@ =~= before + command(code, data@));
}

/// The hexadecimal digit `i` of a word.
pub open spec fn hex_digit(w: u32, i: int) -> int {
    if i == 0 {
        w as int % 16
    } else if i == 1 {
        w as int / 0x10 % 16
    } else if i == 2 {
        w as int / 0x100 % 16
    } else if i == 3 {
        w as int / 0x1000 % 16
    } else if i == 4 {
        w as int / 0x1_0000 % 16
    } else if i == 5 {
        w as int / 0x10_0000 % 16
    } else if i == 6 {
        w as int / 0x100_0000 % 16
    } else {
        w as int / 0x1000_0000
    }
}

/// What the panel receives from a step on its single data line: eight clocks, of
/// each the first of the four lines, the most significant bit first; or -1 for a
/// step that is no such word, or that drives another line.
#[verifier::opaque]
pub open spec fn received(op: Op) -> int {
    match op {
        Op::Word(w) => if forall|i: int| 0 <= i < 8 ==> 0 <= #[trigger] hex_digit(w, i) <= 1 {
            128 * hex_digit(w, 7) + 64 * hex_digit(w, 6) + 32 * hex_digit(w, 5) + 16 * hex_digit(
                w,
                4,
            ) + 8 * hex_digit(w, 3) + 4 * hex_digit(w, 2) + 2 * hex_digit(w, 1) + hex_digit(w, 0)
        } else {
            -1
        },
        _ => -1,
    }
}

/// A byte sent on the single data line is received as that byte.
pub proof fn a_byte_comes_through(b: u8)
    ensures
        0 <= spread(b) <= 0x1111_1111,
        received(Op::Word(spread(b) as u32)) == b,
{
    reveal(received);
    sum_of_bits(b);
    let w = spread(b) as u32;
    digits_of(
        bit(b, 0),
        bit(b, 1),
        bit(b, 2),
        bit(b, 3),
        bit(b, 4),
        bit(b, 5),
        bit(b, 6),
        bit(b, 7),
        w,
    );
}

/// The hexadecimal digits of a sum of digits 0 and 1 are those digits.
proof fn digits_of(
    d0: int,
    d1: int,
    d2: int,
    d3: int,
    d4: int,
    d5: int,
    d6: int,
    d7: int,
    w: u32,
)
    requires
        0 <= d0 <= 1 && 0 <= d1 <= 1 && 0 <= d2 <= 1 && 0 <= d3 <= 1,
        0 <= d4 <= 1 && 0 <= d5 <= 1 && 0 <= d6 <= 1 && 0 <= d7 <= 1,
        w == d0 + 0x10 * d1 + 0x100 * d2 + 0x1000 * d3 + 0x1_0000 * d4 + 0x10_0000 * d5
            + 0x100_0000 * d6 + 0x1000_0000 * d7,
    ensures
        hex_digit(w, 0) == d0 && hex_digit(w, 1) == d1 && hex_digit(w, 2) == d2 && hex_digit(w, 3)
            == d3,
        hex_digit(w, 4) == d4 && hex_digit(w, 5) == d5 && hex_digit(w, 6) == d6 && hex_digit(w, 7)
            == d7,
        forall|i: int| 0 <= i < 8 ==> 0 <= #[trigger] hex_digit(w, i) <= 1,
{
    assert(w as int / 0x10 == d1 + 0x10 * d2 + 0x100 * d3 + 0x1000 * d4 + 0x1_0000 * d5 + 0x10_0000
        * d6 + 0x100_0000 * d7);
    assert(w as int / 0x100 == d2 + 0x10 * d3 + 0x100 * d4 + 0x1000 * d5 + 0x1_0000 * d6 + 0x10_0000
        * d7);
    assert(w as int / 0x1000 == d3 + 0x10 * d4 + 0x100 * d5 + 0x1000 * d6 + 0x1_0000 * d7);
    assert(w as int / 0x1_0000 == d4 + 0x10 * d5 + 0x100 * d6 + 0x1000 * d7);
    assert(w as int / 0x10_0000 == d5 + 0x10 * d6 + 0x100 * d7);
    assert(w as int / 0x100_0000 == d6 + 0x10 * d7);
    assert(w as int / 0x1000_0000 == d7);
}

/// The panel receives the bytes that are sent on the single data line, each of
/// them once and in their order.
pub proof fn bytes_come_through(bytes: Seq<u8>)
    ensures
        byte_words(bytes).len() == bytes.len(),
        forall|i: int|
            0 <= i < bytes.len() ==> received(#[trigger] byte_words(bytes)[i]) == bytes[i],
{
    assert forall|i: int| 0 <= i < bytes.len() implies received(#[trigger] byte_words(bytes)[i])
        == bytes[i] by {
        a_byte_comes_through(bytes[i]);
    }
}

/// While it is selected the panel receives of a command the four bytes of its
/// head, the third of which is the command, and then the data; and it is
/// deselected when all of that is out.
pub proof fn a_command_comes_through(code: u8, data: Seq<u8>)
    ensures
        ({
            let ops = command(code, data);
            &&& ops.len() == data.len() + 7
            &&& ops[0] == Op::Cs(false)
            &&& received(ops[1]) == 0x02
            &&& received(ops[2]) == 0x00
            &&& received(ops[3]) == code
            &&& received(ops[4]) == 0x00
            &&& forall|i: int|
                5 <= i < 5 + data.len() ==> received(#[trigger] ops[i]) == data[i - 5]
            &&& ops[5 + data.len() as int] == Op::Drain
            &&& ops[6 + data.len() as int] == Op::Cs(true)
        }),
{
    let head = seq![0x02u8, 0x00, code, 0x00];
    let ops = command(code, data);
    bytes_come_through(head);
    bytes_come_through(data);
    assert(ops[1] == byte_words(head)[0]);
    assert(ops[2] == byte_words(head)[1]);
    assert(ops[3] == byte_words(head)[2]);
    assert(ops[4] == byte_words(head)[3]);
    assert forall|i: int| 5 <= i < 5 + data.len() implies received(#[trigger] ops[i]) == data[i
        - 5] by {
        assert(ops[i] == byte_words(data)[i - 5]);
    }
}

} // verus!
