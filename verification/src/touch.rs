//! The touch controller: how it is set up and what its replies mean.

use vstd::prelude::*;

verus! {

/// Address of the controller on its bus.
pub const FT6146_ADDR: u8 = 0x38;

/// First of the registers that a report is read from.
pub const REPORT_REG: u8 = 0x02;

/// One step of setting the controller up.
#[derive(Clone, Copy, PartialEq, Eq, Structural, Debug)]
pub enum TouchOp {
    /// Drive the reset line high or low.
    Rst(bool),
    /// Wait for some milliseconds.
    DelayMs(u32),
    /// Write a value to a register of the device at an address.
    Write { addr: u8, reg: u8, value: u8 },
}

/// The touch controller.
pub struct Touch {
    addr: u8,
}

/// A report says that a finger is on the screen: it counts at least one touch,
/// and the event of the first one is not its end.
pub open spec fn is_down(report: Seq<u8>) -> bool {
    report[0] as int % 16 != 0 && (report[1] as int / 64) % 4 != 1
}

/// The 12-bit number of the lower half of a byte and another byte.
pub open spec fn coordinate(high: u8, low: u8) -> int {
    (high as int % 16) * 256 + low
}

/// Where the finger is that a report speaks of, if it speaks of one.
pub open spec fn position(report: Seq<u8>) -> Option<(i32, i32)> {
    if is_down(report) {
        Some(
            (coordinate(report[1], report[2]) as i32, coordinate(report[3], report[4]) as i32),
        )
    } else {
        None
    }
}

impl Touch {
    /// Where the controller is reached on its bus.
    pub closed spec fn address(self) -> u8 {
        self.addr
    }

    /// The controller, and the steps that reset it and switch it to polling.
    pub fn new() -> (r: (Touch, Vec<TouchOp>))
        ensures
            r.0.address() == FT6146_ADDR,
            r.1@ == seq![
                TouchOp::Rst(false),
                TouchOp::DelayMs(10),
                TouchOp::Rst(true),
                TouchOp::DelayMs(50),
                (TouchOp::Write { addr: FT6146_ADDR, reg: 0xA4, value: 0x00 }),
            ],
    {
        let mut ops: Vec<TouchOp> = Vec::new();
        ops.push(TouchOp::Rst(false));
        ops.push(TouchOp::DelayMs(10));
        ops.push(TouchOp::Rst(true));
        ops.push(TouchOp::DelayMs(50));
        ops.push(TouchOp::Write { addr: FT6146_ADDR, reg: 0xA4, value: 0x00 });
        assert(ops@ =~= seq![
            TouchOp::Rst(false),
            TouchOp::DelayMs(10),
            TouchOp::Rst(true),
            TouchOp::DelayMs(50),
            (TouchOp::Write { addr: FT6146_ADDR, reg: 0xA4, value: 0x00 }),
        ]);
        (Touch { addr: FT6146_ADDR }, ops)
    }

    /// What to read for a report: the address and the first register of five.
    pub fn request(&self) -> (r: (u8, u8))
        ensures
            r == (self.address(), REPORT_REG),
    {
        (self.addr, REPORT_REG)
    }

    /// Where the finger is, from the report that was read, or nothing where no
    /// finger is on the screen or the report could not be read.
    pub fn read(&self, report: Option<[u8; 5]>) -> (pos: Option<(i32, i32)>)
        ensures
            match report {
                None => pos is None,
                Some(report) => pos == if is_down(report@) {
                    Some(
                        (
                            coordinate(report@[1], report@[2]) as i32,
                            coordinate(report@[3], report@[4]) as i32,
                        ),
                    )
                } else {
                    None
                },
            },
            pos matches Some((x, y)) ==> 0 <= x < 4096 && 0 <= y < 4096,
            pos == match report {
                None => None,
                Some(report) => position(report@),
            },
    {
        match report {
            None => None,
            Some(buf) => {
                let count: u8 = buf[0];
                let high: u8 = buf[1];
                assert(count & 0x0F == count % 16) by (bit_vector);
                assert((high >> 6) & 0x03 == (high / 64) % 4) by (bit_vector);
                if count & 0x0F == 0 {
                    return None;
                }
                let event: u8 = (high >> 6) & 0x03;
                if event == 1 {
                    return None;
                }
                Some((join(buf[1], buf[2]), join(buf[3], buf[4])))
            },
        }
    }
}

/// The number of the lower half of `high` and of `low`.
fn join(high: u8, low: u8) -> (n: i32)
    ensures
        n == coordinate(high, low),
        0 <= n < 4096,
{
    let h: i32 = (high & 0x0F) as i32;
    let l: i32 = low as i32;
    assert(high & 0x0F == high % 16) by (bit_vector);
    assert(((h << 8) | l) == h * 256 + l) by (bit_vector)
        requires
            0 <= h < 16,
            0 <= l < 256,
    ;
    (h << 8) | l
}

/// A position that is written into a report is read back from it, whatever the
/// number of touches but none, the event but the end of a touch, the number of
/// the touch, and the bits without a meaning.
pub proof fn a_position_is_read_back(
    report: Seq<u8>,
    x: int,
    y: int,
    count: int,
    event: int,
    id: int,
    free: int,
    more: int,
)
    requires
        0 <= x < 4096,
        0 <= y < 4096,
        1 <= count < 16,
        0 <= event < 4 && event != 1,
        0 <= id < 16,
        0 <= free < 4,
        0 <= more < 16,
        report.len() == 5,
        report[0] == more * 16 + count,
        report[1] == event * 64 + free * 16 + x / 256,
        report[2] == x % 256,
        report[3] == id * 16 + y / 256,
        report[4] == y % 256,
    ensures
        position(report) == Some((x as i32, y as i32)),
{
}

/// Where a finger is read, its coordinates are made of the bits of the report:
/// their lower 8 bits are a byte of their own, their upper 4 the lower half of
/// another.
pub proof fn a_position_has_the_bits_of_the_report(report: Seq<u8>)
    requires
        report.len() == 5,
    ensures
        position(report) matches Some((x, y)) ==> {
            &&& x as int / 256 == report[1] as int % 16
            &&& x as int % 256 == report[2]
            &&& y as int / 256 == report[3] as int % 16
            &&& y as int % 256 == report[4]
        },
{
}

/// No finger is read exactly where the report counts no touch or where the touch
/// ends.
pub proof fn no_finger_without_a_touch(report: Seq<u8>)
    requires
        report.len() == 5,
    ensures
        position(report) is None <==> report[0] as int % 16 == 0 || 64 <= report[1] < 128,
{
}

} // verus!
