//! Reading the game pads plugged into the four XInput slots: a slot known
//! to hold a pad is read on every poll, an empty one only when a rescan is
//! due, because reading an empty slot is slow.
//!
//! Instants are milliseconds on a monotonic clock.
use vstd::prelude::*;

verus! {

/// The number of XInput slots.
pub const SLOTS: u32 = 4;

/// How often empty slots are looked at again, in ms.
pub const RESCAN: u64 = 5_000;

/// How many input reports the system buffers for a HID pad: at least two,
/// which the system demands, and few, so a press is not read stale.
pub const INPUT_BUFFERS: u32 = 2;

/// A HID device found on the system.
#[derive(Debug, Clone, PartialEq, Eq)]
pub struct HidDevice {
    pub path: String,
    pub vendor: u16,
    pub product: u16,
    pub report_len: usize,
}

/// One pad's state as read: the buttons held, and the direction its
/// stick points in, as button bits.
#[derive(Debug, Clone, Copy, PartialEq, Eq, Structural)]
pub struct PadReading {
    pub buttons: u16,
    pub direction: u16,
}

/// Reads one slot: its pad's state, or nothing when no pad is there.
pub trait SlotReader {
    fn read(&mut self, slot: u32) -> Option<PadReading>;
}

/// What is known of the slots between polls.
#[derive(Debug, Clone, PartialEq, Eq)]
pub struct Slots {
    pub connected: [bool; 4],
    pub next_scan: Option<u64>,
    pub direction: u16,
}

/// The state after a poll has read the slots it meant to: each slot read
/// is connected exactly when it gave a reading, and the buttons and
/// directions of all readings are joined.
pub open spec fn settle_spec(
    connected: Seq<bool>,
    held: Option<u16>,
    direction: u16,
    readings: Seq<(u32, Option<PadReading>)>,
) -> (Seq<bool>, Option<u16>, u16)
    decreases readings.len(),
{
    if readings.len() == 0 {
        (connected, held, direction)
    } else {
        let (c, h, d) = settle_spec(connected, held, direction, readings.drop_last());
        let (slot, reading) = readings.last();
        match reading {
            Some(r) => (
                c.update(slot as int, true),
                Some(
                    match h {
                        Some(b) => b | r.buttons,
                        None => r.buttons,
                    },
                ),
                d | r.direction,
            ),
            None => (c.update(slot as int, false), h, d),
        }
    }
}

/// The slots a poll reads, in order: those known to hold a pad, or all of
/// them when scanning.
pub open spec fn slots_to_read(connected: Seq<bool>, scanning: bool, upto: int) -> Seq<u32>
    decreases upto,
{
    if upto <= 0 {
        Seq::empty()
    } else {
        slots_to_read(connected, scanning, upto - 1) + if connected[upto - 1] || scanning {
            seq![(upto - 1) as u32]
        } else {
            Seq::empty()
        }
    }
}

/// Whether a poll at `now` scans every slot: when no scan was made yet, or
/// the next one is due.
pub open spec fn scan_due(next_scan: Option<u64>, now: u64) -> bool {
    match next_scan {
        Some(at) => now >= at,
        None => true,
    }
}

impl Slots {
    pub fn new() -> (s: Self)
        ensures
            s.connected@ == seq![false, false, false, false],
            s.next_scan is None,
            s.direction == 0,
    {
        Slots { connected: [false, false, false, false], next_scan: None, direction: 0 }
    }

    /// Polls every slot that needs reading, with `reader`, at `now`.
    /// Answers the buttons held on all pads together, or nothing when no
    /// pad answered; a due scan is rescheduled [`RESCAN`] later.
    pub fn poll<R: SlotReader>(&mut self, now: u64, reader: &mut R) -> (r: Option<u16>)
        requires
            now <= u64::MAX - RESCAN,
        ensures
            final(self).next_scan == if scan_due(old(self).next_scan, now) {
                Some((now + RESCAN) as u64)
            } else {
                old(self).next_scan
            },
            exists|readings: Seq<(u32, Option<PadReading>)>|
                #![trigger settle_spec(old(self).connected@, None, 0, readings)]
                readings.map_values(|p: (u32, Option<PadReading>)| p.0) == slots_to_read(
                    old(self).connected@,
                    scan_due(old(self).next_scan, now),
                    4,
                ) && settle_spec(old(self).connected@, None, 0, readings) == (
                    final(self).connected@,
                    r,
                    final(self).direction,
                ),
    {
        let scanning = match self.next_scan {
            Some(at) => now >= at,
            None => true,
        };
        if scanning {
            self.next_scan = Some(now + RESCAN);
        }
        let ghost start = self.connected@;
        let mut held: Option<u16> = None;
        self.direction = 0;
        let ghost mut readings: Seq<(u32, Option<PadReading>)> = Seq::empty();
        let mut slot: u32 = 0;
        while slot < SLOTS
            invariant
                slot <= SLOTS,
                self.connected@.len() == 4,
                start.len() == 4,
                forall|k: int| slot <= k < 4 ==> self.connected@[k] == start[k],
                readings.map_values(|p: (u32, Option<PadReading>)| p.0) == slots_to_read(
                    start,
                    scanning,
                    slot as int,
                ),
                settle_spec(start, None, 0, readings) == (self.connected@, held, self.direction),
                self.next_scan == (if scanning {
                    Some((now + RESCAN) as u64)
                } else {
                    old(self).next_scan
                }),
            decreases SLOTS - slot,
        {
            let ghost before = readings;
            let s = slot as usize;
            if !self.connected[s] && !scanning {
                proof {
                    assert(slots_to_read(start, scanning, slot as int + 1) == slots_to_read(
                        start,
                        scanning,
                        slot as int,
                    ));
                }
                slot = slot + 1;
                continue;
            }
            let got = reader.read(slot);
            match got {
                Some(reading) => {
                    self.connected[s] = true;
                    held = Some(
                        match held {
                            Some(b) => b | reading.buttons,
                            None => reading.buttons,
                        },
                    );
                    self.direction = self.direction | reading.direction;
                },
                None => {
                    self.connected[s] = false;
                },
            }
            proof {
                readings = before.push((slot, got));
                assert(readings.drop_last() == before);
                assert(readings.map_values(|p: (u32, Option<PadReading>)| p.0) =~= before.map_values(
                    |p: (u32, Option<PadReading>)| p.0,
                ).push(slot));
            }
            slot = slot + 1;
        }
        held
    }
}

/// The pads on the XInput slots.
#[derive(Debug, Clone, PartialEq, Eq)]
pub struct XInputPads {
    pub slots: Slots,
}

impl XInputPads {
    pub fn new() -> (p: Self)
        ensures
            p.slots.connected@ == seq![false, false, false, false],
            p.slots.next_scan is None,
            p.slots.direction == 0,
    {
        XInputPads { slots: Slots::new() }
    }
}

} // verus!
