use vstd::prelude::*;

use crate::wire::{i16_be, u16_be, u32_be};

verus! {

/// A server notification, decoded from one complete fixed-size 32-byte
/// record. Unrecognized codes keep their trailing bytes verbatim so a
/// caller can layer further event types on top without loss.
#[derive(Debug, PartialEq)]
pub enum Event {
    Expose {
        sequence: u16,
        window: u32,
        x: u16,
        y: u16,
        width: u16,
        height: u16,
        count: u16,
    },
    KeyPress {
        detail: u8,
        sequence: u16,
        time: u32,
        root: u32,
        event: u32,
        child: u32,
        root_x: i16,
        root_y: i16,
        event_x: i16,
        event_y: i16,
        state: u16,
        same_screen: bool,
    },
    Unknown(u8, [u8; 31]),
}

/// The dispatch code of a record: byte 0 with the high bit cleared. The
/// high bit only flags a synthetic (client-injected) event and must not
/// affect which variant is chosen.
pub open spec fn event_code(b: Seq<u8>) -> u8 {
    b[0] & 0x7f
}

/// The Expose fields carried by a 32-byte record.
pub open spec fn spec_expose(b: Seq<u8>) -> Event {
    Event::Expose {
        sequence: u16_be(b[2], b[3]),
        window: u32_be(b[4], b[5], b[6], b[7]),
        x: u16_be(b[8], b[9]),
        y: u16_be(b[10], b[11]),
        width: u16_be(b[12], b[13]),
        height: u16_be(b[14], b[15]),
        count: u16_be(b[16], b[17]),
    }
}

/// The KeyPress fields carried by a 32-byte record.
pub open spec fn spec_key_press(b: Seq<u8>) -> Event {
    Event::KeyPress {
        detail: b[1],
        sequence: u16_be(b[2], b[3]),
        time: u32_be(b[4], b[5], b[6], b[7]),
        root: u32_be(b[8], b[9], b[10], b[11]),
        event: u32_be(b[12], b[13], b[14], b[15]),
        child: u32_be(b[16], b[17], b[18], b[19]),
        root_x: i16_be(b[20], b[21]),
        root_y: i16_be(b[22], b[23]),
        event_x: i16_be(b[24], b[25]),
        event_y: i16_be(b[26], b[27]),
        state: u16_be(b[28], b[29]),
        same_screen: b[30] != 0,
    }
}

fn get_u16(data: &[u8; 32], i: usize) -> (r: u16)
    requires
        i + 2 <= 32,
    ensures
        r == u16_be(data@[i as int], data@[i as int + 1]),
{
    (data[i] as u16) * 0x100 + (data[i + 1] as u16)
}

fn get_i16(data: &[u8; 32], i: usize) -> (r: i16)
    requires
        i + 2 <= 32,
    ensures
        r == i16_be(data@[i as int], data@[i as int + 1]),
{
    get_u16(data, i) as i16
}

fn get_u32(data: &[u8; 32], i: usize) -> (r: u32)
    requires
        i + 4 <= 32,
    ensures
        r == u32_be(data@[i as int], data@[i as int + 1], data@[i as int + 2], data@[i as int + 3]),
{
    (data[i] as u32) * 0x1000000 + (data[i + 1] as u32) * 0x10000 + (data[i + 2] as u32) * 0x100
        + (data[i + 3] as u32)
}

impl Event {
    /// Decodes one complete 32-byte record. Each record is handled on its
    /// own; the decoder keeps no state between calls and cannot fail —
    /// collecting all 32 bytes first is the caller's business.
    pub fn from_bytes(data: &[u8; 32]) -> (r: Event)
        ensures
            event_code(data@) == 12 ==> r == spec_expose(data@),
            event_code(data@) == 2 ==> r == spec_key_press(data@),
            event_code(data@) != 12 && event_code(data@) != 2 ==> ({
                &&& r matches Event::Unknown(code, rest)
                &&& code == data@[0]
                &&& rest@ == data@.subrange(1, 32)
            }),
    {
        let t = data[0];
        let code = t & 0x7f;
        if code == 12 {
            Event::Expose {
                sequence: get_u16(data, 2),
                window: get_u32(data, 4),
                x: get_u16(data, 8),
                y: get_u16(data, 10),
                width: get_u16(data, 12),
                height: get_u16(data, 14),
                count: get_u16(data, 16),
            }
        } else if code == 2 {
            Event::KeyPress {
                detail: data[1],
                sequence: get_u16(data, 2),
                time: get_u32(data, 4),
                root: get_u32(data, 8),
                event: get_u32(data, 12),
                child: get_u32(data, 16),
                root_x: get_i16(data, 20),
                root_y: get_i16(data, 22),
                event_x: get_i16(data, 24),
                event_y: get_i16(data, 26),
                state: get_u16(data, 28),
                same_screen: data[30] != 0,
            }
        } else {
            let mut rest = [0u8; 31];
            let mut k: usize = 0;
            while k < 31
                invariant
                    k <= 31,
                    rest@.len() == 31,
                    forall|j: int| 0 <= j < k ==> rest@[j] == data@[j + 1],
                decreases 31 - k,
            {
                rest[k] = data[k + 1];
                k = k + 1;
            }
            proof {
                assert(rest@ =~= data@.subrange(1, 32));
            }
            Event::Unknown(t, rest)
        }
    }
}

} // verus!
