use vstd::prelude::*;
use vstd::utf8::encode_utf8;

use crate::wire::{
    be16, be32, lemma_be16_roundtrip, pad4, push_i16_be, push_u16_be, push_u32_be, push_u8,
    push_zeros, u16_be, zeros,
};

verus! {

// Every request is framed the same way: a 1-byte major opcode, a 1-byte
// secondary field, a 2-byte length counted in 4-byte units and covering
// the whole message including this header, then the body, zero-padded to
// a 4-byte boundary. Each encoder computes the length field from the
// bytes it assembles, never from a separate literal.

// CreateWindow -----------------------------------------------------------

/// CreateWindow request (opcode 1); the secondary byte carries the depth.
/// The value-list mechanism carries the two value-mask bits this core
/// needs, background-pixel and event-mask; further bits are further
/// optional fields of the same shape.
#[derive(Debug, Clone, Copy, PartialEq)]
pub struct CreateWindow {
    pub depth: u8,
    pub wid: u32,
    pub parent: u32,
    pub x: u16,
    pub y: u16,
    pub width: u16,
    pub height: u16,
    pub border_width: u16,
    pub class: u16,
    pub visual: u32,
    pub background_pixel: Option<u32>,
    pub event_mask: Option<u32>,
}

/// The value-mask: background-pixel is bit 0x2, event-mask is bit 0x800.
pub open spec fn cw_value_mask(r: CreateWindow) -> u32 {
    ((if r.background_pixel is Some {
        0x2int
    } else {
        0int
    }) + (if r.event_mask is Some {
        0x800int
    } else {
        0int
    })) as u32
}

/// How many values follow the value-mask, in mask-bit order.
pub open spec fn cw_value_count(r: CreateWindow) -> int {
    (if r.background_pixel is Some {
        1int
    } else {
        0
    }) + (if r.event_mask is Some {
        1int
    } else {
        0
    })
}

/// Declared length in 4-byte units: 8 for the fixed part plus one per
/// present value.
pub open spec fn cw_len_units(r: CreateWindow) -> int {
    8 + cw_value_count(r)
}

/// The values, each 4 bytes, in value-mask bit order.
pub open spec fn cw_values_bytes(r: CreateWindow) -> Seq<u8> {
    (match r.background_pixel {
        Some(v) => be32(v),
        None => Seq::empty(),
    }) + (match r.event_mask {
        Some(v) => be32(v),
        None => Seq::empty(),
    })
}

/// The full wire form of a CreateWindow request.
pub open spec fn create_window_bytes(r: CreateWindow) -> Seq<u8> {
    seq![1u8, r.depth] + be16(cw_len_units(r) as u16) + be32(r.wid) + be32(r.parent) + be16(r.x)
        + be16(r.y) + be16(r.width) + be16(r.height) + be16(r.border_width) + be16(r.class)
        + be32(r.visual) + be32(cw_value_mask(r)) + cw_values_bytes(r)
}

impl CreateWindow {
    /// A window with the fixed background (0xccffcc) and event selection
    /// (KeyPress and Exposure) that this client uses.
    pub fn new(
        depth: u8,
        wid: u32,
        parent: u32,
        x: u16,
        y: u16,
        width: u16,
        height: u16,
        border_width: u16,
        class: u16,
        visual: u32,
    ) -> (r: Self)
        ensures
            r == (CreateWindow {
                depth,
                wid,
                parent,
                x,
                y,
                width,
                height,
                border_width,
                class,
                visual,
                background_pixel: Some(0xccffccu32),
                event_mask: Some(0x8001u32),
            }),
    {
        CreateWindow {
            depth,
            wid,
            parent,
            x,
            y,
            width,
            height,
            border_width,
            class,
            visual,
            background_pixel: Some(0xccffcc),
            event_mask: Some(0x8001),
        }
    }

    /// A window with the caller's choice of value-list entries.
    pub fn with_values(
        depth: u8,
        wid: u32,
        parent: u32,
        x: u16,
        y: u16,
        width: u16,
        height: u16,
        border_width: u16,
        class: u16,
        visual: u32,
        background_pixel: Option<u32>,
        event_mask: Option<u32>,
    ) -> (r: Self)
        ensures
            r == (CreateWindow {
                depth,
                wid,
                parent,
                x,
                y,
                width,
                height,
                border_width,
                class,
                visual,
                background_pixel,
                event_mask,
            }),
    {
        CreateWindow {
            depth,
            wid,
            parent,
            x,
            y,
            width,
            height,
            border_width,
            class,
            visual,
            background_pixel,
            event_mask,
        }
    }

    /// The request's wire form; the declared length equals the assembled
    /// byte count in 4-byte units.
    pub fn as_bytes(&self) -> (r: Vec<u8>)
        ensures
            r@ == create_window_bytes(*self),
            r@.len() == 4 * cw_len_units(*self),
            r@.len() % 4 == 0,
            u16_be(r@[2], r@[3]) as int == r@.len() / 4,
    {
        let mut ret: Vec<u8> = Vec::new();
        let mut count: u16 = 0;
        let mut value_mask: u32 = 0;
        if self.background_pixel.is_some() {
            count = count + 1;
            value_mask = value_mask + 0x2;
        }
        if self.event_mask.is_some() {
            count = count + 1;
            value_mask = value_mask + 0x800;
        }
        push_u8(&mut ret, 1);
        push_u8(&mut ret, self.depth);
        push_u16_be(&mut ret, 8 + count);
        push_u32_be(&mut ret, self.wid);
        push_u32_be(&mut ret, self.parent);
        push_u16_be(&mut ret, self.x);
        push_u16_be(&mut ret, self.y);
        push_u16_be(&mut ret, self.width);
        push_u16_be(&mut ret, self.height);
        push_u16_be(&mut ret, self.border_width);
        push_u16_be(&mut ret, self.class);
        push_u32_be(&mut ret, self.visual);
        push_u32_be(&mut ret, value_mask);
        match self.background_pixel {
            Some(v) => push_u32_be(&mut ret, v),
            None => (),
        }
        match self.event_mask {
            Some(v) => push_u32_be(&mut ret, v),
            None => (),
        }
        proof {
            assert(ret@ =~= create_window_bytes(*self));
            lemma_be16_roundtrip(cw_len_units(*self) as u16);
        }
        ret
    }
}

// MapWindow --------------------------------------------------------------

/// MapWindow request (opcode 8); the secondary byte is unused.
#[derive(Debug, Clone, Copy, PartialEq)]
pub struct MapWindow {
    pub window: u32,
}

/// The full wire form of a MapWindow request: 8 bytes, length 2.
pub open spec fn map_window_bytes(r: MapWindow) -> Seq<u8> {
    seq![8u8, 0u8] + be16(2) + be32(r.window)
}

impl MapWindow {
    pub fn new(window: u32) -> (r: Self)
        ensures
            r == (MapWindow { window }),
    {
        MapWindow { window }
    }

    /// The request's wire form; the declared length equals the assembled
    /// byte count in 4-byte units.
    pub fn as_bytes(&self) -> (r: Vec<u8>)
        ensures
            r@ == map_window_bytes(*self),
            r@.len() == 8,
            r@.len() % 4 == 0,
            u16_be(r@[2], r@[3]) as int == r@.len() / 4,
    {
        let mut ret: Vec<u8> = Vec::new();
        push_u8(&mut ret, 8);
        push_u8(&mut ret, 0);
        push_u16_be(&mut ret, 2);
        push_u32_be(&mut ret, self.window);
        proof {
            assert(ret@ =~= map_window_bytes(*self));
            lemma_be16_roundtrip(2);
        }
        ret
    }
}

// CreateGC ---------------------------------------------------------------

/// CreateGC request (opcode 55); the value-mask is fixed to the
/// foreground bit (0x04) and the one value is the foreground pixel.
#[derive(Debug, Clone, Copy, PartialEq)]
pub struct CreateGc {
    pub cid: u32,
    pub drawable: u32,
    pub foreground: u32,
}

/// The full wire form of a CreateGC request: 20 bytes, length 5.
pub open spec fn create_gc_bytes(r: CreateGc) -> Seq<u8> {
    seq![55u8, 0u8] + be16(5) + be32(r.cid) + be32(r.drawable) + be32(0x04) + be32(r.foreground)
}

impl CreateGc {
    pub fn new(cid: u32, drawable: u32, foreground: u32) -> (r: Self)
        ensures
            r == (CreateGc { cid, drawable, foreground }),
    {
        CreateGc { cid, drawable, foreground }
    }

    /// The request's wire form; the declared length equals the assembled
    /// byte count in 4-byte units.
    pub fn as_bytes(&self) -> (r: Vec<u8>)
        ensures
            r@ == create_gc_bytes(*self),
            r@.len() == 20,
            r@.len() % 4 == 0,
            u16_be(r@[2], r@[3]) as int == r@.len() / 4,
    {
        let mut ret: Vec<u8> = Vec::new();
        push_u8(&mut ret, 55);
        push_u8(&mut ret, 0);
        push_u16_be(&mut ret, 5);
        push_u32_be(&mut ret, self.cid);
        push_u32_be(&mut ret, self.drawable);
        push_u32_be(&mut ret, 0x04);
        push_u32_be(&mut ret, self.foreground);
        proof {
            assert(ret@ =~= create_gc_bytes(*self));
            lemma_be16_roundtrip(5);
        }
        ret
    }
}

// PolyFillRectangle ------------------------------------------------------

/// One rectangle of a PolyFillRectangle request: signed position,
/// unsigned size.
#[derive(Debug, Clone, Copy, PartialEq, Eq, Structural)]
pub struct Rectangle {
    pub x: i16,
    pub y: i16,
    pub width: u16,
    pub height: u16,
}

/// The 8 wire bytes of one rectangle.
pub open spec fn rectangle_bytes(r: Rectangle) -> Seq<u8> {
    be16(r.x as u16) + be16(r.y as u16) + be16(r.width) + be16(r.height)
}

/// The wire bytes of a run of rectangles, in order.
pub open spec fn rectangles_bytes(rs: Seq<Rectangle>) -> Seq<u8>
    decreases rs.len(),
{
    if rs.len() == 0 {
        Seq::empty()
    } else {
        rectangles_bytes(rs.drop_last()) + rectangle_bytes(rs.last())
    }
}

pub proof fn lemma_rectangles_bytes_len(rs: Seq<Rectangle>)
    ensures
        rectangles_bytes(rs).len() == 8 * rs.len(),
    decreases rs.len(),
{
    if rs.len() > 0 {
        lemma_rectangles_bytes_len(rs.drop_last());
    }
}

/// PolyFillRectangle request (opcode 70); fills every listed rectangle of
/// the drawable with the graphics context's fill.
#[derive(Debug, PartialEq)]
pub struct PolyFillRectangle {
    pub drawable: u32,
    pub gc: u32,
    pub rectangles: Vec<Rectangle>,
}

/// Declared length in 4-byte units: 3 for the header and ids, 2 per
/// rectangle.
pub open spec fn pfr_len_units(r: PolyFillRectangle) -> int {
    3 + 2 * (r.rectangles@.len() as int)
}

/// The full wire form of a PolyFillRectangle request.
pub open spec fn poly_fill_rectangle_bytes(r: PolyFillRectangle) -> Seq<u8> {
    seq![70u8, 0u8] + be16(pfr_len_units(r) as u16) + be32(r.drawable) + be32(r.gc)
        + rectangles_bytes(r.rectangles@)
}

impl PolyFillRectangle {
    /// A request that fills the one given rectangle.
    pub fn new(drawable: u32, gc: u32, x: i16, y: i16, width: u16, height: u16) -> (r: Self)
        ensures
            r.drawable == drawable,
            r.gc == gc,
            r.rectangles@ == seq![(Rectangle { x, y, width, height })],
    {
        let mut rectangles: Vec<Rectangle> = Vec::new();
        rectangles.push(Rectangle { x, y, width, height });
        proof {
            assert(rectangles@ =~= seq![(Rectangle { x, y, width, height })]);
        }
        PolyFillRectangle { drawable, gc, rectangles }
    }

    /// A request that fills every rectangle of the given run.
    pub fn with_rectangles(drawable: u32, gc: u32, rectangles: Vec<Rectangle>) -> (r: Self)
        ensures
            r.drawable == drawable,
            r.gc == gc,
            r.rectangles@ == rectangles@,
    {
        PolyFillRectangle { drawable, gc, rectangles }
    }

    /// The request's wire form; the declared length equals the assembled
    /// byte count in 4-byte units. The 2-byte length field bounds how
    /// many rectangles one request can carry.
    pub fn as_bytes(&self) -> (r: Vec<u8>)
        requires
            self.rectangles@.len() <= 32766,
        ensures
            r@ == poly_fill_rectangle_bytes(*self),
            r@.len() == 4 * pfr_len_units(*self),
            r@.len() % 4 == 0,
            u16_be(r@[2], r@[3]) as int == r@.len() / 4,
    {
        let n = self.rectangles.len();
        let units: u16 = (3 + 2 * n) as u16;
        let mut ret: Vec<u8> = Vec::new();
        push_u8(&mut ret, 70);
        push_u8(&mut ret, 0);
        push_u16_be(&mut ret, units);
        push_u32_be(&mut ret, self.drawable);
        push_u32_be(&mut ret, self.gc);
        let ghost head = ret@;
        let mut k: usize = 0;
        while k < n
            invariant
                k <= n,
                n == self.rectangles@.len(),
                ret@ == head + rectangles_bytes(self.rectangles@.take(k as int)),
            decreases n - k,
        {
            let rect = self.rectangles[k];
            push_i16_be(&mut ret, rect.x);
            push_i16_be(&mut ret, rect.y);
            push_u16_be(&mut ret, rect.width);
            push_u16_be(&mut ret, rect.height);
            k = k + 1;
            proof {
                let taken = self.rectangles@.take(k as int);
                assert(taken.drop_last() =~= self.rectangles@.take(k as int - 1));
                assert(taken.last() == self.rectangles@[k as int - 1]);
                assert(ret@ =~= head + rectangles_bytes(taken));
            }
        }
        proof {
            assert(self.rectangles@.take(n as int) =~= self.rectangles@);
            assert(ret@ =~= poly_fill_rectangle_bytes(*self));
            lemma_rectangles_bytes_len(self.rectangles@);
            lemma_be16_roundtrip(pfr_len_units(*self) as u16);
        }
        ret
    }
}

// ChangeProperty / set window name ---------------------------------------

/// ChangeProperty request (opcode 18) in Replace mode, setting the
/// predefined WM_NAME property (atom 39) of a window to a STRING
/// (atom 31) of 8-bit units: the window's name.
#[derive(Debug, PartialEq)]
pub struct ChangeWmName {
    pub window: u32,
    pub name: String,
}

/// Declared length in 4-byte units for a name of `n` bytes: 6 for header
/// and fixed body, plus the padded name length in units.
pub open spec fn wm_name_len_units(n: int) -> int {
    6 + (n + pad4(n)) / 4
}

/// The full wire form of a ChangeProperty/WM_NAME request for the given
/// window and UTF-8 name bytes.
pub open spec fn change_wm_name_bytes(window: u32, nb: Seq<u8>) -> Seq<u8> {
    seq![18u8, 0u8] + be16(wm_name_len_units(nb.len() as int) as u16) + be32(window) + be32(39)
        + be32(31) + seq![8u8, 0u8, 0u8, 0u8] + be32(nb.len() as u32) + nb + zeros(
        pad4(nb.len() as int),
    )
}

impl ChangeWmName {
    pub fn new(window: u32, name: String) -> (r: Self)
        ensures
            r.window == window,
            r.name@ == name@,
    {
        ChangeWmName { window, name }
    }

    /// The request's wire form; the name goes out UTF-8 encoded, padded
    /// with zero bytes to a 4-byte boundary, and the declared length
    /// equals the assembled byte count in 4-byte units. The 2-byte length
    /// field bounds how long a name one request can carry.
    #[verifier::spinoff_prover]
    #[verifier::rlimit(100)]
    pub fn as_bytes(&self) -> (r: Vec<u8>)
        requires
            encode_utf8(self.name@).len() <= 262116,
        ensures
            r@ == change_wm_name_bytes(self.window, encode_utf8(self.name@)),
            r@.len() == 4 * wm_name_len_units(encode_utf8(self.name@).len() as int),
            r@.len() % 4 == 0,
            u16_be(r@[2], r@[3]) as int == r@.len() / 4,
    {
        let name_bytes: &[u8] = self.name.as_str().as_bytes();
        let n = name_bytes.len();
        let padding = (4 - (n % 4)) % 4;
        let units: u16 = (6 + (n + padding) / 4) as u16;
        let mut ret: Vec<u8> = Vec::new();
        push_u8(&mut ret, 18);
        push_u8(&mut ret, 0);
        push_u16_be(&mut ret, units);
        push_u32_be(&mut ret, self.window);
        push_u32_be(&mut ret, 39);
        push_u32_be(&mut ret, 31);
        push_u8(&mut ret, 8);
        push_zeros(&mut ret, 3);
        push_u32_be(&mut ret, n as u32);
        let ghost head = ret@;
        let mut k: usize = 0;
        while k < n
            invariant
                k <= n,
                n == name_bytes@.len(),
                ret@ == head + name_bytes@.take(k as int),
            decreases n - k,
        {
            push_u8(&mut ret, name_bytes[k]);
            k = k + 1;
            proof {
                assert(ret@ =~= head + name_bytes@.take(k as int));
            }
        }
        proof {
            assert(name_bytes@.take(n as int) =~= name_bytes@);
        }
        push_zeros(&mut ret, padding);
        proof {
            assert(ret@ =~= change_wm_name_bytes(self.window, encode_utf8(self.name@)));
            lemma_be16_roundtrip(wm_name_len_units(encode_utf8(self.name@).len() as int) as u16);
        }
        ret
    }
}

} // verus!
