use vstd::prelude::*;
use vstd::utf8::{decode_utf8, valid_utf8};

use crate::error::X11Error;
use crate::stream::ByteStream;
use crate::wire::{be16, pad4, push_u16_be, push_u8, u16_be, u32_be};

verus! {

// Client greeting --------------------------------------------------------

/// The client's opening greeting: protocol 11.0, big-endian byte order,
/// no authorization. Built once per connection and serialized once into
/// the first bytes sent.
#[derive(Debug)]
pub struct ClientInit {
    major: u16,
    minor: u16,
    authorization_protocol_name: Option<Vec<u8>>,
    authorization_protocol_data: Option<Vec<u8>>,
}

/// The 12 bytes of a greeting without authorization: 'B' (0x42) selects
/// big-endian, then a pad byte, major and minor version, the two zero
/// authorization lengths, and 2 pad bytes.
pub open spec fn client_init_bytes(major: u16, minor: u16) -> Seq<u8> {
    seq![0x42u8, 0u8] + be16(major) + be16(minor) + be16(0) + be16(0) + be16(0)
}

impl ClientInit {
    #[verifier::type_invariant]
    spec fn inv(self) -> bool {
        &&& self.major == 11
        &&& self.minor == 0
        &&& self.authorization_protocol_name is None
        &&& self.authorization_protocol_data is None
    }

    /// The greeting's protocol major version.
    pub closed spec fn spec_major(self) -> u16 {
        self.major
    }

    /// The greeting's protocol minor version.
    pub closed spec fn spec_minor(self) -> u16 {
        self.minor
    }

    /// A greeting for protocol version 11.0 with no authorization.
    pub fn new() -> (r: Self)
        ensures
            r.spec_major() == 11,
            r.spec_minor() == 0,
    {
        ClientInit {
            major: 11,
            minor: 0,
            authorization_protocol_name: None,
            authorization_protocol_data: None,
        }
    }

    /// Accepts an authorization name and data only when both are empty:
    /// authorization payloads are a configuration option this core does
    /// not implement, so anything else is `UnsupportedAuthorization`.
    pub fn with_authorization(name: Vec<u8>, data: Vec<u8>) -> (r: Result<Self, X11Error>)
        ensures
            name@.len() == 0 && data@.len() == 0 ==> (r matches Ok(c) && c.spec_major() == 11
                && c.spec_minor() == 0),
            name@.len() > 0 || data@.len() > 0 ==> (r matches Err(e) && e
                == X11Error::UnsupportedAuthorization),
    {
        if name.len() == 0 && data.len() == 0 {
            Ok(Self::new())
        } else {
            Err(X11Error::UnsupportedAuthorization)
        }
    }

    /// The first bytes sent on a connection.
    pub fn to_bytes(&self) -> (r: Vec<u8>)
        ensures
            r@ == client_init_bytes(11, 0),
            r@.len() == 12,
    {
        proof {
            use_type_invariant(self);
        }
        let mut ret: Vec<u8> = Vec::new();
        push_u8(&mut ret, 0x42);
        push_u8(&mut ret, 0);
        push_u16_be(&mut ret, self.major);
        push_u16_be(&mut ret, self.minor);
        push_u16_be(&mut ret, 0);
        push_u16_be(&mut ret, 0);
        push_u16_be(&mut ret, 0);
        proof {
            assert(ret@ =~= client_init_bytes(11, 0));
        }
        ret
    }
}

// Capability announcement records ----------------------------------------

/// One pixmap format of the capability announcement: 8 bytes on the
/// wire, 5 of them reserved.
#[derive(Debug, Clone, Copy, PartialEq, Eq, Structural)]
pub struct PixmapFormat {
    pub depth: u8,
    pub bits_per_pixel: u8,
    pub scanline_pad: u8,
}

/// One visual of a depth: 24 bytes on the wire, the last 4 reserved.
#[derive(Debug, Clone, Copy, PartialEq, Eq, Structural)]
pub struct Visual {
    pub id: u32,
    pub class: u8,
    pub bits_per_rgb_value: u8,
    pub colormap_entries: u16,
    pub red_mask: u32,
    pub green_mask: u32,
    pub blue_mask: u32,
}

/// One depth of a screen: a depth value and its visuals.
#[derive(Debug, PartialEq)]
pub struct Depth {
    pub depth: u8,
    pub visuals: Vec<Visual>,
}

/// The mathematical shape of a `Depth`.
pub struct DepthModel {
    pub depth: u8,
    pub visuals: Seq<Visual>,
}

impl View for Depth {
    type V = DepthModel;

    open spec fn view(&self) -> DepthModel {
        DepthModel { depth: self.depth, visuals: self.visuals@ }
    }
}

/// One screen of the capability announcement.
#[derive(Debug, PartialEq)]
pub struct Screen {
    pub root: u32,
    pub default_colormap: u32,
    pub white_pixel: u32,
    pub black_pixel: u32,
    pub current_input_masks: u32,
    pub width_pixels: u16,
    pub height_pixels: u16,
    pub width_millimeters: u16,
    pub height_millimeters: u16,
    pub min_installed_maps: u16,
    pub max_installed_maps: u16,
    pub root_visual: u32,
    pub backing_stores: u8,
    pub save_unders: bool,
    pub root_depth: u8,
    pub allowed_depths: Vec<Depth>,
}

/// The mathematical shape of a `Screen`.
pub struct ScreenModel {
    pub root: u32,
    pub default_colormap: u32,
    pub white_pixel: u32,
    pub black_pixel: u32,
    pub current_input_masks: u32,
    pub width_pixels: u16,
    pub height_pixels: u16,
    pub width_millimeters: u16,
    pub height_millimeters: u16,
    pub min_installed_maps: u16,
    pub max_installed_maps: u16,
    pub root_visual: u32,
    pub backing_stores: u8,
    pub save_unders: bool,
    pub root_depth: u8,
    pub allowed_depths: Seq<DepthModel>,
}

impl View for Screen {
    type V = ScreenModel;

    open spec fn view(&self) -> ScreenModel {
        ScreenModel {
            root: self.root,
            default_colormap: self.default_colormap,
            white_pixel: self.white_pixel,
            black_pixel: self.black_pixel,
            current_input_masks: self.current_input_masks,
            width_pixels: self.width_pixels,
            height_pixels: self.height_pixels,
            width_millimeters: self.width_millimeters,
            height_millimeters: self.height_millimeters,
            min_installed_maps: self.min_installed_maps,
            max_installed_maps: self.max_installed_maps,
            root_visual: self.root_visual,
            backing_stores: self.backing_stores,
            save_unders: self.save_unders,
            root_depth: self.root_depth,
            allowed_depths: self.allowed_depths@.map_values(|d: Depth| d@),
        }
    }
}

/// The parsed capability announcement of a successful handshake. Created
/// once per connection, read-only afterward.
#[derive(Debug, PartialEq)]
pub struct ServerInit {
    pub major: u16,
    pub minor: u16,
    pub release_number: u32,
    pub resource_id_base: u32,
    pub resource_id_mask: u32,
    pub motion_buffer_size: u32,
    pub maximum_request_length: u16,
    pub image_byte_order: u8,
    pub bitmap_format_bit_order: u8,
    pub bitmap_format_scanline_unit: u8,
    pub bitmap_format_scanline_pad: u8,
    pub min_keycode: u8,
    pub max_keycode: u8,
    pub vendor: String,
    pub pixmap_formats: Vec<PixmapFormat>,
    pub roots: Vec<Screen>,
}

/// The mathematical shape of a `ServerInit`.
pub struct ServerInitModel {
    pub major: u16,
    pub minor: u16,
    pub release_number: u32,
    pub resource_id_base: u32,
    pub resource_id_mask: u32,
    pub motion_buffer_size: u32,
    pub maximum_request_length: u16,
    pub image_byte_order: u8,
    pub bitmap_format_bit_order: u8,
    pub bitmap_format_scanline_unit: u8,
    pub bitmap_format_scanline_pad: u8,
    pub min_keycode: u8,
    pub max_keycode: u8,
    pub vendor: Seq<char>,
    pub pixmap_formats: Seq<PixmapFormat>,
    pub roots: Seq<ScreenModel>,
}

impl View for ServerInit {
    type V = ServerInitModel;

    open spec fn view(&self) -> ServerInitModel {
        ServerInitModel {
            major: self.major,
            minor: self.minor,
            release_number: self.release_number,
            resource_id_base: self.resource_id_base,
            resource_id_mask: self.resource_id_mask,
            motion_buffer_size: self.motion_buffer_size,
            maximum_request_length: self.maximum_request_length,
            image_byte_order: self.image_byte_order,
            bitmap_format_bit_order: self.bitmap_format_bit_order,
            bitmap_format_scanline_unit: self.bitmap_format_scanline_unit,
            bitmap_format_scanline_pad: self.bitmap_format_scanline_pad,
            min_keycode: self.min_keycode,
            max_keycode: self.max_keycode,
            vendor: self.vendor@,
            pixmap_formats: self.pixmap_formats@,
            roots: self.roots@.map_values(|s: Screen| s@),
        }
    }
}

// What the wire bytes say, position by position --------------------------

/// The 16-bit big-endian field at offset `i` of `b`.
pub open spec fn spec_u16_at(b: Seq<u8>, i: int) -> u16 {
    u16_be(b[i], b[i + 1])
}

/// The 32-bit big-endian field at offset `i` of `b`.
pub open spec fn spec_u32_at(b: Seq<u8>, i: int) -> u32 {
    u32_be(b[i], b[i + 1], b[i + 2], b[i + 3])
}

/// The pixmap format record at offset `i`: depth, bits-per-pixel,
/// scanline pad, then 5 reserved bytes.
pub open spec fn spec_format_at(b: Seq<u8>, i: int) -> PixmapFormat {
    PixmapFormat { depth: b[i], bits_per_pixel: b[i + 1], scanline_pad: b[i + 2] }
}

/// The run of `n` pixmap format records starting at offset `i`, 8 bytes
/// each.
pub open spec fn spec_formats_at(b: Seq<u8>, i: int, n: int) -> Seq<PixmapFormat> {
    Seq::new(n as nat, |k: int| spec_format_at(b, i + 8 * k))
}

/// The visual record at offset `i`, 24 bytes.
pub open spec fn spec_visual_at(b: Seq<u8>, i: int) -> Visual {
    Visual {
        id: spec_u32_at(b, i),
        class: b[i + 4],
        bits_per_rgb_value: b[i + 5],
        colormap_entries: spec_u16_at(b, i + 6),
        red_mask: spec_u32_at(b, i + 8),
        green_mask: spec_u32_at(b, i + 12),
        blue_mask: spec_u32_at(b, i + 16),
    }
}

/// The run of `n` visual records starting at offset `i`, 24 bytes each.
pub open spec fn spec_visuals_at(b: Seq<u8>, i: int, n: int) -> Seq<Visual> {
    Seq::new(n as nat, |k: int| spec_visual_at(b, i + 24 * k))
}

/// Whether a whole depth record fits at offset `i`: its 8-byte header
/// and the visuals the header announces.
pub open spec fn spec_depth_ok(b: Seq<u8>, i: int) -> bool {
    i + 8 <= b.len() && spec_depth_end(b, i) <= b.len()
}

/// Where the depth record at offset `i` ends: 8 header bytes plus 24 per
/// announced visual.
pub open spec fn spec_depth_end(b: Seq<u8>, i: int) -> int {
    i + 8 + 24 * (spec_u16_at(b, i + 2) as int)
}

/// The depth record at offset `i`: depth byte, pad, 2-byte visual count,
/// 4 reserved bytes, then the visuals.
pub open spec fn spec_depth_at(b: Seq<u8>, i: int) -> DepthModel {
    DepthModel { depth: b[i], visuals: spec_visuals_at(b, i + 8, spec_u16_at(b, i + 2) as int) }
}

/// Whether `n` consecutive depth records fit, the first at offset `i`.
pub open spec fn spec_depths_ok(b: Seq<u8>, i: int, n: nat) -> bool
    decreases n,
{
    n > 0 ==> spec_depth_ok(b, i) && spec_depths_ok(b, spec_depth_end(b, i), (n - 1) as nat)
}

/// Where `n` consecutive depth records end, the first at offset `i`.
pub open spec fn spec_depths_end(b: Seq<u8>, i: int, n: nat) -> int
    decreases n,
{
    if n == 0 {
        i
    } else {
        spec_depths_end(b, spec_depth_end(b, i), (n - 1) as nat)
    }
}

/// The run of `n` consecutive depth records, the first at offset `i`.
pub open spec fn spec_depths_at(b: Seq<u8>, i: int, n: nat) -> Seq<DepthModel>
    decreases n,
{
    if n == 0 {
        Seq::empty()
    } else {
        seq![spec_depth_at(b, i)] + spec_depths_at(b, spec_depth_end(b, i), (n - 1) as nat)
    }
}

/// Extending a well-formed run of depth records by one more.
proof fn lemma_depths_snoc(b: Seq<u8>, i: int, k: nat)
    requires
        spec_depths_ok(b, i, k),
        spec_depth_ok(b, spec_depths_end(b, i, k)),
    ensures
        spec_depths_ok(b, i, (k + 1) as nat),
        spec_depths_end(b, i, (k + 1) as nat) == spec_depth_end(b, spec_depths_end(b, i, k)),
        spec_depths_at(b, i, (k + 1) as nat) == spec_depths_at(b, i, k).push(
            spec_depth_at(b, spec_depths_end(b, i, k)),
        ),
    decreases k,
{
    reveal_with_fuel(spec_depths_ok, 2);
    reveal_with_fuel(spec_depths_end, 2);
    reveal_with_fuel(spec_depths_at, 2);
    if k == 0 {
        assert(spec_depths_at(b, i, 1) =~= spec_depths_at(b, i, 0).push(spec_depth_at(b, i)));
    } else {
        lemma_depths_snoc(b, spec_depth_end(b, i), (k - 1) as nat);
        assert(spec_depths_at(b, i, (k + 1) as nat) =~= spec_depths_at(b, i, k).push(
            spec_depth_at(b, spec_depths_end(b, i, k)),
        ));
    }
}

/// A run of `n` depth records cannot fit when some record along the way
/// does not.
proof fn lemma_depths_fail(b: Seq<u8>, i: int, k: nat, n: nat)
    requires
        k < n,
        spec_depths_ok(b, i, k),
        !spec_depth_ok(b, spec_depths_end(b, i, k)),
    ensures
        !spec_depths_ok(b, i, n),
    decreases k,
{
    if k > 0 {
        lemma_depths_fail(b, spec_depth_end(b, i), (k - 1) as nat, (n - 1) as nat);
    }
}

/// Whether a whole screen record fits at offset `i`: its 40 fixed bytes
/// and the depth records the last header byte announces.
pub open spec fn spec_screen_ok(b: Seq<u8>, i: int) -> bool {
    i + 40 <= b.len() && spec_depths_ok(b, i + 40, b[i + 39] as nat)
}

/// Where the screen record at offset `i` ends.
pub open spec fn spec_screen_end(b: Seq<u8>, i: int) -> int {
    spec_depths_end(b, i + 40, b[i + 39] as nat)
}

/// The screen record at offset `i`.
pub open spec fn spec_screen_at(b: Seq<u8>, i: int) -> ScreenModel {
    ScreenModel {
        root: spec_u32_at(b, i),
        default_colormap: spec_u32_at(b, i + 4),
        white_pixel: spec_u32_at(b, i + 8),
        black_pixel: spec_u32_at(b, i + 12),
        current_input_masks: spec_u32_at(b, i + 16),
        width_pixels: spec_u16_at(b, i + 20),
        height_pixels: spec_u16_at(b, i + 22),
        width_millimeters: spec_u16_at(b, i + 24),
        height_millimeters: spec_u16_at(b, i + 26),
        min_installed_maps: spec_u16_at(b, i + 28),
        max_installed_maps: spec_u16_at(b, i + 30),
        root_visual: spec_u32_at(b, i + 32),
        backing_stores: b[i + 36],
        save_unders: b[i + 37] != 0,
        root_depth: b[i + 38],
        allowed_depths: spec_depths_at(b, i + 40, b[i + 39] as nat),
    }
}

/// Whether `n` consecutive screen records fit, the first at offset `i`.
pub open spec fn spec_screens_ok(b: Seq<u8>, i: int, n: nat) -> bool
    decreases n,
{
    n > 0 ==> spec_screen_ok(b, i) && spec_screens_ok(b, spec_screen_end(b, i), (n - 1) as nat)
}

/// Where `n` consecutive screen records end, the first at offset `i`.
pub open spec fn spec_screens_end(b: Seq<u8>, i: int, n: nat) -> int
    decreases n,
{
    if n == 0 {
        i
    } else {
        spec_screens_end(b, spec_screen_end(b, i), (n - 1) as nat)
    }
}

/// The run of `n` consecutive screen records, the first at offset `i`.
pub open spec fn spec_screens_at(b: Seq<u8>, i: int, n: nat) -> Seq<ScreenModel>
    decreases n,
{
    if n == 0 {
        Seq::empty()
    } else {
        seq![spec_screen_at(b, i)] + spec_screens_at(b, spec_screen_end(b, i), (n - 1) as nat)
    }
}

/// Extending a well-formed run of screen records by one more.
proof fn lemma_screens_snoc(b: Seq<u8>, i: int, k: nat)
    requires
        spec_screens_ok(b, i, k),
        spec_screen_ok(b, spec_screens_end(b, i, k)),
    ensures
        spec_screens_ok(b, i, (k + 1) as nat),
        spec_screens_end(b, i, (k + 1) as nat) == spec_screen_end(b, spec_screens_end(b, i, k)),
        spec_screens_at(b, i, (k + 1) as nat) == spec_screens_at(b, i, k).push(
            spec_screen_at(b, spec_screens_end(b, i, k)),
        ),
    decreases k,
{
    reveal_with_fuel(spec_screens_ok, 2);
    reveal_with_fuel(spec_screens_end, 2);
    reveal_with_fuel(spec_screens_at, 2);
    if k == 0 {
        assert(spec_screens_at(b, i, 1) =~= spec_screens_at(b, i, 0).push(spec_screen_at(b, i)));
    } else {
        lemma_screens_snoc(b, spec_screen_end(b, i), (k - 1) as nat);
        assert(spec_screens_at(b, i, (k + 1) as nat) =~= spec_screens_at(b, i, k).push(
            spec_screen_at(b, spec_screens_end(b, i, k)),
        ));
    }
}

/// A run of `n` screen records cannot fit when some record along the way
/// does not.
proof fn lemma_screens_fail(b: Seq<u8>, i: int, k: nat, n: nat)
    requires
        k < n,
        spec_screens_ok(b, i, k),
        !spec_screen_ok(b, spec_screens_end(b, i, k)),
    ensures
        !spec_screens_ok(b, i, n),
    decreases k,
{
    if k > 0 {
        lemma_screens_fail(b, spec_screen_end(b, i), (k - 1) as nat, (n - 1) as nat);
    }
}

// The success reply as a whole -------------------------------------------

/// The vendor string's byte length, from the header at offset `i`.
pub open spec fn spec_vendor_len(b: Seq<u8>, i: int) -> int {
    spec_u16_at(b, i + 24) as int
}

/// Where the pixmap format records start: after the 40-byte header and
/// the padded vendor string.
pub open spec fn spec_formats_start(b: Seq<u8>, i: int) -> int {
    i + 40 + spec_vendor_len(b, i) + pad4(spec_vendor_len(b, i))
}

/// Where the screen records start: after the 8-byte format records.
pub open spec fn spec_screens_start(b: Seq<u8>, i: int) -> int {
    spec_formats_start(b, i) + 8 * (b[i + 29] as int)
}

/// The vendor string's bytes.
pub open spec fn spec_vendor_bytes(b: Seq<u8>, i: int) -> Seq<u8> {
    b.subrange(i + 40, i + 40 + spec_vendor_len(b, i))
}

/// Whether a whole success-shaped reply fits at offset `i`: the 40-byte
/// header, the padded vendor string, the format records, and every
/// screen record with its nested depths and visuals.
pub open spec fn spec_server_init_ok(b: Seq<u8>, i: int) -> bool {
    &&& i + 40 <= b.len()
    &&& spec_screens_start(b, i) <= b.len()
    &&& spec_screens_ok(b, spec_screens_start(b, i), b[i + 28] as nat)
}

/// Where the reply at offset `i` ends.
pub open spec fn spec_server_init_end(b: Seq<u8>, i: int) -> int {
    spec_screens_end(b, spec_screens_start(b, i), b[i + 28] as nat)
}

/// The reply at offset `i`, field by field. The vendor characters are
/// the UTF-8 decoding of the vendor bytes.
pub open spec fn spec_server_init_at(b: Seq<u8>, i: int) -> ServerInitModel {
    ServerInitModel {
        major: spec_u16_at(b, i + 2),
        minor: spec_u16_at(b, i + 4),
        release_number: spec_u32_at(b, i + 8),
        resource_id_base: spec_u32_at(b, i + 12),
        resource_id_mask: spec_u32_at(b, i + 16),
        motion_buffer_size: spec_u32_at(b, i + 20),
        maximum_request_length: spec_u16_at(b, i + 26),
        image_byte_order: b[i + 30],
        bitmap_format_bit_order: b[i + 31],
        bitmap_format_scanline_unit: b[i + 32],
        bitmap_format_scanline_pad: b[i + 33],
        min_keycode: b[i + 34],
        max_keycode: b[i + 35],
        vendor: decode_utf8(spec_vendor_bytes(b, i)),
        pixmap_formats: spec_formats_at(b, spec_formats_start(b, i), b[i + 29] as int),
        roots: spec_screens_at(b, spec_screens_start(b, i), b[i + 28] as nat),
    }
}

/// Relies on `String::from_utf8`: it succeeds exactly on valid UTF-8
/// input and yields the characters those bytes encode, as vstd's UTF-8
/// model states them.
#[verifier::external_body]
fn vendor_string_from_bytes(bytes: Vec<u8>) -> (r: Option<String>)
    ensures
        r is Some <==> valid_utf8(bytes@),
        r matches Some(v) ==> v@ == decode_utf8(bytes@),
{
    match String::from_utf8(bytes) {
        Ok(v) => Some(v),
        Err(_) => None,
    }
}

// Fixed-size record parsers ----------------------------------------------

impl PixmapFormat {
    /// Reads one 8-byte pixmap format record.
    pub fn from_stream(s: &mut ByteStream) -> (r: Result<PixmapFormat, X11Error>)
        ensures
            final(s).bytes() == old(s).bytes(),
            old(s).pos() <= final(s).pos() <= final(s).bytes().len(),
            old(s).remaining() >= 8 ==> ({
                &&& r matches Ok(f) && f == spec_format_at(old(s).bytes(), old(s).pos())
                &&& final(s).pos() == old(s).pos() + 8
            }),
            old(s).remaining() < 8 ==> ({
                &&& r matches Err(e) && e == X11Error::IncompleteMessage
                &&& final(s).pos() == old(s).pos()
            }),
    {
        if s.available() < 8 {
            return Err(X11Error::IncompleteMessage);
        }
        let depth = s.take_u8();
        let bits_per_pixel = s.take_u8();
        let scanline_pad = s.take_u8();
        s.take_skip(5);
        Ok(PixmapFormat { depth, bits_per_pixel, scanline_pad })
    }
}

impl Visual {
    /// Reads one 24-byte visual record.
    pub fn from_stream(s: &mut ByteStream) -> (r: Result<Visual, X11Error>)
        ensures
            final(s).bytes() == old(s).bytes(),
            old(s).pos() <= final(s).pos() <= final(s).bytes().len(),
            old(s).remaining() >= 24 ==> ({
                &&& r matches Ok(v) && v == spec_visual_at(old(s).bytes(), old(s).pos())
                &&& final(s).pos() == old(s).pos() + 24
            }),
            old(s).remaining() < 24 ==> ({
                &&& r matches Err(e) && e == X11Error::IncompleteMessage
                &&& final(s).pos() == old(s).pos()
            }),
    {
        if s.available() < 24 {
            return Err(X11Error::IncompleteMessage);
        }
        let id = s.take_u32();
        let class = s.take_u8();
        let bits_per_rgb_value = s.take_u8();
        let colormap_entries = s.take_u16();
        let red_mask = s.take_u32();
        let green_mask = s.take_u32();
        let blue_mask = s.take_u32();
        s.take_skip(4);
        Ok(Visual { id, class, bits_per_rgb_value, colormap_entries, red_mask, green_mask, blue_mask })
    }
}

impl Depth {
    /// Reads one depth record: its 8-byte header, then as many visuals
    /// as the header announces. Fails closed with `IncompleteMessage`
    /// whenever the record would run past the end of the stream.
    pub fn from_stream(s: &mut ByteStream) -> (r: Result<Depth, X11Error>)
        ensures
            final(s).bytes() == old(s).bytes(),
            old(s).pos() <= final(s).pos() <= final(s).bytes().len(),
            spec_depth_ok(old(s).bytes(), old(s).pos()) ==> ({
                &&& r matches Ok(d) && d@ == spec_depth_at(old(s).bytes(), old(s).pos())
                &&& final(s).pos() == spec_depth_end(old(s).bytes(), old(s).pos())
            }),
            !spec_depth_ok(old(s).bytes(), old(s).pos()) ==> (r matches Err(e) && e
                == X11Error::IncompleteMessage),
    {
        let ghost b = old(s).bytes();
        let ghost i0 = old(s).pos();
        if s.available() < 8 {
            return Err(X11Error::IncompleteMessage);
        }
        let depth_value = s.take_u8();
        s.take_skip(1);
        let visual_count = s.take_u16();
        s.take_skip(4);
        let needed: usize = 24 * (visual_count as usize);
        if s.available() < needed {
            return Err(X11Error::IncompleteMessage);
        }
        let mut visuals: Vec<Visual> = Vec::new();
        proof {
            assert(visuals@ =~= spec_visuals_at(b, i0 + 8, 0));
        }
        let mut k: usize = 0;
        while k < visual_count as usize
            invariant
                k <= visual_count,
                s.bytes() == b,
                s.pos() == i0 + 8 + 24 * k,
                i0 + 8 + 24 * (visual_count as int) <= b.len(),
                visuals@ == spec_visuals_at(b, i0 + 8, k as int),
            decreases visual_count - k,
        {
            let v = match Visual::from_stream(s) {
                Ok(v) => v,
                Err(_) => {
                    proof {
                        assert(false);
                    }
                    return Err(X11Error::IncompleteMessage);
                },
            };
            visuals.push(v);
            k = k + 1;
            proof {
                assert(visuals@ =~= spec_visuals_at(b, i0 + 8, k as int));
            }
        }
        Ok(Depth { depth: depth_value, visuals })
    }
}

impl Screen {
    /// Reads one screen record: its 40 fixed bytes, then as many depth
    /// records (each with its visuals) as the header announces. Fails
    /// closed with `IncompleteMessage` whenever the record would run
    /// past the end of the stream.
    pub fn from_stream(s: &mut ByteStream) -> (r: Result<Screen, X11Error>)
        ensures
            final(s).bytes() == old(s).bytes(),
            old(s).pos() <= final(s).pos() <= final(s).bytes().len(),
            spec_screen_ok(old(s).bytes(), old(s).pos()) ==> ({
                &&& r matches Ok(sc) && sc@ == spec_screen_at(old(s).bytes(), old(s).pos())
                &&& final(s).pos() == spec_screen_end(old(s).bytes(), old(s).pos())
            }),
            !spec_screen_ok(old(s).bytes(), old(s).pos()) ==> (r matches Err(e) && e
                == X11Error::IncompleteMessage),
    {
        let ghost b = old(s).bytes();
        let ghost i0 = old(s).pos();
        if s.available() < 40 {
            return Err(X11Error::IncompleteMessage);
        }
        let root = s.take_u32();
        let default_colormap = s.take_u32();
        let white_pixel = s.take_u32();
        let black_pixel = s.take_u32();
        let current_input_masks = s.take_u32();
        let width_pixels = s.take_u16();
        let height_pixels = s.take_u16();
        let width_millimeters = s.take_u16();
        let height_millimeters = s.take_u16();
        let min_installed_maps = s.take_u16();
        let max_installed_maps = s.take_u16();
        let root_visual = s.take_u32();
        let backing_stores = s.take_u8();
        let save_unders = s.take_u8() != 0;
        let root_depth = s.take_u8();
        let depth_count = s.take_u8();
        let ghost dstart = i0 + 40;
        let mut allowed_depths: Vec<Depth> = Vec::new();
        proof {
            assert(allowed_depths@.map_values(|d: Depth| d@) =~= spec_depths_at(b, dstart, 0));
        }
        let mut k: usize = 0;
        while k < depth_count as usize
            invariant
                k <= depth_count,
                b == old(s).bytes(),
                i0 == old(s).pos(),
                s.bytes() == b,
                dstart == i0 + 40,
                i0 + 40 <= b.len(),
                depth_count == b[i0 + 39],
                i0 <= s.pos() <= b.len(),
                spec_depths_ok(b, dstart, k as nat),
                s.pos() == spec_depths_end(b, dstart, k as nat),
                allowed_depths@.map_values(|d: Depth| d@) == spec_depths_at(b, dstart, k as nat),
            decreases depth_count - k,
        {
            let d = match Depth::from_stream(s) {
                Ok(d) => d,
                Err(e) => {
                    proof {
                        lemma_depths_fail(b, dstart, k as nat, depth_count as nat);
                    }
                    return Err(e);
                },
            };
            proof {
                lemma_depths_snoc(b, dstart, k as nat);
            }
            allowed_depths.push(d);
            k = k + 1;
            proof {
                assert(allowed_depths@.map_values(|dd: Depth| dd@) =~= spec_depths_at(
                    b,
                    dstart,
                    k as nat,
                ));
            }
        }
        Ok(
            Screen {
                root,
                default_colormap,
                white_pixel,
                black_pixel,
                current_input_masks,
                width_pixels,
                height_pixels,
                width_millimeters,
                height_millimeters,
                min_installed_maps,
                max_installed_maps,
                root_visual,
                backing_stores,
                save_unders,
                root_depth,
                allowed_depths,
            },
        )
    }
}

impl ServerInit {
    /// Reads the server's whole handshake reply. A status byte other
    /// than 1 (Success) is surfaced as `HandshakeRejected` with the
    /// status and any reason text a Failed reply carries, never parsed
    /// as a success-shaped body. A success body is parsed strictly
    /// sequentially — header, vendor string, pixmap formats, screens —
    /// and fails closed: any count that would run past the end of the
    /// stream is `IncompleteMessage`, and vendor bytes that are not
    /// valid text are `MalformedVendorString`.
    pub fn from_stream(s: &mut ByteStream) -> (r: Result<ServerInit, X11Error>)
        ensures
            final(s).bytes() == old(s).bytes(),
            old(s).pos() <= final(s).pos() <= final(s).bytes().len(),
            ({
                let b = old(s).bytes();
                let i = old(s).pos();
                match r {
                    Ok(si) => {
                        &&& i < b.len() && b[i] == 1
                        &&& spec_server_init_ok(b, i)
                        &&& valid_utf8(spec_vendor_bytes(b, i))
                        &&& si@ == spec_server_init_at(b, i)
                        &&& final(s).pos() == spec_server_init_end(b, i)
                    },
                    Err(e) => {
                        if i >= b.len() {
                            e == X11Error::IncompleteMessage
                        } else if b[i] == 0 {
                            if i + 8 + b[i + 1] <= b.len() {
                                e matches X11Error::HandshakeRejected { status, reason }
                                    && status == 0 && reason@ == b.subrange(i + 8, i + 8 + b[i + 1])
                            } else {
                                e == X11Error::IncompleteMessage
                            }
                        } else if b[i] != 1 {
                            e matches X11Error::HandshakeRejected { status, reason } && status
                                == b[i] && reason@ == Seq::<u8>::empty()
                        } else if !spec_server_init_ok(b, i) {
                            e == X11Error::IncompleteMessage
                        } else {
                            e == X11Error::MalformedVendorString && !valid_utf8(
                                spec_vendor_bytes(b, i),
                            )
                        }
                    },
                }
            }),
    {
        let ghost b = old(s).bytes();
        let ghost i0 = old(s).pos();
        if s.available() < 1 {
            return Err(X11Error::IncompleteMessage);
        }
        let status = s.take_u8();
        if status == 0 {
            // Failed: 1 reason-length byte, major, minor, additional
            // length, then the reason text.
            if s.available() < 7 {
                return Err(X11Error::IncompleteMessage);
            }
            let reason_len = s.take_u8();
            s.take_skip(6);
            return match s.read_bytes(reason_len as usize) {
                Ok(reason) => Err(X11Error::HandshakeRejected { status, reason }),
                Err(_) => Err(X11Error::IncompleteMessage),
            };
        }
        if status != 1 {
            // Authenticate, or a status this codec does not know: no
            // reason text in a fixed place to hand back.
            return Err(X11Error::HandshakeRejected { status, reason: Vec::new() });
        }
        if s.available() < 39 {
            return Err(X11Error::IncompleteMessage);
        }
        s.take_skip(1);
        let major = s.take_u16();
        let minor = s.take_u16();
        s.take_skip(2);  // additional-data length, informational only
        let release_number = s.take_u32();
        let resource_id_base = s.take_u32();
        let resource_id_mask = s.take_u32();
        let motion_buffer_size = s.take_u32();
        let vendor_len = s.take_u16();
        let maximum_request_length = s.take_u16();
        let screen_count = s.take_u8();
        let pixmap_format_count = s.take_u8();
        let image_byte_order = s.take_u8();
        let bitmap_format_bit_order = s.take_u8();
        let bitmap_format_scanline_unit = s.take_u8();
        let bitmap_format_scanline_pad = s.take_u8();
        let min_keycode = s.take_u8();
        let max_keycode = s.take_u8();
        s.take_skip(4);
        let vlen = vendor_len as usize;
        let vpad = (4 - (vlen % 4)) % 4;
        let body_fixed: usize = vlen + vpad + 8 * (pixmap_format_count as usize);
        if s.available() < body_fixed {
            return Err(X11Error::IncompleteMessage);
        }
        let vendor_bytes = s.take_vec(vlen);
        s.take_skip(vpad);
        let ghost fstart = spec_formats_start(b, i0);
        proof {
            assert(s.pos() == fstart);
        }
        let mut pixmap_formats: Vec<PixmapFormat> = Vec::new();
        proof {
            assert(pixmap_formats@ =~= spec_formats_at(b, fstart, 0));
        }
        let mut k: usize = 0;
        while k < pixmap_format_count as usize
            invariant
                k <= pixmap_format_count,
                b == old(s).bytes(),
                i0 == old(s).pos(),
                s.bytes() == b,
                fstart == spec_formats_start(b, i0),
                fstart + 8 * (pixmap_format_count as int) <= b.len(),
                i0 <= s.pos(),
                s.pos() == fstart + 8 * k,
                pixmap_formats@ == spec_formats_at(b, fstart, k as int),
            decreases pixmap_format_count - k,
        {
            let f = match PixmapFormat::from_stream(s) {
                Ok(f) => f,
                Err(_) => {
                    proof {
                        assert(false);
                    }
                    return Err(X11Error::IncompleteMessage);
                },
            };
            pixmap_formats.push(f);
            k = k + 1;
            proof {
                assert(pixmap_formats@ =~= spec_formats_at(b, fstart, k as int));
            }
        }
        let ghost sstart = spec_screens_start(b, i0);
        proof {
            assert(s.pos() == sstart);
        }
        let mut roots: Vec<Screen> = Vec::new();
        proof {
            assert(roots@.map_values(|sc: Screen| sc@) =~= spec_screens_at(b, sstart, 0));
        }
        let mut k2: usize = 0;
        while k2 < screen_count as usize
            invariant
                k2 <= screen_count,
                b == old(s).bytes(),
                i0 == old(s).pos(),
                s.bytes() == b,
                i0 + 40 <= b.len(),
                b[i0] == 1,
                screen_count == b[i0 + 28],
                sstart == spec_screens_start(b, i0),
                sstart <= b.len(),
                i0 <= s.pos() <= b.len(),
                spec_screens_ok(b, sstart, k2 as nat),
                s.pos() == spec_screens_end(b, sstart, k2 as nat),
                roots@.map_values(|sc: Screen| sc@) == spec_screens_at(b, sstart, k2 as nat),
            decreases screen_count - k2,
        {
            let sc = match Screen::from_stream(s) {
                Ok(sc) => sc,
                Err(e) => {
                    proof {
                        lemma_screens_fail(b, sstart, k2 as nat, screen_count as nat);
                    }
                    return Err(e);
                },
            };
            proof {
                lemma_screens_snoc(b, sstart, k2 as nat);
            }
            roots.push(sc);
            k2 = k2 + 1;
            proof {
                assert(roots@.map_values(|x: Screen| x@) =~= spec_screens_at(b, sstart, k2 as nat));
            }
        }
        let vendor = match vendor_string_from_bytes(vendor_bytes) {
            Some(v) => v,
            None => {
                return Err(X11Error::MalformedVendorString);
            },
        };
        Ok(
            ServerInit {
                major,
                minor,
                release_number,
                resource_id_base,
                resource_id_mask,
                motion_buffer_size,
                maximum_request_length,
                image_byte_order,
                bitmap_format_bit_order,
                bitmap_format_scanline_unit,
                bitmap_format_scanline_pad,
                min_keycode,
                max_keycode,
                vendor,
                pixmap_formats,
                roots,
            },
        )
    }
}

} // verus!
