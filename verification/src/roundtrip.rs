use vstd::prelude::*;
use vstd::utf8::{encode_utf8, encode_utf8_decode_utf8, encode_utf8_valid_utf8};

use crate::handshake::{
    spec_depth_at, spec_depth_end, spec_depth_ok, spec_depths_at, spec_depths_end, spec_depths_ok,
    spec_format_at, spec_formats_at, spec_formats_start, spec_screen_at, spec_screen_end,
    spec_screen_ok, spec_screens_at, spec_screens_end, spec_screens_ok, spec_screens_start,
    spec_server_init_at, spec_server_init_end, spec_server_init_ok, spec_u16_at, spec_u32_at,
    spec_vendor_bytes, spec_vendor_len, spec_visual_at, spec_visuals_at, DepthModel, PixmapFormat,
    ScreenModel, ServerInitModel, Visual,
};
use crate::wire::{be16, be32, lemma_be16_roundtrip, lemma_be32_roundtrip, pad4, zeros};

verus! {

// The wire form of each capability-announcement record, stated as pure
// byte mathematics. Nothing executable produces these bytes — the
// announcement only ever travels server to client — but they pin down
// the format exactly, and the lemmas below prove the parser's byte
// mathematics inverts them: decoding a well-formed encoded announcement
// recovers every record and field.

/// A window into an embedded byte run: whatever holds of the run at its
/// own offsets holds of the buffer at the shifted ones.
proof fn lemma_embedded_subrange(b: Seq<u8>, i: int, w: Seq<u8>, lo: int, hi: int)
    requires
        0 <= i,
        i + w.len() <= b.len(),
        b.subrange(i, i + w.len()) == w,
        0 <= lo <= hi <= w.len(),
    ensures
        b.subrange(i + lo, i + hi) == w.subrange(lo, hi),
{
    assert(b.subrange(i + lo, i + hi) =~= w.subrange(lo, hi)) by {
        assert forall|k: int| 0 <= k < hi - lo implies b.subrange(i + lo, i + hi)[k] == w.subrange(
            lo,
            hi,
        )[k] by {
            assert(b[i + lo + k] == b.subrange(i, i + w.len() as int)[lo + k]);
        }
    }
}

/// Splitting a concatenation back into its two halves.
proof fn lemma_concat_split(x: Seq<u8>, y: Seq<u8>)
    ensures
        (x + y).subrange(0, x.len() as int) == x,
        (x + y).subrange(x.len() as int, x.len() as int + y.len() as int) == y,
{
    assert((x + y).subrange(0, x.len() as int) =~= x);
    assert((x + y).subrange(x.len() as int, x.len() as int + y.len() as int) =~= y);
}

/// The 24 wire bytes of one visual.
pub open spec fn visual_wire(v: Visual) -> Seq<u8> {
    be32(v.id) + seq![v.class, v.bits_per_rgb_value] + be16(v.colormap_entries) + be32(v.red_mask)
        + be32(v.green_mask) + be32(v.blue_mask) + zeros(4)
}

/// The wire bytes of a run of visuals, in order.
pub open spec fn visuals_wire(vs: Seq<Visual>) -> Seq<u8>
    decreases vs.len(),
{
    if vs.len() == 0 {
        Seq::empty()
    } else {
        visual_wire(vs.first()) + visuals_wire(vs.drop_first())
    }
}

/// A depth's visual count must fit its 2-byte field.
pub open spec fn wf_depth(d: DepthModel) -> bool {
    d.visuals.len() <= 0xffff
}

/// The wire bytes of one depth record: header, then its visuals.
pub open spec fn depth_wire(d: DepthModel) -> Seq<u8> {
    seq![d.depth, 0u8] + be16(d.visuals.len() as u16) + zeros(4) + visuals_wire(d.visuals)
}

/// The wire bytes of a run of depth records, in order.
pub open spec fn depths_wire(ds: Seq<DepthModel>) -> Seq<u8>
    decreases ds.len(),
{
    if ds.len() == 0 {
        Seq::empty()
    } else {
        depth_wire(ds.first()) + depths_wire(ds.drop_first())
    }
}

pub proof fn lemma_visuals_wire_len(vs: Seq<Visual>)
    ensures
        visuals_wire(vs).len() == 24 * vs.len(),
    decreases vs.len(),
{
    if vs.len() > 0 {
        lemma_visuals_wire_len(vs.drop_first());
    }
}

/// Decoding the 24 bytes of an encoded visual, wherever they sit in a
/// larger buffer, gives the visual back.
pub proof fn lemma_visual_roundtrip(b: Seq<u8>, i: int, v: Visual)
    requires
        0 <= i,
        i + 24 <= b.len(),
        b.subrange(i, i + 24) == visual_wire(v),
    ensures
        spec_visual_at(b, i) == v,
{
    let w = visual_wire(v);
    assert(w =~= seq![
        be32(v.id)[0],
        be32(v.id)[1],
        be32(v.id)[2],
        be32(v.id)[3],
        v.class,
        v.bits_per_rgb_value,
        be16(v.colormap_entries)[0],
        be16(v.colormap_entries)[1],
        be32(v.red_mask)[0],
        be32(v.red_mask)[1],
        be32(v.red_mask)[2],
        be32(v.red_mask)[3],
        be32(v.green_mask)[0],
        be32(v.green_mask)[1],
        be32(v.green_mask)[2],
        be32(v.green_mask)[3],
        be32(v.blue_mask)[0],
        be32(v.blue_mask)[1],
        be32(v.blue_mask)[2],
        be32(v.blue_mask)[3],
        0u8,
        0u8,
        0u8,
        0u8,
    ]);
    assert forall|k: int| 0 <= k < 24 implies b[i + k] == w[k] by {
        assert(b.subrange(i, i + 24)[k] == b[i + k]);
    }
    lemma_be32_roundtrip(v.id);
    lemma_be16_roundtrip(v.colormap_entries);
    lemma_be32_roundtrip(v.red_mask);
    lemma_be32_roundtrip(v.green_mask);
    lemma_be32_roundtrip(v.blue_mask);
    assert(spec_u32_at(b, i) == v.id) by {
        assert(b[i] == w[0] && b[i + 1] == w[1] && b[i + 2] == w[2] && b[i + 3] == w[3]);
    }
    assert(spec_u16_at(b, i + 6) == v.colormap_entries) by {
        assert(b[i + 6] == w[6] && b[i + 7] == w[7]);
    }
    assert(spec_u32_at(b, i + 8) == v.red_mask) by {
        assert(b[i + 8] == w[8] && b[i + 9] == w[9] && b[i + 10] == w[10] && b[i + 11] == w[11]);
    }
    assert(spec_u32_at(b, i + 12) == v.green_mask) by {
        assert(b[i + 12] == w[12] && b[i + 13] == w[13] && b[i + 14] == w[14] && b[i + 15]
            == w[15]);
    }
    assert(spec_u32_at(b, i + 16) == v.blue_mask) by {
        assert(b[i + 16] == w[16] && b[i + 17] == w[17] && b[i + 18] == w[18] && b[i + 19]
            == w[19]);
    }
    assert(b[i + 4] == w[4] && b[i + 5] == w[5]);
}

/// Decoding a run of `n` encoded visuals gives the run back.
#[verifier::spinoff_prover]
#[verifier::rlimit(100)]
pub proof fn lemma_visuals_roundtrip(b: Seq<u8>, i: int, vs: Seq<Visual>)
    requires
        0 <= i,
        i + 24 * vs.len() <= b.len(),
        b.subrange(i, i + 24 * vs.len()) == visuals_wire(vs),
    ensures
        spec_visuals_at(b, i, vs.len() as int) == vs,
    decreases vs.len(),
{
    lemma_visuals_wire_len(vs);
    if vs.len() > 0 {
        let all = b.subrange(i, i + 24 * vs.len());
        let rest = vs.drop_first();
        let head = visual_wire(vs.first());
        lemma_visuals_wire_len(rest);
        assert(b.subrange(i, i + 24) =~= head) by {
            assert forall|k: int| 0 <= k < 24 implies b.subrange(i, i + 24)[k] == head[k] by {
                assert(b[i + k] == all[k]);
                assert(all[k] == (head + visuals_wire(rest))[k]);
            }
        }
        lemma_visual_roundtrip(b, i, vs.first());
        assert(b.subrange(i + 24, i + 24 + 24 * rest.len()) =~= visuals_wire(rest)) by {
            assert forall|k: int| 0 <= k < 24 * rest.len() implies b.subrange(
                i + 24,
                i + 24 + 24 * rest.len(),
            )[k] == visuals_wire(rest)[k] by {
                assert(b[i + 24 + k] == all[24 + k]);
                assert(all[24 + k] == (head + visuals_wire(rest))[24 + k]);
            }
        }
        lemma_visuals_roundtrip(b, i + 24, rest);
        assert(spec_visuals_at(b, i, vs.len() as int) =~= vs) by {
            assert forall|k: int| 0 <= k < vs.len() implies spec_visuals_at(
                b,
                i,
                vs.len() as int,
            )[k] == vs[k] by {
                if k > 0 {
                    assert(spec_visuals_at(b, i + 24, rest.len() as int)[k - 1] == rest[k - 1]);
                    assert(i + 24 + 24 * (k - 1) == i + 24 * k);
                }
            }
        }
    } else {
        assert(spec_visuals_at(b, i, 0) =~= vs);
    }
}

/// Decoding one encoded depth record gives the record back, consuming
/// exactly its bytes.
pub proof fn lemma_depth_roundtrip(b: Seq<u8>, i: int, d: DepthModel)
    requires
        0 <= i,
        wf_depth(d),
        i + depth_wire(d).len() <= b.len(),
        b.subrange(i, i + depth_wire(d).len()) == depth_wire(d),
    ensures
        spec_depth_ok(b, i),
        spec_depth_at(b, i) == d,
        spec_depth_end(b, i) == i + depth_wire(d).len(),
{
    let w = depth_wire(d);
    let n = d.visuals.len() as u16;
    lemma_visuals_wire_len(d.visuals);
    assert(w.subrange(0, 8) =~= seq![d.depth, 0u8, be16(n)[0], be16(n)[1], 0u8, 0u8, 0u8, 0u8]);
    assert forall|k: int| 0 <= k < 8 implies b[i + k] == w[k] by {
        assert(b.subrange(i, i + w.len() as int)[k] == b[i + k]);
    }
    lemma_be16_roundtrip(n);
    assert(spec_u16_at(b, i + 2) == n) by {
        assert(b[i + 2] == w[2] && b[i + 3] == w[3]);
        assert(w[2] == w.subrange(0, 8)[2] && w[3] == w.subrange(0, 8)[3]);
    }
    assert(b[i] == w[0] && w[0] == w.subrange(0, 8)[0]);
    assert(b.subrange(i + 8, i + 8 + 24 * d.visuals.len()) =~= visuals_wire(d.visuals)) by {
        assert forall|k: int| 0 <= k < 24 * d.visuals.len() implies b.subrange(
            i + 8,
            i + 8 + 24 * d.visuals.len(),
        )[k] == visuals_wire(d.visuals)[k] by {
            assert(b[i + 8 + k] == b.subrange(i, i + w.len() as int)[8 + k]);
            assert(w[8 + k] == visuals_wire(d.visuals)[k]);
        }
    }
    lemma_visuals_roundtrip(b, i + 8, d.visuals);
}

/// Decoding a run of encoded depth records gives the run back,
/// consuming exactly its bytes.
pub proof fn lemma_depths_roundtrip(b: Seq<u8>, i: int, ds: Seq<DepthModel>)
    requires
        0 <= i,
        forall|j: int| 0 <= j < ds.len() ==> wf_depth(#[trigger] ds[j]),
        i + depths_wire(ds).len() <= b.len(),
        b.subrange(i, i + depths_wire(ds).len()) == depths_wire(ds),
    ensures
        spec_depths_ok(b, i, ds.len()),
        spec_depths_at(b, i, ds.len()) == ds,
        spec_depths_end(b, i, ds.len()) == i + depths_wire(ds).len(),
    decreases ds.len(),
{
    reveal_with_fuel(spec_depths_ok, 2);
    reveal_with_fuel(spec_depths_at, 2);
    reveal_with_fuel(spec_depths_end, 2);
    if ds.len() > 0 {
        let w = depths_wire(ds);
        let head = depth_wire(ds.first());
        let restw = depths_wire(ds.drop_first());
        lemma_concat_split(head, restw);
        lemma_embedded_subrange(b, i, w, 0, head.len() as int);
        lemma_depth_roundtrip(b, i, ds.first());
        lemma_embedded_subrange(b, i, w, head.len() as int, w.len() as int);
        assert forall|j: int| 0 <= j < ds.drop_first().len() implies wf_depth(
            #[trigger] ds.drop_first()[j],
        ) by {
            assert(ds.drop_first()[j] == ds[j + 1]);
        }
        lemma_depths_roundtrip(b, i + head.len(), ds.drop_first());
        assert(spec_depths_at(b, i, ds.len()) =~= ds);
    } else {
        assert(spec_depths_at(b, i, 0) =~= ds);
    }
}

/// A screen's depth count must fit its 1-byte field, and each depth must
/// itself be well formed.
pub open spec fn wf_screen(s: ScreenModel) -> bool {
    &&& s.allowed_depths.len() <= 0xff
    &&& forall|j: int| 0 <= j < s.allowed_depths.len() ==> wf_depth(#[trigger] s.allowed_depths[j])
}

/// The wire bytes of one screen record: 40 fixed bytes, then its depths.
pub open spec fn screen_wire(s: ScreenModel) -> Seq<u8> {
    be32(s.root) + be32(s.default_colormap) + be32(s.white_pixel) + be32(s.black_pixel) + be32(
        s.current_input_masks,
    ) + be16(s.width_pixels) + be16(s.height_pixels) + be16(s.width_millimeters) + be16(
        s.height_millimeters,
    ) + be16(s.min_installed_maps) + be16(s.max_installed_maps) + be32(s.root_visual) + seq![
        s.backing_stores,
        (if s.save_unders {
            1u8
        } else {
            0u8
        }),
        s.root_depth,
        s.allowed_depths.len() as u8,
    ] + depths_wire(s.allowed_depths)
}

/// Decoding one encoded screen record gives the record back, consuming
/// exactly its bytes.
#[verifier::spinoff_prover]
#[verifier::rlimit(100)]
pub proof fn lemma_screen_roundtrip(b: Seq<u8>, i: int, s: ScreenModel)
    requires
        0 <= i,
        wf_screen(s),
        i + screen_wire(s).len() <= b.len(),
        b.subrange(i, i + screen_wire(s).len()) == screen_wire(s),
    ensures
        spec_screen_ok(b, i),
        spec_screen_at(b, i) == s,
        spec_screen_end(b, i) == i + screen_wire(s).len(),
{
    let w = screen_wire(s);
    let dw = depths_wire(s.allowed_depths);
    let head = w.subrange(0, 40);
    assert(head =~= seq![
        be32(s.root)[0],
        be32(s.root)[1],
        be32(s.root)[2],
        be32(s.root)[3],
        be32(s.default_colormap)[0],
        be32(s.default_colormap)[1],
        be32(s.default_colormap)[2],
        be32(s.default_colormap)[3],
        be32(s.white_pixel)[0],
        be32(s.white_pixel)[1],
        be32(s.white_pixel)[2],
        be32(s.white_pixel)[3],
        be32(s.black_pixel)[0],
        be32(s.black_pixel)[1],
        be32(s.black_pixel)[2],
        be32(s.black_pixel)[3],
        be32(s.current_input_masks)[0],
        be32(s.current_input_masks)[1],
        be32(s.current_input_masks)[2],
        be32(s.current_input_masks)[3],
        be16(s.width_pixels)[0],
        be16(s.width_pixels)[1],
        be16(s.height_pixels)[0],
        be16(s.height_pixels)[1],
        be16(s.width_millimeters)[0],
        be16(s.width_millimeters)[1],
        be16(s.height_millimeters)[0],
        be16(s.height_millimeters)[1],
        be16(s.min_installed_maps)[0],
        be16(s.min_installed_maps)[1],
        be16(s.max_installed_maps)[0],
        be16(s.max_installed_maps)[1],
        be32(s.root_visual)[0],
        be32(s.root_visual)[1],
        be32(s.root_visual)[2],
        be32(s.root_visual)[3],
        s.backing_stores,
        (if s.save_unders {
            1u8
        } else {
            0u8
        }),
        s.root_depth,
        s.allowed_depths.len() as u8,
    ]);
    assert forall|k: int| 0 <= k < 40 implies b[i + k] == head[k] by {
        assert(b.subrange(i, i + w.len() as int)[k] == b[i + k]);
    }
    lemma_be32_roundtrip(s.root);
    lemma_be32_roundtrip(s.default_colormap);
    lemma_be32_roundtrip(s.white_pixel);
    lemma_be32_roundtrip(s.black_pixel);
    lemma_be32_roundtrip(s.current_input_masks);
    lemma_be16_roundtrip(s.width_pixels);
    lemma_be16_roundtrip(s.height_pixels);
    lemma_be16_roundtrip(s.width_millimeters);
    lemma_be16_roundtrip(s.height_millimeters);
    lemma_be16_roundtrip(s.min_installed_maps);
    lemma_be16_roundtrip(s.max_installed_maps);
    lemma_be32_roundtrip(s.root_visual);
    lemma_embedded_subrange(b, i, w, 40, w.len() as int);
    assert(w.subrange(40, w.len() as int) =~= dw);
    lemma_depths_roundtrip(b, i + 40, s.allowed_depths);
    assert(spec_screen_at(b, i).allowed_depths == s.allowed_depths);
}

/// The wire bytes of a run of screen records, in order.
pub open spec fn screens_wire(ss: Seq<ScreenModel>) -> Seq<u8>
    decreases ss.len(),
{
    if ss.len() == 0 {
        Seq::empty()
    } else {
        screen_wire(ss.first()) + screens_wire(ss.drop_first())
    }
}

/// Decoding a run of encoded screen records gives the run back,
/// consuming exactly its bytes.
pub proof fn lemma_screens_roundtrip(b: Seq<u8>, i: int, ss: Seq<ScreenModel>)
    requires
        0 <= i,
        forall|j: int| 0 <= j < ss.len() ==> wf_screen(#[trigger] ss[j]),
        i + screens_wire(ss).len() <= b.len(),
        b.subrange(i, i + screens_wire(ss).len()) == screens_wire(ss),
    ensures
        spec_screens_ok(b, i, ss.len()),
        spec_screens_at(b, i, ss.len()) == ss,
        spec_screens_end(b, i, ss.len()) == i + screens_wire(ss).len(),
    decreases ss.len(),
{
    reveal_with_fuel(spec_screens_ok, 2);
    reveal_with_fuel(spec_screens_at, 2);
    reveal_with_fuel(spec_screens_end, 2);
    if ss.len() > 0 {
        let w = screens_wire(ss);
        let head = screen_wire(ss.first());
        let restw = screens_wire(ss.drop_first());
        lemma_concat_split(head, restw);
        lemma_embedded_subrange(b, i, w, 0, head.len() as int);
        lemma_screen_roundtrip(b, i, ss.first());
        lemma_embedded_subrange(b, i, w, head.len() as int, w.len() as int);
        assert forall|j: int| 0 <= j < ss.drop_first().len() implies wf_screen(
            #[trigger] ss.drop_first()[j],
        ) by {
            assert(ss.drop_first()[j] == ss[j + 1]);
        }
        lemma_screens_roundtrip(b, i + head.len(), ss.drop_first());
        assert(spec_screens_at(b, i, ss.len()) =~= ss);
    } else {
        assert(spec_screens_at(b, i, 0) =~= ss);
    }
}

/// The 8 wire bytes of one pixmap format.
pub open spec fn format_wire(f: PixmapFormat) -> Seq<u8> {
    seq![f.depth, f.bits_per_pixel, f.scanline_pad] + zeros(5)
}

/// The wire bytes of a run of pixmap formats, in order.
pub open spec fn formats_wire(fs: Seq<PixmapFormat>) -> Seq<u8>
    decreases fs.len(),
{
    if fs.len() == 0 {
        Seq::empty()
    } else {
        format_wire(fs.first()) + formats_wire(fs.drop_first())
    }
}

pub proof fn lemma_formats_wire_len(fs: Seq<PixmapFormat>)
    ensures
        formats_wire(fs).len() == 8 * fs.len(),
    decreases fs.len(),
{
    if fs.len() > 0 {
        lemma_formats_wire_len(fs.drop_first());
    }
}

/// Decoding a run of encoded pixmap formats gives the run back.
pub proof fn lemma_formats_roundtrip(b: Seq<u8>, i: int, fs: Seq<PixmapFormat>)
    requires
        0 <= i,
        i + 8 * fs.len() <= b.len(),
        b.subrange(i, i + 8 * fs.len()) == formats_wire(fs),
    ensures
        spec_formats_at(b, i, fs.len() as int) == fs,
    decreases fs.len(),
{
    lemma_formats_wire_len(fs);
    if fs.len() > 0 {
        let w = formats_wire(fs);
        let f0 = fs.first();
        let head = format_wire(f0);
        let restw = formats_wire(fs.drop_first());
        lemma_formats_wire_len(fs.drop_first());
        lemma_concat_split(head, restw);
        lemma_embedded_subrange(b, i, w, 0, 8);
        assert(head =~= seq![f0.depth, f0.bits_per_pixel, f0.scanline_pad, 0u8, 0u8, 0u8, 0u8, 0u8]);
        assert forall|k: int| 0 <= k < 8 implies b[i + k] == head[k] by {
            assert(b.subrange(i, i + 8)[k] == b[i + k]);
        }
        assert(spec_format_at(b, i) == f0);
        lemma_embedded_subrange(b, i, w, 8, w.len() as int);
        lemma_formats_roundtrip(b, i + 8, fs.drop_first());
        assert(spec_formats_at(b, i, fs.len() as int) =~= fs) by {
            assert forall|k: int| 0 <= k < fs.len() implies spec_formats_at(
                b,
                i,
                fs.len() as int,
            )[k] == fs[k] by {
                if k > 0 {
                    assert(spec_formats_at(b, i + 8, fs.drop_first().len() as int)[k - 1]
                        == fs.drop_first()[k - 1]);
                    assert(i + 8 + 8 * (k - 1) == i + 8 * k);
                }
            }
        }
    } else {
        assert(spec_formats_at(b, i, 0) =~= fs);
    }
}

/// The counts and the vendor length of an announcement must fit their
/// wire fields, and each screen must itself be well formed.
pub open spec fn wf_server_init(m: ServerInitModel) -> bool {
    &&& encode_utf8(m.vendor).len() <= 0xffff
    &&& m.pixmap_formats.len() <= 0xff
    &&& m.roots.len() <= 0xff
    &&& forall|j: int| 0 <= j < m.roots.len() ==> wf_screen(#[trigger] m.roots[j])
}

/// The 40 header bytes of a successful announcement, including the
/// additional-data length in 4-byte units.
pub open spec fn server_init_header(m: ServerInitModel) -> Seq<u8> {
    let vb = encode_utf8(m.vendor);
    let body = 32 + vb.len() + pad4(vb.len() as int) + 8 * m.pixmap_formats.len()
        + screens_wire(m.roots).len();
    seq![1u8, 0u8] + be16(m.major) + be16(m.minor) + be16((body / 4) as u16) + be32(
        m.release_number,
    ) + be32(m.resource_id_base) + be32(m.resource_id_mask) + be32(m.motion_buffer_size) + be16(
        vb.len() as u16,
    ) + be16(m.maximum_request_length) + seq![
        m.roots.len() as u8,
        m.pixmap_formats.len() as u8,
        m.image_byte_order,
        m.bitmap_format_bit_order,
        m.bitmap_format_scanline_unit,
        m.bitmap_format_scanline_pad,
        m.min_keycode,
        m.max_keycode,
    ] + zeros(4)
}

/// The full wire form of a successful capability announcement: header,
/// padded vendor string, pixmap formats, screens.
pub open spec fn server_init_wire(m: ServerInitModel) -> Seq<u8> {
    let vb = encode_utf8(m.vendor);
    server_init_header(m) + vb + zeros(pad4(vb.len() as int)) + formats_wire(m.pixmap_formats)
        + screens_wire(m.roots)
}

/// Decoding an encoded capability announcement — any number of screens,
/// each with its depths and visuals, any vendor length — gives back
/// every record and field, and consumes exactly the encoded bytes.
/// Together with the parser's own contract this is the announcement
/// round trip: a stream holding `server_init_wire(m)` decodes to `m`.
#[verifier::spinoff_prover]
#[verifier::rlimit(100)]
pub proof fn lemma_server_init_roundtrip(b: Seq<u8>, i: int, m: ServerInitModel)
    requires
        0 <= i,
        wf_server_init(m),
        i + server_init_wire(m).len() <= b.len(),
        b.subrange(i, i + server_init_wire(m).len()) == server_init_wire(m),
    ensures
        i < b.len() && b[i] == 1,
        spec_server_init_ok(b, i),
        vstd::utf8::valid_utf8(spec_vendor_bytes(b, i)),
        spec_server_init_at(b, i) == m,
        spec_server_init_end(b, i) == i + server_init_wire(m).len(),
{
    let w = server_init_wire(m);
    let hd = server_init_header(m);
    let vb = encode_utf8(m.vendor);
    let vpad = pad4(vb.len() as int);
    let fw = formats_wire(m.pixmap_formats);
    let sw = screens_wire(m.roots);
    let body = 32 + vb.len() + pad4(vb.len() as int) + 8 * m.pixmap_formats.len()
        + screens_wire(m.roots).len();
    lemma_formats_wire_len(m.pixmap_formats);
    // Peel the four variable-length pieces off the right.
    let p3 = hd + vb + zeros(vpad) + fw;
    let p2 = hd + vb + zeros(vpad);
    let p1 = hd + vb;
    lemma_concat_split(p3, sw);
    lemma_concat_split(p2, fw);
    lemma_concat_split(p1, zeros(vpad));
    lemma_concat_split(hd, vb);
    lemma_embedded_subrange(w, 0, p3, 0, p2.len() as int);
    lemma_embedded_subrange(w, 0, p2, 0, p1.len() as int);
    lemma_embedded_subrange(w, 0, p1, 0, hd.len() as int);
    lemma_embedded_subrange(w, 0, p1, hd.len() as int, p1.len() as int);
    lemma_embedded_subrange(w, 0, p2, p1.len() as int, p2.len() as int);
    lemma_embedded_subrange(w, 0, p3, p2.len() as int, p3.len() as int);
    // Place each piece inside the surrounding buffer.
    lemma_embedded_subrange(b, i, w, 0, 40);
    lemma_embedded_subrange(b, i, w, 40, 40 + vb.len() as int);
    lemma_embedded_subrange(
        b,
        i,
        w,
        40 + vb.len() + vpad,
        40 + vb.len() + vpad + 8 * m.pixmap_formats.len(),
    );
    lemma_embedded_subrange(
        b,
        i,
        w,
        40 + vb.len() + vpad + 8 * m.pixmap_formats.len(),
        w.len() as int,
    );
    // The header bytes, one by one.
    assert(hd =~= seq![
        1u8,
        0u8,
        be16(m.major)[0],
        be16(m.major)[1],
        be16(m.minor)[0],
        be16(m.minor)[1],
        be16((body / 4) as u16)[0],
        be16((body / 4) as u16)[1],
        be32(m.release_number)[0],
        be32(m.release_number)[1],
        be32(m.release_number)[2],
        be32(m.release_number)[3],
        be32(m.resource_id_base)[0],
        be32(m.resource_id_base)[1],
        be32(m.resource_id_base)[2],
        be32(m.resource_id_base)[3],
        be32(m.resource_id_mask)[0],
        be32(m.resource_id_mask)[1],
        be32(m.resource_id_mask)[2],
        be32(m.resource_id_mask)[3],
        be32(m.motion_buffer_size)[0],
        be32(m.motion_buffer_size)[1],
        be32(m.motion_buffer_size)[2],
        be32(m.motion_buffer_size)[3],
        be16(vb.len() as u16)[0],
        be16(vb.len() as u16)[1],
        be16(m.maximum_request_length)[0],
        be16(m.maximum_request_length)[1],
        m.roots.len() as u8,
        m.pixmap_formats.len() as u8,
        m.image_byte_order,
        m.bitmap_format_bit_order,
        m.bitmap_format_scanline_unit,
        m.bitmap_format_scanline_pad,
        m.min_keycode,
        m.max_keycode,
        0u8,
        0u8,
        0u8,
        0u8,
    ]);
    assert forall|k: int| 0 <= k < 40 implies b[i + k] == hd[k] by {
        assert(b.subrange(i, i + 40)[k] == b[i + k]);
    }
    lemma_be16_roundtrip(m.major);
    lemma_be16_roundtrip(m.minor);
    lemma_be32_roundtrip(m.release_number);
    lemma_be32_roundtrip(m.resource_id_base);
    lemma_be32_roundtrip(m.resource_id_mask);
    lemma_be32_roundtrip(m.motion_buffer_size);
    lemma_be16_roundtrip(vb.len() as u16);
    lemma_be16_roundtrip(m.maximum_request_length);
    assert(spec_vendor_len(b, i) == vb.len());
    assert(spec_formats_start(b, i) == i + 40 + vb.len() + vpad);
    assert(spec_screens_start(b, i) == i + 40 + vb.len() + vpad + 8 * m.pixmap_formats.len());
    // Vendor: the bytes come back, they are valid UTF-8, and they decode
    // to the vendor characters.
    assert(spec_vendor_bytes(b, i) == vb);
    encode_utf8_valid_utf8(m.vendor);
    encode_utf8_decode_utf8(m.vendor);
    // Formats and screens.
    lemma_formats_roundtrip(b, i + 40 + vb.len() + vpad, m.pixmap_formats);
    lemma_screens_roundtrip(b, spec_screens_start(b, i), m.roots);
}

} // verus!
