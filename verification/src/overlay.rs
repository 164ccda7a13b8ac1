//! Painting one image over a buffer of pixels.

use vstd::prelude::*;
use vstd::arithmetic::div_mod::{lemma_fundamental_div_mod, lemma_fundamental_div_mod_converse};
use crate::raster::RasterImage;

verus! {

/// Byte `k` of a target buffer is painted: it belongs to a pixel that the
/// buffer holds in full and that the source, put at `(ox, oy)`, covers, and
/// it is one of the pixel's colour channels, or its alpha where pixels have
/// exactly four channels. The target's rows are `tw` pixels of `cc` bytes.
pub open spec fn overlay_covers(
    len: int,
    tw: int,
    cc: int,
    sw: int,
    sh: int,
    ox: int,
    oy: int,
    k: int,
) -> bool {
    &&& tw > 0
    &&& (k / cc + 1) * cc <= len
    &&& ox <= (k / cc) % tw < ox + sw
    &&& oy <= (k / cc) / tw < oy + sh
    &&& (k % cc < 3 || (k % cc == 3 && cc == 4))
}

/// The value that painting gives byte `k`: the source's channel where the
/// byte is painted, the old value elsewhere.
pub open spec fn overlaid_byte(
    before: Seq<u8>,
    tw: int,
    cc: int,
    source: RasterImage,
    ox: int,
    oy: int,
    rows: int,
    k: int,
) -> u8 {
    if overlay_covers(before.len() as int, tw, cc, source.width as int, rows, ox, oy, k) {
        source.channel((k / cc) % tw - ox, (k / cc) / tw - oy, k % cc)
    } else {
        before[k]
    }
}

/// The target after the first `rows` rows of the source are painted.
pub open spec fn overlaid(
    before: Seq<u8>,
    tw: int,
    cc: int,
    source: RasterImage,
    ox: int,
    oy: int,
    rows: int,
) -> Seq<u8> {
    Seq::new(before.len(), |k: int| overlaid_byte(before, tw, cc, source, ox, oy, rows, k))
}

/// The target while row `y` of the source is painted, up to column `x`.
spec fn painting(
    before: Seq<u8>,
    tw: int,
    cc: int,
    source: RasterImage,
    ox: int,
    oy: int,
    x: int,
    y: int,
) -> Seq<u8> {
    Seq::new(
        before.len(),
        |k: int|
            if overlay_covers(before.len() as int, tw, cc, source.width as int, y + 1, ox, oy, k)
                && ((k / cc) / tw < oy + y || (k / cc) % tw < ox + x) {
                source.channel((k / cc) % tw - ox, (k / cc) / tw - oy, k % cc)
            } else {
                before[k]
            },
    )
}

/// Byte `c` of pixel `tx` of row `ty` is byte `k`, and no other pixel's.
proof fn lemma_byte_of_pixel(k: int, cc: int, tw: int, tx: int, ty: int, c: int)
    requires
        0 <= c < cc,
        0 <= tx < tw,
        0 <= ty,
        k == (ty * tw + tx) * cc + c,
    ensures
        k / cc == ty * tw + tx,
        k % cc == c,
        (k / cc) % tw == tx,
        (k / cc) / tw == ty,
{
    lemma_fundamental_div_mod_converse(k, cc, ty * tw + tx, c);
    lemma_fundamental_div_mod_converse(ty * tw + tx, tw, ty, tx);
}

/// A byte is byte `k % cc` of pixel `(k / cc) % tw` of row `(k / cc) / tw`.
proof fn lemma_pixel_of_byte(k: int, cc: int, tw: int)
    requires
        0 <= k,
        cc > 0,
        tw > 0,
    ensures
        k == (((k / cc) / tw) * tw + (k / cc) % tw) * cc + k % cc,
        0 <= k % cc < cc,
        0 <= (k / cc) % tw < tw,
        0 <= (k / cc) / tw,
        0 <= k / cc,
{
    lemma_fundamental_div_mod(k, cc);
    lemma_fundamental_div_mod(k / cc, tw);
    assert(k / cc >= 0) by (nonlinear_arith)
        requires
            k >= 0,
            cc > 0,
    ;
    assert((k / cc) / tw >= 0) by (nonlinear_arith)
        requires
            k / cc >= 0,
            tw > 0,
    ;
    assert(cc * (k / cc) == (k / cc) * cc) by (nonlinear_arith);
    assert(tw * ((k / cc) / tw) == ((k / cc) / tw) * tw) by (nonlinear_arith);
}

/// Paints `source` over `target`, its top left pixel at column `offset_x` of
/// row `offset_y`. The target's rows are `target_width` pixels wide and a
/// pixel has `channel_count` bytes, the colours first. Source pixels that
/// fall right of the target's rows, or on pixels that the buffer does not
/// hold in full, are dropped. Alpha is copied where pixels have four bytes.
pub fn overlay_image(
    target: &mut Vec<u8>,
    target_width: usize,
    source: &RasterImage,
    offset_x: usize,
    offset_y: usize,
    channel_count: usize,
)
    requires
        source.wf(),
        channel_count >= 3,
    ensures
        final(target)@ == overlaid(
            old(target)@,
            target_width as int,
            channel_count as int,
            *source,
            offset_x as int,
            offset_y as int,
            source.height as int,
        ),
{
    let ghost before = target@;
    let ghost tw = target_width as int;
    let ghost cc = channel_count as int;
    let ghost ox = offset_x as int;
    let ghost oy = offset_y as int;
    let len: usize = target.len();
    let capacity: usize = len / channel_count;
    let mut y: u32 = 0;
    assert(target@ =~= painting(before, tw, cc, *source, ox, oy, 0, 0));
    while y < source.height
        invariant
            source.wf(),
            channel_count >= 3,
            tw == target_width,
            cc == channel_count,
            ox == offset_x,
            oy == offset_y,
            len == before.len(),
            capacity == len / channel_count,
            y <= source.height,
            target@ == painting(before, tw, cc, *source, ox, oy, 0, y as int),
        decreases source.height - y,
    {
        let mut x: u32 = 0;
        while x < source.width
            invariant
                source.wf(),
                channel_count >= 3,
                tw == target_width,
                cc == channel_count,
                ox == offset_x,
                oy == offset_y,
                len == before.len(),
                capacity == len / channel_count,
                y < source.height,
                x <= source.width,
                target@ == painting(before, tw, cc, *source, ox, oy, x as int, y as int),
            decreases source.width - x,
        {
            let ghost prev = target@;
            let tx: u128 = offset_x as u128 + x as u128;
            let ty: u128 = offset_y as u128 + y as u128;
            let ghost mut wrote = false;
            if tx < target_width as u128 && ty <= capacity as u128 {
                assert(capacity <= len) by (nonlinear_arith)
                    requires
                        capacity == len / channel_count,
                        channel_count >= 3,
                ;
                assert(0 <= (ty as int) * tw <= 0xffff_ffff_ffff_ffff * 0xffff_ffff_ffff_ffff)
                    by (nonlinear_arith)
                    requires
                        0 <= ty <= 0xffff_ffff_ffff_ffff,
                        0 <= tw <= 0xffff_ffff_ffff_ffff,
                ;
                let pixel: u128 = ty * (target_width as u128) + tx;
                if pixel < capacity as u128 {
                    proof {
                        lemma_fundamental_div_mod(len as int, cc);
                        assert((pixel + 1) * cc <= len) by (nonlinear_arith)
                            requires
                                pixel + 1 <= len as int / cc,
                                len == cc * (len as int / cc) + len as int % cc,
                                0 <= len as int % cc,
                                cc > 0,
                        ;
                        assert(pixel * cc + cc == (pixel + 1) * cc) by (nonlinear_arith);
                        assert(0 <= pixel * cc) by (nonlinear_arith)
                            requires
                                0 <= pixel,
                                0 < cc,
                        ;
                        wrote = true;
                    }
                    let at: usize = (pixel as usize) * channel_count;
                    target.set(at, source.get(x, y, 0));
                    target.set(at + 1, source.get(x, y, 1));
                    target.set(at + 2, source.get(x, y, 2));
                    if channel_count == 4 {
                        target.set(at + 3, source.get(x, y, 3));
                    }
                }
            }
            proof {
                let next = painting(before, tw, cc, *source, ox, oy, x + 1, y as int);
                assert forall|k: int| 0 <= k < len implies target@[k] == next[k] by {
                    if tw > 0 {
                        lemma_pixel_of_byte(k, cc, tw);
                    }
                    let here = tw > 0 && (k / cc) % tw == ox + x && (k / cc) / tw == oy + y;
                    if here {
                        let p = (oy + y) * tw + (ox + x);
                        assert(k / cc == p) by {
                            lemma_byte_of_pixel(k, cc, tw, ox + x, oy + y, k % cc);
                        }
                        if (p + 1) * cc <= len {
                            // The pixel lies inside the buffer, so it was written.
                            lemma_fundamental_div_mod(len as int, cc);
                            assert(p + 1 <= len as int / cc) by (nonlinear_arith)
                                requires
                                    (p + 1) * cc <= len,
                                    len == cc * (len as int / cc) + len as int % cc,
                                    len as int % cc < cc,
                                    cc > 0,
                            ;
                            assert((oy + y) <= p) by (nonlinear_arith)
                                requires
                                    p == (oy + y) * tw + (ox + x),
                                    tw > 0,
                                    oy + y >= 0,
                                    ox + x >= 0,
                            ;
                            assert(wrote);
                            assert(k == p * cc + k % cc);
                        } else {
                            assert(!wrote) by {
                                if wrote {
                                    assert((p + 1) * cc <= len);
                                }
                            }
                        }
                    } else {
                        if wrote {
                            let p = (oy + y) * tw + (ox + x);
                            if p * cc <= k < p * cc + cc {
                                lemma_byte_of_pixel(k, cc, tw, ox + x, oy + y, k - p * cc);
                            }
                        }
                        assert(target@[k] == prev[k]);
                    }
                }
                assert(target@ =~= next);
            }
            x = x + 1;
        }
        assert(painting(before, tw, cc, *source, ox, oy, source.width as int, y as int)
            =~= painting(before, tw, cc, *source, ox, oy, 0, y + 1));
        y = y + 1;
    }
    assert(painting(before, tw, cc, *source, ox, oy, 0, source.height as int) =~= overlaid(
        before,
        tw,
        cc,
        *source,
        ox,
        oy,
        source.height as int,
    ));
}

} // verus!
