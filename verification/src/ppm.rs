//! Plain-text PPM image emission, byte for byte: header `P3`, the image
//! size, the maximum channel value `255`, then one `r g b` line per pixel,
//! rows top to bottom.

use vstd::prelude::*;

verus! {

/// Decimal digits of `n`, most significant first.
pub open spec fn dec_s(n: int) -> Seq<u8>
    recommends
        n >= 0,
    decreases n,
{
    if n < 10 {
        seq![(48 + n) as u8]
    } else {
        dec_s(n / 10).push((48 + n % 10) as u8)
    }
}

/// One pixel line: `r g b` followed by a newline.
pub open spec fn pixel_line_s(p: (u8, u8, u8)) -> Seq<u8> {
    dec_s(p.0 as int) + seq![32u8] + dec_s(p.1 as int) + seq![32u8] + dec_s(p.2 as int)
        + seq![10u8]
}

/// All pixel lines, in order.
pub open spec fn pixel_lines_s(px: Seq<(u8, u8, u8)>) -> Seq<u8>
    decreases px.len(),
{
    if px.len() == 0 {
        Seq::empty()
    } else {
        pixel_line_s(px[0]) + pixel_lines_s(px.skip(1))
    }
}

/// The whole file: `P3\n<width> <height>\n255\n` then the pixel lines.
pub open spec fn ppm_bytes_s(width: int, height: int, px: Seq<(u8, u8, u8)>) -> Seq<u8> {
    seq![80u8, 51u8, 10u8] + dec_s(width) + seq![32u8] + dec_s(height) + seq![10u8] + seq![
        50u8,
        53u8,
        53u8,
        10u8,
    ] + pixel_lines_s(px)
}

/// Append the decimal digits of `n`.
pub fn push_dec(out: &mut Vec<u8>, n: u32)
    ensures
        final(out)@ == old(out)@ + dec_s(n as int),
    decreases n,
{
    if n >= 10 {
        push_dec(out, n / 10);
    }
    out.push(48 + (n % 10) as u8);
    proof {
        assert(out@ =~= old(out)@ + dec_s(n as int));
    }
}

/// Emit the PPM text for an image of known pixels.
pub fn write_ppm(width: u32, height: u32, px: &Vec<(u8, u8, u8)>) -> (out: Vec<u8>)
    ensures
        out@ == ppm_bytes_s(width as int, height as int, px@),
{
    let mut out: Vec<u8> = Vec::new();
    out.push(80);
    out.push(51);
    out.push(10);
    push_dec(&mut out, width);
    out.push(32);
    push_dec(&mut out, height);
    out.push(10);
    out.push(50);
    out.push(53);
    out.push(53);
    out.push(10);
    let ghost prefix: Seq<u8> = out@;
    let mut i: usize = 0;
    while i < px.len()
        invariant
            i <= px@.len(),
            prefix == seq![80u8, 51u8, 10u8] + dec_s(width as int) + seq![32u8] + dec_s(
                height as int,
            ) + seq![10u8] + seq![50u8, 53u8, 53u8, 10u8],
            out@ == prefix + pixel_lines_s(px@.take(i as int)),
        decreases px@.len() - i,
    {
        let p: (u8, u8, u8) = px[i];
        push_dec(&mut out, p.0 as u32);
        out.push(32);
        push_dec(&mut out, p.1 as u32);
        out.push(32);
        push_dec(&mut out, p.2 as u32);
        out.push(10);
        proof {
            lemma_pixel_lines_snoc(px@, i as int);
            assert(out@ =~= prefix + pixel_lines_s(px@.take(i as int + 1)));
        }
        i = i + 1;
    }
    proof {
        assert(px@.take(px@.len() as int) =~= px@);
        assert(out@ =~= ppm_bytes_s(width as int, height as int, px@));
    }
    out
}

/// Appending one pixel extends the emitted lines by exactly its line.
proof fn lemma_pixel_lines_snoc(px: Seq<(u8, u8, u8)>, i: int)
    requires
        0 <= i < px.len(),
    ensures
        pixel_lines_s(px.take(i + 1)) == pixel_lines_s(px.take(i)) + pixel_line_s(px[i]),
    decreases i,
{
    if i == 0 {
        assert(px.take(1)[0] == px[0]);
        assert(px.take(1).len() == 1);
        assert(px.take(1).skip(1) =~= Seq::<(u8, u8, u8)>::empty());
        assert(pixel_lines_s(Seq::<(u8, u8, u8)>::empty()) == Seq::<u8>::empty());
        assert(pixel_lines_s(px.take(1)) =~= pixel_line_s(px[0]) + Seq::<u8>::empty());
        assert(pixel_line_s(px[0]) + Seq::<u8>::empty() =~= pixel_line_s(px[0]));
        assert(pixel_lines_s(px.take(0)) =~= Seq::<u8>::empty());
        assert(pixel_lines_s(px.take(0)) + pixel_line_s(px[0]) =~= pixel_line_s(px[0]));
    } else {
        lemma_pixel_lines_snoc(px.skip(1), i - 1);
        assert(px.take(i + 1).skip(1) =~= px.skip(1).take(i));
        assert(px.take(i).skip(1) =~= px.skip(1).take(i - 1));
        assert(px.take(i + 1)[0] == px[0]);
        assert(px.take(i)[0] == px[0]);
        assert(px.skip(1)[i - 1] == px[i]);
        assert(pixel_lines_s(px.take(i + 1)) == pixel_line_s(px[0]) + pixel_lines_s(
            px.skip(1).take(i),
        ));
        assert(pixel_lines_s(px.take(i)) == pixel_line_s(px[0]) + pixel_lines_s(
            px.skip(1).take(i - 1),
        ));
        assert(pixel_line_s(px[0]) + (pixel_lines_s(px.skip(1).take(i - 1)) + pixel_line_s(px[i]))
            =~= (pixel_line_s(px[0]) + pixel_lines_s(px.skip(1).take(i - 1))) + pixel_line_s(
            px[i],
        ));
    }
}

} // verus!
