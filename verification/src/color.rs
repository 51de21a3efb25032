//! Packed YUYV 4:2:2 to interleaved 8-bit BGR conversion (BT.601, studio range).

use vstd::prelude::*;

verus! {

/// Clamps an integer to the range of one 8-bit channel.
pub open spec fn clamp_channel(v: int) -> int {
    if v < 0 {
        0
    } else if v > 255 {
        255
    } else {
        v
    }
}

/// Blue channel for luma `y` and chroma `u`.
pub open spec fn blue_of(y: int, u: int) -> int {
    clamp_channel((298 * (y - 16) + 516 * (u - 128) + 128) / 256)
}

/// Green channel for luma `y` and chroma `u`, `v`.
pub open spec fn green_of(y: int, u: int, v: int) -> int {
    clamp_channel((298 * (y - 16) - 100 * (u - 128) - 208 * (v - 128) + 128) / 256)
}

/// Red channel for luma `y` and chroma `v`.
pub open spec fn red_of(y: int, v: int) -> int {
    clamp_channel((298 * (y - 16) + 409 * (v - 128) + 128) / 256)
}

/// The six output bytes of one macropixel `(y1, u, y2, v)`, in the order
/// blue, green, red of the first pixel, then of the second.
pub open spec fn pair_byte(y1: int, u: int, y2: int, v: int, k: int) -> int {
    if k == 0 {
        blue_of(y1, u)
    } else if k == 1 {
        green_of(y1, u, v)
    } else if k == 2 {
        red_of(y1, v)
    } else if k == 3 {
        blue_of(y2, u)
    } else if k == 4 {
        green_of(y2, u, v)
    } else {
        red_of(y2, v)
    }
}

/// Length of the converted buffer: three bytes out for every two bytes in.
pub open spec fn converted_len(n: nat) -> nat {
    (n * 3 / 2) as nat
}

/// Byte `k` of the conversion of `yuyv`. Every complete four-byte
/// macropixel yields six bytes; whatever lies behind the last complete
/// macropixel is zero.
pub open spec fn converted_byte(yuyv: Seq<u8>, k: int) -> u8 {
    let g = k / 6;
    if 0 <= k && g < yuyv.len() as int / 4 {
        pair_byte(
            yuyv[4 * g] as int,
            yuyv[4 * g + 1] as int,
            yuyv[4 * g + 2] as int,
            yuyv[4 * g + 3] as int,
            k % 6,
        ) as u8
    } else {
        0u8
    }
}

/// The conversion as a function of the input bytes alone.
pub open spec fn spec_yuyv422_to_rgb(yuyv: Seq<u8>) -> Seq<u8> {
    Seq::new(converted_len(yuyv.len()), |k: int| converted_byte(yuyv, k))
}

fn scale_channel(v: i32) -> (c: u8)
    requires
        -1_000_000 <= v <= 1_000_000,
    ensures
        c as int == clamp_channel(v as int / 256),
{
    let s: i32 = v >> 8;
    assert(s == v as int / 256) by (bit_vector)
        requires
            s == v >> 8,
            -1_000_000 <= v <= 1_000_000,
    ;
    if s < 0 {
        0
    } else if s > 255 {
        255
    } else {
        s as u8
    }
}

fn convert_pair(y1: u8, u: u8, y2: u8, v: u8) -> (out: (u8, u8, u8, u8, u8, u8))
    ensures
        out.0 == pair_byte(y1 as int, u as int, y2 as int, v as int, 0),
        out.1 == pair_byte(y1 as int, u as int, y2 as int, v as int, 1),
        out.2 == pair_byte(y1 as int, u as int, y2 as int, v as int, 2),
        out.3 == pair_byte(y1 as int, u as int, y2 as int, v as int, 3),
        out.4 == pair_byte(y1 as int, u as int, y2 as int, v as int, 4),
        out.5 == pair_byte(y1 as int, u as int, y2 as int, v as int, 5),
{
    let c1: i32 = y1 as i32 - 16;
    let c2: i32 = y2 as i32 - 16;
    let d: i32 = u as i32 - 128;
    let e: i32 = v as i32 - 128;

    let b1: u8 = scale_channel(298 * c1 + 516 * d + 128);
    let g1: u8 = scale_channel(298 * c1 - 100 * d - 208 * e + 128);
    let r1: u8 = scale_channel(298 * c1 + 409 * e + 128);
    let b2: u8 = scale_channel(298 * c2 + 516 * d + 128);
    let g2: u8 = scale_channel(298 * c2 - 100 * d - 208 * e + 128);
    let r2: u8 = scale_channel(298 * c2 + 409 * e + 128);
    (b1, g1, r1, b2, g2, r2)
}

proof fn lemma_position_in_pair(g: int, r: int)
    requires
        0 <= g,
        0 <= r < 6,
    ensures
        (6 * g + r) / 6 == g,
        (6 * g + r) % 6 == r,
{
}

/// Converts packed YUYV 4:2:2 bytes to interleaved 8-bit pixels, blue first.
///
/// The result depends on the input bytes only, so equal inputs always give
/// equal outputs.
pub fn yuyv422_to_rgb(yuyv: &[u8]) -> (rgb: Vec<u8>)
    ensures
        rgb@ == spec_yuyv422_to_rgb(yuyv@),
{
    let groups: usize = yuyv.len() / 4;
    let mut rgb: Vec<u8> = Vec::new();
    let mut i: usize = 0;
    while i < groups
        invariant
            groups == yuyv.len() / 4,
            i <= groups,
            rgb.len() == 6 * i,
            forall|k: int| 0 <= k < rgb.len() ==> rgb@[k] == converted_byte(yuyv@, k),
        decreases groups - i,
    {
        let (b1, g1, r1, b2, g2, r2) = convert_pair(
            yuyv[i * 4],
            yuyv[i * 4 + 1],
            yuyv[i * 4 + 2],
            yuyv[i * 4 + 3],
        );
        let ghost before = rgb@;
        rgb.push(b1);
        rgb.push(g1);
        rgb.push(r1);
        rgb.push(b2);
        rgb.push(g2);
        rgb.push(r2);
        proof {
            assert forall|k: int| 0 <= k < rgb.len() implies rgb@[k] == converted_byte(
                yuyv@,
                k,
            ) by {
                if k < before.len() {
                    assert(rgb@[k] == before[k]);
                } else {
                    lemma_position_in_pair(i as int, k - 6 * i);
                }
            }
        }
        i = i + 1;
    }
    let rest: usize = yuyv.len() % 4;
    let tail: usize = rest + rest / 2;
    let mut j: usize = 0;
    while j < tail
        invariant
            groups == yuyv.len() / 4,
            j <= tail,
            rgb.len() == 6 * groups + j,
            forall|k: int| 0 <= k < rgb.len() ==> rgb@[k] == converted_byte(yuyv@, k),
        decreases tail - j,
    {
        let ghost before = rgb@;
        rgb.push(0u8);
        proof {
            assert forall|k: int| 0 <= k < rgb.len() implies rgb@[k] == converted_byte(
                yuyv@,
                k,
            ) by {
                if k < before.len() {
                    assert(rgb@[k] == before[k]);
                } else {
                    assert(k / 6 >= groups as int);
                }
            }
        }
        j = j + 1;
    }
    assert(rgb.len() == converted_len(yuyv@.len()));
    assert(rgb@ =~= spec_yuyv422_to_rgb(yuyv@));
    rgb
}

/// The conversion is a function of the input bytes: equal inputs have
/// equal outputs, byte for byte.
pub proof fn lemma_equal_inputs_give_equal_outputs(a: Seq<u8>, b: Seq<u8>)
    requires
        a == b,
    ensures
        spec_yuyv422_to_rgb(a) == spec_yuyv422_to_rgb(b),
        spec_yuyv422_to_rgb(a).len() == converted_len(a.len()),
{
}

/// With neutral chroma the three channels of a pixel are equal: a gray
/// input stays gray.
pub proof fn lemma_neutral_chroma_is_gray(y: int)
    ensures
        blue_of(y, 128) == green_of(y, 128, 128),
        green_of(y, 128, 128) == red_of(y, 128),
{
}

/// Every pixel of a buffer whose chroma bytes (the odd positions) are all
/// 128 has three equal channels.
pub proof fn lemma_gray_input_gives_gray_output(yuyv: Seq<u8>, p: int)
    requires
        forall|k: int| 0 <= k < yuyv.len() && k % 2 == 1 ==> yuyv[k] == 128,
        0 <= p < 2 * (yuyv.len() as int / 4),
    ensures
        spec_yuyv422_to_rgb(yuyv)[3 * p] == spec_yuyv422_to_rgb(yuyv)[3 * p + 1],
        spec_yuyv422_to_rgb(yuyv)[3 * p + 1] == spec_yuyv422_to_rgb(yuyv)[3 * p + 2],
{
    let g = p / 2;
    assert((3 * p) / 6 == g);
    assert((3 * p + 1) / 6 == g);
    assert((3 * p + 2) / 6 == g);
    assert(yuyv[4 * g + 1] == 128 && yuyv[4 * g + 3] == 128);
    if p % 2 == 0 {
        assert((3 * p) % 6 == 0);
        assert((3 * p + 1) % 6 == 1);
        assert((3 * p + 2) % 6 == 2);
        lemma_neutral_chroma_is_gray(yuyv[4 * g] as int);
    } else {
        assert((3 * p) % 6 == 3);
        assert((3 * p + 1) % 6 == 4);
        assert((3 * p + 2) % 6 == 5);
        lemma_neutral_chroma_is_gray(yuyv[4 * g + 2] as int);
    }
}

} // verus!
