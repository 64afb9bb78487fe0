//! Page favicons: the engine hands over an RGBA8 or BGRA8 image; the tab bar takes RGBA8 bytes.

use vstd::prelude::*;

verus! {

/// Pixel layout of a decoded favicon.
#[derive(Debug, Clone, Copy, PartialEq, Eq)]
pub enum PixelFormat {
    Rgba8,
    Bgra8,
    /// Any other layout (not shown).
    Other,
}

/// The byte at `i` of the RGBA8 image made from `data`: with `swap_rb` the red and blue bytes of
/// each 4-byte pixel trade places.
pub open spec fn rgba_byte(data: Seq<u8>, i: int, swap_rb: bool) -> u8 {
    if swap_rb && i % 4 == 0 {
        data[i + 2]
    } else if swap_rb && i % 4 == 2 {
        data[i - 2]
    } else {
        data[i]
    }
}

/// The RGBA8 bytes of a `width` x `height` favicon in `format` whose bytes are `data`: `None` for
/// an empty image, an unsupported layout, a size that overflows, or too few bytes; otherwise the
/// first `width * height * 4` bytes, with red and blue swapped for BGRA8.
pub open spec fn favicon_rgba_of(width: u32, height: u32, format: PixelFormat, data: Seq<u8>) -> Option<Seq<u8>> {
    let n = width * height * 4;
    if width == 0 || height == 0 || format == PixelFormat::Other || n > usize::MAX || data.len() < n {
        None
    } else {
        Some(Seq::new(n as nat, |i: int| rgba_byte(data, i, format == PixelFormat::Bgra8)))
    }
}

/// Converts a favicon to RGBA8 bytes for the tab bar (see [`favicon_rgba_of`]).
pub fn favicon_rgba(width: u32, height: u32, format: PixelFormat, data: &[u8]) -> (out: Option<Vec<u8>>)
    ensures
        match favicon_rgba_of(width, height, format, data@) {
            None => out is None,
            Some(bytes) => out matches Some(v) && v@ == bytes,
        },
{
    if width == 0 || height == 0 {
        return None;
    }
    let swap_rb = match format {
        PixelFormat::Rgba8 => false,
        PixelFormat::Bgra8 => true,
        PixelFormat::Other => {
            return None;
        },
    };
    let w = width as usize;
    let h = height as usize;
    let wh = match w.checked_mul(h) {
        Some(v) => v,
        None => {
            proof {
                vstd::arithmetic::mul::lemma_mul_inequality(h as int, (h * 4) as int, w as int);
                vstd::arithmetic::mul::lemma_mul_is_associative(w as int, h as int, 4);
            }
            return None;
        },
    };
    let expected = match wh.checked_mul(4) {
        Some(v) => v,
        None => {
            proof {
                vstd::arithmetic::mul::lemma_mul_is_associative(w as int, h as int, 4);
            }
            return None;
        },
    };
    proof {
        vstd::arithmetic::mul::lemma_mul_is_associative(w as int, h as int, 4);
    }
    if data.len() < expected {
        return None;
    }
    let ghost target = Seq::new(expected as nat, |i: int| rgba_byte(data@, i, swap_rb));
    let mut out: Vec<u8> = Vec::with_capacity(expected);
    let mut i: usize = 0;
    while i < expected
        invariant
            expected <= data@.len(),
            expected % 4 == 0,
            i % 4 == 0,
            i <= expected,
            target == Seq::new(expected as nat, |k: int| rgba_byte(data@, k, swap_rb)),
            out@ == target.take(i as int),
        decreases expected - i,
    {
        let (r, g, b, a) = if swap_rb {
            (data[i + 2], data[i + 1], data[i], data[i + 3])
        } else {
            (data[i], data[i + 1], data[i + 2], data[i + 3])
        };
        out.push(r);
        out.push(g);
        out.push(b);
        out.push(a);
        proof {
            assert((i + 1) % 4 == 1);
            assert((i + 2) % 4 == 2);
            assert((i + 3) % 4 == 3);
            assert(out@ =~= target.take(i + 4));
        }
        i = i + 4;
    }
    assert(target.take(expected as int) =~= target);
    Some(out)
}

/// The placeholder frame shown before the engine's first frame: every pixel the opaque dark grey
/// (28, 30, 38).
pub open spec fn placeholder_byte(i: int) -> u8 {
    if i % 4 == 0 {
        28
    } else if i % 4 == 1 {
        30
    } else if i % 4 == 2 {
        38
    } else {
        255
    }
}

/// The RGBA8 bytes of the placeholder frame of `width` x `height` pixels.
pub fn placeholder_rgba(width: u32, height: u32) -> (bytes: Vec<u8>)
    requires
        width * height * 4 <= usize::MAX,
    ensures
        bytes@ == Seq::new((width * height * 4) as nat, |i: int| placeholder_byte(i)),
{
    proof {
        vstd::arithmetic::mul::lemma_mul_is_associative(width as int, height as int, 4);
        vstd::arithmetic::mul::lemma_mul_nonnegative(width as int, height as int);
    }
    let pixels = (width as usize) * (height as usize);
    let n = pixels * 4;
    let mut bytes: Vec<u8> = Vec::with_capacity(n);
    let mut i: usize = 0;
    while i < pixels
        invariant
            pixels * 4 == n,
            n == width * height * 4,
            i <= pixels,
            bytes@ =~= Seq::new((i * 4) as nat, |k: int| placeholder_byte(k)),
        decreases pixels - i,
    {
        bytes.push(28);
        bytes.push(30);
        bytes.push(38);
        bytes.push(255);
        proof {
            assert((i * 4) % 4 == 0);
            assert((i * 4 + 1) % 4 == 1);
            assert((i * 4 + 2) % 4 == 2);
            assert((i * 4 + 3) % 4 == 3);
            assert(bytes@ =~= Seq::new(((i + 1) * 4) as nat, |k: int| placeholder_byte(k)));
        }
        i = i + 1;
    }
    bytes
}

} // verus!
