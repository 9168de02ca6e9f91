//! Nearest-neighbour resampling of images stored row by row (`y * width + x`).
use vstd::prelude::*;
use vstd::arithmetic::div_mod::{lemma_div_is_ordered, lemma_fundamental_div_mod_converse};
use crate::pixel::{Rgb, Hex, hex_of, rgb2hex};

verus! {

/// Source coordinate of target coordinate `i` when `len` positions become `new_len`.
pub open spec fn source_coord(i: int, len: int, new_len: int) -> int {
    i * len / new_len
}

/// Pixel `(i, j)` of the resized image, at `j * new_width + i`, repeats source pixel
/// `(i * width / new_width, j * height / new_height)`.
pub open spec fn resize_spec(
    image: Seq<Rgb>,
    width: int,
    height: int,
    new_width: int,
    new_height: int,
) -> Seq<u32> {
    Seq::new(
        (new_width * new_height) as nat,
        |k: int|
            {
                let i = k % new_width;
                let j = k / new_width;
                let p = image[source_coord(j, height, new_height) * width + source_coord(
                    i,
                    width,
                    new_width,
                )];
                hex_of(p[0], p[1], p[2])
            },
    )
}

fn scaled_coord(i: u32, len: u32, new_len: u32) -> (res: u32)
    requires
        i < new_len,
    ensures
        res == source_coord(i as int, len as int, new_len as int),
        len > 0 ==> res < len,
{
    proof {
        assert(i * len <= u32::MAX * u32::MAX) by (nonlinear_arith)
            requires
                i <= u32::MAX,
                len <= u32::MAX,
        ;
        if len > 0 {
            assert(i * len < new_len * len) by (nonlinear_arith)
                requires
                    i < new_len,
                    len > 0,
            ;
            lemma_div_is_ordered(i * len, new_len * len - 1, new_len as int);
            assert(new_len * len - 1 == (len - 1) * new_len + (new_len - 1)) by (nonlinear_arith);
            lemma_fundamental_div_mod_converse(new_len * len - 1, new_len as int, len - 1, new_len - 1);
        } else {
            assert(i * len == 0);
        }
    }
    (i as u64 * len as u64 / new_len as u64) as u32
}

/// Resamples a `width` by `height` image to `new_width` by `new_height`, each target pixel
/// copying the source pixel its scaled-down coordinates fall on.
pub fn resize_nearest_neighbor(
    image: Vec<Rgb>,
    width: u32,
    height: u32,
    new_width: u32,
    new_height: u32,
) -> (res: Vec<Hex>)
    requires
        image@.len() == width * height,
        new_width > 0 && new_height > 0 ==> width > 0 && height > 0,
    ensures
        res@ == resize_spec(image@, width as int, height as int, new_width as int, new_height as int),
{
    let n = image.len();
    let ghost target = resize_spec(
        image@,
        width as int,
        height as int,
        new_width as int,
        new_height as int,
    );
    let mut out: Vec<Hex> = Vec::new();
    let mut j: u32 = 0;
    while j < new_height
        invariant
            n == image@.len(),
            image@.len() == width * height,
            target == resize_spec(image@, width as int, height as int, new_width as int, new_height as int),
            new_width > 0 && new_height > 0 ==> width > 0 && height > 0,
            j <= new_height,
            out@.len() == j * new_width,
            forall|k: int| 0 <= k < out@.len() ==> #[trigger] out@[k] == target[k],
        decreases new_height - j,
    {
        let mut i: u32 = 0;
        while i < new_width
            invariant
                n == image@.len(),
                image@.len() == width * height,
                target == resize_spec(image@, width as int, height as int, new_width as int, new_height as int),
                new_width > 0 && new_height > 0 ==> width > 0 && height > 0,
                j < new_height,
                i <= new_width,
                out@.len() == j * new_width + i,
                forall|k: int| 0 <= k < out@.len() ==> #[trigger] out@[k] == target[k],
            decreases new_width - i,
        {
            let x = scaled_coord(i, width, new_width);
            let y = scaled_coord(j, height, new_height);
            proof {
                assert(y * width + x < width * height) by (nonlinear_arith)
                    requires
                        x < width,
                        y < height,
                ;
                let k = j * new_width + i;
                lemma_fundamental_div_mod_converse(k, new_width as int, j as int, i as int);
                assert(k < new_width * new_height) by (nonlinear_arith)
                    requires
                        i < new_width,
                        j < new_height,
                        k == j * new_width + i,
                ;
            }
            let p = image[y as usize * width as usize + x as usize];
            out.push(rgb2hex(p[0], p[1], p[2]));
            i += 1;
        }
        proof {
            assert((j + 1) * new_width == j * new_width + new_width) by (nonlinear_arith);
        }
        j += 1;
    }
    proof {
        assert(out@.len() == new_width * new_height) by (nonlinear_arith)
            requires
                out@.len() == new_height * new_width,
        ;
        assert(out@ =~= target);
    }
    out
}

} // verus!
