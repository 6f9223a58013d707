//! The samples of a decoded picture, grouped into pixels.

use vstd::prelude::*;

verus! {

/// The pixels of a row of samples that holds four samples for every pixel:
/// red, green, blue and alpha.
pub open spec fn quadruples(samples: Seq<u16>) -> Seq<[u16; 4]> {
    Seq::new(
        samples.len() / 4,
        |i: int| [samples[4 * i], samples[4 * i + 1], samples[4 * i + 2], samples[4 * i + 3]],
    )
}

/// Groups the samples of a picture into its pixels, four samples each.
pub fn rgba_quadruples(samples: &Vec<u16>) -> (pixels: Vec<[u16; 4]>)
    requires
        samples.len() % 4 == 0,
    ensures
        pixels@ == quadruples(samples@),
{
    let count = samples.len() / 4;
    let mut pixels: Vec<[u16; 4]> = Vec::new();
    let mut i: usize = 0;
    while i < count
        invariant
            0 <= i <= count,
            count == samples.len() / 4,
            samples.len() % 4 == 0,
            pixels.len() == i,
            forall|j: int| 0 <= j < i ==> #[trigger] pixels[j] == quadruples(samples@)[j],
        decreases count - i,
    {
        let at = 4 * i;
        pixels.push([samples[at], samples[at + 1], samples[at + 2], samples[at + 3]]);
        i += 1;
    }
    proof {
        assert(pixels@ =~= quadruples(samples@));
    }
    pixels
}

} // verus!
