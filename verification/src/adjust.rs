//! Colour adjustments computed on whole bytes.
use vstd::prelude::*;
use crate::image::Image;

verus! {

/// The RGBA bytes `s` with red, green and blue replaced by `255 - value` and alpha kept.
pub open spec fn inverted(s: Seq<u8>) -> Seq<u8> {
    Seq::new(s.len(), |i: int| if i % 4 == 3 {
        s[i]
    } else {
        (255 - s[i]) as u8
    })
}

/// Inverting twice gives back the same bytes.
pub proof fn lemma_invert_involution(s: Seq<u8>)
    ensures
        inverted(inverted(s)) == s,
{
    assert(inverted(inverted(s)) =~= s);
}

/// Inverts the colours of `image`: each of red, green and blue becomes `255 - value`;
/// alpha is kept.
pub fn apply_invert(image: &mut Image)
    ensures
        final(image).spec_width() == old(image).spec_width(),
        final(image).spec_height() == old(image).spec_height(),
        final(image).spec_rgba() == inverted(old(image).spec_rgba()),
{
    let (w, h) = image.shape();
    let src: &[u8] = image.rgba();
    let n: usize = src.len();
    let mut out: Vec<u8> = Vec::new();
    let mut i: usize = 0;
    while i < n
        invariant
            n == src@.len(),
            i <= n,
            out@ == inverted(src@).take(i as int),
        decreases n - i,
    {
        let v: u8 = src[i];
        if i % 4 == 3 {
            out.push(v);
        } else {
            out.push(255 - v);
        }
        proof {
            assert(out@ =~= inverted(src@).take(i + 1));
        }
        i = i + 1;
    }
    proof {
        assert(out@ =~= inverted(src@));
    }
    image.set_rgba_owned(out);
}

} // verus!
