//! Decoding the downloaded header images of the game cards into RGBA
//! pixels, ready to be turned into textures.

use vstd::prelude::*;

verus! {

/// A decoded image: `width` × `height` pixels, four bytes each (red, green,
/// blue, alpha), row after row.
#[derive(Debug)]
pub struct Rgba8Image {
    pub width: u32,
    pub height: u32,
    pub pixels: Vec<u8>,
}

impl View for Rgba8Image {
    type V = (u32, u32, Seq<u8>);

    open spec fn view(&self) -> (u32, u32, Seq<u8>) {
        (self.width, self.height, self.pixels@)
    }
}

/// What the `image` crate makes of some bytes (`load_from_memory`, then
/// `to_rgba8`): the width, the height and the RGBA bytes, or `None` when
/// the bytes are not an image it can read.
pub uninterp spec fn decoded_rgba(bytes: Seq<u8>) -> Option<(u32, u32, Seq<u8>)>;

/// `image::load_from_memory` (the format guessed from the bytes), the image
/// converted to 8-bit RGBA. Its result is named `decoded_rgba`: decoding
/// depends on the bytes alone.
#[verifier::external_body]
fn decode_rgba(bytes: &[u8]) -> (r: Option<Rgba8Image>)
    ensures
        match r {
            Some(i) => decoded_rgba(bytes@) == Some(i@),
            None => decoded_rgba(bytes@) is None,
        },
{
    match image::load_from_memory(bytes) {
        Ok(img) => {
            let rgba = img.to_rgba8();
            Some(Rgba8Image { width: rgba.width(), height: rgba.height(), pixels: rgba.into_raw() })
        },
        Err(_) => None,
    }
}

/// The images of `pending` (pairs of an appid and the bytes downloaded for
/// it) that decode, in their order, each with its appid; those that do not
/// decode are left out.
pub open spec fn decoded_images(pending: Seq<(u64, Seq<u8>)>) -> Seq<(u64, (u32, u32, Seq<u8>))>
    decreases pending.len(),
{
    if pending.len() == 0 {
        seq![]
    } else {
        let rest = decoded_images(pending.drop_last());
        let (id, bytes) = pending.last();
        match decoded_rgba(bytes) {
            Some(img) => rest.push((id, img)),
            None => rest,
        }
    }
}

/// The downloaded images as plain values.
pub open spec fn pending_view(v: Seq<(u64, Vec<u8>)>) -> Seq<(u64, Seq<u8>)> {
    v.map_values(|e: (u64, Vec<u8>)| (e.0, e.1@))
}

/// The decoded images as plain values.
pub open spec fn decoded_view(v: Seq<(u64, Rgba8Image)>) -> Seq<(u64, (u32, u32, Seq<u8>))> {
    v.map_values(|e: (u64, Rgba8Image)| (e.0, e.1@))
}

/// Decodes the downloaded images (see `decoded_images`).
pub fn decode_images(pending: &Vec<(u64, Vec<u8>)>) -> (r: Vec<(u64, Rgba8Image)>)
    ensures
        decoded_view(r@) == decoded_images(pending_view(pending@)),
{
    let ghost pv = pending_view(pending@);
    let mut out: Vec<(u64, Rgba8Image)> = Vec::new();
    let mut i: usize = 0;
    assert(pv.take(0) =~= Seq::<(u64, Seq<u8>)>::empty());
    assert(decoded_view(out@) =~= Seq::<(u64, (u32, u32, Seq<u8>))>::empty());
    while i < pending.len()
        invariant
            i <= pending@.len(),
            pv == pending_view(pending@),
            decoded_view(out@) == decoded_images(pv.take(i as int)),
        decreases pending@.len() - i,
    {
        assert(pv.take(i + 1).drop_last() =~= pv.take(i as int));
        assert(pv.take(i + 1).last() == pv[i as int]);
        let id = pending[i].0;
        match decode_rgba(pending[i].1.as_slice()) {
            Some(img) => {
                let ghost before = out@;
                out.push((id, img));
                assert(decoded_view(out@) =~= decoded_view(before).push((id, img@)));
            },
            None => {},
        }
        i = i + 1;
    }
    assert(pv.take(i as int) =~= pv);
    out
}

} // verus!
