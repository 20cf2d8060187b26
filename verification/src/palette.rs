use vstd::prelude::*;
use crate::error::FormatError;

verus! {

/// A palette of 256 colours.
#[derive(Clone, Copy, Debug, PartialEq, Eq)]
pub struct Palette {
    /// The colours, each as blue, green and red.
    pub colors: [[u8; 3]; 256],
}

/// The number of colours of a palette.
pub open spec fn palette_colors() -> int {
    256
}

/// The length in bytes of the colours of a palette file.
pub open spec fn palette_len() -> int {
    768
}

impl Palette {
    /// Whether the colours are the first 256 triples of bytes of `b`, in
    /// their order.
    pub open spec fn stored_in(self, b: Seq<u8>) -> bool {
        forall|i: int|
            0 <= i < palette_colors() ==> (#[trigger] self.colors@[i])@ == b.subrange(
                3 * i,
                3 * i + 3,
            )
    }

    /// Loads a palette from the bytes of a palette file. Bytes behind the
    /// 256 colours are not looked at.
    pub fn from(file_bytes: &[u8]) -> (r: Result<Palette, FormatError>)
        ensures
            file_bytes@.len() >= palette_len() ==> r is Ok && r->Ok_0.stored_in(file_bytes@),
            file_bytes@.len() < palette_len() ==> r == Err::<Palette, FormatError>(
                FormatError::Truncated,
            ),
    {
        if file_bytes.len() < 256 * 3 {
            return Err(FormatError::Truncated);
        }
        let mut colors: [[u8; 3]; 256] = [[0u8;3];256];
        let mut i: usize = 0;
        while i < 256
            invariant
                file_bytes@.len() >= palette_len(),
                0 <= i <= 256,
                forall|k: int|
                    0 <= k < i ==> (#[trigger] colors@[k])@ == file_bytes@.subrange(
                        3 * k,
                        3 * k + 3,
                    ),
            decreases 256 - i,
        {
            let palette_index: usize = i * 3;
            let color: [u8; 3] = [
                file_bytes[palette_index],
                file_bytes[palette_index + 1],
                file_bytes[palette_index + 2],
            ];
            proof {
                assert(color@ =~= file_bytes@.subrange(3 * i, 3 * i + 3));
            }
            colors[i] = color;
            i = i + 1;
        }
        Ok(Palette { colors })
    }
}

} // verus!
