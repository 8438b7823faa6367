//! The eight bytes that open every PNG file.

use vstd::prelude::*;
use vstd::slice::slice_subrange;

verus! {

/// The length of the file signature.
pub const SIGNATURE_LENGTH: usize = 8;

/// The file signature: `89 50 4E 47 0D 0A 1A 0A`.
pub open spec fn png_signature() -> Seq<u8> {
    seq![0x89u8, 0x50u8, 0x4eu8, 0x47u8, 0x0du8, 0x0au8, 0x1au8, 0x0au8]
}

/// `file` opens with the signature.
pub open spec fn has_signature(file: Seq<u8>) -> bool {
    file.len() >= 8 && file.subrange(0, 8) == png_signature()
}

/// Checks that `file` opens with the signature and returns what follows it,
/// the buffer that the framer takes; `None` when the file is shorter than the
/// signature or opens with other bytes.
pub fn strip_signature(file: &[u8]) -> (body: Option<&[u8]>)
    ensures
        match body {
            Some(rest) => has_signature(file@) && rest@ == file@.subrange(8, file@.len() as int),
            None => !has_signature(file@),
        },
{
    let total: usize = file.len();
    if total < SIGNATURE_LENGTH {
        return None;
    }
    let matches = file[0] == 0x89 && file[1] == 0x50 && file[2] == 0x4e && file[3] == 0x47
        && file[4] == 0x0d && file[5] == 0x0a && file[6] == 0x1a && file[7] == 0x0a;
    proof {
        let head = file@.subrange(0, 8);
        if matches {
            assert(head =~= png_signature());
        } else {
            assert(head[0] == file@[0] && head[1] == file@[1] && head[2] == file@[2] && head[3]
                == file@[3]);
            assert(head[4] == file@[4] && head[5] == file@[5] && head[6] == file@[6] && head[7]
                == file@[7]);
            assert(png_signature()[0] == 0x89 && png_signature()[1] == 0x50 && png_signature()[2]
                == 0x4e && png_signature()[3] == 0x47);
            assert(png_signature()[4] == 0x0d && png_signature()[5] == 0x0a && png_signature()[6]
                == 0x1a && png_signature()[7] == 0x0a);
        }
    }
    if matches {
        Some(slice_subrange(file, SIGNATURE_LENGTH, total))
    } else {
        None
    }
}

} // verus!
