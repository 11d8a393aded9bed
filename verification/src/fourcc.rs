//! Pixel format codes.
use vstd::prelude::*;
use vstd::utf8;

use crate::text;

verus! {

/// Packed YUV 4:2:2, byte order `Y0 U0 Y1 V0`: "YUYV".
pub const FOURCC_YUYV: u32 = 0x5659_5559;

/// Packed YUV 4:2:2, byte order `U0 Y0 V0 Y1`: "UYVY".
pub const FOURCC_UYVY: u32 = 0x5956_5955;

/// Motion-JPEG, one JPEG bitstream per frame: "MJPG".
pub const FOURCC_MJPG: u32 = 0x4750_4a4d;

/// Two-plane 4:2:0, a Y plane and an interleaved UV plane: "NV12".
pub const FOURCC_NV12: u32 = 0x3231_564e;

/// A four-character code, as the number that V4L2 gives it: the first character lowest.
#[derive(Debug, Clone, Copy, PartialEq, Eq, Structural)]
pub struct FourCC {
    pub code: u32,
}

impl FourCC {
    /// The four characters, as bytes.
    pub open spec fn bytes(self) -> Seq<u8> {
        seq![
            (self.code % 256) as u8,
            (self.code / 256 % 256) as u8,
            (self.code / 65536 % 256) as u8,
            (self.code / 16777216) as u8,
        ]
    }

    /// The code in words: its characters where they are UTF-8, nothing otherwise.
    pub open spec fn text(self) -> Seq<char> {
        if utf8::valid_utf8(self.bytes()) {
            utf8::decode_utf8(self.bytes())
        } else {
            Seq::empty()
        }
    }

    /// The code with these four characters.
    pub fn new(repr: &[u8; 4]) -> (r: FourCC)
        ensures
            r.bytes() == repr@,
    {
        let code: u32 = (repr[0] as u32) + 256 * (repr[1] as u32) + 65536 * (repr[2] as u32)
            + 16777216 * (repr[3] as u32);
        let r = FourCC { code };
        proof {
            assert(r.bytes() =~= repr@);
        }
        r
    }

    pub fn repr(&self) -> (r: [u8; 4])
        ensures
            r@ == self.bytes(),
    {
        let r: [u8; 4] = [
            (self.code % 256) as u8,
            (self.code / 256 % 256) as u8,
            (self.code / 65536 % 256) as u8,
            (self.code / 16777216) as u8,
        ];
        proof {
            assert(r@ =~= self.bytes());
        }
        r
    }

    pub fn to_string(&self) -> (r: String)
        ensures
            r@ == self.text(),
    {
        let repr = self.repr();
        match text::from_utf8(repr.as_slice()) {
            Some(s) => {
                proof {
                    utf8::encode_utf8_decode_utf8(s@);
                }
                s.to_owned()
            },
            None => String::new(),
        }
    }
}

/// A code is its four characters and nothing else.
#[verifier::spinoff_prover]
#[verifier::rlimit(40)]
pub proof fn code_is_its_characters(a: FourCC, b: FourCC)
    ensures
        a == b <==> a.bytes() == b.bytes(),
{
    if a.bytes() == b.bytes() {
        let (s, t) = (a.bytes(), b.bytes());
        assert(s[0] == t[0] && s[1] == t[1] && s[2] == t[2] && s[3] == t[3]);
        let (x, y) = (a.code as int, b.code as int);
        assert(x == s[0] + 256 * s[1] + 65536 * s[2] + 16777216 * s[3]);
        assert(y == t[0] + 256 * t[1] + 65536 * t[2] + 16777216 * t[3]);
    }
}

/// The codes of the formats are the characters of their names.
pub proof fn formats_are_spelled_by_their_codes()
    ensures
        (FourCC { code: FOURCC_YUYV }).bytes() == seq!['Y' as u8, 'U' as u8, 'Y' as u8, 'V' as u8],
        (FourCC { code: FOURCC_UYVY }).bytes() == seq!['U' as u8, 'Y' as u8, 'V' as u8, 'Y' as u8],
        (FourCC { code: FOURCC_MJPG }).bytes() == seq!['M' as u8, 'J' as u8, 'P' as u8, 'G' as u8],
        (FourCC { code: FOURCC_NV12 }).bytes() == seq!['N' as u8, 'V' as u8, '1' as u8, '2' as u8],
{
    assert((FourCC { code: FOURCC_YUYV }).bytes() =~= seq![
        'Y' as u8,
        'U' as u8,
        'Y' as u8,
        'V' as u8,
    ]);
    assert((FourCC { code: FOURCC_UYVY }).bytes() =~= seq![
        'U' as u8,
        'Y' as u8,
        'V' as u8,
        'Y' as u8,
    ]);
    assert((FourCC { code: FOURCC_MJPG }).bytes() =~= seq![
        'M' as u8,
        'J' as u8,
        'P' as u8,
        'G' as u8,
    ]);
    assert((FourCC { code: FOURCC_NV12 }).bytes() =~= seq![
        'N' as u8,
        'V' as u8,
        '1' as u8,
        '2' as u8,
    ]);
}

/// A code counts its characters as digits, the first one lowest.
pub proof fn a_code_counts_its_characters(code: FourCC)
    ensures
        code.bytes().len() == 4,
        code.code == code.bytes()[0] + 256 * code.bytes()[1] + 65536 * code.bytes()[2] + 16777216
            * code.bytes()[3],
{
}

} // verus!
