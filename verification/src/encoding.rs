//! Text of INI files from their bytes: UTF-16 (little or big endian) with a
//! byte-order mark, else UTF-8 with or without one.
use vstd::prelude::*;

verus! {

/// How an INI file's bytes are encoded, by its byte-order mark.
#[derive(Debug, Clone, Copy, PartialEq, Eq)]
pub enum IniEncoding {
    Utf16Le,
    Utf16Be,
    /// UTF-8; `true` when a byte-order mark starts the bytes.
    Utf8(bool),
}

pub open spec fn encoding_of(b: Seq<u8>) -> IniEncoding {
    if b.len() >= 2 && b[0] == 0xFFu8 && b[1] == 0xFEu8 {
        IniEncoding::Utf16Le
    } else if b.len() >= 2 && b[0] == 0xFEu8 && b[1] == 0xFFu8 {
        IniEncoding::Utf16Be
    } else {
        IniEncoding::Utf8(b.len() >= 3 && b[0] == 0xEFu8 && b[1] == 0xBBu8 && b[2] == 0xBFu8)
    }
}

pub fn ini_encoding(b: &Vec<u8>) -> (r: IniEncoding)
    ensures
        r == encoding_of(b@),
{
    if b.len() >= 2 && b[0] == 0xFFu8 && b[1] == 0xFEu8 {
        IniEncoding::Utf16Le
    } else if b.len() >= 2 && b[0] == 0xFEu8 && b[1] == 0xFFu8 {
        IniEncoding::Utf16Be
    } else {
        IniEncoding::Utf8(b.len() >= 3 && b[0] == 0xEFu8 && b[1] == 0xBBu8 && b[2] == 0xBFu8)
    }
}

/// The 16-bit unit made of two bytes, in the given byte order.
pub open spec fn unit_of(lo_first: bool, x: u8, y: u8) -> u16 {
    if lo_first {
        (x as u16 + 256 * y as u16) as u16
    } else {
        (y as u16 + 256 * x as u16) as u16
    }
}

/// The 16-bit units after the byte-order mark: each whole pair of bytes
/// from index 2 on (a last odd byte is dropped).
pub open spec fn utf16_units(b: Seq<u8>, lo_first: bool) -> Seq<u16> {
    Seq::new(
        ((b.len() - 2) / 2) as nat,
        |k: int| unit_of(lo_first, b[2 + 2 * k], b[3 + 2 * k]),
    )
}

pub fn utf16_units_of(b: &Vec<u8>, lo_first: bool) -> (r: Vec<u16>)
    requires
        b.len() >= 2,
    ensures
        r@ == utf16_units(b@, lo_first),
{
    let n = (b.len() - 2) / 2;
    let mut out: Vec<u16> = Vec::new();
    let mut k: usize = 0;
    while k < n
        invariant
            k <= n,
            n == (b.len() - 2) / 2,
            b.len() >= 2,
            out@.len() == k,
            forall|q: int| 0 <= q < k ==> out@[q] == #[trigger] utf16_units(b@, lo_first)[q],
        decreases n - k,
    {
        let x = b[2 + 2 * k];
        let y = b[3 + 2 * k];
        let u: u16 = if lo_first {
            x as u16 + 256 * (y as u16)
        } else {
            y as u16 + 256 * (x as u16)
        };
        out.push(u);
        k += 1;
    }
    assert(out@ =~= utf16_units(b@, lo_first));
    out
}

/// The text of UTF-16 units (`None` when they are not valid UTF-16).
pub uninterp spec fn utf16_text(units: Seq<u16>) -> Option<Seq<char>>;

/// Calls `String::from_utf16`. Claimed: the result depends on the units
/// alone (named `utf16_text`).
#[verifier::external_body]
fn from_utf16(units: &Vec<u16>) -> (r: Option<String>)
    ensures
        match r {
            Some(s) => utf16_text(units@) == Some(s@),
            None => utf16_text(units@) is None,
        },
{
    String::from_utf16(units).ok()
}

/// The text of UTF-8 bytes, each invalid sequence replaced by U+FFFD.
pub uninterp spec fn utf8_lossy_text(bytes: Seq<u8>) -> Seq<char>;

/// Calls `String::from_utf8_lossy`. Claimed: the result depends on the
/// bytes alone (named `utf8_lossy_text`).
#[verifier::external_body]
fn from_utf8_lossy(bytes: &Vec<u8>) -> (r: String)
    ensures
        r@ == utf8_lossy_text(bytes@),
{
    String::from_utf8_lossy(bytes).to_string()
}

/// The text of an INI file's bytes: UTF-16 after its byte-order mark
/// (`None` when not valid UTF-16), else UTF-8 with any byte-order mark
/// dropped and invalid sequences replaced.
pub open spec fn ini_text_of(b: Seq<u8>) -> Option<Seq<char>> {
    match encoding_of(b) {
        IniEncoding::Utf16Le => utf16_text(utf16_units(b, true)),
        IniEncoding::Utf16Be => utf16_text(utf16_units(b, false)),
        IniEncoding::Utf8(bom) => Some(utf8_lossy_text(if bom { b.skip(3) } else { b })),
    }
}

pub fn decode_ini_bytes(b: &Vec<u8>) -> (r: Option<String>)
    ensures
        match r {
            Some(s) => ini_text_of(b@) == Some(s@),
            None => ini_text_of(b@) is None,
        },
{
    match ini_encoding(b) {
        IniEncoding::Utf16Le => {
            let units = utf16_units_of(b, true);
            from_utf16(&units)
        },
        IniEncoding::Utf16Be => {
            let units = utf16_units_of(b, false);
            from_utf16(&units)
        },
        IniEncoding::Utf8(bom) => {
            let start: usize = if bom {
                3
            } else {
                0
            };
            let mut body: Vec<u8> = Vec::new();
            let mut i: usize = start;
            while i < b.len()
                invariant
                    start <= i <= b.len(),
                    start == 0 || start == 3,
                    start == 3 ==> b.len() >= 3,
                    body@ == b@.subrange(start as int, i as int),
                decreases b.len() - i,
            {
                body.push(b[i]);
                assert(body@ =~= b@.subrange(start as int, i + 1));
                i += 1;
            }
            proof {
                if bom {
                    assert(body@ =~= b@.skip(3));
                } else {
                    assert(body@ =~= b@);
                }
            }
            Some(from_utf8_lossy(&body))
        },
    }
}

} // verus!
