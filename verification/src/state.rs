//! What is remembered of a file between two sessions, and under which name.

use crate::real32::Real32;
use md5::Digest;
use vstd::prelude::*;

verus! {

/// What is remembered of a file.
#[derive(Debug)]
pub struct SavedState {
    pub page: usize,
    /// Rotation in degrees: 0, 90, 180, 270.
    pub rotation: u16,
    pub inverted: bool,
    pub auto_crop: bool,
    pub tinted: bool,
    pub epub_font_size: Option<Real32>,
}

impl Default for SavedState {
    fn default() -> (state: Self)
        ensures
            state == (SavedState {
                page: 0,
                rotation: 0,
                inverted: false,
                auto_crop: false,
                tinted: false,
                epub_font_size: None,
            }),
    {
        SavedState {
            page: 0,
            rotation: 0,
            inverted: false,
            auto_crop: false,
            tinted: false,
            epub_font_size: None,
        }
    }
}

/// What `md5::Md5::digest` returns for these bytes.
pub uninterp spec fn md5_digest(bytes: Seq<u8>) -> Seq<u8>;

/// `md5::Md5::digest`: the digest depends on the bytes alone, and has 16
/// bytes. Which bytes these are is left unsaid.
#[verifier::external_body]
fn md5_of(bytes: &[u8]) -> (digest: Vec<u8>)
    ensures
        digest@ == md5_digest(bytes@),
        digest@.len() == 16,
{
    md5::Md5::digest(bytes).to_vec()
}

/// The character of a hexadecimal digit.
pub open spec fn hex_digit(d: int) -> char {
    if d < 10 {
        ('0' as int + d) as char
    } else {
        ('a' as int + d - 10) as char
    }
}

/// Two hexadecimal digits for each byte.
pub open spec fn hex(bytes: Seq<u8>) -> Seq<char> {
    Seq::new(
        2 * bytes.len(),
        |i: int|
            if i % 2 == 0 {
                hex_digit(bytes[i / 2] as int / 16)
            } else {
                hex_digit(bytes[i / 2] as int % 16)
            },
    )
}

fn hex_char(d: u8) -> (c: char)
    requires
        d < 16,
    ensures
        c == hex_digit(d as int),
{
    match d {
        0 => '0',
        1 => '1',
        2 => '2',
        3 => '3',
        4 => '4',
        5 => '5',
        6 => '6',
        7 => '7',
        8 => '8',
        9 => '9',
        10 => 'a',
        11 => 'b',
        12 => 'c',
        13 => 'd',
        14 => 'e',
        _ => 'f',
    }
}

/// The name of the file for a digest: the digest in hexadecimal, and `.json`.
pub fn name_of_digest(digest: &[u8]) -> (name: String)
    ensures
        name@ == hex(digest@) + ".json"@,
{
    let mut name = String::new();
    let mut i: usize = 0;
    proof {
        assert(name@ =~= hex(digest@.take(0)));
    }
    while i < digest.len()
        invariant
            i <= digest@.len(),
            name@ == hex(digest@.take(i as int)),
        decreases digest@.len() - i,
    {
        name.push(hex_char(digest[i] / 16));
        name.push(hex_char(digest[i] % 16));
        proof {
            assert(name@ =~= hex(digest@.take(i + 1)));
        }
        i += 1;
    }
    proof {
        assert(digest@.take(i as int) =~= digest@);
    }
    name.append(".json");
    name
}

/// The name of the file that remembers the file at this path.
pub fn state_file_name(path_text: &str) -> (name: String)
    ensures
        name@ == hex(md5_digest(vstd::utf8::encode_utf8(path_text@))) + ".json"@,
        name@.len() == 37,
{
    let digest = md5_of(path_text.as_bytes());
    proof {
        reveal_strlit(".json");
    }
    name_of_digest(digest.as_slice())
}

/// Different digests have different names.
pub proof fn law_names_differ(a: Seq<u8>, b: Seq<u8>)
    requires
        a != b,
    ensures
        hex(a) + ".json"@ != hex(b) + ".json"@,
{
    let x = hex(a) + ".json"@;
    let y = hex(b) + ".json"@;
    if x == y {
        assert(x.len() == 2 * a.len() + ".json"@.len());
        assert(y.len() == 2 * b.len() + ".json"@.len());
        assert forall|i: int| 0 <= i < a.len() implies a[i] == b[i] by {
            assert(x[2 * i] == hex(a)[2 * i] && y[2 * i] == hex(b)[2 * i]);
            assert(x[2 * i + 1] == hex(a)[2 * i + 1] && y[2 * i + 1] == hex(b)[2 * i + 1]);
        }
        assert(a =~= b);
    }
}

/// The two characters of a byte can be read back: they are hexadecimal digits,
/// the first of them for its sixteens.
pub proof fn law_hex_can_be_read_back(bytes: Seq<u8>, i: int)
    requires
        0 <= i < bytes.len(),
    ensures
        ({
            let value = |c: char|
                if c <= '9' {
                    c as int - '0' as int
                } else {
                    10 + c as int - 'a' as int
                };
            let high = hex(bytes)[2 * i];
            let low = hex(bytes)[2 * i + 1];
            &&& hex(bytes).len() == 2 * bytes.len()
            &&& ('0' <= high && high <= '9') || ('a' <= high && high <= 'f')
            &&& ('0' <= low && low <= '9') || ('a' <= low && low <= 'f')
            &&& 16 * value(high) + value(low) == bytes[i]
        }),
{
    assert((2 * i) / 2 == i && (2 * i + 1) / 2 == i);
}

} // verus!
