use vstd::prelude::*;

verus! {

use vstd::string::StrSliceExecFns;
use vstd::string::StringExecFns;

/// The digest that the content-hash primitive assigns to a byte stream.
/// Everything in this crate hashes with this one primitive; no second hash
/// construction exists anywhere.
pub uninterp spec fn content_digest(data: Seq<u8>) -> Seq<u8>;

/// Relies on blake3::hash: the digest is a pure function of the input bytes,
/// and it is 32 bytes long.
#[verifier::external_body]
fn content_digest_bytes(data: &Vec<u8>) -> (r: Vec<u8>)
    ensures
        r@ == content_digest(data@),
        r@.len() == 32,
{
    blake3::hash(data.as_slice()).as_bytes().to_vec()
}

pub open spec fn hex_digit_char(v: int) -> char {
    if v == 0 {
        '0'
    } else if v == 1 {
        '1'
    } else if v == 2 {
        '2'
    } else if v == 3 {
        '3'
    } else if v == 4 {
        '4'
    } else if v == 5 {
        '5'
    } else if v == 6 {
        '6'
    } else if v == 7 {
        '7'
    } else if v == 8 {
        '8'
    } else if v == 9 {
        '9'
    } else if v == 10 {
        'a'
    } else if v == 11 {
        'b'
    } else if v == 12 {
        'c'
    } else if v == 13 {
        'd'
    } else if v == 14 {
        'e'
    } else {
        'f'
    }
}

/// Lowercase hexadecimal rendering of a byte string, two digits per byte,
/// high nibble first.
pub open spec fn hex_chars(data: Seq<u8>) -> Seq<char> {
    Seq::new(
        data.len() * 2,
        |i: int|
            if i % 2 == 0 {
                hex_digit_char((data[i / 2] / 16) as int)
            } else {
                hex_digit_char((data[i / 2] % 16) as int)
            },
    )
}

/// The hex string under which a byte stream's digest is stored and compared.
pub open spec fn digest_hex(data: Seq<u8>) -> Seq<char> {
    hex_chars(content_digest(data))
}

fn hex_digit_str(v: u8) -> (r: &'static str)
    requires
        v < 16,
    ensures
        r@ == seq![hex_digit_char(v as int)],
{
    proof {
        reveal_strlit("0");
        reveal_strlit("1");
        reveal_strlit("2");
        reveal_strlit("3");
        reveal_strlit("4");
        reveal_strlit("5");
        reveal_strlit("6");
        reveal_strlit("7");
        reveal_strlit("8");
        reveal_strlit("9");
        reveal_strlit("a");
        reveal_strlit("b");
        reveal_strlit("c");
        reveal_strlit("d");
        reveal_strlit("e");
        reveal_strlit("f");
        assert("0"@ =~= seq!['0']);
        assert("1"@ =~= seq!['1']);
        assert("2"@ =~= seq!['2']);
        assert("3"@ =~= seq!['3']);
        assert("4"@ =~= seq!['4']);
        assert("5"@ =~= seq!['5']);
        assert("6"@ =~= seq!['6']);
        assert("7"@ =~= seq!['7']);
        assert("8"@ =~= seq!['8']);
        assert("9"@ =~= seq!['9']);
        assert("a"@ =~= seq!['a']);
        assert("b"@ =~= seq!['b']);
        assert("c"@ =~= seq!['c']);
        assert("d"@ =~= seq!['d']);
        assert("e"@ =~= seq!['e']);
        assert("f"@ =~= seq!['f']);
    }
    match v {
        0 => "0",
        1 => "1",
        2 => "2",
        3 => "3",
        4 => "4",
        5 => "5",
        6 => "6",
        7 => "7",
        8 => "8",
        9 => "9",
        10 => "a",
        11 => "b",
        12 => "c",
        13 => "d",
        14 => "e",
        _ => "f",
    }
}

pub fn hex_encode(data: &Vec<u8>) -> (r: String)
    ensures
        r@ == hex_chars(data@),
{
    let mut s = String::new();
    let mut i: usize = 0;
    while i < data.len()
        invariant
            i <= data@.len(),
            s@ =~= hex_chars(data@).take(2 * i as int),
        decreases data@.len() - i,
    {
        let b = data[i];
        s.append(hex_digit_str(b / 16));
        s.append(hex_digit_str(b % 16));
        proof {
            assert(hex_chars(data@)[2 * i as int] == hex_digit_char((data@[i as int] / 16) as int));
            assert(hex_chars(data@)[2 * i as int + 1] == hex_digit_char(
                (data@[i as int] % 16) as int,
            ));
            assert(s@ =~= hex_chars(data@).take(2 * (i + 1) as int));
        }
        i = i + 1;
    }
    proof {
        assert(hex_chars(data@).take(2 * i as int) =~= hex_chars(data@));
    }
    s
}

/// Hashes a byte stream and renders the digest as 64 lowercase hex digits.
pub fn hash_hex(data: &Vec<u8>) -> (r: String)
    ensures
        r@ == digest_hex(data@),
        r@.len() == 64,
{
    let digest = content_digest_bytes(data);
    hex_encode(&digest)
}

/// Hashes a byte stream and keeps only the first `n` hex digits of the
/// rendered digest, for filename prefixes and short display forms.
pub fn hash_hex_short(data: &Vec<u8>, n: usize) -> (r: String)
    requires
        n <= 64,
    ensures
        r@ == digest_hex(data@).take(n as int),
        r@.len() == n,
{
    let full = hash_hex(data);
    crate::strutil::str_take(full.as_str(), n)
}

} // verus!
