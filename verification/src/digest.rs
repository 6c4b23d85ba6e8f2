//! Content fingerprints: SHA-256 digests written as hexadecimal text.
use vstd::prelude::*;
use vstd::utf8::encode_utf8;
use sha2::Digest;
use crate::text::push_char;

verus! {

/// The SHA-256 digest of a message.
pub uninterp spec fn sha256_of(message: Seq<u8>) -> Seq<u8>;

/// Calls `sha2::Sha256::digest`: the SHA-256 digest of the message, 32 bytes long.
#[verifier::external_body]
fn sha256_digest(message: &[u8]) -> (r: Vec<u8>)
    ensures
        r@ == sha256_of(message@),
        r@.len() == 32,
{
    sha2::Sha256::digest(message).to_vec()
}

/// The hexadecimal digit of a value below sixteen, in upper or lower case.
pub open spec fn hex_digit(n: u8, upper: bool) -> char {
    if n < 10 {
        match n {
            0 => '0',
            1 => '1',
            2 => '2',
            3 => '3',
            4 => '4',
            5 => '5',
            6 => '6',
            7 => '7',
            8 => '8',
            _ => '9',
        }
    } else if upper {
        match n {
            10 => 'A',
            11 => 'B',
            12 => 'C',
            13 => 'D',
            14 => 'E',
            _ => 'F',
        }
    } else {
        match n {
            10 => 'a',
            11 => 'b',
            12 => 'c',
            13 => 'd',
            14 => 'e',
            _ => 'f',
        }
    }
}

fn hex_digit_exec(n: u8, upper: bool) -> (c: char)
    ensures
        c == hex_digit(n, upper),
{
    if n < 10 {
        match n {
            0 => '0',
            1 => '1',
            2 => '2',
            3 => '3',
            4 => '4',
            5 => '5',
            6 => '6',
            7 => '7',
            8 => '8',
            _ => '9',
        }
    } else if upper {
        match n {
            10 => 'A',
            11 => 'B',
            12 => 'C',
            13 => 'D',
            14 => 'E',
            _ => 'F',
        }
    } else {
        match n {
            10 => 'a',
            11 => 'b',
            12 => 'c',
            13 => 'd',
            14 => 'e',
            _ => 'f',
        }
    }
}

/// Two hexadecimal digits per byte, high digit first.
pub open spec fn hex_text(bytes: Seq<u8>, upper: bool) -> Seq<char>
    decreases bytes.len(),
{
    if bytes.len() == 0 {
        Seq::empty()
    } else {
        let b = bytes.last();
        hex_text(bytes.drop_last(), upper) + seq![
            hex_digit((b / 16) as u8, upper),
            hex_digit((b % 16) as u8, upper),
        ]
    }
}

fn push_hex(out: &mut String, bytes: &Vec<u8>, upper: bool)
    ensures
        final(out)@ == old(out)@ + hex_text(bytes@, upper),
{
    let ghost start = out@;
    let mut i: usize = 0;
    assert(bytes@.subrange(0, 0) =~= Seq::<u8>::empty());
    while i < bytes.len()
        invariant
            i <= bytes.len(),
            out@ == start + hex_text(bytes@.subrange(0, i as int), upper),
        decreases bytes.len() - i,
    {
        let b = bytes[i];
        push_char(out, hex_digit_exec(b / 16, upper));
        push_char(out, hex_digit_exec(b % 16, upper));
        proof {
            let prefix = bytes@.subrange(0, i + 1);
            assert(prefix.drop_last() =~= bytes@.subrange(0, i as int));
            assert(prefix.last() == b);
        }
        i = i + 1;
    }
    assert(bytes@.subrange(0, bytes.len() as int) =~= bytes@);
}

/// The SHA-256 digest of some bytes in upper-case hexadecimal.
pub fn content_sha256(bytes: &[u8]) -> (r: String)
    ensures
        r@ == hex_text(sha256_of(bytes@), true),
{
    let digest = sha256_digest(bytes);
    let mut out = String::new();
    push_hex(&mut out, &digest, true);
    out
}

/// What a project fingerprint digests: for each input, its logical path in
/// UTF-8, a zero byte, its contents and a zero byte.
pub open spec fn fingerprint_message(inputs: Seq<(Seq<char>, Seq<u8>)>) -> Seq<u8>
    decreases inputs.len(),
{
    if inputs.len() == 0 {
        Seq::empty()
    } else {
        let (path, contents) = inputs.last();
        fingerprint_message(inputs.drop_last()) + encode_utf8(path) + seq![0u8] + contents + seq![
            0u8,
        ]
    }
}

/// The fingerprint of project inputs given in order as logical path and
/// contents: `sha256:` and the lower-case hexadecimal digest.
pub fn fingerprint_of(inputs: &Vec<(String, Vec<u8>)>) -> (r: String)
    ensures
        r@ == "sha256:"@ + hex_text(sha256_of(fingerprint_message(inputs@.map_values(|e: (String, Vec<u8>)| (e.0@, e.1@)))), false),
{
    let ghost v = inputs@.map_values(|e: (String, Vec<u8>)| (e.0@, e.1@));
    let mut message: Vec<u8> = Vec::new();
    let mut i: usize = 0;
    assert(v.subrange(0, 0) =~= Seq::<(Seq<char>, Seq<u8>)>::empty());
    while i < inputs.len()
        invariant
            i <= inputs.len(),
            v == inputs@.map_values(|e: (String, Vec<u8>)| (e.0@, e.1@)),
            message@ == fingerprint_message(v.subrange(0, i as int)),
        decreases inputs.len() - i,
    {
        let path_bytes = inputs[i].0.as_str().as_bytes();
        let mut k: usize = 0;
        let ghost start = message@;
        while k < path_bytes.len()
            invariant
                k <= path_bytes@.len(),
                message@ == start + path_bytes@.subrange(0, k as int),
            decreases path_bytes.len() - k,
        {
            message.push(path_bytes[k]);
            k = k + 1;
            assert(message@ =~= start + path_bytes@.subrange(0, k as int));
        }
        message.push(0);
        let contents = &inputs[i].1;
        let ghost middle = message@;
        let mut m: usize = 0;
        while m < contents.len()
            invariant
                m <= contents@.len(),
                message@ == middle + contents@.subrange(0, m as int),
            decreases contents.len() - m,
        {
            message.push(contents[m]);
            m = m + 1;
            assert(message@ =~= middle + contents@.subrange(0, m as int));
        }
        message.push(0);
        proof {
            let prefix = v.subrange(0, i + 1);
            assert(prefix.drop_last() =~= v.subrange(0, i as int));
            assert(prefix.last() == (inputs@[i as int].0@, inputs@[i as int].1@));
            assert(path_bytes@.subrange(0, path_bytes@.len() as int) =~= path_bytes@);
            assert(contents@.subrange(0, contents@.len() as int) =~= contents@);
            assert(message@ =~= fingerprint_message(prefix));
        }
        i = i + 1;
    }
    assert(v.subrange(0, inputs.len() as int) =~= v);
    let digest = sha256_digest(message.as_slice());
    let mut out = String::from_str("sha256:");
    push_hex(&mut out, &digest, false);
    out
}

/// A hexadecimal digit in the given case.
pub open spec fn is_hex_char(c: char, upper: bool) -> bool {
    ('0' <= c <= '9') || (upper && 'A' <= c <= 'F') || (!upper && 'a' <= c <= 'f')
}

/// Hexadecimal text has two digits per byte, each a digit of the chosen
/// case; a byte below sixteen starts with '0', and the digits of distinct
/// values below sixteen differ.
pub proof fn lemma_hex_text_laws(bytes: Seq<u8>, upper: bool, n: u8, m: u8)
    ensures
        hex_text(bytes, upper).len() == 2 * bytes.len(),
        forall|i: int| 0 <= i < hex_text(bytes, upper).len() ==> is_hex_char(#[trigger] hex_text(bytes, upper)[i], upper),
        bytes.len() == 1 && bytes[0] < 16 ==> hex_text(bytes, upper)[0] == '0',
        n < 16 && m < 16 && n != m ==> hex_digit(n, upper) != hex_digit(m, upper),
    decreases bytes.len(),
{
    if bytes.len() > 0 {
        lemma_hex_text_laws(bytes.drop_last(), upper, n, m);
        let rest = hex_text(bytes.drop_last(), upper);
        let b = bytes.last();
        assert(hex_text(bytes, upper) == rest + seq![hex_digit((b / 16) as u8, upper), hex_digit((b % 16) as u8, upper)]);
        assert forall|i: int| 0 <= i < hex_text(bytes, upper).len() implies is_hex_char(
            #[trigger] hex_text(bytes, upper)[i],
            upper,
        ) by {
            if i < rest.len() {
                assert(hex_text(bytes, upper)[i] == rest[i]);
            }
        }
        if bytes.len() == 1 && bytes[0] < 16 {
            assert(rest.len() == 0);
            assert(b == bytes[0]);
            assert((b / 16) as u8 == 0u8);
        }
    }
}

} // verus!
