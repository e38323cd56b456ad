//! Lowercase hexadecimal rendering of bytes.
use vstd::prelude::*;

verus! {

/// Why a value has no hexadecimal digit.
#[derive(Debug, Clone, Copy, PartialEq, Eq, Structural)]
pub enum HexStringError {
    /// The value is 16 or more.
    InvalidHexChar(u8),
}

/// The sixteen lowercase hexadecimal digits, by value.
pub open spec fn hex_digits() -> Seq<char> {
    seq!['0', '1', '2', '3', '4', '5', '6', '7', '8', '9', 'a', 'b', 'c', 'd', 'e', 'f']
}

/// The two digits of one byte, high nibble first.
pub open spec fn hex_pair(b: u8) -> Seq<char> {
    seq![hex_digits()[b as int / 16], hex_digits()[b as int % 16]]
}

/// The digits of a byte sequence: two per byte, in order.
pub open spec fn hex_text(bytes: Seq<u8>) -> Seq<char>
    decreases bytes.len(),
{
    if bytes.len() == 0 {
        Seq::empty()
    } else {
        hex_text(bytes.drop_last()) + hex_pair(bytes.last())
    }
}

/// The rendering has two characters per byte, and the characters at
/// `2 * i` and `2 * i + 1` are the digits of byte `i`.
pub proof fn lemma_hex_text_index(bytes: Seq<u8>, i: int)
    requires
        0 <= i < bytes.len(),
    ensures
        hex_text(bytes).len() == 2 * bytes.len(),
        hex_text(bytes)[2 * i] == hex_digits()[bytes[i] as int / 16],
        hex_text(bytes)[2 * i + 1] == hex_digits()[bytes[i] as int % 16],
    decreases bytes.len(),
{
    lemma_hex_text_len(bytes.drop_last());
    if i < bytes.len() - 1 {
        lemma_hex_text_index(bytes.drop_last(), i);
    }
}

/// The rendering has two characters per byte.
pub proof fn lemma_hex_text_len(bytes: Seq<u8>)
    ensures
        hex_text(bytes).len() == 2 * bytes.len(),
    decreases bytes.len(),
{
    if bytes.len() > 0 {
        lemma_hex_text_len(bytes.drop_last());
    }
}

/// The digit for a value below 16.
pub fn hexchar_repr(b: &u8) -> (r: Result<char, HexStringError>)
    ensures
        *b < 16 ==> r == Ok::<char, HexStringError>(hex_digits()[*b as int]),
        *b >= 16 ==> r == Err::<char, HexStringError>(HexStringError::InvalidHexChar(*b)),
{
    match *b {
        0 => Ok('0'),
        1 => Ok('1'),
        2 => Ok('2'),
        3 => Ok('3'),
        4 => Ok('4'),
        5 => Ok('5'),
        6 => Ok('6'),
        7 => Ok('7'),
        8 => Ok('8'),
        9 => Ok('9'),
        10 => Ok('a'),
        11 => Ok('b'),
        12 => Ok('c'),
        13 => Ok('d'),
        14 => Ok('e'),
        15 => Ok('f'),
        _ => Err(HexStringError::InvalidHexChar(*b)),
    }
}

/// The two digits of a byte, high nibble first.
pub fn u8_to_hex_string(b: &u8) -> (r: [char; 2])
    ensures
        r@ == hex_pair(*b),
{
    let hi: u8 = *b / 16;
    let lo: u8 = *b % 16;
    let upper = match hexchar_repr(&hi) {
        Ok(c) => c,
        Err(_) => unreached(),
    };
    let lower = match hexchar_repr(&lo) {
        Ok(c) => c,
        Err(_) => unreached(),
    };
    [upper, lower]
}

/// `String::push` of the standard library: the character is appended and
/// nothing else changes.
#[verifier::external_body]
fn push_char(s: &mut String, c: char)
    ensures
        final(s)@ == old(s)@.push(c),
{
    s.push(c);
}

/// Renders `bytes` as lowercase hexadecimal, two characters per byte.
pub fn encode_as_hex_string(bytes: &[u8]) -> (r: String)
    ensures
        r@ == hex_text(bytes@),
{
    let mut acc = String::new();
    let mut i: usize = 0;
    while i < bytes.len()
        invariant
            i <= bytes@.len(),
            acc@ == hex_text(bytes@.take(i as int)),
        decreases bytes@.len() - i,
    {
        let s = u8_to_hex_string(&bytes[i]);
        push_char(&mut acc, s[0]);
        push_char(&mut acc, s[1]);
        proof {
            let next = bytes@.take(i + 1);
            assert(next.drop_last() =~= bytes@.take(i as int));
        }
        i += 1;
    }
    proof {
        assert(bytes@.take(i as int) =~= bytes@);
    }
    acc
}

/// Values that render as a hexadecimal string.
pub trait IntoHexString {
    /// What the rendering is, as a sequence of characters.
    spec fn hex_spec(&self) -> Seq<char>;

    /// Renders the value.
    fn into_hex_string(&self) -> (r: String)
        ensures
            r@ == self.hex_spec(),
    ;
}

impl IntoHexString for [u8] {
    open spec fn hex_spec(&self) -> Seq<char> {
        hex_text(self@)
    }

    fn into_hex_string(&self) -> (r: String) {
        encode_as_hex_string(self)
    }
}

} // verus!
