//! The content hash of a profile: the SHA-256 digest of the UTF-8 bytes of its
//! canonical text, in lower-case hexadecimal.

use crate::encoding::{hex_digit, lemma_hex_digit_unique, profile_encoding};
use crate::model::{OntoProfile, ProfileView};
use sha2::{Digest, Sha256};
use vstd::prelude::*;
use vstd::string::StringExecFns;
use vstd::utf8::encode_utf8;

verus! {

/// The SHA-256 digest of `data`.
pub uninterp spec fn sha256(data: Seq<u8>) -> Seq<u8>;

/// The SHA-256 digest of `data`, as `sha2::Sha256::digest` computes it.
///
/// Not proved: that the bytes returned are the digest of `data` and of
/// nothing else, and that there are thirty-two of them. The crate fixes the
/// output size of `Sha256` at thirty-two bytes in the type of the hasher.
#[verifier::external_body]
fn sha256_digest(data: &[u8]) -> (digest: Vec<u8>)
    ensures
        digest@ == sha256(data@),
        digest@.len() == 32,
{
    Sha256::digest(data).to_vec()
}

/// A hexadecimal digit in lower case.
pub open spec fn is_lower_hex(c: char) -> bool {
    ('0' <= c && c <= '9') || ('a' <= c && c <= 'f')
}

/// The bytes in hexadecimal: two lower-case digits for each byte, the high
/// half first.
pub open spec fn hex_of(bytes: Seq<u8>) -> Seq<char> {
    Seq::new(
        2 * bytes.len(),
        |i: int|
            if i % 2 == 0 {
                hex_digit(bytes[i / 2] as int / 16)
            } else {
                hex_digit(bytes[i / 2] as int % 16)
            },
    )
}

/// The content hash of a profile.
pub open spec fn profile_hash(p: ProfileView) -> Seq<char> {
    hex_of(sha256(encode_utf8(profile_encoding(p))))
}

/// The numeral of a hexadecimal digit.
fn hex_digit_str(n: u8) -> (text: &'static str)
    requires
        n < 16,
    ensures
        text@ == seq![hex_digit(n as int)],
{
    let text = if n == 0 {
        "0"
    } else if n == 1 {
        "1"
    } else if n == 2 {
        "2"
    } else if n == 3 {
        "3"
    } else if n == 4 {
        "4"
    } else if n == 5 {
        "5"
    } else if n == 6 {
        "6"
    } else if n == 7 {
        "7"
    } else if n == 8 {
        "8"
    } else if n == 9 {
        "9"
    } else if n == 10 {
        "a"
    } else if n == 11 {
        "b"
    } else if n == 12 {
        "c"
    } else if n == 13 {
        "d"
    } else if n == 14 {
        "e"
    } else {
        "f"
    };
    proof {
        reveal_strlit("0");
        reveal_strlit("1");
        reveal_strlit("2");
        reveal_strlit("3");
        reveal_strlit("4");
        reveal_strlit("5");
        reveal_strlit("6");
        reveal_strlit("7");
        reveal_strlit("8");
        reveal_strlit("9");
        reveal_strlit("a");
        reveal_strlit("b");
        reveal_strlit("c");
        reveal_strlit("d");
        reveal_strlit("e");
        reveal_strlit("f");
        assert(text@ =~= seq![hex_digit(n as int)]);
    }
    text
}

/// Every letter of a hexadecimal text is a lower-case hexadecimal digit.
pub proof fn lemma_hex_of_letters(bytes: Seq<u8>)
    ensures
        hex_of(bytes).len() == 2 * bytes.len(),
        forall|i: int| 0 <= i < hex_of(bytes).len() ==> is_lower_hex(#[trigger] hex_of(bytes)[i]),
{
    assert forall|i: int| 0 <= i < hex_of(bytes).len() implies is_lower_hex(
        #[trigger] hex_of(bytes)[i],
    ) by {
        let b = bytes[i / 2] as int;
        assert(0 <= b / 16 < 16 && 0 <= b % 16 < 16);
        assert(forall|n: int| 0 <= n < 16 ==> is_lower_hex(#[trigger] hex_digit(n)));
    }
}

/// A hexadecimal text stands for one sequence of bytes only.
pub proof fn lemma_hex_of_unique(x: Seq<u8>, y: Seq<u8>)
    requires
        hex_of(x) == hex_of(y),
    ensures
        x == y,
{
    assert(hex_of(x).len() == 2 * x.len());
    assert(hex_of(y).len() == 2 * y.len());
    assert(x.len() == y.len());
    assert forall|i: int| 0 <= i < x.len() implies x[i] == y[i] by {
        assert((2 * i) / 2 == i && (2 * i) % 2 == 0);
        assert((2 * i + 1) / 2 == i && (2 * i + 1) % 2 == 1);
        assert(hex_of(x)[2 * i] == hex_digit(x[i] as int / 16));
        assert(hex_of(y)[2 * i] == hex_digit(y[i] as int / 16));
        assert(hex_of(x)[2 * i + 1] == hex_digit(x[i] as int % 16));
        assert(hex_of(y)[2 * i + 1] == hex_digit(y[i] as int % 16));
        lemma_hex_digit_unique(x[i] as int / 16, y[i] as int / 16);
        lemma_hex_digit_unique(x[i] as int % 16, y[i] as int % 16);
    }
    assert(x =~= y);
}

/// The bytes in hexadecimal: two lower-case digits for each byte, the high
/// half first.
pub fn hex_lower(bytes: &[u8]) -> (text: String)
    ensures
        text@ == hex_of(bytes@),
{
    let mut text = String::new();
    let mut i: usize = 0;
    assert(text@ =~= hex_of(bytes@.take(0)));
    while i < bytes.len()
        invariant
            i <= bytes.len(),
            text@ == hex_of(bytes@.take(i as int)),
        decreases bytes.len() - i,
    {
        let b: u8 = bytes[i];
        text.append(hex_digit_str(b / 16));
        text.append(hex_digit_str(b % 16));
        i += 1;
        assert(text@ =~= hex_of(bytes@.take(i as int)));
    }
    assert(bytes@.take(bytes@.len() as int) =~= bytes@);
    text
}

impl OntoProfile {
    /// The content hash of the profile: sixty-four lower-case hexadecimal
    /// digits, the same for the same profile wherever and whenever it is
    /// taken.
    ///
    /// The hash is taken of the whole canonical text, so it answers to every
    /// field of the profile and of each node, and to the order of the nodes
    /// and of the links. The profile is not changed.
    pub fn hash(&self) -> (digest: String)
        ensures
            digest@ == profile_hash(self@),
            self@.well_formed(),
            digest@.len() == 64,
            forall|i: int| 0 <= i < 64 ==> is_lower_hex(#[trigger] digest@[i]),
    {
        let text = self.encode();
        let bytes = sha256_digest(text.as_str().as_bytes());
        proof {
            lemma_hex_of_letters(bytes@);
        }
        hex_lower(bytes.as_slice())
    }
}

/// A copy of a profile has the profile's hash.
pub proof fn lemma_clone_keeps_hash(a: OntoProfile, copy: OntoProfile)
    requires
        cloned::<OntoProfile>(a, copy),
    ensures
        copy@ == a@,
        profile_hash(copy@) == profile_hash(a@),
{
}

/// Two profiles that hold the same have the same hash.
pub proof fn lemma_hash_of_same(a: OntoProfile, b: OntoProfile)
    requires
        a@ == b@,
    ensures
        profile_hash(a@) == profile_hash(b@),
{
}

} // verus!
