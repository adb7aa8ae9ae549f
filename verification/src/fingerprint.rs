//! The fingerprint of the sources.
use crate::source_walk::SourceWalk;
use sha2::Digest;
use vstd::prelude::*;

verus! {

/// The number of bytes from which on the length of a message, counted in bits,
/// does not fit the 64 bits that the digest has for it.
pub const MESSAGE_LIMIT: u64 = 0x2000_0000_0000_0000;

/// The SHA-256 digest of `data`.
pub uninterp spec fn sha256(data: Seq<u8>) -> [u8; 32];

/// Calls `sha2::Sha256::digest`. The contract claims that the digest depends on
/// the bytes alone, and names it `sha256`. The length of the message in bits
/// has to fit a `u64`.
#[verifier::external_body]
fn sha256_digest(data: &[u8]) -> (r: [u8; 32])
    requires
        data@.len() < MESSAGE_LIMIT,
    ensures
        r@ == sha256(data@)@,
{
    sha2::Sha256::digest(data).into()
}

/// The hexadecimal digit of `n`, in lower case.
pub open spec fn hex_digit(n: int) -> char {
    "0123456789abcdef"@[n]
}

/// Whether `c` is a hexadecimal digit in lower case.
pub open spec fn is_hex_digit(c: char) -> bool {
    '0' <= c <= '9' || 'a' <= c <= 'f'
}

/// The bytes in hexadecimal, two digits for each.
pub open spec fn hex(bytes: Seq<u8>) -> Seq<char> {
    Seq::new(
        2 * bytes.len(),
        |i: int|
            if i % 2 == 0 {
                hex_digit(bytes[i / 2] as int / 16)
            } else {
                hex_digit(bytes[i / 2] as int % 16)
            },
    )
}

/// The fingerprint that a digest gives: its first sixteen bytes in hexadecimal.
pub open spec fn fingerprint_of(digest: Seq<u8>) -> Seq<char> {
    hex(digest.take(16))
}

/// The fingerprint that a digest gives: its first sixteen bytes in hexadecimal.
pub fn fingerprint_text(digest: &[u8]) -> (r: String)
    requires
        digest@.len() >= 16,
    ensures
        r@ == fingerprint_of(digest@),
{
    let digits = "0123456789abcdef";
    let mut out = String::new();
    let mut i: usize = 0;
    proof {
        reveal_strlit("0123456789abcdef");
        assert(hex(digest@.take(0)) =~= Seq::empty());
    }
    while i < 16
        invariant
            i <= 16,
            digest@.len() >= 16,
            digits@ == "0123456789abcdef"@,
            digits@.len() == 16,
            out@ == hex(digest@.take(i as int)),
        decreases 16 - i,
    {
        let b: usize = digest[i] as usize;
        let ghost before = out@;
        out.append(digits.substring_char(b / 16, b / 16 + 1));
        out.append(digits.substring_char(b % 16, b % 16 + 1));
        proof {
            let done = digest@.take(i as int);
            let next = digest@.take(i + 1);
            assert(out@ =~= before.push(hex_digit(b as int / 16)).push(hex_digit(b as int % 16)));
            assert forall|k: int| 0 <= k < out@.len() implies out@[k] == #[trigger] hex(next)[k] by {
                if k < 2 * i {
                    assert(out@[k] == hex(done)[k]);
                    assert(k / 2 < i);
                    assert(done[k / 2] == next[k / 2]);
                } else {
                    assert(k / 2 == i);
                    assert(next[i as int] == digest@[i as int]);
                }
            }
            assert(out@ =~= hex(next));
        }
        i = i + 1;
    }
    out
}

/// Content fingerprint of every workspace source tree that lands in the
/// auto-optimized archives: the crates this build compiles plus their
/// transitive workspace path-deps, plus the workspace manifests. Embedded in
/// the build stamp so a `target/perry-auto-<hash>` dir whose archives were
/// built from DIFFERENT sources can never pass the freshness gate. The mtime
/// check alone is blind to that: a cache restore can hand back archives "newer"
/// than a fresh checkout's sources, and Cargo.lock carries no checksum for path
/// deps. Nothing while the walk is not done.
pub fn auto_optimized_source_fingerprint(walk: &SourceWalk) -> (r: Option<String>)
    requires
        walk@.stream.len() < MESSAGE_LIMIT,
    ensures
        match r {
            Some(text) => walk@.pending.len() == 0 && text@ == fingerprint_of(
                sha256(walk@.stream)@,
            ),
            None => walk@.pending.len() > 0,
        },
{
    match walk.next_path() {
        Some(_) => None,
        None => {
            let digest = sha256_digest(walk.stream().as_slice());
            Some(fingerprint_text(digest.as_slice()))
        },
    }
}

/// Whether two different streams have the same fingerprint.
pub open spec fn collide(a: Seq<u8>, b: Seq<u8>) -> bool {
    a != b && sha256(a)@.take(16) == sha256(b)@.take(16)
}

proof fn lemma_digits()
    ensures
        "0123456789abcdef"@.len() == 16,
        forall|i: int, j: int|
            0 <= i < 16 && 0 <= j < 16 && #[trigger] hex_digit(i) == #[trigger] hex_digit(j) ==> i
                == j,
        forall|i: int| 0 <= i < 16 ==> is_hex_digit(#[trigger] hex_digit(i)),
{
    reveal_strlit("0123456789abcdef");
    let d = "0123456789abcdef"@;
    assert(d[0] == '0' && d[1] == '1' && d[2] == '2' && d[3] == '3');
    assert(d[4] == '4' && d[5] == '5' && d[6] == '6' && d[7] == '7');
    assert(d[8] == '8' && d[9] == '9' && d[10] == 'a' && d[11] == 'b');
    assert(d[12] == 'c' && d[13] == 'd' && d[14] == 'e' && d[15] == 'f');
}

/// A fingerprint is thirty-two hexadecimal digits in lower case, and so fits a
/// line.
pub proof fn law_fingerprint_fits_a_line(digest: Seq<u8>)
    requires
        digest.len() >= 16,
    ensures
        fingerprint_of(digest).len() == 32,
        forall|i: int| 0 <= i < 32 ==> is_hex_digit(#[trigger] fingerprint_of(digest)[i]),
        !fingerprint_of(digest).contains('\n'),
{
    lemma_digits();
    let t = fingerprint_of(digest);
    assert forall|i: int| 0 <= i < 32 implies is_hex_digit(#[trigger] t[i]) by {
        let b = digest.take(16)[i / 2] as int;
        if i % 2 == 0 {
            assert(t[i] == hex_digit(b / 16));
        } else {
            assert(t[i] == hex_digit(b % 16));
        }
    }
}

/// Equal fingerprints come from digests with the same first sixteen bytes.
pub proof fn law_fingerprint_identifies_the_digest(a: Seq<u8>, b: Seq<u8>)
    requires
        a.len() >= 16,
        b.len() >= 16,
        fingerprint_of(a) == fingerprint_of(b),
    ensures
        a.take(16) == b.take(16),
{
    lemma_digits();
    let x = a.take(16);
    let y = b.take(16);
    assert forall|i: int| 0 <= i < 16 implies x[i] == y[i] by {
        let p = x[i] as int;
        let q = y[i] as int;
        assert(hex(x)[2 * i] == hex_digit(p / 16));
        assert(hex(y)[2 * i] == hex_digit(q / 16));
        assert(hex(x)[2 * i + 1] == hex_digit(p % 16));
        assert(hex(y)[2 * i + 1] == hex_digit(q % 16));
        assert(p / 16 == q / 16);
        assert(p % 16 == q % 16);
    }
    assert(x =~= y);
}

/// The number that a hexadecimal digit stands for.
pub open spec fn digit_value(c: char) -> int {
    if '0' <= c <= '9' {
        c as int - '0' as int
    } else {
        c as int - 'a' as int + 10
    }
}

/// Two digits of a fingerprint, read as a number of base sixteen, are the byte of
/// the digest at their place, for each of its first sixteen bytes.
pub proof fn law_fingerprint_spells_the_digest(digest: Seq<u8>, i: int)
    requires
        digest.len() >= 16,
        0 <= i < 16,
    ensures
        fingerprint_of(digest).len() == 32,
        is_hex_digit(fingerprint_of(digest)[2 * i]),
        is_hex_digit(fingerprint_of(digest)[2 * i + 1]),
        digest[i] as int == 16 * digit_value(fingerprint_of(digest)[2 * i]) + digit_value(
            fingerprint_of(digest)[2 * i + 1],
        ),
{
    lemma_digits();
    reveal_strlit("0123456789abcdef");
    let b = digest[i] as int;
    let d = "0123456789abcdef"@;
    assert(d[0] == '0' && d[1] == '1' && d[2] == '2' && d[3] == '3');
    assert(d[4] == '4' && d[5] == '5' && d[6] == '6' && d[7] == '7');
    assert(d[8] == '8' && d[9] == '9' && d[10] == 'a' && d[11] == 'b');
    assert(d[12] == 'c' && d[13] == 'd' && d[14] == 'e' && d[15] == 'f');
    assert forall|n: int| 0 <= n < 16 implies digit_value(#[trigger] hex_digit(n)) == n by {
        assert(n == 0 || n == 1 || n == 2 || n == 3 || n == 4 || n == 5 || n == 6 || n == 7 || n
            == 8 || n == 9 || n == 10 || n == 11 || n == 12 || n == 13 || n == 14 || n == 15);
    }
    assert(digest.take(16)[i] == digest[i]);
    assert(fingerprint_of(digest)[2 * i] == hex_digit(b / 16));
    assert(fingerprint_of(digest)[2 * i + 1] == hex_digit(b % 16));
}

} // verus!
