//! Fixed-layout binary codec for the fitted coefficients.
//!
//! The coefficient file is exactly 16 bytes: the intercept followed by the
//! slope, each stored as the eight big-endian bytes of a 64-bit value (the
//! bit pattern of an IEEE-754 double). The codec works on the bit patterns;
//! the caller converts them to and from its floating-point values.

use vstd::prelude::*;
use vstd::string::*;
use crate::args::FileParser;

verus! {

/// The two fitted coefficients, each held as the 64-bit pattern of the
/// IEEE-754 double that the coefficient file stores.
#[derive(Clone, Copy, PartialEq, Eq, Structural, Debug)]
pub struct ThetaBits {
    pub intercept: u64,
    pub slope: u64,
}

/// Marker for the `-f` / `--file` argument naming the coefficient file.
pub struct ThetaFileArg;

impl FileParser for ThetaFileArg {
    open spec fn spec_file_names() -> Seq<Seq<char>> {
        seq!["-f"@, "--file"@]
    }

    fn file_names() -> (r: Vec<String>) {
        let mut r: Vec<String> = Vec::new();
        r.push(String::from_str("-f"));
        r.push(String::from_str("--file"));
        proof {
            assert(r.deep_view() =~= seq!["-f"@, "--file"@]);
        }
        r
    }
}

/// Exact length of a well-formed coefficient file, in bytes.
pub const THETA_FILE_LEN: usize = 16;

/// Numeric value of a big-endian byte string.
pub open spec fn be_val(s: Seq<u8>) -> nat
    decreases s.len(),
{
    if s.len() == 0 {
        0
    } else {
        (be_val(s.drop_last()) * 256 + s.last()) as nat
    }
}

/// The `n` big-endian bytes of `x` (lowest `n` base-256 digits).
pub open spec fn be_bytes_n(x: nat, n: nat) -> Seq<u8>
    decreases n,
{
    if n == 0 {
        Seq::empty()
    } else {
        be_bytes_n(x / 256, (n - 1) as nat).push((x % 256) as u8)
    }
}

pub open spec fn pow256(n: nat) -> nat
    decreases n,
{
    if n == 0 {
        1
    } else {
        256 * pow256((n - 1) as nat)
    }
}

/// The byte string that encodes a coefficient pair.
pub open spec fn theta_file_image(t: ThetaBits) -> Seq<u8> {
    be_bytes_n(t.intercept as nat, 8) + be_bytes_n(t.slope as nat, 8)
}

/// What decoding a candidate file content yields: the coefficient pair if
/// and only if the content is exactly 16 bytes long.
pub open spec fn spec_read_theta(bytes: Seq<u8>) -> Option<ThetaBits> {
    if bytes.len() == 16 {
        Some(
            ThetaBits {
                intercept: be_val(bytes.subrange(0, 8)) as u64,
                slope: be_val(bytes.subrange(8, 16)) as u64,
            },
        )
    } else {
        None
    }
}

/// The fallback policy of the loader: absent or ill-sized content yields the
/// zero pair (the all-zero pattern is the double `0.0`).
pub open spec fn spec_get_theta(contents: Option<Seq<u8>>) -> ThetaBits {
    match contents {
        Some(bytes) => match spec_read_theta(bytes) {
            Some(t) => t,
            None => ThetaBits { intercept: 0, slope: 0 },
        },
        None => ThetaBits { intercept: 0, slope: 0 },
    }
}

proof fn lemma_pow256_pos(n: nat)
    ensures
        pow256(n) >= 1,
    decreases n,
{
    if n > 0 {
        lemma_pow256_pos((n - 1) as nat);
    }
}

proof fn lemma_pow256_le(a: nat, b: nat)
    requires
        a <= b,
    ensures
        pow256(a) <= pow256(b),
    decreases b,
{
    if a < b {
        lemma_pow256_le(a, (b - 1) as nat);
        lemma_pow256_pos((b - 1) as nat);
    }
}

proof fn lemma_pow256_8()
    ensures
        pow256(8) == 0x1_0000_0000_0000_0000,
{
    reveal_with_fuel(pow256, 9);
}

/// A value below `pow256(n)` is recovered exactly from its `n` big-endian
/// bytes.
proof fn lemma_be_val_of_be_bytes_n(x: nat, n: nat)
    requires
        x < pow256(n),
    ensures
        be_bytes_n(x, n).len() == n,
        be_val(be_bytes_n(x, n)) == x,
    decreases n,
{
    if n > 0 {
        let m = (n - 1) as nat;
        assert(x / 256 < pow256(m)) by (nonlinear_arith)
            requires
                x < 256 * pow256(m),
        ;
        lemma_be_val_of_be_bytes_n(x / 256, m);
        let s = be_bytes_n(x, n);
        assert(s.drop_last() =~= be_bytes_n(x / 256, m));
        assert(x == 256 * (x / 256) + x % 256) by (nonlinear_arith);
    }
}

/// Round trip of the coefficient codec: the 16-byte image of any coefficient
/// pair decodes to that same pair, bit for bit.
pub proof fn lemma_theta_round_trip(t: ThetaBits)
    ensures
        spec_read_theta(theta_file_image(t)) == Some(t),
{
    lemma_pow256_8();
    lemma_be_val_of_be_bytes_n(t.intercept as nat, 8);
    lemma_be_val_of_be_bytes_n(t.slope as nat, 8);
    let img = theta_file_image(t);
    assert(img.subrange(0, 8) =~= be_bytes_n(t.intercept as nat, 8));
    assert(img.subrange(8, 16) =~= be_bytes_n(t.slope as nat, 8));
}

/// A coefficient file of any length other than 16 bytes makes the loader
/// fall back to the zero pair rather than fail.
pub proof fn lemma_get_theta_fallback(bytes: Seq<u8>)
    requires
        bytes.len() != 16,
    ensures
        spec_get_theta(Some(bytes)) == (ThetaBits { intercept: 0, slope: 0 }),
{
}

/// Appends the `n` big-endian bytes of `x` to `out`.
fn push_be(out: &mut Vec<u8>, x: u64, n: usize)
    requires
        n <= 8,
        x < pow256(n as nat),
        old(out)@.len() + n <= usize::MAX,
    ensures
        final(out)@ =~= old(out)@ + be_bytes_n(x as nat, n as nat),
    decreases n,
{
    if n > 0 {
        proof {
            assert(x as nat / 256 < pow256((n - 1) as nat)) by (nonlinear_arith)
                requires
                    (x as nat) < 256 * pow256((n - 1) as nat),
            ;
        }
        push_be(out, x / 256, n - 1);
        out.push((x % 256) as u8);
    }
}

/// Encodes a coefficient pair as the 16-byte content of the coefficient
/// file: big-endian intercept bits, then big-endian slope bits.
pub fn theta_to_bytes(t: ThetaBits) -> (r: Vec<u8>)
    ensures
        r@ =~= theta_file_image(t),
        r@.len() == 16,
{
    proof {
        lemma_pow256_8();
        lemma_be_val_of_be_bytes_n(t.intercept as nat, 8);
        lemma_be_val_of_be_bytes_n(t.slope as nat, 8);
    }
    let mut out: Vec<u8> = Vec::new();
    push_be(&mut out, t.intercept, 8);
    push_be(&mut out, t.slope, 8);
    out
}

/// Reads the big-endian value of `bytes[start .. start + n]`.
fn read_be(bytes: &Vec<u8>, start: usize, n: usize) -> (r: u64)
    requires
        n <= 8,
        start + n <= bytes@.len(),
        start + n <= usize::MAX,
    ensures
        r as nat == be_val(bytes@.subrange(start as int, start as int + n)),
{
    let mut r: u64 = 0;
    let mut i: usize = 0;
    while i < n
        invariant
            i <= n,
            n <= 8,
            start + n <= bytes@.len(),
            start + n <= usize::MAX,
            r as nat == be_val(bytes@.subrange(start as int, start as int + i)),
            (r as nat) < pow256(i as nat),
        decreases n - i,
    {
        proof {
            lemma_pow256_le(i as nat, 7);
            assert(pow256(7) == 0x100_0000_0000_0000) by {
                reveal_with_fuel(pow256, 8);
            }
            let pre = bytes@.subrange(start as int, start as int + i + 1);
            assert(pre.drop_last() =~= bytes@.subrange(start as int, start as int + i));
        }
        r = r * 256 + (bytes[start + i] as u64);
        i = i + 1;
    }
    r
}

/// Decodes a candidate coefficient file content; any length other than 16
/// bytes is a format error.
pub fn read_theta(bytes: &Vec<u8>) -> (r: Option<ThetaBits>)
    ensures
        r == spec_read_theta(bytes@),
{
    if bytes.len() != THETA_FILE_LEN {
        None
    } else {
        let intercept = read_be(bytes, 0, 8);
        let slope = read_be(bytes, 8, 8);
        Some(ThetaBits { intercept, slope })
    }
}

/// The coefficients to work with, given what could be read of the
/// coefficient file: `None` when the file was absent or unreadable. Falls
/// back to the zero pair instead of failing.
pub fn get_theta(contents: Option<&Vec<u8>>) -> (r: ThetaBits)
    ensures
        r == spec_get_theta(match contents {
            Some(b) => Some(b@),
            None => None,
        }),
{
    match contents {
        Some(bytes) => match read_theta(bytes) {
            Some(t) => t,
            None => ThetaBits { intercept: 0, slope: 0 },
        },
        None => ThetaBits { intercept: 0, slope: 0 },
    }
}

} // verus!
