//! The repository config: version, repo id, and the chunker polynomial.

use vstd::prelude::*;

use crate::backend::{FileType, RepoFile};
use crate::errors::RepoError;
use crate::id::{hex_digit, hex_val, Id};

verus! {

/// The minimal lowercase hex rendering of a 64-bit value.
pub open spec fn spec_hex_u64(v: u64) -> Seq<char>
    decreases v,
{
    if v < 16 {
        seq![hex_digit(v as u8)]
    } else {
        spec_hex_u64(v / 16).push(hex_digit((v % 16) as u8))
    }
}

/// The value of a hex string, most significant digit first; none when
/// empty, malformed, or over 16 digits.
pub open spec fn spec_parse_hex_u64(s: Seq<char>) -> Option<u64> {
    if 1 <= s.len() <= 16 && (forall|i: int| 0 <= i < s.len() ==> hex_val(#[trigger] s[i]) is Some) {
        Some(spec_hex_value(s))
    } else {
        None
    }
}

/// The value of a sequence of hex digits.
pub open spec fn spec_hex_value(s: Seq<char>) -> u64
    decreases s.len(),
{
    if s.len() == 0 {
        0
    } else {
        vstd::wrapping::u64_specs::wrapping_add(
            vstd::wrapping::u64_specs::wrapping_mul(spec_hex_value(s.drop_last()), 16),
            (match hex_val(s.last()) {
                Some(v) => v,
                None => 0,
            }) as u64,
        )
    }
}

/// The repository configuration document.
pub struct ConfigFile {
    /// The repository format version: 1, or 2 with compression.
    pub version: u32,
    /// The repository's identity.
    pub id: Id,
    /// The chunker polynomial, as lowercase hex.
    pub chunker_polynomial: Vec<char>,
}

impl RepoFile for ConfigFile {
    fn file_type(&self) -> FileType {
        FileType::Config
    }
}

impl ConfigFile {
    /// Build a config carrying a chunker polynomial.
    pub fn new(version: u32, id: Id, poly: u64) -> (r: ConfigFile)
        ensures
            r.version == version,
            r.id@ == id@,
            r.chunker_polynomial@ == spec_hex_u64(poly),
    {
        let hex = hex_u64(poly);
        ConfigFile { version, id, chunker_polynomial: hex }
    }

    /// Read the chunker polynomial back from its hex rendering.
    pub fn poly(&self) -> (r: Result<u64, RepoError>)
        ensures
            r is Ok <==> spec_parse_hex_u64(self.chunker_polynomial@) is Some,
            r matches Ok(v) ==> Some(v) == spec_parse_hex_u64(self.chunker_polynomial@),
            r is Err ==> r == Err::<u64, RepoError>(RepoError::Config),
    {
        match parse_hex_u64(&self.chunker_polynomial) {
            Some(v) => Ok(v),
            None => Err(RepoError::Config),
        }
    }
}

/// Render a 64-bit value as minimal lowercase hex.
pub fn hex_u64(v: u64) -> (r: Vec<char>)
    ensures
        r@ == spec_hex_u64(v),
    decreases v,
{
    if v < 16 {
        let mut out: Vec<char> = Vec::new();
        out.push(crate::id::hex_digit_exec(v as u8));
        proof {
            assert(out@ =~= seq![hex_digit(v as u8)]);
        }
        out
    } else {
        let mut out = hex_u64(v / 16);
        out.push(crate::id::hex_digit_exec((v % 16) as u8));
        out
    }
}

/// Parse a minimal hex rendering of a 64-bit value.
pub fn parse_hex_u64(s: &Vec<char>) -> (r: Option<u64>)
    ensures
        r == spec_parse_hex_u64(s@),
{
    if s.len() == 0 || s.len() > 16 {
        return None;
    }
    let mut acc: u64 = 0;
    let mut i: usize = 0;
    proof {
        assert(s@.take(0) =~= Seq::<char>::empty());
    }
    while i < s.len()
        invariant
            i <= s@.len(),
            s@.len() <= 16,
            acc == spec_hex_value(s@.take(i as int)),
            forall|j: int| 0 <= j < i ==> hex_val(#[trigger] s@[j]) is Some,
        decreases s@.len() - i,
    {
        let d = match crate::id::hex_val_exec(s[i]) {
            Some(d) => d,
            None => {
                return None;
            },
        };
        acc = acc.wrapping_mul(16).wrapping_add(d as u64);
        proof {
            assert(s@.take(i as int + 1).drop_last() =~= s@.take(i as int));
            assert(s@.take(i as int + 1).last() == s@[i as int]);
        }
        i += 1;
    }
    proof {
        assert(s@.take(s@.len() as int) =~= s@);
    }
    Some(acc)
}

/// Round trip: the polynomial read back from a fresh config is the one
/// it was built with.
pub proof fn lemma_poly_round_trip(v: u64)
    ensures
        spec_parse_hex_u64(spec_hex_u64(v)) == Some(v),
    decreases v,
{
    lemma_hex_u64_digits(v);
    lemma_hex_u64_value(v);
}

/// A hex rendering is short and made of hex digits.
proof fn lemma_hex_u64_digits(v: u64)
    ensures
        1 <= spec_hex_u64(v).len() <= 16,
        forall|i: int|
            0 <= i < spec_hex_u64(v).len() ==> hex_val(#[trigger] spec_hex_u64(v)[i]) is Some,
        v >= 16 ==> spec_hex_u64(v).len() <= spec_hex_u64((v / 16) as u64).len() + 1,
    decreases v,
{
    if v < 16 {
        crate::id::lemma_hex_digit_val(v as u8);
    } else {
        lemma_hex_u64_digits((v / 16) as u64);
        crate::id::lemma_hex_digit_val((v % 16) as u8);
        lemma_hex_u64_short(v);
    }
}

/// The rendering of a value below 16^k has at most k digits.
proof fn lemma_hex_len_bound(v: u64, k: int)
    requires
        1 <= k <= 16,
        v < spec_pow16(k),
    ensures
        spec_hex_u64(v).len() <= k,
    decreases v,
{
    if v >= 16 {
        assert(v / 16 < spec_pow16(k - 1)) by {
            assert(spec_pow16(k) == 16 * spec_pow16(k - 1));
        }
        lemma_hex_len_bound((v / 16) as u64, k - 1);
    }
}

/// Sixteen to a small power.
pub open spec fn spec_pow16(k: int) -> int
    decreases k,
{
    if k <= 0 {
        1
    } else {
        16 * spec_pow16(k - 1)
    }
}

/// The value of a rendering is the value rendered.
proof fn lemma_hex_u64_value(v: u64)
    ensures
        spec_hex_value(spec_hex_u64(v)) == v,
    decreases v,
{
    if v < 16 {
        crate::id::lemma_hex_digit_val(v as u8);
        assert(spec_hex_u64(v).drop_last() =~= Seq::<char>::empty());
        assert(spec_hex_u64(v).last() == hex_digit(v as u8));
        assert(spec_hex_value(Seq::<char>::empty()) == 0);
        assert(vstd::wrapping::u64_specs::wrapping_mul(0u64, 16) == 0) by {
            vstd::arithmetic::div_mod::lemma_small_mod(0nat, 0x10000000000000000nat);
        }
        assert(vstd::wrapping::u64_specs::wrapping_add(0u64, v) == v);
    } else {
        lemma_hex_u64_value((v / 16) as u64);
        crate::id::lemma_hex_digit_val((v % 16) as u8);
        assert(spec_hex_u64(v).drop_last() =~= spec_hex_u64((v / 16) as u64));
        assert(spec_hex_value(spec_hex_u64(v)) == vstd::wrapping::u64_specs::wrapping_add(
            vstd::wrapping::u64_specs::wrapping_mul((v / 16) as u64, 16),
            (v % 16) as u64,
        ));
        assert((v / 16) * 16 + (v % 16) == v) by {
            vstd::arithmetic::div_mod::lemma_fundamental_div_mod(v as int, 16);
        }
        assert(((v / 16) as nat * 16) % 0x10000000000000000nat == (v / 16) as nat * 16) by {
            vstd::arithmetic::div_mod::lemma_small_mod(
                (v / 16) as nat * 16,
                0x10000000000000000nat,
            );
        }
        assert(vstd::wrapping::u64_specs::wrapping_mul((v / 16) as u64, 16) == (v / 16) * 16);
        assert(spec_hex_u64(v).last() == hex_digit((v % 16) as u8));
        assert(spec_hex_value(spec_hex_u64(v).drop_last()) == (v / 16) as u64);
        assert(vstd::wrapping::u64_specs::wrapping_add((((v / 16) * 16) as u64), ((v % 16) as u64))
            == v);
    }
}

/// A 16-digit cap keeps the parse within range.
proof fn lemma_hex_u64_short(v: u64)
    ensures
        spec_hex_u64(v).len() <= 16,
{
    reveal_with_fuel(spec_pow16, 17);
    assert(spec_pow16(16) > u64::MAX);
    lemma_hex_len_bound(v, 16);
}

} // verus!
