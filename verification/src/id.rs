//! Content-hash identifiers: 32-byte ids rendered as lowercase hex.

use vstd::prelude::*;

verus! {

/// Number of bytes in an id.
pub const ID_LEN: usize = 32;

/// The value of one lowercase hex digit character, or none.
pub open spec fn hex_val(c: char) -> Option<u8> {
    if '0' <= c && c <= '9' {
        Some((c as u8 - '0' as u8) as u8)
    } else if 'a' <= c && c <= 'f' {
        Some((c as u8 - 'a' as u8 + 10) as u8)
    } else {
        None
    }
}

/// The lowercase hex digit character for a value below 16.
pub open spec fn hex_digit(v: u8) -> char
    recommends
        v < 16,
{
    if v < 10 {
        (('0' as u8 + v) as u8) as char
    } else {
        (('a' as u8 + (v - 10)) as u8) as char
    }
}

/// The lowercase hex rendering of a byte sequence, two digits per byte.
pub open spec fn hex_of_bytes(s: Seq<u8>) -> Seq<char>
    decreases s.len(),
{
    if s.len() == 0 {
        Seq::empty()
    } else {
        seq![hex_digit(s[0] / 16), hex_digit(s[0] % 16)] + hex_of_bytes(s.skip(1))
    }
}

/// A 32-byte content hash: the identity of every persisted object.
pub struct Id {
    bytes: Vec<u8>,
}

impl View for Id {
    type V = Seq<u8>;

    closed spec fn view(&self) -> Seq<u8> {
        self.bytes@
    }
}

impl DeepView for Id {
    type V = Seq<u8>;

    open spec fn deep_view(&self) -> Seq<u8> {
        self.view()
    }
}

impl Clone for Id {
    fn clone(&self) -> (r: Self)
        ensures
            r@ == self@,
    {
        Id { bytes: self.bytes.clone() }
    }
}

impl Id {
    /// A well-formed id holds exactly 32 bytes.
    pub open spec fn wf(&self) -> bool {
        self@.len() == ID_LEN
    }

    /// The id whose bytes are all zero.
    pub open spec fn spec_null() -> Seq<u8> {
        Seq::new(ID_LEN as nat, |i: int| 0u8)
    }

    /// Build an id from its 32 bytes.
    pub fn from_bytes(bytes: Vec<u8>) -> (r: Id)
        requires
            bytes@.len() == ID_LEN,
        ensures
            r@ == bytes@,
            r.wf(),
    {
        Id { bytes }
    }

    /// The all-zero id, used as a placeholder before a real hash is known.
    pub fn default() -> (r: Id)
        ensures
            r@ == Id::spec_null(),
            r.wf(),
    {
        let mut bytes: Vec<u8> = Vec::new();
        while bytes.len() < ID_LEN
            invariant
                bytes@.len() <= ID_LEN,
                forall|i: int| 0 <= i < bytes@.len() ==> bytes@[i] == 0u8,
            decreases ID_LEN - bytes@.len(),
        {
            bytes.push(0u8);
        }
        proof {
            assert(bytes@ =~= Id::spec_null());
        }
        Id { bytes }
    }

    /// The number of bytes held, 32 for a well-formed id.
    pub fn len_bytes(&self) -> (r: usize)
        ensures
            r == self@.len(),
    {
        self.bytes.len()
    }

    /// Read one byte of the id.
    pub fn byte_at(&self, i: usize) -> (r: u8)
        requires
            i < self@.len(),
        ensures
            r == self@[i as int],
    {
        self.bytes[i]
    }

    /// Whether the id is the all-zero placeholder.
    pub fn is_null(&self) -> (r: bool)
        requires
            self.wf(),
        ensures
            r == (self@ == Id::spec_null()),
    {
        let mut i: usize = 0;
        while i < ID_LEN
            invariant
                self.wf(),
                i <= ID_LEN,
                forall|j: int| 0 <= j < i ==> self@[j] == 0u8,
            decreases ID_LEN - i,
        {
            if self.bytes[i] != 0 {
                proof {
                    assert(self@[i as int] != Id::spec_null()[i as int]);
                }
                return false;
            }
            i += 1;
        }
        proof {
            assert(self@ =~= Id::spec_null());
        }
        true
    }

    /// Byte-for-byte equality of two ids.
    pub fn same(&self, other: &Id) -> (r: bool)
        ensures
            r == (self@ == other@),
    {
        bytes_eq(&self.bytes, &other.bytes)
    }

    /// Render the id as lowercase hex, two digits per byte.
    pub fn to_hex(&self) -> (r: Vec<char>)
        ensures
            r@ == hex_of_bytes(self@),
    {
        bytes_to_hex(&self.bytes)
    }

    /// Parse an id from exactly 64 lowercase hex digits.
    pub fn from_hex(s: &[char]) -> (r: Option<Id>)
        ensures
            r is Some <==> (s@.len() == 2 * ID_LEN && forall|i: int|
                0 <= i < s@.len() ==> hex_val(s@[i]) is Some),
            r matches Some(id) ==> id.wf() && hex_of_bytes(id@) == s@,
    {
        match bytes_from_hex(s) {
            Some(bytes) => {
                if bytes.len() == ID_LEN {
                    Some(Id { bytes })
                } else {
                    None
                }
            },
            None => None,
        }
    }
}

/// Byte-for-byte equality of two byte vectors.
pub fn bytes_eq(a: &Vec<u8>, b: &Vec<u8>) -> (r: bool)
    ensures
        r == (a@ == b@),
{
    if a.len() != b.len() {
        proof {
            assert(a@.len() != b@.len());
        }
        return false;
    }
    let mut i: usize = 0;
    while i < a.len()
        invariant
            a@.len() == b@.len(),
            i <= a@.len(),
            forall|j: int| 0 <= j < i ==> a@[j] == b@[j],
        decreases a@.len() - i,
    {
        if a[i] != b[i] {
            return false;
        }
        i += 1;
    }
    proof {
        assert(a@ =~= b@);
    }
    true
}

/// Render a byte sequence as lowercase hex.
pub fn bytes_to_hex(bytes: &Vec<u8>) -> (r: Vec<char>)
    ensures
        r@ == hex_of_bytes(bytes@),
{
    let mut out: Vec<char> = Vec::new();
    let mut i: usize = 0;
    while i < bytes.len()
        invariant
            i <= bytes@.len(),
            out@ == hex_of_bytes(bytes@.take(i as int)),
        decreases bytes@.len() - i,
    {
        let b = bytes[i];
        let hi: u8 = b / 16;
        let lo: u8 = b % 16;
        out.push(hex_digit_exec(hi));
        out.push(hex_digit_exec(lo));
        i += 1;
        proof {
            lemma_hex_of_bytes_snoc(bytes@, i as int);
        }
    }
    proof {
        assert(bytes@.take(bytes@.len() as int) =~= bytes@);
    }
    out
}

/// Parse a hex string into bytes: any even-length string of hex digits.
pub fn bytes_from_hex(s: &[char]) -> (r: Option<Vec<u8>>)
    ensures
        r is Some <==> (s@.len() % 2 == 0 && forall|i: int|
            0 <= i < s@.len() ==> hex_val(s@[i]) is Some),
        r matches Some(v) ==> hex_of_bytes(v@) == s@ && v@.len() * 2 == s@.len(),
{
    if s.len() % 2 != 0 {
        return None;
    }
    let mut out: Vec<u8> = Vec::new();
    let mut i: usize = 0;
    while i + 1 < s.len()
        invariant
            s@.len() % 2 == 0,
            i % 2 == 0,
            i <= s@.len(),
            hex_of_bytes(out@) == s@.take(i as int),
            out@.len() * 2 == i,
            forall|j: int| 0 <= j < i ==> hex_val(s@[j]) is Some,
        decreases s@.len() - i,
    {
        let hi = match hex_val_exec(s[i]) {
            Some(v) => v,
            None => {
                return None;
            },
        };
        let lo = match hex_val_exec(s[i + 1]) {
            Some(v) => v,
            None => {
                return None;
            },
        };
        let b: u8 = hi * 16 + lo;
        let ghost prev = out@;
        out.push(b);
        proof {
            lemma_hex_digit_val(hi);
            lemma_hex_digit_val(lo);
            assert(out@.take(out@.len() - 1) =~= prev);
            assert(hex_digit(b / 16) == s@[i as int]);
            assert(hex_digit(b % 16) == s@[i as int + 1]);
            lemma_hex_of_bytes_snoc2(out@, s@, i as int);
        }
        i += 2;
    }
    proof {
        assert(i == s@.len());
        assert(s@.take(i as int) =~= s@);
    }
    Some(out)
}

/// Exec form of `hex_digit`.
pub fn hex_digit_exec(v: u8) -> (r: char)
    requires
        v < 16,
    ensures
        r == hex_digit(v),
{
    if v < 10 {
        (('0' as u8 + v) as u8) as char
    } else {
        (('a' as u8 + (v - 10)) as u8) as char
    }
}

/// Exec form of `hex_val`.
pub fn hex_val_exec(c: char) -> (r: Option<u8>)
    ensures
        r == hex_val(c),
{
    if '0' <= c && c <= '9' {
        Some((c as u8 - '0' as u8) as u8)
    } else if 'a' <= c && c <= 'f' {
        Some((c as u8 - 'a' as u8 + 10) as u8)
    } else {
        None
    }
}

/// Round trip: the value of a hex digit is the digit's value.
pub proof fn lemma_hex_digit_val(v: u8)
    requires
        v < 16,
    ensures
        hex_val(hex_digit(v)) == Some(v),
{
}

/// Extending the byte prefix by one byte extends the hex rendering by two digits.
proof fn lemma_hex_of_bytes_snoc(s: Seq<u8>, i: int)
    requires
        1 <= i <= s.len(),
    ensures
        hex_of_bytes(s.take(i)) == hex_of_bytes(s.take(i - 1)) + seq![
            hex_digit(s[i - 1] / 16),
            hex_digit(s[i - 1] % 16),
        ],
    decreases i,
{
    if i == 1 {
        assert(s.take(1).skip(1) =~= Seq::<u8>::empty());
        assert(hex_of_bytes(Seq::<u8>::empty()) == Seq::<char>::empty());
        assert(s.take(1)[0] == s[0]);
        assert(hex_of_bytes(s.take(1)) =~= seq![hex_digit(s[0] / 16), hex_digit(s[0] % 16)]);
        assert(s.take(0) =~= Seq::<u8>::empty());
        assert(hex_of_bytes(s.take(0)) =~= Seq::<char>::empty());
    } else {
        lemma_hex_of_bytes_snoc(s.skip(1), i - 1);
        assert(s.take(i).skip(1) =~= s.skip(1).take(i - 1));
        assert(s.take(i - 1).skip(1) =~= s.skip(1).take(i - 2));
        assert(hex_of_bytes(s.take(i)) =~= seq![hex_digit(s[0] / 16), hex_digit(s[0] % 16)]
            + hex_of_bytes(s.skip(1).take(i - 1)));
        assert(hex_of_bytes(s.take(i - 1)) =~= seq![hex_digit(s[0] / 16), hex_digit(s[0] % 16)]
            + hex_of_bytes(s.skip(1).take(i - 2)));
        assert(hex_of_bytes(s.take(i)) =~= hex_of_bytes(s.take(i - 1)) + seq![
            hex_digit(s[i - 1] / 16),
            hex_digit(s[i - 1] % 16),
        ]);
    }
}

/// Appending a byte whose digits match the next two characters keeps the
/// parse-rendering correspondence.
proof fn lemma_hex_of_bytes_snoc2(out: Seq<u8>, s: Seq<char>, i: int)
    requires
        out.len() >= 1,
        0 <= i,
        i + 2 <= s.len(),
        hex_of_bytes(out.take(out.len() - 1)) == s.take(i),
        hex_digit(out[out.len() - 1] / 16) == s[i],
        hex_digit(out[out.len() - 1] % 16) == s[i + 1],
    ensures
        hex_of_bytes(out) == s.take(i + 2),
{
    lemma_hex_of_bytes_snoc(out, out.len() as int);
    assert(out.take(out.len() as int) =~= out);
    assert(hex_of_bytes(out) =~= s.take(i + 2));
}

} // verus!
