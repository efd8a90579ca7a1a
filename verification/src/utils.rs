use vstd::prelude::*;

verus! {

/// Relies on String::push: appends the given character to the end of
/// the string. vstd does not specify this method.
pub assume_specification[ String::push ](s: &mut String, c: char)
    ensures
        final(s)@ == old(s)@.push(c),
;

/// A hexadecimal digit, in either case.
pub open spec fn is_hex_digit(c: char) -> bool {
    let v = c as u32;
    (('0' as u32) <= v && v <= ('9' as u32)) || (('a' as u32) <= v && v <= ('f' as u32)) || ((
    'A' as u32) <= v && v <= ('F' as u32))
}

/// Every character of the sequence is a hexadecimal digit.
pub open spec fn is_hex_seq(s: Seq<char>) -> bool {
    forall|i: int| 0 <= i < s.len() ==> is_hex_digit(#[trigger] s[i])
}

/// Numeric value of one hexadecimal digit.
pub open spec fn hex_digit_value(c: char) -> int
    recommends
        is_hex_digit(c),
{
    let v = c as u32;
    if ('0' as u32) <= v && v <= ('9' as u32) {
        v - ('0' as u32)
    } else if ('a' as u32) <= v && v <= ('f' as u32) {
        v - ('a' as u32) + 10
    } else {
        v - ('A' as u32) + 10
    }
}

/// Lower-case hexadecimal digit for a value below sixteen.
pub open spec fn hex_digit_char(v: int) -> char
    recommends
        0 <= v < 16,
{
    if v == 0 {
        '0'
    } else if v == 1 {
        '1'
    } else if v == 2 {
        '2'
    } else if v == 3 {
        '3'
    } else if v == 4 {
        '4'
    } else if v == 5 {
        '5'
    } else if v == 6 {
        '6'
    } else if v == 7 {
        '7'
    } else if v == 8 {
        '8'
    } else if v == 9 {
        '9'
    } else if v == 10 {
        'a'
    } else if v == 11 {
        'b'
    } else if v == 12 {
        'c'
    } else if v == 13 {
        'd'
    } else if v == 14 {
        'e'
    } else {
        'f'
    }
}

/// Bytes encoded by a sequence of hexadecimal digits, two digits per
/// byte, high nibble first. A trailing odd digit is ignored.
pub open spec fn spec_hex_decode(s: Seq<char>) -> Seq<u8>
    decreases s.len(),
{
    if s.len() < 2 {
        Seq::empty()
    } else {
        seq![(hex_digit_value(s[0]) * 16 + hex_digit_value(s[1])) as u8] + spec_hex_decode(
            s.skip(2),
        )
    }
}

/// Lower-case hexadecimal rendering of a byte sequence.
pub open spec fn spec_hex_encode(b: Seq<u8>) -> Seq<char>
    decreases b.len(),
{
    if b.len() == 0 {
        Seq::empty()
    } else {
        seq![hex_digit_char(b[0] as int / 16), hex_digit_char(b[0] as int % 16)] + spec_hex_encode(
            b.skip(1),
        )
    }
}

/// A decoded sequence holds one byte for every two digits.
pub proof fn lemma_hex_decode_len(s: Seq<char>)
    ensures
        spec_hex_decode(s).len() == s.len() / 2,
    decreases s.len(),
{
    if s.len() < 2 {
    } else {
        lemma_hex_decode_len(s.skip(2));
    }
}

/// Decoding distributes over concatenation at an even split.
pub proof fn lemma_hex_decode_concat(a: Seq<char>, b: Seq<char>)
    requires
        a.len() % 2 == 0,
    ensures
        spec_hex_decode(a + b) == spec_hex_decode(a) + spec_hex_decode(b),
    decreases a.len(),
{
    if a.len() == 0 {
        assert(a + b =~= b);
        assert(spec_hex_decode(a) + spec_hex_decode(b) =~= spec_hex_decode(b));
    } else {
        assert((a + b).skip(2) =~= a.skip(2) + b);
        lemma_hex_decode_concat(a.skip(2), b);
        assert(spec_hex_decode(a + b) =~= spec_hex_decode(a) + spec_hex_decode(b));
    }
}

/// Encoding distributes over concatenation.
pub proof fn lemma_hex_encode_concat(a: Seq<u8>, b: Seq<u8>)
    ensures
        spec_hex_encode(a + b) == spec_hex_encode(a) + spec_hex_encode(b),
    decreases a.len(),
{
    if a.len() == 0 {
        assert(a + b =~= b);
        assert(spec_hex_encode(a) + spec_hex_encode(b) =~= spec_hex_encode(b));
    } else {
        assert((a + b).skip(1) =~= a.skip(1) + b);
        lemma_hex_encode_concat(a.skip(1), b);
        assert(spec_hex_encode(a + b) =~= spec_hex_encode(a) + spec_hex_encode(b));
    }
}

/// The encoding digits are hexadecimal digits and decode to the value
/// they were made from.
proof fn lemma_hex_char_value(v: int)
    requires
        0 <= v < 16,
    ensures
        is_hex_digit(hex_digit_char(v)),
        hex_digit_value(hex_digit_char(v)) == v,
{
}

/// Hexadecimal encoding is injective: decoding the encoding of any
/// byte sequence gives that sequence back, and the encoding is twice
/// as long and made of hexadecimal digits throughout.
pub proof fn lemma_hex_round_trip(b: Seq<u8>)
    ensures
        spec_hex_encode(b).len() == 2 * b.len(),
        is_hex_seq(spec_hex_encode(b)),
        spec_hex_decode(spec_hex_encode(b)) == b,
    decreases b.len(),
{
    if b.len() == 0 {
    } else {
        let hi = b[0] as int / 16;
        let lo = b[0] as int % 16;
        lemma_hex_round_trip(b.skip(1));
        lemma_hex_char_value(hi);
        lemma_hex_char_value(lo);
        let head = seq![hex_digit_char(hi), hex_digit_char(lo)];
        assert(spec_hex_encode(b) =~= head + spec_hex_encode(b.skip(1)));
        lemma_hex_decode_concat(head, spec_hex_encode(b.skip(1)));
        assert(head.skip(2) =~= Seq::<char>::empty());
        assert(spec_hex_decode(Seq::<char>::empty()) =~= Seq::<u8>::empty());
        assert(spec_hex_decode(head) =~= seq![(hi * 16 + lo) as u8]);
        assert(hi * 16 + lo == b[0] as int);
        assert(spec_hex_decode(spec_hex_encode(b)) =~= b);
        assert forall|i: int| 0 <= i < spec_hex_encode(b).len() implies is_hex_digit(
            #[trigger] spec_hex_encode(b)[i],
        ) by {
            if i >= 2 {
                assert(spec_hex_encode(b)[i] == spec_hex_encode(b.skip(1))[i - 2]);
            }
        }
    }
}

/// Numeric value of one hexadecimal digit, or nothing for any other
/// character.
pub fn hex_val(c: char) -> (r: Option<u8>)
    ensures
        r is Some <==> is_hex_digit(c),
        r matches Some(v) ==> v == hex_digit_value(c) && v < 16,
{
    let v = c as u32;
    if 48 <= v && v <= 57 {
        Some((v - 48) as u8)
    } else if 97 <= v && v <= 102 {
        Some((v - 97 + 10) as u8)
    } else if 65 <= v && v <= 70 {
        Some((v - 65 + 10) as u8)
    } else {
        None
    }
}

/// Lower-case hexadecimal digit for a value below sixteen.
pub fn hex_char_of(v: u8) -> (c: char)
    requires
        v < 16,
    ensures
        c == hex_digit_char(v as int),
{
    if v == 0 {
        '0'
    } else if v == 1 {
        '1'
    } else if v == 2 {
        '2'
    } else if v == 3 {
        '3'
    } else if v == 4 {
        '4'
    } else if v == 5 {
        '5'
    } else if v == 6 {
        '6'
    } else if v == 7 {
        '7'
    } else if v == 8 {
        '8'
    } else if v == 9 {
        '9'
    } else if v == 10 {
        'a'
    } else if v == 11 {
        'b'
    } else if v == 12 {
        'c'
    } else if v == 13 {
        'd'
    } else if v == 14 {
        'e'
    } else {
        'f'
    }
}

/// Decode a string of hexadecimal digits into bytes. Returns nothing
/// when the length is odd or any character is not a hexadecimal digit.
pub fn decode_hex(s: &str) -> (r: Option<Vec<u8>>)
    ensures
        r is Some <==> s@.len() % 2 == 0 && is_hex_seq(s@),
        r matches Some(v) ==> v@ == spec_hex_decode(s@),
{
    let n = s.unicode_len();
    if n % 2 != 0 {
        return None;
    }
    let mut out: Vec<u8> = Vec::new();
    let mut i: usize = 0;
    while i < n
        invariant
            i % 2 == 0,
            n % 2 == 0,
            i <= n,
            n == s@.len(),
            forall|j: int| 0 <= j < i ==> is_hex_digit(#[trigger] s@[j]),
            out@ == spec_hex_decode(s@.take(i as int)),
        decreases n - i,
    {
        proof {
            assert(i + 2 <= n) by (nonlinear_arith)
                requires
                    i < n,
                    i % 2 == 0,
                    n % 2 == 0,
            ;
        }
        let c1 = s.get_char(i);
        let c2 = s.get_char(i + 1);
        let v1 = match hex_val(c1) {
            Some(v) => v,
            None => {
                return None;
            },
        };
        let v2 = match hex_val(c2) {
            Some(v) => v,
            None => {
                return None;
            },
        };
        proof {
            assert(s@.take(i + 2) =~= s@.take(i as int) + seq![c1, c2]);
            lemma_hex_decode_concat(s@.take(i as int), seq![c1, c2]);
            assert(seq![c1, c2].skip(2) =~= Seq::<char>::empty());
            assert(spec_hex_decode(Seq::<char>::empty()) =~= Seq::<u8>::empty());
            assert(spec_hex_decode(seq![c1, c2]) =~= seq![
                (hex_digit_value(c1) * 16 + hex_digit_value(c2)) as u8,
            ]);
        }
        out.push(v1 * 16 + v2);
        i = i + 2;
    }
    proof {
        assert(s@.take(n as int) =~= s@);
    }
    Some(out)
}

/// Render bytes as lower-case hexadecimal digits, two per byte.
pub fn encode_hex(bytes: &[u8]) -> (r: String)
    ensures
        r@ == spec_hex_encode(bytes@),
{
    let mut out = String::new();
    let n = bytes.len();
    let mut i: usize = 0;
    while i < n
        invariant
            i <= n,
            n == bytes@.len(),
            out@ == spec_hex_encode(bytes@.take(i as int)),
        decreases n - i,
    {
        let b = bytes[i];
        proof {
            assert(bytes@.take(i + 1) =~= bytes@.take(i as int) + seq![bytes@[i as int]]);
            lemma_hex_encode_concat(bytes@.take(i as int), seq![bytes@[i as int]]);
            assert(seq![bytes@[i as int]].skip(1) =~= Seq::<u8>::empty());
            assert(spec_hex_encode(Seq::<u8>::empty()) =~= Seq::<char>::empty());
            assert(spec_hex_encode(seq![bytes@[i as int]]) =~= seq![
                hex_digit_char(bytes@[i as int] as int / 16),
                hex_digit_char(bytes@[i as int] as int % 16),
            ]);
        }
        out.push(hex_char_of(b / 16));
        out.push(hex_char_of(b % 16));
        i = i + 1;
    }
    proof {
        assert(bytes@.take(n as int) =~= bytes@);
    }
    out
}

/// A byte count, displayed by the operator log in a scaled unit.
#[derive(Debug, PartialEq, Eq, PartialOrd, Ord, Structural)]
pub struct BytesSize(pub usize);

/// The unit a byte count is scaled to when displayed.
#[derive(Debug, Clone, Copy, PartialEq, Eq, Structural)]
pub enum ByteUnit {
    B,
    KB,
    MB,
    GB,
}

impl BytesSize {
    /// The display unit: bytes below 2^10, kibibytes below 2^20,
    /// mebibytes below 2^30, gibibytes from there on.
    pub fn unit(&self) -> (u: ByteUnit)
        ensures
            u == ByteUnit::B <==> self.0 < 1024,
            u == ByteUnit::KB <==> 1024 <= self.0 < 1048576,
            u == ByteUnit::MB <==> 1048576 <= self.0 < 1073741824,
            u == ByteUnit::GB <==> self.0 >= 1073741824,
    {
        if self.0 < 1024 {
            ByteUnit::B
        } else if self.0 < 1048576 {
            ByteUnit::KB
        } else if self.0 < 1073741824 {
            ByteUnit::MB
        } else {
            ByteUnit::GB
        }
    }
}

} // verus!
