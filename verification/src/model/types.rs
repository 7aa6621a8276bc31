//! Identifiers, layer and partition kinds, and the line-level diff representation.

use crate::text::{push_char, lines_view};
use vstd::string::StringSliceAdditionalSpecFns;
use vstd::string::StringExecFns;
use vstd::prelude::*;

verus! {

broadcast use vstd::string::group_string_axioms;

// ---------------------------------------------------------------------------
// Agent instance identifier
// ---------------------------------------------------------------------------

/// Identifier of one agent instance.
#[derive(Debug)]
pub struct AgentInstanceId(pub String);

impl AgentInstanceId {
    /// The identifier as text (what `Display` prints).
    pub fn to_string(&self) -> (r: String)
        ensures
            r@ == self.0@,
    {
        self.0.clone()
    }

    pub fn duplicate(&self) -> (r: AgentInstanceId)
        ensures
            r.0@ == self.0@,
    {
        AgentInstanceId(self.0.clone())
    }
}

impl Clone for AgentInstanceId {
    fn clone(&self) -> (r: Self)
        ensures
            r.0@ == self.0@,
    {
        AgentInstanceId(self.0.clone())
    }
}

impl<'a> From<&'a str> for AgentInstanceId {
    fn from(s: &'a str) -> (r: Self) {
        AgentInstanceId(String::from_str(s))
    }
}

impl<'a> vstd::std_specs::convert::FromSpecImpl<&'a str> for AgentInstanceId {
    open spec fn obeys_from_spec() -> bool {
        false
    }

    open spec fn from_spec(v: &'a str) -> AgentInstanceId {
        arbitrary()
    }
}

impl From<String> for AgentInstanceId {
    fn from(s: String) -> (r: Self) {
        AgentInstanceId(s)
    }
}

impl vstd::std_specs::convert::FromSpecImpl<String> for AgentInstanceId {
    open spec fn obeys_from_spec() -> bool {
        true
    }

    open spec fn from_spec(v: String) -> AgentInstanceId {
        AgentInstanceId(v)
    }
}

// ---------------------------------------------------------------------------
// Content identifiers
// ---------------------------------------------------------------------------

/// A content identifier: the 32-byte Blake3 digest of some content.
#[derive(Debug, Clone, Copy, Hash)]
pub struct ContentId(pub [u8; 32]);

/// The name under which the contracts speak of Blake3.
pub uninterp spec fn blake3_digest(data: Seq<u8>) -> Seq<u8>;

/// Blake3 (`blake3::hash`): the 32-byte digest of `data`.
#[verifier::external_body]
pub(crate) fn blake3_hash(data: &[u8]) -> (r: [u8; 32])
    ensures
        r@ == blake3_digest(data@),
{
    *blake3::hash(data).as_bytes()
}

impl PartialEq for ContentId {
    fn eq(&self, other: &Self) -> (r: bool) {
        let mut i: usize = 0;
        while i < 32
            invariant
                0 <= i <= 32,
                self.0@.len() == 32,
                other.0@.len() == 32,
                forall|j: int| 0 <= j < i ==> self.0@[j] == other.0@[j],
            decreases 32 - i,
        {
            if self.0[i] != other.0[i] {
                return false;
            }
            i += 1;
        }
        proof {
            assert(self.0@ =~= other.0@);
        }
        true
    }
}

impl Eq for ContentId {}

impl vstd::std_specs::cmp::PartialEqSpecImpl for ContentId {
    open spec fn obeys_eq_spec() -> bool {
        true
    }

    open spec fn eq_spec(&self, other: &ContentId) -> bool {
        self.0@ == other.0@
    }
}

/// Lowercase hexadecimal digit for a nibble.
pub open spec fn hex_digit(n: nat) -> char {
    if n < 10 {
        crate::text::digit_char(n)
    } else if n == 10 { 'a' }
    else if n == 11 { 'b' }
    else if n == 12 { 'c' }
    else if n == 13 { 'd' }
    else if n == 14 { 'e' }
    else { 'f' }
}

/// Two lowercase hex digits per byte (`format!("{:02x}", b)` for each byte).
pub open spec fn spec_hex(bytes: Seq<u8>) -> Seq<char>
    decreases bytes.len(),
{
    if bytes.len() == 0 {
        seq![]
    } else {
        spec_hex(bytes.drop_last()) + seq![
            hex_digit((bytes.last() / 16) as nat),
            hex_digit((bytes.last() % 16) as nat),
        ]
    }
}

fn nibble_char(n: u8) -> (c: char)
    requires
        n < 16,
    ensures
        c == hex_digit(n as nat),
{
    if n == 0 { '0' }
    else if n == 1 { '1' }
    else if n == 2 { '2' }
    else if n == 3 { '3' }
    else if n == 4 { '4' }
    else if n == 5 { '5' }
    else if n == 6 { '6' }
    else if n == 7 { '7' }
    else if n == 8 { '8' }
    else if n == 9 { '9' }
    else if n == 10 { 'a' }
    else if n == 11 { 'b' }
    else if n == 12 { 'c' }
    else if n == 13 { 'd' }
    else if n == 14 { 'e' }
    else { 'f' }
}

/// Lowercase hexadecimal rendering of a byte slice.
pub fn hex_encode(bytes: &[u8]) -> (r: String)
    ensures
        r@ == spec_hex(bytes@),
{
    let mut s = String::new();
    let mut i: usize = 0;
    while i < bytes.len()
        invariant
            i <= bytes@.len(),
            s@ == spec_hex(bytes@.take(i as int)),
        decreases bytes@.len() - i,
    {
        let b = bytes[i];
        push_char(&mut s, nibble_char(b / 16));
        push_char(&mut s, nibble_char(b % 16));
        proof {
            let t = bytes@.take(i + 1);
            assert(t.drop_last() =~= bytes@.take(i as int));
            assert(s@ =~= spec_hex(t));
        }
        i += 1;
    }
    proof {
        assert(bytes@.take(bytes@.len() as int) =~= bytes@);
    }
    s
}

/// Value of an ASCII hexadecimal digit (either case), if it is one.
pub open spec fn hex_value(b: u8) -> Option<u8> {
    if 48 <= b <= 57 {
        Some((b - 48) as u8)
    } else if 97 <= b <= 102 {
        Some((b - 87) as u8)
    } else if 65 <= b <= 70 {
        Some((b - 55) as u8)
    } else {
        None
    }
}

/// The byte written by two ASCII hexadecimal digits, high digit first.
pub open spec fn parse_hex_pair(b0: u8, b1: u8) -> Option<u8> {
    match (hex_value(b0), hex_value(b1)) {
        (Some(h), Some(l)) => Some((h * 16 + l) as u8),
        _ => None,
    }
}

/// What decoding the byte pairs from position `i` on gives: `Some(Some(bytes))`
/// when every pair parses, `Some(None)` when the first bad pair rejects the
/// text, and `None` when slicing at that pair would split a character.
pub open spec fn hex_pairs(b: Seq<u8>, i: int) -> Option<Option<Seq<u8>>>
    decreases b.len() - i,
{
    if i < 0 || i + 1 >= b.len() {
        Some(Some(seq![]))
    } else {
        let b0 = b[i];
        let b1 = b[i + 1];
        if b0 < 128 && b1 < 128 {
            match parse_hex_pair(b0, b1) {
                Some(v) => match hex_pairs(b, i + 2) {
                    Some(Some(rest)) => Some(Some(seq![v] + rest)),
                    other => other,
                },
                None => Some(None),
            }
        } else if 0xC0 <= b0 < 0xE0 {
            Some(None)
        } else {
            None
        }
    }
}

/// Whether decoding `s` as hex would split a multi-byte character.
pub open spec fn hex_decode_splits_char(b: Seq<u8>) -> bool {
    b.len() % 2 == 0 && hex_pairs(b, 0) is None
}

/// The result of decoding hex text given as UTF-8 bytes.
pub open spec fn spec_hex_decode(b: Seq<u8>) -> Option<Seq<u8>> {
    if b.len() % 2 != 0 {
        None
    } else {
        match hex_pairs(b, 0) {
            Some(r) => r,
            None => None,
        }
    }
}

proof fn lemma_hex_shape(b: Seq<u8>)
    ensures
        spec_hex(b).len() == 2 * b.len(),
        forall|i: int| 0 <= i < b.len() ==> spec_hex(b)[2 * i] == hex_digit((b[i] / 16) as nat)
            && spec_hex(b)[2 * i + 1] == hex_digit((b[i] % 16) as nat),
    decreases b.len(),
{
    if b.len() > 0 {
        lemma_hex_shape(b.drop_last());
        let p = spec_hex(b.drop_last());
        assert forall|i: int| 0 <= i < b.len() implies spec_hex(b)[2 * i] == hex_digit((b[i] / 16) as nat)
            && spec_hex(b)[2 * i + 1] == hex_digit((b[i] % 16) as nat) by {
            if i < b.len() - 1 {
                assert(b.drop_last()[i] == b[i]);
            }
        }
    }
}

proof fn lemma_hex_digit_value(n: nat)
    requires
        n < 16,
    ensures
        (hex_digit(n) as u32) < 128,
        hex_value(hex_digit(n) as u8) == Some(n as u8),
{
}

proof fn lemma_hex_pairs_of(b: Seq<u8>, h: Seq<u8>, k: int)
    requires
        0 <= k <= b.len(),
        h.len() == 2 * b.len(),
        forall|i: int| 0 <= i < b.len() ==> h[2 * i] == (hex_digit((b[i] / 16) as nat) as u8)
            && h[2 * i + 1] == (hex_digit((b[i] % 16) as nat) as u8),
    ensures
        hex_pairs(h, 2 * k) == Some(Some(b.subrange(k, b.len() as int))),
    decreases b.len() - k,
{
    if k < b.len() {
        lemma_hex_pairs_of(b, h, k + 1);
        let x = b[k];
        lemma_hex_digit_value((x / 16) as nat);
        lemma_hex_digit_value((x % 16) as nat);
        assert(h[2 * k] == (hex_digit((x / 16) as nat) as u8));
        assert(h[2 * k + 1] == (hex_digit((x % 16) as nat) as u8));
        assert(parse_hex_pair(h[2 * k], h[2 * k + 1]) == Some(x)) by {
            assert((x / 16) * 16 + x % 16 == x);
        }
        assert(seq![x] + b.subrange(k + 1, b.len() as int) =~= b.subrange(k, b.len() as int));
    } else {
        assert(b.subrange(k, b.len() as int) =~= Seq::<u8>::empty());
    }
}

/// Hexadecimal text decodes back to its bytes: the text `spec_hex(b)` of
/// any bytes `b` cuts through no character and decodes to `b`.
pub proof fn lemma_hex_roundtrip(s: &str, b: Seq<u8>)
    requires
        s@ == spec_hex(b),
    ensures
        !hex_decode_splits_char(s.spec_bytes()),
        spec_hex_decode(s.spec_bytes()) == Some(b),
{
    lemma_hex_shape(b);
    assert forall|i: int| 0 <= i < s@.len() implies '\0' <= #[trigger] s@[i] <= '\u{7f}' by {
        let k = i / 2;
        assert(0 <= k < b.len());
        lemma_hex_digit_value((b[k] / 16) as nat);
        lemma_hex_digit_value((b[k] % 16) as nat);
        if i % 2 == 0 {
            assert(i == 2 * k);
        } else {
            assert(i == 2 * k + 1);
        }
    }
    assert(vstd::string::is_ascii(s));
    let h = s.spec_bytes();
    assert(h =~= Seq::new(s@.len(), |i: int| s@[i] as u8));
    assert forall|i: int| 0 <= i < b.len() implies h[2 * i] == (hex_digit((b[i] / 16) as nat) as u8)
        && h[2 * i + 1] == (hex_digit((b[i] % 16) as nat) as u8) by {
    }
    lemma_hex_pairs_of(b, h, 0);
    assert(b.subrange(0, b.len() as int) =~= b);
}

proof fn lemma_hex_digit_shape(n: nat)
    requires
        n < 16,
    ensures
        is_hex_char(hex_digit(n)),
        lower_hex_char(hex_digit(n)) == hex_digit(n),
{
}

/// The hexadecimal form of bytes is two lowercase hexadecimal digits per byte,
/// and different bytes have different forms.
pub proof fn lemma_hex_lowercase_injective(b: Seq<u8>, c: Seq<u8>)
    ensures
        spec_hex(b).len() == 2 * b.len(),
        forall|i: int| 0 <= i < spec_hex(b).len() ==> is_hex_char(#[trigger] spec_hex(b)[i]),
        lower_hex_text(spec_hex(b)) == spec_hex(b),
        spec_hex(b) == spec_hex(c) ==> b == c,
{
    lemma_hex_shape(b);
    lemma_hex_shape(c);
    let h = spec_hex(b);
    assert forall|i: int| 0 <= i < h.len() implies is_hex_char(#[trigger] h[i]) && lower_hex_char(h[i]) == h[i] by {
        let k = i / 2;
        lemma_hex_digit_shape((b[k] / 16) as nat);
        lemma_hex_digit_shape((b[k] % 16) as nat);
        if i % 2 == 0 {
            assert(i == 2 * k);
        } else {
            assert(i == 2 * k + 1);
        }
    }
    assert(lower_hex_text(h) =~= h);
    if h == spec_hex(c) {
        assert forall|k: int| 0 <= k < b.len() implies b[k] == c[k] by {
            lemma_hex_digit_value((b[k] / 16) as nat);
            lemma_hex_digit_value((b[k] % 16) as nat);
            lemma_hex_digit_value((c[k] / 16) as nat);
            lemma_hex_digit_value((c[k] % 16) as nat);
            assert(h[2 * k] == spec_hex(c)[2 * k]);
            assert(h[2 * k + 1] == spec_hex(c)[2 * k + 1]);
            assert(b[k] / 16 == c[k] / 16);
            assert(b[k] % 16 == c[k] % 16);
            assert((b[k] / 16) * 16 + b[k] % 16 == b[k]);
            assert((c[k] / 16) * 16 + c[k] % 16 == c[k]);
        }
        assert(b =~= c);
    }
}

/// Hexadecimal round trip of a content identifier: its hexadecimal form is
/// 64 lowercase hexadecimal digits that cut through no character, so
/// `from_hex` accepts it, and the only identifier whose hexadecimal form is
/// that text in lower case is the identifier itself.
pub proof fn lemma_content_id_hex_roundtrip(id: ContentId, s: &str)
    requires
        s@ == spec_hex(id.0@),
    ensures
        s@.len() == 64,
        forall|i: int| 0 <= i < 64 ==> is_hex_char(#[trigger] s@[i]),
        lower_hex_text(s@) == s@,
        !hex_decode_splits_char(s.spec_bytes()),
        forall|other: ContentId| spec_hex(other.0@) == lower_hex_text(s@) ==> other.0@ == id.0@,
{
    lemma_hex_lowercase_injective(id.0@, id.0@);
    lemma_hex_roundtrip(s, id.0@);
    assert forall|other: ContentId| spec_hex(other.0@) == lower_hex_text(s@) implies other.0@ == id.0@ by {
        lemma_hex_lowercase_injective(other.0@, id.0@);
    }
}

/// Whether a character is a hexadecimal digit (either case).
pub open spec fn is_hex_char(c: char) -> bool {
    ('0' <= c && c <= '9') || ('a' <= c && c <= 'f') || ('A' <= c && c <= 'F')
}

/// A hexadecimal digit in lower case.
pub open spec fn lower_hex_char(c: char) -> char {
    if 'A' <= c && c <= 'F' { ((c as int) + 32) as char } else { c }
}

/// A text of hexadecimal digits in lower case.
pub open spec fn lower_hex_text(t: Seq<char>) -> Seq<char> {
    Seq::new(t.len(), |i: int| lower_hex_char(t[i]))
}

proof fn lemma_hex_char_value(c: char)
    requires
        '\0' <= c <= '\u{7f}',
    ensures
        hex_value(c as u8) is Some <==> is_hex_char(c),
        is_hex_char(c) ==> hex_value(c as u8).unwrap() < 16 && hex_digit(hex_value(c as u8).unwrap() as nat) == lower_hex_char(c),
{
}

proof fn lemma_hex_pairs_all(b: Seq<u8>, i: int)
    requires
        0 <= i <= b.len(),
        i % 2 == 0,
    ensures
        (b.len() % 2 == 0 && forall|j: int| i <= j < b.len() ==> #[trigger] hex_value(b[j]) is Some) ==> (hex_pairs(b, i) matches Some(Some(v))
            && v.len() == (b.len() - i) / 2
            && forall|k: int| 0 <= k < v.len() ==> #[trigger] v[k] == hex_value(b[i + 2 * k]).unwrap() * 16 + hex_value(b[i + 2 * k + 1]).unwrap()),
        (forall|j: int| 0 <= j < b.len() ==> #[trigger] b[j] < 128) ==> (hex_pairs(b, i) matches Some(Some(v)) ==> (i + 2 * v.len() <= b.len()
            && (forall|j: int| i <= j < i + 2 * v.len() ==> #[trigger] hex_value(b[j]) is Some)
            && (b.len() % 2 == 0 ==> i + 2 * v.len() == b.len()))),
    decreases b.len() - i,
{
    if i + 1 < b.len() {
        lemma_hex_pairs_all(b, i + 2);
        let b0 = b[i];
        let b1 = b[i + 1];
        if b.len() % 2 == 0 && forall|j: int| i <= j < b.len() ==> #[trigger] hex_value(b[j]) is Some {
            assert(hex_value(b0) is Some && hex_value(b1) is Some);
            assert(forall|j: int| i + 2 <= j < b.len() ==> #[trigger] hex_value(b[j]) is Some);
            let rest = match hex_pairs(b, i + 2) { Some(Some(r)) => r, _ => seq![] };
            let x = (hex_value(b0).unwrap() * 16 + hex_value(b1).unwrap()) as u8;
            assert(hex_value(b0).unwrap() < 16 && hex_value(b1).unwrap() < 16);
            assert(hex_pairs(b, i) == Some(Some(seq![x] + rest)));
            assert forall|k: int| 0 <= k < (seq![x] + rest).len() implies #[trigger] (seq![x] + rest)[k] == hex_value(b[i + 2 * k]).unwrap() * 16 + hex_value(b[i + 2 * k + 1]).unwrap() by {
                if k > 0 {
                    assert((seq![x] + rest)[k] == rest[k - 1]);
                    assert(i + 2 + 2 * (k - 1) == i + 2 * k);
                }
            }
        }
        if (forall|j: int| 0 <= j < b.len() ==> #[trigger] b[j] < 128) && hex_pairs(b, i) is Some && hex_pairs(b, i)->0 is Some {
            assert(b0 < 128 && b1 < 128);
            assert(parse_hex_pair(b0, b1) is Some);
            let rest = match hex_pairs(b, i + 2) { Some(Some(r)) => r, _ => seq![] };
            assert(hex_pairs(b, i + 2) is Some);
        }
    }
}

fn hex_value_exec(b: u8) -> (r: Option<u8>)
    ensures
        r == hex_value(b),
{
    if 48 <= b && b <= 57 {
        Some(b - 48)
    } else if 97 <= b && b <= 102 {
        Some(b - 87)
    } else if 65 <= b && b <= 70 {
        Some(b - 55)
    } else {
        None
    }
}

/// Whether decoding `s` as hexadecimal would slice through a multi-byte
/// character (see `hex_decode_splits_char`).
pub fn hex_text_splits_char(s: &str) -> (r: bool)
    ensures
        r == hex_decode_splits_char(s.spec_bytes()),
{
    let b = s.as_bytes();
    let ghost bs = s.spec_bytes();
    let n = b.len();
    if n % 2 != 0 {
        return false;
    }
    let mut i: usize = 0;
    while i < n
        invariant
            b@ == bs,
            bs == s.spec_bytes(),
            n == bs.len(),
            n % 2 == 0,
            i % 2 == 0,
            i <= n,
            (hex_pairs(bs, 0) is None) == (hex_pairs(bs, i as int) is None),
        decreases n - i,
    {
        let b0 = b[i];
        let b1 = b[i + 1];
        if b0 < 128 && b1 < 128 {
            let ok = hex_value_exec(b0).is_some() && hex_value_exec(b1).is_some();
            if !ok {
                proof {
                    assert(parse_hex_pair(b0, b1) is None);
                    assert(hex_pairs(bs, i as int) == Some(None::<Seq<u8>>));
                }
                return false;
            }
            proof {
                assert(parse_hex_pair(b0, b1) is Some);
            }
            i = i + 2;
        } else if 0xC0 <= b0 && b0 < 0xE0 {
            proof {
                assert(hex_pairs(bs, i as int) == Some(None::<Seq<u8>>));
            }
            return false;
        } else {
            proof {
                assert(hex_pairs(bs, i as int) is None);
            }
            return true;
        }
    }
    proof {
        assert(hex_pairs(bs, i as int) == Some(Some(Seq::<u8>::empty())));
    }
    false
}

/// Decodes hexadecimal text two bytes at a time, each pair two hexadecimal
/// digits, stopping at the first pair that is not.
pub fn hex_decode(s: &str) -> (r: Option<Vec<u8>>)
    requires
        !hex_decode_splits_char(s.spec_bytes()),
    ensures
        r matches Some(v) ==> spec_hex_decode(s.spec_bytes()) == Some(v@),
        r is None ==> spec_hex_decode(s.spec_bytes()) is None,
{
    let b = s.as_bytes();
    let ghost bs = s.spec_bytes();
    let n = b.len();
    if n % 2 != 0 {
        return None;
    }
    let mut out: Vec<u8> = Vec::new();
    let mut i: usize = 0;
    while i < n
        invariant
            b@ == bs,
            bs == s.spec_bytes(),
            n == bs.len(),
            n % 2 == 0,
            i % 2 == 0,
            i <= n,
            hex_pairs(bs, 0) is Some,
            hex_pairs(bs, 0) == (match hex_pairs(bs, i as int) {
                Some(Some(rest)) => Some(Some(out@ + rest)),
                other => other,
            }),
        decreases n - i,
    {
        let b0 = b[i];
        let b1 = b[i + 1];
        proof {
            assert(hex_pairs(bs, i as int) is Some);
        }
        if b0 < 128 && b1 < 128 {
            let v: Option<u8> = match (hex_value_exec(b0), hex_value_exec(b1)) {
                (Some(h), Some(l)) => Some(h * 16 + l),
                _ => None,
            };
            match v {
                Some(x) => {
                    proof {
                        assert(parse_hex_pair(b0, b1) == Some(x));
                        match hex_pairs(bs, i + 2) {
                            Some(Some(rest)) => {
                                assert(out@.push(x) + rest =~= out@ + (seq![x] + rest));
                            }
                            _ => {}
                        }
                    }
                    out.push(x);
                    i = i + 2;
                }
                None => {
                    proof {
                        assert(parse_hex_pair(b0, b1) is None);
                        assert(hex_pairs(bs, i as int) == Some(None::<Seq<u8>>));
                        assert(hex_pairs(bs, 0) == Some(None::<Seq<u8>>));
                        assert(spec_hex_decode(bs) is None);
                    }
                    return None;
                }
            }
        } else {
            proof {
                assert(hex_pairs(bs, i as int) is Some);
                assert(hex_pairs(bs, i as int) == Some(None::<Seq<u8>>));
                assert(hex_pairs(bs, 0) == Some(None::<Seq<u8>>));
                assert(spec_hex_decode(bs) is None);
            }
            return None;
        }
    }
    proof {
        assert(hex_pairs(bs, i as int) == Some(Some(Seq::<u8>::empty())));
        assert(out@ + Seq::<u8>::empty() =~= out@);
    }
    Some(out)
}

impl ContentId {
    /// The all-zero identifier used before an identifier is computed.
    pub fn zero() -> (r: ContentId)
        ensures
            r.0@ == Seq::new(32, |i: int| 0u8),
    {
        let r = ContentId([0u8; 32]);
        proof {
            assert(r.0@ =~= Seq::new(32, |i: int| 0u8));
        }
        r
    }

    /// The identifier of some content: its Blake3 digest.
    pub fn from_content(data: &[u8]) -> (r: ContentId)
        ensures
            r.0@ == blake3_digest(data@),
    {
        ContentId(blake3_hash(data))
    }

    /// Lowercase hexadecimal form (64 characters).
    pub fn to_hex(&self) -> (r: String)
        ensures
            r@ == spec_hex(self.0@),
    {
        hex_encode(&self.0)
    }

    /// What `Display` prints: the hexadecimal form.
    pub fn to_string(&self) -> (r: String)
        ensures
            r@ == spec_hex(self.0@),
    {
        self.to_hex()
    }

    /// Parses the hexadecimal form: `Some` exactly when the text is 64
    /// hexadecimal digits (either case), and then the identifier's
    /// hexadecimal form is the text in lower case.
    pub fn from_hex(s: &str) -> (r: Option<ContentId>)
        requires
            !hex_decode_splits_char(s.spec_bytes()),
        ensures
            r is Some <==> s@.len() == 64 && forall|i: int| 0 <= i < 64 ==> is_hex_char(#[trigger] s@[i]),
            r matches Some(id) ==> spec_hex(id.0@) == lower_hex_text(s@),
    {
        if !s.is_ascii() {
            proof {
                if s@.len() == 64 && forall|i: int| 0 <= i < 64 ==> is_hex_char(#[trigger] s@[i]) {
                    assert(vstd::utf8::is_ascii_chars(s@));
                }
            }
            return None;
        }
        let ghost b = s.spec_bytes();
        proof {
            assert(b =~= Seq::new(s@.len(), |i: int| s@[i] as u8));
            assert forall|j: int| 0 <= j < b.len() implies #[trigger] b[j] < 128 by {
                assert('\0' <= s@[j] <= '\u{7f}');
            }
            assert forall|j: int| 0 <= j < b.len() implies (hex_value(#[trigger] b[j]) is Some <==> is_hex_char(s@[j])) by {
                lemma_hex_char_value(s@[j]);
            }
        }
        let bytes = match hex_decode(s) {
            Some(v) => v,
            None => {
                proof {
                    if s@.len() == 64 && forall|i: int| 0 <= i < 64 ==> is_hex_char(#[trigger] s@[i]) {
                        lemma_hex_pairs_all(b, 0);
                    }
                }
                return None;
            },
        };
        proof {
            lemma_hex_pairs_all(b, 0);
        }
        if bytes.len() != 32 {
            return None;
        }
        let mut arr = [0u8; 32];
        let mut i: usize = 0;
        while i < 32
            invariant
                bytes@.len() == 32,
                arr@.len() == 32,
                i <= 32,
                forall|j: int| 0 <= j < i ==> arr@[j] == bytes@[j],
            decreases 32 - i,
        {
            arr[i] = bytes[i];
            i += 1;
        }
        proof {
            assert(arr@ =~= bytes@);
            let v = bytes@;
            assert(b.len() == 64);
            assert forall|k: int| 0 <= k < 64 implies is_hex_char(#[trigger] s@[k]) by {
                assert(hex_value(b[k]) is Some);
            }
            lemma_hex_shape(v);
            assert forall|k: int| 0 <= k < 64 implies spec_hex(v)[k] == lower_hex_text(s@)[k] by {
                let q = k / 2;
                lemma_hex_char_value(s@[2 * q]);
                lemma_hex_char_value(s@[2 * q + 1]);
                let h = hex_value(b[2 * q]).unwrap();
                let l = hex_value(b[2 * q + 1]).unwrap();
                assert(v[q] == h * 16 + l);
                assert((h * 16 + l) / 16 == h && (h * 16 + l) % 16 == l);
                if k % 2 == 0 {
                    assert(k == 2 * q);
                } else {
                    assert(k == 2 * q + 1);
                }
            }
            assert(spec_hex(v) =~= lower_hex_text(s@));
        }
        Some(ContentId(arr))
    }
}

pub type SnapshotId = ContentId;
pub type DeltaId = ContentId;
pub type CheckpointId = ContentId;
pub type BackupId = ContentId;

// ---------------------------------------------------------------------------
// Partition identifiers (the 16 bytes of a UUID)
// ---------------------------------------------------------------------------

/// A partition identifier: the 16 bytes of a UUID, most significant first.
#[derive(Debug, Clone, Copy, Hash)]
pub struct PartitionId(pub [u8; 16]);

impl PartialEq for PartitionId {
    fn eq(&self, other: &Self) -> (r: bool) {
        let mut i: usize = 0;
        while i < 16
            invariant
                0 <= i <= 16,
                self.0@.len() == 16,
                other.0@.len() == 16,
                forall|j: int| 0 <= j < i ==> self.0@[j] == other.0@[j],
            decreases 16 - i,
        {
            if self.0[i] != other.0[i] {
                return false;
            }
            i += 1;
        }
        proof {
            assert(self.0@ =~= other.0@);
        }
        true
    }
}

impl Eq for PartitionId {}

impl vstd::std_specs::cmp::PartialEqSpecImpl for PartitionId {
    open spec fn obeys_eq_spec() -> bool {
        true
    }

    open spec fn eq_spec(&self, other: &PartitionId) -> bool {
        self.0@ == other.0@
    }
}

/// A fresh random (version 4) UUID (`uuid::Uuid::new_v4`): random bytes with
/// the version nibble set to 4 and the RFC 4122 variant bits (`10`) set.
#[verifier::external_body]
fn uuid_v4_bytes() -> (r: [u8; 16])
    ensures
        r@[6] / 16 == 4,
        r@[8] / 64 == 2,
{
    *uuid::Uuid::new_v4().as_bytes()
}

/// The name under which the contracts speak of name-based (version 5) UUIDs.
pub uninterp spec fn uuid_v5(namespace: Seq<u8>, name: Seq<u8>) -> Seq<u8>;

/// A name-based (version 5, SHA-1) UUID (`uuid::Uuid::new_v5`).
#[verifier::external_body]
fn uuid_v5_bytes(namespace: &[u8; 16], name: &[u8]) -> (r: [u8; 16])
    ensures
        r@ == uuid_v5(namespace@, name@),
{
    *uuid::Uuid::new_v5(&uuid::Uuid::from_bytes(*namespace), name).as_bytes()
}

/// The name under which the contracts speak of what `uuid::Uuid::parse_str`
/// gives for a text: its 16 bytes, or `None` when the text is refused.
pub uninterp spec fn uuid_parsed(s: Seq<char>) -> Option<Seq<u8>>;

/// The identifier written in a UUID text (`uuid::Uuid::parse_str`), or
/// `None` when the text is not one.
#[verifier::external_body]
pub(crate) fn parse_partition_id(s: &str) -> (r: Option<PartitionId>)
    ensures
        match uuid_parsed(s@) {
            Some(b) => r matches Some(p) && p.0@ == b,
            None => r is None,
        },
{
    match uuid::Uuid::parse_str(s) {
        Ok(u) => Some(PartitionId(*u.as_bytes())),
        Err(_) => None,
    }
}

/// The hyphenated UUID text of 16 bytes.
pub open spec fn uuid_text(b: Seq<u8>) -> Seq<char> {
    spec_hex(b.subrange(0, 4)) + seq!['-'] + spec_hex(b.subrange(4, 6)) + seq!['-'] + spec_hex(b.subrange(6, 8)) + seq!['-']
        + spec_hex(b.subrange(8, 10)) + seq!['-'] + spec_hex(b.subrange(10, 16))
}

impl PartitionId {
    /// A fresh random identifier: a version 4 UUID of the RFC 4122 variant.
    pub fn new_random() -> (r: PartitionId)
        ensures
            r.0@[6] / 16 == 4,
            r.0@[8] / 64 == 2,
    {
        PartitionId(uuid_v4_bytes())
    }

    /// The version 5 UUID of `name` in the namespace `namespace`.
    pub fn new_v5(namespace: &PartitionId, name: &[u8]) -> (r: PartitionId)
        ensures
            r.0@ == uuid_v5(namespace.0@, name@),
    {
        PartitionId(uuid_v5_bytes(&namespace.0, name))
    }

    /// The UUID whose first byte is `first` and all other bytes are zero,
    /// `uuid::Uuid::from_u128(first << 120)`.
    pub fn with_first_byte(first: u8) -> (r: PartitionId)
        ensures
            r.0@ == seq![first] + Seq::new(15, |i: int| 0u8),
    {
        let mut a = [0u8; 16];
        a[0] = first;
        proof {
            assert(a@ =~= seq![first] + Seq::new(15, |i: int| 0u8));
        }
        PartitionId(a)
    }

    /// The UUID whose last byte is `last` and all other bytes are zero,
    /// `uuid::Uuid::from_u128(last)`.
    pub fn with_last_byte(last: u8) -> (r: PartitionId)
        ensures
            r.0@ == Seq::new(15, |i: int| 0u8).push(last),
    {
        let mut a = [0u8; 16];
        a[15] = last;
        proof {
            assert(a@ =~= Seq::new(15, |i: int| 0u8).push(last));
        }
        PartitionId(a)
    }

    /// Lowercase hexadecimal form of the 16 bytes.
    pub fn to_hex(&self) -> (r: String)
        ensures
            r@ == spec_hex(self.0@),
    {
        hex_encode(&self.0)
    }

    /// The hyphenated UUID form (what `Display` prints): groups of 4, 2, 2, 2
    /// and 6 bytes in lowercase hexadecimal, joined with `-`.
    pub fn to_string(&self) -> (r: String)
        ensures
            r@ == uuid_text(self.0@),
    {
        let b: &[u8] = &self.0;
        let mut s = hex_encode(vstd::slice::slice_subrange(b, 0, 4));
        push_char(&mut s, '-');
        s.append(hex_encode(vstd::slice::slice_subrange(b, 4, 6)).as_str());
        push_char(&mut s, '-');
        s.append(hex_encode(vstd::slice::slice_subrange(b, 6, 8)).as_str());
        push_char(&mut s, '-');
        s.append(hex_encode(vstd::slice::slice_subrange(b, 8, 10)).as_str());
        push_char(&mut s, '-');
        s.append(hex_encode(vstd::slice::slice_subrange(b, 10, 16)).as_str());
        s
    }
}

// ---------------------------------------------------------------------------
// Sources, layers, partition kinds
// ---------------------------------------------------------------------------

/// Where a change came from.
#[derive(Debug)]
pub enum SourceType {
    Manual,
    Agent(AgentInstanceId),
    Backup,
}

/// The view of a source: the agent's identifier for an agent.
pub enum SourceV {
    Manual,
    Agent(Seq<char>),
    Backup,
}

impl View for SourceType {
    type V = SourceV;

    open spec fn view(&self) -> SourceV {
        match self {
            SourceType::Manual => SourceV::Manual,
            SourceType::Agent(a) => SourceV::Agent(a.0@),
            SourceType::Backup => SourceV::Backup,
        }
    }
}

impl Clone for SourceType {
    fn clone(&self) -> (r: Self)
        ensures
            r@ == self@,
    {
        match self {
            SourceType::Manual => SourceType::Manual,
            SourceType::Agent(a) => SourceType::Agent(a.duplicate()),
            SourceType::Backup => SourceType::Backup,
        }
    }
}

/// The four layers of the pipeline.
#[derive(Debug, Clone, Copy, PartialEq, Eq, Hash, Structural)]
pub enum LayerType {
    ManualEdit,
    AgentEdit,
    Approval,
    Staged,
}

/// The name of a layer.
pub open spec fn layer_name(l: LayerType) -> Seq<char> {
    match l {
        LayerType::ManualEdit => "manual_edit"@,
        LayerType::AgentEdit => "agent_edit"@,
        LayerType::Approval => "approval"@,
        LayerType::Staged => "staged"@,
    }
}

impl LayerType {
    /// The layer's name.
    pub fn name(&self) -> (r: &'static str)
        ensures
            r@ == layer_name(*self),
    {
        match self {
            LayerType::ManualEdit => "manual_edit",
            LayerType::AgentEdit => "agent_edit",
            LayerType::Approval => "approval",
            LayerType::Staged => "staged",
        }
    }
}

/// The kinds of partition.
#[derive(Debug)]
pub enum PartitionType {
    /// The single manual-edit partition.
    Manual,
    /// One partition per agent in the agent-edit layer.
    Agent(AgentInstanceId),
    /// One approval partition per agent instance.
    Approval(AgentInstanceId),
    /// A named integration area.
    Integrated(String),
    /// The single aggregation area.
    Unified,
    /// The single staged partition.
    Staged,
}

/// The view of a partition kind: the identifier or name it carries.
pub enum PartitionTypeV {
    Manual,
    Agent(Seq<char>),
    Approval(Seq<char>),
    Integrated(Seq<char>),
    Unified,
    Staged,
}

impl View for PartitionType {
    type V = PartitionTypeV;

    open spec fn view(&self) -> PartitionTypeV {
        match self {
            PartitionType::Manual => PartitionTypeV::Manual,
            PartitionType::Agent(a) => PartitionTypeV::Agent(a.0@),
            PartitionType::Approval(a) => PartitionTypeV::Approval(a.0@),
            PartitionType::Integrated(n) => PartitionTypeV::Integrated(n@),
            PartitionType::Unified => PartitionTypeV::Unified,
            PartitionType::Staged => PartitionTypeV::Staged,
        }
    }
}

impl Clone for PartitionType {
    fn clone(&self) -> (r: Self)
        ensures
            r@ == self@,
    {
        match self {
            PartitionType::Manual => PartitionType::Manual,
            PartitionType::Agent(a) => PartitionType::Agent(a.duplicate()),
            PartitionType::Approval(a) => PartitionType::Approval(a.duplicate()),
            PartitionType::Integrated(n) => PartitionType::Integrated(n.clone()),
            PartitionType::Unified => PartitionType::Unified,
            PartitionType::Staged => PartitionType::Staged,
        }
    }
}

/// The label a partition kind gives the snapshots made in it.
pub open spec fn partition_type_name(t: PartitionTypeV) -> Seq<char> {
    match t {
        PartitionTypeV::Manual => "manual"@,
        PartitionTypeV::Agent(a) => "agent/"@ + a,
        PartitionTypeV::Approval(a) => "approval/"@ + a,
        PartitionTypeV::Integrated(n) => "integrated/"@ + n,
        PartitionTypeV::Unified => "unified"@,
        PartitionTypeV::Staged => "staged"@,
    }
}

impl PartitionType {
    /// The label given to snapshots made in a partition of this kind.
    pub fn name(&self) -> (r: String)
        ensures
            r@ == partition_type_name(self@),
    {
        match self {
            PartitionType::Manual => String::from_str("manual"),
            PartitionType::Agent(a) => {
                let mut s = String::from_str("agent/");
                s.append(a.0.as_str());
                s
            },
            PartitionType::Approval(a) => {
                let mut s = String::from_str("approval/");
                s.append(a.0.as_str());
                s
            },
            PartitionType::Integrated(n) => {
                let mut s = String::from_str("integrated/");
                s.append(n.as_str());
                s
            },
            PartitionType::Unified => String::from_str("unified"),
            PartitionType::Staged => String::from_str("staged"),
        }
    }
}

// ---------------------------------------------------------------------------
// Line-level diffs
// ---------------------------------------------------------------------------

/// One operation of a hunk. Positions are 1-based.
#[derive(Debug)]
pub enum DiffOp {
    /// Keep `count` lines.
    Equal { count: u32 },
    /// Drop `count` lines.
    Delete { old_start: u32, count: u32 },
    /// Insert lines.
    Insert { new_start: u32, lines: Vec<String> },
    /// Drop `old_count` lines and insert lines in their place.
    Replace { old_start: u32, old_count: u32, new_start: u32, lines: Vec<String> },
}

/// The view of a diff operation.
pub enum DiffOpV {
    Equal { count: u32 },
    Delete { old_start: u32, count: u32 },
    Insert { new_start: u32, lines: Seq<Seq<char>> },
    Replace { old_start: u32, old_count: u32, new_start: u32, lines: Seq<Seq<char>> },
}

impl View for DiffOp {
    type V = DiffOpV;

    open spec fn view(&self) -> DiffOpV {
        match self {
            DiffOp::Equal { count } => DiffOpV::Equal { count: *count },
            DiffOp::Delete { old_start, count } => DiffOpV::Delete { old_start: *old_start, count: *count },
            DiffOp::Insert { new_start, lines } => DiffOpV::Insert { new_start: *new_start, lines: lines_view(lines@) },
            DiffOp::Replace { old_start, old_count, new_start, lines } => DiffOpV::Replace {
                old_start: *old_start,
                old_count: *old_count,
                new_start: *new_start,
                lines: lines_view(lines@),
            },
        }
    }
}

/// A copy of a list of strings.
pub fn clone_lines(v: &Vec<String>) -> (r: Vec<String>)
    ensures
        r@ == v@,
        lines_view(r@) == lines_view(v@),
{
    let r = v.clone();
    proof {
        assert(r@ =~= v@);
    }
    r
}

impl Clone for DiffOp {
    fn clone(&self) -> (r: Self)
        ensures
            r@ == self@,
    {
        clone_op(self)
    }
}

/// A copy of a diff operation.
pub fn clone_op(op: &DiffOp) -> (r: DiffOp)
    ensures
        r@ == op@,
{
        match op {
            DiffOp::Equal { count } => DiffOp::Equal { count: *count },
            DiffOp::Delete { old_start, count } => DiffOp::Delete { old_start: *old_start, count: *count },
            DiffOp::Insert { new_start, lines } => DiffOp::Insert { new_start: *new_start, lines: clone_lines(lines) },
            DiffOp::Replace { old_start, old_count, new_start, lines } => DiffOp::Replace {
                old_start: *old_start,
                old_count: *old_count,
                new_start: *new_start,
                lines: clone_lines(lines),
            },
        }
}

/// A hunk: a contiguous block of differences. Positions are 1-based.
#[derive(Debug)]
pub struct Hunk {
    pub old_start: u32,
    pub old_len: u32,
    pub new_start: u32,
    pub new_len: u32,
    pub ops: Vec<DiffOp>,
}

/// The view of a hunk.
pub struct HunkV {
    pub old_start: u32,
    pub old_len: u32,
    pub new_start: u32,
    pub new_len: u32,
    pub ops: Seq<DiffOpV>,
}

pub open spec fn ops_view(ops: Seq<DiffOp>) -> Seq<DiffOpV> {
    Seq::new(ops.len(), |i: int| ops[i]@)
}

impl View for Hunk {
    type V = HunkV;

    open spec fn view(&self) -> HunkV {
        HunkV {
            old_start: self.old_start,
            old_len: self.old_len,
            new_start: self.new_start,
            new_len: self.new_len,
            ops: ops_view(self.ops@),
        }
    }
}

pub fn clone_ops(v: &Vec<DiffOp>) -> (r: Vec<DiffOp>)
    ensures
        ops_view(r@) == ops_view(v@),
{
    let mut r: Vec<DiffOp> = Vec::new();
    let mut i: usize = 0;
    while i < v.len()
        invariant
            i <= v@.len(),
            r@.len() == i,
            forall|j: int| 0 <= j < i ==> r@[j]@ == v@[j]@,
        decreases v@.len() - i,
    {
        let c = clone_op(&v[i]);
        r.push(c);
        i += 1;
    }
    proof {
        assert(ops_view(r@) =~= ops_view(v@));
    }
    r
}

impl Clone for Hunk {
    fn clone(&self) -> (r: Self)
        ensures
            r@ == self@,
    {
        clone_hunk(self)
    }
}

/// A copy of a hunk.
pub fn clone_hunk(h: &Hunk) -> (r: Hunk)
    ensures
        r@ == h@,
{
    Hunk {
        old_start: h.old_start,
        old_len: h.old_len,
        new_start: h.new_start,
        new_len: h.new_len,
        ops: clone_ops(&h.ops),
    }
}

/// A line-level difference: a list of hunks.
#[derive(Debug)]
pub struct LineDiff {
    pub hunks: Vec<Hunk>,
}

pub open spec fn hunks_view(hs: Seq<Hunk>) -> Seq<HunkV> {
    Seq::new(hs.len(), |i: int| hs[i]@)
}

impl View for LineDiff {
    type V = Seq<HunkV>;

    open spec fn view(&self) -> Seq<HunkV> {
        hunks_view(self.hunks@)
    }
}

pub fn clone_hunks(v: &Vec<Hunk>) -> (r: Vec<Hunk>)
    ensures
        hunks_view(r@) == hunks_view(v@),
{
    let mut r: Vec<Hunk> = Vec::new();
    let mut i: usize = 0;
    while i < v.len()
        invariant
            i <= v@.len(),
            r@.len() == i,
            forall|j: int| 0 <= j < i ==> r@[j]@ == v@[j]@,
        decreases v@.len() - i,
    {
        let c = clone_hunk(&v[i]);
        r.push(c);
        i += 1;
    }
    proof {
        assert(hunks_view(r@) =~= hunks_view(v@));
    }
    r
}

impl Clone for LineDiff {
    fn clone(&self) -> (r: Self)
        ensures
            r@ == self@,
    {
        LineDiff { hunks: clone_hunks(&self.hunks) }
    }
}

impl LineDiff {
    /// A diff made of the given hunks.
    pub fn new(hunks: Vec<Hunk>) -> (r: LineDiff)
        ensures
            r@ == hunks_view(hunks@),
    {
        LineDiff { hunks }
    }

    /// Whether the diff has no hunk.
    pub fn is_empty(&self) -> (r: bool)
        ensures
            r == (self@.len() == 0),
    {
        self.hunks.len() == 0
    }
}

} // verus!

verus! {

/// A copy of a source.
pub fn clone_source(s: &SourceType) -> (r: SourceType)
    ensures
        r@ == s@,
{
    match s {
        SourceType::Manual => SourceType::Manual,
        SourceType::Agent(a) => SourceType::Agent(a.duplicate()),
        SourceType::Backup => SourceType::Backup,
    }
}

} // verus!
