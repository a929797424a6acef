//! Declarations and thin wrappers for the outside code the engine calls in
//! the middle of its logic: the Solidity type-string parser of `ethabi`, the
//! Keccak-256 digest of `sha3`, the hex rendering of `hex`, and std's
//! Unicode uppercase mapping. Everything else in the crate is verified
//! against the contracts stated here.

use sha3::Digest;
use vstd::prelude::*;
use vstd::string::StrSliceExecFns;

verus! {

#[verifier::external_type_specification]
pub struct ExParamType(ethabi::ParamType);

/// The Solidity type named by an ASCII type string, under the grammar that
/// `ethabi::param_type::Reader` accepts, or `None` where that grammar
/// rejects the string.
pub uninterp spec fn parsed_param_type(s: Seq<char>) -> Option<ethabi::ParamType>;

/// A decimal digit character.
pub open spec fn is_dec_digit(c: char) -> bool {
    48 <= c as u32 && c as u32 <= 57
}

/// The text carries, from position `p` on, zero or more decimal digits and
/// then a closing bracket.
pub open spec fn digits_then_bracket(s: Seq<char>, p: int) -> bool {
    exists|q: int|
        p <= q < s.len() && s[q] == ']' && (forall|i: int|
            p <= i < q ==> is_dec_digit(#[trigger] s[i]))
}

/// A position where the outside type parser starts reading a fresh piece:
/// the start of the text, or right after a parenthesis or a comma.
pub open spec fn segment_start(s: Seq<char>, p: int) -> bool {
    p == 0 || s[p - 1] == '(' || s[p - 1] == ',' || s[p - 1] == ')'
}

/// Type texts on which the outside parser is not trusted to return: it
/// strips a trailing `[N]` group by subtracting lengths, and a piece that is
/// nothing but digits and a `]` makes that subtraction underflow and panic.
/// Every such piece begins with digits and a `]` at a segment start, so this
/// predicate covers the panicking inputs; it also covers some degenerate
/// texts the parser would fold to its enum fallback.
pub open spec fn hazardous_type_text(s: Seq<char>) -> bool {
    exists|p: int| 0 <= p < s.len() && segment_start(s, p) && digits_then_bracket(s, p)
}

/// Decides whether, from position `p`, the text reads as digits then `]`.
fn digits_bracket_from(s: &str, p: usize, n: usize) -> (r: bool)
    requires
        n == s@.len(),
        p < n,
    ensures
        r == digits_then_bracket(s@, p as int),
{
    let mut q: usize = p;
    #[verifier::loop_isolation(false)]
    while q < n
        invariant
            p <= q <= n,
            forall|i: int| p <= i < q ==> is_dec_digit(#[trigger] s@[i]),
        decreases n - q,
    {
        let c = s.get_char(q);
        if c == ']' {
            proof {
                assert(p <= q < s@.len() && s@[q as int] == ']' && (forall|i: int|
                    p <= i < q ==> is_dec_digit(#[trigger] s@[i])));
            }
            return true;
        }
        let cu = c as u32;
        if !(cu >= 48 && cu <= 57) {
            proof {
                assert forall|qq: int|
                    p <= qq < s@.len() && s@[qq] == ']' implies !(forall|i: int|
                    p <= i < qq ==> is_dec_digit(#[trigger] s@[i])) by {
                    assert(!is_dec_digit(s@[q as int]));
                    assert(s@[q as int] != ']');
                    assert(q < qq);
                }
            }
            return false;
        }
        q = q + 1;
    }
    proof {
        assert forall|qq: int| p <= qq < s@.len() implies s@[qq] != ']' by {
            assert(is_dec_digit(s@[qq]));
        }
    }
    false
}

/// Decides whether a type text lies in the family the outside parser is not
/// trusted on.
pub fn is_hazardous_type_text(s: &str) -> (r: bool)
    ensures
        r == hazardous_type_text(s@),
{
    let n = s.unicode_len();
    let mut p: usize = 0;
    #[verifier::loop_isolation(false)]
    while p < n
        invariant
            p <= n,
            n == s@.len(),
            forall|pp: int|
                0 <= pp < p ==> !(segment_start(s@, pp) && digits_then_bracket(s@, pp)),
        decreases n - p,
    {
        let at_start: bool = if p == 0 {
            true
        } else {
            let prev = s.get_char(p - 1);
            prev == '(' || prev == ',' || prev == ')'
        };
        if at_start {
            if digits_bracket_from(s, p, n) {
                return true;
            }
        }
        p = p + 1;
    }
    false
}

/// Relies on `ethabi::param_type::Reader::read`: it parses a Solidity type
/// string, and its result depends on the string alone. The parse failure it
/// reports carries nothing the engine reads, so it comes back as `None`.
/// Non-ASCII strings are kept out because the parser slices byte ranges it
/// derived from character positions, and the hazardous family is kept out
/// because the parser panics on it (see `hazardous_type_text`).
#[verifier::external_body]
pub(crate) fn read_param_type(raw: &str) -> (r: Option<ethabi::ParamType>)
    requires
        vstd::string::is_ascii(raw),
        !hazardous_type_text(raw@),
    ensures
        r == parsed_param_type(raw@),
{
    ethabi::param_type::Reader::read(raw).ok()
}

/// The Keccak-256 digest of a byte string.
pub uninterp spec fn keccak256_of(bytes: Seq<u8>) -> Seq<u8>;

/// Relies on `sha3::Keccak256`: a 32-byte digest that depends on the input
/// bytes alone.
#[verifier::external_body]
pub(crate) fn keccak256(bytes: &[u8]) -> (r: Vec<u8>)
    ensures
        r@ == keccak256_of(bytes@),
        r@.len() == 32,
{
    let mut hasher = sha3::Keccak256::new();
    hasher.update(bytes);
    hasher.finalize().to_vec()
}

/// The character for one hexadecimal digit, lowercase.
pub open spec fn hex_digit(d: int) -> char {
    if d < 10 {
        crate::text::dec_digit(d)
    } else if d == 10 {
        'a'
    } else if d == 11 {
        'b'
    } else if d == 12 {
        'c'
    } else if d == 13 {
        'd'
    } else if d == 14 {
        'e'
    } else {
        'f'
    }
}

/// Lowercase hexadecimal rendering of a byte string, two digits per byte,
/// high digit first.
pub open spec fn hex_of(bytes: Seq<u8>) -> Seq<char>
    decreases bytes.len(),
{
    if bytes.len() == 0 {
        Seq::empty()
    } else {
        seq![hex_digit(bytes[0] as int / 16), hex_digit(bytes[0] as int % 16)] + hex_of(
            bytes.drop_first(),
        )
    }
}

/// Hex rendering writes two digits per byte.
pub proof fn lemma_hex_of_len(bytes: Seq<u8>)
    ensures
        hex_of(bytes).len() == 2 * bytes.len(),
    decreases bytes.len(),
{
    if bytes.len() > 0 {
        lemma_hex_of_len(bytes.drop_first());
    }
}

/// The Unicode uppercase mapping of one character, as std's
/// `char::to_uppercase` yields it: one character maps to one or more.
pub uninterp spec fn upper_of(c: char) -> Seq<char>;

/// Relies on std's `char::to_uppercase`, which vstd leaves unspecified: the
/// Unicode uppercase mapping, a function of the character alone. On ASCII
/// the mapping folds a lowercase letter to its uppercase form and leaves
/// every other character alone.
#[verifier::external_body]
pub(crate) fn upper_char(c: char) -> (r: String)
    ensures
        r@ == upper_of(c),
        (c as u32) < 128 ==> r@ == seq![crate::text::ascii_upper(c)],
{
    c.to_uppercase().collect()
}

/// Relies on `hex::encode`: two lowercase hexadecimal digits per input byte,
/// in input order.
#[verifier::external_body]
pub(crate) fn hex_string(bytes: &[u8]) -> (r: String)
    ensures
        r@ == hex_of(bytes@),
{
    hex::encode(bytes)
}

} // verus!
