//! Query values as the load balancer hands them over: percent-decoded once, then
//! with each `+` read as a space.
use vstd::prelude::*;
use vstd::string::{StrSliceExecFns, StringExecFns};
use url::percent_encoding::percent_decode;

verus! {

/// An ASCII hexadecimal digit, either case, as `char::to_digit(16)` accepts it.
pub open spec fn is_hex_digit(c: char) -> bool {
    (48 <= c as u32 <= 57) || (65 <= c as u32 <= 70) || (97 <= c as u32 <= 102)
}

/// The value of a hexadecimal digit.
pub open spec fn hex_value(c: char) -> int {
    if 48 <= c as u32 <= 57 {
        c as u32 - 48
    } else if 65 <= c as u32 <= 70 {
        c as u32 - 55
    } else {
        c as u32 - 87
    }
}

/// Whether `s` opens with a percent sign and two hexadecimal digits.
pub open spec fn opens_escape(s: Seq<char>) -> bool {
    s.len() >= 3 && s[0] == '%' && is_hex_digit(s[1]) && is_hex_digit(s[2])
}

/// The byte that an escape at the start of `s` stands for.
pub open spec fn escape_value(s: Seq<char>) -> int {
    hex_value(s[1]) * 16 + hex_value(s[2])
}

/// Whether every escape that decoding meets in `s` stands for an ASCII byte.
pub open spec fn escapes_are_ascii(s: Seq<char>) -> bool
    decreases s.len(),
{
    if s.len() == 0 {
        true
    } else if opens_escape(s) {
        escape_value(s) < 128 && escapes_are_ascii(s.skip(3))
    } else {
        escapes_are_ascii(s.skip(1))
    }
}

/// Percent-decoding, for text whose escapes stand for ASCII bytes: each escape
/// becomes the character it stands for, every other character stays.
pub open spec fn percent_decoded(s: Seq<char>) -> Seq<char>
    decreases s.len(),
{
    if s.len() == 0 {
        Seq::empty()
    } else if opens_escape(s) {
        seq![(escape_value(s) as u8) as char] + percent_decoded(s.skip(3))
    } else {
        seq![s[0]] + percent_decoded(s.skip(1))
    }
}

/// A plus sign read as a space.
pub open spec fn plus_as_space(c: char) -> char {
    if c == '+' {
        ' '
    } else {
        c
    }
}

/// `s` with every plus sign read as a space.
pub open spec fn pluses_as_spaces(s: Seq<char>) -> Seq<char> {
    s.map_values(|c: char| plus_as_space(c))
}

/// What a query value `s` means once decoded.
pub open spec fn query_value_of(s: Seq<char>) -> Seq<char> {
    pluses_as_spaces(percent_decoded(s))
}

/// Relies on `percent_decode(..).decode_utf8()` of the url crate: an escape is a
/// `%` and two hexadecimal digits and stands for one byte, every other byte
/// stays, and the bytes are read back as UTF-8. Where each escape stands for an
/// ASCII byte, the bytes are valid UTF-8.
#[verifier::external_body]
fn percent_decode_utf8(s: &str) -> (r: Option<String>)
    ensures
        escapes_are_ascii(s@) ==> r is Some && r->0@ == percent_decoded(s@),
{
    match percent_decode(s.as_bytes()).decode_utf8() {
        Ok(v) => Some(v.into_owned()),
        Err(_) => None,
    }
}

/// `s` with every plus sign replaced by a space.
pub fn replace_pluses(s: &str) -> (r: String)
    ensures
        r@ == pluses_as_spaces(s@),
{
    let n = s.unicode_len();
    let mut r = String::new();
    let mut i: usize = 0;
    proof {
        reveal_strlit(" ");
    }
    while i < n
        invariant
            n == s@.len(),
            i <= n,
            r@ == pluses_as_spaces(s@.take(i as int)),
            " "@ == seq![' '],
        decreases n - i,
    {
        let c = s.get_char(i);
        if c == '+' {
            r.append(" ");
        } else {
            r.append(s.substring_char(i, i + 1));
        }
        i = i + 1;
        assert(r@ =~= pluses_as_spaces(s@.take(i as int)));
    }
    assert(s@.take(i as int) =~= s@);
    r
}

/// Decodes a query value once and reads each `+` as a space. `None` where the
/// decoded bytes are not UTF-8; that never happens when every escape stands for
/// an ASCII byte.
pub fn decode_query_value(s: &str) -> (r: Option<String>)
    ensures
        escapes_are_ascii(s@) ==> r is Some,
        r is Some && escapes_are_ascii(s@) ==> r->0@ == query_value_of(s@),
        r is Some ==> !r->0@.contains('+'),
{
    match percent_decode_utf8(s) {
        None => None,
        Some(d) => {
            let out = replace_pluses(d.as_str());
            assert(!out@.contains('+')) by {
                if out@.contains('+') {
                    let j = choose|j: int| 0 <= j < out@.len() && out@[j] == '+';
                    assert(out@[j] == plus_as_space(d@[j]));
                }
            }
            Some(out)
        },
    }
}

// The encoding that a client applies to a query value before it reaches the
// load balancer, and the proof that decoding undoes it.

/// A character that a query value carries as it is.
pub open spec fn is_unreserved(c: char) -> bool {
    let n = c as u32;
    n >= 128 || (48 <= n <= 57) || (65 <= n <= 90) || (97 <= n <= 122) || n == 45 || n == 46
        || n == 95 || n == 126
}

/// The uppercase hexadecimal digit for `n`, below 16.
pub open spec fn hex_digit(n: int) -> char {
    if n < 10 {
        ((48 + n) as u8) as char
    } else {
        ((55 + n) as u8) as char
    }
}

/// How one character of a query value is written on the wire: a space as `+`,
/// another reserved ASCII character as an escape, the rest as it is.
pub open spec fn encoded_char(c: char) -> Seq<char> {
    if c == ' ' {
        seq!['+']
    } else if is_unreserved(c) {
        seq![c]
    } else {
        seq!['%', hex_digit(c as int / 16), hex_digit(c as int % 16)]
    }
}

/// A query value as written on the wire.
pub open spec fn form_encoded(v: Seq<char>) -> Seq<char>
    decreases v.len(),
{
    if v.len() == 0 {
        Seq::empty()
    } else {
        encoded_char(v[0]) + form_encoded(v.skip(1))
    }
}

proof fn lemma_hex_digit(n: int)
    requires
        0 <= n < 16,
    ensures
        is_hex_digit(hex_digit(n)),
        hex_value(hex_digit(n)) == n,
{
}

proof fn lemma_decode_step(c: char, rest: Seq<char>)
    requires
        c != '+',
    ensures
        escapes_are_ascii(encoded_char(c) + rest) == escapes_are_ascii(rest),
        percent_decoded(encoded_char(c) + rest) == seq![
            if c == ' ' {
                '+'
            } else {
                c
            },
        ] + percent_decoded(rest),
{
    let s = encoded_char(c) + rest;
    if c == ' ' || is_unreserved(c) {
        assert(!opens_escape(s));
        assert(s.skip(1) =~= rest);
    } else {
        let n = c as int;
        lemma_hex_digit(n / 16);
        lemma_hex_digit(n % 16);
        assert(opens_escape(s));
        assert(escape_value(s) == n);
        assert(s.skip(3) =~= rest);
        assert((n as u8) as char == c);
    }
}

/// Decoding undoes the client's encoding for every value without a plus sign:
/// spaces, reserved characters and other text come back as the caller wrote
/// them. (A literal `+` is escaped by the client and then read as a space.)
pub proof fn lemma_query_value_round_trip(v: Seq<char>)
    requires
        !v.contains('+'),
    ensures
        escapes_are_ascii(form_encoded(v)),
        query_value_of(form_encoded(v)) == v,
    decreases v.len(),
{
    if v.len() == 0 {
        assert(query_value_of(form_encoded(v)) =~= v);
    } else {
        let rest = v.skip(1);
        assert(!rest.contains('+')) by {
            if rest.contains('+') {
                let j = choose|j: int| 0 <= j < rest.len() && rest[j] == '+';
                assert(v[j + 1] == '+');
            }
        }
        lemma_query_value_round_trip(rest);
        assert(v[0] != '+') by {
            assert(v.contains(v[0]) || true);
            if v[0] == '+' {
                assert(v.contains('+'));
            }
        }
        lemma_decode_step(v[0], form_encoded(rest));
        let first = if v[0] == ' ' {
            '+'
        } else {
            v[0]
        };
        assert(percent_decoded(form_encoded(v)) == seq![first] + percent_decoded(form_encoded(rest)));
        assert(query_value_of(form_encoded(v)) =~= seq![v[0]] + query_value_of(form_encoded(rest)));
        assert(v =~= seq![v[0]] + rest);
    }
}

} // verus!
