//! Verified text helpers: string equality, identifier sanitization,
//! ASCII lowercasing and decimal formatting.

use vstd::prelude::*;

verus! {

/// Compares two string slices character by character.
pub fn str_eq(a: &str, b: &str) -> (r: bool)
    ensures
        r == (a@ == b@),
{
    let alen = a.unicode_len();
    let blen = b.unicode_len();
    if alen != blen {
        proof {
            assert(a@.len() != b@.len());
        }
        return false;
    }
    let mut i: usize = 0;
    while i < alen
        invariant
            alen == a@.len(),
            blen == b@.len(),
            alen == blen,
            i <= alen,
            forall|j: int| 0 <= j < i ==> a@[j] == b@[j],
        decreases alen - i,
    {
        if a.get_char(i) != b.get_char(i) {
            return false;
        }
        i += 1;
    }
    proof {
        assert(a@ =~= b@);
    }
    true
}

/// True for the characters that are stripped from tensor names before the
/// names are used as generated identifiers.
pub open spec fn is_illegal_char(c: char) -> bool {
    c == '(' || c == ')' || c == ',' || c == '"' || c == '.' || c == ';' || c == ':' || c == '\''
        || c == '/'
}

/// A tensor name with every illegal character removed.
pub open spec fn sanitized(s: Seq<char>) -> Seq<char> {
    s.filter(|c: char| !is_illegal_char(c))
}

fn illegal_char(c: char) -> (r: bool)
    ensures
        r == is_illegal_char(c),
{
    c == '(' || c == ')' || c == ',' || c == '"' || c == '.' || c == ';' || c == ':' || c == '\''
        || c == '/'
}

/// Relies on `String::from_iter` over `core::str::Chars`: the resulting
/// string consists of exactly the characters of `v`, in order.
#[verifier::external_body]
fn chars_to_string(v: &Vec<char>) -> (r: String)
    ensures
        r@ == v@,
{
    v.iter().collect()
}

/// Removes from `name` every character that is illegal in a generated
/// identifier and keeps all others, in order.
pub fn sanitize(name: &str) -> (r: String)
    ensures
        r@ == sanitized(name@),
{
    let len = name.unicode_len();
    let mut kept: Vec<char> = Vec::new();
    let mut i: usize = 0;
    while i < len
        invariant
            len == name@.len(),
            i <= len,
            kept@ == sanitized(name@.take(i as int)),
        decreases len - i,
    {
        let c = name.get_char(i);
        proof {
            assert(name@.take(i + 1).drop_last() =~= name@.take(i as int));
            reveal_with_fuel(Seq::filter, 2);
        }
        if !illegal_char(c) {
            kept.push(c);
        }
        i += 1;
    }
    proof {
        assert(name@.take(len as int) =~= name@);
    }
    chars_to_string(&kept)
}

/// An upper-case ASCII letter mapped to its lower-case form; every other
/// character is left unchanged.
pub open spec fn lower_char(c: char) -> char {
    if 'A' <= c && c <= 'Z' {
        (((c as u8) + 32) as u8) as char
    } else {
        c
    }
}

/// A string with each character lowered by `lower_char`.
pub open spec fn lowercased(s: Seq<char>) -> Seq<char> {
    s.map_values(|c: char| lower_char(c))
}

/// Lowers every upper-case ASCII letter of `s`; all other characters,
/// ASCII or not, are kept as they are.
pub fn ascii_lowercase(s: &str) -> (r: String)
    ensures
        r@ == lowercased(s@),
{
    let len = s.unicode_len();
    let mut out: Vec<char> = Vec::new();
    let mut i: usize = 0;
    while i < len
        invariant
            len == s@.len(),
            i <= len,
            out@ == lowercased(s@.take(i as int)),
        decreases len - i,
    {
        let c = s.get_char(i);
        let l: char = if 'A' <= c && c <= 'Z' {
            ((c as u8) + 32) as char
        } else {
            c
        };
        out.push(l);
        proof {
            assert(s@.take(i + 1).map_values(|ch: char| lower_char(ch)) =~= s@.take(
                i as int,
            ).map_values(|ch: char| lower_char(ch)).push(lower_char(s@[i as int])));
        }
        i += 1;
    }
    proof {
        assert(s@.take(len as int) =~= s@);
    }
    chars_to_string(&out)
}

/// The decimal digit `d` as a character.
pub open spec fn digit_char(d: int) -> char
    recommends
        0 <= d < 10,
{
    ((48 + d) as u8) as char
}

/// The decimal notation of `n`, without leading zeros (a single zero
/// for `n == 0`).
pub open spec fn dec_str(n: nat) -> Seq<char>
    decreases n,
{
    if n < 10 {
        seq![digit_char(n as int)]
    } else {
        dec_str(n / 10).push(digit_char((n % 10) as int))
    }
}

/// Formats `n` in decimal notation.
pub fn u64_to_string(n: u64) -> (r: String)
    ensures
        r@ == dec_str(n as nat),
{
    let mut digits: Vec<char> = Vec::new();
    let mut m: u64 = n;
    loop
        invariant_except_break
            m > 0 || digits@.len() == 0,
            dec_str(n as nat) == (if digits@.len() == 0 {
                dec_str(m as nat)
            } else {
                dec_str(m as nat) + digits@.reverse()
            }),
        ensures
            dec_str(n as nat) == digits@.reverse(),
        decreases m,
    {
        let ghost old_digits = digits@;
        let ghost old_m = m as nat;
        let d: u8 = (m % 10) as u8;
        let c: char = (48 + d) as char;
        digits.push(c);
        m = m / 10;
        proof {
            reveal_with_fuel(dec_str, 2);
            assert(digits@.reverse() =~= seq![c] + old_digits.reverse());
            if old_m >= 10 {
                assert(dec_str(old_m / 10).push(c) =~= dec_str(old_m / 10) + seq![c]);
                assert(dec_str(m as nat) + (seq![c] + old_digits.reverse()) =~= (dec_str(
                    m as nat,
                ) + seq![c]) + old_digits.reverse());
            } else {
                assert(dec_str(old_m) =~= seq![c]);
                assert(seq![c] + old_digits.reverse() =~= digits@.reverse());
            }
        }
        if m == 0 {
            break;
        }
    }
    let r = chars_to_string(&digits_reversed(&digits));
    r
}

fn digits_reversed(v: &Vec<char>) -> (r: Vec<char>)
    ensures
        r@ == v@.reverse(),
{
    let mut r: Vec<char> = Vec::new();
    let mut i: usize = v.len();
    while i > 0
        invariant
            i <= v@.len(),
            r@.len() == v@.len() - i,
            forall|j: int| 0 <= j < r@.len() ==> r@[j] == v@[v@.len() - 1 - j],
        decreases i,
    {
        i -= 1;
        r.push(v[i]);
    }
    proof {
        assert(r@ =~= v@.reverse());
    }
    r
}

/// Sanitizing is idempotent: a name that has already been sanitized is
/// returned unchanged by a second pass.
pub proof fn lemma_sanitize_idempotent(s: Seq<char>)
    ensures
        sanitized(sanitized(s)) == sanitized(s),
    decreases s.len(),
{
    reveal_with_fuel(Seq::filter, 2);
    if s.len() == 0 {
        assert(sanitized(s) == s);
    } else {
        lemma_sanitize_idempotent(s.drop_last());
        let inner = sanitized(s.drop_last());
        if !is_illegal_char(s.last()) {
            let pushed = inner.push(s.last());
            assert(sanitized(s) == pushed);
            assert(pushed.drop_last() =~= inner);
            assert(sanitized(pushed) == sanitized(inner).push(s.last()));
        }
    }
}

} // verus!
