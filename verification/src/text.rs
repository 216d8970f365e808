//! Byte-level text helpers: splitting on a separator, decimal numbers, and
//! UTF-8 validity.

use vstd::prelude::*;
use vstd::utf8::valid_utf8;

verus! {

/// The pieces of `s` between occurrences of `sep`, like `str::split`:
/// an empty input gives one empty piece, and adjacent separators give
/// empty pieces.
pub open spec fn split_on(s: Seq<u8>, sep: u8) -> Seq<Seq<u8>>
    decreases s.len(),
{
    if s.len() == 0 {
        seq![Seq::<u8>::empty()]
    } else {
        let pieces = split_on(s.drop_last(), sep);
        if s.last() == sep {
            pieces.push(Seq::empty())
        } else {
            pieces.update(pieces.len() - 1, pieces.last().push(s.last()))
        }
    }
}

pub proof fn lemma_split_on_nonempty(s: Seq<u8>, sep: u8)
    ensures
        split_on(s, sep).len() >= 1,
    decreases s.len(),
{
    if s.len() > 0 {
        lemma_split_on_nonempty(s.drop_last(), sep);
    }
}

/// Splits bytes on a separator byte.
pub fn split_bytes(s: &[u8], sep: u8) -> (pieces: Vec<Vec<u8>>)
    ensures
        pieces@.map_values(|p: Vec<u8>| p@) == split_on(s@, sep),
{
    let mut pieces: Vec<Vec<u8>> = Vec::new();
    let mut current: Vec<u8> = Vec::new();
    let mut i: usize = 0;
    assert(s@.take(0) =~= Seq::<u8>::empty());
    while i < s.len()
        invariant
            i <= s@.len(),
            split_on(s@.take(i as int), sep) == pieces@.map_values(|p: Vec<u8>| p@).push(current@),
        decreases s@.len() - i,
    {
        let ghost prefix = s@.take(i as int);
        assert(s@.take(i + 1).drop_last() =~= prefix);
        proof { lemma_split_on_nonempty(prefix, sep); }
        let b = s[i];
        if b == sep {
            let finished = current;
            current = Vec::new();
            let ghost before = pieces@.map_values(|p: Vec<u8>| p@);
            pieces.push(finished);
            assert(pieces@.map_values(|p: Vec<u8>| p@) =~= before.push(finished@));
            assert(split_on(s@.take(i + 1), sep) =~= pieces@.map_values(|p: Vec<u8>| p@).push(
                current@,
            ));
        } else {
            let ghost old_current = current@;
            current.push(b);
            assert(split_on(s@.take(i + 1), sep) =~= pieces@.map_values(|p: Vec<u8>| p@).push(
                current@,
            ));
        }
        i = i + 1;
    }
    assert(s@.take(i as int) =~= s@);
    let ghost before = pieces@.map_values(|p: Vec<u8>| p@);
    pieces.push(current);
    assert(pieces@.map_values(|p: Vec<u8>| p@) =~= before.push(current@));
    pieces
}

pub open spec fn is_ascii_digit(b: u8) -> bool {
    0x30u8 <= b <= 0x39u8
}

pub open spec fn all_digits(d: Seq<u8>) -> bool {
    forall|i: int| 0 <= i < d.len() ==> is_ascii_digit(#[trigger] d[i])
}

/// The number that a string of decimal digits denotes.
pub open spec fn decimal_value(d: Seq<u8>) -> nat
    decreases d.len(),
{
    if d.len() == 0 {
        0
    } else {
        decimal_value(d.drop_last()) * 10 + (d.last() - 0x30u8) as nat
    }
}

/// The digits of an unsigned decimal as `str::parse::<usize>` accepts it:
/// an optional leading `+`, then one or more ASCII digits.
pub open spec fn unsigned_digits(s: Seq<u8>) -> Seq<u8> {
    if s.len() > 0 && s[0] == 0x2Bu8 {
        s.drop_first()
    } else {
        s
    }
}

/// What `str::parse::<usize>` gives for `s`.
pub open spec fn parse_usize_spec(s: Seq<u8>) -> Option<usize> {
    let d = unsigned_digits(s);
    if d.len() > 0 && all_digits(d) && decimal_value(d) <= usize::MAX {
        Some(decimal_value(d) as usize)
    } else {
        None
    }
}

proof fn lemma_decimal_value_prefix(d: Seq<u8>, i: int)
    requires
        0 <= i <= d.len(),
        all_digits(d),
    ensures
        decimal_value(d.take(i)) <= decimal_value(d),
    decreases d.len() - i,
{
    if i < d.len() {
        lemma_decimal_value_prefix(d, i + 1);
        assert(d.take(i + 1).drop_last() =~= d.take(i));
        assert(is_ascii_digit(d[i]));
    } else {
        assert(d.take(i) =~= d);
    }
}

/// Parses an unsigned decimal exactly as `str::parse::<usize>` does.
pub fn parse_usize(s: &[u8]) -> (res: Option<usize>)
    ensures
        res == parse_usize_spec(s@),
{
    let mut start: usize = 0;
    if s.len() > 0 && s[0] == 0x2Bu8 {
        start = 1;
    }
    let ghost d = unsigned_digits(s@);
    assert(d =~= s@.subrange(start as int, s@.len() as int));
    if start == s.len() {
        return None;
    }
    let mut value: usize = 0;
    let mut i: usize = start;
    while i < s.len()
        invariant
            start <= i <= s@.len(),
            d == unsigned_digits(s@),
            d =~= s@.subrange(start as int, s@.len() as int),
            all_digits(d.take(i - start)),
            value == decimal_value(d.take(i - start)),
        decreases s@.len() - i,
    {
        let b = s[i];
        let ghost k = i - start;
        assert(d[k] == b);
        if b < 0x30u8 || b > 0x39u8 {
            assert(!all_digits(d));
            return None;
        }
        assert(d.take(k + 1).drop_last() =~= d.take(k));
        assert(all_digits(d.take(k + 1)));
        let digit = (b - 0x30u8) as usize;
        match value.checked_mul(10) {
            None => {
                proof {
                    if all_digits(d) {
                        lemma_decimal_value_prefix(d, k + 1);
                    }
                }
                return None;
            },
            Some(scaled) => match scaled.checked_add(digit) {
                None => {
                    proof {
                        if all_digits(d) {
                            lemma_decimal_value_prefix(d, k + 1);
                        }
                    }
                    return None;
                },
                Some(next) => {
                    value = next;
                },
            },
        }
        i = i + 1;
    }
    assert(d.take(i - start) =~= d);
    Some(value)
}

/// Whether the bytes are well-formed UTF-8, as `std::str::from_utf8` decides.
#[verifier::external_body]
pub(crate) fn is_valid_utf8(bytes: &[u8]) -> (valid: bool)
    ensures
        valid == valid_utf8(bytes@),
{
    std::str::from_utf8(bytes).is_ok()
}

/// Whether `s` begins with the two bytes `--`.
pub open spec fn starts_with_dashes(s: Seq<u8>) -> bool {
    s.len() >= 2 && s[0] == 0x2Du8 && s[1] == 0x2Du8
}

pub fn bytes_start_with_dashes(s: &[u8]) -> (res: bool)
    ensures
        res == starts_with_dashes(s@),
{
    s.len() >= 2 && s[0] == 0x2Du8 && s[1] == 0x2Du8
}

/// The bytes of an optional byte string.
pub open spec fn opt_bytes(o: Option<&[u8]>) -> Option<Seq<u8>> {
    match o {
        Some(b) => Some(b@),
        None => None,
    }
}

/// Byte-wise equality.
pub fn bytes_equal(a: &[u8], b: &[u8]) -> (res: bool)
    ensures
        res == (a@ == b@),
{
    if a.len() != b.len() {
        return false;
    }
    let mut i: usize = 0;
    while i < a.len()
        invariant
            i <= a@.len(),
            a@.len() == b@.len(),
            forall|j: int| 0 <= j < i ==> a@[j] == b@[j],
        decreases a@.len() - i,
    {
        if a[i] != b[i] {
            return false;
        }
        i = i + 1;
    }
    assert(a@ =~= b@);
    true
}

/// The character of a decimal digit.
pub open spec fn digit_char(d: nat) -> char {
    if d == 0 {
        '0'
    } else if d == 1 {
        '1'
    } else if d == 2 {
        '2'
    } else if d == 3 {
        '3'
    } else if d == 4 {
        '4'
    } else if d == 5 {
        '5'
    } else if d == 6 {
        '6'
    } else if d == 7 {
        '7'
    } else if d == 8 {
        '8'
    } else {
        '9'
    }
}

/// The decimal spelling of a number, without leading zeros.
pub open spec fn decimal_chars(n: nat) -> Seq<char>
    decreases n,
{
    if n < 10 {
        seq![digit_char(n)]
    } else {
        decimal_chars(n / 10).push(digit_char(n % 10))
    }
}

fn append_digit(s: &mut String, d: u64)
    requires
        d < 10,
    ensures
        final(s)@ == old(s)@.push(digit_char(d as nat)),
{
    match d {
        0 => {
            s.append("0");
            proof {
                reveal_strlit("0");
            }
        },
        1 => {
            s.append("1");
            proof {
                reveal_strlit("1");
            }
        },
        2 => {
            s.append("2");
            proof {
                reveal_strlit("2");
            }
        },
        3 => {
            s.append("3");
            proof {
                reveal_strlit("3");
            }
        },
        4 => {
            s.append("4");
            proof {
                reveal_strlit("4");
            }
        },
        5 => {
            s.append("5");
            proof {
                reveal_strlit("5");
            }
        },
        6 => {
            s.append("6");
            proof {
                reveal_strlit("6");
            }
        },
        7 => {
            s.append("7");
            proof {
                reveal_strlit("7");
            }
        },
        8 => {
            s.append("8");
            proof {
                reveal_strlit("8");
            }
        },
        _ => {
            s.append("9");
            proof {
                reveal_strlit("9");
            }
        },
    }
}

/// Appends the decimal spelling of `n`.
pub fn append_decimal(s: &mut String, n: u64)
    ensures
        final(s)@ == old(s)@ + decimal_chars(n as nat),
    decreases n,
{
    if n >= 10 {
        append_decimal(s, n / 10);
    }
    append_digit(s, n % 10);
    assert(s@ =~= old(s)@ + decimal_chars(n as nat)) by {
        if n < 10 {
            assert(decimal_chars(n as nat) == seq![digit_char(n as nat)]);
        }
    }
}

} // verus!
