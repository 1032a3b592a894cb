//! Compact identifier codec: a bijection between non-negative integers and
//! strings over the 36-symbol alphabet `0-9a-z` (a positional base-36 numeral,
//! most significant symbol first, with `0` as the canonical encoding of zero).

use vstd::prelude::*;

verus! {

/// Error returned by `get_n_from_charset`.
#[derive(Debug, Clone, Copy, PartialEq, Eq, Structural)]
pub enum DecodeError {
    /// The input held a character outside the alphabet `0-9a-z`.
    InvalidSymbol,
    /// Every character was in the alphabet, but the numeral's value does not
    /// fit in the result type.
    Overflow,
}

/// The value of one symbol of the alphabet: `0-9` map to 0..=9, `a-z` map to
/// 10..=35, and any other character maps to -1.
pub open spec fn symbol_value(c: char) -> int {
    if '0' <= c && c <= '9' {
        c as int - '0' as int
    } else if 'a' <= c && c <= 'z' {
        c as int - 'a' as int + 10
    } else {
        -1
    }
}

/// Whether `c` is one of the 36 symbols of the alphabet.
pub open spec fn is_symbol(c: char) -> bool {
    symbol_value(c) >= 0
}

/// Whether every character of `s` is in the alphabet.
pub open spec fn all_symbols(s: Seq<char>) -> bool {
    forall|i: int| 0 <= i < s.len() ==> is_symbol(s[i])
}

/// The numeral value of `s`, read most significant symbol first.
/// Meaningful only when `all_symbols(s)` holds.
pub open spec fn seq_value(s: Seq<char>) -> int
    decreases s.len(),
{
    if s.len() == 0 {
        0
    } else {
        seq_value(s.drop_last()) * 36 + symbol_value(s.last())
    }
}

/// The symbol standing for digit value `d`.
/// Meaningful only for `0 <= d < 36`.
pub open spec fn symbol_of(d: int) -> char {
    if 0 <= d && d <= 9 {
        (d + '0' as int) as char
    } else if 10 <= d && d <= 35 {
        (d - 10 + 'a' as int) as char
    } else {
        '0'
    }
}

/// The canonical encoding of `n`: digits of `n` in base 36, most significant
/// first, a single `0` when `n` is zero. Meaningful only for `n >= 0`.
pub open spec fn encoding_of(n: int) -> Seq<char>
    decreases n,
{
    if n < 36 {
        seq![symbol_of(n)]
    } else {
        encoding_of(n / 36).push(symbol_of(n % 36))
    }
}

proof fn lemma_symbol_of_value(d: int)
    requires
        0 <= d < 36,
    ensures
        is_symbol(symbol_of(d)),
        symbol_value(symbol_of(d)) == d,
{
}

/// Round trip: decoding the canonical encoding of `n` gives back `n`, and the
/// encoding uses only symbols of the alphabet.
pub proof fn lemma_codec_round_trip(n: int)
    requires
        0 <= n,
    ensures
        all_symbols(encoding_of(n)),
        seq_value(encoding_of(n)) == n,
    decreases n,
{
    if n < 36 {
        lemma_symbol_of_value(n);
        let s = encoding_of(n);
        assert(s =~= seq![symbol_of(n)]);
        assert(s.drop_last() =~= Seq::<char>::empty());
        assert(s.last() == symbol_of(n));
        assert(seq_value(Seq::<char>::empty()) == 0);
        assert(seq_value(s) == 0 * 36 + symbol_value(symbol_of(n)));
    } else {
        lemma_codec_round_trip(n / 36);
        lemma_symbol_of_value(n % 36);
        let head = encoding_of(n / 36);
        let s = encoding_of(n);
        assert(s =~= head.push(symbol_of(n % 36)));
        assert(s.drop_last() =~= head);
        assert(s.last() == symbol_of(n % 36));
        assert(seq_value(s) == (n / 36) * 36 + n % 36);
        assert((n / 36) * 36 + n % 36 == n) by {
            vstd::arithmetic::div_mod::lemma_fundamental_div_mod(n, 36);
        }
        assert forall|i: int| 0 <= i < s.len() implies is_symbol(s[i]) by {
            if i < head.len() {
                assert(s[i] == head[i]);
            }
        }
    }
}

/// The canonical encoding never starts with a superfluous zero symbol: only
/// zero itself is written with a leading `0`.
pub proof fn lemma_encoding_no_leading_zero(n: int)
    requires
        1 <= n,
    ensures
        encoding_of(n).len() >= 1,
        encoding_of(n).first() != '0',
    decreases n,
{
    if n < 36 {
        assert(symbol_of(n) != '0');
    } else {
        lemma_encoding_no_leading_zero(n / 36);
        let head = encoding_of(n / 36);
        assert(head.push(symbol_of(n % 36))[0] == head[0]);
    }
}

/// The one-character string for digit value `d`.
fn symbol_str(d: i32) -> (r: &'static str)
    requires
        0 <= d < 36,
    ensures
        r@.len() == 1,
        r@[0] == symbol_of(d as int),
{
    proof {
        reveal_strlit("0");
        reveal_strlit("1");
        reveal_strlit("2");
        reveal_strlit("3");
        reveal_strlit("4");
        reveal_strlit("5");
        reveal_strlit("6");
        reveal_strlit("7");
        reveal_strlit("8");
        reveal_strlit("9");
        reveal_strlit("a");
        reveal_strlit("b");
        reveal_strlit("c");
        reveal_strlit("d");
        reveal_strlit("e");
        reveal_strlit("f");
        reveal_strlit("g");
        reveal_strlit("h");
        reveal_strlit("i");
        reveal_strlit("j");
        reveal_strlit("k");
        reveal_strlit("l");
        reveal_strlit("m");
        reveal_strlit("n");
        reveal_strlit("o");
        reveal_strlit("p");
        reveal_strlit("q");
        reveal_strlit("r");
        reveal_strlit("s");
        reveal_strlit("t");
        reveal_strlit("u");
        reveal_strlit("v");
        reveal_strlit("w");
        reveal_strlit("x");
        reveal_strlit("y");
        reveal_strlit("z");
    }
    match d {
        0 => "0",
        1 => "1",
        2 => "2",
        3 => "3",
        4 => "4",
        5 => "5",
        6 => "6",
        7 => "7",
        8 => "8",
        9 => "9",
        10 => "a",
        11 => "b",
        12 => "c",
        13 => "d",
        14 => "e",
        15 => "f",
        16 => "g",
        17 => "h",
        18 => "i",
        19 => "j",
        20 => "k",
        21 => "l",
        22 => "m",
        23 => "n",
        24 => "o",
        25 => "p",
        26 => "q",
        27 => "r",
        28 => "s",
        29 => "t",
        30 => "u",
        31 => "v",
        32 => "w",
        33 => "x",
        34 => "y",
        _ => "z",
    }
}

/// Encode `i` as its canonical base-36 string.
pub fn get_c_from_charset(i: i32) -> (r: String)
    requires
        0 <= i,
    ensures
        r@ == encoding_of(i as int),
    decreases i,
{
    let d = i % 36;
    let q = i / 36;
    let ds = symbol_str(d);
    if q == 0 {
        let r = String::from_str(ds);
        proof {
            assert(r@ =~= seq![symbol_of(i as int)]);
        }
        r
    } else {
        let mut s = get_c_from_charset(q);
        s.append(ds);
        proof {
            assert(s@ =~= encoding_of((i / 36) as int).push(symbol_of((i % 36) as int)));
        }
        s
    }
}

/// The digit value of `c`, or -1 when `c` is outside the alphabet.
fn symbol_val(c: char) -> (d: i32)
    ensures
        d == symbol_value(c),
{
    let u = c as u32;
    if 48 <= u && u <= 57 {
        (u - 48) as i32
    } else if 97 <= u && u <= 122 {
        (u - 97) as i32 + 10
    } else {
        -1
    }
}

/// Decode a base-36 numeral. Returns `Ok` exactly when every character is in
/// the alphabet and the value fits in an `i32`; rejects a character outside
/// the alphabet with `InvalidSymbol`, and an in-alphabet numeral too large
/// for the result type with `Overflow`.
pub fn get_n_from_charset(s: &str) -> (r: Result<i32, DecodeError>)
    ensures
        r is Ok <==> all_symbols(s@) && seq_value(s@) <= i32::MAX,
        r is Ok ==> r->Ok_0 == seq_value(s@),
        r == Err::<i32, DecodeError>(DecodeError::InvalidSymbol) <==> !all_symbols(s@),
        r == Err::<i32, DecodeError>(DecodeError::Overflow)
            <==> all_symbols(s@) && seq_value(s@) > i32::MAX,
{
    let len = s.unicode_len();
    let mut i: usize = 0;
    let mut acc: i64 = 0;
    let mut over: bool = false;
    while i < len
        invariant
            0 <= i <= len,
            len == s@.len(),
            all_symbols(s@.take(i as int)),
            !over ==> 0 <= acc <= i32::MAX && acc == seq_value(s@.take(i as int)),
            over ==> seq_value(s@.take(i as int)) > i32::MAX,
        decreases len - i,
    {
        let c = s.get_char(i);
        let d = symbol_val(c);
        if d < 0 {
            assert(!all_symbols(s@));
            return Err(DecodeError::InvalidSymbol);
        }
        proof {
            assert(s@.take(i + 1).drop_last() =~= s@.take(i as int));
            assert(s@.take(i + 1).last() == s@[i as int]);
            assert(all_symbols(s@.take(i + 1)));
        }
        if !over {
            let next = acc * 36 + d as i64;
            if next > i32::MAX as i64 {
                over = true;
            } else {
                acc = next;
            }
        } else {
            proof {
                let prev = seq_value(s@.take(i as int));
                assert(seq_value(s@.take(i + 1)) == prev * 36 + symbol_value(s@[i as int]));
                assert(prev * 36 == prev + 35 * prev);
                assert(35 * prev > 0);
            }
        }
        i = i + 1;
    }
    proof {
        assert(s@.take(len as int) =~= s@);
    }
    if over {
        Err(DecodeError::Overflow)
    } else {
        Ok(acc as i32)
    }
}

} // verus!
