//! Width primitives: fixed-width blank and dash lines, a width-aware
//! truncating center-pad, and a dash-filled, optionally margin-wrapped
//! banner line.

use vstd::prelude::*;
use vstd::string::*;

use crate::textwidth::char_display_width;
use crate::textwidth::display_width_of;

verus! {

/// `n` space characters.
pub open spec fn spaces(n: int) -> Seq<char> {
    Seq::new(n as nat, |i: int| ' ')
}

/// `n` dash characters.
pub open spec fn dashes(n: int) -> Seq<char> {
    Seq::new(n as nat, |i: int| '-')
}

/// `s` written right to left.
pub open spec fn reversed(s: Seq<char>) -> Seq<char> {
    Seq::new(s.len(), |i: int| s[s.len() - 1 - i])
}

/// The characters of `s` accepted left to right while the remaining budget
/// strictly exceeds each character's display width; widthless (control)
/// characters are dropped.
pub open spec fn fitted_chars(s: Seq<char>, remain: int) -> Seq<char>
    decreases s.len(),
{
    if s.len() == 0 {
        Seq::empty()
    } else {
        match display_width_of(s.first()) {
            Some(w) => if remain > w {
                seq![s.first()] + fitted_chars(s.drop_first(), remain - w)
            } else {
                fitted_chars(s.drop_first(), remain)
            },
            None => fitted_chars(s.drop_first(), remain),
        }
    }
}

/// The display width consumed by `fitted_chars(s, remain)`.
pub open spec fn fitted_width(s: Seq<char>, remain: int) -> int
    decreases s.len(),
{
    if s.len() == 0 {
        0
    } else {
        match display_width_of(s.first()) {
            Some(w) => if remain > w {
                w + fitted_width(s.drop_first(), remain - w)
            } else {
                fitted_width(s.drop_first(), remain)
            },
            None => fitted_width(s.drop_first(), remain),
        }
    }
}

/// `s` truncated to the display budget `width` and centered in it: the
/// leftover display space becomes padding, split evenly, with an odd column
/// going to the right-hand pad.
pub open spec fn centered_line(s: Seq<char>, width: int) -> Seq<char> {
    let body = fitted_chars(s, width);
    let pad = width - fitted_width(s, width);
    spaces(pad / 2) + body + spaces(pad - pad / 2)
}

/// A banner of total length `max_len`: margin, dashes, `padd` spaces, the
/// label (truncated to what fits beside margins and padding), `padd` spaces,
/// dashes, and the mirrored margin. The dash runs split the leftover evenly,
/// an odd leftover going to the right run.
pub open spec fn dash_wrapped(label: Seq<char>, max_len: int, padd: int, margin: Seq<char>) -> Seq<
    char,
> {
    let budget = max_len - 2 * margin.len() - 2 * padd;
    let lab = if label.len() > budget {
        label.take(budget)
    } else {
        label
    };
    let remain = max_len - lab.len();
    let len_l = (remain - 2 * padd - 2 * margin.len()) / 2;
    let len_r = if remain % 2 == 1 {
        len_l + 1
    } else {
        len_l
    };
    margin + dashes(len_l) + spaces(padd) + lab + spaces(padd) + dashes(len_r) + reversed(margin)
}

/// Append `n` spaces to `r`.
pub(crate) fn append_spaces(r: &mut String, n: usize)
    ensures
        final(r)@ == old(r)@ + spaces(n as int),
{
    let ghost orig: Seq<char> = r@;
    let mut i: usize = 0;
    while i < n
        invariant
            i <= n,
            r@ == orig + spaces(i as int),
        decreases n - i,
    {
        r.append(" ");
        i = i + 1;
        proof {
            reveal_strlit(" ");
            assert(r@ =~= orig + spaces(i as int));
        }
    }
}

/// Append `n` dashes to `r`.
pub(crate) fn append_dashes(r: &mut String, n: usize)
    ensures
        final(r)@ == old(r)@ + dashes(n as int),
{
    let ghost orig: Seq<char> = r@;
    let mut i: usize = 0;
    while i < n
        invariant
            i <= n,
            r@ == orig + dashes(i as int),
        decreases n - i,
    {
        r.append("-");
        i = i + 1;
        proof {
            reveal_strlit("-");
            assert(r@ =~= orig + dashes(i as int));
        }
    }
}

/// Append the characters of `m` to `r` in reverse order.
fn append_reversed(r: &mut String, m: &str)
    ensures
        final(r)@ == old(r)@ + reversed(m@),
{
    let ghost orig: Seq<char> = r@;
    let len = m.unicode_len();
    let mut i: usize = 0;
    while i < len
        invariant
            i <= len,
            len == m@.len(),
            r@ == orig + reversed(m@).take(i as int),
        decreases len - i,
    {
        let c = m.substring_char(len - 1 - i, len - i);
        r.append(c);
        i = i + 1;
        proof {
            assert(c@ =~= seq![m@[len - i]]);
            assert(r@ =~= orig + reversed(m@).take(i as int));
        }
    }
    proof {
        assert(reversed(m@).take(len as int) =~= reversed(m@));
    }
}

/// A line of exactly `len` dashes.
pub fn format_dash_line(len: usize) -> (r: String)
    ensures
        r@ == dashes(len as int),
{
    let mut r = String::new();
    append_dashes(&mut r, len);
    proof {
        assert(r@ =~= dashes(len as int));
    }
    r
}

/// A line of exactly `len` spaces.
pub fn format_space_line(len: usize) -> (r: String)
    ensures
        r@ == spaces(len as int),
{
    let mut r = String::new();
    append_spaces(&mut r, len);
    proof {
        assert(r@ =~= spaces(len as int));
    }
    r
}

/// `s` centered in a field of display width `max_len`, truncating greedily:
/// a character is kept only while the remaining budget strictly exceeds its
/// display width. When `max_len` is 0 the result is empty.
pub fn format_with_space_wrap(s: &str, max_len: usize) -> (r: String)
    ensures
        r@ == centered_line(s@, max_len as int),
{
    let len = s.unicode_len();
    let mut remain: usize = max_len;
    let mut body = String::new();
    let mut i: usize = 0;
    proof {
        assert(s@.skip(0) =~= s@);
        assert(body@ + fitted_chars(s@, max_len as int) =~= fitted_chars(s@, max_len as int));
    }
    while i < len
        invariant
            i <= len,
            len == s@.len(),
            remain <= max_len,
            fitted_chars(s@, max_len as int) == body@ + fitted_chars(
                s@.skip(i as int),
                remain as int,
            ),
            fitted_width(s@, max_len as int) == max_len - remain + fitted_width(
                s@.skip(i as int),
                remain as int,
            ),
        decreases len - i,
    {
        let c = s.get_char(i);
        proof {
            assert(s@.skip(i as int).first() == s@[i as int]);
            assert(s@.skip(i as int).drop_first() =~= s@.skip(i + 1));
        }
        match char_display_width(c) {
            Some(w) => {
                if remain > w {
                    let cs = s.substring_char(i, i + 1);
                    body.append(cs);
                    remain = remain - w;
                    proof {
                        assert(cs@ =~= seq![s@[i as int]]);
                        assert(fitted_chars(s@, max_len as int) =~= body@ + fitted_chars(
                            s@.skip(i + 1),
                            remain as int,
                        ));
                    }
                }
            },
            None => {
            },
        }
        i = i + 1;
    }
    proof {
        assert(s@.skip(len as int) =~= Seq::<char>::empty());
        assert(body@ =~= fitted_chars(s@, max_len as int));
    }
    let pad = remain;
    let mut r = format_space_line(pad / 2);
    r.append(body.as_str());
    append_spaces(&mut r, pad - pad / 2);
    proof {
        assert(r@ =~= centered_line(s@, max_len as int));
    }
    r
}

/// A dash-wrapped banner: `margin`, dashes, `padd` spaces, the label, `padd`
/// spaces, dashes, and the mirror image of `margin`, of total length exactly
/// `max_len`. The label is truncated from the right when it does not fit
/// beside the margins and padding; an odd leftover dash goes to the right
/// run. `max_len` must cover the two margins and the two padding runs.
pub fn format_with_dash_wrap(s: &str, max_len: usize, padd: usize, margin: &str) -> (r: String)
    requires
        2 * margin@.len() + 2 * padd <= max_len,
    ensures
        r@ == dash_wrapped(s@, max_len as int, padd as int, margin@),
{
    let mlen = margin.unicode_len();
    let slen = s.unicode_len();
    let budget = max_len - 2 * mlen - 2 * padd;
    let (lab, lablen) = if slen > budget {
        (s.substring_char(0, budget), budget)
    } else {
        (s, slen)
    };
    let remain = max_len - lablen;
    let avail = remain - 2 * padd - 2 * mlen;
    let len_l = avail / 2;
    let len_r = if remain % 2 == 1 {
        len_l + 1
    } else {
        len_l
    };
    let mut r = String::from_str(margin);
    append_dashes(&mut r, len_l);
    append_spaces(&mut r, padd);
    r.append(lab);
    append_spaces(&mut r, padd);
    append_dashes(&mut r, len_r);
    append_reversed(&mut r, margin);
    proof {
        assert(r@ =~= dash_wrapped(s@, max_len as int, padd as int, margin@));
    }
    r
}

} // verus!
