//! RGB colors stored as a `u32`, parsed from and rendered to hex notation
//! (an optional `#` prefix on input, `#RRGGBB` uppercase on output).

use vstd::prelude::*;

verus! {

/// Why a hex color string was rejected.
#[derive(Debug, PartialEq, Eq, Structural, Clone, Copy)]
pub enum ColorParseError {
    /// No digits at all after stripping any `#` prefix and sign.
    Empty,
    /// A character that is not a hexadecimal digit.
    InvalidDigit,
    /// The value does not fit in 32 bits.
    PosOverflow,
}

/// True when `c` is a hexadecimal digit, either case.
pub open spec fn is_hex_digit(c: char) -> bool {
    (48 <= c as int && c as int <= 57) || (97 <= c as int && c as int <= 102) || (65 <= c as int
        && c as int <= 70)
}

/// Value of a hexadecimal digit character.
pub open spec fn hex_val(c: char) -> int {
    if 48 <= c as int && c as int <= 57 {
        c as int - 48
    } else if 97 <= c as int && c as int <= 102 {
        c as int - 87
    } else {
        c as int - 55
    }
}

/// True when every character of `s` is a hexadecimal digit.
pub open spec fn all_hex_digits(s: Seq<char>) -> bool {
    forall|i: int| 0 <= i < s.len() ==> is_hex_digit(#[trigger] s[i])
}

/// Numeric value of a hexadecimal digit string, most significant first.
pub open spec fn hex_value(s: Seq<char>) -> int
    decreases s.len(),
{
    if s.len() == 0 {
        0
    } else {
        hex_value(s.drop_last()) * 16 + hex_val(s.last())
    }
}

/// The uppercase hexadecimal digit character for a value in 0..16.
pub open spec fn hex_digit_char(d: int) -> char
    recommends
        0 <= d < 16,
{
    if d < 10 {
        ((d + 48) as u8) as char
    } else {
        ((d + 55) as u8) as char
    }
}

/// Uppercase hexadecimal rendering of `n`, most significant digit first.
pub open spec fn hex_digits(n: nat) -> Seq<char>
    decreases n,
{
    if n < 16 {
        seq![hex_digit_char(n as int)]
    } else {
        hex_digits(n / 16) + seq![hex_digit_char((n % 16) as int)]
    }
}

/// `hex_digits(n)` left-padded with zeros to at least six characters.
pub open spec fn hex_digits_pad6(n: nat) -> Seq<char> {
    let d = hex_digits(n);
    if d.len() >= 6 {
        d
    } else {
        Seq::new((6 - d.len()) as nat, |i: int| '0') + d
    }
}

/// The strings `u32::from_str_radix(_, 16)` accepts: an optional leading
/// `+`, then at least one hex digit, with a value that fits in 32 bits.
pub open spec fn spec_hex_u32_ok(t: Seq<char>) -> bool {
    let d = if t.len() > 0 && t[0] == '+' {
        t.skip(1)
    } else {
        t
    };
    d.len() > 0 && all_hex_digits(d) && hex_value(d) <= u32::MAX
}

/// The digit part of such a string (past any leading `+`).
pub open spec fn spec_hex_digit_part(t: Seq<char>) -> Seq<char> {
    if t.len() > 0 && t[0] == '+' {
        t.skip(1)
    } else {
        t
    }
}

/// `t` with every leading `#` removed.
pub open spec fn strip_hashes(t: Seq<char>) -> Seq<char>
    decreases t.len(),
{
    if t.len() > 0 && t[0] == '#' {
        strip_hashes(t.skip(1))
    } else {
        t
    }
}

proof fn lemma_hex_value_nonneg(s: Seq<char>)
    requires
        all_hex_digits(s),
    ensures
        hex_value(s) >= 0,
    decreases s.len(),
{
    if s.len() > 0 {
        assert(is_hex_digit(s[s.len() - 1]));
        lemma_hex_value_nonneg(s.drop_last());
    }
}

/// Extending a hex digit string multiplies the prefix value by 16 per digit,
/// so a prefix value never exceeds the whole.
proof fn lemma_hex_value_step_le(s: Seq<char>, k: int)
    requires
        all_hex_digits(s),
        0 <= k <= s.len(),
    ensures
        hex_value(s.subrange(0, k)) <= hex_value(s),
    decreases s.len() - k,
{
    if k < s.len() {
        lemma_hex_value_step_le(s, k + 1);
        let a = s.subrange(0, k);
        let b = s.subrange(0, k + 1);
        assert(b.drop_last() =~= a);
        assert(is_hex_digit(b.last()));
        assert(all_hex_digits(a));
        lemma_hex_value_nonneg(a);
        assert(hex_value(a) <= hex_value(a) * 16) by (nonlinear_arith)
            requires
                hex_value(a) >= 0,
        ;
    } else {
        assert(s.subrange(0, k) =~= s);
    }
}

/// An RGB color in a single 32-bit word.
#[derive(Debug, PartialEq, Eq, Structural, Clone, Copy)]
pub struct Color(pub u32);

impl Color {
    /// Packs red, green and blue into a word, laid out as the little-endian
    /// reading of the bytes `[0, r, g, b]`.
    pub fn from_rgb(r: u8, g: u8, b: u8) -> (c: Self)
        ensures
            c.0 == r * 256 + g * 65536 + b * 16777216,
    {
        Color((r as u32) * 256 + (g as u32) * 65536 + (b as u32) * 16777216)
    }

    /// Parses a hex color string such as `#EEEEEE` or `EEEEEE`: any leading
    /// `#` characters are stripped, then the rest must be an optional `+`
    /// followed by one or more hex digits whose value fits in 32 bits.
    pub fn from_str(s: &str) -> (r: Result<Self, ColorParseError>)
        ensures
            r is Ok <==> spec_hex_u32_ok(strip_hashes(s@)),
            r is Ok ==> r->Ok_0.0 as int == hex_value(spec_hex_digit_part(strip_hashes(s@))),
    {
        let len = s.unicode_len();
        let mut i: usize = 0;
        proof {
            assert(s@.skip(0) =~= s@);
        }
        // strip every leading '#'
        loop
            invariant
                0 <= i <= len,
                len == s@.len(),
                strip_hashes(s@) == strip_hashes(s@.skip(i as int)),
            ensures
                0 <= i <= len,
                strip_hashes(s@) == s@.skip(i as int),
            decreases len - i,
        {
            if i >= len {
                proof {
                    assert(s@.skip(i as int).len() == 0);
                }
                break;
            }
            let c = s.get_char(i);
            if c != '#' {
                proof {
                    assert(s@.skip(i as int)[0] == s@[i as int]);
                }
                break;
            }
            proof {
                assert(s@.skip(i as int)[0] == s@[i as int]);
                assert(s@.skip(i as int).skip(1) =~= s@.skip(i + 1));
            }
            i = i + 1;
        }
        let ghost t = strip_hashes(s@);
        // optional leading '+'
        let digits_start: usize = if i < len && s.get_char(i) == '+' {
            proof {
                assert(t[0] == s@[i as int]);
                assert(t.skip(1) =~= s@.skip(i + 1));
            }
            i + 1
        } else {
            proof {
                if t.len() > 0 {
                    assert(t[0] == s@[i as int]);
                }
            }
            i
        };
        let ghost d = spec_hex_digit_part(t);
        proof {
            assert(d =~= s@.skip(digits_start as int));
        }
        if digits_start >= len {
            return Err(ColorParseError::Empty);
        }
        // every remaining character must be a hex digit
        let mut j: usize = digits_start;
        loop
            invariant
                digits_start <= j <= len,
                len == s@.len(),
                d == s@.skip(digits_start as int),
                d == spec_hex_digit_part(strip_hashes(s@)),
                d.len() > 0,
                forall|m: int|
                    digits_start <= m < j ==> is_hex_digit(#[trigger] s@[m]),
            ensures
                all_hex_digits(d),
            decreases len - j,
        {
            if j >= len {
                proof {
                    assert forall|m: int| 0 <= m < d.len() implies is_hex_digit(#[trigger] d[m]) by {
                        assert(d[m] == s@[digits_start + m]);
                    }
                }
                break;
            }
            let c = s.get_char(j);
            let ci = c as u32;
            let ok = (48 <= ci && ci <= 57) || (97 <= ci && ci <= 102) || (65 <= ci && ci <= 70);
            if !ok {
                proof {
                    assert(!is_hex_digit(c));
                    assert(d[j - digits_start] == s@[j as int]);
                    assert(!all_hex_digits(d));
                }
                return Err(ColorParseError::InvalidDigit);
            }
            j = j + 1;
        }
        // accumulate the value, watching for 32-bit overflow
        let mut acc: u32 = 0;
        let mut k: usize = digits_start;
        loop
            invariant
                digits_start <= k <= len,
                len == s@.len(),
                d == s@.skip(digits_start as int),
                d == spec_hex_digit_part(strip_hashes(s@)),
                d.len() > 0,
                all_hex_digits(d),
                hex_value(d.subrange(0, k - digits_start)) == acc as int,
            ensures
                hex_value(d) == acc as int,
            decreases len - k,
        {
            if k >= len {
                proof {
                    assert(d.subrange(0, k - digits_start) =~= d);
                }
                break;
            }
            let c = s.get_char(k);
            proof {
                assert(d[k - digits_start] == s@[k as int]);
                assert(is_hex_digit(c));
            }
            let ci = c as u32;
            let dv: u32 = if 48 <= ci && ci <= 57 {
                ci - 48
            } else if 97 <= ci && ci <= 102 {
                ci - 87
            } else {
                ci - 55
            };
            proof {
                assert(hex_val(c) == dv as int);
            }
            if acc > (u32::MAX - dv) / 16 {
                proof {
                    let pref = d.subrange(0, k - digits_start + 1);
                    assert(pref.drop_last() =~= d.subrange(0, k - digits_start));
                    assert(pref.last() == d[k - digits_start]);
                    assert(hex_value(pref) == acc * 16 + dv);
                    lemma_hex_value_step_le(d, k - digits_start + 1);
                    assert(hex_value(d) > u32::MAX);
                }
                return Err(ColorParseError::PosOverflow);
            }
            let new_acc = acc * 16 + dv;
            proof {
                let pref = d.subrange(0, k - digits_start + 1);
                assert(pref.drop_last() =~= d.subrange(0, k - digits_start));
                assert(pref.last() == d[k - digits_start]);
            }
            acc = new_acc;
            k = k + 1;
        }
        Ok(Color(acc))
    }

    /// Renders the color as `#` followed by at least six uppercase hex
    /// digits, zero-padded.
    pub fn to_string(&self) -> (r: String)
        ensures
            r@ == seq!['#'] + hex_digits_pad6(self.0 as nat),
    {
        proof {
            reveal_strlit("#");
            reveal_strlit("0");
        }
        let digits = hex_u32_to_string(self.0);
        let dlen = digits.as_str().unicode_len();
        let mut out = String::new();
        out.append("#");
        let mut pad: usize = if dlen < 6 {
            6 - dlen
        } else {
            0
        };
        let ghost total_pad = pad as int;
        proof {
            assert(out@ =~= seq!['#'] + Seq::new(0nat, |q: int| '0'));
        }
        loop
            invariant
                0 <= pad <= total_pad,
                out@ =~= seq!['#'] + Seq::new((total_pad - pad) as nat, |q: int| '0'),
            ensures
                out@ =~= seq!['#'] + Seq::new(total_pad as nat, |q: int| '0'),
            decreases pad,
        {
            if pad == 0 {
                break;
            }
            out.append("0");
            proof {
                reveal_strlit("0");
                assert("0"@ =~= seq!['0']);
                assert(Seq::new((total_pad - pad + 1) as nat, |q: int| '0') =~= Seq::new(
                    (total_pad - pad) as nat,
                    |q: int| '0',
                ) + seq!['0']);
                assert(out@ =~= seq!['#'] + Seq::new((total_pad - (pad - 1)) as nat, |q: int| '0'));
            }
            pad = pad - 1;
        }
        out.append(digits.as_str());
        proof {
            assert(out@ =~= seq!['#'] + hex_digits_pad6(self.0 as nat));
        }
        out
    }
}

impl From<u32> for Color {
    /// Wraps a raw 32-bit value.
    fn from(val: u32) -> (c: Self) {
        Color(val)
    }
}

impl vstd::std_specs::convert::FromSpecImpl<u32> for Color {
    open spec fn obeys_from_spec() -> bool {
        true
    }

    open spec fn from_spec(val: u32) -> Self {
        Color(val)
    }
}

/// The single-character string for an uppercase hexadecimal digit value.
fn hex_digit_str(d: u32) -> (r: &'static str)
    requires
        d < 16,
    ensures
        r@ =~= seq![hex_digit_char(d as int)],
{
    proof {
        reveal_strlit("0");
        reveal_strlit("1");
        reveal_strlit("2");
        reveal_strlit("3");
        reveal_strlit("4");
        reveal_strlit("5");
        reveal_strlit("6");
        reveal_strlit("7");
        reveal_strlit("8");
        reveal_strlit("9");
        reveal_strlit("A");
        reveal_strlit("B");
        reveal_strlit("C");
        reveal_strlit("D");
        reveal_strlit("E");
        reveal_strlit("F");
    }
    match d {
        0 => "0",
        1 => "1",
        2 => "2",
        3 => "3",
        4 => "4",
        5 => "5",
        6 => "6",
        7 => "7",
        8 => "8",
        9 => "9",
        10 => "A",
        11 => "B",
        12 => "C",
        13 => "D",
        14 => "E",
        _ => "F",
    }
}

/// Renders `n` in uppercase hexadecimal, most significant digit first.
fn hex_u32_to_string(n: u32) -> (r: String)
    ensures
        r@ =~= hex_digits(n as nat),
    decreases n,
{
    if n < 16 {
        let mut s = String::new();
        s.append(hex_digit_str(n));
        s
    } else {
        let mut s = hex_u32_to_string(n / 16);
        s.append(hex_digit_str(n % 16));
        s
    }
}

} // verus!
