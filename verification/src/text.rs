//! Decimal digit strings: the spec-level representation of unsigned numbers
//! as character sequences, verified formatting, and verified maximal-munch
//! parsing.

use vstd::prelude::*;

verus! {

/// True when `c` is an ASCII decimal digit.
pub open spec fn is_dec_digit(c: char) -> bool {
    48 <= c as int && c as int <= 57
}

/// The digit character for a value in 0..10.
pub open spec fn digit_char(d: int) -> char
    recommends
        0 <= d < 10,
{
    ((d + 48) as u8) as char
}

/// The numeric value of a digit character.
pub open spec fn digit_val(c: char) -> int {
    c as int - 48
}

/// Decimal representation of `n`, most significant digit first; `0` is "0".
pub open spec fn dec_digits(n: nat) -> Seq<char>
    decreases n,
{
    if n < 10 {
        seq![digit_char(n as int)]
    } else {
        dec_digits(n / 10) + seq![digit_char((n % 10) as int)]
    }
}

/// Numeric value of a digit string, most significant digit first.
pub open spec fn dec_value(s: Seq<char>) -> int
    decreases s.len(),
{
    if s.len() == 0 {
        0
    } else {
        dec_value(s.drop_last()) * 10 + digit_val(s.last())
    }
}

/// True when every character of `s` is a decimal digit.
pub open spec fn all_dec_digits(s: Seq<char>) -> bool {
    forall|i: int| 0 <= i < s.len() ==> is_dec_digit(#[trigger] s[i])
}

/// Ten to the power `k`.
pub open spec fn pow10(k: nat) -> int
    decreases k,
{
    if k == 0 {
        1
    } else {
        10 * pow10((k - 1) as nat)
    }
}

pub proof fn lemma_pow10_pos(k: nat)
    ensures
        pow10(k) >= 1,
    decreases k,
{
    if k > 0 {
        lemma_pow10_pos((k - 1) as nat);
    }
}

/// The digits of `n` are all decimal digits and there is at least one.
pub proof fn lemma_dec_digits_wf(n: nat)
    ensures
        dec_digits(n).len() >= 1,
        all_dec_digits(dec_digits(n)),
    decreases n,
{
    if n >= 10 {
        lemma_dec_digits_wf(n / 10);
    }
}

/// Splitting a digit string splits its value by a power of ten.
pub proof fn lemma_dec_value_append(a: Seq<char>, b: Seq<char>)
    ensures
        dec_value(a + b) == dec_value(a) * pow10(b.len()) + dec_value(b),
    decreases b.len(),
{
    if b.len() == 0 {
        assert(a + b =~= a);
    } else {
        lemma_dec_value_append(a, b.drop_last());
        assert((a + b).drop_last() =~= a + b.drop_last());
        assert((a + b).last() == b.last());
        assert(dec_value(a + b) == dec_value(a + b.drop_last()) * 10 + digit_val(b.last()));
        assert(dec_value(a) * pow10(b.drop_last().len()) * 10 == dec_value(a) * pow10(b.len()))
            by (nonlinear_arith)
            requires
                pow10(b.len()) == 10 * pow10(b.drop_last().len()),
        ;
    }
}

/// Formatting then reading a number gives the number back.
pub proof fn lemma_dec_value_of_digits(n: nat)
    ensures
        dec_value(dec_digits(n)) == n,
    decreases n,
{
    if n < 10 {
        let s = seq![digit_char(n as int)];
        assert(dec_digits(n) =~= s);
        assert(s.drop_last() =~= Seq::<char>::empty());
        assert(dec_value(Seq::<char>::empty()) == 0);
        assert(dec_value(s) == dec_value(s.drop_last()) * 10 + digit_val(s.last()));
        assert(digit_char(n as int) as int == n + 48);
    } else {
        lemma_dec_value_of_digits(n / 10);
        assert(dec_digits(n).drop_last() =~= dec_digits(n / 10));
        assert(dec_digits(n).last() == digit_char((n % 10) as int));
        assert(digit_char((n % 10) as int) as int == n % 10 + 48);
    }
}

/// A digit string of nonnegative digits has a nonnegative value.
pub proof fn lemma_dec_value_nonneg(s: Seq<char>)
    requires
        all_dec_digits(s),
    ensures
        dec_value(s) >= 0,
    decreases s.len(),
{
    if s.len() > 0 {
        assert(is_dec_digit(s[s.len() - 1]));
        lemma_dec_value_nonneg(s.drop_last());
    }
}

/// The value of a proper prefix of a digit string never exceeds the whole.
pub proof fn lemma_dec_value_prefix(s: Seq<char>, k: int)
    requires
        all_dec_digits(s),
        0 <= k <= s.len(),
    ensures
        dec_value(s.subrange(0, k)) <= dec_value(s),
{
    let a = s.subrange(0, k);
    let b = s.subrange(k, s.len() as int);
    assert(s =~= a + b);
    assert(all_dec_digits(a));
    assert(all_dec_digits(b));
    lemma_dec_value_append(a, b);
    lemma_dec_value_nonneg(a);
    lemma_dec_value_nonneg(b);
    lemma_pow10_pos(b.len());
    assert(dec_value(a) <= dec_value(a) * pow10(b.len())) by (nonlinear_arith)
        requires
            dec_value(a) >= 0,
            pow10(b.len()) >= 1,
    ;
}

/// The single-character string for a digit value.
pub fn digit_str(d: u64) -> (r: &'static str)
    requires
        d < 10,
    ensures
        r@ =~= seq![digit_char(d as int)],
{
    proof {
        reveal_strlit("0");
        reveal_strlit("1");
        reveal_strlit("2");
        reveal_strlit("3");
        reveal_strlit("4");
        reveal_strlit("5");
        reveal_strlit("6");
        reveal_strlit("7");
        reveal_strlit("8");
        reveal_strlit("9");
    }
    match d {
        0 => "0",
        1 => "1",
        2 => "2",
        3 => "3",
        4 => "4",
        5 => "5",
        6 => "6",
        7 => "7",
        8 => "8",
        _ => "9",
    }
}

/// Renders `n` in decimal, most significant digit first.
pub fn u64_to_string(n: u64) -> (r: String)
    ensures
        r@ =~= dec_digits(n as nat),
    decreases n,
{
    if n < 10 {
        let mut s = String::new();
        s.append(digit_str(n));
        s
    } else {
        let mut s = u64_to_string(n / 10);
        s.append(digit_str(n % 10));
        s
    }
}

/// Appends the decimal rendering of `n` to `s`.
pub fn append_u64(s: &mut String, n: u64)
    ensures
        final(s)@ == old(s)@ + dec_digits(n as nat),
{
    let t = u64_to_string(n);
    s.append(t.as_str());
}

/// One past the maximal run of decimal digits starting at `pos`.
pub open spec fn digit_run_end(s: Seq<char>, pos: int) -> int
    decreases s.len() - pos when 0 <= pos <= s.len()
{
    if pos < s.len() && is_dec_digit(s[pos]) {
        digit_run_end(s, pos + 1)
    } else {
        pos
    }
}

/// The digit run is exactly the digits: every character before its end is a
/// digit, the end is not, and its bounds are sane.
pub proof fn lemma_digit_run_end(s: Seq<char>, pos: int)
    requires
        0 <= pos <= s.len(),
    ensures
        pos <= digit_run_end(s, pos) <= s.len(),
        forall|m: int| pos <= m < digit_run_end(s, pos) ==> is_dec_digit(#[trigger] s[m]),
        digit_run_end(s, pos) == s.len() || !is_dec_digit(s[digit_run_end(s, pos)]),
    decreases s.len() - pos,
{
    if pos < s.len() && is_dec_digit(s[pos]) {
        lemma_digit_run_end(s, pos + 1);
    }
}

/// A maximal digit run is the digit run: if the characters from `pos` up to
/// `i` are digits and `i` sits on a non-digit or the end, then `i` is the
/// run end.
pub proof fn lemma_digit_run_end_unique(s: Seq<char>, pos: int, i: int)
    requires
        0 <= pos <= i <= s.len(),
        forall|m: int| pos <= m < i ==> is_dec_digit(#[trigger] s[m]),
        i == s.len() || !is_dec_digit(s[i]),
    ensures
        digit_run_end(s, pos) == i,
    decreases i - pos,
{
    if pos < i {
        lemma_digit_run_end_unique(s, pos + 1, i);
    }
}

/// The decimal rendering of `n` at `pos`, followed by a non-digit or the
/// end, is the digit run there, and its value is `n`.
pub proof fn lemma_digit_run_of_canonical(s: Seq<char>, pos: int, n: nat)
    requires
        0 <= pos,
        pos + dec_digits(n).len() <= s.len(),
        s.subrange(pos, pos + dec_digits(n).len()) =~= dec_digits(n),
        pos + dec_digits(n).len() == s.len() || !is_dec_digit(s[pos + dec_digits(n).len()]),
    ensures
        digit_run_end(s, pos) == pos + dec_digits(n).len(),
        dec_value(s.subrange(pos, digit_run_end(s, pos))) == n,
{
    lemma_dec_digits_wf(n);
    let k = dec_digits(n).len() as int;
    assert forall|m: int| pos <= m < pos + k implies is_dec_digit(#[trigger] s[m]) by {
        assert(s.subrange(pos, pos + k)[m - pos] == s[m]);
        assert(is_dec_digit(dec_digits(n)[m - pos]));
    }
    lemma_digit_run_end_unique(s, pos, pos + k);
    lemma_dec_value_of_digits(n);
}

/// Reads the maximal run of decimal digits starting at `pos` (a character
/// index) and returns its value with the index one past the run.  Fails
/// exactly when no digit starts at `pos` or the value of the run does not fit in
/// `u64`.
pub fn parse_u64_at(s: &str, pos: usize) -> (r: Option<(u64, usize)>)
    requires
        pos <= s@.len(),
    ensures
        (r is Some) <==> (pos < s@.len() && is_dec_digit(s@[pos as int]) && dec_value(
            s@.subrange(pos as int, digit_run_end(s@, pos as int)),
        ) <= u64::MAX),
        r is Some ==> {
            let (v, end) = r->0;
            &&& end == digit_run_end(s@, pos as int)
            &&& pos < end <= s@.len()
            &&& dec_value(s@.subrange(pos as int, end as int)) == v as int
        },
{
    let len = s.unicode_len();
    let mut i: usize = pos;
    let mut acc: u64 = 0;
    loop
        invariant
            pos <= i <= len,
            len == s@.len(),
            forall|m: int| pos <= m < i ==> is_dec_digit(#[trigger] s@[m]),
            dec_value(s@.subrange(pos as int, i as int)) == acc as int,
        ensures
            pos <= i <= len,
            forall|m: int| pos <= m < i ==> is_dec_digit(#[trigger] s@[m]),
            dec_value(s@.subrange(pos as int, i as int)) == acc as int,
            i == len || !is_dec_digit(s@[i as int]),
        decreases len - i,
    {
        if i >= len {
            break;
        }
        let c = s.get_char(i);
        let ci = c as u32;
        if ci < 48 || ci > 57 {
            break;
        }
        let d: u64 = (ci - 48) as u64;
        // would acc * 10 + d overflow?
        if acc > (u64::MAX - d) / 10 {
            proof {
                lemma_digit_run_end(s@, i + 1);
                lemma_digit_run_end_unique(s@, pos as int, digit_run_end(s@, i + 1));
                let end = digit_run_end(s@, pos as int);
                let run = s@.subrange(pos as int, end);
                let pref = s@.subrange(pos as int, i + 1);
                assert(pref =~= run.subrange(0, i + 1 - pos));
                assert(pref.drop_last() =~= s@.subrange(pos as int, i as int));
                assert(pref.last() == s@[i as int]);
                assert(all_dec_digits(run));
                lemma_dec_value_prefix(run, i + 1 - pos);
                assert(dec_value(run) >= acc * 10 + d > u64::MAX);
            }
            return None;
        }
        let new_acc = acc * 10 + d;
        proof {
            assert(s@.subrange(pos as int, i + 1).drop_last() =~= s@.subrange(
                pos as int,
                i as int,
            ));
            assert(s@.subrange(pos as int, i + 1).last() == s@[i as int]);
        }
        acc = new_acc;
        i = i + 1;
    }
    proof {
        lemma_digit_run_end_unique(s@, pos as int, i as int);
    }
    if i == pos {
        return None;
    }
    Some((acc, i))
}

/// `pat` occurs in `s` at position `i`.
pub open spec fn match_at(s: Seq<char>, pat: Seq<char>, i: int) -> bool {
    0 <= i && i + pat.len() <= s.len() && s.subrange(i, i + pat.len()) == pat
}

/// `i` is the first position where `pat` occurs in `s`.
pub open spec fn found_first_at(s: Seq<char>, pat: Seq<char>, i: int) -> bool {
    match_at(s, pat, i) && forall|j: int| 0 <= j < i ==> !match_at(s, pat, j)
}

/// `pat` occurs somewhere in `s`.
pub open spec fn has_pattern(s: Seq<char>, pat: Seq<char>) -> bool {
    exists|i: int| match_at(s, pat, i)
}

/// The first position where `pat` occurs in `s`.
pub open spec fn first_match(s: Seq<char>, pat: Seq<char>) -> int {
    choose|i: int| found_first_at(s, pat, i)
}

/// Where `pat` occurs at all, a first occurrence exists and `first_match`
/// names it.
pub proof fn lemma_first_match(s: Seq<char>, pat: Seq<char>)
    requires
        has_pattern(s, pat),
    ensures
        found_first_at(s, pat, first_match(s, pat)),
{
    let i = choose|i: int| match_at(s, pat, i);
    lemma_first_exists(s, pat, i);
}

proof fn lemma_first_exists(s: Seq<char>, pat: Seq<char>, i: int)
    requires
        match_at(s, pat, i),
    ensures
        exists|f: int| found_first_at(s, pat, f),
    decreases i,
{
    if exists|j: int| 0 <= j < i && match_at(s, pat, j) {
        let j = choose|j: int| 0 <= j < i && match_at(s, pat, j);
        lemma_first_exists(s, pat, j);
    } else {
        assert(found_first_at(s, pat, i));
    }
}

/// Two first occurrences are the same occurrence.
pub proof fn lemma_first_match_unique(s: Seq<char>, pat: Seq<char>, a: int, b: int)
    requires
        found_first_at(s, pat, a),
        found_first_at(s, pat, b),
    ensures
        a == b,
{
}

/// Finds the first occurrence of `pat` in `s`, by character position.
pub fn find_lit(s: &str, pat: &str) -> (r: Option<usize>)
    ensures
        r is Some ==> found_first_at(s@, pat@, r->0 as int),
        r is None ==> !has_pattern(s@, pat@),
{
    let slen = s.unicode_len();
    let plen = pat.unicode_len();
    if plen > slen {
        proof {
            assert forall|i: int| !match_at(s@, pat@, i) by {}
        }
        return None;
    }
    let mut i: usize = 0;
    loop
        invariant
            0 <= i <= slen - plen + 1,
            slen == s@.len(),
            plen == pat@.len(),
            plen <= slen,
            forall|j: int| 0 <= j < i ==> !match_at(s@, pat@, j),
        decreases slen - plen + 1 - i,
    {
        if i > slen - plen {
            proof {
                assert forall|j: int| !match_at(s@, pat@, j) by {}
            }
            return None;
        }
        // does pat match at i?
        let mut k: usize = 0;
        let mut matched = true;
        loop
            invariant_except_break
                matched,
            invariant
                0 <= k <= plen,
                0 <= i <= slen - plen,
                slen == s@.len(),
                plen == pat@.len(),
                forall|m: int| 0 <= m < k ==> s@[i + m] == pat@[m],
            ensures
                k <= plen,
                forall|m: int| 0 <= m < k ==> s@[i + m] == pat@[m],
                matched ==> k == plen,
                !matched ==> k < plen && s@[i + k] != pat@[k as int],
            decreases plen - k,
        {
            if k >= plen {
                break;
            }
            if s.get_char(i + k) != pat.get_char(k) {
                matched = false;
                break;
            }
            k = k + 1;
        }
        if matched {
            proof {
                assert(s@.subrange(i as int, i + plen) =~= pat@);
            }
            return Some(i);
        }
        proof {
            if match_at(s@, pat@, i as int) {
                assert(s@.subrange(i as int, i + plen)[k as int] == pat@[k as int]);
            }
        }
        i = i + 1;
    }
}

/// True when `c` is JSON whitespace.
pub open spec fn is_json_ws(c: char) -> bool {
    c == ' ' || c == '\t' || c == '\n' || c == '\r'
}

/// One past the run of whitespace starting at `pos`.
pub open spec fn ws_run_end(s: Seq<char>, pos: int) -> int
    decreases s.len() - pos when 0 <= pos <= s.len()
{
    if pos < s.len() && is_json_ws(s[pos]) {
        ws_run_end(s, pos + 1)
    } else {
        pos
    }
}

/// The whitespace run is exactly the whitespace: every character before
/// its end is whitespace and the end is not.
pub proof fn lemma_ws_run_end(s: Seq<char>, pos: int)
    requires
        0 <= pos <= s.len(),
    ensures
        pos <= ws_run_end(s, pos) <= s.len(),
        forall|m: int| pos <= m < ws_run_end(s, pos) ==> is_json_ws(#[trigger] s[m]),
        ws_run_end(s, pos) == s.len() || !is_json_ws(s[ws_run_end(s, pos)]),
    decreases s.len() - pos,
{
    if pos < s.len() && is_json_ws(s[pos]) {
        lemma_ws_run_end(s, pos + 1);
    }
}

proof fn lemma_ws_run_end_unique(s: Seq<char>, pos: int, i: int)
    requires
        0 <= pos <= i <= s.len(),
        forall|m: int| pos <= m < i ==> is_json_ws(#[trigger] s[m]),
        i == s.len() || !is_json_ws(s[i]),
    ensures
        ws_run_end(s, pos) == i,
    decreases i - pos,
{
    if pos < i {
        lemma_ws_run_end_unique(s, pos + 1, i);
    }
}

/// Skips whitespace from `pos`, returning the first non-whitespace
/// position (or the end).
pub fn skip_ws(s: &str, pos: usize) -> (r: usize)
    requires
        pos <= s@.len(),
    ensures
        r as int == ws_run_end(s@, pos as int),
        pos <= r <= s@.len(),
{
    let len = s.unicode_len();
    let mut i: usize = pos;
    loop
        invariant
            pos <= i <= len,
            len == s@.len(),
            forall|m: int| pos <= m < i ==> is_json_ws(#[trigger] s@[m]),
        ensures
            pos <= i <= len,
            forall|m: int| pos <= m < i ==> is_json_ws(#[trigger] s@[m]),
            i == len || !is_json_ws(s@[i as int]),
        decreases len - i,
    {
        if i >= len {
            break;
        }
        let c = s.get_char(i);
        if !(c == ' ' || c == '\t' || c == '\n' || c == '\r') {
            break;
        }
        i = i + 1;
    }
    proof {
        lemma_ws_run_end_unique(s@, pos as int, i as int);
    }
    i
}

/// Character-by-character string equality.
pub fn str_eq(a: &str, b: &str) -> (r: bool)
    ensures
        r == (a@ == b@),
{
    let alen = a.unicode_len();
    let blen = b.unicode_len();
    if alen != blen {
        return false;
    }
    let mut i: usize = 0;
    loop
        invariant
            0 <= i <= alen,
            alen == a@.len(),
            alen == b@.len(),
            forall|m: int| 0 <= m < i ==> a@[m] == b@[m],
        ensures
            i <= alen,
            forall|m: int| 0 <= m < i ==> a@[m] == b@[m],
            i < alen ==> a@[i as int] != b@[i as int],
        decreases alen - i,
    {
        if i >= alen {
            break;
        }
        if a.get_char(i) != b.get_char(i) {
            break;
        }
        i = i + 1;
    }
    if i >= alen {
        proof {
            assert(a@ =~= b@);
        }
        true
    } else {
        false
    }
}

} // verus!
