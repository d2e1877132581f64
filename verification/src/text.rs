//! Verified text utilities: whitespace trimming, separator splitting, path
//! joining and decimal rendering of integers. Everything here is stated over
//! `Seq<char>` views of strings.

use vstd::prelude::*;

verus! {

/// The whitespace characters that trimming removes.
pub open spec fn is_ws_char(c: char) -> bool {
    c == ' ' || c == '\t' || c == '\n' || c == '\r'
}

fn is_ws(c: char) -> (r: bool)
    ensures
        r == is_ws_char(c),
{
    c == ' ' || c == '\t' || c == '\n' || c == '\r'
}

/// The string without its leading whitespace.
pub open spec fn ltrim(s: Seq<char>) -> Seq<char>
    decreases s.len(),
{
    if s.len() > 0 && is_ws_char(s[0]) {
        ltrim(s.drop_first())
    } else {
        s
    }
}

/// The string without its trailing whitespace.
pub open spec fn rtrim(s: Seq<char>) -> Seq<char>
    decreases s.len(),
{
    if s.len() > 0 && is_ws_char(s[s.len() - 1]) {
        rtrim(s.drop_last())
    } else {
        s
    }
}

/// The string without surrounding whitespace.
pub open spec fn trim_spec(s: Seq<char>) -> Seq<char> {
    rtrim(ltrim(s))
}

proof fn lemma_ltrim_is_skip(s: Seq<char>, l: int)
    requires
        0 <= l <= s.len(),
        forall|i: int| 0 <= i < l ==> is_ws_char(s[i]),
        l < s.len() ==> !is_ws_char(s[l]),
    ensures
        ltrim(s) == s.skip(l),
    decreases l,
{
    if l == 0 {
        assert(s.skip(0) =~= s);
    } else {
        let t = s.drop_first();
        lemma_ltrim_is_skip(t, l - 1);
        assert(t.skip(l - 1) =~= s.skip(l));
    }
}

proof fn lemma_rtrim_is_take(s: Seq<char>, r: int)
    requires
        0 <= r <= s.len(),
        forall|i: int| r <= i < s.len() ==> is_ws_char(s[i]),
        r > 0 ==> !is_ws_char(s[r - 1]),
    ensures
        rtrim(s) == s.take(r),
    decreases s.len(),
{
    if r == s.len() {
        if s.len() > 0 && is_ws_char(s[s.len() - 1]) {
            assert(false);
        }
        assert(s.take(r) =~= s);
    } else {
        let t = s.drop_last();
        lemma_rtrim_is_take(t, r);
        assert(t.take(r) =~= s.take(r));
    }
}

/// Removes surrounding whitespace, as [`trim_spec`] describes.
pub fn trim(s: &str) -> (r: String)
    ensures
        r@ == trim_spec(s@),
{
    let len = s.unicode_len();
    let mut l: usize = 0;
    while l < len && is_ws(s.get_char(l))
        invariant
            0 <= l <= len,
            len == s@.len(),
            forall|i: int| 0 <= i < l ==> is_ws_char(s@[i]),
        decreases len - l,
    {
        l = l + 1;
    }
    let mut r: usize = len;
    while r > l && is_ws(s.get_char(r - 1))
        invariant
            l <= r <= len,
            len == s@.len(),
            forall|i: int| r <= i < len ==> is_ws_char(s@[i]),
        decreases r,
    {
        r = r - 1;
    }
    let out = s.substring_char(l, r).to_owned();
    proof {
        lemma_ltrim_is_skip(s@, l as int);
        let t = s@.skip(l as int);
        lemma_rtrim_is_take(t, r - l);
        assert(t.take(r - l) =~= s@.subrange(l as int, r as int));
    }
    out
}

/// Index of the first occurrence of `sep`, or the length if it does not occur.
pub open spec fn first_sep(s: Seq<char>, sep: char) -> int
    decreases s.len(),
{
    if s.len() == 0 {
        0
    } else if s[0] == sep {
        0
    } else {
        1 + first_sep(s.drop_first(), sep)
    }
}

proof fn lemma_first_sep_props(s: Seq<char>, sep: char)
    ensures
        0 <= first_sep(s, sep) <= s.len(),
        forall|i: int| 0 <= i < first_sep(s, sep) ==> s[i] != sep,
        first_sep(s, sep) < s.len() ==> s[first_sep(s, sep)] == sep,
    decreases s.len(),
{
    if s.len() != 0 && s[0] != sep {
        let t = s.drop_first();
        lemma_first_sep_props(t, sep);
        assert forall|i: int| 0 <= i < first_sep(s, sep) implies s[i] != sep by {
            if i > 0 {
                assert(s[i] == t[i - 1]);
            }
        }
    }
}

/// The parts of the string between occurrences of `sep`; never empty.
pub open spec fn split_on(s: Seq<char>, sep: char) -> Seq<Seq<char>>
    decreases s.len(),
    via split_on_decreases
{
    let f = first_sep(s, sep);
    if f >= s.len() {
        seq![s]
    } else {
        seq![s.take(f)] + split_on(s.skip(f + 1), sep)
    }
}

#[via_fn]
proof fn split_on_decreases(s: Seq<char>, sep: char) {
    lemma_first_sep_props(s, sep);
}

/// Splitting always yields at least one part.
pub proof fn lemma_split_on_nonempty(s: Seq<char>, sep: char)
    ensures
        split_on(s, sep).len() >= 1,
{
    lemma_first_sep_props(s, sep);
}

proof fn lemma_first_sep_at(s: Seq<char>, sep: char, k: int)
    requires
        0 <= k <= s.len(),
        forall|i: int| 0 <= i < k ==> s[i] != sep,
        k < s.len() ==> s[k] == sep,
    ensures
        k < s.len() ==> first_sep(s, sep) == k,
        k == s.len() ==> first_sep(s, sep) >= s.len(),
    decreases k,
{
    lemma_first_sep_props(s, sep);
    if k > 0 {
        let t = s.drop_first();
        assert(forall|i: int| 0 <= i < k - 1 ==> t[i] != sep);
        lemma_first_sep_at(t, sep, k - 1);
    }
}

/// Splits on `sep`, as [`split_on`] describes.
pub fn split_str(s: &str, sep: char) -> (r: Vec<String>)
    ensures
        r.deep_view() == split_on(s@, sep),
        r.len() >= 1,
{
    let len = s.unicode_len();
    let mut parts: Vec<String> = Vec::new();
    let mut start: usize = 0;
    let mut i: usize = 0;
    proof {
        assert(s@.skip(0) =~= s@);
        assert(parts.deep_view() + split_on(s@, sep) =~= split_on(s@, sep));
    }
    while i < len
        invariant
            0 <= start <= i <= len,
            len == s@.len(),
            forall|j: int| start <= j < i ==> s@[j] != sep,
            split_on(s@, sep) == parts.deep_view() + split_on(s@.skip(start as int), sep),
        decreases len - i,
    {
        if s.get_char(i) == sep {
            let part = s.substring_char(start, i).to_owned();
            proof {
                let rest = s@.skip(start as int);
                assert(forall|j: int| 0 <= j < i - start ==> rest[j] != sep);
                lemma_first_sep_at(rest, sep, i - start);
                assert(rest.take(i - start) =~= s@.subrange(start as int, i as int));
                assert(rest.skip(i - start + 1) =~= s@.skip(i + 1));
                let old_parts = parts.deep_view();
                assert(split_on(rest, sep) == seq![part@] + split_on(s@.skip(i + 1), sep));
                assert(old_parts + (seq![part@] + split_on(s@.skip(i + 1), sep)) =~= (old_parts
                    + seq![part@]) + split_on(s@.skip(i + 1), sep));
            }
            let ghost old_parts = parts.deep_view();
            parts.push(part);
            proof {
                assert(parts.deep_view() =~= old_parts + seq![parts@[parts@.len() - 1]@]);
            }
            start = i + 1;
        }
        i = i + 1;
    }
    let part = s.substring_char(start, len).to_owned();
    proof {
        let rest = s@.skip(start as int);
        assert(forall|j: int| 0 <= j < rest.len() ==> rest[j] != sep);
        lemma_first_sep_at(rest, sep, rest.len() as int);
        assert(rest =~= s@.subrange(start as int, len as int));
        assert(split_on(rest, sep) == seq![rest]);
    }
    let ghost old_parts = parts.deep_view();
    parts.push(part);
    proof {
        assert(parts.deep_view() =~= old_parts + seq![parts@[parts@.len() - 1]@]);
        assert(parts.deep_view() =~= split_on(s@, sep));
    }
    parts
}

/// The character for one decimal digit value.
pub open spec fn dec_digit(d: int) -> char {
    if d == 0 {
        '0'
    } else if d == 1 {
        '1'
    } else if d == 2 {
        '2'
    } else if d == 3 {
        '3'
    } else if d == 4 {
        '4'
    } else if d == 5 {
        '5'
    } else if d == 6 {
        '6'
    } else if d == 7 {
        '7'
    } else if d == 8 {
        '8'
    } else {
        '9'
    }
}

/// Decimal digits of a positive number; empty for zero and below.
pub open spec fn dec_digits(n: int) -> Seq<char>
    decreases n,
{
    if n <= 0 {
        Seq::empty()
    } else {
        dec_digits(n / 10).push(dec_digit(n % 10))
    }
}

/// The decimal rendering of an integer, with a leading minus when negative.
pub open spec fn int_str(v: int) -> Seq<char> {
    if v == 0 {
        seq!['0']
    } else if v < 0 {
        seq!['-'] + dec_digits(-v)
    } else {
        dec_digits(v)
    }
}

fn digit_str(d: u64) -> (r: &'static str)
    requires
        d < 10,
    ensures
        r@ =~= seq![dec_digit(d as int)],
{
    let s = "0123456789";
    proof {
        reveal_strlit("0123456789");
    }
    let r = s.substring_ascii(d as usize, (d + 1) as usize);
    proof {
        assert(r@ =~= seq![dec_digit(d as int)]);
    }
    r
}

fn u64_to_dec(n: u64) -> (r: String)
    requires
        n > 0,
    ensures
        r@ == dec_digits(n as int),
{
    let mut digits: Vec<u64> = Vec::new();
    let mut m: u64 = n;
    while m > 0
        invariant
            forall|t: int| 0 <= t < digits@.len() ==> digits@[t] < 10,
            dec_digits(n as int) == dec_digits(m as int) + Seq::new(
                digits@.len(),
                |t: int| dec_digit(digits@[digits@.len() - 1 - t] as int),
            ),
        decreases m,
    {
        let d = m % 10;
        let ghost old_digits = digits@;
        digits.push(d);
        m = m / 10;
        proof {
            let tail = Seq::new(
                digits@.len(),
                |t: int| dec_digit(digits@[digits@.len() - 1 - t] as int),
            );
            let old_tail = Seq::new(
                old_digits.len(),
                |t: int| dec_digit(old_digits[old_digits.len() - 1 - t] as int),
            );
            assert(tail =~= seq![dec_digit(d as int)] + old_tail);
            assert(dec_digits(n as int) =~= dec_digits(m as int) + tail);
        }
    }
    let mut out = String::new();
    let mut j: usize = digits.len();
    proof {
        assert(dec_digits(n as int) =~= Seq::new(
            digits@.len(),
            |t: int| dec_digit(digits@[digits@.len() - 1 - t] as int),
        ));
        assert(out@ =~= dec_digits(n as int).take(0));
    }
    while j > 0
        invariant
            j <= digits@.len(),
            forall|t: int| 0 <= t < digits@.len() ==> digits@[t] < 10,
            dec_digits(n as int) == Seq::new(
                digits@.len(),
                |t: int| dec_digit(digits@[digits@.len() - 1 - t] as int),
            ),
            out@ == dec_digits(n as int).take(digits@.len() - j),
        decreases j,
    {
        let d = digits[j - 1];
        out.append(digit_str(d));
        j = j - 1;
        proof {
            assert(out@ =~= dec_digits(n as int).take(digits@.len() - j));
        }
    }
    proof {
        assert(dec_digits(n as int).take(digits@.len() as int) =~= dec_digits(n as int));
    }
    out
}

/// Renders an integer in decimal, as [`int_str`] describes.
pub fn i64_to_string(v: i64) -> (r: String)
    ensures
        r@ == int_str(v as int),
{
    if v == 0 {
        let r = "0".to_owned();
        proof {
            reveal_strlit("0");
            assert(r@ =~= int_str(0));
        }
        r
    } else if v < 0 {
        let m: u64 = ((-(v + 1)) as u64) + 1;
        let mut out = "-".to_owned();
        proof {
            reveal_strlit("-");
        }
        let digits = u64_to_dec(m);
        out.append(digits.as_str());
        proof {
            assert(out@ =~= int_str(v as int));
        }
        out
    } else {
        u64_to_dec(v as u64)
    }
}

/// A directory path extended by one component.
pub open spec fn join_path(dir: Seq<char>, name: Seq<char>) -> Seq<char> {
    dir + "/"@ + name
}

/// Compares two string slices by their character sequences.
pub fn str_eq(a: &str, b: &str) -> (r: bool)
    ensures
        r == (a@ == b@),
{
    let sa = a.to_owned();
    let sb = b.to_owned();
    sa == sb
}

/// Joins a directory path and a component with the path separator.
pub fn join(dir: &str, name: &str) -> (r: String)
    ensures
        r@ == join_path(dir@, name@),
{
    let mut s = dir.to_owned();
    s.append("/");
    s.append(name);
    proof {
        assert(s@ =~= join_path(dir@, name@));
    }
    s
}

} // verus!
