//! Character-sequence utilities shared by the other modules: decimal
//! rendering of integers, conversion between `&str`/`String` and `Vec<char>`,
//! substring search, splitting on a separator, trimming, and integer parsing.

use vstd::prelude::*;

verus! {

broadcast use vstd::utf8::char_is_scalar;

/// The character for one decimal digit value.
pub open spec fn digit_char(d: int) -> char {
    if d == 0 {
        '0'
    } else if d == 1 {
        '1'
    } else if d == 2 {
        '2'
    } else if d == 3 {
        '3'
    } else if d == 4 {
        '4'
    } else if d == 5 {
        '5'
    } else if d == 6 {
        '6'
    } else if d == 7 {
        '7'
    } else if d == 8 {
        '8'
    } else {
        '9'
    }
}

/// Decimal digits of a non-negative `n`, most significant first.
pub open spec fn dec_chars(n: int) -> Seq<char>
    decreases n,
{
    if n < 10 {
        seq![digit_char(n)]
    } else {
        dec_chars(n / 10).push(digit_char(n % 10))
    }
}

/// Decimal rendering of a possibly negative integer.
pub open spec fn int_chars(n: int) -> Seq<char> {
    if n < 0 {
        seq!['-'] + dec_chars(-n)
    } else {
        dec_chars(n)
    }
}

fn digit_to_char(d: u64) -> (c: char)
    requires
        d < 10,
    ensures
        c == digit_char(d as int),
{
    if d == 0 {
        '0'
    } else if d == 1 {
        '1'
    } else if d == 2 {
        '2'
    } else if d == 3 {
        '3'
    } else if d == 4 {
        '4'
    } else if d == 5 {
        '5'
    } else if d == 6 {
        '6'
    } else if d == 7 {
        '7'
    } else if d == 8 {
        '8'
    } else {
        '9'
    }
}

/// Decimal digits of `n`, most significant first.
pub fn u64_to_chars(n: u64) -> (v: Vec<char>)
    ensures
        v@ == dec_chars(n as int),
    decreases n,
{
    if n < 10 {
        let mut v: Vec<char> = Vec::new();
        v.push(digit_to_char(n));
        proof {
            assert(v@ =~= dec_chars(n as int));
        }
        v
    } else {
        let mut v = u64_to_chars(n / 10);
        v.push(digit_to_char(n % 10));
        v
    }
}

/// Decimal rendering of a signed integer, with a leading `-` when negative.
pub fn i64_to_chars(n: i64) -> (v: Vec<char>)
    ensures
        v@ == int_chars(n as int),
{
    if n >= 0 {
        u64_to_chars(n as u64)
    } else {
        // Magnitude computed without overflowing at `i64::MIN`.
        let mag: u64 = ((-(n + 1)) as u64) + 1;
        assert(mag == -(n as int));
        let mut v: Vec<char> = Vec::new();
        v.push('-');
        let mut digits = u64_to_chars(mag);
        v.append(&mut digits);
        proof {
            assert(v@ =~= int_chars(n as int));
        }
        v
    }
}

/// The characters of `s`, in order.
pub fn to_chars(s: &str) -> (v: Vec<char>)
    ensures
        v@ == s@,
{
    let len: usize = s.unicode_len();
    let mut v: Vec<char> = Vec::new();
    let mut i: usize = 0;
    while i < len
        invariant
            i <= len,
            len == s@.len(),
            v@ == s@.subrange(0, i as int),
        decreases len - i,
    {
        let c = s.get_char(i);
        v.push(c);
        i = i + 1;
        proof {
            assert(v@ =~= s@.subrange(0, i as int));
        }
    }
    proof {
        assert(v@ =~= s@);
    }
    v
}

/// Relies on `String`'s `FromIterator<&char>` implementation: collecting
/// the characters of the vector yields the string of exactly those
/// characters, in order.
#[verifier::external_body]
pub fn chars_to_string(v: &Vec<char>) -> (s: String)
    ensures
        s@ == v@,
{
    v.iter().collect()
}

/// `n` rendered in decimal, left-padded with `0` to two characters.
pub open spec fn pad2_chars(n: int) -> Seq<char> {
    if n < 10 {
        seq!['0'] + dec_chars(n)
    } else {
        dec_chars(n)
    }
}

/// `n` rendered in decimal, left-padded with `0` to three characters.
pub open spec fn pad3_chars(n: int) -> Seq<char> {
    if n < 10 {
        seq!['0', '0'] + dec_chars(n)
    } else if n < 100 {
        seq!['0'] + dec_chars(n)
    } else {
        dec_chars(n)
    }
}

/// Two-character zero-padded decimal rendering.
pub fn u64_to_chars_pad2(n: u64) -> (v: Vec<char>)
    ensures
        v@ == pad2_chars(n as int),
{
    let mut v: Vec<char> = Vec::new();
    if n < 10 {
        v.push('0');
    }
    let mut digits = u64_to_chars(n);
    v.append(&mut digits);
    proof {
        assert(v@ =~= pad2_chars(n as int));
    }
    v
}

/// Three-character zero-padded decimal rendering.
pub fn u64_to_chars_pad3(n: u64) -> (v: Vec<char>)
    ensures
        v@ == pad3_chars(n as int),
{
    let mut v: Vec<char> = Vec::new();
    if n < 10 {
        v.push('0');
        v.push('0');
    } else if n < 100 {
        v.push('0');
    }
    let mut digits = u64_to_chars(n);
    v.append(&mut digits);
    proof {
        assert(v@ =~= pad3_chars(n as int));
    }
    v
}

/// `needle` occurs in `haystack` starting at position `i`.
pub open spec fn occurs_at(haystack: Seq<char>, needle: Seq<char>, i: int) -> bool {
    0 <= i && i + needle.len() <= haystack.len() && haystack.subrange(i, i + needle.len())
        == needle
}

/// `needle` occurs somewhere in `haystack`.
pub open spec fn has_substring(haystack: Seq<char>, needle: Seq<char>) -> bool {
    exists|i: int| occurs_at(haystack, needle, i)
}

fn match_at(haystack: &Vec<char>, needle: &Vec<char>, i: usize) -> (b: bool)
    requires
        i + needle@.len() <= haystack@.len(),
    ensures
        b == occurs_at(haystack@, needle@, i as int),
{
    let hlen: usize = haystack.len();
    let nlen: usize = needle.len();
    let mut j: usize = 0;
    while j < nlen
        invariant
            j <= nlen,
            hlen == haystack@.len(),
            nlen == needle@.len(),
            i + needle@.len() <= haystack@.len(),
            forall|k: int| 0 <= k < j ==> haystack@[i + k] == needle@[k],
        decreases nlen - j,
    {
        if haystack[i + j] != needle[j] {
            proof {
                assert(haystack@.subrange(i as int, i + needle@.len())[j as int] == haystack@[i
                    + j]);
            }
            return false;
        }
        j = j + 1;
    }
    proof {
        assert(haystack@.subrange(i as int, i + needle@.len()) =~= needle@);
    }
    true
}

/// Whether `needle` occurs in `haystack` as a contiguous run of characters.
pub fn contains_chars(haystack: &Vec<char>, needle: &Vec<char>) -> (b: bool)
    ensures
        b == has_substring(haystack@, needle@),
{
    if needle.len() > haystack.len() {
        proof {
            assert(forall|i: int| !occurs_at(haystack@, needle@, i));
        }
        return false;
    }
    if needle.len() == 0 {
        proof {
            assert(haystack@.subrange(0, 0) =~= needle@);
            assert(occurs_at(haystack@, needle@, 0));
        }
        return true;
    }
    let last: usize = haystack.len() - needle.len();
    let mut i: usize = 0;
    while i <= last
        invariant
            i <= last + 1,
            haystack@.len() <= usize::MAX,
            1 <= needle@.len() <= haystack@.len(),
            last == haystack@.len() - needle@.len(),
            forall|k: int| 0 <= k < i ==> !occurs_at(haystack@, needle@, k),
        decreases last + 1 - i,
    {
        if match_at(haystack, needle, i) {
            proof {
                assert(occurs_at(haystack@, needle@, i as int));
            }
            return true;
        }
        i = i + 1;
    }
    proof {
        assert(forall|k: int| !occurs_at(haystack@, needle@, k));
    }
    false
}

/// The fields of `s` split on every occurrence of `sep`; always at least
/// one field, and `n` separators give `n + 1` fields.
pub open spec fn split_chars(s: Seq<char>, sep: char) -> Seq<Seq<char>>
    decreases s.len(),
{
    if s.len() == 0 {
        seq![Seq::<char>::empty()]
    } else {
        let rest = split_chars(s.drop_first(), sep);
        if s[0] == sep {
            seq![Seq::<char>::empty()] + rest
        } else {
            rest.update(0, seq![s[0]] + rest[0])
        }
    }
}

pub proof fn lemma_split_chars_nonempty(s: Seq<char>, sep: char)
    ensures
        split_chars(s, sep).len() >= 1,
    decreases s.len(),
{
    if s.len() != 0 {
        lemma_split_chars_nonempty(s.drop_first(), sep);
    }
}

/// `parts` with `c` prepended to its first element.
pub open spec fn prepend_first(c: Seq<char>, parts: Seq<Seq<char>>) -> Seq<Seq<char>> {
    parts.update(0, c + parts[0])
}

/// The view of each vector of a list of character vectors.
pub open spec fn views_of_parts(parts: Seq<Vec<char>>) -> Seq<Seq<char>> {
    parts.map_values(|p: Vec<char>| p@)
}

/// Splits `v` on every occurrence of `sep`.
pub fn split_on(v: &Vec<char>, sep: char) -> (parts: Vec<Vec<char>>)
    ensures
        views_of_parts(parts@) == split_chars(v@, sep),
{
    let mut done: Vec<Vec<char>> = Vec::new();
    let mut cur: Vec<char> = Vec::new();
    let mut j: usize = 0;
    proof {
        lemma_split_chars_nonempty(v@, sep);
        assert(v@.skip(0) =~= v@);
        assert(prepend_first(cur@, split_chars(v@, sep)) =~~= split_chars(v@, sep));
    }
    while j < v.len()
        invariant
            j <= v@.len(),
            split_chars(v@, sep) =~~= views_of_parts(done@) + prepend_first(
                cur@,
                split_chars(v@.skip(j as int), sep),
            ),
        decreases v@.len() - j,
    {
        let ghost tail = split_chars(v@.skip(j + 1), sep);
        proof {
            lemma_split_chars_nonempty(v@.skip(j + 1), sep);
            assert(v@.skip(j as int).len() > 0);
            assert(v@.skip(j as int)[0] == v@[j as int]);
            assert(v@.skip(j as int).drop_first() =~= v@.skip(j + 1));
        }
        let c = v[j];
        if c == sep {
            proof {
                assert(split_chars(v@.skip(j as int), sep) =~~= seq![Seq::<char>::empty()]
                    + tail);
                assert(prepend_first(cur@, seq![Seq::<char>::empty()] + tail) =~~= seq![cur@]
                    + tail);
                assert(views_of_parts(done@.push(cur)) =~~= views_of_parts(done@).push(cur@));
                assert(prepend_first(Seq::<char>::empty(), tail) =~~= tail);
            }
            done.push(cur);
            cur = Vec::new();
        } else {
            proof {
                assert(split_chars(v@.skip(j as int), sep) =~~= prepend_first(
                    seq![v@[j as int]],
                    tail,
                ));
                assert(prepend_first(cur@, prepend_first(seq![v@[j as int]], tail))
                    =~~= prepend_first(cur@.push(v@[j as int]), tail));
            }
            cur.push(c);
        }
        j = j + 1;
    }
    proof {
        assert(v@.skip(v@.len() as int) =~= Seq::<char>::empty());
        assert(split_chars(Seq::<char>::empty(), sep) =~~= seq![Seq::<char>::empty()]);
        assert(prepend_first(cur@, seq![Seq::<char>::empty()]) =~~= seq![cur@]);
        assert(views_of_parts(done@.push(cur)) =~~= views_of_parts(done@).push(cur@));
    }
    done.push(cur);
    done
}

/// The characters treated as blank by trimming.
pub open spec fn is_space_char(c: char) -> bool {
    c == ' ' || c == '\t' || c == '\r' || c == '\n'
}

/// `s` with leading blank characters removed.
pub open spec fn trim_front(s: Seq<char>) -> Seq<char>
    decreases s.len(),
{
    if s.len() > 0 && is_space_char(s[0]) {
        trim_front(s.drop_first())
    } else {
        s
    }
}

/// `s` with trailing blank characters removed.
pub open spec fn trim_back(s: Seq<char>) -> Seq<char>
    decreases s.len(),
{
    if s.len() > 0 && is_space_char(s.last()) {
        trim_back(s.drop_last())
    } else {
        s
    }
}

/// `s` with leading and trailing blank characters removed.
pub open spec fn trim_chars(s: Seq<char>) -> Seq<char> {
    trim_back(trim_front(s))
}

proof fn lemma_trim_front_at(s: Seq<char>, a: int)
    requires
        0 <= a <= s.len(),
        forall|k: int| 0 <= k < a ==> is_space_char(s[k]),
        a < s.len() ==> !is_space_char(s[a]),
    ensures
        trim_front(s) == s.skip(a),
    decreases a,
{
    if a == 0 {
        assert(s.skip(0) =~= s);
    } else {
        lemma_trim_front_at(s.drop_first(), a - 1);
        assert(s.drop_first().skip(a - 1) =~= s.skip(a));
    }
}

proof fn lemma_trim_back_at(s: Seq<char>, b: int)
    requires
        0 <= b <= s.len(),
        forall|k: int| b <= k < s.len() ==> is_space_char(s[k]),
        b > 0 ==> !is_space_char(s[b - 1]),
    ensures
        trim_back(s) == s.take(b),
    decreases s.len() - b,
{
    if b == s.len() {
        assert(s.take(b) =~= s);
    } else {
        lemma_trim_back_at(s.drop_last(), b);
        assert(s.drop_last().take(b) =~= s.take(b));
    }
}

fn is_space(c: char) -> (b: bool)
    ensures
        b == is_space_char(c),
{
    c == ' ' || c == '\t' || c == '\r' || c == '\n'
}

/// `v` with leading and trailing blank characters removed.
pub fn trim_blanks(v: &Vec<char>) -> (t: Vec<char>)
    ensures
        t@ == trim_chars(v@),
{
    let len: usize = v.len();
    let mut a: usize = 0;
    while a < len && is_space(v[a])
        invariant
            a <= len,
            len == v@.len(),
            forall|k: int| 0 <= k < a ==> is_space_char(v@[k]),
        decreases len - a,
    {
        a = a + 1;
    }
    proof {
        lemma_trim_front_at(v@, a as int);
    }
    if a == len {
        let t: Vec<char> = Vec::new();
        proof {
            assert(v@.skip(a as int) =~= Seq::<char>::empty());
            assert(t@ =~= trim_chars(v@));
        }
        return t;
    }
    let mut b: usize = len;
    while b > a + 1 && is_space(v[b - 1])
        invariant
            a < b <= len,
            len == v@.len(),
            forall|k: int| b <= k < len ==> is_space_char(v@[k]),
        decreases b,
    {
        b = b - 1;
    }
    // `v[a]` is not blank, so if the scan stopped at `a + 1` the character
    // before `b` is not blank either.
    proof {
        assert(!is_space_char(v@[a as int]));
        lemma_trim_back_at(v@.skip(a as int), b - a);
    }
    let mut t: Vec<char> = Vec::new();
    let mut i: usize = a;
    while i < b
        invariant
            a <= i <= b <= len,
            len == v@.len(),
            t@ == v@.subrange(a as int, i as int),
        decreases b - i,
    {
        t.push(v[i]);
        i = i + 1;
        proof {
            assert(t@ =~= v@.subrange(a as int, i as int));
        }
    }
    proof {
        assert(v@.skip(a as int).take(b - a) =~= v@.subrange(a as int, b as int));
    }
    t
}

/// `c` is a decimal digit.
pub open spec fn is_digit(c: char) -> bool {
    48 <= c as u32 <= 57
}

/// The numeric value of a digit character.
pub open spec fn digit_val(c: char) -> int {
    c as u32 - 48
}

/// Every character of `s` is a decimal digit.
pub open spec fn all_digits(s: Seq<char>) -> bool {
    forall|i: int| 0 <= i < s.len() ==> is_digit(#[trigger] s[i])
}

/// The value of a run of digit characters, most significant first.
pub open spec fn digits_val(s: Seq<char>) -> int
    decreases s.len(),
{
    if s.len() == 0 {
        0
    } else {
        digits_val(s.drop_last()) * 10 + digit_val(s.last())
    }
}

/// `s` is an optional sign followed by at least one digit.
pub open spec fn int_text_wf(s: Seq<char>) -> bool {
    if s.len() == 0 {
        false
    } else if s[0] == '+' || s[0] == '-' {
        s.len() >= 2 && all_digits(s.skip(1))
    } else {
        all_digits(s)
    }
}

/// The signed value denoted by a well-formed integer text.
pub open spec fn int_text_val(s: Seq<char>) -> int {
    if s.len() == 0 {
        0
    } else if s[0] == '-' {
        -digits_val(s.skip(1))
    } else if s[0] == '+' {
        digits_val(s.skip(1))
    } else {
        digits_val(s)
    }
}

/// `s` denotes a value that fits in a signed 64-bit integer.
pub open spec fn parses_to_i64(s: Seq<char>) -> bool {
    int_text_wf(s) && -0x8000000000000000 <= int_text_val(s) <= 0x7fffffffffffffff
}

pub proof fn lemma_digits_val_nonneg(s: Seq<char>)
    requires
        all_digits(s),
    ensures
        digits_val(s) >= 0,
    decreases s.len(),
{
    if s.len() > 0 {
        assert(all_digits(s.drop_last()));
        lemma_digits_val_nonneg(s.drop_last());
    }
}

proof fn lemma_digits_val_prefix_le(s: Seq<char>, i: int)
    requires
        all_digits(s),
        0 <= i <= s.len(),
    ensures
        digits_val(s.take(i)) <= digits_val(s),
    decreases s.len() - i,
{
    if i == s.len() {
        assert(s.take(i) =~= s);
    } else {
        assert(all_digits(s.drop_last()));
        lemma_digits_val_nonneg(s.drop_last());
        lemma_digits_val_prefix_le(s.drop_last(), i);
        assert(s.drop_last().take(i) =~= s.take(i));
        assert(digits_val(s.drop_last()) * 10 >= digits_val(s.drop_last()));
    }
}

/// Parses a signed decimal integer, exactly when `v` is an optional sign
/// followed by digits and the value fits in an `i64`.
pub fn parse_i64(v: &Vec<char>) -> (r: Option<i64>)
    ensures
        r is Some <==> parses_to_i64(v@),
        r matches Some(x) ==> x as int == int_text_val(v@),
{
    let len: usize = v.len();
    if len == 0 {
        return None;
    }
    let c0: char = v[0];
    let neg: bool = c0 == '-';
    let has_sign: bool = neg || c0 == '+';
    let start: usize = if has_sign {
        1
    } else {
        0
    };
    if len == start {
        return None;
    }
    let ghost digs: Seq<char> = v@.skip(start as int);
    let mut acc: u64 = 0;
    let mut i: usize = start;
    while i < len
        invariant
            start <= i <= len,
            len == v@.len(),
            start == 1 <==> (v@[0] == '-' || v@[0] == '+'),
            neg <==> v@[0] == '-',
            start <= 1,
            len > start,
            digs == v@.skip(start as int),
            acc <= 0x8000000000000000,
            all_digits(digs.take(i - start)),
            acc as int == digits_val(digs.take(i - start)),
        decreases len - i,
    {
        let c: char = v[i];
        let cu: u32 = c as u32;
        proof {
            assert(digs[i - start] == v@[i as int]);
        }
        if cu < 48 || cu > 57 {
            // A non-digit character: the text is not well formed.
            proof {
                assert(!is_digit(digs[i - start]));
                assert(!all_digits(digs));
                assert(!int_text_wf(v@)) by {
                    if start == 1 {
                    } else {
                        assert(digs =~= v@);
                    }
                }
            }
            return None;
        }
        let d: u64 = (cu - 48) as u64;
        proof {
            assert(is_digit(digs[i - start]));
            assert(d as int == digit_val(digs[i - start]));
            assert(digs.take(i - start + 1).drop_last() =~= digs.take(i - start));
            assert(digs.take(i - start + 1).last() == digs[i - start]);
        }
        if acc > (0x8000000000000000u64 - d) / 10 {
            // The magnitude already exceeds 2^63, so the value cannot fit
            // whatever the sign; later digits only increase it.
            proof {
                assert(acc as int * 10 + d as int > 0x8000000000000000) by (nonlinear_arith)
                    requires
                        acc as int > (0x8000000000000000 - d as int) / 10,
                        0 <= d as int <= 9,
                ;
                if int_text_wf(v@) {
                    assert(all_digits(digs));
                    lemma_digits_val_prefix_le(digs, i - start + 1);
                    assert(digits_val(digs.take(i - start + 1)) > 0x8000000000000000);
                    assert(digits_val(digs) > 0x8000000000000000);
                    if start == 0 {
                        assert(digs =~= v@);
                    }
                    assert(!(-0x8000000000000000 <= int_text_val(v@) <= 0x7fffffffffffffff));
                }
            }
            return None;
        }
        proof {
            assert(acc as int * 10 + d as int <= 0x8000000000000000) by (nonlinear_arith)
                requires
                    acc as int <= (0x8000000000000000 - d as int) / 10,
                    0 <= d as int <= 9,
            ;
        }
        acc = acc * 10 + d;
        i = i + 1;
    }
    proof {
        assert(digs.take(i - start) =~= digs);
        assert(int_text_wf(v@)) by {
            if start == 0 {
                assert(digs =~= v@);
            }
        }
    }
    if neg {
        proof {
            assert(int_text_val(v@) == -(acc as int));
        }
        if acc == 0x8000000000000000 {
            Some(i64::MIN)
        } else {
            Some(-(acc as i64))
        }
    } else {
        if acc > 0x7fffffffffffffff {
            // Exactly 2^63: one past the largest `i64`.
            proof {
                assert(int_text_val(v@) == acc as int);
            }
            None
        } else {
            proof {
                assert(int_text_val(v@) == acc as int);
            }
            Some(acc as i64)
        }
    }
}

} // verus!
