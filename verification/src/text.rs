//! Character classes and plain-text utilities: digit and word runs, decimal
//! values and decimal rendering, normalization, and splitting on a separator.
//!
//! Program text is handled as `Vec<char>`, so that indexing is constant-time
//! and contracts speak of `Seq<char>` throughout.

use vstd::prelude::*;
use vstd::string::StrSliceExecFns;

verus! {

/// Relies on `String::push`: appends the given `char` to the end of this
/// `String`.
pub assume_specification[ String::push ](s: &mut String, ch: char)
    ensures
        final(s)@ == old(s)@.push(ch),
;

// ---------------------------------------------------------------------------
// Character classes
// ---------------------------------------------------------------------------

pub open spec fn is_digit_char(c: char) -> bool {
    '0' <= c && c <= '9'
}

pub open spec fn is_alpha_char(c: char) -> bool {
    ('a' <= c && c <= 'z') || ('A' <= c && c <= 'Z')
}

/// Word characters, as they may make up a jumpmark label.
pub open spec fn is_word_char(c: char) -> bool {
    is_digit_char(c) || is_alpha_char(c) || c == '_'
}

/// Characters that survive normalization: spaces, tabs and commas are
/// syntactically insignificant and removed before any tokenization.
pub open spec fn keep_char(c: char) -> bool {
    !(c == ' ' || c == '\t' || c == ',')
}

pub fn digit_char(c: char) -> (b: bool)
    ensures
        b == is_digit_char(c),
{
    '0' <= c && c <= '9'
}

pub fn alpha_char(c: char) -> (b: bool)
    ensures
        b == is_alpha_char(c),
{
    ('a' <= c && c <= 'z') || ('A' <= c && c <= 'Z')
}

pub fn word_char(c: char) -> (b: bool)
    ensures
        b == is_word_char(c),
{
    digit_char(c) || alpha_char(c) || c == '_'
}

// ---------------------------------------------------------------------------
// Digit and word runs
// ---------------------------------------------------------------------------

/// The first index at or after `pos` that does not hold a decimal digit.
pub open spec fn digit_run_end(s: Seq<char>, pos: int) -> int
    decreases s.len() - pos when 0 <= pos <= s.len()
{
    if pos >= s.len() || !is_digit_char(s[pos]) {
        pos
    } else {
        digit_run_end(s, pos + 1)
    }
}

pub proof fn lemma_digit_run_end(s: Seq<char>, pos: int)
    requires
        0 <= pos <= s.len(),
    ensures
        pos <= digit_run_end(s, pos) <= s.len(),
        forall|j: int| pos <= j < digit_run_end(s, pos) ==> is_digit_char(s[j]),
        digit_run_end(s, pos) < s.len() ==> !is_digit_char(s[digit_run_end(s, pos)]),
    decreases s.len() - pos,
{
    if pos < s.len() && is_digit_char(s[pos]) {
        lemma_digit_run_end(s, pos + 1);
    }
}

/// A digit run is pinned down by its content: if everything from `pos` up
/// to `k` is a digit and `k` holds none (or is the end), the run ends at
/// `k`.
pub proof fn lemma_digit_run_is(s: Seq<char>, pos: int, k: int)
    requires
        0 <= pos <= k <= s.len(),
        forall|j: int| pos <= j < k ==> is_digit_char(s[j]),
        k < s.len() ==> !is_digit_char(s[k]),
    ensures
        digit_run_end(s, pos) == k,
{
    lemma_digit_run_end(s, pos);
}

/// The first index at or after `pos` that does not hold a word character.
pub open spec fn word_run_end(s: Seq<char>, pos: int) -> int
    decreases s.len() - pos when 0 <= pos <= s.len()
{
    if pos >= s.len() || !is_word_char(s[pos]) {
        pos
    } else {
        word_run_end(s, pos + 1)
    }
}

pub proof fn lemma_word_run_end(s: Seq<char>, pos: int)
    requires
        0 <= pos <= s.len(),
    ensures
        pos <= word_run_end(s, pos) <= s.len(),
        forall|j: int| pos <= j < word_run_end(s, pos) ==> is_word_char(s[j]),
        word_run_end(s, pos) < s.len() ==> !is_word_char(s[word_run_end(s, pos)]),
    decreases s.len() - pos,
{
    if pos < s.len() && is_word_char(s[pos]) {
        lemma_word_run_end(s, pos + 1);
    }
}

/// A word run is pinned down by its content in the same way.
pub proof fn lemma_word_run_is(s: Seq<char>, pos: int, k: int)
    requires
        0 <= pos <= k <= s.len(),
        forall|j: int| pos <= j < k ==> is_word_char(s[j]),
        k < s.len() ==> !is_word_char(s[k]),
    ensures
        word_run_end(s, pos) == k,
{
    lemma_word_run_end(s, pos);
}

pub fn scan_digit_run(text: &Vec<char>, pos: usize) -> (end: usize)
    requires
        pos <= text@.len(),
    ensures
        end as int == digit_run_end(text@, pos as int),
{
    let mut i: usize = pos;
    while i < text.len() && digit_char(text[i])
        invariant
            pos <= i <= text@.len(),
            digit_run_end(text@, pos as int) == digit_run_end(text@, i as int),
        decreases text@.len() - i,
    {
        i = i + 1;
    }
    i
}

pub fn scan_word_run(text: &Vec<char>, pos: usize) -> (end: usize)
    requires
        pos <= text@.len(),
    ensures
        end as int == word_run_end(text@, pos as int),
{
    let mut i: usize = pos;
    while i < text.len() && word_char(text[i])
        invariant
            pos <= i <= text@.len(),
            word_run_end(text@, pos as int) == word_run_end(text@, i as int),
        decreases text@.len() - i,
    {
        i = i + 1;
    }
    i
}

// ---------------------------------------------------------------------------
// Decimal values and decimal rendering
// ---------------------------------------------------------------------------

/// The numeric value of a decimal digit character.
pub open spec fn digit_value(c: char) -> int {
    c as int - '0' as int
}

/// The value of a big-endian run of decimal digit characters.
pub open spec fn digits_value(s: Seq<char>) -> int
    decreases s.len(),
{
    if s.len() == 0 {
        0
    } else {
        digits_value(s.drop_last()) * 10 + digit_value(s.last())
    }
}

pub proof fn lemma_digits_value_nonneg(s: Seq<char>)
    requires
        forall|j: int| 0 <= j < s.len() ==> is_digit_char(s[j]),
    ensures
        digits_value(s) >= 0,
    decreases s.len(),
{
    if s.len() > 0 {
        lemma_digits_value_nonneg(s.drop_last());
    }
}

/// The digit character for a value in `[0, 9]`.
pub open spec fn digit_char_of(d: int) -> char {
    (d + '0' as int) as char
}

/// The decimal rendering of a non-negative number, most significant digit
/// first and without leading zeros (zero itself renders as `"0"`).
pub open spec fn dec_seq(n: int) -> Seq<char>
    decreases n when n >= 0
{
    if n < 10 {
        seq![digit_char_of(n)]
    } else {
        dec_seq(n / 10).push(digit_char_of(n % 10))
    }
}

pub proof fn lemma_dec_seq_digits(n: int)
    requires
        n >= 0,
    ensures
        dec_seq(n).len() >= 1,
        forall|j: int| 0 <= j < dec_seq(n).len() ==> is_digit_char(dec_seq(n)[j]),
    decreases n,
{
    if n < 10 {
        assert(is_digit_char(digit_char_of(n)));
    } else {
        lemma_dec_seq_digits(n / 10);
        assert(0 <= n % 10 <= 9);
        assert(is_digit_char(digit_char_of(n % 10)));
    }
}

/// Rendering a number and reading the digits back yields the number.
pub proof fn lemma_digits_value_of_dec_seq(n: int)
    requires
        n >= 0,
    ensures
        digits_value(dec_seq(n)) == n,
    decreases n,
{
    if n < 10 {
        assert(dec_seq(n) == seq![digit_char_of(n)]);
        assert(dec_seq(n).drop_last() =~= Seq::<char>::empty());
        assert(dec_seq(n).last() == digit_char_of(n));
        assert(digit_value(digit_char_of(n)) == n);
        assert(digits_value(dec_seq(n)) == digits_value(Seq::<char>::empty()) * 10 + n);
    } else {
        lemma_digits_value_of_dec_seq(n / 10);
        vstd::arithmetic::div_mod::lemma_fundamental_div_mod(n, 10);
        assert(dec_seq(n).drop_last() =~= dec_seq(n / 10));
        assert(dec_seq(n).last() == digit_char_of(n % 10));
        assert(digit_value(digit_char_of(n % 10)) == n % 10);
        assert(digits_value(dec_seq(n)) == digits_value(dec_seq(n / 10)) * 10 + (n % 10));
    }
}

fn digit_to_char(d: u64) -> (c: char)
    requires
        d <= 9,
    ensures
        c == digit_char_of(d as int),
{
    (48u8 + d as u8) as char
}

/// Appends the decimal rendering of `n` to `out`.
pub fn push_dec_u64(out: &mut Vec<char>, n: u64)
    ensures
        final(out)@ == old(out)@ + dec_seq(n as int),
    decreases n,
{
    if n < 10 {
        out.push(digit_to_char(n));
    } else {
        push_dec_u64(out, n / 10);
        out.push(digit_to_char(n % 10));
    }
}

/// Reads the digit run `text[from..to]` as a `u32`; `None` if its value
/// exceeds `u32::MAX`.
pub fn digits_to_u32(text: &Vec<char>, from: usize, to: usize) -> (r: Option<u32>)
    requires
        from <= to <= text@.len(),
        forall|j: int| from <= j < to ==> is_digit_char(text@[j]),
    ensures
        ({
            let v = digits_value(text@.subrange(from as int, to as int));
            match r {
                Some(x) => x as int == v,
                None => v > u32::MAX,
            }
        }),
{
    let ghost whole = text@.subrange(from as int, to as int);
    let mut acc: u64 = 0;
    let mut j: usize = from;
    proof {
        assert(text@.subrange(from as int, from as int) =~= Seq::<char>::empty());
    }
    while j < to
        invariant
            from <= j <= to <= text@.len(),
            forall|k: int| from <= k < to ==> is_digit_char(text@[k]),
            acc <= u32::MAX as u64 + 1,
            ({
                let v = digits_value(text@.subrange(from as int, j as int));
                if v <= u32::MAX {
                    acc as int == v
                } else {
                    acc == u32::MAX as u64 + 1
                }
            }),
        decreases to - j,
    {
        let c = text[j];
        let d: u64 = (c as u32 as u64) - 48;
        proof {
            let prefix = text@.subrange(from as int, j as int);
            let next = text@.subrange(from as int, j as int + 1);
            assert(next.drop_last() =~= prefix);
            assert(next.last() == text@[j as int]);
            lemma_digits_value_nonneg(prefix);
            assert(is_digit_char(c));
            assert(d == digit_value(c));
        }
        let cand: u64 = acc * 10 + d;
        if cand > u32::MAX as u64 {
            acc = u32::MAX as u64 + 1;
        } else {
            acc = cand;
        }
        j = j + 1;
    }
    proof {
        assert(text@.subrange(from as int, to as int) =~= whole);
    }
    if acc <= u32::MAX as u64 {
        Some(acc as u32)
    } else {
        None
    }
}

// ---------------------------------------------------------------------------
// Normalization and splitting
// ---------------------------------------------------------------------------

/// `s` with every space, tab and comma removed.
pub open spec fn normalize_text(s: Seq<char>) -> Seq<char>
    decreases s.len(),
{
    if s.len() == 0 {
        Seq::empty()
    } else if keep_char(s.last()) {
        normalize_text(s.drop_last()).push(s.last())
    } else {
        normalize_text(s.drop_last())
    }
}

/// Normalization leaves a text without spaces, tabs and commas unchanged.
pub proof fn lemma_normalize_identity(s: Seq<char>)
    requires
        forall|j: int| 0 <= j < s.len() ==> keep_char(s[j]),
    ensures
        normalize_text(s) == s,
    decreases s.len(),
{
    if s.len() > 0 {
        lemma_normalize_identity(s.drop_last());
        assert(normalize_text(s.drop_last()).push(s.last()) =~= s);
    } else {
        assert(normalize_text(s) =~= s);
    }
}

pub fn normalize(text: &Vec<char>) -> (r: Vec<char>)
    ensures
        r@ == normalize_text(text@),
{
    let mut out: Vec<char> = Vec::new();
    let mut i: usize = 0;
    proof {
        assert(text@.take(0) =~= Seq::<char>::empty());
    }
    while i < text.len()
        invariant
            i <= text@.len(),
            out@ == normalize_text(text@.take(i as int)),
        decreases text@.len() - i,
    {
        let c = text[i];
        proof {
            let pre = text@.take(i as int);
            let next = text@.take(i as int + 1);
            assert(next.drop_last() =~= pre);
            assert(next.last() == text@[i as int]);
        }
        if !(c == ' ' || c == '\t' || c == ',') {
            out.push(c);
        }
        i = i + 1;
    }
    proof {
        assert(text@.take(text@.len() as int) =~= text@);
    }
    out
}

/// `s` split on the separator `sep`. The result always holds at least one
/// segment; a separator at the very end contributes a final empty segment.
pub open spec fn split_text(s: Seq<char>, sep: char) -> Seq<Seq<char>>
    decreases s.len(),
{
    if s.len() == 0 {
        seq![Seq::<char>::empty()]
    } else {
        let prev = split_text(s.drop_last(), sep);
        if s.last() == sep {
            prev.push(Seq::empty())
        } else {
            prev.update(prev.len() - 1, prev.last().push(s.last()))
        }
    }
}

pub proof fn lemma_split_text_len(s: Seq<char>, sep: char)
    ensures
        split_text(s, sep).len() >= 1,
    decreases s.len(),
{
    if s.len() > 0 {
        lemma_split_text_len(s.drop_last(), sep);
    }
}

/// Appending a separator closes the current segment and opens an empty
/// one.
pub proof fn lemma_split_append_sep(s: Seq<char>, sep: char)
    ensures
        split_text(s + seq![sep], sep) == split_text(s, sep).push(Seq::empty()),
{
    let s2 = s + seq![sep];
    assert(s2.drop_last() =~= s);
    assert(s2.last() == sep);
}

/// Appending separator-free text extends the final segment and nothing
/// else.
pub proof fn lemma_split_append_nosep(s: Seq<char>, t: Seq<char>, sep: char)
    requires
        forall|j: int| 0 <= j < t.len() ==> t[j] != sep,
    ensures
        ({
            let base = split_text(s, sep);
            split_text(s + t, sep) == base.update(base.len() - 1, base.last() + t)
        }),
    decreases t.len(),
{
    lemma_split_text_len(s, sep);
    let base = split_text(s, sep);
    if t.len() == 0 {
        assert(s + t =~= s);
        assert(base.last() + t =~= base.last());
        assert(base.update(base.len() - 1, base.last() + t) =~= base);
    } else {
        let t1 = t.drop_last();
        let c = t.last();
        assert(forall|j: int| 0 <= j < t1.len() ==> t1[j] == t[j]);
        lemma_split_append_nosep(s, t1, sep);
        let st1 = s + t1;
        assert((s + t).drop_last() =~= st1);
        assert((s + t).last() == c);
        let prev = split_text(st1, sep);
        assert(prev == base.update(base.len() - 1, base.last() + t1));
        assert(prev.last() == base.last() + t1);
        assert(split_text(s + t, sep) == prev.update(prev.len() - 1, prev.last().push(c)));
        assert((base.last() + t1).push(c) =~= base.last() + t);
        assert(prev.update(prev.len() - 1, prev.last().push(c)) =~= base.update(
            base.len() - 1,
            base.last() + t,
        ));
    }
}

/// The views of a vector of vectors of characters.
pub open spec fn views_of(ss: Seq<Vec<char>>) -> Seq<Seq<char>> {
    ss.map_values(|v: Vec<char>| v@)
}

pub fn split_chars(text: &Vec<char>, sep: char) -> (r: Vec<Vec<char>>)
    ensures
        views_of(r@) == split_text(text@, sep),
{
    let mut done: Vec<Vec<char>> = Vec::new();
    let mut cur: Vec<char> = Vec::new();
    let mut i: usize = 0;
    proof {
        assert(text@.take(0) =~= Seq::<char>::empty());
        assert(views_of(done@).push(cur@) =~= split_text(text@.take(0), sep));
    }
    while i < text.len()
        invariant
            i <= text@.len(),
            views_of(done@).push(cur@) == split_text(text@.take(i as int), sep),
        decreases text@.len() - i,
    {
        let c = text[i];
        proof {
            let pre = text@.take(i as int);
            let next = text@.take(i as int + 1);
            assert(next.drop_last() =~= pre);
            assert(next.last() == text@[i as int]);
        }
        if c == sep {
            let finished = cur;
            cur = Vec::new();
            done.push(finished);
            proof {
                assert(views_of(done@).push(cur@) =~= split_text(
                    text@.take(i as int),
                    sep,
                ).push(Seq::empty()));
            }
        } else {
            let ghost old_split = split_text(text@.take(i as int), sep);
            cur.push(c);
            proof {
                assert(views_of(done@).push(cur@) =~= old_split.update(
                    old_split.len() - 1,
                    old_split.last().push(c),
                ));
            }
        }
        i = i + 1;
    }
    proof {
        assert(text@.take(text@.len() as int) =~= text@);
    }
    done.push(cur);
    proof {
        assert(views_of(done@) =~= split_text(text@, sep));
    }
    done
}

// ---------------------------------------------------------------------------
// Vector and string conversions
// ---------------------------------------------------------------------------

/// Appends a copy of every element of `add` to `out`, in order.
pub fn extend_vec<T: Copy>(out: &mut Vec<T>, add: &Vec<T>)
    ensures
        final(out)@ == old(out)@ + add@,
{
    let ghost base = out@;
    let mut i: usize = 0;
    proof {
        assert(base + add@.take(0) =~= base);
    }
    while i < add.len()
        invariant
            i <= add@.len(),
            out@ == base + add@.take(i as int),
        decreases add@.len() - i,
    {
        proof {
            assert(base + add@.take(i as int + 1) =~= (base + add@.take(i as int)).push(
                add@[i as int],
            ));
        }
        out.push(add[i]);
        i = i + 1;
    }
    proof {
        assert(add@.take(add@.len() as int) =~= add@);
    }
}

/// A copy of `v[from..to]`.
pub fn subvec(v: &Vec<char>, from: usize, to: usize) -> (r: Vec<char>)
    requires
        from <= to <= v@.len(),
    ensures
        r@ == v@.subrange(from as int, to as int),
{
    let mut out: Vec<char> = Vec::new();
    let mut i: usize = from;
    proof {
        assert(v@.subrange(from as int, from as int) =~= Seq::<char>::empty());
    }
    while i < to
        invariant
            from <= i <= to <= v@.len(),
            out@ == v@.subrange(from as int, i as int),
        decreases to - i,
    {
        proof {
            assert(v@.subrange(from as int, i as int + 1) =~= v@.subrange(
                from as int,
                i as int,
            ).push(v@[i as int]));
        }
        out.push(v[i]);
        i = i + 1;
    }
    out
}

/// The characters of `s`, in order, as a vector.
pub fn str_to_chars(s: &str) -> (r: Vec<char>)
    ensures
        r@ == s@,
{
    let len = s.unicode_len();
    let mut out: Vec<char> = Vec::new();
    let mut i: usize = 0;
    while i < len
        invariant
            i <= len,
            len == s@.len(),
            out@ == s@.take(i as int),
        decreases len - i,
    {
        proof {
            assert(s@.take(i as int + 1) =~= s@.take(i as int).push(s@[i as int]));
        }
        out.push(s.get_char(i));
        i = i + 1;
    }
    proof {
        assert(s@.take(s@.len() as int) =~= s@);
    }
    out
}

/// The characters of `v`, in order, as a `String`.
pub fn chars_to_string(v: &Vec<char>) -> (r: String)
    ensures
        r@ == v@,
{
    let mut out = String::new();
    let mut i: usize = 0;
    proof {
        assert(v@.take(0) =~= Seq::<char>::empty());
    }
    while i < v.len()
        invariant
            i <= v@.len(),
            out@ == v@.take(i as int),
        decreases v@.len() - i,
    {
        proof {
            assert(v@.take(i as int + 1) =~= v@.take(i as int).push(v@[i as int]));
        }
        out.push(v[i]);
        i = i + 1;
    }
    proof {
        assert(v@.take(v@.len() as int) =~= v@);
    }
    out
}

} // verus!
