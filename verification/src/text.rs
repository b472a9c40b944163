//! Character classes and string utilities shared by the parser and the
//! compiler: whitespace trimming, ASCII case folding, line splitting and
//! digit parsing, each with a spec-level model.
use vstd::prelude::*;

verus! {

/// The Unicode `White_Space` code points, the set `char::is_whitespace`
/// recognizes.
pub open spec fn is_ws_char(c: char) -> bool {
    let u = c as u32;
    u == 0x20 || (0x9 <= u && u <= 0xD) || u == 0x85 || u == 0xA0 || u == 0x1680
        || (0x2000 <= u && u <= 0x200A) || u == 0x2028 || u == 0x2029 || u == 0x202F
        || u == 0x205F || u == 0x3000
}

pub fn is_ws(c: char) -> (r: bool)
    ensures
        r == is_ws_char(c),
{
    let u = c as u32;
    u == 0x20 || (0x9 <= u && u <= 0xD) || u == 0x85 || u == 0xA0 || u == 0x1680
        || (0x2000 <= u && u <= 0x200A) || u == 0x2028 || u == 0x2029 || u == 0x202F
        || u == 0x205F || u == 0x3000
}

/// ASCII case folding of one character; other characters are untouched.
pub open spec fn lower_char(c: char) -> char {
    match c {
        'A' => 'a',
        'B' => 'b',
        'C' => 'c',
        'D' => 'd',
        'E' => 'e',
        'F' => 'f',
        'G' => 'g',
        'H' => 'h',
        'I' => 'i',
        'J' => 'j',
        'K' => 'k',
        'L' => 'l',
        'M' => 'm',
        'N' => 'n',
        'O' => 'o',
        'P' => 'p',
        'Q' => 'q',
        'R' => 'r',
        'S' => 's',
        'T' => 't',
        'U' => 'u',
        'V' => 'v',
        'W' => 'w',
        'X' => 'x',
        'Y' => 'y',
        'Z' => 'z',
        _ => c,
    }
}

pub fn lower_char_exec(c: char) -> (r: char)
    ensures
        r == lower_char(c),
{
    match c {
        'A' => 'a',
        'B' => 'b',
        'C' => 'c',
        'D' => 'd',
        'E' => 'e',
        'F' => 'f',
        'G' => 'g',
        'H' => 'h',
        'I' => 'i',
        'J' => 'j',
        'K' => 'k',
        'L' => 'l',
        'M' => 'm',
        'N' => 'n',
        'O' => 'o',
        'P' => 'p',
        'Q' => 'q',
        'R' => 'r',
        'S' => 's',
        'T' => 't',
        'U' => 'u',
        'V' => 'v',
        'W' => 'w',
        'X' => 'x',
        'Y' => 'y',
        'Z' => 'z',
        _ => c,
    }
}

/// ASCII case folding of a whole sequence.
pub open spec fn lower(s: Seq<char>) -> Seq<char> {
    s.map_values(|c: char| lower_char(c))
}

/// Relies on `String::push`: appends exactly the given character.
#[verifier::external_body]
pub fn push_char(s: &mut String, c: char)
    ensures
        final(s)@ == old(s)@.push(c),
{
    s.push(c);
}

/// The sequence with the leading whitespace removed.
pub open spec fn trim_start_spec(s: Seq<char>) -> Seq<char>
    decreases s.len(),
{
    if s.len() > 0 && is_ws_char(s[0]) {
        trim_start_spec(s.skip(1))
    } else {
        s
    }
}

/// The sequence with the trailing whitespace removed.
pub open spec fn trim_end_spec(s: Seq<char>) -> Seq<char>
    decreases s.len(),
{
    if s.len() > 0 && is_ws_char(s.last()) {
        trim_end_spec(s.drop_last())
    } else {
        s
    }
}

/// The sequence with whitespace removed on both ends.
pub open spec fn trim_spec(s: Seq<char>) -> Seq<char> {
    trim_start_spec(trim_end_spec(s))
}

proof fn lemma_trim_start_skip(s: Seq<char>, i: int)
    requires
        0 <= i <= s.len(),
        forall|j: int| 0 <= j < i ==> is_ws_char(s[j]),
        i < s.len() ==> !is_ws_char(s[i]),
    ensures
        trim_start_spec(s) == s.skip(i),
    decreases i,
{
    if i == 0 {
        assert(s.skip(0) == s);
    } else {
        lemma_trim_start_skip(s.skip(1), i - 1);
        assert(s.skip(1).skip(i - 1) == s.skip(i));
    }
}

proof fn lemma_trim_end_take(s: Seq<char>, i: int)
    requires
        0 <= i <= s.len(),
        forall|j: int| i <= j < s.len() ==> is_ws_char(s[j]),
        i > 0 ==> !is_ws_char(s[i - 1]),
    ensures
        trim_end_spec(s) == s.take(i),
    decreases s.len() - i,
{
    if i == s.len() {
        assert(s.take(i) == s);
    } else {
        assert(s.drop_last() == s.take(s.len() - 1));
        lemma_trim_end_take(s.take(s.len() - 1), i);
        assert(s.take(s.len() - 1).take(i) == s.take(i));
    }
}

proof fn lemma_trim_start_head(s: Seq<char>)
    ensures
        trim_start_spec(s).len() > 0 ==> !is_ws_char(trim_start_spec(s)[0]),
    decreases s.len(),
{
    if s.len() > 0 && is_ws_char(s[0]) {
        lemma_trim_start_head(s.skip(1));
    }
}

proof fn lemma_trim_end_last(s: Seq<char>)
    ensures
        trim_end_spec(s).len() > 0 ==> !is_ws_char(trim_end_spec(s).last()),
    decreases s.len(),
{
    if s.len() > 0 && is_ws_char(s.last()) {
        lemma_trim_end_last(s.drop_last());
    }
}

proof fn lemma_trim_start_keeps_last(s: Seq<char>)
    ensures
        trim_start_spec(s).len() > 0 ==> s.len() > 0 && trim_start_spec(s).last() == s.last(),
    decreases s.len(),
{
    if s.len() > 0 && is_ws_char(s[0]) {
        lemma_trim_start_keeps_last(s.skip(1));
        if trim_start_spec(s).len() > 0 {
            assert(s.skip(1).last() == s.last());
        }
    }
}

/// Trimming is idempotent.
pub proof fn lemma_trim_idem(s: Seq<char>)
    ensures
        trim_spec(trim_spec(s)) == trim_spec(s),
{
    let te = trim_end_spec(s);
    let t = trim_start_spec(te);
    lemma_trim_start_head(te);
    lemma_trim_end_last(s);
    lemma_trim_start_keeps_last(te);
    if t.len() > 0 {
        assert(!is_ws_char(t.last()));
        assert(trim_end_spec(t) == t);
        assert(trim_start_spec(t) == t);
    } else {
        assert(trim_end_spec(t) == t);
    }
}

/// Index of the first non-whitespace character (the length if none).
pub fn first_non_ws(s: &str) -> (i: usize)
    ensures
        i <= s@.len(),
        forall|j: int| 0 <= j < i ==> is_ws_char(s@[j]),
        i < s@.len() ==> !is_ws_char(s@[i as int]),
{
    let n = s.unicode_len();
    let mut i: usize = 0;
    while i < n
        invariant
            n == s@.len(),
            i <= n,
            forall|j: int| 0 <= j < i ==> is_ws_char(s@[j]),
        decreases n - i,
    {
        if !is_ws(s.get_char(i)) {
            return i;
        }
        i += 1;
    }
    i
}

/// Index just after the last non-whitespace character (0 if none).
pub fn last_non_ws(s: &str) -> (i: usize)
    ensures
        i <= s@.len(),
        forall|j: int| i <= j < s@.len() ==> is_ws_char(s@[j]),
        i > 0 ==> !is_ws_char(s@[i - 1]),
{
    let n = s.unicode_len();
    let mut i: usize = n;
    while i > 0
        invariant
            n == s@.len(),
            i <= n,
            forall|j: int| i <= j < s@.len() ==> is_ws_char(s@[j]),
        decreases i,
    {
        if !is_ws(s.get_char(i - 1)) {
            return i;
        }
        i -= 1;
    }
    i
}

pub fn trim_start_of<'a>(s: &'a str) -> (r: &'a str)
    ensures
        r@ == trim_start_spec(s@),
{
    let i = first_non_ws(s);
    let n = s.unicode_len();
    let r = s.substring_char(i, n);
    proof {
        lemma_trim_start_skip(s@, i as int);
        assert(s@.subrange(i as int, s@.len() as int) == s@.skip(i as int));
    }
    r
}

pub fn trim_end_of<'a>(s: &'a str) -> (r: &'a str)
    ensures
        r@ == trim_end_spec(s@),
{
    let i = last_non_ws(s);
    let r = s.substring_char(0, i);
    proof {
        lemma_trim_end_take(s@, i as int);
        assert(s@.subrange(0, i as int) == s@.take(i as int));
    }
    r
}

pub fn trim_of<'a>(s: &'a str) -> (r: &'a str)
    ensures
        r@ == trim_spec(s@),
{
    trim_start_of(trim_end_of(s))
}

/// Character-wise equality of two string slices.
pub fn str_eq(a: &str, b: &str) -> (r: bool)
    ensures
        r == (a@ == b@),
{
    let na = a.unicode_len();
    let nb = b.unicode_len();
    if na != nb {
        return false;
    }
    let mut i: usize = 0;
    while i < na
        invariant
            na == a@.len(),
            nb == b@.len(),
            na == nb,
            i <= na,
            forall|j: int| 0 <= j < i ==> a@[j] == b@[j],
        decreases na - i,
    {
        if a.get_char(i) != b.get_char(i) {
            return false;
        }
        i += 1;
    }
    proof {
        assert(a@ =~= b@);
    }
    true
}

/// Whether `p` is a prefix of `a`, character for character.
pub fn starts_with(a: &str, p: &str) -> (r: bool)
    ensures
        r == p@.is_prefix_of(a@),
{
    let na = a.unicode_len();
    let np = p.unicode_len();
    if np > na {
        assert(!p@.is_prefix_of(a@));
        return false;
    }
    let mut i: usize = 0;
    while i < np
        invariant
            na == a@.len(),
            np == p@.len(),
            np <= na,
            i <= np,
            forall|j: int| 0 <= j < i ==> a@[j] == p@[j],
        decreases np - i,
    {
        if a.get_char(i) != p.get_char(i) {
            assert(!p@.is_prefix_of(a@));
            return false;
        }
        i += 1;
    }
    proof {
        assert(p@ =~= a@.subrange(0, p@.len() as int));
    }
    true
}

/// Whether `p` (assumed already folded) is a prefix of the case folding of `a`.
pub fn starts_with_lower(a: &str, p: &str) -> (r: bool)
    ensures
        r == p@.is_prefix_of(lower(a@)),
{
    let na = a.unicode_len();
    let np = p.unicode_len();
    if np > na {
        assert(!p@.is_prefix_of(lower(a@)));
        return false;
    }
    let mut i: usize = 0;
    while i < np
        invariant
            na == a@.len(),
            np == p@.len(),
            np <= na,
            i <= np,
            forall|j: int| 0 <= j < i ==> lower(a@)[j] == p@[j],
        decreases np - i,
    {
        if lower_char_exec(a.get_char(i)) != p.get_char(i) {
            assert(lower(a@)[i as int] != p@[i as int]);
            assert(!p@.is_prefix_of(lower(a@)));
            return false;
        }
        i += 1;
    }
    proof {
        assert(p@ =~= lower(a@).subrange(0, p@.len() as int));
    }
    true
}

/// Character-wise equality up to ASCII case folding of `a` (with `p` assumed
/// already folded).
pub fn eq_lower(a: &str, p: &str) -> (r: bool)
    ensures
        r == (lower(a@) == p@),
{
    let na = a.unicode_len();
    let np = p.unicode_len();
    if na != np {
        assert(lower(a@).len() == a@.len());
        return false;
    }
    let sw = starts_with_lower(a, p);
    proof {
        if sw {
            assert(lower(a@) =~= p@);
        } else {
            assert(lower(a@) != p@) by {
                if lower(a@) == p@ {
                    assert(p@.is_prefix_of(lower(a@)));
                }
            }
        }
    }
    sw
}

/// The ASCII case folding of a string slice.
pub fn to_lower(s: &str) -> (r: String)
    ensures
        r@ == lower(s@),
{
    let n = s.unicode_len();
    let mut out = String::new();
    let mut i: usize = 0;
    while i < n
        invariant
            n == s@.len(),
            i <= n,
            out@ == lower(s@).take(i as int),
        decreases n - i,
    {
        push_char(&mut out, lower_char_exec(s.get_char(i)));
        proof {
            assert(lower(s@).take(i + 1) =~= lower(s@).take(i as int).push(lower_char(s@[i as int])));
        }
        i += 1;
    }
    proof {
        assert(lower(s@).take(n as int) =~= lower(s@));
    }
    out
}

proof fn lemma_trim_start_empty_all_ws(s: Seq<char>)
    ensures
        trim_start_spec(s).len() == 0 ==> forall|i: int| 0 <= i < s.len() ==> is_ws_char(s[i]),
    decreases s.len(),
{
    if s.len() > 0 && is_ws_char(s[0]) {
        lemma_trim_start_empty_all_ws(s.skip(1));
        if trim_start_spec(s).len() == 0 {
            assert(forall|i: int| 1 <= i < s.len() ==> s[i] == s.skip(1)[i - 1]);
        }
    }
}

proof fn lemma_trim_start_all_ws(s: Seq<char>)
    requires
        forall|i: int| 0 <= i < s.len() ==> is_ws_char(s[i]),
    ensures
        trim_start_spec(s).len() == 0,
    decreases s.len(),
{
    if s.len() > 0 {
        assert(forall|i: int| 0 <= i < s.skip(1).len() ==> is_ws_char(s.skip(1)[i]));
        lemma_trim_start_all_ws(s.skip(1));
    }
}

proof fn lemma_trim_end_prefix(s: Seq<char>)
    ensures
        trim_end_spec(s).len() <= s.len(),
        forall|i: int| 0 <= i < trim_end_spec(s).len() ==> trim_end_spec(s)[i] == s[i],
    decreases s.len(),
{
    if s.len() > 0 && is_ws_char(s.last()) {
        lemma_trim_end_prefix(s.drop_last());
        assert(forall|i: int| 0 <= i < s.drop_last().len() ==> s.drop_last()[i] == s[i]);
    }
}

/// A text whose full trim is non-empty has a non-empty left trim.
pub proof fn lemma_lstrip_nonempty(s: Seq<char>)
    requires
        trim_spec(s).len() > 0,
    ensures
        trim_start_spec(s).len() > 0,
{
    if trim_start_spec(s).len() == 0 {
        lemma_trim_start_empty_all_ws(s);
        lemma_trim_end_prefix(s);
        assert forall|i: int| 0 <= i < trim_end_spec(s).len() implies is_ws_char(
            trim_end_spec(s)[i],
        ) by {
            assert(trim_end_spec(s)[i] == s[i]);
        }
        lemma_trim_start_all_ws(trim_end_spec(s));
    }
}

/// The text with every leading byte-order-mark removed.
pub open spec fn strip_bom_spec(s: Seq<char>) -> Seq<char>
    decreases s.len(),
{
    if s.len() > 0 && s[0] == '\u{feff}' {
        strip_bom_spec(s.skip(1))
    } else {
        s
    }
}

proof fn lemma_strip_bom_skip(s: Seq<char>, i: int)
    requires
        0 <= i <= s.len(),
        forall|j: int| 0 <= j < i ==> s[j] == '\u{feff}',
        i < s.len() ==> s[i] != '\u{feff}',
    ensures
        strip_bom_spec(s) == s.skip(i),
    decreases i,
{
    if i == 0 {
        assert(s.skip(0) == s);
    } else {
        lemma_strip_bom_skip(s.skip(1), i - 1);
        assert(s.skip(1).skip(i - 1) == s.skip(i));
    }
}

/// Strips any leading byte-order-marks.
pub fn strip_bom_of<'a>(s: &'a str) -> (r: &'a str)
    ensures
        r@ == strip_bom_spec(s@),
{
    let n = s.unicode_len();
    let mut i: usize = 0;
    while i < n
        invariant
            n == s@.len(),
            i <= n,
            forall|j: int| 0 <= j < i ==> s@[j] == '\u{feff}',
        decreases n - i,
    {
        if s.get_char(i) != '\u{feff}' {
            let r = s.substring_char(i, n);
            proof {
                lemma_strip_bom_skip(s@, i as int);
                assert(s@.subrange(i as int, s@.len() as int) == s@.skip(i as int));
            }
            return r;
        }
        i += 1;
    }
    let r = s.substring_char(i, n);
    proof {
        lemma_strip_bom_skip(s@, i as int);
        assert(s@.subrange(i as int, s@.len() as int) == s@.skip(i as int));
    }
    r
}

/// Drops one trailing carriage return, as the line splitter does before a
/// line feed.
pub open spec fn strip_cr(s: Seq<char>) -> Seq<char> {
    if s.len() > 0 && s.last() == '\r' {
        s.drop_last()
    } else {
        s
    }
}

/// The physical lines of a text: split at `'\n'`, with a carriage return
/// immediately before the line feed dropped, and no trailing empty line
/// after a final line feed.
pub open spec fn lines_rec(s: Seq<char>, cur: Seq<char>) -> Seq<Seq<char>>
    decreases s.len(),
{
    if s.len() == 0 {
        if cur.len() == 0 {
            Seq::empty()
        } else {
            seq![cur]
        }
    } else if s[0] == '\n' {
        seq![strip_cr(cur)] + lines_rec(s.skip(1), Seq::empty())
    } else {
        lines_rec(s.skip(1), cur.push(s[0]))
    }
}

pub open spec fn lines_spec(s: Seq<char>) -> Seq<Seq<char>> {
    lines_rec(s, Seq::empty())
}

/// Splits a text into its physical lines.
pub fn split_lines(s: &str) -> (r: Vec<&str>)
    ensures
        r.deep_view() == lines_spec(s@),
{
    let n = s.unicode_len();
    let mut out: Vec<&str> = Vec::new();
    let mut st: usize = 0;
    let mut i: usize = 0;
    proof {
        assert(s@.subrange(0, 0) =~= Seq::<char>::empty());
        assert(s@.skip(0) =~= s@);
        assert(out.deep_view() =~= Seq::<Seq<char>>::empty());
    }
    while i < n
        invariant
            n == s@.len(),
            st <= i <= n,
            lines_spec(s@) == out.deep_view() + lines_rec(
                s@.skip(i as int),
                s@.subrange(st as int, i as int),
            ),
        decreases n - i,
    {
        let ghost cur = s@.subrange(st as int, i as int);
        let c = s.get_char(i);
        assert(s@.skip(i as int)[0] == c);
        if c == '\n' {
            let cut = if i > st && s.get_char(i - 1) == '\r' {
                i - 1
            } else {
                i
            };
            let line = s.substring_char(st, cut);
            proof {
                assert(strip_cr(cur) =~= s@.subrange(st as int, cut as int));
                assert(lines_rec(s@.skip(i as int), cur) == seq![strip_cr(cur)] + lines_rec(
                    s@.skip(i as int).skip(1),
                    Seq::empty(),
                ));
                assert(s@.skip(i as int).skip(1) =~= s@.skip(i + 1));
            }
            out.push(line);
            proof {
                assert(out.deep_view() =~= out.deep_view().drop_last() + seq![line@]);
                assert(s@.subrange(i + 1, i + 1) =~= Seq::<char>::empty());
            }
            st = i + 1;
        } else {
            proof {
                assert(lines_rec(s@.skip(i as int), cur) == lines_rec(
                    s@.skip(i as int).skip(1),
                    cur.push(c),
                ));
                assert(s@.skip(i as int).skip(1) =~= s@.skip(i + 1));
                assert(cur.push(c) =~= s@.subrange(st as int, i + 1));
            }
        }
        i += 1;
    }
    proof {
        assert(s@.skip(n as int) =~= Seq::<char>::empty());
    }
    if st < n {
        let line = s.substring_char(st, n);
        out.push(line);
        proof {
            assert(out.deep_view() =~= out.deep_view().drop_last() + seq![line@]);
        }
    }
    out
}

pub open spec fn is_digit_char(c: char) -> bool {
    '0' <= c && c <= '9'
}

pub open spec fn digit_val(c: char) -> int {
    c as u32 - '0' as u32
}

/// Value of a digit string, most significant first.
pub open spec fn digits_val(s: Seq<char>) -> int
    decreases s.len(),
{
    if s.len() == 0 {
        0
    } else {
        digits_val(s.drop_last()) * 10 + digit_val(s.last())
    }
}

/// The digit part of an unsigned decimal token: one optional leading plus
/// sign, then the digits.
pub open spec fn strip_plus(s: Seq<char>) -> Seq<char> {
    if s.len() > 0 && s[0] == '+' {
        s.skip(1)
    } else {
        s
    }
}

/// What `usize::from_str` accepts: an optional plus sign, then at least one
/// digit, with a value that fits.
pub open spec fn parse_usize_spec(s: Seq<char>) -> Option<int> {
    let d = strip_plus(s);
    if d.len() > 0 && (forall|i: int| 0 <= i < d.len() ==> is_digit_char(d[i])) && digits_val(d)
        <= usize::MAX {
        Some(digits_val(d))
    } else {
        None
    }
}

proof fn lemma_digits_val_nonneg(s: Seq<char>)
    requires
        forall|i: int| 0 <= i < s.len() ==> is_digit_char(s[i]),
    ensures
        digits_val(s) >= 0,
    decreases s.len(),
{
    if s.len() > 0 {
        lemma_digits_val_nonneg(s.drop_last());
    }
}

proof fn lemma_digits_val_mono(s: Seq<char>, i: int)
    requires
        forall|j: int| 0 <= j < s.len() ==> is_digit_char(s[j]),
        0 <= i <= s.len(),
    ensures
        digits_val(s.take(i)) <= digits_val(s),
    decreases s.len() - i,
{
    if i < s.len() {
        lemma_digits_val_mono(s, i + 1);
        assert(s.take(i + 1).drop_last() =~= s.take(i));
        lemma_digits_val_nonneg(s.take(i));
        assert(digits_val(s.take(i)) * 10 >= digits_val(s.take(i))) by (nonlinear_arith)
            requires
                digits_val(s.take(i)) >= 0,
        ;
    } else {
        assert(s.take(i) =~= s);
    }
}

/// Parses an unsigned decimal token as `usize::from_str` does.
pub fn parse_usize(s: &str) -> (r: Option<usize>)
    ensures
        match r {
            Some(v) => parse_usize_spec(s@) == Some(v as int),
            None => parse_usize_spec(s@) is None,
        },
{
    let n = s.unicode_len();
    let mut i: usize = 0;
    if n > 0 && s.get_char(0) == '+' {
        i = 1;
    }
    let ghost d = strip_plus(s@);
    let ghost off = i as int;
    assert(d =~= s@.skip(off));
    if i >= n {
        return None;
    }
    let start = i;
    let mut val: usize = 0;
    while i < n
        invariant
            n == s@.len(),
            start <= i <= n,
            off == start,
            d == strip_plus(s@),
            d == s@.skip(off),
            d.len() == n - start,
            forall|j: int| 0 <= j < i - start ==> is_digit_char(d[j]),
            val as int == digits_val(d.take(i - start)),
        decreases n - i,
    {
        let c = s.get_char(i);
        assert(d[i - start] == s@[i as int]);
        if !(c >= '0' && c <= '9') {
            proof {
                let k = i - start;
                assert(0 <= k < d.len());
                assert(!is_digit_char(d[k]));
                assert(parse_usize_spec(s@) is None);
            }
            return None;
        }
        let dv: usize = (c as u32 - '0' as u32) as usize;
        proof {
            assert(d.take(i - start + 1).drop_last() =~= d.take(i - start));
        }
        if val > (usize::MAX - dv) / 10 {
            proof {
                assert(val as int * 10 + dv > usize::MAX) by (nonlinear_arith)
                    requires
                        val as int > (usize::MAX as int - dv) / 10,
                        0 <= dv <= 9,
                ;
                assert(dv == digit_val(d[i - start]));
                assert(digits_val(d.take(i - start + 1)) == val as int * 10 + dv);
                if forall|j: int| 0 <= j < d.len() ==> is_digit_char(d[j]) {
                    lemma_digits_val_mono(d, i - start + 1);
                    assert(digits_val(d) > usize::MAX);
                }
                assert(parse_usize_spec(s@) is None);
            }
            return None;
        }
        val = val * 10 + dv;
        i += 1;
    }
    proof {
        assert(d.take(d.len() as int) =~= d);
    }
    Some(val)
}

/// Count of leading quote characters.
pub open spec fn leading_quotes(s: Seq<char>) -> nat
    decreases s.len(),
{
    if s.len() > 0 && s[0] == '"' {
        1 + leading_quotes(s.skip(1))
    } else {
        0
    }
}

pub proof fn lemma_leading_quotes(s: Seq<char>, i: int)
    requires
        0 <= i <= s.len(),
        forall|j: int| 0 <= j < i ==> s[j] == '"',
        i < s.len() ==> s[i] != '"',
    ensures
        leading_quotes(s) == i,
    decreases i,
{
    if i > 0 {
        lemma_leading_quotes(s.skip(1), i - 1);
    }
}

/// Counts the leading quote characters of a string slice.
pub fn count_leading_quotes(s: &str) -> (r: usize)
    ensures
        r == leading_quotes(s@),
{
    let n = s.unicode_len();
    let mut i: usize = 0;
    while i < n
        invariant
            n == s@.len(),
            i <= n,
            forall|j: int| 0 <= j < i ==> s@[j] == '"',
        decreases n - i,
    {
        if s.get_char(i) != '"' {
            proof {
                lemma_leading_quotes(s@, i as int);
            }
            return i;
        }
        i += 1;
    }
    proof {
        lemma_leading_quotes(s@, i as int);
    }
    i
}

/// A run of `n` quote characters.
pub open spec fn quote_run(n: nat) -> Seq<char> {
    Seq::new(n, |i: int| '"')
}

/// Lines joined with a line feed between them.
pub open spec fn join_nl(ss: Seq<Seq<char>>) -> Seq<char>
    decreases ss.len(),
{
    if ss.len() == 0 {
        Seq::empty()
    } else if ss.len() == 1 {
        ss[0]
    } else {
        ss[0] + seq!['\n'] + join_nl(ss.skip(1))
    }
}

} // verus!
