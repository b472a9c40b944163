//! The line parser: classifies each physical line into a syntax node, and
//! recognizes the block constructs (quoted blocks, reply blocks,
//! header-with-block directives) that span several physical lines.
use vstd::prelude::*;
use crate::ast::{opt_view, node_views, BlankLine, Bond, BondV, Continuation, ContinuationV,
    Directive, DirectiveV, Node, NodeV, Reply, ReplyV, Statement, StatementKind, StatementV};
use crate::text::{count_leading_quotes, eq_lower, first_non_ws, is_digit_char, is_ws, is_ws_char,
    join_nl, leading_quotes, lines_spec, lower, parse_usize, quote_run, split_lines, starts_with,
    starts_with_lower, str_eq, strip_cr, trim_end_of, trim_end_spec, trim_of, trim_spec,
    trim_start_of, trim_start_spec};

verus! {

// --- top-level colon split ---------------------------------------------

/// Position of the first colon not nested in unescaped brackets or
/// parentheses, scanning from `i` with the given depths and escape flag.
pub open spec fn stlc(s: Seq<char>, i: int, dsq: int, dpar: int, esc: bool) -> Option<int>
    decreases s.len() - i,
{
    if i < 0 || i >= s.len() {
        None
    } else {
        let c = s[i];
        if esc {
            stlc(s, i + 1, dsq, dpar, false)
        } else if c == '\\' {
            stlc(s, i + 1, dsq, dpar, true)
        } else if c == '[' {
            stlc(s, i + 1, dsq + 1, dpar, false)
        } else if c == ']' {
            stlc(s, i + 1, if dsq > 0 { dsq - 1 } else { dsq }, dpar, false)
        } else if c == '(' {
            stlc(s, i + 1, dsq, dpar + 1, false)
        } else if c == ')' {
            stlc(s, i + 1, dsq, if dpar > 0 { dpar - 1 } else { dpar }, false)
        } else if c == ':' && dsq == 0 && dpar == 0 {
            Some(i)
        } else {
            stlc(s, i + 1, dsq, dpar, false)
        }
    }
}

pub open spec fn split_top_level_colon_spec(s: Seq<char>) -> Option<int> {
    stlc(s, 0, 0, 0, false)
}

/// Splits at the first colon outside unescaped `[...]`/`(...)` nesting:
/// text before it and text after it, or nothing when no such colon exists.
pub fn split_top_level_colon<'a>(s: &'a str) -> (r: Option<(&'a str, &'a str)>)
    ensures
        match r {
            Some((h, t)) => {
                &&& split_top_level_colon_spec(s@) matches Some(p)
                &&& h@ == s@.take(p)
                &&& t@ == s@.skip(p + 1)
            },
            None => split_top_level_colon_spec(s@) is None,
        },
{
    let n = s.unicode_len();
    let mut i: usize = 0;
    let mut dsq: usize = 0;
    let mut dpar: usize = 0;
    let mut esc: bool = false;
    while i < n
        invariant
            n == s@.len(),
            i <= n,
            dsq <= i,
            dpar <= i,
            split_top_level_colon_spec(s@) == stlc(s@, i as int, dsq as int, dpar as int, esc),
        decreases n - i,
    {
        let c = s.get_char(i);
        if esc {
            esc = false;
        } else if c == '\\' {
            esc = true;
        } else if c == '[' {
            dsq = dsq + 1;
        } else if c == ']' {
            if dsq > 0 {
                dsq = dsq - 1;
            }
        } else if c == '(' {
            dpar = dpar + 1;
        } else if c == ')' {
            if dpar > 0 {
                dpar = dpar - 1;
            }
        } else if c == ':' && dsq == 0 && dpar == 0 {
            let h = s.substring_char(0, i);
            let t = s.substring_char(i + 1, n);
            return Some((h, t));
        }
        i += 1;
    }
    None
}

// --- reply item splitting ----------------------------------------------

/// One reply piece: kept only if non-blank after trimming.
pub open spec fn reply_emit(cur: Seq<char>) -> Seq<Seq<char>> {
    if trim_spec(cur).len() == 0 {
        Seq::empty()
    } else {
        seq![trim_spec(cur)]
    }
}

/// Inline reply items: pieces between pipe characters, trimmed, blanks
/// dropped.
pub open spec fn split_reply_items_rec(s: Seq<char>, cur: Seq<char>) -> Seq<Seq<char>>
    decreases s.len(),
{
    if s.len() == 0 {
        reply_emit(cur)
    } else if s[0] == '|' {
        reply_emit(cur) + split_reply_items_rec(s.skip(1), Seq::empty())
    } else {
        split_reply_items_rec(s.skip(1), cur.push(s[0]))
    }
}

pub open spec fn split_reply_items_spec(s: Seq<char>) -> Seq<Seq<char>> {
    split_reply_items_rec(s, Seq::empty())
}

/// Splits an inline reply payload on pipe characters, trimming each item
/// and dropping empty ones.
pub fn split_reply_items(s: &str) -> (r: Vec<String>)
    ensures
        r.deep_view() == split_reply_items_spec(s@),
{
    let n = s.unicode_len();
    let mut out: Vec<String> = Vec::new();
    let mut st: usize = 0;
    let mut i: usize = 0;
    proof {
        assert(s@.subrange(0, 0) =~= Seq::<char>::empty());
        assert(s@.skip(0) =~= s@);
        assert(out.deep_view() =~= Seq::<Seq<char>>::empty());
    }
    while i < n
        invariant
            n == s@.len(),
            st <= i <= n,
            split_reply_items_spec(s@) == out.deep_view() + split_reply_items_rec(
                s@.skip(i as int),
                s@.subrange(st as int, i as int),
            ),
        decreases n - i,
    {
        let ghost cur = s@.subrange(st as int, i as int);
        let c = s.get_char(i);
        assert(s@.skip(i as int)[0] == c);
        if c == '|' {
            let piece = trim_of(s.substring_char(st, i));
            if piece.unicode_len() > 0 {
                out.push(piece.to_owned());
                proof {
                    assert(out.deep_view() =~= out.deep_view().drop_last() + seq![piece@]);
                }
            }
            proof {
                assert(s@.skip(i as int).skip(1) =~= s@.skip(i + 1));
                assert(s@.subrange(i + 1, i + 1) =~= Seq::<char>::empty());
            }
            st = i + 1;
        } else {
            proof {
                assert(s@.skip(i as int).skip(1) =~= s@.skip(i + 1));
                assert(cur.push(c) =~= s@.subrange(st as int, i + 1));
            }
        }
        i += 1;
    }
    proof {
        assert(s@.skip(n as int) =~= Seq::<char>::empty());
    }
    let piece = trim_of(s.substring_char(st, n));
    if piece.unicode_len() > 0 {
        out.push(piece.to_owned());
        proof {
            assert(out.deep_view() =~= out.deep_view().drop_last() + seq![piece@]);
        }
    }
    out
}

// --- quoted blocks ------------------------------------------------------

/// Whether a run of `k` quote characters stands at position `p`.
pub open spec fn quote_run_at(s: Seq<char>, p: int, k: nat) -> bool {
    p + k <= s.len() && forall|j: int| 0 <= j < k ==> #[trigger] s[p + j] == '"'
}

/// Position of the first run of `k` quote characters, if any.
pub open spec fn find_quote_run(s: Seq<char>, k: nat) -> Option<int>
    decreases s.len(),
{
    if s.len() < k {
        None
    } else if forall|j: int| 0 <= j < k ==> s[j] == '"' {
        Some(0)
    } else {
        match find_quote_run(s.skip(1), k) {
            Some(i) => Some(i + 1),
            None => None,
        }
    }
}

proof fn lemma_leading_quotes_prefix(s: Seq<char>)
    ensures
        leading_quotes(s) <= s.len(),
        forall|j: int| 0 <= j < leading_quotes(s) ==> s[j] == '"',
        leading_quotes(s) < s.len() ==> s[leading_quotes(s) as int] != '"',
    decreases s.len(),
{
    if s.len() > 0 && s[0] == '"' {
        lemma_leading_quotes_prefix(s.skip(1));
        assert(forall|j: int| 1 <= j < leading_quotes(s) ==> s[j] == s.skip(1)[j - 1]);
        assert(leading_quotes(s) < s.len() ==> s[leading_quotes(s) as int] == s.skip(1)[
            leading_quotes(s.skip(1)) as int]);
    }
}

proof fn lemma_fqr_offset(s: Seq<char>, k: nat, i: int)
    requires
        0 <= i <= s.len(),
        forall|p: int| 0 <= p < i ==> !quote_run_at(s, p, k),
    ensures
        find_quote_run(s, k) == match find_quote_run(s.skip(i), k) {
            Some(p) => Some(p + i),
            None => None::<int>,
        },
    decreases i,
{
    if i == 0 {
        assert(s.skip(0) =~= s);
    } else {
        assert(!quote_run_at(s, 0, k));
        assert(s.len() >= k ==> !(forall|j: int| 0 <= j < k ==> s[j] == '"'));
        assert forall|p: int| 0 <= p < i - 1 implies !quote_run_at(s.skip(1), p, k) by {
            if quote_run_at(s.skip(1), p, k) {
                assert forall|j: int| 0 <= j < k implies #[trigger] s[p + 1 + j] == '"' by {
                    assert(s.skip(1)[p + j] == '"');
                }
                assert(quote_run_at(s, p + 1, k));
            }
        }
        lemma_fqr_offset(s.skip(1), k, i - 1);
        assert(s.skip(1).skip(i - 1) =~= s.skip(i));
    }
}

fn run_at(s: &str, p: usize, k: usize) -> (r: bool)
    requires
        p + k <= s@.len(),
    ensures
        r == quote_run_at(s@, p as int, k as nat),
{
    let n = s.unicode_len();
    let mut j: usize = 0;
    while j < k
        invariant
            n == s@.len(),
            p + k <= s@.len(),
            j <= k,
            forall|x: int| 0 <= x < j ==> #[trigger] s@[p + x] == '"',
        decreases k - j,
    {
        if s.get_char(p + j) != '"' {
            return false;
        }
        j += 1;
    }
    true
}

fn find_run(s: &str, k: usize) -> (r: Option<usize>)
    requires
        k >= 1,
    ensures
        match r {
            Some(p) => find_quote_run(s@, k as nat) == Some(p as int) && p + k <= s@.len(),
            None => find_quote_run(s@, k as nat) is None,
        },
{
    let n = s.unicode_len();
    if k > n {
        return None;
    }
    let mut i: usize = 0;
    while i <= n - k
        invariant
            n == s@.len(),
            1 <= k <= n,
            i <= n - k + 1,
            forall|p: int| 0 <= p < i ==> !quote_run_at(s@, p, k as nat),
        decreases n - i,
    {
        if run_at(s, i, k) {
            proof {
                lemma_fqr_offset(s@, k as nat, i as int);
                assert forall|j: int| 0 <= j < k implies #[trigger] s@.skip(i as int)[j]
                    == '"' by {
                    assert(s@[i + j] == '"');
                }
                assert(find_quote_run(s@.skip(i as int), k as nat) == Some(0int));
            }
            return Some(i);
        }
        i += 1;
    }
    proof {
        lemma_fqr_offset(s@, k as nat, i as int);
        assert(s@.skip(i as int).len() < k);
    }
    None
}

proof fn lemma_join_push(s: Seq<Seq<char>>, x: Seq<char>)
    ensures
        join_nl(s.push(x)) == if s.len() == 0 {
            x
        } else {
            join_nl(s) + seq!['\n'] + x
        },
    decreases s.len(),
{
    if s.len() == 0 {
        assert(s.push(x)[0] == x);
    } else if s.len() == 1 {
        assert(s.push(x)[0] == s[0]);
        assert(s.push(x).skip(1) =~= seq![x]);
        assert(seq![x].len() == 1);
        assert(seq![x][0] == x);
        assert(join_nl(seq![x]) == x);
        assert(join_nl(s) == s[0]);
        assert(join_nl(s.push(x)) == s[0] + seq!['\n'] + x);
    } else {
        assert(s.push(x)[0] == s[0]);
        assert(s.push(x).skip(1) =~= s.skip(1).push(x));
        lemma_join_push(s.skip(1), x);
        assert(s[0] + seq!['\n'] + (join_nl(s.skip(1)) + seq!['\n'] + x) =~= (s[0] + seq!['\n']
            + join_nl(s.skip(1))) + seq!['\n'] + x);
    }
}

/// Scans physical lines for the closing delimiter of a quoted block: a line
/// that is, after trimming, exactly the delimiter. Without one the block
/// runs to the end of input. Returns the newline-joined body and the index
/// of the first line after the block.
pub open spec fn tq_scan(lines: Seq<Seq<char>>, idx: int, q: nat, acc: Seq<Seq<char>>) -> (Seq<
    char,
>, int)
    decreases lines.len() - idx,
{
    if idx < 0 || idx >= lines.len() {
        (join_nl(acc), idx)
    } else if trim_spec(lines[idx]) == quote_run(q) {
        (join_nl(acc), idx + 1)
    } else {
        tq_scan(lines, idx + 1, q, acc.push(lines[idx]))
    }
}

proof fn lemma_tq_scan_bounds(lines: Seq<Seq<char>>, idx: int, q: nat, acc: Seq<Seq<char>>)
    requires
        0 <= idx <= lines.len(),
    ensures
        idx <= tq_scan(lines, idx, q, acc).1 <= lines.len(),
    decreases lines.len() - idx,
{
    if idx < lines.len() && trim_spec(lines[idx]) != quote_run(q) {
        lemma_tq_scan_bounds(lines, idx + 1, q, acc.push(lines[idx]));
    }
}

/// A quoted block headed by `head` on the line at `start_idx`: the opener is
/// three or more quote characters; the closer is exactly that many, on the
/// same line or alone on a later line.
pub open spec fn tq_block_spec(head: Seq<char>, lines: Seq<Seq<char>>, start_idx: int) -> Option<
    (Seq<char>, int),
> {
    let trimmed = trim_spec(head);
    let q = leading_quotes(trimmed);
    if q < 3 {
        None
    } else {
        let rest = trimmed.skip(q as int);
        match find_quote_run(rest, q) {
            Some(p) => Some((rest.take(p), start_idx + 1)),
            None => {
                let acc0 = if trim_spec(rest).len() == 0 {
                    Seq::<Seq<char>>::empty()
                } else {
                    seq![trim_end_spec(rest)]
                };
                Some(tq_scan(lines, start_idx + 1, q, acc0))
            },
        }
    }
}

/// Reads a quoted block opened on the line at `start_idx` whose (trimmed)
/// text is `head`; returns the block body and the index of the first line
/// after the block, or nothing if `head` opens no block.
pub fn parse_triple_quote_block(head: &str, lines: &Vec<&str>, start_idx: usize) -> (r: Option<
    (String, usize),
>)
    requires
        start_idx < lines@.len(),
    ensures
        match r {
            Some((content, next)) => {
                &&& tq_block_spec(head@, lines.deep_view(), start_idx as int) == Some(
                    (content@, next as int),
                )
                &&& start_idx < next <= lines@.len()
            },
            None => tq_block_spec(head@, lines.deep_view(), start_idx as int) is None,
        },
{
    let n = lines.len();
    let trimmed = trim_of(head);
    let q = count_leading_quotes(trimmed);
    if q < 3 {
        return None;
    }
    proof {
        lemma_leading_quotes_prefix(trimmed@);
    }
    let tn = trimmed.unicode_len();
    let rest = trimmed.substring_char(q, tn);
    proof {
        assert(rest@ =~= trim_spec(head@).skip(q as int));
    }
    if let Some(p) = find_run(rest, q) {
        let content = rest.substring_char(0, p).to_owned();
        proof {
            assert(content@ =~= rest@.take(p as int));
        }
        return Some((content, start_idx + 1));
    }
    let ghost lv = lines.deep_view();
    let ghost q_n = q as nat;
    let mut content: String;
    let mut any: bool;
    let ghost acc0 = if trim_spec(rest@).len() == 0 {
        Seq::<Seq<char>>::empty()
    } else {
        seq![trim_end_spec(rest@)]
    };
    if trim_of(rest).unicode_len() > 0 {
        content = trim_end_of(rest).to_owned();
        any = true;
        proof {
            assert(acc0 =~= seq![trim_end_spec(rest@)]);
            assert(join_nl(acc0) == trim_end_spec(rest@));
        }
    } else {
        content = String::new();
        any = false;
        proof {
            assert(join_nl(acc0) =~= Seq::<char>::empty());
        }
    }
    let ghost mut acc = acc0;
    let mut idx = start_idx + 1;
    while idx < n
        invariant
            n == lines@.len(),
            lv == lines.deep_view(),
            q_n == q as nat,
            q >= 3,
            start_idx + 1 <= idx <= n,
            content@ == join_nl(acc),
            any == (acc.len() > 0),
            tq_scan(lv, start_idx + 1, q_n, acc0) == tq_scan(lv, idx as int, q_n, acc),
            tq_block_spec(head@, lv, start_idx as int) == Some(
                tq_scan(lv, start_idx + 1, q_n, acc0),
            ),
        decreases n - idx,
    {
        let lt = trim_of(lines[idx]);
        let ltn = lt.unicode_len();
        proof {
            assert(lv[idx as int] == lines@[idx as int]@);
            lemma_leading_quotes_prefix(lt@);
        }
        let is_delim = ltn == q && count_leading_quotes(lt) == q;
        proof {
            if is_delim {
                assert(lt@ =~= quote_run(q_n));
            } else {
                assert(lt@ != quote_run(q_n)) by {
                    if lt@ == quote_run(q_n) {
                        assert(lt@.len() == q);
                        assert(forall|j: int| 0 <= j < q ==> lt@[j] == '"');
                        crate::text::lemma_leading_quotes(lt@, q as int);
                    }
                }
            }
        }
        if is_delim {
            return Some((content, idx + 1));
        }
        if any {
            content.append("\n");
            content.append(lines[idx]);
        } else {
            content = lines[idx].to_owned();
            any = true;
        }
        proof {
            lemma_join_push(acc, lv[idx as int]);
            reveal_strlit("\n");
            assert("\n"@ =~= seq!['\n']);
            acc = acc.push(lv[idx as int]);
            assert(content@ == join_nl(acc));
        }
        idx += 1;
    }
    proof {
        lemma_tq_scan_bounds(lv, start_idx + 1, q_n, acc0);
    }
    Some((content, idx))
}

proof fn lemma_tq_block_bounds(head: Seq<char>, lines: Seq<Seq<char>>, start_idx: int)
    requires
        0 <= start_idx < lines.len(),
    ensures
        tq_block_spec(head, lines, start_idx) matches Some((c, next)) ==> start_idx < next
            <= lines.len(),
{
    let trimmed = trim_spec(head);
    let q = leading_quotes(trimmed);
    if q >= 3 && find_quote_run(trimmed.skip(q as int), q) is None {
        let rest = trimmed.skip(q as int);
        let acc0 = if trim_spec(rest).len() == 0 {
            Seq::<Seq<char>>::empty()
        } else {
            seq![trim_end_spec(rest)]
        };
        lemma_tq_scan_bounds(lines, start_idx + 1, q, acc0);
    }
}

// --- single-character search -------------------------------------------

/// Position of the first occurrence of a character.
pub open spec fn find_char_spec(s: Seq<char>, c: char) -> Option<int>
    decreases s.len(),
{
    if s.len() == 0 {
        None
    } else if s[0] == c {
        Some(0)
    } else {
        match find_char_spec(s.skip(1), c) {
            Some(i) => Some(i + 1),
            None => None,
        }
    }
}

proof fn lemma_find_char_offset(s: Seq<char>, c: char, i: int)
    requires
        0 <= i <= s.len(),
        forall|j: int| 0 <= j < i ==> s[j] != c,
    ensures
        find_char_spec(s, c) == match find_char_spec(s.skip(i), c) {
            Some(p) => Some(p + i),
            None => None::<int>,
        },
    decreases i,
{
    if i == 0 {
        assert(s.skip(0) =~= s);
    } else {
        lemma_find_char_offset(s.skip(1), c, i - 1);
        assert(s.skip(1).skip(i - 1) =~= s.skip(i));
    }
}

/// First occurrence of a character, if any.
pub fn find_char(s: &str, c: char) -> (r: Option<usize>)
    ensures
        match r {
            Some(i) => find_char_spec(s@, c) == Some(i as int) && i < s@.len(),
            None => find_char_spec(s@, c) is None,
        },
{
    let n = s.unicode_len();
    let mut i: usize = 0;
    while i < n
        invariant
            n == s@.len(),
            i <= n,
            forall|j: int| 0 <= j < i ==> s@[j] != c,
        decreases n - i,
    {
        if s.get_char(i) == c {
            proof {
                lemma_find_char_offset(s@, c, i as int);
                assert(s@.skip(i as int)[0] == c);
            }
            return Some(i);
        }
        i += 1;
    }
    proof {
        lemma_find_char_offset(s@, c, i as int);
        assert(s@.skip(i as int).len() == 0);
    }
    None
}

// --- header-with-block directives --------------------------------------

/// The payload of a header-style directive: the trimmed inline payload, a
/// quoted block it opens, or a quoted block opened on the very next line
/// when the inline payload is empty.
pub open spec fn header_block_spec(payload: Seq<char>, lines: Seq<Seq<char>>, idx: int) -> Option<
    (Seq<char>, int),
> {
    let trimmed = trim_spec(payload);
    if trimmed.len() == 0 {
        if idx + 1 < lines.len() && leading_quotes(trim_spec(lines[idx + 1])) >= 3 {
            tq_block_spec(trim_spec(lines[idx + 1]), lines, idx + 1)
        } else {
            Some((Seq::empty(), idx + 1))
        }
    } else if leading_quotes(trimmed) >= 3 {
        tq_block_spec(trimmed, lines, idx)
    } else {
        Some((trimmed, idx + 1))
    }
}

proof fn lemma_header_block_bounds(payload: Seq<char>, lines: Seq<Seq<char>>, idx: int)
    requires
        0 <= idx < lines.len(),
    ensures
        header_block_spec(payload, lines, idx) matches Some((c, next)) ==> idx < next
            <= lines.len(),
{
    let trimmed = trim_spec(payload);
    if trimmed.len() == 0 {
        if idx + 1 < lines.len() && leading_quotes(trim_spec(lines[idx + 1])) >= 3 {
            lemma_tq_block_bounds(trim_spec(lines[idx + 1]), lines, idx + 1);
        }
    } else if leading_quotes(trimmed) >= 3 {
        lemma_tq_block_bounds(trimmed, lines, idx);
    }
}

/// Reads a header-style directive payload at line `idx`: either the inline
/// payload or the quoted block it opens (possibly on the next line).
pub fn parse_header_block(payload: &str, lines: &Vec<&str>, idx: usize) -> (r: Option<
    (String, usize),
>)
    requires
        idx < lines@.len(),
    ensures
        match r {
            Some((c, next)) => {
                &&& header_block_spec(payload@, lines.deep_view(), idx as int) == Some(
                    (c@, next as int),
                )
                &&& idx < next <= lines@.len()
            },
            None => header_block_spec(payload@, lines.deep_view(), idx as int) is None,
        },
{
    let n = lines.len();
    let trimmed = trim_of(payload);
    if trimmed.unicode_len() == 0 {
        if idx + 1 < n {
            let next_trimmed = trim_of(lines[idx + 1]);
            proof {
                assert(lines.deep_view()[idx + 1] == lines@[idx + 1]@);
            }
            if count_leading_quotes(next_trimmed) >= 3 {
                return parse_triple_quote_block(next_trimmed, lines, idx + 1);
            }
        }
        let empty_payload = String::new();
        proof {
            assert(empty_payload@ =~= Seq::<char>::empty());
        }
        return Some((empty_payload, idx + 1));
    }
    if count_leading_quotes(trimmed) >= 3 {
        return parse_triple_quote_block(trimmed, lines, idx);
    }
    Some((trimmed.to_owned(), idx + 1))
}

// --- reply blocks -------------------------------------------------------

/// A quoted block used as one reply item: kept only if non-blank.
pub open spec fn tq_emit(content: Seq<char>) -> Seq<Seq<char>> {
    if trim_spec(content).len() == 0 {
        Seq::empty()
    } else {
        seq![content]
    }
}

/// Items of a bare reply block: one item per non-blank line (a line opening
/// a quoted block contributes the whole block), until a terminator line or
/// the end of input. Returns the items and the index of the first line
/// after the block.
pub open spec fn reply_block_spec(lines: Seq<Seq<char>>, idx: int) -> (Seq<Seq<char>>, int)
    decreases lines.len() - idx,
{
    if idx < 0 || idx >= lines.len() {
        (Seq::empty(), idx)
    } else {
        let t = trim_spec(lines[idx]);
        if t.len() == 0 {
            reply_block_spec(lines, idx + 1)
        } else if lower(t) == "@end"@ {
            (Seq::empty(), idx + 1)
        } else if leading_quotes(t) >= 3 {
            match tq_block_spec(t, lines, idx) {
                Some((content, next)) => if idx < next <= lines.len() {
                    let r = reply_block_spec(lines, next);
                    (tq_emit(content) + r.0, r.1)
                } else {
                    (Seq::empty(), idx + 1)
                },
                None => (Seq::empty(), idx + 1),
            }
        } else {
            let r = reply_block_spec(lines, idx + 1);
            (seq![t] + r.0, r.1)
        }
    }
}

/// Reads the items of a bare reply block starting at `start_idx`.
pub fn parse_reply_block(lines: &Vec<&str>, start_idx: usize) -> (r: (Vec<String>, usize))
    requires
        start_idx <= lines@.len(),
    ensures
        reply_block_spec(lines.deep_view(), start_idx as int) == (r.0.deep_view(), r.1 as int),
        start_idx <= r.1 <= lines@.len(),
{
    let ghost lv = lines.deep_view();
    let n = lines.len();
    let mut items: Vec<String> = Vec::new();
    let mut idx = start_idx;
    proof {
        assert(items.deep_view() =~= Seq::<Seq<char>>::empty());
        assert(items.deep_view() + reply_block_spec(lv, idx as int).0 =~= reply_block_spec(
            lv,
            idx as int,
        ).0);
    }
    while idx < n
        invariant
            n == lines@.len(),
            lv == lines.deep_view(),
            start_idx <= idx <= n,
            reply_block_spec(lv, start_idx as int).0 == items.deep_view() + reply_block_spec(
                lv,
                idx as int,
            ).0,
            reply_block_spec(lv, start_idx as int).1 == reply_block_spec(lv, idx as int).1,
        decreases n - idx,
    {
        let ghost idx0 = idx as int;
        let t = trim_of(lines[idx]);
        proof {
            assert(lv[idx as int] == lines@[idx as int]@);
        }
        if t.unicode_len() == 0 {
            idx += 1;
            continue;
        }
        if eq_lower(t, "@end") {
            idx += 1;
            proof {
                assert(items.deep_view() + Seq::<Seq<char>>::empty() =~= items.deep_view());
            }
            return (items, idx);
        }
        if count_leading_quotes(t) >= 3 {
            proof {
                crate::text::lemma_trim_idem(lines@[idx as int]@);
                lemma_tq_block_bounds(t@, lv, idx as int);
            }
            match parse_triple_quote_block(t, lines, idx) {
                Some((content, next)) => {
                    let ghost old_dv = items.deep_view();
                    let ghost cv = content@;
                    let keep = trim_of(content.as_str()).unicode_len() > 0;
                    if keep {
                        items.push(content);
                        proof {
                            assert(tq_emit(cv) =~= seq![cv]);
                            assert(items.deep_view() =~= old_dv + seq![cv]);
                        }
                    } else {
                        proof {
                            assert(tq_emit(cv) =~= Seq::<Seq<char>>::empty());
                            assert(items.deep_view() =~= old_dv + tq_emit(cv));
                        }
                    }
                    proof {
                        assert(reply_block_spec(lv, idx0).0 == tq_emit(cv) + reply_block_spec(
                            lv,
                            next as int,
                        ).0);
                        assert(old_dv + (tq_emit(cv) + reply_block_spec(lv, next as int).0) =~= (
                        old_dv + tq_emit(cv)) + reply_block_spec(lv, next as int).0);
                    }
                    idx = next;
                },
                None => {
                    proof {
                        assert(false);
                    }
                },
            }
        } else {
            items.push(t.to_owned());
            proof {
                assert(items.deep_view() =~= items.deep_view().drop_last() + seq![t@]);
                assert(items.deep_view() + reply_block_spec(lv, idx0 + 1).0 =~= items.deep_view()
                    .drop_last() + (seq![t@] + reply_block_spec(lv, idx0 + 1).0));
            }
            idx += 1;
        }
    }
    (items, idx)
}

// --- the line parser ----------------------------------------------------

/// The statement marker a line may start with.
pub open spec fn statement_kind_of(c: char) -> Option<StatementKind> {
    if c == '>' {
        Some(StatementKind::Left)
    } else if c == '<' {
        Some(StatementKind::Right)
    } else if c == '-' {
        Some(StatementKind::Narration)
    } else {
        None
    }
}

/// The nodes of one continuation line.
pub open spec fn cont_node(ls: Seq<char>, line_no: usize) -> Seq<NodeV> {
    seq![NodeV::Continuation(ContinuationV { text: trim_end_spec(ls), line_no })]
}

/// The syntax nodes of the lines from `idx` on: one forward pass, first
/// matching classification wins, with block constructs consuming the lines
/// they span.
pub open spec fn parse_rec(lines: Seq<Seq<char>>, idx: int) -> Seq<NodeV>
    decreases lines.len() - idx,
{
    if idx < 0 || idx >= lines.len() {
        Seq::empty()
    } else {
        let line_no = (idx + 1) as usize;
        let raw = if idx == 0 {
            crate::text::strip_bom_spec(lines[0])
        } else {
            lines[idx]
        };
        let trimmed = trim_spec(raw);
        if trimmed.len() == 0 {
            seq![NodeV::BlankLine(BlankLine { line_no })] + parse_rec(lines, idx + 1)
        } else {
            let ls = trim_start_spec(raw);
            let lowered = lower(ls);
            if "//"@.is_prefix_of(ls) {
                parse_rec(lines, idx + 1)
            } else if "@reply:"@.is_prefix_of(lowered) {
                let payload = trim_spec(ls.skip(7));
                let items = split_reply_items_spec(payload);
                (if items.len() > 0 {
                    seq![NodeV::Reply(ReplyV { items, line_no })]
                } else {
                    Seq::empty()
                }) + parse_rec(lines, idx + 1)
            } else if lowered == "@reply"@ {
                let r = reply_block_spec(lines, idx + 1);
                let rest = if idx + 1 <= r.1 <= lines.len() {
                    parse_rec(lines, r.1)
                } else {
                    Seq::empty()
                };
                (if r.0.len() > 0 {
                    seq![NodeV::Reply(ReplyV { items: r.0, line_no })]
                } else {
                    Seq::empty()
                }) + rest
            } else if lowered == "@end"@ {
                parse_rec(lines, idx + 1)
            } else if "@bond"@.is_prefix_of(lowered) {
                let payload = match find_char_spec(ls, ':') {
                    Some(p) => trim_spec(ls.skip(p + 1)),
                    None => Seq::<char>::empty(),
                };
                match header_block_spec(payload, lines, idx) {
                    Some((content, next)) => {
                        let rest = if idx < next <= lines.len() {
                            parse_rec(lines, next)
                        } else {
                            Seq::empty()
                        };
                        seq![NodeV::Bond(BondV { content, line_no })] + rest
                    },
                    None => seq![NodeV::Bond(BondV { content: Seq::empty(), line_no })]
                        + parse_rec(lines, idx + 1),
                }
            } else if ls.len() > 0 && ls[0] == '@' {
                let rest0 = ls.skip(1);
                let np = match find_char_spec(rest0, ':') {
                    Some(p) => (trim_spec(rest0.take(p)), trim_spec(rest0.skip(p + 1))),
                    None => match find_char_spec(rest0, ' ') {
                        Some(p) => (trim_spec(rest0.take(p)), trim_spec(rest0.skip(p + 1))),
                        None => (trim_spec(rest0), Seq::<char>::empty()),
                    },
                };
                match header_block_spec(np.1, lines, idx) {
                    Some((payload_text, next)) => {
                        let rest = if idx < next <= lines.len() {
                            parse_rec(lines, next)
                        } else {
                            Seq::empty()
                        };
                        seq![NodeV::Directive(DirectiveV { name: np.0, payload: payload_text, line_no })]
                            + rest
                    },
                    None => seq![NodeV::Directive(DirectiveV { name: np.0, payload: np.1, line_no })]
                        + parse_rec(lines, idx + 1),
                }
            } else if ls.len() > 0 && statement_kind_of(ls[0]) is Some && ls.skip(1).len() > 0
                && is_ws_char(ls.skip(1)[0]) {
                let kind = statement_kind_of(ls[0])->Some_0;
                let rest2 = trim_start_spec(ls.skip(1));
                let sc = if kind == StatementKind::Narration {
                    (None::<Seq<char>>, trim_spec(rest2))
                } else {
                    match split_top_level_colon_spec(rest2) {
                        Some(p) => (Some(trim_spec(rest2.take(p))), trim_spec(rest2.skip(p + 1))),
                        None => (None::<Seq<char>>, trim_spec(rest2)),
                    }
                };
                match tq_block_spec(sc.1, lines, idx) {
                    Some((block_text, next)) => {
                        let rest = if idx < next <= lines.len() {
                            parse_rec(lines, next)
                        } else {
                            Seq::empty()
                        };
                        seq![NodeV::Statement(StatementV {
                            kind,
                            speaker: sc.0,
                            content: block_text,
                            line_no,
                        })] + rest
                    },
                    None => seq![NodeV::Statement(StatementV {
                        kind,
                        speaker: sc.0,
                        content: sc.1,
                        line_no,
                    })] + parse_rec(lines, idx + 1),
                }
            } else {
                cont_node(ls, line_no) + parse_rec(lines, idx + 1)
            }
        }
    }
}

/// The syntax nodes of a whole input text.
pub open spec fn parse_spec(s: Seq<char>) -> Seq<NodeV> {
    parse_rec(lines_spec(s), 0)
}

/// Parses raw input text into its ordered sequence of syntax nodes.
#[verifier::rlimit(60)]
pub fn parse(input: &str) -> (r: Vec<Node>)
    ensures
        node_views(r@) == parse_spec(input@),
{
    let lines = split_lines(input);
    let ghost lv = lines.deep_view();
    let n = lines.len();
    let mut nodes: Vec<Node> = Vec::new();
    let mut idx: usize = 0;
    proof {
        assert(node_views(nodes@) =~= Seq::<NodeV>::empty());
        assert(node_views(nodes@) + parse_rec(lv, 0) =~= parse_rec(lv, 0));
    }
    while idx < n
        invariant
            n == lines@.len(),
            lv == lines.deep_view(),
            lv == lines_spec(input@),
            idx <= n,
            parse_spec(input@) == node_views(nodes@) + parse_rec(lv, idx as int),
        decreases n - idx,
    {
        let ghost idx0 = idx as int;
        let ghost nodes0 = nodes@;
        let line_no = idx + 1;
        proof {
            assert(lv[idx0] == lines@[idx0]@);
            if idx == 0 {
                assert(lv[0] == lines@[0]@);
            }
        }
        let raw = if idx == 0 {
            crate::text::strip_bom_of(lines[0])
        } else {
            lines[idx]
        };
        let trimmed = trim_of(raw);
        if trimmed.unicode_len() == 0 {
            nodes.push(Node::BlankLine(BlankLine { line_no }));
            proof {
                assert(node_views(nodes@) =~= node_views(nodes0) + seq![NodeV::BlankLine(
                    BlankLine { line_no },
                )]);
            }
            idx += 1;
            continue;
        }
        proof {
            crate::text::lemma_lstrip_nonempty(raw@);
        }
        let ls = trim_start_of(raw);
        let lsn = ls.unicode_len();
        if starts_with(ls, "//") {
            idx += 1;
            continue;
        }
        if starts_with_lower(ls, "@reply:") {
            proof {
                reveal_strlit("@reply:");
                assert(lower(ls@).len() == ls@.len());
            }
            let payload = trim_of(ls.substring_char(7, lsn));
            proof {
                assert(ls@.subrange(7, ls@.len() as int) =~= ls@.skip(7));
            }
            let items = split_reply_items(payload);
            let ghost items_v = items.deep_view();
            if items.len() > 0 {
                nodes.push(Node::Reply(Reply { items, line_no }));
                proof {
                    assert(node_views(nodes@) =~= node_views(nodes0) + seq![NodeV::Reply(
                        ReplyV { items: items_v, line_no },
                    )]);
                }
            } else {
                proof {
                    assert(items_v.len() == 0);
                }
            }
            idx += 1;
            continue;
        }
        if eq_lower(ls, "@reply") {
            let (items, next) = parse_reply_block(&lines, idx + 1);
            let ghost items_v = items.deep_view();
            if items.len() > 0 {
                nodes.push(Node::Reply(Reply { items, line_no }));
                proof {
                    assert(node_views(nodes@) =~= node_views(nodes0) + seq![NodeV::Reply(
                        ReplyV { items: items_v, line_no },
                    )]);
                }
            }
            idx = next;
            continue;
        }
        if eq_lower(ls, "@end") {
            idx += 1;
            continue;
        }
        if starts_with_lower(ls, "@bond") {
            let mut owned_payload: String = String::new();
            let mut has_payload = false;
            if let Some(p) = find_char(ls, ':') {
                owned_payload = trim_of(ls.substring_char(p + 1, lsn)).to_owned();
                has_payload = true;
                proof {
                    assert(ls@.subrange(p + 1, ls@.len() as int) =~= ls@.skip(p + 1));
                }
            }
            proof {
                if !has_payload {
                    assert(owned_payload@ =~= Seq::<char>::empty());
                    assert(trim_spec(owned_payload@) =~= owned_payload@);
                }
            }
            match parse_header_block(owned_payload.as_str(), &lines, idx) {
                Some((content, next)) => {
                    let ghost cv = content@;
                    nodes.push(Node::Bond(Bond { content, line_no }));
                    proof {
                        assert(node_views(nodes@) =~= node_views(nodes0) + seq![NodeV::Bond(
                            BondV { content: cv, line_no },
                        )]);
                    }
                    idx = next;
                },
                None => {
                    let empty_content = String::new();
                    proof {
                        assert(empty_content@ =~= Seq::<char>::empty());
                    }
                    nodes.push(Node::Bond(Bond { content: empty_content, line_no }));
                    proof {
                        assert(node_views(nodes@) =~= node_views(nodes0) + seq![NodeV::Bond(
                            BondV { content: Seq::empty(), line_no },
                        )]);
                    }
                    idx += 1;
                },
            }
            continue;
        }
        let c0 = ls.get_char(0);
        if c0 == '@' {
            let rest0 = ls.substring_char(1, lsn);
            proof {
                assert(ls@.subrange(1, ls@.len() as int) =~= ls@.skip(1));
            }
            let rn = rest0.unicode_len();
            let name_s: String;
            let payload_s: String;
            if let Some(p) = find_char(rest0, ':') {
                name_s = trim_of(rest0.substring_char(0, p)).to_owned();
                payload_s = trim_of(rest0.substring_char(p + 1, rn)).to_owned();
                proof {
                    assert(rest0@.subrange(0, p as int) =~= rest0@.take(p as int));
                    assert(rest0@.subrange(p + 1, rest0@.len() as int) =~= rest0@.skip(p + 1));
                }
            } else if let Some(p) = find_char(rest0, ' ') {
                name_s = trim_of(rest0.substring_char(0, p)).to_owned();
                payload_s = trim_of(rest0.substring_char(p + 1, rn)).to_owned();
                proof {
                    assert(rest0@.subrange(0, p as int) =~= rest0@.take(p as int));
                    assert(rest0@.subrange(p + 1, rest0@.len() as int) =~= rest0@.skip(p + 1));
                }
            } else {
                name_s = trim_of(rest0).to_owned();
                payload_s = String::new();
                proof {
                    assert(payload_s@ =~= Seq::<char>::empty());
                }
            }
            match parse_header_block(payload_s.as_str(), &lines, idx) {
                Some((payload_text, next)) => {
                    let ghost pv = payload_text@;
                    let ghost nv = name_s@;
                    nodes.push(Node::Directive(Directive {
                        name: name_s,
                        payload: payload_text,
                        line_no,
                    }));
                    proof {
                        assert(node_views(nodes@) =~= node_views(nodes0) + seq![NodeV::Directive(
                            DirectiveV { name: nv, payload: pv, line_no },
                        )]);
                    }
                    idx = next;
                },
                None => {
                    let ghost pv = payload_s@;
                    let ghost nv = name_s@;
                    nodes.push(Node::Directive(Directive {
                        name: name_s,
                        payload: payload_s,
                        line_no,
                    }));
                    proof {
                        assert(node_views(nodes@) =~= node_views(nodes0) + seq![NodeV::Directive(
                            DirectiveV { name: nv, payload: pv, line_no },
                        )]);
                    }
                    idx += 1;
                },
            }
            continue;
        }
        let marker: Option<StatementKind> = if c0 == '>' {
            Some(StatementKind::Left)
        } else if c0 == '<' {
            Some(StatementKind::Right)
        } else if c0 == '-' {
            Some(StatementKind::Narration)
        } else {
            None
        };
        let qualifies = match marker {
            Some(_) => lsn > 1 && is_ws(ls.get_char(1)),
            None => false,
        };
        proof {
            assert(ls@.skip(1).len() > 0 <==> ls@.len() > 1);
            if ls@.len() > 1 {
                assert(ls@.skip(1)[0] == ls@[1]);
            }
        }
        if qualifies {
            let kind = marker.unwrap();
            let r0 = ls.substring_char(1, lsn);
            proof {
                assert(ls@.subrange(1, ls@.len() as int) =~= ls@.skip(1));
            }
            let rest2 = trim_start_of(r0);
            let speaker: Option<String>;
            let content_s: String;
            if kind == StatementKind::Narration {
                speaker = None;
                content_s = trim_of(rest2).to_owned();
            } else {
                match split_top_level_colon(rest2) {
                    Some((h, t)) => {
                        speaker = Some(trim_of(h).to_owned());
                        content_s = trim_of(t).to_owned();
                    },
                    None => {
                        speaker = None;
                        content_s = trim_of(rest2).to_owned();
                    },
                }
            }
            let ghost sv = opt_view(speaker);
            let ghost cv0 = content_s@;
            match parse_triple_quote_block(content_s.as_str(), &lines, idx) {
                Some((block_text, next)) => {
                    let ghost bv = block_text@;
                    nodes.push(Node::Statement(Statement {
                        kind,
                        speaker,
                        content: block_text,
                        line_no,
                    }));
                    proof {
                        assert(node_views(nodes@) =~= node_views(nodes0) + seq![NodeV::Statement(
                            StatementV { kind, speaker: sv, content: bv, line_no },
                        )]);
                    }
                    idx = next;
                },
                None => {
                    nodes.push(Node::Statement(Statement {
                        kind,
                        speaker,
                        content: content_s,
                        line_no,
                    }));
                    proof {
                        assert(node_views(nodes@) =~= node_views(nodes0) + seq![NodeV::Statement(
                            StatementV { kind, speaker: sv, content: cv0, line_no },
                        )]);
                    }
                    idx += 1;
                },
            }
            continue;
        }
        nodes.push(Node::Continuation(Continuation { text: trim_end_of(ls).to_owned(), line_no }));
        proof {
            assert(node_views(nodes@) =~= node_views(nodes0) + cont_node(ls@, line_no));
        }
        idx += 1;
    }
    proof {
        assert(parse_rec(lv, n as int) =~= Seq::<NodeV>::empty());
        assert(node_views(nodes@) + Seq::<NodeV>::empty() =~= node_views(nodes@));
    }
    nodes
}

} // verus!
