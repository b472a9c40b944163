//! The inline expression scanner: recognizes `(target)[query]` and
//! `[query](target)` forms inside message text, with backslash escaping,
//! and the post-processing that turns matches into output segments.
use vstd::prelude::*;
use crate::text::{is_ws, lower, push_char, starts_with, trim_of, trim_spec, trim_start_of,
    trim_start_spec};
use crate::types::{seg_views, Segment, SegmentV};

verus! {

/// A raw scanner fragment: literal text, or a candidate expression with the
/// exact original substring kept for fallback.
pub enum InlineSegment {
    Text(String),
    Expr { query: String, target: String, raw: String },
}

#[verifier::ext_equal]
pub ghost enum InlineSegV {
    Text(Seq<char>),
    Expr { query: Seq<char>, target: Seq<char>, raw: Seq<char> },
}

impl View for InlineSegment {
    type V = InlineSegV;

    open spec fn view(&self) -> InlineSegV {
        match self {
            InlineSegment::Text(t) => InlineSegV::Text(t@),
            InlineSegment::Expr { query, target, raw } => InlineSegV::Expr {
                query: query@,
                target: target@,
                raw: raw@,
            },
        }
    }
}

pub open spec fn iseg_views(s: Seq<InlineSegment>) -> Seq<InlineSegV> {
    s.map_values(|x: InlineSegment| x@)
}

// --- delimited content with escapes -------------------------------------

/// Content up to the closing delimiter, handling backslash escapes; the
/// escape character itself is kept only in preserve mode. Returns the
/// content and the index of the closing delimiter.
pub open spec fn parse_delimited_spec(s: Seq<char>, idx: int, close: char, preserve: bool) -> Option<
    (Seq<char>, int),
>
    decreases s.len() - idx,
{
    if idx < 0 || idx >= s.len() {
        None
    } else {
        let c = s[idx];
        if c == '\\' && idx + 1 < s.len() {
            match parse_delimited_spec(s, idx + 2, close, preserve) {
                Some((out, end)) => Some(
                    (
                        (if preserve {
                            seq!['\\']
                        } else {
                            Seq::empty()
                        }) + seq![s[idx + 1]] + out,
                        end,
                    ),
                ),
                None => None,
            }
        } else if c == close {
            Some((Seq::empty(), idx))
        } else {
            match parse_delimited_spec(s, idx + 1, close, preserve) {
                Some((out, end)) => Some((seq![c] + out, end)),
                None => None,
            }
        }
    }
}

pub proof fn lemma_pd_bounds(s: Seq<char>, idx: int, close: char, preserve: bool)
    ensures
        parse_delimited_spec(s, idx, close, preserve) matches Some((o, end)) ==> idx <= end
            < s.len(),
    decreases s.len() - idx,
{
    if 0 <= idx < s.len() {
        let c = s[idx];
        if c == '\\' && idx + 1 < s.len() {
            lemma_pd_bounds(s, idx + 2, close, preserve);
        } else if c != close {
            lemma_pd_bounds(s, idx + 1, close, preserve);
        }
    }
}

spec fn pd_prepend(pre: Seq<char>, r: Option<(Seq<char>, int)>) -> Option<(Seq<char>, int)> {
    match r {
        Some((o, e)) => Some((pre + o, e)),
        None => None,
    }
}

/// Scans for the closing delimiter from `idx`, decoding escapes.
pub fn parse_delimited(s: &str, idx: usize, close: char, preserve: bool) -> (r: Option<
    (String, usize),
>)
    ensures
        match r {
            Some((out, end)) => {
                &&& parse_delimited_spec(s@, idx as int, close, preserve) == Some(
                    (out@, end as int),
                )
                &&& idx <= end < s@.len()
            },
            None => parse_delimited_spec(s@, idx as int, close, preserve) is None,
        },
{
    let n = s.unicode_len();
    if idx >= n {
        return None;
    }
    let mut out = String::new();
    let mut i = idx;
    proof {
        assert(out@ =~= Seq::<char>::empty());
        assert(pd_prepend(out@, parse_delimited_spec(s@, idx as int, close, preserve))
            == parse_delimited_spec(s@, idx as int, close, preserve)) by {
            lemma_pd_prepend_empty(s@, idx as int, close, preserve);
        }
    }
    while i < n
        invariant
            n == s@.len(),
            idx <= i <= n,
            parse_delimited_spec(s@, idx as int, close, preserve) == pd_prepend(
                out@,
                parse_delimited_spec(s@, i as int, close, preserve),
            ),
        decreases n - i,
    {
        let c = s.get_char(i);
        if c == '\\' && i + 1 < n {
            let ghost out0 = out@;
            if preserve {
                push_char(&mut out, '\\');
            }
            push_char(&mut out, s.get_char(i + 1));
            proof {
                assert(out@ =~= out0 + (if preserve {
                    seq!['\\']
                } else {
                    Seq::<char>::empty()
                }) + seq![s@[i + 1]]);
                lemma_pd_prepend_assoc(
                    out0,
                    (if preserve {
                        seq!['\\']
                    } else {
                        Seq::<char>::empty()
                    }) + seq![s@[i + 1]],
                    parse_delimited_spec(s@, i + 2, close, preserve),
                );
            }
            i = i + 2;
        } else if c == close {
            proof {
                assert(out@ + Seq::<char>::empty() =~= out@);
            }
            return Some((out, i));
        } else {
            let ghost out0 = out@;
            push_char(&mut out, c);
            proof {
                assert(out@ =~= out0 + seq![c]);
                lemma_pd_prepend_assoc(
                    out0,
                    seq![c],
                    parse_delimited_spec(s@, i + 1, close, preserve),
                );
            }
            i = i + 1;
        }
    }
    None
}

proof fn lemma_pd_prepend_empty(s: Seq<char>, idx: int, close: char, preserve: bool)
    ensures
        pd_prepend(Seq::empty(), parse_delimited_spec(s, idx, close, preserve))
            == parse_delimited_spec(s, idx, close, preserve),
{
    match parse_delimited_spec(s, idx, close, preserve) {
        Some((o, e)) => {
            assert(Seq::<char>::empty() + o =~= o);
        },
        None => {},
    }
}

proof fn lemma_pd_prepend_assoc(a: Seq<char>, b: Seq<char>, r: Option<(Seq<char>, int)>)
    ensures
        pd_prepend(a + b, r) == pd_prepend(a, pd_prepend(b, r)),
{
    match r {
        Some((o, e)) => {
            assert((a + b) + o =~= a + (b + o));
        },
        None => {},
    }
}

// --- the scanner --------------------------------------------------------

/// Whether a query carries the colon marker (after trimming).
pub open spec fn starts_colon(q: Seq<char>) -> bool {
    trim_spec(q).len() > 0 && trim_spec(q)[0] == ':'
}

pub open spec fn flush_buf(buf: Seq<char>) -> Seq<InlineSegV> {
    if buf.len() > 0 {
        seq![InlineSegV::Text(buf)]
    } else {
        Seq::empty()
    }
}

/// A `(target)[query]` match at `i`: returns the target, the query and the
/// index of the closing bracket.
pub open spec fn paren_match(s: Seq<char>, i: int, pb: bool) -> Option<(Seq<char>, Seq<char>, int)> {
    if 0 <= i < s.len() && s[i] == '(' {
        match parse_delimited_spec(s, i + 1, ')', pb) {
            Some((target, close_idx)) => if close_idx + 1 < s.len() && s[close_idx + 1] == '[' {
                match parse_delimited_spec(s, close_idx + 2, ']', pb) {
                    Some((query, end_idx)) => Some((target, query, end_idx)),
                    None => None,
                }
            } else {
                None
            },
            None => None,
        }
    } else {
        None
    }
}

/// A `[query](target)` match at `i` (the target part optional): returns the
/// query, the target and the index just after the whole match.
pub open spec fn brack_match(s: Seq<char>, i: int, pb: bool) -> Option<(Seq<char>, Seq<char>, int)> {
    if 0 <= i < s.len() && s[i] == '[' {
        match parse_delimited_spec(s, i + 1, ']', pb) {
            Some((query, close_idx)) => if close_idx + 1 < s.len() && s[close_idx + 1] == '(' {
                match parse_delimited_spec(s, close_idx + 2, ')', pb) {
                    Some((t, t_end)) => Some((query, t, t_end + 1)),
                    None => Some((query, Seq::empty(), close_idx + 1)),
                }
            } else {
                Some((query, Seq::empty(), close_idx + 1))
            },
            None => None,
        }
    } else {
        None
    }
}

proof fn lemma_paren_bounds(s: Seq<char>, i: int, pb: bool)
    ensures
        paren_match(s, i, pb) matches Some((t, q, e)) ==> i < e < s.len(),
{
    if 0 <= i < s.len() && s[i] == '(' {
        lemma_pd_bounds(s, i + 1, ')', pb);
        match parse_delimited_spec(s, i + 1, ')', pb) {
            Some((target, close_idx)) => {
                lemma_pd_bounds(s, close_idx + 2, ']', pb);
            },
            None => {},
        }
    }
}

proof fn lemma_brack_bounds(s: Seq<char>, i: int, pb: bool)
    ensures
        brack_match(s, i, pb) matches Some((q, t, e)) ==> i < e <= s.len(),
{
    if 0 <= i < s.len() && s[i] == '[' {
        lemma_pd_bounds(s, i + 1, ']', pb);
        match parse_delimited_spec(s, i + 1, ']', pb) {
            Some((query, close_idx)) => {
                lemma_pd_bounds(s, close_idx + 2, ')', pb);
            },
            None => {},
        }
    }
}

/// Fragments of message content from `i` on: literal text, and the two
/// inline expression forms, scanned left to right, non-overlapping, with a
/// mode-dependent colon gate that degrades a gated match to literal text.
pub open spec fn inline_rec(s: Seq<char>, i: int, buf: Seq<char>, rc: bool, pb: bool) -> Seq<
    InlineSegV,
>
    decreases s.len() - i,
{
    if i < 0 || i >= s.len() {
        flush_buf(buf)
    } else {
        let c = s[i];
        if c == '\\' && i + 1 < s.len() {
            inline_rec(
                s,
                i + 2,
                buf + (if pb {
                    seq!['\\']
                } else {
                    Seq::empty()
                }) + seq![s[i + 1]],
                rc,
                pb,
            )
        } else {
            match paren_match(s, i, pb) {
                Some((target, query, end_idx)) => {
                    let raw = s.subrange(i, end_idx + 1);
                    if end_idx + 1 <= i || end_idx >= s.len() {
                        flush_buf(buf)
                    } else if rc && !starts_colon(query) {
                        inline_rec(s, end_idx + 1, buf + raw, rc, pb)
                    } else {
                        flush_buf(buf) + seq![InlineSegV::Expr { query, target, raw }]
                            + inline_rec(s, end_idx + 1, Seq::empty(), rc, pb)
                    }
                },
                None => match brack_match(s, i, pb) {
                    Some((query, target, end_ex)) => {
                        let raw = s.subrange(i, end_ex);
                        if end_ex <= i || end_ex > s.len() {
                            flush_buf(buf)
                        } else if rc && !starts_colon(query) {
                            inline_rec(s, end_ex, buf + raw, rc, pb)
                        } else {
                            flush_buf(buf) + seq![InlineSegV::Expr { query, target, raw }]
                                + inline_rec(s, end_ex, Seq::empty(), rc, pb)
                        }
                    },
                    None => inline_rec(s, i + 1, buf.push(c), rc, pb),
                },
            }
        }
    }
}

pub open spec fn parse_inline_segments_spec(s: Seq<char>, rc: bool, pb: bool) -> Seq<InlineSegV> {
    inline_rec(s, 0, Seq::empty(), rc, pb)
}

fn starts_colon_exec(q: &str) -> (r: bool)
    ensures
        r == starts_colon(q@),
{
    let t = trim_of(q);
    t.unicode_len() > 0 && t.get_char(0) == ':'
}

/// Scans message content into raw fragments, left to right.
#[verifier::rlimit(60)]
pub fn parse_inline_segments(content: &str, require_colon_prefix: bool, preserve_backslash: bool) -> (r:
    Vec<InlineSegment>)
    ensures
        iseg_views(r@) == parse_inline_segments_spec(
            content@,
            require_colon_prefix,
            preserve_backslash,
        ),
{
    let rc = require_colon_prefix;
    let pb = preserve_backslash;
    let s = content;
    let n = s.unicode_len();
    let mut out: Vec<InlineSegment> = Vec::new();
    let mut buf = String::new();
    let mut i: usize = 0;
    proof {
        assert(iseg_views(out@) =~= Seq::<InlineSegV>::empty());
        assert(buf@ =~= Seq::<char>::empty());
        assert(iseg_views(out@) + inline_rec(s@, 0, buf@, rc, pb) =~= inline_rec(
            s@,
            0,
            buf@,
            rc,
            pb,
        ));
    }
    while i < n
        invariant
            n == s@.len(),
            i <= n,
            parse_inline_segments_spec(s@, rc, pb) == iseg_views(out@) + inline_rec(
                s@,
                i as int,
                buf@,
                rc,
                pb,
            ),
        decreases n - i,
    {
        let ghost out0 = out@;
        let ghost buf0 = buf@;
        let ghost i0 = i as int;
        let c = s.get_char(i);
        if c == '\\' && i + 1 < n {
            if pb {
                crate::text::push_char(&mut buf, '\\');
            }
            crate::text::push_char(&mut buf, s.get_char(i + 1));
            proof {
                assert(buf@ =~= buf0 + (if pb {
                    seq!['\\']
                } else {
                    Seq::<char>::empty()
                }) + seq![s@[i0 + 1]]);
            }
            i = i + 2;
            continue;
        }
        proof {
            lemma_paren_bounds(s@, i0, pb);
            lemma_brack_bounds(s@, i0, pb);
        }
        if c == '(' {
            if let Some((target, close_idx)) = parse_delimited(s, i + 1, ')', pb) {
                if close_idx + 1 < n && s.get_char(close_idx + 1) == '[' {
                    if let Some((query, end_idx)) = parse_delimited(s, close_idx + 2, ']', pb) {
                        let ghost qv = query@;
                        let ghost tv = target@;
                        let raw = s.substring_char(i, end_idx + 1).to_owned();
                        let ghost rawv = raw@;
                        if rc && !starts_colon_exec(query.as_str()) {
                            buf.append(raw.as_str());
                            proof {
                                assert(buf@ =~= buf0 + rawv);
                            }
                        } else {
                            if !buf.as_str().is_empty() {
                                out.push(InlineSegment::Text(buf));
                                buf = String::new();
                                proof {
                                    assert(iseg_views(out@) =~= iseg_views(out0) + flush_buf(
                                        buf0,
                                    ));
                                }
                            } else {
                                proof {
                                    assert(iseg_views(out@) =~= iseg_views(out0) + flush_buf(
                                        buf0,
                                    ));
                                }
                            }
                            let ghost out1 = out@;
                            out.push(InlineSegment::Expr { query, target, raw });
                            proof {
                                assert(buf@ =~= Seq::<char>::empty());
                                assert(iseg_views(out@) =~= iseg_views(out1) + seq![
                                    InlineSegV::Expr { query: qv, target: tv, raw: rawv },
                                ]);
                                assert(iseg_views(out@) =~= (iseg_views(out0) + flush_buf(buf0))
                                    + seq![InlineSegV::Expr { query: qv, target: tv, raw: rawv }]);
                                assert(iseg_views(out0) + (flush_buf(buf0) + seq![
                                    InlineSegV::Expr { query: qv, target: tv, raw: rawv },
                                ] + inline_rec(s@, end_idx + 1, Seq::empty(), rc, pb)) =~= (
                                iseg_views(out0) + flush_buf(buf0)) + seq![
                                    InlineSegV::Expr { query: qv, target: tv, raw: rawv },
                                ] + inline_rec(s@, end_idx + 1, Seq::empty(), rc, pb));
                            }
                        }
                        i = end_idx + 1;
                        continue;
                    }
                }
            }
        }
        if c == '[' {
            if let Some((query, close_idx)) = parse_delimited(s, i + 1, ']', pb) {
                let ghost qv = query@;
                let mut target = String::new();
                let mut end_ex = close_idx + 1;
                if end_ex < n && s.get_char(end_ex) == '(' {
                    if let Some((t, t_end)) = parse_delimited(s, end_ex + 1, ')', pb) {
                        target = t;
                        end_ex = t_end + 1;
                    }
                }
                proof {
                    assert(brack_match(s@, i0, pb) == Some((qv, target@, end_ex as int)));
                }
                let ghost tv = target@;
                let raw = s.substring_char(i, end_ex).to_owned();
                let ghost rawv = raw@;
                if rc && !starts_colon_exec(query.as_str()) {
                    buf.append(raw.as_str());
                    proof {
                        assert(buf@ =~= buf0 + rawv);
                    }
                } else {
                    if !buf.as_str().is_empty() {
                        out.push(InlineSegment::Text(buf));
                        buf = String::new();
                        proof {
                            assert(iseg_views(out@) =~= iseg_views(out0) + flush_buf(buf0));
                        }
                    } else {
                        proof {
                            assert(iseg_views(out@) =~= iseg_views(out0) + flush_buf(buf0));
                        }
                    }
                    let ghost out1 = out@;
                    out.push(InlineSegment::Expr { query, target, raw });
                    proof {
                        assert(buf@ =~= Seq::<char>::empty());
                        assert(iseg_views(out@) =~= iseg_views(out1) + seq![
                            InlineSegV::Expr { query: qv, target: tv, raw: rawv },
                        ]);
                        assert(iseg_views(out0) + (flush_buf(buf0) + seq![
                            InlineSegV::Expr { query: qv, target: tv, raw: rawv },
                        ] + inline_rec(s@, end_ex as int, Seq::empty(), rc, pb)) =~= (iseg_views(
                            out0,
                        ) + flush_buf(buf0)) + seq![
                            InlineSegV::Expr { query: qv, target: tv, raw: rawv },
                        ] + inline_rec(s@, end_ex as int, Seq::empty(), rc, pb));
                    }
                }
                i = end_ex;
                continue;
            }
        }
        crate::text::push_char(&mut buf, c);
        proof {
            assert(buf@ =~= buf0.push(c));
        }
        i += 1;
    }
    if !buf.as_str().is_empty() {
        let ghost out0 = out@;
        let ghost buf0 = buf@;
        out.push(InlineSegment::Text(buf));
        proof {
            assert(iseg_views(out@) =~= iseg_views(out0) + flush_buf(buf0));
        }
    } else {
        proof {
            assert(iseg_views(out@) + flush_buf(buf@) =~= iseg_views(out@));
        }
    }
    out
}

// --- post-processing into output segments -------------------------------

/// What one scanner fragment becomes in the output: a gated or malformed
/// expression degrades to literal text carrying the exact original span; a
/// well-formed one is normalized and its target resolved against the line's
/// contextual character.
pub open spec fn seg_out(seg: InlineSegV, current: Option<Seq<char>>, typst: bool) -> Seq<SegmentV> {
    match seg {
        InlineSegV::Text(t) => if t.len() > 0 {
            seq![SegmentV::Text { text: t }]
        } else {
            Seq::empty()
        },
        InlineSegV::Expr { query, target, raw } => {
            let q1 = trim_spec(query);
            let q = if q1.len() > 0 && q1[0] == ':' {
                trim_start_spec(q1.skip(1))
            } else {
                q1
            };
            if typst && !(q1.len() > 0 && q1[0] == ':') {
                seq![SegmentV::Text { text: raw }]
            } else if q.len() == 0 {
                seq![SegmentV::Text { text: raw }]
            } else if trim_spec(target).len() == 0 {
                match current {
                    Some(cid) => seq![SegmentV::Expr {
                        text: seq!['['] + q + seq![']'],
                        query: q,
                        target_char_id: cid,
                    }],
                    None => seq![SegmentV::Text { text: raw }],
                }
            } else {
                let tid = if "ba."@.is_prefix_of(target) {
                    target
                } else {
                    "ba."@ + target
                };
                seq![SegmentV::Expr {
                    text: seq!['['] + q + seq![']'],
                    query: q,
                    target_char_id: tid,
                }]
            }
        },
    }
}

pub open spec fn build_out(segs: Seq<InlineSegV>, current: Option<Seq<char>>, typst: bool) -> Seq<
    SegmentV,
>
    decreases segs.len(),
{
    if segs.len() == 0 {
        Seq::empty()
    } else {
        seg_out(segs[0], current, typst) + build_out(segs.skip(1), current, typst)
    }
}

/// The output segments of one chat line's content: the processed scanner
/// fragments, or one plain text segment holding the whole content when
/// nothing (or nothing non-empty) was scanned out.
pub open spec fn build_segments_spec(content: Seq<char>, current: Option<Seq<char>>, typst: bool) -> Seq<
    SegmentV,
> {
    let segs = parse_inline_segments_spec(content, typst, typst);
    if segs.len() == 0 {
        seq![SegmentV::Text { text: content }]
    } else {
        let out = build_out(segs, current, typst);
        if out.len() == 0 {
            seq![SegmentV::Text { text: content }]
        } else {
            out
        }
    }
}

pub open spec fn opt_str_view(o: Option<&str>) -> Option<Seq<char>> {
    match o {
        Some(s) => Some(s@),
        None => None,
    }
}

/// Builds the output segments of one chat line's content.
#[verifier::rlimit(60)]
pub fn build_segments(content: &str, current_char: Option<&str>, typst_mode: bool) -> (r: Vec<
    Segment,
>)
    ensures
        seg_views(r@) == build_segments_spec(content@, opt_str_view(current_char), typst_mode),
{
    let ghost cur = opt_str_view(current_char);
    let segs = parse_inline_segments(content, typst_mode, typst_mode);
    let ghost sv = iseg_views(segs@);
    if segs.len() == 0 {
        let r = vec![Segment::Text { text: content.to_owned() }];
        proof {
            assert(seg_views(r@) =~= seq![SegmentV::Text { text: content@ }]);
        }
        return r;
    }
    let mut out: Vec<Segment> = Vec::new();
    let mut k: usize = 0;
    proof {
        assert(seg_views(out@) =~= Seq::<SegmentV>::empty());
        assert(sv.skip(0) =~= sv);
        assert(seg_views(out@) + build_out(sv, cur, typst_mode) =~= build_out(
            sv,
            cur,
            typst_mode,
        ));
    }
    while k < segs.len()
        invariant
            sv == iseg_views(segs@),
            k <= segs@.len(),
            cur == opt_str_view(current_char),
            build_out(sv, cur, typst_mode) == seg_views(out@) + build_out(
                sv.skip(k as int),
                cur,
                typst_mode,
            ),
        decreases segs@.len() - k,
    {
        let ghost out0 = out@;
        proof {
            assert(sv.skip(k as int)[0] == sv[k as int]);
            assert(sv.skip(k as int).skip(1) =~= sv.skip(k + 1));
            assert(sv[k as int] == segs@[k as int]@);
        }
        match &segs[k] {
            InlineSegment::Text(t) => {
                if !t.as_str().is_empty() {
                    out.push(Segment::Text { text: t.clone() });
                    proof {
                        assert(seg_views(out@) =~= seg_views(out0) + seg_out(
                            sv[k as int],
                            cur,
                            typst_mode,
                        ));
                    }
                } else {
                    proof {
                        assert(seg_views(out@) + (seg_out(sv[k as int], cur, typst_mode)
                            + build_out(sv.skip(k + 1), cur, typst_mode)) =~= seg_views(out@)
                            + build_out(sv.skip(k + 1), cur, typst_mode));
                    }
                }
            },
            InlineSegment::Expr { query, target, raw } => {
                let q1 = trim_of(query.as_str());
                let q1n = q1.unicode_len();
                let gate = q1n > 0 && q1.get_char(0) == ':';
                let q: String = if gate {
                    trim_start_of(q1.substring_char(1, q1n)).to_owned()
                } else {
                    q1.to_owned()
                };
                proof {
                    assert(q1@.subrange(1, q1@.len() as int) =~= q1@.skip(1));
                }
                if (typst_mode && !gate) || q.as_str().is_empty() {
                    out.push(Segment::Text { text: raw.clone() });
                    proof {
                        assert(seg_views(out@) =~= seg_views(out0) + seg_out(
                            sv[k as int],
                            cur,
                            typst_mode,
                        ));
                    }
                } else {
                    let mut resolved: Option<String> = None;
                    if trim_of(target.as_str()).unicode_len() == 0 {
                        if let Some(cid) = current_char {
                            resolved = Some(cid.to_owned());
                        }
                    } else {
                        if crate::text::starts_with(target.as_str(), "ba.") {
                            resolved = Some(target.clone());
                        } else {
                            let mut t = String::new();
                            t.append("ba.");
                            t.append(target.as_str());
                            proof {
                                assert(t@ =~= Seq::<char>::empty() + "ba."@ + target@);
                                assert(Seq::<char>::empty() + "ba."@ + target@ =~= "ba."@
                                    + target@);
                            }
                            resolved = Some(t);
                        }
                    }
                    match resolved {
                        Some(tid) => {
                            let mut text = String::new();
                            crate::text::push_char(&mut text, '[');
                            text.append(q.as_str());
                            crate::text::push_char(&mut text, ']');
                            proof {
                                assert(text@ =~= seq!['['] + q@ + seq![']']);
                            }
                            out.push(Segment::Expr {
                                text,
                                query: q,
                                target_char_id: tid,
                            });
                            proof {
                                assert(seg_views(out@) =~= seg_views(out0) + seg_out(
                                    sv[k as int],
                                    cur,
                                    typst_mode,
                                ));
                            }
                        },
                        None => {
                            out.push(Segment::Text { text: raw.clone() });
                            proof {
                                assert(seg_views(out@) =~= seg_views(out0) + seg_out(
                                    sv[k as int],
                                    cur,
                                    typst_mode,
                                ));
                            }
                        },
                    }
                }
            },
        }
        proof {
            assert(seg_views(out0) + (seg_out(sv[k as int], cur, typst_mode) + build_out(
                sv.skip(k + 1),
                cur,
                typst_mode,
            )) =~= (seg_views(out0) + seg_out(sv[k as int], cur, typst_mode)) + build_out(
                sv.skip(k + 1),
                cur,
                typst_mode,
            ));
        }
        k += 1;
    }
    proof {
        assert(sv.skip(segs@.len() as int) =~= Seq::<InlineSegV>::empty());
        assert(seg_views(out@) + Seq::<SegmentV>::empty() =~= seg_views(out@));
    }
    if out.len() == 0 {
        let r = vec![Segment::Text { text: content.to_owned() }];
        proof {
            assert(seg_views(r@) =~= seq![SegmentV::Text { text: content@ }]);
        }
        return r;
    }
    out
}

} // verus!
