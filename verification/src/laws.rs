//! Global properties of the pipeline, stated and proved over the spec
//! models that the executable functions are verified against.
use vstd::prelude::*;
use crate::ast::{BlankLine, NodeV, StatementKind};
use crate::compiler::{attach_rec, compile_rec, compile_step, handle_blank_line_spec,
    handle_directive_spec, join_sep_spec, ref_count_spec, resolve_char_id_spec,
    resolve_speaker_spec, CompilerStateV};
use crate::parser::{find_quote_run, quote_run_at, tq_block_spec, tq_scan};
use crate::text::{join_nl, leading_quotes, lemma_leading_quotes, lower, quote_run, trim_spec};
use crate::types::{ChatLineV, MessageKind};

verus! {

// --- alias resolution is a function of the state ------------------------

/// Resolving the same raw speaker token twice in an unchanged state yields
/// the same canonical ID.
pub proof fn lemma_resolve_char_id_deterministic(
    st: CompilerStateV,
    tok: Seq<char>,
    r1: Seq<char>,
    r2: Seq<char>,
)
    requires
        r1 == resolve_char_id_spec(st, tok),
        r2 == resolve_char_id_spec(st, tok),
    ensures
        r1 == r2,
{
}

// --- back-references and unique-references ------------------------------

/// With at least two entries in a side's history, the token `_1` resolves
/// to the speaker immediately preceding the current one, and the bare
/// token `_` behaves identically.
pub proof fn lemma_back_reference(st: CompilerStateV, kind: StatementKind)
    requires
        kind == StatementKind::Left || kind == StatementKind::Right,
        (if kind == StatementKind::Right {
            st.right_history
        } else {
            st.left_history
        }).len() >= 2,
    ensures
        ({
            let hist = if kind == StatementKind::Right {
                st.right_history
            } else {
                st.left_history
            };
            &&& resolve_speaker_spec(st, Some("_1"@), kind) == (
                hist[hist.len() - 2],
                None::<Seq<char>>,
            )
            &&& resolve_speaker_spec(st, Some("_"@), kind) == resolve_speaker_spec(
                st,
                Some("_1"@),
                kind,
            )
        }),
{
    reveal_strlit("_1");
    reveal_strlit("_");
    assert("_1"@ =~= seq!['_', '1']);
    assert("_"@ =~= seq!['_']);
    assert("_1"@.skip(1) =~= seq!['1']);
    assert("_"@.skip(1) =~= Seq::<char>::empty());
    assert(crate::text::strip_plus(seq!['1']) =~= seq!['1']);
    assert(seq!['1'].drop_last() =~= Seq::<char>::empty());
    assert(seq!['1'].last() == '1');
    assert(crate::text::is_digit_char('1'));
    assert(crate::text::digit_val('1') == 1);
    assert(crate::text::digits_val(Seq::<char>::empty()) == 0);
    assert(crate::text::digits_val(seq!['1']) == 1);
    assert(forall|i: int| 0 <= i < seq!['1'].len() ==> crate::text::is_digit_char(seq!['1'][i]));
    assert(crate::text::parse_usize_spec(seq!['1']) == Some(1int));
    assert(ref_count_spec(seq!['1']) == 1);
    assert(ref_count_spec(Seq::<char>::empty()) == 1);
}

/// The token `~1` (and the bare `~`) resolves to the first distinct
/// speaker ever seen on the side, once one exists.
pub proof fn lemma_unique_reference(st: CompilerStateV, kind: StatementKind)
    requires
        kind == StatementKind::Left || kind == StatementKind::Right,
        (if kind == StatementKind::Right {
            st.right_unique
        } else {
            st.left_unique
        }).len() >= 1,
    ensures
        ({
            let uniq = if kind == StatementKind::Right {
                st.right_unique
            } else {
                st.left_unique
            };
            &&& resolve_speaker_spec(st, Some("~1"@), kind) == (uniq[0], None::<Seq<char>>)
            &&& resolve_speaker_spec(st, Some("~"@), kind) == resolve_speaker_spec(
                st,
                Some("~1"@),
                kind,
            )
        }),
{
    reveal_strlit("~1");
    reveal_strlit("~");
    assert("~1"@ =~= seq!['~', '1']);
    assert("~"@ =~= seq!['~']);
    assert("~1"@.skip(1) =~= seq!['1']);
    assert("~"@.skip(1) =~= Seq::<char>::empty());
    assert(crate::text::strip_plus(seq!['1']) =~= seq!['1']);
    assert(seq!['1'].drop_last() =~= Seq::<char>::empty());
    assert(seq!['1'].last() == '1');
    assert(crate::text::is_digit_char('1'));
    assert(crate::text::digit_val('1') == 1);
    assert(crate::text::digits_val(Seq::<char>::empty()) == 0);
    assert(crate::text::digits_val(seq!['1']) == 1);
    assert(forall|i: int| 0 <= i < seq!['1'].len() ==> crate::text::is_digit_char(seq!['1'][i]));
    assert(crate::text::parse_usize_spec(seq!['1']) == Some(1int));
    assert(ref_count_spec(seq!['1']) == 1);
    assert(ref_count_spec(Seq::<char>::empty()) == 1);
}

// --- quoted blocks round-trip -------------------------------------------

proof fn lemma_tq_scan_run(lines: Seq<Seq<char>>, i: int, end: int, q: nat, acc: Seq<Seq<char>>)
    requires
        0 <= i <= end < lines.len(),
        forall|j: int| i <= j < end ==> trim_spec(#[trigger] lines[j]) != quote_run(q),
        trim_spec(lines[end]) == quote_run(q),
    ensures
        tq_scan(lines, i, q, acc) == (join_nl(acc + lines.subrange(i, end)), end + 1),
    decreases end - i,
{
    if i == end {
        assert(acc + lines.subrange(i, end) =~= acc);
    } else {
        lemma_tq_scan_run(lines, i + 1, end, q, acc.push(lines[i]));
        assert(acc.push(lines[i]) + lines.subrange(i + 1, end) =~= acc + lines.subrange(i, end));
    }
}

/// A quoted block opened with three quotes alone on one line and closed by
/// the first later line that is exactly three quotes round-trips its
/// interior lines verbatim, newline-joined.
pub proof fn lemma_quoted_block_round_trip(lines: Seq<Seq<char>>, start: int, end: int)
    requires
        0 <= start < end < lines.len(),
        trim_spec(lines[start]) == quote_run(3),
        trim_spec(lines[end]) == quote_run(3),
        forall|j: int| start < j < end ==> trim_spec(#[trigger] lines[j]) != quote_run(3),
    ensures
        tq_block_spec(lines[start], lines, start) == Some(
            (join_nl(lines.subrange(start + 1, end)), end + 1),
        ),
{
    let t = trim_spec(lines[start]);
    crate::text::lemma_trim_idem(lines[start]);
    assert(forall|j: int| 0 <= j < 3 ==> quote_run(3nat)[j] == '"');
    lemma_leading_quotes(t, 3);
    assert(leading_quotes(t) == 3);
    let rest = t.skip(3);
    assert(rest =~= Seq::<char>::empty());
    assert(find_quote_run(rest, 3) is None);
    assert(trim_spec(rest).len() == 0);
    lemma_tq_scan_run(lines, start + 1, end, 3, Seq::empty());
    assert(Seq::<Seq<char>>::empty() + lines.subrange(start + 1, end) =~= lines.subrange(
        start + 1,
        end,
    ));
}

// --- the usepack order grows at most once per alias ----------------------

/// A second identical `usepack` directive leaves the pack order unchanged:
/// an alias is appended to the order only the first time.
pub proof fn lemma_usepack_appends_once(st: CompilerStateV, d: crate::ast::DirectiveV)
    requires
        lower(trim_spec(d.name)) == "usepack"@,
    ensures
        ({
            let st1 = handle_directive_spec(st, d);
            let st2 = handle_directive_spec(st1, d);
            st2.pack_order == st1.pack_order
        }),
{
    reveal_strlit("title");
    reveal_strlit("usepack");
    assert("title"@.len() == 5 && "usepack"@.len() == 7);
    let parts = crate::compiler::ws_split_spec(d.payload);
    if parts.len() >= 3 && parts[1] == "as"@ {
        let st1 = handle_directive_spec(st, d);
        if !st.pack_order.contains(parts[2]) {
            assert(st1.pack_order == st.pack_order.push(parts[2]));
            assert(st1.pack_order[st.pack_order.len() as int] == parts[2]);
            assert(st1.pack_order.contains(parts[2]));
        } else {
            assert(st1.pack_order.contains(parts[2]));
        }
    }
}

// --- blank lines ---------------------------------------------------------

/// Blank lines have no effect in default mode, none without a preceding
/// chat line, and in the alternate mode append exactly one separator to
/// the preceding line's content.
pub proof fn lemma_blank_line_effect(st: CompilerStateV, b: BlankLine)
    ensures
        !st.options.typst_mode ==> handle_blank_line_spec(st, b) == st,
        st.chat.len() == 0 ==> handle_blank_line_spec(st, b) == st,
        st.options.typst_mode && st.chat.len() > 0 ==> {
            let st2 = handle_blank_line_spec(st, b);
            &&& st2.chat.len() == st.chat.len()
            &&& st2.chat.last().content == st.chat.last().content + join_sep_spec(st.options)
        },
{
}

// --- chat lines come from statements only --------------------------------

/// Text and narration chat lines in a sequence.
pub open spec fn count_tn(chat: Seq<ChatLineV>) -> int
    decreases chat.len(),
{
    if chat.len() == 0 {
        0
    } else {
        count_tn(chat.drop_last()) + if chat.last().yuzutalk.msg_type == MessageKind::Text
            || chat.last().yuzutalk.msg_type == MessageKind::Narration {
            1int
        } else {
            0int
        }
    }
}

/// Statement nodes in a sequence.
pub open spec fn count_stmts(nodes: Seq<NodeV>) -> int
    decreases nodes.len(),
{
    if nodes.len() == 0 {
        0
    } else {
        count_stmts(nodes.drop_last()) + if nodes.last() is Statement {
            1int
        } else {
            0int
        }
    }
}

proof fn lemma_count_tn_push(chat: Seq<ChatLineV>, line: ChatLineV)
    ensures
        count_tn(chat.push(line)) == count_tn(chat) + if line.yuzutalk.msg_type
            == MessageKind::Text || line.yuzutalk.msg_type == MessageKind::Narration {
            1int
        } else {
            0int
        },
{
    assert(chat.push(line).drop_last() =~= chat);
}

proof fn lemma_count_tn_update_last(chat: Seq<ChatLineV>, v: ChatLineV)
    requires
        chat.len() > 0,
        v.yuzutalk.msg_type == chat.last().yuzutalk.msg_type,
    ensures
        count_tn(chat.update(chat.len() - 1, v)) == count_tn(chat),
{
    assert(chat.update(chat.len() - 1, v).drop_last() =~= chat.drop_last());
    assert(chat.update(chat.len() - 1, v).last() == v);
}

proof fn lemma_step_count(st: CompilerStateV, node: NodeV)
    ensures
        count_tn(compile_step(st, node).chat) == count_tn(st.chat) + if node is Statement {
            1int
        } else {
            0int
        },
{
    match node {
        NodeV::Statement(s) => {
            let st2 = crate::compiler::handle_statement_spec(st, s);
            lemma_count_tn_push(st.chat, st2.chat.last());
            assert(st2.chat.drop_last() =~= st.chat);
        },
        NodeV::Directive(d) => {
            let st2 = handle_directive_spec(st, d);
            if lower(trim_spec(d.name)) == "pagebreak"@ {
                lemma_count_tn_push(st.chat, crate::compiler::pagebreak_line_spec(d.line_no));
            }
        },
        NodeV::Continuation(c) => {
            let st2 = crate::compiler::handle_continuation_spec(st, c);
            if st.chat.len() > 0 {
                lemma_count_tn_update_last(
                    st.chat,
                    st2.chat[st.chat.len() - 1],
                );
            }
        },
        NodeV::BlankLine(b) => {
            let st2 = handle_blank_line_spec(st, b);
            if st.options.typst_mode && st.chat.len() > 0 {
                lemma_count_tn_update_last(
                    st.chat,
                    st2.chat[st.chat.len() - 1],
                );
            }
        },
        _ => {},
    }
}

proof fn lemma_compile_rec_count(st: CompilerStateV, nodes: Seq<NodeV>, i: int)
    requires
        0 <= i <= nodes.len(),
    ensures
        count_tn(compile_rec(st, nodes, i).chat) == count_tn(st.chat) + count_stmts(
            nodes.take(i),
        ),
    decreases i,
{
    if i > 0 {
        lemma_compile_rec_count(st, nodes, i - 1);
        lemma_step_count(compile_rec(st, nodes, i - 1), nodes[i - 1]);
        assert(nodes.take(i).drop_last() =~= nodes.take(i - 1));
        assert(nodes.take(i).last() == nodes[i - 1]);
    } else {
        assert(nodes.take(0) =~= Seq::<NodeV>::empty());
    }
}

proof fn lemma_attach_count(chat: Seq<ChatLineV>, i: int, cur: Option<Seq<char>>, typst: bool)
    requires
        0 <= i <= chat.len(),
    ensures
        count_tn(attach_rec(chat, i, cur, typst)) == count_tn(chat) - count_tn(chat.take(i)),
    decreases chat.len() - i,
{
    if i < chat.len() {
        let msg = chat[i];
        let cur2 = if msg.yuzutalk.msg_type == MessageKind::Text {
            msg.char_id
        } else {
            cur
        };
        if msg.yuzutalk.msg_type == MessageKind::Pagebreak {
            lemma_attach_count(chat, i + 1, cur, typst);
        } else {
            lemma_attach_count(chat, i + 1, cur2, typst);
        }
        assert(chat.take(i + 1).drop_last() =~= chat.take(i));
        assert(chat.take(i + 1).last() == chat[i]);
        let r = attach_rec(chat, i, cur, typst);
        assert(r.drop_first() =~= if msg.yuzutalk.msg_type == MessageKind::Pagebreak {
            attach_rec(chat, i + 1, cur, typst)
        } else {
            attach_rec(chat, i + 1, cur2, typst)
        });
        lemma_count_tn_first(r);
    } else {
        assert(chat.take(i) =~= chat);
    }
}

proof fn lemma_count_tn_first(chat: Seq<ChatLineV>)
    requires
        chat.len() > 0,
    ensures
        count_tn(chat) == count_tn(chat.drop_first()) + if chat[0].yuzutalk.msg_type
            == MessageKind::Text || chat[0].yuzutalk.msg_type == MessageKind::Narration {
            1int
        } else {
            0int
        },
    decreases chat.len(),
{
    if chat.len() == 1 {
        assert(chat.drop_first() =~= Seq::<ChatLineV>::empty());
        assert(chat.drop_last() =~= Seq::<ChatLineV>::empty());
    } else {
        lemma_count_tn_first(chat.drop_last());
        assert(chat.drop_last().drop_first() =~= chat.drop_first().drop_last());
        assert(chat.drop_first().last() == chat.last());
        assert(chat.drop_last()[0] == chat[0]);
    }
}

/// The number of text and narration chat lines in the finished document
/// equals the number of statement nodes the parser produced: blank lines
/// and continuations never add chat lines, and directives add only page
/// breaks.
pub proof fn lemma_statement_count(st0: CompilerStateV, nodes: Seq<NodeV>)
    requires
        st0.chat.len() == 0,
    ensures
        ({
            let stf = compile_rec(st0, nodes, nodes.len() as int);
            count_tn(attach_rec(stf.chat, 0, None, stf.options.typst_mode)) == count_stmts(nodes)
        }),
{
    lemma_compile_rec_count(st0, nodes, nodes.len() as int);
    assert(nodes.take(nodes.len() as int) =~= nodes);
    let stf = compile_rec(st0, nodes, nodes.len() as int);
    lemma_attach_count(stf.chat, 0, None, stf.options.typst_mode);
    assert(stf.chat.take(0) =~= Seq::<ChatLineV>::empty());
}

// --- the registry lists each character once ------------------------------

/// Registry entries carry pairwise distinct character IDs, never the
/// narrator stand-in, and never an ID already seen.
pub proof fn lemma_registry_distinct(
    chat: Seq<ChatLineV>,
    i: int,
    seen: Set<Seq<char>>,
    st: CompilerStateV,
)
    ensures
        ({
            let r = crate::compiler::registry_rec(chat, i, seen, st);
            &&& forall|a: int, b: int|
                0 <= a < b < r.len() ==> #[trigger] r[a].0 != #[trigger] r[b].0
            &&& forall|a: int|
                0 <= a < r.len() ==> #[trigger] r[a].0 != "__Sensei"@ && !seen.contains(r[a].0)
        }),
    decreases chat.len() - i,
{
    if 0 <= i < chat.len() {
        match chat[i].char_id {
            None => {
                lemma_registry_distinct(chat, i + 1, seen, st);
                    let r = crate::compiler::registry_rec(chat, i, seen, st);
                    let r2 = crate::compiler::registry_rec(chat, i + 1, seen, st);
                    assert(r == r2);
                    assert forall|a: int, b: int|
                        0 <= a < b < r.len() implies #[trigger] r[a].0 != #[trigger] r[b].0 by {
                        assert(r[a] == r2[a]);
                        assert(r[b] == r2[b]);
                    }
                    assert forall|a: int| 0 <= a < r.len() implies #[trigger] r[a].0
                        != "__Sensei"@ && !seen.contains(r[a].0) by {
                        assert(r[a] == r2[a]);
                    }
            },
            Some(cid) => {
                if cid == "__Sensei"@ || seen.contains(cid) {
                    lemma_registry_distinct(chat, i + 1, seen, st);
                    let r = crate::compiler::registry_rec(chat, i, seen, st);
                    let r2 = crate::compiler::registry_rec(chat, i + 1, seen, st);
                    assert(r == r2);
                    assert forall|a: int, b: int|
                        0 <= a < b < r.len() implies #[trigger] r[a].0 != #[trigger] r[b].0 by {
                        assert(r[a] == r2[a]);
                        assert(r[b] == r2[b]);
                    }
                    assert forall|a: int| 0 <= a < r.len() implies #[trigger] r[a].0
                        != "__Sensei"@ && !seen.contains(r[a].0) by {
                        assert(r[a] == r2[a]);
                    }
                } else {
                    lemma_registry_distinct(chat, i + 1, seen.insert(cid), st);
                    let r = crate::compiler::registry_rec(chat, i, seen, st);
                    let rest = crate::compiler::registry_rec(chat, i + 1, seen.insert(cid), st);
                    assert(crate::compiler::registry_entry_spec(st, cid).0 == cid);
                    assert(r[0].0 == cid);
                    assert(forall|a: int| 0 <= a < rest.len() ==> r[a + 1] == rest[a]);
                    assert(seen.insert(cid).contains(cid));
                    assert forall|a: int, b: int|
                        0 <= a < b < r.len() implies #[trigger] r[a].0 != #[trigger] r[b].0 by {
                        if a == 0 {
                            assert(r[b] == rest[b - 1]);
                            assert(!seen.insert(cid).contains(rest[b - 1].0));
                        } else {
                            assert(r[a] == rest[a - 1]);
                            assert(r[b] == rest[b - 1]);
                        }
                    }
                    assert forall|a: int| 0 <= a < r.len() implies #[trigger] r[a].0
                        != "__Sensei"@ && !seen.contains(r[a].0) by {
                        if a > 0 {
                            assert(r[a] == rest[a - 1]);
                            assert(!seen.insert(cid).contains(rest[a - 1].0));
                            assert(seen.contains(rest[a - 1].0) ==> seen.insert(cid).contains(
                                rest[a - 1].0,
                            ));
                        }
                    }
                }
            },
        }
    }
}

} // verus!