use mmt_rs::ast::Node;
use mmt_rs::compiler::{CompileOptions, CompilerState};
use mmt_rs::inline::build_segments;
use mmt_rs::parser::parse;
use mmt_rs::types::{MessageKind, Segment};

fn compile_default(text: &str) -> mmt_rs::types::MmtOutput {
    let nodes = parse(text);
    CompilerState::new_without_pack().compile(nodes)
}

fn compile_typst(text: &str) -> mmt_rs::types::MmtOutput {
    let nodes = parse(text);
    CompilerState::new_without_pack_with_options(CompileOptions {
        typst_mode: true,
        join_with_newline: true,
    })
    .compile(nodes)
}

#[test]
fn simple_statement_resolves_default_namespace() {
    let out = compile_default("> Alice: Hello");
    assert_eq!(out.chat.len(), 1);
    assert_eq!(out.chat[0].char_id.as_deref(), Some("ba.Alice"));
    assert_eq!(out.chat[0].content, "Hello");
    assert_eq!(out.chat[0].side.as_deref(), Some("left"));
    assert_eq!(out.chat[0].yuzutalk.msg_type, MessageKind::Text);
    assert_eq!(out.chat[0].line_no, 1);
}

#[test]
fn narration_and_right_side() {
    let out = compile_default("- just narration\n< Bob: hi");
    assert_eq!(out.chat.len(), 2);
    assert_eq!(out.chat[0].char_id, None);
    assert_eq!(out.chat[0].yuzutalk.msg_type, MessageKind::Narration);
    assert_eq!(out.chat[1].side.as_deref(), Some("right"));
    assert_eq!(out.chat[1].char_id.as_deref(), Some("ba.Bob"));
}

#[test]
fn statement_count_matches_lines() {
    let out = compile_default("> A: one\ncontinued\n\n- narr\n@title: x\n< B: two");
    let texts = out
        .chat
        .iter()
        .filter(|l| {
            l.yuzutalk.msg_type == MessageKind::Text
                || l.yuzutalk.msg_type == MessageKind::Narration
        })
        .count();
    assert_eq!(texts, 3);
}

#[test]
fn continuation_joins_with_newline() {
    let out = compile_default("> A: one\nmore text");
    assert_eq!(out.chat.len(), 1);
    assert_eq!(out.chat[0].content, "one\nmore text");
}

#[test]
fn blank_line_no_effect_in_default_mode() {
    let out = compile_default("> A: x\n\n> B: y");
    assert_eq!(out.chat.len(), 2);
    assert_eq!(out.chat[0].content, "x");
}

#[test]
fn blank_line_appends_separator_in_typst_mode() {
    let out = compile_typst("> A: x\n\n> B: y");
    assert_eq!(out.chat.len(), 2);
    assert_eq!(out.chat[0].content, "x\n");
}

#[test]
fn inline_expression_with_colon_gate() {
    let segs = build_segments("(ba.hina)[:smile]", None, true);
    assert_eq!(segs.len(), 1);
    match &segs[0] {
        Segment::Expr { text, query, target_char_id } => {
            assert_eq!(text, "[smile]");
            assert_eq!(query, "smile");
            assert_eq!(target_char_id, "ba.hina");
        }
        other => panic!("expected an expression, got {:?}", other),
    }
}

#[test]
fn gated_expression_without_colon_degrades_to_text() {
    let segs = build_segments("(ba.hina)[smile]", None, true);
    assert_eq!(segs.len(), 1);
    match &segs[0] {
        Segment::Text { text } => assert_eq!(text, "(ba.hina)[smile]"),
        other => panic!("expected literal text, got {:?}", other),
    }
}

#[test]
fn bracket_form_prepends_namespace() {
    let segs = build_segments("[hello](hina)", None, false);
    assert!(segs.iter().any(|s| matches!(
        s,
        Segment::Expr { target_char_id, .. } if target_char_id == "ba.hina"
    )));
}

#[test]
fn empty_target_uses_context_or_degrades() {
    let segs = build_segments("[wave]()", Some("ba.aru"), false);
    match &segs[0] {
        Segment::Expr { target_char_id, .. } => assert_eq!(target_char_id, "ba.aru"),
        other => panic!("expected an expression, got {:?}", other),
    }
    let segs2 = build_segments("[wave]()", None, false);
    match &segs2[0] {
        Segment::Text { text } => assert_eq!(text, "[wave]()"),
        other => panic!("expected literal text, got {:?}", other),
    }
}

#[test]
fn tmpalias_is_one_shot_and_cleared_by_other_speaker() {
    let out = compile_default(
        "@tmpalias Name=Nickname\n> Name: hi\n> Other: yo\n> Name: again",
    );
    assert_eq!(out.chat.len(), 3);
    assert_eq!(out.chat[0].yuzutalk.name_override, "Nickname");
    assert_eq!(out.chat[1].yuzutalk.name_override, "");
    assert_eq!(out.chat[2].yuzutalk.name_override, "");
}

#[test]
fn persistent_alias_applies_and_can_be_removed() {
    let out = compile_default("@alias A=Ace\n> A: one\n@alias A=\n> A: two");
    assert_eq!(out.chat[0].yuzutalk.name_override, "Ace");
    assert_eq!(out.chat[1].yuzutalk.name_override, "");
}

#[test]
fn usepack_appends_alias_once() {
    let out = compile_default("@usepack foo as bar\n@usepack foo as bar");
    assert_eq!(out.packs.order, vec!["bar".to_string()]);
    assert_eq!(out.packs.aliases.get("bar").map(|s| s.as_str()), Some("foo"));
}

#[test]
fn triple_quote_block_round_trips_interior() {
    let out = compile_default("> A: \"\"\"\nline1\n\nline2\n\"\"\"\n> B: after");
    assert_eq!(out.chat.len(), 2);
    assert_eq!(out.chat[0].content, "line1\n\nline2");
    assert_eq!(out.chat[1].content, "after");
}

#[test]
fn unterminated_block_runs_to_end_of_input() {
    let out = compile_default("> A: \"\"\"\nline1\nline2");
    assert_eq!(out.chat.len(), 1);
    assert_eq!(out.chat[0].content, "line1\nline2");
}

#[test]
fn back_reference_selects_previous_speaker() {
    let out = compile_default("> A: one\n> B: two\n> _1: three\n> _: four");
    assert_eq!(out.chat[2].char_id.as_deref(), Some("ba.A"));
    // after "three", history is [A, B, A]; `_` selects B
    assert_eq!(out.chat[3].char_id.as_deref(), Some("ba.B"));
}

#[test]
fn unique_reference_selects_first_seen() {
    let out = compile_default("> A: one\n> B: two\n> ~1: x\n> ~2: y");
    assert_eq!(out.chat[2].char_id.as_deref(), Some("ba.A"));
    assert_eq!(out.chat[3].char_id.as_deref(), Some("ba.B"));
}

#[test]
fn out_of_range_reference_falls_back_to_literal_token() {
    let out = compile_default("> ~9: hello");
    assert_eq!(out.chat[0].char_id.as_deref(), Some("ba.~9"));
}

#[test]
fn missing_speaker_reuses_current_or_narrator() {
    let out = compile_default("> hello\n> A: x\n> again");
    assert_eq!(out.chat[0].char_id.as_deref(), Some("__Sensei"));
    assert_eq!(out.chat[0].yuzutalk.name_override, "");
    assert_eq!(out.chat[2].char_id.as_deref(), Some("ba.A"));
}

#[test]
fn pagebreak_emits_chat_line_without_character() {
    let out = compile_default("@pagebreak");
    assert_eq!(out.chat.len(), 1);
    assert_eq!(out.chat[0].yuzutalk.msg_type, MessageKind::Pagebreak);
    assert_eq!(out.chat[0].char_id, None);
}

#[test]
fn title_and_asset_directives_fill_meta() {
    let out = compile_default("@title: My Story\n@asset.bg forest.png");
    assert_eq!(out.meta.get("title").map(|s| s.as_str()), Some("My Story"));
    assert_eq!(out.meta.get("asset.bg").map(|s| s.as_str()), Some("forest.png"));
}

#[test]
fn custom_chars_lists_each_id_once_excluding_narrator() {
    let out = compile_default("> n\n> A: one\n> B: two\n> A: three");
    let ids: Vec<&str> = out.custom_chars.iter().map(|c| c.0.as_str()).collect();
    assert_eq!(ids, vec!["ba.A", "ba.B"]);
}

#[test]
fn charid_registers_custom_character() {
    let out = compile_default("@charid ab Alice Bee\n> ab: hi");
    assert_eq!(out.chat[0].char_id.as_deref(), Some("custom-ab"));
    assert_eq!(
        out.custom_chars,
        vec![("custom-ab".to_string(), "uploaded".to_string(), "Alice Bee".to_string())]
    );
}

#[test]
fn reply_items_split_on_pipe() {
    let nodes = parse("@reply: a | b |");
    assert_eq!(nodes.len(), 1);
    match &nodes[0] {
        Node::Reply(r) => assert_eq!(r.items, vec!["a".to_string(), "b".to_string()]),
        other => panic!("expected a reply node, got {:?}", other),
    }
}

#[test]
fn comments_are_dropped_and_bom_stripped() {
    let nodes = parse("\u{feff}// comment\n> A: hi");
    assert_eq!(nodes.len(), 1);
    assert!(matches!(&nodes[0], Node::Statement(_)));
}

#[test]
fn directory_lookup_resolves_alias_and_avatar_path() {
    let nodes = parse("> Hina: hello");
    let mut st = CompilerState::new_without_pack();
    st.set_pack_v2_from_json(
        "pack-v2/ba",
        "pack-v2",
        "{\"Hina\": \"hina\"}",
        "{\"hina\": {\"avatar\": \"h.png\"}}",
    );
    let out = st.compile(nodes);
    assert_eq!(out.chat[0].char_id.as_deref(), Some("ba.hina"));
    assert_eq!(
        out.custom_chars,
        vec![("ba.hina".to_string(), "/ba/h.png".to_string(), "hina".to_string())]
    );
}

#[test]
fn unusable_directory_falls_back_to_default_namespace() {
    let nodes = parse("> Hina: hello");
    let mut st = CompilerState::new_without_pack();
    st.set_pack_v2_from_json("pack-v2/ba", "pack-v2", "{\"Hina\": \"hina\"}", "{}");
    let out = st.compile(nodes);
    assert_eq!(out.chat[0].char_id.as_deref(), Some("ba.Hina"));
}

#[test]
fn avatar_override_is_prefixed_and_attached() {
    let out = compile_default("@avatar A=face.png\n> A: hi");
    assert_eq!(out.chat[0].avatar_override.as_deref(), Some("asset:face.png"));
}

#[test]
fn colon_inside_brackets_does_not_split_speaker() {
    let out = compile_default("> [q:uery] rest: content");
    assert_eq!(out.chat[0].char_id.as_deref(), Some("ba.[q:uery] rest"));
    assert_eq!(out.chat[0].content, "content");
}

#[test]
fn display_name_is_cut_at_parenthesis() {
    let out = compile_default("@charid x Aru (New Year)\n> other (form): hi");
    // the ba-namespaced speaker's registry display is shortened
    let entry = out
        .custom_chars
        .iter()
        .find(|c| c.0 == "ba.other (form)")
        .expect("registry entry");
    assert_eq!(entry.2, "other");
}
