//! The compiler: a single forward pass over syntax nodes that resolves
//! speaker identities and aliases, dispatches directives, and accumulates
//! the output document, followed by a segment-attachment pass and a
//! character-registry pass.
use vstd::prelude::*;
use crate::ast::{opt_view, node_views, BlankLine, Continuation, Directive, Node, NodeV, Statement,
    StatementKind, StatementV, DirectiveV, ContinuationV};
use crate::inline::{build_segments, build_segments_spec};
use crate::strmap::{map_of, StrMap};
use crate::text::{is_ws, is_ws_char, lower, parse_usize, parse_usize_spec, push_char, starts_with,
    starts_with_lower, str_eq, to_lower, trim_of, trim_spec};
use crate::types::{seg_views, ChatLine, ChatLineV, MessageKind, MmtOutput, MmtOutputV, PackConfig,
    Segment, YuzuTalk, YuzuTalkV};
use crate::parser::find_char;

verus! {

/// The two compiler options: the alternate rendering mode and the
/// continuation join separator.
#[derive(Debug, Clone, Copy, PartialEq, Eq, Structural)]
pub struct CompileOptions {
    pub typst_mode: bool,
    pub join_with_newline: bool,
}

impl Default for CompileOptions {
    fn default() -> (r: Self)
        ensures
            r.typst_mode == false,
            r.join_with_newline == true,
    {
        CompileOptions { typst_mode: false, join_with_newline: true }
    }
}

/// The loaded character directory: its root path, the alias-to-ID map and
/// the ID-to-avatar map.
pub struct PackData {
    pub root: String,
    pub aliases_to_id: StrMap,
    pub id_to_avatar: StrMap,
}

#[verifier::ext_equal]
pub ghost struct PackDataV {
    pub root: Seq<char>,
    pub aliases_to_id: Map<Seq<char>, Seq<char>>,
    pub id_to_avatar: Map<Seq<char>, Seq<char>>,
}

impl View for PackData {
    type V = PackDataV;

    open spec fn view(&self) -> PackDataV {
        PackDataV {
            root: self.root@,
            aliases_to_id: map_of(self.aliases_to_id@),
            id_to_avatar: map_of(self.id_to_avatar@),
        }
    }
}

// --- word splitting and joining -----------------------------------------

pub open spec fn ws_emit(cur: Seq<char>) -> Seq<Seq<char>> {
    if cur.len() > 0 {
        seq![cur]
    } else {
        Seq::empty()
    }
}

/// Whitespace-separated words, no empties.
pub open spec fn ws_split_rec(s: Seq<char>, cur: Seq<char>) -> Seq<Seq<char>>
    decreases s.len(),
{
    if s.len() == 0 {
        ws_emit(cur)
    } else if is_ws_char(s[0]) {
        ws_emit(cur) + ws_split_rec(s.skip(1), Seq::empty())
    } else {
        ws_split_rec(s.skip(1), cur.push(s[0]))
    }
}

pub open spec fn ws_split_spec(s: Seq<char>) -> Seq<Seq<char>> {
    ws_split_rec(s, Seq::empty())
}

/// Splits a payload into whitespace-separated words.
pub fn ws_split(s: &str) -> (r: Vec<String>)
    ensures
        r.deep_view() == ws_split_spec(s@),
{
    let n = s.unicode_len();
    let mut out: Vec<String> = Vec::new();
    let mut st: usize = 0;
    let mut i: usize = 0;
    proof {
        assert(s@.subrange(0, 0) =~= Seq::<char>::empty());
        assert(s@.skip(0) =~= s@);
        assert(out.deep_view() =~= Seq::<Seq<char>>::empty());
    }
    while i < n
        invariant
            n == s@.len(),
            st <= i <= n,
            ws_split_spec(s@) == out.deep_view() + ws_split_rec(
                s@.skip(i as int),
                s@.subrange(st as int, i as int),
            ),
        decreases n - i,
    {
        let ghost cur = s@.subrange(st as int, i as int);
        let c = s.get_char(i);
        assert(s@.skip(i as int)[0] == c);
        if is_ws(c) {
            if i > st {
                let piece = s.substring_char(st, i);
                out.push(piece.to_owned());
                proof {
                    assert(out.deep_view() =~= out.deep_view().drop_last() + seq![piece@]);
                }
            }
            proof {
                assert(s@.skip(i as int).skip(1) =~= s@.skip(i + 1));
                assert(s@.subrange(i + 1, i + 1) =~= Seq::<char>::empty());
            }
            st = i + 1;
        } else {
            proof {
                assert(s@.skip(i as int).skip(1) =~= s@.skip(i + 1));
                assert(cur.push(c) =~= s@.subrange(st as int, i + 1));
            }
        }
        i += 1;
    }
    proof {
        assert(s@.skip(n as int) =~= Seq::<char>::empty());
    }
    if st < n {
        let piece = s.substring_char(st, n);
        out.push(piece.to_owned());
        proof {
            assert(out.deep_view() =~= out.deep_view().drop_last() + seq![piece@]);
        }
    }
    out
}

/// Words joined with one space between them.
pub open spec fn join_sp(ss: Seq<Seq<char>>) -> Seq<char>
    decreases ss.len(),
{
    if ss.len() == 0 {
        Seq::empty()
    } else if ss.len() == 1 {
        ss[0]
    } else {
        ss[0] + seq![' '] + join_sp(ss.skip(1))
    }
}

proof fn lemma_join_sp_push(s: Seq<Seq<char>>, x: Seq<char>)
    ensures
        join_sp(s.push(x)) == if s.len() == 0 {
            x
        } else {
            join_sp(s) + seq![' '] + x
        },
    decreases s.len(),
{
    if s.len() == 0 {
        assert(s.push(x)[0] == x);
    } else if s.len() == 1 {
        assert(s.push(x)[0] == s[0]);
        assert(s.push(x).skip(1) =~= seq![x]);
        assert(seq![x].len() == 1);
        assert(seq![x][0] == x);
        assert(join_sp(seq![x]) == x);
        assert(join_sp(s) == s[0]);
        assert(join_sp(s.push(x)) == s[0] + seq![' '] + x);
    } else {
        assert(s.push(x)[0] == s[0]);
        assert(s.push(x).skip(1) =~= s.skip(1).push(x));
        lemma_join_sp_push(s.skip(1), x);
        assert(s[0] + seq![' '] + (join_sp(s.skip(1)) + seq![' '] + x) =~= (s[0] + seq![' ']
            + join_sp(s.skip(1))) + seq![' '] + x);
    }
}

/// Joins words with one space between them.
pub fn join_words(v: &Vec<String>, from: usize) -> (r: String)
    requires
        from <= v@.len(),
    ensures
        r@ == join_sp(v.deep_view().skip(from as int)),
{
    let mut out = String::new();
    let mut i = from;
    let ghost vv = v.deep_view();
    let mut any = false;
    let ghost mut acc = Seq::<Seq<char>>::empty();
    proof {
        assert(out@ =~= join_sp(acc));
    }
    while i < v.len()
        invariant
            vv == v.deep_view(),
            from <= i <= vv.len(),
            acc =~= vv.subrange(from as int, i as int),
            out@ == join_sp(acc),
            any == (acc.len() > 0),
        decreases vv.len() - i,
    {
        proof {
            lemma_join_sp_push(acc, vv[i as int]);
        }
        if any {
            out.append(" ");
            out.append(v[i].as_str());
            proof {
                reveal_strlit(" ");
                assert(" "@ =~= seq![' ']);
            }
        } else {
            out = v[i].clone();
            any = true;
        }
        proof {
            acc = acc.push(vv[i as int]);
            assert(acc =~= vv.subrange(from as int, i + 1));
            assert(out@ == join_sp(acc));
        }
        i += 1;
    }
    proof {
        assert(vv.subrange(from as int, vv.len() as int) =~= vv.skip(from as int));
    }
    out
}

// --- display-name shortening --------------------------------------------

/// A display name cut at its first parenthesis (ASCII or fullwidth), then
/// trimmed: `"Aru (New Year)"` becomes `"Aru"`.
pub open spec fn base_name_spec(name: Seq<char>) -> Seq<char> {
    let t = trim_spec(name);
    let cut = match crate::parser::find_char_spec(t, '(') {
        Some(p) => t.take(p),
        None => match crate::parser::find_char_spec(t, '\u{ff08}') {
            Some(p) => t.take(p),
            None => t,
        },
    };
    trim_spec(cut)
}

/// Cuts a display name at its first parenthesis and trims it.
pub fn base_name(name: &str) -> (r: String)
    ensures
        r@ == base_name_spec(name@),
{
    let t = trim_of(name);
    let tn = t.unicode_len();
    let cut: &str = match find_char(t, '(') {
        Some(p) => t.substring_char(0, p),
        None => match find_char(t, '\u{ff08}') {
            Some(p) => t.substring_char(0, p),
            None => t,
        },
    };
    proof {
        assert(forall|p: int| 0 <= p <= t@.len() ==> t@.subrange(0, p) =~= t@.take(p));
    }
    trim_of(cut).to_owned()
}

// --- the compiler state -------------------------------------------------

/// The per-compilation state: accumulated output, options, the optional
/// character directory, and the identity-resolution state (aliases,
/// temporary aliases, per-side speaker history and first-seen order).
pub struct CompilerState {
    pub meta: StrMap,
    pub packs: PackConfig,
    pub chat: Vec<ChatLine>,
    pub custom_chars: Vec<(String, String, String)>,
    pub typst_global: String,
    options: CompileOptions,
    pack_v2_root: Option<String>,
    pack_v2_base_root: Option<String>,
    pack_ba: Option<PackData>,
    left_speaker: Option<String>,
    right_speaker: Option<String>,
    aliases: StrMap,
    tmp_aliases_pending: StrMap,
    tmp_aliases_active: Option<(String, String)>,
    alias_id_to_name: StrMap,
    custom_id_to_display: StrMap,
    current_avatar_override_by_char_id: StrMap,
    id_to_display: StrMap,
    left_history: Vec<String>,
    right_history: Vec<String>,
    left_unique_first_seen: Vec<String>,
    right_unique_first_seen: Vec<String>,
}

#[verifier::ext_equal]
pub ghost struct CompilerStateV {
    pub meta: Map<Seq<char>, Seq<char>>,
    pub pack_aliases: Map<Seq<char>, Seq<char>>,
    pub pack_order: Seq<Seq<char>>,
    pub chat: Seq<ChatLineV>,
    pub custom_chars: Seq<(Seq<char>, Seq<char>, Seq<char>)>,
    pub typst_global: Seq<char>,
    pub options: CompileOptions,
    pub pack_root: Option<Seq<char>>,
    pub base_root: Option<Seq<char>>,
    pub pack: Option<PackDataV>,
    pub left_speaker: Option<Seq<char>>,
    pub right_speaker: Option<Seq<char>>,
    pub aliases: Map<Seq<char>, Seq<char>>,
    pub tmp_pending: Map<Seq<char>, Seq<char>>,
    pub tmp_active: Option<(Seq<char>, Seq<char>)>,
    pub alias_ids: Map<Seq<char>, Seq<char>>,
    pub custom_display: Map<Seq<char>, Seq<char>>,
    pub avatar_overrides: Map<Seq<char>, Seq<char>>,
    pub id_to_display: Map<Seq<char>, Seq<char>>,
    pub left_history: Seq<Seq<char>>,
    pub right_history: Seq<Seq<char>>,
    pub left_unique: Seq<Seq<char>>,
    pub right_unique: Seq<Seq<char>>,
}

pub open spec fn opt_pair_view(o: Option<(String, String)>) -> Option<(Seq<char>, Seq<char>)> {
    match o {
        Some((a, b)) => Some((a@, b@)),
        None => None,
    }
}

pub open spec fn opt_pack_view(o: Option<PackData>) -> Option<PackDataV> {
    match o {
        Some(p) => Some(p@),
        None => None,
    }
}

pub open spec fn chat_views(chat: Seq<ChatLine>) -> Seq<ChatLineV> {
    Seq::new(chat.len(), |i: int| chat[i]@)
}

impl View for CompilerState {
    type V = CompilerStateV;

    closed spec fn view(&self) -> CompilerStateV {
        CompilerStateV {
            meta: map_of(self.meta@),
            pack_aliases: map_of(self.packs.aliases@),
            pack_order: self.packs.order.deep_view(),
            chat: chat_views(self.chat@),
            custom_chars: self.custom_chars.deep_view(),
            typst_global: self.typst_global@,
            options: self.options,
            pack_root: opt_view(self.pack_v2_root),
            base_root: opt_view(self.pack_v2_base_root),
            pack: opt_pack_view(self.pack_ba),
            left_speaker: opt_view(self.left_speaker),
            right_speaker: opt_view(self.right_speaker),
            aliases: map_of(self.aliases@),
            tmp_pending: map_of(self.tmp_aliases_pending@),
            tmp_active: opt_pair_view(self.tmp_aliases_active),
            alias_ids: map_of(self.alias_id_to_name@),
            custom_display: map_of(self.custom_id_to_display@),
            avatar_overrides: map_of(self.current_avatar_override_by_char_id@),
            id_to_display: map_of(self.id_to_display@),
            left_history: self.left_history.deep_view(),
            right_history: self.right_history.deep_view(),
            left_unique: self.left_unique_first_seen.deep_view(),
            right_unique: self.right_unique_first_seen.deep_view(),
        }
    }
}

/// A fresh compilation state, before any directory is attached.
pub open spec fn init_state(options: CompileOptions) -> CompilerStateV {
    CompilerStateV {
        meta: Map::empty(),
        pack_aliases: Map::empty(),
        pack_order: Seq::empty(),
        chat: Seq::empty(),
        custom_chars: Seq::empty(),
        typst_global: Seq::empty(),
        options,
        pack_root: None,
        base_root: None,
        pack: None,
        left_speaker: None,
        right_speaker: None,
        aliases: Map::empty(),
        tmp_pending: Map::empty(),
        tmp_active: None,
        alias_ids: Map::empty(),
        custom_display: Map::empty(),
        avatar_overrides: Map::empty(),
        id_to_display: Map::empty(),
        left_history: Seq::empty(),
        right_history: Seq::empty(),
        left_unique: Seq::empty(),
        right_unique: Seq::empty(),
    }
}

// --- identity resolution ------------------------------------------------

/// The canonical character ID of a raw token: alias-ID substitution first;
/// already-namespaced tokens unchanged; registered custom IDs get the
/// custom marker; directory hits get the external-pack marker; anything
/// else is namespaced into the external pack by default.
pub open spec fn resolve_char_id_spec(st: CompilerStateV, name: Seq<char>) -> Seq<char> {
    let t0 = trim_spec(name);
    let token = if st.alias_ids.contains_key(t0) {
        st.alias_ids[t0]
    } else {
        t0
    };
    if "ba."@.is_prefix_of(token) {
        token
    } else if "custom-"@.is_prefix_of(token) {
        token
    } else if st.custom_display.contains_key(token) {
        "custom-"@ + token
    } else if st.pack matches Some(p) && p.aliases_to_id.contains_key(token) {
        "ba."@ + (st.pack->Some_0).aliases_to_id[token]
    } else {
        "ba."@ + token
    }
}

/// The display name a character ID falls back to: custom IDs resolve
/// through the custom display map, external-pack IDs shorten their bare
/// name, and the narrator stand-in has a fixed name.
pub open spec fn display_for_id_spec(st: CompilerStateV, id: Seq<char>) -> Seq<char> {
    if "custom-"@.is_prefix_of(id) {
        let raw = id.skip(7);
        if st.custom_display.contains_key(raw) {
            st.custom_display[raw]
        } else {
            raw
        }
    } else if "ba."@.is_prefix_of(id) {
        base_name_spec(id.skip(3))
    } else if id == "__Sensei"@ {
        "Sensei"@
    } else {
        id
    }
}

/// The count a back-reference or unique-reference token carries: a missing
/// or unparsable count defaults to one.
pub open spec fn ref_count_spec(rest: Seq<char>) -> int {
    if rest.len() == 0 {
        1
    } else {
        match parse_usize_spec(rest) {
            Some(v) => v,
            None => 1,
        }
    }
}

/// The resolved speaker of a statement and an optional explicit display
/// name: back-references select by recency, unique-references by
/// first-appearance order, ordinary tokens resolve to a canonical ID, and
/// a missing token reuses the side's current speaker or the narrator
/// stand-in.
pub open spec fn resolve_speaker_spec(
    st: CompilerStateV,
    speaker: Option<Seq<char>>,
    kind: StatementKind,
) -> (Seq<char>, Option<Seq<char>>) {
    let hist = if kind == StatementKind::Right {
        st.right_history
    } else {
        st.left_history
    };
    let uniq = if kind == StatementKind::Right {
        st.right_unique
    } else {
        st.left_unique
    };
    match speaker {
        Some(sp) => {
            let back: Option<Seq<char>> = if sp.len() > 0 && sp[0] == '_' {
                let n = ref_count_spec(sp.skip(1));
                if n > 0 && hist.len() >= n + 1 {
                    Some(hist[hist.len() - (n + 1)])
                } else if hist.len() > 0 {
                    Some(hist.last())
                } else {
                    None
                }
            } else {
                None
            };
            match back {
                Some(id) => (id, None),
                None => {
                    let uref: Option<Seq<char>> = if sp.len() > 0 && sp[0] == '~' {
                        let n = ref_count_spec(sp.skip(1));
                        if n > 0 && uniq.len() >= n {
                            Some(uniq[n - 1])
                        } else {
                            None
                        }
                    } else {
                        None
                    };
                    match uref {
                        Some(id) => (id, None),
                        None => {
                            let id = resolve_char_id_spec(st, sp);
                            (id, Some(display_for_id_spec(st, id)))
                        },
                    }
                },
            }
        },
        None => {
            let current = if kind == StatementKind::Left {
                st.left_speaker
            } else if kind == StatementKind::Right {
                st.right_speaker
            } else {
                None
            };
            match current {
                Some(id) => (id, None),
                None => ("__Sensei"@, Some("Sensei"@)),
            }
        },
    }
}

/// History update on a resolved statement: consecutive repeats collapse in
/// the history; the first-seen list records each ID once.
pub open spec fn push_hist(h: Seq<Seq<char>>, id: Seq<char>) -> Seq<Seq<char>> {
    if h.len() == 0 || h.last() != id {
        h.push(id)
    } else {
        h
    }
}

pub open spec fn push_unique(u: Seq<Seq<char>>, id: Seq<char>) -> Seq<Seq<char>> {
    if u.contains(id) {
        u
    } else {
        u.push(id)
    }
}

pub open spec fn update_history_spec(st: CompilerStateV, right: bool, id: Seq<char>) -> CompilerStateV {
    if right {
        CompilerStateV {
            right_history: push_hist(st.right_history, id),
            right_unique: push_unique(st.right_unique, id),
            ..st
        }
    } else {
        CompilerStateV {
            left_history: push_hist(st.left_history, id),
            left_unique: push_unique(st.left_unique, id),
            ..st
        }
    }
}

// --- node handling, in spec --------------------------------------------

pub open spec fn pagebreak_line_spec(line_no: usize) -> ChatLineV {
    ChatLineV {
        char_id: None,
        content: Seq::empty(),
        line_no,
        segments: Seq::empty(),
        side: None,
        avatar_override: None,
        yuzutalk: YuzuTalkV {
            avatar_state: "AUTO"@,
            name_override: Seq::empty(),
            msg_type: MessageKind::Pagebreak,
        },
    }
}

pub open spec fn narration_line_spec(sv: StatementV) -> ChatLineV {
    ChatLineV {
        char_id: None,
        content: sv.content,
        line_no: sv.line_no,
        segments: Seq::empty(),
        side: None,
        avatar_override: None,
        yuzutalk: YuzuTalkV {
            avatar_state: "AUTO"@,
            name_override: Seq::empty(),
            msg_type: MessageKind::Narration,
        },
    }
}

/// Directive dispatch by lower-cased name; a malformed payload leaves the
/// state unchanged, an unrecognized name is ignored unless it carries the
/// asset namespace, which is stored into the metadata verbatim.
pub open spec fn handle_directive_spec(st: CompilerStateV, d: DirectiveV) -> CompilerStateV {
    let name = lower(trim_spec(d.name));
    if name == "title"@ {
        CompilerStateV { meta: st.meta.insert("title"@, d.payload), ..st }
    } else if name == "usepack"@ {
        let parts = ws_split_spec(d.payload);
        if parts.len() >= 3 && parts[1] == "as"@ {
            let st1 = CompilerStateV {
                pack_aliases: st.pack_aliases.insert(parts[2], parts[0]),
                ..st
            };
            if st.pack_order.contains(parts[2]) {
                st1
            } else {
                CompilerStateV { pack_order: st1.pack_order.push(parts[2]), ..st1 }
            }
        } else {
            st
        }
    } else if name == "alias"@ {
        match crate::parser::find_char_spec(d.payload, '=') {
            Some(p) => {
                let cid = resolve_char_id_spec(st, trim_spec(d.payload.take(p)));
                let val = trim_spec(d.payload.skip(p + 1));
                if val.len() > 0 {
                    CompilerStateV { aliases: st.aliases.insert(cid, val), ..st }
                } else {
                    CompilerStateV { aliases: st.aliases.remove(cid), ..st }
                }
            },
            None => st,
        }
    } else if name == "tmpalias"@ {
        match crate::parser::find_char_spec(d.payload, '=') {
            Some(p) => {
                let cid = resolve_char_id_spec(st, trim_spec(d.payload.take(p)));
                let val = trim_spec(d.payload.skip(p + 1));
                CompilerStateV { tmp_pending: st.tmp_pending.insert(cid, val), ..st }
            },
            None => st,
        }
    } else if name == "aliasid"@ {
        let parts = ws_split_spec(d.payload);
        if parts.len() >= 2 {
            let aid = parts[0];
            let nv = join_sp(parts.skip(1));
            if trim_spec(aid).len() > 0 && trim_spec(nv).len() > 0 {
                CompilerStateV { alias_ids: st.alias_ids.insert(aid, nv), ..st }
            } else {
                st
            }
        } else {
            st
        }
    } else if name == "unaliasid"@ {
        let aid = trim_spec(d.payload);
        if aid.len() > 0 {
            CompilerStateV { alias_ids: st.alias_ids.remove(aid), ..st }
        } else {
            st
        }
    } else if name == "charid"@ {
        let parts = ws_split_spec(d.payload);
        if parts.len() >= 2 {
            let cid = parts[0];
            let display = join_sp(parts.skip(1));
            if trim_spec(cid).len() > 0 && trim_spec(display).len() > 0 {
                CompilerStateV { custom_display: st.custom_display.insert(cid, display), ..st }
            } else {
                st
            }
        } else {
            st
        }
    } else if name == "uncharid"@ {
        let cid = trim_spec(d.payload);
        if cid.len() > 0 {
            CompilerStateV { custom_display: st.custom_display.remove(cid), ..st }
        } else {
            st
        }
    } else if name == "avatar"@ {
        match crate::parser::find_char_spec(d.payload, '=') {
            Some(p) => {
                let cid = resolve_char_id_spec(st, trim_spec(d.payload.take(p)));
                let asset0 = trim_spec(d.payload.skip(p + 1));
                if asset0.len() == 0 {
                    CompilerStateV { avatar_overrides: st.avatar_overrides.remove(cid), ..st }
                } else {
                    let asset = if "asset:"@.is_prefix_of(lower(asset0)) {
                        asset0
                    } else {
                        "asset:"@ + asset0
                    };
                    CompilerStateV { avatar_overrides: st.avatar_overrides.insert(cid, asset), ..st }
                }
            },
            None => st,
        }
    } else if name == "pagebreak"@ {
        CompilerStateV { chat: st.chat.push(pagebreak_line_spec(d.line_no)), ..st }
    } else if "asset."@.is_prefix_of(name) {
        CompilerStateV { meta: st.meta.insert(name, d.payload), ..st }
    } else {
        st
    }
}

/// A narration statement emits a narration line with no speaker and no
/// history change; a left or right statement resolves its speaker, updates
/// the side's state and the alias layering, and emits a text line.
pub open spec fn handle_statement_spec(st: CompilerStateV, sv: StatementV) -> CompilerStateV {
    if sv.kind == StatementKind::Narration {
        CompilerStateV { chat: st.chat.push(narration_line_spec(sv)), ..st }
    } else {
        let right = sv.kind == StatementKind::Right;
        let rs = resolve_speaker_spec(st, sv.speaker, sv.kind);
        let id = rs.0;
        let st1 = if right {
            CompilerStateV { right_speaker: Some(id), ..st }
        } else {
            CompilerStateV { left_speaker: Some(id), ..st }
        };
        let st2 = update_history_spec(st1, right, id);
        let st3 = match rs.1 {
            Some(d) => CompilerStateV { id_to_display: st2.id_to_display.insert(id, d), ..st2 },
            None => st2,
        };
        let st4 = if st3.tmp_active matches Some(a) && a.0 != id {
            CompilerStateV { tmp_active: None, ..st3 }
        } else {
            st3
        };
        let st5 = if st4.tmp_pending.contains_key(id) {
            CompilerStateV {
                tmp_active: Some((id, st4.tmp_pending[id])),
                tmp_pending: st4.tmp_pending.remove(id),
                ..st4
            }
        } else {
            st4
        };
        let name_override = match st5.tmp_active {
            Some(a) => if a.0 == id {
                a.1
            } else {
                Seq::empty()
            },
            None => if st5.aliases.contains_key(id) {
                st5.aliases[id]
            } else {
                Seq::empty()
            },
        };
        let avatar = if st5.avatar_overrides.contains_key(id) {
            Some(st5.avatar_overrides[id])
        } else {
            None
        };
        let line = ChatLineV {
            char_id: Some(id),
            content: sv.content,
            line_no: sv.line_no,
            segments: Seq::empty(),
            side: Some(
                if right {
                    "right"@
                } else {
                    "left"@
                },
            ),
            avatar_override: avatar,
            yuzutalk: YuzuTalkV {
                avatar_state: "AUTO"@,
                name_override,
                msg_type: MessageKind::Text,
            },
        };
        CompilerStateV { chat: st5.chat.push(line), ..st5 }
    }
}

pub open spec fn join_sep_spec(options: CompileOptions) -> Seq<char> {
    if options.join_with_newline {
        seq!['\n']
    } else {
        seq![' ']
    }
}

/// A continuation appends its text to the preceding chat line with the
/// configured separator; with no preceding line it does nothing.
pub open spec fn handle_continuation_spec(st: CompilerStateV, cv: ContinuationV) -> CompilerStateV {
    if st.chat.len() == 0 {
        st
    } else {
        let last = st.chat.last();
        let updated = ChatLineV {
            content: last.content + join_sep_spec(st.options) + cv.text,
            ..last
        };
        CompilerStateV { chat: st.chat.update(st.chat.len() - 1, updated), ..st }
    }
}

/// A blank line does nothing in default mode; in the alternate mode it
/// appends one separator to the preceding chat line's content.
pub open spec fn handle_blank_line_spec(st: CompilerStateV, b: BlankLine) -> CompilerStateV {
    if !st.options.typst_mode || st.chat.len() == 0 {
        st
    } else {
        let last = st.chat.last();
        let updated = ChatLineV { content: last.content + join_sep_spec(st.options), ..last };
        CompilerStateV { chat: st.chat.update(st.chat.len() - 1, updated), ..st }
    }
}

/// One node's effect on the state: nodes of other shapes are ignored.
pub open spec fn compile_step(st: CompilerStateV, node: NodeV) -> CompilerStateV {
    match node {
        NodeV::Directive(d) => handle_directive_spec(st, d),
        NodeV::Statement(s) => handle_statement_spec(st, s),
        NodeV::Continuation(c) => handle_continuation_spec(st, c),
        NodeV::BlankLine(b) => handle_blank_line_spec(st, b),
        _ => st,
    }
}

/// The state after the first `i` nodes.
pub open spec fn compile_rec(st: CompilerStateV, nodes: Seq<NodeV>, i: int) -> CompilerStateV
    decreases i,
{
    if i <= 0 {
        st
    } else {
        compile_step(compile_rec(st, nodes, i - 1), nodes[i - 1])
    }
}

// --- finishing passes, in spec ------------------------------------------

/// The segment-attachment pass from line `i` on: a running contextual
/// character follows the text lines and resolves empty-target expressions.
pub open spec fn attach_rec(
    chat: Seq<ChatLineV>,
    i: int,
    current: Option<Seq<char>>,
    typst: bool,
) -> Seq<ChatLineV>
    decreases chat.len() - i,
{
    if i < 0 || i >= chat.len() {
        Seq::empty()
    } else {
        let msg = chat[i];
        if msg.yuzutalk.msg_type == MessageKind::Pagebreak {
            seq![msg] + attach_rec(chat, i + 1, current, typst)
        } else {
            let cur2 = if msg.yuzutalk.msg_type == MessageKind::Text {
                msg.char_id
            } else {
                current
            };
            let segs = build_segments_spec(msg.content, cur2, typst);
            let msg2 = ChatLineV {
                segments: if segs.len() > 0 {
                    segs
                } else {
                    msg.segments
                },
                ..msg
            };
            seq![msg2] + attach_rec(chat, i + 1, cur2, typst)
        }
    }
}

/// The registry entry of one character ID.
pub open spec fn registry_entry_spec(st: CompilerStateV, cid: Seq<char>) -> (
    Seq<char>,
    Seq<char>,
    Seq<char>,
) {
    if "custom-"@.is_prefix_of(cid) {
        let raw = cid.skip(7);
        let display = if st.custom_display.contains_key(raw) {
            st.custom_display[raw]
        } else {
            raw
        };
        (cid, "uploaded"@, display)
    } else if st.pack matches Some(p) && "ba."@.is_prefix_of(cid) && p.id_to_avatar.contains_key(
        cid.skip(3),
    ) && st.base_root is Some && rel_of_spec(p.root, st.base_root->Some_0) is Some {
        let p = st.pack->Some_0;
        let raw = cid.skip(3);
        let rel = rel_of_spec(p.root, st.base_root->Some_0)->Some_0;
        let avatar_ref = seq!['/'] + rel + seq!['/'] + p.id_to_avatar[raw];
        let display = base_name_spec(
            if st.id_to_display.contains_key(cid) {
                st.id_to_display[cid]
            } else {
                raw
            },
        );
        (cid, avatar_ref, display)
    } else {
        let display = base_name_spec(
            if st.id_to_display.contains_key(cid) {
                st.id_to_display[cid]
            } else {
                cid
            },
        );
        (cid, "uploaded"@, display)
    }
}

/// The character registry: chat lines in order, first occurrence per ID,
/// the narrator stand-in excluded.
pub open spec fn registry_rec(
    chat: Seq<ChatLineV>,
    i: int,
    seen: Set<Seq<char>>,
    st: CompilerStateV,
) -> Seq<(Seq<char>, Seq<char>, Seq<char>)>
    decreases chat.len() - i,
{
    if i < 0 || i >= chat.len() {
        Seq::empty()
    } else {
        match chat[i].char_id {
            None => registry_rec(chat, i + 1, seen, st),
            Some(cid) => if cid == "__Sensei"@ || seen.contains(cid) {
                registry_rec(chat, i + 1, seen, st)
            } else {
                seq![registry_entry_spec(st, cid)] + registry_rec(chat, i + 1, seen.insert(cid), st)
            },
        }
    }
}

// --- path components ----------------------------------------------------

pub open spec fn slash_split_rec(s: Seq<char>, cur: Seq<char>) -> Seq<Seq<char>>
    decreases s.len(),
{
    if s.len() == 0 {
        ws_emit(cur)
    } else if s[0] == '/' {
        ws_emit(cur) + slash_split_rec(s.skip(1), Seq::empty())
    } else {
        slash_split_rec(s.skip(1), cur.push(s[0]))
    }
}

/// The components of a slash-separated path, empty pieces dropped.
pub open spec fn slash_split_spec(s: Seq<char>) -> Seq<Seq<char>> {
    slash_split_rec(s, Seq::empty())
}

pub open spec fn join_slash(ss: Seq<Seq<char>>) -> Seq<char>
    decreases ss.len(),
{
    if ss.len() == 0 {
        Seq::empty()
    } else if ss.len() == 1 {
        ss[0]
    } else {
        ss[0] + seq!['/'] + join_slash(ss.skip(1))
    }
}

/// The pack root relative to the base root, component-wise: the base's
/// components must be a prefix of the root's.
pub open spec fn rel_of_spec(root: Seq<char>, base: Seq<char>) -> Option<Seq<char>> {
    let rc = slash_split_spec(root);
    let bc = slash_split_spec(base);
    if bc.len() <= rc.len() && bc == rc.take(bc.len() as int) {
        Some(join_slash(rc.skip(bc.len() as int)))
    } else {
        None
    }
}

// --- exec helpers -------------------------------------------------------

fn vec_contains_str(v: &Vec<String>, s: &str) -> (r: bool)
    ensures
        r == v.deep_view().contains(s@),
{
    let mut i: usize = 0;
    while i < v.len()
        invariant
            i <= v@.len(),
            forall|j: int| 0 <= j < i ==> v.deep_view()[j] != s@,
        decreases v@.len() - i,
    {
        if str_eq(v[i].as_str(), s) {
            assert(v.deep_view()[i as int] == s@);
            return true;
        }
        i += 1;
    }
    false
}

fn opt_string_clone(o: &Option<String>) -> (r: Option<String>)
    ensures
        opt_view(r) == opt_view(*o),
{
    match o {
        Some(s) => Some(s.clone()),
        None => None,
    }
}

/// Splits a slash-separated path into its non-empty components.
fn slash_components(s: &str) -> (r: Vec<String>)
    ensures
        r.deep_view() == slash_split_spec(s@),
{
    let n = s.unicode_len();
    let mut out: Vec<String> = Vec::new();
    let mut st: usize = 0;
    let mut i: usize = 0;
    proof {
        assert(s@.subrange(0, 0) =~= Seq::<char>::empty());
        assert(s@.skip(0) =~= s@);
        assert(out.deep_view() =~= Seq::<Seq<char>>::empty());
    }
    while i < n
        invariant
            n == s@.len(),
            st <= i <= n,
            slash_split_spec(s@) == out.deep_view() + slash_split_rec(
                s@.skip(i as int),
                s@.subrange(st as int, i as int),
            ),
        decreases n - i,
    {
        let ghost cur = s@.subrange(st as int, i as int);
        let c = s.get_char(i);
        assert(s@.skip(i as int)[0] == c);
        if c == '/' {
            if i > st {
                let piece = s.substring_char(st, i);
                out.push(piece.to_owned());
                proof {
                    assert(out.deep_view() =~= out.deep_view().drop_last() + seq![piece@]);
                }
            }
            proof {
                assert(s@.skip(i as int).skip(1) =~= s@.skip(i + 1));
                assert(s@.subrange(i + 1, i + 1) =~= Seq::<char>::empty());
            }
            st = i + 1;
        } else {
            proof {
                assert(s@.skip(i as int).skip(1) =~= s@.skip(i + 1));
                assert(cur.push(c) =~= s@.subrange(st as int, i + 1));
            }
        }
        i += 1;
    }
    proof {
        assert(s@.skip(n as int) =~= Seq::<char>::empty());
    }
    if st < n {
        let piece = s.substring_char(st, n);
        out.push(piece.to_owned());
        proof {
            assert(out.deep_view() =~= out.deep_view().drop_last() + seq![piece@]);
        }
    }
    out
}

proof fn lemma_join_slash_push(s: Seq<Seq<char>>, x: Seq<char>)
    ensures
        join_slash(s.push(x)) == if s.len() == 0 {
            x
        } else {
            join_slash(s) + seq!['/'] + x
        },
    decreases s.len(),
{
    if s.len() == 0 {
        assert(s.push(x)[0] == x);
    } else if s.len() == 1 {
        assert(s.push(x)[0] == s[0]);
        assert(s.push(x).skip(1) =~= seq![x]);
        assert(seq![x].len() == 1);
        assert(seq![x][0] == x);
        assert(join_slash(seq![x]) == x);
        assert(join_slash(s) == s[0]);
        assert(join_slash(s.push(x)) == s[0] + seq!['/'] + x);
    } else {
        assert(s.push(x)[0] == s[0]);
        assert(s.push(x).skip(1) =~= s.skip(1).push(x));
        lemma_join_slash_push(s.skip(1), x);
        assert(s[0] + seq!['/'] + (join_slash(s.skip(1)) + seq!['/'] + x) =~= (s[0] + seq!['/']
            + join_slash(s.skip(1))) + seq!['/'] + x);
    }
}

/// The root path relative to the base path, or nothing when the base's
/// components are no prefix of the root's.
fn rel_of(root: &str, base: &str) -> (r: Option<String>)
    ensures
        opt_view(r) == rel_of_spec(root@, base@),
{
    let rc = slash_components(root);
    let bc = slash_components(base);
    let ghost rcv = rc.deep_view();
    let ghost bcv = bc.deep_view();
    if bc.len() > rc.len() {
        return None;
    }
    let mut i: usize = 0;
    while i < bc.len()
        invariant
            rcv == rc.deep_view(),
            bcv == bc.deep_view(),
            rcv == slash_split_spec(root@),
            bcv == slash_split_spec(base@),
            bcv.len() <= rcv.len(),
            i <= bcv.len(),
            forall|j: int| 0 <= j < i ==> bcv[j] == rcv[j],
        decreases bcv.len() - i,
    {
        if !str_eq(bc[i].as_str(), rc[i].as_str()) {
            proof {
                assert(bcv[i as int] != rcv[i as int]);
                assert(bcv != rcv.take(bcv.len() as int));
            }
            return None;
        }
        i += 1;
    }
    proof {
        assert(bcv =~= rcv.take(bcv.len() as int));
    }
    let mut out = String::new();
    let mut k = bc.len();
    let ghost from = bc.len() as int;
    let mut any = false;
    let ghost mut acc = Seq::<Seq<char>>::empty();
    proof {
        assert(out@ =~= join_slash(acc));
    }
    while k < rc.len()
        invariant
            rcv == rc.deep_view(),
            0 <= from <= k <= rcv.len(),
            acc =~= rcv.subrange(from, k as int),
            out@ == join_slash(acc),
            any == (acc.len() > 0),
        decreases rcv.len() - k,
    {
        proof {
            lemma_join_slash_push(acc, rcv[k as int]);
        }
        if any {
            out.append("/");
            out.append(rc[k].as_str());
            proof {
                reveal_strlit("/");
                assert("/"@ =~= seq!['/']);
            }
        } else {
            out = rc[k].clone();
            any = true;
        }
        proof {
            acc = acc.push(rcv[k as int]);
            assert(acc =~= rcv.subrange(from, k + 1));
        }
        k += 1;
    }
    proof {
        assert(rcv.subrange(from, rcv.len() as int) =~= rcv.skip(from));
    }
    Some(out)
}

// --- the compiler, exec -------------------------------------------------

impl CompilerState {
    /// Whether every map inside keeps its keys unique.
    pub closed spec fn wf(&self) -> bool {
        &&& self.meta.wf()
        &&& self.packs.aliases.wf()
        &&& self.aliases.wf()
        &&& self.tmp_aliases_pending.wf()
        &&& self.alias_id_to_name.wf()
        &&& self.custom_id_to_display.wf()
        &&& self.current_avatar_override_by_char_id.wf()
        &&& self.id_to_display.wf()
        &&& match self.pack_ba {
            Some(p) => p.aliases_to_id.wf() && p.id_to_avatar.wf(),
            None => true,
        }
    }

    fn fresh(options: CompileOptions) -> (r: CompilerState)
        ensures
            r.wf(),
            r@ == init_state(options),
    {
        let r = CompilerState {
            meta: StrMap::new(),
            packs: PackConfig::new(),
            chat: Vec::new(),
            custom_chars: Vec::new(),
            typst_global: String::new(),
            options,
            pack_v2_root: None,
            pack_v2_base_root: None,
            pack_ba: None,
            left_speaker: None,
            right_speaker: None,
            aliases: StrMap::new(),
            tmp_aliases_pending: StrMap::new(),
            tmp_aliases_active: None,
            alias_id_to_name: StrMap::new(),
            custom_id_to_display: StrMap::new(),
            current_avatar_override_by_char_id: StrMap::new(),
            id_to_display: StrMap::new(),
            left_history: Vec::new(),
            right_history: Vec::new(),
            left_unique_first_seen: Vec::new(),
            right_unique_first_seen: Vec::new(),
        };
        proof {
            assert(r@ =~~= init_state(options));
        }
        r
    }

    /// A fresh state with default options. The character directory is not
    /// loaded here: the host attaches one with `set_pack_v2_from_json`.
    pub fn new() -> (r: CompilerState)
        ensures
            r.wf(),
            r@ == init_state(CompileOptions { typst_mode: false, join_with_newline: true }),
    {
        Self::fresh(CompileOptions::default())
    }

    /// A fresh state with default options and no character directory.
    pub fn new_without_pack() -> (r: CompilerState)
        ensures
            r.wf(),
            r@ == init_state(CompileOptions { typst_mode: false, join_with_newline: true }),
    {
        Self::fresh(CompileOptions::default())
    }

    /// A fresh state with the given options and no character directory.
    pub fn new_without_pack_with_options(options: CompileOptions) -> (r: CompilerState)
        ensures
            r.wf(),
            r@ == init_state(options),
    {
        Self::fresh(options)
    }

    /// A fresh state with the given options. The character directory is not
    /// loaded here: the host attaches one with `set_pack_v2_from_json`.
    pub fn with_options(options: CompileOptions) -> (r: CompilerState)
        ensures
            r.wf(),
            r@ == init_state(options),
    {
        Self::fresh(options)
    }

    /// The canonical character ID of a raw token.
    pub fn resolve_char_id(&self, name: &str) -> (r: String)
        requires
            self.wf(),
        ensures
            r@ == resolve_char_id_spec(self@, name@),
    {
        let t0 = trim_of(name);
        let token: &str = match self.alias_id_to_name.get(t0) {
            Some(v) => v.as_str(),
            None => t0,
        };
        if starts_with(token, "ba.") {
            return token.to_owned();
        }
        if starts_with(token, "custom-") {
            return token.to_owned();
        }
        if self.custom_id_to_display.contains_key(token) {
            let mut r = String::new();
            r.append("custom-");
            r.append(token);
            proof {
                assert(r@ =~= "custom-"@ + token@);
            }
            return r;
        }
        if let Some(p) = &self.pack_ba {
            if let Some(id) = p.aliases_to_id.get(token) {
                let mut r = String::new();
                r.append("ba.");
                r.append(id.as_str());
                proof {
                    assert(r@ =~= "ba."@ + id@);
                }
                return r;
            }
        }
        let mut r = String::new();
        r.append("ba.");
        r.append(token);
        proof {
            assert(r@ =~= "ba."@ + token@);
        }
        r
    }

    /// The fallback display name of a character ID.
    pub fn display_for_id(&self, id: &str) -> (r: String)
        requires
            self.wf(),
        ensures
            r@ == display_for_id_spec(self@, id@),
    {
        let n = id.unicode_len();
        if starts_with(id, "custom-") {
            proof {
                reveal_strlit("custom-");
            }
            let raw = id.substring_char(7, n);
            proof {
                assert(raw@ =~= id@.skip(7));
            }
            return match self.custom_id_to_display.get(raw) {
                Some(d) => d.clone(),
                None => raw.to_owned(),
            };
        }
        if starts_with(id, "ba.") {
            proof {
                reveal_strlit("ba.");
            }
            let raw = id.substring_char(3, n);
            proof {
                assert(raw@ =~= id@.skip(3));
            }
            return base_name(raw);
        }
        if str_eq(id, "__Sensei") {
            return "Sensei".to_owned();
        }
        id.to_owned()
    }

    /// Resolves a statement's speaker to a canonical ID and an optional
    /// explicit display name.
    pub fn resolve_speaker(&self, speaker: &Option<String>, kind: StatementKind) -> (r: (
        String,
        Option<String>,
    ))
        requires
            self.wf(),
        ensures
            (r.0@, opt_view(r.1)) == resolve_speaker_spec(self@, opt_view(*speaker), kind),
    {
        let hist: &Vec<String> = if kind == StatementKind::Right {
            &self.right_history
        } else {
            &self.left_history
        };
        let uniq: &Vec<String> = if kind == StatementKind::Right {
            &self.right_unique_first_seen
        } else {
            &self.left_unique_first_seen
        };
        match speaker {
            Some(sp) => {
                let s = sp.as_str();
                let spn = s.unicode_len();
                if spn > 0 && s.get_char(0) == '_' {
                    let rest = s.substring_char(1, spn);
                    proof {
                        assert(rest@ =~= sp@.skip(1));
                    }
                    let n: usize = if rest.unicode_len() == 0 {
                        1
                    } else {
                        match parse_usize(rest) {
                            Some(v) => v,
                            None => 1,
                        }
                    };
                    if n > 0 && n < hist.len() {
                        let id = hist[hist.len() - 1 - n].clone();
                        return (id, None);
                    }
                    if hist.len() > 0 {
                        let id = hist[hist.len() - 1].clone();
                        return (id, None);
                    }
                }
                if spn > 0 && s.get_char(0) == '~' {
                    let rest = s.substring_char(1, spn);
                    proof {
                        assert(rest@ =~= sp@.skip(1));
                    }
                    let n: usize = if rest.unicode_len() == 0 {
                        1
                    } else {
                        match parse_usize(rest) {
                            Some(v) => v,
                            None => 1,
                        }
                    };
                    if n > 0 && n <= uniq.len() {
                        let id = uniq[n - 1].clone();
                        return (id, None);
                    }
                }
                let id = self.resolve_char_id(s);
                let display = self.display_for_id(id.as_str());
                (id, Some(display))
            },
            None => {
                let current: Option<&String> = match kind {
                    StatementKind::Left => self.left_speaker.as_ref(),
                    StatementKind::Right => self.right_speaker.as_ref(),
                    StatementKind::Narration => None,
                };
                match current {
                    Some(id) => (id.clone(), None),
                    None => ("__Sensei".to_owned(), Some("Sensei".to_owned())),
                }
            },
        }
    }

    fn update_history(&mut self, right: bool, id: &str)
        requires
            old(self).wf(),
        ensures
            final(self).wf(),
            final(self)@ == update_history_spec(old(self)@, right, id@),
    {
        if right {
            let push = self.right_history.len() == 0 || !str_eq(
                self.right_history[self.right_history.len() - 1].as_str(),
                id,
            );
            if push {
                self.right_history.push(id.to_owned());
                proof {
                    assert(self.right_history.deep_view() =~= old(
                        self,
                    ).right_history.deep_view().push(id@));
                }
            }
            if !vec_contains_str(&self.right_unique_first_seen, id) {
                self.right_unique_first_seen.push(id.to_owned());
                proof {
                    assert(self.right_unique_first_seen.deep_view() =~= old(
                        self,
                    ).right_unique_first_seen.deep_view().push(id@));
                }
            }
        } else {
            let push = self.left_history.len() == 0 || !str_eq(
                self.left_history[self.left_history.len() - 1].as_str(),
                id,
            );
            if push {
                self.left_history.push(id.to_owned());
                proof {
                    assert(self.left_history.deep_view() =~= old(
                        self,
                    ).left_history.deep_view().push(id@));
                }
            }
            if !vec_contains_str(&self.left_unique_first_seen, id) {
                self.left_unique_first_seen.push(id.to_owned());
                proof {
                    assert(self.left_unique_first_seen.deep_view() =~= old(
                        self,
                    ).left_unique_first_seen.deep_view().push(id@));
                }
            }
        }
        proof {
            assert(self@ =~~= update_history_spec(old(self)@, right, id@));
        }
    }

    fn handle_directive(&mut self, d: &Directive)
        requires
            old(self).wf(),
        ensures
            final(self).wf(),
            final(self)@ == handle_directive_spec(old(self)@, d@),
    {
        let ghost st0 = self@;
        let name = to_lower(trim_of(d.name.as_str()));
        let pn = d.payload.as_str().unicode_len();
        if str_eq(name.as_str(), "title") {
            self.meta.insert("title".to_owned(), d.payload.clone());
        } else if str_eq(name.as_str(), "usepack") {
            let parts = ws_split(d.payload.as_str());
            if parts.len() >= 3 && str_eq(parts[1].as_str(), "as") {
                let pack = parts[0].clone();
                let alias = parts[2].clone();
                self.packs.aliases.insert(alias.clone(), pack);
                if !vec_contains_str(&self.packs.order, alias.as_str()) {
                    self.packs.order.push(alias);
                    proof {
                        assert(self.packs.order.deep_view() =~= old(
                            self,
                        ).packs.order.deep_view().push(parts.deep_view()[2]));
                    }
                }
            }
        } else if str_eq(name.as_str(), "alias") {
            if let Some(p) = find_char(d.payload.as_str(), '=') {
                let nm = d.payload.as_str().substring_char(0, p);
                let val = trim_of(d.payload.as_str().substring_char(p + 1, pn));
                proof {
                    assert(nm@ =~= d.payload@.take(p as int));
                    assert(d.payload@.subrange(p + 1, d.payload@.len() as int) =~= d.payload@.skip(
                        p + 1,
                    ));
                }
                let cid = self.resolve_char_id(trim_of(nm));
                if val.unicode_len() > 0 {
                    self.aliases.insert(cid, val.to_owned());
                } else {
                    self.aliases.remove(cid.as_str());
                }
            }
        } else if str_eq(name.as_str(), "tmpalias") {
            if let Some(p) = find_char(d.payload.as_str(), '=') {
                let nm = d.payload.as_str().substring_char(0, p);
                let val = trim_of(d.payload.as_str().substring_char(p + 1, pn));
                proof {
                    assert(nm@ =~= d.payload@.take(p as int));
                    assert(d.payload@.subrange(p + 1, d.payload@.len() as int) =~= d.payload@.skip(
                        p + 1,
                    ));
                }
                let cid = self.resolve_char_id(trim_of(nm));
                self.tmp_aliases_pending.insert(cid, val.to_owned());
            }
        } else if str_eq(name.as_str(), "aliasid") {
            let parts = ws_split(d.payload.as_str());
            if parts.len() >= 2 {
                let nv = join_words(&parts, 1);
                proof {
                    assert(parts.deep_view().subrange(1, parts.deep_view().len() as int)
                        =~= parts.deep_view().skip(1));
                }
                if trim_of(parts[0].as_str()).unicode_len() > 0 && trim_of(nv.as_str()).unicode_len()
                    > 0 {
                    self.alias_id_to_name.insert(parts[0].clone(), nv);
                }
            }
        } else if str_eq(name.as_str(), "unaliasid") {
            let aid = trim_of(d.payload.as_str());
            if aid.unicode_len() > 0 {
                self.alias_id_to_name.remove(aid);
            }
        } else if str_eq(name.as_str(), "charid") {
            let parts = ws_split(d.payload.as_str());
            if parts.len() >= 2 {
                let display = join_words(&parts, 1);
                proof {
                    assert(parts.deep_view().subrange(1, parts.deep_view().len() as int)
                        =~= parts.deep_view().skip(1));
                }
                if trim_of(parts[0].as_str()).unicode_len() > 0 && trim_of(
                    display.as_str(),
                ).unicode_len() > 0 {
                    self.custom_id_to_display.insert(parts[0].clone(), display);
                }
            }
        } else if str_eq(name.as_str(), "uncharid") {
            let cid = trim_of(d.payload.as_str());
            if cid.unicode_len() > 0 {
                self.custom_id_to_display.remove(cid);
            }
        } else if str_eq(name.as_str(), "avatar") {
            if let Some(p) = find_char(d.payload.as_str(), '=') {
                let nm = d.payload.as_str().substring_char(0, p);
                let asset0 = trim_of(d.payload.as_str().substring_char(p + 1, pn));
                proof {
                    assert(nm@ =~= d.payload@.take(p as int));
                    assert(d.payload@.subrange(p + 1, d.payload@.len() as int) =~= d.payload@.skip(
                        p + 1,
                    ));
                }
                let cid = self.resolve_char_id(trim_of(nm));
                if asset0.unicode_len() == 0 {
                    self.current_avatar_override_by_char_id.remove(cid.as_str());
                } else {
                    let asset: String = if starts_with_lower(asset0, "asset:") {
                        asset0.to_owned()
                    } else {
                        let mut a = String::new();
                        a.append("asset:");
                        a.append(asset0);
                        proof {
                            assert(a@ =~= "asset:"@ + asset0@);
                        }
                        a
                    };
                    self.current_avatar_override_by_char_id.insert(cid, asset);
                }
            }
        } else if str_eq(name.as_str(), "pagebreak") {
            let line = ChatLine {
                char_id: None,
                content: String::new(),
                line_no: d.line_no,
                segments: Vec::new(),
                side: None,
                avatar_override: None,
                yuzutalk: YuzuTalk {
                    avatar_state: "AUTO".to_owned(),
                    name_override: String::new(),
                    msg_type: MessageKind::Pagebreak,
                },
            };
            let ghost lv = line@;
            self.chat.push(line);
            proof {
                assert(lv =~= pagebreak_line_spec(d.line_no));
                assert(chat_views(self.chat@) =~= chat_views(old(self).chat@).push(lv));
            }
        } else if starts_with(name.as_str(), "asset.") {
            self.meta.insert(name, d.payload.clone());
        }
        proof {
            assert(self@ =~~= handle_directive_spec(st0, d@));
        }
    }

    fn handle_statement(&mut self, s: &Statement)
        requires
            old(self).wf(),
        ensures
            final(self).wf(),
            final(self)@ == handle_statement_spec(old(self)@, s@),
    {
        let ghost st0 = self@;
        if s.kind == StatementKind::Narration {
            let line = ChatLine {
                char_id: None,
                content: s.content.clone(),
                line_no: s.line_no,
                segments: Vec::new(),
                side: None,
                avatar_override: None,
                yuzutalk: YuzuTalk {
                    avatar_state: "AUTO".to_owned(),
                    name_override: String::new(),
                    msg_type: MessageKind::Narration,
                },
            };
            let ghost lv = line@;
            self.chat.push(line);
            proof {
                assert(lv =~= narration_line_spec(s@));
                assert(chat_views(self.chat@) =~= chat_views(old(self).chat@).push(lv));
                assert(self@ =~~= handle_statement_spec(st0, s@));
            }
            return;
        }
        let right = s.kind == StatementKind::Right;
        let (speaker_id, explicit_display) = self.resolve_speaker(&s.speaker, s.kind);
        if right {
            self.right_speaker = Some(speaker_id.clone());
        } else {
            self.left_speaker = Some(speaker_id.clone());
        }
        self.update_history(right, speaker_id.as_str());
        if let Some(display) = explicit_display {
            self.id_to_display.insert(speaker_id.clone(), display);
        }
        let mut clear = false;
        if let Some((active_id, _)) = &self.tmp_aliases_active {
            if !str_eq(active_id.as_str(), speaker_id.as_str()) {
                clear = true;
            }
        }
        if clear {
            self.tmp_aliases_active = None;
        }
        let pend: Option<String> = match self.tmp_aliases_pending.get(speaker_id.as_str()) {
            Some(v) => Some(v.clone()),
            None => None,
        };
        if let Some(val) = pend {
            self.tmp_aliases_active = Some((speaker_id.clone(), val));
            self.tmp_aliases_pending.remove(speaker_id.as_str());
        }
        let mut name_override = String::new();
        proof {
            assert(name_override@ =~= Seq::<char>::empty());
        }
        match &self.tmp_aliases_active {
            Some((active_id, val)) => {
                if str_eq(active_id.as_str(), speaker_id.as_str()) {
                    name_override = val.clone();
                }
            },
            None => {
                if let Some(val) = self.aliases.get(speaker_id.as_str()) {
                    name_override = val.clone();
                }
            },
        }
        let avatar_override: Option<String> = match self.current_avatar_override_by_char_id.get(
            speaker_id.as_str(),
        ) {
            Some(v) => Some(v.clone()),
            None => None,
        };
        let ghost idv = speaker_id@;
        let line = ChatLine {
            char_id: Some(speaker_id),
            content: s.content.clone(),
            line_no: s.line_no,
            segments: Vec::new(),
            side: Some(
                if right {
                    "right".to_owned()
                } else {
                    "left".to_owned()
                },
            ),
            avatar_override,
            yuzutalk: YuzuTalk {
                avatar_state: "AUTO".to_owned(),
                name_override,
                msg_type: MessageKind::Text,
            },
        };
        let ghost lv = line@;
        self.chat.push(line);
        proof {
            assert(chat_views(self.chat@) =~= chat_views(old(self).chat@).push(lv));
            assert(self@ =~~= handle_statement_spec(st0, s@));
        }
    }

    fn handle_continuation(&mut self, c: &Continuation)
        requires
            old(self).wf(),
        ensures
            final(self).wf(),
            final(self)@ == handle_continuation_spec(old(self)@, c@),
    {
        let ghost st0 = self@;
        if self.chat.len() == 0 {
            return;
        }
        let mut last = self.chat.pop().unwrap();
        let ghost last0 = last@;
        if self.options.join_with_newline {
            last.content.append("\n");
            proof {
                reveal_strlit("\n");
                assert("\n"@ =~= seq!['\n']);
            }
        } else {
            last.content.append(" ");
            proof {
                reveal_strlit(" ");
                assert(" "@ =~= seq![' ']);
            }
        }
        last.content.append(c.text.as_str());
        let ghost lv = last@;
        self.chat.push(last);
        proof {
            assert(lv =~= (ChatLineV {
                content: last0.content + join_sep_spec(st0.options) + c@.text,
                ..last0
            }));
            assert(chat_views(self.chat@) =~= st0.chat.update(st0.chat.len() - 1, lv));
            assert(self@ =~~= handle_continuation_spec(st0, c@));
        }
    }

    fn handle_blank_line(&mut self, _b: &BlankLine)
        requires
            old(self).wf(),
        ensures
            final(self).wf(),
            final(self)@ == handle_blank_line_spec(old(self)@, *_b),
    {
        let ghost st0 = self@;
        if !self.options.typst_mode {
            return;
        }
        if self.chat.len() == 0 {
            return;
        }
        let mut last = self.chat.pop().unwrap();
        let ghost last0 = last@;
        if self.options.join_with_newline {
            last.content.append("\n");
            proof {
                reveal_strlit("\n");
                assert("\n"@ =~= seq!['\n']);
            }
        } else {
            last.content.append(" ");
            proof {
                reveal_strlit(" ");
                assert(" "@ =~= seq![' ']);
            }
        }
        let ghost lv = last@;
        self.chat.push(last);
        proof {
            assert(lv =~= (ChatLineV {
                content: last0.content + join_sep_spec(st0.options),
                ..last0
            }));
            assert(chat_views(self.chat@) =~= st0.chat.update(st0.chat.len() - 1, lv));
            assert(self@ =~~= handle_blank_line_spec(st0, *_b));
        }
    }

    /// Attaches a loaded character directory, given the two JSON documents
    /// and the pack and base root paths. An unusable asset mapping leaves
    /// the state unchanged.
    pub fn set_pack_v2_from_json(
        &mut self,
        pack_root: &str,
        base_root: &str,
        char_id_json: &str,
        asset_mapping_json: &str,
    )
        requires
            old(self).wf(),
        ensures
            final(self).wf(),
            final(self)@ == set_pack_spec(
                old(self)@,
                pack_root@,
                base_root@,
                char_id_json@,
                asset_mapping_json@,
            ),
    {
        let ghost st0 = self@;
        match crate::packjson::load_pack_v2_from_json(
            pack_root,
            base_root,
            char_id_json,
            asset_mapping_json,
        ) {
            Some((pack, base)) => {
                self.pack_v2_root = Some(pack.root.clone());
                self.pack_v2_base_root = Some(base);
                self.pack_ba = Some(pack);
                proof {
                    assert(self@ =~~= set_pack_spec(
                        st0,
                        pack_root@,
                        base_root@,
                        char_id_json@,
                        asset_mapping_json@,
                    ));
                }
            },
            None => {
                proof {
                    assert(self@ =~~= set_pack_spec(
                        st0,
                        pack_root@,
                        base_root@,
                        char_id_json@,
                        asset_mapping_json@,
                    ));
                }
            },
        }
    }

    fn attach_segments(&mut self)
        requires
            old(self).wf(),
        ensures
            final(self).wf(),
            final(self)@ == (CompilerStateV {
                chat: attach_rec(old(self)@.chat, 0, None, old(self)@.options.typst_mode),
                ..old(self)@
            }),
    {
        let ghost st0 = self@;
        let ghost chat0 = self@.chat;
        let typst = self.options.typst_mode;
        let mut current_char: Option<String> = None;
        let mut out: Vec<ChatLine> = Vec::new();
        let ghost mut k: int = 0;
        proof {
            assert(chat0.skip(0) =~= chat0);
            assert(chat_views(out@) =~= Seq::<ChatLineV>::empty());
            assert(chat_views(out@) + attach_rec(chat0, 0, None, typst) =~= attach_rec(
                chat0,
                0,
                None,
                typst,
            ));
        }
        while self.chat.len() > 0
            invariant
                self.wf(),
                0 <= k <= chat0.len(),
                chat_views(self.chat@) =~= chat0.skip(k),
                self@ =~~= (CompilerStateV { chat: chat0.skip(k), ..st0 }),
                typst == st0.options.typst_mode,
                attach_rec(chat0, 0, None, typst) == chat_views(out@) + attach_rec(
                    chat0,
                    k,
                    opt_view(current_char),
                    typst,
                ),
            decreases self.chat@.len(),
        {
            let ghost cur0 = opt_view(current_char);
            let ghost out0 = out@;
            let ghost pre = self.chat@;
            proof {
                assert(chat_views(pre).len() == pre.len());
                assert(k < chat0.len());
            }
            let mut msg = self.chat.remove(0);
            let ghost msgv = msg@;
            proof {
                assert(chat_views(pre)[0] == msgv);
                assert(chat0.skip(k)[0] == msgv);
                assert(chat_views(self.chat@) =~= chat_views(pre).skip(1));
                assert(chat_views(pre).skip(1) =~= chat0.skip(k).skip(1));
                assert(chat0.skip(k).skip(1) =~= chat0.skip(k + 1));
                assert(self@ =~~= (CompilerStateV { chat: chat0.skip(k + 1), ..st0 }));
            }
            if msg.yuzutalk.msg_type == MessageKind::Pagebreak {
                out.push(msg);
                proof {
                    assert(chat_views(out@) =~= chat_views(out0).push(msgv));
                }
            } else {
                if msg.yuzutalk.msg_type == MessageKind::Text {
                    current_char = opt_string_clone(&msg.char_id);
                }
                let ghost cur2 = opt_view(current_char);
                let cc: Option<&str> = match &current_char {
                    Some(s) => Some(s.as_str()),
                    None => None,
                };
                proof {
                    assert(crate::inline::opt_str_view(cc) == cur2);
                }
                let segments = build_segments(msg.content.as_str(), cc, typst);
                let ghost segv = seg_views(segments@);
                if segments.len() > 0 {
                    msg.segments = segments;
                }
                let ghost m2 = msg@;
                out.push(msg);
                proof {
                    assert(m2.segments =~= if segv.len() > 0 {
                        segv
                    } else {
                        msgv.segments
                    });
                    assert(m2 =~= (ChatLineV {
                        segments: if segv.len() > 0 {
                            segv
                        } else {
                            msgv.segments
                        },
                        ..msgv
                    }));
                    assert(chat_views(out@) =~= chat_views(out0).push(m2));
                }
            }
            proof {
                k = k + 1;
            }
        }
        proof {
            assert(chat0.skip(k).len() == 0);
            assert(k == chat0.len());
            assert(attach_rec(chat0, k, opt_view(current_char), typst) =~= Seq::<
                ChatLineV,
            >::empty());
            assert(chat_views(out@) + Seq::<ChatLineV>::empty() =~= chat_views(out@));
        }
        self.chat = out;
        proof {
            assert(self@ =~~= (CompilerStateV {
                chat: attach_rec(st0.chat, 0, None, st0.options.typst_mode),
                ..st0
            }));
        }
    }

    fn registry_entry(&self, cid: &str) -> (r: (String, String, String))
        requires
            self.wf(),
        ensures
            (r.0@, r.1@, r.2@) == registry_entry_spec(self@, cid@),
    {
        let n = cid.unicode_len();
        if starts_with(cid, "custom-") {
            proof {
                reveal_strlit("custom-");
            }
            let raw = cid.substring_char(7, n);
            proof {
                assert(raw@ =~= cid@.skip(7));
            }
            let display = match self.custom_id_to_display.get(raw) {
                Some(d) => d.clone(),
                None => raw.to_owned(),
            };
            return (cid.to_owned(), "uploaded".to_owned(), display);
        }
        if let Some(pack) = &self.pack_ba {
            if starts_with(cid, "ba.") {
                proof {
                    reveal_strlit("ba.");
                }
                let raw = cid.substring_char(3, n);
                proof {
                    assert(raw@ =~= cid@.skip(3));
                }
                if let Some(avatar_rel) = pack.id_to_avatar.get(raw) {
                    if let Some(base) = &self.pack_v2_base_root {
                        if let Some(rel) = rel_of(pack.root.as_str(), base.as_str()) {
                            let mut ar = String::new();
                            push_char(&mut ar, '/');
                            ar.append(rel.as_str());
                            push_char(&mut ar, '/');
                            ar.append(avatar_rel.as_str());
                            proof {
                                assert(ar@ =~= seq!['/'] + rel@ + seq!['/'] + avatar_rel@);
                            }
                            let display = match self.id_to_display.get(cid) {
                                Some(d) => base_name(d.as_str()),
                                None => base_name(raw),
                            };
                            return (cid.to_owned(), ar, display);
                        }
                    }
                }
            }
        }
        let display = match self.id_to_display.get(cid) {
            Some(d) => base_name(d.as_str()),
            None => base_name(cid),
        };
        (cid.to_owned(), "uploaded".to_owned(), display)
    }

    /// Builds the character registry: one entry per distinct character ID
    /// in first-appearance order, the narrator stand-in excluded.
    pub fn build_custom_chars(&self) -> (r: Vec<(String, String, String)>)
        requires
            self.wf(),
        ensures
            r.deep_view() == registry_rec(self@.chat, 0, Set::empty(), self@),
    {
        let ghost chv = self@.chat;
        let mut out: Vec<(String, String, String)> = Vec::new();
        let mut seen = StrMap::new();
        let ghost mut sset = Set::<Seq<char>>::empty();
        let mut k: usize = 0;
        proof {
            assert(out.deep_view() =~= Seq::<(Seq<char>, Seq<char>, Seq<char>)>::empty());
            assert(out.deep_view() + registry_rec(chv, 0, sset, self@) =~= registry_rec(
                chv,
                0,
                sset,
                self@,
            ));
            assert(sset =~= seen.as_map().dom());
        }
        while k < self.chat.len()
            invariant
                self.wf(),
                chv == self@.chat,
                k <= chv.len(),
                seen.wf(),
                sset =~= seen.as_map().dom(),
                registry_rec(chv, 0, Set::empty(), self@) == out.deep_view() + registry_rec(
                    chv,
                    k as int,
                    sset,
                    self@,
                ),
            decreases chv.len() - k,
        {
            let ghost out0 = out.deep_view();
            proof {
                assert(chv[k as int] == self.chat@[k as int]@);
            }
            match &self.chat[k].char_id {
                None => {},
                Some(cid) => {
                    if !str_eq(cid.as_str(), "__Sensei") && !seen.contains_key(cid.as_str()) {
                        let e = self.registry_entry(cid.as_str());
                        let ghost ev = (e.0@, e.1@, e.2@);
                        out.push(e);
                        seen.insert(cid.clone(), String::new());
                        proof {
                            assert(out.deep_view() =~= out0 + seq![ev]);
                            sset = sset.insert(cid@);
                            assert(sset =~= seen.as_map().dom());
                            assert(out0 + (seq![ev] + registry_rec(
                                chv,
                                k + 1,
                                sset,
                                self@,
                            )) =~= (out0 + seq![ev]) + registry_rec(
                                chv,
                                k + 1,
                                sset,
                                self@,
                            ));
                        }
                    }
                },
            }
            k += 1;
        }
        proof {
            assert(registry_rec(chv, k as int, sset, self@) =~= Seq::<
                (Seq<char>, Seq<char>, Seq<char>),
            >::empty());
            assert(out.deep_view() + Seq::<(Seq<char>, Seq<char>, Seq<char>)>::empty()
                =~= out.deep_view());
        }
        out
    }

    /// Compiles syntax nodes into the output document: one pass over the
    /// nodes, then the segment-attachment pass and the character registry.
    pub fn compile(self, nodes: Vec<Node>) -> (r: MmtOutput)
        requires
            self.wf(),
        ensures
            ({
                let stf = compile_rec(self@, node_views(nodes@), nodes@.len() as int);
                let chat2 = attach_rec(stf.chat, 0, None, stf.options.typst_mode);
                let sta = CompilerStateV { chat: chat2, ..stf };
                &&& r@.chat == chat2
                &&& r@.custom_chars == registry_rec(chat2, 0, Set::empty(), sta)
                &&& map_of(r@.meta) == stf.meta
                &&& map_of(r@.packs.aliases) == stf.pack_aliases
                &&& r@.packs.order == stf.pack_order
                &&& r@.typst_global == stf.typst_global
                &&& r@.chars == Seq::<Seq<char>>::empty()
                &&& r.meta.wf()
                &&& r.packs.wf()
            }),
    {
        let ghost st0 = self@;
        let ghost nv = node_views(nodes@);
        let mut this = self;
        let n = nodes.len();
        let mut i: usize = 0;
        while i < n
            invariant
                this.wf(),
                n == nodes@.len(),
                nv == node_views(nodes@),
                i <= n,
                this@ == compile_rec(st0, nv, i as int),
            decreases n - i,
        {
            proof {
                assert(nv[i as int] == nodes@[i as int]@);
            }
            match &nodes[i] {
                Node::Directive(d) => this.handle_directive(d),
                Node::Statement(s) => this.handle_statement(s),
                Node::Continuation(c) => this.handle_continuation(c),
                Node::BlankLine(b) => this.handle_blank_line(b),
                _ => {},
            }
            i += 1;
        }
        this.attach_segments();
        let cc = this.build_custom_chars();
        this.custom_chars = cc;
        let ghost stf = compile_rec(st0, nv, nv.len() as int);
        let ghost chat2 = attach_rec(stf.chat, 0, None, stf.options.typst_mode);
        let out = MmtOutput {
            chars: Vec::new(),
            chat: this.chat,
            custom_chars: this.custom_chars,
            meta: this.meta,
            packs: this.packs,
            typst_global: this.typst_global,
        };
        proof {
            assert(out@.chars =~= Seq::<Seq<char>>::empty());
            assert(out@.chat =~= chat2);
        }
        out
    }
}

/// The state after a directory attachment.
pub open spec fn set_pack_spec(
    st: CompilerStateV,
    pack_root: Seq<char>,
    base_root: Seq<char>,
    cj: Seq<char>,
    aj: Seq<char>,
) -> CompilerStateV {
    match crate::packjson::pack_from_json_spec(pack_root, base_root, cj, aj) {
        Some((p, b)) => CompilerStateV {
            pack_root: Some(p.root),
            base_root: Some(b),
            pack: Some(p),
            ..st
        },
        None => st,
    }
}

} // verus!
