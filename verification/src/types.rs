//! The output document: ordered chat lines with resolved speakers, inline
//! segments, a per-character registry, document metadata and the pack
//! configuration.
use vstd::prelude::*;
use crate::ast::opt_view;
use crate::strmap::StrMap;
use crate::strmap::map_of;
use crate::strmap::unique_keys;

verus! {

/// One fragment of a chat line's content: plain text, an inline expression
/// resolved to a character, or an image reference (part of the output
/// contract, never produced by this pipeline).
#[derive(Debug, Clone, PartialEq)]
pub enum Segment {
    Text { text: String },
    Expr { text: String, query: String, target_char_id: String },
    Image { ref_: String, alt: String },
}

#[verifier::ext_equal]
pub ghost enum SegmentV {
    Text { text: Seq<char> },
    Expr { text: Seq<char>, query: Seq<char>, target_char_id: Seq<char> },
    Image { ref_: Seq<char>, alt: Seq<char> },
}

impl View for Segment {
    type V = SegmentV;

    open spec fn view(&self) -> SegmentV {
        match self {
            Segment::Text { text } => SegmentV::Text { text: text@ },
            Segment::Expr { text, query, target_char_id } => SegmentV::Expr {
                text: text@,
                query: query@,
                target_char_id: target_char_id@,
            },
            Segment::Image { ref_, alt } => SegmentV::Image { ref_: ref_@, alt: alt@ },
        }
    }
}

impl Segment {
    pub fn text(t: String) -> (r: Segment)
        ensures
            r@ == (SegmentV::Text { text: t@ }),
    {
        Segment::Text { text: t }
    }
}

/// The views of a sequence of segments.
pub open spec fn seg_views(s: Seq<Segment>) -> Seq<SegmentV> {
    s.map_values(|x: Segment| x@)
}

/// What kind of message a chat line carries.
#[derive(Debug, Clone, Copy, PartialEq, Eq, Structural)]
pub enum MessageKind {
    Text,
    Narration,
    Pagebreak,
}

/// Renderer-facing per-line attributes: the avatar state, the display-name
/// override and the message kind.
#[derive(Debug, Clone, PartialEq)]
pub struct YuzuTalk {
    pub avatar_state: String,
    pub name_override: String,
    pub msg_type: MessageKind,
}

#[verifier::ext_equal]
pub ghost struct YuzuTalkV {
    pub avatar_state: Seq<char>,
    pub name_override: Seq<char>,
    pub msg_type: MessageKind,
}

impl View for YuzuTalk {
    type V = YuzuTalkV;

    open spec fn view(&self) -> YuzuTalkV {
        YuzuTalkV {
            avatar_state: self.avatar_state@,
            name_override: self.name_override@,
            msg_type: self.msg_type,
        }
    }
}

#[derive(Debug, Clone, PartialEq)]
pub struct ChatLine {
    pub char_id: Option<String>,
    pub content: String,
    pub line_no: usize,
    pub segments: Vec<Segment>,
    pub side: Option<String>,
    pub avatar_override: Option<String>,
    pub yuzutalk: YuzuTalk,
}

#[verifier::ext_equal]
pub ghost struct ChatLineV {
    pub char_id: Option<Seq<char>>,
    pub content: Seq<char>,
    pub line_no: usize,
    pub segments: Seq<SegmentV>,
    pub side: Option<Seq<char>>,
    pub avatar_override: Option<Seq<char>>,
    pub yuzutalk: YuzuTalkV,
}

impl View for ChatLine {
    type V = ChatLineV;

    open spec fn view(&self) -> ChatLineV {
        ChatLineV {
            char_id: opt_view(self.char_id),
            content: self.content@,
            line_no: self.line_no,
            segments: Seq::new(self.segments@.len(), |i: int| self.segments@[i]@),
            side: opt_view(self.side),
            avatar_override: opt_view(self.avatar_override),
            yuzutalk: self.yuzutalk@,
        }
    }
}

/// Which character packs the document pulls in: an alias-to-pack mapping and
/// the order in which aliases first appeared.
pub struct PackConfig {
    pub aliases: StrMap,
    pub order: Vec<String>,
}

#[verifier::ext_equal]
pub ghost struct PackConfigV {
    pub aliases: Seq<(Seq<char>, Seq<char>)>,
    pub order: Seq<Seq<char>>,
}

impl View for PackConfig {
    type V = PackConfigV;

    open spec fn view(&self) -> PackConfigV {
        PackConfigV { aliases: self.aliases@, order: self.order.deep_view() }
    }
}

impl PackConfig {
    pub open spec fn wf(&self) -> bool {
        unique_keys(self@.aliases)
    }

    /// The alias-to-pack mapping this configuration denotes.
    pub open spec fn alias_map(&self) -> Map<Seq<char>, Seq<char>> {
        map_of(self@.aliases)
    }

    pub fn new() -> (r: PackConfig)
        ensures
            r.wf(),
            r.alias_map() == Map::<Seq<char>, Seq<char>>::empty(),
            r@.order == Seq::<Seq<char>>::empty(),
    {
        let r = PackConfig { aliases: StrMap::new(), order: Vec::new() };
        proof {
            assert(r@.order =~= Seq::<Seq<char>>::empty());
        }
        r
    }
}

/// The finished document.
pub struct MmtOutput {
    pub chars: Vec<String>,
    pub chat: Vec<ChatLine>,
    pub custom_chars: Vec<(String, String, String)>,
    pub meta: StrMap,
    pub packs: PackConfig,
    pub typst_global: String,
}

#[verifier::ext_equal]
pub ghost struct MmtOutputV {
    pub chars: Seq<Seq<char>>,
    pub chat: Seq<ChatLineV>,
    pub custom_chars: Seq<(Seq<char>, Seq<char>, Seq<char>)>,
    pub meta: Seq<(Seq<char>, Seq<char>)>,
    pub packs: PackConfigV,
    pub typst_global: Seq<char>,
}

impl View for MmtOutput {
    type V = MmtOutputV;

    open spec fn view(&self) -> MmtOutputV {
        MmtOutputV {
            chars: self.chars.deep_view(),
            chat: Seq::new(self.chat@.len(), |i: int| self.chat@[i]@),
            custom_chars: self.custom_chars.deep_view(),
            meta: self.meta@,
            packs: self.packs@,
            typst_global: self.typst_global@,
        }
    }
}

} // verus!
