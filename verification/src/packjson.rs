//! Loading the character directory from its two JSON documents: an alias
//! map (string to string) and an asset mapping (string to an object with an
//! `avatar` string field). Unusable entries are dropped; a mapping with no
//! usable entry means no directory at all.
use vstd::prelude::*;
use crate::compiler::PackData;
use crate::compiler::PackDataV;
use crate::strmap::StrMap;
use crate::text::{trim_of, trim_spec};

verus! {

/// The (key, string value) entries of a JSON object, in document order; a
/// value that is no string is kept with no string.
pub uninterp spec fn json_str_entries(text: Seq<char>) -> Seq<(Seq<char>, Option<Seq<char>>)>;

/// The (key, avatar field) entries of a JSON object of objects, in document
/// order; an entry whose value has no string `avatar` field is kept with no
/// string.
pub uninterp spec fn json_avatar_entries(text: Seq<char>) -> Seq<(Seq<char>, Option<Seq<char>>)>;

/// Relies on `serde_json::from_str`: parses the text as JSON; on an object,
/// hands back each key with its value where that value is a string.
#[verifier::external_body]
fn parse_json_string_object(text: &str) -> (r: Vec<(String, Option<String>)>)
    ensures
        r.deep_view() == json_str_entries(text@),
{
    match serde_json::from_str::<serde_json::Value>(text) {
        Ok(serde_json::Value::Object(map)) => map
            .into_iter()
            .map(|(k, v)| match v {
                serde_json::Value::String(s) => (k, Some(s)),
                _ => (k, None),
            })
            .collect(),
        _ => Vec::new(),
    }
}

/// Relies on `serde_json::from_str`: parses the text as JSON; on an object,
/// hands back each key with its value's `avatar` field where that field is
/// a string.
#[verifier::external_body]
fn parse_json_avatar_object(text: &str) -> (r: Vec<(String, Option<String>)>)
    ensures
        r.deep_view() == json_avatar_entries(text@),
{
    match serde_json::from_str::<serde_json::Value>(text) {
        Ok(serde_json::Value::Object(map)) => map
            .into_iter()
            .map(|(k, v)| match v {
                serde_json::Value::Object(m) => match m.get("avatar") {
                    Some(serde_json::Value::String(s)) => (k, Some(s.clone())),
                    _ => (k, None),
                },
                _ => (k, None),
            })
            .collect(),
        _ => Vec::new(),
    }
}

/// The alias-to-ID map an entry list denotes: keys and values trimmed,
/// entries with an empty key or value dropped.
pub open spec fn char_id_map_spec(entries: Seq<(Seq<char>, Option<Seq<char>>)>) -> Map<
    Seq<char>,
    Seq<char>,
>
    decreases entries.len(),
{
    if entries.len() == 0 {
        Map::empty()
    } else {
        let m = char_id_map_spec(entries.drop_last());
        let e = entries.last();
        match e.1 {
            Some(v) => if trim_spec(e.0).len() > 0 && trim_spec(v).len() > 0 {
                m.insert(trim_spec(e.0), trim_spec(v))
            } else {
                m
            },
            None => m,
        }
    }
}

/// The ID-to-avatar map an entry list denotes: entries with a blank avatar
/// dropped, keys and values kept verbatim.
pub open spec fn avatar_map_spec(entries: Seq<(Seq<char>, Option<Seq<char>>)>) -> Map<
    Seq<char>,
    Seq<char>,
>
    decreases entries.len(),
{
    if entries.len() == 0 {
        Map::empty()
    } else {
        let m = avatar_map_spec(entries.drop_last());
        let e = entries.last();
        match e.1 {
            Some(v) => if trim_spec(v).len() > 0 {
                m.insert(e.0, v)
            } else {
                m
            },
            None => m,
        }
    }
}

/// Every ID with a usable avatar gets an identity alias unless an alias for
/// it already exists.
pub open spec fn with_identity(
    m: Map<Seq<char>, Seq<char>>,
    entries: Seq<(Seq<char>, Option<Seq<char>>)>,
) -> Map<Seq<char>, Seq<char>>
    decreases entries.len(),
{
    if entries.len() == 0 {
        m
    } else {
        let m2 = with_identity(m, entries.drop_last());
        let e = entries.last();
        match e.1 {
            Some(v) => if trim_spec(v).len() > 0 && !m2.contains_key(e.0) {
                m2.insert(e.0, e.0)
            } else {
                m2
            },
            None => m2,
        }
    }
}

/// The directory the two JSON documents denote, or nothing when the asset
/// mapping yields no usable entry.
pub open spec fn pack_from_json_spec(
    pack_root: Seq<char>,
    base_root: Seq<char>,
    cj: Seq<char>,
    aj: Seq<char>,
) -> Option<(PackDataV, Seq<char>)> {
    let i2a = avatar_map_spec(json_avatar_entries(aj));
    if i2a == Map::<Seq<char>, Seq<char>>::empty() {
        None
    } else {
        let a2i = with_identity(char_id_map_spec(json_str_entries(cj)), json_avatar_entries(aj));
        Some((PackDataV { root: pack_root, aliases_to_id: a2i, id_to_avatar: i2a }, base_root))
    }
}

/// Builds the character directory from its two JSON documents.
pub fn load_pack_v2_from_json(pack_root: &str, base_root: &str, char_id_json: &str,
    asset_mapping_json: &str) -> (r: Option<(PackData, String)>)
    ensures
        match r {
            Some((p, b)) => {
                &&& pack_from_json_spec(pack_root@, base_root@, char_id_json@, asset_mapping_json@)
                    == Some((p@, b@))
                &&& p.aliases_to_id.wf()
                &&& p.id_to_avatar.wf()
            },
            None => pack_from_json_spec(
                pack_root@,
                base_root@,
                char_id_json@,
                asset_mapping_json@,
            ) is None,
        },
{
    let centries = parse_json_string_object(char_id_json);
    let aentries = parse_json_avatar_object(asset_mapping_json);
    let ghost cev = centries.deep_view();
    let ghost aev = aentries.deep_view();
    let mut a2i = StrMap::new();
    let mut i: usize = 0;
    proof {
        assert(cev.take(0) =~= Seq::<(Seq<char>, Option<Seq<char>>)>::empty());
    }
    while i < centries.len()
        invariant
            cev == centries.deep_view(),
            i <= cev.len(),
            a2i.wf(),
            a2i.as_map() == char_id_map_spec(cev.take(i as int)),
        decreases cev.len() - i,
    {
        proof {
            assert(cev.take(i + 1).drop_last() =~= cev.take(i as int));
            assert(cev.take(i + 1).last() == cev[i as int]);
        }
        let (k, v) = &centries[i];
        if let Some(val) = v {
            let kt = trim_of(k.as_str());
            let vt = trim_of(val.as_str());
            if kt.unicode_len() > 0 && vt.unicode_len() > 0 {
                a2i.insert(kt.to_owned(), vt.to_owned());
            }
        }
        i += 1;
    }
    proof {
        assert(cev.take(cev.len() as int) =~= cev);
    }
    let mut i2a = StrMap::new();
    let mut j: usize = 0;
    proof {
        assert(aev.take(0) =~= Seq::<(Seq<char>, Option<Seq<char>>)>::empty());
    }
    while j < aentries.len()
        invariant
            aev == aentries.deep_view(),
            j <= aev.len(),
            i2a.wf(),
            i2a.as_map() == avatar_map_spec(aev.take(j as int)),
        decreases aev.len() - j,
    {
        proof {
            assert(aev.take(j + 1).drop_last() =~= aev.take(j as int));
            assert(aev.take(j + 1).last() == aev[j as int]);
        }
        let (k, v) = &aentries[j];
        if let Some(val) = v {
            if trim_of(val.as_str()).unicode_len() > 0 {
                i2a.insert(k.clone(), val.clone());
            }
        }
        j += 1;
    }
    proof {
        assert(aev.take(aev.len() as int) =~= aev);
    }
    if i2a.is_empty() {
        return None;
    }
    let mut j: usize = 0;
    let ghost base = a2i.as_map();
    proof {
        assert(aev.take(0) =~= Seq::<(Seq<char>, Option<Seq<char>>)>::empty());
    }
    while j < aentries.len()
        invariant
            aev == aentries.deep_view(),
            j <= aev.len(),
            a2i.wf(),
            a2i.as_map() == with_identity(base, aev.take(j as int)),
        decreases aev.len() - j,
    {
        proof {
            assert(aev.take(j + 1).drop_last() =~= aev.take(j as int));
            assert(aev.take(j + 1).last() == aev[j as int]);
        }
        let (k, v) = &aentries[j];
        if let Some(val) = v {
            if trim_of(val.as_str()).unicode_len() > 0 && !a2i.contains_key(k.as_str()) {
                a2i.insert(k.clone(), k.clone());
            }
        }
        j += 1;
    }
    proof {
        assert(aev.take(aev.len() as int) =~= aev);
    }
    let pack = PackData { root: pack_root.to_owned(), aliases_to_id: a2i, id_to_avatar: i2a };
    Some((pack, base_root.to_owned()))
}

} // verus!
