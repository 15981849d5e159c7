//! The gobo projector's pattern library: names for the two DMX bytes that select
//! a pattern, the gallery (0 for gobos, 255 for scenes) and the pattern in it.
use crate::json::{entry_views, item_views, lemma_array_view, lemma_object_view, member, parse_json, parsed_json, Json, JsonView};
use crate::patterns::{bare_hex, is_text_list, strip_hex, text_list, text_lists};
use crate::text::{chars_of, parse_unsigned, same_str, trim, trimmed, unsigned_value};
use vstd::prelude::*;

verus! {

broadcast use {vstd::seq::group_seq_axioms, vstd::string::group_string_axioms};

/// One named projector pattern and the DMX bytes that select it.
#[derive(Debug)]
pub struct ProjectorPattern {
    pub name: String,
    pub gallery: u8,
    pub pattern: u8,
}

/// What a [`ProjectorPattern`] holds.
pub struct ProjectorPatternView {
    pub name: Seq<char>,
    pub gallery: u8,
    pub pattern: u8,
}

impl View for ProjectorPattern {
    type V = ProjectorPatternView;

    open spec fn view(&self) -> ProjectorPatternView {
        ProjectorPatternView { name: self.name@, gallery: self.gallery, pattern: self.pattern }
    }
}

/// The byte that a text like `0x0c` names.
pub open spec fn byte_of(h: Seq<char>) -> Option<nat> {
    unsigned_value(bare_hex(trimmed(h)), 16, 255)
}

/// Reads a byte like `0x0c`.
pub fn parse_byte(h: &str) -> (r: Option<u8>)
    ensures
        match r {
            Some(b) => byte_of(h@) == Some(b as nat),
            None => byte_of(h@) is None,
        },
{
    let bare: Vec<char> = strip_hex(&trim(&chars_of(h)));
    let v: Option<u64> = parse_unsigned(&bare, 16, 255);
    match v {
        Some(v) => Some(v as u8),
        None => None,
    }
}

/// The byte at a place of a code.
pub open spec fn code_byte(code: Seq<JsonView>, i: int) -> Option<nat> {
    if i < code.len() {
        match code[i] {
            JsonView::Text(t) => byte_of(t),
            _ => None,
        }
    } else {
        None
    }
}

/// The pattern of an entry; none for the sentinel `ignore` and for an entry
/// without a code of two bytes.
pub open spec fn pattern_of(name: Seq<char>, value: JsonView) -> Option<ProjectorPatternView> {
    match member(value, "code"@) {
        Some(JsonView::Array(code)) => if name != "ignore"@ && code_byte(code, 0) is Some && code_byte(code, 1) is Some {
            Some(ProjectorPatternView { name, gallery: code_byte(code, 0)->0 as u8, pattern: code_byte(code, 1)->0 as u8 })
        } else {
            None
        },
        _ => None,
    }
}

/// The patterns of the entries, in their order.
pub open spec fn named_in(entries: Seq<(Seq<char>, JsonView)>) -> Seq<ProjectorPatternView>
    decreases entries.len(),
{
    if entries.len() == 0 {
        Seq::empty()
    } else {
        let rest = named_in(entries.drop_last());
        match pattern_of(entries.last().0, entries.last().1) {
            Some(p) => rest.push(p),
            None => rest,
        }
    }
}

/// Every value is an object of lists of texts.
pub open spec fn code_tables(entries: Seq<(Seq<char>, JsonView)>) -> bool {
    forall|i: int| 0 <= i < entries.len() ==> is_code_table((#[trigger] entries[i]).1)
}

/// The value is an object of lists of texts.
pub open spec fn is_code_table(j: JsonView) -> bool {
    match j {
        JsonView::Object(inner) => text_lists(inner),
        _ => false,
    }
}

/// The patterns in a document: an object of objects of lists of texts.
pub open spec fn projector_library_in(doc: JsonView) -> Option<Seq<ProjectorPatternView>> {
    match doc {
        JsonView::Object(entries) => if code_tables(entries) {
            Some(named_in(entries))
        } else {
            None
        },
        _ => None,
    }
}

/// What patterns hold.
pub open spec fn projector_views(v: Seq<ProjectorPattern>) -> Seq<ProjectorPatternView> {
    v.map_values(|p: ProjectorPattern| p@)
}

/// `a` may stand before `b`: a lower gallery, or the same and no higher pattern.
pub open spec fn code_order(a: ProjectorPatternView, b: ProjectorPatternView) -> bool {
    a.gallery < b.gallery || (a.gallery == b.gallery && a.pattern <= b.pattern)
}

/// By gallery, then pattern.
pub open spec fn by_code(s: Seq<ProjectorPatternView>) -> bool {
    forall|i: int, j: int| 0 <= i <= j < s.len() ==> code_order(#[trigger] s[i], #[trigger] s[j])
}

fn code_table(j: &Json) -> (r: bool)
    ensures
        r == is_code_table(j@),
{
    match j {
        Json::Object(inner) => {
            proof {
                lemma_object_view(*inner);
            }
            let ghost all = entry_views(inner@);
            let mut i: usize = 0;
            while i < inner.len()
                invariant
                    i <= inner@.len(),
                    all == entry_views(inner@),
                    j@ == JsonView::Object(all),
                    forall|k: int| 0 <= k < i ==> is_text_list((#[trigger] all[k]).1),
                decreases inner@.len() - i,
            {
                assert(all[i as int] == (inner@[i as int].0@, inner@[i as int].1@));
                if !text_list(&inner[i].1) {
                    assert(!is_text_list(all[i as int].1));
                    return false;
                }
                i = i + 1;
            }
            true
        },
        _ => false,
    }
}

fn byte_at(code: &Vec<Json>, i: usize) -> (r: Option<u8>)
    ensures
        match r {
            Some(b) => code_byte(item_views(code@), i as int) == Some(b as nat),
            None => code_byte(item_views(code@), i as int) is None,
        },
{
    if i < code.len() {
        assert(item_views(code@)[i as int] == code@[i as int]@);
        match &code[i] {
            Json::Text(t) => parse_byte(t.as_str()),
            _ => None,
        }
    } else {
        None
    }
}

fn entry_pattern(name: &String, value: &Json) -> (r: Option<ProjectorPattern>)
    ensures
        match r {
            Some(p) => pattern_of(name@, value@) == Some(p@),
            None => pattern_of(name@, value@) is None,
        },
{
    if same_str(name.as_str(), "ignore") {
        return None;
    }
    let code: Option<&Json> = value.get("code");
    match code {
        Some(Json::Array(code)) => {
            proof {
                lemma_array_view(*code);
            }
            match (byte_at(code, 0), byte_at(code, 1)) {
                (Some(gallery), Some(pattern)) => Some(ProjectorPattern { name: name.clone(), gallery, pattern }),
                _ => None,
            }
        },
        _ => None,
    }
}

fn place_pattern(out: &mut Vec<ProjectorPattern>, p: ProjectorPattern)
    requires
        by_code(projector_views(old(out)@)),
    ensures
        by_code(projector_views(final(out)@)),
        projector_views(final(out)@).to_multiset() == projector_views(old(out)@).to_multiset().insert(p@),
{
    let ghost s = projector_views(out@);
    let ghost v = p@;
    let ghost before = out@;
    let mut i: usize = out.len();
    while i > 0 && (out[i - 1].gallery > p.gallery || (out[i - 1].gallery == p.gallery && out[i - 1].pattern > p.pattern))
        invariant
            i <= out@.len(),
            out@ == before,
            s == projector_views(before),
            v == p@,
            forall|j: int| i <= j < s.len() ==> !code_order(#[trigger] s[j], v),
        decreases i,
    {
        i = i - 1;
        assert(s[i as int] == out@[i as int]@);
    }
    assert(i > 0 ==> s[i - 1] == out@[i - 1]@);
    out.insert(i, p);
    proof {
        before.insert_ensures(i as int, out@[i as int]);
        s.insert_ensures(i as int, v);
        let t = projector_views(out@);
        assert(t =~= s.insert(i as int, v));
        broadcast use vstd::seq_lib::group_to_multiset_ensures;
        assert forall|a: int, b: int| 0 <= a <= b < t.len() implies code_order(#[trigger] t[a], #[trigger] t[b]) by {
            let x = if a < i { a } else { a - 1 };
            let y = if b < i { b } else { b - 1 };
            if a != i && b != i {
                assert(t[a] == s[x] && t[b] == s[y]);
                assert(code_order(s[x], s[y]));
            } else if a == i && b != i {
                assert(t[b] == s[y]);
                assert(!code_order(s[y], v));
            } else if b == i && a != i {
                assert(t[a] == s[x]);
                assert(code_order(s[x], s[i - 1]));
            }
        }
    }
}

/// Builds the library from its document, by gallery and pattern; none where the
/// document is not an object of objects of lists of texts.
pub fn build(doc: &Json) -> (r: Option<Vec<ProjectorPattern>>)
    ensures
        match r {
            Some(v) => projector_library_in(doc@) is Some && by_code(projector_views(v@)) && projector_views(v@).to_multiset()
                == projector_library_in(doc@)->0.to_multiset(),
            None => projector_library_in(doc@) is None,
        },
{
    match doc {
        Json::Object(entries) => {
            proof {
                lemma_object_view(*entries);
            }
            let ghost all = entry_views(entries@);
            let mut i: usize = 0;
            while i < entries.len()
                invariant
                    i <= entries@.len(),
                    all == entry_views(entries@),
                    doc@ == JsonView::Object(all),
                    forall|k: int| 0 <= k < i ==> is_code_table((#[trigger] all[k]).1),
                decreases entries@.len() - i,
            {
                assert(all[i as int] == (entries@[i as int].0@, entries@[i as int].1@));
                if !code_table(&entries[i].1) {
                    assert(!is_code_table(all[i as int].1));
                    return None;
                }
                i = i + 1;
            }
            let mut out: Vec<ProjectorPattern> = Vec::new();
            let mut i: usize = 0;
            assert(projector_views(out@) =~= named_in(all.take(0)));
            while i < entries.len()
                invariant
                    i <= entries@.len(),
                    all == entry_views(entries@),
                    by_code(projector_views(out@)),
                    projector_views(out@).to_multiset() == named_in(all.take(i as int)).to_multiset(),
                decreases entries@.len() - i,
            {
                assert(all[i as int] == (entries@[i as int].0@, entries@[i as int].1@));
                assert(all.take(i + 1).drop_last() =~= all.take(i as int));
                let p: Option<ProjectorPattern> = entry_pattern(&entries[i].0, &entries[i].1);
                match p {
                    Some(p) => {
                        proof {
                            broadcast use vstd::seq_lib::group_to_multiset_ensures;
                            let rest = named_in(all.take(i as int));
                            assert(rest.push(p@).to_multiset() == rest.to_multiset().insert(p@));
                        }
                        place_pattern(&mut out, p);
                    },
                    None => {},
                }
                i = i + 1;
            }
            assert(all.take(all.len() as int) =~= all);
            Some(out)
        },
        _ => None,
    }
}

/// Reads the library from its JSON text.
pub fn library(json: &str) -> (r: Option<Vec<ProjectorPattern>>)
    ensures
        match r {
            Some(v) => parsed_json(json@) matches Ok(doc) && projector_library_in(doc) is Some && by_code(projector_views(v@))
                && projector_views(v@).to_multiset() == projector_library_in(doc)->0.to_multiset(),
            None => parsed_json(json@) matches Ok(doc) ==> projector_library_in(doc) is None,
        },
{
    let doc: Result<Json, String> = parse_json(json);
    match doc {
        Ok(doc) => build(&doc),
        Err(_) => None,
    }
}

/// The name of the first pattern of the library with these bytes.
pub open spec fn name_in(lib: Seq<ProjectorPattern>, gallery: u8, pattern: u8) -> Option<Seq<char>>
    decreases lib.len(),
{
    if lib.len() == 0 {
        None
    } else {
        match name_in(lib.drop_last(), gallery, pattern) {
            Some(n) => Some(n),
            None => if lib.last().gallery == gallery && lib.last().pattern == pattern {
                Some(lib.last().name@)
            } else {
                None
            },
        }
    }
}

proof fn lemma_name_in(lib: Seq<ProjectorPattern>, gallery: u8, pattern: u8, i: int)
    requires
        0 <= i < lib.len(),
        name_in(lib.take(i), gallery, pattern) is None,
        lib[i].gallery == gallery,
        lib[i].pattern == pattern,
    ensures
        name_in(lib, gallery, pattern) == Some(lib[i].name@),
    decreases lib.len(),
{
    if i == lib.len() - 1 {
        assert(lib.drop_last() =~= lib.take(i));
    } else {
        assert(lib.drop_last().take(i) =~= lib.take(i));
        lemma_name_in(lib.drop_last(), gallery, pattern, i);
    }
}

/// The name of the first pattern of the library with these bytes.
pub fn name_for<'a>(lib: &'a Vec<ProjectorPattern>, gallery: u8, pattern: u8) -> (r: Option<&'a str>)
    ensures
        match r {
            Some(n) => name_in(lib@, gallery, pattern) == Some(n@),
            None => name_in(lib@, gallery, pattern) is None,
        },
{
    let mut i: usize = 0;
    assert(name_in(lib@.take(0), gallery, pattern) is None);
    while i < lib.len()
        invariant
            i <= lib@.len(),
            name_in(lib@.take(i as int), gallery, pattern) is None,
        decreases lib@.len() - i,
    {
        if lib[i].gallery == gallery && lib[i].pattern == pattern {
            proof {
                lemma_name_in(lib@, gallery, pattern, i as int);
            }
            return Some(lib[i].name.as_str());
        }
        assert(lib@.take(i + 1).drop_last() =~= lib@.take(i as int));
        i = i + 1;
    }
    assert(lib@.take(lib@.len() as int) =~= lib@);
    None
}

/// The sentinel is never a pattern of the library.
pub proof fn law_sentinel_left_out(entries: Seq<(Seq<char>, JsonView)>, i: int)
    requires
        0 <= i < named_in(entries).len(),
    ensures
        named_in(entries)[i].name != "ignore"@,
    decreases entries.len(),
{
    if entries.len() > 0 && i < named_in(entries.drop_last()).len() {
        law_sentinel_left_out(entries.drop_last(), i);
    }
}

} // verus!
