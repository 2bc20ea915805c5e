//! The description of a syntax tree: one line for each kind of node, of the
//! form `Name : Type field, Type field, ...`.

use vstd::prelude::*;
use crate::scanner::{lemma_run_end_unique, run_end};
use crate::text::trimmed;

verus! {

/// A field of a node: its name and the name of its type.
#[derive(Debug)]
pub struct FieldInfo {
    pub field_name: String,
    pub field_type: String,
}

/// A kind of node: its name and its fields, in order.
#[derive(Debug)]
pub struct StructInfo {
    pub name: String,
    pub fields: Vec<FieldInfo>,
}

/// The mathematical value of a [`FieldInfo`].
pub struct FieldInfoView {
    pub field_name: Seq<char>,
    pub field_type: Seq<char>,
}

/// The mathematical value of a [`StructInfo`].
pub struct StructInfoView {
    pub name: Seq<char>,
    pub fields: Seq<FieldInfoView>,
}

impl View for FieldInfo {
    type V = FieldInfoView;

    open spec fn view(&self) -> FieldInfoView {
        FieldInfoView { field_name: self.field_name@, field_type: self.field_type@ }
    }
}

impl View for StructInfo {
    type V = StructInfoView;

    open spec fn view(&self) -> StructInfoView {
        StructInfoView { name: self.name@, fields: self.fields@.map_values(|f: FieldInfo| f@) }
    }
}

/// The class of the characters other than `separator`.
pub open spec fn other_than(separator: char) -> spec_fn(char) -> bool {
    |c: char| c != separator
}

/// The position of the first `separator` in `s`, or the length of `s` if
/// it holds none.
pub open spec fn first(s: Seq<char>, separator: char) -> int {
    run_end(s, 0, other_than(separator))
}

/// The parts of `s` between its separators, in order: one more than there
/// are separators, and empty where two separators meet or one stands at an
/// end.
pub open spec fn pieces(s: Seq<char>, separator: char) -> Seq<Seq<char>>
    decreases s.len(),
    via pieces_decreases
{
    let at = first(s, separator);
    if 0 <= at < s.len() {
        seq![s.subrange(0, at)] + pieces(s.subrange(at + 1, s.len() as int), separator)
    } else {
        seq![s]
    }
}

#[via_fn]
proof fn pieces_decreases(s: Seq<char>, separator: char) {
}

/// The field that `text` describes, if it describes one: the name of a
/// type and the name of the field, with one space between them and white
/// space around them at most.
pub open spec fn field_of(text: Seq<char>) -> Option<FieldInfoView> {
    let words = pieces(trimmed(text), ' ');
    if words.len() == 2 {
        Some(FieldInfoView { field_name: trimmed(words[1]), field_type: trimmed(words[0]) })
    } else {
        None
    }
}

/// The fields that `texts` describe, in order; a text that describes no
/// field is passed over.
pub open spec fn fields_of(texts: Seq<Seq<char>>) -> Seq<FieldInfoView>
    decreases texts.len(),
{
    if texts.len() == 0 {
        Seq::empty()
    } else {
        match field_of(texts.last()) {
            Some(field) => fields_of(texts.drop_last()).push(field),
            None => fields_of(texts.drop_last()),
        }
    }
}

/// The kind of node that `definition` describes, if it describes one: a
/// name, a colon, and the fields with commas between them. A definition
/// with no colon, or with more than one, describes none.
pub open spec fn struct_of(definition: Seq<char>) -> Option<StructInfoView> {
    let parts = pieces(definition, ':');
    if parts.len() == 2 {
        Some(StructInfoView { name: trimmed(parts[0]), fields: fields_of(pieces(parts[1], ',')) })
    } else {
        None
    }
}

/// Whether values of the type named `field_type` borrow from the source.
pub open spec fn borrows(field_type: Seq<char>) -> bool {
    field_type == "Expr"@ || field_type == "Token"@ || field_type == "LoxLiteral"@
}

/// The views of the parts, in order.
pub open spec fn texts(parts: Seq<String>) -> Seq<Seq<char>> {
    parts.map_values(|part: String| part@)
}

/// The parts of `text` between its separators.
pub fn split(text: &str, separator: char) -> (parts: Vec<String>)
    ensures
        texts(parts@) == pieces(text@, separator),
{
    let mut parts: Vec<String> = Vec::new();
    let mut part = String::new();
    let ghost mut start: int = 0;
    let ghost s = text@;
    proof {
        assert(s.subrange(0, s.len() as int) =~= s);
        assert(texts(parts@) + pieces(s, separator) =~= pieces(s, separator));
    }
    for c in it: text.chars()
        invariant
            it.seq() == s,
            0 <= start <= it.index(),
            part@ == s.subrange(start, it.index() as int),
            forall|i: int| start <= i < it.index() ==> #[trigger] s[i] != separator,
            pieces(s, separator) == texts(parts@) + pieces(
                s.subrange(start, s.len() as int),
                separator,
            ),
    {
        let ghost at = it.index() as int;
        if c == separator {
            proof {
                let rest = s.subrange(start, s.len() as int);
                assert(rest[at - start] == s[at]);
                assert forall|i: int| 0 <= i < at - start implies #[trigger] rest[i]
                    != separator by {
                    assert(rest[i] == s[start + i]);
                }
                lemma_run_end_unique(rest, 0, at - start, other_than(separator));
                assert(rest.subrange(0, at - start) =~= part@);
                assert(rest.subrange(at - start + 1, rest.len() as int) =~= s.subrange(
                    at + 1,
                    s.len() as int,
                ));
                let after = pieces(s.subrange(at + 1, s.len() as int), separator);
                assert(pieces(rest, separator) == seq![part@] + after);
                assert(texts(parts@.push(part)) =~= texts(parts@).push(part@));
                assert(texts(parts@) + (seq![part@] + after) =~= texts(parts@).push(part@) + after);
            }
            parts.push(part);
            part = String::new();
            proof {
                start = at + 1;
            }
        } else {
            part.push(c);
        }
        assert(part@ =~= s.subrange(start, at + 1));
    }
    proof {
        let rest = s.subrange(start, s.len() as int);
        assert forall|i: int| 0 <= i < rest.len() implies #[trigger] rest[i] != separator by {
            assert(rest[i] == s[start + i]);
        }
        lemma_run_end_unique(rest, 0, rest.len() as int, other_than(separator));
        assert(part@ =~= rest);
        assert(pieces(rest, separator) == seq![rest]);
        assert(texts(parts@.push(part)) =~= texts(parts@).push(part@));
        assert(texts(parts@) + seq![rest] =~= texts(parts@).push(part@));
    }
    parts.push(part);
    parts
}

/// The kind of node that `definition` describes, if it describes one.
pub fn parse_struct_info(definition: &str) -> (info: Option<StructInfo>)
    ensures
        match info {
            Some(found) => struct_of(definition@) == Some(found@),
            None => struct_of(definition@) is None,
        },
{
    let parts = split(definition, ':');
    if parts.len() != 2 {
        return None;
    }
    assert(texts(parts@)[0] == parts@[0]@);
    assert(texts(parts@)[1] == parts@[1]@);
    let mut field_info_list: Vec<FieldInfo> = Vec::new();
    let field_texts = split(parts[1].as_str(), ',');
    let ghost all = texts(field_texts@);
    let mut i: usize = 0;
    while i < field_texts.len()
        invariant
            i <= field_texts.len(),
            all == texts(field_texts@),
            field_info_list@.map_values(|f: FieldInfo| f@) == fields_of(all.take(i as int)),
        decreases field_texts.len() - i,
    {
        let words = split(field_texts[i].as_str().trim(), ' ');
        proof {
            assert(all[i as int] == field_texts@[i as int]@);
            assert(all.take(i + 1).drop_last() =~= all.take(i as int));
            assert(all.take(i + 1).last() == all[i as int]);
        }
        if words.len() == 2 {
            assert(texts(words@)[0] == words@[0]@);
            assert(texts(words@)[1] == words@[1]@);
            let field = FieldInfo {
                field_name: words[1].as_str().trim().to_owned(),
                field_type: words[0].as_str().trim().to_owned(),
            };
            proof {
                assert(field_info_list@.push(field).map_values(|f: FieldInfo| f@)
                    =~= field_info_list@.map_values(|f: FieldInfo| f@).push(field@));
            }
            field_info_list.push(field);
        }
        i += 1;
    }
    assert(all.take(i as int) =~= all);
    Some(StructInfo { name: parts[0].as_str().trim().to_owned(), fields: field_info_list })
}

/// Whether the type of `field` borrows from the source.
pub fn field_has_lifetime(field: &FieldInfo) -> (has: bool)
    ensures
        has == borrows(field@.field_type),
{
    field.field_type == "Expr".to_owned() || field.field_type == "Token".to_owned()
        || field.field_type == "LoxLiteral".to_owned()
}

/// Whether the type of one of `fields` borrows from the source.
pub fn struct_has_lifetime(fields: &Vec<FieldInfo>) -> (has: bool)
    ensures
        has == exists|i: int| 0 <= i < fields@.len() && borrows(#[trigger] fields@[i]@.field_type),
{
    let mut i: usize = 0;
    while i < fields.len()
        invariant
            i <= fields.len(),
            forall|j: int| 0 <= j < i ==> !borrows(#[trigger] fields@[j]@.field_type),
        decreases fields.len() - i,
    {
        if field_has_lifetime(&fields[i]) {
            return true;
        }
        i += 1;
    }
    false
}

/// Whether the type of a field of one of `variants` borrows from the
/// source.
pub fn enum_has_lifetime(variants: &Vec<StructInfo>) -> (has: bool)
    ensures
        has == exists|i: int, j: int|
            0 <= i < variants@.len() && 0 <= j < variants@[i].fields@.len() && borrows(
                #[trigger] variants@[i].fields@[j]@.field_type,
            ),
{
    let mut i: usize = 0;
    while i < variants.len()
        invariant
            i <= variants.len(),
            forall|k: int, j: int|
                0 <= k < i && 0 <= j < variants@[k].fields@.len() ==> !borrows(
                    #[trigger] variants@[k].fields@[j]@.field_type,
                ),
        decreases variants.len() - i,
    {
        if struct_has_lifetime(&variants[i].fields) {
            return true;
        }
        i += 1;
    }
    false
}

} // verus!
