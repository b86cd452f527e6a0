//! The document decoder.
//!
//! The main typed-field stream is decoded into one flat, document-ordered
//! list of tag frames. A stack of open frames controls which tag receives
//! the attributes that follow; start fields push a frame, end fields pop
//! one, and free-floating raw text gathers in a separate accumulator. The
//! decoder never builds a tree: the frame list keeps document order, and
//! each frame records the nesting depth at which it was opened.

use vstd::prelude::*;
use crate::errors::DecodeError;
use crate::fields::{FieldType, GField, ProjectDocReader, spec_read_field, lemma_read_field_advances};
use crate::reader::ByteFieldReader;
use crate::tagdict::TagDict;

verus! {

/// One attribute value, as typed on the wire: text, an integer of any
/// width, a boolean, or the bit pattern of a floating value.
#[derive(Debug, Clone, PartialEq)]
pub enum AttrValue {
    Str(String),
    Int(i64),
    Bool(bool),
    Double(u64),
}

/// The mathematical image of an attribute value.
pub enum GAttr {
    Str(Seq<char>),
    Int(int),
    Bool(bool),
    Double(u64),
}

impl View for AttrValue {
    type V = GAttr;

    open spec fn view(&self) -> GAttr {
        match *self {
            AttrValue::Str(ref s) => GAttr::Str(s@),
            AttrValue::Int(v) => GAttr::Int(v as int),
            AttrValue::Bool(v) => GAttr::Bool(v),
            AttrValue::Double(v) => GAttr::Double(v),
        }
    }
}

/// One decoded tag frame: a resolved name, the attributes set on it in
/// order, and the nesting depth at which it was opened.
#[derive(Debug, Clone, PartialEq)]
pub struct Tag {
    pub name: String,
    pub attributes: Vec<(String, AttrValue)>,
    pub depth: usize,
}

/// The mathematical image of a tag frame.
pub struct GTag {
    pub name: Seq<char>,
    pub attrs: Seq<(Seq<char>, GAttr)>,
    pub depth: int,
}

/// The image of an attribute list.
pub open spec fn attrs_view(s: Seq<(String, AttrValue)>) -> Seq<(Seq<char>, GAttr)> {
    s.map_values(|p: (String, AttrValue)| (p.0@, p.1@))
}

impl View for Tag {
    type V = GTag;

    open spec fn view(&self) -> GTag {
        GTag { name: self.name@, attrs: attrs_view(self.attributes@), depth: self.depth as int }
    }
}

/// The image of a tag list.
pub open spec fn gtags(s: Seq<Tag>) -> Seq<GTag> {
    s.map_values(|t: Tag| t@)
}

/// The value of an attribute in a list, with a later setting replacing an
/// earlier one.
pub open spec fn attr_lookup(s: Seq<(Seq<char>, GAttr)>, name: Seq<char>) -> Option<GAttr>
    decreases s.len(),
{
    if s.len() == 0 {
        None
    } else if s.last().0 == name {
        Some(s.last().1)
    } else {
        attr_lookup(s.drop_last(), name)
    }
}

/// The decoder state: the declared character width, the flat tag list, the
/// stack of open frames as indices into that list, and the raw-text
/// accumulator.
pub struct GDoc {
    pub width: u8,
    pub tags: Seq<GTag>,
    pub open: Seq<int>,
    pub raw: Seq<char>,
}

/// Every open frame points into the tag list.
pub open spec fn gdoc_wf(st: GDoc) -> bool {
    forall|k: int| 0 <= k < st.open.len() ==> 0 <= #[trigger] st.open[k] < st.tags.len()
}

/// Sets an attribute on the innermost open frame: the id must resolve in
/// the dictionary and a frame must be open.
pub open spec fn spec_set_attr(
    dict: Map<u16, Seq<char>>,
    st: GDoc,
    id: u16,
    v: GAttr,
) -> Result<GDoc, DecodeError> {
    if !dict.contains_key(id) {
        Err(DecodeError::UnknownTagId)
    } else if st.open.len() == 0 {
        Err(DecodeError::NoOpenTag)
    } else {
        let k = st.open.last();
        let t = st.tags[k];
        Ok(
            GDoc {
                tags: st.tags.update(
                    k,
                    GTag { name: t.name, attrs: t.attrs.push((dict[id], v)), depth: t.depth },
                ),
                ..st
            },
        )
    }
}

/// One step of the document state machine: how a single field transforms
/// the decoder state, or which error it raises.
///
/// - a character-width field records the width;
/// - a start field resolves its id, appends a frame to the flat list and
///   opens it; an unresolved id is fatal;
/// - an end field closes the innermost frame; on an empty stack it is
///   tolerated and changes nothing (unbalanced documents are not checked);
/// - value fields set an attribute on the innermost open frame, with text
///   refused under a declared multi-byte character width;
/// - a data field is unsupported and fatal;
/// - raw text is appended to the accumulator;
/// - push, pop and inline name fields consume their payload and change
///   nothing.
pub open spec fn spec_step(dict: Map<u16, Seq<char>>, st: GDoc, f: GField) -> Result<
    GDoc,
    DecodeError,
> {
    match f {
        GField::CharSize { value } => Ok(GDoc { width: value, ..st }),
        GField::StartTag { id } => if dict.contains_key(id) {
            Ok(
                GDoc {
                    tags: st.tags.push(
                        GTag { name: dict[id], attrs: Seq::empty(), depth: st.open.len() as int },
                    ),
                    open: st.open.push(st.tags.len() as int),
                    ..st
                },
            )
        } else {
            Err(DecodeError::UnknownTagId)
        },
        GField::EndTag { .. } => if st.open.len() > 0 {
            Ok(GDoc { open: st.open.drop_last(), ..st })
        } else {
            Ok(st)
        },
        GField::Str { id, text } => if st.width > 1 {
            Err(DecodeError::UnsupportedCharWidth)
        } else {
            spec_set_attr(dict, st, id, GAttr::Str(text))
        },
        GField::Int { id, value } => spec_set_attr(dict, st, id, GAttr::Int(value as int)),
        GField::Bool { id, value } => spec_set_attr(dict, st, id, GAttr::Bool(value)),
        GField::Long { id, value } => spec_set_attr(dict, st, id, GAttr::Int(value as int)),
        GField::LongLong { id, value } => spec_set_attr(dict, st, id, GAttr::Int(value as int)),
        GField::SizeT { id, value } => spec_set_attr(dict, st, id, GAttr::Int(value as int)),
        GField::Float { id, bits } => spec_set_attr(dict, st, id, GAttr::Double(bits)),
        GField::Double { id, bits } => spec_set_attr(dict, st, id, GAttr::Double(bits)),
        GField::Data { .. } => Err(DecodeError::UnsupportedDataField),
        GField::Raw { text } => if st.width > 1 {
            Err(DecodeError::UnsupportedCharWidth)
        } else {
            Ok(GDoc { raw: st.raw + text, ..st })
        },
        GField::Push => Ok(st),
        GField::Pop => Ok(st),
        GField::Name { .. } => Ok(st),
    }
}

/// The state a document stream decodes to from position `i` under a given
/// dictionary, starting in state `st`; or the error that aborts the decode.
pub open spec fn spec_doc_run(
    b: Seq<u8>,
    i: int,
    dict: Map<u16, Seq<char>>,
    st: GDoc,
) -> Result<GDoc, DecodeError>
    decreases b.len() - i,
{
    if !(0 <= i < b.len()) {
        Ok(st)
    } else {
        match spec_read_field(b, i) {
            Err(e) => Err(e),
            Ok((f, p)) => {
                proof {
                    lemma_read_field_advances(b, i);
                }
                match spec_step(dict, st, f) {
                    Err(e) => Err(e),
                    Ok(st2) => spec_doc_run(b, p, dict, st2),
                }
            },
        }
    }
}

/// A step preserves well-formedness of the open-frame stack.
pub proof fn lemma_step_wf(dict: Map<u16, Seq<char>>, st: GDoc, f: GField)
    requires
        gdoc_wf(st),
        spec_step(dict, st, f) is Ok,
    ensures
        gdoc_wf(spec_step(dict, st, f)->Ok_0),
{
    let st2 = spec_step(dict, st, f)->Ok_0;
    assert forall|k: int| 0 <= k < st2.open.len() implies 0 <= #[trigger] st2.open[k]
        < st2.tags.len() by {
        if st2.open[k] < st.tags.len() {
        }
    }
}

/// The decoded document: the dictionary it resolves ids against and the
/// flat frame list the stream decodes into.
pub struct ProjectDoc {
    /// The declared character width; 0 until one is declared.
    pub char_size: u8,
    reader: ProjectDocReader,
    tagdict: TagDict,
    tags: Vec<Tag>,
    open: Vec<usize>,
    raw: String,
}

impl ProjectDoc {
    /// The id-to-name dictionary the decoder resolves against.
    pub closed spec fn dict(&self) -> Map<u16, Seq<char>> {
        self.tagdict.names()
    }

    /// The decoder state.
    pub closed spec fn doc(&self) -> GDoc {
        GDoc {
            width: self.char_size,
            tags: gtags(self.tags@),
            open: self.open@.map_values(|u: usize| u as int),
            raw: self.raw@,
        }
    }

    pub open spec fn wf(&self) -> bool {
        gdoc_wf(self.doc())
    }

    /// A fresh decoder over an already-decoded dictionary.
    pub fn new(tagdict: TagDict) -> (r: ProjectDoc)
        ensures
            r.dict() == tagdict.names(),
            r.doc().width == 0,
            r.doc().tags == Seq::<GTag>::empty(),
            r.doc().open == Seq::<int>::empty(),
            r.doc().raw == Seq::<char>::empty(),
            r.wf(),
    {
        let r = ProjectDoc {
            char_size: 0,
            reader: ProjectDocReader::new(),
            tagdict,
            tags: Vec::new(),
            open: Vec::new(),
            raw: String::new(),
        };
        proof {
            assert(r.doc().tags =~= Seq::<GTag>::empty());
            assert(r.doc().open =~= Seq::<int>::empty());
        }
        r
    }

    /// The flat, document-ordered tag list decoded so far.
    pub fn collected_tags(&self) -> (r: &Vec<Tag>)
        ensures
            gtags(r@) == self.doc().tags,
    {
        &self.tags
    }

    /// The free-floating raw text gathered outside the tag model.
    pub fn raw_text(&self) -> (r: &String)
        ensures
            r@ == self.doc().raw,
    {
        &self.raw
    }

    /// Opens a new tag frame for a start field, as `spec_step` states it.
    pub fn add_tag(&mut self, id: u16) -> (res: Result<(), DecodeError>)
        requires
            old(self).wf(),
        ensures
            final(self).wf(),
            final(self).dict() == old(self).dict(),
            match spec_step(old(self).dict(), old(self).doc(), (GField::StartTag { id })) {
                Ok(st) => res is Ok && final(self).doc() == st,
                Err(e) => res matches Err(e2) && e2 == e && final(self).doc() == old(self).doc(),
            },
    {
        let name = match self.tagdict.get(id) {
            Some(n) => n.clone(),
            None => {
                return Err(DecodeError::UnknownTagId);
            },
        };
        let depth = self.open.len();
        let idx = self.tags.len();
        let tag = Tag { name, attributes: Vec::new(), depth };
        proof {
            assert(tag@.attrs =~= Seq::<(Seq<char>, GAttr)>::empty());
        }
        self.tags.push(tag);
        self.open.push(idx);
        proof {
            let st = spec_step(old(self).dict(), old(self).doc(), (GField::StartTag { id }))->Ok_0;
            assert(self.doc().tags =~= st.tags);
            assert(self.doc().open =~= st.open);
            lemma_step_wf(old(self).dict(), old(self).doc(), (GField::StartTag { id }));
        }
        Ok(())
    }

    /// Closes the innermost open frame for an end field; an end field on an
    /// empty stack is tolerated and changes nothing.
    pub fn end_tag(&mut self)
        requires
            old(self).wf(),
        ensures
            final(self).wf(),
            final(self).dict() == old(self).dict(),
            final(self).doc() == spec_step(
                old(self).dict(),
                old(self).doc(),
                (GField::EndTag { id: 0 }),
            )->Ok_0,
    {
        if self.open.len() > 0 {
            self.open.pop();
            proof {
                assert(self.doc().open =~= old(self).doc().open.drop_last());
            }
        }
    }

    /// Sets an attribute on the innermost open frame, as `spec_set_attr`
    /// states it.
    pub fn add_attribute(&mut self, id: u16, value: AttrValue) -> (res: Result<(), DecodeError>)
        requires
            old(self).wf(),
        ensures
            final(self).wf(),
            final(self).dict() == old(self).dict(),
            match spec_set_attr(old(self).dict(), old(self).doc(), id, value@) {
                Ok(st) => res is Ok && final(self).doc() == st,
                Err(e) => res matches Err(e2) && e2 == e && final(self).doc() == old(self).doc(),
            },
    {
        let name = match self.tagdict.get(id) {
            Some(n) => n.clone(),
            None => {
                return Err(DecodeError::UnknownTagId);
            },
        };
        if self.open.len() == 0 {
            return Err(DecodeError::NoOpenTag);
        }
        let k = self.open[self.open.len() - 1];
        proof {
            assert(old(self).doc().open.last() == k as int);
            assert(0 <= k < self.tags@.len());
        }
        self.tags[k].attributes.push((name, value));
        proof {
            let st = spec_set_attr(old(self).dict(), old(self).doc(), id, value@)->Ok_0;
            assert(gtags(self.tags@)[k as int].attrs =~= st.tags[k as int].attrs);
            assert(gtags(self.tags@)[k as int] == st.tags[k as int]);
            assert(self.doc().tags =~= st.tags);
            assert(self.doc().open =~= st.open);
        }
        Ok(())
    }

    /// Appends raw text to the accumulator.
    pub fn collect(&mut self, value: &String)
        requires
            old(self).wf(),
        ensures
            final(self).wf(),
            final(self).dict() == old(self).dict(),
            final(self).doc() == (GDoc { raw: old(self).doc().raw + value@, ..old(self).doc() }),
    {
        self.raw.append(value.as_str());
        proof {
            assert(self.doc().tags == old(self).doc().tags);
            assert(self.doc().open == old(self).doc().open);
            assert(self.doc().raw == old(self).doc().raw + value@);
        }
    }

    /// Decodes a document stream, as `spec_doc_run` states it: on success
    /// the decoder holds the state the whole stream runs to; a malformed
    /// stream aborts with its error.
    #[verifier::rlimit(100)]
    pub fn decode(&mut self, data: &[u8]) -> (res: Result<(), DecodeError>)
        requires
            old(self).wf(),
        ensures
            final(self).wf(),
            final(self).dict() == old(self).dict(),
            match spec_doc_run(data@, 0, old(self).dict(), old(self).doc()) {
                Ok(st) => res is Ok && final(self).doc() == st,
                Err(e) => res matches Err(e2) && e2 == e,
            },
    {
        let ghost b = data@;
        let ghost st0 = self.doc();
        let ghost dict = self.dict();
        let mut r = ByteFieldReader::new(vstd::slice::slice_to_vec(data));
        loop
            invariant
                self.wf(),
                r.wf(),
                r.bytes() == b,
                b == data@,
                dict == old(self).dict(),
                st0 == old(self).doc(),
                self.dict() == dict,
                spec_doc_run(b, r.position(), dict, self.doc()) == spec_doc_run(b, 0, dict, st0),
            ensures
                self.wf(),
                self.dict() == dict,
                r.position() == b.len(),
                spec_doc_run(b, r.position(), dict, self.doc()) == spec_doc_run(b, 0, dict, st0),
            decreases b.len() - r.position(),
        {
            if r.remaining() == 0 {
                break ;
            }
            let ghost i = r.position();
            let f = match self.reader.read_field(&mut r) {
                Err(e) => {
                    return Err(e);
                },
                Ok(f) => f,
            };
            proof {
                lemma_read_field_advances(b, i);
            }
            match f {
                FieldType::CharSize { value } => {
                    self.char_size = value;
                },
                FieldType::StartTag { id } => {
                    if let Err(e) = self.add_tag(id) {
                        return Err(e);
                    }
                },
                FieldType::EndTag { id: _ } => {
                    self.end_tag();
                },
                FieldType::Str { id, size: _, value } => {
                    if self.char_size > 1 {
                        return Err(DecodeError::UnsupportedCharWidth);
                    }
                    if let Err(e) = self.add_attribute(id, AttrValue::Str(value)) {
                        return Err(e);
                    }
                },
                FieldType::Int { id, value } => {
                    if let Err(e) = self.add_attribute(id, AttrValue::Int(value as i64)) {
                        return Err(e);
                    }
                },
                FieldType::Bool { id, value } => {
                    if let Err(e) = self.add_attribute(id, AttrValue::Bool(value)) {
                        return Err(e);
                    }
                },
                FieldType::Long { id, value } => {
                    if let Err(e) = self.add_attribute(id, AttrValue::Int(value as i64)) {
                        return Err(e);
                    }
                },
                FieldType::LongLong { id, value } => {
                    if let Err(e) = self.add_attribute(id, AttrValue::Int(value)) {
                        return Err(e);
                    }
                },
                FieldType::SizeT { id, value } => {
                    if let Err(e) = self.add_attribute(id, AttrValue::Int(value as i64)) {
                        return Err(e);
                    }
                },
                FieldType::Float { id, bits } => {
                    if let Err(e) = self.add_attribute(id, AttrValue::Double(bits)) {
                        return Err(e);
                    }
                },
                FieldType::Double { id, bits } => {
                    if let Err(e) = self.add_attribute(id, AttrValue::Double(bits)) {
                        return Err(e);
                    }
                },
                FieldType::Data { size: _, value: _ } => {
                    return Err(DecodeError::UnsupportedDataField);
                },
                FieldType::Raw { size: _, value } => {
                    if self.char_size > 1 {
                        return Err(DecodeError::UnsupportedCharWidth);
                    }
                    self.collect(&value);
                },
                FieldType::Push => {},
                FieldType::Pop => {},
                FieldType::Name { id: _, size: _, value: _ } => {},
            }
        }
        Ok(())
    }
}

} // verus!
