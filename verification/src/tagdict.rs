//! The ID-to-name dictionary.
//!
//! A small typed-field stream declares the character width and a list of
//! name entries; decoding it yields the mapping from small integer ids to
//! tag and attribute names that the document decoder resolves against.
//! Only two field kinds may appear; any other code is fatal.

use vstd::prelude::*;
use crate::errors::DecodeError;
use crate::fields::{FieldType, GField, spec_read_field, lemma_read_field_advances, have};
use crate::reader::ByteFieldReader;

verus! {

/// The field stored at position `i` of a dictionary stream: as the document
/// field at that position, except that only the character-width and name
/// kinds are admitted.
pub open spec fn spec_read_dict_field(b: Seq<u8>, i: int) -> Result<(GField, int), DecodeError> {
    if !have(b, i, 1) {
        Err(DecodeError::TruncatedRead)
    } else if b[i] == 0 || b[i] == 15 {
        spec_read_field(b, i)
    } else {
        Err(DecodeError::UnknownDictFieldCode)
    }
}

/// The id-to-name mapping a list of entries stands for; a later entry for
/// the same id replaces an earlier one.
pub open spec fn dict_of(s: Seq<(u16, String)>) -> Map<u16, Seq<char>>
    decreases s.len(),
{
    if s.len() == 0 {
        Map::empty()
    } else {
        dict_of(s.drop_last()).insert(s.last().0, s.last().1@)
    }
}

proof fn lemma_dict_of_found(s: Seq<(u16, String)>, id: u16, i: int)
    requires
        0 <= i < s.len(),
        s[i].0 == id,
        forall|j: int| i < j < s.len() ==> s[j].0 != id,
    ensures
        dict_of(s).contains_key(id),
        dict_of(s)[id] == s[i].1@,
    decreases s.len(),
{
    if i == s.len() - 1 {
    } else {
        lemma_dict_of_found(s.drop_last(), id, i);
    }
}

proof fn lemma_dict_of_absent(s: Seq<(u16, String)>, id: u16)
    requires
        forall|j: int| 0 <= j < s.len() ==> s[j].0 != id,
    ensures
        !dict_of(s).contains_key(id),
    decreases s.len(),
{
    if s.len() > 0 {
        lemma_dict_of_absent(s.drop_last(), id);
    }
}

/// Decodes single fields of the dictionary stream.
#[derive(Debug)]
pub struct TagDictReader {}

impl TagDictReader {
    pub fn new() -> (r: TagDictReader) {
        TagDictReader {  }
    }

    /// Reads the dictionary field stored at the reader's position, as
    /// `spec_read_dict_field` states it.
    pub fn read_field(&self, r: &mut ByteFieldReader) -> (res: Result<FieldType, DecodeError>)
        requires
            old(r).wf(),
        ensures
            final(r).wf(),
            final(r).bytes() == old(r).bytes(),
            res matches Ok(f) ==> {
                &&& spec_read_dict_field(old(r).bytes(), old(r).position()) matches Ok(p)
                &&& f@ == p.0
                &&& final(r).position() == p.1
            },
            res matches Err(e) ==> spec_read_dict_field(old(r).bytes(), old(r).position())
                == Result::<(GField, int), DecodeError>::Err(e),
    {
        let code = match r.field_type_code() {
            Ok(c) => c,
            Err(e) => {
                return Err(e);
            },
        };
        if code == 0 {
            match r.byte() {
                Ok(value) => Ok(FieldType::CharSize { value }),
                Err(e) => Err(e),
            }
        } else if code == 15 {
            let id = match r.ushort() {
                Ok(v) => v,
                Err(e) => {
                    return Err(e);
                },
            };
            let size = match r.ushort() {
                Ok(v) => v,
                Err(e) => {
                    return Err(e);
                },
            };
            let value = match r.string(size as usize) {
                Ok(v) => v,
                Err(e) => {
                    return Err(e);
                },
            };
            Ok(FieldType::Name { id, size, value })
        } else {
            Err(DecodeError::UnknownDictFieldCode)
        }
    }
}

/// The decoded id-to-name dictionary.
#[derive(Debug)]
pub struct TagDict {
    /// The declared character width; 0 until one is declared.
    pub char_size: u8,
    entries: Vec<(u16, String)>,
    read: TagDictReader,
}

/// The state a dictionary stream decodes to, starting at position `i` with
/// declared width `width` and mapping `m`: the final width and mapping, or
/// the error that aborts the decode. A name entry under a declared
/// multi-byte character width is refused rather than misread.
pub open spec fn spec_dict_run(
    b: Seq<u8>,
    i: int,
    width: u8,
    m: Map<u16, Seq<char>>,
) -> Result<(u8, Map<u16, Seq<char>>), DecodeError>
    decreases b.len() - i,
{
    if !(0 <= i < b.len()) {
        Ok((width, m))
    } else {
        match spec_read_dict_field(b, i) {
            Err(e) => Err(e),
            Ok((f, p)) => {
                proof {
                    lemma_read_field_advances(b, i);
                }
                match f {
                    GField::CharSize { value } => spec_dict_run(b, p, value, m),
                    GField::Name { id, text } => if width > 1 {
                        Err(DecodeError::UnsupportedCharWidth)
                    } else {
                        spec_dict_run(b, p, width, m.insert(id, text))
                    },
                    _ => Err(DecodeError::UnknownDictFieldCode),
                }
            },
        }
    }
}

impl TagDict {
    /// The id-to-name mapping decoded so far.
    pub closed spec fn names(&self) -> Map<u16, Seq<char>> {
        dict_of(self.entries@)
    }

    /// The declared character width, as a specification value.
    pub closed spec fn width(&self) -> u8 {
        self.char_size
    }

    pub fn new() -> (r: TagDict)
        ensures
            r.width() == 0,
            r.names() == Map::<u16, Seq<char>>::empty(),
    {
        TagDict { char_size: 0, entries: Vec::new(), read: TagDictReader::new() }
    }

    /// Stores one name entry, replacing any earlier entry for the id.
    fn insert(&mut self, id: u16, name: String)
        ensures
            final(self).names() == old(self).names().insert(id, name@),
            final(self).width() == old(self).width(),
    {
        self.entries.push((id, name));
        proof {
            assert(self.entries@.drop_last() =~= old(self).entries@);
        }
    }

    /// The name an id resolves to, if any.
    pub fn get(&self, id: u16) -> (r: Option<&String>)
        ensures
            r matches Some(s) ==> self.names().contains_key(id) && s@ == self.names()[id],
            r is None <==> !self.names().contains_key(id),
    {
        let n = self.entries.len();
        let mut i: usize = n;
        while i > 0
            invariant
                i <= n,
                n == self.entries@.len(),
                forall|j: int| i <= j < n ==> self.entries@[j].0 != id,
            decreases i,
        {
            i = i - 1;
            if self.entries[i].0 == id {
                proof {
                    lemma_dict_of_found(self.entries@, id, i as int);
                }
                return Some(&self.entries[i].1);
            }
        }
        proof {
            lemma_dict_of_absent(self.entries@, id);
        }
        None
    }

    /// Decodes a dictionary stream into this dictionary, as
    /// `spec_dict_run` states it.
    pub fn decode(&mut self, data: &[u8]) -> (res: Result<(), DecodeError>)
        ensures
            match spec_dict_run(data@, 0, old(self).width(), old(self).names()) {
                Ok(end) => {
                    &&& res is Ok
                    &&& final(self).width() == end.0
                    &&& final(self).names() == end.1
                },
                Err(e) => res matches Err(e2) && e2 == e,
            },
    {
        let ghost b = data@;
        let ghost w0 = self.char_size;
        let ghost m0 = self.names();
        let mut r = ByteFieldReader::new(vstd::slice::slice_to_vec(data));
        loop
            invariant
                r.wf(),
                r.bytes() == b,
                b == data@,
                w0 == old(self).width(),
                m0 == old(self).names(),
                spec_dict_run(b, r.position(), self.char_size, self.names()) == spec_dict_run(
                    b,
                    0,
                    w0,
                    m0,
                ),
            ensures
                r.position() == b.len(),
                spec_dict_run(b, r.position(), self.char_size, self.names()) == spec_dict_run(
                    b,
                    0,
                    w0,
                    m0,
                ),
            decreases b.len() - r.position(),
        {
            if r.remaining() == 0 {
                break ;
            }
            let ghost i = r.position();
            match self.read.read_field(&mut r) {
                Err(e) => {
                    return Err(e);
                },
                Ok(f) => {
                    proof {
                        lemma_read_field_advances(b, i);
                    }
                    match f {
                        FieldType::CharSize { value } => {
                            self.char_size = value;
                        },
                        FieldType::Name { id, size, value } => {
                            if self.char_size > 1 {
                                return Err(DecodeError::UnsupportedCharWidth);
                            }
                            self.insert(id, value);
                        },
                        _ => {
                            proof {
                                assert(false);
                            }
                            return Err(DecodeError::UnknownDictFieldCode);
                        },
                    }
                },
            }
        }
        Ok(())
    }
}

} // verus!
