//! Typed domain records projected from the decoded tag list.
//!
//! The extractor scans the flat, document-ordered tag list by name, as the
//! decoder left it: labels, wave blocks, sequences and clips. A sequence
//! owns the wave blocks that are document-order descendants within its
//! span; a clip owns the nearest following sequence. A required attribute
//! that is absent, or one whose value cannot be read in the needed numeric
//! kind, is fatal for the record; finding no records at all is an explicit
//! empty result, never an error.

use vstd::prelude::*;
use crate::errors::ExtractError;
use crate::document::{Tag, GTag, AttrValue, GAttr, attr_lookup, gtags};
use crate::fixed::{Fixed, f64_exp, f64_mag_units, f64_units, SECOND_UNITS};

verus! {

/// A titled region of the timeline, in seconds.
#[derive(Debug, Clone, PartialEq)]
pub struct Label {
    pub t: Fixed,
    pub t1: Fixed,
    pub title: String,
}

/// The mathematical image of a label.
pub struct GLabel {
    pub t: Fixed,
    pub t1: Fixed,
    pub title: Seq<char>,
}

impl View for Label {
    type V = GLabel;

    open spec fn view(&self) -> GLabel {
        GLabel { t: self.t, t1: self.t1, title: self.title@ }
    }
}

/// One storage chunk of a sequence: the frame offset where it starts and
/// the opaque key of its stored bytes.
#[derive(Debug, Clone, Copy, PartialEq, Eq, Structural)]
pub struct WaveBlock {
    pub start: u64,
    pub blockid: u64,
}

/// The ordered chunk list composing one clip's audio.
#[derive(Debug, Clone, PartialEq)]
pub struct Sequence {
    pub maxsamples: u64,
    pub numsamples: u64,
    pub blocks: Vec<WaveBlock>,
}

/// The mathematical image of a sequence.
pub struct GSequence {
    pub maxsamples: u64,
    pub numsamples: u64,
    pub blocks: Seq<WaveBlock>,
}

impl View for Sequence {
    type V = GSequence;

    open spec fn view(&self) -> GSequence {
        GSequence { maxsamples: self.maxsamples, numsamples: self.numsamples, blocks: self.blocks@ }
    }
}

/// A placed audio region: its offset on the project timeline and its
/// sequence, if it is not declared empty.
#[derive(Debug, Clone, PartialEq)]
pub struct WaveClip {
    pub offset: Fixed,
    pub sequence: Option<Sequence>,
}

/// The mathematical image of a clip.
pub struct GWaveClip {
    pub offset: Fixed,
    pub sequence: Option<GSequence>,
}

impl View for WaveClip {
    type V = GWaveClip;

    open spec fn view(&self) -> GWaveClip {
        GWaveClip {
            offset: self.offset,
            sequence: match self.sequence {
                Some(ref s) => Some(s@),
                None => None,
            },
        }
    }
}

/// The mathematical image of an extraction error.
pub enum GExtractError {
    MissingSampleRate,
    MissingAttribute(Seq<char>),
    AttributeParseError(Seq<char>),
}

impl View for ExtractError {
    type V = GExtractError;

    open spec fn view(&self) -> GExtractError {
        match *self {
            ExtractError::MissingSampleRate => GExtractError::MissingSampleRate,
            ExtractError::MissingAttribute(ref s) => GExtractError::MissingAttribute(s@),
            ExtractError::AttributeParseError(ref s) => GExtractError::AttributeParseError(s@),
        }
    }
}

proof fn lemma_attr_lookup_found(s: Seq<(Seq<char>, GAttr)>, name: Seq<char>, i: int)
    requires
        0 <= i < s.len(),
        s[i].0 == name,
        forall|j: int| i < j < s.len() ==> s[j].0 != name,
    ensures
        attr_lookup(s, name) == Some(s[i].1),
    decreases s.len(),
{
    if i == s.len() - 1 {
    } else {
        lemma_attr_lookup_found(s.drop_last(), name, i);
    }
}

proof fn lemma_attr_lookup_absent(s: Seq<(Seq<char>, GAttr)>, name: Seq<char>)
    requires
        forall|j: int| 0 <= j < s.len() ==> s[j].0 != name,
    ensures
        attr_lookup(s, name) is None,
    decreases s.len(),
{
    if s.len() > 0 {
        lemma_attr_lookup_absent(s.drop_last(), name);
    }
}

/// The value set for an attribute on a tag, if any; a later setting wins.
pub fn attr_of<'a>(t: &'a Tag, name: &String) -> (r: Option<&'a AttrValue>)
    ensures
        r matches Some(a) ==> attr_lookup(t@.attrs, name@) == Some(a@),
        r is None <==> attr_lookup(t@.attrs, name@) is None,
{
    let n = t.attributes.len();
    let mut i: usize = n;
    while i > 0
        invariant
            i <= n,
            n == t.attributes@.len(),
            forall|j: int| i <= j < n ==> t@.attrs[j].0 != name@,
        decreases i,
    {
        i = i - 1;
        if t.attributes[i].0 == *name {
            proof {
                lemma_attr_lookup_found(t@.attrs, name@, i as int);
            }
            return Some(&t.attributes[i].1);
        }
    }
    proof {
        lemma_attr_lookup_absent(t@.attrs, name@);
    }
    None
}

/// The fixed-point seconds an attribute value stands for: the rounded
/// value of a floating field, or a whole number of seconds from an integer
/// field; anything else, or a value out of range, has none.
pub open spec fn gattr_units(a: GAttr) -> Option<int> {
    match a {
        GAttr::Int(v) => if -0x8000_0000 <= v <= 0x7FFF_FFFF {
            Some(v * SECOND_UNITS)
        } else {
            None
        },
        GAttr::Double(bits) => if f64_exp(bits) == 0x7FF || f64_mag_units(bits) > i64::MAX {
            None
        } else {
            Some(f64_units(bits))
        },
        _ => None,
    }
}

/// Reads an attribute value as fixed-point seconds, as `gattr_units`
/// states it.
pub fn attr_to_fixed(a: &AttrValue) -> (r: Option<Fixed>)
    ensures
        r matches Some(f) ==> gattr_units(a@) == Some(f.units as int),
        r is None <==> gattr_units(a@) is None,
{
    match a {
        AttrValue::Int(v) => {
            if -0x8000_0000i64 <= *v && *v <= 0x7FFF_FFFFi64 {
                Fixed::from_seconds(*v)
            } else {
                None
            }
        },
        AttrValue::Double(bits) => Fixed::from_f64_bits(*bits),
        _ => None,
    }
}

/// The unsigned count an attribute value stands for: a non-negative
/// integer field; anything else has none.
pub open spec fn gattr_count(a: GAttr) -> Option<u64> {
    match a {
        GAttr::Int(v) => if 0 <= v <= u64::MAX {
            Some(v as u64)
        } else {
            None
        },
        _ => None,
    }
}

/// Reads an attribute value as an unsigned count, as `gattr_count` states
/// it.
pub fn attr_to_count(a: &AttrValue) -> (r: Option<u64>)
    ensures
        r == gattr_count(a@),
{
    match a {
        AttrValue::Int(v) => {
            if *v >= 0 {
                Some(*v as u64)
            } else {
                None
            }
        },
        _ => None,
    }
}

/// The label a tag stands for, or why it cannot be read: the title must be
/// a text attribute and both bounds must carry times.
pub open spec fn spec_label_of(t: GTag) -> Result<GLabel, GExtractError> {
    match attr_lookup(t.attrs, "title"@) {
        None => Err(GExtractError::MissingAttribute("title"@)),
        Some(a) => match a {
            GAttr::Str(title) => match attr_lookup(t.attrs, "t"@) {
                None => Err(GExtractError::MissingAttribute("t"@)),
                Some(ta) => match gattr_units(ta) {
                    None => Err(GExtractError::AttributeParseError("t"@)),
                    Some(tu) => match attr_lookup(t.attrs, "t1"@) {
                        None => Err(GExtractError::MissingAttribute("t1"@)),
                        Some(t1a) => match gattr_units(t1a) {
                            None => Err(GExtractError::AttributeParseError("t1"@)),
                            Some(t1u) => Ok(
                                GLabel {
                                    t: Fixed { units: tu as i64 },
                                    t1: Fixed { units: t1u as i64 },
                                    title,
                                },
                            ),
                        },
                    },
                },
            },
            _ => Err(GExtractError::AttributeParseError("title"@)),
        },
    }
}

impl Label {
    /// Reads one label tag, as `spec_label_of` states it.
    pub fn from_tag(t: &Tag) -> (r: Result<Label, ExtractError>)
        ensures
            r matches Ok(l) ==> spec_label_of(t@) == Result::<GLabel, GExtractError>::Ok(l@),
            r matches Err(e) ==> spec_label_of(t@) == Result::<GLabel, GExtractError>::Err(e@),
    {
        let title_key = String::from_str("title");
        let t_key = String::from_str("t");
        let t1_key = String::from_str("t1");
        let title = match attr_of(t, &title_key) {
            None => {
                return Err(ExtractError::MissingAttribute(title_key));
            },
            Some(AttrValue::Str(s)) => s.clone(),
            Some(_) => {
                return Err(ExtractError::AttributeParseError(title_key));
            },
        };
        let tv = match attr_of(t, &t_key) {
            None => {
                return Err(ExtractError::MissingAttribute(t_key));
            },
            Some(a) => match attr_to_fixed(a) {
                None => {
                    return Err(ExtractError::AttributeParseError(t_key));
                },
                Some(f) => f,
            },
        };
        let t1v = match attr_of(t, &t1_key) {
            None => {
                return Err(ExtractError::MissingAttribute(t1_key));
            },
            Some(a) => match attr_to_fixed(a) {
                None => {
                    return Err(ExtractError::AttributeParseError(t1_key));
                },
                Some(f) => f,
            },
        };
        Ok(Label { t: tv, t1: t1v, title })
    }
}

/// The wave block a tag stands for: both the frame offset and the chunk
/// key must be non-negative integer attributes.
pub open spec fn spec_waveblock_of(t: GTag) -> Result<WaveBlock, GExtractError> {
    match attr_lookup(t.attrs, "start"@) {
        None => Err(GExtractError::MissingAttribute("start"@)),
        Some(sa) => match gattr_count(sa) {
            None => Err(GExtractError::AttributeParseError("start"@)),
            Some(start) => match attr_lookup(t.attrs, "blockid"@) {
                None => Err(GExtractError::MissingAttribute("blockid"@)),
                Some(ba) => match gattr_count(ba) {
                    None => Err(GExtractError::AttributeParseError("blockid"@)),
                    Some(blockid) => Ok(WaveBlock { start, blockid }),
                },
            },
        },
    }
}

impl WaveBlock {
    /// Reads one wave block tag, as `spec_waveblock_of` states it.
    pub fn from_tag(t: &Tag) -> (r: Result<WaveBlock, ExtractError>)
        ensures
            r matches Ok(w) ==> spec_waveblock_of(t@) == Result::<WaveBlock, GExtractError>::Ok(
                w,
            ),
            r matches Err(e) ==> spec_waveblock_of(t@) == Result::<WaveBlock, GExtractError>::Err(
                e@,
            ),
    {
    let start_key = String::from_str("start");
    let blockid_key = String::from_str("blockid");
    let start = match attr_of(t, &start_key) {
        None => {
            return Err(ExtractError::MissingAttribute(start_key));
        },
        Some(a) => match attr_to_count(a) {
            None => {
                return Err(ExtractError::AttributeParseError(start_key));
            },
            Some(v) => v,
        },
    };
    let blockid = match attr_of(t, &blockid_key) {
        None => {
            return Err(ExtractError::MissingAttribute(blockid_key));
        },
        Some(a) => match attr_to_count(a) {
            None => {
                return Err(ExtractError::AttributeParseError(blockid_key));
            },
            Some(v) => v,
        },
    };
        Ok(WaveBlock { start, blockid })
    }
}

/// The first tag at or after position `j` with the given name, or the
/// length of the list if there is none.
pub open spec fn first_named_from(tags: Seq<GTag>, name: Seq<char>, j: int) -> int
    decreases tags.len() - j,
{
    if !(0 <= j < tags.len()) {
        tags.len() as int
    } else if tags[j].name == name {
        j
    } else {
        first_named_from(tags, name, j + 1)
    }
}

proof fn lemma_first_named_bounds(tags: Seq<GTag>, name: Seq<char>, j: int)
    requires
        0 <= j <= tags.len(),
    ensures
        j <= first_named_from(tags, name, j) <= tags.len(),
    decreases tags.len() - j,
{
    if j < tags.len() && tags[j].name != name {
        lemma_first_named_bounds(tags, name, j + 1);
    }
}

/// The labels of the document in order, or the error that aborts the
/// projection, collecting from position `j` onto `acc`.
pub open spec fn spec_labels_from(tags: Seq<GTag>, j: int, acc: Seq<GLabel>) -> Result<
    Seq<GLabel>,
    GExtractError,
>
    decreases tags.len() - j,
{
    if !(0 <= j < tags.len()) {
        Ok(acc)
    } else if tags[j].name == "label"@ {
        match spec_label_of(tags[j]) {
            Err(e) => Err(e),
            Ok(l) => spec_labels_from(tags, j + 1, acc.push(l)),
        }
    } else {
        spec_labels_from(tags, j + 1, acc)
    }
}

/// All labels of the document, in document order.
pub open spec fn spec_labels(tags: Seq<GTag>) -> Result<Seq<GLabel>, GExtractError> {
    spec_labels_from(tags, 0, Seq::empty())
}

/// The wave blocks of the document in order, collecting from position `j`
/// onto `acc`.
pub open spec fn spec_waveblocks_from(tags: Seq<GTag>, j: int, acc: Seq<WaveBlock>) -> Result<
    Seq<WaveBlock>,
    GExtractError,
>
    decreases tags.len() - j,
{
    if !(0 <= j < tags.len()) {
        Ok(acc)
    } else if tags[j].name == "waveblock"@ {
        match spec_waveblock_of(tags[j]) {
            Err(e) => Err(e),
            Ok(w) => spec_waveblocks_from(tags, j + 1, acc.push(w)),
        }
    } else {
        spec_waveblocks_from(tags, j + 1, acc)
    }
}

/// All wave blocks of the document, in document order.
pub open spec fn spec_waveblocks(tags: Seq<GTag>) -> Result<Seq<WaveBlock>, GExtractError> {
    spec_waveblocks_from(tags, 0, Seq::empty())
}

/// The sample rate of the document: the integer value of the "rate"
/// attribute of the first "project" tag. A floating rate is accepted only
/// when it is exactly a whole number; anything else is no rate.
pub open spec fn spec_sample_rate(tags: Seq<GTag>) -> Option<i64> {
    let k = first_named_from(tags, "project"@, 0);
    if k == tags.len() {
        None
    } else {
        match attr_lookup(tags[k].attrs, "rate"@) {
            None => None,
            Some(a) => match a {
                GAttr::Int(v) => Some(v as i64),
                GAttr::Double(_) => match gattr_units(a) {
                    None => None,
                    Some(u) => {
                        let m = if u >= 0 { u } else { -u };
                        if m % (SECOND_UNITS as int) == 0 {
                            let q = m / (SECOND_UNITS as int);
                            Some((if u >= 0 { q } else { -q }) as i64)
                        } else {
                            None
                        }
                    },
                },
                _ => None,
            },
        }
    }
}

/// The image of a label list.
pub open spec fn glabels(s: Seq<Label>) -> Seq<GLabel> {
    s.map_values(|l: Label| l@)
}

/// The image of a sequence list.
pub open spec fn gsequences(s: Seq<Sequence>) -> Seq<GSequence> {
    s.map_values(|q: Sequence| q@)
}

/// The image of a clip list.
pub open spec fn gwaveclips(s: Seq<WaveClip>) -> Seq<GWaveClip> {
    s.map_values(|c: WaveClip| c@)
}

/// The end of the span a tag at depth `d` opens: the first position at or
/// after `j` whose tag sits at depth `d` or above, or the end of the list.
pub open spec fn span_end_from(tags: Seq<GTag>, d: int, j: int) -> int
    decreases tags.len() - j,
{
    if !(0 <= j < tags.len()) {
        tags.len() as int
    } else if tags[j].depth <= d {
        j
    } else {
        span_end_from(tags, d, j + 1)
    }
}

proof fn lemma_span_end_bounds(tags: Seq<GTag>, d: int, j: int)
    requires
        0 <= j <= tags.len(),
    ensures
        j <= span_end_from(tags, d, j) <= tags.len(),
    decreases tags.len() - j,
{
    if j < tags.len() && tags[j].depth > d {
        lemma_span_end_bounds(tags, d, j + 1);
    }
}

/// The wave blocks among positions `j` (inclusive) to `end` (exclusive),
/// collected onto `acc`.
pub open spec fn spec_blocks_between(
    tags: Seq<GTag>,
    j: int,
    end: int,
    acc: Seq<WaveBlock>,
) -> Result<Seq<WaveBlock>, GExtractError>
    decreases end - j,
{
    if !(j < end) {
        Ok(acc)
    } else if !(0 <= j < tags.len()) {
        Ok(acc)
    } else if tags[j].name == "waveblock"@ {
        match spec_waveblock_of(tags[j]) {
            Err(e) => Err(e),
            Ok(w) => spec_blocks_between(tags, j + 1, end, acc.push(w)),
        }
    } else {
        spec_blocks_between(tags, j + 1, end, acc)
    }
}

/// The sequence a tag at position `i` stands for: its sample counts, and
/// the wave blocks that are document-order descendants within its span.
pub open spec fn spec_sequence_at(tags: Seq<GTag>, i: int) -> Result<GSequence, GExtractError> {
    let t = tags[i];
    match attr_lookup(t.attrs, "maxsamples"@) {
        None => Err(GExtractError::MissingAttribute("maxsamples"@)),
        Some(ma) => match gattr_count(ma) {
            None => Err(GExtractError::AttributeParseError("maxsamples"@)),
            Some(maxsamples) => match attr_lookup(t.attrs, "numsamples"@) {
                None => Err(GExtractError::MissingAttribute("numsamples"@)),
                Some(na) => match gattr_count(na) {
                    None => Err(GExtractError::AttributeParseError("numsamples"@)),
                    Some(numsamples) => match spec_blocks_between(
                        tags,
                        i + 1,
                        span_end_from(tags, t.depth, i + 1),
                        Seq::empty(),
                    ) {
                        Err(e) => Err(e),
                        Ok(blocks) => Ok(GSequence { maxsamples, numsamples, blocks }),
                    },
                },
            },
        },
    }
}

/// The clip a tag at position `i` stands for: its timeline offset, and the
/// nearest following sequence tag as its sequence, if any.
pub open spec fn spec_waveclip_at(tags: Seq<GTag>, i: int) -> Result<GWaveClip, GExtractError> {
    let t = tags[i];
    match attr_lookup(t.attrs, "offset"@) {
        None => Err(GExtractError::MissingAttribute("offset"@)),
        Some(a) => match gattr_units(a) {
            None => Err(GExtractError::AttributeParseError("offset"@)),
            Some(u) => {
                let k = first_named_from(tags, "sequence"@, i + 1);
                if k == tags.len() {
                    Ok(GWaveClip { offset: Fixed { units: u as i64 }, sequence: None })
                } else {
                    match spec_sequence_at(tags, k) {
                        Err(e) => Err(e),
                        Ok(s) => Ok(
                            GWaveClip { offset: Fixed { units: u as i64 }, sequence: Some(s) },
                        ),
                    }
                }
            },
        },
    }
}

/// The sequences of the document in order, collecting from position `j`
/// onto `acc`.
pub open spec fn spec_sequences_from(tags: Seq<GTag>, j: int, acc: Seq<GSequence>) -> Result<
    Seq<GSequence>,
    GExtractError,
>
    decreases tags.len() - j,
{
    if !(0 <= j < tags.len()) {
        Ok(acc)
    } else if tags[j].name == "sequence"@ {
        match spec_sequence_at(tags, j) {
            Err(e) => Err(e),
            Ok(s) => spec_sequences_from(tags, j + 1, acc.push(s)),
        }
    } else {
        spec_sequences_from(tags, j + 1, acc)
    }
}

/// All sequences of the document, in document order.
pub open spec fn spec_sequences(tags: Seq<GTag>) -> Result<Seq<GSequence>, GExtractError> {
    spec_sequences_from(tags, 0, Seq::empty())
}

/// The clips of the document in order, collecting from position `j` onto
/// `acc`.
pub open spec fn spec_waveclips_from(tags: Seq<GTag>, j: int, acc: Seq<GWaveClip>) -> Result<
    Seq<GWaveClip>,
    GExtractError,
>
    decreases tags.len() - j,
{
    if !(0 <= j < tags.len()) {
        Ok(acc)
    } else if tags[j].name == "waveclip"@ {
        match spec_waveclip_at(tags, j) {
            Err(e) => Err(e),
            Ok(c) => spec_waveclips_from(tags, j + 1, acc.push(c)),
        }
    } else {
        spec_waveclips_from(tags, j + 1, acc)
    }
}

/// All clips of the document, in document order.
pub open spec fn spec_waveclips(tags: Seq<GTag>) -> Result<Seq<GWaveClip>, GExtractError> {
    spec_waveclips_from(tags, 0, Seq::empty())
}

/// Reads the sequence opened by the tag at position `i`, as
/// `spec_sequence_at` states it.
fn sequence_at(tags: &Vec<Tag>, i: usize) -> (r: Result<Sequence, ExtractError>)
    requires
        i < tags@.len(),
    ensures
        r matches Ok(sq) ==> spec_sequence_at(gtags(tags@), i as int) matches Ok(s) && sq@ == s,
        r matches Err(e) ==> spec_sequence_at(gtags(tags@), i as int) == Result::<
            GSequence,
            GExtractError,
        >::Err(e@),
{
    let ghost gt = gtags(tags@);
    let maxsamples_key = String::from_str("maxsamples");
    let numsamples_key = String::from_str("numsamples");
    let t = &tags[i];
    proof {
        assert(t@ == gt[i as int]);
    }
    let maxsamples = match attr_of(t, &maxsamples_key) {
        None => {
            return Err(ExtractError::MissingAttribute(maxsamples_key));
        },
        Some(a) => match attr_to_count(a) {
            None => {
                return Err(ExtractError::AttributeParseError(maxsamples_key));
            },
            Some(v) => v,
        },
    };
    let numsamples = match attr_of(t, &numsamples_key) {
        None => {
            return Err(ExtractError::MissingAttribute(numsamples_key));
        },
        Some(a) => match attr_to_count(a) {
            None => {
                return Err(ExtractError::AttributeParseError(numsamples_key));
            },
            Some(v) => v,
        },
    };
    let d = tags[i].depth;
    let ghost send = span_end_from(gt, d as int, i + 1);
    proof {
        lemma_span_end_bounds(gt, d as int, i + 1);
    }
    let waveblock_key = String::from_str("waveblock");
    let mut blocks: Vec<WaveBlock> = Vec::new();
    let n = tags.len();
    let mut j: usize = i + 1;
    loop
        invariant
            i + 1 <= j <= n,
            n == tags@.len(),
            gt == gtags(tags@),
            d == gt[i as int].depth,
            send == span_end_from(gt, d as int, i + 1),
            span_end_from(gt, d as int, j as int) == send,
            waveblock_key@ == "waveblock"@,
            attr_lookup(gt[i as int].attrs, "maxsamples"@) matches Some(ma) && gattr_count(ma)
                == Some(maxsamples),
            attr_lookup(gt[i as int].attrs, "numsamples"@) matches Some(na) && gattr_count(na)
                == Some(numsamples),
            spec_blocks_between(gt, i + 1, send, Seq::empty()) == spec_blocks_between(
                gt,
                j as int,
                send,
                blocks@,
            ),
        ensures
            spec_blocks_between(gt, i + 1, send, Seq::empty()) == Result::<
                Seq<WaveBlock>,
                GExtractError,
            >::Ok(blocks@),
        decreases n - j,
    {
        if j >= n {
            proof {
                lemma_span_end_bounds(gt, d as int, j as int);
            }
            break ;
        }
        if tags[j].depth <= d {
            break ;
        }
        proof {
            lemma_span_end_bounds(gt, d as int, j + 1);
        }
        if tags[j].name == waveblock_key {
            match WaveBlock::from_tag(&tags[j]) {
                Ok(w) => {
                    blocks.push(w);
                },
                Err(e) => {
                    return Err(e);
                },
            }
        }
        j = j + 1;
    }
    Ok(Sequence { maxsamples, numsamples, blocks })
}

/// Reads the clip opened by the tag at position `i`, as `spec_waveclip_at`
/// states it.
fn waveclip_at(tags: &Vec<Tag>, i: usize) -> (r: Result<WaveClip, ExtractError>)
    requires
        i < tags@.len(),
    ensures
        r matches Ok(c) ==> spec_waveclip_at(gtags(tags@), i as int) matches Ok(gc) && c@ == gc,
        r matches Err(e) ==> spec_waveclip_at(gtags(tags@), i as int) == Result::<
            GWaveClip,
            GExtractError,
        >::Err(e@),
{
    let ghost gt = gtags(tags@);
    let offset_key = String::from_str("offset");
    let t = &tags[i];
    proof {
        assert(t@ == gt[i as int]);
    }
    let offset = match attr_of(t, &offset_key) {
        None => {
            return Err(ExtractError::MissingAttribute(offset_key));
        },
        Some(a) => match attr_to_fixed(a) {
            None => {
                return Err(ExtractError::AttributeParseError(offset_key));
            },
            Some(f) => f,
        },
    };
    let sequence_key = String::from_str("sequence");
    let n = tags.len();
    let mut j: usize = i + 1;
    loop
        invariant
            i + 1 <= j <= n,
            n == tags@.len(),
            gt == gtags(tags@),
            sequence_key@ == "sequence"@,
            first_named_from(gt, "sequence"@, i + 1) == first_named_from(gt, "sequence"@, j as int),
        ensures
            j as int == first_named_from(gt, "sequence"@, i + 1),
            j < n ==> gt[j as int].name == "sequence"@,
        decreases n - j,
    {
        if j >= n {
            break ;
        }
        if tags[j].name == sequence_key {
            break ;
        }
        j = j + 1;
    }
    if j >= n {
        Ok(WaveClip { offset, sequence: None })
    } else {
        match sequence_at(tags, j) {
            Ok(sq) => Ok(WaveClip { offset, sequence: Some(sq) }),
            Err(e) => Err(e),
        }
    }
}


impl crate::document::ProjectDoc {
    /// Every label of the document, in document order; an explicit absence
    /// when there is none, as `spec_labels` states it.
    pub fn parse_labels(&self) -> (r: Result<Option<Vec<Label>>, ExtractError>)
        ensures
            match spec_labels(self.doc().tags) {
                Ok(ls) => {
                    &&& (ls.len() == 0 ==> r matches Ok(None))
                    &&& (ls.len() > 0 ==> (r matches Ok(Some(v)) && glabels(v@) == ls))
                },
                Err(e) => r matches Err(e2) && e2@ == e,
            },
    {
        let ghost gt = self.doc().tags;
        let tags = self.collected_tags();
        let label_key = String::from_str("label");
        let mut out: Vec<Label> = Vec::new();
        proof {
            assert(glabels(out@) =~= Seq::<GLabel>::empty());
        }
        let n = tags.len();
        let mut i: usize = 0;
        while i < n
            invariant
                i <= n,
                n == tags@.len(),
                gt == gtags(tags@),
                gt == self.doc().tags,
                label_key@ == "label"@,
                spec_labels_from(gt, i as int, glabels(out@)) == spec_labels(gt),
            decreases n - i,
        {
            proof {
                assert(gt[i as int] == tags@[i as int]@);
            }
            if tags[i].name == label_key {
                match Label::from_tag(&tags[i]) {
                    Ok(l) => {
                        proof {
                            assert(glabels(out@.push(l)) =~= glabels(out@).push(l@));
                        }
                        out.push(l);
                    },
                    Err(e) => {
                        return Err(e);
                    },
                }
            }
            i = i + 1;
        }
        if out.len() == 0 {
            Ok(None)
        } else {
            Ok(Some(out))
        }
    }

    /// Every wave block of the document, in document order; an explicit
    /// absence when there is none, as `spec_waveblocks` states it.
    pub fn parse_waveblocks(&self) -> (r: Result<Option<Vec<WaveBlock>>, ExtractError>)
        ensures
            match spec_waveblocks(self.doc().tags) {
                Ok(ws) => {
                    &&& (ws.len() == 0 ==> r matches Ok(None))
                    &&& (ws.len() > 0 ==> (r matches Ok(Some(v)) && v@ == ws))
                },
                Err(e) => r matches Err(e2) && e2@ == e,
            },
    {
        let ghost gt = self.doc().tags;
        let tags = self.collected_tags();
        let waveblock_key = String::from_str("waveblock");
        let mut out: Vec<WaveBlock> = Vec::new();
        let n = tags.len();
        let mut i: usize = 0;
        while i < n
            invariant
                i <= n,
                n == tags@.len(),
                gt == gtags(tags@),
                gt == self.doc().tags,
                waveblock_key@ == "waveblock"@,
                spec_waveblocks_from(gt, i as int, out@) == spec_waveblocks(gt),
            decreases n - i,
        {
            proof {
                assert(gt[i as int] == tags@[i as int]@);
            }
            if tags[i].name == waveblock_key {
                match WaveBlock::from_tag(&tags[i]) {
                    Ok(w) => {
                        out.push(w);
                    },
                    Err(e) => {
                        return Err(e);
                    },
                }
            }
            i = i + 1;
        }
        if out.len() == 0 {
            Ok(None)
        } else {
            Ok(Some(out))
        }
    }

    /// Every sequence of the document, in document order; an explicit
    /// absence when there is none, as `spec_sequences` states it.
    pub fn parse_sequences(&self) -> (r: Result<Option<Vec<Sequence>>, ExtractError>)
        ensures
            match spec_sequences(self.doc().tags) {
                Ok(qs) => {
                    &&& (qs.len() == 0 ==> r matches Ok(None))
                    &&& (qs.len() > 0 ==> (r matches Ok(Some(v)) && gsequences(v@) == qs))
                },
                Err(e) => r matches Err(e2) && e2@ == e,
            },
    {
        let ghost gt = self.doc().tags;
        let tags = self.collected_tags();
        let sequence_key = String::from_str("sequence");
        let mut out: Vec<Sequence> = Vec::new();
        proof {
            assert(gsequences(out@) =~= Seq::<GSequence>::empty());
        }
        let n = tags.len();
        let mut i: usize = 0;
        while i < n
            invariant
                i <= n,
                n == tags@.len(),
                gt == gtags(tags@),
                gt == self.doc().tags,
                sequence_key@ == "sequence"@,
                spec_sequences_from(gt, i as int, gsequences(out@)) == spec_sequences(gt),
            decreases n - i,
        {
            proof {
                assert(gt[i as int] == tags@[i as int]@);
            }
            if tags[i].name == sequence_key {
                match sequence_at(tags, i) {
                    Ok(q) => {
                        proof {
                            assert(gsequences(out@.push(q)) =~= gsequences(out@).push(q@));
                        }
                        out.push(q);
                    },
                    Err(e) => {
                        return Err(e);
                    },
                }
            }
            i = i + 1;
        }
        if out.len() == 0 {
            Ok(None)
        } else {
            Ok(Some(out))
        }
    }

    /// Every clip of the document, in document order; an explicit absence
    /// when there is none, as `spec_waveclips` states it.
    pub fn parse_waveclips(&self) -> (r: Result<Option<Vec<WaveClip>>, ExtractError>)
        ensures
            match spec_waveclips(self.doc().tags) {
                Ok(cs) => {
                    &&& (cs.len() == 0 ==> r matches Ok(None))
                    &&& (cs.len() > 0 ==> (r matches Ok(Some(v)) && gwaveclips(v@) == cs))
                },
                Err(e) => r matches Err(e2) && e2@ == e,
            },
    {
        let ghost gt = self.doc().tags;
        let tags = self.collected_tags();
        let waveclip_key = String::from_str("waveclip");
        let mut out: Vec<WaveClip> = Vec::new();
        proof {
            assert(gwaveclips(out@) =~= Seq::<GWaveClip>::empty());
        }
        let n = tags.len();
        let mut i: usize = 0;
        while i < n
            invariant
                i <= n,
                n == tags@.len(),
                gt == gtags(tags@),
                gt == self.doc().tags,
                waveclip_key@ == "waveclip"@,
                spec_waveclips_from(gt, i as int, gwaveclips(out@)) == spec_waveclips(gt),
            decreases n - i,
        {
            proof {
                assert(gt[i as int] == tags@[i as int]@);
            }
            if tags[i].name == waveclip_key {
                match waveclip_at(tags, i) {
                    Ok(c) => {
                        proof {
                            assert(gwaveclips(out@.push(c)) =~= gwaveclips(out@).push(c@));
                        }
                        out.push(c);
                    },
                    Err(e) => {
                        return Err(e);
                    },
                }
            }
            i = i + 1;
        }
        if out.len() == 0 {
            Ok(None)
        } else {
            Ok(Some(out))
        }
    }

    /// The first tag with the given name, in document order.
    pub fn get_tag_by_name(&self, name: &String) -> (r: Option<&Tag>)
        ensures
            ({
                let k = first_named_from(self.doc().tags, name@, 0);
                &&& (r is Some <==> k < self.doc().tags.len())
                &&& (r matches Some(t) ==> k < self.doc().tags.len() && t@ == self.doc().tags[k])
            }),
    {
        let tags = self.collected_tags();
        let n = tags.len();
        let mut i: usize = 0;
        while i < n
            invariant
                i <= n,
                n == tags@.len(),
                gtags(tags@) == self.doc().tags,
                first_named_from(self.doc().tags, name@, 0) == first_named_from(
                    self.doc().tags,
                    name@,
                    i as int,
                ),
            decreases n - i,
        {
            proof {
                assert(self.doc().tags[i as int] == tags@[i as int]@);
            }
            if tags[i].name == *name {
                return Some(&tags[i]);
            }
            i = i + 1;
        }
        None
    }

    /// The integer sample rate of the project, as `spec_sample_rate`
    /// states it: the "rate" attribute of the first "project" tag, also
    /// accepted from a floating field that carries a whole number.
    pub fn parse_sample_rate(&self) -> (r: Option<i64>)
        ensures
            r == spec_sample_rate(self.doc().tags),
    {
        let project_key = String::from_str("project");
        proof {
            lemma_first_named_bounds(self.doc().tags, "project"@, 0);
        }
        let t = match self.get_tag_by_name(&project_key) {
            None => {
                return None;
            },
            Some(t) => t,
        };
        let rate_key = String::from_str("rate");
        match attr_of(t, &rate_key) {
            None => None,
            Some(AttrValue::Int(v)) => Some(*v),
            Some(AttrValue::Double(bits)) => match Fixed::from_f64_bits(*bits) {
                None => None,
                Some(f) => {
                    proof {
                        crate::fixed::lemma_mag_units_nonneg(*bits);
                        assert(f.units > i64::MIN);
                    }
                    let m: u64 = if f.units >= 0 {
                        f.units as u64
                    } else {
                        (-(f.units)) as u64
                    };
                    if m % 0x1_0000_0000 == 0 {
                        let q = (m / 0x1_0000_0000) as i64;
                        Some(if f.units < 0 { -q } else { q })
                    } else {
                        None
                    }
                },
            },
            Some(_) => None,
        }
    }
}

} // verus!

