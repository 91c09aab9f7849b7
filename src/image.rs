//! Boot images in Intel HEX form: records to byte segments, byte segments to
//! a word image.
use vstd::multiset::Multiset;
use vstd::prelude::*;

use crate::instruction::Word;
use ihex::Record as R;

verus! {

broadcast use vstd::seq_lib::group_to_multiset_ensures, vstd::multiset::group_multiset_axioms, vstd::seq_lib::to_multiset_insert;

/// One record of an Intel HEX file.
#[derive(Clone, Debug, PartialEq, Eq)]
pub enum HexRecord {
    Data { offset: u16, value: Vec<u8> },
    EndOfFile,
    ExtendedSegmentAddress(u16),
    StartSegmentAddress { cs: u16, ip: u16 },
    ExtendedLinearAddress(u16),
    StartLinearAddress(u32),
}

/// A line that is not a well-formed record.
#[derive(Clone, Copy, Debug, PartialEq, Eq, Structural)]
pub struct HexRecordError;

/// Record kinds that a boot image may not hold.
#[derive(Clone, Copy, Debug, PartialEq, Eq, Structural)]
pub enum UnsupportedRecord {
    ExtendedSegmentAddress(u16),
    StartSegmentAddress { cs: u16, ip: u16 },
    StartLinearAddress(u32),
}

#[derive(Clone, Copy, Debug, PartialEq, Eq, Structural)]
pub enum LoadingRomError {
    InvalidRecord,
    UnsupportedRecordType { record: UnsupportedRecord },
    /// A data record at an odd address or with an odd number of bytes.
    OddRecord { offset: u32, size: u32 },
    /// A segment starts `size` bytes before the previous one ends.
    Overlapping { offset: u32, size: u32 },
    Empty,
    /// The image does not start at address 0.
    Offset,
}

/// What each line of an Intel HEX text parses to, in order: a record or
/// `None` for a malformed line. Empty lines are skipped; the sequence ends
/// after the first malformed line or end-of-file record.
pub uninterp spec fn ihex_records(text: Seq<char>) -> Seq<Option<HexRecordView>>;

/// A record with its payload as a sequence.
pub enum HexRecordView {
    Data { offset: u16, value: Seq<u8> },
    EndOfFile,
    ExtendedSegmentAddress(u16),
    StartSegmentAddress { cs: u16, ip: u16 },
    ExtendedLinearAddress(u16),
    StartLinearAddress(u32),
}

impl View for HexRecord {
    type V = HexRecordView;

    open spec fn view(&self) -> HexRecordView {
        match self {
            HexRecord::Data { offset, value } => HexRecordView::Data { offset: *offset, value: value@ },
            HexRecord::EndOfFile => HexRecordView::EndOfFile,
            HexRecord::ExtendedSegmentAddress(a) => HexRecordView::ExtendedSegmentAddress(*a),
            HexRecord::StartSegmentAddress { cs, ip } => HexRecordView::StartSegmentAddress {
                cs: *cs,
                ip: *ip,
            },
            HexRecord::ExtendedLinearAddress(a) => HexRecordView::ExtendedLinearAddress(*a),
            HexRecord::StartLinearAddress(a) => HexRecordView::StartLinearAddress(*a),
        }
    }
}

pub open spec fn record_result_view(r: Result<HexRecord, HexRecordError>) -> Option<HexRecordView> {
    match r {
        Ok(rec) => Some(rec@),
        Err(_) => None,
    }
}

/// A data record holds at most 255 bytes, the most that its one byte
/// length field can count.
pub open spec fn data_fits(r: Result<HexRecord, HexRecordError>) -> bool {
    r matches Ok(HexRecord::Data { value, .. }) ==> value@.len() <= 255
}

/// Relies on `ihex::Reader` with its default options: one parse result per
/// non-empty line, no result after the first error or end-of-file record,
/// and data records whose payload length matches their one byte length
/// field.
#[verifier::external_body]
fn read_ihex_records(text: &str) -> (r: Vec<Result<HexRecord, HexRecordError>>)
    ensures
        r@.len() == ihex_records(text@).len(),
        forall|i: int| 0 <= i < r@.len() ==> record_result_view(#[trigger] r@[i]) == ihex_records(text@)[i],
        forall|i: int| 0 <= i < r@.len() - 1 ==> (#[trigger] r@[i]) is Ok && !(r@[i]->Ok_0 is EndOfFile),
        forall|i: int| 0 <= i < r@.len() ==> data_fits(#[trigger] r@[i]),
{
    ihex::Reader::new(text).map(|rec| match rec {
        Ok(R::Data { offset, value }) => Ok(HexRecord::Data { offset, value }),
        Ok(R::EndOfFile) => Ok(HexRecord::EndOfFile),
        Ok(R::ExtendedSegmentAddress(a)) => Ok(HexRecord::ExtendedSegmentAddress(a)),
        Ok(R::StartSegmentAddress { cs, ip }) => Ok(HexRecord::StartSegmentAddress { cs, ip }),
        Ok(R::ExtendedLinearAddress(a)) => Ok(HexRecord::ExtendedLinearAddress(a)),
        Ok(R::StartLinearAddress(a)) => Ok(HexRecord::StartLinearAddress(a)),
        Err(_) => Err(HexRecordError),
    }).collect()
}

/// Bytes placed at a 32 bit address.
#[derive(Clone, Debug, PartialEq, Eq)]
pub struct U8Segment {
    pub offset: u32,
    pub data: Vec<u8>,
}

/// A segment as its address and bytes.
pub open spec fn seg_view(s: U8Segment) -> (u32, Seq<u8>) {
    (s.offset, s.data@)
}

pub open spec fn segs_view(v: Seq<U8Segment>) -> Seq<(u32, Seq<u8>)> {
    v.map_values(|s: U8Segment| seg_view(s))
}

/// Address one past the last byte.
pub open spec fn seg_end(s: (u32, Seq<u8>)) -> int {
    s.0 + s.1.len()
}

impl U8Segment {
    /// Address one past the last byte.
    pub fn end(&self) -> (r: u64)
        requires
            self.data.len() <= u32::MAX,
        ensures
            r == seg_end(seg_view(*self)),
    {
        self.offset as u64 + self.data.len() as u64
    }

    /// The bytes as big endian words, high byte first.
    pub fn to_words(&self) -> (r: Vec<Word>)
        requires
            self.data.len() % 2 == 0,
        ensures
            r@.len() * 2 == self.data@.len(),
            forall|k: int| 0 <= k < r@.len() ==> #[trigger] r@[k] == be_word(self.data@, 2 * k),
    {
        let mut r: Vec<Word> = Vec::new();
        let mut i: usize = 0;
        while i < self.data.len()
            invariant
                i % 2 == 0,
                i <= self.data.len(),
                self.data.len() % 2 == 0,
                r@.len() * 2 == i,
                forall|k: int| 0 <= k < r@.len() ==> #[trigger] r@[k] == be_word(self.data@, 2 * k),
            decreases self.data.len() - i,
        {
            let w: Word = (self.data[i] as u16) * 256 + self.data[i + 1] as u16;
            r.push(w);
            i = i + 2;
        }
        r
    }
}

/// Big endian word of the two bytes at `i`.
pub open spec fn be_word(b: Seq<u8>, i: int) -> u16 {
    (b[i] as u16 * 256 + b[i + 1] as u16) as u16
}

/// Record kind of a record that a boot image may not hold.
pub open spec fn unsupported_of(r: HexRecordView) -> Option<UnsupportedRecord> {
    match r {
        HexRecordView::ExtendedSegmentAddress(a) => Some(UnsupportedRecord::ExtendedSegmentAddress(a)),
        HexRecordView::StartSegmentAddress { cs, ip } => Some(
            UnsupportedRecord::StartSegmentAddress { cs, ip },
        ),
        HexRecordView::StartLinearAddress(a) => Some(UnsupportedRecord::StartLinearAddress(a)),
        _ => None,
    }
}

/// Segments of the records from `i` on, after those already in `acc`, with
/// `base` as the current upper address half.
pub open spec fn collect_from(recs: Seq<Option<HexRecordView>>, i: int, base: u32, acc: Seq<(u32, Seq<u8>)>) -> Result<Seq<(u32, Seq<u8>)>, LoadingRomError>
    decreases recs.len() - i,
{
    if i < 0 || i >= recs.len() {
        Ok(acc)
    } else {
        match recs[i] {
            None => Err(LoadingRomError::InvalidRecord),
            Some(HexRecordView::Data { offset, value }) => if value.len() == 0 {
                collect_from(recs, i + 1, base, acc)
            } else if offset % 2 != 0 || value.len() % 2 != 0 {
                Err(LoadingRomError::OddRecord { offset: (base + offset) as u32, size: value.len() as u32 })
            } else {
                collect_from(recs, i + 1, base, acc.push(((base + offset) as u32, value)))
            },
            Some(HexRecordView::ExtendedLinearAddress(e)) => collect_from(recs, i + 1, ((e as u32) * 0x1_0000) as u32, acc),
            Some(HexRecordView::EndOfFile) => Ok(acc),
            Some(r) => Err(LoadingRomError::UnsupportedRecordType { record: unsupported_of(r)->Some_0 }),
        }
    }
}

/// Data segments that the records describe, in record order. Empty data
/// records are skipped; an odd data record, an unsupported record kind or a
/// malformed line is an error; an end-of-file record ends the records.
pub open spec fn collect_segments(recs: Seq<Option<HexRecordView>>) -> Result<Seq<(u32, Seq<u8>)>, LoadingRomError> {
    collect_from(recs, 0, 0, seq![])
}

pub open spec fn sorted_by_offset(s: Seq<(u32, Seq<u8>)>) -> bool {
    forall|i: int, j: int| 0 <= i < j < s.len() ==> (#[trigger] s[i]).0 <= (#[trigger] s[j]).0
}

/// Segments of parsed records, in record order.
pub fn segments_from_records(records: &Vec<Result<HexRecord, HexRecordError>>) -> (r: Result<Vec<U8Segment>, LoadingRomError>)
    ensures
        match collect_segments(records@.map_values(|x: Result<HexRecord, HexRecordError>| record_result_view(x))) {
            Ok(s) => r is Ok && segs_view(r->Ok_0@) == s,
            Err(e) => r == Err::<Vec<U8Segment>, LoadingRomError>(e),
        },
        r matches Ok(v) ==> forall|k: int| 0 <= k < v@.len() ==> (#[trigger] v@[k]).offset % 2 == 0
            && v@[k].data@.len() % 2 == 0,
        (forall|i: int| 0 <= i < records@.len() ==> data_fits(#[trigger] records@[i])) ==> (
        r matches Ok(v) ==> forall|k: int| 0 <= k < v@.len() ==> (#[trigger] v@[k]).data@.len() <= 255),
{
    let ghost recs = records@.map_values(|x: Result<HexRecord, HexRecordError>| record_result_view(x));
    let mut acc: Vec<U8Segment> = Vec::new();
    let mut base: u32 = 0;
    let mut i: usize = 0;
    proof {
        assert(segs_view(acc@) =~= seq![]);
    }
    while i < records.len()
        invariant
            i <= records.len(),
            recs == records@.map_values(|x: Result<HexRecord, HexRecordError>| record_result_view(x)),
            base % 0x1_0000 == 0,
            collect_segments(recs) == collect_from(recs, i as int, base, segs_view(acc@)),
            forall|k: int| 0 <= k < acc@.len() ==> (#[trigger] acc@[k]).offset % 2 == 0
                && acc@[k].data@.len() % 2 == 0,
            (forall|j: int| 0 <= j < records@.len() ==> data_fits(#[trigger] records@[j]))
                ==> forall|k: int| 0 <= k < acc@.len() ==> (#[trigger] acc@[k]).data@.len() <= 255,
        decreases records.len() - i,
    {
        proof {
            assert(recs[i as int] == record_result_view(records@[i as int]));
        }
        match &records[i] {
            Err(_) => {
                return Err(LoadingRomError::InvalidRecord);
            },
            Ok(HexRecord::Data { offset, value }) => {
                if value.len() > 0 {
                    let o: u32 = base + *offset as u32;
                    if *offset % 2 != 0 || value.len() % 2 != 0 {
                        return Err(LoadingRomError::OddRecord { offset: o, size: value.len() as u32 });
                    }
                    let data = value.clone();
                    proof {
                        assert(data@ =~= value@);
                        assert(o % 2 == 0) by {
                            assert(base % 2 == 0);
                        }
                        if forall|j: int| 0 <= j < records@.len() ==> data_fits(#[trigger] records@[j]) {
                            assert(data_fits(records@[i as int]));
                        }
                        assert(segs_view(acc@.push(U8Segment { offset: o, data })) =~= segs_view(acc@).push((o, value@)));
                    }
                    acc.push(U8Segment { offset: o, data });
                }
            },
            Ok(HexRecord::ExtendedLinearAddress(e)) => {
                base = (*e as u32) * 0x1_0000;
            },
            Ok(HexRecord::EndOfFile) => {
                return Ok(acc);
            },
            Ok(HexRecord::ExtendedSegmentAddress(a)) => {
                return Err(LoadingRomError::UnsupportedRecordType { record: UnsupportedRecord::ExtendedSegmentAddress(*a) });
            },
            Ok(HexRecord::StartSegmentAddress { cs, ip }) => {
                return Err(LoadingRomError::UnsupportedRecordType { record: UnsupportedRecord::StartSegmentAddress { cs: *cs, ip: *ip } });
            },
            Ok(HexRecord::StartLinearAddress(a)) => {
                return Err(LoadingRomError::UnsupportedRecordType { record: UnsupportedRecord::StartLinearAddress(*a) });
            },
        }
        i = i + 1;
    }
    Ok(acc)
}


/// The same segments ordered by address; segments at one address may come
/// in any order.
pub fn sort_segments(v: Vec<U8Segment>) -> (r: Vec<U8Segment>)
    ensures
        sorted_by_offset(segs_view(r@)),
        segs_view(r@).to_multiset() == segs_view(v@).to_multiset(),
{
    let ghost all = segs_view(v@).to_multiset();
    let mut v = v;
    let mut r: Vec<U8Segment> = Vec::new();
    proof {
        assert(segs_view(r@) =~= seq![]);
        assert(segs_view(r@).to_multiset() =~= Multiset::empty());
        assert(segs_view(r@).to_multiset().add(segs_view(v@).to_multiset()) =~= all);
    }
    while v.len() > 0
        invariant
            sorted_by_offset(segs_view(r@)),
            segs_view(r@).to_multiset().add(segs_view(v@).to_multiset()) == all,
        decreases v.len(),
    {
        let ghost before = v@;
        let s = v.pop().unwrap();
        proof {
            assert(before =~= v@.push(s));
            assert(segs_view(before) =~= segs_view(v@).push(seg_view(s)));
        }
        let mut j: usize = 0;
        while j < r.len() && r[j].offset <= s.offset
            invariant
                j <= r.len(),
                forall|k: int| 0 <= k < j ==> (#[trigger] r@[k]).offset <= s.offset,
            decreases r.len() - j,
        {
            j = j + 1;
        }
        let ghost old_r = r@;
        r.insert(j, s);
        proof {
            assert(segs_view(r@) =~= segs_view(old_r).insert(j as int, seg_view(s)));
            assert(segs_view(old_r) =~= segs_view(old_r));
            assert forall|a: int, b: int| 0 <= a < b < r@.len() implies (#[trigger] segs_view(
                r@,
            )[a]).0 <= (#[trigger] segs_view(r@)[b]).0 by {
                assert(segs_view(old_r)[0].0 == old_r[0].offset || old_r.len() == 0);
                if a < j && b < j {
                    assert(segs_view(old_r)[a].0 <= segs_view(old_r)[b].0);
                } else if a < j && b == j {
                } else if a < j {
                    assert(segs_view(old_r)[a].0 <= segs_view(old_r)[b - 1].0);
                } else if a == j {
                    assert(j < old_r.len());
                    assert(old_r[j as int].offset > s.offset);
                    if b - 1 > j {
                        assert(segs_view(old_r)[j as int].0 <= segs_view(old_r)[b - 1].0);
                    }
                } else {
                    assert(segs_view(old_r)[a - 1].0 <= segs_view(old_r)[b - 1].0);
                }
            }
        }
    }
    proof {
        assert(segs_view(v@) =~= seq![]);
        assert(segs_view(v@).to_multiset() =~= Multiset::empty());
        assert(segs_view(r@).to_multiset() =~= all);
    }
    r
}

/// Data segments of an Intel HEX text, ordered by address.
pub fn load_ihex_segments(text: &str) -> (r: Result<Vec<U8Segment>, LoadingRomError>)
    ensures
        match collect_segments(ihex_records(text@)) {
            Ok(s) => r is Ok && sorted_by_offset(segs_view(r->Ok_0@)) && segs_view(
                r->Ok_0@,
            ).to_multiset() == s.to_multiset(),
            Err(e) => r == Err::<Vec<U8Segment>, LoadingRomError>(e),
        },
        r matches Ok(v) ==> forall|k: int| 0 <= k < v@.len() ==> (#[trigger] v@[k]).offset % 2 == 0
            && v@[k].data@.len() % 2 == 0 && v@[k].data@.len() <= 255,
{
    let records = read_ihex_records(text);
    proof {
        assert(records@.map_values(|x: Result<HexRecord, HexRecordError>| record_result_view(x))
            =~= ihex_records(text@));
    }
    let segments = segments_from_records(&records)?;
    let sorted = sort_segments(segments);
    proof {
        assert forall|k: int| 0 <= k < sorted@.len() implies (#[trigger] sorted@[k]).offset % 2 == 0
            && sorted@[k].data@.len() % 2 == 0 && sorted@[k].data@.len() <= 255 by {
            let x = seg_view(sorted@[k]);
            assert(segs_view(sorted@)[k] == x);
            assert(segs_view(sorted@).contains(x));
            assert(segs_view(sorted@).to_multiset().count(x) > 0);
            assert(segs_view(segments@).to_multiset().count(x) > 0);
            assert(segs_view(segments@).contains(x));
            let j = choose|j: int| 0 <= j < segs_view(segments@).len() && segs_view(segments@)[j] == x;
            assert(seg_view(segments@[j]) == x);
        }
    }
    Ok(sorted)
}

/// Word image of an Intel HEX text: its data segments, ordered by address
/// (in some order among segments at one address), made into words as
/// `convert_u8_segments` does.
pub fn load_ihex(text: &str) -> (r: Result<Vec<Word>, LoadingRomError>)
    ensures
        match collect_segments(ihex_records(text@)) {
            Err(e) => r == Err::<Vec<Word>, LoadingRomError>(e),
            Ok(s) => exists|p: Seq<(u32, Seq<u8>)>|
                sorted_by_offset(p) && p.to_multiset() == s.to_multiset() && match image_of(p) {
                    Ok(w) => r matches Ok(v) && v@ == w,
                    Err(e) => r == Err::<Vec<Word>, LoadingRomError>(e),
                },
        },
{
    let segments = load_ihex_segments(text)?;
    let r = convert_u8_segments(&segments);
    proof {
        let p = segs_view(segments@);
        assert(sorted_by_offset(p));
    }
    r
}


pub open spec fn holds_address(seg: (u32, Seq<u8>), a: int) -> bool {
    seg.0 <= a < seg_end(seg)
}

/// Word at byte address `a` of the image: from the first segment that holds
/// the address, zero where none does.
pub open spec fn word_at(s: Seq<(u32, Seq<u8>)>, a: int) -> u16
    decreases s.len(),
{
    if s.len() == 0 {
        0
    } else if holds_address(s[0], a) {
        be_word(s[0].1, a - s[0].0)
    } else {
        word_at(s.drop_first(), a)
    }
}

/// First `i` from `from` on where segment `i + 1` starts before segment `i`
/// ends.
pub open spec fn first_overlap(s: Seq<(u32, Seq<u8>)>, from: int) -> Option<int>
    decreases s.len() - from,
{
    if from < 0 || from + 1 >= s.len() {
        None
    } else if (s[from + 1].0 as int) < seg_end(s[from]) {
        Some(from)
    } else {
        first_overlap(s, from + 1)
    }
}

/// Word image of segments ordered by address: every byte address up to the
/// end of the last segment, gaps filled with zero.
pub open spec fn image_of(s: Seq<(u32, Seq<u8>)>) -> Result<Seq<u16>, LoadingRomError> {
    if s.len() == 0 {
        Err(LoadingRomError::Empty)
    } else if s[0].0 != 0 {
        Err(LoadingRomError::Offset)
    } else {
        match first_overlap(s, 0) {
            Some(i) => Err(
                LoadingRomError::Overlapping {
                    offset: s[i + 1].0,
                    size: (seg_end(s[i]) - s[i + 1].0) as u32,
                },
            ),
            None => Ok(Seq::new((seg_end(s.last()) / 2) as nat, |k: int| word_at(s, 2 * k))),
        }
    }
}

proof fn lemma_word_at_skip(s: Seq<(u32, Seq<u8>)>, i: int, a: int)
    requires
        0 <= i <= s.len(),
        forall|j: int| 0 <= j < i ==> !holds_address(#[trigger] s[j], a),
    ensures
        word_at(s, a) == word_at(s.subrange(i, s.len() as int), a),
    decreases i,
{
    if i > 0 {
        assert(!holds_address(s[0], a));
        let t = s.drop_first();
        assert forall|j: int| 0 <= j < i - 1 implies !holds_address(#[trigger] t[j], a) by {
            assert(t[j] == s[j + 1]);
        }
        lemma_word_at_skip(t, i - 1, a);
        assert(t.subrange(i - 1, t.len() as int) =~= s.subrange(i, s.len() as int));
    } else {
        assert(s.subrange(0, s.len() as int) =~= s);
    }
}

proof fn lemma_word_at_none(s: Seq<(u32, Seq<u8>)>, a: int)
    requires
        forall|j: int| 0 <= j < s.len() ==> !holds_address(#[trigger] s[j], a),
    ensures
        word_at(s, a) == 0,
    decreases s.len(),
{
    if s.len() > 0 {
        let t = s.drop_first();
        assert forall|j: int| 0 <= j < t.len() implies !holds_address(#[trigger] t[j], a) by {
            assert(t[j] == s[j + 1]);
        }
        lemma_word_at_none(t, a);
    }
}

proof fn lemma_first_overlap_from(s: Seq<(u32, Seq<u8>)>, i: int)
    requires
        0 <= i,
        forall|j: int| 0 <= j < i && j + 1 < s.len() ==> (s[j + 1].0 as int) >= seg_end(
            #[trigger] s[j],
        ),
    ensures
        first_overlap(s, 0) == first_overlap(s, i),
    decreases i,
{
    if i > 0 {
        lemma_first_overlap_from(s, i - 1);
    }
}

/// Word image of byte segments ordered by address. No segments is `Empty`,
/// a first segment away from address 0 is `Offset`, and the first segment
/// that starts before its predecessor ends is `Overlapping`.
pub fn convert_u8_segments(segments: &Vec<U8Segment>) -> (r: Result<Vec<Word>, LoadingRomError>)
    requires
        sorted_by_offset(segs_view(segments@)),
        forall|i: int| 0 <= i < segments@.len() ==> (#[trigger] segments@[i]).offset % 2 == 0
            && segments@[i].data@.len() % 2 == 0 && segments@[i].data@.len() <= u32::MAX,
    ensures
        match image_of(segs_view(segments@)) {
            Ok(w) => r is Ok && r->Ok_0@ == w,
            Err(e) => r == Err::<Vec<Word>, LoadingRomError>(e),
        },
{
    let ghost s = segs_view(segments@);
    if segments.len() == 0 {
        return Err(LoadingRomError::Empty);
    }
    if segments[0].offset != 0 {
        return Err(LoadingRomError::Offset);
    }
    let mut data: Vec<Word> = Vec::new();
    let mut i: usize = 0;
    while i < segments.len()
        invariant
            s == segs_view(segments@),
            sorted_by_offset(s),
            forall|j: int| 0 <= j < segments@.len() ==> (#[trigger] segments@[j]).offset % 2 == 0
                && segments@[j].data@.len() % 2 == 0 && segments@[j].data@.len() <= u32::MAX,
            s[0].0 == 0,
            0 <= i <= s.len(),
            i == 0 ==> data@.len() == 0,
            i > 0 ==> data@.len() * 2 == seg_end(s[i - 1]),
            forall|j: int| 0 <= j < i - 1 ==> (s[j + 1].0 as int) >= seg_end(#[trigger] s[j]),
            forall|k: int| 0 <= k < data@.len() ==> #[trigger] data@[k] == word_at(s, 2 * k),
        decreases segments.len() - i,
    {
        let seg = &segments[i];
        assert(s[i as int] == seg_view(*seg));
        let start: u64 = seg.offset as u64;
        let done: u64 = data.len() as u64 * 2;
        if i > 0 && start < done {
            proof {
                lemma_first_overlap_from(s, i - 1);
            }
            return Err(LoadingRomError::Overlapping { offset: seg.offset, size: (done - start) as u32 });
        }
        // Zeros up to the segment's start.
        while (data.len() as u64) * 2 < start
            invariant
                s == segs_view(segments@),
                sorted_by_offset(s),
                s[i as int] == seg_view(segments@[i as int]),
                start == s[i as int].0,
                start % 2 == 0,
                i < s.len(),
                i == 0 ==> data@.len() * 2 <= start,
                i > 0 ==> seg_end(s[i - 1]) <= data@.len() * 2 <= start,
                forall|j: int| 0 <= j < i - 1 ==> (s[j + 1].0 as int) >= seg_end(#[trigger] s[j]),
                forall|k: int| 0 <= k < data@.len() ==> #[trigger] data@[k] == word_at(s, 2 * k),
            decreases start - data.len() * 2,
        {
            proof {
                let a = 2 * data@.len() as int;
                assert forall|j: int| 0 <= j < s.len() implies !holds_address(#[trigger] s[j], a) by {
                    if j < i {
                        if j < i - 1 {
                            assert(s[j + 1].0 <= s[i - 1].0);
                        }
                        assert(s[j].0 <= s[i as int].0);
                    } else {
                        assert(s[i as int].0 <= s[j].0);
                    }
                }
                lemma_word_at_none(s, a);
            }
            data.push(0);
        }
        let words = seg.to_words();
        let mut k: usize = 0;
        let ghost base = data@.len();
        assert(base * 2 == start);
        while k < words.len()
            invariant
                s == segs_view(segments@),
                sorted_by_offset(s),
                s[i as int] == seg_view(segments@[i as int]),
                start == s[i as int].0,
                i < s.len(),
                base * 2 == start,
                words@.len() * 2 == s[i as int].1.len(),
                forall|m: int| 0 <= m < words@.len() ==> #[trigger] words@[m] == be_word(s[i as int].1, 2 * m),
                k <= words@.len(),
                data@.len() == base + k,
                i > 0 ==> seg_end(s[i - 1]) <= start,
                forall|j: int| 0 <= j < i - 1 ==> (s[j + 1].0 as int) >= seg_end(#[trigger] s[j]),
                forall|m: int| 0 <= m < data@.len() ==> #[trigger] data@[m] == word_at(s, 2 * m),
            decreases words.len() - k,
        {
            proof {
                let a = 2 * data@.len() as int;
                assert forall|j: int| 0 <= j < i implies !holds_address(#[trigger] s[j], a) by {
                    if j < i - 1 {
                        assert(s[j + 1].0 <= s[i - 1].0);
                    }
                }
                lemma_word_at_skip(s, i as int, a);
                assert(s.subrange(i as int, s.len() as int)[0] == s[i as int]);
            }
            data.push(words[k]);
            k = k + 1;
        }
        i = i + 1;
    }
    proof {
        lemma_first_overlap_from(s, s.len() - 1);
        assert(data@ =~= Seq::new((seg_end(s.last()) / 2) as nat, |k: int| word_at(s, 2 * k)));
    }
    Ok(data)
}

/// Big endian bytes of words, high byte first.
pub open spec fn word_bytes(ws: Seq<Word>) -> Seq<u8>
    decreases ws.len(),
{
    if ws.len() == 0 {
        seq![]
    } else {
        word_bytes(ws.drop_last()) + seq![(ws.last() >> 8u16) as u8, (ws.last() & 0xffu16) as u8]
    }
}

/// Records that hold `words` from word `i` on, eight words to a data
/// record, with an extended linear address record before each record that
/// starts a new 64 KiB region, and an end-of-file record last.
pub open spec fn records_from(words: Seq<Word>, i: int) -> Seq<HexRecordView>
    decreases words.len() + 8 - i,
{
    if i < 0 || i >= words.len() {
        seq![HexRecordView::EndOfFile]
    } else {
        let end = if i + 8 < words.len() { i + 8 } else { words.len() as int };
        let data = HexRecordView::Data {
            offset: ((2 * i) % 0x1_0000) as u16,
            value: word_bytes(words.subrange(i, end)),
        };
        let head = if (2 * i) % 0x1_0000 == 0 {
            seq![HexRecordView::ExtendedLinearAddress(((2 * i) / 0x1_0000) as u16), data]
        } else {
            seq![data]
        };
        head + records_from(words, i + 8)
    }
}

fn bytes_of(words: &Vec<Word>, from: usize, to: usize) -> (r: Vec<u8>)
    requires
        from <= to <= words@.len(),
    ensures
        r@ == word_bytes(words@.subrange(from as int, to as int)),
{
    let mut r: Vec<u8> = Vec::new();
    let mut k = from;
    assert(words@.subrange(from as int, from as int) =~= Seq::<Word>::empty());
    while k < to
        invariant
            from <= k <= to <= words@.len(),
            r@ == word_bytes(words@.subrange(from as int, k as int)),
        decreases to - k,
    {
        let w = words[k];
        r.push((w >> 8u16) as u8);
        r.push((w & 0xffu16) as u8);
        k = k + 1;
        proof {
            let sub = words@.subrange(from as int, k as int);
            assert(sub.drop_last() =~= words@.subrange(from as int, (k - 1) as int));
            assert(sub.last() == w);
            assert(r@ =~= word_bytes(sub));
        }
    }
    r
}

/// Intel HEX records that hold a word image from address 0, as
/// `records_from` lays them out.
pub fn image_records(words: &Vec<Word>) -> (r: Vec<HexRecord>)
    requires
        words@.len() < 0x8000_0000,
    ensures
        r@.map_values(|x: HexRecord| x@) == records_from(words@, 0),
{
    let mut r: Vec<HexRecord> = Vec::new();
    let mut i: usize = 0;
    let len = words.len();
    assert(r@.map_values(|x: HexRecord| x@) =~= Seq::<HexRecordView>::empty());
    while i < len
        invariant
            len == words@.len() < 0x8000_0000,
            i <= len + 7,
            records_from(words@, 0) == r@.map_values(|x: HexRecord| x@) + records_from(words@, i as int),
        decreases len + 8 - i,
    {
        let ghost before = r@.map_values(|x: HexRecord| x@);
        let end = if i + 8 < len { i + 8 } else { len };
        let byte_address: u32 = (2 * i) as u32;
        if byte_address % 0x1_0000 == 0 {
            r.push(HexRecord::ExtendedLinearAddress((byte_address / 0x1_0000) as u16));
        }
        r.push(HexRecord::Data { offset: (byte_address % 0x1_0000) as u16, value: bytes_of(words, i, end) });
        proof {
            let data = HexRecordView::Data {
                offset: ((2 * i) % 0x1_0000) as u16,
                value: word_bytes(words@.subrange(i as int, end as int)),
            };
            let head = if (2 * i) % 0x1_0000 == 0 {
                seq![HexRecordView::ExtendedLinearAddress(((2 * i) / 0x1_0000) as u16), data]
            } else {
                seq![data]
            };
            assert(r@.map_values(|x: HexRecord| x@) =~= before + head);
            assert(before + (head + records_from(words@, i + 8)) =~= (before + head) + records_from(words@, i + 8));
        }
        i = i + 8;
    }
    let ghost before = r@.map_values(|x: HexRecord| x@);
    r.push(HexRecord::EndOfFile);
    proof {
        assert(r@.map_values(|x: HexRecord| x@) =~= before + seq![HexRecordView::EndOfFile]);
    }
    r
}

} // verus!
