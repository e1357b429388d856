use vstd::prelude::*;
use crate::bytes::{u32_at, u32_le_bytes, zeros, push_u32, push_zeros, push_slice};
use crate::erf::{
    prepend, lemma_prepend_assoc, lemma_flatten_take_step, lemma_flatten_prefix_len,
    lemma_flatten_fixed, lemma_flatten_fixed_len, lemma_flatten_piece, lemma_sub_sub, name_round_trips,
};
use crate::bytes::lemma_u32_round_trip;
use crate::kinds::{lemma_file_type_tag_round_trip, lemma_version_tag_round_trip, lemma_language_code_round_trip};
use crate::resref::{lemma_res_ref_round_trip, lemma_res_ref_round_trip_len, fits_res_ref, utf8_text};
use crate::error::Error;
use crate::kinds::{
    FileType, Version, LanguageId, spec_file_type_from_tag, spec_version_from_tag, spec_language,
    spec_language_code, file_type_tag, version_tag, push_file_type_tag, push_version_tag,
};
use crate::reader::ByteReader;
use crate::codec::{SerializeToBytes, StaticByteSize};
use crate::resref::{ResRef, res_ref_text, res_ref_bytes, lossy_string};
use vstd::utf8::encode_utf8;

verus! {

/// The size of the header on disk.
pub const TLK_HEADER_SIZE: usize = 20;

/// The size of one metadata record on disk.
pub const TLK_DATA_SIZE: usize = 40;

/// The fixed part of a string table.
#[derive(Debug, Clone, Copy, PartialEq, Eq, Structural)]
pub struct TlkHeader {
    pub file_type: FileType,
    pub version: Version,
    pub language_id: LanguageId,
    pub string_count: u32,
    pub string_offset: u32,
}

/// The bits of an entry's flags.
#[derive(Debug, Clone, Copy, PartialEq, Eq, Structural)]
pub enum TlkFlags {
    TextPresent,
    SoundPresent,
    SoundLengthPresent,
}

impl TlkFlags {
    pub fn bit(&self) -> (r: u8)
        ensures
            *self == TlkFlags::TextPresent ==> r == 1,
            *self == TlkFlags::SoundPresent ==> r == 2,
            *self == TlkFlags::SoundLengthPresent ==> r == 4,
    {
        match self {
            TlkFlags::TextPresent => 1,
            TlkFlags::SoundPresent => 2,
            TlkFlags::SoundLengthPresent => 4,
        }
    }

    /// The flags that an entry is written with.
    pub fn u8_from_tlk_entry(entry: &TlkEntry) -> (r: u8)
        ensures
            r == entry_flags(entry_view(*entry)),
    {
        let mut flags: u8 = 0;
        if entry.string.as_str().as_bytes().len() > 0 {
            flags = flags + TlkFlags::TextPresent.bit();
        }
        proof {
            lemma_encode_empty(entry.string@);
        }
        match &entry.sound {
            Some(sound) => {
                flags = flags + TlkFlags::SoundPresent.bit();
                if sound.sound_length.is_some() {
                    flags = flags + TlkFlags::SoundLengthPresent.bit();
                }
            },
            None => {},
        }
        flags
    }
}

/// A text is empty exactly when its UTF-8 bytes are.
pub proof fn lemma_encode_empty(s: Seq<char>)
    ensures
        (encode_utf8(s).len() == 0) == (s.len() == 0),
{
    if s.len() > 0 {
        assert(encode_utf8(s) == vstd::utf8::encode_scalar(s[0] as u32) + encode_utf8(
            s.drop_first(),
        ));
    }
}

/// A metadata record: flags, sound name, where the text stands relative to the
/// table's base, its length, and the raw bits of the sound's duration (an
/// IEEE-754 single).
#[derive(Debug)]
pub struct TlkData {
    pub flags: u8,
    pub sound_res_ref: ResRef,
    pub offset_to_string: u32,
    pub string_size: u32,
    pub sound_length: u32,
}

/// A metadata record as values.
pub type TlkDataView = (u8, Seq<char>, u32, u32, u32);

pub open spec fn data_view(d: TlkData) -> TlkDataView {
    (d.flags, d.sound_res_ref@, d.offset_to_string, d.string_size, d.sound_length)
}

pub open spec fn data_views(v: Seq<TlkData>) -> Seq<TlkDataView> {
    v.map_values(|d: TlkData| data_view(d))
}

/// The sound of an entry: its name and, where known, the raw bits of its
/// duration (an IEEE-754 single).
#[derive(Debug)]
pub struct TlkSound {
    pub res_ref: ResRef,
    pub sound_length: Option<u32>,
}

/// An entry of the table: its text and its sound, if any.
#[derive(Debug)]
pub struct TlkEntry {
    pub string: String,
    pub sound: Option<TlkSound>,
}

/// An entry as values: text, and sound name with optional duration bits.
pub type TlkEntryView = (Seq<char>, Option<(Seq<char>, Option<u32>)>);

pub open spec fn entry_view(e: TlkEntry) -> TlkEntryView {
    (
        e.string@,
        match e.sound {
            Some(s) => Some((s.res_ref@, s.sound_length)),
            None => None,
        },
    )
}

pub open spec fn entry_views(v: Seq<TlkEntry>) -> Seq<TlkEntryView> {
    v.map_values(|e: TlkEntry| entry_view(e))
}

/// The flags of an entry: bit 0 for text, bit 1 for a sound, bit 2 for a
/// sound with a duration.
pub open spec fn entry_flags(e: TlkEntryView) -> u8 {
    ((if e.0.len() > 0 {
        1int
    } else {
        0int
    }) + (if e.1 is Some {
        2int
    } else {
        0int
    }) + (if e.1 is Some && e.1->Some_0.1 is Some {
        4int
    } else {
        0int
    })) as u8
}

/// The entry that a record and its text make: a sound only where bit 1 is
/// set, a duration only where bit 2 is set too, whatever the raw bytes hold.
pub open spec fn entry_from(d: TlkDataView, text: Seq<char>) -> TlkEntryView {
    (
        text,
        if d.0 & 2 == 2 {
            Some(
                (
                    d.1,
                    if d.0 & 4 == 4 {
                        Some(d.4)
                    } else {
                        None
                    },
                ),
            )
        } else {
            None
        },
    )
}

/// The header read at position 0.
pub open spec fn spec_parse_tlk_header(b: Seq<u8>) -> Result<TlkHeader, Error> {
    if TLK_HEADER_SIZE > b.len() {
        Err(Error::UnexpectedEof)
    } else {
        Ok(
            TlkHeader {
                file_type: spec_file_type_from_tag(b.subrange(0, 4)),
                version: spec_version_from_tag(b.subrange(4, 8)),
                language_id: spec_language(u32_at(b, 8)),
                string_count: u32_at(b, 12),
                string_offset: u32_at(b, 16),
            },
        )
    }
}

/// The metadata record at position `p`.
pub open spec fn spec_parse_tlk_record(b: Seq<u8>, p: int) -> Result<TlkDataView, Error> {
    if p + TLK_DATA_SIZE > b.len() {
        Err(Error::UnexpectedEof)
    } else {
        Ok(
            (
                u32_at(b, p) as u8,
                res_ref_text(b.subrange(p + 4, p + 20)),
                u32_at(b, p + 28),
                u32_at(b, p + 32),
                u32_at(b, p + 36),
            ),
        )
    }
}

/// `n` metadata records from position `p`.
pub open spec fn spec_parse_tlk_records(b: Seq<u8>, p: int, n: nat) -> Result<Seq<TlkDataView>, Error>
    decreases n,
{
    if n == 0 {
        Ok(seq![])
    } else {
        match spec_parse_tlk_record(b, p) {
            Err(e) => Err(e),
            Ok(d) => prepend(seq![d], spec_parse_tlk_records(b, p + TLK_DATA_SIZE, (n - 1) as nat)),
        }
    }
}

/// The texts of the records from index `i` on, each read at the table base
/// plus its relative offset.
pub open spec fn spec_parse_tlk_texts(b: Seq<u8>, base: int, ds: Seq<TlkDataView>, i: nat) -> Result<
    Seq<Seq<char>>,
    Error,
>
    decreases ds.len() - i,
{
    if i >= ds.len() {
        Ok(seq![])
    } else if base + ds[i as int].2 + ds[i as int].3 > b.len() {
        Err(Error::UnexpectedEof)
    } else {
        let start = base + ds[i as int].2;
        prepend(
            seq![utf8_text(b.subrange(start, start + ds[i as int].3))],
            spec_parse_tlk_texts(b, base, ds, i + 1),
        )
    }
}

/// Reading texts from index `i` gives one text for each record left.
pub proof fn lemma_texts_len(b: Seq<u8>, base: int, ds: Seq<TlkDataView>, i: nat)
    requires
        i <= ds.len(),
    ensures
        spec_parse_tlk_texts(b, base, ds, i) matches Ok(t) ==> t.len() == ds.len() - i,
    decreases ds.len() - i,
{
    if i < ds.len() {
        lemma_texts_len(b, base, ds, i + 1);
    }
}

/// A string table read from its bytes: header and entries.
pub open spec fn spec_parse_tlk(b: Seq<u8>) -> Result<(TlkHeader, Seq<TlkEntryView>), Error> {
    match spec_parse_tlk_header(b) {
        Err(e) => Err(e),
        Ok(h) => match spec_parse_tlk_records(b, TLK_HEADER_SIZE as int, h.string_count as nat) {
            Err(e) => Err(e),
            Ok(ds) => match spec_parse_tlk_texts(b, h.string_offset as int, ds, 0) {
                Err(e) => Err(e),
                Ok(ts) => Ok((h, Seq::new(ds.len(), |i: int| entry_from(ds[i], ts[i])))),
            },
        },
    }
}

fn parse_header(reader: &mut ByteReader) -> (r: Result<TlkHeader, Error>)
    requires
        old(reader).pos() == 0,
    ensures
        final(reader).data() == old(reader).data(),
        r is Ok ==> final(reader).pos() == TLK_HEADER_SIZE,
        r == spec_parse_tlk_header(old(reader).data()),
{
    let tag = match reader.read_bytes(4) {
        Ok(v) => v,
        Err(e) => return Err(e),
    };
    let vtag = match reader.read_bytes(4) {
        Ok(v) => v,
        Err(e) => return Err(e),
    };
    let language = match reader.read_u32() {
        Ok(v) => v,
        Err(e) => return Err(e),
    };
    let string_count = match reader.read_u32() {
        Ok(v) => v,
        Err(e) => return Err(e),
    };
    let string_offset = match reader.read_u32() {
        Ok(v) => v,
        Err(e) => return Err(e),
    };
    Ok(
        TlkHeader {
            file_type: FileType::from_tag_bytes(tag.as_slice()),
            version: Version::from_tag_bytes(vtag.as_slice()),
            language_id: LanguageId::from(language),
            string_count,
            string_offset,
        },
    )
}

fn parse_string_data_table(reader: &mut ByteReader, header: &TlkHeader) -> (r: Result<
    Vec<TlkData>,
    Error,
>)
    ensures
        final(reader).data() == old(reader).data(),
        r matches Ok(v) ==> spec_parse_tlk_records(
            old(reader).data(),
            old(reader).pos(),
            header.string_count as nat,
        ) == Ok::<Seq<TlkDataView>, Error>(data_views(v@)),
        r matches Err(e) ==> spec_parse_tlk_records(
            old(reader).data(),
            old(reader).pos(),
            header.string_count as nat,
        ) == Err::<Seq<TlkDataView>, Error>(e),
{
    let ghost b = reader.data();
    let ghost p0 = reader.pos();
    let ghost whole = spec_parse_tlk_records(b, p0, header.string_count as nat);
    let mut out: Vec<TlkData> = Vec::new();
    let mut i: u32 = 0;
    while i < header.string_count
        invariant
            reader.data() == b,
            old(reader).data() == b,
            old(reader).pos() == p0,
            whole == spec_parse_tlk_records(b, p0, header.string_count as nat),
            i <= header.string_count,
            whole == prepend(
                data_views(out@),
                spec_parse_tlk_records(b, reader.pos(), (header.string_count - i) as nat),
            ),
        decreases header.string_count - i,
    {
        let ghost p = reader.pos();
        let ghost k = (header.string_count - i) as nat;
        let flags = match reader.read_u32() {
            Ok(v) => v,
            Err(e) => {
                proof {
                    assert(spec_parse_tlk_records(b, p, k) == Err::<Seq<TlkDataView>, Error>(e));
                }
                return Err(e);
            },
        };
        let raw = match reader.read_bytes(16) {
            Ok(v) => v,
            Err(e) => {
                proof {
                    assert(spec_parse_tlk_records(b, p, k) == Err::<Seq<TlkDataView>, Error>(e));
                }
                return Err(e);
            },
        };
        let sound_res_ref = ResRef::read_field(raw.as_slice());
        let _reserved = match reader.read_bytes(8) {
            Ok(v) => v,
            Err(e) => {
                proof {
                    assert(spec_parse_tlk_records(b, p, k) == Err::<Seq<TlkDataView>, Error>(e));
                }
                return Err(e);
            },
        };
        let offset_to_string = match reader.read_u32() {
            Ok(v) => v,
            Err(e) => {
                proof {
                    assert(spec_parse_tlk_records(b, p, k) == Err::<Seq<TlkDataView>, Error>(e));
                }
                return Err(e);
            },
        };
        let string_size = match reader.read_u32() {
            Ok(v) => v,
            Err(e) => {
                proof {
                    assert(spec_parse_tlk_records(b, p, k) == Err::<Seq<TlkDataView>, Error>(e));
                }
                return Err(e);
            },
        };
        let sound_length = match reader.read_u32() {
            Ok(v) => v,
            Err(e) => {
                proof {
                    assert(spec_parse_tlk_records(b, p, k) == Err::<Seq<TlkDataView>, Error>(e));
                }
                return Err(e);
            },
        };
        let d = TlkData {
            flags: flags as u8,
            sound_res_ref,
            offset_to_string,
            string_size,
            sound_length,
        };
        proof {
            assert(spec_parse_tlk_records(b, p, k) == prepend(
                seq![data_view(d)],
                spec_parse_tlk_records(b, p + TLK_DATA_SIZE, (k - 1) as nat),
            ));
            assert(data_views(out@.push(d)) =~= data_views(out@) + seq![data_view(d)]);
            lemma_prepend_assoc(
                data_views(out@),
                seq![data_view(d)],
                spec_parse_tlk_records(b, p + TLK_DATA_SIZE, (k - 1) as nat),
            );
        }
        out.push(d);
        i = i + 1;
    }
    proof {
        assert(data_views(out@) + seq![] =~= data_views(out@));
    }
    Ok(out)
}

fn parse_strings(reader: &mut ByteReader, header: &TlkHeader, data_table: &Vec<TlkData>) -> (r:
    Result<Vec<String>, Error>)
    ensures
        final(reader).data() == old(reader).data(),
        r matches Ok(v) ==> spec_parse_tlk_texts(
            old(reader).data(),
            header.string_offset as int,
            data_views(data_table@),
            0,
        ) == Ok::<Seq<Seq<char>>, Error>(v@.map_values(|s: String| s@)),
        r matches Err(e) ==> spec_parse_tlk_texts(
            old(reader).data(),
            header.string_offset as int,
            data_views(data_table@),
            0,
        ) == Err::<Seq<Seq<char>>, Error>(e),
{
    let ghost b = reader.data();
    let ghost ds = data_views(data_table@);
    let ghost base = header.string_offset as int;
    let ghost whole = spec_parse_tlk_texts(b, base, ds, 0);
    let mut out: Vec<String> = Vec::new();
    let mut i: usize = 0;
    while i < data_table.len()
        invariant
            reader.data() == b,
            old(reader).data() == b,
            ds == data_views(data_table@),
            base == header.string_offset as int,
            whole == spec_parse_tlk_texts(b, base, ds, 0),
            i <= data_table@.len(),
            whole == prepend(out@.map_values(|s: String| s@), spec_parse_tlk_texts(b, base, ds, i as nat)),
        decreases data_table@.len() - i,
    {
        let d = &data_table[i];
        reader.seek_from_start(header.string_offset as u64 + d.offset_to_string as u64);
        let raw = match reader.read_bytes(d.string_size as usize) {
            Ok(v) => v,
            Err(e) => {
                proof {
                    assert(spec_parse_tlk_texts(b, base, ds, i as nat) == Err::<Seq<Seq<char>>, Error>(e));
                }
                return Err(e);
            },
        };
        let text = lossy_string(raw.as_slice());
        proof {
            assert(out@.push(text).map_values(|s: String| s@) =~= out@.map_values(|s: String| s@) + seq![text@]);
            lemma_prepend_assoc(
                out@.map_values(|s: String| s@),
                seq![text@],
                spec_parse_tlk_texts(b, base, ds, (i + 1) as nat),
            );
        }
        out.push(text);
        i = i + 1;
    }
    proof {
        assert(out@.map_values(|s: String| s@) + seq![] =~= out@.map_values(|s: String| s@));
    }
    Ok(out)
}

/// The entry that a metadata record and its text make.
fn entry_from_data(d: &TlkData, text: String) -> (r: TlkEntry)
    ensures
        entry_view(r) == entry_from(data_view(*d), text@),
{
    let sound = if d.flags & 2 == 2 {
        let sound_length = if d.flags & 4 == 4 {
            Some(d.sound_length)
        } else {
            None
        };
        Some(TlkSound { res_ref: d.sound_res_ref.copy(), sound_length })
    } else {
        None
    };
    TlkEntry { string: text, sound }
}

/// Reads a string table from its bytes.
pub fn parse(bytes: Vec<u8>, alternative: bool) -> (r: Result<TlkFile, Error>)
    ensures
        r matches Ok(f) ==> f.header is Some && spec_parse_tlk(bytes@) == Ok::<
            (TlkHeader, Seq<TlkEntryView>),
            Error,
        >((f.header->Some_0, entry_views(f.entries@))) && f.alternative == alternative
            && f.entry_count == f.entries@.len() && f.language_id
            == f.header->Some_0.language_id,
        r matches Err(e) ==> spec_parse_tlk(bytes@) == Err::<(TlkHeader, Seq<TlkEntryView>), Error>(e),
{
    let mut reader = ByteReader::new(bytes);
    let header = match parse_header(&mut reader) {
        Ok(h) => h,
        Err(e) => return Err(e),
    };
    let table = match parse_string_data_table(&mut reader, &header) {
        Ok(t) => t,
        Err(e) => return Err(e),
    };
    let strings = match parse_strings(&mut reader, &header, &table) {
        Ok(s) => s,
        Err(e) => return Err(e),
    };
    let ghost ds = data_views(table@);
    let ghost ts = strings@.map_values(|s: String| s@);
    proof {
        lemma_texts_len(reader.data(), header.string_offset as int, ds, 0);
    }
    let mut entries: Vec<TlkEntry> = Vec::new();
    let mut i: usize = 0;
    while i < table.len()
        invariant
            ds == data_views(table@),
            ts == strings@.map_values(|s: String| s@),
            ts.len() == ds.len(),
            i <= table@.len(),
            entry_views(entries@) =~= Seq::new(i as nat, |j: int| entry_from(ds[j], ts[j])),
        decreases table@.len() - i,
    {
        let text = strings[i].clone();
        let e = entry_from_data(&table[i], text);
        proof {
            assert(ds[i as int] == data_view(table@[i as int]));
            assert(ts[i as int] == strings@[i as int]@);
            assert(entry_views(entries@.push(e)) =~= entry_views(entries@).push(entry_view(e)));
            assert(entry_views(entries@.push(e)) =~= Seq::new(
                (i + 1) as nat,
                |j: int| entry_from(ds[j], ts[j]),
            ));
        }
        entries.push(e);
        i = i + 1;
    }
    let n = entries.len();
    Ok(
        TlkFile {
            language_id: header.language_id,
            header: Some(header),
            entries,
            entry_count: n,
            alternative,
        },
    )
}

/// The UTF-8 bytes of each entry's text.
pub open spec fn text_pieces(es: Seq<TlkEntryView>) -> Seq<Seq<u8>> {
    es.map_values(|e: TlkEntryView| encode_utf8(e.0))
}

/// Where the text of entry `i` starts, relative to the table base: the total
/// length of the texts before it.
pub open spec fn text_offset(es: Seq<TlkEntryView>, i: int) -> int {
    text_pieces(es).take(i).flatten().len() as int
}

/// The metadata record written for entry `i`; an entry without a sound gets
/// an empty sound name and a zero duration.
pub open spec fn tlk_data_for(es: Seq<TlkEntryView>, i: int) -> TlkDataView {
    (
        entry_flags(es[i]),
        match es[i].1 {
            Some(s) => s.0,
            None => seq![],
        },
        text_offset(es, i) as u32,
        encode_utf8(es[i].0).len() as u32,
        match es[i].1 {
            Some(s) => match s.1 {
                Some(l) => l,
                None => 0,
            },
            None => 0,
        },
    )
}

/// A metadata record on disk.
pub open spec fn data_bytes(d: TlkDataView) -> Seq<u8> {
    u32_le_bytes(d.0 as u32) + res_ref_bytes(d.1) + zeros(8) + u32_le_bytes(d.2) + u32_le_bytes(
        d.3,
    ) + u32_le_bytes(d.4)
}

/// The header that a table of `n` entries is written with: the text region
/// starts right after the metadata table.
pub open spec fn tlk_header_for(language: LanguageId, n: nat) -> TlkHeader {
    TlkHeader {
        file_type: FileType::Tlk,
        version: Version::V3,
        language_id: language,
        string_count: n as u32,
        string_offset: (TLK_HEADER_SIZE + TLK_DATA_SIZE * n) as u32,
    }
}

pub open spec fn tlk_header_bytes(h: TlkHeader) -> Seq<u8> {
    file_type_tag(h.file_type) + version_tag(h.version) + u32_le_bytes(
        spec_language_code(h.language_id),
    ) + u32_le_bytes(h.string_count) + u32_le_bytes(h.string_offset)
}

/// The size of a written table.
pub open spec fn tlk_size(es: Seq<TlkEntryView>) -> int {
    TLK_HEADER_SIZE + TLK_DATA_SIZE * es.len() + text_pieces(es).flatten().len()
}

/// The bytes of a written table: header, metadata records, then the texts
/// with no separator.
pub open spec fn tlk_bytes(language: LanguageId, es: Seq<TlkEntryView>) -> Seq<u8> {
    tlk_header_bytes(tlk_header_for(language, es.len())) + Seq::new(
        es.len(),
        |i: int| data_bytes(tlk_data_for(es, i)),
    ).flatten() + text_pieces(es).flatten()
}

/// The metadata records of the entries, their relative text offsets summed
/// left to right, or `None` where the texts together exceed `limit` bytes.
fn data_list_within(entries: &Vec<TlkEntry>, limit: u64) -> (r: Option<Vec<TlkData>>)
    requires
        limit <= u32::MAX,
    ensures
        text_pieces(entry_views(entries@)).flatten().len() <= limit ==> r is Some && data_views(
            r->Some_0@,
        ) == Seq::new(entries@.len(), |i: int| tlk_data_for(entry_views(entries@), i)),
        text_pieces(entry_views(entries@)).flatten().len() > limit ==> r is None,
{
    let ghost es = entry_views(entries@);
    let ghost pieces = text_pieces(es);
    let mut out: Vec<TlkData> = Vec::new();
    let mut offset: u64 = 0;
    let mut i: usize = 0;
    while i < entries.len()
        invariant
            es == entry_views(entries@),
            pieces == text_pieces(es),
            limit <= u32::MAX,
            i <= entries@.len(),
            offset == text_offset(es, i as int),
            offset <= limit,
            data_views(out@) =~= Seq::new(i as nat, |j: int| tlk_data_for(es, j)),
        decreases entries@.len() - i,
    {
        let entry = &entries[i];
        let size = entry.string.as_str().as_bytes().len();
        proof {
            lemma_flatten_take_step(pieces, i as int);
            lemma_flatten_prefix_len(pieces, i as int + 1);
        }
        if size as u64 > limit || offset > limit - size as u64 {
            return None;
        }
        let flags = TlkFlags::u8_from_tlk_entry(entry);
        let (sound_res_ref, sound_length) = match &entry.sound {
            Some(s) => (
                s.res_ref.copy(),
                match s.sound_length {
                    Some(l) => l,
                    None => 0,
                },
            ),
            None => (ResRef::empty(), 0),
        };
        let d = TlkData {
            flags,
            sound_res_ref,
            offset_to_string: offset as u32,
            string_size: size as u32,
            sound_length,
        };
        proof {
            assert(data_view(d) == tlk_data_for(es, i as int));
            assert(data_views(out@.push(d)) =~= data_views(out@).push(data_view(d)));
            assert(data_views(out@.push(d)) =~= Seq::new(
                (i + 1) as nat,
                |j: int| tlk_data_for(es, j),
            ));
        }
        out.push(d);
        offset = offset + size as u64;
        i = i + 1;
    }
    proof {
        assert(pieces.take(i as int) =~= pieces);
    }
    Some(out)
}

/// The metadata records of the entries: each text's offset is the total
/// length of the texts before it. `None` where the texts together take more
/// than a 32-bit offset can address.
pub fn string_data_list(entries: &Vec<TlkEntry>) -> (r: Option<Vec<TlkData>>)
    ensures
        text_pieces(entry_views(entries@)).flatten().len() <= u32::MAX ==> r is Some && data_views(
            r->Some_0@,
        ) == Seq::new(entries@.len(), |i: int| tlk_data_for(entry_views(entries@), i)),
        text_pieces(entry_views(entries@)).flatten().len() > u32::MAX ==> r is None,
{
    data_list_within(entries, 4294967295u64)
}

impl SerializeToBytes for TlkData {
    open spec fn spec_bytes(&self) -> Seq<u8> {
        data_bytes(data_view(*self))
    }

    fn serialize_to(&self, out: &mut Vec<u8>) {
        push_u32(out, self.flags as u32);
        self.sound_res_ref.push_to(out);
        push_zeros(out, 8);
        push_u32(out, self.offset_to_string);
        push_u32(out, self.string_size);
        push_u32(out, self.sound_length);
        assert(final(out)@ =~= old(out)@ + self.spec_bytes());
    }
}

impl StaticByteSize for TlkData {
    open spec fn spec_byte_size() -> nat {
        TLK_DATA_SIZE as nat
    }

    fn byte_size() -> (r: usize) {
        TLK_DATA_SIZE
    }
}

impl SerializeToBytes for TlkHeader {
    open spec fn spec_bytes(&self) -> Seq<u8> {
        tlk_header_bytes(*self)
    }

    fn serialize_to(&self, out: &mut Vec<u8>) {
        push_file_type_tag(out, self.file_type);
        push_version_tag(out, self.version);
        push_u32(out, self.language_id.code());
        push_u32(out, self.string_count);
        push_u32(out, self.string_offset);
        assert(final(out)@ =~= old(out)@ + self.spec_bytes());
    }
}

impl StaticByteSize for TlkHeader {
    open spec fn spec_byte_size() -> nat {
        TLK_HEADER_SIZE as nat
    }

    fn byte_size() -> (r: usize) {
        TLK_HEADER_SIZE
    }
}

/// The bytes of a string table in the given language; `TooLarge` where it
/// would not fit 32-bit offsets.
pub fn write_tlk(language: LanguageId, entries: &Vec<TlkEntry>) -> (r: Result<Vec<u8>, Error>)
    ensures
        tlk_size(entry_views(entries@)) > u32::MAX ==> r == Err::<Vec<u8>, Error>(Error::TooLarge),
        tlk_size(entry_views(entries@)) <= u32::MAX ==> r is Ok && r->Ok_0@ == tlk_bytes(
            language,
            entry_views(entries@),
        ),
{
    let ghost es = entry_views(entries@);
    let n = entries.len();
    if n as u64 > (4294967295u64 - 20) / 40 {
        return Err(Error::TooLarge);
    }
    let base: u64 = 20 + 40 * n as u64;
    let table = match data_list_within(entries, 4294967295u64 - base) {
        Some(t) => t,
        None => return Err(Error::TooLarge),
    };
    let header = TlkHeader {
        file_type: FileType::Tlk,
        version: Version::V3,
        language_id: language,
        string_count: n as u32,
        string_offset: base as u32,
    };
    let mut out: Vec<u8> = Vec::new();
    header.serialize_to(&mut out);
    assert(data_views(table@).len() == table@.len());
    let ghost after_header = out@;
    let ghost f = |j: int| data_bytes(tlk_data_for(es, j));
    let mut i: usize = 0;
    while i < n
        invariant
            n == table@.len(),
            n == entries@.len(),
            es == entry_views(entries@),
            f == (|j: int| data_bytes(tlk_data_for(es, j))),
            data_views(table@) == Seq::new(n as nat, |j: int| tlk_data_for(es, j)),
            i <= n,
            out@ == after_header + Seq::new(i as nat, f).flatten(),
        decreases n - i,
    {
        table[i].serialize_to(&mut out);
        proof {
            assert(data_view(table@[i as int]) == data_views(table@)[i as int]);
            assert(Seq::new((i + 1) as nat, f) =~= Seq::new(i as nat, f).push(f(i as int)));
            Seq::new(i as nat, f).lemma_flatten_push(f(i as int));
        }
        i = i + 1;
    }
    let ghost after_table = out@;
    let ghost pieces = text_pieces(es);
    let mut j: usize = 0;
    while j < n
        invariant
            n == entries@.len(),
            es == entry_views(entries@),
            pieces == text_pieces(es),
            j <= n,
            out@ == after_table + pieces.take(j as int).flatten(),
        decreases n - j,
    {
        push_slice(&mut out, entries[j].string.as_str().as_bytes());
        proof {
            lemma_flatten_take_step(pieces, j as int);
        }
        j = j + 1;
    }
    proof {
        assert(pieces.take(n as int) =~= pieces);
        assert(header == tlk_header_for(language, es.len()));
    }
    Ok(out)
}

/// The offset that marks an entry id as one of an alternative table.
pub const ALT_ENTRY: usize = 0x01000000;

/// A string table: its header once read, its entries, its language, the
/// number of entries it counts, and whether its ids are alternative ones.
#[derive(Debug)]
pub struct TlkFile {
    pub header: Option<TlkHeader>,
    pub entries: Vec<TlkEntry>,
    pub language_id: LanguageId,
    pub entry_count: usize,
    pub alternative: bool,
}

impl TlkFile {
    pub fn new() -> (r: TlkFile)
        ensures
            r.header is None,
            r.entries@.len() == 0,
            r.language_id == LanguageId::English,
            r.entry_count == 0,
            r.alternative,
    {
        TlkFile {
            header: None,
            entries: Vec::new(),
            language_id: LanguageId::English,
            entry_count: 0,
            alternative: true,
        }
    }

    /// Reads a table from its bytes.
    pub fn parse_from(bytes: Vec<u8>, alternative: bool) -> (r: Result<TlkFile, Error>)
        ensures
            r matches Ok(f) ==> f.header is Some && spec_parse_tlk(bytes@) == Ok::<
                (TlkHeader, Seq<TlkEntryView>),
                Error,
            >((f.header->Some_0, entry_views(f.entries@))) && f.alternative == alternative
                && f.entry_count == f.entries@.len() && f.language_id
                == f.header->Some_0.language_id,
            r matches Err(e) ==> spec_parse_tlk(bytes@) == Err::<
                (TlkHeader, Seq<TlkEntryView>),
                Error,
            >(e),
    {
        parse(bytes, alternative)
    }

    /// The id that the next entry added gets.
    pub fn next_id(&mut self) -> (r: usize)
        requires
            old(self).alternative ==> old(self).entry_count + ALT_ENTRY <= usize::MAX,
        ensures
            *final(self) == *old(self),
            r == if old(self).alternative {
                old(self).entry_count + ALT_ENTRY
            } else {
                old(self).entry_count as int
            },
    {
        if self.alternative {
            self.entry_count + ALT_ENTRY
        } else {
            self.entry_count
        }
    }

    pub fn add_entry(&mut self, entry: TlkEntry) -> (r: &mut Self)
        requires
            old(self).entry_count < usize::MAX,
        ensures
            r.entries@ == old(self).entries@.push(entry),
            r.entry_count == old(self).entry_count + 1,
            r.header == old(self).header,
            r.language_id == old(self).language_id,
            r.alternative == old(self).alternative,
            *final(self) == *final(r),
    {
        self.entry_count = self.entry_count + 1;
        self.entries.push(entry);
        self
    }

    pub fn add_entries(&mut self, entries: Vec<TlkEntry>) -> (r: &mut Self)
        requires
            old(self).entry_count + entries@.len() <= usize::MAX,
        ensures
            r.entries@ == old(self).entries@ + entries@,
            r.entry_count == old(self).entry_count + entries@.len(),
            r.header == old(self).header,
            r.language_id == old(self).language_id,
            r.alternative == old(self).alternative,
            *final(self) == *final(r),
    {
        let mut entries = entries;
        self.entry_count = self.entry_count + entries.len();
        self.entries.append(&mut entries);
        self
    }

    /// The bytes of the table, in the table's language.
    pub fn write(&self) -> (r: Result<Vec<u8>, Error>)
        ensures
            tlk_size(entry_views(self.entries@)) > u32::MAX ==> r == Err::<Vec<u8>, Error>(
                Error::TooLarge,
            ),
            tlk_size(entry_views(self.entries@)) <= u32::MAX ==> r is Ok && r->Ok_0@ == tlk_bytes(
                self.language_id,
                entry_views(self.entries@),
            ),
    {
        write_tlk(self.language_id, &self.entries)
    }

    /// The header that the table is written with.
    pub fn write_header(&self) -> (r: Vec<u8>)
        requires
            TLK_HEADER_SIZE + TLK_DATA_SIZE * self.entries@.len() <= u32::MAX,
        ensures
            r@ == tlk_header_bytes(tlk_header_for(self.language_id, self.entries@.len())),
    {
        let n = self.entries.len();
        let header = TlkHeader {
            file_type: FileType::Tlk,
            version: Version::V3,
            language_id: self.language_id,
            string_count: n as u32,
            string_offset: (20 + 40 * n) as u32,
        };
        let mut out: Vec<u8> = Vec::new();
        header.serialize_to(&mut out);
        assert(out@ =~= tlk_header_bytes(tlk_header_for(self.language_id, self.entries@.len())));
        out
    }
}

/// Builds a string table entry by entry.
#[derive(Debug)]
pub struct TlkBuilder {
    entries: Vec<TlkEntry>,
    language_id: LanguageId,
    next_id: i32,
}

impl TlkBuilder {
    pub closed spec fn entries(&self) -> Seq<TlkEntry> {
        self.entries@
    }

    pub closed spec fn language(&self) -> LanguageId {
        self.language_id
    }

    pub closed spec fn spec_next_id(&self) -> i32 {
        self.next_id
    }

    pub fn new() -> (r: TlkBuilder)
        ensures
            r.entries().len() == 0,
            r.language() == LanguageId::English,
            r.spec_next_id() == 0,
    {
        TlkBuilder { entries: Vec::new(), language_id: LanguageId::English, next_id: 0 }
    }

    pub fn next_id(&mut self) -> (r: i32)
        ensures
            r == old(self).spec_next_id(),
            *final(self) == *old(self),
    {
        self.next_id
    }

    pub fn add_entry(&mut self, entry: TlkEntry) -> (r: &mut Self)
        requires
            old(self).spec_next_id() < i32::MAX,
        ensures
            r.entries() == old(self).entries().push(entry),
            r.language() == old(self).language(),
            r.spec_next_id() == old(self).spec_next_id() + 1,
            *final(self) == *final(r),
    {
        self.next_id = self.next_id + 1;
        self.entries.push(entry);
        self
    }

    /// The bytes of the table built so far.
    pub fn write(&self) -> (r: Result<Vec<u8>, Error>)
        ensures
            tlk_size(entry_views(self.entries())) > u32::MAX ==> r == Err::<Vec<u8>, Error>(
                Error::TooLarge,
            ),
            tlk_size(entry_views(self.entries())) <= u32::MAX ==> r is Ok && r->Ok_0@ == tlk_bytes(
                self.language(),
                entry_views(self.entries()),
            ),
    {
        write_tlk(self.language_id, &self.entries)
    }

    /// A builder holding the entries of a read table, in English, whose next
    /// id is the number of those entries.
    pub fn from_file(tf: TlkFile) -> (r: TlkBuilder)
        ensures
            r.entries() == tf.entries@,
            r.language() == LanguageId::English,
            r.spec_next_id() == tf.entries@.len() as i32,
    {
        let next_id = tf.entries.len() as i32;
        TlkBuilder { entries: tf.entries, language_id: LanguageId::English, next_id }
    }
}

/// The flags say what an entry holds: bit 1 that it has a sound, bit 2 that
/// the sound has a duration. Read back, a record whose bit 2 is clear has no
/// duration whatever its duration field holds, and one whose bit 1 is clear
/// has no sound.
pub proof fn lemma_tlk_flags(e: TlkEntryView, d: TlkDataView, text: Seq<char>)
    ensures
        (entry_flags(e) & 1 == 1) == (e.0.len() > 0),
        (entry_flags(e) & 2 == 2) == (e.1 is Some),
        (entry_flags(e) & 4 == 4) == (e.1 is Some && e.1->Some_0.1 is Some),
        d.0 & 4 != 4 ==> !(entry_from(d, text).1 matches Some(s) && s.1 is Some),
        d.0 & 2 != 2 ==> entry_from(d, text).1 is None,
{
    let f = entry_flags(e);
    assert(f < 8);
    assert(f & 1 == 1 <==> (f == 1 || f == 3 || f == 5 || f == 7)) by (bit_vector)
        requires
            f < 8,
    ;
    assert(f & 2 == 2 <==> (f == 2 || f == 3 || f == 6 || f == 7)) by (bit_vector)
        requires
            f < 8,
    ;
    assert(f & 4 == 4 <==> (f >= 4)) by (bit_vector)
        requires
            f < 8,
    ;
}

/// Every metadata record takes forty bytes, every header twenty.
pub proof fn lemma_tlk_fixed_sizes(d: TlkData, h: TlkHeader)
    requires
        fits_res_ref(d.sound_res_ref@),
    ensures
        d.spec_bytes().len() == TlkData::spec_byte_size(),
        h.spec_bytes().len() == TlkHeader::spec_byte_size(),
{
    lemma_res_ref_round_trip_len(d.sound_res_ref@);
    lemma_file_type_tag_round_trip(h.file_type);
    lemma_version_tag_round_trip(h.version);
}

/// Whether an entry's sound name, if any, survives being written and read back.
pub open spec fn sound_round_trips(e: TlkEntryView) -> bool {
    e.1 matches Some(s) ==> name_round_trips(s.0)
}

pub open spec fn written_data(es: Seq<TlkEntryView>) -> Seq<TlkDataView> {
    Seq::new(es.len(), |i: int| tlk_data_for(es, i))
}

proof fn lemma_record_decode(b: Seq<u8>, q: int, d: TlkDataView)
    requires
        0 <= q,
        q + TLK_DATA_SIZE <= b.len(),
        name_round_trips(d.1),
        b.subrange(q, q + TLK_DATA_SIZE) == data_bytes(d),
    ensures
        spec_parse_tlk_record(b, q) == Ok::<TlkDataView, Error>(d),
{
    let x = data_bytes(d);
    lemma_res_ref_round_trip(d.1);
    lemma_u32_round_trip(d.0 as u32);
    lemma_u32_round_trip(d.2);
    lemma_u32_round_trip(d.3);
    lemma_u32_round_trip(d.4);
    lemma_sub_sub(b, q, x, 0, 4);
    assert(x.subrange(0, 4) =~= u32_le_bytes(d.0 as u32));
    lemma_sub_sub(b, q, x, 4, 16);
    assert(x.subrange(4, 20) =~= res_ref_bytes(d.1));
    lemma_sub_sub(b, q, x, 28, 4);
    assert(x.subrange(28, 32) =~= u32_le_bytes(d.2));
    lemma_sub_sub(b, q, x, 32, 4);
    assert(x.subrange(32, 36) =~= u32_le_bytes(d.3));
    lemma_sub_sub(b, q, x, 36, 4);
    assert(x.subrange(36, 40) =~= u32_le_bytes(d.4));
}

proof fn lemma_records_decode(b: Seq<u8>, es: Seq<TlkEntryView>, j: int)
    requires
        0 <= j <= es.len(),
        forall|i: int| 0 <= i < es.len() ==> sound_round_trips(#[trigger] es[i]),
        TLK_HEADER_SIZE + TLK_DATA_SIZE * es.len() <= b.len(),
        b.subrange(TLK_HEADER_SIZE as int, TLK_HEADER_SIZE + TLK_DATA_SIZE * es.len()) == Seq::new(
            es.len(),
            |i: int| data_bytes(tlk_data_for(es, i)),
        ).flatten(),
    ensures
        spec_parse_tlk_records(
            b,
            TLK_HEADER_SIZE + TLK_DATA_SIZE * j,
            (es.len() - j) as nat,
        ) == Ok::<Seq<TlkDataView>, Error>(written_data(es).subrange(j, es.len() as int)),
    decreases es.len() - j,
{
    let n = es.len() as int;
    let ws = written_data(es);
    if j == n {
        assert(ws.subrange(j, n) =~= seq![]);
    } else {
        let s = Seq::new(es.len(), |i: int| data_bytes(tlk_data_for(es, i)));
        assert forall|i: int| 0 <= i < s.len() implies (#[trigger] s[i]).len() == 40 by {
            let name = tlk_data_for(es, i).1;
            if es[i].1 is None {
                assert(name == Seq::<char>::empty());
            }
            lemma_res_ref_round_trip(name);
        }
        lemma_flatten_fixed(s, 40, j);
        let d = ws[j];
        let q = TLK_HEADER_SIZE + 40 * j;
        if es[j].1 is None {
            assert(d.1 == Seq::<char>::empty());
        }
        lemma_sub_sub(b, TLK_HEADER_SIZE as int, s.flatten(), 40 * j, 40);
        lemma_record_decode(b, q, d);
        assert(spec_parse_tlk_record(b, q) == Ok::<TlkDataView, Error>(d));
        lemma_records_decode(b, es, j + 1);
        assert(TLK_HEADER_SIZE + TLK_DATA_SIZE * (j + 1) == q + TLK_DATA_SIZE);
        assert(seq![d] + ws.subrange(j + 1, n) =~= ws.subrange(j, n));
    }
}

proof fn lemma_texts_decode(b: Seq<u8>, base: int, es: Seq<TlkEntryView>, i: int)
    requires
        0 <= base,
        0 <= i <= es.len(),
        base + text_pieces(es).flatten().len() <= u32::MAX,
        base + text_pieces(es).flatten().len() <= b.len(),
        b.subrange(base, base + text_pieces(es).flatten().len()) == text_pieces(es).flatten(),
    ensures
        spec_parse_tlk_texts(b, base, written_data(es), i as nat) == Ok::<Seq<Seq<char>>, Error>(
            es.map_values(|e: TlkEntryView| e.0).subrange(i, es.len() as int),
        ),
    decreases es.len() - i,
{
    let n = es.len() as int;
    let ts = es.map_values(|e: TlkEntryView| e.0);
    if i == n {
        assert(ts.subrange(i, n) =~= seq![]);
    } else {
        let pieces = text_pieces(es);
        lemma_flatten_piece(pieces, i);
        let off = text_offset(es, i);
        let t = encode_utf8(es[i].0);
        assert(pieces[i] == t);
        lemma_sub_sub(b, base, pieces.flatten(), off, t.len() as int);
        vstd::utf8::encode_utf8_valid_utf8(es[i].0);
        vstd::utf8::encode_utf8_decode_utf8(es[i].0);
        assert(utf8_text(b.subrange(base + off, base + off + t.len())) == es[i].0);
        lemma_texts_decode(b, base, es, i + 1);
        assert(seq![es[i].0] + ts.subrange(i + 1, n) =~= ts.subrange(i, n));
    }
}

/// The header is read back from where it was written.
proof fn lemma_tlk_header_decode(b: Seq<u8>, h: TlkHeader)
    requires
        TLK_HEADER_SIZE <= b.len(),
        b.subrange(0, TLK_HEADER_SIZE as int) == tlk_header_bytes(h),
    ensures
        spec_parse_tlk_header(b) == Ok::<TlkHeader, Error>(h),
{
    let hb = tlk_header_bytes(h);
    lemma_file_type_tag_round_trip(h.file_type);
    lemma_version_tag_round_trip(h.version);
    lemma_language_code_round_trip(h.language_id);
    let vals = seq![spec_language_code(h.language_id), h.string_count, h.string_offset];
    assert forall|k: int| 0 <= k < 3 implies u32_at(b, 8 + 4 * k) == #[trigger] vals[k] by {
        lemma_sub_sub(b, 0, hb, 8 + 4 * k, 4);
        lemma_u32_round_trip(vals[k]);
        assert(hb.subrange(8 + 4 * k, 12 + 4 * k) =~= u32_le_bytes(vals[k]));
    }
    assert(u32_at(b, 8) == vals[0]);
    assert(u32_at(b, 12) == vals[1]);
    assert(u32_at(b, 16) == vals[2]);
    lemma_sub_sub(b, 0, hb, 0, 4);
    assert(hb.subrange(0, 4) =~= file_type_tag(h.file_type));
    lemma_sub_sub(b, 0, hb, 4, 4);
    assert(hb.subrange(4, 8) =~= version_tag(h.version));
}

/// Where the regions of a written table stand.
proof fn lemma_tlk_layout(language: LanguageId, es: Seq<TlkEntryView>)
    requires
        forall|i: int| 0 <= i < es.len() ==> sound_round_trips(#[trigger] es[i]),
    ensures
        ({
            let b = tlk_bytes(language, es);
            let base = TLK_HEADER_SIZE + TLK_DATA_SIZE * es.len();
            let t = text_pieces(es).flatten();
            &&& base + t.len() == b.len()
            &&& b.subrange(0, TLK_HEADER_SIZE as int) == tlk_header_bytes(
                tlk_header_for(language, es.len()),
            )
            &&& b.subrange(TLK_HEADER_SIZE as int, base) == Seq::new(
                es.len(),
                |i: int| data_bytes(tlk_data_for(es, i)),
            ).flatten()
            &&& b.subrange(base, base + t.len()) == t
        }),
{
    let n = es.len() as int;
    let h = tlk_header_for(language, es.len());
    let hb = tlk_header_bytes(h);
    let r = Seq::new(es.len(), |i: int| data_bytes(tlk_data_for(es, i)));
    let t = text_pieces(es).flatten();
    let b = tlk_bytes(language, es);
    lemma_file_type_tag_round_trip(FileType::Tlk);
    lemma_version_tag_round_trip(Version::V3);
    assert(hb.len() == TLK_HEADER_SIZE);
    assert forall|i: int| 0 <= i < r.len() implies (#[trigger] r[i]).len() == 40 by {
        let name = tlk_data_for(es, i).1;
        if es[i].1 is None {
            assert(name == Seq::<char>::empty());
        }
        lemma_res_ref_round_trip(name);
    }
    lemma_flatten_fixed_len(r, 40, n);
    assert(r.take(n) =~= r);
    let rb = r.flatten();
    assert(b == hb + rb + t);
    let base = TLK_HEADER_SIZE + TLK_DATA_SIZE * n;
    assert(b.subrange(0, TLK_HEADER_SIZE as int) =~= hb);
    assert(b.subrange(TLK_HEADER_SIZE as int, base) =~= rb);
    assert(b.subrange(base, base + t.len()) =~= t);
}

/// The entries that the written records and texts make are the entries written.
proof fn lemma_tlk_entries(es: Seq<TlkEntryView>)
    ensures
        ({
            let ws = written_data(es);
            let ts = es.map_values(|e: TlkEntryView| e.0);
            Seq::new(ws.len(), |i: int| entry_from(ws[i], ts[i])) == es
        }),
{
    let ws = written_data(es);
    let ts = es.map_values(|e: TlkEntryView| e.0);
    assert forall|i: int| 0 <= i < es.len() implies #[trigger] entry_from(ws[i], ts[i]) == es[i] by {
        lemma_tlk_flags(es[i], ws[i], ts[i]);
    }
    assert(Seq::new(ws.len(), |i: int| entry_from(ws[i], ts[i])) =~= es);
}

proof fn lemma_tlk_compose(
    b: Seq<u8>,
    h: TlkHeader,
    ws: Seq<TlkDataView>,
    ts: Seq<Seq<char>>,
    es: Seq<TlkEntryView>,
)
    requires
        spec_parse_tlk_header(b) == Ok::<TlkHeader, Error>(h),
        spec_parse_tlk_records(b, TLK_HEADER_SIZE as int, h.string_count as nat) == Ok::<
            Seq<TlkDataView>,
            Error,
        >(ws),
        spec_parse_tlk_texts(b, h.string_offset as int, ws, 0) == Ok::<Seq<Seq<char>>, Error>(ts),
        Seq::new(ws.len(), |i: int| entry_from(ws[i], ts[i])) == es,
    ensures
        spec_parse_tlk(b) == Ok::<(TlkHeader, Seq<TlkEntryView>), Error>((h, es)),
{
}

/// Reading back a written string table gives its entries as they were, and
/// the header that was written, where each sound name fits and does not end
/// in NUL.
pub proof fn lemma_tlk_round_trip(language: LanguageId, es: Seq<TlkEntryView>)
    requires
        tlk_size(es) <= u32::MAX,
        forall|i: int| 0 <= i < es.len() ==> sound_round_trips(#[trigger] es[i]),
    ensures
        spec_parse_tlk(tlk_bytes(language, es)) == Ok::<(TlkHeader, Seq<TlkEntryView>), Error>(
            (tlk_header_for(language, es.len()), es),
        ),
{
    let n = es.len() as int;
    let h = tlk_header_for(language, es.len());
    let b = tlk_bytes(language, es);
    let base = TLK_HEADER_SIZE + TLK_DATA_SIZE * n;
    lemma_tlk_layout(language, es);
    lemma_tlk_header_decode(b, h);
    lemma_records_decode(b, es, 0);
    let ws = written_data(es);
    assert(ws.subrange(0, n) =~= ws);
    lemma_texts_decode(b, base, es, 0);
    let ts = es.map_values(|e: TlkEntryView| e.0);
    assert(ts.subrange(0, n) =~= ts);
    lemma_tlk_entries(es);
    lemma_tlk_compose(b, h, ws, ts, es);
}

} // verus!
