use vstd::prelude::*;
use crate::bytes::{u32_at, u32_le_bytes, zeros, push_u32, push_zeros};
use crate::erf::{prepend, lemma_prepend_assoc};
use crate::error::Error;
use crate::kinds::{FileType, Version, file_type_tag, version_tag, push_file_type_tag, push_version_tag};
use crate::reader::ByteReader;
use crate::resref::{ResRef, res_ref_text, res_ref_bytes};

verus! {

/// The size of a sound set's header.
pub const SSF_HEADER_SIZE: usize = 40;

/// The size of one entry.
pub const SSF_ENTRY_SIZE: usize = 20;

/// The string reference that stands for none.
pub const NULL_U32: u32 = 0xFFFF_FFFF;

/// An entry of a sound set: a sound's name and, if any, a string reference.
#[derive(Debug)]
pub struct SsfEntry {
    pub res_ref: ResRef,
    pub string_ref: Option<u32>,
}

impl Default for SsfEntry {
    fn default() -> (r: SsfEntry)
        ensures
            r.res_ref@ == Seq::<char>::empty(),
            r.string_ref is None,
    {
        SsfEntry { res_ref: ResRef::empty(), string_ref: None }
    }
}

pub type SsfEntryView = (Seq<char>, Option<u32>);

pub open spec fn ssf_entry_view(e: SsfEntry) -> SsfEntryView {
    (e.res_ref@, e.string_ref)
}

pub open spec fn ssf_entry_views(v: Seq<SsfEntry>) -> Seq<SsfEntryView> {
    v.map_values(|e: SsfEntry| ssf_entry_view(e))
}

/// The fixed part of a sound set.
#[derive(Debug, Clone, Copy, PartialEq, Eq, Structural)]
pub struct SsfHeader {
    pub version: Version,
    pub file_type: FileType,
    pub entry_count: u32,
    pub table_offset: u32,
}

/// A sound set: its header once read, and its entries.
#[derive(Debug)]
pub struct SsfFile {
    pub header: Option<SsfHeader>,
    pub entries: Vec<SsfEntry>,
}

/// The header read at position 0; the tags are taken as what they must be.
pub open spec fn spec_parse_ssf_header(b: Seq<u8>) -> Result<SsfHeader, Error> {
    if SSF_HEADER_SIZE > b.len() {
        Err(Error::UnexpectedEof)
    } else {
        Ok(
            SsfHeader {
                version: Version::V1,
                file_type: FileType::Ssf,
                entry_count: u32_at(b, 8),
                table_offset: u32_at(b, 12),
            },
        )
    }
}

/// The entry at position `o`.
pub open spec fn spec_parse_ssf_entry(b: Seq<u8>, o: int) -> Result<SsfEntryView, Error> {
    if o + SSF_ENTRY_SIZE > b.len() {
        Err(Error::UnexpectedEof)
    } else {
        Ok(
            (
                res_ref_text(b.subrange(o, o + 16)),
                if u32_at(b, o + 16) == NULL_U32 {
                    None
                } else {
                    Some(u32_at(b, o + 16))
                },
            ),
        )
    }
}

/// `n` entries from the offset table at `p`: each offset read, then the entry
/// it points at.
pub open spec fn spec_parse_ssf_entries(b: Seq<u8>, p: int, n: nat) -> Result<Seq<SsfEntryView>, Error>
    decreases n,
{
    if n == 0 {
        Ok(seq![])
    } else if p + 4 > b.len() {
        Err(Error::UnexpectedEof)
    } else {
        match spec_parse_ssf_entry(b, u32_at(b, p) as int) {
            Err(e) => Err(e),
            Ok(e) => prepend(seq![e], spec_parse_ssf_entries(b, p + 4, (n - 1) as nat)),
        }
    }
}

/// A sound set read from its bytes.
pub open spec fn spec_parse_ssf(b: Seq<u8>) -> Result<(SsfHeader, Seq<SsfEntryView>), Error> {
    match spec_parse_ssf_header(b) {
        Err(e) => Err(e),
        Ok(h) => match spec_parse_ssf_entries(b, h.table_offset as int, h.entry_count as nat) {
            Err(e) => Err(e),
            Ok(es) => Ok((h, es)),
        },
    }
}

fn read_entry_at(reader: &mut ByteReader, o: u32) -> (r: Result<SsfEntry, Error>)
    ensures
        final(reader).data() == old(reader).data(),
        r matches Ok(e) ==> spec_parse_ssf_entry(old(reader).data(), o as int) == Ok::<
            SsfEntryView,
            Error,
        >(ssf_entry_view(e)),
        r matches Err(e) ==> spec_parse_ssf_entry(old(reader).data(), o as int) == Err::<
            SsfEntryView,
            Error,
        >(e),
{
    let ghost b = reader.data();
    reader.seek_from_start(o as u64);
    if o as u64 + 20 > reader.len() as u64 {
        return Err(Error::UnexpectedEof);
    }
    let raw = match reader.read_bytes(16) {
        Ok(v) => v,
        Err(e) => return Err(e),
    };
    let res_ref = ResRef::read_field(raw.as_slice());
    let s = match reader.read_u32() {
        Ok(v) => v,
        Err(e) => return Err(e),
    };
    let string_ref = if s == NULL_U32 {
        None
    } else {
        Some(s)
    };
    Ok(SsfEntry { res_ref, string_ref })
}

/// Reads a sound set from its bytes.
pub fn parse(bytes: Vec<u8>) -> (r: Result<SsfFile, Error>)
    ensures
        r matches Ok(f) ==> f.header is Some && spec_parse_ssf(bytes@) == Ok::<
            (SsfHeader, Seq<SsfEntryView>),
            Error,
        >((f.header->Some_0, ssf_entry_views(f.entries@))),
        r matches Err(e) ==> spec_parse_ssf(bytes@) == Err::<(SsfHeader, Seq<SsfEntryView>), Error>(
            e,
        ),
{
    let mut reader = ByteReader::new(bytes);
    let ghost b = reader.data();
    if reader.len() < SSF_HEADER_SIZE {
        return Err(Error::UnexpectedEof);
    }
    reader.seek_from_start(8);
    let entry_count = match reader.read_u32() {
        Ok(v) => v,
        Err(e) => return Err(e),
    };
    let table_offset = match reader.read_u32() {
        Ok(v) => v,
        Err(e) => return Err(e),
    };
    let header = SsfHeader { version: Version::V1, file_type: FileType::Ssf, entry_count, table_offset };
    let ghost whole = spec_parse_ssf_entries(b, table_offset as int, entry_count as nat);
    let mut entries: Vec<SsfEntry> = Vec::new();
    let mut i: u32 = 0;
    let mut p: u64 = table_offset as u64;
    while i < entry_count
        invariant
            reader.data() == b,
            b == bytes@,
            header == spec_parse_ssf_header(b)->Ok_0,
            spec_parse_ssf_header(b) is Ok,
            header.entry_count == entry_count,
            header.table_offset == table_offset,
            whole == spec_parse_ssf_entries(b, table_offset as int, entry_count as nat),
            i <= entry_count,
            p == table_offset + 4 * i,
            whole == prepend(
                ssf_entry_views(entries@),
                spec_parse_ssf_entries(b, p as int, (entry_count - i) as nat),
            ),
        decreases entry_count - i,
    {
        let ghost k = (entry_count - i) as nat;
        reader.seek_from_start(p);
        let o = match reader.read_u32() {
            Ok(v) => v,
            Err(e) => return Err(e),
        };
        let e = match read_entry_at(&mut reader, o) {
            Ok(e) => e,
            Err(err) => return Err(err),
        };
        proof {
            assert(spec_parse_ssf_entries(b, p as int, k) == prepend(
                seq![ssf_entry_view(e)],
                spec_parse_ssf_entries(b, p + 4, (k - 1) as nat),
            ));
            lemma_prepend_assoc(
                ssf_entry_views(entries@),
                seq![ssf_entry_view(e)],
                spec_parse_ssf_entries(b, p + 4, (k - 1) as nat),
            );
            assert(ssf_entry_views(entries@.push(e)) =~= ssf_entry_views(entries@) + seq![
                ssf_entry_view(e),
            ]);
        }
        entries.push(e);
        i = i + 1;
        p = p + 4;
    }
    proof {
        assert(ssf_entry_views(entries@) + seq![] =~= ssf_entry_views(entries@));
    }
    Ok(SsfFile { header: Some(header), entries })
}

impl SsfFile {
    /// Reads a sound set from its bytes.
    pub fn parse_from(bytes: Vec<u8>) -> (r: Result<SsfFile, Error>)
        ensures
            r matches Ok(f) ==> f.header is Some && spec_parse_ssf(bytes@) == Ok::<
                (SsfHeader, Seq<SsfEntryView>),
                Error,
            >((f.header->Some_0, ssf_entry_views(f.entries@))),
            r matches Err(e) ==> spec_parse_ssf(bytes@) == Err::<
                (SsfHeader, Seq<SsfEntryView>),
                Error,
            >(e),
    {
        parse(bytes)
    }
}

/// An entry on disk: the name, then the string reference or the null one.
pub open spec fn ssf_entry_bytes(e: SsfEntryView) -> Seq<u8> {
    res_ref_bytes(e.0) + u32_le_bytes(
        match e.1 {
            Some(s) => s,
            None => NULL_U32,
        },
    )
}

/// The bytes of a written sound set: header (version tag, then kind tag), a
/// table of each entry's offset, then the entries.
pub open spec fn ssf_bytes(es: Seq<SsfEntryView>) -> Seq<u8> {
    let n = es.len();
    version_tag(Version::V1) + file_type_tag(FileType::Ssf) + u32_le_bytes(n as u32) + u32_le_bytes(
        SSF_HEADER_SIZE as u32,
    ) + zeros(24) + Seq::new(
        n,
        |i: int| u32_le_bytes((SSF_HEADER_SIZE + 4 * n + SSF_ENTRY_SIZE * i) as u32),
    ).flatten() + Seq::new(n, |i: int| ssf_entry_bytes(es[i])).flatten()
}

/// Builds a sound set entry by entry.
#[derive(Debug)]
pub struct SsfBuilder {
    entries: Vec<SsfEntry>,
}

impl SsfBuilder {
    pub closed spec fn entries(&self) -> Seq<SsfEntry> {
        self.entries@
    }

    pub fn new() -> (r: SsfBuilder)
        ensures
            r.entries().len() == 0,
    {
        SsfBuilder { entries: Vec::new() }
    }

    pub fn add_entry(&mut self, entry: SsfEntry) -> (r: &mut Self)
        ensures
            r.entries() == old(self).entries().push(entry),
            *final(self) == *final(r),
    {
        self.entries.push(entry);
        self
    }

    /// The bytes of the sound set; `TooLarge` where its offsets would not fit
    /// 32 bits.
    pub fn write(&self) -> (r: Result<Vec<u8>, Error>)
        ensures
            SSF_HEADER_SIZE + (4 + SSF_ENTRY_SIZE) * self.entries().len() > u32::MAX ==> r
                == Err::<Vec<u8>, Error>(Error::TooLarge),
            SSF_HEADER_SIZE + (4 + SSF_ENTRY_SIZE) * self.entries().len() <= u32::MAX ==> r is Ok
                && r->Ok_0@ == ssf_bytes(ssf_entry_views(self.entries())),
    {
        let ghost es = ssf_entry_views(self.entries@);
        let n = self.entries.len();
        if n as u64 > (4294967295u64 - 40) / 24 {
            return Err(Error::TooLarge);
        }
        let data_offset: u32 = (40 + 4 * n) as u32;
        let mut out: Vec<u8> = Vec::new();
        push_version_tag(&mut out, Version::V1);
        push_file_type_tag(&mut out, FileType::Ssf);
        push_u32(&mut out, n as u32);
        push_u32(&mut out, 40);
        push_zeros(&mut out, 24);
        let ghost after_header = out@;
        let ghost f = |i: int| u32_le_bytes((SSF_HEADER_SIZE + 4 * n + SSF_ENTRY_SIZE * i) as u32);
        let mut i: usize = 0;
        while i < n
            invariant
                n == self.entries@.len(),
                40 + 24 * n <= u32::MAX,
                data_offset == 40 + 4 * n,
                f == (|i: int| u32_le_bytes((SSF_HEADER_SIZE + 4 * n + SSF_ENTRY_SIZE * i) as u32)),
                i <= n,
                out@ == after_header + Seq::new(i as nat, f).flatten(),
            decreases n - i,
        {
            push_u32(&mut out, data_offset + 20 * (i as u32));
            proof {
                assert(Seq::new((i + 1) as nat, f) =~= Seq::new(i as nat, f).push(f(i as int)));
                Seq::new(i as nat, f).lemma_flatten_push(f(i as int));
            }
            i = i + 1;
        }
        let ghost after_table = out@;
        let ghost g = |i: int| ssf_entry_bytes(es[i]);
        let mut j: usize = 0;
        while j < n
            invariant
                n == self.entries@.len(),
                es == ssf_entry_views(self.entries@),
                g == (|i: int| ssf_entry_bytes(es[i])),
                j <= n,
                out@ == after_table + Seq::new(j as nat, g).flatten(),
            decreases n - j,
        {
            let e = &self.entries[j];
            e.res_ref.push_to(&mut out);
            let s = match e.string_ref {
                Some(s) => s,
                None => NULL_U32,
            };
            push_u32(&mut out, s);
            proof {
                assert(out@ =~= after_table + Seq::new(j as nat, g).flatten() + g(j as int));
                assert(Seq::new((j + 1) as nat, g) =~= Seq::new(j as nat, g).push(g(j as int)));
                Seq::new(j as nat, g).lemma_flatten_push(g(j as int));
            }
            j = j + 1;
        }
        proof {
            assert(out@ =~= ssf_bytes(es));
        }
        Ok(out)
    }
}

} // verus!
