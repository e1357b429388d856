use vstd::prelude::*;
use crate::bytes::{u32_at, u16_at};
use crate::erf::{prepend, lemma_prepend_assoc};
use crate::error::Error;
use crate::kinds::{
    FileType, Version, ResourceType, spec_file_type_from_tag, spec_version_from_tag,
    spec_resource_type,
};
use crate::reader::ByteReader;
use crate::resref::{utf8_text, lossy_string, trim_nuls, trim_trailing_nuls, res_ref_text};

verus! {

/// The size of the fixed prologue of an index file.
pub const KEY_HEADER_SIZE: usize = 64;

/// The size of one payload-archive descriptor.
pub const KEY_DESCRIPTOR_SIZE: usize = 12;

/// The size of one key record.
pub const KEY_ENTRY_SIZE: usize = 22;

/// How many payload archives one index can name apart: the upper twelve bits
/// of a packed id select the archive, the lower twenty the slot.
pub const SLOT_COUNT: u32 = 0x100000;

/// The fixed part of an index file.
#[derive(Debug, Clone, Copy, PartialEq, Eq, Structural)]
pub struct KeyHeader {
    pub version: Version,
    pub file_type: FileType,
    pub bif_count: u32,
    pub key_count: u32,
    pub offset_file_table: u32,
    pub offset_key_table: u32,
    pub build_years: u32,
    pub build_days: u32,
}

/// A payload-archive descriptor: its size, and where its name stands.
#[derive(Debug, Clone, Copy, PartialEq, Eq, Structural)]
pub struct TableEntry {
    pub file_size: u32,
    pub file_name_offset: u32,
    pub file_name_size: u16,
    pub drives: u16,
}

/// A key record: a resource's name, kind code and packed id.
#[derive(Debug)]
pub struct KeyEntry {
    pub name: String,
    pub resource_type: u16,
    pub id: u32,
}

/// A key record as values.
pub type KeyEntryView = (Seq<char>, u16, u32);

pub open spec fn key_entry_view(k: KeyEntry) -> KeyEntryView {
    (k.name@, k.resource_type, k.id)
}

pub open spec fn key_entry_views(v: Seq<KeyEntry>) -> Seq<KeyEntryView> {
    v.map_values(|k: KeyEntry| key_entry_view(k))
}

/// An index file as read: header, descriptors, archive names and key records.
#[derive(Debug)]
pub struct KeyFile {
    pub header: KeyHeader,
    pub table_entries: Vec<TableEntry>,
    pub file_names: Vec<String>,
    pub key_entries: Vec<KeyEntry>,
}

/// The resources of an index file, grouped by the payload archive that holds them.
#[derive(Debug)]
pub struct KeyFile2(pub Vec<BifFile>);

/// A payload archive named by an index, and the resources it holds.
#[derive(Debug)]
pub struct BifFile {
    pub name: String,
    pub resources: Vec<BifResource>,
}

/// A resource of a payload archive: its slot in the archive's own table, its
/// kind and its name.
#[derive(Debug)]
pub struct BifResource {
    pub resource_index: usize,
    pub resource_type: ResourceType,
    pub name: String,
}

/// A resource of a payload archive as values: slot, kind, name.
pub type BifResourceView = (int, ResourceType, Seq<char>);

pub open spec fn bif_resource_view(r: BifResource) -> BifResourceView {
    (r.resource_index as int, r.resource_type, r.name@)
}

pub open spec fn bif_file_view(f: BifFile) -> (Seq<char>, Seq<BifResourceView>) {
    (f.name@, f.resources@.map_values(|r: BifResource| bif_resource_view(r)))
}

/// The archive a packed id selects: its upper twelve bits.
pub open spec fn spec_archive_index(id: u32) -> u32 {
    id / SLOT_COUNT
}

/// The slot a packed id selects: its lower twenty bits.
pub open spec fn spec_slot_index(id: u32) -> u32 {
    id % SLOT_COUNT
}

/// The archive that a packed id selects.
pub fn archive_index(id: u32) -> (r: u32)
    ensures
        r == spec_archive_index(id),
        r < 4096,
{
    id / SLOT_COUNT
}

/// The slot within its archive that a packed id selects.
pub fn slot_index(id: u32) -> (r: u32)
    ensures
        r == spec_slot_index(id),
{
    id % SLOT_COUNT
}

/// Packing an archive index and a slot gives back both.
pub proof fn lemma_packed_id(archive: u32, slot: u32)
    requires
        archive < 4096,
        slot < SLOT_COUNT,
    ensures
        archive * SLOT_COUNT + slot <= u32::MAX,
        spec_archive_index((archive * SLOT_COUNT + slot) as u32) == archive,
        spec_slot_index((archive * SLOT_COUNT + slot) as u32) == slot,
{
    assert(archive * SLOT_COUNT <= 4095 * SLOT_COUNT) by (nonlinear_arith)
        requires
            archive < 4096,
    ;
}

/// The header read at position 0.
pub open spec fn spec_parse_key_header(b: Seq<u8>) -> Result<KeyHeader, Error> {
    if KEY_HEADER_SIZE > b.len() {
        Err(Error::UnexpectedEof)
    } else {
        Ok(
            KeyHeader {
                file_type: spec_file_type_from_tag(b.subrange(0, 4)),
                version: spec_version_from_tag(b.subrange(4, 8)),
                bif_count: u32_at(b, 8),
                key_count: u32_at(b, 12),
                offset_file_table: u32_at(b, 16),
                offset_key_table: u32_at(b, 20),
                build_years: u32_at(b, 24),
                build_days: u32_at(b, 28),
            },
        )
    }
}

/// `n` descriptors from position `p`.
pub open spec fn spec_parse_descriptors(b: Seq<u8>, p: int, n: nat) -> Result<Seq<TableEntry>, Error>
    decreases n,
{
    if n == 0 {
        Ok(seq![])
    } else if p + KEY_DESCRIPTOR_SIZE > b.len() {
        Err(Error::UnexpectedEof)
    } else {
        prepend(
            seq![
                TableEntry {
                    file_size: u32_at(b, p),
                    file_name_offset: u32_at(b, p + 4),
                    file_name_size: u16_at(b, p + 8),
                    drives: u16_at(b, p + 10),
                },
            ],
            spec_parse_descriptors(b, p + KEY_DESCRIPTOR_SIZE, (n - 1) as nat),
        )
    }
}

/// The archive names of the descriptors from index `i` on.
pub open spec fn spec_parse_file_names(b: Seq<u8>, es: Seq<TableEntry>, i: nat) -> Result<
    Seq<Seq<char>>,
    Error,
>
    decreases es.len() - i,
{
    if i >= es.len() {
        Ok(seq![])
    } else if es[i as int].file_name_offset + es[i as int].file_name_size > b.len() {
        Err(Error::UnexpectedEof)
    } else {
        let o = es[i as int].file_name_offset as int;
        prepend(
            seq![utf8_text(b.subrange(o, o + es[i as int].file_name_size))],
            spec_parse_file_names(b, es, i + 1),
        )
    }
}

/// `n` key records from position `p`.
pub open spec fn spec_parse_key_entries(b: Seq<u8>, p: int, n: nat) -> Result<
    Seq<KeyEntryView>,
    Error,
>
    decreases n,
{
    if n == 0 {
        Ok(seq![])
    } else if p + KEY_ENTRY_SIZE > b.len() {
        Err(Error::UnexpectedEof)
    } else {
        prepend(
            seq![(utf8_text(b.subrange(p, p + 16)), u16_at(b, p + 16), u32_at(b, p + 18))],
            spec_parse_key_entries(b, p + KEY_ENTRY_SIZE, (n - 1) as nat),
        )
    }
}

/// The resources that archive `i` holds among the key records, in their order.
pub open spec fn resources_of(keys: Seq<KeyEntryView>, i: int) -> Seq<BifResourceView>
    decreases keys.len(),
{
    if keys.len() == 0 {
        seq![]
    } else {
        let k = keys.last();
        let rest = resources_of(keys.drop_last(), i);
        if spec_archive_index(k.2) == i {
            rest.push(
                (spec_slot_index(k.2) as int, spec_resource_type(k.1 as u32), trim_nuls(k.0)),
            )
        } else {
            rest
        }
    }
}

/// An index file read from its bytes: for each archive it names, the name and
/// the resources it holds.
pub open spec fn spec_parse_key(b: Seq<u8>) -> Result<Seq<(Seq<char>, Seq<BifResourceView>)>, Error> {
    match spec_parse_key_header(b) {
        Err(e) => Err(e),
        Ok(h) => match spec_parse_descriptors(b, h.offset_file_table as int, h.bif_count as nat) {
            Err(e) => Err(e),
            Ok(es) => match spec_parse_file_names(b, es, 0) {
                Err(e) => Err(e),
                Ok(names) => match spec_parse_key_entries(
                    b,
                    h.offset_key_table as int,
                    h.key_count as nat,
                ) {
                    Err(e) => Err(e),
                    Ok(keys) => Ok(
                        Seq::new(names.len(), |i: int| (names[i], resources_of(keys, i))),
                    ),
                },
            },
        },
    }
}

fn parse_key_header(reader: &mut ByteReader) -> (r: Result<KeyHeader, Error>)
    requires
        old(reader).pos() == 0,
    ensures
        final(reader).data() == old(reader).data(),
        r == spec_parse_key_header(old(reader).data()),
{
    let tag = match reader.read_bytes(4) {
        Ok(v) => v,
        Err(e) => return Err(e),
    };
    let vtag = match reader.read_bytes(4) {
        Ok(v) => v,
        Err(e) => return Err(e),
    };
    let bif_count = match reader.read_u32() {
        Ok(v) => v,
        Err(e) => return Err(e),
    };
    let key_count = match reader.read_u32() {
        Ok(v) => v,
        Err(e) => return Err(e),
    };
    let offset_file_table = match reader.read_u32() {
        Ok(v) => v,
        Err(e) => return Err(e),
    };
    let offset_key_table = match reader.read_u32() {
        Ok(v) => v,
        Err(e) => return Err(e),
    };
    let build_years = match reader.read_u32() {
        Ok(v) => v,
        Err(e) => return Err(e),
    };
    let build_days = match reader.read_u32() {
        Ok(v) => v,
        Err(e) => return Err(e),
    };
    let _reserved = match reader.read_bytes(32) {
        Ok(v) => v,
        Err(e) => return Err(e),
    };
    Ok(
        KeyHeader {
            version: Version::from_tag_bytes(vtag.as_slice()),
            file_type: FileType::from_tag_bytes(tag.as_slice()),
            bif_count,
            key_count,
            offset_file_table,
            offset_key_table,
            build_years,
            build_days,
        },
    )
}

fn parse_table_entries(reader: &mut ByteReader, header: &KeyHeader) -> (r: Result<
    Vec<TableEntry>,
    Error,
>)
    ensures
        final(reader).data() == old(reader).data(),
        r matches Ok(v) ==> spec_parse_descriptors(
            old(reader).data(),
            header.offset_file_table as int,
            header.bif_count as nat,
        ) == Ok::<Seq<TableEntry>, Error>(v@),
        r matches Err(e) ==> spec_parse_descriptors(
            old(reader).data(),
            header.offset_file_table as int,
            header.bif_count as nat,
        ) == Err::<Seq<TableEntry>, Error>(e),
{
    let ghost b = reader.data();
    let ghost whole = spec_parse_descriptors(b, header.offset_file_table as int, header.bif_count as nat);
    reader.seek_from_start(header.offset_file_table as u64);
    let mut out: Vec<TableEntry> = Vec::new();
    let mut i: u32 = 0;
    while i < header.bif_count
        invariant
            reader.data() == b,
            old(reader).data() == b,
            whole == spec_parse_descriptors(b, header.offset_file_table as int, header.bif_count as nat),
            i <= header.bif_count,
            whole == prepend(out@, spec_parse_descriptors(b, reader.pos(), (header.bif_count - i) as nat)),
        decreases header.bif_count - i,
    {
        let ghost p = reader.pos();
        let ghost k = (header.bif_count - i) as nat;
        proof {
            assert(p + KEY_DESCRIPTOR_SIZE > b.len() ==> spec_parse_descriptors(b, p, k) == Err::<
                Seq<TableEntry>,
                Error,
            >(Error::UnexpectedEof));
        }
        let file_size = match reader.read_u32() {
            Ok(v) => v,
            Err(e) => return Err(e),
        };
        let file_name_offset = match reader.read_u32() {
            Ok(v) => v,
            Err(e) => return Err(e),
        };
        let file_name_size = match reader.read_u16() {
            Ok(v) => v,
            Err(e) => return Err(e),
        };
        let drives = match reader.read_u16() {
            Ok(v) => v,
            Err(e) => return Err(e),
        };
        let t = TableEntry { file_size, file_name_offset, file_name_size, drives };
        proof {
            assert(spec_parse_descriptors(b, p, k) == prepend(
                seq![t],
                spec_parse_descriptors(b, p + KEY_DESCRIPTOR_SIZE, (k - 1) as nat),
            ));
            lemma_prepend_assoc(out@, seq![t], spec_parse_descriptors(b, p + KEY_DESCRIPTOR_SIZE, (k - 1) as nat));
            assert(out@.push(t) =~= out@ + seq![t]);
        }
        out.push(t);
        i = i + 1;
    }
    proof {
        assert(out@ + seq![] =~= out@);
    }
    Ok(out)
}

fn parse_file_names(reader: &mut ByteReader, entries: &Vec<TableEntry>) -> (r: Result<
    Vec<String>,
    Error,
>)
    ensures
        final(reader).data() == old(reader).data(),
        r matches Ok(v) ==> spec_parse_file_names(old(reader).data(), entries@, 0) == Ok::<
            Seq<Seq<char>>,
            Error,
        >(v@.map_values(|s: String| s@)),
        r matches Err(e) ==> spec_parse_file_names(old(reader).data(), entries@, 0) == Err::<
            Seq<Seq<char>>,
            Error,
        >(e),
{
    let ghost b = reader.data();
    let ghost whole = spec_parse_file_names(b, entries@, 0);
    let mut out: Vec<String> = Vec::new();
    let mut i: usize = 0;
    while i < entries.len()
        invariant
            reader.data() == b,
            old(reader).data() == b,
            whole == spec_parse_file_names(b, entries@, 0),
            i <= entries@.len(),
            whole == prepend(out@.map_values(|s: String| s@), spec_parse_file_names(b, entries@, i as nat)),
        decreases entries@.len() - i,
    {
        let e = entries[i];
        reader.seek_from_start(e.file_name_offset as u64);
        let raw = match reader.read_bytes(e.file_name_size as usize) {
            Ok(v) => v,
            Err(err) => {
                proof {
                    assert(spec_parse_file_names(b, entries@, i as nat) == Err::<Seq<Seq<char>>, Error>(err));
                }
                return Err(err);
            },
        };
        let name = lossy_string(raw.as_slice());
        proof {
            assert(out@.push(name).map_values(|s: String| s@) =~= out@.map_values(|s: String| s@) + seq![name@]);
            lemma_prepend_assoc(out@.map_values(|s: String| s@), seq![name@], spec_parse_file_names(b, entries@, (i + 1) as nat));
        }
        out.push(name);
        i = i + 1;
    }
    proof {
        assert(out@.map_values(|s: String| s@) + seq![] =~= out@.map_values(|s: String| s@));
    }
    Ok(out)
}

fn parse_key_entries(reader: &mut ByteReader, header: &KeyHeader) -> (r: Result<
    Vec<KeyEntry>,
    Error,
>)
    ensures
        final(reader).data() == old(reader).data(),
        r matches Ok(v) ==> spec_parse_key_entries(
            old(reader).data(),
            header.offset_key_table as int,
            header.key_count as nat,
        ) == Ok::<Seq<KeyEntryView>, Error>(key_entry_views(v@)),
        r matches Err(e) ==> spec_parse_key_entries(
            old(reader).data(),
            header.offset_key_table as int,
            header.key_count as nat,
        ) == Err::<Seq<KeyEntryView>, Error>(e),
{
    let ghost b = reader.data();
    let ghost whole = spec_parse_key_entries(b, header.offset_key_table as int, header.key_count as nat);
    reader.seek_from_start(header.offset_key_table as u64);
    let mut out: Vec<KeyEntry> = Vec::new();
    let mut i: u32 = 0;
    while i < header.key_count
        invariant
            reader.data() == b,
            old(reader).data() == b,
            whole == spec_parse_key_entries(b, header.offset_key_table as int, header.key_count as nat),
            i <= header.key_count,
            whole == prepend(key_entry_views(out@), spec_parse_key_entries(b, reader.pos(), (header.key_count - i) as nat)),
        decreases header.key_count - i,
    {
        let ghost p = reader.pos();
        let ghost k = (header.key_count - i) as nat;
        proof {
            assert(p + KEY_ENTRY_SIZE > b.len() ==> spec_parse_key_entries(b, p, k) == Err::<
                Seq<KeyEntryView>,
                Error,
            >(Error::UnexpectedEof));
        }
        let raw = match reader.read_bytes(16) {
            Ok(v) => v,
            Err(e) => return Err(e),
        };
        let resource_type = match reader.read_u16() {
            Ok(v) => v,
            Err(e) => return Err(e),
        };
        let id = match reader.read_u32() {
            Ok(v) => v,
            Err(e) => return Err(e),
        };
        let key = KeyEntry { name: lossy_string(raw.as_slice()), resource_type, id };
        proof {
            assert(spec_parse_key_entries(b, p, k) == prepend(
                seq![key_entry_view(key)],
                spec_parse_key_entries(b, p + KEY_ENTRY_SIZE, (k - 1) as nat),
            ));
            lemma_prepend_assoc(key_entry_views(out@), seq![key_entry_view(key)], spec_parse_key_entries(b, p + KEY_ENTRY_SIZE, (k - 1) as nat));
            assert(key_entry_views(out@.push(key)) =~= key_entry_views(out@) + seq![key_entry_view(key)]);
        }
        out.push(key);
        i = i + 1;
    }
    proof {
        assert(key_entry_views(out@) + seq![] =~= key_entry_views(out@));
    }
    Ok(out)
}

/// The resources that archive `archive` holds, in key order, each with the
/// slot that the lower twenty bits of its packed id give.
pub fn resources_for_archive(keys: &Vec<KeyEntry>, archive: usize) -> (r: Vec<BifResource>)
    ensures
        r@.map_values(|x: BifResource| bif_resource_view(x)) == resources_of(
            key_entry_views(keys@),
            archive as int,
        ),
{
    let ghost ks = key_entry_views(keys@);
    let mut out: Vec<BifResource> = Vec::new();
    let mut j: usize = 0;
    while j < keys.len()
        invariant
            ks == key_entry_views(keys@),
            j <= keys@.len(),
            out@.map_values(|x: BifResource| bif_resource_view(x)) == resources_of(
                ks.take(j as int),
                archive as int,
            ),
        decreases keys@.len() - j,
    {
        let k = &keys[j];
        proof {
            assert(ks.take(j as int + 1).drop_last() =~= ks.take(j as int));
            assert(ks.take(j as int + 1).last() == key_entry_view(*k));
        }
        if archive_index(k.id) as usize == archive {
            let res = BifResource {
                resource_index: slot_index(k.id) as usize,
                resource_type: ResourceType::from_code(k.resource_type as u32),
                name: trim_trailing_nuls(k.name.as_str()),
            };
            proof {
                assert(out@.push(res).map_values(|x: BifResource| bif_resource_view(x))
                    =~= out@.map_values(|x: BifResource| bif_resource_view(x)).push(
                    bif_resource_view(res),
                ));
            }
            out.push(res);
        }
        j = j + 1;
    }
    proof {
        assert(ks.take(j as int) =~= ks);
    }
    out
}

/// Reads an index file and groups its resources by the payload archive that
/// holds them.
pub fn parse(bytes: Vec<u8>) -> (r: Result<KeyFile2, Error>)
    ensures
        r matches Ok(f) ==> spec_parse_key(bytes@) == Ok::<
            Seq<(Seq<char>, Seq<BifResourceView>)>,
            Error,
        >(f.0@.map_values(|x: BifFile| bif_file_view(x))),
        r matches Err(e) ==> spec_parse_key(bytes@) == Err::<
            Seq<(Seq<char>, Seq<BifResourceView>)>,
            Error,
        >(e),
{
    let mut reader = ByteReader::new(bytes);
    let header = match parse_key_header(&mut reader) {
        Ok(h) => h,
        Err(e) => return Err(e),
    };
    let entries = match parse_table_entries(&mut reader, &header) {
        Ok(v) => v,
        Err(e) => return Err(e),
    };
    let names = match parse_file_names(&mut reader, &entries) {
        Ok(v) => v,
        Err(e) => return Err(e),
    };
    let keys = match parse_key_entries(&mut reader, &header) {
        Ok(v) => v,
        Err(e) => return Err(e),
    };
    let ghost ns = names@.map_values(|s: String| s@);
    let ghost ks = key_entry_views(keys@);
    let mut files: Vec<BifFile> = Vec::new();
    let mut i: usize = 0;
    while i < names.len()
        invariant
            ns == names@.map_values(|s: String| s@),
            ks == key_entry_views(keys@),
            i <= names@.len(),
            files@.map_values(|x: BifFile| bif_file_view(x)) =~= Seq::new(
                i as nat,
                |j: int| (ns[j], resources_of(ks, j)),
            ),
        decreases names@.len() - i,
    {
        let f = BifFile { name: names[i].clone(), resources: resources_for_archive(&keys, i) };
        proof {
            assert(files@.push(f).map_values(|x: BifFile| bif_file_view(x)) =~= files@.map_values(
                |x: BifFile| bif_file_view(x),
            ).push(bif_file_view(f)));
        }
        files.push(f);
        i = i + 1;
    }
    Ok(KeyFile2(files))
}

/// Whether archive `a` of the index lists a resource named `name` before
/// position `i` of its list.
pub open spec fn named_before(f: Seq<BifFile>, name: Seq<char>, a: int, i: int) -> bool {
    exists|k: int| 0 <= k < i && (#[trigger] f[a].resources@[k]).name@ == name
}

/// Whether entry `i` of archive `a` is the first of that name in the index:
/// no earlier archive lists the name, nor does archive `a` before `i`.
pub open spec fn first_named(f: Seq<BifFile>, name: Seq<char>, a: int, i: int) -> bool {
    &&& 0 <= a < f.len()
    &&& 0 <= i < f[a].resources@.len()
    &&& f[a].resources@[i].name@ == name
    &&& !named_before(f, name, a, i)
    &&& forall|b: int| 0 <= b < a ==> !named_before(f, name, b, f[b].resources@.len() as int)
}

/// The first half of resolving a resource by name: the payload archive that
/// holds it (its index among the archives of the index) and its slot in that
/// archive's own table. The first archive that lists the name wins, and
/// within it the first entry of that name.
pub fn locate(key_file: &KeyFile2, name: &String) -> (r: Option<(usize, usize)>)
    ensures
        r matches Some(p) ==> exists|i: int|
            #[trigger] first_named(key_file.0@, name@, p.0 as int, i)
                && key_file.0@[p.0 as int].resources@[i].resource_index == p.1,
        r is None ==> forall|b: int|
            0 <= b < key_file.0@.len() ==> !named_before(
                key_file.0@,
                name@,
                b,
                key_file.0@[b].resources@.len() as int,
            ),
{
    let files = &key_file.0;
    let mut a: usize = 0;
    while a < files.len()
        invariant
            files@ == key_file.0@,
            a <= files@.len(),
            forall|b: int|
                0 <= b < a ==> !named_before(files@, name@, b, files@[b].resources@.len() as int),
        decreases files@.len() - a,
    {
        let resources = &files[a].resources;
        let mut i: usize = 0;
        while i < resources.len()
            invariant
                files@ == key_file.0@,
                a < files@.len(),
                resources@ == files@[a as int].resources@,
                i <= resources@.len(),
                !named_before(files@, name@, a as int, i as int),
                forall|b: int|
                    0 <= b < a ==> !named_before(files@, name@, b, files@[b].resources@.len() as int),
            decreases resources@.len() - i,
        {
            if resources[i].name.eq(name) {
                let slot = resources[i].resource_index;
                let r = Some((a, slot));
                proof {
                    assert(key_file.0@ == files@);
                    assert(first_named(key_file.0@, name@, a as int, i as int));
                    assert(key_file.0@[a as int].resources@[i as int].resource_index == slot);
                    let p = r->Some_0;
                    assert(first_named(key_file.0@, name@, p.0 as int, i as int)
                        && key_file.0@[p.0 as int].resources@[i as int].resource_index == p.1);
                }
                return r;
            }
            proof {
                assert forall|k: int| 0 <= k < i + 1 implies (#[trigger] files@[a as int].resources@[k]).name@
                    != name@ by {
                    if k < i {
                        assert(!named_before(files@, name@, a as int, i as int));
                    }
                }
            }
            i = i + 1;
        }
        a = a + 1;
    }
    None
}

/// What a key record becomes in the archive list it is grouped into: its
/// slot, kind and trimmed name.
pub open spec fn grouped_view(k: KeyEntryView) -> BifResourceView {
    (spec_slot_index(k.2) as int, spec_resource_type(k.1 as u32), trim_nuls(k.0))
}

/// Each key record is listed under exactly the archive that the upper twelve
/// bits of its packed id select, with the slot that the lower twenty bits
/// give; every listed resource comes from such a record.
pub proof fn lemma_slot_derivation(keys: Seq<KeyEntryView>, a: int)
    ensures
        forall|j: int|
            0 <= j < keys.len() && spec_archive_index(keys[j].2) == a ==> resources_of(
                keys,
                a,
            ).contains(grouped_view(#[trigger] keys[j])),
        forall|x: BifResourceView|
            #[trigger] resources_of(keys, a).contains(x) ==> exists|j: int|
                0 <= j < keys.len() && spec_archive_index(keys[j].2) == a && x == grouped_view(
                    #[trigger] keys[j],
                ),
    decreases keys.len(),
{
    if keys.len() > 0 {
        let rest = keys.drop_last();
        lemma_slot_derivation(rest, a);
        let k = keys.last();
        let rs = resources_of(rest, a);
        assert forall|j: int|
            0 <= j < keys.len() && spec_archive_index(keys[j].2) == a implies resources_of(
            keys,
            a,
        ).contains(grouped_view(#[trigger] keys[j])) by {
            if j < keys.len() - 1 {
                assert(keys[j] == rest[j]);
                assert(rs.contains(grouped_view(rest[j])));
                let w = choose|w: int| 0 <= w < rs.len() && rs[w] == grouped_view(rest[j]);
                if spec_archive_index(k.2) == a {
                    assert(rs.push(grouped_view(k))[w] == rs[w]);
                }
            } else {
                assert(keys[j] == k);
                assert(rs.push(grouped_view(k))[rs.len() as int] == grouped_view(k));
            }
        }
        assert forall|x: BifResourceView| #[trigger] resources_of(keys, a).contains(x) implies exists|
            j: int,
        |
            0 <= j < keys.len() && spec_archive_index(keys[j].2) == a && x == grouped_view(
                #[trigger] keys[j],
            ) by {
            if spec_archive_index(k.2) == a {
                let w = choose|w: int|
                    0 <= w < rs.push(grouped_view(k)).len() && rs.push(grouped_view(k))[w] == x;
                if w == rs.len() {
                    assert(keys[keys.len() - 1] == k);
                } else {
                    assert(rs[w] == x);
                    assert(rs.contains(x));
                    let j = choose|j: int|
                        0 <= j < rest.len() && spec_archive_index(rest[j].2) == a && x
                            == grouped_view(#[trigger] rest[j]);
                    assert(keys[j] == rest[j]);
                }
            } else {
                let j = choose|j: int|
                    0 <= j < rest.len() && spec_archive_index(rest[j].2) == a && x == grouped_view(
                        #[trigger] rest[j],
                    );
                assert(keys[j] == rest[j]);
            }
        }
    }
}

} // verus!
