use vstd::prelude::*;
use crate::bytes::{
    u32_at, u16_at, u32_le_bytes, u16_le_bytes, zeros, push_u32, push_u16, push_zeros,
    push_slice,
};
use crate::kinds::{
    file_type_tag, version_tag, spec_language_code, spec_resource_code, is_erf_kind,
    push_file_type_tag, push_version_tag,
};
use crate::resref::{res_ref_bytes, fits_res_ref, lemma_res_ref_round_trip, utf8_text, trim_nuls};
use crate::bytes::{spec_u32_le, spec_u16_le, lemma_u32_round_trip, lemma_u16_round_trip};
use crate::kinds::{lemma_resource_code_round_trip, lemma_language_code_round_trip, lemma_file_type_tag_round_trip, lemma_version_tag_round_trip};
use vstd::utf8::encode_utf8;
use crate::error::Error;
use crate::kinds::{
    FileType, Version, LanguageId, ResourceType, spec_file_type_from_tag,
    spec_version_from_tag, spec_language, spec_resource_type,
};
use crate::reader::ByteReader;
use crate::codec::{SerializeToBytes, StaticByteSize};
use crate::resref::{ResRef, res_ref_text, lossy_string};

verus! {

/// A resource: a name, a kind and its bytes.
#[derive(Debug)]
pub struct Resource {
    pub name: ResRef,
    pub data: Vec<u8>,
    pub resource_type: ResourceType,
}

/// A resource as values: name, kind, bytes.
pub type ResourceView = (Seq<char>, ResourceType, Seq<u8>);

/// A localized description as values: language, text.
pub type DescriptionView = (LanguageId, Seq<char>);

/// A key record as values: name, declared id, kind.
pub type KeyView = (Seq<char>, u32, ResourceType);

pub open spec fn resource_view(r: Resource) -> ResourceView {
    (r.name@, r.resource_type, r.data@)
}

pub open spec fn resource_views(v: Seq<Resource>) -> Seq<ResourceView> {
    v.map_values(|r: Resource| resource_view(r))
}

/// The fixed part of an ERF-family archive.
#[derive(Debug, Clone, Copy, PartialEq, Eq, Structural)]
pub struct ErfHeader {
    pub version: Version,
    pub file_type: FileType,
    pub language_count: u32,
    pub localized_string_size: u32,
    pub entry_count: u32,
    pub offset_to_localized_string: u32,
    pub offset_to_key_list: u32,
    pub offset_to_resource_list: u32,
    pub build_year: u32,
    pub build_day: u32,
    pub description_str_ref: u32,
}

/// The size of the header on disk, its reserved tail included.
pub const ERF_HEADER_SIZE: usize = 160;

/// The size of the reserved tail of the header.
pub const ERF_HEADER_RESERVED: usize = 116;

/// The size of one key record.
pub const ERF_KEY_SIZE: usize = 24;

/// The size of one resource location record.
pub const ERF_LOCATION_SIZE: usize = 8;

/// A text describing the archive in one language.
#[derive(Debug)]
pub struct ErfDescription {
    pub language_id: LanguageId,
    pub text: String,
}

pub open spec fn description_view(d: ErfDescription) -> DescriptionView {
    (d.language_id, d.text@)
}

pub open spec fn description_views(v: Seq<ErfDescription>) -> Seq<DescriptionView> {
    v.map_values(|d: ErfDescription| description_view(d))
}

/// A record of the key table: the name and kind of the resource at the same
/// index of the location table.
#[derive(Debug)]
pub struct ErfKey {
    pub file_name: ResRef,
    pub resource_id: u32,
    pub resource_type: ResourceType,
}

pub open spec fn key_view(k: ErfKey) -> KeyView {
    (k.file_name@, k.resource_id, k.resource_type)
}

/// Where the bytes of a resource stand in the archive.
#[derive(Debug, Clone, Copy, PartialEq, Eq, Structural)]
pub struct ErfResourceListItem {
    pub offset: u32,
    pub size: u32,
}

/// `s` in front of the sequence that `r` holds, or the error of `r`.
pub open spec fn prepend<V>(s: Seq<V>, r: Result<Seq<V>, Error>) -> Result<Seq<V>, Error> {
    match r {
        Ok(t) => Ok(s + t),
        Err(e) => Err(e),
    }
}

pub proof fn lemma_prepend_assoc<V>(a: Seq<V>, b: Seq<V>, r: Result<Seq<V>, Error>)
    ensures
        prepend(a, prepend(b, r)) == prepend(a + b, r),
{
    if let Ok(t) = r {
        assert(a + (b + t) =~= (a + b) + t);
    }
}

/// The header read at position `p`.
pub open spec fn spec_parse_erf_header(b: Seq<u8>, p: int) -> Result<ErfHeader, Error> {
    if p + ERF_HEADER_SIZE > b.len() {
        Err(Error::UnexpectedEof)
    } else {
        Ok(
            ErfHeader {
                file_type: spec_file_type_from_tag(b.subrange(p, p + 4)),
                version: spec_version_from_tag(b.subrange(p + 4, p + 8)),
                language_count: u32_at(b, p + 8),
                localized_string_size: u32_at(b, p + 12),
                entry_count: u32_at(b, p + 16),
                offset_to_localized_string: u32_at(b, p + 20),
                offset_to_key_list: u32_at(b, p + 24),
                offset_to_resource_list: u32_at(b, p + 28),
                build_year: u32_at(b, p + 32),
                build_day: u32_at(b, p + 36),
                description_str_ref: u32_at(b, p + 40),
            },
        )
    }
}

/// `n` descriptions read one after another from position `p`: each a
/// language code (the language times two), a length, and that many bytes of text.
pub open spec fn spec_parse_descriptions(b: Seq<u8>, p: int, n: nat) -> Result<
    Seq<DescriptionView>,
    Error,
>
    decreases n,
{
    if n == 0 {
        Ok(seq![])
    } else if p + 8 > b.len() {
        Err(Error::UnexpectedEof)
    } else {
        let len = u32_at(b, p + 4);
        if p + 8 + len > b.len() {
            Err(Error::UnexpectedEof)
        } else {
            prepend(
                seq![(spec_language(u32_at(b, p) / 2), utf8_text(b.subrange(p + 8, p + 8 + len)))],
                spec_parse_descriptions(b, p + 8 + len, (n - 1) as nat),
            )
        }
    }
}

/// The key record at position `p`.
pub open spec fn spec_parse_key(b: Seq<u8>, p: int) -> Result<KeyView, Error> {
    if p + ERF_KEY_SIZE > b.len() {
        Err(Error::UnexpectedEof)
    } else {
        Ok(
            (
                res_ref_text(b.subrange(p, p + 16)),
                u32_at(b, p + 16),
                spec_resource_type(u16_at(b, p + 20) as u32),
            ),
        )
    }
}

/// `n` key records from position `p`.
pub open spec fn spec_parse_keys(b: Seq<u8>, p: int, n: nat) -> Result<Seq<KeyView>, Error>
    decreases n,
{
    if n == 0 {
        Ok(seq![])
    } else {
        match spec_parse_key(b, p) {
            Err(e) => Err(e),
            Ok(k) => prepend(seq![k], spec_parse_keys(b, p + ERF_KEY_SIZE, (n - 1) as nat)),
        }
    }
}

/// `n` location records from position `p`.
pub open spec fn spec_parse_locations(b: Seq<u8>, p: int, n: nat) -> Result<
    Seq<ErfResourceListItem>,
    Error,
>
    decreases n,
{
    if n == 0 {
        Ok(seq![])
    } else if p + ERF_LOCATION_SIZE > b.len() {
        Err(Error::UnexpectedEof)
    } else {
        prepend(
            seq![ErfResourceListItem { offset: u32_at(b, p), size: u32_at(b, p + 4) }],
            spec_parse_locations(b, p + ERF_LOCATION_SIZE, (n - 1) as nat),
        )
    }
}

/// The resources from index `i` on: the `i`-th key names the bytes that the
/// `i`-th location points at.
pub open spec fn spec_parse_payloads(
    b: Seq<u8>,
    keys: Seq<KeyView>,
    locs: Seq<ErfResourceListItem>,
    i: nat,
) -> Result<Seq<ResourceView>, Error>
    decreases keys.len() - i,
{
    if i >= keys.len() || i >= locs.len() {
        Ok(seq![])
    } else if locs[i as int].offset + locs[i as int].size > b.len() {
        Err(Error::UnexpectedEof)
    } else {
        let l = locs[i as int];
        prepend(
            seq![(keys[i as int].0, keys[i as int].2, b.subrange(l.offset as int, l.offset + l.size))],
            spec_parse_payloads(b, keys, locs, i + 1),
        )
    }
}

/// The resources that the key and location tables describe: the tables must
/// have the same length, the `i`-th key naming the `i`-th location's bytes.
pub open spec fn spec_parse_resources(
    b: Seq<u8>,
    keys: Seq<KeyView>,
    locs: Seq<ErfResourceListItem>,
) -> Result<Seq<ResourceView>, Error> {
    if keys.len() != locs.len() {
        Err(Error::StructuralMismatch)
    } else {
        spec_parse_payloads(b, keys, locs, 0)
    }
}

/// An ERF-family archive read from its bytes: header, descriptions, resources.
pub open spec fn spec_parse_erf(b: Seq<u8>) -> Result<
    (ErfHeader, Seq<DescriptionView>, Seq<ResourceView>),
    Error,
> {
    match spec_parse_erf_header(b, 0) {
        Err(e) => Err(e),
        Ok(h) => match spec_parse_descriptions(
            b,
            h.offset_to_localized_string as int,
            h.language_count as nat,
        ) {
            Err(e) => Err(e),
            Ok(ds) => match spec_parse_keys(b, h.offset_to_key_list as int, h.entry_count as nat) {
                Err(e) => Err(e),
                Ok(ks) => match spec_parse_locations(
                    b,
                    h.offset_to_resource_list as int,
                    h.entry_count as nat,
                ) {
                    Err(e) => Err(e),
                    Ok(ls) => match spec_parse_resources(b, ks, ls) {
                        Err(e) => Err(e),
                        Ok(rs) => Ok((h, ds, rs)),
                    },
                },
            },
        },
    }
}

/// Reads the header at the reader's position.
pub fn parse_header(reader: &mut ByteReader) -> (r: Result<ErfHeader, Error>)
    ensures
        final(reader).data() == old(reader).data(),
        r == spec_parse_erf_header(old(reader).data(), old(reader).pos()),
        r is Ok ==> final(reader).pos() == old(reader).pos() + ERF_HEADER_SIZE,
{
    let tag = match reader.read_bytes(4) {
        Ok(v) => v,
        Err(e) => return Err(e),
    };
    let file_type = FileType::from_tag_bytes(tag.as_slice());
    let vtag = match reader.read_bytes(4) {
        Ok(v) => v,
        Err(e) => return Err(e),
    };
    let version = Version::from_tag_bytes(vtag.as_slice());
    let language_count = match reader.read_u32() {
        Ok(v) => v,
        Err(e) => return Err(e),
    };
    let localized_string_size = match reader.read_u32() {
        Ok(v) => v,
        Err(e) => return Err(e),
    };
    let entry_count = match reader.read_u32() {
        Ok(v) => v,
        Err(e) => return Err(e),
    };
    let offset_to_localized_string = match reader.read_u32() {
        Ok(v) => v,
        Err(e) => return Err(e),
    };
    let offset_to_key_list = match reader.read_u32() {
        Ok(v) => v,
        Err(e) => return Err(e),
    };
    let offset_to_resource_list = match reader.read_u32() {
        Ok(v) => v,
        Err(e) => return Err(e),
    };
    let build_year = match reader.read_u32() {
        Ok(v) => v,
        Err(e) => return Err(e),
    };
    let build_day = match reader.read_u32() {
        Ok(v) => v,
        Err(e) => return Err(e),
    };
    let description_str_ref = match reader.read_u32() {
        Ok(v) => v,
        Err(e) => return Err(e),
    };
    let _reserved = match reader.read_bytes(ERF_HEADER_RESERVED) {
        Ok(v) => v,
        Err(e) => return Err(e),
    };
    Ok(
        ErfHeader {
            version,
            file_type,
            language_count,
            localized_string_size,
            entry_count,
            offset_to_localized_string,
            offset_to_key_list,
            offset_to_resource_list,
            build_year,
            build_day,
            description_str_ref,
        },
    )
}

/// Reads the descriptions that the header declares, from the offset it gives.
pub fn parse_localized_language_strings(reader: &mut ByteReader, header: &ErfHeader) -> (r: Result<
    Vec<ErfDescription>,
    Error,
>)
    ensures
        final(reader).data() == old(reader).data(),
        r matches Ok(v) ==> spec_parse_descriptions(
            old(reader).data(),
            header.offset_to_localized_string as int,
            header.language_count as nat,
        ) == Ok::<Seq<DescriptionView>, Error>(description_views(v@)),
        r matches Err(e) ==> spec_parse_descriptions(
            old(reader).data(),
            header.offset_to_localized_string as int,
            header.language_count as nat,
        ) == Err::<Seq<DescriptionView>, Error>(e),
{
    let ghost b = reader.data();
    let ghost whole = spec_parse_descriptions(
        b,
        header.offset_to_localized_string as int,
        header.language_count as nat,
    );
    reader.seek_from_start(header.offset_to_localized_string as u64);
    let mut out: Vec<ErfDescription> = Vec::new();
    let mut i: u32 = 0;
    while i < header.language_count
        invariant
            reader.data() == b,
            old(reader).data() == b,
            whole == spec_parse_descriptions(
                b,
                header.offset_to_localized_string as int,
                header.language_count as nat,
            ),
            i <= header.language_count,
            reader.pos() <= b.len() || i == 0,
            whole == prepend(
                description_views(out@),
                spec_parse_descriptions(b, reader.pos(), (header.language_count - i) as nat),
            ),
        decreases header.language_count - i,
    {
        let ghost p = reader.pos();
        proof {
            let k = (header.language_count - i) as nat;
            assert(p + 8 > b.len() ==> spec_parse_descriptions(b, p, k) == Err::<
                Seq<DescriptionView>,
                Error,
            >(Error::UnexpectedEof));
            assert(p + 8 <= b.len() && p + 8 + u32_at(b, p + 4) > b.len()
                ==> spec_parse_descriptions(b, p, k) == Err::<Seq<DescriptionView>, Error>(
                Error::UnexpectedEof,
            ));
        }
        let code = match reader.read_u32() {
            Ok(v) => v,
            Err(e) => {
                proof {
                    assert(p + 4 > b.len());
                    assert(spec_parse_descriptions(b, p, (header.language_count - i) as nat) == Err::<Seq<DescriptionView>, Error>(Error::UnexpectedEof));
                    assert(whole == Err::<Seq<DescriptionView>, Error>(Error::UnexpectedEof));
                }
                return Err(e);
            },
        };
        let len = match reader.read_u32() {
            Ok(v) => v,
            Err(e) => {
                proof {
                    assert(p + 8 > b.len());
                    assert(e == Error::UnexpectedEof);
                    assert(spec_parse_descriptions(b, p, (header.language_count - i) as nat) == Err::<Seq<DescriptionView>, Error>(Error::UnexpectedEof));
                    assert(whole == Err::<Seq<DescriptionView>, Error>(Error::UnexpectedEof));
                }
                return Err(e);
            },
        };
        let raw = match reader.read_bytes(len as usize) {
            Ok(v) => v,
            Err(e) => {
                proof {
                    assert(p + 8 + u32_at(b, p + 4) > b.len());
                    assert(spec_parse_descriptions(b, p, (header.language_count - i) as nat) == Err::<Seq<DescriptionView>, Error>(Error::UnexpectedEof));
                    assert(whole == Err::<Seq<DescriptionView>, Error>(Error::UnexpectedEof));
                }
                return Err(e);
            },
        };
        let text = lossy_string(raw.as_slice());
        let d = ErfDescription { language_id: LanguageId::from(code / 2), text };
        proof {
            assert(description_views(out@.push(d)) =~= description_views(out@) + seq![
                description_view(d),
            ]);
            lemma_prepend_assoc(
                description_views(out@),
                seq![description_view(d)],
                spec_parse_descriptions(b, reader.pos(), (header.language_count - i - 1) as nat),
            );
        }
        out.push(d);
        i = i + 1;
    }
    proof {
        assert(description_views(out@) + seq![] =~= description_views(out@));
    }
    Ok(out)
}

pub open spec fn key_views(v: Seq<ErfKey>) -> Seq<KeyView> {
    v.map_values(|k: ErfKey| key_view(k))
}

/// Reads the key table that the header declares.
pub fn parse_key_list(reader: &mut ByteReader, header: &ErfHeader) -> (r: Result<Vec<ErfKey>, Error>)
    ensures
        final(reader).data() == old(reader).data(),
        r matches Ok(v) ==> spec_parse_keys(
            old(reader).data(),
            header.offset_to_key_list as int,
            header.entry_count as nat,
        ) == Ok::<Seq<KeyView>, Error>(key_views(v@)),
        r matches Err(e) ==> spec_parse_keys(
            old(reader).data(),
            header.offset_to_key_list as int,
            header.entry_count as nat,
        ) == Err::<Seq<KeyView>, Error>(e),
{
    let ghost b = reader.data();
    let ghost whole = spec_parse_keys(b, header.offset_to_key_list as int, header.entry_count as nat);
    reader.seek_from_start(header.offset_to_key_list as u64);
    let mut out: Vec<ErfKey> = Vec::new();
    let mut i: u32 = 0;
    while i < header.entry_count
        invariant
            reader.data() == b,
            old(reader).data() == b,
            whole == spec_parse_keys(b, header.offset_to_key_list as int, header.entry_count as nat),
            i <= header.entry_count,
            whole == prepend(
                key_views(out@),
                spec_parse_keys(b, reader.pos(), (header.entry_count - i) as nat),
            ),
        decreases header.entry_count - i,
    {
        let ghost p = reader.pos();
        let ghost k = (header.entry_count - i) as nat;
        let raw = match reader.read_bytes(16) {
            Ok(v) => v,
            Err(e) => {
                proof {
                    assert(spec_parse_keys(b, p, k) == Err::<Seq<KeyView>, Error>(e));
                }
                return Err(e);
            },
        };
        let file_name = ResRef::read_field(raw.as_slice());
        let resource_id = match reader.read_u32() {
            Ok(v) => v,
            Err(e) => {
                proof {
                    assert(spec_parse_keys(b, p, k) == Err::<Seq<KeyView>, Error>(e));
                }
                return Err(e);
            },
        };
        let code = match reader.read_u16() {
            Ok(v) => v,
            Err(e) => {
                proof {
                    assert(spec_parse_keys(b, p, k) == Err::<Seq<KeyView>, Error>(e));
                }
                return Err(e);
            },
        };
        let _reserved = match reader.read_bytes(2) {
            Ok(v) => v,
            Err(e) => {
                proof {
                    assert(spec_parse_keys(b, p, k) == Err::<Seq<KeyView>, Error>(e));
                }
                return Err(e);
            },
        };
        let key = ErfKey { file_name, resource_id, resource_type: ResourceType::from_code(code as u32) };
        proof {
            assert(spec_parse_keys(b, p, k) == prepend(
                seq![key_view(key)],
                spec_parse_keys(b, p + ERF_KEY_SIZE, (k - 1) as nat),
            ));
            assert(key_views(out@.push(key)) =~= key_views(out@) + seq![key_view(key)]);
            lemma_prepend_assoc(
                key_views(out@),
                seq![key_view(key)],
                spec_parse_keys(b, p + ERF_KEY_SIZE, (k - 1) as nat),
            );
        }
        out.push(key);
        i = i + 1;
    }
    proof {
        assert(key_views(out@) + seq![] =~= key_views(out@));
    }
    Ok(out)
}

/// Reads the location table that the header declares.
pub fn parse_resource_list_items(reader: &mut ByteReader, header: &ErfHeader) -> (r: Result<
    Vec<ErfResourceListItem>,
    Error,
>)
    ensures
        final(reader).data() == old(reader).data(),
        r matches Ok(v) ==> spec_parse_locations(
            old(reader).data(),
            header.offset_to_resource_list as int,
            header.entry_count as nat,
        ) == Ok::<Seq<ErfResourceListItem>, Error>(v@),
        r matches Err(e) ==> spec_parse_locations(
            old(reader).data(),
            header.offset_to_resource_list as int,
            header.entry_count as nat,
        ) == Err::<Seq<ErfResourceListItem>, Error>(e),
{
    let ghost b = reader.data();
    let ghost whole = spec_parse_locations(
        b,
        header.offset_to_resource_list as int,
        header.entry_count as nat,
    );
    reader.seek_from_start(header.offset_to_resource_list as u64);
    let mut out: Vec<ErfResourceListItem> = Vec::new();
    let mut i: u32 = 0;
    while i < header.entry_count
        invariant
            reader.data() == b,
            old(reader).data() == b,
            whole == spec_parse_locations(
                b,
                header.offset_to_resource_list as int,
                header.entry_count as nat,
            ),
            i <= header.entry_count,
            whole == prepend(
                out@,
                spec_parse_locations(b, reader.pos(), (header.entry_count - i) as nat),
            ),
        decreases header.entry_count - i,
    {
        let ghost p = reader.pos();
        let ghost k = (header.entry_count - i) as nat;
        proof {
            assert(p + ERF_LOCATION_SIZE > b.len() ==> spec_parse_locations(b, p, k) == Err::<
                Seq<ErfResourceListItem>,
                Error,
            >(Error::UnexpectedEof));
        }
        let offset = match reader.read_u32() {
            Ok(v) => v,
            Err(e) => return Err(e),
        };
        let size = match reader.read_u32() {
            Ok(v) => v,
            Err(e) => return Err(e),
        };
        let item = ErfResourceListItem { offset, size };
        proof {
            assert(spec_parse_locations(b, p, k) == prepend(
                seq![item],
                spec_parse_locations(b, p + ERF_LOCATION_SIZE, (k - 1) as nat),
            ));
            lemma_prepend_assoc(
                out@,
                seq![item],
                spec_parse_locations(b, p + ERF_LOCATION_SIZE, (k - 1) as nat),
            );
        }
        proof {
            assert(out@.push(item) =~= out@ + seq![item]);
        }
        out.push(item);
        i = i + 1;
    }
    proof {
        assert(out@ + seq![] =~= out@);
    }
    Ok(out)
}

/// Reads the bytes of each resource: the `i`-th key names what the `i`-th
/// location points at; tables of different lengths are refused.
pub fn parse_resources(
    reader: &mut ByteReader,
    key_list: Vec<ErfKey>,
    resource_list_items: &Vec<ErfResourceListItem>,
) -> (r: Result<Vec<Resource>, Error>)
    ensures
        final(reader).data() == old(reader).data(),
        r matches Ok(v) ==> spec_parse_resources(
            old(reader).data(),
            key_views(key_list@),
            resource_list_items@,
        ) == Ok::<Seq<ResourceView>, Error>(resource_views(v@)),
        r matches Err(e) ==> spec_parse_resources(
            old(reader).data(),
            key_views(key_list@),
            resource_list_items@,
        ) == Err::<Seq<ResourceView>, Error>(e),
{
    if key_list.len() != resource_list_items.len() {
        return Err(Error::StructuralMismatch);
    }
    let ghost b = reader.data();
    let ghost ks = key_views(key_list@);
    let ghost whole = spec_parse_payloads(b, ks, resource_list_items@, 0);
    let mut out: Vec<Resource> = Vec::new();
    let mut i: usize = 0;
    while i < key_list.len() && i < resource_list_items.len()
        invariant
            reader.data() == b,
            old(reader).data() == b,
            ks == key_views(key_list@),
            key_list@.len() == resource_list_items@.len(),
            whole == spec_parse_payloads(b, ks, resource_list_items@, 0),
            i <= key_list@.len(),
            whole == prepend(
                resource_views(out@),
                spec_parse_payloads(b, ks, resource_list_items@, i as nat),
            ),
        decreases key_list@.len() - i,
    {
        let item = resource_list_items[i];
        reader.seek_from_start(item.offset as u64);
        let data = match reader.read_bytes(item.size as usize) {
            Ok(v) => v,
            Err(e) => {
                proof {
                    assert(spec_parse_payloads(b, ks, resource_list_items@, i as nat) == Err::<
                        Seq<ResourceView>,
                        Error,
                    >(e));
                }
                return Err(e);
            },
        };
        let key = &key_list[i];
        let res = Resource { name: key.file_name.copy(), data, resource_type: key.resource_type };
        proof {
            assert(resource_views(out@.push(res)) =~= resource_views(out@) + seq![
                resource_view(res),
            ]);
            lemma_prepend_assoc(
                resource_views(out@),
                seq![resource_view(res)],
                spec_parse_payloads(b, ks, resource_list_items@, (i + 1) as nat),
            );
        }
        out.push(res);
        i = i + 1;
    }
    proof {
        assert(resource_views(out@) + seq![] =~= resource_views(out@));
    }
    Ok(out)
}

/// An ERF-family archive: its header once read, its descriptions and its
/// resources.
#[derive(Debug)]
pub struct ErfFile {
    pub header: Option<ErfHeader>,
    pub descriptions: Vec<ErfDescription>,
    pub resources: Vec<Resource>,
}

impl ErfFile {
    /// Reads an archive from its bytes.
    pub fn parse_from(bytes: Vec<u8>) -> (r: Result<ErfFile, Error>)
        ensures
            r matches Ok(f) ==> f.header is Some && spec_parse_erf(bytes@) == Ok::<
                (ErfHeader, Seq<DescriptionView>, Seq<ResourceView>),
                Error,
            >((f.header->Some_0, description_views(f.descriptions@), resource_views(f.resources@))),
            r matches Err(e) ==> spec_parse_erf(bytes@) == Err::<
                (ErfHeader, Seq<DescriptionView>, Seq<ResourceView>),
                Error,
            >(e),
    {
        let mut reader = ByteReader::new(bytes);
        let header = match parse_header(&mut reader) {
            Ok(h) => h,
            Err(e) => return Err(e),
        };
        let descriptions = match parse_localized_language_strings(&mut reader, &header) {
            Ok(d) => d,
            Err(e) => return Err(e),
        };
        let keys = match parse_key_list(&mut reader, &header) {
            Ok(k) => k,
            Err(e) => return Err(e),
        };
        let items = match parse_resource_list_items(&mut reader, &header) {
            Ok(l) => l,
            Err(e) => return Err(e),
        };
        let resources = match parse_resources(&mut reader, keys, &items) {
            Ok(r) => r,
            Err(e) => return Err(e),
        };
        Ok(ErfFile { header: Some(header), descriptions, resources })
    }
}

/// A description on disk: the language code doubled (its low bit, a gendered
/// variant, is never set here), the text's length in bytes, then the text.
pub open spec fn description_bytes(d: DescriptionView) -> Seq<u8> {
    u32_le_bytes((spec_language_code(d.0) * 2) as u32) + u32_le_bytes(
        encode_utf8(d.1).len() as u32,
    ) + encode_utf8(d.1)
}

/// The description block: each description packed after the one before.
pub open spec fn descriptions_bytes(ds: Seq<DescriptionView>) -> Seq<u8> {
    ds.map_values(|d: DescriptionView| description_bytes(d)).flatten()
}

/// A key record: the name, the id, the kind's code and two reserved zero bytes.
pub open spec fn key_bytes(name: Seq<char>, id: u32, kind: ResourceType) -> Seq<u8> {
    res_ref_bytes(name) + u32_le_bytes(id) + u16_le_bytes(spec_resource_code(kind)) + zeros(2)
}

/// The key records of the first `n` resources, whose ids count up from zero.
pub open spec fn keys_bytes_upto(rs: Seq<ResourceView>, n: nat) -> Seq<u8> {
    Seq::new(n, |i: int| key_bytes(rs[i].0, i as u32, rs[i].1)).flatten()
}

/// The payload region: the bytes of every resource, in order.
pub open spec fn payload_bytes(rs: Seq<ResourceView>) -> Seq<u8> {
    rs.map_values(|r: ResourceView| r.2).flatten()
}

/// Where each resource's bytes stand when the payload region starts at `start`.
pub open spec fn erf_locations(rs: Seq<ResourceView>, start: int) -> Seq<ErfResourceListItem> {
    Seq::new(
        rs.len(),
        |i: int|
            ErfResourceListItem {
                offset: (start + payload_bytes(rs.take(i)).len()) as u32,
                size: rs[i].2.len() as u32,
            },
    )
}

pub open spec fn location_bytes(l: ErfResourceListItem) -> Seq<u8> {
    u32_le_bytes(l.offset) + u32_le_bytes(l.size)
}

pub open spec fn locations_bytes(ls: Seq<ErfResourceListItem>) -> Seq<u8> {
    ls.map_values(|l: ErfResourceListItem| location_bytes(l)).flatten()
}

/// The header on disk, with its reserved tail of zeros.
pub open spec fn header_bytes(h: ErfHeader) -> Seq<u8> {
    file_type_tag(h.file_type) + version_tag(h.version) + u32_le_bytes(h.language_count)
        + u32_le_bytes(h.localized_string_size) + u32_le_bytes(h.entry_count) + u32_le_bytes(
        h.offset_to_localized_string,
    ) + u32_le_bytes(h.offset_to_key_list) + u32_le_bytes(h.offset_to_resource_list)
        + u32_le_bytes(h.build_year) + u32_le_bytes(h.build_day) + u32_le_bytes(
        h.description_str_ref,
    ) + zeros(ERF_HEADER_RESERVED as nat)
}

/// Where the key table starts: after the header and the description block.
pub open spec fn key_table_offset(ds: Seq<DescriptionView>) -> int {
    ERF_HEADER_SIZE + descriptions_bytes(ds).len()
}

/// Where the location table starts.
pub open spec fn location_table_offset(ds: Seq<DescriptionView>, rs: Seq<ResourceView>) -> int {
    key_table_offset(ds) + ERF_KEY_SIZE * rs.len()
}

/// Where the payload region starts.
pub open spec fn payload_offset(ds: Seq<DescriptionView>, rs: Seq<ResourceView>) -> int {
    location_table_offset(ds, rs) + ERF_LOCATION_SIZE * rs.len()
}

/// The size of the whole archive.
pub open spec fn erf_size(ds: Seq<DescriptionView>, rs: Seq<ResourceView>) -> int {
    payload_offset(ds, rs) + payload_bytes(rs).len()
}

/// The header that a build writes.
pub open spec fn erf_header_for(
    file_type: FileType,
    build_year: u32,
    build_day: u32,
    ds: Seq<DescriptionView>,
    rs: Seq<ResourceView>,
) -> ErfHeader {
    ErfHeader {
        version: Version::V1,
        file_type,
        language_count: ds.len() as u32,
        localized_string_size: descriptions_bytes(ds).len() as u32,
        entry_count: rs.len() as u32,
        offset_to_localized_string: ERF_HEADER_SIZE as u32,
        offset_to_key_list: key_table_offset(ds) as u32,
        offset_to_resource_list: location_table_offset(ds, rs) as u32,
        build_year,
        build_day,
        description_str_ref: u32::MAX,
    }
}

/// The bytes of a built archive: header, descriptions, key table, location
/// table and payload, each region right after the one before.
pub open spec fn erf_bytes(
    file_type: FileType,
    build_year: u32,
    build_day: u32,
    ds: Seq<DescriptionView>,
    rs: Seq<ResourceView>,
) -> Seq<u8> {
    header_bytes(erf_header_for(file_type, build_year, build_day, ds, rs)) + descriptions_bytes(ds)
        + keys_bytes_upto(rs, rs.len()) + locations_bytes(
        erf_locations(rs, payload_offset(ds, rs)),
    ) + payload_bytes(rs)
}

/// A prefix of the pieces flattens to no more than all of them.
pub proof fn lemma_flatten_prefix_len<A>(s: Seq<Seq<A>>, i: int)
    requires
        0 <= i <= s.len(),
    ensures
        s.take(i).flatten().len() <= s.flatten().len(),
{
    vstd::seq_lib::lemma_flatten_concat(s.take(i), s.skip(i));
    assert(s.take(i) + s.skip(i) =~= s);
}

/// Taking one more piece adds that piece at the end.
pub proof fn lemma_flatten_take_step<A>(s: Seq<Seq<A>>, i: int)
    requires
        0 <= i < s.len(),
    ensures
        s.take(i + 1).flatten() == s.take(i).flatten() + s[i],
{
    assert(s.take(i + 1) =~= s.take(i).push(s[i]));
    s.take(i).lemma_flatten_push(s[i]);
}

/// The description block, or `None` where it would not fit before the 32-bit
/// end of an archive.
fn encode_descriptions(descriptions: &Vec<ErfDescription>) -> (r: Option<Vec<u8>>)
    ensures
        descriptions_bytes(description_views(descriptions@)).len() <= u32::MAX - ERF_HEADER_SIZE
            ==> r is Some && r->Some_0@ == descriptions_bytes(description_views(descriptions@)),
        descriptions_bytes(description_views(descriptions@)).len() > u32::MAX - ERF_HEADER_SIZE
            ==> r is None,
{
    let ghost ds = description_views(descriptions@);
    let ghost pieces = ds.map_values(|d: DescriptionView| description_bytes(d));
    let mut out: Vec<u8> = Vec::new();
    let mut i: usize = 0;
    while i < descriptions.len()
        invariant
            ds == description_views(descriptions@),
            pieces == ds.map_values(|d: DescriptionView| description_bytes(d)),
            i <= descriptions@.len(),
            out@ == pieces.take(i as int).flatten(),
            out@.len() <= u32::MAX - ERF_HEADER_SIZE,
        decreases descriptions@.len() - i,
    {
        let d = &descriptions[i];
        let text = d.text.as_str().as_bytes();
        proof {
            lemma_flatten_take_step(pieces, i as int);
            lemma_flatten_prefix_len(pieces, i as int + 1);
        }
        if text.len() as u64 > u32::MAX as u64 || out.len() as u64 + 8 + text.len() as u64 > 4294967135u64 {
            return None;
        }
        push_u32(&mut out, d.language_id.code() * 2);
        push_u32(&mut out, text.len() as u32);
        push_slice(&mut out, text);
        proof {
            assert(pieces[i as int] == description_bytes(description_view(*d)));
            assert(out@ =~= pieces.take(i as int + 1).flatten());
        }
        i = i + 1;
    }
    proof {
        assert(pieces.take(i as int) =~= pieces);
    }
    Some(out)
}

pub open spec fn payload_pieces(rs: Seq<ResourceView>) -> Seq<Seq<u8>> {
    rs.map_values(|r: ResourceView| r.2)
}

/// The payload region, or `None` where it is longer than `limit`.
fn encode_payload(resources: &Vec<Resource>, limit: u64) -> (r: Option<Vec<u8>>)
    ensures
        payload_bytes(resource_views(resources@)).len() <= limit ==> r is Some && r->Some_0@
            == payload_bytes(resource_views(resources@)),
        payload_bytes(resource_views(resources@)).len() > limit ==> r is None,
{
    let ghost rs = resource_views(resources@);
    let ghost pieces = payload_pieces(rs);
    let mut out: Vec<u8> = Vec::new();
    let mut i: usize = 0;
    while i < resources.len()
        invariant
            rs == resource_views(resources@),
            pieces == payload_pieces(rs),
            i <= resources@.len(),
            out@ == pieces.take(i as int).flatten(),
            out@.len() <= limit,
        decreases resources@.len() - i,
    {
        let data = resources[i].data.as_slice();
        proof {
            lemma_flatten_take_step(pieces, i as int);
            lemma_flatten_prefix_len(pieces, i as int + 1);
        }
        if data.len() as u64 > limit || out.len() as u64 > limit - data.len() as u64 {
            return None;
        }
        push_slice(&mut out, data);
        i = i + 1;
    }
    proof {
        assert(pieces.take(i as int) =~= pieces);
    }
    Some(out)
}

/// Payload before resource `i` is the flattened first `i` pieces.
proof fn lemma_payload_take(rs: Seq<ResourceView>, i: int)
    requires
        0 <= i <= rs.len(),
    ensures
        payload_bytes(rs.take(i)) == payload_pieces(rs).take(i).flatten(),
{
    assert(rs.take(i).map_values(|r: ResourceView| r.2) =~= payload_pieces(rs).take(i));
}

impl ErfFile {
    pub fn new() -> (r: ErfFile)
        ensures
            r.header is None,
            r.descriptions@.len() == 0,
            r.resources@.len() == 0,
    {
        ErfFile { header: None, descriptions: Vec::new(), resources: Vec::new() }
    }

    pub fn add_description(&mut self, language_id: LanguageId, text: String) -> (r: &mut Self)
        ensures
            r.header == old(self).header,
            r.resources@ == old(self).resources@,
            description_views(r.descriptions@) == description_views(
                old(self).descriptions@,
            ).push((language_id, text@)),
            *final(self) == *final(r),
    {
        let d = ErfDescription { language_id, text };
        proof {
            assert(description_views(self.descriptions@.push(d)) =~= description_views(
                self.descriptions@,
            ).push((language_id, text@)));
        }
        self.descriptions.push(d);
        self
    }

    pub fn add_resource(&mut self, resource: Resource) -> (r: &mut Self)
        ensures
            r.header == old(self).header,
            r.descriptions@ == old(self).descriptions@,
            r.resources@ == old(self).resources@.push(resource),
            *final(self) == *final(r),
    {
        self.resources.push(resource);
        self
    }

    pub fn add_resources(&mut self, resources: &mut Vec<Resource>) -> (r: &mut Self)
        ensures
            r.header == old(self).header,
            r.descriptions@ == old(self).descriptions@,
            r.resources@ == old(self).resources@ + old(resources)@,
            final(resources)@.len() == 0,
            *final(self) == *final(r),
    {
        self.resources.append(resources);
        self
    }

    /// The bytes of the archive as a container of the given kind, with the
    /// build date given as years since 1990 and days since the first of January.
    /// Resource ids count up from zero; regions follow each other with no gap.
    pub fn write(&self, file_type: FileType, build_year: u32, build_day: u32) -> (r: Result<
        Vec<u8>,
        Error,
    >)
        ensures
            !is_erf_kind(file_type) ==> r == Err::<Vec<u8>, Error>(
                Error::InvalidFileTypeForErf(file_type),
            ),
            is_erf_kind(file_type) && erf_size(
                description_views(self.descriptions@),
                resource_views(self.resources@),
            ) > u32::MAX ==> r == Err::<Vec<u8>, Error>(Error::TooLarge),
            is_erf_kind(file_type) && erf_size(
                description_views(self.descriptions@),
                resource_views(self.resources@),
            ) <= u32::MAX ==> r is Ok && r->Ok_0@ == erf_bytes(
                file_type,
                build_year,
                build_day,
                description_views(self.descriptions@),
                resource_views(self.resources@),
            ),
    {
        let ghost ds = description_views(self.descriptions@);
        let ghost rs = resource_views(self.resources@);
        if !file_type.is_erf_kind() {
            return Err(Error::InvalidFileTypeForErf(file_type));
        }
        let desc = match encode_descriptions(&self.descriptions) {
            Some(d) => d,
            None => return Err(Error::TooLarge),
        };
        let n = self.resources.len();
        let room: u64 = 4294967135u64 - desc.len() as u64;
        if n as u64 > room / 32 {
            return Err(Error::TooLarge);
        }
        let limit: u64 = room - 32 * (n as u64);
        let payload = match encode_payload(&self.resources, limit) {
            Some(p) => p,
            None => return Err(Error::TooLarge),
        };
        let key_off: u32 = (160 + desc.len()) as u32;
        let loc_off: u32 = key_off + 24 * (n as u32);
        let pay_off: u32 = loc_off + 8 * (n as u32);
        let header = ErfHeader {
            version: Version::V1,
            file_type,
            language_count: self.descriptions.len() as u32,
            localized_string_size: desc.len() as u32,
            entry_count: n as u32,
            offset_to_localized_string: 160,
            offset_to_key_list: key_off,
            offset_to_resource_list: loc_off,
            build_year,
            build_day,
            description_str_ref: u32::MAX,
        };
        proof {
            assert(ds.len() == self.descriptions@.len());
            assert(rs.len() == n);
            assert(descriptions_bytes(ds).len() >= 8 * ds.len()) by {
                let pieces = ds.map_values(|d: DescriptionView| description_bytes(d));
                assert forall|j: int| 0 <= j < pieces.len() implies 8 <= (
                #[trigger] pieces[j]).len() by {}
                lemma_flatten_len_lower(pieces, 8);
            }
            assert(header == erf_header_for(file_type, build_year, build_day, ds, rs));
        }
        let mut out: Vec<u8> = Vec::new();
        push_header(&mut out, &header);
        push_slice(&mut out, desc.as_slice());
        let ghost after_desc = out@;
        let mut i: usize = 0;
        while i < n
            invariant
                n == self.resources@.len(),
                rs == resource_views(self.resources@),
                n <= u32::MAX,
                i <= n,
                out@ == after_desc + keys_bytes_upto(rs, i as nat),
            decreases n - i,
        {
            let r = &self.resources[i];
            r.name.push_to(&mut out);
            push_u32(&mut out, i as u32);
            push_u16(&mut out, r.resource_type.code());
            push_zeros(&mut out, 2);
            proof {
                let f = |j: int| key_bytes(rs[j].0, j as u32, rs[j].1);
                assert(Seq::new((i + 1) as nat, f) =~= Seq::new(i as nat, f).push(f(i as int)));
                Seq::new(i as nat, f).lemma_flatten_push(f(i as int));
                assert(out@ =~= after_desc + keys_bytes_upto(rs, (i + 1) as nat));
            }
            i = i + 1;
        }
        let ghost after_keys = out@;
        let ghost locs = erf_locations(rs, pay_off as int);
        let ghost lpieces = locs.map_values(|l: ErfResourceListItem| location_bytes(l));
        let mut off: u64 = pay_off as u64;
        let mut j: usize = 0;
        while j < n
            invariant
                n == self.resources@.len(),
                rs == resource_views(self.resources@),
                locs == erf_locations(rs, pay_off as int),
                lpieces == locs.map_values(|l: ErfResourceListItem| location_bytes(l)),
                pay_off + payload_bytes(rs).len() <= u32::MAX,
                j <= n,
                off == pay_off + payload_bytes(rs.take(j as int)).len(),
                out@ == after_keys + lpieces.take(j as int).flatten(),
            decreases n - j,
        {
            let size = self.resources[j].data.len();
            proof {
                lemma_payload_take(rs, j as int);
                lemma_payload_take(rs, j as int + 1);
                lemma_flatten_take_step(payload_pieces(rs), j as int);
                lemma_flatten_prefix_len(payload_pieces(rs), j as int + 1);
                assert(payload_pieces(rs).take(rs.len() as int) =~= payload_pieces(rs));
                lemma_flatten_take_step(lpieces, j as int);
            }
            push_u32(&mut out, off as u32);
            push_u32(&mut out, size as u32);
            proof {
                assert(out@ =~= after_keys + lpieces.take(j as int + 1).flatten());
            }
            off = off + size as u64;
            j = j + 1;
        }
        proof {
            assert(lpieces.take(n as int) =~= lpieces);
        }
        push_slice(&mut out, payload.as_slice());
        Ok(out)
    }
}

/// Pieces of at least `k` bytes each flatten to at least `k` per piece.
pub proof fn lemma_flatten_len_lower<A>(s: Seq<Seq<A>>, k: int)
    requires
        0 <= k,
        forall|j: int| 0 <= j < s.len() ==> k <= (#[trigger] s[j]).len(),
    ensures
        s.flatten().len() >= k * s.len(),
    decreases s.len(),
{
    if s.len() > 0 {
        assert forall|j: int| 0 <= j < s.drop_first().len() implies k <= (
        #[trigger] s.drop_first()[j]).len() by {
            assert(s.drop_first()[j] == s[j + 1]);
        }
        lemma_flatten_len_lower(s.drop_first(), k);
        assert(k * s.len() == k + k * (s.len() - 1)) by (nonlinear_arith);
    }
}

/// Appends the header's bytes.
pub fn push_header(out: &mut Vec<u8>, h: &ErfHeader)
    ensures
        final(out)@ == old(out)@ + header_bytes(*h),
{
    push_file_type_tag(out, h.file_type);
    push_version_tag(out, h.version);
    push_u32(out, h.language_count);
    push_u32(out, h.localized_string_size);
    push_u32(out, h.entry_count);
    push_u32(out, h.offset_to_localized_string);
    push_u32(out, h.offset_to_key_list);
    push_u32(out, h.offset_to_resource_list);
    push_u32(out, h.build_year);
    push_u32(out, h.build_day);
    push_u32(out, h.description_str_ref);
    push_zeros(out, ERF_HEADER_RESERVED);
    assert(final(out)@ =~= old(out)@ + header_bytes(*h));
}

/// Piece `i` stands in the flattened pieces right after the pieces before it.
pub proof fn lemma_flatten_piece<A>(s: Seq<Seq<A>>, i: int)
    requires
        0 <= i < s.len(),
    ensures
        s.take(i).flatten().len() + s[i].len() <= s.flatten().len(),
        s.flatten().subrange(
            s.take(i).flatten().len() as int,
            (s.take(i).flatten().len() + s[i].len()) as int,
        ) == s[i],
{
    vstd::seq_lib::lemma_flatten_concat(s.take(i), s.skip(i));
    assert(s.take(i) + s.skip(i) =~= s);
    assert(s.skip(i).drop_first() =~= s.skip(i + 1));
    assert(s.skip(i).flatten() == s.skip(i).first() + s.skip(i).drop_first().flatten());
    let a = s.take(i).flatten();
    let c = s.skip(i + 1).flatten();
    assert(s.flatten() == a + (s[i] + c));
    assert((a + (s[i] + c)).subrange(a.len() as int, (a.len() + s[i].len()) as int) =~= s[i]);
}

/// Pieces of `k` elements each: the first `i` of them flatten to `k * i`.
pub proof fn lemma_flatten_fixed_len<A>(s: Seq<Seq<A>>, k: int, i: int)
    requires
        0 <= i <= s.len(),
        forall|j: int| 0 <= j < s.len() ==> (#[trigger] s[j]).len() == k,
    ensures
        s.take(i).flatten().len() == k * i,
    decreases i,
{
    if i > 0 {
        lemma_flatten_fixed_len(s, k, i - 1);
        lemma_flatten_take_step(s, i - 1);
        assert(k * i == k * (i - 1) + k) by (nonlinear_arith);
    } else {
        assert(s.take(0) =~= Seq::<Seq<A>>::empty());
    }
}

/// Pieces of `k` elements each: piece `i` stands at `k * i`.
pub proof fn lemma_flatten_fixed<A>(s: Seq<Seq<A>>, k: int, i: int)
    requires
        0 <= i < s.len(),
        forall|j: int| 0 <= j < s.len() ==> (#[trigger] s[j]).len() == k,
    ensures
        s.flatten().len() == k * s.len(),
        s.flatten().subrange(k * i, k * i + k) == s[i],
{
    lemma_flatten_fixed_len(s, k, i);
    lemma_flatten_fixed_len(s, k, s.len() as int);
    assert(s.take(s.len() as int) =~= s);
    lemma_flatten_piece(s, i);
}

/// Bytes that hold `x` from `p` on hold each part of `x` where it falls.
pub proof fn lemma_sub_sub<A>(b: Seq<A>, p: int, x: Seq<A>, q: int, len: int)
    requires
        0 <= p,
        p + x.len() <= b.len(),
        b.subrange(p, p + x.len()) == x,
        0 <= q,
        0 <= len,
        q + len <= x.len(),
    ensures
        b.subrange(p + q, p + q + len) == x.subrange(q, q + len),
{
    assert(b.subrange(p + q, p + q + len) =~= x.subrange(q, q + len)) by {
        assert forall|j: int| 0 <= j < len implies #[trigger] b.subrange(p + q, p + q + len)[j] == x.subrange(
            q,
            q + len,
        )[j] by {
            assert(b.subrange(p, p + x.len())[q + j] == b[p + q + j]);
        }
    }
}

/// A description is read back from where it was written.
proof fn lemma_description_decode(b: Seq<u8>, p: int, ds: Seq<DescriptionView>)
    requires
        0 <= p,
        p + descriptions_bytes(ds).len() <= b.len(),
        b.subrange(p, p + descriptions_bytes(ds).len()) == descriptions_bytes(ds),
        descriptions_bytes(ds).len() <= u32::MAX,
    ensures
        spec_parse_descriptions(b, p, ds.len()) == Ok::<Seq<DescriptionView>, Error>(ds),
    decreases ds.len(),
{
    let pieces = ds.map_values(|d: DescriptionView| description_bytes(d));
    if ds.len() == 0 {
        assert(ds =~= seq![]);
    } else {
        let d = ds[0];
        let t = encode_utf8(d.1);
        let x = description_bytes(d);
        let rest = ds.drop_first();
        assert(pieces.drop_first() =~= rest.map_values(|d: DescriptionView| description_bytes(d)));
        assert(descriptions_bytes(ds) == x + descriptions_bytes(rest));
        let all = descriptions_bytes(ds);
        assert(t.len() <= u32::MAX);
        lemma_u32_round_trip((spec_language_code(d.0) * 2) as u32);
        lemma_u32_round_trip(t.len() as u32);
        lemma_sub_sub(b, p, all, 0, 4);
        assert(all.subrange(0, 4) =~= u32_le_bytes((spec_language_code(d.0) * 2) as u32));
        lemma_sub_sub(b, p, all, 4, 4);
        assert(all.subrange(4, 8) =~= u32_le_bytes(t.len() as u32));
        lemma_sub_sub(b, p, all, 8, t.len() as int);
        assert(all.subrange(8, (8 + t.len()) as int) =~= t);
        lemma_sub_sub(b, p, all, x.len() as int, descriptions_bytes(rest).len() as int);
        assert(all.subrange(x.len() as int, (x.len() + descriptions_bytes(rest).len()) as int)
            =~= descriptions_bytes(rest));
        lemma_language_code_round_trip(d.0);
        assert(u32_at(b, p) == (spec_language_code(d.0) * 2) as u32);
        assert(u32_at(b, p + 4) == t.len() as u32);
        vstd::utf8::encode_utf8_valid_utf8(d.1);
        vstd::utf8::encode_utf8_decode_utf8(d.1);
        assert(utf8_text(b.subrange(p + 8, p + 8 + t.len())) == d.1);
        lemma_description_decode(b, p + x.len(), rest);
        assert(seq![d] + rest =~= ds);
    }
}

/// Whether a name survives being written and read back: it fits, and its
/// last character is not NUL.
pub open spec fn name_round_trips(s: Seq<char>) -> bool {
    fits_res_ref(s) && (s.len() == 0 || s.last() != '\0')
}

/// A name written in sixteen bytes is read back as it was.
proof fn lemma_name_decode(s: Seq<char>)
    requires
        name_round_trips(s),
    ensures
        res_ref_bytes(s).len() == 16,
        res_ref_text(res_ref_bytes(s)) == s,
{
    lemma_res_ref_round_trip(s);
}

/// The key records as the table writes them: name, index as id, kind.
pub open spec fn written_keys(rs: Seq<ResourceView>) -> Seq<KeyView> {
    Seq::new(rs.len(), |i: int| (rs[i].0, i as u32, rs[i].1))
}

proof fn lemma_keys_decode(b: Seq<u8>, p: int, rs: Seq<ResourceView>, j: int)
    requires
        0 <= p,
        0 <= j <= rs.len(),
        rs.len() <= u32::MAX,
        forall|i: int| 0 <= i < rs.len() ==> name_round_trips(#[trigger] rs[i].0),
        p + ERF_KEY_SIZE * rs.len() <= b.len(),
        b.subrange(p, p + ERF_KEY_SIZE * rs.len()) == keys_bytes_upto(rs, rs.len()),
    ensures
        spec_parse_keys(b, p + ERF_KEY_SIZE * j, (rs.len() - j) as nat) == Ok::<Seq<KeyView>, Error>(
            written_keys(rs).subrange(j, rs.len() as int),
        ),
    decreases rs.len() - j,
{
    let n = rs.len() as int;
    if j == n {
        assert(written_keys(rs).subrange(j, n) =~= seq![]);
    } else {
        let f = |i: int| key_bytes(rs[i].0, i as u32, rs[i].1);
        let s = Seq::new(rs.len(), f);
        assert forall|i: int| 0 <= i < s.len() implies (#[trigger] s[i]).len() == 24 by {
            lemma_name_decode(rs[i].0);
        }
        lemma_flatten_fixed(s, 24, j);
        let x = s[j];
        let q = p + 24 * j;
        lemma_sub_sub(b, p, s.flatten(), 24 * j, 24);
        lemma_name_decode(rs[j].0);
        lemma_u32_round_trip(j as u32);
        lemma_u16_round_trip(spec_resource_code(rs[j].1));
        lemma_resource_code_round_trip(rs[j].1);
        lemma_sub_sub(b, q, x, 0, 16);
        assert(x.subrange(0, 16) =~= res_ref_bytes(rs[j].0));
        lemma_sub_sub(b, q, x, 16, 4);
        assert(x.subrange(16, 20) =~= u32_le_bytes(j as u32));
        lemma_sub_sub(b, q, x, 20, 2);
        assert(x.subrange(20, 22) =~= u16_le_bytes(spec_resource_code(rs[j].1)));
        assert(b.subrange(q, q + 16) == res_ref_bytes(rs[j].0));
        assert(spec_parse_key(b, q) == Ok::<KeyView, Error>((rs[j].0, j as u32, rs[j].1)));
        lemma_keys_decode(b, p, rs, j + 1);
        assert(p + ERF_KEY_SIZE * (j + 1) == q + ERF_KEY_SIZE);
        assert(seq![(rs[j].0, j as u32, rs[j].1)] + written_keys(rs).subrange(j + 1, n)
            =~= written_keys(rs).subrange(j, n));
    }
}

proof fn lemma_locations_decode(b: Seq<u8>, p: int, ls: Seq<ErfResourceListItem>, j: int)
    requires
        0 <= p,
        0 <= j <= ls.len(),
        p + ERF_LOCATION_SIZE * ls.len() <= b.len(),
        b.subrange(p, p + ERF_LOCATION_SIZE * ls.len()) == locations_bytes(ls),
    ensures
        spec_parse_locations(b, p + ERF_LOCATION_SIZE * j, (ls.len() - j) as nat) == Ok::<
            Seq<ErfResourceListItem>,
            Error,
        >(ls.subrange(j, ls.len() as int)),
    decreases ls.len() - j,
{
    let n = ls.len() as int;
    if j == n {
        assert(ls.subrange(j, n) =~= seq![]);
    } else {
        let s = ls.map_values(|l: ErfResourceListItem| location_bytes(l));
        assert forall|i: int| 0 <= i < s.len() implies (#[trigger] s[i]).len() == 8 by {}
        lemma_flatten_fixed(s, 8, j);
        let x = s[j];
        let q = p + 8 * j;
        lemma_sub_sub(b, p, s.flatten(), 8 * j, 8);
        lemma_u32_round_trip(ls[j].offset);
        lemma_u32_round_trip(ls[j].size);
        lemma_sub_sub(b, q, x, 0, 4);
        assert(x.subrange(0, 4) =~= u32_le_bytes(ls[j].offset));
        lemma_sub_sub(b, q, x, 4, 4);
        assert(x.subrange(4, 8) =~= u32_le_bytes(ls[j].size));
        lemma_locations_decode(b, p, ls, j + 1);
        assert(p + ERF_LOCATION_SIZE * (j + 1) == q + ERF_LOCATION_SIZE);
        assert(seq![ls[j]] + ls.subrange(j + 1, n) =~= ls.subrange(j, n));
    }
}

proof fn lemma_payloads_decode(b: Seq<u8>, start: int, rs: Seq<ResourceView>, i: int)
    requires
        0 <= start,
        0 <= i <= rs.len(),
        start + payload_bytes(rs).len() <= u32::MAX,
        start + payload_bytes(rs).len() <= b.len(),
        b.subrange(start, start + payload_bytes(rs).len()) == payload_bytes(rs),
    ensures
        spec_parse_payloads(b, written_keys(rs), erf_locations(rs, start), i as nat) == Ok::<
            Seq<ResourceView>,
            Error,
        >(rs.subrange(i, rs.len() as int)),
    decreases rs.len() - i,
{
    let n = rs.len() as int;
    if i == n {
        assert(rs.subrange(i, n) =~= seq![]);
    } else {
        let pieces = payload_pieces(rs);
        lemma_flatten_piece(pieces, i);
        lemma_payload_take(rs, i);
        let off = payload_bytes(rs.take(i)).len() as int;
        assert(pieces[i] == rs[i].2);
        lemma_sub_sub(b, start, payload_bytes(rs), off, rs[i].2.len() as int);
        let l = erf_locations(rs, start)[i];
        assert(l.offset == start + off);
        assert(l.size == rs[i].2.len());
        lemma_payloads_decode(b, start, rs, i + 1);
        assert(seq![rs[i]] + rs.subrange(i + 1, n) =~= rs.subrange(i, n));
    }
}

/// The header is read back from where it was written.
proof fn lemma_header_decode(b: Seq<u8>, h: ErfHeader)
    requires
        is_erf_kind(h.file_type),
        h.version == Version::V1,
        ERF_HEADER_SIZE <= b.len(),
        b.subrange(0, ERF_HEADER_SIZE as int) == header_bytes(h),
    ensures
        spec_parse_erf_header(b, 0) == Ok::<ErfHeader, Error>(h),
        header_bytes(h).len() == ERF_HEADER_SIZE,
{
    let x = header_bytes(h);
    lemma_file_type_tag_round_trip(h.file_type);
    lemma_version_tag_round_trip(h.version);
    assert(x.len() == ERF_HEADER_SIZE);
    lemma_sub_sub(b, 0, x, 0, 4);
    assert(x.subrange(0, 4) =~= file_type_tag(h.file_type));
    lemma_sub_sub(b, 0, x, 4, 4);
    assert(x.subrange(4, 8) =~= version_tag(h.version));
    let vals = seq![
        h.language_count,
        h.localized_string_size,
        h.entry_count,
        h.offset_to_localized_string,
        h.offset_to_key_list,
        h.offset_to_resource_list,
        h.build_year,
        h.build_day,
        h.description_str_ref,
    ];
    assert forall|k: int| 0 <= k < 9 implies u32_at(b, 8 + 4 * k) == #[trigger] vals[k] by {
        lemma_sub_sub(b, 0, x, 8 + 4 * k, 4);
        lemma_u32_round_trip(vals[k]);
        assert(x.subrange(8 + 4 * k, 12 + 4 * k) =~= u32_le_bytes(vals[k]));
    }
    assert(u32_at(b, 8) == vals[0]);
    assert(u32_at(b, 12) == vals[1]);
    assert(u32_at(b, 16) == vals[2]);
    assert(u32_at(b, 20) == vals[3]);
    assert(u32_at(b, 24) == vals[4]);
    assert(u32_at(b, 28) == vals[5]);
    assert(u32_at(b, 32) == vals[6]);
    assert(u32_at(b, 36) == vals[7]);
    assert(u32_at(b, 40) == vals[8]);
}

proof fn lemma_region_lengths(ds: Seq<DescriptionView>, rs: Seq<ResourceView>, start: int)
    requires
        forall|i: int| 0 <= i < rs.len() ==> fits_res_ref(#[trigger] rs[i].0),
    ensures
        keys_bytes_upto(rs, rs.len()).len() == ERF_KEY_SIZE * rs.len(),
        locations_bytes(erf_locations(rs, start)).len() == ERF_LOCATION_SIZE * rs.len(),
        descriptions_bytes(ds).len() >= 8 * ds.len(),
{
    let f = |i: int| key_bytes(rs[i].0, i as u32, rs[i].1);
    let s = Seq::new(rs.len(), f);
    assert forall|i: int| 0 <= i < s.len() implies (#[trigger] s[i]).len() == 24 by {
        crate::resref::lemma_res_ref_round_trip_len(rs[i].0);
    }
    lemma_flatten_fixed_len(s, 24, s.len() as int);
    assert(s.take(s.len() as int) =~= s);
    let ls = erf_locations(rs, start).map_values(|l: ErfResourceListItem| location_bytes(l));
    assert forall|i: int| 0 <= i < ls.len() implies (#[trigger] ls[i]).len() == 8 by {}
    lemma_flatten_fixed_len(ls, 8, ls.len() as int);
    assert(ls.take(ls.len() as int) =~= ls);
    let pieces = ds.map_values(|d: DescriptionView| description_bytes(d));
    assert forall|j: int| 0 <= j < pieces.len() implies 8 <= (#[trigger] pieces[j]).len() by {}
    lemma_flatten_len_lower(pieces, 8);
}

/// Each of five joined sequences stands where the ones before it end.
pub proof fn lemma_concat5<A>(a: Seq<A>, b: Seq<A>, c: Seq<A>, d: Seq<A>, e: Seq<A>)
    ensures
        ({
            let x = a + b + c + d + e;
            let i1 = a.len() as int;
            let i2 = i1 + b.len();
            let i3 = i2 + c.len();
            let i4 = i3 + d.len();
            &&& x.len() == i4 + e.len()
            &&& x.subrange(0, i1) == a
            &&& x.subrange(i1, i2) == b
            &&& x.subrange(i2, i3) == c
            &&& x.subrange(i3, i4) == d
            &&& x.subrange(i4, i4 + e.len()) == e
        }),
{
    let x = a + b + c + d + e;
    let i1 = a.len() as int;
    let i2 = i1 + b.len();
    let i3 = i2 + c.len();
    let i4 = i3 + d.len();
    assert(x.subrange(0, i1) =~= a);
    assert(x.subrange(i1, i2) =~= b);
    assert(x.subrange(i2, i3) =~= c);
    assert(x.subrange(i3, i4) =~= d);
    assert(x.subrange(i4, i4 + e.len()) =~= e);
}

/// Where the regions of a built archive stand, and the header read from it.
#[verifier::spinoff_prover]
#[verifier::rlimit(100)]
proof fn lemma_erf_layout(
    file_type: FileType,
    build_year: u32,
    build_day: u32,
    ds: Seq<DescriptionView>,
    rs: Seq<ResourceView>,
)
    requires
        is_erf_kind(file_type),
        erf_size(ds, rs) <= u32::MAX,
        forall|i: int| 0 <= i < rs.len() ==> fits_res_ref(#[trigger] rs[i].0),
    ensures
        ({
            let b = erf_bytes(file_type, build_year, build_day, ds, rs);
            let h = erf_header_for(file_type, build_year, build_day, ds, rs);
            let ko = key_table_offset(ds);
            let lo = location_table_offset(ds, rs);
            let start = payload_offset(ds, rs);
            &&& spec_parse_erf_header(b, 0) == Ok::<ErfHeader, Error>(h)
            &&& h.offset_to_localized_string == ERF_HEADER_SIZE
            &&& h.language_count == ds.len()
            &&& h.entry_count == rs.len()
            &&& h.offset_to_key_list == ko
            &&& h.offset_to_resource_list == lo
            &&& descriptions_bytes(ds).len() <= u32::MAX
            &&& ERF_HEADER_SIZE + descriptions_bytes(ds).len() <= b.len()
            &&& b.subrange(ERF_HEADER_SIZE as int, ko) == descriptions_bytes(ds)
            &&& lo <= b.len()
            &&& b.subrange(ko, lo) == keys_bytes_upto(rs, rs.len())
            &&& start <= b.len()
            &&& b.subrange(lo, start) == locations_bytes(erf_locations(rs, start))
            &&& start + payload_bytes(rs).len() <= b.len()
            &&& b.subrange(start, start + payload_bytes(rs).len()) == payload_bytes(rs)
        }),
{
    let h = erf_header_for(file_type, build_year, build_day, ds, rs);
    let start = payload_offset(ds, rs);
    let hb = header_bytes(h);
    let d = descriptions_bytes(ds);
    let k = keys_bytes_upto(rs, rs.len());
    let l = locations_bytes(erf_locations(rs, start));
    let p = payload_bytes(rs);
    let b = erf_bytes(file_type, build_year, build_day, ds, rs);
    lemma_region_lengths(ds, rs, start);
    lemma_file_type_tag_round_trip(file_type);
    lemma_version_tag_round_trip(Version::V1);
    assert(hb.len() == ERF_HEADER_SIZE);
    assert(b == hb + d + k + l + p);
    lemma_concat5(hb, d, k, l, p);
    lemma_header_decode(b, h);
}

/// Reading back a built archive gives the descriptions and resources it was
/// built from, and the header the build wrote, where each resource name
/// fits and does not end in NUL.
#[verifier::spinoff_prover]
#[verifier::rlimit(100)]
pub proof fn lemma_erf_round_trip(
    file_type: FileType,
    build_year: u32,
    build_day: u32,
    ds: Seq<DescriptionView>,
    rs: Seq<ResourceView>,
)
    requires
        is_erf_kind(file_type),
        erf_size(ds, rs) <= u32::MAX,
        forall|i: int| 0 <= i < rs.len() ==> name_round_trips(#[trigger] rs[i].0),
    ensures
        spec_parse_erf(erf_bytes(file_type, build_year, build_day, ds, rs)) == Ok::<
            (ErfHeader, Seq<DescriptionView>, Seq<ResourceView>),
            Error,
        >((erf_header_for(file_type, build_year, build_day, ds, rs), ds, rs)),
{
    let n = rs.len() as int;
    let h = erf_header_for(file_type, build_year, build_day, ds, rs);
    let start = payload_offset(ds, rs);
    let b = erf_bytes(file_type, build_year, build_day, ds, rs);
    lemma_erf_layout(file_type, build_year, build_day, ds, rs);
    lemma_description_decode(b, ERF_HEADER_SIZE as int, ds);
    lemma_keys_decode(b, key_table_offset(ds), rs, 0);
    assert(written_keys(rs).subrange(0, n) =~= written_keys(rs));
    lemma_locations_decode(b, location_table_offset(ds, rs), erf_locations(rs, start), 0);
    assert(erf_locations(rs, start).subrange(0, n) =~= erf_locations(rs, start));
    lemma_payloads_decode(b, start, rs, 0);
    assert(rs.subrange(0, n) =~= rs);
    lemma_erf_compose(b, h, ds, written_keys(rs), erf_locations(rs, start), rs);
}

proof fn lemma_erf_compose(
    b: Seq<u8>,
    h: ErfHeader,
    ds: Seq<DescriptionView>,
    ks: Seq<KeyView>,
    ls: Seq<ErfResourceListItem>,
    rs: Seq<ResourceView>,
)
    requires
        spec_parse_erf_header(b, 0) == Ok::<ErfHeader, Error>(h),
        spec_parse_descriptions(b, h.offset_to_localized_string as int, h.language_count as nat)
            == Ok::<Seq<DescriptionView>, Error>(ds),
        spec_parse_keys(b, h.offset_to_key_list as int, h.entry_count as nat) == Ok::<
            Seq<KeyView>,
            Error,
        >(ks),
        spec_parse_locations(b, h.offset_to_resource_list as int, h.entry_count as nat) == Ok::<
            Seq<ErfResourceListItem>,
            Error,
        >(ls),
        ks.len() == ls.len(),
        spec_parse_payloads(b, ks, ls, 0) == Ok::<Seq<ResourceView>, Error>(rs),
    ensures
        spec_parse_erf(b) == Ok::<(ErfHeader, Seq<DescriptionView>, Seq<ResourceView>), Error>(
            (h, ds, rs),
        ),
{
}

/// In a built archive every region starts where the one before it ends: the
/// descriptions after the header, the key table after the descriptions, the
/// location table after the key table, and the payload, where the first
/// resource stands, right after the location table; each resource starts
/// where the one before it ends.
pub proof fn lemma_erf_offsets(
    file_type: FileType,
    build_year: u32,
    build_day: u32,
    ds: Seq<DescriptionView>,
    rs: Seq<ResourceView>,
)
    requires
        erf_size(ds, rs) <= u32::MAX,
    ensures
        ({
            let h = erf_header_for(file_type, build_year, build_day, ds, rs);
            let ls = erf_locations(rs, payload_offset(ds, rs));
            &&& h.offset_to_localized_string == ERF_HEADER_SIZE
            &&& h.offset_to_key_list == h.offset_to_localized_string + h.localized_string_size
            &&& h.offset_to_resource_list == h.offset_to_key_list + ERF_KEY_SIZE * h.entry_count
            &&& payload_offset(ds, rs) == h.offset_to_resource_list + ERF_LOCATION_SIZE
                * h.entry_count
            &&& (rs.len() > 0 ==> ls[0].offset == payload_offset(ds, rs))
            &&& forall|i: int|
                0 <= i < rs.len() - 1 ==> #[trigger] ls[i + 1].offset == ls[i].offset + ls[i].size
        }),
{
    let start = payload_offset(ds, rs);
    let pieces = payload_pieces(rs);
    let pieces_d = ds.map_values(|d: DescriptionView| description_bytes(d));
    assert forall|j: int| 0 <= j < pieces_d.len() implies 8 <= (#[trigger] pieces_d[j]).len() by {}
    lemma_flatten_len_lower(pieces_d, 8);
    assert(pieces.take(pieces.len() as int) =~= pieces);
    if rs.len() > 0 {
        lemma_payload_take(rs, 0);
        assert(pieces.take(0) =~= Seq::<Seq<u8>>::empty());
    }
    assert forall|i: int| 0 <= i < rs.len() - 1 implies #[trigger] erf_locations(rs, start)[i
        + 1].offset == erf_locations(rs, start)[i].offset + erf_locations(rs, start)[i].size by {
        lemma_payload_take(rs, i);
        lemma_payload_take(rs, i + 1);
        lemma_flatten_take_step(pieces, i);
        lemma_flatten_prefix_len(pieces, i + 1);
    }
}

/// The fixed-size records take the same number of bytes whatever they hold:
/// a header 160, a key record 24, a location record 8.
pub proof fn lemma_erf_fixed_sizes(h: ErfHeader, k: ErfKey, l: ErfResourceListItem)
    requires
        fits_res_ref(k.file_name@),
    ensures
        h.spec_bytes().len() == ErfHeader::spec_byte_size(),
        k.spec_bytes().len() == ErfKey::spec_byte_size(),
        l.spec_bytes().len() == ErfResourceListItem::spec_byte_size(),
{
    lemma_file_type_tag_round_trip(h.file_type);
    lemma_version_tag_round_trip(h.version);
}

impl SerializeToBytes for ErfHeader {
    open spec fn spec_bytes(&self) -> Seq<u8> {
        header_bytes(*self)
    }

    fn serialize_to(&self, out: &mut Vec<u8>) {
        push_header(out, self);
    }
}

impl StaticByteSize for ErfHeader {
    open spec fn spec_byte_size() -> nat {
        ERF_HEADER_SIZE as nat
    }

    fn byte_size() -> (r: usize) {
        ERF_HEADER_SIZE
    }
}

impl SerializeToBytes for ErfKey {
    open spec fn spec_bytes(&self) -> Seq<u8> {
        key_bytes(self.file_name@, self.resource_id, self.resource_type)
    }

    fn serialize_to(&self, out: &mut Vec<u8>) {
        self.file_name.push_to(out);
        push_u32(out, self.resource_id);
        push_u16(out, self.resource_type.code());
        push_zeros(out, 2);
        assert(final(out)@ =~= old(out)@ + self.spec_bytes());
    }
}

impl StaticByteSize for ErfKey {
    open spec fn spec_byte_size() -> nat {
        ERF_KEY_SIZE as nat
    }

    fn byte_size() -> (r: usize) {
        ERF_KEY_SIZE
    }
}

impl SerializeToBytes for ErfResourceListItem {
    open spec fn spec_bytes(&self) -> Seq<u8> {
        location_bytes(*self)
    }

    fn serialize_to(&self, out: &mut Vec<u8>) {
        push_u32(out, self.offset);
        push_u32(out, self.size);
        assert(final(out)@ =~= old(out)@ + self.spec_bytes());
    }
}

impl StaticByteSize for ErfResourceListItem {
    open spec fn spec_byte_size() -> nat {
        ERF_LOCATION_SIZE as nat
    }

    fn byte_size() -> (r: usize) {
        ERF_LOCATION_SIZE
    }
}

impl SerializeToBytes for ErfDescription {
    open spec fn spec_bytes(&self) -> Seq<u8> {
        description_bytes(description_view(*self))
    }

    fn serialize_to(&self, out: &mut Vec<u8>) {
        let text = self.text.as_str().as_bytes();
        push_u32(out, self.language_id.code() * 2);
        push_u32(out, text.len() as u32);
        push_slice(out, text);
        assert(final(out)@ =~= old(out)@ + self.spec_bytes());
    }
}

impl ErfDescription {
    /// The number of bytes the description takes on disk: its two four-byte
    /// fields and its text.
    pub fn byte_size(&self) -> (r: usize)
        requires
            encode_utf8(self.text@).len() + 8 <= usize::MAX,
        ensures
            r == encode_utf8(self.text@).len() + 8,
            encode_utf8(self.text@).len() <= u32::MAX ==> r == description_bytes(
                description_view(*self),
            ).len(),
    {
        self.text.as_str().as_bytes().len() + 8
    }
}

/// The bytes of an archive as a container of the given kind; see `ErfFile::write`.
pub fn write(erf_file: &ErfFile, file_type: FileType, build_year: u32, build_day: u32) -> (r: Result<
    Vec<u8>,
    Error,
>)
    ensures
        !is_erf_kind(file_type) ==> r == Err::<Vec<u8>, Error>(Error::InvalidFileTypeForErf(file_type)),
        is_erf_kind(file_type) && erf_size(
            description_views(erf_file.descriptions@),
            resource_views(erf_file.resources@),
        ) > u32::MAX ==> r == Err::<Vec<u8>, Error>(Error::TooLarge),
        is_erf_kind(file_type) && erf_size(
            description_views(erf_file.descriptions@),
            resource_views(erf_file.resources@),
        ) <= u32::MAX ==> r is Ok && r->Ok_0@ == erf_bytes(
            file_type,
            build_year,
            build_day,
            description_views(erf_file.descriptions@),
            resource_views(erf_file.resources@),
        ),
{
    erf_file.write(file_type, build_year, build_day)
}

/// The first location record of a table read at `lo` points where its
/// written value says.
proof fn lemma_first_location(b: Seq<u8>, lo: int, ls: Seq<ErfResourceListItem>)
    requires
        0 <= lo,
        ls.len() > 0,
        lo + locations_bytes(ls).len() <= b.len(),
        b.subrange(lo, lo + locations_bytes(ls).len()) == locations_bytes(ls),
    ensures
        u32_at(b, lo) == ls[0].offset,
{
    let pieces = ls.map_values(|l: ErfResourceListItem| location_bytes(l));
    assert forall|i: int| 0 <= i < pieces.len() implies (#[trigger] pieces[i]).len() == 8 by {}
    lemma_flatten_fixed(pieces, 8, 0);
    lemma_sub_sub(b, lo, pieces.flatten(), 0, 4);
    assert(pieces[0].subrange(0, 4) =~= u32_le_bytes(ls[0].offset));
    lemma_u32_round_trip(ls[0].offset);
}

/// A header read back gives its fields at their places.
proof fn lemma_header_fields(b: Seq<u8>, h: ErfHeader)
    requires
        spec_parse_erf_header(b, 0) == Ok::<ErfHeader, Error>(h),
    ensures
        u32_at(b, 12) == h.localized_string_size,
        u32_at(b, 16) == h.entry_count,
        u32_at(b, 20) == h.offset_to_localized_string,
        u32_at(b, 24) == h.offset_to_key_list,
        u32_at(b, 28) == h.offset_to_resource_list,
{
}

/// In the bytes of a built archive, as its header fields read back: the
/// descriptions start right after the header, the key table right after the
/// descriptions, the location table right after the key table, and the first
/// location points right after the location table, where the payload starts.
#[verifier::spinoff_prover]
pub proof fn lemma_erf_written_offsets(
    file_type: FileType,
    build_year: u32,
    build_day: u32,
    ds: Seq<DescriptionView>,
    rs: Seq<ResourceView>,
)
    requires
        is_erf_kind(file_type),
        erf_size(ds, rs) <= u32::MAX,
        forall|i: int| 0 <= i < rs.len() ==> fits_res_ref(#[trigger] rs[i].0),
    ensures
        ({
            let b = erf_bytes(file_type, build_year, build_day, ds, rs);
            &&& u32_at(b, 20) == ERF_HEADER_SIZE
            &&& u32_at(b, 24) == u32_at(b, 20) + u32_at(b, 12)
            &&& u32_at(b, 28) == u32_at(b, 24) + ERF_KEY_SIZE * u32_at(b, 16)
            &&& u32_at(b, 16) == rs.len()
            &&& (rs.len() > 0 ==> u32_at(b, u32_at(b, 28) as int) == u32_at(b, 28)
                + ERF_LOCATION_SIZE * u32_at(b, 16))
        }),
{
    let b = erf_bytes(file_type, build_year, build_day, ds, rs);
    let h = erf_header_for(file_type, build_year, build_day, ds, rs);
    let start = payload_offset(ds, rs);
    lemma_erf_layout(file_type, build_year, build_day, ds, rs);
    lemma_erf_offsets(file_type, build_year, build_day, ds, rs);
    lemma_region_lengths(ds, rs, start);
    lemma_header_fields(b, h);
    if rs.len() > 0 {
        lemma_first_location(b, location_table_offset(ds, rs), erf_locations(rs, start));
    }
}

} // verus!
