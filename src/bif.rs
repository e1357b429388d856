use vstd::prelude::*;
use crate::bytes::u32_at;
use crate::erf::{prepend, lemma_prepend_assoc};
use crate::error::Error;
use crate::kinds::{
    FileType, Version, ResourceType, spec_file_type_from_tag, spec_version_from_tag,
    spec_resource_type,
};
use crate::reader::ByteReader;

verus! {

/// The size of a payload archive's header.
pub const BIF_HEADER_SIZE: usize = 20;

/// The size of one record of the variable-resource table.
pub const VARIABLE_RESOURCE_SIZE: usize = 16;

/// The fixed part of a payload archive. The fixed-resource count is read but
/// locates nothing.
#[derive(Debug, Clone, Copy, PartialEq, Eq, Structural)]
pub struct BifHeader {
    pub version: Version,
    pub file_type: FileType,
    pub variable_resource_count: u32,
    pub fixed_resource_count: u32,
    pub variable_table_offset: u32,
}

/// A record of the variable-resource table: where a resource's bytes stand.
#[derive(Debug, Clone, Copy, PartialEq, Eq, Structural)]
pub struct VariableResource {
    pub id: u32,
    pub resource_offset: u32,
    pub resource_size: u32,
    pub resource_type: u32,
}

/// A payload archive as read: header and table.
#[derive(Debug)]
pub struct BifFile {
    pub header: BifHeader,
    pub variable_resources: Vec<VariableResource>,
}

/// The resources of a payload archive, in slot order.
#[derive(Debug)]
pub struct BifFile2(pub Vec<Resource>);

/// A resource of a payload archive: its bytes and kind.
#[derive(Debug)]
pub struct Resource {
    pub bytes: Vec<u8>,
    pub resource_type: ResourceType,
}

pub open spec fn bif_resource_view(r: Resource) -> (Seq<u8>, ResourceType) {
    (r.bytes@, r.resource_type)
}

/// The header read at position 0.
pub open spec fn spec_parse_bif_header(b: Seq<u8>) -> Result<BifHeader, Error> {
    if BIF_HEADER_SIZE > b.len() {
        Err(Error::UnexpectedEof)
    } else {
        Ok(
            BifHeader {
                file_type: spec_file_type_from_tag(b.subrange(0, 4)),
                version: spec_version_from_tag(b.subrange(4, 8)),
                variable_resource_count: u32_at(b, 8),
                fixed_resource_count: u32_at(b, 12),
                variable_table_offset: u32_at(b, 16),
            },
        )
    }
}

/// `n` variable-resource records from position `p`.
pub open spec fn spec_parse_variable_resources(b: Seq<u8>, p: int, n: nat) -> Result<
    Seq<VariableResource>,
    Error,
>
    decreases n,
{
    if n == 0 {
        Ok(seq![])
    } else if p + VARIABLE_RESOURCE_SIZE > b.len() {
        Err(Error::UnexpectedEof)
    } else {
        prepend(
            seq![
                VariableResource {
                    id: u32_at(b, p),
                    resource_offset: u32_at(b, p + 4),
                    resource_size: u32_at(b, p + 8),
                    resource_type: u32_at(b, p + 12),
                },
            ],
            spec_parse_variable_resources(b, p + VARIABLE_RESOURCE_SIZE, (n - 1) as nat),
        )
    }
}

/// The bytes of the records from index `i` on, sliced from the archive.
pub open spec fn spec_slice_resources(b: Seq<u8>, vs: Seq<VariableResource>, i: nat) -> Result<
    Seq<(Seq<u8>, ResourceType)>,
    Error,
>
    decreases vs.len() - i,
{
    if i >= vs.len() {
        Ok(seq![])
    } else if vs[i as int].resource_offset + vs[i as int].resource_size > b.len() {
        Err(Error::UnexpectedEof)
    } else {
        let v = vs[i as int];
        prepend(
            seq![
                (
                    b.subrange(v.resource_offset as int, v.resource_offset + v.resource_size),
                    spec_resource_type(v.resource_type),
                ),
            ],
            spec_slice_resources(b, vs, i + 1),
        )
    }
}

/// A payload archive read from its bytes: each resource of its variable table.
pub open spec fn spec_parse_bif(b: Seq<u8>) -> Result<Seq<(Seq<u8>, ResourceType)>, Error> {
    match spec_parse_bif_header(b) {
        Err(e) => Err(e),
        Ok(h) => match spec_parse_variable_resources(
            b,
            h.variable_table_offset as int,
            h.variable_resource_count as nat,
        ) {
            Err(e) => Err(e),
            Ok(vs) => spec_slice_resources(b, vs, 0),
        },
    }
}

fn parse_header(reader: &mut ByteReader) -> (r: Result<BifHeader, Error>)
    requires
        old(reader).pos() == 0,
    ensures
        final(reader).data() == old(reader).data(),
        r == spec_parse_bif_header(old(reader).data()),
{
    let tag = match reader.read_bytes(4) {
        Ok(v) => v,
        Err(e) => return Err(e),
    };
    let vtag = match reader.read_bytes(4) {
        Ok(v) => v,
        Err(e) => return Err(e),
    };
    let variable_resource_count = match reader.read_u32() {
        Ok(v) => v,
        Err(e) => return Err(e),
    };
    let fixed_resource_count = match reader.read_u32() {
        Ok(v) => v,
        Err(e) => return Err(e),
    };
    let variable_table_offset = match reader.read_u32() {
        Ok(v) => v,
        Err(e) => return Err(e),
    };
    Ok(
        BifHeader {
            version: Version::from_tag_bytes(vtag.as_slice()),
            file_type: FileType::from_tag_bytes(tag.as_slice()),
            variable_resource_count,
            fixed_resource_count,
            variable_table_offset,
        },
    )
}

fn parse_variable_resources(reader: &mut ByteReader, header: &BifHeader) -> (r: Result<
    Vec<VariableResource>,
    Error,
>)
    ensures
        final(reader).data() == old(reader).data(),
        r matches Ok(v) ==> spec_parse_variable_resources(
            old(reader).data(),
            header.variable_table_offset as int,
            header.variable_resource_count as nat,
        ) == Ok::<Seq<VariableResource>, Error>(v@),
        r matches Err(e) ==> spec_parse_variable_resources(
            old(reader).data(),
            header.variable_table_offset as int,
            header.variable_resource_count as nat,
        ) == Err::<Seq<VariableResource>, Error>(e),
{
    let ghost b = reader.data();
    let ghost whole = spec_parse_variable_resources(
        b,
        header.variable_table_offset as int,
        header.variable_resource_count as nat,
    );
    reader.seek_from_start(header.variable_table_offset as u64);
    let mut out: Vec<VariableResource> = Vec::new();
    let mut i: u32 = 0;
    while i < header.variable_resource_count
        invariant
            reader.data() == b,
            old(reader).data() == b,
            whole == spec_parse_variable_resources(
                b,
                header.variable_table_offset as int,
                header.variable_resource_count as nat,
            ),
            i <= header.variable_resource_count,
            whole == prepend(
                out@,
                spec_parse_variable_resources(
                    b,
                    reader.pos(),
                    (header.variable_resource_count - i) as nat,
                ),
            ),
        decreases header.variable_resource_count - i,
    {
        let ghost p = reader.pos();
        let ghost k = (header.variable_resource_count - i) as nat;
        proof {
            assert(p + VARIABLE_RESOURCE_SIZE > b.len() ==> spec_parse_variable_resources(b, p, k)
                == Err::<Seq<VariableResource>, Error>(Error::UnexpectedEof));
        }
        let id = match reader.read_u32() {
            Ok(v) => v,
            Err(e) => return Err(e),
        };
        let resource_offset = match reader.read_u32() {
            Ok(v) => v,
            Err(e) => return Err(e),
        };
        let resource_size = match reader.read_u32() {
            Ok(v) => v,
            Err(e) => return Err(e),
        };
        let resource_type = match reader.read_u32() {
            Ok(v) => v,
            Err(e) => return Err(e),
        };
        let v = VariableResource { id, resource_offset, resource_size, resource_type };
        proof {
            assert(spec_parse_variable_resources(b, p, k) == prepend(
                seq![v],
                spec_parse_variable_resources(b, p + VARIABLE_RESOURCE_SIZE, (k - 1) as nat),
            ));
            lemma_prepend_assoc(
                out@,
                seq![v],
                spec_parse_variable_resources(b, p + VARIABLE_RESOURCE_SIZE, (k - 1) as nat),
            );
            assert(out@.push(v) =~= out@ + seq![v]);
        }
        out.push(v);
        i = i + 1;
    }
    proof {
        assert(out@ + seq![] =~= out@);
    }
    Ok(out)
}

/// Reads a payload archive from its bytes and slices out each resource of its
/// variable table; a record that points past the end is an error.
pub fn parse(bytes: Vec<u8>) -> (r: Result<BifFile2, Error>)
    ensures
        r matches Ok(f) ==> spec_parse_bif(bytes@) == Ok::<Seq<(Seq<u8>, ResourceType)>, Error>(
            f.0@.map_values(|x: Resource| bif_resource_view(x)),
        ),
        r matches Err(e) ==> spec_parse_bif(bytes@) == Err::<Seq<(Seq<u8>, ResourceType)>, Error>(
            e,
        ),
{
    let mut reader = ByteReader::new(bytes);
    let header = match parse_header(&mut reader) {
        Ok(h) => h,
        Err(e) => return Err(e),
    };
    let table = match parse_variable_resources(&mut reader, &header) {
        Ok(t) => t,
        Err(e) => return Err(e),
    };
    let ghost b = reader.data();
    let ghost whole = spec_slice_resources(b, table@, 0);
    let mut out: Vec<Resource> = Vec::new();
    let mut i: usize = 0;
    while i < table.len()
        invariant
            reader.data() == b,
            b == bytes@,
            whole == spec_slice_resources(b, table@, 0),
            spec_parse_bif(b) == whole,
            i <= table@.len(),
            whole == prepend(
                out@.map_values(|x: Resource| bif_resource_view(x)),
                spec_slice_resources(b, table@, i as nat),
            ),
        decreases table@.len() - i,
    {
        let v = table[i];
        reader.seek_from_start(v.resource_offset as u64);
        let data = match reader.read_bytes(v.resource_size as usize) {
            Ok(d) => d,
            Err(e) => {
                proof {
                    assert(spec_slice_resources(b, table@, i as nat) == Err::<
                        Seq<(Seq<u8>, ResourceType)>,
                        Error,
                    >(e));
                }
                return Err(e);
            },
        };
        let res = Resource { bytes: data, resource_type: ResourceType::from_code(v.resource_type) };
        proof {
            assert(out@.push(res).map_values(|x: Resource| bif_resource_view(x)) =~= out@.map_values(
                |x: Resource| bif_resource_view(x),
            ) + seq![bif_resource_view(res)]);
            lemma_prepend_assoc(
                out@.map_values(|x: Resource| bif_resource_view(x)),
                seq![bif_resource_view(res)],
                spec_slice_resources(b, table@, (i + 1) as nat),
            );
        }
        out.push(res);
        i = i + 1;
    }
    proof {
        assert(out@.map_values(|x: Resource| bif_resource_view(x)) + seq![] =~= out@.map_values(
            |x: Resource| bif_resource_view(x),
        ));
    }
    Ok(BifFile2(out))
}

} // verus!
