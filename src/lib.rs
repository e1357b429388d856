pub mod bif;
pub mod bytes;
pub mod codec;
pub mod date;
pub mod erf;
pub mod error;
pub mod key;
pub mod kinds;
pub mod reader;
pub mod resref;
pub mod ssf;
pub mod tlk;
pub mod types;
pub mod x2da;

pub use bif::parse as parse_bif;
pub use bif::BifFile2;
pub use erf::ErfFile;
pub use key::{BifFile, BifResource, KeyFile2};
pub use ssf::{SsfBuilder, SsfFile};
pub use tlk::{TlkBuilder, TlkFile};

use vstd::prelude::*;

verus! {

/// Reads an index file from its bytes; see `key::parse`.
pub fn parse_key(bytes: Vec<u8>) -> (r: Result<KeyFile2, error::Error>)
    ensures
        r matches Ok(f) ==> key::spec_parse_key(bytes@) == Ok::<
            Seq<(Seq<char>, Seq<key::BifResourceView>)>,
            error::Error,
        >(f.0@.map_values(|x: BifFile| key::bif_file_view(x))),
        r matches Err(e) ==> key::spec_parse_key(bytes@) == Err::<
            Seq<(Seq<char>, Seq<key::BifResourceView>)>,
            error::Error,
        >(e),
{
    key::parse(bytes)
}

} // verus!
