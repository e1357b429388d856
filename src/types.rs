pub use crate::erf::{ErfDescription, ErfFile, ErfHeader, ErfKey, ErfResourceListItem, Resource};
pub use crate::error::Error;
pub use crate::kinds::{FileType, LanguageId, ResourceType, Version};
pub use crate::resref::{ResRef, ResRefError};
pub use crate::tlk::{TlkEntry, TlkSound};
pub use crate::x2da::{X2daError, X2daItem, X2daRow};
pub use crate::ssf::SsfEntry;
pub use crate::codec::{SerializeToBytes, StaticByteSize};
