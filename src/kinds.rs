use vstd::prelude::*;
use vstd::string::StringSliceAdditionalSpecFns;

verus! {

/// The kind of container a file holds, named on disk by a four-byte tag.
#[derive(Debug, Clone, Copy, PartialEq, Eq, Structural)]
pub enum FileType {
    Unknown,
    Key,
    Bif,
    Erf,
    Ssf,
    Mod,
    Sav,
    Hak,
    X2da,
    Tlk,
}

/// The tag of a container kind, as text.
pub open spec fn file_type_chars(t: FileType) -> Seq<char> {
    match t {
        FileType::Erf => seq!['E', 'R', 'F', ' '],
        FileType::Bif => seq!['B', 'I', 'F', ' '],
        FileType::Key => seq!['K', 'E', 'Y', ' '],
        FileType::Ssf => seq!['S', 'S', 'F', ' '],
        FileType::Mod => seq!['M', 'O', 'D', ' '],
        FileType::Sav => seq!['S', 'A', 'V', ' '],
        FileType::Hak => seq!['H', 'A', 'K', ' '],
        FileType::X2da => seq!['2', 'D', 'A', ' '],
        FileType::Tlk => seq!['T', 'L', 'K', ' '],
        FileType::Unknown => seq![],
    }
}

/// The tag of a container kind, as the bytes written to disk; a kind of no
/// known name is written as four spaces, so that every header keeps its size.
pub open spec fn file_type_tag(t: FileType) -> Seq<u8> {
    match t {
        FileType::Erf => seq![69, 82, 70, 32],
        FileType::Bif => seq![66, 73, 70, 32],
        FileType::Key => seq![75, 69, 89, 32],
        FileType::Ssf => seq![83, 83, 70, 32],
        FileType::Mod => seq![77, 79, 68, 32],
        FileType::Sav => seq![83, 65, 86, 32],
        FileType::Hak => seq![72, 65, 75, 32],
        FileType::X2da => seq![50, 68, 65, 32],
        FileType::Tlk => seq![84, 76, 75, 32],
        FileType::Unknown => seq![32, 32, 32, 32],
    }
}

/// The container kind that a tag names; any other bytes give `Unknown`.
pub open spec fn spec_file_type_from_tag(b: Seq<u8>) -> FileType {
    if b == file_type_tag(FileType::Erf) {
        FileType::Erf
    } else if b == file_type_tag(FileType::Bif) {
        FileType::Bif
    } else if b == file_type_tag(FileType::Key) {
        FileType::Key
    } else if b == file_type_tag(FileType::Ssf) {
        FileType::Ssf
    } else if b == file_type_tag(FileType::Mod) {
        FileType::Mod
    } else if b == file_type_tag(FileType::Sav) {
        FileType::Sav
    } else if b == file_type_tag(FileType::Hak) {
        FileType::Hak
    } else if b == file_type_tag(FileType::X2da) {
        FileType::X2da
    } else if b == file_type_tag(FileType::Tlk) {
        FileType::Tlk
    } else {
        FileType::Unknown
    }
}

/// Whether `b` holds exactly the four bytes given.
fn is_tag(b: &[u8], t0: u8, t1: u8, t2: u8, t3: u8) -> (r: bool)
    ensures
        r == (b@ == seq![t0, t1, t2, t3]),
{
    let r = b.len() == 4 && b[0] == t0 && b[1] == t1 && b[2] == t2 && b[3] == t3;
    proof {
        if b@.len() == 4 && !r {
            assert(b@ != seq![t0, t1, t2, t3] || b@[0] == t0);
        }
        if r {
            assert(b@ =~= seq![t0, t1, t2, t3]);
        }
    }
    r
}

/// Appends the tag bytes of a container kind.
pub fn push_file_type_tag(out: &mut Vec<u8>, t: FileType)
    ensures
        final(out)@ == old(out)@ + file_type_tag(t),
{
    let (a, b, c, d): (u8, u8, u8, u8) = match t {
        FileType::Erf => (69, 82, 70, 32),
        FileType::Bif => (66, 73, 70, 32),
        FileType::Key => (75, 69, 89, 32),
        FileType::Ssf => (83, 83, 70, 32),
        FileType::Mod => (77, 79, 68, 32),
        FileType::Sav => (83, 65, 86, 32),
        FileType::Hak => (72, 65, 75, 32),
        FileType::X2da => (50, 68, 65, 32),
        FileType::Tlk => (84, 76, 75, 32),
        FileType::Unknown => (32, 32, 32, 32),
    };
    out.push(a);
    out.push(b);
    out.push(c);
    out.push(d);
    assert(final(out)@ =~= old(out)@ + file_type_tag(t));
}

impl FileType {
    pub fn as_str_ref(&self) -> (r: &'static str)
        ensures
            r@ == file_type_chars(*self),
    {
        proof {
            reveal_strlit("ERF ");
            reveal_strlit("BIF ");
            reveal_strlit("KEY ");
            reveal_strlit("SSF ");
            reveal_strlit("MOD ");
            reveal_strlit("SAV ");
            reveal_strlit("HAK ");
            reveal_strlit("2DA ");
            reveal_strlit("TLK ");
            reveal_strlit("");
        }
        match self {
            FileType::Erf => "ERF ",
            FileType::Bif => "BIF ",
            FileType::Key => "KEY ",
            FileType::Ssf => "SSF ",
            FileType::Mod => "MOD ",
            FileType::Sav => "SAV ",
            FileType::Hak => "HAK ",
            FileType::X2da => "2DA ",
            FileType::Tlk => "TLK ",
            FileType::Unknown => "",
        }
    }

    /// The container kind that four tag bytes name.
    pub fn from_tag_bytes(b: &[u8]) -> (r: FileType)
        ensures
            r == spec_file_type_from_tag(b@),
    {
        if is_tag(b, 69, 82, 70, 32) {
            FileType::Erf
        } else if is_tag(b, 66, 73, 70, 32) {
            FileType::Bif
        } else if is_tag(b, 75, 69, 89, 32) {
            FileType::Key
        } else if is_tag(b, 83, 83, 70, 32) {
            FileType::Ssf
        } else if is_tag(b, 77, 79, 68, 32) {
            FileType::Mod
        } else if is_tag(b, 83, 65, 86, 32) {
            FileType::Sav
        } else if is_tag(b, 72, 65, 75, 32) {
            FileType::Hak
        } else if is_tag(b, 50, 68, 65, 32) {
            FileType::X2da
        } else if is_tag(b, 84, 76, 75, 32) {
            FileType::Tlk
        } else {
            FileType::Unknown
        }
    }

    /// Whether an archive of this kind shares the ERF layout.
    pub fn is_erf_kind(&self) -> (r: bool)
        ensures
            r == is_erf_kind(*self),
    {
        match self {
            FileType::Erf | FileType::Hak | FileType::Sav | FileType::Mod => true,
            _ => false,
        }
    }
}

/// A container kind's tag names that kind again.
pub proof fn lemma_file_type_tag_round_trip(t: FileType)
    ensures
        spec_file_type_from_tag(file_type_tag(t)) == t,
        file_type_tag(t).len() == 4,
{
    let e = file_type_tag(t);
    assert(e.len() == 4);
    assert(e[0] == file_type_tag(t)[0]);
    if t != FileType::Erf {
        assert(e[0] != file_type_tag(FileType::Erf)[0] || e[1] != file_type_tag(FileType::Erf)[1]);
    }
    if t != FileType::Bif {
        assert(e[0] != file_type_tag(FileType::Bif)[0] || e[1] != file_type_tag(FileType::Bif)[1]);
    }
    if t != FileType::Key {
        assert(e[0] != file_type_tag(FileType::Key)[0] || e[1] != file_type_tag(FileType::Key)[1]);
    }
    if t != FileType::Ssf {
        assert(e[0] != file_type_tag(FileType::Ssf)[0] || e[1] != file_type_tag(FileType::Ssf)[1]);
    }
    if t != FileType::Mod {
        assert(e[0] != file_type_tag(FileType::Mod)[0] || e[1] != file_type_tag(FileType::Mod)[1]);
    }
    if t != FileType::Sav {
        assert(e[0] != file_type_tag(FileType::Sav)[0] || e[1] != file_type_tag(FileType::Sav)[1]);
    }
    if t != FileType::Hak {
        assert(e[0] != file_type_tag(FileType::Hak)[0] || e[1] != file_type_tag(FileType::Hak)[1]);
    }
    if t != FileType::X2da {
        assert(e[0] != file_type_tag(FileType::X2da)[0] || e[1] != file_type_tag(FileType::X2da)[1]);
    }
    if t != FileType::Tlk {
        assert(e[0] != file_type_tag(FileType::Tlk)[0] || e[1] != file_type_tag(FileType::Tlk)[1]);
    }
}

/// A version's tag names that version again.
pub proof fn lemma_version_tag_round_trip(v: Version)
    ensures
        spec_version_from_tag(version_tag(v)) == v,
        version_tag(v).len() == 4,
{
    let e = version_tag(v);
    if v != Version::V1 {
        assert(e[1] != 49u8);
        assert(e != seq![86u8, 49, 46, 48]);
        assert(e != seq![86u8, 49, 32, 32]);
    }
    if v != Version::V2 {
        assert(e[1] != 50u8);
        assert(e != seq![86u8, 50, 46, 48]);
        assert(e != seq![86u8, 50, 32, 32]);
    }
    if v != Version::V3 {
        assert(e[1] != 51u8);
        assert(e != seq![86u8, 51, 46, 48]);
        assert(e != seq![86u8, 51, 32, 32]);
    }
}

/// The kinds that share the ERF layout: plain, hook-module, save and module archives.
pub open spec fn is_erf_kind(t: FileType) -> bool {
    t == FileType::Erf || t == FileType::Hak || t == FileType::Sav || t == FileType::Mod
}

impl<'a> From<&'a str> for FileType {
    fn from(s: &'a str) -> (r: FileType) {
        FileType::from_tag_bytes(s.as_bytes())
    }
}

impl<'a> vstd::std_specs::convert::FromSpecImpl<&'a str> for FileType {
    open spec fn obeys_from_spec() -> bool {
        true
    }

    open spec fn from_spec(s: &'a str) -> FileType {
        spec_file_type_from_tag(s.spec_bytes())
    }
}

/// The version of a container format, named on disk by a four-byte tag.
#[derive(Debug, Clone, Copy, PartialEq, Eq, Structural)]
pub enum Version {
    Unknown,
    V1,
    V2,
    V3,
}

/// The tag that is written for a version, as text.
pub open spec fn version_chars(v: Version) -> Seq<char> {
    match v {
        Version::V1 => seq!['V', '1', '.', '0'],
        Version::V2 => seq!['V', '2', '.', '0'],
        Version::V3 => seq!['V', '3', '.', '0'],
        Version::Unknown => seq![],
    }
}

/// The tag that is written for a version, as bytes; a version of no known
/// name is written as four spaces.
pub open spec fn version_tag(v: Version) -> Seq<u8> {
    match v {
        Version::V1 => seq![86u8, 49, 46, 48],
        Version::V2 => seq![86u8, 50, 46, 48],
        Version::V3 => seq![86u8, 51, 46, 48],
        Version::Unknown => seq![32u8, 32, 32, 32],
    }
}

/// The version that a tag names: `Vn.0` or `Vn` padded with spaces.
pub open spec fn spec_version_from_tag(b: Seq<u8>) -> Version {
    if b == seq![86u8, 49, 46, 48] || b == seq![86u8, 49, 32, 32] {
        Version::V1
    } else if b == seq![86u8, 50, 46, 48] || b == seq![86u8, 50, 32, 32] {
        Version::V2
    } else if b == seq![86u8, 51, 46, 48] || b == seq![86u8, 51, 32, 32] {
        Version::V3
    } else {
        Version::Unknown
    }
}

/// Appends the tag bytes of a version.
pub fn push_version_tag(out: &mut Vec<u8>, v: Version)
    ensures
        final(out)@ == old(out)@ + version_tag(v),
{
    let (a, b, c, d): (u8, u8, u8, u8) = match v {
        Version::V1 => (86, 49, 46, 48),
        Version::V2 => (86, 50, 46, 48),
        Version::V3 => (86, 51, 46, 48),
        Version::Unknown => (32, 32, 32, 32),
    };
    out.push(a);
    out.push(b);
    out.push(c);
    out.push(d);
    assert(final(out)@ =~= old(out)@ + version_tag(v));
}

impl Version {
    pub fn as_str_ref(&self) -> (r: &'static str)
        ensures
            r@ == version_chars(*self),
    {
        proof {
            reveal_strlit("V1.0");
            reveal_strlit("V2.0");
            reveal_strlit("V3.0");
            reveal_strlit("");
        }
        match self {
            Version::V1 => "V1.0",
            Version::V2 => "V2.0",
            Version::V3 => "V3.0",
            Version::Unknown => "",
        }
    }

    /// The version that four tag bytes name.
    pub fn from_tag_bytes(b: &[u8]) -> (r: Version)
        ensures
            r == spec_version_from_tag(b@),
    {
        if is_tag(b, 86, 49, 46, 48) || is_tag(b, 86, 49, 32, 32) {
            Version::V1
        } else if is_tag(b, 86, 50, 46, 48) || is_tag(b, 86, 50, 32, 32) {
            Version::V2
        } else if is_tag(b, 86, 51, 46, 48) || is_tag(b, 86, 51, 32, 32) {
            Version::V3
        } else {
            Version::Unknown
        }
    }
}

impl<'a> From<&'a str> for Version {
    fn from(s: &'a str) -> (r: Version) {
        Version::from_tag_bytes(s.as_bytes())
    }
}

impl<'a> vstd::std_specs::convert::FromSpecImpl<&'a str> for Version {
    open spec fn obeys_from_spec() -> bool {
        true
    }

    open spec fn from_spec(s: &'a str) -> Version {
        spec_version_from_tag(s.spec_bytes())
    }
}

impl<'a> TryFrom<&'a [u8]> for Version {
    type Error = crate::error::Error;

    /// The version that a tag names; bytes that are not UTF-8 are refused.
    fn try_from(b: &'a [u8]) -> (r: Result<Version, crate::error::Error>) {
        if crate::resref::is_utf8(b) {
            Ok(Version::from_tag_bytes(b))
        } else {
            Err(crate::error::Error::InvalidUtf8)
        }
    }
}

impl<'a> vstd::std_specs::convert::TryFromSpecImpl<&'a [u8]> for Version {
    open spec fn obeys_try_from_spec() -> bool {
        true
    }

    open spec fn try_from_spec(b: &'a [u8]) -> Result<Version, crate::error::Error> {
        if vstd::utf8::valid_utf8(b@) {
            Ok(spec_version_from_tag(b@))
        } else {
            Err(crate::error::Error::InvalidUtf8)
        }
    }
}

/// A language of localized text, stored on disk as a numeric code.
#[derive(Debug, Clone, Copy, PartialEq, Eq, Structural)]
pub enum LanguageId {
    Unknown,
    English,
    French,
    German,
    Italian,
    Spanish,
    Polish,
    Korean,
    ChineseTraditional,
    ChineseSimplified,
    Japanese,
}

/// The code of a language on disk.
pub open spec fn spec_language_code(l: LanguageId) -> u32 {
    match l {
        LanguageId::Unknown => 75666776,
        LanguageId::English => 0,
        LanguageId::French => 1,
        LanguageId::German => 2,
        LanguageId::Italian => 3,
        LanguageId::Spanish => 4,
        LanguageId::Polish => 5,
        LanguageId::Korean => 128,
        LanguageId::ChineseTraditional => 129,
        LanguageId::ChineseSimplified => 130,
        LanguageId::Japanese => 131,
    }
}

/// The language that a code stands for; codes of no language give `Unknown`.
pub open spec fn spec_language(c: u32) -> LanguageId {
    match c {
        0 => LanguageId::English,
        1 => LanguageId::French,
        2 => LanguageId::German,
        3 => LanguageId::Italian,
        4 => LanguageId::Spanish,
        5 => LanguageId::Polish,
        128 => LanguageId::Korean,
        129 => LanguageId::ChineseTraditional,
        130 => LanguageId::ChineseSimplified,
        131 => LanguageId::Japanese,
        _ => LanguageId::Unknown,
    }
}

/// Every language survives being written as its code and read back.
pub proof fn lemma_language_code_round_trip(l: LanguageId)
    ensures
        spec_language(spec_language_code(l)) == l,
{
}

impl LanguageId {
    pub fn code(&self) -> (r: u32)
        ensures
            r == spec_language_code(*self),
    {
        match self {
            LanguageId::Unknown => 75666776,
            LanguageId::English => 0,
            LanguageId::French => 1,
            LanguageId::German => 2,
            LanguageId::Italian => 3,
            LanguageId::Spanish => 4,
            LanguageId::Polish => 5,
            LanguageId::Korean => 128,
            LanguageId::ChineseTraditional => 129,
            LanguageId::ChineseSimplified => 130,
            LanguageId::Japanese => 131,
        }
    }
}

impl From<u32> for LanguageId {
    fn from(c: u32) -> (r: LanguageId) {
        match c {
            0 => LanguageId::English,
            1 => LanguageId::French,
            2 => LanguageId::German,
            3 => LanguageId::Italian,
            4 => LanguageId::Spanish,
            5 => LanguageId::Polish,
            128 => LanguageId::Korean,
            129 => LanguageId::ChineseTraditional,
            130 => LanguageId::ChineseSimplified,
            131 => LanguageId::Japanese,
            _ => LanguageId::Unknown,
        }
    }
}

impl vstd::std_specs::convert::FromSpecImpl<u32> for LanguageId {
    open spec fn obeys_from_spec() -> bool {
        true
    }

    open spec fn from_spec(c: u32) -> LanguageId {
        spec_language(c)
    }
}


/// The kind of a resource's payload, stored on disk as a numeric code.
#[allow(non_camel_case_types)]
#[derive(Debug, Clone, Copy, PartialEq, Eq, Structural)]
pub enum ResourceType {
    Unknown,
    bmp,
    tga,
    wav,
    plt,
    ini,
    txt,
    mdl,
    nss,
    ncs,
    are,
    set,
    ifo,
    bic,
    wok,
    x2da,
    txi,
    git,
    uti,
    utc,
    dlg,
    itp,
    utt,
    dds,
    uts,
    ltr,
    gff,
    fac,
    ute,
    utd,
    utp,
    dft,
    gic,
    gui,
    utm,
    dwk,
    pwk,
    jrl,
    utw,
    ssf,
    ndb,
    ptm,
    ptt,
}

/// The code of a resource kind on disk.
pub open spec fn spec_resource_code(t: ResourceType) -> u16 {
    match t {
        ResourceType::Unknown => 0,
        ResourceType::bmp => 1,
        ResourceType::tga => 2,
        ResourceType::wav => 4,
        ResourceType::plt => 6,
        ResourceType::ini => 7,
        ResourceType::txt => 10,
        ResourceType::mdl => 2002,
        ResourceType::nss => 2009,
        ResourceType::ncs => 2010,
        ResourceType::are => 2012,
        ResourceType::set => 2013,
        ResourceType::ifo => 2014,
        ResourceType::bic => 2015,
        ResourceType::wok => 2016,
        ResourceType::x2da => 2017,
        ResourceType::txi => 2020,
        ResourceType::git => 2023,
        ResourceType::uti => 2025,
        ResourceType::utc => 2027,
        ResourceType::dlg => 2029,
        ResourceType::itp => 2030,
        ResourceType::utt => 2032,
        ResourceType::dds => 2033,
        ResourceType::uts => 2035,
        ResourceType::ltr => 2036,
        ResourceType::gff => 2037,
        ResourceType::fac => 2038,
        ResourceType::ute => 2040,
        ResourceType::utd => 2042,
        ResourceType::utp => 2044,
        ResourceType::dft => 2045,
        ResourceType::gic => 2046,
        ResourceType::gui => 2047,
        ResourceType::utm => 2051,
        ResourceType::dwk => 2052,
        ResourceType::pwk => 2053,
        ResourceType::jrl => 2056,
        ResourceType::utw => 2058,
        ResourceType::ssf => 2060,
        ResourceType::ndb => 2064,
        ResourceType::ptm => 2065,
        ResourceType::ptt => 2066,
    }
}

/// The resource kind that a code stands for; codes of no kind give `Unknown`.
pub open spec fn spec_resource_type(c: u32) -> ResourceType {
    match c {
        1 => ResourceType::bmp,
        2 => ResourceType::tga,
        4 => ResourceType::wav,
        6 => ResourceType::plt,
        7 => ResourceType::ini,
        10 => ResourceType::txt,
        2002 => ResourceType::mdl,
        2009 => ResourceType::nss,
        2010 => ResourceType::ncs,
        2012 => ResourceType::are,
        2013 => ResourceType::set,
        2014 => ResourceType::ifo,
        2015 => ResourceType::bic,
        2016 => ResourceType::wok,
        2017 => ResourceType::x2da,
        2020 => ResourceType::txi,
        2023 => ResourceType::git,
        2025 => ResourceType::uti,
        2027 => ResourceType::utc,
        2029 => ResourceType::dlg,
        2030 => ResourceType::itp,
        2032 => ResourceType::utt,
        2033 => ResourceType::dds,
        2035 => ResourceType::uts,
        2036 => ResourceType::ltr,
        2037 => ResourceType::gff,
        2038 => ResourceType::fac,
        2040 => ResourceType::ute,
        2042 => ResourceType::utd,
        2044 => ResourceType::utp,
        2045 => ResourceType::dft,
        2046 => ResourceType::gic,
        2047 => ResourceType::gui,
        2051 => ResourceType::utm,
        2052 => ResourceType::dwk,
        2053 => ResourceType::pwk,
        2056 => ResourceType::jrl,
        2058 => ResourceType::utw,
        2060 => ResourceType::ssf,
        2064 => ResourceType::ndb,
        2065 => ResourceType::ptm,
        2066 => ResourceType::ptt,
        _ => ResourceType::Unknown,
    }
}

/// Every kind survives being written as its code and read back.
pub proof fn lemma_resource_code_round_trip(t: ResourceType)
    ensures
        spec_resource_type(spec_resource_code(t) as u32) == t,
{
}

impl ResourceType {
    pub fn code(&self) -> (r: u16)
        ensures
            r == spec_resource_code(*self),
    {
        match self {
            ResourceType::Unknown => 0,
            ResourceType::bmp => 1,
            ResourceType::tga => 2,
            ResourceType::wav => 4,
            ResourceType::plt => 6,
            ResourceType::ini => 7,
            ResourceType::txt => 10,
            ResourceType::mdl => 2002,
            ResourceType::nss => 2009,
            ResourceType::ncs => 2010,
            ResourceType::are => 2012,
            ResourceType::set => 2013,
            ResourceType::ifo => 2014,
            ResourceType::bic => 2015,
            ResourceType::wok => 2016,
            ResourceType::x2da => 2017,
            ResourceType::txi => 2020,
            ResourceType::git => 2023,
            ResourceType::uti => 2025,
            ResourceType::utc => 2027,
            ResourceType::dlg => 2029,
            ResourceType::itp => 2030,
            ResourceType::utt => 2032,
            ResourceType::dds => 2033,
            ResourceType::uts => 2035,
            ResourceType::ltr => 2036,
            ResourceType::gff => 2037,
            ResourceType::fac => 2038,
            ResourceType::ute => 2040,
            ResourceType::utd => 2042,
            ResourceType::utp => 2044,
            ResourceType::dft => 2045,
            ResourceType::gic => 2046,
            ResourceType::gui => 2047,
            ResourceType::utm => 2051,
            ResourceType::dwk => 2052,
            ResourceType::pwk => 2053,
            ResourceType::jrl => 2056,
            ResourceType::utw => 2058,
            ResourceType::ssf => 2060,
            ResourceType::ndb => 2064,
            ResourceType::ptm => 2065,
            ResourceType::ptt => 2066,
        }
    }

    pub fn from_code(c: u32) -> (r: ResourceType)
        ensures
            r == spec_resource_type(c),
    {
        match c {
            1 => ResourceType::bmp,
            2 => ResourceType::tga,
            4 => ResourceType::wav,
            6 => ResourceType::plt,
            7 => ResourceType::ini,
            10 => ResourceType::txt,
            2002 => ResourceType::mdl,
            2009 => ResourceType::nss,
            2010 => ResourceType::ncs,
            2012 => ResourceType::are,
            2013 => ResourceType::set,
            2014 => ResourceType::ifo,
            2015 => ResourceType::bic,
            2016 => ResourceType::wok,
            2017 => ResourceType::x2da,
            2020 => ResourceType::txi,
            2023 => ResourceType::git,
            2025 => ResourceType::uti,
            2027 => ResourceType::utc,
            2029 => ResourceType::dlg,
            2030 => ResourceType::itp,
            2032 => ResourceType::utt,
            2033 => ResourceType::dds,
            2035 => ResourceType::uts,
            2036 => ResourceType::ltr,
            2037 => ResourceType::gff,
            2038 => ResourceType::fac,
            2040 => ResourceType::ute,
            2042 => ResourceType::utd,
            2044 => ResourceType::utp,
            2045 => ResourceType::dft,
            2046 => ResourceType::gic,
            2047 => ResourceType::gui,
            2051 => ResourceType::utm,
            2052 => ResourceType::dwk,
            2053 => ResourceType::pwk,
            2056 => ResourceType::jrl,
            2058 => ResourceType::utw,
            2060 => ResourceType::ssf,
            2064 => ResourceType::ndb,
            2065 => ResourceType::ptm,
            2066 => ResourceType::ptt,
            _ => ResourceType::Unknown,
        }
    }
}

impl From<u16> for ResourceType {
    fn from(c: u16) -> (r: ResourceType) {
        ResourceType::from_code(c as u32)
    }
}

impl vstd::std_specs::convert::FromSpecImpl<u16> for ResourceType {
    open spec fn obeys_from_spec() -> bool {
        true
    }

    open spec fn from_spec(c: u16) -> ResourceType {
        spec_resource_type(c as u32)
    }
}

impl From<u32> for ResourceType {
    fn from(c: u32) -> (r: ResourceType) {
        ResourceType::from_code(c)
    }
}

impl vstd::std_specs::convert::FromSpecImpl<u32> for ResourceType {
    open spec fn obeys_from_spec() -> bool {
        true
    }

    open spec fn from_spec(c: u32) -> ResourceType {
        spec_resource_type(c)
    }
}

} // verus!
