use vstd::prelude::*;
use vstd::string::StringSliceAdditionalSpecFns;
use vstd::utf8::{decode_utf8, encode_utf8, valid_utf8, encode_scalar};
use crate::bytes::{zeros, push_slice, push_zeros};

verus! {

broadcast use vstd::utf8::encode_utf8_decode_utf8, vstd::utf8::encode_utf8_valid_utf8;

/// The number of bytes a resource name takes on disk.
pub const RES_REF_LENGTH: usize = 16;

/// A name of a resource: at most sixteen bytes of UTF-8, padded with zero
/// bytes to sixteen on disk.
#[derive(Debug, PartialEq, Eq)]
pub struct ResRef(String);

#[derive(Debug, PartialEq, Eq, Clone, Copy)]
pub enum ResRefError {
    InvalidLengthTooLong,
}

/// Whether a name fits in the sixteen bytes of a resource name.
pub open spec fn fits_res_ref(s: Seq<char>) -> bool {
    encode_utf8(s).len() <= RES_REF_LENGTH
}

/// The sixteen bytes that a resource name is written as.
pub open spec fn res_ref_bytes(s: Seq<char>) -> Seq<u8> {
    encode_utf8(s) + zeros((RES_REF_LENGTH - encode_utf8(s).len()) as nat)
}

/// The text without its trailing NUL characters.
pub open spec fn trim_nuls(s: Seq<char>) -> Seq<char>
    decreases s.len(),
{
    if s.len() > 0 && s.last() == '\0' {
        trim_nuls(s.drop_last())
    } else {
        s
    }
}

/// What text a byte sequence decodes to, where invalid sequences are replaced.
pub uninterp spec fn utf8_lossy(b: Seq<u8>) -> Seq<char>;

/// The text that bytes decode to: exactly their characters where they are
/// valid UTF-8, else with each invalid sequence replaced.
pub open spec fn utf8_text(b: Seq<u8>) -> Seq<char> {
    if valid_utf8(b) {
        decode_utf8(b)
    } else {
        utf8_lossy(b)
    }
}

/// Relies on `String::from_utf8_lossy`: the text of the bytes, each invalid
/// sequence replaced by U+FFFD; bytes that are valid UTF-8 decode exactly.
#[verifier::external_body]
pub(crate) fn lossy_string(b: &[u8]) -> (r: String)
    ensures
        r@ == utf8_text(b@),
        !valid_utf8(b@) ==> r@ == utf8_lossy(b@),
{
    String::from_utf8_lossy(b).into_owned()
}

/// The text without its trailing NULs.
pub(crate) fn trim_trailing_nuls(s: &str) -> (r: String)
    ensures
        r@ == trim_nuls(s@),
{
    let mut n = s.unicode_len();
    assert(s@.subrange(0, n as int) =~= s@);
    while n > 0 && s.get_char(n - 1) == '\0'
        invariant
            n <= s@.len(),
            trim_nuls(s@) == trim_nuls(s@.subrange(0, n as int)),
        decreases n,
    {
        proof {
            assert(s@.subrange(0, n as int).drop_last() =~= s@.subrange(0, n - 1));
        }
        n = n - 1;
    }
    s.substring_char(0, n).to_owned()
}

/// The longest prefix of the text that fits in sixteen bytes.
pub open spec fn fit_prefix(s: Seq<char>) -> Seq<char>
    decreases s.len(),
{
    if fits_res_ref(s) || s.len() == 0 {
        s
    } else {
        fit_prefix(s.drop_last())
    }
}

pub proof fn lemma_fit_prefix(s: Seq<char>)
    ensures
        fits_res_ref(fit_prefix(s)),
        fits_res_ref(s) ==> fit_prefix(s) == s,
    decreases s.len(),
{
    if s.len() == 0 {
        assert(encode_utf8(s).len() == 0);
    } else if !fits_res_ref(s) {
        lemma_fit_prefix(s.drop_last());
    }
}

/// The text cut back to its longest prefix that fits in sixteen bytes.
fn fit_name(s: &str) -> (r: String)
    ensures
        r@ == fit_prefix(s@),
        fits_res_ref(r@),
{
    proof {
        lemma_fit_prefix(s@);
    }
    let mut n = s.unicode_len();
    assert(s@.subrange(0, n as int) =~= s@);
    loop
        invariant
            n <= s@.len(),
            fit_prefix(s@) == fit_prefix(s@.subrange(0, n as int)),
            fits_res_ref(fit_prefix(s@)),
        decreases n,
    {
        let t = s.substring_char(0, n);
        if t.as_bytes().len() <= RES_REF_LENGTH {
            return t.to_owned();
        }
        proof {
            if n == 0 {
                assert(t@ =~= Seq::<char>::empty());
                assert(encode_utf8(t@).len() == 0);
            }
            assert(s@.subrange(0, n as int).drop_last() =~= s@.subrange(0, n - 1));
        }
        n = n - 1;
    }
}

/// The name that sixteen raw bytes hold: decoded, trimmed of trailing NULs,
/// and, where replaced invalid bytes made it longer than sixteen bytes, cut
/// back to the longest prefix that fits. Names written by this library read
/// back unchanged.
pub open spec fn res_ref_text(b: Seq<u8>) -> Seq<char> {
    fit_prefix(decoded_name(b))
}

/// The text that sixteen raw bytes hold: decoded, then trimmed of trailing NULs.
pub open spec fn decoded_name(b: Seq<u8>) -> Seq<char> {
    trim_nuls(utf8_text(b))
}

impl View for ResRef {
    type V = Seq<char>;

    closed spec fn view(&self) -> Seq<char> {
        self.0@
    }
}

impl ResRef {
    #[verifier::type_invariant]
    closed spec fn fits(self) -> bool {
        fits_res_ref(self.0@)
    }

    /// A name from a string; more than sixteen bytes of it are refused.
    pub fn new(s: String) -> (r: Result<ResRef, ResRefError>)
        ensures
            fits_res_ref(s@) ==> r is Ok && r->Ok_0@ == s@,
            !fits_res_ref(s@) ==> r == Err::<ResRef, ResRefError>(ResRefError::InvalidLengthTooLong),
    {
        let len = s.as_str().as_bytes().len();
        if len > RES_REF_LENGTH {
            Err(ResRefError::InvalidLengthTooLong)
        } else {
            Ok(ResRef(s))
        }
    }

    /// The empty name.
    pub fn empty() -> (r: ResRef)
        ensures
            r@ == Seq::<char>::empty(),
    {
        let s = String::new();
        proof {
            assert(encode_utf8(s@).len() == 0);
        }
        ResRef(s)
    }

    /// Reads a name from its raw bytes: decoded and trimmed of trailing NULs.
    /// Where replaced invalid bytes make the text longer than sixteen bytes,
    /// it is refused.
    pub fn from_bytes(b: &[u8]) -> (r: Result<ResRef, ResRefError>)
        ensures
            fits_res_ref(decoded_name(b@)) ==> r is Ok && r->Ok_0@ == decoded_name(b@),
            !fits_res_ref(decoded_name(b@)) ==> r == Err::<ResRef, ResRefError>(
                ResRefError::InvalidLengthTooLong,
            ),
    {
        let decoded = lossy_string(b);
        ResRef::new(trim_trailing_nuls(decoded.as_str()))
    }

    /// Reads the name field of a container record; this never fails. Where
    /// replaced invalid bytes make the text longer than sixteen bytes, it is
    /// cut back to its longest prefix that fits, so that a record with a
    /// damaged name can still be read.
    pub fn read_field(b: &[u8]) -> (r: ResRef)
        ensures
            r@ == res_ref_text(b@),
            fits_res_ref(decoded_name(b@)) ==> r@ == decoded_name(b@),
    {
        proof {
            lemma_fit_prefix(decoded_name(b@));
        }
        let decoded = lossy_string(b);
        let trimmed = trim_trailing_nuls(decoded.as_str());
        ResRef(fit_name(trimmed.as_str()))
    }

    /// Replaces the name, refusing one of more than sixteen bytes.
    pub fn replace(&mut self, s: String) -> (r: Result<(), ResRefError>)
        ensures
            fits_res_ref(s@) ==> r is Ok && final(self)@ == s@,
            !fits_res_ref(s@) ==> r == Err::<(), ResRefError>(ResRefError::InvalidLengthTooLong)
                && final(self)@ == old(self)@,
    {
        match ResRef::new(s) {
            Ok(n) => {
                *self = n;
                Ok(())
            },
            Err(e) => Err(e),
        }
    }

    pub fn as_str(&self) -> (r: &str)
        ensures
            r@ == self@,
            fits_res_ref(self@),
    {
        proof {
            use_type_invariant(self);
        }
        self.0.as_str()
    }

    pub fn copy(&self) -> (r: ResRef)
        ensures
            r@ == self@,
    {
        proof {
            use_type_invariant(self);
        }
        ResRef(self.0.clone())
    }

    /// The name's sixteen bytes on disk.
    pub fn serialize(self) -> (r: Vec<u8>)
        ensures
            r@ == res_ref_bytes(self@),
            r@.len() == RES_REF_LENGTH,
    {
        proof {
            use_type_invariant(&self);
        }
        let mut out: Vec<u8> = Vec::with_capacity(RES_REF_LENGTH);
        let b = self.0.as_str().as_bytes();
        push_slice(&mut out, b);
        push_zeros(&mut out, RES_REF_LENGTH - b.len());
        proof {
            assert(out@ =~= res_ref_bytes(self@));
        }
        out
    }

    /// Appends the name's sixteen bytes.
    pub fn push_to(&self, out: &mut Vec<u8>)
        ensures
            final(out)@ == old(out)@ + res_ref_bytes(self@),
            res_ref_bytes(self@).len() == RES_REF_LENGTH,
    {
        proof {
            use_type_invariant(self);
        }
        let b = self.0.as_str().as_bytes();
        push_slice(out, b);
        push_zeros(out, RES_REF_LENGTH - b.len());
        proof {
            assert(final(out)@ =~= old(out)@ + res_ref_bytes(self@));
        }
    }
}

impl Default for ResRef {
    fn default() -> (r: ResRef)
        ensures
            r@ == Seq::<char>::empty(),
    {
        ResRef::empty()
    }
}

impl<'a> TryFrom<&'a str> for ResRef {
    type Error = ResRefError;

    /// See `ResRef::new`.
    fn try_from(s: &'a str) -> (r: Result<ResRef, ResRefError>)
        ensures
            fits_res_ref(s@) ==> r is Ok && r->Ok_0@ == s@,
            !fits_res_ref(s@) ==> r == Err::<ResRef, ResRefError>(ResRefError::InvalidLengthTooLong),
    {
        ResRef::new(s.to_owned())
    }
}

/// The contract is stated on `try_from` itself, over the name's view.
impl<'a> vstd::std_specs::convert::TryFromSpecImpl<&'a str> for ResRef {
    open spec fn obeys_try_from_spec() -> bool {
        false
    }

    open spec fn try_from_spec(s: &'a str) -> Result<ResRef, ResRefError> {
        arbitrary()
    }
}

impl TryFrom<String> for ResRef {
    type Error = ResRefError;

    /// See `ResRef::new`.
    fn try_from(s: String) -> (r: Result<ResRef, ResRefError>)
        ensures
            fits_res_ref(s@) ==> r is Ok && r->Ok_0@ == s@,
            !fits_res_ref(s@) ==> r == Err::<ResRef, ResRefError>(ResRefError::InvalidLengthTooLong),
    {
        ResRef::new(s)
    }
}

/// The contract is stated on `try_from` itself, over the name's view.
impl vstd::std_specs::convert::TryFromSpecImpl<String> for ResRef {
    open spec fn obeys_try_from_spec() -> bool {
        false
    }

    open spec fn try_from_spec(s: String) -> Result<ResRef, ResRefError> {
        arbitrary()
    }
}

impl<'a> TryFrom<&'a [u8]> for ResRef {
    type Error = ResRefError;

    /// See `ResRef::from_bytes`.
    fn try_from(b: &'a [u8]) -> (r: Result<ResRef, ResRefError>)
        ensures
            fits_res_ref(decoded_name(b@)) ==> r is Ok && r->Ok_0@ == decoded_name(b@),
            !fits_res_ref(decoded_name(b@)) ==> r == Err::<ResRef, ResRefError>(
                ResRefError::InvalidLengthTooLong,
            ),
    {
        ResRef::from_bytes(b)
    }
}

/// The contract is stated on `try_from` itself, over the name's view.
impl<'a> vstd::std_specs::convert::TryFromSpecImpl<&'a [u8]> for ResRef {
    open spec fn obeys_try_from_spec() -> bool {
        false
    }

    open spec fn try_from_spec(b: &'a [u8]) -> Result<ResRef, ResRefError> {
        arbitrary()
    }
}

/// A name that fits is written in exactly sixteen bytes.
pub proof fn lemma_res_ref_round_trip_len(s: Seq<char>)
    requires
        fits_res_ref(s),
    ensures
        res_ref_bytes(s).len() == RES_REF_LENGTH,
{
}

/// A name of exactly sixteen bytes is written with no padding.
pub proof fn lemma_full_name_unpadded(s: Seq<char>)
    requires
        encode_utf8(s).len() == RES_REF_LENGTH,
    ensures
        res_ref_bytes(s) == encode_utf8(s),
{
    assert(res_ref_bytes(s) =~= encode_utf8(s));
}

/// Relies on `std::str::from_utf8`: it accepts exactly the valid UTF-8 bytes.
#[verifier::external_body]
pub(crate) fn is_utf8(b: &[u8]) -> (r: bool)
    ensures
        r == valid_utf8(b@),
{
    std::str::from_utf8(b).is_ok()
}

/// `n` NUL characters.
pub open spec fn nuls(n: nat) -> Seq<char> {
    Seq::new(n, |i: int| '\0')
}

proof fn lemma_encode_concat(a: Seq<char>, b: Seq<char>)
    ensures
        encode_utf8(a + b) == encode_utf8(a) + encode_utf8(b),
    decreases a.len(),
{
    if a.len() == 0 {
        assert(a + b =~= b);
    } else {
        assert((a + b).drop_first() =~= a.drop_first() + b);
        lemma_encode_concat(a.drop_first(), b);
        assert(encode_utf8(a + b) =~= encode_utf8(a) + encode_utf8(b));
    }
}

proof fn lemma_encode_nuls(n: nat)
    ensures
        encode_utf8(nuls(n)) == zeros(n),
    decreases n,
{
    if n > 0 {
        assert(nuls(n).drop_first() =~= nuls((n - 1) as nat));
        lemma_encode_nuls((n - 1) as nat);
        assert(('\0' as u32) == 0u32);
        assert((0u32 & 0x7Fu32) == 0u32) by (bit_vector);
        assert(encode_scalar(0u32) =~= seq![0u8]);
        assert(encode_utf8(nuls(n)) =~= zeros(n));
    }
}

proof fn lemma_trim_nuls(s: Seq<char>, n: nat)
    requires
        s.len() == 0 || s.last() != '\0',
    ensures
        trim_nuls(s + nuls(n)) == s,
    decreases n,
{
    if n == 0 {
        assert(s + nuls(n) =~= s);
    } else {
        assert((s + nuls(n)).drop_last() =~= s + nuls((n - 1) as nat));
        lemma_trim_nuls(s, (n - 1) as nat);
    }
}

/// A name whose last character is not NUL is read back from its sixteen bytes
/// as it was.
pub proof fn lemma_res_ref_round_trip(s: Seq<char>)
    requires
        fits_res_ref(s),
        s.len() == 0 || s.last() != '\0',
    ensures
        valid_utf8(res_ref_bytes(s)),
        decode_utf8(res_ref_bytes(s)) == s + nuls((RES_REF_LENGTH - encode_utf8(s).len()) as nat),
        trim_nuls(decode_utf8(res_ref_bytes(s))) == s,
        res_ref_text(res_ref_bytes(s)) == s,
        decoded_name(res_ref_bytes(s)) == s,
        res_ref_bytes(s).len() == RES_REF_LENGTH,
{
    let n = (RES_REF_LENGTH - encode_utf8(s).len()) as nat;
    lemma_encode_nuls(n);
    lemma_encode_concat(s, nuls(n));
    assert(res_ref_bytes(s) == encode_utf8(s + nuls(n)));
    lemma_trim_nuls(s, n);
    lemma_fit_prefix(s);
}

} // verus!
