use vstd::prelude::*;

use crate::byte_reader::{avail, u16_at, u32_at, ByteReader};
use crate::errors::{DecodeError, Failure, TooMuchDataError};
use crate::nk2_definitions::{
    is_known_type_code, lemma_type_code_injective, parse_property_type, DataModel, Nk2Property,
    Nk2PropertyData, Nk2PropertyType, Nk2Row, PropertyModel,
};

verus! {

/// Most bytes a text value may declare.
pub const MAX_STRING_LENGTH: usize = 10_000;

/// Most bytes a binary value may declare.
pub const MAX_BYTE_ARRAY_LENGTH: usize = 2_000_000;

/// Most elements a multi-value property may declare.
pub const MAX_ARRAY_ELEMENTS: usize = 500_000;

/// The text that the Windows-1252 decoder makes of `b` (invalid input replaced, no BOM sniffing).
pub uninterp spec fn windows1252_decode(b: Seq<u8>) -> Seq<char>;

/// The text that the UTF-16LE decoder makes of `b` (invalid input replaced, no BOM sniffing).
pub uninterp spec fn utf16le_decode(b: Seq<u8>) -> Seq<char>;

/// Relies on encoding_rs's `WINDOWS_1252.decode_without_bom_handling`: a lossy decode that depends on the bytes
/// alone, and gives the empty string for no bytes.
#[verifier::external_body]
fn decode_windows1252(b: &Vec<u8>) -> (r: String)
    ensures
        r@ == windows1252_decode(b@),
        b@.len() == 0 ==> r@.len() == 0,
{
    encoding_rs::WINDOWS_1252.decode_without_bom_handling(b).0.into_owned()
}

/// Relies on encoding_rs's `UTF_16LE.decode_without_bom_handling`: a lossy decode that depends on the bytes
/// alone, and gives the empty string for no bytes.
#[verifier::external_body]
fn decode_utf16le(b: &Vec<u8>) -> (r: String)
    ensures
        r@ == utf16le_decode(b@),
        b@.len() == 0 ==> r@.len() == 0,
{
    encoding_rs::UTF_16LE.decode_without_bom_handling(b).0.into_owned()
}

/// Fails when `len` exceeds `max_len`, naming the field.
pub fn check_max_array_len(name: &str, len: usize, max_len: usize) -> (r: Result<(), TooMuchDataError>)
    ensures
        r is Ok <==> len <= max_len,
        r is Err ==> r->Err_0.0@ == name@ && r->Err_0.1 == len && r->Err_0.2 == max_len,
{
    if len > max_len {
        Err(TooMuchDataError(name.to_string(), len, max_len))
    } else {
        Ok(())
    }
}

/// A 4-byte length at `p`, checked against `max`.
pub open spec fn length_spec(d: Seq<u8>, p: int, max: int, name: Seq<char>) -> Result<int, (Failure, int)> {
    if !avail(d, p, 4) {
        Err((Failure::UnexpectedEnd(p), p))
    } else if u32_at(d, p) > max {
        Err((Failure::TooMuchData(name, u32_at(d, p), max), p + 4))
    } else {
        Ok(u32_at(d, p))
    }
}

/// The field name of a text value in errors.
pub open spec fn text_name(wide: bool) -> Seq<char> {
    if wide { "Unicode String"@ } else { "ANSI String"@ }
}

/// The field name of a text list in errors.
pub open spec fn text_list_name(wide: bool) -> Seq<char> {
    if wide { "Unicode String arrays"@ } else { "ANSI String arrays"@ }
}

/// The payload without its terminator: one zero byte for 8-bit text, two for UTF-16LE.
pub open spec fn strip_terminator(b: Seq<u8>, wide: bool) -> Seq<u8> {
    if wide {
        if b.len() >= 2 && b[b.len() - 1] == 0 && b[b.len() - 2] == 0 {
            b.subrange(0, b.len() - 2)
        } else {
            b
        }
    } else {
        if b.len() >= 1 && b[b.len() - 1] == 0 {
            b.subrange(0, b.len() - 1)
        } else {
            b
        }
    }
}

/// The text that a payload decodes to.
pub open spec fn decode_text(b: Seq<u8>, wide: bool) -> Seq<char> {
    if wide {
        utf16le_decode(strip_terminator(b, true))
    } else {
        windows1252_decode(strip_terminator(b, false))
    }
}

/// A text payload that ends in its terminator decodes to the text before the terminator:
/// one zero byte is dropped from 8-bit text, one zero pair from UTF-16LE text.
pub proof fn lemma_terminator_dropped(t: Seq<u8>)
    ensures
        decode_text(t.push(0u8), false) == windows1252_decode(t),
        decode_text(t + seq![0u8, 0u8], true) == utf16le_decode(t),
{
    assert(t.push(0u8).subrange(0, t.len() as int) =~= t);
    let w = t + seq![0u8, 0u8];
    assert(w.subrange(0, w.len() - 2) =~= t);
}

/// A length-prefixed text at `p` (UTF-16LE if `wide`, else Windows-1252), and the position after it.
pub open spec fn text_spec(d: Seq<u8>, p: int, wide: bool) -> Result<(Seq<char>, int), (Failure, int)> {
    match length_spec(d, p, MAX_STRING_LENGTH as int, text_name(wide)) {
        Err(f) => Err(f),
        Ok(n) => if !avail(d, p + 4, n) {
            Err((Failure::UnexpectedEnd(p + 4), p + 4))
        } else {
            Ok((decode_text(d.subrange(p + 4, p + 4 + n), wide), p + 4 + n))
        },
    }
}

/// A length-prefixed byte sequence at `p`, and the position after it.
pub open spec fn binary_spec(d: Seq<u8>, p: int) -> Result<(Seq<u8>, int), (Failure, int)> {
    match length_spec(d, p, MAX_BYTE_ARRAY_LENGTH as int, "Byte array"@) {
        Err(f) => Err(f),
        Ok(n) => if !avail(d, p + 4, n) {
            Err((Failure::UnexpectedEnd(p + 4), p + 4))
        } else {
            Ok((d.subrange(p + 4, p + 4 + n), p + 4 + n))
        },
    }
}

/// `k` texts one after another from `p`.
pub open spec fn text_seq_spec(d: Seq<u8>, p: int, k: nat, wide: bool) -> Result<(Seq<Seq<char>>, int), (Failure, int)>
    decreases k,
{
    if k == 0 {
        Ok((seq![], p))
    } else {
        match text_seq_spec(d, p, (k - 1) as nat, wide) {
            Err(f) => Err(f),
            Ok((xs, q)) => match text_spec(d, q, wide) {
                Err(f) => Err(f),
                Ok((x, q2)) => Ok((xs.push(x), q2)),
            },
        }
    }
}

/// `k` byte sequences one after another from `p`.
pub open spec fn binary_seq_spec(d: Seq<u8>, p: int, k: nat) -> Result<(Seq<Seq<u8>>, int), (Failure, int)>
    decreases k,
{
    if k == 0 {
        Ok((seq![], p))
    } else {
        match binary_seq_spec(d, p, (k - 1) as nat) {
            Err(f) => Err(f),
            Ok((xs, q)) => match binary_spec(d, q) {
                Err(f) => Err(f),
                Ok((x, q2)) => Ok((xs.push(x), q2)),
            },
        }
    }
}

/// A counted list of texts at `p`.
pub open spec fn text_list_spec(d: Seq<u8>, p: int, wide: bool) -> Result<(Seq<Seq<char>>, int), (Failure, int)> {
    match length_spec(d, p, MAX_ARRAY_ELEMENTS as int, text_list_name(wide)) {
        Err(f) => Err(f),
        Ok(n) => text_seq_spec(d, p + 4, n as nat, wide),
    }
}

/// A counted list of byte sequences at `p`.
pub open spec fn binary_list_spec(d: Seq<u8>, p: int) -> Result<(Seq<Seq<u8>>, int), (Failure, int)> {
    match length_spec(d, p, MAX_ARRAY_ELEMENTS as int, "Byte arrays"@) {
        Err(f) => Err(f),
        Ok(n) => binary_seq_spec(d, p + 4, n as nat),
    }
}

proof fn lemma_text_seq_err(d: Seq<u8>, p: int, i: nat, k: nat, wide: bool)
    requires
        i <= k,
        text_seq_spec(d, p, i, wide) is Err,
    ensures
        text_seq_spec(d, p, k, wide) == text_seq_spec(d, p, i, wide),
    decreases k - i,
{
    if k > i {
        lemma_text_seq_err(d, p, i, (k - 1) as nat, wide);
    }
}

proof fn lemma_binary_seq_err(d: Seq<u8>, p: int, i: nat, k: nat)
    requires
        i <= k,
        binary_seq_spec(d, p, i) is Err,
    ensures
        binary_seq_spec(d, p, k) == binary_seq_spec(d, p, i),
    decreases k - i,
{
    if k > i {
        lemma_binary_seq_err(d, p, i, (k - 1) as nat);
    }
}

/// How a decoded value and the reader's final position answer a spec outcome: a value and
/// the position after it, or a failure and the position where the reader stopped.
pub open spec fn answers<T, V>(r: Result<T, DecodeError>, view: spec_fn(T) -> V, pos: int, s: Result<(V, int), (Failure, int)>) -> bool {
    match s {
        Ok((v, q)) => r is Ok && view(r->Ok_0) == v && pos == q,
        Err((f, q)) => r is Err && r->Err_0@ == f && pos == q,
    }
}

fn read_length(rd: &mut ByteReader, max: usize, name: &str) -> (r: Result<usize, DecodeError>)
    requires
        old(rd).wf(),
    ensures
        final(rd).wf(),
        final(rd).data@ == old(rd).data@,
        match length_spec(old(rd).data@, old(rd).pos as int, max as int, name@) {
            Ok(n) => r is Ok && r->Ok_0 == n && final(rd).pos == old(rd).pos + 4,
            Err((f, q)) => r is Err && r->Err_0@ == f && final(rd).pos == q,
        },
        r is Err && r->Err_0 is TooMuchData ==> final(rd).pos == old(rd).pos + 4,
{
    let n = match rd.read_u32() {
        Ok(v) => v as usize,
        Err(e) => return Err(e),
    };
    match check_max_array_len(name, n, max) {
        Ok(()) => Ok(n),
        Err(e) => Err(DecodeError::TooMuchData(e)),
    }
}

fn parse_text(rd: &mut ByteReader, wide: bool) -> (r: Result<String, DecodeError>)
    requires
        old(rd).wf(),
    ensures
        final(rd).wf(),
        final(rd).data@ == old(rd).data@,
        answers(r, |s: String| s@, final(rd).pos as int, text_spec(old(rd).data@, old(rd).pos as int, wide)),
        r is Err && r->Err_0 is TooMuchData ==> final(rd).pos == old(rd).pos + 4,
{
    let ghost d = rd.data@;
    let ghost p = rd.pos as int;
    let name = if wide { "Unicode String" } else { "ANSI String" };
    let n = match read_length(rd, MAX_STRING_LENGTH, name) {
        Ok(n) => n,
        Err(e) => return Err(e),
    };
    let mut bytes = match rd.read_bytes(n) {
        Ok(b) => b,
        Err(e) => return Err(e),
    };
    let len = bytes.len();
    if wide {
        if len >= 2 && bytes[len - 1] == 0 && bytes[len - 2] == 0 {
            bytes.pop();
            bytes.pop();
        }
    } else {
        if len >= 1 && bytes[len - 1] == 0 {
            bytes.pop();
        }
    }
    assert(bytes@ =~= strip_terminator(d.subrange(p + 4, p + 4 + n), wide));
    if wide {
        Ok(decode_utf16le(&bytes))
    } else {
        Ok(decode_windows1252(&bytes))
    }
}

/// Reads a length-prefixed Windows-1252 text, dropping one trailing zero byte.
pub fn parse_ansi_string(rd: &mut ByteReader) -> (r: Result<String, DecodeError>)
    requires
        old(rd).wf(),
    ensures
        final(rd).wf(),
        final(rd).data@ == old(rd).data@,
        answers(r, |s: String| s@, final(rd).pos as int, text_spec(old(rd).data@, old(rd).pos as int, false)),
        r is Err && r->Err_0 is TooMuchData ==> final(rd).pos == old(rd).pos + 4,
        avail(old(rd).data@, old(rd).pos as int, 4) && u32_at(old(rd).data@, old(rd).pos as int) > MAX_STRING_LENGTH as int ==> r is Err && r->Err_0 is TooMuchData && final(rd).pos == old(rd).pos + 4,
{
    parse_text(rd, false)
}

/// Reads a length-prefixed UTF-16LE text, dropping one trailing two-byte terminator.
pub fn parse_unicode_string(rd: &mut ByteReader) -> (r: Result<String, DecodeError>)
    requires
        old(rd).wf(),
    ensures
        final(rd).wf(),
        final(rd).data@ == old(rd).data@,
        answers(r, |s: String| s@, final(rd).pos as int, text_spec(old(rd).data@, old(rd).pos as int, true)),
        r is Err && r->Err_0 is TooMuchData ==> final(rd).pos == old(rd).pos + 4,
        avail(old(rd).data@, old(rd).pos as int, 4) && u32_at(old(rd).data@, old(rd).pos as int) > MAX_STRING_LENGTH as int ==> r is Err && r->Err_0 is TooMuchData && final(rd).pos == old(rd).pos + 4,
{
    parse_text(rd, true)
}

/// Reads a length-prefixed byte sequence.
pub fn parse_binary(rd: &mut ByteReader) -> (r: Result<Vec<u8>, DecodeError>)
    requires
        old(rd).wf(),
    ensures
        final(rd).wf(),
        final(rd).data@ == old(rd).data@,
        answers(r, |b: Vec<u8>| b@, final(rd).pos as int, binary_spec(old(rd).data@, old(rd).pos as int)),
        r is Err && r->Err_0 is TooMuchData ==> final(rd).pos == old(rd).pos + 4,
        avail(old(rd).data@, old(rd).pos as int, 4) && u32_at(old(rd).data@, old(rd).pos as int) > MAX_BYTE_ARRAY_LENGTH as int ==> r is Err && r->Err_0 is TooMuchData && final(rd).pos == old(rd).pos + 4,
{
    let n = match read_length(rd, MAX_BYTE_ARRAY_LENGTH, "Byte array") {
        Ok(n) => n,
        Err(e) => return Err(e),
    };
    rd.read_bytes(n)
}

fn parse_text_list(rd: &mut ByteReader, wide: bool) -> (r: Result<Vec<String>, DecodeError>)
    requires
        old(rd).wf(),
    ensures
        final(rd).wf(),
        final(rd).data@ == old(rd).data@,
        answers(r, |l: Vec<String>| l@.map_values(|t: String| t@), final(rd).pos as int, text_list_spec(old(rd).data@, old(rd).pos as int, wide)),
        avail(old(rd).data@, old(rd).pos as int, 4) && u32_at(old(rd).data@, old(rd).pos as int) > MAX_ARRAY_ELEMENTS as int ==> r is Err && r->Err_0 is TooMuchData && final(rd).pos == old(rd).pos + 4,
{
    let ghost d = rd.data@;
    let ghost p = rd.pos as int;
    let name = if wide { "Unicode String arrays" } else { "ANSI String arrays" };
    let count = match read_length(rd, MAX_ARRAY_ELEMENTS, name) {
        Ok(n) => n,
        Err(e) => return Err(e),
    };
    let mut strings: Vec<String> = Vec::new();
    let mut i: usize = 0;
    assert(strings@.map_values(|t: String| t@) =~= Seq::<Seq<char>>::empty());
    while i < count
        invariant
            rd.wf(),
            rd.data@ == d,
            d == old(rd).data@,
            p == old(rd).pos as int,
            length_spec(d, p, MAX_ARRAY_ELEMENTS as int, text_list_name(wide)) == Ok::<int, (Failure, int)>(count as int),
            i <= count,
            strings@.len() == i,
            text_seq_spec(d, p + 4, i as nat, wide) == Ok::<(Seq<Seq<char>>, int), (Failure, int)>((strings@.map_values(|t: String| t@), rd.pos as int)),
        decreases count - i,
    {
        let ghost before = strings@;
        let res = parse_text(rd, wide);
        assert(rd.data@ == d);
        match res {
            Ok(t) => {
                strings.push(t);
                assert(strings@.map_values(|t: String| t@) =~= before.map_values(|t: String| t@).push(strings@[i as int]@));
            },
            Err(e) => {
                proof {
                    lemma_text_seq_err(d, p + 4, (i + 1) as nat, count as nat, wide);
                }
                return Err(e);
            },
        }
        i = i + 1;
    }
    Ok(strings)
}

/// Reads a counted list of Windows-1252 texts.
pub fn parse_ansi_string_arrays(rd: &mut ByteReader) -> (r: Result<Vec<String>, DecodeError>)
    requires
        old(rd).wf(),
    ensures
        final(rd).wf(),
        final(rd).data@ == old(rd).data@,
        answers(r, |l: Vec<String>| l@.map_values(|t: String| t@), final(rd).pos as int, text_list_spec(old(rd).data@, old(rd).pos as int, false)),
        avail(old(rd).data@, old(rd).pos as int, 4) && u32_at(old(rd).data@, old(rd).pos as int) > MAX_ARRAY_ELEMENTS as int ==> r is Err && r->Err_0 is TooMuchData && final(rd).pos == old(rd).pos + 4,
{
    parse_text_list(rd, false)
}

/// Reads a counted list of UTF-16LE texts.
pub fn parse_unicode_string_arrays(rd: &mut ByteReader) -> (r: Result<Vec<String>, DecodeError>)
    requires
        old(rd).wf(),
    ensures
        final(rd).wf(),
        final(rd).data@ == old(rd).data@,
        answers(r, |l: Vec<String>| l@.map_values(|t: String| t@), final(rd).pos as int, text_list_spec(old(rd).data@, old(rd).pos as int, true)),
        avail(old(rd).data@, old(rd).pos as int, 4) && u32_at(old(rd).data@, old(rd).pos as int) > MAX_ARRAY_ELEMENTS as int ==> r is Err && r->Err_0 is TooMuchData && final(rd).pos == old(rd).pos + 4,
{
    parse_text_list(rd, true)
}

/// Reads a counted list of byte sequences.
pub fn parse_binary_arrays(rd: &mut ByteReader) -> (r: Result<Vec<Vec<u8>>, DecodeError>)
    requires
        old(rd).wf(),
    ensures
        final(rd).wf(),
        final(rd).data@ == old(rd).data@,
        answers(r, |l: Vec<Vec<u8>>| l@.map_values(|b: Vec<u8>| b@), final(rd).pos as int, binary_list_spec(old(rd).data@, old(rd).pos as int)),
        avail(old(rd).data@, old(rd).pos as int, 4) && u32_at(old(rd).data@, old(rd).pos as int) > MAX_ARRAY_ELEMENTS as int ==> r is Err && r->Err_0 is TooMuchData && final(rd).pos == old(rd).pos + 4,
{
    let ghost d = rd.data@;
    let ghost p = rd.pos as int;
    let count = match read_length(rd, MAX_ARRAY_ELEMENTS, "Byte arrays") {
        Ok(n) => n,
        Err(e) => return Err(e),
    };
    let mut arrays: Vec<Vec<u8>> = Vec::new();
    let mut i: usize = 0;
    assert(arrays@.map_values(|b: Vec<u8>| b@) =~= Seq::<Seq<u8>>::empty());
    while i < count
        invariant
            rd.wf(),
            rd.data@ == d,
            d == old(rd).data@,
            p == old(rd).pos as int,
            length_spec(d, p, MAX_ARRAY_ELEMENTS as int, "Byte arrays"@) == Ok::<int, (Failure, int)>(count as int),
            i <= count,
            arrays@.len() == i,
            binary_seq_spec(d, p + 4, i as nat) == Ok::<(Seq<Seq<u8>>, int), (Failure, int)>((arrays@.map_values(|b: Vec<u8>| b@), rd.pos as int)),
        decreases count - i,
    {
        let ghost before = arrays@;
        let res = parse_binary(rd);
        assert(rd.data@ == d);
        match res {
            Ok(b) => {
                arrays.push(b);
                assert(arrays@.map_values(|b: Vec<u8>| b@) =~= before.map_values(|b: Vec<u8>| b@).push(arrays@[i as int]@));
            },
            Err(e) => {
                proof {
                    lemma_binary_seq_err(d, p + 4, (i + 1) as nat, count as nat);
                }
                return Err(e);
            },
        }
        i = i + 1;
    }
    Ok(arrays)
}

/// The payload that follows the 8-byte scalar slot for a property of type `t`.
pub open spec fn data_spec(t: Nk2PropertyType, d: Seq<u8>, p: int) -> Result<(DataModel, int), (Failure, int)> {
    match t {
        Nk2PropertyType::PtString8 => match text_spec(d, p, false) {
            Ok((s, q)) => Ok((DataModel::Text(s), q)),
            Err(f) => Err(f),
        },
        Nk2PropertyType::PtUnicode => match text_spec(d, p, true) {
            Ok((s, q)) => Ok((DataModel::Text(s), q)),
            Err(f) => Err(f),
        },
        Nk2PropertyType::PtClsid => if avail(d, p, 16) {
            Ok((DataModel::Bytes(d.subrange(p, p + 16)), p + 16))
        } else {
            Err((Failure::UnexpectedEnd(p), p))
        },
        Nk2PropertyType::PtBinary => match binary_spec(d, p) {
            Ok((b, q)) => Ok((DataModel::Bytes(b), q)),
            Err(f) => Err(f),
        },
        Nk2PropertyType::PtMvBinary => match binary_list_spec(d, p) {
            Ok((l, q)) => Ok((DataModel::BytesList(l), q)),
            Err(f) => Err(f),
        },
        Nk2PropertyType::PtMvString8 => match text_list_spec(d, p, false) {
            Ok((l, q)) => Ok((DataModel::TextList(l), q)),
            Err(f) => Err(f),
        },
        Nk2PropertyType::PtMvUnicode => match text_list_spec(d, p, true) {
            Ok((l, q)) => Ok((DataModel::TextList(l), q)),
            Err(f) => Err(f),
        },
        _ => Ok((DataModel::Empty, p)),
    }
}

impl Nk2PropertyType {
    /// Decodes the payload of a property of this type from the reader.
    pub fn parse_data(&self, _property: &Nk2Property, rd: &mut ByteReader) -> (r: Result<Nk2PropertyData, DecodeError>)
        requires
            old(rd).wf(),
        ensures
            final(rd).wf(),
            final(rd).data@ == old(rd).data@,
            answers(r, |v: Nk2PropertyData| v@, final(rd).pos as int, data_spec(*self, old(rd).data@, old(rd).pos as int)),
    {
        match self {
            Nk2PropertyType::PtString8 => match parse_ansi_string(rd) {
                Ok(s) => Ok(Nk2PropertyData::Text(s)),
                Err(e) => Err(e),
            },
            Nk2PropertyType::PtUnicode => match parse_unicode_string(rd) {
                Ok(s) => Ok(Nk2PropertyData::Text(s)),
                Err(e) => Err(e),
            },
            Nk2PropertyType::PtClsid => match rd.read_bytes(16) {
                Ok(b) => Ok(Nk2PropertyData::Bytes(b)),
                Err(e) => Err(e),
            },
            Nk2PropertyType::PtBinary => match parse_binary(rd) {
                Ok(b) => Ok(Nk2PropertyData::Bytes(b)),
                Err(e) => Err(e),
            },
            Nk2PropertyType::PtMvBinary => match parse_binary_arrays(rd) {
                Ok(l) => Ok(Nk2PropertyData::BytesList(l)),
                Err(e) => Err(e),
            },
            Nk2PropertyType::PtMvString8 => match parse_ansi_string_arrays(rd) {
                Ok(l) => Ok(Nk2PropertyData::TextList(l)),
                Err(e) => Err(e),
            },
            Nk2PropertyType::PtMvUnicode => match parse_unicode_string_arrays(rd) {
                Ok(l) => Ok(Nk2PropertyData::TextList(l)),
                Err(e) => Err(e),
            },
            _ => Ok(Nk2PropertyData::Empty),
        }
    }
}

/// A little-endian 32-bit two's-complement value from its unsigned reading.
pub open spec fn signed32(u: int) -> int {
    if u < 0x8000_0000 { u } else { u - 0x1_0000_0000 }
}

impl Nk2Property {
    /// The first four bytes of the scalar slot, read as a little-endian `i32`.
    pub fn decode_value_as_long(&self) -> (r: i32)
        ensures
            r as int == signed32(u32_at(self.value_union@, 0)),
    {
        let b = &self.value_union;
        let u: u32 = b[0] as u32 + 256 * (b[1] as u32) + 65536 * (b[2] as u32) + 16777216 * (b[3] as u32);
        if u < 0x8000_0000 {
            u as i32
        } else {
            ((u - 0x8000_0000) as i32) - 0x7fff_ffff - 1
        }
    }
}

/// The property that starts at `p`: header, 8-byte scalar slot, then its payload.
pub open spec fn property_spec(d: Seq<u8>, p: int) -> Result<(PropertyModel, int), (Failure, int)> {
    if !avail(d, p, 2) {
        Err((Failure::UnexpectedEnd(p), p))
    } else if !is_known_type_code(u16_at(d, p) as u16) {
        Err((Failure::InvalidPropertyType(u16_at(d, p) as u16), p + 2))
    } else if !avail(d, p + 2, 2) {
        Err((Failure::UnexpectedEnd(p + 2), p + 2))
    } else if !avail(d, p + 4, 4) {
        Err((Failure::UnexpectedEnd(p + 4), p + 4))
    } else if !avail(d, p + 8, 8) {
        Err((Failure::UnexpectedEnd(p + 8), p + 8))
    } else {
        let t = choose|t: Nk2PropertyType| t.code() == u16_at(d, p) as u16;
        match data_spec(t, d, p + 16) {
            Err(f) => Err(f),
            Ok((v, q)) => Ok((
                PropertyModel {
                    property_type: t,
                    property_tag: (65536 * u16_at(d, p + 2) + u16_at(d, p)) as u32,
                    reserved_data: u32_at(d, p + 4) as u32,
                    value_union: d.subrange(p + 8, p + 16),
                    value: v,
                },
                q,
            )),
        }
    }
}

/// Reads one property.
pub fn read_property(rd: &mut ByteReader) -> (r: Result<Nk2Property, DecodeError>)
    requires
        old(rd).wf(),
    ensures
        final(rd).wf(),
        final(rd).data@ == old(rd).data@,
        answers(r, |x: Nk2Property| x@, final(rd).pos as int, property_spec(old(rd).data@, old(rd).pos as int)),
{
    let ghost d = rd.data@;
    let ghost p = rd.pos as int;
    let code = match rd.read_u16() {
        Ok(c) => c,
        Err(e) => return Err(e),
    };
    let property_type = match parse_property_type(code) {
        Ok(t) => t,
        Err(e) => return Err(DecodeError::InvalidPropertyType(e)),
    };
    proof {
        let c = choose|t: Nk2PropertyType| t.code() == code;
        lemma_type_code_injective(property_type, c);
    }
    let high = match rd.read_u16() {
        Ok(h) => h,
        Err(e) => return Err(e),
    };
    let property_tag: u32 = 65536 * (high as u32) + code as u32;
    let reserved_data = match rd.read_u32() {
        Ok(v) => v,
        Err(e) => return Err(e),
    };
    let b = match rd.read_bytes(8) {
        Ok(b) => b,
        Err(e) => return Err(e),
    };
    let value_union: [u8; 8] = [b[0], b[1], b[2], b[3], b[4], b[5], b[6], b[7]];
    assert(value_union@ =~= d.subrange(p + 8, p + 16));
    let mut property = Nk2Property {
        property_type,
        property_tag,
        reserved_data,
        value_union,
        value: Nk2PropertyData::Empty,
    };
    match property_type.parse_data(&property, rd) {
        Ok(v) => {
            property.value = v;
            Ok(property)
        },
        Err(e) => Err(e),
    }
}

/// `k` properties one after another from `p`.
pub open spec fn property_seq_spec(d: Seq<u8>, p: int, k: nat) -> Result<(Seq<PropertyModel>, int), (Failure, int)>
    decreases k,
{
    if k == 0 {
        Ok((seq![], p))
    } else {
        match property_seq_spec(d, p, (k - 1) as nat) {
            Err(f) => Err(f),
            Ok((xs, q)) => match property_spec(d, q) {
                Err(f) => Err(f),
                Ok((x, q2)) => Ok((xs.push(x), q2)),
            },
        }
    }
}

proof fn lemma_property_seq_err(d: Seq<u8>, p: int, i: nat, k: nat)
    requires
        i <= k,
        property_seq_spec(d, p, i) is Err,
    ensures
        property_seq_spec(d, p, k) == property_seq_spec(d, p, i),
    decreases k - i,
{
    if k > i {
        lemma_property_seq_err(d, p, i, (k - 1) as nat);
    }
}

/// The row at `p`: a 4-byte property count, then that many properties.
pub open spec fn row_spec(d: Seq<u8>, p: int) -> Result<(Seq<PropertyModel>, int), (Failure, int)> {
    if !avail(d, p, 4) {
        Err((Failure::UnexpectedEnd(p), p))
    } else {
        property_seq_spec(d, p + 4, u32_at(d, p) as nat)
    }
}

/// Reads one row.
pub fn read_row(rd: &mut ByteReader) -> (r: Result<Nk2Row, DecodeError>)
    requires
        old(rd).wf(),
    ensures
        final(rd).wf(),
        final(rd).data@ == old(rd).data@,
        answers(r, |x: Nk2Row| x@, final(rd).pos as int, row_spec(old(rd).data@, old(rd).pos as int)),
{
    let ghost d = rd.data@;
    let ghost p = rd.pos as int;
    let count = match rd.read_u32() {
        Ok(c) => c,
        Err(e) => return Err(e),
    };
    let mut properties: Vec<Nk2Property> = Vec::new();
    let mut i: u32 = 0;
    assert(properties@.map_values(|x: Nk2Property| x@) =~= Seq::<PropertyModel>::empty());
    while i < count
        invariant
            rd.wf(),
            rd.data@ == d,
            d == old(rd).data@,
            p == old(rd).pos as int,
            avail(d, p, 4),
            u32_at(d, p) == count as int,
            i <= count,
            properties@.len() == i,
            property_seq_spec(d, p + 4, i as nat) == Ok::<(Seq<PropertyModel>, int), (Failure, int)>((properties@.map_values(|x: Nk2Property| x@), rd.pos as int)),
        decreases count - i,
    {
        let ghost before = properties@;
        let res = read_property(rd);
        match res {
            Ok(x) => {
                properties.push(x);
                assert(properties@.map_values(|x: Nk2Property| x@) =~= before.map_values(|x: Nk2Property| x@).push(properties@[i as int]@));
            },
            Err(e) => {
                proof {
                    lemma_property_seq_err(d, p + 4, (i + 1) as nat, count as nat);
                }
                return Err(e);
            },
        }
        i = i + 1;
    }
    Ok(Nk2Row { properties })
}

/// `k` rows one after another from `p`.
pub open spec fn row_seq_spec(d: Seq<u8>, p: int, k: nat) -> Result<(Seq<Seq<PropertyModel>>, int), (Failure, int)>
    decreases k,
{
    if k == 0 {
        Ok((seq![], p))
    } else {
        match row_seq_spec(d, p, (k - 1) as nat) {
            Err(f) => Err(f),
            Ok((xs, q)) => match row_spec(d, q) {
                Err(f) => Err(f),
                Ok((x, q2)) => Ok((xs.push(x), q2)),
            },
        }
    }
}

proof fn lemma_row_seq_err(d: Seq<u8>, p: int, i: nat, k: nat)
    requires
        i <= k,
        row_seq_spec(d, p, i) is Err,
    ensures
        row_seq_spec(d, p, k) == row_seq_spec(d, p, i),
    decreases k - i,
{
    if k > i {
        lemma_row_seq_err(d, p, i, (k - 1) as nat);
    }
}

/// The rows at `p`: a 4-byte row count, then that many rows.
pub open spec fn rows_spec(d: Seq<u8>, p: int) -> Result<(Seq<Seq<PropertyModel>>, int), (Failure, int)> {
    if !avail(d, p, 4) {
        Err((Failure::UnexpectedEnd(p), p))
    } else {
        row_seq_spec(d, p + 4, u32_at(d, p) as nat)
    }
}

/// Reads the row count and then every row; the first failure stops the whole read.
pub fn read_all_rows(rd: &mut ByteReader) -> (r: Result<Vec<Nk2Row>, DecodeError>)
    requires
        old(rd).wf(),
    ensures
        final(rd).wf(),
        final(rd).data@ == old(rd).data@,
        answers(r, |x: Vec<Nk2Row>| x@.map_values(|w: Nk2Row| w@), final(rd).pos as int, rows_spec(old(rd).data@, old(rd).pos as int)),
{
    let ghost d = rd.data@;
    let ghost p = rd.pos as int;
    let count = match rd.read_u32() {
        Ok(c) => c,
        Err(e) => return Err(e),
    };
    let mut rows: Vec<Nk2Row> = Vec::new();
    let mut i: u32 = 0;
    assert(rows@.map_values(|w: Nk2Row| w@) =~= Seq::<Seq<PropertyModel>>::empty());
    while i < count
        invariant
            rd.wf(),
            rd.data@ == d,
            d == old(rd).data@,
            p == old(rd).pos as int,
            avail(d, p, 4),
            u32_at(d, p) == count as int,
            i <= count,
            rows@.len() == i,
            row_seq_spec(d, p + 4, i as nat) == Ok::<(Seq<Seq<PropertyModel>>, int), (Failure, int)>((rows@.map_values(|w: Nk2Row| w@), rd.pos as int)),
        decreases count - i,
    {
        let ghost before = rows@;
        let res = read_row(rd);
        match res {
            Ok(x) => {
                rows.push(x);
                assert(rows@.map_values(|w: Nk2Row| w@) =~= before.map_values(|w: Nk2Row| w@).push(rows@[i as int]@));
            },
            Err(e) => {
                proof {
                    lemma_row_seq_err(d, p + 4, (i + 1) as nat, count as nat);
                }
                return Err(e);
            },
        }
        i = i + 1;
    }
    Ok(rows)
}

/// Bytes of metadata at the start of a file, not otherwise interpreted.
pub const FILE_HEADER_LENGTH: usize = 12;

/// A whole file from `p`: the header, then the rows.
pub open spec fn file_spec(d: Seq<u8>, p: int) -> Result<(Seq<Seq<PropertyModel>>, int), (Failure, int)> {
    if !avail(d, p, FILE_HEADER_LENGTH as int) {
        Err((Failure::UnexpectedEnd(p), p))
    } else {
        rows_spec(d, p + FILE_HEADER_LENGTH)
    }
}

/// Skips the file header, then reads every row. A file too short for its header fails like
/// any other short read; on failure the reader is left where it stopped.
pub fn read_file_data(rd: &mut ByteReader) -> (r: Result<Vec<Nk2Row>, DecodeError>)
    requires
        old(rd).wf(),
    ensures
        final(rd).wf(),
        final(rd).data@ == old(rd).data@,
        answers(r, |x: Vec<Nk2Row>| x@.map_values(|w: Nk2Row| w@), final(rd).pos as int, file_spec(old(rd).data@, old(rd).pos as int)),
{
    match rd.read_bytes(FILE_HEADER_LENGTH) {
        Ok(_) => {},
        Err(e) => return Err(e),
    }
    read_all_rows(rd)
}

proof fn lemma_text_seq_bounds(d: Seq<u8>, p: int, k: nat, wide: bool)
    ensures
        text_seq_spec(d, p, k, wide) is Ok ==> text_seq_spec(d, p, k, wide)->Ok_0.1 >= p
            && (k == 0 || text_seq_spec(d, p, k, wide)->Ok_0.1 <= d.len()),
    decreases k,
{
    if k > 0 {
        lemma_text_seq_bounds(d, p, (k - 1) as nat, wide);
    }
}

proof fn lemma_binary_seq_bounds(d: Seq<u8>, p: int, k: nat)
    ensures
        binary_seq_spec(d, p, k) is Ok ==> binary_seq_spec(d, p, k)->Ok_0.1 >= p
            && (k == 0 || binary_seq_spec(d, p, k)->Ok_0.1 <= d.len()),
    decreases k,
{
    if k > 0 {
        lemma_binary_seq_bounds(d, p, (k - 1) as nat);
    }
}

proof fn lemma_data_bounds(t: Nk2PropertyType, d: Seq<u8>, p: int)
    ensures
        data_spec(t, d, p) is Ok ==> data_spec(t, d, p)->Ok_0.1 == p || (
        data_spec(t, d, p)->Ok_0.1 >= p && data_spec(t, d, p)->Ok_0.1 <= d.len()),
{
    if length_spec(d, p, MAX_ARRAY_ELEMENTS as int, "Byte arrays"@) is Ok {
        lemma_binary_seq_bounds(d, p + 4, u32_at(d, p) as nat);
    }
    if length_spec(d, p, MAX_ARRAY_ELEMENTS as int, text_list_name(true)) is Ok {
        lemma_text_seq_bounds(d, p + 4, u32_at(d, p) as nat, true);
    }
    if length_spec(d, p, MAX_ARRAY_ELEMENTS as int, text_list_name(false)) is Ok {
        lemma_text_seq_bounds(d, p + 4, u32_at(d, p) as nat, false);
    }
}

proof fn lemma_property_seq_bounds(d: Seq<u8>, p: int, k: nat)
    ensures
        property_seq_spec(d, p, k) is Ok ==> property_seq_spec(d, p, k)->Ok_0.1 >= p
            && (k == 0 || property_seq_spec(d, p, k)->Ok_0.1 <= d.len()),
    decreases k,
{
    if k > 0 {
        lemma_property_seq_bounds(d, p, (k - 1) as nat);
        if property_seq_spec(d, p, (k - 1) as nat) is Ok {
            let q = property_seq_spec(d, p, (k - 1) as nat)->Ok_0.1;
            if avail(d, q, 16) && is_known_type_code(u16_at(d, q) as u16) {
                let t = choose|t: Nk2PropertyType| t.code() == u16_at(d, q) as u16;
                lemma_data_bounds(t, d, q + 16);
            }
        }
    }
}

proof fn lemma_row_seq_bounds(d: Seq<u8>, p: int, k: nat)
    ensures
        row_seq_spec(d, p, k) is Ok ==> row_seq_spec(d, p, k)->Ok_0.1 >= p + 4 * k
            && (k == 0 || row_seq_spec(d, p, k)->Ok_0.1 <= d.len()),
    decreases k,
{
    if k > 0 {
        lemma_row_seq_bounds(d, p, (k - 1) as nat);
        if row_seq_spec(d, p, (k - 1) as nat) is Ok {
            let q = row_seq_spec(d, p, (k - 1) as nat)->Ok_0.1;
            if avail(d, q, 4) {
                lemma_property_seq_bounds(d, q + 4, u32_at(d, q) as nat);
            }
        }
    }
}

/// Every row holds at least its 4-byte property count. So when the declared row count needs
/// more bytes than the file holds, or the file is too short for its header and row count,
/// decoding the file fails and gives no rows.
pub proof fn lemma_rows_past_end_fail(d: Seq<u8>, p: int)
    requires
        !avail(d, p, FILE_HEADER_LENGTH + 4) || p + FILE_HEADER_LENGTH + 4 + 4 * u32_at(d, p + FILE_HEADER_LENGTH) > d.len(),
    ensures
        file_spec(d, p) is Err,
{
    if avail(d, p, FILE_HEADER_LENGTH + 4) {
        lemma_row_seq_bounds(d, p + FILE_HEADER_LENGTH + 4, u32_at(d, p + FILE_HEADER_LENGTH) as nat);
    }
}

} // verus!
