use vstd::prelude::*;

use crate::errors::InvalidPropertyTypeError;

verus! {

/// Must be first in each recipient row; serves as the row's key.
pub const PR_NICK_NAME_W: u32 = 0x6001001F;

/// The address book entry identifier of the recipient.
pub const PR_ENTRYID: u32 = 0x0FFF0102;

/// The recipient's display name.
pub const PR_DISPLAY_NAME_W: u32 = 0x3001001F;

/// The recipient's email address.
pub const PR_EMAIL_ADDRESS_W: u32 = 0x3003001F;

/// The recipient's address type (e.g. SMTP or EX).
pub const PR_ADDRTYPE_W: u32 = 0x3002001F;

/// The recipient's SMTP address.
pub const PR_SMTP_ADDRESS_W: u32 = 0x39FE001F;

/// The display string shown in the autocomplete list.
pub const PR_DROPDOWN_DISPLAY_NAME_W: u32 = 0x6003001F;

/// The weight of the entry, which orders autocomplete suggestions.
pub const PR_NICK_NAME_WEIGHT: u32 = 0x60040003;

/// The bit that marks a multi-value type code.
pub const MV_FLAG: u16 = 0x1000;

/// The known property types; each stands for one 16-bit code.
#[derive(Clone, Copy, Debug, PartialEq, Eq, Structural)]
pub enum Nk2PropertyType {
    PtUnspecified,
    PtNull,
    PtI2,
    PtI4,
    PtFloat,
    PtDouble,
    PtCurrency,
    PtAppTime,
    PtError,
    PtBoolean,
    PtObject,
    PtI8,
    PtString8,
    PtUnicode,
    PtSysTime,
    PtClsid,
    PtSvreid,
    PtSRestrict,
    PtActions,
    PtBinary,
    PtMvBinary,
    PtMvString8,
    PtMvUnicode,
}

impl Nk2PropertyType {
    /// The numeric code of this type in the file format.
    pub open spec fn code(self) -> u16 {
        match self {
            Nk2PropertyType::PtUnspecified => 0x0000,
            Nk2PropertyType::PtNull => 0x0001,
            Nk2PropertyType::PtI2 => 0x0002,
            Nk2PropertyType::PtI4 => 0x0003,
            Nk2PropertyType::PtFloat => 0x0004,
            Nk2PropertyType::PtDouble => 0x0005,
            Nk2PropertyType::PtCurrency => 0x0006,
            Nk2PropertyType::PtAppTime => 0x0007,
            Nk2PropertyType::PtError => 0x000A,
            Nk2PropertyType::PtBoolean => 0x000B,
            Nk2PropertyType::PtObject => 0x000D,
            Nk2PropertyType::PtI8 => 0x0014,
            Nk2PropertyType::PtString8 => 0x001E,
            Nk2PropertyType::PtUnicode => 0x001F,
            Nk2PropertyType::PtSysTime => 0x0040,
            Nk2PropertyType::PtClsid => 0x0048,
            Nk2PropertyType::PtSvreid => 0x00FB,
            Nk2PropertyType::PtSRestrict => 0x00FD,
            Nk2PropertyType::PtActions => 0x00FE,
            Nk2PropertyType::PtBinary => 0x0102,
            Nk2PropertyType::PtMvBinary => 0x1102,
            Nk2PropertyType::PtMvString8 => 0x101E,
            Nk2PropertyType::PtMvUnicode => 0x101F,
        }
    }
}

/// Whether `c` is the code of some known property type.
pub open spec fn is_known_type_code(c: u16) -> bool {
    exists|t: Nk2PropertyType| t.code() == c
}

/// Distinct property types have distinct codes.
pub proof fn lemma_type_code_injective(a: Nk2PropertyType, b: Nk2PropertyType)
    requires
        a.code() == b.code(),
    ensures
        a == b,
{
}

/// Resolves a type code to its property type, or reports the unknown code.
pub fn parse_property_type(property_type: u16) -> (r: Result<Nk2PropertyType, InvalidPropertyTypeError>)
    ensures
        match r {
            Ok(t) => t.code() == property_type,
            Err(e) => e.0 == property_type && !is_known_type_code(property_type),
        },
{
    match property_type {
        0x0000 => Ok(Nk2PropertyType::PtUnspecified),
        0x0001 => Ok(Nk2PropertyType::PtNull),
        0x0002 => Ok(Nk2PropertyType::PtI2),
        0x0003 => Ok(Nk2PropertyType::PtI4),
        0x0004 => Ok(Nk2PropertyType::PtFloat),
        0x0005 => Ok(Nk2PropertyType::PtDouble),
        0x0006 => Ok(Nk2PropertyType::PtCurrency),
        0x0007 => Ok(Nk2PropertyType::PtAppTime),
        0x000A => Ok(Nk2PropertyType::PtError),
        0x000B => Ok(Nk2PropertyType::PtBoolean),
        0x000D => Ok(Nk2PropertyType::PtObject),
        0x0014 => Ok(Nk2PropertyType::PtI8),
        0x001E => Ok(Nk2PropertyType::PtString8),
        0x001F => Ok(Nk2PropertyType::PtUnicode),
        0x0040 => Ok(Nk2PropertyType::PtSysTime),
        0x0048 => Ok(Nk2PropertyType::PtClsid),
        0x00FB => Ok(Nk2PropertyType::PtSvreid),
        0x00FD => Ok(Nk2PropertyType::PtSRestrict),
        0x00FE => Ok(Nk2PropertyType::PtActions),
        0x0102 => Ok(Nk2PropertyType::PtBinary),
        0x1102 => Ok(Nk2PropertyType::PtMvBinary),
        0x101E => Ok(Nk2PropertyType::PtMvString8),
        0x101F => Ok(Nk2PropertyType::PtMvUnicode),
        _ => Err(InvalidPropertyTypeError(property_type)),
    }
}

/// The decoded payload of a property.
pub enum Nk2PropertyData {
    Empty,
    Text(String),
    Bytes(Vec<u8>),
    BytesList(Vec<Vec<u8>>),
    TextList(Vec<String>),
}

/// The mathematical form of a property's payload.
pub enum DataModel {
    Empty,
    Text(Seq<char>),
    Bytes(Seq<u8>),
    BytesList(Seq<Seq<u8>>),
    TextList(Seq<Seq<char>>),
}

impl View for Nk2PropertyData {
    type V = DataModel;

    open spec fn view(&self) -> DataModel {
        match self {
            Nk2PropertyData::Empty => DataModel::Empty,
            Nk2PropertyData::Text(t) => DataModel::Text(t@),
            Nk2PropertyData::Bytes(b) => DataModel::Bytes(b@),
            Nk2PropertyData::BytesList(l) => DataModel::BytesList(l@.map_values(|b: Vec<u8>| b@)),
            Nk2PropertyData::TextList(l) => DataModel::TextList(l@.map_values(|t: String| t@)),
        }
    }
}

/// The text rendering of a byte sequence as std's `Debug` writes it.
pub uninterp spec fn debug_bytes(b: Seq<u8>) -> Seq<char>;

/// The text rendering of a list of byte sequences as std's `Debug` writes it.
pub uninterp spec fn debug_byte_lists(l: Seq<Seq<u8>>) -> Seq<char>;

/// The text rendering of a list of strings as std's `Debug` writes it.
pub uninterp spec fn debug_texts(l: Seq<Seq<char>>) -> Seq<char>;

/// Relies on std's `Debug` for `Vec<u8>`: its rendering depends on the bytes alone.
#[verifier::external_body]
fn render_bytes(b: &Vec<u8>) -> (r: String)
    ensures
        r@ == debug_bytes(b@),
{
    format!("{:?}", b)
}

/// Relies on std's `Debug` for `Vec<Vec<u8>>`: its rendering depends on the bytes alone.
#[verifier::external_body]
fn render_byte_lists(l: &Vec<Vec<u8>>) -> (r: String)
    ensures
        r@ == debug_byte_lists(l@.map_values(|b: Vec<u8>| b@)),
{
    format!("{:?}", l)
}

/// Relies on std's `Debug` for `Vec<String>`: its rendering depends on the texts alone.
#[verifier::external_body]
fn render_texts(l: &Vec<String>) -> (r: String)
    ensures
        r@ == debug_texts(l@.map_values(|t: String| t@)),
{
    format!("{:?}", l)
}

/// The text form of a payload.
pub open spec fn data_text(d: DataModel) -> Seq<char> {
    match d {
        DataModel::Empty => "empty"@,
        DataModel::Text(t) => t,
        DataModel::Bytes(b) => debug_bytes(b),
        DataModel::BytesList(l) => "BList: "@ + debug_byte_lists(l),
        DataModel::TextList(l) => "TList: "@ + debug_texts(l),
    }
}

/// Concatenation of two strings.
fn concat(a: &str, b: String) -> (r: String)
    ensures
        r@ == a@ + b@,
{
    let mut s = a.to_string();
    s.append(b.as_str());
    s
}

impl Nk2PropertyData {
    /// The payload as text: the text itself, or a rendering of the other kinds.
    pub fn to_text(&self) -> (r: String)
        ensures
            r@ == data_text(self@),
    {
        match self {
            Nk2PropertyData::Empty => "empty".to_string(),
            Nk2PropertyData::Text(t) => t.clone(),
            Nk2PropertyData::Bytes(b) => render_bytes(b),
            Nk2PropertyData::BytesList(l) => concat("BList: ", render_byte_lists(l)),
            Nk2PropertyData::TextList(l) => concat("TList: ", render_texts(l)),
        }
    }
}

/// One tagged, typed value of a row.
pub struct Nk2Property {
    pub property_type: Nk2PropertyType,
    pub property_tag: u32,
    pub reserved_data: u32,
    pub value_union: [u8; 8],
    pub value: Nk2PropertyData,
}

/// The mathematical form of a property.
pub struct PropertyModel {
    pub property_type: Nk2PropertyType,
    pub property_tag: u32,
    pub reserved_data: u32,
    pub value_union: Seq<u8>,
    pub value: DataModel,
}

impl View for Nk2Property {
    type V = PropertyModel;

    open spec fn view(&self) -> PropertyModel {
        PropertyModel {
            property_type: self.property_type,
            property_tag: self.property_tag,
            reserved_data: self.reserved_data,
            value_union: self.value_union@,
            value: self.value@,
        }
    }
}

/// One contact's record: its properties in file order.
pub struct Nk2Row {
    pub properties: Vec<Nk2Property>,
}

/// The first property of `ps` with tag `tag`, if any.
pub open spec fn first_with_tag(ps: Seq<Nk2Property>, tag: u32) -> Option<Nk2Property>
    decreases ps.len(),
{
    if ps.len() == 0 {
        None
    } else if ps[0].property_tag == tag {
        Some(ps[0])
    } else {
        first_with_tag(ps.drop_first(), tag)
    }
}

impl View for Nk2Row {
    type V = Seq<PropertyModel>;

    open spec fn view(&self) -> Seq<PropertyModel> {
        self.properties@.map_values(|p: Nk2Property| p@)
    }
}

impl Nk2Row {
    /// The first property of the row whose tag is `tag`.
    pub fn find_property_by_tag(&self, tag: u32) -> (r: Option<&Nk2Property>)
        ensures
            match r {
                Some(p) => first_with_tag(self.properties@, tag) == Some(*p),
                None => first_with_tag(self.properties@, tag) is None,
            },
    {
        let n = self.properties.len();
        let mut i: usize = 0;
        assert(self.properties@.subrange(0, n as int) =~= self.properties@);
        while i < n
            invariant
                n == self.properties@.len(),
                i <= n,
                first_with_tag(self.properties@.subrange(i as int, n as int), tag)
                    == first_with_tag(self.properties@, tag),
            decreases n - i,
        {
            let ps = Ghost(self.properties@.subrange(i as int, n as int));
            assert(ps@.drop_first() =~= self.properties@.subrange(i + 1, n as int));
            if self.properties[i].property_tag == tag {
                return Some(&self.properties[i]);
            }
            i = i + 1;
        }
        assert(self.properties@.subrange(n as int, n as int).len() == 0);
        None
    }
}

} // verus!
