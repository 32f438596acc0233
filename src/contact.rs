use vstd::prelude::*;

use substring::Substring;

use crate::byte_reader::u32_at;
use crate::errors::MissingPropertyTagError;
use crate::nk2_data_parser::signed32;
use crate::nk2_definitions::{
    data_text, first_with_tag, Nk2Property, Nk2Row, PR_DISPLAY_NAME_W, PR_EMAIL_ADDRESS_W,
    PR_NICK_NAME_WEIGHT, PR_SMTP_ADDRESS_W,
};

verus! {

/// One extracted contact.
pub struct Contact {
    pub name: String,
    pub email: String,
    pub server_email: String,
    pub weight: Option<i32>,
}

/// The mathematical form of a contact.
pub struct ContactModel {
    pub name: Seq<char>,
    pub email: Seq<char>,
    pub server_email: Seq<char>,
    pub weight: Option<i32>,
}

impl View for Contact {
    type V = ContactModel;

    open spec fn view(&self) -> ContactModel {
        ContactModel {
            name: self.name@,
            email: self.email@,
            server_email: self.server_email@,
            weight: self.weight,
        }
    }
}

/// The output formats of the contact list.
#[derive(Clone, Copy, Debug, PartialEq, Eq, Structural)]
pub enum ContactWriter {
    Vcard,
    Csv,
}

/// `s` without one leading and one trailing single quote, each only where present.
pub open spec fn trimmed_name(s: Seq<char>) -> Seq<char> {
    let a = if s.len() > 0 && s[0] == '\'' { s.drop_first() } else { s };
    if a.len() > 0 && a[a.len() - 1] == '\'' { a.drop_last() } else { a }
}

/// Relies on substring's `str::substring`: the characters from index `start` up to `end`.
#[verifier::external_body]
fn char_range(s: &str, start: usize, end: usize) -> (r: String)
    requires
        start <= end <= s@.len(),
    ensures
        r@ == s@.subrange(start as int, end as int),
{
    s.substring(start, end).to_string()
}

/// Strips one single quote from each end of `name` where there is one.
pub fn fix_name(name: &str) -> (r: String)
    ensures
        r@ == trimmed_name(name@),
{
    let n = name.unicode_len();
    let mut start: usize = 0;
    if n > 0 && name.get_char(0) == '\'' {
        start = 1;
    }
    let mut end: usize = n;
    if end > start && name.get_char(end - 1) == '\'' {
        end = end - 1;
    }
    let r = char_range(name, start, end);
    assert(r@ =~= trimmed_name(name@));
    r
}

/// The contact that a row's properties give, or the first required tag it lacks.
pub open spec fn contact_spec(ps: Seq<Nk2Property>) -> Result<ContactModel, u32> {
    match first_with_tag(ps, PR_DISPLAY_NAME_W) {
        None => Err(PR_DISPLAY_NAME_W),
        Some(n) => match first_with_tag(ps, PR_EMAIL_ADDRESS_W) {
            None => Err(PR_EMAIL_ADDRESS_W),
            Some(rcp) => {
                let e = match first_with_tag(ps, PR_SMTP_ADDRESS_W) {
                    Some(x) => x,
                    None => rcp,
                };
                let w = match first_with_tag(ps, PR_NICK_NAME_WEIGHT) {
                    Some(x) => Some(signed32(u32_at(x.value_union@, 0)) as i32),
                    None => None,
                };
                Ok(
                    ContactModel {
                        name: trimmed_name(data_text(n.value@)),
                        email: data_text(e.value@),
                        server_email: data_text(rcp.value@),
                        weight: w,
                    },
                )
            },
        },
    }
}

/// Builds the contact of one row.
pub fn parse_contact(row: &Nk2Row) -> (r: Result<Contact, MissingPropertyTagError>)
    ensures
        match contact_spec(row.properties@) {
            Ok(c) => r is Ok && r->Ok_0@ == c,
            Err(t) => r is Err && r->Err_0.0 == t,
        },
{
    let name_property = match row.find_property_by_tag(PR_DISPLAY_NAME_W) {
        Some(p) => p,
        None => return Err(MissingPropertyTagError(PR_DISPLAY_NAME_W)),
    };
    let recipient_property = match row.find_property_by_tag(PR_EMAIL_ADDRESS_W) {
        Some(p) => p,
        None => return Err(MissingPropertyTagError(PR_EMAIL_ADDRESS_W)),
    };
    let email_property: &Nk2Property = match row.find_property_by_tag(PR_SMTP_ADDRESS_W) {
        Some(p) => p,
        None => recipient_property,
    };
    let weight = match row.find_property_by_tag(PR_NICK_NAME_WEIGHT) {
        Some(p) => Some(p.decode_value_as_long()),
        None => None,
    };
    let name_text = name_property.value.to_text();
    Ok(
        Contact {
            name: fix_name(name_text.as_str()),
            email: email_property.value.to_text(),
            server_email: recipient_property.value.to_text(),
            weight,
        },
    )
}

/// The contacts of the rows that give one, in row order.
pub open spec fn contacts_spec(rows: Seq<Nk2Row>) -> Seq<ContactModel>
    decreases rows.len(),
{
    if rows.len() == 0 {
        seq![]
    } else {
        let prefix = contacts_spec(rows.drop_last());
        match contact_spec(rows.last().properties@) {
            Ok(c) => prefix.push(c),
            Err(_) => prefix,
        }
    }
}

/// Builds the contacts of all rows; a row that lacks a required tag is skipped.
pub fn parse_contacts(rows: &Vec<Nk2Row>) -> (r: Vec<Contact>)
    ensures
        r@.map_values(|c: Contact| c@) == contacts_spec(rows@),
{
    let mut contacts: Vec<Contact> = Vec::new();
    let n = rows.len();
    let mut i: usize = 0;
    assert(contacts@.map_values(|c: Contact| c@) =~= contacts_spec(rows@.subrange(0, 0)));
    while i < n
        invariant
            n == rows@.len(),
            i <= n,
            contacts@.map_values(|c: Contact| c@) == contacts_spec(rows@.subrange(0, i as int)),
        decreases n - i,
    {
        let ghost before = contacts@;
        assert(rows@.subrange(0, i + 1).drop_last() =~= rows@.subrange(0, i as int));
        match parse_contact(&rows[i]) {
            Ok(c) => {
                contacts.push(c);
                assert(contacts@.map_values(|c: Contact| c@) =~= before.map_values(|c: Contact| c@).push(contacts@[before.len() as int]@));
            },
            Err(_) => {},
        }
        i = i + 1;
    }
    assert(rows@.subrange(0, n as int) =~= rows@);
    contacts
}

/// Contacts of joined row lists are the joined contacts of each list.
proof fn lemma_contacts_concat(a: Seq<Nk2Row>, b: Seq<Nk2Row>)
    ensures
        contacts_spec(a + b) == contacts_spec(a) + contacts_spec(b),
    decreases b.len(),
{
    if b.len() == 0 {
        assert(a + b =~= a);
        assert(contacts_spec(b) =~= seq![]);
        assert(contacts_spec(a) + contacts_spec(b) =~= contacts_spec(a));
    } else {
        assert((a + b).drop_last() =~= a + b.drop_last());
        lemma_contacts_concat(a, b.drop_last());
        match contact_spec(b.last().properties@) {
            Ok(c) => {
                assert(contacts_spec(a) + contacts_spec(b) =~= (contacts_spec(a) + contacts_spec(b.drop_last())).push(c));
            },
            Err(_) => {},
        }
    }
}

/// A row without a display name contributes no contact, and the contacts of the rows
/// around it are the same as without it.
pub proof fn lemma_row_without_name_skipped(a: Seq<Nk2Row>, x: Nk2Row, b: Seq<Nk2Row>)
    requires
        first_with_tag(x.properties@, PR_DISPLAY_NAME_W) is None,
    ensures
        contacts_spec(a.push(x) + b) == contacts_spec(a + b),
{
    lemma_contacts_concat(a.push(x), b);
    lemma_contacts_concat(a, b);
    assert(a.push(x).drop_last() =~= a);
}

/// A row with a display name and a recipient address but no SMTP address gives a contact
/// whose email is its recipient address.
pub proof fn lemma_smtp_fallback(row: Nk2Row)
    requires
        first_with_tag(row.properties@, PR_DISPLAY_NAME_W) is Some,
        first_with_tag(row.properties@, PR_EMAIL_ADDRESS_W) is Some,
        first_with_tag(row.properties@, PR_SMTP_ADDRESS_W) is None,
    ensures
        contact_spec(row.properties@) is Ok,
        contact_spec(row.properties@)->Ok_0.email == contact_spec(row.properties@)->Ok_0.server_email,
{
}

/// The decimal digits of `n`.
pub open spec fn nat_digits(n: nat) -> Seq<char>
    decreases n,
{
    let digit = seq!['0', '1', '2', '3', '4', '5', '6', '7', '8', '9'][(n % 10) as int];
    if n < 10 {
        seq![digit]
    } else {
        nat_digits(n / 10) + seq![digit]
    }
}

/// The decimal text of `x`, with a leading minus sign when negative.
pub open spec fn decimal_text(x: int) -> Seq<char> {
    if x < 0 { seq!['-'] + nat_digits((-x) as nat) } else { nat_digits(x as nat) }
}

/// Relies on std's `Display` for `i32`: the decimal digits, with a minus sign when negative.
#[verifier::external_body]
fn i32_text(x: i32) -> (r: String)
    ensures
        r@ == decimal_text(x as int),
{
    format!("{}", x)
}

/// The weight column: the decimal weight, or `?` when there is none.
pub open spec fn weight_text(w: Option<i32>) -> Seq<char> {
    match w {
        Some(x) => decimal_text(x as int),
        None => "?"@,
    }
}

/// The column names of the CSV output.
pub fn csv_header() -> (r: Vec<String>)
    ensures
        r@.map_values(|s: String| s@) == seq!["name"@, "email"@, "server_email"@, "weight"@],
{
    let r = vec!["name".to_string(), "email".to_string(), "server_email".to_string(), "weight".to_string()];
    assert(r@.map_values(|s: String| s@) =~= seq!["name"@, "email"@, "server_email"@, "weight"@]);
    r
}

/// The CSV fields of one contact.
pub fn csv_record(c: &Contact) -> (r: Vec<String>)
    ensures
        r@.map_values(|s: String| s@) == seq![c.name@, c.email@, c.server_email@, weight_text(c.weight)],
{
    let weight = match c.weight {
        Some(x) => i32_text(x),
        None => "?".to_string(),
    };
    let r = vec![c.name.clone(), c.email.clone(), c.server_email.clone(), weight];
    assert(r@.map_values(|s: String| s@) =~= seq![c.name@, c.email@, c.server_email@, weight_text(c.weight)]);
    r
}

} // verus!
