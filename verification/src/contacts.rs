//! Contacts: the addresses a notebook has sent to, most recently used first.

use crate::labels::{short_addr, short_form};
use crate::lists::position_where;
use crate::seqs::{filter_all, filter_one_out, first_at, first_at_found, first_at_is, first_at_same};
use crate::state::State;
use crate::text::{same_text, trim, trimmed};
use vstd::prelude::*;

verus! {

/// How many contacts a notebook remembers.
pub const MAX_CONTACTS: usize = 20;

/// A contact to send to.
#[derive(Debug)]
pub struct ContactRec {
    /// Empty for an unnamed contact.
    pub name: String,
    pub address: String,
}

impl Clone for ContactRec {
    fn clone(&self) -> (r: Self)
        ensures
            r == *self,
    {
        ContactRec { name: self.name.clone(), address: self.address.clone() }
    }
}

/// A contact by its texts.
#[verifier::ext_equal]
pub struct Contact {
    pub name: Seq<char>,
    pub address: Seq<char>,
}

impl View for ContactRec {
    type V = Contact;

    open spec fn view(&self) -> Contact {
        Contact { name: self.name@, address: self.address@ }
    }
}

/// The contacts of a list by their texts.
pub open spec fn contacts_in(list: Seq<ContactRec>) -> Seq<Contact> {
    list.map_values(|c: ContactRec| c@)
}

/// The first position of an address, or the length of the list.
pub open spec fn contact_at(list: Seq<Contact>, address: Seq<char>) -> int {
    first_at(list, |c: Contact| c.address == address)
}

/// `list` with `address` moved to the front, or put there without a name
/// where it was not listed, and cut at the most contacts remembered.
pub open spec fn fronted(list: Seq<Contact>, address: Seq<char>) -> Seq<Contact> {
    let k = contact_at(list, address);
    let all = if k < list.len() {
        seq![list[k]] + list.remove(k)
    } else {
        seq![Contact { name: seq![], address }] + list
    };
    if all.len() > MAX_CONTACTS {
        all.take(MAX_CONTACTS as int)
    } else {
        all
    }
}

/// `list` with each of `addresses` moved to the front in turn.
pub open spec fn all_fronted(list: Seq<Contact>, addresses: Seq<String>) -> Seq<Contact>
    decreases addresses.len(),
{
    if addresses.len() == 0 {
        list
    } else {
        fronted(all_fronted(list, addresses.drop_last()), addresses.last()@)
    }
}

/// `list` with the contact of an address named; nothing else changes, the
/// order included.
pub open spec fn named(list: Seq<Contact>, address: Seq<char>, name: Seq<char>) -> Seq<Contact> {
    let k = contact_at(list, address);
    if k < list.len() {
        list.update(k, Contact { name, address: list[k].address })
    } else {
        list
    }
}

/// The name of the first named contact of an address.
pub open spec fn name_of(list: Seq<Contact>, address: Seq<char>) -> Option<Seq<char>> {
    let k = first_at(list, |c: Contact| c.address == address && c.name.len() > 0);
    if k < list.len() {
        Some(list[k].name)
    } else {
        None
    }
}

/// Where an address is first listed.
fn contact_position(list: &Vec<ContactRec>, address: &str) -> (r: usize)
    ensures
        r == contact_at(contacts_in(list@), address@),
        r <= list.len(),
{
    let ghost here = |c: Contact| c.address == address@;
    let ghost hit = |c: ContactRec| here(c@);
    let test = |c: &ContactRec| -> (b: bool)
        ensures
            b == hit(*c),
        {
            same_text(c.address.as_str(), address)
        };
    proof {
        first_at_same(contacts_in(list@), here, list@, hit);
    }
    position_where(list, test, Ghost(hit))
}

/// Puts an address at the front of a list of contacts.
fn front_contact(list: &mut Vec<ContactRec>, address: &str)
    ensures
        contacts_in(final(list)@) == fronted(contacts_in(old(list)@), address@),
{
    let ghost v = contacts_in(list@);
    let k: usize = contact_position(list, address);
    proof {
        first_at_found(v, |c: Contact| c.address == address@);
    }
    let name: String = if k < list.len() {
        list.remove(k).name
    } else {
        String::new()
    };
    let rec = ContactRec { name, address: address.to_owned() };
    list.insert(0, rec);
    proof {
        let all = if k < v.len() {
            seq![v[k as int]] + v.remove(k as int)
        } else {
            seq![Contact { name: seq![], address: address@ }] + v
        };
        assert(rec@ =~= all[0]);
        assert(contacts_in(list@) =~= all);
    }
    let ghost before = list@;
    list.truncate(MAX_CONTACTS);
    proof {
        if before.len() > MAX_CONTACTS {
            assert(contacts_in(list@) =~= contacts_in(before).take(MAX_CONTACTS as int));
        } else {
            assert(list@ =~= before);
        }
    }
}

/// Records the use of an address: it moves to the front of the contacts with
/// the name that it had, and the list is cut at `MAX_CONTACTS`.
pub fn upsert_contact(st: &mut State, address: &str)
    ensures
        contacts_in(final(st).contacts@) == fronted(contacts_in(old(st).contacts@), address@),
        *final(st) == (State { contacts: final(st).contacts, ..*old(st) }),
{
    front_contact(&mut st.contacts, address);
}

/// Records the use of several addresses in turn.
pub fn upsert_contacts(st: &mut State, addresses: &Vec<String>)
    ensures
        contacts_in(final(st).contacts@) == all_fronted(
            contacts_in(old(st).contacts@),
            addresses@,
        ),
        *final(st) == (State { contacts: final(st).contacts, ..*old(st) }),
{
    let ghost v = contacts_in(st.contacts@);
    let mut i: usize = 0;
    assert(addresses@.take(0) =~= seq![]);
    while i < addresses.len()
        invariant
            i <= addresses.len(),
            v == contacts_in(old(st).contacts@),
            contacts_in(st.contacts@) == all_fronted(v, addresses@.take(i as int)),
            *st == (State { contacts: st.contacts, ..*old(st) }),
        decreases addresses.len() - i,
    {
        upsert_contact(st, addresses[i].as_str());
        assert(addresses@.take(i + 1).drop_last() =~= addresses@.take(i as int));
        i = i + 1;
    }
    assert(addresses@.take(i as int) =~= addresses@);
}

/// Names the contact of an address, where it is listed, by the trimmed text.
/// Naming is no use: the order stays.
pub fn name_contact(st: &mut State, address: &str, name: &str)
    ensures
        contacts_in(final(st).contacts@) == named(
            contacts_in(old(st).contacts@),
            address@,
            trimmed(name@),
        ),
        *final(st) == (State { contacts: final(st).contacts, ..*old(st) }),
{
    let ghost v = contacts_in(st.contacts@);
    let k: usize = contact_position(&st.contacts, address);
    if k < st.contacts.len() {
        st.contacts[k].name = trim(name).to_owned();
        proof {
            let after = named(v, address@, trimmed(name@));
            assert(contacts_in(st.contacts@)[k as int] =~= after[k as int]);
            assert(contacts_in(st.contacts@) =~= after);
        }
    }
}

/// The name of the first named contact of an address.
pub fn contact_name(list: &Vec<ContactRec>, address: &str) -> (r: Option<String>)
    ensures
        match r {
            Some(name) => name_of(contacts_in(list@), address@) == Some(name@),
            None => name_of(contacts_in(list@), address@) is None,
        },
{
    let ghost here = |c: Contact| c.address == address@ && c.name.len() > 0;
    let ghost hit = |c: ContactRec| here(c@);
    let test = |c: &ContactRec| -> (b: bool)
        ensures
            b == hit(*c),
        {
            same_text(c.address.as_str(), address) && !c.name.as_str().is_empty()
        };
    proof {
        first_at_same(contacts_in(list@), here, list@, hit);
    }
    let k: usize = position_where(list, test, Ghost(hit));
    if k < list.len() {
        Some(list[k].name.clone())
    } else {
        None
    }
}

/// The compose header line for a recipient; the empty address is the
/// notebook itself.
pub open spec fn to_label(list: Seq<Contact>, address: Seq<char>) -> Seq<char> {
    if address.len() == 0 {
        "to: self \u{2014} my notebook"@
    } else {
        match name_of(list, address) {
            Some(name) => "to: "@ + name + " ("@ + short_form(address) + ")"@,
            None => "to: "@ + short_form(address),
        }
    }
}

/// The compose header line for a picked recipient.
pub fn to_label_for(st: &State, address: &str) -> (r: String)
    ensures
        r@ == to_label(contacts_in(st.contacts@), address@),
{
    if address.is_empty() {
        return "to: self \u{2014} my notebook".to_owned();
    }
    let short: String = short_addr(address);
    let mut out: String = "to: ".to_owned();
    match contact_name(&st.contacts, address) {
        Some(name) => {
            out.append(name.as_str());
            out.append(" (");
            out.append(short.as_str());
            out.append(")");
        },
        None => {
            out.append(short.as_str());
        },
    }
    out
}

/// How a contact is listed: by its name, or by its address where it has none.
pub fn contact_label(c: &ContactRec) -> (r: String)
    ensures
        r@ == if c.name@.len() > 0 {
            c.name@
        } else {
            short_form(c.address@)
        },
{
    if c.name.as_str().is_empty() {
        short_addr(c.address.as_str())
    } else {
        c.name.clone()
    }
}

/// How a sender is listed in the sender filter.
pub fn sender_label(st: &State, key: &str) -> (r: String)
    ensures
        r@ == if key@ == "self"@ {
            "Self"@
        } else {
            match name_of(contacts_in(st.contacts@), key@) {
                Some(name) => name,
                None => short_form(key@),
            }
        },
{
    if same_text(key, "self") {
        return "Self".to_owned();
    }
    match contact_name(&st.contacts, key) {
        Some(name) => name,
        None => short_addr(key),
    }
}

/// No address is listed twice.
pub open spec fn distinct_addresses(list: Seq<Contact>) -> bool {
    forall|i: int, j: int|
        0 <= i < j < list.len() ==> (#[trigger] list[i]).address != (#[trigger] list[j]).address
}

/// A used address is at the front with the name it had, if it had one, and
/// the list never grows past `MAX_CONTACTS`.
pub proof fn use_moves_to_the_front(list: Seq<Contact>, address: Seq<char>)
    ensures
        0 < fronted(list, address).len() <= MAX_CONTACTS,
        fronted(list, address)[0].address == address,
        contact_at(list, address) < list.len() ==> fronted(list, address)[0] == list[contact_at(
            list,
            address,
        )],
{
    first_at_found(list, |c: Contact| c.address == address);
}

/// Contacts that list no address twice never come to list one twice.
pub proof fn use_keeps_addresses_distinct(list: Seq<Contact>, address: Seq<char>)
    requires
        distinct_addresses(list),
    ensures
        distinct_addresses(fronted(list, address)),
{
    let p = |c: Contact| c.address == address;
    first_at_found(list, p);
    let k = contact_at(list, address);
    let after = fronted(list, address);
    assert forall|i: int, j: int| 0 <= i < j < after.len() implies (#[trigger] after[i]).address != (
    #[trigger] after[j]).address by {
        let old_j = if k < list.len() && j - 1 >= k { j } else { j - 1 };
        assert(after[j] == list[old_j]);
        if i == 0 {
            if k >= list.len() {
                assert(!p(list[old_j]));
            }
        } else {
            let old_i = if k < list.len() && i - 1 >= k { i } else { i - 1 };
            assert(after[i] == list[old_i]);
        }
    }
}

/// Using an address twice is using it once.
pub proof fn use_twice_is_use_once(list: Seq<Contact>, address: Seq<char>)
    ensures
        fronted(fronted(list, address), address) == fronted(list, address),
{
    use_moves_to_the_front(list, address);
    let once = fronted(list, address);
    first_at_is(once, |c: Contact| c.address == address, 0);
    assert(seq![once[0]] + once.remove(0) =~= once);
}

/// The contacts that were not used keep their order: they follow the used
/// one as they were, up to the cut.
pub proof fn use_keeps_the_order_of_the_rest(list: Seq<Contact>, address: Seq<char>)
    requires
        distinct_addresses(list),
    ensures
        ({
            let rest = list.filter(|c: Contact| c.address != address);
            fronted(list, address).skip(1) == if rest.len() >= MAX_CONTACTS {
                rest.take(MAX_CONTACTS - 1)
            } else {
                rest
            }
        }),
{
    let p = |c: Contact| c.address == address;
    let keep = |c: Contact| c.address != address;
    first_at_found(list, p);
    let k = contact_at(list, address);
    if k < list.len() {
        assert forall|i: int| 0 <= i < list.len() && i != k implies keep(#[trigger] list[i]) by {
            assert(list[i].address != list[k].address);
        }
        filter_one_out(list, keep, k);
    } else {
        assert forall|i: int| 0 <= i < list.len() implies keep(#[trigger] list[i]) by {
            assert(!p(list[i]));
        }
        filter_all(list, keep);
    }
    let rest = list.filter(keep);
    if rest.len() >= MAX_CONTACTS {
        assert(fronted(list, address).skip(1) =~= rest.take(MAX_CONTACTS - 1));
    } else {
        assert(fronted(list, address).skip(1) =~= rest);
    }
}

/// Naming a contact changes neither the addresses nor their order.
pub proof fn naming_keeps_the_order(list: Seq<Contact>, address: Seq<char>, name: Seq<char>)
    ensures
        named(list, address, name).map_values(|c: Contact| c.address) == list.map_values(
            |c: Contact| c.address,
        ),
{
    first_at_found(list, |c: Contact| c.address == address);
    assert(named(list, address, name).map_values(|c: Contact| c.address) =~= list.map_values(
        |c: Contact| c.address,
    ));
}

/// A used address comes first. One that was listed takes nobody's place; a new
/// one comes without a name and moves the others back, and only a list of 20
/// loses its last.
pub proof fn only_a_full_list_forgets(list: Seq<Contact>, address: Seq<char>)
    requires
        list.len() <= 20,
    ensures
        (exists|k: int| 0 <= k < list.len() && (#[trigger] list[k]).address == address) ==> {
            &&& fronted(list, address).len() == list.len()
            &&& forall|i: int|
                0 <= i < list.len() ==> fronted(list, address).contains(#[trigger] list[i])
        },
        (forall|k: int| 0 <= k < list.len() ==> (#[trigger] list[k]).address != address) ==> {
            &&& fronted(list, address)[0].name.len() == 0
            &&& fronted(list, address)[0].address == address
            &&& fronted(list, address).skip(1) == list.take(
                if list.len() < 20 {
                    list.len() as int
                } else {
                    19
                },
            )
        },
{
    let here = |c: Contact| c.address == address;
    first_at_found(list, here);
    let k = contact_at(list, address);
    let all = fronted(list, address);
    if exists|q: int| 0 <= q < list.len() && (#[trigger] list[q]).address == address {
        let q = choose|q: int| 0 <= q < list.len() && (#[trigger] list[q]).address == address;
        assert(here(list[q]));
        assert(k < list.len());
        assert forall|i: int| 0 <= i < list.len() implies all.contains(#[trigger] list[i]) by {
            if i < k {
                assert(all[i + 1] == list[i]);
            } else if i == k {
                assert(all[0] == list[i]);
            } else {
                assert(all[i] == list[i]);
            }
        }
    }
    if forall|q: int| 0 <= q < list.len() ==> (#[trigger] list[q]).address != address {
        assert(k == list.len());
        assert(all.skip(1) =~= list.take(
            if list.len() < 20 {
                list.len() as int
            } else {
                19
            },
        ));
    }
}

/// Addresses that are used in turn may be used in two parts, and the last one
/// used is the first listed.
pub proof fn uses_follow_one_another(list: Seq<Contact>, a: Seq<String>, b: Seq<String>)
    ensures
        all_fronted(list, Seq::<String>::empty()) == list,
        all_fronted(list, a + b) == all_fronted(all_fronted(list, a), b),
        b.len() > 0 ==> all_fronted(list, a + b)[0].address == b.last()@,
    decreases b.len(),
{
    if b.len() == 0 {
        assert(a + b =~= a);
    } else {
        assert((a + b).drop_last() =~= a + b.drop_last());
        uses_follow_one_another(list, a, b.drop_last());
        use_moves_to_the_front(all_fronted(list, a + b.drop_last()), b.last()@);
    }
}

/// Naming gives the first contact of an address its name and changes no other
/// name; an address that is not listed changes nothing.
pub proof fn naming_names_one_contact(
    list: Seq<Contact>,
    address: Seq<char>,
    name: Seq<char>,
    i: int,
)
    requires
        0 <= i < list.len(),
    ensures
        named(list, address, name).len() == list.len(),
        named(list, address, name)[i].address == list[i].address,
        list[i].address == address && (forall|j: int|
            0 <= j < i ==> (#[trigger] list[j]).address != address) ==> named(
            list,
            address,
            name,
        )[i].name == name,
        list[i].address != address || (exists|j: int|
            0 <= j < i && (#[trigger] list[j]).address == address) ==> named(
            list,
            address,
            name,
        )[i] == list[i],
{
    let here = |c: Contact| c.address == address;
    first_at_found(list, here);
    let k = contact_at(list, address);
    if list[i].address == address && (forall|j: int|
        0 <= j < i ==> (#[trigger] list[j]).address != address) {
        first_at_is(list, here, i);
    }
    if exists|j: int| 0 <= j < i && (#[trigger] list[j]).address == address {
        let j = choose|j: int| 0 <= j < i && (#[trigger] list[j]).address == address;
        assert(here(list[j]));
    }
}

/// An address goes by the name of its first contact that has one, and by none
/// where no contact of it has.
pub proof fn contacts_go_by_their_first_name(list: Seq<Contact>, address: Seq<char>, k: int)
    requires
        0 <= k <= list.len(),
        forall|j: int|
            0 <= j < k ==> (#[trigger] list[j]).address != address || list[j].name.len() == 0,
        k < list.len() ==> list[k].address == address && list[k].name.len() > 0,
    ensures
        k < list.len() ==> name_of(list, address) == Some(list[k].name),
        k == list.len() ==> name_of(list, address) is None,
{
    first_at_is(list, |c: Contact| c.address == address && c.name.len() > 0, k);
}

/// A recipient is shown by the name it goes by and its short address, or by
/// the address alone; no address is oneself.
pub proof fn recipients_are_shown_by_name(list: Seq<Contact>, address: Seq<char>)
    ensures
        address.len() == 0 ==> to_label(list, address) == "to: self \u{2014} my notebook"@,
        address.len() > 0 && name_of(list, address) is None ==> to_label(list, address) == "to: "@
            + short_form(address),
        address.len() > 0 && name_of(list, address) is Some ==> to_label(list, address) == "to: "@
            + name_of(list, address)->0 + " ("@ + short_form(address) + ")"@,
{
}

/// The name and the address of a contact record are its own.
pub proof fn contact_records_are_taken_whole(list: Seq<ContactRec>)
    ensures
        contacts_in(list).len() == list.len(),
        forall|i: int|
            0 <= i < list.len() ==> {
                &&& (#[trigger] contacts_in(list)[i]).name == list[i].name@
                &&& contacts_in(list)[i].address == list[i].address@
            },
{
}

}
