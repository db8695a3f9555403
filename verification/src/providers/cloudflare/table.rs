//! The table of edge locations, as the JSON document in which it is served.

use crate::json::{decode_json, json_document, Json, Member};
use crate::providers::cloudflare::{LocationRecord, ResolveError};
use crate::text::{bytes_equal, copy_range};
use vstd::prelude::*;

verus! {

/// The key of a location's airport code, `iata`.
pub open spec fn iata_key() -> Seq<u8> {
    seq![105u8, 97u8, 116u8, 97u8]
}

/// The key of a location's city, `city`.
pub open spec fn city_key() -> Seq<u8> {
    seq![99u8, 105u8, 116u8, 121u8]
}

/// The text under `key` among the members of an object: the value of the
/// first member with this key, where it is a text.
pub open spec fn text_member(members: Seq<Member>, key: Seq<u8>) -> Option<Seq<u8>>
    decreases members.len(),
{
    if members.len() == 0 {
        None
    } else if members[0].key@ == key {
        match members[0].value {
            Json::Text(t) => Some(t@),
            _ => None,
        }
    } else {
        text_member(members.skip(1), key)
    }
}

/// The text under `key` among the members of an object.
pub fn member_text(members: &Vec<Member>, key: &[u8]) -> (r: Option<Vec<u8>>)
    ensures
        match text_member(members@, key@) {
            Some(t) => r matches Some(found) && found@ == t,
            None => r is None,
        },
{
    let mut i: usize = 0;
    proof {
        assert(members@.skip(0) =~= members@);
    }
    while i < members.len()
        invariant
            0 <= i <= members@.len(),
            text_member(members@, key@) == text_member(members@.skip(i as int), key@),
        decreases members@.len() - i,
    {
        proof {
            assert(members@.skip(i as int)[0] == members@[i as int]);
            assert(members@.skip(i as int).skip(1) =~= members@.skip(i + 1));
        }
        if bytes_equal(members[i].key.as_slice(), key) {
            match &members[i].value {
                Json::Text(t) => {
                    let found = copy_range(t.as_slice(), 0, t.len());
                    proof {
                        assert(t@.subrange(0, t@.len() as int) =~= t@);
                    }
                    return Some(found);
                },
                _ => {
                    return None;
                },
            }
        }
        i += 1;
    }
    None
}

/// The airport code and the city of one item of the location table, where the
/// item is an object that holds both as texts.
pub open spec fn record_of(item: Json) -> Option<(Seq<u8>, Seq<u8>)> {
    match item {
        Json::Object(members) => match (
            text_member(members@, iata_key()),
            text_member(members@, city_key()),
        ) {
            (Some(iata), Some(city)) => Some((iata, city)),
            _ => None,
        },
        _ => None,
    }
}

/// Every item gives a record.
pub open spec fn all_records(items: Seq<Json>) -> bool {
    forall|i: int| 0 <= i < items.len() ==> record_of(#[trigger] items[i]) is Some
}

/// `table` holds, in order, the record of each item.
pub open spec fn records_of(items: Seq<Json>, table: Seq<LocationRecord>) -> bool {
    &&& table.len() == items.len()
    &&& forall|i: int|
        0 <= i < items.len() ==> record_of(#[trigger] items[i]) == Some(
            (table[i].iata@, table[i].city@),
        )
}

/// `r` is what the document gives as a location table: the records of its
/// items where it is an array and every item gives one, and an error
/// otherwise.
pub open spec fn tabulates(doc: Json, r: Result<Vec<LocationRecord>, ResolveError>) -> bool {
    match doc {
        Json::Array(items) => if all_records(items@) {
            r matches Ok(table) && records_of(items@, table@)
        } else {
            r == Err::<Vec<LocationRecord>, ResolveError>(ResolveError::MalformedTable)
        },
        _ => r == Err::<Vec<LocationRecord>, ResolveError>(ResolveError::MalformedTable),
    }
}

/// Reads the location table from a JSON document: an array of objects, each
/// with the texts `iata` and `city`.
pub fn location_table(doc: &Json) -> (r: Result<Vec<LocationRecord>, ResolveError>)
    ensures
        tabulates(*doc, r),
{
    let items: &Vec<Json> = match doc {
        Json::Array(items) => items,
        _ => {
            return Err(ResolveError::MalformedTable);
        },
    };
    let iata_name: Vec<u8> = vec![105u8, 97u8, 116u8, 97u8];
    let city_name: Vec<u8> = vec![99u8, 105u8, 116u8, 121u8];
    proof {
        assert(iata_name@ =~= iata_key());
        assert(city_name@ =~= city_key());
    }
    let mut table: Vec<LocationRecord> = Vec::new();
    let mut i: usize = 0;
    while i < items.len()
        invariant
            0 <= i <= items@.len(),
            *doc == Json::Array(*items),
            iata_name@ == iata_key(),
            city_name@ == city_key(),
            table@.len() == i,
            forall|j: int|
                0 <= j < i ==> record_of(#[trigger] items@[j]) == Some(
                    (table@[j].iata@, table@[j].city@),
                ),
        decreases items@.len() - i,
    {
        let members: &Vec<Member> = match &items[i] {
            Json::Object(members) => members,
            _ => {
                proof {
                    assert(record_of(items@[i as int]) is None);
                }
                return Err(ResolveError::MalformedTable);
            },
        };
        let iata = match member_text(members, iata_name.as_slice()) {
            Some(v) => v,
            None => {
                proof {
                    assert(record_of(items@[i as int]) is None);
                }
                return Err(ResolveError::MalformedTable);
            },
        };
        let city = match member_text(members, city_name.as_slice()) {
            Some(v) => v,
            None => {
                proof {
                    assert(record_of(items@[i as int]) is None);
                }
                return Err(ResolveError::MalformedTable);
            },
        };
        table.push(LocationRecord { iata, city });
        i += 1;
    }
    Ok(table)
}

/// Reads the location table from its JSON text.
pub fn parse_location_table(text: &str) -> (r: Result<Vec<LocationRecord>, ResolveError>)
    ensures
        match json_document(text@) {
            Some(doc) => tabulates(doc, r),
            None => r == Err::<Vec<LocationRecord>, ResolveError>(ResolveError::MalformedTable),
        },
{
    match decode_json(text) {
        Some(doc) => location_table(&doc),
        None => Err(ResolveError::MalformedTable),
    }
}

} // verus!
