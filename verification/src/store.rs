//! What is stored of listings, and what every scrape, verdict and detail page
//! makes of it.
use crate::listing::{
    first_text, or_else, ExtractedAttrs, Flag, Listing, ListingDetail, ListingStatus, Moderation,
    PricePoint, PropertyType, Seller, SellerKind, Timestamp,
};
use crate::double::Double;
use crate::search::{Search, SearchRequest};
use crate::text::{
    lemma_filter_push, lemma_text_total, lemma_text_transitive, lists, same_text, text_before, texts,
};
use std::collections::HashMap;
use vstd::arithmetic::power2::{lemma_pow2_pos, lemma_pow2_unfold, pow2};
use vstd::prelude::*;
use vstd::string::StringExecFns;

verus! {

/// Why stored data could not be used.
#[derive(Debug, Clone, PartialEq)]
pub enum StoreError {
    NotFound,
    Corrupt(String),
}

impl StoreError {
    pub open spec fn message_text(self) -> Seq<char> {
        match self {
            StoreError::NotFound => "not found"@,
            StoreError::Corrupt(why) => "invalid stored data: "@ + why@,
        }
    }

    pub fn message(&self) -> (r: String)
        ensures
            r@ == self.message_text(),
    {
        match self {
            StoreError::NotFound => "not found".to_owned(),
            StoreError::Corrupt(why) => "invalid stored data: ".to_owned().concat(why.as_str()),
        }
    }
}

// ---------------------------------------------------------------------------
// Columns

pub open spec fn property_type_column(t: PropertyType) -> Seq<char> {
    match t {
        PropertyType::House => "house"@,
        PropertyType::Apartment => "apartment"@,
        PropertyType::Land => "land"@,
        PropertyType::Other => "other"@,
    }
}

pub fn property_type_str(t: PropertyType) -> (r: &'static str)
    ensures
        r@ == property_type_column(t),
{
    match t {
        PropertyType::House => "house",
        PropertyType::Apartment => "apartment",
        PropertyType::Land => "land",
        PropertyType::Other => "other",
    }
}

/// The type that a column names; what it does not know is "other".
pub open spec fn property_type_named(s: Seq<char>) -> PropertyType {
    if s == "house"@ {
        PropertyType::House
    } else if s == "apartment"@ {
        PropertyType::Apartment
    } else if s == "land"@ {
        PropertyType::Land
    } else {
        PropertyType::Other
    }
}

pub fn property_type_from(s: &str) -> (r: PropertyType)
    ensures
        r == property_type_named(s@),
{
    if same_text(s, "house") {
        PropertyType::House
    } else if same_text(s, "apartment") {
        PropertyType::Apartment
    } else if same_text(s, "land") {
        PropertyType::Land
    } else {
        PropertyType::Other
    }
}

/// A stored property type reads back as it was.
pub proof fn law_property_type_reads_back(t: PropertyType)
    ensures
        property_type_named(property_type_column(t)) == t,
{
    reveal_strlit("house");
    reveal_strlit("apartment");
    reveal_strlit("land");
    reveal_strlit("other");
    assert("house"@[0] != "apartment"@[0]);
    assert("house"@[0] != "land"@[0]);
    assert("house"@[0] != "other"@[0]);
    assert("apartment"@[0] != "land"@[0]);
    assert("apartment"@[0] != "other"@[0]);
    assert("land"@[0] != "other"@[0]);
}

pub open spec fn moderation_column(m: Moderation) -> Seq<char> {
    match m {
        Moderation::Unmoderated => "none"@,
        Moderation::Dismissed => "dismissed"@,
        Moderation::Banned => "banned"@,
    }
}

pub fn moderation_str(m: Moderation) -> (r: &'static str)
    ensures
        r@ == moderation_column(m),
{
    match m {
        Moderation::Unmoderated => "none",
        Moderation::Dismissed => "dismissed",
        Moderation::Banned => "banned",
    }
}

pub open spec fn moderation_named(s: Seq<char>) -> Moderation {
    if s == "dismissed"@ {
        Moderation::Dismissed
    } else if s == "banned"@ {
        Moderation::Banned
    } else {
        Moderation::Unmoderated
    }
}

pub fn moderation_from(s: &str) -> (r: Moderation)
    ensures
        r == moderation_named(s@),
{
    if same_text(s, "dismissed") {
        Moderation::Dismissed
    } else if same_text(s, "banned") {
        Moderation::Banned
    } else {
        Moderation::Unmoderated
    }
}

/// A stored verdict reads back as it was.
pub proof fn law_moderation_reads_back(m: Moderation)
    ensures
        moderation_named(moderation_column(m)) == m,
{
    reveal_strlit("none");
    reveal_strlit("dismissed");
    reveal_strlit("banned");
    assert("none"@[0] != "dismissed"@[0]);
    assert("none"@[0] != "banned"@[0]);
    assert("banned"@[0] != "dismissed"@[0]);
}

pub open spec fn status_column(s: ListingStatus) -> Seq<char> {
    match s {
        ListingStatus::Active => "active"@,
        ListingStatus::Gone => "gone"@,
    }
}

pub fn status_str(s: ListingStatus) -> (r: &'static str)
    ensures
        r@ == status_column(s),
{
    match s {
        ListingStatus::Active => "active",
        ListingStatus::Gone => "gone",
    }
}

pub fn status_from(s: &str) -> (r: ListingStatus)
    ensures
        r == if s@ == "gone"@ {
            ListingStatus::Gone
        } else {
            ListingStatus::Active
        },
{
    if same_text(s, "gone") {
        ListingStatus::Gone
    } else {
        ListingStatus::Active
    }
}

/// The three columns of a seller: name, kind, SIREN.
pub struct SellerColumns {
    pub name: Option<String>,
    pub kind: Option<String>,
    pub siren: Option<String>,
}

pub open spec fn seller_kind_column(k: SellerKind) -> Seq<char> {
    match k {
        SellerKind::Pro => "pro"@,
        SellerKind::Private => "private"@,
    }
}

/// The columns hold the seller; all are empty where there is none.
pub open spec fn holds_seller(c: SellerColumns, s: Option<Seller>) -> bool {
    match s {
        Some(seller) => c.name == seller.name && c.siren == seller.siren && c.kind is Some
            && c.kind->0@ == seller_kind_column(seller.kind),
        None => c.name is None && c.kind is None && c.siren is None,
    }
}

pub fn seller_cols(s: &Option<Seller>) -> (r: SellerColumns)
    ensures
        holds_seller(r, *s),
{
    match s {
        Some(seller) => SellerColumns {
            name: seller.name.clone(),
            kind: Some(
                match seller.kind {
                    SellerKind::Pro => "pro".to_owned(),
                    SellerKind::Private => "private".to_owned(),
                },
            ),
            siren: seller.siren.clone(),
        },
        None => SellerColumns { name: None, kind: None, siren: None },
    }
}

/// The seller that the columns describe: none where the kind is unknown.
pub open spec fn seller_in(c: SellerColumns) -> Option<Seller> {
    match c.kind {
        Some(k) => if k@ == "pro"@ {
            Some(Seller { kind: SellerKind::Pro, name: c.name, siren: c.siren })
        } else if k@ == "private"@ {
            Some(Seller { kind: SellerKind::Private, name: c.name, siren: c.siren })
        } else {
            None
        },
        None => None,
    }
}

pub fn seller_of(c: SellerColumns) -> (r: Option<Seller>)
    ensures
        r == seller_in(c),
{
    match &c.kind {
        Some(k) => if same_text(k.as_str(), "pro") {
            Some(Seller { kind: SellerKind::Pro, name: c.name, siren: c.siren })
        } else if same_text(k.as_str(), "private") {
            Some(Seller { kind: SellerKind::Private, name: c.name, siren: c.siren })
        } else {
            None
        },
        None => None,
    }
}

/// A stored seller reads back as it was.
pub proof fn law_seller_reads_back(s: Option<Seller>, c: SellerColumns)
    requires
        holds_seller(c, s),
    ensures
        seller_in(c) == s,
{
    reveal_strlit("pro");
    reveal_strlit("private");
    assert("pro"@.len() != "private"@.len());
}

pub uninterp spec fn uuid_value(text: Seq<char>) -> Result<u128, Seq<char>>;

/// `uuid::Uuid::parse_str`, with the 128 bits of what it gives, or the text of
/// its error. The name `uuid_value` stands for either.
#[verifier::external_body]
fn uuid_bits(text: &str) -> (r: Result<u128, String>)
    ensures
        match r {
            Ok(bits) => uuid_value(text@) == Ok::<u128, Seq<char>>(bits),
            Err(why) => uuid_value(text@) == Err::<u128, Seq<char>>(why@),
        },
{
    uuid::Uuid::parse_str(text).map(|u| u.as_u128()).map_err(|e| e.to_string())
}

/// A hexadecimal digit in lower case.
pub open spec fn hex_lower(d: int) -> char {
    if d < 10 {
        (48 + d) as u8 as char
    } else {
        (87 + d) as u8 as char
    }
}

/// The bits of a UUID as text: 32 hexadecimal digits, in groups of 8, 4, 4, 4
/// and 12 with hyphens between them.
pub open spec fn uuid_text(id: u128) -> Seq<char> {
    Seq::new(
        36,
        |i: int|
            if i == 8 || i == 13 || i == 18 || i == 23 {
                '-'
            } else {
                let hyphens: int = if i < 8 {
                    0
                } else if i < 13 {
                    1
                } else if i < 18 {
                    2
                } else if i < 23 {
                    3
                } else {
                    4
                };
                hex_lower(id as int / pow2((4 * (31 - (i - hyphens))) as nat) as int % 16)
            },
    )
}

/// `uuid::Uuid::from_u128` as text, in the hyphenated form. `Uuid::parse_str`
/// gives the bits back.
#[verifier::external_body]
fn hyphenated(id: u128) -> (r: String)
    ensures
        r@ == uuid_text(id),
        uuid_value(r@) is Ok,
        uuid_value(r@)->Ok_0 == id,
{
    uuid::Uuid::from_u128(id).to_string()
}

/// An id as its column holds it; it reads back as it was.
pub fn id_column(id: u128) -> (r: String)
    ensures
        r@ == uuid_text(id),
        uuid_value(r@) is Ok,
        uuid_value(r@)->Ok_0 == id,
{
    hyphenated(id)
}

pub uninterp spec fn rfc3339_value(text: Seq<char>) -> Result<Timestamp, Seq<char>>;

/// `chrono::DateTime::parse_from_rfc3339`, with the point in time that it
/// gives, or the text of its error. The name `rfc3339_value` stands for either.
#[verifier::external_body]
fn rfc3339_time(text: &str) -> (r: Result<Timestamp, String>)
    ensures
        match r {
            Ok(t) => rfc3339_value(text@) == Ok::<Timestamp, Seq<char>>(t),
            Err(why) => rfc3339_value(text@) == Err::<Timestamp, Seq<char>>(why@),
        },
{
    match chrono::DateTime::parse_from_rfc3339(text) {
        Ok(t) => Ok(Timestamp { secs: t.timestamp(), nanos: t.timestamp_subsec_nanos() }),
        Err(e) => Err(e.to_string()),
    }
}

pub uninterp spec fn rfc3339_text(t: Timestamp) -> Option<Seq<char>>;

/// A point in time from 1970 up to the end of the year 9999, outside a leap
/// second.
pub open spec fn is_ordinary(t: Timestamp) -> bool {
    0 <= t.secs < 253_402_300_800 && t.nanos < 1_000_000_000
}

/// `chrono::DateTime::from_timestamp` with `to_rfc3339`: a point in time as text,
/// which the name `rfc3339_text` stands for; nothing where the calendar does not
/// reach. An ordinary time has a text, and `parse_from_rfc3339` gives the time
/// back.
#[verifier::external_body]
fn time_text(t: Timestamp) -> (r: Option<String>)
    ensures
        match r {
            Some(text) => rfc3339_text(t) == Some(text@),
            None => rfc3339_text(t) is None,
        },
        is_ordinary(t) ==> r is Some && rfc3339_value(r->0@) is Ok && rfc3339_value(r->0@)->Ok_0
            == t,
{
    chrono::DateTime::from_timestamp(t.secs, t.nanos).map(|t| t.to_rfc3339())
}

/// A point in time as its column holds it; an ordinary one reads back as it was.
pub fn time_column(t: Timestamp) -> (r: Option<String>)
    ensures
        match r {
            Some(text) => rfc3339_text(t) == Some(text@),
            None => rfc3339_text(t) is None,
        },
        is_ordinary(t) ==> r is Some && rfc3339_value(r->0@) is Ok && rfc3339_value(r->0@)->Ok_0
            == t,
{
    time_text(t)
}

pub uninterp spec fn json_texts(text: Seq<char>) -> Result<Seq<Seq<char>>, Seq<char>>;

/// `serde_json::from_str` into a `Vec<String>`: the texts of a JSON array, or the
/// text of the error. The name `json_texts` stands for either.
#[verifier::external_body]
fn text_list(text: &str) -> (r: Result<Vec<String>, String>)
    ensures
        match r {
            Ok(list) => json_texts(text@) == Ok::<Seq<Seq<char>>, Seq<char>>(texts(list@)),
            Err(why) => json_texts(text@) == Err::<Seq<Seq<char>>, Seq<char>>(why@),
        },
{
    serde_json::from_str(text).map_err(|e: serde_json::Error| e.to_string())
}

pub uninterp spec fn texts_json(list: Seq<Seq<char>>) -> Seq<char>;

/// `serde_json::to_string` on a list of texts, which never fails there: a JSON
/// array, which the name `texts_json` stands for. `serde_json::from_str` gives
/// the texts back.
#[verifier::external_body]
fn list_text(list: &Vec<String>) -> (r: String)
    ensures
        r@ == texts_json(texts(list@)),
        json_texts(r@) is Ok,
        json_texts(r@)->Ok_0 == texts(list@),
{
    serde_json::to_string(list).expect("texts serialize")
}

/// The locations of a search as their column holds them; they read back as they
/// were.
pub fn locations_column(locations: &Vec<String>) -> (r: String)
    ensures
        r@ == texts_json(texts(locations@)),
        json_texts(r@) is Ok,
        json_texts(r@)->Ok_0 == texts(locations@),
{
    list_text(locations)
}

pub uninterp spec fn debug_text(text: Seq<char>) -> Seq<char>;

/// The `Debug` form of a string, in quotes and escaped, by `format!`. The name
/// `debug_text` stands for it.
#[verifier::external_body]
pub(crate) fn quoted(text: &str) -> (r: String)
    ensures
        r@ == debug_text(text@),
{
    format!("{:?}", text)
}

/// What is said of a column that does not parse.
pub open spec fn bad_column(what: Seq<char>, text: Seq<char>, why: Seq<char>) -> Seq<char> {
    "bad "@ + what + " "@ + debug_text(text) + ": "@ + why
}

fn bad_column_error(what: &str, text: &str, why: &str) -> (r: StoreError)
    ensures
        r is Corrupt,
        r->Corrupt_0@ == bad_column(what@, text@, why@),
{
    let q = quoted(text);
    StoreError::Corrupt(
        "bad ".to_owned().concat(what).concat(" ").concat(q.as_str()).concat(": ").concat(why),
    )
}

pub fn parse_uuid(s: &str) -> (r: Result<u128, StoreError>)
    ensures
        match uuid_value(s@) {
            Ok(bits) => r == Ok::<u128, StoreError>(bits),
            Err(why) => r is Err && r->Err_0 is Corrupt && r->Err_0->Corrupt_0@ == bad_column(
                "uuid"@,
                s@,
                why,
            ),
        },
{
    match uuid_bits(s) {
        Ok(bits) => Ok(bits),
        Err(why) => Err(bad_column_error("uuid", s, why.as_str())),
    }
}

pub fn parse_ts(s: &str) -> (r: Result<Timestamp, StoreError>)
    ensures
        match rfc3339_value(s@) {
            Ok(t) => r == Ok::<Timestamp, StoreError>(t),
            Err(why) => r is Err && r->Err_0 is Corrupt && r->Err_0->Corrupt_0@ == bad_column(
                "timestamp"@,
                s@,
                why,
            ),
        },
{
    match rfc3339_time(s) {
        Ok(t) => Ok(t),
        Err(why) => Err(bad_column_error("timestamp", s, why.as_str())),
    }
}

/// A row of the listings table. The columns that hold JSON come decoded, or
/// with the text of the error.
pub struct ListingRow {
    pub id: String,
    pub source_id: String,
    pub canonical_url: String,
    pub title: String,
    pub price_cents: i64,
    pub property_type: String,
    pub surface_m2: Option<Double>,
    pub rooms: Option<i64>,
    pub bedrooms: Option<i64>,
    pub land_m2: Option<Double>,
    pub commune: Option<String>,
    pub postal_code: Option<String>,
    pub lat: Option<Double>,
    pub lng: Option<Double>,
    pub dpe: Option<String>,
    pub ges: Option<String>,
    pub sell_type: Option<String>,
    pub description: Option<String>,
    pub address: Option<String>,
    pub seller: SellerColumns,
    pub attributes: Result<ExtractedAttrs, String>,
    pub flags: Result<Vec<Flag>, String>,
    pub status: String,
    pub moderation: String,
    pub first_seen: String,
    pub last_seen: String,
}

/// The listing that a row without a fault holds.
pub open spec fn row_listing(row: ListingRow) -> Listing {
    Listing {
        id: uuid_value(row.id@)->Ok_0,
        source_id: row.source_id,
        canonical_url: row.canonical_url,
        title: row.title,
        price_cents: row.price_cents,
        property_type: property_type_named(row.property_type@),
        surface_m2: row.surface_m2,
        rooms: row.rooms,
        bedrooms: row.bedrooms,
        land_m2: row.land_m2,
        commune: row.commune,
        postal_code: row.postal_code,
        lat: row.lat,
        lng: row.lng,
        dpe: row.dpe,
        ges: row.ges,
        sell_type: row.sell_type,
        description: row.description,
        address: row.address,
        seller: seller_in(row.seller),
        attributes: row.attributes->Ok_0,
        flags: row.flags->Ok_0,
        status: if row.status@ == "gone"@ {
            ListingStatus::Gone
        } else {
            ListingStatus::Active
        },
        moderation: moderation_named(row.moderation@),
        first_seen: rfc3339_value(row.first_seen@)->Ok_0,
        last_seen: rfc3339_value(row.last_seen@)->Ok_0,
    }
}

/// The first fault of a row: its flags, its id, its attributes, then the two
/// points in time.
pub open spec fn row_fault(row: ListingRow) -> Option<Seq<char>> {
    if row.flags is Err {
        Some("bad flags: "@ + row.flags->Err_0@)
    } else if uuid_value(row.id@) is Err {
        Some(bad_column("uuid"@, row.id@, uuid_value(row.id@)->Err_0))
    } else if row.attributes is Err {
        Some("bad attributes: "@ + row.attributes->Err_0@)
    } else if rfc3339_value(row.first_seen@) is Err {
        Some(bad_column("timestamp"@, row.first_seen@, rfc3339_value(row.first_seen@)->Err_0))
    } else if rfc3339_value(row.last_seen@) is Err {
        Some(bad_column("timestamp"@, row.last_seen@, rfc3339_value(row.last_seen@)->Err_0))
    } else {
        None
    }
}

pub fn row_to_listing(row: ListingRow) -> (r: Result<Listing, StoreError>)
    ensures
        match row_fault(row) {
            None => r == Ok::<Listing, StoreError>(row_listing(row)),
            Some(why) => r is Err && r->Err_0 is Corrupt && r->Err_0->Corrupt_0@ == why,
        },
{
    let status = status_from(row.status.as_str());
    let moderation = moderation_from(row.moderation.as_str());
    let flags = match row.flags {
        Ok(f) => f,
        Err(why) => {
            return Err(StoreError::Corrupt("bad flags: ".to_owned().concat(why.as_str())));
        },
    };
    let id: u128 = match parse_uuid(row.id.as_str()) {
        Ok(v) => v,
        Err(e) => {
            return Err(e);
        },
    };
    let attributes = match row.attributes {
        Ok(a) => a,
        Err(why) => {
            return Err(StoreError::Corrupt("bad attributes: ".to_owned().concat(why.as_str())));
        },
    };
    let first_seen = match parse_ts(row.first_seen.as_str()) {
        Ok(v) => v,
        Err(e) => {
            return Err(e);
        },
    };
    let last_seen = match parse_ts(row.last_seen.as_str()) {
        Ok(v) => v,
        Err(e) => {
            return Err(e);
        },
    };
    Ok(
        Listing {
            id,
            source_id: row.source_id,
            canonical_url: row.canonical_url,
            title: row.title,
            price_cents: row.price_cents,
            property_type: property_type_from(row.property_type.as_str()),
            surface_m2: row.surface_m2,
            rooms: row.rooms,
            bedrooms: row.bedrooms,
            land_m2: row.land_m2,
            commune: row.commune,
            postal_code: row.postal_code,
            lat: row.lat,
            lng: row.lng,
            dpe: row.dpe,
            ges: row.ges,
            sell_type: row.sell_type,
            description: row.description,
            address: row.address,
            seller: seller_of(row.seller),
            attributes,
            flags,
            status,
            moderation,
            first_seen,
            last_seen,
        },
    )
}

/// A row of the searches table. The property types come decoded, or with the
/// text of the error.
pub struct SearchRow {
    pub id: String,
    pub name: String,
    pub locations: String,
    pub max_price_cents: Option<i64>,
    pub min_surface_m2: Option<Double>,
    pub min_rooms: Option<i64>,
    pub property_types: Result<Vec<PropertyType>, String>,
    pub active: bool,
    pub created_at: String,
}

pub open spec fn search_row_fault(row: SearchRow) -> Option<Seq<char>> {
    if uuid_value(row.id@) is Err {
        Some(bad_column("uuid"@, row.id@, uuid_value(row.id@)->Err_0))
    } else if json_texts(row.locations@) is Err {
        Some("bad locations: "@ + json_texts(row.locations@)->Err_0)
    } else if row.property_types is Err {
        Some("bad property_types: "@ + row.property_types->Err_0@)
    } else if rfc3339_value(row.created_at@) is Err {
        Some(bad_column("timestamp"@, row.created_at@, rfc3339_value(row.created_at@)->Err_0))
    } else {
        None
    }
}

/// The search that a row without a fault holds.
pub open spec fn holds_search(row: SearchRow, search: Search) -> bool {
    &&& texts(search.locations@) == json_texts(row.locations@)->Ok_0
    &&& search == Search {
        id: uuid_value(row.id@)->Ok_0,
        name: row.name,
        locations: search.locations,
        max_price_cents: row.max_price_cents,
        min_surface_m2: row.min_surface_m2,
        min_rooms: row.min_rooms,
        property_types: row.property_types->Ok_0,
        active: row.active,
        created_at: rfc3339_value(row.created_at@)->Ok_0,
    }
}

/// Searches with the same fields, their locations and types the same ones.
pub open spec fn same_search(a: Search, b: Search) -> bool {
    &&& texts(a.locations@) == texts(b.locations@)
    &&& a.property_types@ == b.property_types@
    &&& a == Search { locations: a.locations, property_types: a.property_types, ..b }
}

/// The row of a search; nothing where the calendar does not reach its creation.
/// The row of a search that was created at an ordinary time has no fault, and
/// what it holds is that search.
pub fn search_to_row(search: &Search) -> (r: Option<SearchRow>)
    ensures
        r is Some <==> rfc3339_text(search.created_at) is Some,
        r matches Some(row) ==> {
            &&& row.id@ == uuid_text(search.id)
            &&& row.name == search.name
            &&& row.locations@ == texts_json(texts(search.locations@))
            &&& row.max_price_cents == search.max_price_cents
            &&& row.min_surface_m2 == search.min_surface_m2
            &&& row.min_rooms == search.min_rooms
            &&& row.property_types is Ok && row.property_types->Ok_0@ == search.property_types@
            &&& row.active == search.active
            &&& Some(row.created_at@) == rfc3339_text(search.created_at)
        },
        is_ordinary(search.created_at) ==> {
            &&& r is Some
            &&& search_row_fault(r->0) is None
            &&& forall|back: Search| #[trigger]
                holds_search(r->0, back) ==> same_search(back, *search)
        },
{
    let created_at = match time_column(search.created_at) {
        Some(t) => t,
        None => {
            return None;
        },
    };
    let mut property_types: Vec<PropertyType> = Vec::new();
    let mut i: usize = 0;
    while i < search.property_types.len()
        invariant
            i <= search.property_types@.len(),
            property_types@ == search.property_types@.take(i as int),
        decreases search.property_types@.len() - i,
    {
        property_types.push(search.property_types[i]);
        proof {
            assert(property_types@ =~= search.property_types@.take(i as int + 1));
        }
        i = i + 1;
    }
    proof {
        assert(property_types@ =~= search.property_types@);
    }
    Some(
        SearchRow {
            id: id_column(search.id),
            name: search.name.clone(),
            locations: locations_column(&search.locations),
            max_price_cents: search.max_price_cents,
            min_surface_m2: search.min_surface_m2,
            min_rooms: search.min_rooms,
            property_types: Ok(property_types),
            active: search.active,
            created_at,
        },
    )
}

/// Reads a search out of its row.
pub fn row_to_search(row: SearchRow) -> (r: Result<Search, StoreError>)
    ensures
        match search_row_fault(row) {
            None => r is Ok && holds_search(row, r->Ok_0),
            Some(why) => r is Err && r->Err_0 is Corrupt && r->Err_0->Corrupt_0@ == why,
        },
{
    let id: u128 = match parse_uuid(row.id.as_str()) {
        Ok(v) => v,
        Err(e) => {
            return Err(e);
        },
    };
    let locations = match text_list(row.locations.as_str()) {
        Ok(l) => l,
        Err(why) => {
            return Err(StoreError::Corrupt("bad locations: ".to_owned().concat(why.as_str())));
        },
    };
    let property_types = match row.property_types {
        Ok(p) => p,
        Err(why) => {
            return Err(StoreError::Corrupt("bad property_types: ".to_owned().concat(why.as_str())));
        },
    };
    let created_at = match parse_ts(row.created_at.as_str()) {
        Ok(v) => v,
        Err(e) => {
            return Err(e);
        },
    };
    Ok(
        Search {
            id,
            name: row.name,
            locations,
            max_price_cents: row.max_price_cents,
            min_surface_m2: row.min_surface_m2,
            min_rooms: row.min_rooms,
            property_types,
            active: row.active,
            created_at,
        },
    )
}

/// The search that a request creates.
pub fn search_from_request(req: SearchRequest, id: u128, now: Timestamp) -> (r: Search)
    ensures
        r == (Search {
            id,
            name: req.name,
            locations: req.locations,
            max_price_cents: req.max_price_cents,
            min_surface_m2: req.min_surface_m2,
            min_rooms: req.min_rooms,
            property_types: req.property_types,
            active: req.active,
            created_at: now,
        }),
{
    Search {
        id,
        name: req.name,
        locations: req.locations,
        max_price_cents: req.max_price_cents,
        min_surface_m2: req.min_surface_m2,
        min_rooms: req.min_rooms,
        property_types: req.property_types,
        active: req.active,
        created_at: now,
    }
}

// ---------------------------------------------------------------------------
// Upserts

#[derive(Debug, Clone, Copy, PartialEq, Eq, Structural)]
pub enum UpsertOutcome {
    New,
    PriceChanged { old_price_cents: i64 },
    Unchanged,
}

/// The verdict on a listing that a scrape sees again: a dismissal clears when
/// the listing had gone, everything else stays.
pub open spec fn verdict_on_return(stored: Listing) -> Moderation {
    if stored.status == ListingStatus::Gone && stored.moderation == Moderation::Dismissed {
        Moderation::Unmoderated
    } else {
        stored.moderation
    }
}

/// A stored listing with what a scrape says of it now. Its identity, its first
/// sighting and its attributes stay. A description and an address once known
/// stay; a seller is replaced whole.
pub open spec fn merged(stored: Listing, scraped: Listing) -> Listing {
    Listing {
        id: stored.id,
        first_seen: stored.first_seen,
        status: ListingStatus::Active,
        moderation: verdict_on_return(stored),
        description: or_else(stored.description, scraped.description),
        address: or_else(stored.address, scraped.address),
        seller: or_else(scraped.seller, stored.seller),
        attributes: stored.attributes,
        ..scraped
    }
}

pub open spec fn upserted(existing: Option<Listing>, scraped: Listing) -> (Listing, UpsertOutcome) {
    match existing {
        None => (Listing { status: ListingStatus::Active, ..scraped }, UpsertOutcome::New),
        Some(stored) => (
            merged(stored, scraped),
            if stored.price_cents != scraped.price_cents {
                UpsertOutcome::PriceChanged { old_price_cents: stored.price_cents }
            } else {
                UpsertOutcome::Unchanged
            },
        ),
    }
}

fn prefer<T>(first: Option<T>, second: Option<T>) -> (r: Option<T>)
    ensures
        r == or_else(first, second),
{
    match first {
        Some(v) => Some(v),
        None => second,
    }
}

/// What to store of a scraped listing, given what is stored of the same source
/// and URL: revives gone listings, clears a dismissal on return (bans stick).
pub fn upsert_listing(existing: Option<Listing>, listing: Listing) -> (r: (Listing, UpsertOutcome))
    ensures
        r == upserted(existing, listing),
{
    match existing {
        None => (Listing { status: ListingStatus::Active, ..listing }, UpsertOutcome::New),
        Some(stored) => {
            let outcome = if stored.price_cents != listing.price_cents {
                UpsertOutcome::PriceChanged { old_price_cents: stored.price_cents }
            } else {
                UpsertOutcome::Unchanged
            };
            let moderation = match (stored.status, stored.moderation) {
                (ListingStatus::Gone, Moderation::Dismissed) => Moderation::Unmoderated,
                _ => stored.moderation,
            };
            let listing = Listing {
                id: stored.id,
                first_seen: stored.first_seen,
                status: ListingStatus::Active,
                moderation,
                description: prefer(stored.description, listing.description),
                address: prefer(stored.address, listing.address),
                seller: prefer(listing.seller, stored.seller),
                attributes: stored.attributes,
                ..listing
            };
            (listing, outcome)
        },
    }
}

impl UpsertOutcome {
    /// The price is new: it goes into the history.
    pub open spec fn is_news(self) -> bool {
        self != UpsertOutcome::Unchanged
    }

    /// Why the listing is to be enriched, if it is.
    pub open spec fn reason(self) -> Option<Seq<char>> {
        match self {
            UpsertOutcome::New => Some("new"@),
            UpsertOutcome::PriceChanged { .. } => Some("price-change"@),
            UpsertOutcome::Unchanged => None,
        }
    }

    /// Does the price go into the history?
    pub fn records_price(self) -> (r: bool)
        ensures
            r == self.is_news(),
    {
        self != UpsertOutcome::Unchanged
    }

    /// Why the listing is to be enriched, if it is.
    pub fn enrichment_reason(self) -> (r: Option<&'static str>)
        ensures
            match r {
                Some(why) => self.reason() == Some(why@),
                None => self.reason() is None,
            },
    {
        match self {
            UpsertOutcome::New => Some("new"),
            UpsertOutcome::PriceChanged { .. } => Some("price-change"),
            UpsertOutcome::Unchanged => None,
        }
    }
}

/// A ban survives everything a scrape says; a dismissal survives it as long as
/// the listing was not gone, and clears when it was.
pub proof fn law_verdicts_on_return(stored: Listing, scraped: Listing)
    ensures
        stored.moderation == Moderation::Banned ==> merged(stored, scraped).moderation
            == Moderation::Banned,
        stored.moderation == Moderation::Dismissed ==> (merged(stored, scraped).moderation
            == Moderation::Dismissed <==> stored.status == ListingStatus::Active),
        stored.moderation == Moderation::Unmoderated ==> merged(stored, scraped).moderation
            == Moderation::Unmoderated,
{
}

/// A scrape revives the listing, and never clears a description, an address or
/// a seller that is known, nor the attributes.
pub proof fn law_scrapes_lose_nothing(stored: Listing, scraped: Listing)
    ensures
        merged(stored, scraped).status == ListingStatus::Active,
        merged(stored, scraped).attributes == stored.attributes,
        stored.description is Some ==> merged(stored, scraped).description == stored.description,
        stored.address is Some ==> merged(stored, scraped).address == stored.address,
        stored.seller is Some ==> merged(stored, scraped).seller is Some,
        merged(stored, scraped).seller == scraped.seller || merged(stored, scraped).seller
            == stored.seller,
{
}

/// A price is recorded exactly when it differs from the one stored, or nothing
/// is stored, and exactly then the listing is enriched: seeing the same listing
/// again does neither.
pub proof fn law_every_new_price_is_recorded(existing: Option<Listing>, scraped: Listing)
    ensures
        ({
            let (stored, outcome) = upserted(existing, scraped);
            let (again, second) = upserted(Some(stored), scraped);
            &&& stored.price_cents == scraped.price_cents
            &&& outcome.is_news() <==> (existing is None || existing->0.price_cents
                != scraped.price_cents)
            &&& outcome.reason() is Some <==> outcome.is_news()
            &&& !second.is_news() && second.reason() is None
            &&& again.id == stored.id && again.first_seen == stored.first_seen
        }),
{
}

// ---------------------------------------------------------------------------
// Price history

/// The days and prices of a history.
pub open spec fn observations(history: Seq<PricePoint>) -> Seq<(Seq<char>, i64)> {
    history.map_values(|p: PricePoint| (p.day@, p.price_cents))
}

/// Some observation has this day.
pub open spec fn observed_on(history: Seq<(Seq<char>, i64)>, day: Seq<char>, i: int) -> bool {
    let (d, price) = history[i];
    0 <= i < history.len() && d == day
}

/// No two observations have the same day.
pub open spec fn one_per_day(history: Seq<(Seq<char>, i64)>) -> bool {
    forall|i: int, j: int|
        0 <= i < j < history.len() ==> {
            let (a, x) = #[trigger] history[i];
            let (b, y) = #[trigger] history[j];
            a != b
        }
}

/// The price of a day is recorded: in place of that day's price where there is
/// one, else behind the others.
pub open spec fn recorded(
    before: Seq<(Seq<char>, i64)>,
    after: Seq<(Seq<char>, i64)>,
    day: Seq<char>,
    price_cents: i64,
) -> bool {
    ||| exists|i: int|
        #[trigger] observed_on(before, day, i) && (forall|j: int|
            0 <= j < i ==> !observed_on(before, day, j)) && after == before.update(
            i,
            (day, price_cents),
        )
    ||| (forall|i: int| !observed_on(before, day, i)) && after == before.push((day, price_cents))
}

/// Records the price of a day.
pub fn record_price(history: &mut Vec<PricePoint>, day: &str, price_cents: i64)
    ensures
        recorded(
            observations(old(history)@),
            observations(final(history)@),
            day@,
            price_cents,
        ),
{
    let ghost before = observations(history@);
    let mut i: usize = 0;
    while i < history.len()
        invariant
            i <= history@.len(),
            history@ == old(history)@,
            before == observations(history@),
            forall|j: int| 0 <= j < i ==> !observed_on(before, day@, j),
        decreases history@.len() - i,
    {
        if same_text(history[i].day.as_str(), day) {
            proof {
                assert(observed_on(before, day@, i as int));
            }
            history.set(i, PricePoint { day: day.to_owned(), price_cents });
            proof {
                assert(observations(history@) =~= before.update(i as int, (day@, price_cents)));
            }
            return;
        }
        proof {
            assert(before[i as int] == (history@[i as int].day@, history@[i as int].price_cents));
        }
        i = i + 1;
    }
    history.push(PricePoint { day: day.to_owned(), price_cents });
    proof {
        assert(observations(history@) =~= before.push((day@, price_cents)));
    }
}

/// Recording a price keeps at most one observation per day, makes it the one
/// of its day, and leaves those of other days as they are.
pub proof fn law_latest_price_of_a_day_wins(
    before: Seq<(Seq<char>, i64)>,
    after: Seq<(Seq<char>, i64)>,
    day: Seq<char>,
    price_cents: i64,
)
    requires
        one_per_day(before),
        recorded(before, after, day, price_cents),
    ensures
        one_per_day(after),
        after.contains((day, price_cents)),
        forall|d: Seq<char>, p: i64|
            d != day ==> (#[trigger] after.contains((d, p)) <==> before.contains((d, p))),
{
    if exists|i: int| #[trigger] observed_on(before, day, i) {
        let i = choose|i: int|
            #[trigger] observed_on(before, day, i) && (forall|j: int|
                0 <= j < i ==> !observed_on(before, day, j)) && after == before.update(
                i,
                (day, price_cents),
            );
        assert(after[i] == (day, price_cents));
        assert forall|a: int, b: int| 0 <= a < b < after.len() implies {
            let (x, p) = #[trigger] after[a];
            let (y, q) = #[trigger] after[b];
            x != y
        } by {
            let (x, p) = before[a];
            let (y, q) = before[b];
            assert(x != y);
        }
        assert forall|d: Seq<char>, p: i64| d != day implies (#[trigger] after.contains((d, p))
            <==> before.contains((d, p))) by {
            if after.contains((d, p)) {
                let k = choose|k: int| 0 <= k < after.len() && after[k] == (d, p);
                assert(before[k] == (d, p));
            }
            if before.contains((d, p)) {
                let k = choose|k: int| 0 <= k < before.len() && before[k] == (d, p);
                assert(after[k] == (d, p));
            }
        }
    } else {
        assert(after[before.len() as int] == (day, price_cents));
        assert forall|a: int, b: int| 0 <= a < b < after.len() implies {
            let (x, p) = #[trigger] after[a];
            let (y, q) = #[trigger] after[b];
            x != y
        } by {
            let (x, p) = before[a];
            if b < before.len() {
                let (y, q) = before[b];
                assert(x != y);
            } else {
                assert(!observed_on(before, day, a));
            }
        }
        assert forall|d: Seq<char>, p: i64| d != day implies (#[trigger] after.contains((d, p))
            <==> before.contains((d, p))) by {
            if after.contains((d, p)) {
                let k = choose|k: int| 0 <= k < after.len() && after[k] == (d, p);
                assert(before[k] == (d, p));
            }
            if before.contains((d, p)) {
                let k = choose|k: int| 0 <= k < before.len() && before[k] == (d, p);
                assert(after[k] == (d, p));
            }
        }
    }
}

/// The days of a history follow one another.
pub open spec fn in_day_order(history: Seq<(Seq<char>, i64)>) -> bool {
    forall|i: int, j: int|
        0 <= i < j < history.len() ==> {
            let (a, x) = #[trigger] history[i];
            let (b, y) = #[trigger] history[j];
            text_before(a, b)
        }
}

/// A history by day that ends with the price.
pub open spec fn ends_with(history: Seq<(Seq<char>, i64)>, price_cents: i64) -> bool {
    let (day, price) = history.last();
    history.len() > 0 && in_day_order(history) && price == price_cents
}

/// The history of a listing always ends with its price: a scrape that finds
/// another price records it, on the day of the latest observation or a later
/// one, and a scrape that does not leaves the history as it is.
pub proof fn law_histories_end_with_the_price(
    existing: Option<Listing>,
    scraped: Listing,
    before: Seq<(Seq<char>, i64)>,
    after: Seq<(Seq<char>, i64)>,
    day: Seq<char>,
)
    requires
        match existing {
            Some(stored) => {
                let (latest, price) = before.last();
                ends_with(before, stored.price_cents) && !text_before(day, latest)
            },
            None => before.len() == 0,
        },
        if upserted(existing, scraped).1.is_news() {
            recorded(before, after, day, upserted(existing, scraped).0.price_cents)
        } else {
            after == before
        },
    ensures
        ends_with(after, upserted(existing, scraped).0.price_cents),
{
    let price = scraped.price_cents;
    assert(upserted(existing, scraped).0.price_cents == price);
    if upserted(existing, scraped).1.is_news() {
        if exists|i: int| #[trigger] observed_on(before, day, i) {
            let i = choose|i: int|
                #[trigger] observed_on(before, day, i) && (forall|j: int|
                    0 <= j < i ==> !observed_on(before, day, j)) && after == before.update(
                    i,
                    (day, price),
                );
            let last = before.len() - 1;
            let (latest, p) = before[last];
            if i < last {
                let (d, x) = before[i];
                assert(text_before(d, latest));
            }
            assert forall|a: int, b: int| 0 <= a < b < after.len() implies {
                let (x, p) = #[trigger] after[a];
                let (y, q) = #[trigger] after[b];
                text_before(x, y)
            } by {
                let (x, p) = before[a];
                let (y, q) = before[b];
                assert(text_before(x, y));
            }
        } else {
            assert forall|a: int, b: int| 0 <= a < b < after.len() implies {
                let (x, p) = #[trigger] after[a];
                let (y, q) = #[trigger] after[b];
                text_before(x, y)
            } by {
                let last = before.len() - 1;
                let (x, p) = before[a];
                let (latest, r) = before[last];
                if b < before.len() {
                    let (y, q) = before[b];
                    assert(text_before(x, y));
                } else {
                    assert(!observed_on(before, day, last));
                    lemma_text_total(day, latest);
                    if a < last {
                        assert(text_before(x, latest));
                        lemma_text_transitive(x, latest, day);
                    }
                }
            }
        }
    }
}

/// The rows of one listing, in order.
pub open spec fn rows_of<T>(rows: Seq<(u128, T)>, id: u128) -> Seq<T> {
    rows.filter(belongs_to::<T>(id)).map_values(item_in::<T>())
}

/// Is this a row of the listing?
pub open spec fn belongs_to<T>(id: u128) -> spec_fn((u128, T)) -> bool {
    |row: (u128, T)| row.0 == id
}

/// What a row holds besides the listing's id.
pub open spec fn item_in<T>() -> spec_fn((u128, T)) -> T {
    |row: (u128, T)| row.1
}

/// Rows grouped by listing, each group in the order of the rows.
pub open spec fn grouped<T>(groups: Map<u128, Vec<T>>, rows: Seq<(u128, T)>) -> bool {
    &&& forall|id: u128| #[trigger] groups.contains_key(id) <==> rows_of(rows, id).len() > 0
    &&& forall|id: u128| groups.contains_key(id) ==> (#[trigger] groups[id])@ == rows_of(rows, id)
}

proof fn lemma_rows_push<T>(rows: Seq<(u128, T)>, row: (u128, T), id: u128)
    ensures
        rows_of(rows.push(row), id) == if row.0 == id {
            rows_of(rows, id).push(row.1)
        } else {
            rows_of(rows, id)
        },
{
    let pick = belongs_to::<T>(id);
    let item = item_in::<T>();
    lemma_filter_push(rows, row, pick);
    if row.0 == id {
        assert(rows.filter(pick).push(row).map_values(item) =~= rows.filter(pick).map_values(
            item,
        ).push(row.1));
    }
}

/// Groups rows (price observations, photos) by their listing.
pub fn group_by_listing<T>(rows: Vec<(u128, T)>) -> (r: HashMap<u128, Vec<T>>)
    ensures
        grouped(r@, rows@),
{
    broadcast use vstd::std_specs::hash::group_hash_axioms;

    let mut groups: HashMap<u128, Vec<T>> = HashMap::new();
    let ghost all = rows@;
    proof {
        assert forall|id: u128| rows_of(all.take(0), id).len() == 0 by {
            reveal(Seq::filter);
        }
    }
    for row in it: rows
        invariant
            it.seq() == all,
            grouped(groups@, all.take(it.index())),
    {
        broadcast use vstd::std_specs::hash::group_hash_axioms;

        let ghost done = all.take(it.index());
        let ghost before = groups@;
        let (id, item) = row;
        proof {
            assert(all.take(it.index() + 1) == done.push((id, item)));
            assert forall|k: u128| true implies #[trigger] rows_of(done.push((id, item)), k)
                == if id == k {
                rows_of(done, k).push(item)
            } else {
                rows_of(done, k)
            } by {
                lemma_rows_push(done, (id, item), k);
            }
        }
        let mut group = match groups.remove(&id) {
            Some(g) => g,
            None => Vec::new(),
        };
        proof {
            assert(group@ =~= rows_of(done, id));
        }
        group.push(item);
        groups.insert(id, group);
        proof {
            assert forall|k: u128| #[trigger] groups@.contains_key(k) <==> rows_of(
                done.push((id, item)),
                k,
            ).len() > 0 by {
                assert(k != id ==> (groups@.contains_key(k) <==> before.contains_key(k)));
            }
        }
    }
    proof {
        assert(all.take(all.len() as int) == all);
    }
    groups
}

// ---------------------------------------------------------------------------
// Lifecycle and verdicts

/// The listings of a source that a full scrape no longer sees.
pub open spec fn unseen(
    active: Seq<(u128, Seq<char>)>,
    seen: Seq<Seq<char>>,
) -> Seq<(u128, Seq<char>)> {
    active.filter(|row: (u128, Seq<char>)| !seen.contains(row.1))
}

pub open spec fn url_rows(rows: Seq<(u128, String)>) -> Seq<(u128, Seq<char>)> {
    rows.map_values(|row: (u128, String)| (row.0, row.1@))
}

/// The active listings of a source that go gone: those whose URL a full scrape
/// has not seen.
pub fn mark_gone(active: &Vec<(u128, String)>, seen: &Vec<String>) -> (r: Vec<u128>)
    ensures
        r@ == unseen(url_rows(active@), texts(seen@)).map_values(
            |row: (u128, Seq<char>)| row.0,
        ),
{
    let mut gone: Vec<u128> = Vec::new();
    let ghost rows = url_rows(active@);
    let ghost urls = texts(seen@);
    let ghost pick = |row: (u128, Seq<char>)| !urls.contains(row.1);
    let ghost id = |row: (u128, Seq<char>)| row.0;
    proof {
        reveal(Seq::filter);
        assert(rows.take(0).filter(pick).map_values(id) =~= gone@);
    }
    let mut i: usize = 0;
    while i < active.len()
        invariant
            i <= active@.len(),
            rows == url_rows(active@),
            urls == texts(seen@),
            pick == (|row: (u128, Seq<char>)| !urls.contains(row.1)),
            id == (|row: (u128, Seq<char>)| row.0),
            gone@ == rows.take(i as int).filter(pick).map_values(id),
        decreases active@.len() - i,
    {
        let ghost row = rows[i as int];
        proof {
            lemma_filter_push(rows.take(i as int), row, pick);
            assert(rows.take(i as int).push(row) == rows.take(i as int + 1));
            assert(rows.take(i as int).filter(pick).push(row).map_values(id) =~= rows.take(
                i as int,
            ).filter(pick).map_values(id).push(row.0));
        }
        if !lists(seen, active[i].1.as_str()) {
            gone.push(active[i].0);
        }
        i = i + 1;
    }
    proof {
        assert(rows.take(active@.len() as int) == rows);
        assert(unseen(rows, urls) == rows.filter(pick));
    }
    gone
}

/// The outcome of a verdict on a listing, given how many rows it changed:
/// whether the listing's matches are dropped.
pub fn set_moderation(rows_affected: u64, moderation: Moderation) -> (r: Result<bool, StoreError>)
    ensures
        r == if rows_affected == 0 {
            Err::<bool, StoreError>(StoreError::NotFound)
        } else {
            Ok(moderation != Moderation::Unmoderated)
        },
{
    if rows_affected == 0 {
        return Err(StoreError::NotFound);
    }
    Ok(moderation != Moderation::Unmoderated)
}

/// Does the list of hidden listings, or the other one, show this verdict?
pub fn is_listed(moderation: Moderation, hidden: bool) -> (r: bool)
    ensures
        r == (hidden == (moderation != Moderation::Unmoderated)),
{
    hidden == (moderation != Moderation::Unmoderated)
}

/// One listing was seen later than another.
pub open spec fn newer(a: Listing, b: Listing) -> bool {
    a.last_seen.secs > b.last_seen.secs || (a.last_seen.secs == b.last_seen.secs
        && a.last_seen.nanos > b.last_seen.nanos)
}

fn is_newer(a: &Listing, b: &Listing) -> (r: bool)
    ensures
        r == newer(*a, *b),
{
    a.last_seen.secs > b.last_seen.secs || (a.last_seen.secs == b.last_seen.secs
        && a.last_seen.nanos > b.last_seen.nanos)
}

/// Does a list show the listing: the one of hidden listings or the other one,
/// and of all listings or of those with these ids?
pub open spec fn is_shown(matched: Option<Seq<u128>>, hidden: bool) -> spec_fn(Listing) -> bool {
    |l: Listing|
        hidden == (l.moderation != Moderation::Unmoderated) && (matched matches Some(ids)
            ==> ids.contains(l.id))
}

/// The listings that a list shows.
pub open spec fn shown(
    listings: Seq<Listing>,
    matched: Option<Seq<u128>>,
    hidden: bool,
) -> Seq<Listing> {
    listings.filter(is_shown(matched, hidden))
}

/// Was the listing last seen at this time?
pub open spec fn seen_at(time: Timestamp) -> spec_fn(Listing) -> bool {
    |l: Listing| l.last_seen == time
}

/// The same listings by when they were last seen, the latest first; those that
/// were seen at the same time stay in order.
pub open spec fn newest_first(out: Seq<Listing>, listings: Seq<Listing>) -> bool {
    &&& forall|i: int, j: int|
        0 <= i < j < out.len() ==> !newer(#[trigger] out[j], #[trigger] out[i])
    &&& forall|time: Timestamp|
        #[trigger] out.filter(seen_at(time)) == listings.filter(seen_at(time))
    &&& out.to_multiset() == listings.to_multiset()
}

/// The ids that a search has matched, where a search is chosen.
pub open spec fn ids_of(matched: Option<&Vec<u128>>) -> Option<Seq<u128>> {
    match matched {
        Some(ids) => Some(ids@),
        None => None,
    }
}

fn lists_id(ids: &Vec<u128>, id: u128) -> (r: bool)
    ensures
        r == ids@.contains(id),
{
    let mut i: usize = 0;
    while i < ids.len()
        invariant
            i <= ids@.len(),
            forall|k: int| 0 <= k < i ==> ids@[k] != id,
        decreases ids@.len() - i,
    {
        if ids[i] == id {
            return true;
        }
        i = i + 1;
    }
    false
}

/// No listing of these was seen at the time.
proof fn lemma_none_at(s: Seq<Listing>, time: Timestamp)
    requires
        forall|i: int| 0 <= i < s.len() ==> (#[trigger] s[i]).last_seen != time,
    ensures
        s.filter(seen_at(time)) == Seq::<Listing>::empty(),
    decreases s.len(),
{
    if s.len() > 0 {
        let init = s.drop_last();
        assert forall|i: int| 0 <= i < init.len() implies (#[trigger] init[i]).last_seen
            != time by {
            assert(init[i] == s[i]);
        }
        lemma_none_at(init, time);
        lemma_filter_push(init, s.last(), seen_at(time));
        assert(init.push(s.last()) =~= s);
        assert(s[s.len() - 1].last_seen != time);
    } else {
        reveal(Seq::filter);
    }
}

/// A listing before older ones only is, among those of any one time, the last.
proof fn lemma_insert_at_time(s: Seq<Listing>, p: int, x: Listing, time: Timestamp)
    requires
        0 <= p <= s.len(),
        forall|i: int| p <= i < s.len() ==> newer(x, #[trigger] s[i]),
    ensures
        s.insert(p, x).filter(seen_at(time)) == s.push(x).filter(seen_at(time)),
{
    let pick = seen_at(time);
    let head = s.take(p);
    let tail = s.skip(p);
    assert(s =~= head + tail);
    assert(s.insert(p, x) =~= head.push(x) + tail);
    Seq::filter_distributes_over_add(head.push(x), tail, pick);
    Seq::filter_distributes_over_add(head, tail, pick);
    lemma_filter_push(head, x, pick);
    lemma_filter_push(s, x, pick);
    if x.last_seen == time {
        assert forall|i: int| 0 <= i < tail.len() implies (#[trigger] tail[i]).last_seen
            != time by {
            assert(tail[i] == s[p + i]);
        }
        lemma_none_at(tail, time);
        assert(head.filter(pick).push(x) + tail.filter(pick) =~= (head.filter(pick) + tail.filter(
            pick,
        )).push(x));
    }
}

/// Puts a listing in its place by when it was last seen, behind those of the
/// same time.
fn insert_by_time(list: &mut Vec<Listing>, x: Listing, Ghost(all): Ghost<Seq<Listing>>)
    requires
        newest_first(old(list)@, all),
    ensures
        newest_first(final(list)@, all.push(x)),
{
    let ghost before = list@;
    let mut p: usize = list.len();
    while p > 0 && is_newer(&x, &list[p - 1])
        invariant
            p <= list@.len(),
            list@ == before,
            forall|i: int| p <= i < list@.len() ==> newer(x, #[trigger] list@[i]),
        decreases p,
    {
        p = p - 1;
    }
    list.insert(p, x);
    proof {
        assert(list@ =~= before.insert(p as int, x));
        vstd::seq_lib::to_multiset_insert(before, p as int, x);
        vstd::seq_lib::to_multiset_build(all, x);
        assert forall|time: Timestamp| #[trigger] list@.filter(seen_at(time)) == all.push(x).filter(
            seen_at(time),
        ) by {
            lemma_insert_at_time(before, p as int, x, time);
            lemma_filter_push(before, x, seen_at(time));
            lemma_filter_push(all, x, seen_at(time));
            assert(before.filter(seen_at(time)) == all.filter(seen_at(time)));
        }
        assert forall|i: int, j: int| 0 <= i < j < list@.len() implies !newer(
            #[trigger] list@[j],
            #[trigger] list@[i],
        ) by {
            if j < p {
                assert(!newer(before[j], before[i]));
            } else if j == p {
                assert(!newer(x, before[p - 1]));
                if i < p - 1 {
                    assert(!newer(before[p - 1], before[i]));
                }
            } else if i < p {
                assert(!newer(before[j - 1], before[i]));
            } else if i == p {
                assert(newer(x, before[j - 1]));
            } else {
                assert(!newer(before[j - 1], before[i - 1]));
            }
        }
    }
}

/// The listings that are not hidden, or only those that are: all of them or
/// those that a search has matched, the latest seen first.
pub fn list_listings(listings: Vec<Listing>, matched: Option<&Vec<u128>>, hidden: bool) -> (r: Vec<
    Listing,
>)
    ensures
        newest_first(r@, shown(listings@, ids_of(matched), hidden)),
{
    let ghost all = listings@;
    let ghost pick = is_shown(ids_of(matched), hidden);
    let mut r: Vec<Listing> = Vec::new();
    proof {
        reveal(Seq::filter);
        assert(all.take(0).filter(pick) =~= r@);
    }
    for l in it: listings
        invariant
            it.seq() == all,
            pick == is_shown(ids_of(matched), hidden),
            newest_first(r@, all.take(it.index()).filter(pick)),
    {
        let ghost done = all.take(it.index());
        proof {
            lemma_filter_push(done, l, pick);
            assert(all.take(it.index() + 1) =~= done.push(l));
        }
        let chosen: bool = match matched {
            Some(ids) => lists_id(ids, l.id),
            None => true,
        };
        if is_listed(l.moderation, hidden) && chosen {
            insert_by_time(&mut r, l, Ghost(done.filter(pick)));
        }
    }
    proof {
        assert(all.take(all.len() as int) =~= all);
    }
    r
}

/// Is the listing one of these?
pub open spec fn has_id(ids: Seq<u128>) -> spec_fn(Listing) -> bool {
    |l: Listing| ids.contains(l.id)
}

/// The list of hidden listings and the other one share none, and together they
/// hold every listing once; the other one holds exactly those without a verdict.
/// The list of a search holds exactly those of the whole list that the search
/// has matched.
pub proof fn law_two_lists_hold_every_listing_once(
    listings: Seq<Listing>,
    ids: Seq<u128>,
    hidden: bool,
)
    ensures
        shown(listings, None, false).to_multiset().add(shown(listings, None, true).to_multiset())
            == listings.to_multiset(),
        forall|i: int|
            0 <= i < shown(listings, None, hidden).len() ==> hidden == ((#[trigger] shown(
                listings,
                None,
                hidden,
            )[i]).moderation != Moderation::Unmoderated),
        shown(listings, Some(ids), hidden) == shown(listings, None, hidden).filter(has_id(ids)),
    decreases listings.len(),
{
    broadcast use vstd::seq_lib::group_filter_ensures;

    let whole = is_shown(None, hidden);
    assert forall|i: int| 0 <= i < shown(listings, None, hidden).len() implies hidden == ((
    #[trigger] shown(listings, None, hidden)[i]).moderation != Moderation::Unmoderated) by {
        assert(whole(shown(listings, None, hidden)[i]));
    }
    if listings.len() == 0 {
        reveal(Seq::filter);
        assert(shown(listings, None, false) =~= listings);
        assert(shown(listings, None, true) =~= listings);
        assert(shown(listings, None, hidden) =~= listings);
        assert(shown(listings, Some(ids), hidden) =~= listings);
        assert(listings.filter(has_id(ids)) =~= listings);
        assert(listings =~= Seq::<Listing>::empty());
        assert(shown(listings, None, false).to_multiset().add(
            shown(listings, None, true).to_multiset(),
        ) =~= listings.to_multiset()) by {
            broadcast use vstd::seq_lib::group_to_multiset_ensures;

        }
    } else {
        let init = listings.drop_last();
        let x = listings.last();
        law_two_lists_hold_every_listing_once(init, ids, hidden);
        assert(init.push(x) =~= listings);
        lemma_filter_push(init, x, is_shown(None, false));
        lemma_filter_push(init, x, is_shown(None, true));
        lemma_filter_push(init, x, is_shown(Some(ids), hidden));
        lemma_filter_push(shown(init, None, hidden), x, has_id(ids));
        vstd::seq_lib::to_multiset_build(init, x);
        vstd::seq_lib::to_multiset_build(shown(init, None, false), x);
        vstd::seq_lib::to_multiset_build(shown(init, None, true), x);
        assert(shown(listings, None, false).to_multiset().add(
            shown(listings, None, true).to_multiset(),
        ) =~= listings.to_multiset());
    }
}

// ---------------------------------------------------------------------------
// Enrichment

/// A photo as it is stored.
#[derive(Debug, Clone, PartialEq)]
pub struct DbImage {
    pub position: i64,
    pub url: String,
    /// Where the photo lies below the images directory, once it is there.
    pub local_path: Option<String>,
}

/// What the enrichment worker decides its steps by.
#[derive(Debug, Clone, PartialEq)]
pub struct EnrichState {
    pub listing: Listing,
    /// The detail page has been fetched (or there is none).
    pub enriched_at: Option<Timestamp>,
    /// The present description has been read.
    pub extracted_at: Option<Timestamp>,
}

/// A listing that waits for enrichment.
#[derive(Debug, Clone, PartialEq)]
pub struct QueueItem {
    pub reason: String,
    pub attempts: u32,
    pub next_attempt_at: Timestamp,
    pub last_error: Option<String>,
}

/// Puts a listing in the queue, due now. A listing that waits already keeps
/// the attempts it has behind it. Says whether the detail page must be fetched
/// again: after a change of price, since the description may have changed.
pub fn enqueue_enrichment(waiting: Option<QueueItem>, reason: &str, now: Timestamp) -> (r: (
    QueueItem,
    bool,
))
    ensures
        r.0.reason@ == reason@,
        r.0.next_attempt_at == now,
        match waiting {
            Some(item) => r.0.attempts == item.attempts && r.0.last_error == item.last_error,
            None => r.0.attempts == 0 && r.0.last_error is None,
        },
        r.1 == (reason@ == "price-change"@),
{
    let (attempts, last_error): (u32, Option<String>) = match waiting {
        Some(item) => (item.attempts, item.last_error),
        None => (0, None),
    };
    (
        QueueItem { reason: reason.to_owned(), attempts, next_attempt_at: now, last_error },
        same_text(reason, "price-change"),
    )
}

/// A base doubled some times, up to a cap.
pub open spec fn doubled(base: nat, times: nat, cap: nat) -> nat {
    if base * pow2(times) <= cap {
        base * pow2(times)
    } else {
        cap
    }
}

/// A base doubled some times, up to a cap.
pub fn double_up_to(base: u64, times: u32, cap: u64) -> (r: u64)
    requires
        0 < base <= cap,
        cap <= 0x7FFF_FFFF_FFFF_FFFF,
    ensures
        r == doubled(base as nat, times as nat, cap as nat),
{
    let mut v: u64 = base;
    let mut i: u32 = 0;
    proof {
        vstd::arithmetic::power2::lemma2_to64();
        assert(base as nat * pow2(0) == base) by (nonlinear_arith)
            requires
                pow2(0) == 1,
        ;
    }
    while i < times && v < cap
        invariant
            i <= times,
            0 < base <= cap,
            v <= cap,
            cap <= 0x7FFF_FFFF_FFFF_FFFF,
            v == doubled(base as nat, i as nat, cap as nat),
        decreases times - i,
    {
        proof {
            lemma_pow2_unfold((i + 1) as nat);
            let p = pow2(i as nat);
            assert(pow2((i + 1) as nat) == 2 * p);
            assert(base as nat * (2 * p) == 2 * (base as nat * p)) by (nonlinear_arith);
        }
        v = if v * 2 <= cap {
            v * 2
        } else {
            cap
        };
        i = i + 1;
    }
    proof {
        if i < times {
            lemma_doubled_monotone(base as nat, i as nat, times as nat, cap as nat);
        }
    }
    v
}

/// Doubling more often never gives less.
pub proof fn lemma_doubled_monotone(base: nat, a: nat, b: nat, cap: nat)
    requires
        a <= b,
    ensures
        doubled(base, a, cap) <= doubled(base, b, cap) <= cap,
{
    lemma_pow2_monotone(a, b);
    assert(base * pow2(a) <= base * pow2(b)) by (nonlinear_arith)
        requires
            pow2(a) <= pow2(b),
    ;
}

proof fn lemma_pow2_monotone(a: nat, b: nat)
    requires
        a <= b,
    ensures
        pow2(a) <= pow2(b),
{
    if a < b {
        vstd::arithmetic::power2::lemma_pow2_strictly_increases(a, b);
    }
}

/// The backoff after a number of failed attempts: a minute, doubled with every
/// further one, up to six hours.
pub open spec fn enrichment_backoff(attempts: int) -> nat {
    doubled(60, (attempts - 1) as nat, 21600)
}

/// What to do with a listing in the queue after a failure.
#[derive(Debug, Clone, Copy, PartialEq, Eq, Structural)]
pub enum Retry {
    /// Take it out of the queue.
    GiveUp,
    /// Try again after the backoff.
    Later { attempts: u32, backoff_secs: u64 },
}

/// A failed attempt: exponential backoff, and out of the queue at the cap on
/// attempts. `attempts` is how many came before; nothing where the listing is
/// not in the queue any more.
pub open spec fn retried(attempts: Option<u32>, max_attempts: u32) -> Retry {
    match attempts {
        None => Retry::GiveUp,
        Some(n) => if n + 1 >= max_attempts {
            Retry::GiveUp
        } else {
            Retry::Later {
                attempts: (n + 1) as u32,
                backoff_secs: enrichment_backoff(n + 1) as u64,
            }
        },
    }
}

/// What becomes of a listing after a failed attempt.
pub fn enrichment_failed(attempts: Option<u32>, max_attempts: u32) -> (r: Retry)
    requires
        attempts matches Some(n) ==> n < u32::MAX,
    ensures
        r == retried(attempts, max_attempts),
{
    match attempts {
        None => Retry::GiveUp,
        Some(n) => {
            let next: u32 = n + 1;
            if next >= max_attempts {
                Retry::GiveUp
            } else {
                Retry::Later { attempts: next, backoff_secs: double_up_to(60, n, 21600) }
            }
        },
    }
}

/// The backoff starts at a minute, never shrinks and never passes six hours.
pub proof fn law_enrichment_backs_off(n: nat, m: nat)
    requires
        1 <= n <= m,
    ensures
        enrichment_backoff(1) == 60,
        60 <= enrichment_backoff(n as int) <= enrichment_backoff(m as int) <= 21600,
{
    vstd::arithmetic::power2::lemma2_to64();
    lemma_doubled_monotone(60, 0, (n - 1) as nat, 21600);
    lemma_doubled_monotone(60, (n - 1) as nat, (m - 1) as nat, 21600);
}

/// The attempts that a listing has behind it after some failures in a row;
/// nothing once it is out of the queue.
pub open spec fn attempts_after(failures: nat, max_attempts: u32) -> Option<u32>
    decreases failures,
{
    if failures == 0 {
        Some(0)
    } else {
        match retried(attempts_after((failures - 1) as nat, max_attempts), max_attempts) {
            Retry::GiveUp => None,
            Retry::Later { attempts, .. } => Some(attempts),
        }
    }
}

/// A listing that keeps failing is tried as often as the cap says, once at
/// least, and then leaves the queue for good.
pub proof fn law_failing_listings_leave_the_queue(failures: nat, max_attempts: u32)
    ensures
        attempts_after(failures, max_attempts) == if failures == 0 || failures < max_attempts {
            Some(failures as u32)
        } else {
            None
        },
    decreases failures,
{
    if failures > 0 {
        law_failing_listings_leave_the_queue((failures - 1) as nat, max_attempts);
    }
}

/// A seller with what a detail page says of it: what is unset never clears
/// what is stored.
pub open spec fn seller_with(stored: Option<Seller>, found: Option<Seller>) -> Option<Seller> {
    match (stored, found) {
        (Some(s), Some(f)) => Some(
            Seller { kind: f.kind, name: or_else(f.name, s.name), siren: or_else(f.siren, s.siren) },
        ),
        _ => or_else(found, stored),
    }
}

/// The description is one that was not stored before.
pub open spec fn description_changes(stored: Option<String>, found: Option<String>) -> bool {
    found matches Some(f) && !(stored matches Some(s) && s@ == f@)
}

/// A state with what a detail page says: what the page leaves unset never
/// clears a stored value, what it states structurally wins over what is stored,
/// and a changed description is to be read again.
pub open spec fn detailed(
    after: EnrichState,
    before: EnrichState,
    found: ListingDetail,
    now: Timestamp,
) -> bool {
    let l = before.listing;
    &&& after.listing.attributes.filled(found.attributes, l.attributes)
    &&& after.listing == Listing {
        description: or_else(found.description, l.description),
        address: or_else(found.address, l.address),
        seller: seller_with(l.seller, found.seller),
        attributes: after.listing.attributes,
        ..l
    }
    &&& after.enriched_at == Some(now)
    &&& after.extracted_at == if description_changes(l.description, found.description) {
        None
    } else {
        before.extracted_at
    }
}

/// Merges a detail page into the state of a listing. Says whether the
/// description changed.
pub fn set_detail(state: EnrichState, detail: &ListingDetail, now: Timestamp) -> (r: (
    EnrichState,
    bool,
))
    ensures
        detailed(r.0, state, *detail, now),
        r.1 == description_changes(state.listing.description, detail.description),
{
    let changed = match &detail.description {
        Some(found) => match &state.listing.description {
            Some(stored) => !same_text(stored.as_str(), found.as_str()),
            None => true,
        },
        None => false,
    };
    let mut attributes = detail.attributes.duplicate();
    attributes.fill_gaps_from(&state.listing.attributes);
    let found_seller: Option<Seller> = match &detail.seller {
        Some(s) => Some(s.duplicate()),
        None => None,
    };
    let stored = state.listing;
    let seller = match (stored.seller, found_seller) {
        (Some(s), Some(f)) => Some(
            Seller { kind: f.kind, name: prefer(f.name, s.name), siren: prefer(f.siren, s.siren) },
        ),
        (Some(s), None) => Some(s),
        (None, f) => f,
    };
    let description = first_text(&detail.description, &stored.description);
    let address = first_text(&detail.address, &stored.address);
    let listing = Listing { description, address, seller, attributes, ..stored };
    let extracted_at = if changed {
        None
    } else {
        state.extracted_at
    };
    (EnrichState { listing, enriched_at: Some(now), extracted_at }, changed)
}

/// A detail page never clears a description, an address or a seller.
pub proof fn law_details_clear_nothing(
    before: EnrichState,
    after: EnrichState,
    found: ListingDetail,
    now: Timestamp,
)
    requires
        detailed(after, before, found, now),
    ensures
        before.listing.description is Some ==> after.listing.description is Some,
        before.listing.address is Some ==> after.listing.address is Some,
        before.listing.seller is Some ==> after.listing.seller is Some,
        found.description is None ==> after.extracted_at == before.extracted_at,
        after.listing.price_cents == before.listing.price_cents,
        after.listing.moderation == before.listing.moderation,
{
}

/// The attributes after the description has been read: what is stored wins
/// over what was read out of the prose, which covers the rest.
pub fn set_attributes(state: EnrichState, found: &ExtractedAttrs, now: Timestamp) -> (r: EnrichState)
    ensures
        r.listing.attributes.filled(state.listing.attributes, *found),
        r.listing == (Listing { attributes: r.listing.attributes, ..state.listing }),
        r.enriched_at == state.enriched_at,
        r.extracted_at == Some(now),
{
    let stored = state.listing;
    let mut attributes = stored.attributes.duplicate();
    attributes.fill_gaps_from(found);
    EnrichState {
        listing: Listing { attributes, ..stored },
        enriched_at: state.enriched_at,
        extracted_at: Some(now),
    }
}

/// The positions and addresses of photos.
pub open spec fn photo_texts(rows: Seq<(i64, String)>) -> Seq<(i64, Seq<char>)> {
    rows.map_values(|row: (i64, String)| (row.0, row.1@))
}

/// The photos to add for the first `n` URLs: those that are neither stored nor
/// added already, each at the position that counts the URLs not stored before
/// it, behind the stored ones.
pub open spec fn photos_to_add(
    stored: Seq<Seq<char>>,
    start: int,
    urls: Seq<Seq<char>>,
) -> Seq<(i64, Seq<char>)>
    decreases urls.len(),
{
    if urls.len() == 0 {
        Seq::empty()
    } else {
        let before = photos_to_add(stored, start, urls.drop_last());
        let url = urls.last();
        if stored.contains(url) || urls.drop_last().contains(url) {
            before
        } else {
            let position = start + unknown_count(stored, urls.drop_last());
            before.push((position as i64, url))
        }
    }
}

/// How many of the URLs are not stored.
pub open spec fn unknown_count(stored: Seq<Seq<char>>, urls: Seq<Seq<char>>) -> nat
    decreases urls.len(),
{
    if urls.len() == 0 {
        0
    } else if stored.contains(urls.last()) {
        unknown_count(stored, urls.drop_last())
    } else {
        unknown_count(stored, urls.drop_last()) + 1
    }
}

/// The position behind all stored photos.
pub open spec fn next_position(stored: Seq<DbImage>) -> int
    decreases stored.len(),
{
    if stored.len() == 0 {
        0
    } else {
        let before = next_position(stored.drop_last());
        let here = stored.last().position + 1;
        if stored.len() == 1 || here > before {
            here
        } else {
            before
        }
    }
}

/// The addresses of stored photos.
pub open spec fn image_urls_of(images: Seq<DbImage>) -> Seq<Seq<char>> {
    images.map_values(|i: DbImage| i.url@)
}

fn after_last(stored: &Vec<DbImage>) -> (r: i64)
    requires
        forall|i: int| 0 <= i < stored@.len() ==> (#[trigger] stored@[i]).position < i64::MAX,
    ensures
        r == next_position(stored@),
{
    let mut next: i64 = 0;
    let mut i: usize = 0;
    proof {
        assert(stored@.take(0) =~= Seq::<DbImage>::empty());
    }
    while i < stored.len()
        invariant
            i <= stored@.len(),
            forall|i: int| 0 <= i < stored@.len() ==> (#[trigger] stored@[i]).position < i64::MAX,
            next == next_position(stored@.take(i as int)),
        decreases stored@.len() - i,
    {
        proof {
            assert(stored@[i as int].position < i64::MAX);
            assert(stored@.take(i as int + 1).drop_last() =~= stored@.take(i as int));
            assert(stored@.take(i as int + 1).last() == stored@[i as int]);
        }
        let here: i64 = stored[i].position + 1;
        if i == 0 || here > next {
            next = here;
        }
        i = i + 1;
    }
    proof {
        assert(stored@.take(stored@.len() as int) =~= stored@);
    }
    next
}

proof fn lemma_unknown_bound(stored: Seq<Seq<char>>, urls: Seq<Seq<char>>)
    ensures
        unknown_count(stored, urls) <= urls.len(),
    decreases urls.len(),
{
    if urls.len() > 0 {
        lemma_unknown_bound(stored, urls.drop_last());
    }
}

fn lists_image(stored: &Vec<DbImage>, url: &str) -> (r: bool)
    ensures
        r == image_urls_of(stored@).contains(url@),
{
    let mut i: usize = 0;
    while i < stored.len()
        invariant
            i <= stored@.len(),
            forall|k: int| 0 <= k < i ==> image_urls_of(stored@)[k] != url@,
        decreases stored@.len() - i,
    {
        if same_text(stored[i].url.as_str(), url) {
            proof {
                assert(image_urls_of(stored@)[i as int] == url@);
            }
            return true;
        }
        i = i + 1;
    }
    false
}

/// The photos to store: unknown URLs, behind the stored positions.
pub fn add_image_urls(stored: &Vec<DbImage>, urls: &Vec<String>) -> (r: Vec<(i64, String)>)
    requires
        forall|i: int| 0 <= i < stored@.len() ==> (#[trigger] stored@[i]).position < i64::MAX,
        next_position(stored@) + urls@.len() <= i64::MAX,
    ensures
        photo_texts(r@) == photos_to_add(
            image_urls_of(stored@),
            next_position(stored@),
            texts(urls@),
        ),
{
    let mut added: Vec<(i64, String)> = Vec::new();
    let mut next: i64 = after_last(stored);
    let mut met: Vec<String> = Vec::new();
    let ghost known = image_urls_of(stored@);
    let ghost all = texts(urls@);
    let ghost start = next as int;
    proof {
        assert(all.take(0) =~= Seq::<Seq<char>>::empty());
        assert(photo_texts(added@) =~= photos_to_add(known, start, all.take(0)));
        assert(texts(met@) =~= all.take(0));
    }
    let mut i: usize = 0;
    while i < urls.len()
        invariant
            i <= urls@.len(),
            known == image_urls_of(stored@),
            all == texts(urls@),
            start + urls@.len() <= i64::MAX,
            next == start + unknown_count(known, all.take(i as int)),
            texts(met@) == all.take(i as int),
            photo_texts(added@) == photos_to_add(known, start, all.take(i as int)),
        decreases urls@.len() - i,
    {
        let ghost now = all.take(i as int + 1);
        proof {
            assert(now.drop_last() =~= all.take(i as int));
            assert(now.last() == urls@[i as int]@);
            lemma_unknown_bound(known, all.take(i as int));
        }
        let url = urls[i].as_str();
        if !lists_image(stored, url) {
            if !lists(&met, url) {
                let ghost before = added@;
                added.push((next, url.to_owned()));
                proof {
                    assert(photo_texts(added@) =~= photo_texts(before).push((next, url@)));
                }
            }
            next = next + 1;
        }
        let ghost earlier = met@;
        met.push(url.to_owned());
        proof {
            assert(texts(met@) =~= texts(earlier).push(url@));
            assert(now =~= all.take(i as int).push(url@));
        }
        i = i + 1;
    }
    proof {
        assert(all.take(urls@.len() as int) =~= all);
    }
    added
}

/// Adding the same URLs again adds nothing, and no URL that is stored is added.
pub proof fn law_known_photos_are_not_added(
    stored: Seq<Seq<char>>,
    start: int,
    urls: Seq<Seq<char>>,
)
    requires
        forall|i: int| 0 <= i < urls.len() ==> stored.contains(#[trigger] urls[i]),
    ensures
        photos_to_add(stored, start, urls) == Seq::<(i64, Seq<char>)>::empty(),
    decreases urls.len(),
{
    if urls.len() > 0 {
        assert(stored.contains(urls[urls.len() - 1]));
        assert forall|i: int| 0 <= i < urls.drop_last().len() implies stored.contains(
            #[trigger] urls.drop_last()[i],
        ) by {
            assert(urls.drop_last()[i] == urls[i]);
        }
        law_known_photos_are_not_added(stored, start, urls.drop_last());
    }
}

/// Is the photo still to be fetched?
pub open spec fn is_pending(image: DbImage) -> bool {
    image.local_path is None
}

/// The first photos that are still to be fetched, in order.
pub fn pending_images(stored: &Vec<DbImage>, limit: usize) -> (r: Vec<(i64, String)>)
    ensures
        ({
            let waiting = stored@.filter(|i: DbImage| is_pending(i));
            let n = if waiting.len() <= limit {
                waiting.len()
            } else {
                limit as nat
            };
            photo_texts(r@) == waiting.take(n as int).map_values(
                |i: DbImage| (i.position, i.url@),
            )
        }),
{
    let mut r: Vec<(i64, String)> = Vec::new();
    let ghost pick = |i: DbImage| is_pending(i);
    let ghost row = |i: DbImage| (i.position, i.url@);
    let ghost waiting = stored@.filter(pick);
    let mut i: usize = 0;
    proof {
        reveal(Seq::filter);
        assert(photo_texts(r@) =~= stored@.take(0).filter(pick).map_values(row));
    }
    while i < stored.len() && r.len() < limit
        invariant
            i <= stored@.len(),
            r@.len() <= limit,
            pick == (|i: DbImage| is_pending(i)),
            row == (|i: DbImage| (i.position, i.url@)),
            photo_texts(r@) == stored@.take(i as int).filter(pick).map_values(row),
        decreases stored@.len() - i,
    {
        let ghost image = stored@[i as int];
        proof {
            lemma_filter_push(stored@.take(i as int), image, pick);
            assert(stored@.take(i as int).push(image) == stored@.take(i as int + 1));
        }
        if stored[i].local_path.is_none() {
            let ghost before = r@;
            r.push((stored[i].position, stored[i].url.clone()));
            proof {
                assert(photo_texts(r@) =~= photo_texts(before).push(row(image)));
                assert(stored@.take(i as int).filter(pick).push(image).map_values(row)
                    =~= stored@.take(i as int).filter(pick).map_values(row).push(row(image)));
            }
        }
        i = i + 1;
    }
    proof {
        let head = stored@.take(i as int);
        assert(head.filter(pick).len() == photo_texts(r@).len());
        lemma_filter_prefix(stored@, i as int, pick);
        let n = if waiting.len() <= limit {
            waiting.len()
        } else {
            limit as nat
        };
        if i == stored@.len() {
            assert(head =~= stored@);
        }
        assert(n == r@.len());
        assert(waiting.take(n as int) =~= head.filter(pick));
        assert(waiting.take(n as int).map_values(row) =~= head.filter(pick).map_values(row));
    }
    r
}

/// What a filter leaves of a prefix is a prefix of what it leaves of the whole.
proof fn lemma_filter_prefix<T>(s: Seq<T>, i: int, keep: spec_fn(T) -> bool)
    requires
        0 <= i <= s.len(),
    ensures
        s.take(i).filter(keep).is_prefix_of(s.filter(keep)),
    decreases s.len() - i,
{
    if i == s.len() {
        assert(s.take(i) =~= s);
        assert(s.filter(keep).take(s.filter(keep).len() as int) =~= s.filter(keep));
    } else {
        lemma_filter_prefix(s, i + 1, keep);
        lemma_filter_push(s.take(i), s[i], keep);
        assert(s.take(i).push(s[i]) =~= s.take(i + 1));
        let a = s.take(i).filter(keep);
        let b = s.take(i + 1).filter(keep);
        assert(a =~= b.take(a.len() as int));
        assert(b =~= s.filter(keep).take(b.len() as int));
        assert(a =~= s.filter(keep).take(a.len() as int));
    }
}

/// A photo that has been stored locally is never fetched again.
pub proof fn law_saved_photos_stay(stored: Seq<DbImage>, i: int)
    requires
        0 <= i < stored.filter(|i: DbImage| is_pending(i)).len(),
    ensures
        stored.filter(|i: DbImage| is_pending(i))[i].local_path is None,
{
    broadcast use vstd::seq_lib::group_filter_ensures;

    let pick = |i: DbImage| is_pending(i);
    assert(pick(stored.filter(pick)[i]));
}

} // verus!
