//! A persisted real-estate listing: one advert on one source. Listings are
//! never merged across sources: the same property on two sources stays two
//! listings, each with its own price history.
use crate::double::{Double, ONE_BITS};
use crate::ratio::{per_square_metre, price_ratio};
use vstd::prelude::*;

verus! {

/// A point in time: seconds since the Unix epoch, and nanoseconds on top.
#[derive(Debug, Clone, Copy, PartialEq, Eq, Structural)]
pub struct Timestamp {
    pub secs: i64,
    pub nanos: u32,
}

#[derive(Debug, Clone, Copy, PartialEq, Eq, Structural, Default)]
pub enum PropertyType {
    House,
    Apartment,
    Land,
    #[default]
    Other,
}

impl PropertyType {
    pub open spec fn label_text(self) -> Seq<char> {
        match self {
            PropertyType::House => "maison"@,
            PropertyType::Apartment => "appartement"@,
            PropertyType::Land => "terrain"@,
            PropertyType::Other => "autre"@,
        }
    }

    pub fn label(self) -> (r: &'static str)
        ensures
            r@ == self.label_text(),
    {
        match self {
            PropertyType::House => "maison",
            PropertyType::Apartment => "appartement",
            PropertyType::Land => "terrain",
            PropertyType::Other => "autre",
        }
    }
}

/// Lifecycle on the source: never deleted, `Gone` when a successful scrape no
/// longer sees it, revived if it reappears.
#[derive(Debug, Clone, Copy, PartialEq, Eq, Structural, Default)]
pub enum ListingStatus {
    #[default]
    Active,
    Gone,
}

/// User verdict, orthogonal to lifecycle. Moderated listings never match
/// searches and never notify.
#[derive(Debug, Clone, Copy, PartialEq, Eq, Structural, Default)]
pub enum Moderation {
    #[default]
    Unmoderated,
    /// Hidden for now: clears if the listing goes gone and is re-acquired.
    Dismissed,
    /// Never show or match again.
    Banned,
}

/// Warning flags. They gate notifications, never visibility.
#[derive(Debug, Clone, Copy, PartialEq, Eq, Structural)]
pub enum Flag {
    /// A buy request ("Recherche maison…"), not an offer.
    WantedAd,
}

/// One dated price observation: at most one per day, the latest wins.
#[derive(Debug, Clone, PartialEq)]
pub struct PricePoint {
    /// ISO date (UTC) of the observation.
    pub day: String,
    pub price_cents: i64,
}

/// Who is selling: agency or notary, or an individual.
#[derive(Debug, Clone, Copy, PartialEq, Eq, Structural)]
pub enum SellerKind {
    Pro,
    Private,
}

#[derive(Debug, Clone, PartialEq)]
pub struct Seller {
    pub kind: SellerKind,
    pub name: Option<String>,
    /// SIREN of the agency when the source exposes it.
    pub siren: Option<String>,
}

/// One photo, as the UI should load it: `/images/<id>/<n>.<ext>` once
/// downloaded, the source's own URL until then.
#[derive(Debug, Clone, PartialEq)]
pub struct ListingImage {
    pub position: i64,
    pub url: String,
}

/// Facts extracted from the description. Everything is optional: what the text
/// does not state stays unset.
#[derive(Debug, Clone, PartialEq)]
pub struct ExtractedAttrs {
    pub annee_construction: Option<i64>,
    /// "a-prevoir", "rafraichissement" or "aucun".
    pub travaux: Option<String>,
    pub chauffage_type: Option<String>,
    pub chauffage_energie: Option<String>,
    pub fibre: Option<bool>,
    pub charges_copro_month_cents: Option<i64>,
    pub taxe_fonciere_year_cents: Option<i64>,
    /// Floor of an apartment; 0 is the ground floor.
    pub etage: Option<i64>,
    pub ascenseur: Option<bool>,
    pub jardin: Option<bool>,
    pub garage_parking: Option<bool>,
    pub piscine: Option<bool>,
    pub orientation: Option<String>,
    pub mitoyenne: Option<bool>,
    /// Notable free-form facts (servitude, locataire en place, viager…).
    pub notes: Vec<String>,
}

/// The first value where it is set, else the second.
pub open spec fn or_else<T>(first: Option<T>, second: Option<T>) -> Option<T> {
    if first is Some {
        first
    } else {
        second
    }
}

fn first_of<T: Copy>(first: Option<T>, second: Option<T>) -> (r: Option<T>)
    ensures
        r == or_else(first, second),
{
    match first {
        Some(v) => Some(v),
        None => second,
    }
}

/// The first text where it is set, else the second.
pub fn first_text(first: &Option<String>, second: &Option<String>) -> (r: Option<String>)
    ensures
        r == or_else(*first, *second),
{
    match first {
        Some(v) => Some(v.clone()),
        None => second.clone(),
    }
}

impl Default for ExtractedAttrs {
    fn default() -> (r: ExtractedAttrs)
        ensures
            r.unset(),
    {
        ExtractedAttrs {
            annee_construction: None,
            travaux: None,
            chauffage_type: None,
            chauffage_energie: None,
            fibre: None,
            charges_copro_month_cents: None,
            taxe_fonciere_year_cents: None,
            etage: None,
            ascenseur: None,
            jardin: None,
            garage_parking: None,
            piscine: None,
            orientation: None,
            mitoyenne: None,
            notes: Vec::new(),
        }
    }
}

impl ExtractedAttrs {
    /// Nothing is known: every field is unset and there are no notes.
    pub open spec fn unset(self) -> bool {
        &&& self.annee_construction is None
        &&& self.travaux is None
        &&& self.chauffage_type is None
        &&& self.chauffage_energie is None
        &&& self.fibre is None
        &&& self.charges_copro_month_cents is None
        &&& self.taxe_fonciere_year_cents is None
        &&& self.etage is None
        &&& self.ascenseur is None
        &&& self.jardin is None
        &&& self.garage_parking is None
        &&& self.piscine is None
        &&& self.orientation is None
        &&& self.mitoyenne is None
        &&& self.notes@.len() == 0
    }

    /// The same facts: every field equal, the notes the same texts.
    pub open spec fn same(self, other: ExtractedAttrs) -> bool {
        &&& self.annee_construction == other.annee_construction
        &&& self.travaux == other.travaux
        &&& self.chauffage_type == other.chauffage_type
        &&& self.chauffage_energie == other.chauffage_energie
        &&& self.fibre == other.fibre
        &&& self.charges_copro_month_cents == other.charges_copro_month_cents
        &&& self.taxe_fonciere_year_cents == other.taxe_fonciere_year_cents
        &&& self.etage == other.etage
        &&& self.ascenseur == other.ascenseur
        &&& self.jardin == other.jardin
        &&& self.garage_parking == other.garage_parking
        &&& self.piscine == other.piscine
        &&& self.orientation == other.orientation
        &&& self.mitoyenne == other.mitoyenne
        &&& self.notes@ == other.notes@
    }

    /// `self` is `own` with its gaps filled from `other`: a field that `own`
    /// sets stays, one that it leaves unset is taken over, and the notes are
    /// taken over where `own` has none.
    pub open spec fn filled(self, own: ExtractedAttrs, other: ExtractedAttrs) -> bool {
        &&& self.annee_construction == or_else(own.annee_construction, other.annee_construction)
        &&& self.travaux == or_else(own.travaux, other.travaux)
        &&& self.chauffage_type == or_else(own.chauffage_type, other.chauffage_type)
        &&& self.chauffage_energie == or_else(own.chauffage_energie, other.chauffage_energie)
        &&& self.fibre == or_else(own.fibre, other.fibre)
        &&& self.charges_copro_month_cents == or_else(
            own.charges_copro_month_cents,
            other.charges_copro_month_cents,
        )
        &&& self.taxe_fonciere_year_cents == or_else(
            own.taxe_fonciere_year_cents,
            other.taxe_fonciere_year_cents,
        )
        &&& self.etage == or_else(own.etage, other.etage)
        &&& self.ascenseur == or_else(own.ascenseur, other.ascenseur)
        &&& self.jardin == or_else(own.jardin, other.jardin)
        &&& self.garage_parking == or_else(own.garage_parking, other.garage_parking)
        &&& self.piscine == or_else(own.piscine, other.piscine)
        &&& self.orientation == or_else(own.orientation, other.orientation)
        &&& self.mitoyenne == or_else(own.mitoyenne, other.mitoyenne)
        &&& self.notes@ == if own.notes@.len() > 0 {
            own.notes@
        } else {
            other.notes@
        }
    }

    pub fn is_empty(&self) -> (r: bool)
        ensures
            r == self.unset(),
    {
        self.annee_construction.is_none() && self.travaux.is_none() && self.chauffage_type.is_none()
            && self.chauffage_energie.is_none() && self.fibre.is_none()
            && self.charges_copro_month_cents.is_none() && self.taxe_fonciere_year_cents.is_none()
            && self.etage.is_none() && self.ascenseur.is_none() && self.jardin.is_none()
            && self.garage_parking.is_none() && self.piscine.is_none()
            && self.orientation.is_none() && self.mitoyenne.is_none() && self.notes.len() == 0
    }

    /// Fill this value's gaps from `other`. `self` always wins where it already
    /// has a value: structured attributes take precedence over what prose
    /// extraction found, which still covers the fields that structure did not.
    pub fn fill_gaps_from(&mut self, other: &ExtractedAttrs)
        ensures
            final(self).filled(*old(self), *other),
    {
        self.annee_construction = first_of(self.annee_construction, other.annee_construction);
        self.travaux = first_text(&self.travaux, &other.travaux);
        self.chauffage_type = first_text(&self.chauffage_type, &other.chauffage_type);
        self.chauffage_energie = first_text(&self.chauffage_energie, &other.chauffage_energie);
        self.fibre = first_of(self.fibre, other.fibre);
        self.charges_copro_month_cents = first_of(
            self.charges_copro_month_cents,
            other.charges_copro_month_cents,
        );
        self.taxe_fonciere_year_cents = first_of(
            self.taxe_fonciere_year_cents,
            other.taxe_fonciere_year_cents,
        );
        self.etage = first_of(self.etage, other.etage);
        self.ascenseur = first_of(self.ascenseur, other.ascenseur);
        self.jardin = first_of(self.jardin, other.jardin);
        self.garage_parking = first_of(self.garage_parking, other.garage_parking);
        self.piscine = first_of(self.piscine, other.piscine);
        self.orientation = first_text(&self.orientation, &other.orientation);
        self.mitoyenne = first_of(self.mitoyenne, other.mitoyenne);
        if self.notes.len() == 0 {
            self.notes = other.notes.clone();
            proof {
                assert(self.notes@ =~= other.notes@);
            }
        }
    }

    /// A copy with the same facts.
    pub fn duplicate(&self) -> (r: ExtractedAttrs)
        ensures
            r.same(*self),
    {
        let notes = self.notes.clone();
        proof {
            assert(notes@ =~= self.notes@);
        }
        ExtractedAttrs {
            annee_construction: self.annee_construction,
            travaux: self.travaux.clone(),
            chauffage_type: self.chauffage_type.clone(),
            chauffage_energie: self.chauffage_energie.clone(),
            fibre: self.fibre,
            charges_copro_month_cents: self.charges_copro_month_cents,
            taxe_fonciere_year_cents: self.taxe_fonciere_year_cents,
            etage: self.etage,
            ascenseur: self.ascenseur,
            jardin: self.jardin,
            garage_parking: self.garage_parking,
            piscine: self.piscine,
            orientation: self.orientation.clone(),
            mitoyenne: self.mitoyenne,
            notes,
        }
    }
}

/// Filling gaps from the same facts again changes nothing.
pub proof fn law_filling_is_idempotent(
    own: ExtractedAttrs,
    other: ExtractedAttrs,
    once: ExtractedAttrs,
    twice: ExtractedAttrs,
)
    requires
        once.filled(own, other),
        twice.filled(once, other),
    ensures
        twice.same(once),
{
}

/// Facts that know nothing add nothing, and take over everything.
pub proof fn law_unset_is_neutral(
    own: ExtractedAttrs,
    nothing: ExtractedAttrs,
    left: ExtractedAttrs,
    right: ExtractedAttrs,
)
    requires
        nothing.unset(),
        left.filled(own, nothing),
        right.filled(nothing, own),
    ensures
        left.same(own),
        right.same(own),
{
    assert(left.notes@ =~= own.notes@);
}

/// Filling gaps from two sources in turn is filling them once from the two
/// merged: precedence goes by order alone.
pub proof fn law_filling_is_associative(
    a: ExtractedAttrs,
    b: ExtractedAttrs,
    c: ExtractedAttrs,
    ab: ExtractedAttrs,
    bc: ExtractedAttrs,
    ab_then_c: ExtractedAttrs,
    a_then_bc: ExtractedAttrs,
)
    requires
        ab.filled(a, b),
        bc.filled(b, c),
        ab_then_c.filled(ab, c),
        a_then_bc.filled(a, bc),
    ensures
        ab_then_c.same(a_then_bc),
{
}

impl Seller {
    pub fn duplicate(&self) -> (r: Seller)
        ensures
            r == *self,
    {
        Seller { kind: self.kind, name: self.name.clone(), siren: self.siren.clone() }
    }
}

/// What a detail page yields. Everything is optional, and what is unset never
/// clears a stored value. `attributes` holds what the source states
/// structurally, which wins over what is read out of the prose.
#[derive(Debug, Clone, PartialEq)]
pub struct ListingDetail {
    pub description: Option<String>,
    pub address: Option<String>,
    pub image_urls: Vec<String>,
    pub seller: Option<Seller>,
    pub attributes: ExtractedAttrs,
}

impl Default for ListingDetail {
    fn default() -> (r: ListingDetail)
        ensures
            r.description is None,
            r.address is None,
            r.image_urls@.len() == 0,
            r.seller is None,
            r.attributes.unset(),
    {
        ListingDetail {
            description: None,
            address: None,
            image_urls: Vec::new(),
            seller: None,
            attributes: ExtractedAttrs::default(),
        }
    }
}

#[derive(Debug, Clone, PartialEq)]
pub struct Listing {
    /// The 128 bits of the listing's UUID.
    pub id: u128,
    pub source_id: String,
    pub canonical_url: String,
    pub title: String,
    pub price_cents: i64,
    pub property_type: PropertyType,
    /// Living surface in m² when the source provides it.
    pub surface_m2: Option<Double>,
    pub rooms: Option<i64>,
    pub bedrooms: Option<i64>,
    /// Plot surface in m² (terrains, maisons).
    pub land_m2: Option<Double>,
    pub commune: Option<String>,
    pub postal_code: Option<String>,
    pub lat: Option<Double>,
    pub lng: Option<Double>,
    /// Energy rating A–G (lowercase), when stated.
    pub dpe: Option<String>,
    pub ges: Option<String>,
    /// "old", "new" or "viager" when the source distinguishes.
    pub sell_type: Option<String>,
    /// Full description once enriched; the search page's truncated body until
    /// then.
    pub description: Option<String>,
    /// Street or quartier when a source gives finer than commune.
    pub address: Option<String>,
    pub seller: Option<Seller>,
    pub attributes: ExtractedAttrs,
    pub flags: Vec<Flag>,
    pub status: ListingStatus,
    pub moderation: Moderation,
    pub first_seen: Timestamp,
    pub last_seen: Timestamp,
}

impl Listing {
    /// A surface of at least one square metre is known.
    pub open spec fn plausible(self) -> bool {
        self.surface_m2 matches Some(s) && s.ge(Double { bits: ONE_BITS })
    }

    /// €/m² in cents: the price divided by the surface, when a plausible one is
    /// known.
    pub open spec fn m2_cents(self) -> Option<int> {
        if self.plausible() {
            Some(price_ratio(self.price_cents as int, self.surface_m2->0))
        } else {
            None
        }
    }

    /// €/m² in cents, when a plausible surface is known.
    pub fn price_per_m2_cents(&self) -> (r: Option<i64>)
        ensures
            match r {
                Some(m2) => self.m2_cents() == Some(m2 as int),
                None => self.m2_cents() is None,
            },
    {
        match self.surface_m2 {
            Some(s) => if s.at_least(Double { bits: ONE_BITS }) {
                Some(per_square_metre(self.price_cents, s))
            } else {
                None
            },
            None => None,
        }
    }

    /// A buy request rather than an offer.
    pub open spec fn wanted(self) -> bool {
        self.flags@.contains(Flag::WantedAd)
    }
}

/// A listing with its whole price history and its photos.
#[derive(Debug, Clone, PartialEq)]
pub struct ListingWithHistory {
    pub listing: Listing,
    pub history: Vec<PricePoint>,
    pub images: Vec<ListingImage>,
}

/// A price as a source states it.
#[derive(Debug, Clone, PartialEq)]
pub enum Amount {
    Cents(i64),
    /// Euros, as the decimal text that the source gives.
    Euros(String),
}

/// What a source hands the pipeline. Values that are not whole numbers are the
/// decimal texts that the source gives.
#[derive(Debug, Clone, PartialEq)]
pub struct RawListing {
    pub source_id: String,
    pub url: String,
    pub title: String,
    pub price: Amount,
    pub property_type: PropertyType,
    pub surface_m2: Option<String>,
    pub rooms: Option<i64>,
    pub bedrooms: Option<i64>,
    pub land_m2: Option<String>,
    pub commune: Option<String>,
    pub postal_code: Option<String>,
    pub lat: Option<String>,
    pub lng: Option<String>,
    pub dpe: Option<String>,
    pub ges: Option<String>,
    pub sell_type: Option<String>,
    pub description: Option<String>,
    pub address: Option<String>,
    pub image_urls: Vec<String>,
    pub seller: Option<Seller>,
}

} // verus!
