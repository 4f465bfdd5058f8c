//! The form for searches, and what a row says of one.
use crate::double::Double;
use crate::fixed::{fixed_text, whole_text};
use crate::listing::PropertyType;
use crate::pipeline::{euros, whole_euros};
use crate::search::{Search, SearchRequest};
use crate::status::StatusResponse;
use crate::text::{
    chars_of, int_text, int_to_text, join, joined, lemma_filter_push, parse_i64, parsed_i64, push_int,
    split, split_at_char, text_to_i64, texts, trim, trim_text, trimmed,
};
use crate::ui::{format_price, price_label};
use vstd::prelude::*;
use vstd::string::StringExecFns;

verus! {

/// The types that the form offers.
pub fn all_types() -> (r: Vec<PropertyType>)
    ensures
        r@ == seq![PropertyType::House, PropertyType::Apartment, PropertyType::Land],
{
    let mut r: Vec<PropertyType> = Vec::new();
    r.push(PropertyType::House);
    r.push(PropertyType::Apartment);
    r.push(PropertyType::Land);
    proof {
        assert(r@ =~= seq![PropertyType::House, PropertyType::Apartment, PropertyType::Land]);
    }
    r
}

/// What the user has typed into the form.
#[derive(Debug, Clone, PartialEq)]
pub struct SearchForm {
    pub name: String,
    pub locations: String,
    pub max_price: String,
    pub min_surface: String,
    pub min_rooms: String,
    pub types: Vec<PropertyType>,
    /// The search that is being edited; a new one where unset.
    pub editing: Option<u128>,
}

impl Default for SearchForm {
    fn default() -> (r: SearchForm)
        ensures
            r.name@.len() == 0,
            r.locations@.len() == 0,
            r.max_price@.len() == 0,
            r.min_surface@.len() == 0,
            r.min_rooms@.len() == 0,
            r.types@.len() == 0,
            r.editing is None,
    {
        SearchForm {
            name: String::new(),
            locations: String::new(),
            max_price: String::new(),
            min_surface: String::new(),
            min_rooms: String::new(),
            types: Vec::new(),
            editing: None,
        }
    }
}

/// The locations in a text: what stands between commas, trimmed, without
/// blanks.
pub open spec fn typed_locations(text: Seq<char>) -> Seq<Seq<char>> {
    split(text, |c: char| c == ',').map_values(|l: Seq<char>| trim(l)).filter(
        |l: Seq<char>| l.len() > 0,
    )
}

/// The whole euros that a text writes, spaces not counting.
pub open spec fn typed_euros(text: Seq<char>) -> Option<i64> {
    parse_i64(trim(text).filter(|c: char| c != ' ' && c != '\u{202f}'))
}

/// The price that the form states is one that an `i64` holds in cents.
pub open spec fn price_fits(text: Seq<char>) -> bool {
    typed_euros(text) matches Some(e) ==> i64::MIN <= e * 100 <= i64::MAX
}

/// The request that the form makes. `min_surface_m2` is what the surface field,
/// trimmed, reads as.
pub open spec fn form_requests(
    r: SearchRequest,
    form: SearchForm,
    min_surface_m2: Option<Double>,
) -> bool {
    &&& r.name@ == trim(form.name@)
    &&& texts(r.locations@) == typed_locations(form.locations@)
    &&& r.max_price_cents == match typed_euros(form.max_price@) {
        Some(e) => Some((e * 100) as i64),
        None => None,
    }
    &&& r.min_surface_m2 == min_surface_m2
    &&& r.min_rooms == parse_i64(trim(form.min_rooms@))
    &&& r.property_types@ == form.types@
    &&& r.active
}

fn locations_in(text: &str) -> (r: Vec<String>)
    ensures
        texts(r@) == typed_locations(text@),
{
    let pieces = split_at_char(text, ',');
    let ghost all = texts(pieces@).map_values(|l: Seq<char>| trim(l));
    let ghost keep = |l: Seq<char>| l.len() > 0;
    let mut r: Vec<String> = Vec::new();
    let mut i: usize = 0;
    proof {
        reveal(Seq::filter);
        assert(texts(r@) =~= all.take(0).filter(keep));
    }
    while i < pieces.len()
        invariant
            i <= pieces@.len(),
            all == texts(pieces@).map_values(|l: Seq<char>| trim(l)),
            keep == (|l: Seq<char>| l.len() > 0),
            texts(r@) == all.take(i as int).filter(keep),
        decreases pieces@.len() - i,
    {
        let location = trim_text(pieces[i].as_str());
        proof {
            assert(all[i as int] == location@);
            lemma_filter_push(all.take(i as int), location@, keep);
            assert(all.take(i as int).push(location@) =~= all.take(i as int + 1));
        }
        if !location.as_str().is_empty() {
            let ghost before = r@;
            r.push(location);
            proof {
                assert(texts(r@) =~= texts(before).push(location@));
            }
        }
        i = i + 1;
    }
    proof {
        assert(all.take(all.len() as int) =~= all);
    }
    r
}

fn euros_in(text: &str) -> (r: Option<i64>)
    ensures
        r == typed_euros(text@),
{
    let chars = chars_of(text);
    let inner = trimmed(chars.as_slice());
    let ghost keep = |c: char| c != ' ' && c != '\u{202f}';
    let mut digits: Vec<char> = Vec::new();
    let mut i: usize = 0;
    proof {
        reveal(Seq::filter);
        assert(digits@ =~= inner@.take(0).filter(keep));
    }
    while i < inner.len()
        invariant
            i <= inner@.len(),
            keep == (|c: char| c != ' ' && c != '\u{202f}'),
            digits@ == inner@.take(i as int).filter(keep),
        decreases inner@.len() - i,
    {
        let c = inner[i];
        proof {
            lemma_filter_push(inner@.take(i as int), c, keep);
            assert(inner@.take(i as int).push(c) =~= inner@.take(i as int + 1));
        }
        if c != ' ' && c != '\u{202f}' {
            digits.push(c);
        }
        i = i + 1;
    }
    proof {
        assert(inner@.take(inner@.len() as int) =~= inner@);
    }
    parsed_i64(digits.as_slice())
}

/// Does the price that a text states fit?
pub fn has_fitting_price(text: &str) -> (r: bool)
    ensures
        r == price_fits(text@),
{
    match euros_in(text) {
        Some(e) => e >= -92_233_720_368_547_758 && e <= 92_233_720_368_547_758,
        None => true,
    }
}

fn same_types(types: &Vec<PropertyType>) -> (r: Vec<PropertyType>)
    ensures
        r@ == types@,
{
    let mut r: Vec<PropertyType> = Vec::new();
    let mut i: usize = 0;
    while i < types.len()
        invariant
            i <= types@.len(),
            r@ == types@.take(i as int),
        decreases types@.len() - i,
    {
        r.push(types[i]);
        i = i + 1;
    }
    proof {
        assert(types@.take(types@.len() as int) =~= types@);
    }
    r
}

impl SearchForm {
    /// The request that the form makes, or what is missing: a name, or a
    /// location.
    pub fn save(&self, min_surface_m2: Option<Double>) -> (r: Result<SearchRequest, &'static str>)
        requires
            price_fits(self.max_price@),
        ensures
            match r {
                Ok(request) => {
                    &&& trim(self.name@).len() > 0
                    &&& typed_locations(self.locations@).len() > 0
                    &&& form_requests(request, *self, min_surface_m2)
                },
                Err(why) => if trim(self.name@).len() == 0 {
                    why@ == "il faut un nom"@
                } else {
                    typed_locations(self.locations@).len() == 0 && why@
                        == "au moins une commune ou un code postal"@
                },
            },
    {
        let name = trim_text(self.name.as_str());
        let locations = locations_in(self.locations.as_str());
        let max_price_cents = match euros_in(self.max_price.as_str()) {
            Some(e) => Some(e * 100),
            None => None,
        };
        let rooms_text = trim_text(self.min_rooms.as_str());
        let min_rooms = text_to_i64(rooms_text.as_str());
        if name.as_str().is_empty() {
            return Err("il faut un nom");
        }
        if locations.len() == 0 {
            proof {
                assert(texts(locations@).len() == 0);
            }
            return Err("au moins une commune ou un code postal");
        }
        proof {
            assert(texts(locations@).len() > 0);
        }
        Ok(
            SearchRequest {
                name,
                locations,
                max_price_cents,
                min_surface_m2,
                min_rooms,
                property_types: same_types(&self.types),
                active: true,
            },
        )
    }

    /// The form with a search in it, to be edited.
    pub fn load(search: &Search) -> (r: SearchForm)
        ensures
            r.name == search.name,
            r.locations@ == join(texts(search.locations@), ", "@),
            match search.max_price_cents {
                Some(c) => r.max_price@ == int_text(whole_euros(c as int)),
                None => r.max_price@.len() == 0,
            },
            match search.min_surface_m2 {
                Some(s) => r.min_surface@ == fixed_text(s, 0),
                None => r.min_surface@.len() == 0,
            },
            match search.min_rooms {
                Some(n) => r.min_rooms@ == int_text(n as int),
                None => r.min_rooms@.len() == 0,
            },
            r.types@ == search.property_types@,
            r.editing == Some(search.id),
    {
        let max_price = match search.max_price_cents {
            Some(c) => int_to_text(euros(c)),
            None => String::new(),
        };
        let min_surface = match search.min_surface_m2 {
            Some(s) => whole_text(s),
            None => String::new(),
        };
        let min_rooms = match search.min_rooms {
            Some(n) => int_to_text(n),
            None => String::new(),
        };
        SearchForm {
            name: search.name.clone(),
            locations: joined(&search.locations, ", "),
            max_price,
            min_surface,
            min_rooms,
            types: same_types(&search.property_types),
            editing: Some(search.id),
        }
    }

    /// Ticks or unticks a type.
    pub fn toggle_type(&mut self, t: PropertyType, checked: bool)
        ensures
            final(self).types@ == if checked {
                if old(self).types@.contains(t) {
                    old(self).types@
                } else {
                    old(self).types@.push(t)
                }
            } else {
                old(self).types@.filter(|x: PropertyType| x != t)
            },
            *final(self) == (SearchForm { types: final(self).types, ..*old(self) }),
    {
        let ghost keep = |x: PropertyType| x != t;
        let mut kept: Vec<PropertyType> = Vec::new();
        let mut found: bool = false;
        let mut i: usize = 0;
        proof {
            reveal(Seq::filter);
            assert(kept@ =~= self.types@.take(0).filter(keep));
        }
        while i < self.types.len()
            invariant
                i <= self.types@.len(),
                *self == *old(self),
                keep == (|x: PropertyType| x != t),
                kept@ == self.types@.take(i as int).filter(keep),
                found ==> self.types@.contains(t),
                !found ==> forall|k: int| 0 <= k < i ==> self.types@[k] != t,
            decreases self.types@.len() - i,
        {
            let x = self.types[i];
            proof {
                lemma_filter_push(self.types@.take(i as int), x, keep);
                assert(self.types@.take(i as int).push(x) =~= self.types@.take(i as int + 1));
            }
            if x == t {
                found = true;
                proof {
                    assert(self.types@[i as int] == t);
                }
            } else {
                kept.push(x);
            }
            i = i + 1;
        }
        proof {
            assert(self.types@.take(self.types@.len() as int) =~= self.types@);
        }
        if checked {
            if !found {
                self.types.push(t);
            }
        } else {
            self.types = kept;
        }
    }
}

/// What the button that saves the form says.
pub fn save_label(busy: bool, editing: bool) -> (r: &'static str)
    ensures
        r@ == if busy {
            "Enregistrement…"@
        } else if editing {
            "Mettre à jour"@
        } else {
            "Créer la recherche"@
        },
{
    if busy {
        "Enregistrement…"
    } else if editing {
        "Mettre à jour"
    } else {
        "Créer la recherche"
    }
}

// ---------------------------------------------------------------------------
// Rows

/// The criteria of a search, as its row states them: locations, then those that
/// are set.
pub open spec fn criteria_texts(s: Search) -> Seq<Seq<char>> {
    let places = seq![join(texts(s.locations@), ", "@)];
    let price = match s.max_price_cents {
        Some(c) => seq!["≤ "@ + price_label(c as int)],
        None => Seq::empty(),
    };
    let surface = match s.min_surface_m2 {
        Some(m) => seq!["≥ "@ + fixed_text(m, 0) + " m²"@],
        None => Seq::empty(),
    };
    let rooms = match s.min_rooms {
        Some(n) => seq!["≥ "@ + int_text(n as int) + " pièces"@],
        None => Seq::empty(),
    };
    let types = if s.property_types@.len() > 0 {
        seq![join(s.property_types@.map_values(|t: PropertyType| t.label_text()), "/"@)]
    } else {
        Seq::empty()
    };
    places + price + surface + rooms + types
}

fn type_labels(types: &Vec<PropertyType>) -> (r: Vec<String>)
    ensures
        texts(r@) == types@.map_values(|t: PropertyType| t.label_text()),
{
    let ghost label = |t: PropertyType| t.label_text();
    let mut r: Vec<String> = Vec::new();
    let mut i: usize = 0;
    proof {
        assert(texts(r@) =~= types@.map_values(label).take(0));
    }
    while i < types.len()
        invariant
            i <= types@.len(),
            label == (|t: PropertyType| t.label_text()),
            texts(r@) == types@.map_values(label).take(i as int),
        decreases types@.len() - i,
    {
        let ghost before = r@;
        r.push(types[i].label().to_owned());
        proof {
            assert(texts(r@) =~= texts(before).push(types@[i as int].label_text()));
            assert(types@.map_values(label).take(i as int + 1) =~= types@.map_values(label).take(
                i as int,
            ).push(types@[i as int].label_text()));
        }
        i = i + 1;
    }
    proof {
        assert(types@.map_values(label).take(types@.len() as int) =~= types@.map_values(label));
    }
    r
}

/// The criteria of a search on one line.
pub fn search_row(search: &Search) -> (r: String)
    ensures
        r@ == join(criteria_texts(*search), " · "@),
{
    let mut parts: Vec<String> = Vec::new();
    parts.push(joined(&search.locations, ", "));
    if let Some(c) = search.max_price_cents {
        let price = format_price(c);
        parts.push("≤ ".to_owned().concat(price.as_str()));
    }
    if let Some(m) = search.min_surface_m2 {
        let surface = whole_text(m);
        parts.push("≥ ".to_owned().concat(surface.as_str()).concat(" m²"));
    }
    if let Some(n) = search.min_rooms {
        let mut s = "≥ ".to_owned();
        push_int(&mut s, n);
        s.append(" pièces");
        parts.push(s);
    }
    if search.property_types.len() > 0 {
        let labels = type_labels(&search.property_types);
        parts.push(joined(&labels, "/"));
    }
    proof {
        assert(texts(parts@) =~= criteria_texts(*search));
    }
    joined(&parts, " · ")
}

/// The request that pauses an active search, or resumes a paused one.
pub fn toggled(search: &Search) -> (r: SearchRequest)
    ensures
        r.name == search.name,
        texts(r.locations@) == texts(search.locations@),
        r.max_price_cents == search.max_price_cents,
        r.min_surface_m2 == search.min_surface_m2,
        r.min_rooms == search.min_rooms,
        r.property_types@ == search.property_types@,
        r.active == !search.active,
{
    let locations = search.locations.clone();
    proof {
        assert(locations@ =~= search.locations@);
    }
    SearchRequest {
        name: search.name.clone(),
        locations,
        max_price_cents: search.max_price_cents,
        min_surface_m2: search.min_surface_m2,
        min_rooms: search.min_rooms,
        property_types: same_types(&search.property_types),
        active: !search.active,
    }
}

/// How many listings a search matches now.
pub fn match_count(status: Option<&StatusResponse>, id: u128) -> (r: i64)
    ensures
        r == match status {
            Some(s) => if s.search_matches@.contains_key(id) {
                s.search_matches@[id]
            } else {
                0
            },
            None => 0,
        },
{
    broadcast use vstd::std_specs::hash::group_hash_axioms;

    match status {
        Some(s) => match s.search_matches.get(&id) {
            Some(n) => *n,
            None => 0,
        },
        None => 0,
    }
}

/// How many listings a search matches, in words.
pub fn match_label(count: i64) -> (r: String)
    ensures
        r@ == int_text(count as int) + " annonces"@,
{
    let mut s = String::new();
    push_int(&mut s, count);
    s.append(" annonces");
    proof {
        assert(s@ =~= int_text(count as int) + " annonces"@);
    }
    s
}

/// What the button that pauses or resumes a search says.
pub fn pause_label(active: bool) -> (r: &'static str)
    ensures
        r@ == if active {
            "pause"@
        } else {
            "reprendre"@
        },
{
    if active {
        "pause"
    } else {
        "reprendre"
    }
}

} // verus!
