//! The listings: their order, and what a card says of one.
use crate::fixed::{fixed_text, move_text, percent_move, whole_text};
use crate::listing::{Listing, ListingStatus, ListingWithHistory, Moderation};
use crate::pipeline::{euros, notification_worthy, whole_euros};
use crate::text::{
    int_text, join, joined, lemma_filter_push, push_int, same_text, texts, to_upper, uppercase,
};
use crate::ui::sparkline::{pictures, span_fits, sparkline, values, Spark};
use crate::ui::{format_price, price_label};
use vstd::prelude::*;
use vstd::string::StringExecFns;

verus! {

#[derive(Debug, Clone, Copy, PartialEq, Eq, Structural)]
pub enum Sort {
    Recent,
    BiggestDrop,
    PricePerM2,
    Price,
}

/// The order that a choice in the menu stands for.
pub fn sort_from(value: &str) -> (r: Sort)
    ensures
        r == if value@ == "drop"@ {
            Sort::BiggestDrop
        } else if value@ == "m2"@ {
            Sort::PricePerM2
        } else if value@ == "price"@ {
            Sort::Price
        } else {
            Sort::Recent
        },
{
    if same_text(value, "drop") {
        Sort::BiggestDrop
    } else if same_text(value, "m2") {
        Sort::PricePerM2
    } else if same_text(value, "price") {
        Sort::Price
    } else {
        Sort::Recent
    }
}

/// A quotient without its fraction.
pub open spec fn quotient(a: int, b: int) -> int {
    if a >= 0 {
        a / b
    } else {
        -((-a) / b)
    }
}

/// The price move since the first observation, in thousandths (negative: a
/// drop). A listing without history comes last.
pub open spec fn move_of(item: ListingWithHistory) -> int {
    if item.history@.len() > 0 && item.history@[0].price_cents > 0 {
        quotient(
            (item.listing.price_cents - item.history@[0].price_cents) * 1000,
            item.history@[0].price_cents as int,
        )
    } else {
        i64::MAX as int
    }
}

/// The price move can be reckoned in an `i64`.
pub open spec fn move_fits(item: ListingWithHistory) -> bool {
    item.history@.len() > 0 && item.history@[0].price_cents > 0 ==> i64::MIN < (
    item.listing.price_cents - item.history@[0].price_cents) * 1000 <= i64::MAX
}

/// Can the price move be reckoned?
pub fn has_fitting_move(item: &ListingWithHistory) -> (r: bool)
    ensures
        r == move_fits(*item),
{
    if item.history.len() > 0 && item.history[0].price_cents > 0 {
        let d: i128 = (item.listing.price_cents as i128 - item.history[0].price_cents as i128)
            * 1000;
        d > i64::MIN as i128 && d <= i64::MAX as i128
    } else {
        true
    }
}

pub fn drop_pct_milli(item: &ListingWithHistory) -> (r: i64)
    requires
        move_fits(*item),
    ensures
        r == move_of(*item),
{
    if item.history.len() > 0 && item.history[0].price_cents > 0 {
        let first: i64 = item.history[0].price_cents;
        let d: i64 = ((item.listing.price_cents as i128 - first as i128) * 1000) as i64;
        proof {
            let a = if d >= 0 {
                d as int
            } else {
                -(d as int)
            };
            assert(0 <= a / (first as int) <= a) by (nonlinear_arith)
                requires
                    a >= 0,
                    first > 0,
            ;
        }
        if d >= 0 {
            d / first
        } else {
            -((-d) / first)
        }
    } else {
        i64::MAX
    }
}

/// By what a listing is put in order.
pub open spec fn key_of(item: ListingWithHistory, sort: Sort) -> int {
    match sort {
        Sort::Recent => 0,
        Sort::BiggestDrop => move_of(item),
        Sort::PricePerM2 => match item.listing.m2_cents() {
            Some(m2) => m2,
            None => i64::MAX as int,
        },
        Sort::Price => item.listing.price_cents as int,
    }
}

/// By what a listing is put in order.
pub fn sort_key(item: &ListingWithHistory, sort: Sort) -> (r: i64)
    requires
        sort == Sort::BiggestDrop ==> move_fits(*item),
    ensures
        r == key_of(*item, sort),
{
    match sort {
        Sort::Recent => 0,
        Sort::BiggestDrop => drop_pct_milli(item),
        Sort::PricePerM2 => match item.listing.price_per_m2_cents() {
            Some(m2) => m2,
            None => i64::MAX,
        },
        Sort::Price => item.listing.price_cents,
    }
}

/// Has the item this key?
pub open spec fn has_key<T>(key: i64) -> spec_fn((i64, T)) -> bool {
    |item: (i64, T)| item.0 == key
}

/// One sequence is another put in order by key, what has equal keys staying in
/// order: keys ascend, and for every key the items are the same ones in the
/// same order.
pub open spec fn stably_sorted<T>(out: Seq<(i64, T)>, items: Seq<(i64, T)>) -> bool {
    &&& forall|i: int, j: int| 0 <= i < j < out.len() ==> (#[trigger] out[i]).0 <= (#[trigger] out[j]).0
    &&& forall|key: i64| #[trigger] out.filter(has_key(key)) == items.filter(has_key(key))
}

proof fn lemma_no_key<T>(s: Seq<(i64, T)>, key: i64)
    requires
        forall|i: int| 0 <= i < s.len() ==> (#[trigger] s[i]).0 != key,
    ensures
        s.filter(has_key(key)) == Seq::<(i64, T)>::empty(),
    decreases s.len(),
{
    if s.len() > 0 {
        let init = s.drop_last();
        assert forall|i: int| 0 <= i < init.len() implies (#[trigger] init[i]).0 != key by {
            assert(init[i] == s[i]);
        }
        lemma_no_key(init, key);
        lemma_filter_push(init, s.last(), has_key::<T>(key));
        assert(init.push(s.last()) =~= s);
        assert(s[s.len() - 1].0 != key);
    } else {
        reveal(Seq::filter);
    }
}

proof fn lemma_insert_sorted<T>(s: Seq<(i64, T)>, p: int, x: (i64, T), key: i64)
    requires
        0 <= p <= s.len(),
        forall|i: int| p <= i < s.len() ==> (#[trigger] s[i]).0 > x.0,
    ensures
        s.insert(p, x).filter(has_key(key)) == s.push(x).filter(has_key(key)),
{
    let pick = has_key::<T>(key);
    let head = s.take(p);
    let tail = s.skip(p);
    assert(s =~= head + tail);
    assert(s.insert(p, x) =~= head.push(x) + tail);
    assert forall|i: int| 0 <= i < tail.len() implies (#[trigger] tail[i]).0 > x.0 by {
        assert(tail[i] == s[p + i]);
    }
    Seq::filter_distributes_over_add(head.push(x), tail, pick);
    Seq::filter_distributes_over_add(head, tail, pick);
    lemma_filter_push(head, x, pick);
    lemma_filter_push(s, x, pick);
    if key == x.0 {
        lemma_no_key(tail, key);
        assert(head.filter(pick).push(x) + tail.filter(pick) =~= (head.filter(pick) + tail.filter(
            pick,
        )).push(x));
    }
}

/// Puts items in order by key; what has equal keys stays in order.
pub fn sorted<T>(items: Vec<(i64, T)>) -> (r: Vec<(i64, T)>)
    ensures
        stably_sorted(r@, items@),
        r@.len() == items@.len(),
{
    let ghost all = items@;
    let mut r: Vec<(i64, T)> = Vec::new();
    proof {
        assert(all.take(0) =~= r@);
    }
    for x in it: items
        invariant
            it.seq() == all,
            stably_sorted(r@, all.take(it.index())),
            r@.len() == it.index(),
    {
        let ghost before = r@;
        let mut p: usize = r.len();
        while p > 0 && r[p - 1].0 > x.0
            invariant
                p <= r@.len(),
                r@ == before,
                forall|i: int| p <= i < r@.len() ==> (#[trigger] r@[i]).0 > x.0,
            decreases p,
        {
            p = p - 1;
        }
        r.insert(p, x);
        proof {
            let done = all.take(it.index());
            assert(r@ =~= before.insert(p as int, x));
            assert(all.take(it.index() + 1) =~= done.push(x));
            assert forall|key: i64| #[trigger] r@.filter(has_key(key)) == done.push(x).filter(
                has_key(key),
            ) by {
                lemma_insert_sorted(before, p as int, x, key);
                lemma_filter_push(before, x, has_key::<T>(key));
                lemma_filter_push(done, x, has_key::<T>(key));
                assert(before.filter(has_key(key)) == done.filter(has_key(key)));
            }
            assert forall|i: int, j: int| 0 <= i < j < r@.len() implies (#[trigger] r@[i]).0
                <= (#[trigger] r@[j]).0 by {
                if j < p {
                    assert(before[i].0 <= before[j].0);
                } else if j == p {
                    assert(before[p - 1].0 <= x.0);
                    if i < p - 1 {
                        assert(before[i].0 <= before[p - 1].0);
                    }
                } else if i < p {
                    assert(before[i].0 <= before[j - 1].0);
                } else if i == p {
                    assert(before[j - 1].0 > x.0);
                } else {
                    assert(before[i - 1].0 <= before[j - 1].0);
                }
            }
        }
    }
    proof {
        assert(all.take(all.len() as int) =~= all);
    }
    r
}

// ---------------------------------------------------------------------------
// Cards

/// A mark on a card: its style and what it says.
#[derive(Debug, Clone, PartialEq)]
pub struct Badge {
    pub class: String,
    pub text: String,
}

pub open spec fn badge_texts(badges: Seq<Badge>) -> Seq<(Seq<char>, Seq<char>)> {
    badges.map_values(|b: Badge| (b.class@, b.text@))
}

/// What a card says of a listing.
pub struct Card {
    pub gone: bool,
    pub price: String,
    /// The price per square metre, where a plausible surface is known.
    pub m2: Option<String>,
    /// The facts, on one line.
    pub facts: String,
    pub badges: Vec<Badge>,
    /// The picture of the price history; none where there is no history.
    pub sparkline: Option<Spark>,
    pub can_dismiss: bool,
    pub can_ban: bool,
    pub can_restore: bool,
}

/// The facts of a listing: type, surface, rooms, plot, commune, source.
pub open spec fn fact_texts(l: Listing) -> Seq<Seq<char>> {
    let kind = seq![l.property_type.label_text()];
    let surface = match l.surface_m2 {
        Some(s) => seq![fixed_text(s, 0) + " m²"@],
        None => Seq::empty(),
    };
    let rooms = match l.rooms {
        Some(n) => seq![int_text(n as int) + " p."@],
        None => Seq::empty(),
    };
    let land = match l.land_m2 {
        Some(s) => seq!["terrain "@ + fixed_text(s, 0) + " m²"@],
        None => Seq::empty(),
    };
    let commune = match l.commune {
        Some(c) => seq![place_text(c@, l.postal_code)],
        None => Seq::empty(),
    };
    kind + surface + rooms + land + commune + seq![l.source_id@]
}

/// A commune, with its postal code where it is known.
pub open spec fn place_text(commune: Seq<char>, postal_code: Option<String>) -> Seq<char> {
    match postal_code {
        Some(cp) => commune + " ("@ + cp@ + ")"@,
        None => commune,
    }
}

pub fn place(commune: &str, postal_code: &Option<String>) -> (r: String)
    ensures
        r@ == place_text(commune@, *postal_code),
{
    match postal_code {
        Some(cp) => commune.to_owned().concat(" (").concat(cp.as_str()).concat(")"),
        None => commune.to_owned(),
    }
}

/// The price has moved since the first observation.
pub open spec fn has_moved(item: ListingWithHistory) -> bool {
    item.history@.len() > 0 && item.history@[0].price_cents > 0 && item.history@[0].price_cents
        != item.listing.price_cents
}

/// How far the price has moved is a number that an `i64` holds.
pub open spec fn moves_within_range(item: ListingWithHistory) -> bool {
    has_moved(item) ==> i64::MIN <= item.listing.price_cents - item.history@[0].price_cents
        <= i64::MAX
}

/// Does an `i64` hold how far the price has moved?
pub fn has_move_in_range(item: &ListingWithHistory) -> (r: bool)
    ensures
        r == moves_within_range(*item),
{
    if item.history.len() > 0 && item.history[0].price_cents > 0 && item.history[0].price_cents
        != item.listing.price_cents {
        let d: i128 = item.listing.price_cents as i128 - item.history[0].price_cents as i128;
        d >= i64::MIN as i128 && d <= i64::MAX as i128
    } else {
        true
    }
}

/// The marks on a card, in order: energy rating, price move, wanted ad,
/// verdict, gone.
pub open spec fn marks(item: ListingWithHistory) -> Seq<(Seq<char>, Seq<char>)> {
    let l = item.listing;
    let dpe = match l.dpe {
        Some(d) => seq![("badge dpe dpe-"@ + d@, "DPE "@ + uppercase(d@))],
        None => Seq::empty(),
    };
    let delta = if has_moved(item) {
        seq![
            (
                if l.price_cents < item.history@[0].price_cents {
                    "badge ok"@
                } else {
                    "badge warn"@
                },
                move_text(l.price_cents as int, item.history@[0].price_cents as int)
                    + "% depuis publication"@,
            ),
        ]
    } else {
        Seq::empty()
    };
    let wanted = if l.wanted() {
        seq![("badge muted"@, "recherche (pas une offre)"@)]
    } else {
        Seq::empty()
    };
    let verdict = match l.moderation {
        Moderation::Dismissed => seq![("badge muted"@, "masquée"@)],
        Moderation::Banned => seq![("badge bad"@, "bannie"@)],
        Moderation::Unmoderated => Seq::empty(),
    };
    let gone = if l.status == ListingStatus::Gone {
        seq![("badge muted"@, "disparue"@)]
    } else {
        Seq::empty()
    };
    dpe + delta + wanted + verdict + gone
}

fn facts_of(l: &Listing) -> (r: Vec<String>)
    ensures
        texts(r@) == fact_texts(*l),
{
    let mut facts: Vec<String> = Vec::new();
    facts.push(l.property_type.label().to_owned());
    if let Some(s) = l.surface_m2 {
        facts.push(whole_text(s).concat(" m²"));
    }
    if let Some(n) = l.rooms {
        let mut s = String::new();
        push_int(&mut s, n);
        s.append(" p.");
        proof {
            assert(s@ =~= int_text(n as int) + " p."@);
        }
        facts.push(s);
    }
    if let Some(s) = l.land_m2 {
        let land = whole_text(s);
        facts.push("terrain ".to_owned().concat(land.as_str()).concat(" m²"));
    }
    if let Some(c) = &l.commune {
        facts.push(place(c.as_str(), &l.postal_code));
    }
    facts.push(l.source_id.clone());
    proof {
        assert(texts(facts@) =~= fact_texts(*l));
    }
    facts
}

fn badge(class: &str, text: &str) -> (r: Badge)
    ensures
        r.class@ == class@,
        r.text@ == text@,
{
    Badge { class: class.to_owned(), text: text.to_owned() }
}

fn badges_of(item: &ListingWithHistory) -> (r: Vec<Badge>)
    requires
        moves_within_range(*item),
    ensures
        badge_texts(r@) == marks(*item),
{
    let l = &item.listing;
    let mut badges: Vec<Badge> = Vec::new();
    if let Some(d) = &l.dpe {
        let upper = to_upper(d.as_str());
        badges.push(
            Badge {
                class: "badge dpe dpe-".to_owned().concat(d.as_str()),
                text: "DPE ".to_owned().concat(upper.as_str()),
            },
        );
    }
    if item.history.len() > 0 && item.history[0].price_cents > 0 && item.history[0].price_cents
        != l.price_cents {
        let class = if l.price_cents < item.history[0].price_cents {
            "badge ok"
        } else {
            "badge warn"
        };
        let text = percent_move(l.price_cents, item.history[0].price_cents).concat(
            "% depuis publication",
        );
        badges.push(Badge { class: class.to_owned(), text });
    }
    if !notification_worthy(l) {
        badges.push(badge("badge muted", "recherche (pas une offre)"));
    }
    match l.moderation {
        Moderation::Dismissed => {
            badges.push(badge("badge muted", "masquée"));
        },
        Moderation::Banned => {
            badges.push(badge("badge bad", "bannie"));
        },
        Moderation::Unmoderated => {},
    }
    if l.status == ListingStatus::Gone {
        badges.push(badge("badge muted", "disparue"));
    }
    proof {
        assert(badge_texts(badges@) =~= marks(*item));
    }
    badges
}

/// What a card says of a listing, with the picture of its price history, and
/// which verdicts it offers: every one but the present one.
pub fn listing_card(item: &ListingWithHistory) -> (r: Card)
    requires
        moves_within_range(*item),
        span_fits(values(item.history@)),
        item.history@.len() <= i64::MAX,
    ensures
        r.gone == (item.listing.status == ListingStatus::Gone),
        r.price@ == price_label(item.listing.price_cents as int),
        match r.m2 {
            Some(m2) => item.listing.m2_cents() is Some && m2@ == int_text(
                whole_euros(item.listing.m2_cents()->0),
            ) + " €/m²"@,
            None => item.listing.m2_cents() is None,
        },
        r.facts@ == join(fact_texts(item.listing), " · "@),
        badge_texts(r.badges@) == marks(*item),
        match r.sparkline {
            Some(s) => item.history@.len() > 0 && pictures(s, item.history@, "EUR"@),
            None => item.history@.len() == 0,
        },
        r.can_dismiss == (item.listing.moderation != Moderation::Dismissed),
        r.can_ban == (item.listing.moderation != Moderation::Banned),
        r.can_restore == (item.listing.moderation != Moderation::Unmoderated),
{
    let l = &item.listing;
    let m2 = match l.price_per_m2_cents() {
        Some(ratio) => {
            let mut s = String::new();
            push_int(&mut s, euros(ratio));
            s.append(" €/m²");
            proof {
                assert(s@ =~= int_text(whole_euros(ratio as int)) + " €/m²"@);
            }
            Some(s)
        },
        None => None,
    };
    let facts = facts_of(l);
    Card {
        gone: l.status == ListingStatus::Gone,
        price: format_price(l.price_cents),
        m2,
        facts: joined(&facts, " · "),
        badges: badges_of(item),
        sparkline: sparkline(&item.history, "EUR"),
        can_dismiss: l.moderation != Moderation::Dismissed,
        can_ban: l.moderation != Moderation::Banned,
        can_restore: l.moderation != Moderation::Unmoderated,
    }
}

/// What the page says where there is no listing to show.
pub fn empty_text(show_hidden: bool) -> (r: &'static str)
    ensures
        r@ == if show_hidden {
            "Rien de masqué ni banni."@
        } else {
            "Aucune annonce — elles arrivent dès qu'une recherche active alimente les sources."@
        },
{
    if show_hidden {
        "Rien de masqué ni banni."
    } else {
        "Aucune annonce — elles arrivent dès qu'une recherche active alimente les sources."
    }
}

} // verus!
