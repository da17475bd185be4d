//! Zone names and classification. The responder owns one root domain; six
//! special-purpose zones are derived from it by prefixing a fixed label. A
//! query name is classified by case-insensitive, label-for-label suffix
//! matching, most specific zone first — the root matches every in-domain
//! name, so it must come last.

use vstd::prelude::*;
use crate::text::{bytes_eq_ci, label_lower, lemma_vec_u8_deep_view, split_bytes, split_on, DOT};
use crate::types::Zone;

verus! {

broadcast use lemma_vec_u8_deep_view;

/// The label that derives the counter zone: "counter".
pub open spec fn counter_tag() -> Seq<u8> {
    seq!['c' as u8, 'o' as u8, 'u' as u8, 'n' as u8, 't' as u8, 'e' as u8, 'r' as u8]
}

/// The label that derives the myip zone: "myip".
pub open spec fn myip_tag() -> Seq<u8> {
    seq!['m' as u8, 'y' as u8, 'i' as u8, 'p' as u8]
}

/// The label that derives the coin zone: "coin".
pub open spec fn coin_tag() -> Seq<u8> {
    seq!['c' as u8, 'o' as u8, 'i' as u8, 'n' as u8]
}

/// The label that derives the dice zone: "dice".
pub open spec fn dice_tag() -> Seq<u8> {
    seq!['d' as u8, 'i' as u8, 'c' as u8, 'e' as u8]
}

/// The label that derives the cidr zone: "cidr".
pub open spec fn cidr_tag() -> Seq<u8> {
    seq!['c' as u8, 'i' as u8, 'd' as u8, 'r' as u8]
}

/// The label that derives the time zone: "time".
pub open spec fn time_tag() -> Seq<u8> {
    seq!['t' as u8, 'i' as u8, 'm' as u8, 'e' as u8]
}

fn make_tag_counter() -> (r: Vec<u8>)
    ensures
        r@ == counter_tag(),
{
    let r = vec!['c' as u8, 'o' as u8, 'u' as u8, 'n' as u8, 't' as u8, 'e' as u8, 'r' as u8];
    proof {
        assert(r@ =~= counter_tag());
    }
    r
}

fn make_tag_myip() -> (r: Vec<u8>)
    ensures
        r@ == myip_tag(),
{
    let r = vec!['m' as u8, 'y' as u8, 'i' as u8, 'p' as u8];
    proof {
        assert(r@ =~= myip_tag());
    }
    r
}

fn make_tag_coin() -> (r: Vec<u8>)
    ensures
        r@ == coin_tag(),
{
    let r = vec!['c' as u8, 'o' as u8, 'i' as u8, 'n' as u8];
    proof {
        assert(r@ =~= coin_tag());
    }
    r
}

fn make_tag_dice() -> (r: Vec<u8>)
    ensures
        r@ == dice_tag(),
{
    let r = vec!['d' as u8, 'i' as u8, 'c' as u8, 'e' as u8];
    proof {
        assert(r@ =~= dice_tag());
    }
    r
}

fn make_tag_cidr() -> (r: Vec<u8>)
    ensures
        r@ == cidr_tag(),
{
    let r = vec!['c' as u8, 'i' as u8, 'd' as u8, 'r' as u8];
    proof {
        assert(r@ =~= cidr_tag());
    }
    r
}

fn make_tag_time() -> (r: Vec<u8>)
    ensures
        r@ == time_tag(),
{
    let r = vec!['t' as u8, 'i' as u8, 'm' as u8, 'e' as u8];
    proof {
        assert(r@ =~= time_tag());
    }
    r
}

/// Name `name` is in zone `zone`: every label of the zone is a trailing
/// label-for-label suffix of the name, up to ASCII case.
pub open spec fn zone_of(zone: Seq<Seq<u8>>, name: Seq<Seq<u8>>) -> bool {
    &&& zone.len() <= name.len()
    &&& forall|i: int|
        0 <= i < zone.len() ==> label_lower(#[trigger] name[name.len() - zone.len() + i])
            == label_lower(zone[i])
}

/// Suffix matching is transitive along derivation: a name in a derived zone
/// (tag prepended to the root) is in the root zone as well.
pub proof fn lemma_zone_of_derived(tag: Seq<u8>, root: Seq<Seq<u8>>, name: Seq<Seq<u8>>)
    requires
        zone_of(seq![tag] + root, name),
    ensures
        zone_of(root, name),
{
    let derived = seq![tag] + root;
    assert forall|i: int| 0 <= i < root.len() implies label_lower(
        #[trigger] name[name.len() - root.len() + i],
    ) == label_lower(root[i]) by {
        assert(derived[i + 1] == root[i]);
        assert(label_lower(name[name.len() - derived.len() + (i + 1)]) == label_lower(
            derived[i + 1],
        ));
    }
}

/// Checks the suffix match of `zone` against `name`.
pub fn zone_contains(zone: &Vec<Vec<u8>>, name: &Vec<Vec<u8>>) -> (r: bool)
    ensures
        r == zone_of(zone.deep_view(), name.deep_view()),
{
    let zn = zone.len();
    let nn = name.len();
    if zn > nn {
        return false;
    }
    let off = nn - zn;
    let mut i: usize = 0;
    while i < zn
        invariant
            i <= zn,
            zn == zone@.len(),
            nn == name@.len(),
            off == nn - zn,
            forall|j: int|
                0 <= j < i ==> label_lower(#[trigger] name.deep_view()[off + j]) == label_lower(
                    zone.deep_view()[j],
                ),
        decreases zn - i,
    {
        if !bytes_eq_ci(&name[off + i], &zone[i]) {
            proof {
                assert(name.deep_view()[off + i as int] == name@[off + i as int]@);
                assert(zone.deep_view()[i as int] == zone@[i as int]@);
            }
            return false;
        }
        proof {
            assert(name.deep_view()[off + i as int] == name@[off + i as int]@);
            assert(zone.deep_view()[i as int] == zone@[i as int]@);
        }
        i += 1;
    }
    true
}

/// The zone configuration: the root domain's labels and the six derived zone
/// names, computed once at startup and immutable afterwards.
#[derive(Clone, Debug)]
pub struct Handler {
    pub root_zone: Vec<Vec<u8>>,
    pub counter_zone: Vec<Vec<u8>>,
    pub myip_zone: Vec<Vec<u8>>,
    pub coin_zone: Vec<Vec<u8>>,
    pub dice_zone: Vec<Vec<u8>>,
    pub cidr_zone: Vec<Vec<u8>>,
    pub time_zone: Vec<Vec<u8>>,
}

impl Handler {
    /// Each derived zone is its fixed label prepended to the root domain.
    pub open spec fn wf(self) -> bool {
        &&& self.counter_zone.deep_view() == seq![counter_tag()] + self.root_zone.deep_view()
        &&& self.myip_zone.deep_view() == seq![myip_tag()] + self.root_zone.deep_view()
        &&& self.coin_zone.deep_view() == seq![coin_tag()] + self.root_zone.deep_view()
        &&& self.dice_zone.deep_view() == seq![dice_tag()] + self.root_zone.deep_view()
        &&& self.cidr_zone.deep_view() == seq![cidr_tag()] + self.root_zone.deep_view()
        &&& self.time_zone.deep_view() == seq![time_tag()] + self.root_zone.deep_view()
    }

    /// Builds the zone set for one root domain, given as a dot-separated byte
    /// string, exactly as the server's options carry it.
    pub fn from_options(domain: &Vec<u8>) -> (r: Handler)
        ensures
            r.root_zone.deep_view() == split_bytes(domain@, DOT),
            r.wf(),
    {
        let root_zone = split_on(domain, DOT);
        let counter_zone = derive_zone(make_tag_counter(), &root_zone);
        let myip_zone = derive_zone(make_tag_myip(), &root_zone);
        let coin_zone = derive_zone(make_tag_coin(), &root_zone);
        let dice_zone = derive_zone(make_tag_dice(), &root_zone);
        let cidr_zone = derive_zone(make_tag_cidr(), &root_zone);
        let time_zone = derive_zone(make_tag_time(), &root_zone);
        Handler { root_zone, counter_zone, myip_zone, coin_zone, dice_zone, cidr_zone, time_zone }
    }

    /// The classification verdict for a name, in fixed precedence order. The
    /// order is a correctness property: every derived zone name is itself a
    /// suffix match for the root, so the root must be tried last.
    pub open spec fn classify_spec(self, name: Seq<Seq<u8>>) -> Option<Zone> {
        if zone_of(self.myip_zone.deep_view(), name) {
            Some(Zone::MyIp)
        } else if zone_of(self.counter_zone.deep_view(), name) {
            Some(Zone::Counter)
        } else if zone_of(self.coin_zone.deep_view(), name) {
            Some(Zone::Coin)
        } else if zone_of(self.dice_zone.deep_view(), name) {
            Some(Zone::Dice)
        } else if zone_of(self.cidr_zone.deep_view(), name) {
            Some(Zone::Cidr)
        } else if zone_of(self.time_zone.deep_view(), name) {
            Some(Zone::Time)
        } else if zone_of(self.root_zone.deep_view(), name) {
            Some(Zone::Root)
        } else {
            None
        }
    }

    /// Classifies a query name.
    pub fn classify(&self, name: &Vec<Vec<u8>>) -> (r: Option<Zone>)
        ensures
            r == self.classify_spec(name.deep_view()),
    {
        if zone_contains(&self.myip_zone, name) {
            Some(Zone::MyIp)
        } else if zone_contains(&self.counter_zone, name) {
            Some(Zone::Counter)
        } else if zone_contains(&self.coin_zone, name) {
            Some(Zone::Coin)
        } else if zone_contains(&self.dice_zone, name) {
            Some(Zone::Dice)
        } else if zone_contains(&self.cidr_zone, name) {
            Some(Zone::Cidr)
        } else if zone_contains(&self.time_zone, name) {
            Some(Zone::Time)
        } else if zone_contains(&self.root_zone, name) {
            Some(Zone::Root)
        } else {
            None
        }
    }
}

/// A name that shares no suffix with the root domain is classified into no
/// zone at all.
pub proof fn lemma_unmatched_name_unclassified(h: Handler, name: Seq<Seq<u8>>)
    requires
        h.wf(),
        !zone_of(h.root_zone.deep_view(), name),
    ensures
        h.classify_spec(name) is None,
{
    let root = h.root_zone.deep_view();
    if zone_of(h.myip_zone.deep_view(), name) {
        lemma_zone_of_derived(myip_tag(), root, name);
    }
    if zone_of(h.counter_zone.deep_view(), name) {
        lemma_zone_of_derived(counter_tag(), root, name);
    }
    if zone_of(h.coin_zone.deep_view(), name) {
        lemma_zone_of_derived(coin_tag(), root, name);
    }
    if zone_of(h.dice_zone.deep_view(), name) {
        lemma_zone_of_derived(dice_tag(), root, name);
    }
    if zone_of(h.cidr_zone.deep_view(), name) {
        lemma_zone_of_derived(cidr_tag(), root, name);
    }
    if zone_of(h.time_zone.deep_view(), name) {
        lemma_zone_of_derived(time_tag(), root, name);
    }
}

proof fn lemma_derived_under_root(tag: Seq<u8>, root: Seq<Seq<u8>>)
    ensures
        zone_of(root, seq![tag] + root),
        (seq![tag] + root).len() > root.len(),
{
    let d = seq![tag] + root;
    assert forall|i: int| 0 <= i < root.len() implies label_lower(
        #[trigger] d[d.len() - root.len() + i],
    ) == label_lower(root[i]) by {
        assert(d[1 + i] == root[i]);
    }
}

/// The six derived zone names are pairwise distinct, and each is a strict
/// sub-name of the root domain — which is why classification must try all
/// six before falling back to the root.
pub proof fn lemma_derived_zones_well_formed(h: Handler)
    requires
        h.wf(),
    ensures
        h.counter_zone.deep_view() != h.myip_zone.deep_view(),
        h.counter_zone.deep_view() != h.coin_zone.deep_view(),
        h.counter_zone.deep_view() != h.dice_zone.deep_view(),
        h.counter_zone.deep_view() != h.cidr_zone.deep_view(),
        h.counter_zone.deep_view() != h.time_zone.deep_view(),
        h.myip_zone.deep_view() != h.coin_zone.deep_view(),
        h.myip_zone.deep_view() != h.dice_zone.deep_view(),
        h.myip_zone.deep_view() != h.cidr_zone.deep_view(),
        h.myip_zone.deep_view() != h.time_zone.deep_view(),
        h.coin_zone.deep_view() != h.dice_zone.deep_view(),
        h.coin_zone.deep_view() != h.cidr_zone.deep_view(),
        h.coin_zone.deep_view() != h.time_zone.deep_view(),
        h.dice_zone.deep_view() != h.cidr_zone.deep_view(),
        h.dice_zone.deep_view() != h.time_zone.deep_view(),
        h.cidr_zone.deep_view() != h.time_zone.deep_view(),
        zone_of(h.root_zone.deep_view(), h.counter_zone.deep_view()),
        zone_of(h.root_zone.deep_view(), h.myip_zone.deep_view()),
        zone_of(h.root_zone.deep_view(), h.coin_zone.deep_view()),
        zone_of(h.root_zone.deep_view(), h.dice_zone.deep_view()),
        zone_of(h.root_zone.deep_view(), h.cidr_zone.deep_view()),
        zone_of(h.root_zone.deep_view(), h.time_zone.deep_view()),
        h.counter_zone.deep_view().len() > h.root_zone.deep_view().len(),
        h.myip_zone.deep_view().len() > h.root_zone.deep_view().len(),
        h.coin_zone.deep_view().len() > h.root_zone.deep_view().len(),
        h.dice_zone.deep_view().len() > h.root_zone.deep_view().len(),
        h.cidr_zone.deep_view().len() > h.root_zone.deep_view().len(),
        h.time_zone.deep_view().len() > h.root_zone.deep_view().len(),
{
    let root = h.root_zone.deep_view();
    lemma_derived_under_root(counter_tag(), root);
    lemma_derived_under_root(myip_tag(), root);
    lemma_derived_under_root(coin_tag(), root);
    lemma_derived_under_root(dice_tag(), root);
    lemma_derived_under_root(cidr_tag(), root);
    lemma_derived_under_root(time_tag(), root);
    assert(counter_tag().len() != myip_tag().len());
    assert(counter_tag().len() != coin_tag().len());
    assert(counter_tag().len() != dice_tag().len());
    assert(counter_tag().len() != cidr_tag().len());
    assert(counter_tag().len() != time_tag().len());
    assert(myip_tag()[0] != coin_tag()[0]);
    assert(myip_tag()[0] != dice_tag()[0]);
    assert(myip_tag()[0] != cidr_tag()[0]);
    assert(myip_tag()[0] != time_tag()[0]);
    assert(coin_tag()[1] != dice_tag()[1]);
    assert(coin_tag()[1] != cidr_tag()[1]);
    assert(coin_tag()[0] != time_tag()[0]);
    assert(dice_tag()[0] != cidr_tag()[0]);
    assert(dice_tag()[0] != time_tag()[0]);
    assert(cidr_tag()[0] != time_tag()[0]);
    assert(h.counter_zone.deep_view()[0] == counter_tag());
    assert(h.myip_zone.deep_view()[0] == myip_tag());
    assert(h.coin_zone.deep_view()[0] == coin_tag());
    assert(h.dice_zone.deep_view()[0] == dice_tag());
    assert(h.cidr_zone.deep_view()[0] == cidr_tag());
    assert(h.time_zone.deep_view()[0] == time_tag());
}

/// Prepends a zone's fixed label to the root domain's labels.
fn derive_zone(tag: Vec<u8>, root: &Vec<Vec<u8>>) -> (r: Vec<Vec<u8>>)
    ensures
        r.deep_view() == seq![tag@] + root.deep_view(),
{
    let ghost gtag = tag@;
    let mut r = crate::types::copy_labels(root);
    r.insert(0, tag);
    proof {
        assert(r.deep_view() =~~= seq![gtag] + root.deep_view());
    }
    r
}

} // verus!
