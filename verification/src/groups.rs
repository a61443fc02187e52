//! Grouping the types of a chart by how they fare against one type, or
//! against up to three types at once.
//!
//! Against several types the multipliers are multiplied. A factor that is
//! unknown is left out of the product and leaves a confidence marker `?` on
//! the label instead; a type of which every factor is unknown is not listed.

use crate::effectiveness::{
    base_label, label_text, lemma_label_texts, markers, write_label, ChartError, Effectiveness,
    Multiplier,
};
use crate::type_chart::{texts, ChartView, TypeChart};
use vstd::prelude::*;

verus! {

/// What becomes of one type in a grouping.
pub enum Verdict {
    /// Nothing is known of it: it is left out.
    Omitted,
    /// It is listed under this label.
    Listed(Seq<char>),
    /// Its combined multiplier, with its markers, has no label.
    Unlabelled,
}

/// The product of the known values and the number of unknown ones.
pub open spec fn tally(values: Seq<Effectiveness>) -> (Multiplier, nat)
    decreases values.len(),
{
    if values.len() == 0 {
        (Multiplier::PowerOfTwo(0i8), 0nat)
    } else {
        let before = tally(values.drop_last());
        match values.last() {
            Effectiveness::Unknown => (before.0, before.1 + 1),
            Effectiveness::Known(m) => (before.0.times(m), before.1),
        }
    }
}

/// Whether a combined multiplier with `unknown` confidence markers has a
/// label. There are sixteen labels: `Immune`, which never takes a marker, and
/// each power of two from 1/8 to 8 with as many markers, two at most, as leave
/// it within what three factors of 1/2, 1 or 2 can give.
pub open spec fn has_label(product: Multiplier, unknown: nat) -> bool {
    match product {
        Multiplier::Zero => true,
        Multiplier::PowerOfTwo(k) => unknown <= 2 && -3 <= k - unknown && k + unknown <= 3,
    }
}

/// What becomes of a type whose factors are `values`.
pub open spec fn verdict(values: Seq<Effectiveness>) -> Verdict {
    let (product, unknown) = tally(values);
    if unknown == values.len() {
        Verdict::Omitted
    } else if has_label(product, unknown) {
        Verdict::Listed(label_text(Effectiveness::Known(product), unknown))
    } else {
        Verdict::Unlabelled
    }
}

/// What becomes of a type of which one value is recorded: it is listed under
/// the value's label, unless the value is unknown.
pub open spec fn listing(value: Effectiveness) -> Verdict {
    match value {
        Effectiveness::Unknown => Verdict::Omitted,
        Effectiveness::Known(m) => Verdict::Listed(base_label(m)),
    }
}

/// The names of `order` under their labels: each label that some name is
/// listed under, with the names listed under it in the order of `order`.
pub open spec fn grouped(order: Seq<Seq<char>>, fate: spec_fn(Seq<char>) -> Verdict) -> Map<
    Seq<char>,
    Seq<Seq<char>>,
> {
    Map::new(
        |label: Seq<char>|
            exists|i: int| 0 <= i < order.len() && #[trigger] fate(order[i]) == Verdict::Listed(label),
        |label: Seq<char>| listed_under(order, fate, label),
    )
}

/// The names of `order` that are listed under `label`, in their order.
pub open spec fn listed_under(
    order: Seq<Seq<char>>,
    fate: spec_fn(Seq<char>) -> Verdict,
    label: Seq<char>,
) -> Seq<Seq<char>> {
    order.filter(|name: Seq<char>| fate(name) == Verdict::Listed(label))
}

/// Going one name further along `order` adds that name to the names under
/// its label and to no others.
pub proof fn lemma_listed_step(
    order: Seq<Seq<char>>,
    fate: spec_fn(Seq<char>) -> Verdict,
    label: Seq<char>,
    i: int,
)
    requires
        0 <= i < order.len(),
    ensures
        listed_under(order.take(i + 1), fate, label) == if fate(order[i]) == Verdict::Listed(label) {
            listed_under(order.take(i), fate, label).push(order[i])
        } else {
            listed_under(order.take(i), fate, label)
        },
{
    reveal(Seq::filter);
    assert(order.take(i + 1).drop_last() =~= order.take(i));
}

/// Two ways of judging that agree on every name of `order` list the same
/// names under a label.
pub proof fn lemma_listed_agree(
    order: Seq<Seq<char>>,
    one: spec_fn(Seq<char>) -> Verdict,
    other: spec_fn(Seq<char>) -> Verdict,
    label: Seq<char>,
)
    requires
        forall|i: int| 0 <= i < order.len() ==> one(#[trigger] order[i]) == other(order[i]),
    ensures
        listed_under(order, one, label) == listed_under(order, other, label),
    decreases order.len(),
{
    reveal(Seq::filter);
    if order.len() > 0 {
        let front = order.drop_last();
        assert forall|i: int| 0 <= i < front.len() implies one(#[trigger] front[i]) == other(
            front[i],
        ) by {
            assert(front[i] == order[i]);
        }
        lemma_listed_agree(front, one, other, label);
        assert(one(order[order.len() - 1]) == other(order[order.len() - 1]));
    }
}

/// Two ways of judging that agree on every name of `order` give the same
/// grouping.
pub proof fn lemma_grouped_agree(
    order: Seq<Seq<char>>,
    one: spec_fn(Seq<char>) -> Verdict,
    other: spec_fn(Seq<char>) -> Verdict,
)
    requires
        forall|i: int| 0 <= i < order.len() ==> one(#[trigger] order[i]) == other(order[i]),
    ensures
        grouped(order, one) == grouped(order, other),
{
    let a = grouped(order, one);
    let b = grouped(order, other);
    assert forall|label: Seq<char>| a.dom().contains(label) == b.dom().contains(label) by {
        if a.dom().contains(label) {
            let i = choose|i: int|
                0 <= i < order.len() && #[trigger] one(order[i]) == Verdict::Listed(label);
            assert(other(order[i]) == Verdict::Listed(label));
        }
        if b.dom().contains(label) {
            let i = choose|i: int|
                0 <= i < order.len() && #[trigger] other(order[i]) == Verdict::Listed(label);
            assert(one(order[i]) == Verdict::Listed(label));
        }
    }
    assert forall|label: Seq<char>| a.dom().contains(label) implies a[label] == b[label] by {
        lemma_listed_agree(order, one, other, label);
    }
    assert(a =~= b);
}

/// The types that are asked about: the first, then the second and the third
/// where they are given.
pub open spec fn targets(
    first: Seq<char>,
    second: Option<Seq<char>>,
    third: Option<Seq<char>>,
) -> Seq<Seq<char>> {
    let one = seq![first];
    let two = match second {
        Some(name) => one.push(name),
        None => one,
    };
    match third {
        Some(name) => two.push(name),
        None => two,
    }
}

/// What is recorded of `attacker` against each of `defenders`.
pub open spec fn factors(chart: ChartView, attacker: Seq<char>, defenders: Seq<Seq<char>>) -> Seq<
    Effectiveness,
> {
    Seq::new(defenders.len(), |k: int| chart.cell(attacker, defenders[k]))
}

/// The defenders of the chart under the label of what `attacker` does to them.
pub open spec fn attacking_groups(chart: ChartView, attacker: Seq<char>) -> Map<
    Seq<char>,
    Seq<Seq<char>>,
> {
    grouped(chart.type_order, |defender: Seq<char>| listing(chart.cell(attacker, defender)))
}

/// The attackers of the chart under the label of what they do to `defender`.
pub open spec fn defensive_groups(chart: ChartView, defender: Seq<char>) -> Map<
    Seq<char>,
    Seq<Seq<char>>,
> {
    grouped(chart.type_order, |attacker: Seq<char>| listing(chart.cell(attacker, defender)))
}

/// The attackers of the chart under the label of what they do to a defender
/// that has all the types of `defenders` at once.
pub open spec fn combined_groups(chart: ChartView, defenders: Seq<Seq<char>>) -> Map<
    Seq<char>,
    Seq<Seq<char>>,
> {
    grouped(chart.type_order, |attacker: Seq<char>| verdict(factors(chart, attacker, defenders)))
}

/// Some attacker's combined multiplier against `defenders` has no label.
pub open spec fn has_unlabelled(chart: ChartView, defenders: Seq<Seq<char>>) -> bool {
    exists|i: int|
        0 <= i < chart.type_order.len() && verdict(
            factors(chart, #[trigger] chart.type_order[i], defenders),
        ) == Verdict::Unlabelled
}

/// The number of labels.
pub const LABELS: usize = 16;

/// The multiplier and the number of markers of the label at `slot`, in the
/// order in which the labels are shown: from `Immune` up to
/// `Triple Super Effective`, fewer markers first.
pub open spec fn slot_key(slot: int) -> (Multiplier, nat) {
    if slot == 0 {
        (Multiplier::Zero, 0)
    } else if slot == 1 {
        (Multiplier::PowerOfTwo(-3i8), 0)
    } else if slot <= 3 {
        (Multiplier::PowerOfTwo(-2i8), (slot - 2) as nat)
    } else if slot <= 6 {
        (Multiplier::PowerOfTwo(-1i8), (slot - 4) as nat)
    } else if slot <= 9 {
        (Multiplier::PowerOfTwo(0i8), (slot - 7) as nat)
    } else if slot <= 12 {
        (Multiplier::PowerOfTwo(1i8), (slot - 10) as nat)
    } else if slot <= 14 {
        (Multiplier::PowerOfTwo(2i8), (slot - 13) as nat)
    } else {
        (Multiplier::PowerOfTwo(3i8), 0)
    }
}

/// The label at `slot`.
pub open spec fn slot_label(slot: int) -> Seq<char> {
    label_text(Effectiveness::Known(slot_key(slot).0), slot_key(slot).1)
}

/// The slot of a combined multiplier with `unknown` markers that has a label.
pub open spec fn slot_of(product: Multiplier, unknown: nat) -> int
    recommends
        has_label(product, unknown),
{
    match product {
        Multiplier::Zero => 0,
        Multiplier::PowerOfTwo(k) => if k == -3 {
            1
        } else if k == -2 {
            2 + unknown as int
        } else if k == -1 {
            4 + unknown as int
        } else if k == 0 {
            7 + unknown as int
        } else if k == 1 {
            10 + unknown as int
        } else if k == 2 {
            13 + unknown as int
        } else {
            15
        },
    }
}

/// A labelled multiplier has one of the sixteen slots, and the slot's label
/// is its own.
pub proof fn lemma_slot_of(product: Multiplier, unknown: nat)
    requires
        has_label(product, unknown),
    ensures
        0 <= slot_of(product, unknown) < LABELS,
        slot_label(slot_of(product, unknown)) == label_text(Effectiveness::Known(product), unknown),
{
}

/// The place of a label among the sixteen.
pub open spec fn label_place(label: Seq<char>) -> int {
    choose|slot: int| 0 <= slot < LABELS && slot_label(slot) == label
}

/// Each of the sixteen labels has its own place.
pub proof fn lemma_label_place(slot: int)
    requires
        0 <= slot < LABELS,
    ensures
        label_place(slot_label(slot)) == slot,
{
    let place = label_place(slot_label(slot));
    if place != slot {
        lemma_labels_differ(place, slot);
    }
}

/// The sixteen labels differ from each other.
pub proof fn lemma_labels_differ(one: int, other: int)
    requires
        0 <= one < LABELS,
        0 <= other < LABELS,
        one != other,
    ensures
        slot_label(one) != slot_label(other),
{
    lemma_label_texts();
    let a = slot_label(one);
    let b = slot_label(other);
    let ka = slot_key(one);
    let kb = slot_key(other);
    assert(a.len() == base_label(ka.0).len() + (if one == 0 {
        0
    } else {
        ka.1 as int
    }));
    assert(b.len() == base_label(kb.0).len() + (if other == 0 {
        0
    } else {
        kb.1 as int
    }));
    if a.len() == b.len() {
        assert(a[0] == base_label(ka.0)[0]);
        assert(b[0] == base_label(kb.0)[0]);
        assert(a[0] != b[0]);
    }
}

/// The slot of a combined multiplier with `unknown` markers, if it has a label.
pub fn label_slot(product: Multiplier, unknown: usize) -> (slot: Option<usize>)
    ensures
        slot == if has_label(product, unknown as nat) {
            Some(slot_of(product, unknown as nat) as usize)
        } else {
            None
        },
{
    match product {
        Multiplier::Zero => Some(0),
        Multiplier::PowerOfTwo(k) => {
            if unknown > 2 {
                None
            } else if k == -3 && unknown == 0 {
                Some(1)
            } else if k == -2 && unknown <= 1 {
                Some(2 + unknown)
            } else if k == -1 {
                Some(4 + unknown)
            } else if k == 0 {
                Some(7 + unknown)
            } else if k == 1 {
                Some(10 + unknown)
            } else if k == 2 && unknown <= 1 {
                Some(13 + unknown)
            } else if k == 3 && unknown == 0 {
                Some(15)
            } else {
                None
            }
        },
    }
}

/// The text of the label at `slot`.
pub fn slot_text(slot: usize) -> (text: String)
    requires
        slot < LABELS,
    ensures
        text@ == slot_label(slot as int),
{
    let (multiplier, unknown): (Multiplier, usize) = if slot == 0 {
        (Multiplier::Zero, 0)
    } else if slot == 1 {
        (Multiplier::PowerOfTwo(-3), 0)
    } else if slot <= 3 {
        (Multiplier::PowerOfTwo(-2), slot - 2)
    } else if slot <= 6 {
        (Multiplier::PowerOfTwo(-1), slot - 4)
    } else if slot <= 9 {
        (Multiplier::PowerOfTwo(0), slot - 7)
    } else if slot <= 12 {
        (Multiplier::PowerOfTwo(1), slot - 10)
    } else if slot <= 14 {
        (Multiplier::PowerOfTwo(2), slot - 13)
    } else {
        (Multiplier::PowerOfTwo(3), 0)
    };
    write_label(Effectiveness::Known(multiplier), unknown)
}

/// The sixteen labels, in the order in which they are shown.
pub fn all_possible_effectivenesses() -> (labels: Vec<String>)
    ensures
        labels@.len() == LABELS,
        forall|slot: int| 0 <= slot < LABELS ==> (#[trigger] labels@[slot])@ == slot_label(slot),
{
    let mut labels: Vec<String> = Vec::new();
    let mut slot: usize = 0;
    while slot < LABELS
        invariant
            slot <= LABELS,
            labels@.len() == slot,
            forall|k: int| 0 <= k < slot ==> (#[trigger] labels@[k])@ == slot_label(k),
        decreases LABELS - slot,
    {
        labels.push(slot_text(slot));
        slot = slot + 1;
    }
    labels
}

/// Names under labels: what a query answers.
#[derive(Debug)]
pub struct Grouping {
    slots: Vec<Vec<String>>,
}

impl View for Grouping {
    type V = Map<Seq<char>, Seq<Seq<char>>>;

    closed spec fn view(&self) -> Map<Seq<char>, Seq<Seq<char>>> {
        Map::new(
            |label: Seq<char>| self.filled(label),
            |label: Seq<char>| texts(self.slots@[self.slot_with(label)]@),
        )
    }
}

impl Grouping {
    #[verifier::type_invariant]
    spec fn sixteen(self) -> bool {
        self.slots@.len() == LABELS
    }

    spec fn holds(self, label: Seq<char>, slot: int) -> bool {
        0 <= slot < LABELS && slot_label(slot) == label && self.slots@[slot]@.len() > 0
    }

    spec fn filled(self, label: Seq<char>) -> bool {
        exists|slot: int| self.holds(label, slot)
    }

    spec fn slot_with(self, label: Seq<char>) -> int {
        choose|slot: int| self.holds(label, slot)
    }

    /// The names under `label`, where there are any.
    pub fn get(&self, label: &String) -> (names: Option<&Vec<String>>)
        ensures
            match names {
                Some(names) => self@.dom().contains(label@) && texts(names@) == self@[label@],
                None => !self@.dom().contains(label@),
            },
    {
        proof {
            use_type_invariant(self);
        }
        let mut slot: usize = 0;
        while slot < LABELS
            invariant
                slot <= LABELS,
                self.slots@.len() == LABELS,
                forall|k: int| 0 <= k < slot ==> !self.holds(label@, k),
            decreases LABELS - slot,
        {
            if self.slots[slot].len() > 0 {
                let text = slot_text(slot);
                if text == *label {
                    proof {
                        assert(self.holds(label@, slot as int));
                        let chosen = self.slot_with(label@);
                        if chosen != slot {
                            lemma_labels_differ(chosen, slot as int);
                        }
                    }
                    return Some(&self.slots[slot]);
                }
            }
            slot = slot + 1;
        }
        None
    }

    /// The labels that have names under them, in the order in which the
    /// labels are shown.
    pub fn labels(&self) -> (labels: Vec<String>)
        ensures
            forall|label: Seq<char>|
                self@.dom().contains(label) <==> #[trigger] texts(labels@).contains(label),
            forall|k: int, l: int|
                0 <= k < l < labels@.len() ==> label_place(labels@[k]@) < label_place(labels@[l]@),
    {
        proof {
            use_type_invariant(self);
        }
        let mut labels: Vec<String> = Vec::new();
        let ghost mut from: Seq<int> = Seq::empty();
        let mut slot: usize = 0;
        while slot < LABELS
            invariant
                slot <= LABELS,
                self.slots@.len() == LABELS,
                from.len() == labels@.len(),
                forall|k: int|
                    0 <= k < from.len() ==> 0 <= #[trigger] from[k] < slot && self.holds(
                        labels@[k]@,
                        from[k],
                    ),
                forall|k: int, l: int| 0 <= k < l < from.len() ==> from[k] < from[l],
                forall|s: int|
                    0 <= s < slot && self.slots@[s]@.len() > 0 ==> exists|k: int|
                        0 <= k < from.len() && #[trigger] from[k] == s,
            decreases LABELS - slot,
        {
            if self.slots[slot].len() > 0 {
                let ghost before = from;
                labels.push(slot_text(slot));
                proof {
                    from = from.push(slot as int);
                    assert forall|s: int|
                        0 <= s < slot + 1 && self.slots@[s]@.len() > 0 implies exists|k: int|
                        0 <= k < from.len() && #[trigger] from[k] == s by {
                        if s < slot {
                            let k = choose|k: int| 0 <= k < before.len() && #[trigger] before[k] == s;
                            assert(from[k] == s);
                        } else {
                            assert(from[before.len() as int] == s);
                        }
                    }
                }
            }
            slot = slot + 1;
        }
        proof {
            let found = texts(labels@);
            assert forall|label: Seq<char>| self@.dom().contains(label) implies found.contains(
                label,
            ) by {
                let s = self.slot_with(label);
                let k = choose|k: int| 0 <= k < from.len() && #[trigger] from[k] == s;
                assert(found[k] == label);
            }
            assert forall|label: Seq<char>| found.contains(label) implies self@.dom().contains(
                label,
            ) by {
                let k = choose|k: int| 0 <= k < found.len() && found[k] == label;
                assert(self.holds(label, from[k]));
            }
            assert forall|k: int, l: int| 0 <= k < l < labels@.len() implies label_place(
                labels@[k]@,
            ) < label_place(labels@[l]@) by {
                assert(self.holds(labels@[k]@, from[k]) && self.holds(labels@[l]@, from[l]));
                lemma_label_place(from[k]);
                lemma_label_place(from[l]);
            }
        }
        labels
    }
}

/// The values that decide what becomes of `other`: what each of `picked` does
/// to it where `attacking`, and what it does to each of `picked` otherwise.
pub open spec fn sides(
    chart: ChartView,
    attacking: bool,
    picked: Seq<Seq<char>>,
    other: Seq<char>,
) -> Seq<Effectiveness> {
    Seq::new(
        picked.len(),
        |k: int|
            if attacking {
                chart.cell(picked[k], other)
            } else {
                chart.cell(other, picked[k])
            },
    )
}

/// The names at the places `picked` of `order`.
pub open spec fn names_at(order: Seq<Seq<char>>, picked: Seq<usize>) -> Seq<Seq<char>> {
    Seq::new(picked.len(), |k: int| order[picked[k] as int])
}

/// The product of at most `n` labelled multipliers lies within 8 to the `n`.
spec fn within(product: Multiplier, n: int) -> bool {
    match product {
        Multiplier::Zero => true,
        Multiplier::PowerOfTwo(k) => -3 * n <= k <= 3 * n,
    }
}

/// Groups every type of the chart by what the types at `picked` do to it,
/// where `attacking`, or by what it does to them.
fn gather(chart: &TypeChart, attacking: bool, picked: &Vec<usize>) -> (r: Result<
    Grouping,
    ChartError,
>)
    requires
        chart.wf(),
        1 <= picked@.len() <= 3,
        forall|k: int| 0 <= k < picked@.len() ==> picked@[k] < chart@.type_order.len(),
    ensures
        match r {
            Ok(groups) => {
                &&& forall|i: int|
                    0 <= i < chart@.type_order.len() ==> verdict(
                        sides(
                            chart@,
                            attacking,
                            names_at(chart@.type_order, picked@),
                            #[trigger] chart@.type_order[i],
                        ),
                    ) != Verdict::Unlabelled
                &&& groups@ == grouped(
                    chart@.type_order,
                    |name: Seq<char>|
                        verdict(sides(chart@, attacking, names_at(chart@.type_order, picked@), name)),
                )
            },
            Err(e) => {
                &&& e == ChartError::InvalidValue
                &&& exists|i: int|
                    0 <= i < chart@.type_order.len() && verdict(
                        sides(
                            chart@,
                            attacking,
                            names_at(chart@.type_order, picked@),
                            #[trigger] chart@.type_order[i],
                        ),
                    ) == Verdict::Unlabelled
            },
        },
{
    let ghost order = chart@.type_order;
    let ghost subject = names_at(order, picked@);
    let ghost fate = |name: Seq<char>| verdict(sides(chart@, attacking, subject, name));
    proof {
        chart.lemma_wf();
    }
    let mut slots: Vec<Vec<String>> = Vec::new();
    let mut made: usize = 0;
    while made < LABELS
        invariant
            made <= LABELS,
            slots@.len() == made,
            forall|s: int| 0 <= s < made ==> (#[trigger] slots@[s])@.len() == 0,
        decreases LABELS - made,
    {
        slots.push(Vec::new());
        made = made + 1;
    }
    let count = chart.len();
    let mut i: usize = 0;
    proof {
        assert forall|s: int| 0 <= s < LABELS implies texts((#[trigger] slots@[s])@)
            == listed_under(order.take(0), fate, slot_label(s)) by {
            reveal(Seq::filter);
            assert(texts(slots@[s]@) =~= Seq::<Seq<char>>::empty());
        }
    }
    while i < count
        invariant
            i <= count,
            count == order.len(),
            order == chart@.type_order,
            subject == names_at(order, picked@),
            fate == |name: Seq<char>| verdict(sides(chart@, attacking, subject, name)),
            chart.wf(),
            chart@.is_valid(),
            1 <= picked@.len() <= 3,
            forall|k: int| 0 <= k < picked@.len() ==> picked@[k] < order.len(),
            slots@.len() == LABELS,
            forall|s: int|
                0 <= s < LABELS ==> texts((#[trigger] slots@[s])@) == listed_under(
                    order.take(i as int),
                    fate,
                    slot_label(s),
                ),
            forall|k: int| 0 <= k < i ==> fate(#[trigger] order[k]) != Verdict::Unlabelled,
        decreases count - i,
    {
        let ghost values = sides(chart@, attacking, subject, order[i as int]);
        let mut product = Multiplier::PowerOfTwo(0);
        let mut unknown: usize = 0;
        let mut k: usize = 0;
        while k < picked.len()
            invariant
                k <= picked@.len() <= 3,
                i < count,
                count == order.len(),
                order == chart@.type_order,
                subject == names_at(order, picked@),
                values == sides(chart@, attacking, subject, order[i as int]),
                chart.wf(),
                forall|k: int| 0 <= k < picked@.len() ==> picked@[k] < order.len(),
                (product, unknown as nat) == tally(values.take(k as int)),
                unknown <= k,
                within(product, k as int),
            decreases picked@.len() - k,
        {
            let value = if attacking {
                chart.entry(picked[k], i)
            } else {
                chart.entry(i, picked[k])
            };
            proof {
                assert(values.take(k + 1).drop_last() =~= values.take(k as int));
                assert(values.take(k + 1).last() == value);
            }
            match value {
                Effectiveness::Unknown => {
                    unknown = unknown + 1;
                },
                Effectiveness::Known(m) => {
                    product = product.multiply(m);
                },
            }
            k = k + 1;
        }
        proof {
            assert(values.take(picked@.len() as int) =~= values);
            assert forall|s: int| 0 <= s < LABELS implies listed_under(
                order.take(i + 1),
                fate,
                #[trigger] slot_label(s),
            ) == if fate(order[i as int]) == Verdict::Listed(slot_label(s)) {
                listed_under(order.take(i as int), fate, slot_label(s)).push(order[i as int])
            } else {
                listed_under(order.take(i as int), fate, slot_label(s))
            } by {
                lemma_listed_step(order, fate, slot_label(s), i as int);
            }
        }
        if unknown < picked.len() {
            match label_slot(product, unknown) {
                None => {
                    return Err(ChartError::InvalidValue);
                },
                Some(slot) => {
                    let ghost before = slots@;
                    slots[slot].push(chart.name_at(i).clone());
                    proof {
                        lemma_slot_of(product, unknown as nat);
                        assert(fate(order[i as int]) == Verdict::Listed(slot_label(slot as int)));
                        assert forall|s: int| 0 <= s < LABELS implies texts((#[trigger] slots@[s])@)
                            == listed_under(order.take(i + 1), fate, slot_label(s)) by {
                            if s == slot {
                                assert(texts(slots@[s]@) =~= texts(before[s]@).push(order[i as int]));
                            } else {
                                lemma_labels_differ(s, slot as int);
                                assert(slots@[s] == before[s]);
                            }
                        }
                    }
                },
            }
        } else {
            assert(fate(order[i as int]) == Verdict::Omitted);
        }
        i = i + 1;
    }
    let groups = Grouping { slots };
    proof {
        assert(order.take(count as int) =~= order);
        let want = grouped(order, fate);
        assert forall|label: Seq<char>| #[trigger]
            groups@.dom().contains(label) == want.dom().contains(label) by {
            if groups@.dom().contains(label) {
                let s = groups.slot_with(label);
                let under = listed_under(order, fate, label);
                assert(texts(groups.slots@[s]@) == under);
                let decide = |name: Seq<char>| fate(name) == Verdict::Listed(label);
                order.lemma_filter_pred(decide, 0);
                order.lemma_filter_contains_rev(decide, under[0]);
                let at = order.index_of(under[0]);
                assert(fate(order[at]) == Verdict::Listed(label));
                assert(want.dom().contains(label));
            }
            if want.dom().contains(label) {
                let at = choose|at: int|
                    0 <= at < order.len() && #[trigger] fate(order[at]) == Verdict::Listed(label);
                let (product, unknown) = tally(sides(chart@, attacking, subject, order[at]));
                lemma_slot_of(product, unknown);
                let s = slot_of(product, unknown);
                let decide = |name: Seq<char>| fate(name) == Verdict::Listed(label);
                order.lemma_filter_contains(decide, at);
                assert(groups.holds(label, s));
                assert(groups@.dom().contains(label));
            }
        }
        assert forall|label: Seq<char>| groups@.dom().contains(label) implies #[trigger]
            groups@[label] == want[label] by {
            let chosen = groups.slot_with(label);
            assert(groups.holds(label, chosen));
        }
        assert(groups@ =~= want);
    }
    Ok(groups)
}

/// The text of a name that may be given.
pub open spec fn text_of(name: Option<&String>) -> Option<Seq<char>> {
    match name {
        Some(name) => Some(name@),
        None => None,
    }
}

/// Why there is no grouping against `defenders`: `NotFound` where the chart
/// lacks one of them, else `InvalidValue` where some attacker's combined
/// multiplier has no label.
pub open spec fn combined_error(chart: ChartView, defenders: Seq<Seq<char>>) -> Option<ChartError> {
    if exists|k: int| 0 <= k < defenders.len() && !chart.has(#[trigger] defenders[k]) {
        Some(ChartError::NotFound)
    } else if has_unlabelled(chart, defenders) {
        Some(ChartError::InvalidValue)
    } else {
        None
    }
}

/// One value alone is listed under its own label, without a marker.
pub proof fn lemma_single_verdict(value: Effectiveness)
    requires
        value.is_valid(),
    ensures
        verdict(seq![value]) == listing(value),
{
    let values = seq![value];
    assert(values.drop_last() =~= Seq::<Effectiveness>::empty());
    assert(tally(values.drop_last()) == (Multiplier::PowerOfTwo(0i8), 0nat));
    assert(values.last() == value);
    assert(markers(0) =~= Seq::<char>::empty());
    match value {
        Effectiveness::Unknown => {},
        Effectiveness::Known(m) => {
            assert(m.is_defined());
            assert(Multiplier::PowerOfTwo(0i8).times(m) == m);
            assert(tally(values) == (m, 0nat));
            assert(label_text(Effectiveness::Known(m), 0) =~= base_label(m));
        },
    }
}

/// Asked about one type alone, the combined grouping is the defensive
/// grouping of that type: the same labels, none of them with a marker, and
/// the same names under each.
pub proof fn law_single_combined_is_defensive(chart: ChartView, defender: Seq<char>)
    requires
        chart.is_valid(),
        chart.has(defender),
    ensures
        combined_error(chart, targets(defender, None, None)) is None,
        combined_groups(chart, targets(defender, None, None)) == defensive_groups(chart, defender),
{
    let order = chart.type_order;
    let defenders = targets(defender, None, None);
    let one = |attacker: Seq<char>| verdict(factors(chart, attacker, defenders));
    let other = |attacker: Seq<char>| listing(chart.cell(attacker, defender));
    assert forall|i: int| 0 <= i < order.len() implies one(#[trigger] order[i]) == other(
        order[i],
    ) by {
        let value = chart.cell(order[i], defender);
        assert(chart.has(order[i]));
        assert(chart.matrix[order[i]][defender].is_valid());
        assert(factors(chart, order[i], defenders) =~= seq![value]);
        lemma_single_verdict(value);
    }
    lemma_grouped_agree(order, one, other);
    assert forall|k: int| 0 <= k < defenders.len() implies chart.has(#[trigger] defenders[k]) by {}
    assert forall|i: int| 0 <= i < order.len() implies verdict(
        factors(chart, #[trigger] order[i], defenders),
    ) != Verdict::Unlabelled by {
        assert(one(order[i]) == other(order[i]));
    }
}

impl TypeChart {
    /// The defenders under the label of what `name` does to them when it
    /// attacks. A defender of which nothing is recorded is left out, and so
    /// is a label without a defender. A name that the chart does not have is
    /// refused with `NotFound`. The chart stays as it is.
    pub fn get_attacking_effectiveness(&mut self, name: &String) -> (r: Result<
        Grouping,
        ChartError,
    >)
        requires
            old(self).wf(),
        ensures
            *final(self) == *old(self),
            match r {
                Ok(groups) => old(self)@.has(name@) && groups@ == attacking_groups(
                    old(self)@,
                    name@,
                ),
                Err(e) => !old(self)@.has(name@) && e == ChartError::NotFound,
            },
    {
        let at = match self.position(name) {
            None => {
                return Err(ChartError::NotFound);
            },
            Some(at) => at,
        };
        let mut picked: Vec<usize> = Vec::new();
        picked.push(at);
        let r = gather(self, true, &picked);
        proof {
            self.lemma_wf();
            let chart = self@;
            let order = chart.type_order;
            let subject = names_at(order, picked@);
            assert(subject =~= seq![name@]);
            let one = |other: Seq<char>| verdict(sides(chart, true, subject, other));
            let two = |defender: Seq<char>| listing(chart.cell(name@, defender));
            assert forall|i: int| 0 <= i < order.len() implies one(#[trigger] order[i]) == two(
                order[i],
            ) by {
                let value = chart.cell(name@, order[i]);
                assert(chart.has(order[i]));
                assert(chart.matrix[name@][order[i]].is_valid());
                assert(sides(chart, true, subject, order[i]) =~= seq![value]);
                lemma_single_verdict(value);
            }
            lemma_grouped_agree(order, one, two);
        }
        r
    }

    /// The attackers under the label of what they do to `name` when it
    /// defends. An attacker of which nothing is recorded is left out, and so
    /// is a label without an attacker. A name that the chart does not have is
    /// refused with `NotFound`. The chart stays as it is.
    pub fn get_defensive_effectiveness(&mut self, name: &String) -> (r: Result<
        Grouping,
        ChartError,
    >)
        requires
            old(self).wf(),
        ensures
            *final(self) == *old(self),
            match r {
                Ok(groups) => old(self)@.has(name@) && groups@ == defensive_groups(
                    old(self)@,
                    name@,
                ),
                Err(e) => !old(self)@.has(name@) && e == ChartError::NotFound,
            },
    {
        let at = match self.position(name) {
            None => {
                return Err(ChartError::NotFound);
            },
            Some(at) => at,
        };
        let mut picked: Vec<usize> = Vec::new();
        picked.push(at);
        let r = gather(self, false, &picked);
        proof {
            self.lemma_wf();
            let chart = self@;
            let order = chart.type_order;
            let subject = names_at(order, picked@);
            assert(subject =~= seq![name@]);
            let one = |other: Seq<char>| verdict(sides(chart, false, subject, other));
            let two = |attacker: Seq<char>| listing(chart.cell(attacker, name@));
            assert forall|i: int| 0 <= i < order.len() implies one(#[trigger] order[i]) == two(
                order[i],
            ) by {
                let value = chart.cell(order[i], name@);
                assert(chart.has(order[i]));
                assert(chart.matrix[order[i]][name@].is_valid());
                assert(sides(chart, false, subject, order[i]) =~= seq![value]);
                lemma_single_verdict(value);
            }
            lemma_grouped_agree(order, one, two);
        }
        r
    }

    /// The attackers under the label of what they do to a defender that has
    /// the given types at once. The multipliers against the single types are
    /// multiplied; one that is unknown is left out and marks the label with a
    /// `?`; an attacker of which all are unknown is left out. A name that the
    /// chart does not have is refused with `NotFound`, and a combined
    /// multiplier that has no label with `InvalidValue`. The chart stays as
    /// it is.
    pub fn get_multiple_defensive_effectiveness(
        &mut self,
        first: &String,
        second: Option<&String>,
        third: Option<&String>,
    ) -> (r: Result<Grouping, ChartError>)
        requires
            old(self).wf(),
        ensures
            *final(self) == *old(self),
            match r {
                Ok(groups) => combined_error(
                    old(self)@,
                    targets(first@, text_of(second), text_of(third)),
                ) is None && groups@ == combined_groups(
                    old(self)@,
                    targets(first@, text_of(second), text_of(third)),
                ),
                Err(e) => combined_error(
                    old(self)@,
                    targets(first@, text_of(second), text_of(third)),
                ) == Some(e),
            },
    {
        let ghost defenders = targets(first@, text_of(second), text_of(third));
        let mut picked: Vec<usize> = Vec::new();
        match self.position(first) {
            None => {
                assert(defenders[0] == first@);
                return Err(ChartError::NotFound);
            },
            Some(at) => {
                picked.push(at);
            },
        }
        if let Some(name) = second {
            match self.position(name) {
                None => {
                    assert(defenders[1] == name@);
                    return Err(ChartError::NotFound);
                },
                Some(at) => {
                    picked.push(at);
                },
            }
        }
        if let Some(name) = third {
            match self.position(name) {
                None => {
                    assert(defenders[defenders.len() - 1] == name@);
                    return Err(ChartError::NotFound);
                },
                Some(at) => {
                    picked.push(at);
                },
            }
        }
        let r = gather(self, false, &picked);
        proof {
            let chart = self@;
            let order = chart.type_order;
            let subject = names_at(order, picked@);
            assert(subject =~= defenders);
            let one = |other: Seq<char>| verdict(sides(chart, false, subject, other));
            let two = |attacker: Seq<char>| verdict(factors(chart, attacker, defenders));
            assert forall|i: int| 0 <= i < order.len() implies one(#[trigger] order[i]) == two(
                order[i],
            ) by {
                assert(sides(chart, false, subject, order[i]) =~= factors(
                    chart,
                    order[i],
                    defenders,
                ));
            }
            lemma_grouped_agree(order, one, two);
            assert forall|k: int| 0 <= k < defenders.len() implies chart.has(
                #[trigger] defenders[k],
            ) by {
                assert(defenders[k] == order[picked@[k] as int]);
            }
            if r is Ok {
                assert forall|i: int| 0 <= i < order.len() implies verdict(
                    factors(chart, #[trigger] order[i], defenders),
                ) != Verdict::Unlabelled by {
                    assert(one(order[i]) == two(order[i]));
                }
            } else {
                let i = choose|i: int|
                    0 <= i < order.len() && verdict(
                        sides(chart, false, subject, #[trigger] order[i]),
                    ) == Verdict::Unlabelled;
                assert(one(order[i]) == two(order[i]));
            }
        }
        r
    }
}

} // verus!
