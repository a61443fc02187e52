//! Effectiveness values and their textual labels.
//!
//! A multiplier is an exact number: zero, or a power of two. Eight of them
//! carry a label, from `Immune` (0) over `Neutral` (1) to
//! `Triple Super Effective` (8). A cell of a chart holds either one of those
//! eight or nothing yet, which is written `?`.

use crate::text::same;
use vstd::prelude::*;
use vstd::string::*;

verus! {

/// An exact multiplier: zero, or two raised to the given exponent.
#[derive(Clone, Copy, Debug, PartialEq, Eq, Structural)]
pub enum Multiplier {
    Zero,
    PowerOfTwo(i8),
}

/// What is recorded for one ordered pair of types.
#[derive(Clone, Copy, Debug, PartialEq, Eq, Structural)]
pub enum Effectiveness {
    Unknown,
    Known(Multiplier),
}

/// The ways in which an operation on a chart or on a label can fail.
#[derive(Clone, Copy, Debug, PartialEq, Eq, Structural)]
pub enum ChartError {
    /// A type that was named is not in the chart.
    NotFound,
    /// The type to add is in the chart already.
    AlreadyExists,
    /// The text is none of the labels.
    InvalidLabel,
    /// The multiplier has no label.
    InvalidValue,
    /// The records could not be written.
    IoError,
    /// The records do not make a chart.
    DataCorruption,
}

impl Multiplier {
    /// One of the eight multipliers that have a label: 0, 1/8, 1/4, 1/2, 1, 2, 4, 8.
    pub open spec fn is_defined(self) -> bool {
        match self {
            Multiplier::Zero => true,
            Multiplier::PowerOfTwo(k) => -3 <= k <= 3,
        }
    }

    /// The product of two multipliers.
    pub open spec fn times(self, other: Multiplier) -> Multiplier
        recommends
            self.fits_with(other),
    {
        match (self, other) {
            (Multiplier::PowerOfTwo(a), Multiplier::PowerOfTwo(b)) => Multiplier::PowerOfTwo(
                (a + b) as i8,
            ),
            _ => Multiplier::Zero,
        }
    }

    /// The product's exponent can be held.
    pub open spec fn fits_with(self, other: Multiplier) -> bool {
        match (self, other) {
            (Multiplier::PowerOfTwo(a), Multiplier::PowerOfTwo(b)) => i8::MIN <= a + b <= i8::MAX,
            _ => true,
        }
    }

    /// Whether this is one of the eight labelled multipliers.
    pub fn defined(&self) -> (r: bool)
        ensures
            r == self.is_defined(),
    {
        match self {
            Multiplier::Zero => true,
            Multiplier::PowerOfTwo(k) => -3 <= *k && *k <= 3,
        }
    }

    /// Multiplies two multipliers.
    pub fn multiply(self, other: Multiplier) -> (r: Multiplier)
        requires
            self.fits_with(other),
        ensures
            r == self.times(other),
    {
        match (self, other) {
            (Multiplier::PowerOfTwo(a), Multiplier::PowerOfTwo(b)) => Multiplier::PowerOfTwo(a + b),
            _ => Multiplier::Zero,
        }
    }
}

impl Effectiveness {
    /// Unknown, or a multiplier that has a label: what a chart may hold.
    pub open spec fn is_valid(self) -> bool {
        match self {
            Effectiveness::Unknown => true,
            Effectiveness::Known(m) => m.is_defined(),
        }
    }

    /// Whether a chart may hold this value.
    pub fn valid(&self) -> (r: bool)
        ensures
            r == self.is_valid(),
    {
        match self {
            Effectiveness::Unknown => true,
            Effectiveness::Known(m) => m.defined(),
        }
    }
}

/// The label of a defined multiplier, without confidence markers.
pub open spec fn base_label(m: Multiplier) -> Seq<char>
    recommends
        m.is_defined(),
{
    match m {
        Multiplier::Zero => "Immune"@,
        Multiplier::PowerOfTwo(k) => if k == -3 {
            "Triple Not Very Effective"@
        } else if k == -2 {
            "Double Not Very Effective"@
        } else if k == -1 {
            "Not Very Effective"@
        } else if k == 0 {
            "Neutral"@
        } else if k == 1 {
            "Super Effective"@
        } else if k == 2 {
            "Double Super Effective"@
        } else {
            "Triple Super Effective"@
        },
    }
}

/// `n` confidence markers.
pub open spec fn markers(n: nat) -> Seq<char> {
    Seq::new(n, |i: int| '?')
}

/// The text of a value with `n` confidence markers. Zero stays zero whatever
/// was left out of the product, so `Immune` never carries a marker.
pub open spec fn label_text(e: Effectiveness, n: nat) -> Seq<char>
    recommends
        e.is_valid(),
{
    match e {
        Effectiveness::Unknown => "?"@ + markers(n),
        Effectiveness::Known(Multiplier::Zero) => "Immune"@,
        Effectiveness::Known(m) => base_label(m) + markers(n),
    }
}

/// The value that a label stands for, if it is one of the eight labels or `?`.
pub open spec fn label_value(s: Seq<char>) -> Option<Effectiveness> {
    if s == "Immune"@ {
        Some(Effectiveness::Known(Multiplier::Zero))
    } else if s == "Triple Not Very Effective"@ {
        Some(Effectiveness::Known(Multiplier::PowerOfTwo(-3i8)))
    } else if s == "Double Not Very Effective"@ {
        Some(Effectiveness::Known(Multiplier::PowerOfTwo(-2i8)))
    } else if s == "Not Very Effective"@ {
        Some(Effectiveness::Known(Multiplier::PowerOfTwo(-1i8)))
    } else if s == "Neutral"@ {
        Some(Effectiveness::Known(Multiplier::PowerOfTwo(0i8)))
    } else if s == "Super Effective"@ {
        Some(Effectiveness::Known(Multiplier::PowerOfTwo(1i8)))
    } else if s == "Double Super Effective"@ {
        Some(Effectiveness::Known(Multiplier::PowerOfTwo(2i8)))
    } else if s == "Triple Super Effective"@ {
        Some(Effectiveness::Known(Multiplier::PowerOfTwo(3i8)))
    } else if s == "?"@ {
        Some(Effectiveness::Unknown)
    } else {
        None
    }
}

/// What the nine literal texts hold.
pub proof fn lemma_label_texts()
    ensures
        "Immune"@ == seq!['I', 'm', 'm', 'u', 'n', 'e'],
        "Neutral"@ == seq!['N', 'e', 'u', 't', 'r', 'a', 'l'],
        "?"@ == seq!['?'],
        "Triple Not Very Effective"@.len() == 25,
        "Double Not Very Effective"@.len() == 25,
        "Not Very Effective"@.len() == 18,
        "Super Effective"@.len() == 15,
        "Double Super Effective"@.len() == 22,
        "Triple Super Effective"@.len() == 22,
        "Triple Not Very Effective"@[0] == 'T',
        "Double Not Very Effective"@[0] == 'D',
        "Double Super Effective"@[0] == 'D',
        "Triple Super Effective"@[0] == 'T',
        "Not Very Effective"@[0] == 'N',
        "Super Effective"@[0] == 'S',
        "Triple Not Very Effective"@[24] == 'e',
        "Double Not Very Effective"@[24] == 'e',
        "Double Super Effective"@[21] == 'e',
        "Triple Super Effective"@[21] == 'e',
        "Not Very Effective"@[17] == 'e',
        "Super Effective"@[14] == 'e',
{
    reveal_strlit("Immune");
    reveal_strlit("Triple Not Very Effective");
    reveal_strlit("Double Not Very Effective");
    reveal_strlit("Not Very Effective");
    reveal_strlit("Neutral");
    reveal_strlit("Super Effective");
    reveal_strlit("Double Super Effective");
    reveal_strlit("Triple Super Effective");
    reveal_strlit("?");
    assert("Immune"@ =~= seq!['I', 'm', 'm', 'u', 'n', 'e']);
    assert("Neutral"@ =~= seq!['N', 'e', 'u', 't', 'r', 'a', 'l']);
    assert("?"@ =~= seq!['?']);
}

/// Reading a label gives back the value that it was written for.
pub proof fn lemma_label_round_trip(e: Effectiveness)
    requires
        e.is_valid(),
    ensures
        label_value(label_text(e, 0)) == Some(e),
{
    lemma_label_texts();
    assert(markers(0) =~= Seq::<char>::empty());
    assert(label_text(e, 0) =~= match e {
        Effectiveness::Unknown => "?"@,
        Effectiveness::Known(m) => base_label(m),
    });
}

/// A text that reads as a value is that value's label, and the value is one
/// that a chart may hold.
pub proof fn lemma_value_round_trip(s: Seq<char>)
    requires
        label_value(s) is Some,
    ensures
        label_value(s)->0.is_valid(),
        label_text(label_value(s)->0, 0) == s,
{
    assert(markers(0) =~= Seq::<char>::empty());
    let e = label_value(s)->0;
    assert(label_text(e, 0) =~= s);
}

/// Reads a label: one of the eight multiplier labels, or `?` for unknown.
/// Any other text is refused with `InvalidLabel`.
pub fn effectiveness_string_to_f32(effectiveness: &String) -> (r: Result<Effectiveness, ChartError>)
    ensures
        r == match label_value(effectiveness@) {
            Some(e) => Ok::<Effectiveness, ChartError>(e),
            None => Err(ChartError::InvalidLabel),
        },
{
    let text = effectiveness.as_str();
    if same(text, "Immune") {
        Ok(Effectiveness::Known(Multiplier::Zero))
    } else if same(text, "Triple Not Very Effective") {
        Ok(Effectiveness::Known(Multiplier::PowerOfTwo(-3)))
    } else if same(text, "Double Not Very Effective") {
        Ok(Effectiveness::Known(Multiplier::PowerOfTwo(-2)))
    } else if same(text, "Not Very Effective") {
        Ok(Effectiveness::Known(Multiplier::PowerOfTwo(-1)))
    } else if same(text, "Neutral") {
        Ok(Effectiveness::Known(Multiplier::PowerOfTwo(0)))
    } else if same(text, "Super Effective") {
        Ok(Effectiveness::Known(Multiplier::PowerOfTwo(1)))
    } else if same(text, "Double Super Effective") {
        Ok(Effectiveness::Known(Multiplier::PowerOfTwo(2)))
    } else if same(text, "Triple Super Effective") {
        Ok(Effectiveness::Known(Multiplier::PowerOfTwo(3)))
    } else if same(text, "?") {
        Ok(Effectiveness::Unknown)
    } else {
        Err(ChartError::InvalidLabel)
    }
}

/// The label of a value that a chart may hold, followed by one `?` for each
/// confidence marker.
pub fn write_label(effectiveness: Effectiveness, unknown_effectiveness_counter: usize) -> (text:
    String)
    requires
        effectiveness.is_valid(),
    ensures
        text@ == label_text(effectiveness, unknown_effectiveness_counter as nat),
{
    let mut text = match effectiveness {
        Effectiveness::Unknown => String::from_str("?"),
        Effectiveness::Known(Multiplier::Zero) => {
            return String::from_str("Immune");
        },
        Effectiveness::Known(Multiplier::PowerOfTwo(k)) => {
            if k == -3 {
                String::from_str("Triple Not Very Effective")
            } else if k == -2 {
                String::from_str("Double Not Very Effective")
            } else if k == -1 {
                String::from_str("Not Very Effective")
            } else if k == 0 {
                String::from_str("Neutral")
            } else if k == 1 {
                String::from_str("Super Effective")
            } else if k == 2 {
                String::from_str("Double Super Effective")
            } else {
                String::from_str("Triple Super Effective")
            }
        },
    };
    let ghost base = text@;
    let mut written: usize = 0;
    assert(text@ =~= base + markers(0));
    while written < unknown_effectiveness_counter
        invariant
            written <= unknown_effectiveness_counter,
            text@ == base + markers(written as nat),
        decreases unknown_effectiveness_counter - written,
    {
        text.append("?");
        written = written + 1;
        proof {
            lemma_label_texts();
            assert(markers(written as nat) =~= markers((written - 1) as nat) + "?"@);
        }
    }
    text
}

/// Writes a value as its label, followed by one `?` for each confidence
/// marker. A multiplier that is none of the eight has no label and is refused
/// with `InvalidValue`.
pub fn effectiveness_f32_to_string(
    effectiveness: Effectiveness,
    unknown_effectiveness_counter: usize,
) -> (r: Result<String, ChartError>)
    ensures
        effectiveness.is_valid() ==> r is Ok && r->Ok_0@ == label_text(
            effectiveness,
            unknown_effectiveness_counter as nat,
        ),
        !effectiveness.is_valid() ==> r == Err::<String, ChartError>(ChartError::InvalidValue),
{
    if effectiveness.valid() {
        Ok(write_label(effectiveness, unknown_effectiveness_counter))
    } else {
        Err(ChartError::InvalidValue)
    }
}

} // verus!
