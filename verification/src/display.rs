//! The text in which a grouping is shown: a heading, then each label that is
//! to be shown as a title, with the names under it laid out in lines.

use crate::effectiveness::{base_label, markers, Multiplier};
use crate::groups::{lemma_labels_differ, slot_key, slot_label, slot_text, Grouping, LABELS};
use crate::text::{trim, trimmed};
use crate::type_chart::texts;
use vstd::prelude::*;
use vstd::string::*;
use vstd::utf8::{encode_utf8, is_ascii_chars, is_ascii_chars_encode_utf8};

verus! {

/// The number of columns that a text takes: its length in bytes.
pub open spec fn columns(text: Seq<char>) -> int {
    encode_utf8(text).len() as int
}

/// The width of a line.
pub const WIDTH: usize = 101;

/// The names from where `used` columns of the line are taken: each but the
/// last is followed by a comma and a space, a name that no longer fits
/// begins a new line, and the last name ends the line.
pub open spec fn laid_out(names: Seq<Seq<char>>, used: int) -> Seq<char>
    decreases names.len(),
{
    if names.len() == 0 {
        "\n"@
    } else {
        let name = names.first();
        let over = used + columns(name) > WIDTH;
        let start = if over {
            "\n"@ + name
        } else {
            name
        };
        if names.len() == 1 {
            start + "\n"@
        } else {
            start + ", "@ + laid_out(
                names.drop_first(),
                (if over {
                    0
                } else {
                    used
                }) + columns(name) + 2,
            )
        }
    }
}

/// `n` times the same character.
pub open spec fn run(c: char, n: int) -> Seq<char> {
    Seq::new(n as nat, |i: int| c)
}

/// The title for a label: the label between two runs of dashes that centre
/// it in the line.
pub open spec fn title(label: Seq<char>) -> Seq<char>
    recommends
        columns(label) <= WIDTH,
{
    let dashes = run('-', 50 - columns(label) / 2);
    dashes + label + dashes + (if columns(label) % 2 == 0 {
        "-"@
    } else {
        Seq::empty()
    })
}

/// Whether a label is shown: `Neutral` only where neutral is asked for, and
/// a label with a confidence marker only where the unsure are asked for.
pub open spec fn is_shown(label: Seq<char>, show_neutral: bool, show_unsure: bool) -> bool {
    &&& label == "Neutral"@ ==> show_neutral
    &&& label.contains('?') ==> show_unsure
}

/// The names laid out in lines of the line's width.
pub fn display_type_list(names: &Vec<String>) -> (text: String)
    ensures
        text@ == laid_out(texts(names@), 0),
{
    let ghost all = texts(names@);
    let mut text = String::new();
    if names.len() == 0 {
        text.append("\n");
        assert(text@ =~= "\n"@);
        return text;
    }
    // `taken` is what is used of the line, or one more than the width where
    // more than the width is used.
    let mut taken: usize = 0;
    let ghost mut used: int = 0;
    let mut i: usize = 0;
    proof {
        assert(all.skip(0) =~= all);
        assert(text@ + laid_out(all, 0) =~= laid_out(all, 0));
    }
    while i < names.len()
        invariant
            i <= names@.len(),
            0 < names@.len(),
            all == texts(names@),
            0 <= used,
            taken == if used > WIDTH {
                WIDTH + 1
            } else {
                used
            },
            i < names@.len() ==> laid_out(all, 0) == text@ + laid_out(all.skip(i as int), used),
            i == names@.len() ==> laid_out(all, 0) == text@,
        decreases names@.len() - i,
    {
        let name = names[i].as_str();
        let length = name.as_bytes().len();
        assert(length == columns(name@));
        let ghost rest = all.skip(i as int);
        let ghost before = text@;
        proof {
            assert(rest.first() == name@);
            assert(rest.len() == names@.len() - i);
            assert(rest.drop_first() =~= all.skip(i + 1));
            assert(all.skip(0) =~= all);
        }
        let over = length > WIDTH || taken > WIDTH - length;
        let ghost reached = used;
        if over {
            text.append("\n");
            taken = 0;
            proof {
                used = 0;
            }
        }
        text.append(name);
        if i + 1 < names.len() {
            text.append(", ");
            taken = if length >= WIDTH {
                WIDTH + 1
            } else if taken + length + 2 > WIDTH {
                WIDTH + 1
            } else {
                taken + length + 2
            };
            proof {
                assert(over == (reached + columns(name@) > WIDTH));
                used = used + columns(name@) + 2;
                assert(before + (if over {
                    "\n"@ + name@
                } else {
                    name@
                } + ", "@ + laid_out(rest.drop_first(), used)) =~= text@ + laid_out(
                    all.skip(i + 1),
                    used,
                ));
            }
        } else {
            text.append("\n");
            proof {
                assert(before + (if over {
                    "\n"@ + name@
                } else {
                    name@
                } + "\n"@) =~= text@);
            }
        }
        i = i + 1;
    }
    text
}

/// A label without markers is plain ASCII of at most 25 characters, none of
/// them a question mark.
pub proof fn lemma_base_label_plain(m: Multiplier)
    requires
        m.is_defined(),
    ensures
        is_ascii_chars(base_label(m)),
        base_label(m).len() <= 25,
        !base_label(m).contains('?'),
{
    reveal_strlit("Immune");
    reveal_strlit("Triple Not Very Effective");
    reveal_strlit("Double Not Very Effective");
    reveal_strlit("Not Very Effective");
    reveal_strlit("Neutral");
    reveal_strlit("Super Effective");
    reveal_strlit("Double Super Effective");
    reveal_strlit("Triple Super Effective");
    let text = base_label(m);
    assert forall|i: int| 0 <= i < text.len() implies '\0' <= #[trigger] text[i] <= '\u{7f}'
        && text[i] != '?' by {}
}

/// Each of the sixteen labels fits into a line, and it is shown or not by
/// its place among them: `Neutral` is the eighth, and a label has a question
/// mark where it has a marker.
pub proof fn lemma_slot_label_plain(slot: int, show_neutral: bool, show_unsure: bool)
    requires
        0 <= slot < LABELS,
    ensures
        columns(slot_label(slot)) <= 27,
        is_shown(slot_label(slot), show_neutral, show_unsure) == ((slot == 7 ==> show_neutral) && (
        slot_key(slot).1 > 0 ==> show_unsure)),
{
    let (m, unknown) = slot_key(slot);
    let label = slot_label(slot);
    let base = base_label(m);
    lemma_base_label_plain(m);
    assert(label =~= base + markers(unknown));
    assert(is_ascii_chars(label));
    is_ascii_chars_encode_utf8(label);
    if unknown > 0 {
        assert(label[base.len() as int] == '?');
    }
    reveal_strlit("Neutral");
    assert(markers(0) =~= Seq::<char>::empty());
    if slot != 7 {
        lemma_labels_differ(slot, 7);
    }
    assert(slot_label(7) =~= "Neutral"@);
}

/// `n` dashes.
pub fn dashes(n: usize) -> (text: String)
    ensures
        text@ == run('-', n as int),
{
    let mut text = String::new();
    let mut i: usize = 0;
    proof {
        reveal_strlit("-");
        assert(text@ =~= run('-', 0));
    }
    while i < n
        invariant
            i <= n,
            text@ == run('-', i as int),
            "-"@ == seq!['-'],
        decreases n - i,
    {
        text.append("-");
        i = i + 1;
        assert(text@ =~= run('-', i as int));
    }
    text
}

/// The title for a label: the label between two runs of dashes that centre
/// it in the line.
pub fn title_line(label: &str) -> (text: String)
    requires
        columns(label@) <= WIDTH,
    ensures
        text@ == title(label@),
{
    let length = label.as_bytes().len();
    let side = dashes(50 - length / 2);
    let mut text = dashes(50 - length / 2);
    text.append(label);
    text.append(side.as_str());
    if length % 2 == 0 {
        text.append("-");
    }
    assert(text@ =~= title(label@));
    text
}

/// The line above the labels: the name, trimmed, and whether the groups are
/// those of the type attacking or defending.
pub open spec fn heading(name: Seq<char>, attacking: bool) -> Seq<char> {
    trimmed(name) + " when "@ + (if attacking {
        "attacking"@
    } else {
        "defending"@
    }) + " :"@ + "\n"@
}

/// What is shown for one label: nothing where the label is not to be shown
/// or has no names, else its title and the names under it.
pub open spec fn section(
    groups: Map<Seq<char>, Seq<Seq<char>>>,
    label: Seq<char>,
    show_neutral: bool,
    show_unsure: bool,
) -> Seq<char> {
    if is_shown(label, show_neutral, show_unsure) && groups.dom().contains(label) {
        title(label) + "\n"@ + laid_out(groups[label], 0)
    } else {
        Seq::empty()
    }
}

/// What is shown for the first `count` of the sixteen labels.
pub open spec fn sections(
    groups: Map<Seq<char>, Seq<Seq<char>>>,
    count: int,
    show_neutral: bool,
    show_unsure: bool,
) -> Seq<char>
    decreases count,
{
    if count <= 0 {
        Seq::empty()
    } else {
        sections(groups, count - 1, show_neutral, show_unsure) + section(
            groups,
            slot_label(count - 1),
            show_neutral,
            show_unsure,
        )
    }
}

/// The text that shows a grouping: a line of `=`, the heading, what is shown
/// for each of the sixteen labels in their order, and a line of `=`.
pub open spec fn shown(
    groups: Map<Seq<char>, Seq<Seq<char>>>,
    name: Seq<char>,
    attacking: bool,
    show_neutral: bool,
    show_unsure: bool,
) -> Seq<char> {
    run('=', WIDTH as int) + "\n"@ + heading(name, attacking) + sections(
        groups,
        LABELS as int,
        show_neutral,
        show_unsure,
    ) + run('=', WIDTH as int) + "\n"@
}

/// A line of `=` over the width of the line.
pub fn rule_line() -> (text: String)
    ensures
        text@ == run('=', WIDTH as int) + "\n"@,
{
    let mut text = String::new();
    let mut i: usize = 0;
    proof {
        reveal_strlit("=");
        assert(text@ =~= run('=', 0));
    }
    while i < WIDTH
        invariant
            i <= WIDTH,
            text@ == run('=', i as int),
            "="@ == seq!['='],
        decreases WIDTH - i,
    {
        text.append("=");
        i = i + 1;
        assert(text@ =~= run('=', i as int));
    }
    text.append("\n");
    text
}

/// The text that shows a grouping under the name of what was asked about.
pub fn print_type_effectiveness_map(
    groups: &Grouping,
    name: &str,
    attacking: bool,
    show_neutral: bool,
    show_unsure: bool,
) -> (text: String)
    ensures
        text@ == shown(groups@, name@, attacking, show_neutral, show_unsure),
{
    let mut text = rule_line();
    text.append(trim(name).as_str());
    text.append(" when ");
    if attacking {
        text.append("attacking");
    } else {
        text.append("defending");
    }
    text.append(" :");
    text.append("\n");
    let ghost top = run('=', WIDTH as int) + "\n"@ + heading(name@, attacking);
    assert(text@ =~= top);
    let mut slot: usize = 0;
    assert(text@ =~= top + sections(groups@, 0, show_neutral, show_unsure));
    while slot < LABELS
        invariant
            slot <= LABELS,
            text@ == top + sections(groups@, slot as int, show_neutral, show_unsure),
        decreases LABELS - slot,
    {
        let marked = slot == 3 || slot == 5 || slot == 6 || slot == 8 || slot == 9 || slot == 11
            || slot == 12 || slot == 14;
        let ghost before = text@;
        proof {
            lemma_slot_label_plain(slot as int, show_neutral, show_unsure);
        }
        if (slot != 7 || show_neutral) && (!marked || show_unsure) {
            let label = slot_text(slot);
            match groups.get(&label) {
                None => {},
                Some(names) => {
                    text.append(title_line(label.as_str()).as_str());
                    text.append("\n");
                    text.append(display_type_list(names).as_str());
                },
            }
        }
        proof {
            assert(text@ =~= before + section(
                groups@,
                slot_label(slot as int),
                show_neutral,
                show_unsure,
            ));
            assert(text@ =~= top + sections(groups@, slot + 1, show_neutral, show_unsure));
        }
        slot = slot + 1;
    }
    text.append(rule_line().as_str());
    assert(text@ =~= shown(groups@, name@, attacking, show_neutral, show_unsure));
    text
}

/// The names of what was asked about, with a comma and a space between them.
/// A third name counts only after a second.
pub fn joined_names(first: &str, second: Option<&String>, third: Option<&String>) -> (text: String)
    ensures
        text@ == match second {
            None => first@,
            Some(second) => match third {
                None => first@ + ", "@ + second@,
                Some(third) => first@ + ", "@ + second@ + ", "@ + third@,
            },
        },
{
    let mut text = String::from_str(first);
    if let Some(second) = second {
        text.append(", ");
        text.append(second.as_str());
        if let Some(third) = third {
            text.append(", ");
            text.append(third.as_str());
        }
    }
    text
}

} // verus!
