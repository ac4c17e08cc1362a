//! What a block list puts into a filter, told by the lines of the list, and
//! what a command line asks for.

use vstd::prelude::*;
use vstd::set_lib::set_int_range;
use vstd::utf8::{encode_utf8, is_ascii_chars};

use crate::bloom::{bit_len, bit_set, domain_hashes, normalized};
use crate::build_filter::{
    entries, label_of, line_sets, list_entry, options_from, with_hashes, with_lines, Options,
};
use crate::laws::lookup::same_bits_same_bytes;
use crate::laws::names::{
    blank_text, padding_is_dropped, plain_domain_is_its_own, tight, within_host,
};
use crate::text::without_prefix;

verus! {

// ---------------------------------------------------------------------------
// Lines
// ---------------------------------------------------------------------------

/// Whether a name is worth listing: it has a dot, or takes two bytes or more.
pub open spec fn listable(name: Seq<char>) -> bool {
    name.contains('.') || encode_utf8(name).len() >= 2
}

/// A line of a block list adds the name that its text is reduced to, unless it
/// is empty, a comment, or too short; a leading `*.` does not count. No listable
/// name is left out, and no other is taken in.
pub proof fn every_listed_name_is_an_entry(
    before: Seq<char>,
    star: Seq<char>,
    name: Seq<char>,
    after: Seq<char>,
)
    requires
        blank_text(before),
        blank_text(after),
        star.len() == 0 || star == "*."@,
        star.len() == 0 ==> !"*."@.is_prefix_of(name),
        tight(star + name),
    ensures
        ({
            let line = before + (star + name) + after;
            let text = star + name;
            let domain = normalized(name);
            &&& text.len() == 0 || text[0] == '#' ==> list_entry(line) is None
            &&& text.len() > 0 && text[0] != '#' && listable(domain) ==> list_entry(line) == Some(
                domain,
            )
            &&& !listable(domain) ==> list_entry(line) is None
        }),
{
    let text = star + name;
    padding_is_dropped(before, text, after);
    reveal_strlit("*.");
    if star.len() == 0 {
        assert(text =~= name);
    } else {
        assert(text.subrange(0, 2) =~= star);
        assert(text.skip(2) =~= name);
    }
    assert(without_prefix(text, "*."@) == name);
}

/// A domain that a list writes plainly, with or without `*.` in front, is added
/// as it is written.
pub proof fn plain_domains_are_entries(
    before: Seq<char>,
    star: Seq<char>,
    d: Seq<char>,
    after: Seq<char>,
)
    requires
        blank_text(before),
        blank_text(after),
        star.len() == 0 || star == "*."@,
        star.len() == 0 ==> !"*."@.is_prefix_of(d) && d[0] != '#',
        d.contains('.'),
        is_ascii_chars(d),
        forall|i: int| 0 <= i < d.len() ==> !('A' <= #[trigger] d[i] <= 'Z'),
        within_host(d),
        !d.contains(':'),
        tight(d),
        d[d.len() - 1] != '.',
        !"www."@.is_prefix_of(d),
    ensures
        list_entry(before + (star + d) + after) == Some(d),
{
    let none = Seq::<char>::empty();
    reveal_strlit("*.");
    assert(d.len() > 0);
    plain_domain_is_its_own(none, d, none);
    assert(none + d + none =~= d);
    let text = star + d;
    assert(text[text.len() - 1] == d[d.len() - 1]);
    if star.len() == 0 {
        assert(text =~= d);
    } else {
        assert(text[0] == '*');
    }
    every_listed_name_is_an_entry(before, star, d, after);
}

// ---------------------------------------------------------------------------
// Lists
// ---------------------------------------------------------------------------

/// Loading no line changes nothing.
pub proof fn no_line_changes_nothing(bits: Seq<u8>, lines: Seq<String>)
    ensures
        with_lines(bits, bits, lines, 0),
{
}

/// Loading a list is adding its entries one after the other: one line more adds
/// its entry, if it has one.
pub proof fn lines_are_added_one_by_one(
    before: Seq<u8>,
    middle: Seq<u8>,
    after: Seq<u8>,
    lines: Seq<String>,
    n: int,
)
    requires
        0 <= n < lines.len(),
        with_lines(before, middle, lines, n),
        match list_entry(lines[n]@) {
            Some(domain) => with_hashes(middle, after, 13, domain_hashes(domain)),
            None => after == middle,
        },
    ensures
        with_lines(before, after, lines, n + 1),
{
    let m = bit_len(before);
    assert forall|j: int| 0 <= j < m implies (#[trigger] bit_set(after, j) <==> bit_set(before, j)
        || exists|t: int| 0 <= t < n + 1 && line_sets(#[trigger] lines[t]@, m, j)) by {
        assert(bit_set(middle, j) <==> bit_set(before, j) || exists|t: int|
            0 <= t < n && line_sets(#[trigger] lines[t]@, m, j));
        assert(bit_set(after, j) <==> bit_set(middle, j) || line_sets(lines[n]@, m, j));
    }
}

/// Loading a list has one outcome, whatever way it is told.
pub proof fn loading_is_determined(
    before: Seq<u8>,
    one: Seq<u8>,
    other: Seq<u8>,
    lines: Seq<String>,
    n: int,
)
    requires
        with_lines(before, one, lines, n),
        with_lines(before, other, lines, n),
    ensures
        one == other,
{
    let m = bit_len(before);
    assert forall|j: int| 0 <= j < 8 * one.len() implies (#[trigger] bit_set(one, j) <==> bit_set(
        other,
        j,
    )) by {
        assert(bit_set(one, j) <==> bit_set(before, j) || exists|t: int|
            0 <= t < n && line_sets(#[trigger] lines[t]@, m, j));
        assert(bit_set(other, j) <==> bit_set(before, j) || exists|t: int|
            0 <= t < n && line_sets(#[trigger] lines[t]@, m, j));
    }
    same_bits_same_bytes(one, other);
}

/// The number of entries is the number of lines that have one.
pub proof fn entries_are_counted(lines: Seq<String>, n: int)
    requires
        n >= 0,
    ensures
        set_int_range(0, n).filter(|i: int| list_entry(lines[i]@) is Some).finite(),
        entries(lines, n) == set_int_range(0, n).filter(
            |i: int| list_entry(lines[i]@) is Some,
        ).len(),
    decreases n,
{
    let p = |i: int| list_entry(lines[i]@) is Some;
    let now = set_int_range(0, n).filter(p);
    if n == 0 {
        assert(now =~= Set::empty());
    } else {
        entries_are_counted(lines, n - 1);
        let before = set_int_range(0, n - 1).filter(p);
        if p(n - 1) {
            assert(now =~= before.insert(n - 1));
        } else {
            assert(now =~= before);
        }
    }
}

// ---------------------------------------------------------------------------
// The command line
// ---------------------------------------------------------------------------

/// Whether an option introduces a list with this label.
pub open spec fn introduces(option: Seq<char>, label: Seq<char>) -> bool {
    ||| option == "--nsfw"@ && label == "NSFW"@
    ||| option == "--ads"@ && label == "Ads"@
    ||| option == "--tracking"@ && label == "Tracking"@
    ||| option == "--phishing"@ && label == "Phishing"@
    ||| option == "--list"@ && label == "Custom"@
}

proof fn lemma_options_differ()
    ensures
        "--nsfw"@ != "--ads"@ && "--nsfw"@ != "--tracking"@ && "--nsfw"@ != "--phishing"@
            && "--nsfw"@ != "--list"@ && "--nsfw"@ != "--output"@,
        "--ads"@ != "--tracking"@ && "--ads"@ != "--phishing"@ && "--ads"@ != "--list"@ && "--ads"@
            != "--output"@,
        "--tracking"@ != "--phishing"@ && "--tracking"@ != "--list"@ && "--tracking"@
            != "--output"@,
        "--phishing"@ != "--list"@ && "--phishing"@ != "--output"@,
        "--list"@ != "--output"@,
{
    reveal_strlit("--nsfw");
    reveal_strlit("--ads");
    reveal_strlit("--tracking");
    reveal_strlit("--phishing");
    reveal_strlit("--list");
    reveal_strlit("--output");
    assert("--nsfw"@[2] == 'n' && "--ads"@[2] == 'a' && "--tracking"@[2] == 't' && "--phishing"@[2]
        == 'p' && "--list"@[2] == 'l' && "--output"@[2] == 'o');
}

/// An option that introduces lists takes the argument behind it as the path of
/// one, after the lists before; `--output` takes it as the file to write; and
/// any other argument is passed over.
pub proof fn arguments_in_turn(args: Seq<String>, i: int, o: Options, label: Seq<char>)
    requires
        0 <= i < args.len(),
    ensures
        i + 1 < args.len() && introduces(args[i]@, label) ==> options_from(args, i, o)
            == options_from(
            args,
            i + 2,
            Options { lists: o.lists.push((label, args[i + 1]@)), output: o.output },
        ),
        i + 1 < args.len() && args[i]@ == "--output"@ ==> options_from(args, i, o) == options_from(
            args,
            i + 2,
            Options { lists: o.lists, output: args[i + 1]@ },
        ),
        args[i]@ != "--output"@ && !(exists|l: Seq<char>| #[trigger] introduces(args[i]@, l))
            ==> options_from(args, i, o) == options_from(args, i + 1, o),
        i + 1 == args.len() ==> options_from(args, i, o) == o,
        options_from(args, args.len() as int, o) == o,
{
    lemma_options_differ();
    if label_of(args[i]@) is Some {
        assert(introduces(args[i]@, label_of(args[i]@)->0));
    }
}

/// A command line of list options gives exactly these lists, in this order, and
/// leaves the file to write as it was.
pub proof fn lists_come_in_order(args: Seq<String>, i: int, n: nat, labels: Seq<Seq<char>>, o: Options)
    requires
        0 <= i,
        args.len() == i + 2 * n,
        labels.len() == n,
        forall|t: int|
            0 <= t < n ==> introduces(#[trigger] args[i + 2 * t]@, labels[t]),
    ensures
        ({
            let r = options_from(args, i, o);
            &&& r.output == o.output
            &&& r.lists == o.lists + Seq::new(n, |t: int| (labels[t], args[i + 2 * t + 1]@))
        }),
    decreases n,
{
    let found = Seq::new(n, |t: int| (labels[t], args[i + 2 * t + 1]@));
    if n == 0 {
        assert(o.lists + found =~= o.lists);
    } else {
        assert(args[i + 2 * 0] == args[i]);
        assert(introduces(args[i]@, labels[0]));
        arguments_in_turn(args, i, o, labels[0]);
        let next = Options { lists: o.lists.push((labels[0], args[i + 1]@)), output: o.output };
        let less = (n - 1) as nat;
        let others = labels.skip(1);
        assert forall|t: int| 0 <= t < less implies introduces(
            #[trigger] args[i + 2 + 2 * t]@,
            others[t],
        ) by {
            assert(args[i + 2 * (t + 1)] == args[i + 2 + 2 * t]);
            assert(introduces(args[i + 2 * (t + 1)]@, labels[t + 1]));
        }
        lists_come_in_order(args, i + 2, less, others, next);
        let rest = Seq::new(less, |t: int| (others[t], args[i + 2 + 2 * t + 1]@));
        assert(next.lists + rest =~= o.lists + found);
    }
}

} // verus!
