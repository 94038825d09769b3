//! The alias file format: one `"name command-line"` entry per line.
//!
//! Only the first space of a line separates the name from the command line;
//! a line without a space, or with an empty name or command part, defines no
//! alias and is skipped. Loading is additive and stops once the table holds
//! `max_aliases` entries, checked after each insertion.

use vstd::prelude::*;
use vstd::string::StrSliceExecFns;
use vstd::string::StringExecFns;
use crate::alias::AliasTable;
use crate::alias::entry_wf;
use crate::alias::map_of;
use crate::alias::unique_keys;
use crate::alias::entries_wf;
use crate::alias::lemma_map_of_dom_len;

verus! {

/// The position of the first space at or after position `i`, or the length of
/// the line when there is none.
pub open spec fn first_space(l: Seq<char>, i: int) -> int
    decreases l.len() - i,
{
    if i < 0 || i >= l.len() {
        l.len() as int
    } else if l[i] == ' ' {
        i
    } else {
        first_space(l, i + 1)
    }
}

/// The (name, command) pair a line defines: the parts before and after its
/// first space, provided both are non-empty. Otherwise the line is skipped.
pub open spec fn parse_line(l: Seq<char>) -> Option<(Seq<char>, Seq<char>)> {
    let j = first_space(l, 0);
    if 0 < j && j + 1 < l.len() {
        Some((l.subrange(0, j), l.subrange(j + 1, l.len() as int)))
    } else {
        None
    }
}

/// The line that records one entry.
pub open spec fn render_line(name: Seq<char>, command: Seq<char>) -> Seq<char> {
    name + seq![' '] + command
}

/// The table reached from `m` by reading `lines` in order: each parsed line
/// inserted, reading stopped as soon as the table holds `max` entries.
pub open spec fn load_map(m: Map<Seq<char>, Seq<char>>, lines: Seq<Seq<char>>, max: nat) -> Map<
    Seq<char>,
    Seq<char>,
>
    decreases lines.len(),
{
    if lines.len() == 0 {
        m
    } else {
        match parse_line(lines[0]) {
            None => load_map(m, lines.drop_first(), max),
            Some(p) => {
                let m2 = m.insert(p.0, p.1);
                if m2.dom().len() >= max {
                    m2
                } else {
                    load_map(m2, lines.drop_first(), max)
                }
            },
        }
    }
}

/// Basic facts about `first_space`: it stays within the line, no space stands
/// before it, and it points at a space when one exists.
pub proof fn lemma_first_space_props(l: Seq<char>, i: int)
    requires
        0 <= i <= l.len(),
    ensures
        i <= first_space(l, i) <= l.len(),
        forall|k: int| i <= k < first_space(l, i) ==> l[k] != ' ',
        first_space(l, i) < l.len() ==> l[first_space(l, i)] == ' ',
    decreases l.len() - i,
{
    if i < l.len() && l[i] != ' ' {
        lemma_first_space_props(l, i + 1);
    }
}

/// A space-free prefix pushes the first space past it.
proof fn lemma_first_space_skip(l: Seq<char>, i: int, j: int)
    requires
        0 <= i <= j <= l.len(),
        forall|k: int| i <= k < j ==> l[k] != ' ',
    ensures
        first_space(l, i) == first_space(l, j),
    decreases j - i,
{
    if i < j {
        lemma_first_space_skip(l, i + 1, j);
    }
}

/// A parsed line always yields a valid entry.
pub proof fn lemma_parse_line_wf(l: Seq<char>)
    ensures
        parse_line(l) matches Some(p) ==> entry_wf(p.0, p.1),
{
    lemma_first_space_props(l, 0);
}

/// Rendering an entry and parsing the line gives the entry back.
pub proof fn lemma_parse_render_line(name: Seq<char>, command: Seq<char>)
    requires
        entry_wf(name, command),
    ensures
        parse_line(render_line(name, command)) == Some((name, command)),
{
    let l = render_line(name, command);
    assert(l[name.len() as int] == ' ');
    assert(forall|k: int| 0 <= k < name.len() ==> l[k] == name[k] && #[trigger] l[k] != ' ');
    lemma_first_space_skip(l, 0, name.len() as int);
    assert(first_space(l, 0) == name.len());
    assert(l.subrange(0, name.len() as int) =~= name);
    assert(l.subrange(name.len() as int + 1, l.len() as int) =~= command);
}

/// Splits a stored alias line into its name and command-line parts.
pub fn parse_alias_line(line: &str) -> (r: Option<(String, String)>)
    ensures
        match r {
            Some(p) => parse_line(line@) == Some((p.0@, p.1@)),
            None => parse_line(line@) is None,
        },
{
    let n = line.unicode_len();
    let mut j: usize = 0;
    while j < n && line.get_char(j) != ' '
        invariant
            n == line@.len(),
            j <= n,
            forall|k: int| 0 <= k < j ==> line@[k] != ' ',
        decreases n - j,
    {
        j = j + 1;
    }
    proof {
        lemma_first_space_skip(line@, 0, j as int);
        if j < n {
            assert(first_space(line@, j as int) == j);
        }
    }
    if 0 < j && j < n && n - j > 1 {
        let name = String::from_str(line.substring_char(0, j));
        let command = String::from_str(line.substring_char(j + 1, n));
        Some((name, command))
    } else {
        None
    }
}

/// Reads alias definitions from the lines of a file into the table, stopping
/// once the table holds `max_aliases` entries.
pub fn read_aliases_from_lines(aliases: &mut AliasTable, lines: &Vec<String>, max_aliases: usize)
    requires
        old(aliases).wf(),
    ensures
        final(aliases).wf(),
        final(aliases)@ == load_map(old(aliases)@, lines.deep_view(), max_aliases as nat),
{
    let ghost all = lines.deep_view();
    let n = lines.len();
    let mut i: usize = 0;
    proof {
        assert(all.skip(0) =~= all);
    }
    while i < n
        invariant
            aliases.wf(),
            n == lines.len(),
            all == lines.deep_view(),
            n == all.len(),
            i <= n,
            load_map(old(aliases)@, all, max_aliases as nat) == load_map(
                aliases@,
                all.skip(i as int),
                max_aliases as nat,
            ),
        decreases n - i,
    {
        let ghost rest = all.skip(i as int);
        proof {
            assert(rest[0] == all[i as int]);
            assert(rest.drop_first() =~= all.skip(i + 1));
        }
        let ghost m0 = aliases@;
        match parse_alias_line(&lines[i]) {
            Some(p) => {
                proof {
                    assert(all[i as int] == lines@[i as int].deep_view());
                    assert(all[i as int] == lines@[i as int]@);
                    lemma_parse_line_wf(all[i as int]);
                    assert(entry_wf(p.0@, p.1@));
                }
                aliases.insert(p.0.as_str(), p.1.as_str());
                let ghost m2 = m0.insert(p.0@, p.1@);
                proof {
                    assert(aliases@ == m2);
                    assert(parse_line(rest[0]) == Some((p.0@, p.1@)));
                }
                let count = aliases.len();
                if count >= max_aliases {
                    proof {
                        assert(m2.dom().len() >= max_aliases as nat);
                        assert(load_map(m0, rest, max_aliases as nat) == m2);
                    }
                    return ;
                }
                proof {
                    assert(m2.dom().len() < max_aliases as nat);
                    assert(load_map(m0, rest, max_aliases as nat) == load_map(
                        m2,
                        all.skip(i + 1),
                        max_aliases as nat,
                    ));
                }
            },
            None => {},
        }
        i = i + 1;
    }
    proof {
        assert(all.skip(n as int) =~= Seq::<Seq<char>>::empty());
    }
}

/// Renders the table as alias file lines, one entry per line, in the table's
/// enumeration order.
pub fn save_aliases_lines(aliases: &AliasTable) -> (r: Vec<String>)
    ensures
        r.deep_view().len() == aliases.seq_view().len(),
        forall|i: int|
            0 <= i < r.deep_view().len() ==> #[trigger] r.deep_view()[i] == render_line(
                aliases.seq_view()[i].0,
                aliases.seq_view()[i].1,
            ),
{
    let n = aliases.entry_count();
    let mut r: Vec<String> = Vec::new();
    let mut i: usize = 0;
    proof {
        reveal_strlit(" ");
        assert(" "@ =~= seq![' ']);
    }
    while i < n
        invariant
            n == aliases.seq_view().len(),
            i <= n,
            r.deep_view().len() == i,
            " "@ =~= seq![' '],
            forall|k: int|
                0 <= k < i ==> #[trigger] r.deep_view()[k] == render_line(
                    aliases.seq_view()[k].0,
                    aliases.seq_view()[k].1,
                ),
        decreases n - i,
    {
        let e = aliases.entry_at(i);
        let mut line = e.0.clone();
        line.append(" ");
        line.append(e.1.as_str());
        let ghost prev = r.deep_view();
        r.push(line);
        proof {
            assert(r.deep_view() =~= prev.push(line@));
            assert(line@ =~= render_line(aliases.seq_view()[i as int].0, aliases.seq_view()[i as int].1));
        }
        i = i + 1;
    }
    r
}

/// The saved lines of a table, loaded into an empty table whose bound admits
/// them all, rebuild exactly the saved mapping.
///
/// Stated over any entry sequence with distinct names and valid entries, any
/// line sequence that renders it, and any bound at least as large.
pub proof fn lemma_save_load_round_trip(
    es: Seq<(Seq<char>, Seq<char>)>,
    lines: Seq<Seq<char>>,
    max: nat,
)
    requires
        unique_keys(es),
        entries_wf(es),
        lines.len() == es.len(),
        forall|i: int| 0 <= i < es.len() ==> #[trigger] lines[i] == render_line(es[i].0, es[i].1),
        max >= es.len(),
    ensures
        load_map(Map::<Seq<char>, Seq<char>>::empty(), lines, max) == map_of(es),
{
    lemma_load_from(es, lines, max, 0);
    assert(es.take(0) =~= Seq::<(Seq<char>, Seq<char>)>::empty());
    assert(lines.skip(0) =~= lines);
    assert(es.take(es.len() as int) =~= es);
}

/// Induction step for the round trip: having loaded the first `i` entries,
/// the remaining lines complete the mapping.
proof fn lemma_load_from(es: Seq<(Seq<char>, Seq<char>)>, lines: Seq<Seq<char>>, max: nat, i: int)
    requires
        unique_keys(es),
        entries_wf(es),
        lines.len() == es.len(),
        forall|k: int| 0 <= k < es.len() ==> #[trigger] lines[k] == render_line(es[k].0, es[k].1),
        max >= es.len(),
        0 <= i <= es.len(),
    ensures
        load_map(map_of(es.take(i)), lines.skip(i), max) == map_of(es.take(es.len() as int)),
    decreases es.len() - i,
{
    let m = map_of(es.take(i));
    let rest = lines.skip(i);
    if i == es.len() {
        assert(rest.len() == 0);
        assert(es.take(i) =~= es.take(es.len() as int));
    } else {
        assert(rest[0] == lines[i]);
        lemma_parse_render_line(es[i].0, es[i].1);
        assert(parse_line(rest[0]) == Some((es[i].0, es[i].1)));
        let m2 = m.insert(es[i].0, es[i].1);
        assert(es.take(i + 1).drop_last() =~= es.take(i));
        assert(es.take(i + 1).last() == es[i]);
        assert(m2 == map_of(es.take(i + 1)));
        assert(unique_keys(es.take(i + 1))) by {
            assert forall|p: int, q: int| 0 <= p < q < i + 1 implies (#[trigger] es.take(i + 1)[p]).0
                != (#[trigger] es.take(i + 1)[q]).0 by {
                assert(es[p].0 != es[q].0);
            }
        }
        lemma_map_of_dom_len(es.take(i + 1));
        assert(m2.dom().len() == i + 1);
        if i + 1 == es.len() {
            if m2.dom().len() >= max {
                assert(es.take(i + 1) =~= es.take(es.len() as int));
            } else {
                assert(rest.drop_first() =~= lines.skip(i + 1));
                lemma_load_from(es, lines, max, i + 1);
                assert(es.take(i + 1) =~= es.take(es.len() as int));
            }
        } else {
            assert(m2.dom().len() < max);
            assert(rest.drop_first() =~= lines.skip(i + 1));
            lemma_load_from(es, lines, max, i + 1);
        }
    }
}

/// A line that defines no alias is skipped: it adds no entry and does not end
/// the load.
pub proof fn lemma_skipped_line(
    m: Map<Seq<char>, Seq<char>>,
    bad: Seq<char>,
    rest: Seq<Seq<char>>,
    max: nat,
)
    requires
        parse_line(bad) is None,
    ensures
        load_map(m, seq![bad] + rest, max) == load_map(m, rest, max),
{
    let lines = seq![bad] + rest;
    assert(lines[0] == bad);
    assert(lines.drop_first() =~= rest);
}

} // verus!
