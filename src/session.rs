//! A voting session: the item count, the item names, then the votes on each
//! item in turn, all read one line at a time.
use vstd::prelude::*;
use vstd::string::StringExecFns;
use crate::tally::{Tally, Vote, vote_of};
use crate::text::{decimal_text, i64_value, law_decimal_text_parses, parse_i64, trim, trimmed};

verus! {

/// Why the items could not be read; either ends the session.
#[derive(Debug, Clone, Copy, PartialEq, Eq, Structural)]
pub enum InputError {
    /// The item count line is not an integer that fits in an `i32`.
    NotANumber,
    /// The input ended where a count or item name line was still needed.
    InputEnded,
}

/// The integer that the item count line holds, with white space around it
/// allowed; `None` where the line holds no `i32`.
pub open spec fn count_value(line: Seq<char>) -> Option<int> {
    match i64_value(trimmed(line)) {
        Some(v) => if i32::MIN <= v <= i32::MAX {
            Some(v)
        } else {
            None
        },
        None => None,
    }
}

/// How many item names a count asks for: none for a negative count.
pub open spec fn items_wanted(count: int) -> nat {
    if count < 0 {
        0
    } else {
        count as nat
    }
}

/// Reads the item count line into the number of item names to read.
pub fn parse_count(line: &str) -> (r: Result<usize, InputError>)
    ensures
        match r {
            Ok(n) => count_value(line@) is Some && n as nat == items_wanted(count_value(line@).unwrap()),
            Err(e) => e == InputError::NotANumber && count_value(line@) is None,
        },
{
    match parse_i64(trim(line)) {
        Some(v) => if v < i32::MIN as i64 || v > i32::MAX as i64 {
            Err(InputError::NotANumber)
        } else if v < 0 {
            Ok(0)
        } else {
            Ok(v as usize)
        },
        None => Err(InputError::NotANumber),
    }
}

/// Gathers the item names, one line each, after the item count is known.
pub struct ItemCollector {
    wanted: usize,
    items: Vec<String>,
}

impl ItemCollector {
    /// How many item names are asked for in all.
    pub closed spec fn wanted(&self) -> nat {
        self.wanted as nat
    }

    /// The item names gathered so far, in input order.
    pub closed spec fn collected(&self) -> Seq<Seq<char>> {
        self.items.deep_view()
    }

    pub closed spec fn wf(&self) -> bool {
        self.items@.len() <= self.wanted
    }

    /// Starts from the item count line; fails where it holds no integer.
    pub fn start(count_line: &str) -> (r: Result<ItemCollector, InputError>)
        ensures
            match r {
                Ok(c) => {
                    &&& c.wf()
                    &&& count_value(count_line@) is Some
                    &&& c.wanted() == items_wanted(count_value(count_line@).unwrap())
                    &&& c.collected() == Seq::<Seq<char>>::empty()
                },
                Err(e) => e == InputError::NotANumber && count_value(count_line@) is None,
            },
    {
        match parse_count(count_line) {
            Ok(n) => {
                let c = ItemCollector { wanted: n, items: Vec::new() };
                assert(c.collected() =~= Seq::<Seq<char>>::empty());
                Ok(c)
            },
            Err(e) => Err(e),
        }
    }

    /// Whether another item name is still to be read.
    pub fn needs_more(&self) -> (r: bool)
        requires
            self.wf(),
        ensures
            r == (self.collected().len() < self.wanted()),
    {
        self.items.len() < self.wanted
    }

    /// Takes one item name line, trimmed, as the next item.
    pub fn push_line(&mut self, line: &str)
        requires
            old(self).wf(),
            old(self).collected().len() < old(self).wanted(),
        ensures
            final(self).wf(),
            final(self).wanted() == old(self).wanted(),
            final(self).collected() == old(self).collected().push(trimmed(line@)),
    {
        let item = String::from_str(trim(line));
        self.items.push(item);
        assert(self.collected() =~= old(self).collected().push(trimmed(line@)));
    }

    /// The item names, in input order.
    pub fn into_items(self) -> (r: Vec<String>)
        ensures
            r.deep_view() == self.collected(),
    {
        self.items
    }
}

/// How many item names the count on the first line asks for.
pub open spec fn items_asked(lines: Seq<Seq<char>>) -> nat {
    items_wanted(count_value(lines[0]).unwrap())
}

/// Why reading the count and the item names from `lines` fails, if it does:
/// no count line, a count line that holds no integer, or fewer item name
/// lines than the count asks for.
pub open spec fn collect_error(lines: Seq<Seq<char>>) -> Option<InputError> {
    if lines.len() == 0 {
        Some(InputError::InputEnded)
    } else if count_value(lines[0]) is None {
        Some(InputError::NotANumber)
    } else if lines.len() < 1 + items_asked(lines) {
        Some(InputError::InputEnded)
    } else {
        None
    }
}

/// The first `wanted` item names that follow the count line, trimmed.
pub open spec fn collected_items(lines: Seq<Seq<char>>, wanted: nat) -> Seq<Seq<char>> {
    Seq::new(wanted, |i: int| trimmed(lines[i + 1]))
}

/// Reads the item count from the first line and that many item names from
/// the lines after it. Running out of lines before every name is read is an
/// error: no partial list is returned.
pub fn collect_items(lines: &Vec<String>) -> (r: Result<Vec<String>, InputError>)
    ensures
        match r {
            Ok(items) => {
                &&& collect_error(lines.deep_view()) is None
                &&& items.deep_view() == collected_items(
                    lines.deep_view(),
                    items_asked(lines.deep_view()),
                )
            },
            Err(e) => collect_error(lines.deep_view()) == Some(e),
        },
{
    let ghost ls = lines.deep_view();
    if lines.len() == 0 {
        return Err(InputError::InputEnded);
    }
    let mut c = match ItemCollector::start(lines[0].as_str()) {
        Ok(c) => c,
        Err(e) => return Err(e),
    };
    let ghost wanted = c.wanted();
    assert(wanted == items_asked(ls));
    let mut i: usize = 0;
    while c.needs_more()
        invariant
            c.wf(),
            c.wanted() == wanted,
            wanted == items_asked(ls),
            count_value(ls[0]) is Some,
            i == c.collected().len(),
            i + 1 <= ls.len(),
            c.collected() == Seq::new(i as nat, |k: int| trimmed(ls[k + 1])),
            ls == lines.deep_view(),
        decreases wanted - i,
    {
        if i + 1 >= lines.len() {
            return Err(InputError::InputEnded);
        }
        let line = lines[i + 1].as_str();
        c.push_line(line);
        i = i + 1;
        assert(c.collected() =~= Seq::new(i as nat, |k: int| trimmed(ls[k + 1])));
    }
    assert(collected_items(ls, wanted) =~= Seq::new(i as nat, |k: int| trimmed(ls[k + 1])));
    Ok(c.into_items())
}

/// How many yes or no votes stand in a row from line `start` on, before the
/// line that stops voting (or the end of the input).
pub open spec fn vote_run(lines: Seq<Seq<char>>, start: int) -> nat
    decreases lines.len() - start,
{
    if 0 <= start < lines.len() && vote_of(lines[start]) != Vote::Stop {
        1 + vote_run(lines, start + 1)
    } else {
        0
    }
}

/// The yes votes among the run that starts at line `start`.
pub open spec fn yes_votes(lines: Seq<Seq<char>>, start: int) -> nat
    decreases lines.len() - start,
{
    if 0 <= start < lines.len() && vote_of(lines[start]) != Vote::Stop {
        (if vote_of(lines[start]) == Vote::Yes { 1nat } else { 0nat }) + yes_votes(lines, start + 1)
    } else {
        0
    }
}

/// The no votes among the run that starts at line `start`.
pub open spec fn no_votes(lines: Seq<Seq<char>>, start: int) -> nat
    decreases lines.len() - start,
{
    if 0 <= start < lines.len() && vote_of(lines[start]) != Vote::Stop {
        (if vote_of(lines[start]) == Vote::No { 1nat } else { 0nat }) + no_votes(lines, start + 1)
    } else {
        0
    }
}

/// Where reading goes on after voting on one item that starts at line `start`:
/// just past the line that stopped it, and never past the end of the input.
pub open spec fn after_votes(lines: Seq<Seq<char>>, start: int) -> int {
    if start + vote_run(lines, start) < lines.len() {
        start + vote_run(lines, start) + 1
    } else {
        lines.len() as int
    }
}

/// The line at which voting on the `i`-th item starts, when voting on the
/// first starts at `start`.
pub open spec fn item_start(lines: Seq<Seq<char>>, start: int, i: nat) -> int
    decreases i,
{
    if i == 0 {
        start
    } else {
        after_votes(lines, item_start(lines, start, (i - 1) as nat))
    }
}

proof fn lemma_run_bounds(lines: Seq<Seq<char>>, start: int)
    requires
        0 <= start,
    ensures
        start < lines.len() ==> start + vote_run(lines, start) <= lines.len(),
        start >= lines.len() ==> vote_run(lines, start) == 0,
        yes_votes(lines, start) + no_votes(lines, start) == vote_run(lines, start),
    decreases lines.len() - start,
{
    if 0 <= start < lines.len() && vote_of(lines[start]) != Vote::Stop {
        lemma_run_bounds(lines, start + 1);
    }
}

/// Reads the votes on one item from line `start` on, until a line that is
/// neither a yes nor a no, or the end of the input. Returns the tally and
/// the line at which reading goes on.
pub fn tally_votes(lines: &Vec<String>, start: usize) -> (r: (Tally, usize))
    ensures
        r.0.yes == yes_votes(lines.deep_view(), start as int),
        r.0.no == no_votes(lines.deep_view(), start as int),
        r.1 == after_votes(lines.deep_view(), start as int),
{
    let ghost ls = lines.deep_view();
    let n = lines.len();
    let mut t = Tally::new();
    let mut i: usize = start;
    proof {
        lemma_run_bounds(ls, start as int);
    }
    loop
        invariant
            ls == lines.deep_view(),
            n == ls.len(),
            start <= i,
            i <= start + vote_run(ls, start as int),
            t.total() == i - start,
            t.yes + yes_votes(ls, i as int) == yes_votes(ls, start as int),
            t.no + no_votes(ls, i as int) == no_votes(ls, start as int),
            start + vote_run(ls, start as int) == i + vote_run(ls, i as int),
            start < n ==> start + vote_run(ls, start as int) <= n,
            start >= n ==> vote_run(ls, start as int) == 0,
        decreases n - i,
    {
        if i >= n {
            return (t, n);
        }
        let more = t.feed(lines[i].as_str());
        if !more {
            return (t, i + 1);
        }
        i = i + 1;
    }
}


/// One item with the votes cast for it.
pub struct ItemVotes {
    pub item: String,
    pub tally: Tally,
}

/// What voting on the `i`-th of `items` gives, when voting on the first
/// starts at line `start`: the item's name with its tally.
pub open spec fn item_votes_match(
    r: ItemVotes,
    items: Seq<Seq<char>>,
    lines: Seq<Seq<char>>,
    start: int,
    i: int,
) -> bool {
    &&& r.item@ == items[i]
    &&& r.tally.yes == yes_votes(lines, item_start(lines, start, i as nat))
    &&& r.tally.no == no_votes(lines, item_start(lines, start, i as nat))
}

/// Runs the vote on each item in turn, reading from line `start` on. Returns
/// one entry per item, in the order of `items`, and the line at which
/// reading goes on.
pub fn run_voting(items: &Vec<String>, lines: &Vec<String>, start: usize) -> (r: (
    Vec<ItemVotes>,
    usize,
))
    ensures
        r.0@.len() == items@.len(),
        forall|i: int|
            0 <= i < items@.len() ==> item_votes_match(
                #[trigger] r.0@[i],
                items.deep_view(),
                lines.deep_view(),
                start as int,
                i,
            ),
        r.1 == item_start(lines.deep_view(), start as int, items@.len()),
{
    let ghost ls = lines.deep_view();
    let mut results: Vec<ItemVotes> = Vec::new();
    let mut pos: usize = start;
    let mut k: usize = 0;
    while k < items.len()
        invariant
            ls == lines.deep_view(),
            k <= items@.len(),
            results@.len() == k,
            pos == item_start(ls, start as int, k as nat),
            forall|i: int|
                0 <= i < k ==> item_votes_match(
                    #[trigger] results@[i],
                    items.deep_view(),
                    ls,
                    start as int,
                    i,
                ),
        decreases items@.len() - k,
    {
        let (tally, next) = tally_votes(lines, pos);
        results.push(ItemVotes { item: items[k].clone(), tally });
        pos = next;
        k = k + 1;
    }
    (results, pos)
}

/// A whole session on the given input lines: the item count, the item
/// names, then the votes on each item, starting just past the last name.
/// Fails exactly where collecting the items fails.
pub fn run_session(lines: &Vec<String>) -> (r: Result<Vec<ItemVotes>, InputError>)
    ensures
        match r {
            Ok(results) => {
                let ls = lines.deep_view();
                let wanted = items_asked(ls);
                &&& collect_error(ls) is None
                &&& results@.len() == wanted
                &&& forall|i: int|
                    0 <= i < wanted ==> item_votes_match(
                        #[trigger] results@[i],
                        collected_items(ls, wanted),
                        ls,
                        (1 + wanted) as int,
                        i,
                    )
            },
            Err(e) => collect_error(lines.deep_view()) == Some(e),
        },
{
    let items = match collect_items(lines) {
        Ok(items) => items,
        Err(e) => return Err(e),
    };
    let ghost ls = lines.deep_view();
    let wanted = items.len();
    assert(items.deep_view().len() == items@.len());
    let (results, _) = run_voting(&items, lines, 1 + wanted);
    Ok(results)
}

/// For every count N from zero up to the largest `i32`: when the first line
/// is N in decimal and N lines follow it, the items are exactly those N
/// lines, each trimmed, in input order.
pub proof fn law_collect_items_takes_n_lines(lines: Seq<Seq<char>>, n: nat)
    requires
        n <= i32::MAX,
        lines.len() == n + 1,
        lines[0] == decimal_text(n),
    ensures
        count_value(lines[0]) == Some(n as int),
        items_asked(lines) == n,
        collect_error(lines) is None,
        collected_items(lines, n).len() == n,
        forall|i: int| 0 <= i < n ==> #[trigger] collected_items(lines, n)[i] == trimmed(lines[i + 1]),
{
    law_decimal_text_parses(n);
}

/// Voting on an item counts exactly the yes and no votes that stand before
/// the line that stops it: yes plus no is the number of vote lines read
/// before that line, every one of them is a yes or a no, and the line that
/// stops voting, where the input has one, is neither.
pub proof fn law_tally_counts_votes_before_stop(lines: Seq<Seq<char>>, start: int)
    requires
        0 <= start,
    ensures
        yes_votes(lines, start) + no_votes(lines, start) == vote_run(lines, start),
        forall|j: int|
            start <= j < start + vote_run(lines, start) ==> j < lines.len() && #[trigger] vote_of(lines[j])
                != Vote::Stop,
        start + vote_run(lines, start) < lines.len() ==> vote_of(
            lines[start + vote_run(lines, start)],
        ) == Vote::Stop,
    decreases lines.len() - start,
{
    if 0 <= start < lines.len() && vote_of(lines[start]) != Vote::Stop {
        law_tally_counts_votes_before_stop(lines, start + 1);
    }
}

} // verus!
