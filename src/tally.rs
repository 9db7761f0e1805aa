//! Single votes, the yes/no tally of one item, and the verdict drawn from it.
use vstd::prelude::*;
use crate::text::{i64_value, trimmed, parse_i64, trim};

verus! {

/// What one line of voting input means.
#[derive(Debug, Clone, Copy, PartialEq, Eq, Structural)]
pub enum Vote {
    Yes,
    No,
    /// Any other input, which ends voting on the current item.
    Stop,
}

/// A line that, trimmed, reads as the integer 1 is a yes, as 0 a no;
/// any other integer, or text that is no integer, stops voting.
pub open spec fn vote_of(line: Seq<char>) -> Vote {
    match i64_value(trimmed(line)) {
        Some(v) => if v == 1 {
            Vote::Yes
        } else if v == 0 {
            Vote::No
        } else {
            Vote::Stop
        },
        None => Vote::Stop,
    }
}

pub fn classify(line: &str) -> (r: Vote)
    ensures
        r == vote_of(line@),
{
    match parse_i64(trim(line)) {
        Some(v) => if v == 1 {
            Vote::Yes
        } else if v == 0 {
            Vote::No
        } else {
            Vote::Stop
        },
        None => Vote::Stop,
    }
}

/// How an item came out of its vote.
#[derive(Debug, Clone, Copy, PartialEq, Eq, Structural)]
pub enum Verdict {
    /// More yes than no votes.
    Selected,
    /// More no than yes votes.
    NotSelected,
    /// As many yes as no votes, none at all included.
    EqualVoting,
}

pub open spec fn verdict_of(yes: int, no: int) -> Verdict {
    if yes > no {
        Verdict::Selected
    } else if yes == no {
        Verdict::EqualVoting
    } else {
        Verdict::NotSelected
    }
}

impl Verdict {
    pub open spec fn spec_phrase(self) -> Seq<char> {
        match self {
            Verdict::Selected => "is selected"@,
            Verdict::NotSelected => "is not selected"@,
            Verdict::EqualVoting => "has equal voting"@,
        }
    }

    /// The words that follow an item's name when its verdict is announced.
    pub fn phrase(&self) -> (r: &'static str)
        ensures
            r@ == self.spec_phrase(),
    {
        match self {
            Verdict::Selected => "is selected",
            Verdict::NotSelected => "is not selected",
            Verdict::EqualVoting => "has equal voting",
        }
    }
}

/// The yes and no votes cast for one item.
#[derive(Debug, Clone, Copy, PartialEq, Eq, Structural)]
pub struct Tally {
    pub yes: u64,
    pub no: u64,
}

impl Tally {
    /// A tally with no votes.
    pub fn new() -> (r: Tally)
        ensures
            r.yes == 0,
            r.no == 0,
    {
        Tally { yes: 0, no: 0 }
    }

    pub open spec fn total(self) -> int {
        self.yes + self.no
    }

    /// Counts one vote: a yes or a no adds one to its count, a stop changes
    /// nothing.
    pub fn record(&mut self, vote: Vote)
        requires
            old(self).total() < u64::MAX,
        ensures
            final(self).yes == old(self).yes + (if vote == Vote::Yes { 1int } else { 0 }),
            final(self).no == old(self).no + (if vote == Vote::No { 1int } else { 0 }),
    {
        match vote {
            Vote::Yes => self.yes = self.yes + 1,
            Vote::No => self.no = self.no + 1,
            Vote::Stop => {},
        }
    }

    /// Reads one line of voting input into the tally. Returns whether voting
    /// on the item goes on, that is whether the line was a yes or a no.
    pub fn feed(&mut self, line: &str) -> (more: bool)
        requires
            old(self).total() < u64::MAX,
        ensures
            more == (vote_of(line@) != Vote::Stop),
            final(self).yes == old(self).yes + (if vote_of(line@) == Vote::Yes { 1int } else { 0 }),
            final(self).no == old(self).no + (if vote_of(line@) == Vote::No { 1int } else { 0 }),
    {
        let vote = classify(line);
        self.record(vote);
        vote != Vote::Stop
    }

    /// Whether the tally can take one more vote without its counts overflowing.
    pub fn has_room(&self) -> (r: bool)
        ensures
            r == (self.total() < u64::MAX),
    {
        self.yes < u64::MAX - self.no
    }

    pub fn verdict(&self) -> (r: Verdict)
        ensures
            r == verdict_of(self.yes as int, self.no as int),
    {
        if self.yes > self.no {
            Verdict::Selected
        } else if self.yes == self.no {
            Verdict::EqualVoting
        } else {
            Verdict::NotSelected
        }
    }
}

} // verus!
