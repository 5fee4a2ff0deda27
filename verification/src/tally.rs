use crate::model::votes_in;
use crate::uint256::Uint256;
use vstd::prelude::*;

verus! {

/// One line of the tally: a choice and the number of votes cast for it.
struct TallyEntry {
    choice: Uint256,
    count: u64,
}

/// The running count of votes per choice.
///
/// A choice has at most one line. A choice without a line has no votes.
pub struct TallyTable {
    entries: Vec<TallyEntry>,
}

impl View for TallyTable {
    type V = Map<nat, nat>;

    /// The table as a map from each choice that has a line to its count.
    closed spec fn view(&self) -> Map<nat, nat> {
        Map::new(
            |choice: nat| self.has_line(choice),
            |choice: nat| self.entries[self.line_of(choice)].count as nat,
        )
    }
}

impl TallyTable {
    /// Some line of the table is about `choice`.
    spec fn has_line(&self, choice: nat) -> bool {
        exists|i: int| 0 <= i < self.entries.len() && (#[trigger] self.entries[i]).choice@ == choice
    }

    /// The position of a line about `choice`.
    spec fn line_of(&self, choice: nat) -> int {
        choose|i: int| 0 <= i < self.entries.len() && (#[trigger] self.entries[i]).choice@ == choice
    }

    /// No two lines are about the same choice.
    pub closed spec fn wf(&self) -> bool {
        forall|i: int, j: int|
            0 <= i < j < self.entries.len() ==> (#[trigger] self.entries[i]).choice@ != (
            #[trigger] self.entries[j]).choice@
    }

    /// In a well-formed table the line at position `i` is the one that the
    /// view reads for its choice.
    proof fn line_is_read(&self, i: int)
        requires
            self.wf(),
            0 <= i < self.entries.len(),
        ensures
            self@.contains_key(self.entries[i].choice@),
            self@[self.entries[i].choice@] == self.entries[i].count,
            self.line_of(self.entries[i].choice@) == i,
    {
        let choice: nat = self.entries[i].choice@;
        assert(self.has_line(choice));
        assert(self.entries[self.line_of(choice)].choice@ == choice);
    }

    /// A table without lines.
    pub fn new() -> (table: Self)
        ensures
            table.wf(),
            table@ == Map::<nat, nat>::empty(),
    {
        let table = TallyTable { entries: Vec::new() };
        assert(table@ =~= Map::<nat, nat>::empty());
        table
    }

    /// The position of the line about `choice`, if there is one.
    fn find(&self, choice: &Uint256) -> (found: Option<usize>)
        requires
            self.wf(),
        ensures
            match found {
                Some(i) => i < self.entries.len() && self.entries[i as int].choice@ == choice@,
                None => !self.has_line(choice@),
            },
    {
        let mut i: usize = 0;
        while i < self.entries.len()
            invariant
                i <= self.entries.len(),
                forall|j: int| 0 <= j < i ==> (#[trigger] self.entries[j]).choice@ != choice@,
            decreases self.entries.len() - i,
        {
            if self.entries[i].choice == *choice {
                return Some(i);
            }
            i += 1;
        }
        None
    }

    /// The number of votes counted for `choice`: zero if none was.
    pub fn get(&self, choice: &Uint256) -> (count: u64)
        requires
            self.wf(),
        ensures
            count == votes_in(self@, choice@),
    {
        match self.find(choice) {
            Some(i) => {
                proof {
                    self.line_is_read(i as int);
                }
                self.entries[i].count
            },
            None => 0,
        }
    }

    /// Counts one more vote for `choice`. The counts of all other choices stay.
    pub fn increment(&mut self, choice: Uint256)
        requires
            old(self).wf(),
            votes_in(old(self)@, choice@) < u64::MAX,
        ensures
            final(self).wf(),
            final(self)@ == old(self)@.insert(choice@, votes_in(old(self)@, choice@) + 1),
    {
        let ghost before = *self;
        match self.find(&choice) {
            Some(i) => {
                proof {
                    before.line_is_read(i as int);
                }
                let count: u64 = self.entries[i].count;
                self.entries[i] = TallyEntry { choice, count: count + 1 };
                proof {
                    // Every line is about the choice it was about before, and
                    // only line `i` has another count.
                    assert forall|c: nat| self.has_line(c) <==> before.has_line(c) by {
                        if self.has_line(c) {
                            assert(before.entries[self.line_of(c)].choice@ == c);
                        }
                        if before.has_line(c) {
                            assert(self.entries[before.line_of(c)].choice@ == c);
                        }
                    }
                    assert forall|c: nat| self@.contains_key(c) && c != choice@ implies self@[c]
                        == before@[c] by {
                        let p: int = self.line_of(c);
                        self.line_is_read(p);
                        before.line_is_read(p);
                    }
                    self.line_is_read(i as int);
                    assert(self@ =~= before@.insert(choice@, (count + 1) as nat));
                }
            },
            None => {
                self.entries.push(TallyEntry { choice, count: 1 });
                proof {
                    // The lines of before stay, and the new last line is the
                    // only one about `choice`.
                    let last: int = before.entries.len() as int;
                    assert forall|c: nat| self.has_line(c) <==> before.has_line(c) || c
                        == choice@ by {
                        if self.has_line(c) && c != choice@ {
                            assert(before.entries[self.line_of(c)].choice@ == c);
                        }
                        if before.has_line(c) {
                            assert(self.entries[before.line_of(c)].choice@ == c);
                        }
                        if c == choice@ {
                            assert(self.entries[last].choice@ == c);
                        }
                    }
                    assert forall|c: nat| self@.contains_key(c) && c != choice@ implies self@[c]
                        == before@[c] by {
                        let p: int = self.line_of(c);
                        self.line_is_read(p);
                        before.line_is_read(p);
                    }
                    self.line_is_read(last);
                    assert(self@ =~= before@.insert(choice@, 1nat));
                }
            },
        }
    }
}

} // verus!
