//! A score table: for each team, by its name, one score.

use vstd::prelude::*;
use vstd::string::*;

verus! {

/// No two entries carry the same name.
spec fn names_differ(entries: Seq<(String, i32)>) -> bool {
    forall|i: int, j: int|
        0 <= i < j < entries.len() ==> (#[trigger] entries[i]).0@ != (#[trigger] entries[j]).0@
}

/// Some entry carries the name.
spec fn has_team(entries: Seq<(String, i32)>, team: Seq<char>) -> bool {
    exists|i: int| 0 <= i < entries.len() && (#[trigger] entries[i]).0@ == team
}

/// The place of an entry that carries the name.
spec fn place_of(entries: Seq<(String, i32)>, team: Seq<char>) -> int {
    choose|i: int| 0 <= i < entries.len() && (#[trigger] entries[i]).0@ == team
}

/// The entries read as a map from names to scores.
spec fn table(entries: Seq<(String, i32)>) -> Map<Seq<char>, i32> {
    Map::new(
        |team: Seq<char>| has_team(entries, team),
        |team: Seq<char>| entries[place_of(entries, team)].1,
    )
}

/// Among entries with different names, the entry at a place is what the map
/// holds under that entry's name.
proof fn lemma_entry_in_table(entries: Seq<(String, i32)>, i: int)
    requires
        names_differ(entries),
        0 <= i < entries.len(),
    ensures
        table(entries).contains_key(entries[i].0@),
        table(entries)[entries[i].0@] == entries[i].1,
{
    let team = entries[i].0@;
    assert(has_team(entries, team));
    let at = place_of(entries, team);
    assert(at == i);
}

/// The team's score in the table, or `otherwise` where the table does not hold
/// the team.
pub open spec fn score_or(scores: Map<Seq<char>, i32>, team: Seq<char>, otherwise: i32) -> i32 {
    if scores.contains_key(team) {
        scores[team]
    } else {
        otherwise
    }
}

/// The pairs list the table: every pair stands in the table, no team comes
/// twice, and every team of the table comes.
pub open spec fn lists(pairs: Seq<(String, i32)>, scores: Map<Seq<char>, i32>) -> bool {
    &&& forall|i: int|
        0 <= i < pairs.len() ==> scores.contains_key((#[trigger] pairs[i]).0@)
            && scores[pairs[i].0@] == pairs[i].1
    &&& forall|i: int, j: int|
        0 <= i < j < pairs.len() ==> (#[trigger] pairs[i]).0@ != (#[trigger] pairs[j]).0@
    &&& forall|team: Seq<char>| #[trigger]
        scores.contains_key(team) ==> exists|i: int|
            0 <= i < pairs.len() && (#[trigger] pairs[i]).0@ == team
}

/// A table of scores by team name. A name stands in it at most once.
pub struct Scores {
    entries: Vec<(String, i32)>,
}

impl View for Scores {
    type V = Map<Seq<char>, i32>;

    closed spec fn view(&self) -> Map<Seq<char>, i32> {
        table(self.entries@)
    }
}

impl Scores {
    /// The table is in order: no name stands in it twice.
    pub closed spec fn wf(&self) -> bool {
        names_differ(self.entries@)
    }

    /// A table without any team.
    pub fn new() -> (scores: Scores)
        ensures
            scores.wf(),
            scores@ == Map::<Seq<char>, i32>::empty(),
    {
        let scores = Scores { entries: Vec::new() };
        assert(scores@ =~= Map::<Seq<char>, i32>::empty());
        scores
    }

    /// The place of the team's entry, if it has one.
    fn position(&self, team: &String) -> (place: Option<usize>)
        ensures
            match place {
                Some(i) => i < self.entries@.len() && self.entries@[i as int].0@ == team@,
                None => !has_team(self.entries@, team@),
            },
    {
        let mut i: usize = 0;
        while i < self.entries.len()
            invariant
                i <= self.entries@.len(),
                forall|j: int| 0 <= j < i ==> (#[trigger] self.entries@[j]).0@ != team@,
            decreases self.entries@.len() - i,
        {
            if self.entries[i].0 == *team {
                return Some(i);
            }
            i += 1;
        }
        None
    }

    /// The team's score, if the table holds the team.
    pub fn get(&self, team: &String) -> (score: Option<&i32>)
        requires
            self.wf(),
        ensures
            match score {
                Some(value) => self@.contains_key(team@) && *value == self@[team@],
                None => !self@.contains_key(team@),
            },
    {
        match self.position(team) {
            Some(i) => {
                proof {
                    lemma_entry_in_table(self.entries@, i as int);
                }
                Some(&self.entries[i].1)
            },
            None => None,
        }
    }

    /// Sets the team's score, whether or not it had one, and hands back the
    /// score that it had.
    pub fn insert(&mut self, team: String, score: i32) -> (before: Option<i32>)
        requires
            old(self).wf(),
        ensures
            final(self).wf(),
            final(self)@ == old(self)@.insert(team@, score),
            before == (if old(self)@.contains_key(team@) {
                Some(old(self)@[team@])
            } else {
                None
            }),
    {
        match self.position(&team) {
            Some(i) => {
                let before = self.entries[i].1;
                proof {
                    lemma_entry_in_table(self.entries@, i as int);
                }
                self.entries[i].1 = score;
                proof {
                    lemma_updated(old(self).entries@, self.entries@, i as int);
                }
                Some(before)
            },
            None => {
                self.entries.push((team, score));
                proof {
                    lemma_pushed(old(self).entries@, self.entries@);
                }
                None
            },
        }
    }

    /// The place in the table where the team's score stands. A team that the
    /// table does not hold yet is first entered with `score`; the score of a
    /// team that it holds stays as it is. What the caller writes to the place
    /// becomes the team's score.
    pub fn or_insert(&mut self, team: String, score: i32) -> (slot: &mut i32)
        requires
            old(self).wf(),
        ensures
            *slot == score_or(old(self)@, team@, score),
            final(self).wf(),
            final(self)@ == old(self)@.insert(team@, *final(slot)),
    {
        let ghost name = team@;
        let place = match self.position(&team) {
            Some(i) => {
                proof {
                    lemma_entry_in_table(self.entries@, i as int);
                }
                i
            },
            None => {
                self.entries.push((team, score));
                proof {
                    lemma_pushed(old(self).entries@, self.entries@);
                }
                self.entries.len() - 1
            },
        };
        proof {
            let entered = self.entries@;
            assert forall|value: i32| #![trigger table(old(self).entries@).insert(name, value)]
                {
                    let after = entered.update(place as int, (entered[place as int].0, value));
                    &&& names_differ(after)
                    &&& table(after) == table(old(self).entries@).insert(name, value)
                } by {
                let after = entered.update(place as int, (entered[place as int].0, value));
                lemma_updated(entered, after, place as int);
                assert(table(entered).insert(name, value) =~= table(old(self).entries@).insert(
                    name,
                    value,
                ));
            }
        }
        &mut self.entries[place].1
    }

    /// Adds `amount` to the team's score. A team that the table does not hold
    /// yet is entered with `start`, and `amount` is added to that.
    pub fn add_score(&mut self, team: String, start: i32, amount: i32)
        requires
            old(self).wf(),
            i32::MIN <= score_or(old(self)@, team@, start) + amount <= i32::MAX,
        ensures
            final(self).wf(),
            final(self)@ == old(self)@.insert(
                team@,
                (score_or(old(self)@, team@, start) + amount) as i32,
            ),
    {
        let val = self.or_insert(team, start);
        *val += amount;
    }

    /// Every team of the table with its score, each team once, in no
    /// particular order.
    pub fn entries(&self) -> (pairs: &Vec<(String, i32)>)
        requires
            self.wf(),
        ensures
            lists(pairs@, self@),
    {
        proof {
            assert forall|i: int| 0 <= i < self.entries@.len() implies self@.contains_key(
                (#[trigger] self.entries@[i]).0@,
            ) && self@[self.entries@[i].0@] == self.entries@[i].1 by {
                lemma_entry_in_table(self.entries@, i);
            }
        }
        &self.entries
    }
}

/// Changing the score of one entry changes the map at that entry's name, and
/// nowhere else.
proof fn lemma_updated(before: Seq<(String, i32)>, after: Seq<(String, i32)>, i: int)
    requires
        names_differ(before),
        0 <= i < before.len(),
        after.len() == before.len(),
        after[i].0@ == before[i].0@,
        forall|j: int| 0 <= j < before.len() && j != i ==> after[j] == before[j],
    ensures
        names_differ(after),
        table(after) == table(before).insert(before[i].0@, after[i].1),
{
    assert forall|a: int, b: int| 0 <= a < b < after.len() implies (#[trigger] after[a]).0@ != (
    #[trigger] after[b]).0@ by {
        assert(after[a].0@ == before[a].0@);
        assert(after[b].0@ == before[b].0@);
    }
    let want = table(before).insert(before[i].0@, after[i].1);
    assert forall|team: Seq<char>| table(after).contains_key(team) <==> want.contains_key(
        team,
    ) by {
        if has_team(after, team) {
            let j = place_of(after, team);
            assert(before[j].0@ == team);
        }
        if has_team(before, team) {
            let j = place_of(before, team);
            assert(after[j].0@ == team);
        }
        assert(after[i].0@ == before[i].0@);
    }
    assert forall|team: Seq<char>| table(after).contains_key(team) implies table(after)[team]
        == want[team] by {
        let j = place_of(after, team);
        lemma_entry_in_table(after, j);
        if j != i {
            lemma_entry_in_table(before, j);
        }
    }
    assert(table(after) =~= want);
}

/// A new entry under a name that no entry carries adds that name to the map,
/// and changes nothing else.
proof fn lemma_pushed(before: Seq<(String, i32)>, after: Seq<(String, i32)>)
    requires
        names_differ(before),
        after.len() == before.len() + 1,
        forall|j: int| 0 <= j < before.len() ==> after[j] == before[j],
        !has_team(before, after.last().0@),
    ensures
        names_differ(after),
        table(after) == table(before).insert(after.last().0@, after.last().1),
{
    let n = before.len() as int;
    assert forall|a: int, b: int| 0 <= a < b < after.len() implies (#[trigger] after[a]).0@ != (
    #[trigger] after[b]).0@ by {
        assert(after[a] == before[a]);
        if b < n {
            assert(after[b] == before[b]);
        }
    }
    let want = table(before).insert(after[n].0@, after[n].1);
    assert forall|team: Seq<char>| table(after).contains_key(team) <==> want.contains_key(
        team,
    ) by {
        if has_team(after, team) {
            let j = place_of(after, team);
            if j < n {
                assert(before[j].0@ == team);
            }
        }
        if has_team(before, team) {
            let j = place_of(before, team);
            assert(after[j].0@ == team);
        }
        assert(after[n].0@ == after.last().0@);
    }
    assert forall|team: Seq<char>| table(after).contains_key(team) implies table(after)[team]
        == want[team] by {
        let j = place_of(after, team);
        lemma_entry_in_table(after, j);
        if j < n {
            lemma_entry_in_table(before, j);
        }
    }
    assert(table(after) =~= want);
}

} // verus!
