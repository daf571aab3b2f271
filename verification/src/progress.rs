//! The player's puzzle progress: which puzzles are solved, and where the
//! last session stopped.
use vstd::prelude::*;

use crate::text::chars_of;

verus! {

/// Solved puzzle ids (each once), and the last theme and offset played.
pub struct Progress {
    pub completed: Vec<String>,
    pub last_theme: Option<String>,
    pub last_offset: usize,
}

pub open spec fn ids_view(v: Seq<String>) -> Seq<Seq<char>> {
    v.map_values(|s: String| s@)
}

impl Progress {
    /// The ids of the solved puzzles.
    pub open spec fn solved(&self) -> Set<Seq<char>> {
        ids_view(self.completed@).to_set()
    }

    /// No id is recorded twice.
    pub open spec fn wf(&self) -> bool {
        ids_view(self.completed@).no_duplicates()
    }

    /// Nothing solved, no last position.
    pub fn new() -> (p: Self)
        ensures
            p.wf(),
            p.solved() == Set::<Seq<char>>::empty(),
            p.last_theme.is_none(),
            p.last_offset == 0,
    {
        let p = Progress { completed: Vec::new(), last_theme: None, last_offset: 0 };
        assert(ids_view(p.completed@) =~= seq![]);
        assert(p.solved() =~= Set::empty());
        p
    }

    /// Whether puzzle `puzzle_id` is solved.
    pub fn is_completed(&self, puzzle_id: &str) -> (r: bool)
        ensures
            r == self.solved().contains(puzzle_id@),
    {
        let mut i: usize = 0;
        while i < self.completed.len()
            invariant
                i <= self.completed.len(),
                forall|k: int| 0 <= k < i ==> ids_view(self.completed@)[k] != puzzle_id@,
            decreases self.completed.len() - i,
        {
            if same_chars(self.completed[i].as_str(), puzzle_id) {
                assert(ids_view(self.completed@)[i as int] == puzzle_id@);
                return true;
            }
            i += 1;
        }
        false
    }

    /// Records puzzle `puzzle_id` as solved.
    pub fn mark_completed(&mut self, puzzle_id: &str)
        requires
            old(self).wf(),
        ensures
            final(self).wf(),
            final(self).solved() == old(self).solved().insert(puzzle_id@),
            final(self).last_theme == old(self).last_theme,
            final(self).last_offset == old(self).last_offset,
    {
        if self.is_completed(puzzle_id) {
            assert(self.solved().insert(puzzle_id@) =~= self.solved());
            return ;
        }
        let ghost before = ids_view(self.completed@);
        self.completed.push(puzzle_id.to_owned());
        assert(ids_view(self.completed@) =~= before.push(puzzle_id@));
        proof {
            before.lemma_push_to_set_commute(puzzle_id@);
            assert(!before.contains(puzzle_id@));
        }
    }

    /// How many puzzles are solved.
    pub fn completed_count(&self) -> (n: usize)
        requires
            self.wf(),
        ensures
            n == self.solved().len(),
    {
        proof {
            ids_view(self.completed@).unique_seq_to_set();
        }
        self.completed.len()
    }

    /// Records where the session stopped.
    pub fn update_last_position(&mut self, theme: &str, offset: usize)
        ensures
            final(self).last_theme matches Some(t) && t@ == theme@,
            final(self).last_offset == offset,
            final(self).completed@ == old(self).completed@,
    {
        self.last_theme = Some(theme.to_owned());
        self.last_offset = offset;
    }
}

/// Whether two strings hold the same characters.
fn same_chars(a: &str, b: &str) -> (r: bool)
    ensures
        r == (a@ == b@),
{
    let x = chars_of(a);
    let y = chars_of(b);
    if x.len() != y.len() {
        return false;
    }
    let mut i: usize = 0;
    while i < x.len()
        invariant
            i <= x.len() == y.len(),
            x@ == a@,
            y@ == b@,
            forall|k: int| 0 <= k < i ==> x@[k] == y@[k],
        decreases x.len() - i,
    {
        if x[i] != y[i] {
            assert(a@[i as int] != b@[i as int]);
            return false;
        }
        i += 1;
    }
    assert(x@ =~= y@);
    true
}

/// Marking a puzzle solved makes `is_completed` true for it, marking it again
/// changes nothing, and `completed_count` grows by one exactly when the
/// puzzle was not solved yet.
pub proof fn law_marking_counts_once(solved: Set<Seq<char>>, id: Seq<char>)
    requires
        solved.finite(),
    ensures
        solved.insert(id).contains(id),
        solved.insert(id).insert(id) == solved.insert(id),
        solved.insert(id).len() == solved.len() + if solved.contains(id) {
            0int
        } else {
            1int
        },
{
    assert(solved.insert(id).insert(id) =~= solved.insert(id));
    if solved.contains(id) {
        assert(solved.insert(id) =~= solved);
    }
}

} // verus!
