//! Conversation turns of a session, and the facts remembered for a project.
use vstd::prelude::*;

use crate::config::vesper_dir_name;
use crate::paths::{join_path, join_path_seq};
use crate::text::{dec, push_str, trim, trim_seq, usize_to_string, views};

verus! {

/// One message of a conversation.
#[derive(Debug)]
pub struct Turn {
    pub role: String,
    pub content: String,
}

impl Turn {
    /// A copy of this turn.
    pub fn duplicate(&self) -> (r: Turn)
        ensures
            r == *self,
    {
        Turn { role: self.role.clone(), content: self.content.clone() }
    }
}

/// The turns of the current conversation, oldest first.
#[derive(Debug)]
pub struct SessionMemory {
    turns: Vec<Turn>,
}

impl View for SessionMemory {
    type V = Seq<Turn>;

    closed spec fn view(&self) -> Seq<Turn> {
        self.turns@
    }
}

impl SessionMemory {
    /// An empty conversation.
    pub fn new() -> (r: SessionMemory)
        ensures
            r@ == Seq::<Turn>::empty(),
    {
        SessionMemory { turns: Vec::new() }
    }

    /// Appends a turn.
    pub fn push(&mut self, role: String, content: String)
        ensures
            final(self)@ == old(self)@.push(Turn { role, content }),
    {
        self.turns.push(Turn { role, content });
    }

    /// All turns, oldest first.
    pub fn turns(&self) -> (r: &[Turn])
        ensures
            r@ == self@,
    {
        self.turns.as_slice()
    }

    /// Forgets every turn.
    pub fn clear(&mut self)
        ensures
            final(self)@ == Seq::<Turn>::empty(),
    {
        self.turns.clear();
    }

    /// The last `n` turns (all of them if there are fewer), oldest first.
    pub fn recent(&self, n: usize) -> (r: Vec<&Turn>)
        ensures
            r@.len() == if n < self@.len() {
                n as int
            } else {
                self@.len() as int
            },
            forall|i: int|
                0 <= i < r@.len() ==> *#[trigger] r@[i] == self@[self@.len() - r@.len() + i],
    {
        let len = self.turns.len();
        let start = if len > n {
            len - n
        } else {
            0
        };
        let mut r: Vec<&Turn> = Vec::new();
        let mut i = start;
        while i < len
            invariant
                len == self.turns@.len(),
                start <= i <= len,
                start == if len > n {
                    len - n
                } else {
                    0
                },
                r@.len() == i - start,
                forall|k: int| 0 <= k < r@.len() ==> *#[trigger] r@[k] == self.turns@[start + k],
            decreases len - i,
        {
            r.push(&self.turns[i]);
            i += 1;
        }
        r
    }
}

/// After a push, the most recent turn is the one pushed, and nothing older changed.
pub proof fn law_push_then_recent(before: Seq<Turn>, t: Turn)
    ensures
        before.push(t).last() == t,
        before.push(t).drop_last() == before,
{
    assert(before.push(t).drop_last() =~= before);
}

/// Facts remembered for a project, listed in the agent's prompt.
#[derive(Debug)]
pub struct ProjectMemory {
    pub facts: Vec<String>,
}

/// The memory file's name.
pub open spec fn memory_file_name() -> Seq<char> {
    seq!['m', 'e', 'm', 'o', 'r', 'y', '.', 'j', 's', 'o', 'n']
}

/// Facts as the memory keeps them: each trimmed and non-empty, none twice.
pub open spec fn facts_wf(f: Seq<Seq<char>>) -> bool {
    &&& forall|i: int| 0 <= i < f.len() ==> #[trigger] f[i].len() > 0 && trim_seq(f[i]) == f[i]
    &&& forall|i: int, j: int| 0 <= i < j < f.len() ==> f[i] != f[j]
}

/// The facts after `add(fact)`.
pub open spec fn facts_added(f: Seq<Seq<char>>, fact: Seq<char>) -> Seq<Seq<char>> {
    let t = trim_seq(fact);
    if t.len() > 0 && !f.contains(t) {
        f.push(t)
    } else {
        f
    }
}

/// The prompt lines of the first `n` facts: `  <i>. <fact>` each.
pub open spec fn fact_entries(f: Seq<Seq<char>>, n: nat) -> Seq<char>
    decreases n,
{
    if n == 0 {
        seq![]
    } else {
        fact_entries(f, (n - 1) as nat) + "  "@ + dec((n - 1) as nat) + ". "@ + f[n - 1] + "\n"@
    }
}

/// The prompt block for the facts: empty when there are none.
pub open spec fn memory_block(f: Seq<Seq<char>>) -> Seq<char> {
    if f.len() == 0 {
        seq![]
    } else {
        "Remembered project facts:\n"@ + fact_entries(f, f.len())
    }
}

/// Why `forget` did nothing.
#[derive(Debug)]
pub enum MemoryError {
    /// No fact has this index.
    NoFact(usize),
}

impl ProjectMemory {
    /// No facts.
    pub fn new() -> (r: ProjectMemory)
        ensures
            r.facts@.len() == 0,
    {
        ProjectMemory { facts: Vec::new() }
    }

    /// `<workspace>/.vesper/memory.json`.
    pub fn path(workspace: &str) -> (r: String)
        ensures
            r@ == join_path_seq(join_path_seq(workspace@, vesper_dir_name()), memory_file_name()),
    {
        proof {
            reveal_strlit(".vesper");
            reveal_strlit("memory.json");
        }
        let d = join_path(workspace, ".vesper");
        join_path(d.as_str(), "memory.json")
    }

    /// Remembers a fact, trimmed; an empty or already known fact is ignored.
    pub fn add(&mut self, fact: &str)
        ensures
            views(final(self).facts@) == facts_added(views(old(self).facts@), fact@),
    {
        let t = trim(fact);
        if t.as_str().is_empty() {
            return;
        }
        let mut i: usize = 0;
        while i < self.facts.len()
            invariant
                i <= self.facts@.len(),
                self.facts@ == old(self).facts@,
                t@ == trim_seq(fact@),
                t@.len() > 0,
                forall|k: int| 0 <= k < i ==> self.facts@[k]@ != t@,
            decreases self.facts@.len() - i,
        {
            if self.facts[i].eq(&t) {
                proof {
                    assert(views(self.facts@)[i as int] == t@);
                    assert(views(self.facts@).contains(t@));
                }
                return;
            }
            i += 1;
        }
        proof {
            assert forall|k: int| 0 <= k < views(self.facts@).len() implies views(self.facts@)[k]
                != t@ by {
                assert(views(self.facts@)[k] == self.facts@[k]@);
            }
        }
        let ghost before = self.facts@;
        self.facts.push(t);
        proof {
            assert(views(self.facts@) =~= views(before).push(t@));
        }
    }

    /// Forgets the fact at `index`, returning it.
    pub fn forget(&mut self, index: usize) -> (r: Result<String, MemoryError>)
        ensures
            index < old(self).facts@.len() ==> (r matches Ok(f) && f == old(self).facts@[index as int]
                && final(self).facts@ == old(self).facts@.remove(index as int)),
            index >= old(self).facts@.len() ==> (r matches Err(MemoryError::NoFact(i)) && i == index
                && final(self).facts@ == old(self).facts@),
    {
        if index >= self.facts.len() {
            return Err(MemoryError::NoFact(index));
        }
        Ok(self.facts.remove(index))
    }

    /// The facts as a prompt block: a header, then `  <i>. <fact>` per line.
    pub fn prompt_block(&self) -> (r: String)
        ensures
            r@ == memory_block(views(self.facts@)),
    {
        let mut out = String::new();
        if self.facts.len() == 0 {
            return out;
        }
        push_str(&mut out, "Remembered project facts:\n");
        let ghost head = out@;
        let mut i: usize = 0;
        while i < self.facts.len()
            invariant
                i <= self.facts@.len(),
                head == "Remembered project facts:\n"@,
                out@ == head + fact_entries(views(self.facts@), i as nat),
            decreases self.facts@.len() - i,
        {
            push_str(&mut out, "  ");
            let n = usize_to_string(i);
            push_str(&mut out, n.as_str());
            push_str(&mut out, ". ");
            push_str(&mut out, self.facts[i].as_str());
            push_str(&mut out, "\n");
            proof {
                assert(views(self.facts@)[i as int] == self.facts@[i as int]@);
                assert(out@ =~= head + fact_entries(views(self.facts@), (i + 1) as nat));
            }
            i += 1;
        }
        out
    }
}

/// Adding keeps the facts well-formed, and adding a fact already known changes nothing.
pub proof fn law_add_keeps_facts_wf(f: Seq<Seq<char>>, fact: Seq<char>)
    requires
        facts_wf(f),
    ensures
        facts_wf(facts_added(f, fact)),
        facts_added(facts_added(f, fact), fact) == facts_added(f, fact),
{
    let t = trim_seq(fact);
    crate::text::lemma_trim_idempotent(fact);
    let g = facts_added(f, fact);
    if t.len() > 0 && !f.contains(t) {
        assert forall|i: int, j: int| 0 <= i < j < g.len() implies g[i] != g[j] by {
            if j == f.len() {
                assert(f.contains(f[i]));
            }
        }
        assert(g.contains(t)) by {
            assert(g[f.len() as int] == t);
        }
    }
}

/// Forgetting keeps the facts well-formed.
pub proof fn law_forget_keeps_facts_wf(f: Seq<Seq<char>>, index: int)
    requires
        facts_wf(f),
        0 <= index < f.len(),
    ensures
        facts_wf(f.remove(index)),
{
    let g = f.remove(index);
    assert forall|i: int| 0 <= i < g.len() implies #[trigger] g[i].len() > 0 && trim_seq(g[i])
        == g[i] by {
        if i < index {
            assert(g[i] == f[i]);
        } else {
            assert(g[i] == f[i + 1]);
        }
    }
    assert forall|i: int, j: int| 0 <= i < j < g.len() implies g[i] != g[j] by {
        let fi = if i < index {
            i
        } else {
            i + 1
        };
        let fj = if j < index {
            j
        } else {
            j + 1
        };
        assert(g[i] == f[fi]);
        assert(g[j] == f[fj]);
    }
}

} // verus!
