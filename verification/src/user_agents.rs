//! Per-user-agent path rules, as robots.txt files give them.
use vstd::prelude::*;
use crate::text::views;

verus! {

/// The abstract rules: for each user agent (in the order they were first
/// met), its list of paths.
pub type RulesView = Seq<(Seq<char>, Seq<Seq<char>>)>;

/// The position of the entry for user agent `k` in `r`, or `-1`.
pub open spec fn key_position(r: RulesView, k: Seq<char>) -> int
    decreases r.len(),
{
    if r.len() == 0 {
        -1
    } else {
        let j = key_position(r.drop_last(), k);
        if j >= 0 {
            j
        } else if r.last().0 == k {
            r.len() - 1
        } else {
            -1
        }
    }
}

/// The rules with `v` appended to the list of `k` (a new entry when `k` has none).
pub open spec fn rules_add(r: RulesView, k: Seq<char>, v: Seq<char>) -> RulesView {
    let p = key_position(r, k);
    if p >= 0 {
        r.update(p, (r[p].0, r[p].1.push(v)))
    } else {
        r.push((k, seq![v]))
    }
}

/// The rules with the list of `k` replaced by `vs` (a new entry when `k` has none).
pub open spec fn rules_set(r: RulesView, k: Seq<char>, vs: Seq<Seq<char>>) -> RulesView {
    let p = key_position(r, k);
    if p >= 0 {
        r.update(p, (r[p].0, vs))
    } else {
        r.push((k, vs))
    }
}

/// No user agent has two entries.
pub open spec fn keys_distinct(r: RulesView) -> bool {
    forall|i: int, j: int| 0 <= i < j < r.len() ==> r[i].0 != r[j].0
}

pub proof fn lemma_key_position(r: RulesView, k: Seq<char>)
    ensures
        -1 <= key_position(r, k) < r.len(),
        key_position(r, k) >= 0 ==> r[key_position(r, k)].0 == k,
        forall|i: int|
            0 <= i < r.len() && (key_position(r, k) < 0 || i < key_position(r, k)) ==> r[i].0 != k,
    decreases r.len(),
{
    if r.len() > 0 {
        let d = r.drop_last();
        lemma_key_position(d, k);
        assert forall|i: int|
            0 <= i < r.len() && (key_position(r, k) < 0 || i < key_position(r, k)) implies r[i].0 != k by {
            if i < d.len() {
                assert(r[i] == d[i]);
            }
        }
    }
}

/// Adding or setting the list of a user agent keeps the user agents distinct.
pub proof fn lemma_rules_update_distinct(r: RulesView, k: Seq<char>, v: Seq<char>, vs: Seq<Seq<char>>)
    requires
        keys_distinct(r),
    ensures
        keys_distinct(rules_add(r, k, v)),
        keys_distinct(rules_set(r, k, vs)),
{
    lemma_key_position(r, k);
}

/// The paths of user agent `k` in `r`: none when it has no entry.
pub open spec fn paths_of(r: RulesView, k: Seq<char>) -> Seq<Seq<char>> {
    let p = key_position(r, k);
    if p >= 0 {
        r[p].1
    } else {
        Seq::empty()
    }
}

/// The position of a user agent depends only on the user agents, not on
/// their paths.
pub proof fn lemma_key_position_same_keys(r1: RulesView, r2: RulesView, k: Seq<char>)
    requires
        r1.len() == r2.len(),
        forall|i: int| 0 <= i < r1.len() ==> r1[i].0 == r2[i].0,
    ensures
        key_position(r1, k) == key_position(r2, k),
    decreases r1.len(),
{
    if r1.len() > 0 {
        lemma_key_position_same_keys(r1.drop_last(), r2.drop_last(), k);
    }
}

/// Adding a path for `k` appends it to the paths of `k`, keeping the earlier
/// ones, and leaves the paths of every other user agent as they were.
pub proof fn lemma_paths_after_add(r: RulesView, k: Seq<char>, v: Seq<char>, a: Seq<char>)
    ensures
        paths_of(rules_add(r, k, v), a) == if a == k {
            paths_of(r, a).push(v)
        } else {
            paths_of(r, a)
        },
{
    lemma_key_position(r, k);
    lemma_key_position(r, a);
    let p = key_position(r, k);
    let r2 = rules_add(r, k, v);
    if p >= 0 {
        lemma_key_position_same_keys(r2, r, a);
        if a == k {
            assert(key_position(r, a) == p);
        }
    } else {
        assert(r2 == r.push((k, seq![v])));
        lemma_key_position(r2, a);
        assert(r2.drop_last() =~= r);
        if a == k {
            assert(Seq::<Seq<char>>::empty().push(v) =~= seq![v]);
        } else {
            let q = key_position(r, a);
            if q >= 0 {
                assert(r2[q] == r[q]);
            }
        }
    }
}

pub open spec fn entry_view(e: (String, Vec<String>)) -> (Seq<char>, Seq<Seq<char>>) {
    (e.0@, views(e.1@))
}

/// Path rules per user agent (the `uas_allow` and `uas_disallow` of a
/// robots.txt file), kept in the order the user agents were first met.
pub struct UserAgentRules {
    entries: Vec<(String, Vec<String>)>,
}

impl View for UserAgentRules {
    type V = RulesView;

    closed spec fn view(&self) -> RulesView {
        self.entries@.map_values(|e: (String, Vec<String>)| entry_view(e))
    }
}

impl UserAgentRules {
    /// No user agent has two entries.
    pub open spec fn wf(&self) -> bool {
        keys_distinct(self@)
    }

    /// Rules with no entry.
    pub fn new() -> (r: Self)
        ensures
            r@ == Seq::<(Seq<char>, Seq<Seq<char>>)>::empty(),
            r.wf(),
    {
        let r = UserAgentRules { entries: Vec::new() };
        assert(r@ =~= Seq::<(Seq<char>, Seq<Seq<char>>)>::empty());
        r
    }

    /// A copy of these rules.
    pub fn duplicate(&self) -> (r: Self)
        ensures
            r@ == self@,
    {
        let n = self.entries.len();
        let mut entries: Vec<(String, Vec<String>)> = Vec::new();
        let mut i: usize = 0;
        while i < n
            invariant
                i <= n,
                n == self@.len(),
                entries@.len() == i,
                forall|k: int| 0 <= k < i ==> entry_view(#[trigger] entries@[k]) == self@[k],
            decreases n - i,
        {
            let paths = &self.entries[i].1;
            let m = paths.len();
            let mut copy: Vec<String> = Vec::new();
            let mut j: usize = 0;
            while j < m
                invariant
                    j <= m,
                    m == paths@.len(),
                    views(copy@) == views(paths@).take(j as int),
                decreases m - j,
            {
                let ghost before = copy@;
                copy.push(paths[j].clone());
                assert(views(copy@) =~= views(paths@).take(j + 1)) by {
                    assert(views(copy@) =~= views(before).push(paths@[j as int]@));
                }
                j = j + 1;
            }
            assert(views(paths@).take(m as int) =~= views(paths@));
            entries.push((self.entries[i].0.clone(), copy));
            i = i + 1;
        }
        let r = UserAgentRules { entries };
        assert(r@ =~= self@);
        r
    }

    /// The number of user agents.
    pub fn len(&self) -> (n: usize)
        ensures
            n == self@.len(),
    {
        self.entries.len()
    }

    /// The user agent of entry `i`.
    pub fn agent_at(&self, i: usize) -> (a: &String)
        requires
            i < self@.len(),
        ensures
            a@ == self@[i as int].0,
    {
        &self.entries[i].0
    }

    /// The paths of entry `i`.
    pub fn paths_at(&self, i: usize) -> (p: &Vec<String>)
        requires
            i < self@.len(),
        ensures
            views(p@) == self@[i as int].1,
    {
        &self.entries[i].1
    }

    /// The position of the entry for `agent`, when it has one.
    pub fn position(&self, agent: &String) -> (r: Option<usize>)
        ensures
            match r {
                Some(i) => i as int == key_position(self@, agent@),
                None => key_position(self@, agent@) < 0,
            },
    {
        let n = self.entries.len();
        let mut i: usize = 0;
        while i < n
            invariant
                i <= n,
                n == self@.len(),
                forall|j: int| 0 <= j < i ==> self@[j].0 != agent@,
            decreases n - i,
        {
            if self.entries[i].0 == *agent {
                proof {
                    lemma_key_position(self@, agent@);
                    assert(self@[i as int].0 == agent@);
                }
                return Some(i);
            }
            assert(self@[i as int].0 != agent@);
            i = i + 1;
        }
        proof {
            lemma_key_position(self@, agent@);
            if key_position(self@, agent@) >= 0 {
                assert(self@[key_position(self@, agent@)].0 == agent@);
            }
        }
        None
    }

    /// The paths of `agent`, when it has an entry.
    pub fn get(&self, agent: &String) -> (r: Option<&Vec<String>>)
        ensures
            match r {
                Some(p) => key_position(self@, agent@) >= 0 && views(p@) == self@[key_position(self@, agent@)].1,
                None => key_position(self@, agent@) < 0,
            },
    {
        proof {
            lemma_key_position(self@, agent@);
        }
        match self.position(agent) {
            Some(i) => Some(&self.entries[i].1),
            None => None,
        }
    }

    /// Appends `path` to the paths of `agent`, making an entry for it when it
    /// has none.
    pub fn add(&mut self, agent: &String, path: String)
        ensures
            final(self)@ == rules_add(old(self)@, agent@, path@),
            old(self).wf() ==> final(self).wf(),
    {
        proof {
            if self.wf() {
                lemma_rules_update_distinct(self@, agent@, path@, Seq::empty());
            }
            lemma_key_position(self@, agent@);
        }
        let ghost pv = path@;
        match self.position(agent) {
            Some(i) => {
                let (a, mut paths) = self.entries.remove(i);
                let ghost before = views(paths@);
                paths.push(path);
                assert(views(paths@) =~= before.push(pv));
                self.entries.insert(i, (a, paths));
                assert(self@ =~= rules_add(old(self)@, agent@, pv));
            },
            None => {
                let mut paths: Vec<String> = Vec::new();
                paths.push(path);
                assert(views(paths@) =~= seq![pv]);
                self.entries.push((agent.clone(), paths));
                assert(self@ =~= rules_add(old(self)@, agent@, pv));
            },
        }
    }

    /// Sets the paths of `agent` to `paths`, making an entry for it when it
    /// has none (the agent's first entry keeps its place).
    pub fn set(&mut self, agent: String, paths: Vec<String>)
        ensures
            final(self)@ == rules_set(old(self)@, agent@, views(paths@)),
            old(self).wf() ==> final(self).wf(),
    {
        proof {
            if self.wf() {
                lemma_rules_update_distinct(self@, agent@, Seq::empty(), views(paths@));
            }
            lemma_key_position(self@, agent@);
        }
        let ghost av = agent@;
        let ghost pv = views(paths@);
        match self.position(&agent) {
            Some(i) => {
                let (a, _old_paths) = self.entries.remove(i);
                self.entries.insert(i, (a, paths));
                assert(self@ =~= rules_set(old(self)@, av, pv));
            },
            None => {
                self.entries.push((agent, paths));
                assert(self@ =~= rules_set(old(self)@, av, pv));
            },
        }
    }
}

} // verus!
