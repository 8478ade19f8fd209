//! The persisted aggregate: the known activities, the current one, and the table
//! from composite workspace names to raw names. Every mutator here is pure; the
//! caller writes the state through to disk after each one.
use vstd::prelude::*;
use crate::codec::{parse_raw, parse_raw_spec, workname_spec};

verus! {

/// What can go wrong around the state and the workspace-control service.
#[derive(Debug, PartialEq, Eq, Structural, Clone, Copy)]
pub enum Error {
    /// The persisted file holds no well-formed state.
    StateCorrupt,
    /// The persisted file could not be written.
    StateWrite,
    /// A workspace name is neither in the table nor follows the convention.
    NameDecode,
    /// The workspace-control service failed or answered unexpectedly.
    ExternalService,
}

/// The mathematical model of a [`State`].
pub struct StateModel {
    pub activities: Seq<Seq<char>>,
    pub current: Seq<char>,
    pub workspaces: Map<Seq<char>, Seq<char>>,
}

/// `acts` with `a` added at the end, unless it is already there.
pub open spec fn with_activity(acts: Seq<Seq<char>>, a: Seq<char>) -> Seq<Seq<char>> {
    if acts.contains(a) {
        acts
    } else {
        acts.push(a)
    }
}

impl StateModel {
    /// Every state that a run of the program can hold.
    pub open spec fn wf(self) -> bool {
        self.activities.no_duplicates() && self.activities.contains(self.current)
    }

    pub open spec fn add_workspace(self, composite: Seq<char>, raw: Seq<char>) -> StateModel {
        StateModel { workspaces: self.workspaces.insert(composite, raw), ..self }
    }

    pub open spec fn set_activity(self, a: Seq<char>) -> StateModel {
        if a == self.current {
            self
        } else {
            StateModel { activities: with_activity(self.activities, a), current: a, ..self }
        }
    }

    /// The raw name of a live workspace name: by the table first, by the brackets
    /// otherwise.
    pub open spec fn decode(self, name: Seq<char>) -> Option<Seq<char>> {
        if self.workspaces.contains_key(name) {
            Some(self.workspaces[name])
        } else {
            parse_raw_spec(name)
        }
    }

    /// The state after a successful switch to raw workspace `name` in the current
    /// activity.
    pub open spec fn switch_workspace(self, name: Seq<char>) -> StateModel {
        self.add_workspace(workname_spec(self.current, name), name)
    }

    /// The state after a successful switch to `activity`, keeping raw workspace `raw`.
    pub open spec fn switch_activity(self, activity: Seq<char>, raw: Seq<char>) -> StateModel {
        self.add_workspace(workname_spec(activity, raw), raw).set_activity(activity)
    }

    /// The state after `set_activity` with each of `names` in turn.
    pub open spec fn set_activities(self, names: Seq<Seq<char>>) -> StateModel
        decreases names.len(),
    {
        if names.len() == 0 {
            self
        } else {
            self.set_activities(names.drop_last()).set_activity(names.last())
        }
    }
}

/// The map that a table of (key, value) pairs stands for.
pub open spec fn pairs_map(keys: Seq<Seq<char>>, vals: Seq<Seq<char>>) -> Map<Seq<char>, Seq<char>> {
    Map::new(
        |k: Seq<char>| keys.contains(k),
        |k: Seq<char>| vals[choose|i: int| 0 <= i < keys.len() && keys[i] == k],
    )
}

proof fn lemma_pairs_lookup(keys: Seq<Seq<char>>, vals: Seq<Seq<char>>, i: int)
    requires
        keys.no_duplicates(),
        0 <= i < keys.len(),
    ensures
        pairs_map(keys, vals).contains_key(keys[i]),
        pairs_map(keys, vals)[keys[i]] == vals[i],
{
    assert(keys.contains(keys[i]));
    let j = choose|j: int| 0 <= j < keys.len() && keys[j] == keys[i];
    assert(j == i);
}

proof fn lemma_pairs_update(keys: Seq<Seq<char>>, vals: Seq<Seq<char>>, i: int, v: Seq<char>)
    requires
        keys.no_duplicates(),
        keys.len() == vals.len(),
        0 <= i < keys.len(),
    ensures
        pairs_map(keys, vals.update(i, v)) == pairs_map(keys, vals).insert(keys[i], v),
{
    let m1 = pairs_map(keys, vals.update(i, v));
    let m2 = pairs_map(keys, vals).insert(keys[i], v);
    assert forall|k: Seq<char>| m1.contains_key(k) implies m1[k] == m2[k] by {
        let j = choose|j: int| 0 <= j < keys.len() && keys[j] == k;
        lemma_pairs_lookup(keys, vals.update(i, v), j);
        lemma_pairs_lookup(keys, vals, j);
    }
    assert(m1 =~= m2);
}

proof fn lemma_pairs_push(keys: Seq<Seq<char>>, vals: Seq<Seq<char>>, k: Seq<char>, v: Seq<char>)
    requires
        keys.no_duplicates(),
        keys.len() == vals.len(),
        !keys.contains(k),
    ensures
        keys.push(k).no_duplicates(),
        pairs_map(keys.push(k), vals.push(v)) == pairs_map(keys, vals).insert(k, v),
{
    let ks = keys.push(k);
    let vs = vals.push(v);
    assert forall|a: int, b: int| 0 <= a < b < ks.len() implies ks[a] != ks[b] by {
        if b == keys.len() {
            assert(keys.contains(ks[a]));
        }
    }
    let m1 = pairs_map(ks, vs);
    let m2 = pairs_map(keys, vals).insert(k, v);
    assert forall|x: Seq<char>| m1.contains_key(x) implies m1[x] == m2[x] by {
        let j = choose|j: int| 0 <= j < ks.len() && ks[j] == x;
        lemma_pairs_lookup(ks, vs, j);
        if j < keys.len() {
            lemma_pairs_lookup(keys, vals, j);
        }
    }
    assert forall|x: Seq<char>| m2.contains_key(x) implies m1.contains_key(x) by {
        if x != k {
            let j = choose|j: int| 0 <= j < keys.len() && keys[j] == x;
            assert(ks[j] == x);
        } else {
            assert(ks[keys.len() as int] == k);
        }
    }
    assert(m1 =~= m2);
}

/// The persisted aggregate. `workspaces` holds (composite name, raw name) pairs
/// with distinct composite names.
pub struct State {
    pub activities: Vec<String>,
    pub current_activity: String,
    pub workspaces: Vec<(String, String)>,
}

/// A decided switch: the composite name to ask the service for, and what to record
/// once it has switched.
pub struct Switch {
    pub composite: String,
    pub raw: String,
    pub activity: Option<String>,
}

impl State {
    pub open spec fn activities_view(&self) -> Seq<Seq<char>> {
        self.activities@.map_values(|s: String| s@)
    }

    pub open spec fn ws_keys(&self) -> Seq<Seq<char>> {
        self.workspaces@.map_values(|p: (String, String)| p.0@)
    }

    pub open spec fn ws_vals(&self) -> Seq<Seq<char>> {
        self.workspaces@.map_values(|p: (String, String)| p.1@)
    }

    pub open spec fn view(&self) -> StateModel {
        StateModel {
            activities: self.activities_view(),
            current: self.current_activity@,
            workspaces: pairs_map(self.ws_keys(), self.ws_vals()),
        }
    }

    /// The model is well formed and the table's composite names are distinct.
    pub open spec fn wf(&self) -> bool {
        self.view().wf() && self.ws_keys().no_duplicates()
    }

    /// The state of a first run: one activity, `default`, current, and an empty
    /// table.
    pub fn new_default() -> (r: State)
        ensures
            r.wf(),
            r.view().activities == seq![seq!['d', 'e', 'f', 'a', 'u', 'l', 't']],
            r.view().current == seq!['d', 'e', 'f', 'a', 'u', 'l', 't'],
            r.view().workspaces == Map::<Seq<char>, Seq<char>>::empty(),
    {
        let d = String::from_str("default");
        proof {
            reveal_strlit("default");
            assert(d@ =~= seq!['d', 'e', 'f', 'a', 'u', 'l', 't']);
        }
        let mut activities: Vec<String> = Vec::new();
        activities.push(d.clone());
        let r = State { activities, current_activity: d, workspaces: Vec::new() };
        assert(r.view().activities =~= seq![seq!['d', 'e', 'f', 'a', 'u', 'l', 't']]);
        assert(r.view().activities[0] == r.view().current);
        assert(r.view().workspaces =~= Map::<Seq<char>, Seq<char>>::empty());
        r
    }

    /// Whether the state is well formed: distinct activities, the current one
    /// among them, distinct composite names. A state read from disk is checked
    /// with this before use.
    pub fn is_well_formed(&self) -> (r: bool)
        ensures
            r == self.wf(),
    {
        let mut i: usize = 0;
        while i < self.activities.len()
            invariant
                i <= self.activities@.len(),
                forall|a: int, b: int|
                    0 <= a < b < self.activities@.len() && a < i ==> self.activities_view()[a]
                        != self.activities_view()[b],
            decreases self.activities@.len() - i,
        {
            let mut j: usize = i + 1;
            while j < self.activities.len()
                invariant
                    i < j <= self.activities@.len(),
                    forall|a: int, b: int|
                        0 <= a < b < self.activities@.len() && a < i ==> self.activities_view()[a]
                            != self.activities_view()[b],
                    forall|b: int| i < b < j ==> self.activities_view()[i as int] != self.activities_view()[b],
                decreases self.activities@.len() - j,
            {
                if self.activities[i] == self.activities[j] {
                    assert(self.activities_view()[i as int] == self.activities_view()[j as int]);
                    return false;
                }
                j += 1;
            }
            i += 1;
        }
        if self.activity_index(&self.current_activity).is_none() {
            return false;
        }
        let mut i: usize = 0;
        while i < self.workspaces.len()
            invariant
                self.view().wf(),
                i <= self.workspaces@.len(),
                forall|a: int, b: int|
                    0 <= a < b < self.workspaces@.len() && a < i ==> self.ws_keys()[a]
                        != self.ws_keys()[b],
            decreases self.workspaces@.len() - i,
        {
            let mut j: usize = i + 1;
            while j < self.workspaces.len()
                invariant
                    i < j <= self.workspaces@.len(),
                    forall|a: int, b: int|
                        0 <= a < b < self.workspaces@.len() && a < i ==> self.ws_keys()[a]
                            != self.ws_keys()[b],
                    forall|b: int| i < b < j ==> self.ws_keys()[i as int] != self.ws_keys()[b],
                decreases self.workspaces@.len() - j,
            {
                if self.workspaces[i].0 == self.workspaces[j].0 {
                    assert(self.ws_keys()[i as int] == self.ws_keys()[j as int]);
                    return false;
                }
                j += 1;
            }
            i += 1;
        }
        true
    }

    /// Where `name` stands among the known activities.
    fn activity_index(&self, name: &String) -> (r: Option<usize>)
        ensures
            match r {
                Some(i) => i < self.activities@.len() && self.activities_view()[i as int] == name@,
                None => !self.activities_view().contains(name@),
            },
    {
        let mut i: usize = 0;
        while i < self.activities.len()
            invariant
                i <= self.activities@.len(),
                forall|k: int| 0 <= k < i ==> self.activities_view()[k] != name@,
            decreases self.activities@.len() - i,
        {
            if self.activities[i] == *name {
                return Some(i);
            }
            i += 1;
        }
        None
    }

    /// Where `name` stands among the table's composite names.
    fn workspace_index(&self, name: &String) -> (r: Option<usize>)
        ensures
            match r {
                Some(i) => i < self.workspaces@.len() && self.ws_keys()[i as int] == name@,
                None => !self.ws_keys().contains(name@),
            },
    {
        let mut i: usize = 0;
        while i < self.workspaces.len()
            invariant
                i <= self.workspaces@.len(),
                forall|k: int| 0 <= k < i ==> self.ws_keys()[k] != name@,
            decreases self.workspaces@.len() - i,
        {
            if self.workspaces[i].0 == *name {
                return Some(i);
            }
            i += 1;
        }
        None
    }

    /// Adds activity `new` at the end of the known activities, unless it is there.
    pub fn add_activity(&mut self, new: String)
        requires
            old(self).wf(),
        ensures
            final(self).wf(),
            final(self).view() == (StateModel {
                activities: with_activity(old(self).view().activities, new@),
                ..old(self).view()
            }),
    {
        if self.activity_index(&new).is_none() {
            proof {
                let acts = self.activities_view();
                assert forall|a: int, b: int| 0 <= a < b < acts.len() + 1
                    implies acts.push(new@)[a] != acts.push(new@)[b] by {
                    if b == acts.len() {
                        assert(acts.contains(acts[a]));
                    }
                }
                assert(acts.push(new@).contains(self.current_activity@)) by {
                    let j = choose|j: int| 0 <= j < acts.len() && acts[j] == self.current_activity@;
                    assert(acts.push(new@)[j] == acts[j]);
                }
            }
            self.activities.push(new);
            assert(self.activities_view() =~= old(self).activities_view().push(new@));
        }
        assert(self.view() =~= (StateModel {
            activities: with_activity(old(self).view().activities, new@),
            ..old(self).view()
        }));
    }

    /// Makes `new` the current activity, adding it to the known ones where it is
    /// new. Returns whether anything changed (and so has to be written through).
    pub fn set_activity(&mut self, new: String) -> (changed: bool)
        requires
            old(self).wf(),
        ensures
            final(self).wf(),
            final(self).view() == old(self).view().set_activity(new@),
            final(self).view().activities.contains(final(self).view().current),
            changed == (new@ != old(self).view().current),
    {
        if self.current_activity == new {
            return false;
        }
        self.add_activity(new.clone());
        self.current_activity = new;
        let ghost m = self.view();
        assert(m.activities.contains(new@)) by {
            let acts = old(self).view().activities;
            if !acts.contains(new@) {
                assert(acts.push(new@)[acts.len() as int] == new@);
            }
        }
        assert(self.view() =~= old(self).view().set_activity(new@));
        true
    }

    /// Records that composite name `hact_name` stands for raw name `og_name`.
    pub fn add_workspace(&mut self, hact_name: String, og_name: String)
        requires
            old(self).wf(),
        ensures
            final(self).wf(),
            final(self).view() == old(self).view().add_workspace(hact_name@, og_name@),
    {
        let ghost keys = self.ws_keys();
        let ghost vals = self.ws_vals();
        match self.workspace_index(&hact_name) {
            Some(i) => {
                proof {
                    lemma_pairs_update(keys, vals, i as int, og_name@);
                }
                self.workspaces.set(i, (hact_name, og_name));
                assert(self.ws_keys() =~= keys);
                assert(self.ws_vals() =~= vals.update(i as int, og_name@));
            },
            None => {
                proof {
                    lemma_pairs_push(keys, vals, hact_name@, og_name@);
                }
                self.workspaces.push((hact_name, og_name));
                assert(self.ws_keys() =~= keys.push(hact_name@));
                assert(self.ws_vals() =~= vals.push(og_name@));
            },
        }
        assert(self.view() =~= old(self).view().add_workspace(hact_name@, og_name@));
    }

    /// The raw name of live workspace name `work`: from the table where it is
    /// recorded, else from its brackets; `NameDecode` where neither gives one.
    pub fn raw_workspace(&self, work: &String) -> (r: Result<String, Error>)
        requires
            self.wf(),
        ensures
            match r {
                Ok(x) => self.view().decode(work@) == Some(x@),
                Err(e) => e == Error::NameDecode && self.view().decode(work@).is_none(),
            },
    {
        match self.workspace_index(work) {
            Some(i) => {
                proof {
                    lemma_pairs_lookup(self.ws_keys(), self.ws_vals(), i as int);
                }
                Ok(self.workspaces[i].1.clone())
            },
            None => match parse_raw(work.as_str()) {
                Some(x) => Ok(x),
                None => Err(Error::NameDecode),
            },
        }
    }
}

} // verus!
