//! The decisions of a switch and of the startup reconciliation. The caller asks
//! the workspace-control service for what is decided here, and only after the
//! service has done it records the outcome with [`State::commit`].
use vstd::prelude::*;
use crate::codec::{convention_prefix, follows_convention, workname, workname_spec};
use crate::state::{Error, State, StateModel, Switch};

verus! {

/// The name follows the convention.
pub open spec fn follows_spec(name: Seq<char>) -> bool {
    name.len() >= 6 && name.take(6) == convention_prefix()
}

/// For each live workspace name, the composite name it is to be renamed to under
/// `current`, or `None` where it already follows the convention.
pub open spec fn renames_spec(current: Seq<char>, names: Seq<Seq<char>>) -> Seq<Option<Seq<char>>> {
    names.map_values(
        |n: Seq<char>|
            if follows_spec(n) {
                None
            } else {
                Some(workname_spec(current, n))
            },
    )
}

pub open spec fn option_view(o: Option<String>) -> Option<Seq<char>> {
    match o {
        Some(s) => Some(s@),
        None => None,
    }
}

pub open spec fn strings_view(v: Seq<String>) -> Seq<Seq<char>> {
    v.map_values(|s: String| s@)
}

impl StateModel {
    /// The state after reconciling live workspace names `names`: each one that
    /// does not follow the convention is recorded under the current activity.
    pub open spec fn reconcile(self, names: Seq<Seq<char>>) -> StateModel
        decreases names.len(),
    {
        if names.len() == 0 {
            self
        } else {
            let m = self.reconcile(names.drop_last());
            let n = names.last();
            if follows_spec(n) {
                m
            } else {
                m.add_workspace(workname_spec(self.current, n), n)
            }
        }
    }

    /// The raw names of those of `names` that decode, in order.
    pub open spec fn decode_all(self, names: Seq<Seq<char>>) -> Seq<Seq<char>>
        decreases names.len(),
    {
        if names.len() == 0 {
            Seq::empty()
        } else {
            let rest = self.decode_all(names.drop_last());
            match self.decode(names.last()) {
                Some(x) => rest.push(x),
                None => rest,
            }
        }
    }
}

pub proof fn lemma_reconcile_keeps(m: StateModel, names: Seq<Seq<char>>)
    ensures
        m.reconcile(names).activities == m.activities,
        m.reconcile(names).current == m.current,
    decreases names.len(),
{
    if names.len() > 0 {
        lemma_reconcile_keeps(m, names.drop_last());
    }
}

/// Switching twice in a row to the same raw workspace asks for the same composite
/// name both times, and the second switch leaves the state as the first left it.
pub proof fn lemma_switch_workspace_idempotent(m: StateModel, name: Seq<char>)
    ensures
        workname_spec(m.switch_workspace(name).current, name) == workname_spec(m.current, name),
        m.switch_workspace(name).switch_workspace(name) == m.switch_workspace(name),
        m.switch_workspace(name).workspaces.dom() == m.workspaces.dom().insert(
            workname_spec(m.current, name),
        ),
{
    let w = workname_spec(m.current, name);
    assert(m.workspaces.insert(w, name).insert(w, name) =~= m.workspaces.insert(w, name));
    assert(m.switch_workspace(name).workspaces.dom() =~= m.workspaces.dom().insert(w));
}

/// After any sequence of `set_activity` calls on a well-formed state, the current
/// activity is one of the known activities, and they stay distinct.
pub proof fn lemma_set_activities_member(m: StateModel, names: Seq<Seq<char>>)
    requires
        m.wf(),
    ensures
        m.set_activities(names).wf(),
    decreases names.len(),
{
    if names.len() > 0 {
        lemma_set_activities_member(m, names.drop_last());
        let p = m.set_activities(names.drop_last());
        let a = names.last();
        if a != p.current && !p.activities.contains(a) {
            let acts = p.activities.push(a);
            assert(acts[p.activities.len() as int] == a);
            assert forall|i: int, j: int| 0 <= i < j < acts.len() implies acts[i] != acts[j] by {
                if j == p.activities.len() {
                    assert(p.activities.contains(acts[i]));
                }
            }
        }
    }
}

impl State {
    /// Decides a switch to raw workspace `name` in the current activity.
    pub fn switch_workspace(&self, name: &String) -> (r: Switch)
        ensures
            r.composite@ == workname_spec(self.view().current, name@),
            r.raw@ == name@,
            r.activity.is_none(),
    {
        Switch {
            composite: workname(self.current_activity.as_str(), name.as_str()),
            raw: name.clone(),
            activity: None,
        }
    }

    /// Decides a switch to `activity` that keeps the raw workspace of the active
    /// workspace, whose live name is `active`.
    pub fn switch_activity(&self, activity: &String, active: &String) -> (r: Result<Switch, Error>)
        requires
            self.wf(),
        ensures
            match r {
                Ok(s) => {
                    &&& self.view().decode(active@) == Some(s.raw@)
                    &&& s.composite@ == workname_spec(activity@, s.raw@)
                    &&& option_view(s.activity) == Some(activity@)
                },
                Err(e) => e == Error::NameDecode && self.view().decode(active@).is_none(),
            },
    {
        let raw = self.current_raw_workspace(active)?;
        Ok(
            Switch {
                composite: workname(activity.as_str(), raw.as_str()),
                raw,
                activity: Some(activity.clone()),
            },
        )
    }

    /// The raw name of the active workspace, whose live name is `active`.
    pub fn current_raw_workspace(&self, active: &String) -> (r: Result<String, Error>)
        requires
            self.wf(),
        ensures
            match r {
                Ok(x) => self.view().decode(active@) == Some(x@),
                Err(e) => e == Error::NameDecode && self.view().decode(active@).is_none(),
            },
    {
        self.raw_workspace(active)
    }

    /// Records a switch that the service has carried out: the composite name's
    /// mapping first, then the activity where the switch changed it.
    pub fn commit(&mut self, sw: Switch)
        requires
            old(self).wf(),
        ensures
            final(self).wf(),
            final(self).view() == match option_view(sw.activity) {
                Some(a) => old(self).view().add_workspace(sw.composite@, sw.raw@).set_activity(a),
                None => old(self).view().add_workspace(sw.composite@, sw.raw@),
            },
    {
        self.add_workspace(sw.composite, sw.raw);
        match sw.activity {
            Some(a) => {
                self.set_activity(a);
            },
            None => {},
        }
    }

    /// The raw names of those live workspace names that decode, in order.
    pub fn raw_workspaces_sync(&self, names: &Vec<String>) -> (r: Vec<String>)
        requires
            self.wf(),
        ensures
            strings_view(r@) == self.view().decode_all(strings_view(names@)),
    {
        let mut r: Vec<String> = Vec::new();
        let mut i: usize = 0;
        while i < names.len()
            invariant
                self.wf(),
                i <= names@.len(),
                strings_view(r@) == self.view().decode_all(strings_view(names@).take(i as int)),
            decreases names@.len() - i,
        {
            let ghost before = r@;
            let ghost ns = strings_view(names@).take(i as int + 1);
            assert(ns.drop_last() =~= strings_view(names@).take(i as int));
            match self.raw_workspace(&names[i]) {
                Ok(x) => {
                    r.push(x);
                    assert(strings_view(r@) =~= strings_view(before).push(names@[i as int]@).drop_last().push(r@.last()@));
                },
                Err(_) => {},
            }
            i += 1;
        }
        assert(strings_view(names@).take(names@.len() as int) =~= strings_view(names@));
        r
    }

    /// Brings live workspaces into the convention: each of `names` that does not
    /// follow it is recorded under the current activity. Returns, for each name,
    /// the composite name to rename it to, or `None` where it needs no rename.
    pub fn reconcile(&mut self, names: &Vec<String>) -> (renames: Vec<Option<String>>)
        requires
            old(self).wf(),
        ensures
            final(self).wf(),
            final(self).view() == old(self).view().reconcile(strings_view(names@)),
            renames@.map_values(|o: Option<String>| option_view(o)) == renames_spec(
                old(self).view().current,
                strings_view(names@),
            ),
    {
        let mut renames: Vec<Option<String>> = Vec::new();
        let mut i: usize = 0;
        while i < names.len()
            invariant
                self.wf(),
                i <= names@.len(),
                self.view() == old(self).view().reconcile(strings_view(names@).take(i as int)),
                renames@.map_values(|o: Option<String>| option_view(o)) == renames_spec(
                    old(self).view().current,
                    strings_view(names@).take(i as int),
                ),
            decreases names@.len() - i,
        {
            let ghost ns = strings_view(names@).take(i as int + 1);
            assert(ns.drop_last() =~= strings_view(names@).take(i as int));
            proof {
                lemma_reconcile_keeps(old(self).view(), ns.drop_last());
            }
            let name = &names[i];
            let ghost cur = old(self).view().current;
            let ghost prev = renames@.map_values(|o: Option<String>| option_view(o));
            assert(renames_spec(cur, ns) =~= renames_spec(cur, ns.drop_last()).push(
                renames_spec(cur, ns)[i as int],
            ));
            assert(self.view().current == cur);
            if follows_convention(name.as_str()) {
                renames.push(None);
            } else {
                let composite = workname(self.current_activity.as_str(), name.as_str());
                self.add_workspace(composite.clone(), name.clone());
                renames.push(Some(composite));
            }
            assert(renames@.map_values(|o: Option<String>| option_view(o)) =~= prev.push(
                option_view(renames@[i as int]),
            ));
            assert(renames@.map_values(|o: Option<String>| option_view(o)) =~= renames_spec(
                old(self).view().current,
                ns,
            ));
            i += 1;
        }
        assert(strings_view(names@).take(names@.len() as int) =~= strings_view(names@));
        renames
    }
}

} // verus!
