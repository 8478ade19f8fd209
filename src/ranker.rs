//! Ranking of activities and workspaces for an interactive picker: fuzzy scores,
//! a stable sort by score, the exact query pinned on top, a bound on the length.
use vstd::prelude::*;
use fuzzy_matcher::FuzzyMatcher;
use crate::codec::workname_spec;
use crate::state::{Error, State, Switch};
use crate::switch::{option_view, strings_view};

verus! {

/// A picker entry: what selecting it switches to.
#[derive(Debug)]
pub enum Entry {
    Activity(String),
    Workspace(String),
}

/// The mathematical model of an [`Entry`].
pub enum EntryView {
    Activity(Seq<char>),
    Workspace(Seq<char>),
}

impl EntryView {
    pub open spec fn name(self) -> Seq<char> {
        match self {
            EntryView::Activity(s) => s,
            EntryView::Workspace(s) => s,
        }
    }
}

impl Entry {
    pub open spec fn view(&self) -> EntryView {
        match self {
            Entry::Activity(s) => EntryView::Activity(s@),
            Entry::Workspace(s) => EntryView::Workspace(s@),
        }
    }

    /// The literal text of the entry.
    pub fn name(&self) -> (r: String)
        ensures
            r@ == self.view().name(),
    {
        match self {
            Entry::Activity(v) => v.clone(),
            Entry::Workspace(v) => v.clone(),
        }
    }

    /// The entry's discriminant: 1 for a workspace, 2 for an activity.
    pub fn to_u8(&self) -> (r: u8)
        ensures
            r == (match self.view() {
                EntryView::Workspace(_) => 1u8,
                EntryView::Activity(_) => 2u8,
            }),
    {
        match self {
            Entry::Workspace(_) => 1u8,
            Entry::Activity(_) => 2u8,
        }
    }

    fn copy(&self) -> (r: Entry)
        ensures
            r.view() == self.view(),
    {
        match self {
            Entry::Activity(v) => Entry::Activity(v.clone()),
            Entry::Workspace(v) => Entry::Workspace(v.clone()),
        }
    }
}

pub open spec fn entries_view(s: Seq<Entry>) -> Seq<EntryView> {
    s.map_values(|e: Entry| e.view())
}

pub open spec fn scored_view(s: Seq<(Entry, i64)>) -> Seq<(EntryView, i64)> {
    s.map_values(|p: (Entry, i64)| (p.0.view(), p.1))
}

/// The candidates that matched, each with its score, in candidate order.
pub open spec fn kept(cands: Seq<EntryView>, scores: Seq<Option<i64>>) -> Seq<(EntryView, i64)>
    decreases cands.len(),
{
    if cands.len() == 0 {
        Seq::empty()
    } else {
        let rest = kept(cands.drop_last(), scores.take(cands.len() - 1));
        match scores[cands.len() - 1] {
            Some(sc) => rest.push((cands.last(), sc)),
            None => rest,
        }
    }
}

/// The position before the first entry of `s` scored below `sc`.
pub open spec fn first_lower(s: Seq<(EntryView, i64)>, sc: i64) -> nat
    decreases s.len(),
{
    if s.len() == 0 {
        0
    } else if s[0].1 < sc {
        0
    } else {
        1 + first_lower(s.drop_first(), sc)
    }
}

/// `s` sorted by descending score; entries of equal score keep their order.
pub open spec fn sort_desc(s: Seq<(EntryView, i64)>) -> Seq<(EntryView, i64)>
    decreases s.len(),
{
    if s.len() == 0 {
        Seq::empty()
    } else {
        let t = sort_desc(s.drop_last());
        t.insert(first_lower(t, s.last().1) as int, s.last())
    }
}

/// The entries of `s` whose text is not `q`, without their scores.
pub open spec fn drop_named(s: Seq<(EntryView, i64)>, q: Seq<char>) -> Seq<EntryView>
    decreases s.len(),
{
    if s.len() == 0 {
        Seq::empty()
    } else {
        let rest = drop_named(s.drop_last(), q);
        if s.last().0.name() == q {
            rest
        } else {
            rest.push(s.last().0)
        }
    }
}

/// The ranked list for query `q` over candidates `cands` with scores `scores`.
pub open spec fn rank_spec(
    q: Seq<char>,
    cands: Seq<EntryView>,
    scores: Seq<Option<i64>>,
    max_entries: nat,
) -> Seq<EntryView> {
    if q.len() == 0 {
        Seq::empty()
    } else {
        let full = seq![EntryView::Activity(q), EntryView::Workspace(q)] + drop_named(
            sort_desc(kept(cands, scores)),
            q,
        );
        if full.len() <= max_entries {
            full
        } else {
            full.take(max_entries as int)
        }
    }
}

proof fn lemma_first_lower_skip(s: Seq<(EntryView, i64)>, sc: i64, j: int)
    requires
        0 <= j < s.len(),
        first_lower(s, sc) == j + first_lower(s.skip(j), sc),
        s[j].1 >= sc,
    ensures
        first_lower(s, sc) == j + 1 + first_lower(s.skip(j + 1), sc),
{
    assert(s.skip(j).drop_first() =~= s.skip(j + 1));
}

proof fn lemma_drop_named_excludes(s: Seq<(EntryView, i64)>, q: Seq<char>)
    ensures
        forall|i: int| 0 <= i < drop_named(s, q).len() ==> (#[trigger] drop_named(s, q)[i]).name() != q,
    decreases s.len(),
{
    if s.len() > 0 {
        lemma_drop_named_excludes(s.drop_last(), q);
        let rest = drop_named(s.drop_last(), q);
        if s.last().0.name() != q {
            assert forall|i: int| 0 <= i < rest.push(s.last().0).len() implies (#[trigger] rest.push(
                s.last().0,
            )[i]).name() != q by {
                if i < rest.len() {
                    assert(rest.push(s.last().0)[i] == rest[i]);
                }
            }
        }
    }
}

/// For every query, candidates and bound, the ranked list is no longer than the
/// bound.
pub proof fn lemma_rank_bounded(
    q: Seq<char>,
    cands: Seq<EntryView>,
    scores: Seq<Option<i64>>,
    max_entries: nat,
)
    ensures
        rank_spec(q, cands, scores, max_entries).len() <= max_entries,
{
}

/// For a non-empty query and a bound of at least two, the list opens with the
/// query as an activity and then as a workspace, whatever the candidates.
pub proof fn lemma_rank_pinned(
    q: Seq<char>,
    cands: Seq<EntryView>,
    scores: Seq<Option<i64>>,
    max_entries: nat,
)
    requires
        q.len() > 0,
        max_entries >= 2,
    ensures
        rank_spec(q, cands, scores, max_entries).len() >= 2,
        rank_spec(q, cands, scores, max_entries)[0] == EntryView::Activity(q),
        rank_spec(q, cands, scores, max_entries)[1] == EntryView::Workspace(q),
{
}

/// Apart from the two pinned entries, no entry of the list has the query as its
/// text: a candidate named like the query is not listed a second time.
pub proof fn lemma_rank_dedup(
    q: Seq<char>,
    cands: Seq<EntryView>,
    scores: Seq<Option<i64>>,
    max_entries: nat,
)
    ensures
        forall|i: int|
            2 <= i < rank_spec(q, cands, scores, max_entries).len() ==> (#[trigger] rank_spec(
                q,
                cands,
                scores,
                max_entries,
            )[i]).name() != q,
{
    let d = drop_named(sort_desc(kept(cands, scores)), q);
    lemma_drop_named_excludes(sort_desc(kept(cands, scores)), q);
    let full = seq![EntryView::Activity(q), EntryView::Workspace(q)] + d;
    assert forall|i: int| 2 <= i < full.len() implies full[i].name() != q by {
        assert(full[i] == d[i - 2]);
    }
}

/// Inserts `item` into `sorted` before the first entry scored below it.
fn insert_by_score(sorted: &mut Vec<(Entry, i64)>, item: (Entry, i64))
    ensures
        scored_view(final(sorted)@) == scored_view(old(sorted)@).insert(
            first_lower(scored_view(old(sorted)@), item.1) as int,
            (item.0.view(), item.1),
        ),
{
    let ghost t = scored_view(sorted@);
    assert(t.skip(0) =~= t);
    let mut j: usize = 0;
    while j < sorted.len() && sorted[j].1 >= item.1
        invariant
            sorted@ == old(sorted)@,
            t == scored_view(sorted@),
            j <= sorted@.len(),
            first_lower(t, item.1) == j + first_lower(t.skip(j as int), item.1),
        decreases sorted@.len() - j,
    {
        proof {
            lemma_first_lower_skip(t, item.1, j as int);
        }
        j += 1;
    }
    proof {
        if j < sorted@.len() {
            assert(t.skip(j as int)[0] == t[j as int]);
        } else {
            assert(t.skip(j as int).len() == 0);
        }
    }
    let ghost v = (item.0.view(), item.1);
    sorted.insert(j, item);
    assert(scored_view(sorted@) =~= t.insert(j as int, v));
}

/// Ranks `candidates`, whose fuzzy scores against `query` are `scores` (`None`
/// where one did not match): the matches by descending score, ties in candidate
/// order, without those whose text is `query`; before them the query as an
/// activity and as a workspace; at most `max_entries` in all. An empty query
/// gives an empty list.
pub fn rank(
    query: &String,
    candidates: &Vec<Entry>,
    scores: &Vec<Option<i64>>,
    max_entries: usize,
) -> (r: Vec<Entry>)
    requires
        candidates@.len() == scores@.len(),
    ensures
        entries_view(r@) == rank_spec(
            query@,
            entries_view(candidates@),
            scores@,
            max_entries as nat,
        ),
        r@.len() <= max_entries,
{
    let ghost cands = entries_view(candidates@);
    if query.as_str().unicode_len() == 0 {
        return Vec::new();
    }
    let mut sorted: Vec<(Entry, i64)> = Vec::new();
    let mut i: usize = 0;
    while i < candidates.len()
        invariant
            candidates@.len() == scores@.len(),
            cands == entries_view(candidates@),
            i <= candidates@.len(),
            scored_view(sorted@) == sort_desc(kept(cands.take(i as int), scores@.take(i as int))),
        decreases candidates@.len() - i,
    {
        let ghost c1 = cands.take(i as int + 1);
        let ghost s1 = scores@.take(i as int + 1);
        assert(c1.drop_last() =~= cands.take(i as int));
        assert(s1.take(i as int) =~= scores@.take(i as int));
        match scores[i] {
            Some(sc) => {
                let ghost before = kept(cands.take(i as int), scores@.take(i as int));
                assert(kept(c1, s1) == before.push((cands[i as int], sc)));
                assert(before.push((cands[i as int], sc)).drop_last() =~= before);
                insert_by_score(&mut sorted, (candidates[i].copy(), sc));
            },
            None => {},
        }
        i += 1;
    }
    assert(cands.take(candidates@.len() as int) =~= cands);
    assert(scores@.take(candidates@.len() as int) =~= scores@);
    let ghost srt = scored_view(sorted@);
    let mut r: Vec<Entry> = Vec::new();
    r.push(Entry::Activity(query.clone()));
    r.push(Entry::Workspace(query.clone()));
    let ghost pinned = seq![EntryView::Activity(query@), EntryView::Workspace(query@)];
    assert(entries_view(r@) =~= pinned);
    let mut k: usize = 0;
    while k < sorted.len()
        invariant
            srt == scored_view(sorted@),
            k <= sorted@.len(),
            entries_view(r@) == pinned + drop_named(srt.take(k as int), query@),
        decreases sorted@.len() - k,
    {
        let ghost t1 = srt.take(k as int + 1);
        assert(t1.drop_last() =~= srt.take(k as int));
        let name = sorted[k].0.name();
        if name != *query {
            let ghost before = entries_view(r@);
            r.push(sorted[k].0.copy());
            assert(entries_view(r@) =~= before.push(srt[k as int].0));
        }
        k += 1;
    }
    assert(srt.take(sorted@.len() as int) =~= srt);
    r.truncate(max_entries);
    proof {
        let full = pinned + drop_named(srt, query@);
        if full.len() > max_entries {
            assert(entries_view(r@) =~= full.take(max_entries as int));
        }
    }
    r
}

/// The picker's options: the token that must open the input, and the most
/// entries to list.
pub struct Config {
    pub prefix: String,
    pub max_entries: u8,
}

impl Default for Config {
    fn default() -> (r: Config)
        ensures
            r.prefix@ == seq![':', 'h', 'a'],
            r.max_entries == 5,
    {
        let prefix = String::from_str(":ha");
        proof {
            reveal_strlit(":ha");
            assert(prefix@ =~= seq![':', 'h', 'a']);
        }
        Config { prefix, max_entries: 5 }
    }
}

impl State {
    /// Decides the switch that selecting `entry` asks for, where the active
    /// workspace's live name is `active`.
    pub fn handle_selection(&self, entry: &Entry, active: &String) -> (r: Result<Switch, Error>)
        requires
            self.wf(),
        ensures
            match entry.view() {
                EntryView::Workspace(w) => match r {
                    Ok(s) => s.composite@ == workname_spec(self.view().current, w) && s.raw@ == w
                        && s.activity.is_none(),
                    Err(_) => false,
                },
                EntryView::Activity(a) => match r {
                    Ok(s) => {
                        &&& self.view().decode(active@) == Some(s.raw@)
                        &&& s.composite@ == workname_spec(a, s.raw@)
                        &&& option_view(s.activity) == Some(a)
                    },
                    Err(e) => e == Error::NameDecode && self.view().decode(active@).is_none(),
                },
            },
    {
        match entry {
            Entry::Workspace(w) => Ok(self.switch_workspace(w)),
            Entry::Activity(a) => self.switch_activity(a, active),
        }
    }
}

/// The name of what SkimMatcherV2 of fuzzy_matcher, set to ignore case, scores
/// `choice` against `pattern`.
pub uninterp spec fn skim_score(choice: Seq<char>, pattern: Seq<char>) -> Option<i64>;

/// Relies on fuzzy_matcher's `SkimMatcherV2::default().ignore_case().fuzzy_match`:
/// the score depends on the two strings alone, and an empty pattern scores 0.
#[verifier::external_body]
fn fuzzy_score(choice: &str, pattern: &str) -> (r: Option<i64>)
    ensures
        r == skim_score(choice@, pattern@),
        pattern@.len() == 0 ==> r == Some(0i64),
{
    fuzzy_matcher::skim::SkimMatcherV2::default().ignore_case().fuzzy_match(choice, pattern)
}

/// The name of what `str::trim_start` returns: `s` without its leading whitespace.
pub uninterp spec fn trim_start_of(s: Seq<char>) -> Seq<char>;

/// Relies on `str::trim_start`: the result depends on the text alone, and an empty
/// text stays empty.
#[verifier::external_body]
fn trim_start(s: &str) -> (r: &str)
    ensures
        r@ == trim_start_of(s@),
        s@.len() == 0 ==> r@.len() == 0,
{
    s.trim_start()
}

/// The candidates of a picker: the known activities, then the raw names of the
/// live workspaces.
pub open spec fn candidates_spec(activities: Seq<Seq<char>>, raws: Seq<Seq<char>>) -> Seq<EntryView> {
    activities.map_values(|a: Seq<char>| EntryView::Activity(a)) + raws.map_values(
        |w: Seq<char>| EntryView::Workspace(w),
    )
}

/// `input` with `prefix` taken off its front, where it starts with it.
pub open spec fn strip_prefix_spec(input: Seq<char>, prefix: Seq<char>) -> Option<Seq<char>> {
    if prefix.len() <= input.len() && input.take(prefix.len() as int) == prefix {
        Some(input.skip(prefix.len() as int))
    } else {
        None
    }
}

fn strip_prefix(input: &String, prefix: &String) -> (r: Option<String>)
    ensures
        option_view(r) == strip_prefix_spec(input@, prefix@),
{
    let n = input.as_str().unicode_len();
    let p = prefix.as_str().unicode_len();
    if p > n {
        return None;
    }
    let mut i: usize = 0;
    while i < p
        invariant
            p <= n,
            n == input@.len(),
            p == prefix@.len(),
            i <= p,
            forall|k: int| 0 <= k < i ==> input@[k] == prefix@[k],
        decreases p - i,
    {
        if input.as_str().get_char(i) != prefix.as_str().get_char(i) {
            assert(input@.take(p as int)[i as int] != prefix@[i as int]);
            return None;
        }
        i += 1;
    }
    assert(input@.take(p as int) =~= prefix@);
    Some(String::from_str(input.as_str().substring_char(p, n)))
}

/// The query that `input` holds for a picker triggered by `prefix`: the text after
/// the prefix, without leading whitespace; `None` where `input` does not start
/// with `prefix`.
pub open spec fn query_spec(input: Seq<char>, prefix: Seq<char>) -> Option<Seq<char>> {
    match strip_prefix_spec(input, prefix) {
        Some(rest) => Some(trim_start_of(rest)),
        None => None,
    }
}

impl State {
    /// The picker's entries for `input`, where the live workspaces are named
    /// `live_names`: empty unless `input` starts with `prefix`; otherwise the
    /// ranking of the activities and the decoded live workspaces against the
    /// query that follows the prefix.
    pub fn get_matches(
        &self,
        input: &String,
        prefix: &String,
        max_entries: u8,
        live_names: &Vec<String>,
    ) -> (r: Vec<Entry>)
        requires
            self.wf(),
        ensures
            entries_view(r@) == match query_spec(input@, prefix@) {
                None => Seq::<EntryView>::empty(),
                Some(q) => {
                    let cands = candidates_spec(
                        self.view().activities,
                        self.view().decode_all(strings_view(live_names@)),
                    );
                    rank_spec(
                        q,
                        cands,
                        cands.map_values(|e: EntryView| skim_score(e.name(), q)),
                        max_entries as nat,
                    )
                },
            },
    {
        let rest = match strip_prefix(input, prefix) {
            Some(rest) => rest,
            None => {
                let e: Vec<Entry> = Vec::new();
                assert(entries_view(e@) =~= Seq::<EntryView>::empty());
                return e;
            },
        };
        let query = String::from_str(trim_start(rest.as_str()));
        let raws = self.raw_workspaces_sync(live_names);
        let ghost cands = candidates_spec(self.view().activities, strings_view(raws@));
        assert(cands.len() == self.activities@.len() + raws@.len());
        assert(forall|k: int| 0 <= k < self.activities@.len() ==> cands[k] == EntryView::Activity(self.activities@[k]@));
        assert(forall|k: int| 0 <= k < raws@.len() ==> cands[self.activities@.len() + k] == EntryView::Workspace(raws@[k]@));
        let mut candidates: Vec<Entry> = Vec::new();
        let mut scores: Vec<Option<i64>> = Vec::new();
        let mut i: usize = 0;
        while i < self.activities.len()
            invariant
                i <= self.activities@.len(),
                cands.len() == self.activities@.len() + raws@.len(),
                forall|k: int| 0 <= k < self.activities@.len() ==> cands[k] == EntryView::Activity(self.activities@[k]@),
                candidates@.len() == scores@.len() == i,
                entries_view(candidates@) == cands.take(i as int),
                scores@ == cands.take(i as int).map_values(|e: EntryView| skim_score(e.name(), query@)),
            decreases self.activities@.len() - i,
        {
            let name = &self.activities[i];
            scores.push(fuzzy_score(name.as_str(), query.as_str()));
            candidates.push(Entry::Activity(name.clone()));
            assert(entries_view(candidates@) =~= cands.take(i + 1));
            assert(scores@ =~= cands.take(i + 1).map_values(|e: EntryView| skim_score(e.name(), query@)));
            i += 1;
        }
        let na = self.activities.len();
        assert(cands.take(na as int) == cands.take(na + 0));
        let mut j: usize = 0;
        while j < raws.len()
            invariant
                na == self.activities@.len(),
                cands.len() == self.activities@.len() + raws@.len(),
                forall|k: int| 0 <= k < raws@.len() ==> cands[na + k] == EntryView::Workspace(raws@[k]@),
                j <= raws@.len(),
                candidates@.len() == scores@.len() == na + j,
                entries_view(candidates@) == cands.take(na + j),
                scores@ == cands.take(na + j).map_values(|e: EntryView| skim_score(e.name(), query@)),
            decreases raws@.len() - j,
        {
            let name = &raws[j];
            scores.push(fuzzy_score(name.as_str(), query.as_str()));
            candidates.push(Entry::Workspace(name.clone()));
            assert(entries_view(candidates@) =~= cands.take(na + j + 1));
            assert(scores@ =~= cands.take(na + j + 1).map_values(|e: EntryView| skim_score(e.name(), query@)));
            j += 1;
        }
        assert(cands.take(na + raws@.len()) =~= cands);
        assert(entries_view(candidates@) =~= cands);
        assert(scores@ =~= cands.map_values(|e: EntryView| skim_score(e.name(), query@)));
        rank(&query, &candidates, &scores, max_entries as usize)
    }
}

} // verus!
