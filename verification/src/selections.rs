//! What is kept between two runs: the profile chosen for each model, and the models that ran.
use crate::config;
use crate::json;
use crate::text;
use vstd::prelude::*;

verus! {

/// Whether no two pairs have one name.
pub open spec fn distinct(pairs: Seq<(String, String)>) -> bool {
    forall|i: int, j: int|
        0 <= i < j < pairs.len() ==> (#[trigger] pairs[i]).0@ != (#[trigger] pairs[j]).0@
}

/// The profile that the user chose for each model, by the id of the model.
pub struct ProfileSelections {
    entries: Vec<(String, String)>,
}

impl View for ProfileSelections {
    type V = Map<Seq<char>, Seq<char>>;

    closed spec fn view(&self) -> Map<Seq<char>, Seq<char>> {
        json::map_of_pairs(self.entries@)
    }
}

impl ProfileSelections {
    /// Whether every model has one entry at most.
    pub closed spec fn wf(&self) -> bool {
        distinct(self.entries@)
    }

    /// No choices.
    pub fn new() -> (res: Self)
        ensures
            res.wf(),
            res@ == Map::<Seq<char>, Seq<char>>::empty(),
    {
        ProfileSelections { entries: Vec::new() }
    }

    /// The place of the entry for `model_id`.
    fn position(&self, model_id: &str) -> (res: Option<usize>)
        requires
            self.wf(),
        ensures
            match res {
                Some(i) => i < self.entries.len() && self.entries@[i as int].0@ == model_id@
                    && self@.contains_key(model_id@),
                None => !self@.contains_key(model_id@),
            },
    {
        proof {
            lemma_pairs(self.entries@);
        }
        let mut i: usize = 0;
        while i < self.entries.len()
            invariant
                i <= self.entries.len(),
                forall|k: int| 0 <= k < i ==> (#[trigger] self.entries@[k]).0@ != model_id@,
                forall|k: int|
                    0 <= k < self.entries.len() ==> self@.contains_key(
                        (#[trigger] self.entries@[k]).0@,
                    ),
            decreases self.entries.len() - i,
        {
            if text::same_text(self.entries[i].0.as_str(), model_id) {
                return Some(i);
            }
            i += 1;
        }
        None
    }

    /// The profile that is chosen for `model_id`.
    pub fn get(&self, model_id: &str) -> (res: Option<String>)
        requires
            self.wf(),
        ensures
            match res {
                Some(p) => self@.contains_key(model_id@) && self@[model_id@] == p@,
                None => !self@.contains_key(model_id@),
            },
    {
        proof {
            lemma_pairs(self.entries@);
        }
        match self.position(model_id) {
            Some(i) => Some(self.entries[i].1.clone()),
            None => None,
        }
    }

    /// Chooses `profile` for `model_id`.
    pub fn insert(&mut self, model_id: &str, profile: &str)
        requires
            old(self).wf(),
        ensures
            final(self).wf(),
            final(self)@ == old(self)@.insert(model_id@, profile@),
    {
        let ghost before = self.entries@;
        let pair = (model_id.to_string(), profile.to_string());
        proof {
            lemma_pairs(before);
        }
        match self.position(model_id) {
            Some(i) => {
                self.entries.set(i, pair);
                proof {
                    let after = before.update(i as int, pair);
                    assert forall|a: int, b: int| 0 <= a < b < after.len() implies (
                    #[trigger] after[a]).0@ != (#[trigger] after[b]).0@ by {
                        assert(after[a].0@ == before[a].0@ && after[b].0@ == before[b].0@);
                    }
                    let want = json::map_of_pairs(before).insert(model_id@, profile@);
                    assert forall|k: int| 0 <= k < after.len() implies want.contains_key(
                        (#[trigger] after[k]).0@,
                    ) && want[after[k].0@] == after[k].1@ by {
                        if k != i {
                            assert(after[k] == before[k]);
                            assert(before[k].0@ != before[i as int].0@);
                        }
                    }
                    assert forall|key: Seq<char>| #[trigger]
                        want.contains_key(key) implies exists|k: int|
                        0 <= k < after.len() && (#[trigger] after[k]).0@ == key by {
                        if key == model_id@ {
                            assert(after[i as int].0@ == key);
                        } else {
                            assert(json::map_of_pairs(before).contains_key(key));
                            let k = choose|k: int|
                                0 <= k < before.len() && (#[trigger] before[k]).0@ == key;
                            assert(after[k].0@ == key);
                        }
                    }
                    lemma_same_map(after, want);
                }
            },
            None => {
                self.entries.push(pair);
                proof {
                    let after = before.push(pair);
                    assert forall|a: int, b: int| 0 <= a < b < after.len() implies (
                    #[trigger] after[a]).0@ != (#[trigger] after[b]).0@ by {
                        assert(after[a] == before[a]);
                        if b < before.len() {
                            assert(after[b] == before[b]);
                        }
                    }
                    assert(after.drop_last() == before);
                }
            },
        }
    }

    /// Takes back the choice for `model_id`.
    pub fn remove(&mut self, model_id: &str)
        requires
            old(self).wf(),
        ensures
            final(self).wf(),
            final(self)@ == old(self)@.remove(model_id@),
    {
        let ghost before = self.entries@;
        proof {
            lemma_pairs(before);
        }
        match self.position(model_id) {
            Some(i) => {
                let _ = self.entries.remove(i);
                proof {
                    let after = before.remove(i as int);
                    assert forall|a: int, b: int| 0 <= a < b < after.len() implies (
                    #[trigger] after[a]).0@ != (#[trigger] after[b]).0@ by {
                        let x = if a < i {
                            a
                        } else {
                            a + 1
                        };
                        let y = if b < i {
                            b
                        } else {
                            b + 1
                        };
                        assert(after[a] == before[x] && after[b] == before[y]);
                    }
                    let want = json::map_of_pairs(before).remove(model_id@);
                    assert forall|k: int| 0 <= k < after.len() implies want.contains_key(
                        (#[trigger] after[k]).0@,
                    ) && want[after[k].0@] == after[k].1@ by {
                        let x = if k < i {
                            k
                        } else {
                            k + 1
                        };
                        assert(after[k] == before[x]);
                        assert(before[x].0@ != before[i as int].0@);
                    }
                    assert forall|key: Seq<char>| #[trigger]
                        want.contains_key(key) implies exists|k: int|
                        0 <= k < after.len() && (#[trigger] after[k]).0@ == key by {
                        let x = choose|x: int|
                            0 <= x < before.len() && (#[trigger] before[x]).0@ == key;
                        let k = if x < i {
                            x
                        } else {
                            x - 1
                        };
                        assert(after[k] == before[x]);
                    }
                    lemma_same_map(after, want);
                }
            },
            None => {
                assert(self@ == old(self)@.remove(model_id@));
            },
        }
    }
}

/// What some pairs without a repeated name write: each its own entry, and no more.
proof fn lemma_pairs(pairs: Seq<(String, String)>)
    requires
        distinct(pairs),
    ensures
        forall|i: int|
            0 <= i < pairs.len() ==> json::map_of_pairs(pairs).contains_key(
                (#[trigger] pairs[i]).0@,
            ) && json::map_of_pairs(pairs)[pairs[i].0@] == pairs[i].1@,
        forall|key: Seq<char>| #[trigger]
            json::map_of_pairs(pairs).contains_key(key) ==> exists|i: int|
                0 <= i < pairs.len() && (#[trigger] pairs[i]).0@ == key,
    decreases pairs.len(),
{
    if pairs.len() > 0 {
        let front = pairs.drop_last();
        lemma_pairs(front);
        let all = json::map_of_pairs(pairs);
        assert forall|i: int| 0 <= i < pairs.len() implies all.contains_key(
            (#[trigger] pairs[i]).0@,
        ) && all[pairs[i].0@] == pairs[i].1@ by {
            if i < front.len() {
                assert(front[i] == pairs[i]);
                assert(pairs[i].0@ != pairs[pairs.len() - 1].0@);
            }
        }
        assert forall|key: Seq<char>| #[trigger] all.contains_key(key) implies exists|i: int|
            0 <= i < pairs.len() && (#[trigger] pairs[i]).0@ == key by {
            if key == pairs.last().0@ {
                assert(pairs[pairs.len() - 1].0@ == key);
            } else {
                assert(json::map_of_pairs(front).contains_key(key));
                let i = choose|i: int| 0 <= i < front.len() && (#[trigger] front[i]).0@ == key;
                assert(pairs[i].0@ == key);
            }
        }
    }
}

/// Pairs without a repeated name that are the entries of a map write that map.
proof fn lemma_same_map(pairs: Seq<(String, String)>, want: Map<Seq<char>, Seq<char>>)
    requires
        distinct(pairs),
        forall|i: int|
            0 <= i < pairs.len() ==> want.contains_key((#[trigger] pairs[i]).0@)
                && want[pairs[i].0@] == pairs[i].1@,
        forall|key: Seq<char>| #[trigger]
            want.contains_key(key) ==> exists|i: int|
                0 <= i < pairs.len() && (#[trigger] pairs[i]).0@ == key,
    ensures
        json::map_of_pairs(pairs) == want,
{
    lemma_pairs(pairs);
    let got = json::map_of_pairs(pairs);
    assert forall|key: Seq<char>| #[trigger] got.contains_key(key) <==> want.contains_key(key) by {
        if got.contains_key(key) {
            let i = choose|i: int| 0 <= i < pairs.len() && (#[trigger] pairs[i]).0@ == key;
            assert(want.contains_key(pairs[i].0@));
        }
        if want.contains_key(key) {
            let i = choose|i: int| 0 <= i < pairs.len() && (#[trigger] pairs[i]).0@ == key;
            assert(got.contains_key(pairs[i].0@));
        }
    }
    assert forall|key: Seq<char>| #[trigger] got.contains_key(key) implies got[key]
        == want[key] by {
        let i = choose|i: int| 0 <= i < pairs.len() && (#[trigger] pairs[i]).0@ == key;
        assert(got[pairs[i].0@] == pairs[i].1@);
    }
    assert(got =~= want);
}

// ── Files ───────────────────────────────────────────────────────────────────

/// The choices that a file holds; none where there is no file, or none that can be read.
pub open spec fn loaded_selections(data: Option<Seq<char>>) -> Map<Seq<char>, Seq<char>> {
    match data {
        Some(d) => match json::string_map(d) {
            Some(m) => m,
            None => Map::empty(),
        },
        None => Map::empty(),
    }
}

/// The models that a file holds; none where there is no file, or none that can be read.
pub open spec fn loaded_models(data: Option<Seq<char>>) -> Seq<Seq<char>> {
    match data {
        Some(d) => match json::string_list(d) {
            Some(l) => l,
            None => seq![],
        },
        None => seq![],
    }
}

/// The choices in what was read of their file.
pub fn load_profile_selections(data: Option<&str>) -> (res: ProfileSelections)
    ensures
        res.wf(),
        res@ == loaded_selections(match data {
            Some(d) => Some(d@),
            None => None,
        }),
{
    if let Some(d) = data {
        if let Some(entries) = json::parse_string_map(d) {
            return ProfileSelections { entries };
        }
    }
    ProfileSelections::new()
}

/// Notes the profile that was chosen for `model_id`, or that none is, and gives the text to write
/// to the file of the choices.
pub fn save_profile_selection(
    model_id: &str,
    profile: Option<&str>,
    all_selections: &mut ProfileSelections,
) -> (res: Option<String>)
    requires
        old(all_selections).wf(),
    ensures
        final(all_selections).wf(),
        final(all_selections)@ == (match profile {
            Some(p) => old(all_selections)@.insert(model_id@, p@),
            None => old(all_selections)@.remove(model_id@),
        }),
        res is Some,
        res matches Some(data) ==> loaded_selections(Some(data@)) == final(all_selections)@,
{
    match profile {
        Some(p) => all_selections.insert(model_id, p),
        None => all_selections.remove(model_id),
    }
    match json::print_string_map(&all_selections.entries) {
        Ok(data) => Some(data),
        Err(_) => None,
    }
}

/// The ids of the models that ran, in what was read of their file.
pub fn load_running_models(data: Option<&str>) -> (res: Vec<String>)
    ensures
        config::texts(res@) == loaded_models(match data {
            Some(d) => Some(d@),
            None => None,
        }),
{
    if let Some(d) = data {
        if let Ok(ids) = json::parse_string_list(d) {
            assert(ids.deep_view() =~= config::texts(ids@));
            return ids;
        }
    }
    let none: Vec<String> = Vec::new();
    assert(config::texts(none@) =~= Seq::<Seq<char>>::empty());
    none
}

/// The text to write to the file of the models that run.
pub fn save_running_models(model_ids: &Vec<String>) -> (res: Option<String>)
    ensures
        res is Some,
        res matches Some(data) ==> data@ == json::pretty_list(config::texts(model_ids@))
            && loaded_models(Some(data@)) == config::texts(model_ids@),
{
    assert(model_ids.deep_view() =~= config::texts(model_ids@));
    match json::print_string_list(model_ids) {
        Ok(data) => Some(data),
        Err(_) => None,
    }
}

// ── Laws ────────────────────────────────────────────────────────────────────

/// What a file holds is loaded where it can be read, and nothing where it cannot or is not there.
pub proof fn law_files_are_loaded(data: Seq<char>)
    ensures
        loaded_selections(None) == Map::<Seq<char>, Seq<char>>::empty(),
        json::string_map(data) is None ==> loaded_selections(Some(data)) == Map::<
            Seq<char>,
            Seq<char>,
        >::empty(),
        json::string_map(data) matches Some(m) ==> loaded_selections(Some(data)) == m,
        loaded_models(None).len() == 0,
        json::string_list(data) is None ==> loaded_models(Some(data)).len() == 0,
        json::string_list(data) matches Some(l) ==> loaded_models(Some(data)) == l,
{
}

/// Pairs write a map, each its entry, a later one in place of an earlier of the same name.
pub proof fn law_pairs_write_a_map(pairs: Seq<(String, String)>, pair: (String, String))
    ensures
        json::map_of_pairs(seq![]) == Map::<Seq<char>, Seq<char>>::empty(),
        json::map_of_pairs(pairs.push(pair)) == json::map_of_pairs(pairs).insert(
            pair.0@,
            pair.1@,
        ),
{
    assert(pairs.push(pair).drop_last() == pairs);
}

} // verus!
