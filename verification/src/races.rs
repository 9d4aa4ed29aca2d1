//! The race configuration: races with a name and a date, and the imported
//! files linked to each.

use vstd::prelude::*;

use crate::text::{contains_string, trim_chars, trimmed, views};

verus! {

/// A race: its name, its date as typed, and the files linked to it.
#[derive(Clone, Debug)]
pub struct Race {
    pub name: String,
    pub date: String,
    pub linked_files: Vec<String>,
}

/// What a race holds: name, date and linked files.
pub type RaceView = (Seq<char>, Seq<char>, Seq<Seq<char>>);

impl View for Race {
    type V = RaceView;

    open spec fn view(&self) -> RaceView {
        (self.name@, self.date@, views(self.linked_files@))
    }
}

/// The contents of a list of races.
pub open spec fn race_views(races: Seq<Race>) -> Seq<RaceView> {
    races.map_values(|r: Race| r@)
}

/// The races after the form is submitted with `name_input` and `date_input`:
/// a new race without files is appended when both are non-empty once
/// trimmed.
pub open spec fn races_after_add(
    races: Seq<RaceView>,
    name_input: Seq<char>,
    date_input: Seq<char>,
) -> Seq<RaceView> {
    let name = trim_chars(name_input);
    let date = trim_chars(date_input);
    if name.len() > 0 && date.len() > 0 {
        races.push((name, date, Seq::empty()))
    } else {
        races
    }
}

/// The position of the first race named `name`.
pub open spec fn first_named(races: Seq<RaceView>, name: Seq<char>) -> Option<nat>
    decreases races.len(),
{
    if races.len() == 0 {
        None
    } else if races[0].0 == name {
        Some(0)
    } else {
        match first_named(races.drop_first(), name) {
            Some(k) => Some(k + 1),
            None => None,
        }
    }
}

/// The races after `file` is linked to the race named `name`: the first
/// race of that name gets the file appended, unless the file name is empty
/// or already linked there.
pub open spec fn races_after_link(
    races: Seq<RaceView>,
    name: Seq<char>,
    file: Seq<char>,
) -> Seq<RaceView> {
    match first_named(races, name) {
        Some(k) => if file.len() > 0 && !races[k as int].2.contains(file) {
            races.update(k as int, (races[k as int].0, races[k as int].1, races[k as int].2.push(file)))
        } else {
            races
        },
        None => races,
    }
}

/// Whether a race is not named `name`.
pub open spec fn not_named(name: Seq<char>) -> spec_fn(RaceView) -> bool {
    |r: RaceView| r.0 != name
}

/// The races after the races named `name` are removed.
pub open spec fn races_after_delete(races: Seq<RaceView>, name: Seq<char>) -> Seq<RaceView> {
    races.filter(not_named(name))
}

/// `first_named` finds the race at `k` when no earlier race has the name.
proof fn lemma_first_named_at(races: Seq<RaceView>, name: Seq<char>, k: int)
    requires
        0 <= k < races.len(),
        races[k].0 == name,
        forall|j: int| 0 <= j < k ==> races[j].0 != name,
    ensures
        first_named(races, name) == Some(k as nat),
    decreases k,
{
    if k > 0 {
        let tail = races.drop_first();
        assert forall|j: int| 0 <= j < k - 1 implies tail[j].0 != name by {
            assert(tail[j] == races[j + 1]);
        }
        lemma_first_named_at(tail, name, k - 1);
    }
}

/// `first_named` finds nothing when no race has the name.
proof fn lemma_first_named_none(races: Seq<RaceView>, name: Seq<char>)
    requires
        forall|j: int| 0 <= j < races.len() ==> races[j].0 != name,
    ensures
        first_named(races, name) is None,
    decreases races.len(),
{
    if races.len() > 0 {
        let tail = races.drop_first();
        assert forall|j: int| 0 <= j < tail.len() implies tail[j].0 != name by {
            assert(tail[j] == races[j + 1]);
        }
        lemma_first_named_none(tail, name);
    }
}

/// The races of the configuration screen.
#[derive(Clone, Debug)]
pub struct RaceConfiguration {
    pub races: Vec<Race>,
}

impl View for RaceConfiguration {
    type V = Seq<RaceView>;

    open spec fn view(&self) -> Seq<RaceView> {
        race_views(self.races@)
    }
}

impl RaceConfiguration {
    /// A configuration without races.
    pub fn new() -> (r: Self)
        ensures
            r@ == Seq::<RaceView>::empty(),
    {
        RaceConfiguration { races: Vec::new() }
    }

    /// The position of the first race named `name`.
    pub fn find_race(&self, name: &String) -> (r: Option<usize>)
        ensures
            r matches Some(k) ==> first_named(self@, name@) == Some(k as nat) && k < self@.len()
                && self@[k as int].0 == name@,
            r is None ==> first_named(self@, name@) is None,
    {
        let mut i: usize = 0;
        while i < self.races.len()
            invariant
                i <= self.races.len(),
                forall|j: int| 0 <= j < i ==> self@[j].0 != name@,
            decreases self.races.len() - i,
        {
            if self.races[i].name == *name {
                proof {
                    lemma_first_named_at(self@, name@, i as int);
                }
                return Some(i);
            }
            i = i + 1;
        }
        proof {
            lemma_first_named_none(self@, name@);
        }
        None
    }

    /// Submits the new-race form: when the trimmed name and date are both
    /// non-empty a race with them and no files is added. Says whether it
    /// was, in which case the form is cleared.
    pub fn add_race(&mut self, name_input: &str, date_input: &str) -> (added: bool)
        ensures
            added == (trim_chars(name_input@).len() > 0 && trim_chars(date_input@).len() > 0),
            final(self)@ == races_after_add(old(self)@, name_input@, date_input@),
    {
        let name = trimmed(name_input);
        let date = trimmed(date_input);
        if !name.as_str().is_empty() && !date.as_str().is_empty() {
            let race = Race { name, date, linked_files: Vec::new() };
            let ghost before = self.races@;
            let ghost rv = race@;
            assert(rv =~= (trim_chars(name_input@), trim_chars(date_input@), Seq::<Seq<char>>::empty()));
            self.races.push(race);
            assert(race_views(self.races@) =~= race_views(before).push(rv));
            true
        } else {
            false
        }
    }

    /// Links `file` to the race named `name`. Says whether the file was
    /// added to a race.
    pub fn link_file(&mut self, name: &String, file: String) -> (linked: bool)
        ensures
            final(self)@ == races_after_link(old(self)@, name@, file@),
            linked == (final(self)@ != old(self)@),
    {
        if file.as_str().is_empty() {
            return false;
        }
        match self.find_race(name) {
            None => false,
            Some(k) => {
                if contains_string(&self.races[k].linked_files, &file) {
                    false
                } else {
                    let ghost before = self.races@;
                    let ghost f = file@;
                    let mut race = self.races.remove(k);
                    let ghost old_race = race@;
                    race.linked_files.push(file);
                    assert(views(race.linked_files@) =~= old_race.2.push(f));
                    self.races.insert(k, race);
                    assert(race_views(self.races@) =~= race_views(before).update(
                        k as int,
                        (old_race.0, old_race.1, old_race.2.push(f)),
                    ));
                    assert(race_views(self.races@)[k as int].2.len() != race_views(
                        before,
                    )[k as int].2.len());
                    true
                }
            },
        }
    }

    /// Removes every race named `name`, keeping the others in order.
    pub fn delete_race(&mut self, name: &String)
        ensures
            final(self)@ == races_after_delete(old(self)@, name@),
    {
        let ghost all = self@;
        let ghost keep = not_named(name@);
        let ghost mut done: int = 0;
        let mut i: usize = 0;
        proof {
            reveal(Seq::filter);
        }
        assert(all.take(0).filter(keep) =~= Seq::<RaceView>::empty());
        assert(all.skip(0) =~= all);
        while i < self.races.len()
            invariant
                0 <= done <= all.len(),
                i == all.take(done).filter(keep).len(),
                self@ == all.take(done).filter(keep) + all.skip(done),
                keep == not_named(name@),
            decreases self.races.len() - i,
        {
            assert(self@[i as int] == all[done]);
            assert(all.take(done + 1).drop_last() =~= all.take(done));
            assert(all.take(done + 1).last() == all[done]);
            proof {
                reveal(Seq::filter);
            }
            let ghost kept = all.take(done).filter(keep);
            assert(all.skip(done) =~= seq![all[done]] + all.skip(done + 1));
            if self.races[i].name == *name {
                let ghost before = self.races@;
                assert(!keep(all[done]));
                assert(all.take(done + 1).filter(keep) == kept);
                self.races.remove(i);
                assert(race_views(self.races@) =~= race_views(before).remove(i as int));
                assert(race_views(before).remove(i as int) =~= kept + all.skip(done + 1));
            } else {
                assert(keep(all[done]));
                assert(all.take(done + 1).filter(keep) == kept.push(all[done]));
                assert(self@ =~= kept.push(all[done]) + all.skip(done + 1));
                i = i + 1;
            }
            proof {
                done = done + 1;
            }
        }
        assert(done == all.len());
        assert(all.take(done) =~= all);
    }
}

/// Filtering a list whose every element passes changes nothing.
proof fn lemma_filter_keeps_all(races: Seq<RaceView>, keep: spec_fn(RaceView) -> bool)
    requires
        forall|i: int| 0 <= i < races.len() ==> keep(#[trigger] races[i]),
    ensures
        races.filter(keep) == races,
    decreases races.len(),
{
    reveal(Seq::filter);
    if races.len() > 0 {
        let init = races.drop_last();
        assert forall|i: int| 0 <= i < init.len() implies keep(#[trigger] init[i]) by {
            assert(init[i] == races[i]);
        }
        lemma_filter_keeps_all(init, keep);
        assert(init.push(races.last()) =~= races);
    }
}

/// Lists whose races carry the same names, position by position, have
/// their first race of a name at the same position.
proof fn lemma_first_named_same_names(a: Seq<RaceView>, b: Seq<RaceView>, name: Seq<char>)
    requires
        a.len() == b.len(),
        forall|k: int| 0 <= k < a.len() ==> (#[trigger] a[k]).0 == b[k].0,
    ensures
        first_named(a, name) == first_named(b, name),
    decreases a.len(),
{
    if a.len() > 0 {
        let ta = a.drop_first();
        let tb = b.drop_first();
        assert forall|k: int| 0 <= k < ta.len() implies (#[trigger] ta[k]).0 == tb[k].0 by {
            assert(ta[k] == a[k + 1]);
            assert(tb[k] == b[k + 1]);
        }
        assert(a[0].0 == b[0].0);
        lemma_first_named_same_names(ta, tb, name);
    }
}

/// The position `first_named` gives holds a race of that name.
proof fn lemma_first_named_found(races: Seq<RaceView>, name: Seq<char>)
    ensures
        first_named(races, name) matches Some(k) ==> k < races.len() && races[k as int].0
            == name,
    decreases races.len(),
{
    if races.len() > 0 && races[0].0 != name {
        lemma_first_named_found(races.drop_first(), name);
    }
}

/// After deleting a name no race of that name is left, every race of
/// another name is still there, and nothing else has come in.
pub proof fn law_delete_removes_exactly_named(races: Seq<RaceView>, name: Seq<char>)
    ensures
        forall|i: int|
            0 <= i < races_after_delete(races, name).len() ==> (#[trigger] races_after_delete(
                races,
                name,
            )[i]).0 != name,
        forall|i: int|
            0 <= i < races.len() && (#[trigger] races[i]).0 != name ==> races_after_delete(
                races,
                name,
            ).contains(races[i]),
        forall|r: RaceView| #[trigger]
            races_after_delete(races, name).contains(r) ==> races.contains(r),
{
    let keep = not_named(name);
    assert forall|i: int| 0 <= i < races.filter(keep).len() implies (#[trigger] races.filter(
        keep,
    )[i]).0 != name by {
        races.lemma_filter_pred(keep, i);
    }
    assert forall|i: int| 0 <= i < races.len() && (#[trigger] races[i]).0 != name implies races.filter(
        keep,
    ).contains(races[i]) by {
        races.lemma_filter_contains(keep, i);
    }
    assert forall|r: RaceView| #[trigger] races.filter(keep).contains(r) implies races.contains(
        r,
    ) by {
        races.lemma_filter_contains_rev(keep, r);
    }
}

/// Deleting the same name twice is the same as deleting it once.
pub proof fn law_delete_is_idempotent(races: Seq<RaceView>, name: Seq<char>)
    ensures
        races_after_delete(races_after_delete(races, name), name) == races_after_delete(
            races,
            name,
        ),
{
    let keep = not_named(name);
    let once = races.filter(keep);
    assert forall|i: int| 0 <= i < once.len() implies keep(#[trigger] once[i]) by {
        races.lemma_filter_pred(keep, i);
    }
    lemma_filter_keeps_all(once, keep);
}

/// Deleting a race just added under a name no other race has gives back
/// the races as they were.
pub proof fn law_delete_undoes_add(
    races: Seq<RaceView>,
    name_input: Seq<char>,
    date_input: Seq<char>,
)
    requires
        trim_chars(name_input).len() > 0,
        trim_chars(date_input).len() > 0,
        forall|i: int| 0 <= i < races.len() ==> (#[trigger] races[i]).0 != trim_chars(name_input),
    ensures
        races_after_delete(races_after_add(races, name_input, date_input), trim_chars(name_input))
            == races,
{
    let name = trim_chars(name_input);
    let keep = not_named(name);
    let added = races_after_add(races, name_input, date_input);
    reveal(Seq::filter);
    assert(added.drop_last() =~= races);
    assert(!keep(added.last()));
    assert forall|i: int| 0 <= i < races.len() implies keep(#[trigger] races[i]) by {}
    lemma_filter_keeps_all(races, keep);
}

/// Linking keeps the races, their names and their dates where they were.
pub proof fn law_link_keeps_races(races: Seq<RaceView>, name: Seq<char>, file: Seq<char>)
    ensures
        races_after_link(races, name, file).len() == races.len(),
        forall|k: int|
            0 <= k < races.len() ==> (#[trigger] races_after_link(races, name, file)[k]).0
                == races[k].0 && races_after_link(races, name, file)[k].1 == races[k].1,
{
    lemma_first_named_found(races, name);
}

/// Linking the same file to the same race twice is the same as linking it
/// once.
pub proof fn law_link_is_idempotent(races: Seq<RaceView>, name: Seq<char>, file: Seq<char>)
    ensures
        races_after_link(races_after_link(races, name, file), name, file) == races_after_link(
            races,
            name,
            file,
        ),
{
    let once = races_after_link(races, name, file);
    law_link_keeps_races(races, name, file);
    lemma_first_named_same_names(once, races, name);
    lemma_first_named_found(races, name);
    if let Some(k) = first_named(races, name) {
        if file.len() > 0 && !races[k as int].2.contains(file) {
            assert(once[k as int].2[races[k as int].2.len() as int] == file);
        }
    }
}

/// Linking never puts a file twice into a race's list that had no file
/// twice.
pub proof fn law_link_keeps_links_distinct(races: Seq<RaceView>, name: Seq<char>, file: Seq<char>)
    requires
        forall|k: int| 0 <= k < races.len() ==> (#[trigger] races[k]).2.no_duplicates(),
    ensures
        forall|k: int|
            0 <= k < races.len() ==> (#[trigger] races_after_link(races, name, file)[k]).2.no_duplicates(),
{
    lemma_first_named_found(races, name);
    if let Some(k) = first_named(races, name) {
        if file.len() > 0 && !races[k as int].2.contains(file) {
            let old_files = races[k as int].2;
            crate::files::law_add_keeps_files_distinct(old_files, file);
        }
    }
}

/// Every race's linked files hold no name twice and no empty name.
pub open spec fn links_clean(races: Seq<RaceView>) -> bool {
    forall|k: int|
        0 <= k < races.len() ==> (#[trigger] races[k]).2.no_duplicates() && forall|j: int|
            0 <= j < races[k].2.len() ==> (#[trigger] races[k].2[j]).len() > 0
}

/// Adding, linking and deleting keep every race's linked files free of
/// duplicates and of empty names.
pub proof fn law_race_events_keep_links_clean(
    races: Seq<RaceView>,
    name_input: Seq<char>,
    date_input: Seq<char>,
    name: Seq<char>,
    file: Seq<char>,
)
    requires
        links_clean(races),
    ensures
        links_clean(races_after_add(races, name_input, date_input)),
        links_clean(races_after_link(races, name, file)),
        links_clean(races_after_delete(races, name)),
{
    let added = races_after_add(races, name_input, date_input);
    assert forall|k: int| 0 <= k < added.len() implies (#[trigger] added[k]).2.no_duplicates()
        && forall|j: int| 0 <= j < added[k].2.len() ==> (#[trigger] added[k].2[j]).len() > 0 by {
        if k < races.len() {
            assert(added[k] == races[k]);
        }
    }
    law_link_keeps_links_distinct(races, name, file);
    law_link_takes_only_the_chosen_file(races, name, file);
    let linked = races_after_link(races, name, file);
    lemma_first_named_found(races, name);
    assert forall|k: int| 0 <= k < linked.len() implies (#[trigger] linked[k]).2.no_duplicates()
        && forall|j: int| 0 <= j < linked[k].2.len() ==> (#[trigger] linked[k].2[j]).len() > 0 by {
        assert forall|j: int| 0 <= j < linked[k].2.len() implies (#[trigger] linked[k].2[j]).len()
            > 0 by {
            if races[k].2.contains(linked[k].2[j]) {
                let i: int = choose|i: int| 0 <= i < races[k].2.len() && races[k].2[i] == linked[k].2[j];
                assert(races[k].2[i].len() > 0);
            }
        }
    }
    let deleted = races_after_delete(races, name);
    law_delete_removes_exactly_named(races, name);
    assert forall|k: int| 0 <= k < deleted.len() implies (#[trigger] deleted[k]).2.no_duplicates()
        && forall|j: int| 0 <= j < deleted[k].2.len() ==> (#[trigger] deleted[k].2[j]).len() > 0 by {
        assert(deleted.contains(deleted[k]));
        let i: int = choose|i: int| 0 <= i < races.len() && races[i] == deleted[k];
        assert(races[i] == deleted[k]);
    }
}

/// Linking brings in no name but the chosen file, and that only when it is
/// non-empty; every other linked file was linked to the same race before.
/// On the configuration screen the file is chosen from the imported files.
pub proof fn law_link_takes_only_the_chosen_file(
    races: Seq<RaceView>,
    name: Seq<char>,
    file: Seq<char>,
)
    ensures
        forall|k: int, j: int|
            0 <= k < races.len() && 0 <= j < races_after_link(races, name, file)[k].2.len()
                ==> races[k].2.contains(#[trigger] races_after_link(races, name, file)[k].2[j]) || (
            races_after_link(races, name, file)[k].2[j] == file && file.len() > 0),
{
    law_link_keeps_races(races, name, file);
    lemma_first_named_found(races, name);
    let linked = races_after_link(races, name, file);
    assert forall|k: int, j: int| 0 <= k < races.len() && 0 <= j < linked[k].2.len() implies races[k].2.contains(
        #[trigger] linked[k].2[j],
    ) || (linked[k].2[j] == file && file.len() > 0) by {
        if j < races[k].2.len() {
            assert(linked[k].2[j] == races[k].2[j]);
        }
    }
}

/// Linking a file to a name acts on the first race of that name alone: the
/// file is appended to that race's files exactly when it is non-empty and
/// that race does not hold it yet, whatever the other races hold; every
/// other race stays as it was. Without a race of that name nothing changes.
pub proof fn law_link_appends_to_first_named_race(
    races: Seq<RaceView>,
    name: Seq<char>,
    file: Seq<char>,
    k: int,
)
    ensures
        (0 <= k < races.len() && races[k].0 == name && (forall|j: int|
            0 <= j < k ==> (#[trigger] races[j]).0 != name)) ==> {
            &&& (file.len() > 0 && !races[k].2.contains(file)) ==> races_after_link(
                races,
                name,
                file,
            ) == races.update(k, (races[k].0, races[k].1, races[k].2.push(file)))
            &&& !(file.len() > 0 && !races[k].2.contains(file)) ==> races_after_link(
                races,
                name,
                file,
            ) == races
        },
        (forall|j: int| 0 <= j < races.len() ==> (#[trigger] races[j]).0 != name)
            ==> races_after_link(races, name, file) == races,
{
    if 0 <= k < races.len() && races[k].0 == name && (forall|j: int|
        0 <= j < k ==> (#[trigger] races[j]).0 != name) {
        lemma_first_named_at(races, name, k);
    }
    if forall|j: int| 0 <= j < races.len() ==> (#[trigger] races[j]).0 != name {
        lemma_first_named_none(races, name);
    }
}

} // verus!
