//! The import screen: suggestions drawn from the eligible files as the user
//! types, keyboard navigation through them, and the import of a submitted
//! file once its existence has been confirmed.

use vstd::prelude::*;
use vstd::arithmetic::div_mod::{lemma_mod_self_0, lemma_small_mod};

use crate::files::{files_after_add, FileConfiguration};
use crate::text::{
    contains_chars, is_substring, law_trim_is_idempotent, lowercase, lowercase_chars, occurs_at,
    str_equals, trim_chars, trimmed, views,
};

verus! {

/// How many suggestions the screen shows at most.
pub const MAX_SUGGESTIONS: usize = 10;

/// The keys the suggestion list reacts to.
#[derive(Debug, Clone, Copy, PartialEq, Eq, Structural)]
pub enum NavKey {
    /// Takes over the selected suggestion as the input.
    ArrowRight,
    /// Selects the next suggestion, wrapping around.
    ArrowDown,
    /// Selects the previous suggestion, wrapping around.
    ArrowUp,
    /// Any other key.
    Other,
}

/// The key that a keyboard event's key name stands for.
pub open spec fn key_of(name: Seq<char>) -> NavKey {
    if name == "ArrowRight"@ {
        NavKey::ArrowRight
    } else if name == "ArrowDown"@ {
        NavKey::ArrowDown
    } else if name == "ArrowUp"@ {
        NavKey::ArrowUp
    } else {
        NavKey::Other
    }
}

impl NavKey {
    /// The key named `name`, as keyboard events name them.
    pub fn from_key_name(name: &str) -> (k: NavKey)
        ensures
            k == key_of(name@),
    {
        if str_equals(name, "ArrowRight") {
            NavKey::ArrowRight
        } else if str_equals(name, "ArrowDown") {
            NavKey::ArrowDown
        } else if str_equals(name, "ArrowUp") {
            NavKey::ArrowUp
        } else {
            NavKey::Other
        }
    }
}

/// The index that `ArrowDown` selects among `total` suggestions.
pub open spec fn down_index(current: Option<usize>, total: usize) -> int {
    match current {
        Some(i) => (i + 1) % (total as int),
        None => 0,
    }
}

/// The index that `ArrowUp` selects among `total` suggestions.
pub open spec fn up_index(current: Option<usize>, total: usize) -> int {
    match current {
        Some(i) if i > 0 => (i - 1) % (total as int),
        _ => if total == 0 {
            0
        } else {
            total - 1
        },
    }
}

/// The selection after `key`, with `total` suggestions shown.
pub open spec fn selection_after(key: NavKey, current: Option<usize>, total: usize) -> Option<
    usize,
> {
    match key {
        NavKey::ArrowDown => Some(down_index(current, total) as usize),
        NavKey::ArrowUp => Some(up_index(current, total) as usize),
        _ => current,
    }
}

/// The inputs on which the navigation arithmetic fails: a remainder by zero
/// suggestions, or an index that cannot be incremented.
pub open spec fn key_fails(key: NavKey, current: Option<usize>, total: usize) -> bool {
    match current {
        Some(i) => match key {
            NavKey::ArrowDown => total == 0 || i == usize::MAX,
            NavKey::ArrowUp => i > 0 && total == 0,
            _ => false,
        },
        None => false,
    }
}

/// Whether the navigation arithmetic fails for `key` in this state.
pub fn navigation_fails(key: NavKey, current: Option<usize>, total: usize) -> (r: bool)
    ensures
        r == key_fails(key, current, total),
{
    match current {
        Some(i) => match key {
            NavKey::ArrowDown => total == 0 || i == usize::MAX,
            NavKey::ArrowUp => i > 0 && total == 0,
            _ => false,
        },
        None => false,
    }
}

/// The selection that `key` leads to.
pub fn next_selection(key: NavKey, current: Option<usize>, total: usize) -> (r: Option<usize>)
    requires
        !key_fails(key, current, total),
    ensures
        r == selection_after(key, current, total),
{
    match key {
        NavKey::ArrowDown => match current {
            Some(i) => Some((i + 1) % total),
            None => Some(0),
        },
        NavKey::ArrowUp => match current {
            Some(i) => {
                if i == 0 {
                    Some(total.saturating_sub(1))
                } else {
                    Some((i - 1) % total)
                }
            },
            None => Some(total.saturating_sub(1)),
        },
        _ => current,
    }
}

/// The input after `key`: `ArrowRight` takes over the selected suggestion
/// when there is one at that index; other keys leave the input alone.
pub open spec fn input_after_key(
    key: NavKey,
    current: Option<usize>,
    suggestions: Seq<Seq<char>>,
    input: Seq<char>,
) -> Seq<char> {
    match current {
        Some(i) if key == NavKey::ArrowRight && i < suggestions.len() => suggestions[i as int],
        _ => input,
    }
}

/// The first `limit` of `names` whose lowercase form (`lowered`, position by
/// position) holds `query`, in their order.
pub open spec fn first_matches(
    names: Seq<Seq<char>>,
    lowered: Seq<Seq<char>>,
    query: Seq<char>,
    limit: nat,
) -> Seq<Seq<char>>
    decreases names.len(),
{
    if limit == 0 || names.len() == 0 {
        Seq::empty()
    } else if is_substring(query, lowered[0]) {
        seq![names[0]] + first_matches(
            names.drop_first(),
            lowered.drop_first(),
            query,
            (limit - 1) as nat,
        )
    } else {
        first_matches(names.drop_first(), lowered.drop_first(), query, limit)
    }
}

/// The character sequences of a list of character vectors.
pub open spec fn char_views(v: Seq<Vec<char>>) -> Seq<Seq<char>> {
    v.map_values(|x: Vec<char>| x@)
}

/// The lowercase form of each of `names`.
pub open spec fn lowercase_each(names: Seq<Seq<char>>) -> Seq<Seq<char>> {
    names.map_values(|n: Seq<char>| lowercase(n))
}

/// The suggestions shown for `query` among the eligible files `names`: the
/// first ones whose lowercase form holds the lowercase query.
pub open spec fn suggestions_for(names: Seq<Seq<char>>, query: Seq<char>) -> Seq<Seq<char>> {
    first_matches(names, lowercase_each(names), lowercase(query), MAX_SUGGESTIONS as nat)
}

/// Picks the first `limit` of `names` whose lowercase form, given in
/// `lowered`, holds `query`.
pub fn select_suggestions(
    names: &Vec<String>,
    lowered: &Vec<Vec<char>>,
    query: &Vec<char>,
    limit: usize,
) -> (r: Vec<String>)
    requires
        names.len() == lowered.len(),
    ensures
        views(r@) == first_matches(views(names@), char_views(lowered@), query@, limit as nat),
{
    let ghost all_names = views(names@);
    let ghost all_lowered = char_views(lowered@);
    let mut r: Vec<String> = Vec::new();
    let mut i: usize = 0;
    assert(all_names.skip(0) == all_names);
    assert(all_lowered.skip(0) == all_lowered);
    while i < names.len() && r.len() < limit
        invariant
            names.len() == lowered.len(),
            all_names == views(names@),
            all_lowered == char_views(lowered@),
            i <= names.len(),
            r.len() <= limit,
            views(r@) + first_matches(
                all_names.skip(i as int),
                all_lowered.skip(i as int),
                query@,
                (limit - r.len()) as nat,
            ) == first_matches(all_names, all_lowered, query@, limit as nat),
        decreases names.len() - i,
    {
        let ghost rest_names = all_names.skip(i as int);
        let ghost rest_lowered = all_lowered.skip(i as int);
        assert(rest_names[0] == names@[i as int]@);
        assert(rest_lowered[0] == lowered@[i as int]@);
        assert(rest_names.drop_first() == all_names.skip(i + 1));
        assert(rest_lowered.drop_first() == all_lowered.skip(i + 1));
        if contains_chars(&lowered[i], query) {
            let name = names[i].clone();
            let ghost before = r@;
            r.push(name);
            assert(views(r@) == views(before).push(names@[i as int]@));
        }
        i = i + 1;
    }
    r
}

/// The suggestions for `query` among the eligible files: the first
/// `MAX_SUGGESTIONS` whose lowercase form holds the lowercase query. An
/// empty query shows the first eligible files.
pub fn filter_suggestions(eligible: &Vec<String>, query: &str) -> (r: Vec<String>)
    ensures
        views(r@) == suggestions_for(views(eligible@), query@),
        query@.len() == 0 ==> views(r@) == views(eligible@).take(
            if eligible.len() < MAX_SUGGESTIONS {
                eligible.len() as int
            } else {
                MAX_SUGGESTIONS as int
            },
        ),
{
    let q = lowercase_chars(query);
    let mut lowered: Vec<Vec<char>> = Vec::new();
    let mut i: usize = 0;
    while i < eligible.len()
        invariant
            i <= eligible.len(),
            lowered.len() == i,
            forall|k: int| 0 <= k < i ==> #[trigger] lowered@[k]@ == lowercase(eligible@[k]@),
        decreases eligible.len() - i,
    {
        let l = lowercase_chars(eligible[i].as_str());
        lowered.push(l);
        i = i + 1;
    }
    assert(char_views(lowered@) =~= lowercase_each(views(eligible@)));
    let r = select_suggestions(eligible, &lowered, &q, MAX_SUGGESTIONS);
    proof {
        if query@.len() == 0 {
            assert(q@ =~= Seq::<char>::empty());
            law_empty_query_keeps_order(
                views(eligible@),
                char_views(lowered@),
                MAX_SUGGESTIONS as nat,
            );
        }
    }
    r
}

/// The state of the import screen that its decisions depend on.
#[derive(Clone, Debug)]
pub struct ImportState {
    /// What the input box holds.
    pub user_input: String,
    /// The suggestion selected with the arrow keys, if any.
    pub selected_index: Option<usize>,
}

impl ImportState {
    /// The screen as it opens: an empty input and no selection.
    pub fn new() -> (r: Self)
        ensures
            r.user_input@ == Seq::<char>::empty(),
            r.selected_index is None,
    {
        ImportState { user_input: String::new(), selected_index: None }
    }

    /// The user typed: the input takes the new value and the selection is
    /// dropped.
    pub fn on_input(&mut self, value: String)
        ensures
            final(self).user_input@ == value@,
            final(self).selected_index is None,
    {
        self.user_input = value;
        self.selected_index = None;
    }

    /// The user pressed `key` while `suggestions` are shown.
    pub fn on_key(&mut self, key: NavKey, suggestions: &Vec<String>)
        requires
            !key_fails(key, old(self).selected_index, suggestions.len()),
        ensures
            final(self).selected_index == selection_after(
                key,
                old(self).selected_index,
                suggestions.len(),
            ),
            final(self).user_input@ == input_after_key(
                key,
                old(self).selected_index,
                views(suggestions@),
                old(self).user_input@,
            ),
    {
        if key == NavKey::ArrowRight {
            if let Some(index) = self.selected_index {
                if index < suggestions.len() {
                    self.user_input = suggestions[index].clone();
                }
            }
        }
        self.selected_index = next_selection(key, self.selected_index, suggestions.len());
    }

    /// What a submission of the form asks to import: the trimmed input, or
    /// nothing when that is empty.
    pub fn submission(&self) -> (r: Option<String>)
        ensures
            r is None <==> trim_chars(self.user_input@).len() == 0,
            r matches Some(file) ==> file@ == trim_chars(self.user_input@),
    {
        let file = trimmed(self.user_input.as_str());
        if file.as_str().is_empty() {
            None
        } else {
            Some(file)
        }
    }

    /// The existence check of a submitted `file` came back `exists`: an
    /// existing file is imported unless already there, and the input is
    /// cleared; otherwise nothing changes.
    pub fn on_validated(&mut self, files: &mut FileConfiguration, file: String, exists: bool)
        ensures
            exists ==> final(files)@ == files_after_add(old(files)@, file@),
            exists ==> final(self).user_input@ == Seq::<char>::empty(),
            !exists ==> final(files)@ == old(files)@,
            !exists ==> final(self).user_input == old(self).user_input,
            final(self).selected_index == old(self).selected_index,
    {
        if exists {
            files.add_file(file);
            self.user_input = String::new();
        }
    }
}

/// A list of imported files as the import screen keeps it: no name twice,
/// and every name non-empty and without surrounding white space.
pub open spec fn clean_file_list(files: Seq<Seq<char>>) -> bool {
    &&& files.no_duplicates()
    &&& forall|k: int|
        0 <= k < files.len() ==> (#[trigger] files[k]).len() > 0 && trim_chars(files[k])
            == files[k]
}

/// The imported files after the form is submitted with `input` and the
/// existence check of what `submission` asks for answers `exists`
/// (`on_validated` with the submitted name).
pub open spec fn files_after_import(
    files: Seq<Seq<char>>,
    input: Seq<char>,
    exists: bool,
) -> Seq<Seq<char>> {
    if trim_chars(input).len() > 0 && exists {
        files_after_add(files, trim_chars(input))
    } else {
        files
    }
}

/// An empty list of imported files is clean.
pub proof fn law_new_file_list_is_clean()
    ensures
        clean_file_list(Seq::empty()),
{
}

/// Submitting the form and importing what the existence check confirmed
/// keeps the list clean, and the only name that can come in is the trimmed
/// input, and only when the check said it exists.
pub proof fn law_import_keeps_file_list_clean(files: Seq<Seq<char>>, input: Seq<char>, exists: bool)
    requires
        clean_file_list(files),
    ensures
        clean_file_list(files_after_import(files, input, exists)),
        forall|k: int|
            0 <= k < files_after_import(files, input, exists).len() ==> files.contains(
                #[trigger] files_after_import(files, input, exists)[k],
            ) || (files_after_import(files, input, exists)[k] == trim_chars(input) && exists),
{
    let f = trim_chars(input);
    if f.len() > 0 && exists {
        crate::files::law_add_keeps_files_distinct(files, f);
        law_trim_is_idempotent(input);
        let after = files_after_add(files, f);
        assert forall|k: int| 0 <= k < after.len() implies (#[trigger] after[k]).len() > 0
            && trim_chars(after[k]) == after[k] by {
            if k < files.len() {
                assert(after[k] == files[k]);
            }
        }
        assert forall|k: int| 0 <= k < after.len() implies files.contains(#[trigger] after[k]) || (
        after[k] == f && exists) by {
            if k < files.len() {
                assert(after[k] == files[k]);
            }
        }
    }
}

/// Removing an imported file keeps the list clean and brings in nothing.
pub proof fn law_remove_keeps_file_list_clean(files: Seq<Seq<char>>, index: int)
    requires
        clean_file_list(files),
        0 <= index < files.len(),
    ensures
        clean_file_list(files.remove(index)),
        forall|k: int| 0 <= k < files.remove(index).len() ==> files.contains(
            #[trigger] files.remove(index)[k],
        ),
{
    crate::files::law_remove_keeps_files_distinct(files, index);
    let r = files.remove(index);
    assert forall|k: int| 0 <= k < r.len() implies files.contains(#[trigger] r[k]) && r[k].len()
        > 0 && trim_chars(r[k]) == r[k] by {
        let kk: int = if k < index {
            k
        } else {
            k + 1
        };
        assert(r[k] == files[kk]);
    }
}

/// An empty query matches every name, so the suggestions are the first
/// names in their order.
pub proof fn law_empty_query_keeps_order(
    names: Seq<Seq<char>>,
    lowered: Seq<Seq<char>>,
    limit: nat,
)
    requires
        names.len() == lowered.len(),
    ensures
        first_matches(names, lowered, Seq::empty(), limit) == names.take(
            if names.len() < limit {
                names.len() as int
            } else {
                limit as int
            },
        ),
    decreases names.len(),
{
    if limit == 0 || names.len() == 0 {
        assert(names.take(0) =~= Seq::<Seq<char>>::empty());
    } else {
        assert(lowered[0].subrange(0, 0) == Seq::<char>::empty());
        assert(occurs_at(Seq::empty(), lowered[0], 0));
        law_empty_query_keeps_order(names.drop_first(), lowered.drop_first(), (limit - 1) as nat);
        let n: int = if names.len() < limit {
            names.len() as int
        } else {
            limit as int
        };
        assert(seq![names[0]] + names.drop_first().take(n - 1) =~= names.take(n));
    }
}

/// `x` is one of `names` whose lowercase form holds `query`.
pub open spec fn is_matching_name(
    names: Seq<Seq<char>>,
    lowered: Seq<Seq<char>>,
    query: Seq<char>,
    x: Seq<char>,
) -> bool {
    exists|j: int| 0 <= j < names.len() && names[j] == x && is_substring(query, lowered[j])
}

/// The suggestions are at most `limit` of the names, each of them a name
/// whose lowercase form holds the query.
pub proof fn law_suggestions_are_matching_names(
    names: Seq<Seq<char>>,
    lowered: Seq<Seq<char>>,
    query: Seq<char>,
    limit: nat,
)
    requires
        names.len() == lowered.len(),
    ensures
        first_matches(names, lowered, query, limit).len() <= limit,
        first_matches(names, lowered, query, limit).len() <= names.len(),
        forall|k: int|
            0 <= k < first_matches(names, lowered, query, limit).len() ==> is_matching_name(
                names,
                lowered,
                query,
                #[trigger] first_matches(names, lowered, query, limit)[k],
            ),
    decreases names.len(),
{
    if limit == 0 || names.len() == 0 {
    } else {
        let next_limit: nat = if is_substring(query, lowered[0]) {
            (limit - 1) as nat
        } else {
            limit
        };
        let tail_names = names.drop_first();
        let tail_lowered = lowered.drop_first();
        law_suggestions_are_matching_names(tail_names, tail_lowered, query, next_limit);
        let rest = first_matches(tail_names, tail_lowered, query, next_limit);
        let all = first_matches(names, lowered, query, limit);
        assert forall|k: int| 0 <= k < all.len() implies is_matching_name(
            names,
            lowered,
            query,
            #[trigger] all[k],
        ) by {
            if is_substring(query, lowered[0]) && k == 0 {
                assert(names[0] == all[0]);
            } else {
                let kk: int = if is_substring(query, lowered[0]) {
                    k - 1
                } else {
                    k
                };
                assert(all[k] == rest[kk]);
                assert(is_matching_name(tail_names, tail_lowered, query, rest[kk]));
                let j: int = choose|j: int|
                    0 <= j < tail_names.len() && tail_names[j] == rest[kk] && is_substring(
                        query,
                        tail_lowered[j],
                    );
                assert(names[j + 1] == all[k]);
                assert(lowered[j + 1] == tail_lowered[j]);
            }
        }
    }
}

/// How many of `lowered` hold `query`.
pub open spec fn count_matches(lowered: Seq<Seq<char>>, query: Seq<char>) -> nat
    decreases lowered.len(),
{
    if lowered.len() == 0 {
        0
    } else {
        (if is_substring(query, lowered[0]) {
            1nat
        } else {
            0nat
        }) + count_matches(lowered.drop_first(), query)
    }
}

/// A name that holds the query, with fewer than `limit` matching names
/// before it, is among the first matches, right after those.
proof fn lemma_first_matches_complete(
    names: Seq<Seq<char>>,
    lowered: Seq<Seq<char>>,
    query: Seq<char>,
    limit: nat,
    j: int,
)
    requires
        names.len() == lowered.len(),
        0 <= j < names.len(),
        is_substring(query, lowered[j]),
        count_matches(lowered.take(j), query) < limit,
    ensures
        first_matches(names, lowered, query, limit).len() > count_matches(lowered.take(j), query),
        first_matches(names, lowered, query, limit)[count_matches(lowered.take(j), query) as int]
            == names[j],
    decreases j,
{
    if j == 0 {
        assert(lowered.take(0).len() == 0);
    } else {
        let tail_names = names.drop_first();
        let tail_lowered = lowered.drop_first();
        assert(lowered.take(j).drop_first() =~= tail_lowered.take(j - 1));
        assert(lowered.take(j)[0] == lowered[0]);
        assert(tail_lowered[j - 1] == lowered[j]);
        let next_limit: nat = if is_substring(query, lowered[0]) {
            (limit - 1) as nat
        } else {
            limit
        };
        lemma_first_matches_complete(tail_names, tail_lowered, query, next_limit, j - 1);
    }
}

/// There are as many first matches as there are matching names, up to
/// `limit`.
proof fn lemma_first_matches_len(
    names: Seq<Seq<char>>,
    lowered: Seq<Seq<char>>,
    query: Seq<char>,
    limit: nat,
)
    requires
        names.len() == lowered.len(),
    ensures
        first_matches(names, lowered, query, limit).len() == if count_matches(lowered, query)
            < limit {
            count_matches(lowered, query)
        } else {
            limit
        },
    decreases names.len(),
{
    if names.len() > 0 && limit > 0 {
        let next_limit: nat = if is_substring(query, lowered[0]) {
            (limit - 1) as nat
        } else {
            limit
        };
        lemma_first_matches_len(names.drop_first(), lowered.drop_first(), query, next_limit);
    }
}

/// The suggestions are the first matches of the whole list of eligible
/// files, in order: an eligible file at any position `j` whose lowercase
/// form holds the lowercase query is suggested, at the position given by the
/// number of matching files before it, whenever fewer than
/// `MAX_SUGGESTIONS` files before it match.
pub proof fn law_suggestions_are_the_first_matches(
    names: Seq<Seq<char>>,
    query: Seq<char>,
    j: int,
)
    requires
        0 <= j < names.len(),
        is_substring(lowercase(query), lowercase(names[j])),
        count_matches(lowercase_each(names).take(j), lowercase(query)) < MAX_SUGGESTIONS,
    ensures
        suggestions_for(names, query).len() > count_matches(
            lowercase_each(names).take(j),
            lowercase(query),
        ),
        suggestions_for(names, query)[count_matches(
            lowercase_each(names).take(j),
            lowercase(query),
        ) as int] == names[j],
{
    assert(lowercase_each(names)[j] == lowercase(names[j]));
    lemma_first_matches_complete(
        names,
        lowercase_each(names),
        lowercase(query),
        MAX_SUGGESTIONS as nat,
        j,
    );
}

/// As many files are suggested as match the query, up to
/// `MAX_SUGGESTIONS`; each suggestion is an eligible file that matches.
pub proof fn law_suggestion_count(names: Seq<Seq<char>>, query: Seq<char>)
    ensures
        suggestions_for(names, query).len() == if count_matches(
            lowercase_each(names),
            lowercase(query),
        ) < MAX_SUGGESTIONS {
            count_matches(lowercase_each(names), lowercase(query))
        } else {
            MAX_SUGGESTIONS as nat
        },
        forall|k: int|
            0 <= k < suggestions_for(names, query).len() ==> is_matching_name(
                names,
                lowercase_each(names),
                lowercase(query),
                #[trigger] suggestions_for(names, query)[k],
            ),
{
    lemma_first_matches_len(names, lowercase_each(names), lowercase(query), MAX_SUGGESTIONS as nat);
    law_suggestions_are_matching_names(
        names,
        lowercase_each(names),
        lowercase(query),
        MAX_SUGGESTIONS as nat,
    );
}

/// ArrowRight copies the selected suggestion, whichever it is, into the
/// input and keeps the selection; with no suggestion at the selected index
/// it leaves the input alone, and no other key changes the input.
pub proof fn law_arrow_right_takes_selected(
    current: Option<usize>,
    suggestions: Seq<Seq<char>>,
    input: Seq<char>,
    key: NavKey,
    total: usize,
)
    ensures
        forall|i: usize|
            current == Some(i) && i < suggestions.len() ==> input_after_key(
                NavKey::ArrowRight,
                current,
                suggestions,
                input,
            ) == suggestions[i as int],
        (current is None || current->0 >= suggestions.len()) ==> input_after_key(
            NavKey::ArrowRight,
            current,
            suggestions,
            input,
        ) == input,
        key != NavKey::ArrowRight ==> input_after_key(key, current, suggestions, input) == input,
        selection_after(NavKey::ArrowRight, current, total) == current,
        selection_after(NavKey::Other, current, total) == current,
{
}

/// Moving down and then up returns to the suggestion that was selected.
pub proof fn law_up_undoes_down(i: usize, total: usize)
    requires
        i < total,
    ensures
        up_index(Some(down_index(Some(i), total) as usize), total) == i,
        0 <= down_index(Some(i), total) < total,
{
    if i + 1 < total {
        lemma_small_mod((i + 1) as nat, total as nat);
        lemma_small_mod(i as nat, total as nat);
    } else {
        lemma_mod_self_0(total as int);
    }
}

/// Moving up and then down returns to the suggestion that was selected.
pub proof fn law_down_undoes_up(i: usize, total: usize)
    requires
        i < total,
    ensures
        down_index(Some(up_index(Some(i), total) as usize), total) == i,
        0 <= up_index(Some(i), total) < total,
{
    if i > 0 {
        lemma_small_mod((i - 1) as nat, total as nat);
        lemma_small_mod(i as nat, total as nat);
    } else {
        lemma_mod_self_0(total as int);
    }
}

/// With at least one suggestion shown, the arrow keys always select one of
/// them.
pub proof fn law_selection_stays_in_range(key: NavKey, current: Option<usize>, total: usize)
    requires
        total > 0,
        current matches Some(i) ==> i < total,
        key == NavKey::ArrowDown || key == NavKey::ArrowUp,
    ensures
        selection_after(key, current, total) matches Some(j) && j < total,
{
    if let Some(i) = current {
        law_up_undoes_down(i, total);
        law_down_undoes_up(i, total);
    }
}

} // verus!
